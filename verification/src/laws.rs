//! What lowered nodes compute.
//!
//! The laws here speak of every reading that a plan holds in: they say what the
//! outputs of a node are in terms of its inputs, element by element.
pub mod recurrent;
pub mod weights;
pub mod routing;
pub mod attention;
pub mod rotation;
pub mod einsum;
pub mod experts;
pub mod blocks;
pub mod products;
pub mod embedding;
pub mod parameters;
