//! Lowers ONNX models to WebNN graphs.
//!
//! [`convert`] checks a model and holds the state while its nodes are lowered;
//! [`ops`] lowers each node to steps that a [`builder::OnnxBuilder`] records.
use vstd::prelude::*;

pub mod arith;
pub mod builder;
pub mod bytes;
pub mod context;
pub mod convert;
pub mod error;
pub mod external;
pub mod floats;
pub mod hub;
pub mod inline_if;
pub mod json;
pub mod laws;
pub mod lower;
pub mod meaning;
pub mod names;
pub mod ops;
pub mod options;
pub mod overrides;
pub mod pin;
pub mod plans;
pub mod probe;
pub mod progress;
pub mod protos;
pub mod prune;
pub mod registry;
pub mod sources;
pub mod tensors;
pub mod text;
pub mod types;
