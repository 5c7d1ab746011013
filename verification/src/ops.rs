//! Operator handlers.
use crate::builder;
use crate::builder::{
    BinaryOp, BuilderOp, ConstData, ConstDataV, OnnxBuilder, OpV, Operand, OperandV, list1,
};
use crate::error::{ErrorV, OnnxError};
use crate::floats::FloatBits;
use crate::names::NameMap;
use crate::types::DataType;
use vstd::prelude::*;

pub mod attention;
pub mod einsum;
pub mod matmul;
pub mod moe;
pub mod rnn;

verus! {

/// What a lowered node tells the converter: the types of some of its outputs.
pub struct ConversionResult {
    pub output_types: NameMap<DataType>,
}

impl View for ConversionResult {
    type V = Map<Seq<char>, DataType>;

    open spec fn view(&self) -> Map<Seq<char>, DataType> {
        self.output_types@
    }
}

impl ConversionResult {
    /// A result that tells nothing.
    pub fn none() -> (r: Self)
        ensures
            r@ == Map::<Seq<char>, DataType>::empty(),
    {
        ConversionResult { output_types: NameMap::new() }
    }
}

/// The outcome of lowering a node: the steps so far, and the output types or
/// the error.
pub struct NodeOutcome {
    pub ops: Seq<OpV>,
    pub result: Result<Map<Seq<char>, DataType>, ErrorV>,
}

/// The outcome of lowering a part of a node: the steps so far, and the operand
/// or the error.
pub struct PartOutcome {
    pub ops: Seq<OpV>,
    pub result: Result<OperandV, ErrorV>,
}

pub open spec fn node_outcome(ops: Seq<OpV>, r: Result<ConversionResult, OnnxError>) -> NodeOutcome {
    NodeOutcome {
        ops,
        result: match r {
            Ok(c) => Ok(c@),
            Err(e) => Err(e@),
        },
    }
}

pub open spec fn part_outcome(ops: Seq<OpV>, r: Result<Operand, OnnxError>) -> PartOutcome {
    PartOutcome {
        ops,
        result: match r {
            Ok(o) => Ok(o@),
            Err(e) => Err(e@),
        },
    }
}

pub open spec fn node_done(ops: Seq<OpV>) -> NodeOutcome {
    NodeOutcome { ops, result: Ok(Map::empty()) }
}

pub open spec fn node_failed(ops: Seq<OpV>, e: ErrorV) -> NodeOutcome {
    NodeOutcome { ops, result: Err(e) }
}

/// The steps with the operand recorded under a node output, where there is one.
pub open spec fn recorded(
    ops: Seq<OpV>,
    output: Option<Seq<char>>,
    label: Seq<char>,
    operand: OperandV,
) -> Seq<OpV> {
    match output {
        Some(n) => ops.push(OpV::RecordOutput { output: n, label, operand }),
        None => ops,
    }
}

/// Records the operand under a node output, where there is one.
pub fn record_if(b: &mut OnnxBuilder, output: Option<&String>, label: String, operand: Operand)
    ensures
        final(b)@ == recorded(
            old(b)@,
            match output {
                Some(n) => Some(n@),
                None => None,
            },
            label@,
            operand@,
        ),
{
    if let Some(n) = output {
        b.record_output(n, label, operand);
    }
}

/// The steps with the operand recorded under a node output, or under the label
/// where there is none.
pub open spec fn recorded_or_named(
    ops: Seq<OpV>,
    output: Option<Seq<char>>,
    label: Seq<char>,
    operand: OperandV,
) -> Seq<OpV> {
    match output {
        Some(n) => ops.push(OpV::RecordOutput { output: n, label, operand }),
        None => ops.push(OpV::Record { name: label, operand }),
    }
}

/// Records the operand under a node output, or under the label where there is
/// none.
pub fn record_or_name(b: &mut OnnxBuilder, output: Option<&String>, label: String, operand: Operand)
    ensures
        final(b)@ == recorded_or_named(
            old(b)@,
            match output {
                Some(n) => Some(n@),
                None => None,
            },
            label@,
            operand@,
        ),
{
    match output {
        Some(n) => {
            b.record_output(n, label, operand);
        },
        None => {
            b.push(BuilderOp::Record { name: label, operand });
        },
    }
}

/// Steps and the operand they lead to.
pub struct Part {
    pub ops: Seq<OpV>,
    pub operand: OperandV,
}

/// The steps with a lookup of a name appended.
pub open spec fn resolved(ops: Seq<OpV>, name: Seq<char>) -> Seq<OpV> {
    ops.push(OpV::Resolve { name })
}

/// A step on two operands.
pub open spec fn binary_op(op: BinaryOp, a: OperandV, b: OperandV, label: Seq<char>) -> OpV {
    OpV::Binary { op, a, b, label }
}

/// Constants are float16 beside float16 operands, and float32 otherwise.
pub open spec fn float_type(dtype: DataType) -> DataType {
    if dtype == DataType::Float16 {
        DataType::Float16
    } else {
        DataType::Float32
    }
}

pub fn float_type_of(dtype: DataType) -> (r: DataType)
    ensures
        r == float_type(dtype),
{
    match dtype {
        DataType::Float16 => DataType::Float16,
        _ => DataType::Float32,
    }
}

/// A one-element constant under a name, and a lookup of it.
pub open spec fn scalar_steps(
    ops: Seq<OpV>,
    name: Seq<char>,
    dtype: DataType,
    value: u32,
) -> Seq<OpV> {
    resolved(
        ops.push(
            OpV::Constant {
                name,
                dtype: float_type(dtype),
                shape: seq![1],
                data: ConstDataV::Floats(seq![FloatBits::Single(value)]),
            },
        ),
        name,
    )
}

/// Declares a one-element constant (a float32 pattern) and looks it up.
pub fn scalar_const(b: &mut OnnxBuilder, name: &String, dtype: DataType, value: u32) -> (r: Operand)
    ensures
        final(b)@ == scalar_steps(old(b)@, name@, dtype, value),
        r@ == builder::last_operand(final(b)@),
{
    b.constant(
        name,
        float_type_of(dtype),
        list1(1),
        ConstData::Floats(list1(FloatBits::Single(value))),
    );
    b.resolve(name)
}

} // verus!
