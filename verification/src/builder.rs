//! The sequence of graph-building steps a model is lowered to.
//!
//! Lowering appends steps to an [`OnnxBuilder`]; whoever owns a WebNN graph
//! builder performs them in order. A step that produces operands is referred
//! to by its position, so a plan can be checked without running it.
use crate::floats::FloatBits;
use crate::types::{DataType, Dims, DimensionV};
use vstd::prelude::*;

verus! {

/// The operand that step number `step` produces at position `output`.
#[derive(Debug, Clone, Copy, PartialEq, Eq, Structural)]
pub struct Operand {
    pub step: usize,
    pub output: usize,
}

#[derive(Debug, Clone, Copy, PartialEq, Eq, Structural)]
pub enum BinaryOp {
    Add,
    Sub,
    Mul,
    Div,
    Equal,
    Matmul,
}

#[derive(Debug, Clone, Copy, PartialEq, Eq, Structural)]
pub enum UnaryOp {
    Relu,
    Gelu,
    Sigmoid,
}

#[derive(Debug, Clone, Copy, PartialEq, Eq, Structural)]
pub enum ReduceOp {
    Max,
    Sum,
}

/// The direction of a recurrent layer.
#[derive(Debug, Clone, Copy, PartialEq, Eq, Structural)]
pub enum Direction {
    Forward,
    Backward,
    Both,
}

/// The payload of a constant.
#[derive(Debug, PartialEq, Eq)]
pub enum ConstData {
    /// The payload itself.
    Bytes(Vec<u8>),
    /// The reciprocal of the square root of a number, in the constant's type.
    InverseSqrt(i64),
    /// The elements by their bit patterns, to be rounded to the constant's type.
    Floats(Vec<FloatBits>),
    /// For each element the float32 product of two values, given by their bit
    /// patterns, to be rounded to the constant's type.
    Products(Vec<(FloatBits, FloatBits)>),
}

/// One step. Floating-point options are float32 bit patterns.
#[allow(inconsistent_fields)]
#[derive(Debug, PartialEq, Eq)]
pub enum BuilderOp {
    /// Declare a graph input.
    Input { name: String, dtype: DataType, shape: Dims },
    /// Note that a name stands for an absent optional value.
    MarkEmptyOptional { name: String },
    /// Declare a constant under a name.
    Constant { name: String, dtype: DataType, shape: Vec<u32>, data: ConstData },
    /// Look up the operand recorded under a name.
    Resolve { name: String },
    Binary { op: BinaryOp, a: Operand, b: Operand, label: String },
    Unary { op: UnaryOp, input: Operand, label: String },
    Reduce { op: ReduceOp, input: Operand, axes: Vec<u32>, keep_dimensions: bool, label: String },
    Softmax { input: Operand, axis: u32, label: String },
    Cast { input: Operand, dtype: DataType, label: String },
    Clamp { input: Operand, min: Option<u32>, max: Option<u32>, label: String },
    Transpose { input: Operand, permutation: Vec<u32>, label: String },
    Reshape { input: Operand, shape: Vec<i64>, label: String },
    Expand { input: Operand, shape: Vec<i64>, label: String },
    /// `strides` is empty where every stride is one.
    Slice {
        input: Operand,
        starts: Vec<u32>,
        sizes: Vec<i64>,
        strides: Vec<u32>,
        label: String,
    },
    /// Produces one operand for each entry of `sizes`.
    Split { input: Operand, sizes: Vec<u32>, axis: u32, label: String },
    Concat { inputs: Vec<Operand>, axis: u32, label: String },
    Gather { input: Operand, indices: Operand, axis: u32, label: String },
    Squeeze { input: Operand, axes: Vec<u32>, label: String },
    Gemm {
        a: Operand,
        b: Operand,
        c: Option<Operand>,
        alpha: u32,
        beta: u32,
        a_transpose: bool,
        b_transpose: bool,
        label: String,
    },
    Dequantize { input: Operand, scale: Operand, zero_point: Operand },
    /// Produces the hidden state and, on request, the sequence.
    Gru {
        x: Operand,
        w: Operand,
        r: Operand,
        steps: u32,
        hidden_size: u32,
        bias: Option<Operand>,
        recurrent_bias: Option<Operand>,
        return_sequence: bool,
        direction: Direction,
        reset_after: bool,
        label: String,
    },
    /// Produces the hidden state, the cell state and, on request, the sequence.
    Lstm {
        x: Operand,
        w: Operand,
        r: Operand,
        steps: u32,
        hidden_size: u32,
        bias: Option<Operand>,
        recurrent_bias: Option<Operand>,
        initial_hidden_state: Option<Operand>,
        initial_cell_state: Option<Operand>,
        return_sequence: bool,
        direction: Direction,
        label: String,
    },
    /// Record the operand of a node output under its ONNX name and a label.
    RecordOutput { output: String, label: String, operand: Operand },
    /// Record an operand under a name.
    Record { name: String, operand: Operand },
}

// ---------------------------------------------------------------------------
// Views
// ---------------------------------------------------------------------------

pub struct OperandV {
    pub step: int,
    pub output: int,
}

pub enum ConstDataV {
    Bytes(Seq<u8>),
    InverseSqrt(i64),
    Floats(Seq<FloatBits>),
    Products(Seq<(FloatBits, FloatBits)>),
}

#[allow(inconsistent_fields)]
pub enum OpV {
    Input { name: Seq<char>, dtype: DataType, shape: Seq<DimensionV> },
    MarkEmptyOptional { name: Seq<char> },
    Constant { name: Seq<char>, dtype: DataType, shape: Seq<u32>, data: ConstDataV },
    Resolve { name: Seq<char> },
    Binary { op: BinaryOp, a: OperandV, b: OperandV, label: Seq<char> },
    Unary { op: UnaryOp, input: OperandV, label: Seq<char> },
    Reduce {
        op: ReduceOp,
        input: OperandV,
        axes: Seq<u32>,
        keep_dimensions: bool,
        label: Seq<char>,
    },
    Softmax { input: OperandV, axis: u32, label: Seq<char> },
    Cast { input: OperandV, dtype: DataType, label: Seq<char> },
    Clamp { input: OperandV, min: Option<u32>, max: Option<u32>, label: Seq<char> },
    Transpose { input: OperandV, permutation: Seq<u32>, label: Seq<char> },
    Reshape { input: OperandV, shape: Seq<i64>, label: Seq<char> },
    Expand { input: OperandV, shape: Seq<i64>, label: Seq<char> },
    Slice {
        input: OperandV,
        starts: Seq<u32>,
        sizes: Seq<i64>,
        strides: Seq<u32>,
        label: Seq<char>,
    },
    Split { input: OperandV, sizes: Seq<u32>, axis: u32, label: Seq<char> },
    Concat { inputs: Seq<OperandV>, axis: u32, label: Seq<char> },
    Gather { input: OperandV, indices: OperandV, axis: u32, label: Seq<char> },
    Squeeze { input: OperandV, axes: Seq<u32>, label: Seq<char> },
    Gemm {
        a: OperandV,
        b: OperandV,
        c: Option<OperandV>,
        alpha: u32,
        beta: u32,
        a_transpose: bool,
        b_transpose: bool,
        label: Seq<char>,
    },
    Dequantize { input: OperandV, scale: OperandV, zero_point: OperandV },
    Gru {
        x: OperandV,
        w: OperandV,
        r: OperandV,
        steps: u32,
        hidden_size: u32,
        bias: Option<OperandV>,
        recurrent_bias: Option<OperandV>,
        return_sequence: bool,
        direction: Direction,
        reset_after: bool,
        label: Seq<char>,
    },
    Lstm {
        x: OperandV,
        w: OperandV,
        r: OperandV,
        steps: u32,
        hidden_size: u32,
        bias: Option<OperandV>,
        recurrent_bias: Option<OperandV>,
        initial_hidden_state: Option<OperandV>,
        initial_cell_state: Option<OperandV>,
        return_sequence: bool,
        direction: Direction,
        label: Seq<char>,
    },
    RecordOutput { output: Seq<char>, label: Seq<char>, operand: OperandV },
    Record { name: Seq<char>, operand: OperandV },
}

impl View for Operand {
    type V = OperandV;

    open spec fn view(&self) -> OperandV {
        OperandV { step: self.step as int, output: self.output as int }
    }
}

impl View for ConstData {
    type V = ConstDataV;

    open spec fn view(&self) -> ConstDataV {
        match self {
            ConstData::Bytes(v) => ConstDataV::Bytes(v@),
            ConstData::InverseSqrt(n) => ConstDataV::InverseSqrt(*n),
            ConstData::Floats(v) => ConstDataV::Floats(v@),
            ConstData::Products(v) => ConstDataV::Products(v@),
        }
    }
}

pub open spec fn operand_opt(o: Option<Operand>) -> Option<OperandV> {
    match o {
        Some(v) => Some(v@),
        None => None,
    }
}

pub open spec fn operands_v(v: Seq<Operand>) -> Seq<OperandV> {
    Seq::new(v.len(), |i: int| v[i]@)
}

impl View for BuilderOp {
    type V = OpV;

    open spec fn view(&self) -> OpV {
        match self {
            BuilderOp::Input { name, dtype, shape } => OpV::Input {
                name: name@,
                dtype: *dtype,
                shape: shape@,
            },
            BuilderOp::MarkEmptyOptional { name } => OpV::MarkEmptyOptional { name: name@ },
            BuilderOp::Constant { name, dtype, shape, data } => OpV::Constant {
                name: name@,
                dtype: *dtype,
                shape: shape@,
                data: data@,
            },
            BuilderOp::Resolve { name } => OpV::Resolve { name: name@ },
            BuilderOp::Binary { op, a, b, label } => OpV::Binary {
                op: *op,
                a: a@,
                b: b@,
                label: label@,
            },
            BuilderOp::Unary { op, input, label } => OpV::Unary {
                op: *op,
                input: input@,
                label: label@,
            },
            BuilderOp::Reduce { op, input, axes, keep_dimensions, label } => OpV::Reduce {
                op: *op,
                input: input@,
                axes: axes@,
                keep_dimensions: *keep_dimensions,
                label: label@,
            },
            BuilderOp::Softmax { input, axis, label } => OpV::Softmax {
                input: input@,
                axis: *axis,
                label: label@,
            },
            BuilderOp::Cast { input, dtype, label } => OpV::Cast {
                input: input@,
                dtype: *dtype,
                label: label@,
            },
            BuilderOp::Clamp { input, min, max, label } => OpV::Clamp {
                input: input@,
                min: *min,
                max: *max,
                label: label@,
            },
            BuilderOp::Transpose { input, permutation, label } => OpV::Transpose {
                input: input@,
                permutation: permutation@,
                label: label@,
            },
            BuilderOp::Reshape { input, shape, label } => OpV::Reshape {
                input: input@,
                shape: shape@,
                label: label@,
            },
            BuilderOp::Expand { input, shape, label } => OpV::Expand {
                input: input@,
                shape: shape@,
                label: label@,
            },
            BuilderOp::Slice { input, starts, sizes, strides, label } => OpV::Slice {
                input: input@,
                starts: starts@,
                sizes: sizes@,
                strides: strides@,
                label: label@,
            },
            BuilderOp::Split { input, sizes, axis, label } => OpV::Split {
                input: input@,
                sizes: sizes@,
                axis: *axis,
                label: label@,
            },
            BuilderOp::Concat { inputs, axis, label } => OpV::Concat {
                inputs: operands_v(inputs@),
                axis: *axis,
                label: label@,
            },
            BuilderOp::Gather { input, indices, axis, label } => OpV::Gather {
                input: input@,
                indices: indices@,
                axis: *axis,
                label: label@,
            },
            BuilderOp::Squeeze { input, axes, label } => OpV::Squeeze {
                input: input@,
                axes: axes@,
                label: label@,
            },
            BuilderOp::Gemm { a, b, c, alpha, beta, a_transpose, b_transpose, label } => OpV::Gemm {
                a: a@,
                b: b@,
                c: operand_opt(*c),
                alpha: *alpha,
                beta: *beta,
                a_transpose: *a_transpose,
                b_transpose: *b_transpose,
                label: label@,
            },
            BuilderOp::Dequantize { input, scale, zero_point } => OpV::Dequantize {
                input: input@,
                scale: scale@,
                zero_point: zero_point@,
            },
            BuilderOp::Gru {
                x,
                w,
                r,
                steps,
                hidden_size,
                bias,
                recurrent_bias,
                return_sequence,
                direction,
                reset_after,
                label,
            } => OpV::Gru {
                x: x@,
                w: w@,
                r: r@,
                steps: *steps,
                hidden_size: *hidden_size,
                bias: operand_opt(*bias),
                recurrent_bias: operand_opt(*recurrent_bias),
                return_sequence: *return_sequence,
                direction: *direction,
                reset_after: *reset_after,
                label: label@,
            },
            BuilderOp::Lstm {
                x,
                w,
                r,
                steps,
                hidden_size,
                bias,
                recurrent_bias,
                initial_hidden_state,
                initial_cell_state,
                return_sequence,
                direction,
                label,
            } => OpV::Lstm {
                x: x@,
                w: w@,
                r: r@,
                steps: *steps,
                hidden_size: *hidden_size,
                bias: operand_opt(*bias),
                recurrent_bias: operand_opt(*recurrent_bias),
                initial_hidden_state: operand_opt(*initial_hidden_state),
                initial_cell_state: operand_opt(*initial_cell_state),
                return_sequence: *return_sequence,
                direction: *direction,
                label: label@,
            },
            BuilderOp::RecordOutput { output, label, operand } => OpV::RecordOutput {
                output: output@,
                label: label@,
                operand: operand@,
            },
            BuilderOp::Record { name, operand } => OpV::Record { name: name@, operand: operand@ },
        }
    }
}

// ---------------------------------------------------------------------------
// Well-formed plans
// ---------------------------------------------------------------------------

/// How many operands a step produces.
pub open spec fn produced(op: OpV) -> int {
    match op {
        OpV::Input { .. } => 0,
        OpV::MarkEmptyOptional { .. } => 0,
        OpV::Constant { .. } => 0,
        OpV::RecordOutput { .. } => 0,
        OpV::Record { .. } => 0,
        OpV::Split { sizes, .. } => sizes.len() as int,
        OpV::Gru { return_sequence, .. } => if return_sequence {
            2
        } else {
            1
        },
        OpV::Lstm { return_sequence, .. } => if return_sequence {
            3
        } else {
            2
        },
        _ => 1,
    }
}

/// The operand is one that a step of `ops` produces.
#[verifier::opaque]
pub open spec fn defined(ops: Seq<OpV>, o: OperandV) -> bool {
    0 <= o.step < ops.len() && 0 <= o.output < produced(ops[o.step])
}

pub open spec fn defined_opt(ops: Seq<OpV>, o: Option<OperandV>) -> bool {
    o matches Some(v) ==> defined(ops, v)
}

/// Every operand a step reads is one that `ops` produces.
pub open spec fn reads_defined(ops: Seq<OpV>, op: OpV) -> bool {
    match op {
        OpV::Input { .. } => true,
        OpV::MarkEmptyOptional { .. } => true,
        OpV::Constant { .. } => true,
        OpV::Resolve { .. } => true,
        OpV::Binary { a, b, .. } => defined(ops, a) && defined(ops, b),
        OpV::Unary { input, .. } => defined(ops, input),
        OpV::Reduce { input, .. } => defined(ops, input),
        OpV::Softmax { input, .. } => defined(ops, input),
        OpV::Cast { input, .. } => defined(ops, input),
        OpV::Clamp { input, .. } => defined(ops, input),
        OpV::Transpose { input, .. } => defined(ops, input),
        OpV::Reshape { input, .. } => defined(ops, input),
        OpV::Expand { input, .. } => defined(ops, input),
        OpV::Slice { input, .. } => defined(ops, input),
        OpV::Split { input, .. } => defined(ops, input),
        OpV::Concat { inputs, .. } => forall|i: int|
            0 <= i < inputs.len() ==> defined(ops, #[trigger] inputs[i]),
        OpV::Gather { input, indices, .. } => defined(ops, input) && defined(ops, indices),
        OpV::Squeeze { input, .. } => defined(ops, input),
        OpV::Gemm { a, b, c, .. } => defined(ops, a) && defined(ops, b) && defined_opt(ops, c),
        OpV::Dequantize { input, scale, zero_point } => defined(ops, input) && defined(ops, scale)
            && defined(ops, zero_point),
        OpV::Gru { x, w, r, bias, recurrent_bias, .. } => defined(ops, x) && defined(ops, w)
            && defined(ops, r) && defined_opt(ops, bias) && defined_opt(ops, recurrent_bias),
        OpV::Lstm {
            x,
            w,
            r,
            bias,
            recurrent_bias,
            initial_hidden_state,
            initial_cell_state,
            ..
        } => defined(ops, x) && defined(ops, w) && defined(ops, r) && defined_opt(ops, bias)
            && defined_opt(ops, recurrent_bias) && defined_opt(ops, initial_hidden_state)
            && defined_opt(ops, initial_cell_state),
        OpV::RecordOutput { operand, .. } => defined(ops, operand),
        OpV::Record { operand, .. } => defined(ops, operand),
    }
}

/// Every step reads only operands of earlier steps.
#[verifier::opaque]
pub open spec fn well_formed(ops: Seq<OpV>) -> bool {
    forall|i: int| 0 <= i < ops.len() ==> reads_defined(ops.take(i), #[trigger] ops[i])
}

/// `more` begins with the steps of `ops` and is well formed.
#[verifier::opaque]
pub open spec fn continues(ops: Seq<OpV>, more: Seq<OpV>) -> bool {
    &&& well_formed(more)
    &&& ops.len() <= more.len()
    &&& forall|i: int| 0 <= i < ops.len() ==> #[trigger] more[i] == ops[i]
}

/// A plan continues itself.
pub broadcast proof fn lemma_continues_same(ops: Seq<OpV>)
    requires
        well_formed(ops),
    ensures
        #[trigger] continues(ops, ops),
{
    reveal(continues);
}

/// What continues a plan is well formed.
pub broadcast proof fn lemma_continues_well_formed(ops: Seq<OpV>, more: Seq<OpV>)
    requires
        #[trigger] continues(ops, more),
    ensures
        well_formed(more),
{
    reveal(continues);
}

/// A plan stays well formed when a step that reads its operands is appended.
pub broadcast proof fn lemma_continues_push(first: Seq<OpV>, ops: Seq<OpV>, op: OpV)
    requires
        continues(first, ops),
        reads_defined(ops, op),
    ensures
        #[trigger] continues(first, ops.push(op)),
{
    reveal(continues);
    reveal(well_formed);
    let p = ops.push(op);
    assert forall|i: int| 0 <= i < p.len() implies reads_defined(p.take(i), #[trigger] p[i]) by {
        if i < ops.len() {
            assert(p.take(i) =~= ops.take(i));
            assert(p[i] == ops[i]);
        } else {
            assert(p.take(i) =~= ops);
        }
    }
}

/// An operand stays defined when a step is appended.
pub broadcast proof fn lemma_defined_push(ops: Seq<OpV>, op: OpV, o: OperandV)
    requires
        defined(ops, o),
    ensures
        #[trigger] defined(ops.push(op), o),
{
    reveal(defined);
}

/// The operand of a step that was just appended is defined.
pub broadcast proof fn lemma_defined_last(ops: Seq<OpV>, op: OpV)
    requires
        produced(op) > 0,
    ensures
        #[trigger] defined(ops.push(op), last_operand(ops.push(op))),
{
    reveal(defined);
}

/// An operand stays defined as a plan grows.
pub proof fn lemma_defined_continues(ops: Seq<OpV>, more: Seq<OpV>, o: OperandV)
    requires
        continues(ops, more),
        defined(ops, o),
    ensures
        defined(more, o),
{
    reveal(continues);
    reveal(defined);
}

/// Growing twice is growing.
pub proof fn lemma_continues_trans(a: Seq<OpV>, b: Seq<OpV>, c: Seq<OpV>)
    requires
        continues(a, b),
        continues(b, c),
    ensures
        continues(a, c),
{
    reveal(continues);
}

pub broadcast group group_plans {
    lemma_continues_same,
    lemma_continues_well_formed,
    lemma_continues_push,
    lemma_defined_push,
    lemma_defined_last,
}

// ---------------------------------------------------------------------------
// Recording
// ---------------------------------------------------------------------------

/// The operand that the last step of a plan produces.
pub open spec fn last_operand(ops: Seq<OpV>) -> OperandV {
    OperandV { step: ops.len() - 1, output: 0 }
}

/// Records graph-building steps.
#[derive(Debug, PartialEq, Eq)]
pub struct OnnxBuilder {
    pub steps: Vec<BuilderOp>,
}

pub open spec fn ops_v(v: Seq<BuilderOp>) -> Seq<OpV> {
    Seq::new(v.len(), |i: int| v[i]@)
}

impl View for OnnxBuilder {
    type V = Seq<OpV>;

    open spec fn view(&self) -> Seq<OpV> {
        ops_v(self.steps@)
    }
}

impl OnnxBuilder {
    /// A builder with no steps.
    pub fn new() -> (r: Self)
        ensures
            r@ == Seq::<OpV>::empty(),
    {
        let r = OnnxBuilder { steps: Vec::new() };
        assert(r@ =~= Seq::<OpV>::empty());
        r
    }

    /// Appends a step and names the operand it produces.
    pub fn push(&mut self, op: BuilderOp) -> (r: Operand)
        ensures
            final(self)@ == old(self)@.push(op@),
            r@ == last_operand(final(self)@),
    {
        let ghost v = op@;
        let step: usize = self.steps.len();
        self.steps.push(op);
        assert(self@ =~= old(self)@.push(v));
        Operand { step, output: 0 }
    }

    pub fn resolve(&mut self, name: &String) -> (r: Operand)
        ensures
            final(self)@ == old(self)@.push((OpV::Resolve { name: name@ })),
            r@ == last_operand(final(self)@),
    {
        self.push(BuilderOp::Resolve { name: name.clone() })
    }

    pub fn constant(&mut self, name: &String, dtype: DataType, shape: Vec<u32>, data: ConstData)
        ensures
            final(self)@ == old(self)@.push(
                (OpV::Constant { name: name@, dtype, shape: shape@, data: data@ }),
            ),
    {
        self.push(BuilderOp::Constant { name: name.clone(), dtype, shape, data });
    }

    pub fn binary(&mut self, op: BinaryOp, a: Operand, b: Operand, label: String) -> (r: Operand)
        ensures
            final(self)@ == old(self)@.push((OpV::Binary { op, a: a@, b: b@, label: label@ })),
            r@ == last_operand(final(self)@),
    {
        self.push(BuilderOp::Binary { op, a, b, label })
    }

    pub fn unary(&mut self, op: UnaryOp, input: Operand, label: String) -> (r: Operand)
        ensures
            final(self)@ == old(self)@.push((OpV::Unary { op, input: input@, label: label@ })),
            r@ == last_operand(final(self)@),
    {
        self.push(BuilderOp::Unary { op, input, label })
    }

    pub fn reduce(
        &mut self,
        op: ReduceOp,
        input: Operand,
        axes: Vec<u32>,
        keep_dimensions: bool,
        label: String,
    ) -> (r: Operand)
        ensures
            final(self)@ == old(self)@.push(
                (OpV::Reduce { op, input: input@, axes: axes@, keep_dimensions, label: label@ }),
            ),
            r@ == last_operand(final(self)@),
    {
        self.push(BuilderOp::Reduce { op, input, axes, keep_dimensions, label })
    }

    pub fn softmax(&mut self, input: Operand, axis: u32, label: String) -> (r: Operand)
        ensures
            final(self)@ == old(self)@.push(
                (OpV::Softmax { input: input@, axis, label: label@ }),
            ),
            r@ == last_operand(final(self)@),
    {
        self.push(BuilderOp::Softmax { input, axis, label })
    }

    pub fn cast(&mut self, input: Operand, dtype: DataType, label: String) -> (r: Operand)
        ensures
            final(self)@ == old(self)@.push((OpV::Cast { input: input@, dtype, label: label@ })),
            r@ == last_operand(final(self)@),
    {
        self.push(BuilderOp::Cast { input, dtype, label })
    }

    pub fn transpose(&mut self, input: Operand, permutation: Vec<u32>, label: String) -> (r:
        Operand)
        ensures
            final(self)@ == old(self)@.push(
                (OpV::Transpose { input: input@, permutation: permutation@, label: label@ }),
            ),
            r@ == last_operand(final(self)@),
    {
        self.push(BuilderOp::Transpose { input, permutation, label })
    }

    pub fn reshape(&mut self, input: Operand, shape: Vec<i64>, label: String) -> (r: Operand)
        ensures
            final(self)@ == old(self)@.push(
                (OpV::Reshape { input: input@, shape: shape@, label: label@ }),
            ),
            r@ == last_operand(final(self)@),
    {
        self.push(BuilderOp::Reshape { input, shape, label })
    }

    pub fn expand(&mut self, input: Operand, shape: Vec<i64>, label: String) -> (r: Operand)
        ensures
            final(self)@ == old(self)@.push(
                (OpV::Expand { input: input@, shape: shape@, label: label@ }),
            ),
            r@ == last_operand(final(self)@),
    {
        self.push(BuilderOp::Expand { input, shape, label })
    }

    pub fn slice(
        &mut self,
        input: Operand,
        starts: Vec<u32>,
        sizes: Vec<i64>,
        strides: Vec<u32>,
        label: String,
    ) -> (r: Operand)
        ensures
            final(self)@ == old(self)@.push(
                (OpV::Slice {
                    input: input@,
                    starts: starts@,
                    sizes: sizes@,
                    strides: strides@,
                    label: label@,
                }),
            ),
            r@ == last_operand(final(self)@),
    {
        self.push(BuilderOp::Slice { input, starts, sizes, strides, label })
    }

    pub fn concat(&mut self, a: Operand, b: Operand, axis: u32, label: String) -> (r: Operand)
        ensures
            final(self)@ == old(self)@.push(
                (OpV::Concat { inputs: seq![a@, b@], axis, label: label@ }),
            ),
            r@ == last_operand(final(self)@),
    {
        let mut inputs: Vec<Operand> = Vec::new();
        inputs.push(a);
        inputs.push(b);
        assert(operands_v(inputs@) =~= seq![a@, b@]);
        self.push(BuilderOp::Concat { inputs, axis, label })
    }

    pub fn gather(&mut self, input: Operand, indices: Operand, axis: u32, label: String) -> (r:
        Operand)
        ensures
            final(self)@ == old(self)@.push(
                (OpV::Gather { input: input@, indices: indices@, axis, label: label@ }),
            ),
            r@ == last_operand(final(self)@),
    {
        self.push(BuilderOp::Gather { input, indices, axis, label })
    }

    pub fn record_output(&mut self, output: &String, label: String, operand: Operand)
        ensures
            final(self)@ == old(self)@.push(
                (OpV::RecordOutput { output: output@, label: label@, operand: operand@ }),
            ),
    {
        self.push(BuilderOp::RecordOutput { output: output.clone(), label, operand });
    }

    pub fn record(&mut self, name: &String, operand: Operand)
        ensures
            final(self)@ == old(self)@.push(
                (OpV::Record { name: name@, operand: operand@ }),
            ),
    {
        self.push(BuilderOp::Record { name: name.clone(), operand });
    }
}

// ---------------------------------------------------------------------------
// Short lists and labels
// ---------------------------------------------------------------------------

pub fn list1<T>(a: T) -> (r: Vec<T>)
    ensures
        r@ == seq![a],
{
    let mut v: Vec<T> = Vec::new();
    v.push(a);
    assert(v@ =~= seq![a]);
    v
}

pub fn list2<T>(a: T, b: T) -> (r: Vec<T>)
    ensures
        r@ == seq![a, b],
{
    let mut v: Vec<T> = Vec::new();
    v.push(a);
    v.push(b);
    assert(v@ =~= seq![a, b]);
    v
}

pub fn list3<T>(a: T, b: T, c: T) -> (r: Vec<T>)
    ensures
        r@ == seq![a, b, c],
{
    let mut v: Vec<T> = Vec::new();
    v.push(a);
    v.push(b);
    v.push(c);
    assert(v@ =~= seq![a, b, c]);
    v
}

pub fn list4<T>(a: T, b: T, c: T, d: T) -> (r: Vec<T>)
    ensures
        r@ == seq![a, b, c, d],
{
    let mut v: Vec<T> = Vec::new();
    v.push(a);
    v.push(b);
    v.push(c);
    v.push(d);
    assert(v@ =~= seq![a, b, c, d]);
    v
}

pub fn list5<T>(a: T, b: T, c: T, d: T, e: T) -> (r: Vec<T>)
    ensures
        r@ == seq![a, b, c, d, e],
{
    let mut v: Vec<T> = Vec::new();
    v.push(a);
    v.push(b);
    v.push(c);
    v.push(d);
    v.push(e);
    assert(v@ =~= seq![a, b, c, d, e]);
    v
}

/// `base` followed by `suffix`.
pub fn label_with(base: &String, suffix: &str) -> (r: String)
    ensures
        r@ == base@ + suffix@,
{
    let mut s = base.clone();
    s.append(suffix);
    s
}

} // verus!
