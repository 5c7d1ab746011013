//! What lowered recurrent layers compute.
use crate::builder;
use crate::builder::{Direction, OpV, OperandV};
use crate::context::ContextV;
use crate::meaning;
use crate::meaning::{Layer, Reading, Tensor};
use crate::ops::rnn;
use crate::protos::NodeV;
use crate::types::DataType;
use vstd::prelude::*;

verus! {

/// An operand in the precision that recurrent layers compute in.
pub open spec fn widened(x: Tensor, dtype: DataType) -> Tensor {
    if dtype == DataType::Float16 {
        meaning::cast(x, DataType::Float32)
    } else {
        x
    }
}

/// A result in the precision of the node.
pub open spec fn narrowed(x: Tensor, dtype: DataType) -> Tensor {
    if dtype == DataType::Float16 {
        meaning::cast(x, DataType::Float16)
    } else {
        x
    }
}

pub open spec fn widened_opt(x: Option<Tensor>, dtype: DataType) -> Option<Tensor> {
    match x {
        Some(t) => Some(widened(t, dtype)),
        None => None,
    }
}

/// The bias of the inputs is the first half of each row of the combined bias,
/// and the bias of the recurrence the second half.
pub open spec fn halves(
    combined: Option<Tensor>,
    bias: Option<Tensor>,
    recurrent: Option<Tensor>,
    directions: int,
    len: int,
) -> bool {
    match combined {
        None => bias is None && recurrent is None,
        Some(c) => {
            &&& bias is Some
            &&& recurrent is Some
            &&& bias->0.shape == seq![directions, len]
            &&& recurrent->0.shape == seq![directions, len]
            &&& forall|d: int, i: int| #[trigger]
                bias->0.at2(d, i) == c.at2(d, i)
            &&& forall|d: int, i: int| #[trigger]
                recurrent->0.at2(d, i) == c.at2(d, len + i)
        },
    }
}

pub open spec fn directions(d: Direction) -> int {
    match d {
        Direction::Both => 2,
        _ => 1,
    }
}

/// The layer works on the inputs of a node: `X`, `W`, `R`, the halves of `B`,
/// and as many steps as `X` has rows.
pub open spec fn works_on(l: Layer, node: NodeV, ctx: ContextV, m: Reading, gates: int) -> bool {
    let dtype = ctx.dtype(node.input[0]);
    &&& l.x == widened(m.name(node.input[0]), dtype)
    &&& l.w == widened(m.name(node.input[1]), dtype)
    &&& l.r == widened(m.name(node.input[2]), dtype)
    &&& halves(
        widened_opt(m.name_opt(node.input_at(3)), dtype),
        l.bias,
        l.recurrent_bias,
        directions(l.direction),
        gates * l.hidden_size,
    )
    &&& (ctx.shape(node.input[0]) matches Some(s) ==> s.len() == 3 && 0 < s[0] <= u32::MAX
        ==> l.steps == s[0])
}

/// The sequence output: the hidden states of all steps, without the axis of
/// directions where there is one direction and the output has rank three.
pub open spec fn gives_sequence(
    y: Tensor,
    sequence: Tensor,
    direction: Direction,
    shape: Option<Seq<i64>>,
    dtype: DataType,
) -> bool {
    if direction == Direction::Both || (shape matches Some(s) && s.len() == 4) {
        y == narrowed(sequence, dtype)
    } else {
        sequence.shape.len() == 4 && sequence.shape[1] == 1 ==> forall|t: int, b: int, h: int|
            meaning::valid(seq![t, 0, b, h], sequence.shape) ==> #[trigger] y.at3(t, b, h)
                == narrowed(sequence, dtype).at4(t, 0, b, h)
    }
}

#[verifier::rlimit(40)]
proof fn lemma_bias(
    ops: Seq<OpV>,
    name: Seq<char>,
    bias: Option<Seq<char>>,
    len: u32,
    dtype: DataType,
    count: i64,
    m: Reading,
)
    requires
        meaning::holds(
            rnn::split_bias(ops, name, bias, len, dtype == DataType::Float16, count).ops,
            m,
        ),
    ensures
        meaning::holds(ops, m),
        ({
            let b = rnn::split_bias(ops, name, bias, len, dtype == DataType::Float16, count);
            halves(
                widened_opt(m.name_opt(bias), dtype),
                m.opt(b.bias),
                m.opt(b.recurrent),
                count as int,
                len as int,
            )
        }),
{
    broadcast use meaning::lemma_holds_push;

    if bias is Some {
        let b = rnn::split_bias(ops, name, bias, len, dtype == DataType::Float16, count);
        let c = widened(m.name(bias->0), dtype);
        let first = m.of(b.bias->0);
        let second = m.of(b.recurrent->0);
        assert(first.shape =~= seq![count as int, len as int]);
        assert(second.shape =~= seq![count as int, len as int]);
        assert forall|d: int, i: int| #[trigger] first.at2(d, i) == c.at2(d, i) by {
            let z = meaning::naturals(seq![0u32, 0u32]);
            let none = meaning::naturals(seq![]);
            let j = seq![d, i];
            assert(Seq::new(
                j.len(),
                |a: int| z[a] + j[a] * meaning::stride_at(none, a),
            ) =~= seq![d, i]);
        }
        assert forall|d: int, i: int| #[trigger]
            second.at2(d, i) == c.at2(d, len + i) by {
            let z = meaning::naturals(seq![0u32, len]);
            let none = meaning::naturals(seq![]);
            let j = seq![d, i];
            assert(Seq::new(
                j.len(),
                |a: int| z[a] + j[a] * meaning::stride_at(none, a),
            ) =~= seq![d, len + i]);
        }
    }
}

#[verifier::rlimit(40)]
proof fn lemma_inputs(
    ops: Seq<OpV>,
    node: NodeV,
    name: Seq<char>,
    dtype: DataType,
    len: u32,
    direction: Direction,
    m: Reading,
)
    requires
        meaning::holds(
            rnn::rnn_inputs(ops, node, name, dtype == DataType::Float16, len, direction).ops,
            m,
        ),
    ensures
        ({
            let t = rnn::rnn_inputs(ops, node, name, dtype == DataType::Float16, len, direction);
            &&& m.of(t.x) == widened(m.name(node.input[0]), dtype)
            &&& m.of(t.w) == widened(m.name(node.input[1]), dtype)
            &&& m.of(t.r) == widened(m.name(node.input[2]), dtype)
            &&& halves(
                widened_opt(m.name_opt(node.input_at(3)), dtype),
                m.opt(t.bias),
                m.opt(t.recurrent),
                directions(direction),
                len as int,
            )
        }),
{
    broadcast use meaning::lemma_holds_push;

    let wide = dtype == DataType::Float16;
    let x = rnn::float_input(ops, node.input[0], wide, name + "_x_f32"@);
    let w = rnn::float_input(x.ops, node.input[1], wide, name + "_w_f32"@);
    let r = rnn::float_input(w.ops, node.input[2], wide, name + "_r_f32"@);
    lemma_bias(
        r.ops,
        name,
        node.input_at(3),
        len,
        dtype,
        rnn::direction_count(direction),
        m,
    );
}

#[verifier::rlimit(40)]
proof fn lemma_sequence(
    s: rnn::OutputsV,
    node: NodeV,
    name: Seq<char>,
    ctx: ContextV,
    o: OperandV,
    direction: Direction,
    dtype: DataType,
    label: Seq<char>,
    m: Reading,
)
    requires
        meaning::holds(
            rnn::sequence_output(s, node, name, ctx, o, direction, dtype, label).ops,
            m,
        ),
    ensures
        meaning::holds(s.ops, m),
        node.output_at(0) matches Some(y) ==> gives_sequence(
            m.name(y),
            m.of(o),
            direction,
            ctx.shape(y),
            dtype,
        ),
{
    broadcast use meaning::lemma_holds_push;

    if node.output_at(0) is Some {
        let y = m.name(node.output_at(0)->0);
        let q = m.of(o);
        let shape = ctx.shape(node.output_at(0)->0);
        let mapped = rnn::sequence_layout(s.ops, o, shape, direction, name);
        assert(meaning::holds(mapped.ops, m));
        if !(direction == Direction::Both || (shape is Some && shape->0.len() == 4))
            && q.shape.len() == 4 && q.shape[1] == 1 {
            let axes = meaning::naturals(seq![1u32]);
            let flat = seq![q.shape[0], q.shape[2], q.shape[3]];
            assert(axes =~= seq![1int]);
            assert(axes[0] == 1);
            assert(axes.contains(1));
            assert(!axes.contains(0) && !axes.contains(2) && !axes.contains(3));
            reveal_with_fuel(meaning::kept_shape, 5);
            let s3 = q.shape.drop_last();
            let s2 = s3.drop_last();
            let s1 = s2.drop_last();
            assert(meaning::kept_shape(s1.drop_last(), axes) =~= seq![]);
            assert(meaning::kept_shape(s1, axes) =~= seq![q.shape[0]]);
            assert(meaning::kept_shape(s2, axes) =~= seq![q.shape[0]]);
            assert(meaning::kept_shape(s3, axes) =~= seq![q.shape[0], q.shape[2]]);
            assert(meaning::kept_shape(q.shape, axes) =~= flat);
            assert forall|t: int, b: int, h: int|
                meaning::valid(seq![t, 0, b, h], q.shape) implies #[trigger] y.at3(t, b, h)
                == narrowed(q, dtype).at4(t, 0, b, h) by {
                let i = seq![t, 0, b, h];
                assert(i[0] == t && i[2] == b && i[3] == h);
                meaning::lemma_place_4(i, q.shape);
                meaning::lemma_place_3(seq![t, b, h], flat);
                assert((t * 1 + 0) * q.shape[2] == t * q.shape[2]) by (nonlinear_arith);
                meaning::lemma_reshape(q, flat, seq![t, b, h], i);
            }
        }
    }
}

#[verifier::rlimit(40)]
proof fn lemma_state(
    s: rnn::OutputsV,
    output: Option<Seq<char>>,
    o: OperandV,
    dtype: DataType,
    label: Seq<char>,
    m: Reading,
)
    requires
        meaning::holds(rnn::state_output(s, output, o, dtype, label).ops, m),
    ensures
        meaning::holds(s.ops, m),
        output matches Some(n) ==> m.name(n) == narrowed(m.of(o), dtype),
{
    broadcast use meaning::lemma_holds_push;

}

#[verifier::rlimit(40)]
proof fn lemma_initial(
    ops: Seq<OpV>,
    state: Option<Seq<char>>,
    dtype: DataType,
    label: Seq<char>,
    m: Reading,
)
    requires
        meaning::holds(
            rnn::initial_state(ops, state, dtype == DataType::Float16, label).ops,
            m,
        ),
    ensures
        meaning::holds(ops, m),
        m.opt(rnn::initial_state(ops, state, dtype == DataType::Float16, label).state)
            == widened_opt(m.name_opt(state), dtype),
{
    broadcast use meaning::lemma_holds_push;

}

/// The outputs of a lowered `LSTM` node: an LSTM layer on the node's inputs,
/// from the node's initial states, gives under output 1 its last hidden state,
/// under output 2 its last cell state, and under output 0 the hidden states of
/// all steps.
#[verifier::rlimit(40)]
pub proof fn law_lstm_outputs(
    node: NodeV,
    name: Seq<char>,
    ctx: ContextV,
    ops: Seq<OpV>,
    m: Reading,
) -> (l: Layer)
    requires
        rnn::lstm_params(node, name) is Ok,
        rnn::lstm_in_range(node, name),
        meaning::holds(rnn::lstm_outcome(node, name, ctx, ops).ops, m),
    ensures
        ({
            let dtype = ctx.dtype(node.input[0]);
            let s = (m.functions.lstm)(l);
            &&& l.direction == rnn::lstm_params(node, name)->Ok_0.0
            &&& l.hidden_size == rnn::lstm_params(node, name)->Ok_0.1
            &&& works_on(l, node, ctx, m, 4)
            &&& l.initial_hidden == widened_opt(m.name_opt(node.input_at(5)), dtype)
            &&& l.initial_cell == widened_opt(m.name_opt(node.input_at(6)), dtype)
            &&& node.output_at(1) matches Some(n) ==> m.name(n) == narrowed(s.hidden, dtype)
            &&& node.output_at(2) matches Some(n) ==> m.name(n) == narrowed(s.cell, dtype)
            &&& node.output_at(0) matches Some(n) ==> gives_sequence(
                m.name(n),
                s.sequence,
                l.direction,
                ctx.shape(n),
                dtype,
            )
        }),
{
    let (direction, hidden) = rnn::lstm_params(node, name)->Ok_0;
    let dtype = ctx.dtype(node.input[0]);
    let wide = dtype == DataType::Float16;
    let label = node.label(name);
    let t = rnn::rnn_inputs(ops, node, name, wide, (4 * hidden) as u32, direction);
    let h0 = rnn::initial_state(t.ops, node.input_at(5), wide, name + "_h0_f32"@);
    let c0 = rnn::initial_state(h0.ops, node.input_at(6), wide, name + "_c0_f32"@);
    let op = OpV::Lstm {
        x: t.x,
        w: t.w,
        r: t.r,
        steps: rnn::step_count(ctx, node.input[0]),
        hidden_size: hidden,
        bias: t.bias,
        recurrent_bias: t.recurrent,
        initial_hidden_state: h0.state,
        initial_cell_state: c0.state,
        return_sequence: node.output_at(0) is Some,
        direction,
        label,
    };
    let o1 = c0.ops.push(op);
    let state = builder::last_operand(o1);
    let cell = OperandV { step: state.step, output: 1 };
    let all = OperandV { step: state.step, output: 2 };
    let s1 = rnn::sequence_output(
        rnn::OutputsV { ops: o1, types: Map::empty() },
        node,
        name,
        ctx,
        all,
        direction,
        dtype,
        label,
    );
    let s2 = rnn::state_output(s1, node.output_at(1), state, dtype, label + "_y_h"@);
    let s3 = rnn::state_output(s2, node.output_at(2), cell, dtype, label + "_y_c"@);
    assert(rnn::lstm_outcome(node, name, ctx, ops).ops == s3.ops);
    lemma_state(s2, node.output_at(2), cell, dtype, label + "_y_c"@, m);
    lemma_state(s1, node.output_at(1), state, dtype, label + "_y_h"@, m);
    lemma_sequence(
        rnn::OutputsV { ops: o1, types: Map::empty() },
        node,
        name,
        ctx,
        all,
        direction,
        dtype,
        label,
        m,
    );
    meaning::lemma_holds_push(c0.ops, op, m);
    lemma_initial(h0.ops, node.input_at(6), dtype, name + "_c0_f32"@, m);
    lemma_initial(t.ops, node.input_at(5), dtype, name + "_h0_f32"@, m);
    lemma_inputs(ops, node, name, dtype, (4 * hidden) as u32, direction, m);
    meaning::lstm_layer(op, m)
}

/// The outputs of a lowered `GRU` node: a GRU layer on the node's inputs gives
/// under output 1 its last hidden state, and under output 0 the hidden states
/// of all steps.
#[verifier::rlimit(40)]
pub proof fn law_gru_outputs(
    node: NodeV,
    name: Seq<char>,
    ctx: ContextV,
    ops: Seq<OpV>,
    m: Reading,
) -> (l: Layer)
    requires
        rnn::gru_params(node, name) is Ok,
        rnn::gru_in_range(node, name),
        meaning::holds(rnn::gru_outcome(node, name, ctx, ops).ops, m),
    ensures
        ({
            let dtype = ctx.dtype(node.input[0]);
            let s = (m.functions.gru)(l);
            &&& l.direction == rnn::gru_params(node, name)->Ok_0.0
            &&& l.hidden_size == rnn::gru_params(node, name)->Ok_0.1
            &&& works_on(l, node, ctx, m, 3)
            &&& l.initial_hidden is None
            &&& l.reset_after == (node.int_attr("linear_before_reset"@, 0) != 0)
            &&& node.output_at(1) matches Some(n) ==> m.name(n) == narrowed(s.hidden, dtype)
            &&& node.output_at(0) matches Some(n) ==> gives_sequence(
                m.name(n),
                s.sequence,
                l.direction,
                ctx.shape(n),
                dtype,
            )
        }),
{
    broadcast use meaning::lemma_holds_push;

    let (direction, hidden) = rnn::gru_params(node, name)->Ok_0;
    let dtype = ctx.dtype(node.input[0]);
    let wide = dtype == DataType::Float16;
    let label = node.label(name);
    let t = rnn::rnn_inputs(ops, node, name, wide, (3 * hidden) as u32, direction);
    let op = OpV::Gru {
        x: t.x,
        w: t.w,
        r: t.r,
        steps: rnn::step_count(ctx, node.input[0]),
        hidden_size: hidden,
        bias: t.bias,
        recurrent_bias: t.recurrent,
        return_sequence: node.output_at(0) is Some,
        direction,
        reset_after: node.int_attr("linear_before_reset"@, 0) != 0,
        label,
    };
    let o1 = t.ops.push(op);
    let state = builder::last_operand(o1);
    let all = OperandV { step: state.step, output: 1 };
    let s1 = rnn::sequence_output(
        rnn::OutputsV { ops: o1, types: Map::empty() },
        node,
        name,
        ctx,
        all,
        direction,
        dtype,
        label,
    );
    lemma_state(s1, node.output_at(1), state, dtype, label + "_y_h"@, m);
    lemma_sequence(
        rnn::OutputsV { ops: o1, types: Map::empty() },
        node,
        name,
        ctx,
        all,
        direction,
        dtype,
        label,
        m,
    );
    assert(meaning::agrees(op, t.ops.len() as int, m));
    lemma_inputs(ops, node, name, dtype, (3 * hidden) as u32, direction, m);
    meaning::gru_layer(op, m)
}

} // verus!
