//! What a lowered mixture of experts computes.
use crate::builder;
use crate::builder::{BinaryOp, OpV, OperandV, ReduceOp, UnaryOp};
use crate::context::ContextV;
use crate::floats;
use crate::laws::einsum;
use crate::laws::routing;
use crate::meaning;
use crate::meaning::{Functions, Reading, Tensor};
use crate::ops;
use crate::ops::moe;
use crate::ops::moe::{Activation, GeometryV, MoeV};
use crate::protos::NodeV;
use vstd::prelude::*;

verus! {

/// One row through a layer of an expert: the products with the rows of its
/// weights, plus its bias where there is one.
pub open spec fn projected(
    x: spec_fn(int) -> real,
    w: Tensor,
    bias: Option<Tensor>,
    experts: int,
    outs: int,
    cols: int,
    e: int,
    j: int,
) -> real {
    meaning::sum(cols, |c: int| x(c) * w.at3(e, j, c)) + match bias {
        None => 0real,
        Some(b) => meaning::reshape(b, seq![experts, outs]).at2(e, j),
    }
}

/// A number that is at most the limit, where the limit is finite.
pub open spec fn capped(x: real, limit: u32) -> real {
    if floats::is_finite(limit) && x > meaning::single(limit) {
        meaning::single(limit)
    } else {
        x
    }
}

/// A number that is at least minus the limit, where the limit is finite.
pub open spec fn floored(x: real, limit: u32) -> real {
    if floats::is_finite(limit) && x < -meaning::single(limit) {
        -meaning::single(limit)
    } else {
        x
    }
}

/// The activation of what the first layer gives. With SwiGLU, gates and linear
/// parts stand side by side.
pub open spec fn activated(p: MoeV, f: Functions, y: spec_fn(int) -> real, t: int) -> real {
    match p.activation {
        Activation::Swiglu => {
            let gate = capped(y(2 * t), p.limit);
            let linear = capped(floored(y(2 * t + 1), p.limit), p.limit);
            gate * (f.sigmoid)(gate * meaning::single(p.alpha)) * (linear + meaning::single(p.beta))
        },
        Activation::Relu => if y(t) > 0real {
            y(t)
        } else {
            0real
        },
        Activation::Gelu => (f.gelu)(y(t)),
        Activation::Sigmoid => (f.sigmoid)(y(t)),
    }
}

/// One expert on one row of the input.
pub open spec fn expert(
    x: spec_fn(int) -> real,
    w1: Tensor,
    b1: Option<Tensor>,
    w2: Tensor,
    b2: Option<Tensor>,
    p: MoeV,
    g: GeometryV,
    f: Functions,
    e: int,
    h: int,
) -> real {
    let experts = g.experts as int;
    projected(
        |t: int|
            activated(
                p,
                f,
                |j: int|
                    projected(x, w1, b1, experts, g.fc1_out as int, g.hidden as int, e, j),
                t,
            ),
        w2,
        b2,
        experts,
        g.hidden as int,
        g.inter as int,
        e,
        h,
    )
}

// ---------------------------------------------------------------------------
// Layers
// ---------------------------------------------------------------------------

/// The element of a smaller tensor that goes with an element of a larger one.
pub open spec fn partner(b: Tensor, e: int, r: int, o: int) -> real {
    if b.shape.len() == 1 {
        b.at1(0)
    } else {
        b.at3(
            if b.shape[0] == 1 {
                0
            } else {
                e
            },
            if b.shape[1] == 1 {
                0
            } else {
                r
            },
            if b.shape[2] == 1 {
                0
            } else {
                o
            },
        )
    }
}

proof fn lemma_pointwise_3(
    op: BinaryOp,
    a: Tensor,
    b: Tensor,
    shape: Seq<int>,
    e: int,
    r: int,
    o: int,
)
    requires
        shape.len() == 3,
        a.shape == shape,
        b.shape == seq![1int] || b.shape.len() == 3 && forall|k: int|
            0 <= k < 3 ==> #[trigger] b.shape[k] == 1 || b.shape[k] == shape[k],
        meaning::valid(seq![e, r, o], shape),
    ensures
        meaning::elementwise(op, a, b).shape == shape,
        meaning::elementwise(op, a, b).at3(e, r, o) == meaning::combined(
            op,
            a.at3(e, r, o),
            partner(b, e, r, o),
            a.dtype,
        ),
{
    let i = seq![e, r, o];
    meaning::lemma_aligned(i, shape);
    assert(i[0] == e && i[1] == r && i[2] == o);
    if b.shape.len() == 1 {
        assert(meaning::aligned(i, b.shape) =~= seq![0int]);
        assert(meaning::joint_shape(shape, b.shape) =~= shape);
    } else {
        assert(meaning::aligned(i, b.shape) =~= seq![
            if b.shape[0] == 1 {
                0
            } else {
                e
            },
            if b.shape[1] == 1 {
                0
            } else {
                r
            },
            if b.shape[2] == 1 {
                0
            } else {
                o
            },
        ]);
        assert(b.shape[0] == 1 || b.shape[0] == shape[0]);
        assert(b.shape[1] == 1 || b.shape[1] == shape[1]);
        assert(b.shape[2] == 1 || b.shape[2] == shape[2]);
        assert(meaning::joint_shape(shape, b.shape) =~= shape);
    }
}

/// The last two axes of a tensor of rank three swapped.
proof fn lemma_swap_3(x: Tensor, a: int, b: int, c: int)
    requires
        x.shape.len() == 3,
    ensures
        ({
            let y = meaning::transpose(x, meaning::naturals(seq![0u32, 2u32, 1u32]));
            &&& y.shape == seq![x.shape[0], x.shape[2], x.shape[1]]
            &&& y.at3(a, b, c) == x.at3(a, c, b)
        }),
{
    let p = meaning::naturals(seq![0u32, 2u32, 1u32]);
    assert(p[0] == 0 && p[1] == 2 && p[2] == 1);
    assert(p.contains(0) && p.contains(1) && p.contains(2));
    let j = seq![a, c, b];
    meaning::lemma_transpose(x, p, j);
    assert(Seq::new(p.len(), |z: int| j[p[z]]) =~= seq![a, b, c]);
    assert(meaning::transpose(x, p).shape =~= seq![x.shape[0], x.shape[2], x.shape[1]]);
}

/// A layer of all experts.
#[verifier::rlimit(40)]
proof fn lemma_layer(
    ops: Seq<OpV>,
    x: OperandV,
    w_name: Seq<char>,
    bias: Option<Seq<char>>,
    experts: i64,
    outs: i64,
    label: Seq<char>,
    m: Reading,
    rows: int,
    cols: int,
)
    requires
        meaning::holds(moe::expert_matmul(ops, x, w_name, bias, experts, outs, label), m),
        experts > 0,
        m.of(x).shape == seq![experts as int, rows, cols],
        m.name(w_name).shape == seq![experts as int, outs as int, cols],
    ensures
        meaning::holds(ops, m),
        ({
            let y = m.of(
                builder::last_operand(
                    moe::expert_matmul(ops, x, w_name, bias, experts, outs, label),
                ),
            );
            let shape = seq![experts as int, rows, outs as int];
            &&& y.shape == shape
            &&& forall|e: int, r: int, j: int|
                0 <= e < experts && 0 <= r < rows && 0 <= j < outs ==> #[trigger] y.at3(e, r, j)
                    == projected(
                    |c: int| m.of(x).at3(e, r, c),
                    m.name(w_name),
                    m.name_opt(bias),
                    experts as int,
                    outs as int,
                    cols,
                    e,
                    j,
                )
        }),
{
    let n = ops.len() as int;
    let w = m.name(w_name);
    let done = moe::expert_matmul(ops, x, w_name, bias, experts, outs, label);
    let wt = m.of(OperandV { step: n + 1, output: 0 });
    let product = m.of(OperandV { step: n + 2, output: 0 });
    let y = m.of(builder::last_operand(done));
    let shape = seq![experts as int, rows, outs as int];
    let flat = m.of(OperandV { step: n + 4, output: 0 });
    let low = seq![experts as int, 1, outs as int];
    assert(meaning::ints(seq![experts, 1i64, outs]) =~= low);
    assert({
        &&& meaning::holds(ops, m)
        &&& wt == meaning::transpose(w, meaning::naturals(seq![0u32, 2u32, 1u32]))
        &&& product == meaning::matmul(m.of(x), wt)
        &&& bias is None ==> y == product
        &&& bias matches Some(b) ==> {
            &&& flat == meaning::reshape(m.name(b), low)
            &&& y == meaning::elementwise(BinaryOp::Add, product, flat)
        }
    }) by {
        broadcast use meaning::lemma_holds_push;

    }
    lemma_swap_3(w, 0, 0, 0);
    einsum::lemma_matmul_3(m.of(x), wt, 0, 0, 0);
    assert(product.shape =~= shape);
    if bias is Some {
        assert(meaning::joint_shape(shape, low) =~= shape);
    }
    assert forall|e: int, r: int, j: int|
        0 <= e < experts && 0 <= r < rows && 0 <= j < outs implies #[trigger] y.at3(e, r, j)
        == projected(
        |c: int| m.of(x).at3(e, r, c),
        w,
        m.name_opt(bias),
        experts as int,
        outs as int,
        cols,
        e,
        j,
    ) by {
        einsum::lemma_matmul_3(m.of(x), wt, e, r, j);
        let f = |t: int| m.of(x).at3(e, r, t) * wt.at3(e, t, j);
        let xs = |c: int| m.of(x).at3(e, r, c);
        let g = |c: int| xs(c) * w.at3(e, j, c);
        assert forall|t: int| 0 <= t < cols implies #[trigger] f(t) == g(t) by {
            lemma_swap_3(w, e, t, j);
        }
        meaning::lemma_sum_same(cols, f, g);
        if bias is Some {
            assert(meaning::valid(seq![e, r, j], shape));
            assert forall|k: int| 0 <= k < 3 implies #[trigger] low[k] == 1 || low[k] == shape[k] by {}
            lemma_pointwise_3(BinaryOp::Add, product, flat, shape, e, r, j);
            let square = seq![experts as int, outs as int];
            meaning::lemma_place_2(seq![e, j], square);
            meaning::lemma_place_3(seq![e, 0int, j], low);
            assert((e * 1 + 0) * outs + j == e * outs + j) by (nonlinear_arith);
            assert(flat.at3(e, 0, j) == meaning::reshape(m.name(bias->0), square).at2(e, j));
        }
    }
}

// ---------------------------------------------------------------------------
// Activations
// ---------------------------------------------------------------------------

/// Flipping the sign bit negates a number.
proof fn lemma_negated(f: u32)
    ensures
        meaning::single(floats::negated(f)) == -meaning::single(f),
{
    let n = floats::negated(f);
    assert((n as int / 0x80_0000) % 256 == (f as int / 0x80_0000) % 256);
    assert(n as int % 0x80_0000 == f as int % 0x80_0000);
}

/// One column of the pairs.
#[verifier::rlimit(40)]
proof fn lemma_pair_column(
    ops: Seq<OpV>,
    pairs: OperandV,
    fc1: Tensor,
    g: GeometryV,
    index: u32,
    label: Seq<char>,
    m: Reading,
)
    requires
        meaning::holds(moe::pair_column(ops, pairs, g, index, label), m),
        g.experts > 0,
        g.rows > 0,
        g.inter > 0,
        index < 2,
        fc1.shape == seq![g.experts as int, g.rows as int, 2 * g.inter],
        m.of(pairs) == meaning::reshape(
            fc1,
            seq![g.experts as int, g.rows as int, g.inter as int, 2],
        ),
    ensures
        meaning::holds(ops, m),
        ({
            let y = m.of(builder::last_operand(moe::pair_column(ops, pairs, g, index, label)));
            &&& y.shape == seq![g.experts as int, g.rows as int, g.inter as int]
            &&& forall|e: int, r: int, t: int|
                0 <= e < g.experts && 0 <= r < g.rows && 0 <= t < g.inter ==> #[trigger] y.at3(
                    e,
                    r,
                    t,
                ) == fc1.at3(e, r, 2 * t + index)
        }),
{
    let n = ops.len() as int;
    let wide = m.of(pairs);
    let cut = m.of(OperandV { step: n, output: 0 });
    let y = m.of(OperandV { step: n + 1, output: 0 });
    let starts = seq![0int, 0, 0, index as int];
    let sizes = seq![g.experts as int, g.rows as int, g.inter as int, 1];
    let out = seq![g.experts as int, g.rows as int, g.inter as int];
    let none = Seq::<int>::empty();
    assert(meaning::naturals(seq![0u32, 0u32, 0u32, index]) =~= starts);
    assert(meaning::ints(seq![g.experts, g.rows, g.inter, 1i64]) =~= sizes);
    assert(meaning::ints(seq![g.experts, g.rows, g.inter]) =~= out);
    assert(meaning::naturals(seq![]) =~= none);
    assert({
        &&& meaning::holds(ops, m)
        &&& cut == meaning::slice(wide, starts, sizes, none)
        &&& y == meaning::reshape(cut, out)
    }) by {
        broadcast use meaning::lemma_holds_push;

    }
    assert forall|e: int, r: int, t: int|
        0 <= e < g.experts && 0 <= r < g.rows && 0 <= t < g.inter implies #[trigger] y.at3(e, r, t)
        == fc1.at3(e, r, 2 * t + index) by {
        crate::laws::rotation::lemma_columns(
            wide,
            starts,
            sizes,
            none,
            index as int,
            1,
            e,
            r,
            t,
            0,
        );
        let i3 = seq![e, r, t];
        let i4 = seq![e, r, t, 0int];
        meaning::lemma_place_3(i3, out);
        meaning::lemma_place_4(i4, cut.shape);
        let z = (e * g.rows + r) * g.inter + t;
        assert(z * 1 + 0 == z);
        assert(cut.shape =~= sizes);
        assert(meaning::valid(i4, cut.shape));
        meaning::lemma_reshape(cut, out, i3, i4);
        assert(cut.at4(e, r, t, 0) == wide.at4(e, r, t, index as int));
        let j4 = seq![e, r, t, index as int];
        let j3 = seq![e, r, 2 * t + index];
        let s4 = seq![g.experts as int, g.rows as int, g.inter as int, 2];
        meaning::lemma_place_4(j4, s4);
        meaning::lemma_place_3(j3, fc1.shape);
        let q = e * g.rows + r;
        assert((q * g.inter + t) * 2 + index == q * (2 * g.inter) + (2 * t + index))
            by (nonlinear_arith);
        assert(meaning::valid(j3, fc1.shape));
        meaning::lemma_reshape(fc1, s4, j4, j3);
    }
}

/// What the clamps of SwiGLU leave of a number.
proof fn lemma_clamps(x: real, limit: u32)
    ensures
        meaning::clamped(x, None, moe::finite_limit(limit, limit)) == capped(x, limit),
        meaning::clamped(
            x,
            moe::finite_limit(limit, floats::negated(limit)),
            moe::finite_limit(limit, limit),
        ) == capped(floored(x, limit), limit),
{
    lemma_negated(limit);
}

/// Fused interleaved SwiGLU.
#[verifier::rlimit(40)]
proof fn lemma_swiglu(
    ops: Seq<OpV>,
    fc1: OperandV,
    p: MoeV,
    g: GeometryV,
    label: Seq<char>,
    m: Reading,
)
    requires
        meaning::holds(moe::swiglu_steps(ops, fc1, p, g, label), m),
        p.activation == Activation::Swiglu,
        g.experts > 0,
        g.rows > 0,
        g.inter > 0,
        m.of(fc1).shape == seq![g.experts as int, g.rows as int, 2 * g.inter],
    ensures
        meaning::holds(ops, m),
        ({
            let y = m.of(builder::last_operand(moe::swiglu_steps(ops, fc1, p, g, label)));
            &&& y.shape == seq![g.experts as int, g.rows as int, g.inter as int]
            &&& forall|e: int, r: int, t: int|
                0 <= e < g.experts && 0 <= r < g.rows && 0 <= t < g.inter ==> #[trigger] y.at3(
                    e,
                    r,
                    t,
                ) == activated(p, m.functions, |j: int| m.of(fc1).at3(e, r, j), t)
        }),
{
    let n = ops.len() as int;
    let x = m.of(fc1);
    let cut = OpV::Reshape {
        input: fc1,
        shape: seq![g.experts, g.rows, g.inter, 2],
        label: label + "_pairs"@,
    };
    let o1 = ops.push(cut);
    let pairs = builder::last_operand(o1);
    let o2 = moe::pair_column(o1, pairs, g, 0, label + "_gate"@);
    let o3 = moe::pair_column(o2, pairs, g, 1, label + "_linear"@);
    let gate0 = m.of(builder::last_operand(o2));
    let linear0 = m.of(builder::last_operand(o3));
    let gate = m.of(OperandV { step: n + 5, output: 0 });
    let linear = m.of(OperandV { step: n + 6, output: 0 });
    let op4 = OpV::Clamp {
        input: builder::last_operand(o2),
        min: None,
        max: moe::finite_limit(p.limit, p.limit),
        label: label + "_gate_clamp"@,
    };
    let op5 = OpV::Clamp {
        input: builder::last_operand(o3),
        min: moe::finite_limit(p.limit, floats::negated(p.limit)),
        max: moe::finite_limit(p.limit, p.limit),
        label: label + "_linear_clamp"@,
    };
    let o4 = o3.push(op4);
    let o5 = o4.push(op5);
    let o6 = ops::scalar_steps(o5, label + "__alpha"@, p.dtype, p.alpha);
    let o7 = ops::scalar_steps(o6, label + "__beta"@, p.dtype, p.beta);
    let alpha = m.of(OperandV { step: n + 8, output: 0 });
    let beta = m.of(OperandV { step: n + 10, output: 0 });
    let gated = m.of(OperandV { step: n + 11, output: 0 });
    let sig = m.of(OperandV { step: n + 12, output: 0 });
    let silu = m.of(OperandV { step: n + 13, output: 0 });
    let lin = m.of(OperandV { step: n + 14, output: 0 });
    let y = m.of(OperandV { step: n + 15, output: 0 });
    let done = moe::swiglu_steps(ops, fc1, p, g, label);
    assert({
        &&& meaning::holds(o7, m)
        &&& gated == meaning::elementwise(BinaryOp::Mul, gate, alpha)
        &&& sig == meaning::mapped(gated, m.functions.sigmoid)
        &&& silu == meaning::elementwise(BinaryOp::Mul, gate, sig)
        &&& lin == meaning::elementwise(BinaryOp::Add, linear, beta)
        &&& y == meaning::elementwise(BinaryOp::Mul, silu, lin)
    }) by {
        broadcast use meaning::lemma_holds_push;

    }
    routing::lemma_scalar(o6, label + "__beta"@, p.dtype, p.beta, m);
    routing::lemma_scalar(o5, label + "__alpha"@, p.dtype, p.alpha, m);
    meaning::lemma_holds_push(o4, op5, m);
    meaning::lemma_holds_push(o3, op4, m);
    let low = |v: real| meaning::clamped(v, None, moe::finite_limit(p.limit, p.limit));
    let both = |v: real|
        meaning::clamped(
            v,
            moe::finite_limit(p.limit, floats::negated(p.limit)),
            moe::finite_limit(p.limit, p.limit),
        );
    assert(gate == meaning::mapped(gate0, low));
    assert(linear == meaning::mapped(linear0, both));
    let s4 = seq![g.experts as int, g.rows as int, g.inter as int, 2];
    assert(meaning::ints(seq![g.experts, g.rows, g.inter, 2i64]) =~= s4);
    assert(meaning::holds(o1, m)) by {
        broadcast use meaning::lemma_holds_push;

    }
    meaning::lemma_holds_push(ops, cut, m);
    assert(m.of(pairs) == meaning::reshape(x, s4));
    assert(meaning::holds(o2, m)) by {
        broadcast use meaning::lemma_holds_push;

    }
    lemma_pair_column(o1, pairs, x, g, 0, label + "_gate"@, m);
    lemma_pair_column(o2, pairs, x, g, 1, label + "_linear"@, m);
    let shape = seq![g.experts as int, g.rows as int, g.inter as int];
    assert(meaning::joint_shape(shape, seq![1int]) =~= shape);
    assert(meaning::joint_shape(shape, shape) =~= shape);
    assert forall|e: int, r: int, t: int|
        0 <= e < g.experts && 0 <= r < g.rows && 0 <= t < g.inter implies #[trigger] y.at3(e, r, t)
        == activated(p, m.functions, |j: int| x.at3(e, r, j), t) by {
        assert(meaning::valid(seq![e, r, t], shape));
        lemma_same_partner(sig, shape, e, r, t);
        lemma_same_partner(lin, shape, e, r, t);
        lemma_pointwise_3(BinaryOp::Mul, gate, alpha, shape, e, r, t);
        lemma_pointwise_3(BinaryOp::Mul, gate, sig, shape, e, r, t);
        lemma_pointwise_3(BinaryOp::Add, linear, beta, shape, e, r, t);
        lemma_pointwise_3(BinaryOp::Mul, silu, lin, shape, e, r, t);
        assert(gate0.at3(e, r, t) == x.at3(e, r, 2 * t + 0));
        assert(linear0.at3(e, r, t) == x.at3(e, r, 2 * t + 1));
        lemma_clamps(x.at3(e, r, 2 * t), p.limit);
        lemma_clamps(x.at3(e, r, 2 * t + 1), p.limit);
        assert(gate.at3(e, r, t) == capped(x.at3(e, r, 2 * t), p.limit));
        assert(linear.at3(e, r, t) == capped(
            floored(x.at3(e, r, 2 * t + 1), p.limit),
            p.limit,
        ));
    }
}

/// An element of a tensor of the same shape goes with itself.
proof fn lemma_same_partner(b: Tensor, shape: Seq<int>, e: int, r: int, o: int)
    requires
        shape.len() == 3,
        b.shape == shape,
        meaning::valid(seq![e, r, o], shape),
    ensures
        partner(b, e, r, o) == b.at3(e, r, o),
{
    let i = seq![e, r, o];
    assert(i[0] == e && i[1] == r && i[2] == o);
}

/// The activation of the first layer.
#[verifier::rlimit(40)]
proof fn lemma_activation(
    ops: Seq<OpV>,
    fc1: OperandV,
    p: MoeV,
    g: GeometryV,
    label: Seq<char>,
    m: Reading,
)
    requires
        meaning::holds(moe::activation_steps(ops, fc1, p, g, label), m),
        g.experts > 0,
        g.rows > 0,
        g.inter > 0,
        g.fc1_out == if p.activation == Activation::Swiglu {
            2 * g.inter
        } else {
            g.inter as int
        },
        m.of(fc1).shape == seq![g.experts as int, g.rows as int, g.fc1_out as int],
    ensures
        meaning::holds(ops, m),
        ({
            let y = m.of(builder::last_operand(moe::activation_steps(ops, fc1, p, g, label)));
            &&& y.shape == seq![g.experts as int, g.rows as int, g.inter as int]
            &&& forall|e: int, r: int, t: int|
                0 <= e < g.experts && 0 <= r < g.rows && 0 <= t < g.inter ==> #[trigger] y.at3(
                    e,
                    r,
                    t,
                ) == activated(p, m.functions, |j: int| m.of(fc1).at3(e, r, j), t)
        }),
{
    if p.activation == Activation::Swiglu {
        lemma_swiglu(ops, fc1, p, g, label, m);
    } else {
        broadcast use meaning::lemma_holds_push;

        let y = m.of(builder::last_operand(moe::activation_steps(ops, fc1, p, g, label)));
        let x = m.of(fc1);
        let kind = match p.activation {
            Activation::Relu => UnaryOp::Relu,
            Activation::Gelu => UnaryOp::Gelu,
            _ => UnaryOp::Sigmoid,
        };
        assert(y == meaning::mapped(x, meaning::unary(kind, m.functions)));
        assert forall|e: int, r: int, t: int|
            0 <= e < g.experts && 0 <= r < g.rows && 0 <= t < g.inter implies #[trigger] y.at3(
            e,
            r,
            t,
        ) == activated(p, m.functions, |j: int| x.at3(e, r, j), t) by {}
    }
}

// ---------------------------------------------------------------------------
// Rows
// ---------------------------------------------------------------------------

/// Every expert gets every row.
#[verifier::rlimit(40)]
proof fn lemma_spread(
    ops: Seq<OpV>,
    x_in: OperandV,
    p: MoeV,
    g: GeometryV,
    label: Seq<char>,
    m: Reading,
)
    requires
        meaning::holds(moe::spread_steps(ops, x_in, p, g, label), m),
        g.experts > 0,
        g.rows > 0,
        g.hidden > 0,
        p.x_shape.len() == 2 ==> m.of(x_in).shape == seq![g.rows as int, g.hidden as int],
    ensures
        meaning::holds(ops, m),
        ({
            let y = m.of(builder::last_operand(moe::spread_steps(ops, x_in, p, g, label)));
            &&& y.shape == seq![g.experts as int, g.rows as int, g.hidden as int]
            &&& forall|e: int, r: int, c: int|
                0 <= e < g.experts && 0 <= r < g.rows && 0 <= c < g.hidden ==> #[trigger] y.at3(
                    e,
                    r,
                    c,
                ) == routing::row_of(m.of(x_in), g.rows as int, g.hidden as int, r)(c)
        }),
{
    let rows = g.rows as int;
    let hidden = g.hidden as int;
    let x = m.of(x_in);
    let s2 = seq![rows, hidden];
    let s3 = seq![1int, rows, hidden];
    let full = seq![g.experts as int, rows, hidden];
    assert(meaning::ints(seq![g.rows, g.hidden]) =~= s2);
    assert(meaning::ints(seq![1i64, g.rows, g.hidden]) =~= s3);
    assert(meaning::ints(seq![g.experts, g.rows, g.hidden]) =~= full);
    let n = ops.len() as int;
    let flat = if p.x_shape.len() != 2 {
        m.of(OperandV { step: n, output: 0 })
    } else {
        x
    };
    let k: int = if p.x_shape.len() != 2 {
        1
    } else {
        0
    };
    let deep = m.of(OperandV { step: n + k, output: 0 });
    let y = m.of(OperandV { step: n + k + 1, output: 0 });
    assert({
        &&& meaning::holds(ops, m)
        &&& p.x_shape.len() != 2 ==> flat == meaning::reshape(x, s2)
        &&& deep == meaning::reshape(flat, s3)
        &&& y == meaning::expand(deep, full)
    }) by {
        broadcast use meaning::lemma_holds_push;

    }
    assert forall|e: int, r: int, c: int|
        0 <= e < g.experts && 0 <= r < g.rows && 0 <= c < g.hidden implies #[trigger] y.at3(e, r, c)
        == routing::row_of(x, rows, hidden, r)(c) by {
        let i = seq![e, r, c];
        assert(meaning::aligned(i, s3) =~= seq![0int, r, c]);
        let at = seq![r, c];
        meaning::lemma_place_3(seq![0int, r, c], s3);
        meaning::lemma_place_2(at, s2);
        assert((0 * rows + r) * hidden + c == r * hidden + c);
        assert(meaning::valid(at, s2));
        meaning::lemma_reshape(flat, s3, seq![0int, r, c], at);
        if p.x_shape.len() == 2 {
            routing::lemma_same_matrix(x, rows, hidden, r, c);
        }
    }
}

/// The sum over the first axis of a tensor of rank three.
proof fn lemma_sum_first(x: Tensor, r: int, h: int)
    requires
        x.shape.len() == 3,
        x.shape[0] >= 0,
    ensures
        ({
            let y = meaning::reduce(ReduceOp::Sum, x, meaning::naturals(seq![0u32]), false);
            &&& y.shape == seq![x.shape[1], x.shape[2]]
            &&& y.at2(r, h) == meaning::sum(x.shape[0], |e: int| x.at3(e, r, h))
        }),
{
    let axes = meaning::naturals(seq![0u32]);
    assert(axes =~= seq![0int]);
    assert(axes[0] == 0);
    assert(axes.contains(0) && !axes.contains(1) && !axes.contains(2));
    let y = meaning::reduce(ReduceOp::Sum, x, axes, false);
    reveal_with_fuel(meaning::kept_shape, 4);
    let s2 = x.shape.drop_last();
    let s1 = s2.drop_last();
    assert(meaning::kept_shape(s1.drop_last(), axes) =~= seq![]);
    assert(meaning::kept_shape(s1, axes) =~= seq![]);
    assert(meaning::kept_shape(s2, axes) =~= seq![x.shape[1]]);
    assert(y.shape =~= seq![x.shape[1], x.shape[2]]);
    reveal_with_fuel(meaning::kept_below, 3);
    assert(meaning::kept_below(axes, 1) == 0 && meaning::kept_below(axes, 2) == 1);
    let inner = Seq::new(axes.len(), |k: int| x.shape[axes[k]]);
    let len = x.shape[0];
    assert(inner =~= seq![len]);
    meaning::lemma_place_1(seq![0int], seq![len]);
    let i = seq![r, h];
    let f = |j: Seq<int>| (x.at)(meaning::refilled(i, j, 3, axes, false));
    let ff = |n: int| f(meaning::index_at(n, inner));
    let g = |e: int| x.at3(e, r, h);
    assert forall|n: int| 0 <= n < len implies #[trigger] ff(n) == g(n) by {
        meaning::lemma_place_1(seq![n], inner);
        meaning::lemma_place(seq![n], inner);
        assert(axes.index_of(0) == 0);
        assert(meaning::refilled(i, seq![n], 3, axes, false) =~= seq![n, r, h]);
    }
    meaning::lemma_sum_same(len, ff, g);
}

/// The results of all experts, blended by the routing weights. Element `h` of
/// row `r` stands at place `r * H + h` of the output.
#[verifier::rlimit(40)]
proof fn lemma_blend(
    ops: Seq<OpV>,
    weights: OperandV,
    results: OperandV,
    p: MoeV,
    g: GeometryV,
    label: Seq<char>,
    m: Reading,
    r: int,
    h: int,
    at: Seq<int>,
)
    requires
        meaning::holds(moe::blend(ops, weights, results, p, g, label), m),
        g.experts > 0,
        g.rows > 0,
        g.hidden > 0,
        m.of(weights).shape == seq![g.rows as int, g.experts as int],
        m.of(results).shape == seq![g.experts as int, g.rows as int, g.hidden as int],
        0 <= r < g.rows,
        0 <= h < g.hidden,
        meaning::place(at, meaning::ints(p.x_shape)) == r * g.hidden + h,
        p.x_shape.len() == 2 ==> at == seq![r, h],
    ensures
        meaning::holds(ops, m),
        (m.of(builder::last_operand(moe::blend(ops, weights, results, p, g, label))).at)(at)
            == meaning::sum(
            g.experts as int,
            |e: int| m.of(results).at3(e, r, h) * m.of(weights).at2(r, e),
        ),
{
    let n = ops.len() as int;
    let w = m.of(weights);
    let x = m.of(results);
    let experts = g.experts as int;
    let rows = g.rows as int;
    let hidden = g.hidden as int;
    let flipped = m.of(OperandV { step: n, output: 0 });
    let deep = m.of(OperandV { step: n + 1, output: 0 });
    let weighted = m.of(OperandV { step: n + 2, output: 0 });
    let total = m.of(OperandV { step: n + 3, output: 0 });
    let y = m.of(builder::last_operand(moe::blend(ops, weights, results, p, g, label)));
    let low = seq![experts, rows, 1];
    let full = seq![experts, rows, hidden];
    assert(meaning::ints(seq![g.experts, g.rows, 1i64]) =~= low);
    let flip = meaning::naturals(seq![1u32, 0u32]);
    assert({
        &&& meaning::holds(ops, m)
        &&& flipped == meaning::transpose(w, flip)
        &&& deep == meaning::reshape(flipped, low)
        &&& weighted == meaning::elementwise(BinaryOp::Mul, x, deep)
        &&& total == meaning::reduce(
            ReduceOp::Sum,
            weighted,
            meaning::naturals(seq![0u32]),
            false,
        )
        &&& p.x_shape.len() == 2 ==> y == total
        &&& p.x_shape.len() != 2 ==> y == meaning::reshape(total, meaning::ints(p.x_shape))
    }) by {
        broadcast use meaning::lemma_holds_push;

    }
    assert(meaning::joint_shape(full, low) =~= full);
    lemma_sum_first(weighted, r, h);
    let f = |e: int| weighted.at3(e, r, h);
    let u = |e: int| x.at3(e, r, h) * w.at2(r, e);
    assert forall|e: int| 0 <= e < experts implies #[trigger] f(e) == u(e) by {
        assert(meaning::valid(seq![e, r, h], full));
        assert forall|k: int| 0 <= k < 3 implies #[trigger] low[k] == 1 || low[k] == full[k] by {}
        lemma_pointwise_3(BinaryOp::Mul, x, deep, full, e, r, h);
        let j = seq![r, e];
        assert(flip[0] == 1 && flip[1] == 0);
        assert(flip.contains(0) && flip.contains(1));
        meaning::lemma_transpose(w, flip, j);
        assert(Seq::new(flip.len(), |z: int| j[flip[z]]) =~= seq![e, r]);
        assert(flipped.shape =~= seq![experts, rows]);
        meaning::lemma_place_3(seq![e, r, 0int], low);
        meaning::lemma_place_2(seq![e, r], flipped.shape);
        assert((e * rows + r) * 1 + 0 == e * rows + r);
        assert(meaning::valid(seq![e, r], flipped.shape));
        meaning::lemma_reshape(flipped, low, seq![e, r, 0int], seq![e, r]);
        assert(partner(deep, e, r, h) == deep.at3(e, r, 0));
    }
    meaning::lemma_sum_same(experts, f, u);
    if p.x_shape.len() != 2 {
        let s2 = seq![rows, hidden];
        assert(total.shape =~= s2);
        meaning::lemma_place_2(seq![r, h], s2);
        assert(meaning::valid(seq![r, h], s2));
        meaning::lemma_reshape(total, meaning::ints(p.x_shape), at, seq![r, h]);
    }
}

#[verifier::rlimit(40)]
proof fn lemma_blend_front(
    ops: Seq<OpV>,
    weights: OperandV,
    results: OperandV,
    p: MoeV,
    g: GeometryV,
    label: Seq<char>,
    m: Reading,
)
    requires
        meaning::holds(moe::blend(ops, weights, results, p, g, label), m),
    ensures
        meaning::holds(ops, m),
{
    broadcast use meaning::lemma_holds_push;

}

#[verifier::rlimit(40)]
proof fn lemma_layer_front(
    ops: Seq<OpV>,
    x: OperandV,
    w_name: Seq<char>,
    bias: Option<Seq<char>>,
    experts: i64,
    outs: i64,
    label: Seq<char>,
    m: Reading,
)
    requires
        meaning::holds(moe::expert_matmul(ops, x, w_name, bias, experts, outs, label), m),
    ensures
        meaning::holds(ops, m),
{
    broadcast use meaning::lemma_holds_push;

}

#[verifier::rlimit(40)]
proof fn lemma_activation_front(
    ops: Seq<OpV>,
    fc1: OperandV,
    p: MoeV,
    g: GeometryV,
    label: Seq<char>,
    m: Reading,
)
    requires
        meaning::holds(moe::activation_steps(ops, fc1, p, g, label), m),
    ensures
        meaning::holds(ops, m),
{
    broadcast use meaning::lemma_holds_push;

}

#[verifier::rlimit(40)]
proof fn lemma_spread_front(
    ops: Seq<OpV>,
    x_in: OperandV,
    p: MoeV,
    g: GeometryV,
    label: Seq<char>,
    m: Reading,
)
    requires
        meaning::holds(moe::spread_steps(ops, x_in, p, g, label), m),
    ensures
        meaning::holds(ops, m),
{
    broadcast use meaning::lemma_holds_push;

}

/// A layer gives the same on rows with the same elements.
proof fn lemma_projected_same(
    x: spec_fn(int) -> real,
    y: spec_fn(int) -> real,
    w: Tensor,
    bias: Option<Tensor>,
    experts: int,
    outs: int,
    cols: int,
    e: int,
    j: int,
)
    requires
        forall|c: int| 0 <= c < cols ==> #[trigger] x(c) == y(c),
    ensures
        projected(x, w, bias, experts, outs, cols, e, j) == projected(
            y,
            w,
            bias,
            experts,
            outs,
            cols,
            e,
            j,
        ),
{
    let f = |c: int| x(c) * w.at3(e, j, c);
    let g = |c: int| y(c) * w.at3(e, j, c);
    assert forall|c: int| 0 <= c < cols implies #[trigger] f(c) == g(c) by {
        assert(x(c) == y(c));
    }
    meaning::lemma_sum_same(cols, f, g);
}

/// The sizes of a node agree with its tensors.
pub open spec fn is_sized(
    node: NodeV,
    p: MoeV,
    g: GeometryV,
    w1: Seq<char>,
    w2: Seq<char>,
    m: Reading,
) -> bool {
    let experts = g.experts as int;
    &&& g.experts > 0 && g.rows > 0 && g.hidden > 0 && g.inter > 0
    &&& g.fc1_out == if p.activation == Activation::Swiglu {
        2 * g.inter
    } else {
        g.inter as int
    }
    &&& m.name(w1).shape == seq![experts, g.fc1_out as int, g.hidden as int]
    &&& m.name(w2).shape == seq![experts, g.hidden as int, g.inter as int]
    &&& p.x_shape.len() == 2 ==> m.name(node.input[0]).shape == seq![
        g.rows as int,
        g.hidden as int,
    ]
    &&& p.x_shape.len() == 2 ==> m.name(node.input[1]).shape == seq![g.rows as int, experts]
}

/// One expert on one row, layer by layer.
proof fn lemma_expert(
    x_e: Tensor,
    y1: Tensor,
    y2: Tensor,
    y3: Tensor,
    x: spec_fn(int) -> real,
    t1: Tensor,
    c1: Option<Tensor>,
    t2: Tensor,
    c2: Option<Tensor>,
    p: MoeV,
    g: GeometryV,
    f: Functions,
    e: int,
    row: int,
    h: int,
)
    requires
        g.fc1_out == if p.activation == Activation::Swiglu {
            2 * g.inter
        } else {
            g.inter as int
        },
        forall|c: int| 0 <= c < g.hidden ==> #[trigger] x_e.at3(e, row, c) == x(c),
        forall|j: int|
            0 <= j < g.fc1_out ==> #[trigger] y1.at3(e, row, j) == projected(
                |c: int| x_e.at3(e, row, c),
                t1,
                c1,
                g.experts as int,
                g.fc1_out as int,
                g.hidden as int,
                e,
                j,
            ),
        forall|t: int|
            0 <= t < g.inter ==> #[trigger] y2.at3(e, row, t) == activated(
                p,
                f,
                |j: int| y1.at3(e, row, j),
                t,
            ),
        y3.at3(e, row, h) == projected(
            |t: int| y2.at3(e, row, t),
            t2,
            c2,
            g.experts as int,
            g.hidden as int,
            g.inter as int,
            e,
            h,
        ),
    ensures
        y3.at3(e, row, h) == expert(x, t1, c1, t2, c2, p, g, f, e, h),
{
    let experts = g.experts as int;
    let hidden = g.hidden as int;
    let first = |j: int| projected(x, t1, c1, experts, g.fc1_out as int, hidden, e, j);
    let have = |j: int| y1.at3(e, row, j);
    let xs = |c: int| x_e.at3(e, row, c);
    assert forall|c: int| 0 <= c < hidden implies #[trigger] xs(c) == x(c) by {
        assert(x_e.at3(e, row, c) == x(c));
    }
    assert forall|j: int| 0 <= j < g.fc1_out implies #[trigger] have(j) == first(j) by {
        lemma_projected_same(xs, x, t1, c1, experts, g.fc1_out as int, hidden, e, j);
        assert(y1.at3(e, row, j) == projected(
            xs,
            t1,
            c1,
            experts,
            g.fc1_out as int,
            hidden,
            e,
            j,
        ));
    }
    let mid = |t: int| y2.at3(e, row, t);
    let act = |t: int| activated(p, f, first, t);
    assert forall|t: int| 0 <= t < g.inter implies #[trigger] mid(t) == act(t) by {
        assert(y2.at3(e, row, t) == activated(p, f, have, t));
        if p.activation == Activation::Swiglu {
            assert(have(2 * t) == first(2 * t));
            assert(have(2 * t + 1) == first(2 * t + 1));
        } else {
            assert(have(t) == first(t));
        }
    }
    lemma_projected_same(mid, act, t2, c2, experts, hidden, g.inter as int, e, h);
}

/// The experts of one row, blended: element `h` of the row is the sum of what
/// each expert gives there, times the expert's share.
#[verifier::rlimit(60)]
proof fn lemma_mixture(
    ops: Seq<OpV>,
    node: NodeV,
    p: MoeV,
    g: GeometryV,
    w1: Seq<char>,
    w2: Seq<char>,
    label: Seq<char>,
    m: Reading,
    row: int,
    h: int,
    at: Seq<int>,
) -> (top: Set<int>)
    requires
        meaning::holds(moe::moe_steps(ops, node, p, g, w1, w2, label), m),
        is_sized(node, p, g, w1, w2, m),
        0 <= row < g.rows,
        0 <= h < g.hidden,
        meaning::place(at, meaning::ints(p.x_shape)) == row * g.hidden + h,
        p.x_shape.len() == 2 ==> at == seq![row, h],
        routing::is_row(
            routing::row_of(m.name(node.input[1]), g.rows as int, g.experts as int, row),
            g.experts as int,
            p.dtype,
        ),
        p.normalize ==> forall|y: real|
            y <= -routing::ordinary(p.dtype) ==> #[trigger] (m.functions.exp)(y) == 0real,
    ensures
        ({
            let experts = g.experts as int;
            let logits = routing::row_of(m.name(node.input[1]), g.rows as int, experts, row);
            let x = routing::row_of(m.name(node.input[0]), g.rows as int, g.hidden as int, row);
            let out = match node.output_at(0) {
                Some(n) => n,
                None => label,
            };
            &&& routing::is_top(
                top,
                logits,
                experts,
                if p.k < 1 {
                    1
                } else if p.k > g.experts {
                    experts
                } else {
                    p.k as int
                },
            )
            &&& (m.name(out).at)(at) == meaning::sum(
                experts,
                |e: int|
                    expert(
                        x,
                        m.name(w1),
                        m.name_opt(node.input_at(if p.quant {
                            4
                        } else {
                            3
                        })),
                        m.name(w2),
                        m.name_opt(node.input_at(if p.quant {
                            7
                        } else {
                            5
                        })),
                        p,
                        g,
                        m.functions,
                        e,
                        h,
                    ) * routing::share(top, logits, experts, p.normalize, m.functions.exp, e),
            )
        }),
{
    let experts = g.experts as int;
    let rows = g.rows as int;
    let hidden = g.hidden as int;
    let r0 = OpV::Resolve { name: node.input[0] };
    let r1 = OpV::Resolve { name: node.input[1] };
    let o1 = ops.push(r0);
    let o2 = o1.push(r1);
    let b1 = node.input_at(moe::b1_index(p.quant));
    let b2 = node.input_at(moe::b2_index(p.quant));
    let x_in = builder::last_operand(o1);
    let l_in = builder::last_operand(o2);
    let routed = moe::routing(o2, l_in, p, g, label);
    let o3 = moe::spread_steps(routed.ops, x_in, p, g, label);
    let x_e = builder::last_operand(o3);
    let o4 = moe::expert_matmul(o3, x_e, w1, b1, g.experts, g.fc1_out, label + "_fc1"@);
    let y1 = builder::last_operand(o4);
    let o5 = moe::activation_steps(o4, y1, p, g, label);
    let y2 = builder::last_operand(o5);
    let o6 = moe::expert_matmul(o5, y2, w2, b2, g.experts, g.hidden, label + "_fc2"@);
    let y3 = builder::last_operand(o6);
    let o7 = moe::blend(o6, routed.operand, y3, p, g, label);
    let done = builder::last_operand(o7);
    let out = match node.output_at(0) {
        Some(n) => n,
        None => label,
    };
    let end = match node.output_at(0) {
        Some(n) => OpV::RecordOutput { output: n, label, operand: done },
        None => OpV::Record { name: label, operand: done },
    };
    assert(moe::moe_steps(ops, node, p, g, w1, w2, label) == o7.push(end));
    meaning::lemma_holds_push(o7, end, m);
    assert(m.name(out) == m.of(done));
    lemma_blend_front(o6, routed.operand, y3, p, g, label, m);
    lemma_layer_front(o5, y2, w2, b2, g.experts, g.hidden, label + "_fc2"@, m);
    lemma_activation_front(o4, y1, p, g, label, m);
    lemma_layer_front(o3, x_e, w1, b1, g.experts, g.fc1_out, label + "_fc1"@, m);
    lemma_spread_front(routed.ops, x_in, p, g, label, m);
    assert(meaning::holds(o2, m)) by {
        lemma_routing_front(o2, l_in, p, g, label, m);
    }
    meaning::lemma_holds_push(o1, r1, m);
    meaning::lemma_holds_push(ops, r0, m);
    assert(m.of(x_in) == m.name(node.input[0]) && m.of(l_in) == m.name(node.input[1]));
    let top = routing::law_routing_weights(o2, l_in, p, g, label, m, row);
    lemma_spread(routed.ops, x_in, p, g, label, m);
    lemma_layer(o3, x_e, w1, b1, g.experts, g.fc1_out, label + "_fc1"@, m, rows, hidden);
    lemma_activation(o4, y1, p, g, label, m);
    lemma_layer(
        o5,
        y2,
        w2,
        b2,
        g.experts,
        g.hidden,
        label + "_fc2"@,
        m,
        rows,
        g.inter as int,
    );
    lemma_blend(o6, routed.operand, y3, p, g, label, m, row, h, at);
    let logits = routing::row_of(m.name(node.input[1]), rows, experts, row);
    let x = routing::row_of(m.name(node.input[0]), rows, hidden, row);
    let (t1, t2) = (m.name(w1), m.name(w2));
    let (c1, c2) = (m.name_opt(b1), m.name_opt(b2));
    let f = |e: int| m.of(y3).at3(e, row, h) * m.of(routed.operand).at2(row, e);
    let u = |e: int|
        expert(x, t1, c1, t2, c2, p, g, m.functions, e, h) * routing::share(
            top,
            logits,
            experts,
            p.normalize,
            m.functions.exp,
            e,
        );
    assert forall|e: int| 0 <= e < experts implies #[trigger] f(e) == u(e) by {
        assert forall|c: int| 0 <= c < hidden implies #[trigger] m.of(x_e).at3(e, row, c) == x(
            c,
        ) by {}
        lemma_expert(
            m.of(x_e),
            m.of(y1),
            m.of(y2),
            m.of(y3),
            x,
            t1,
            c1,
            t2,
            c2,
            p,
            g,
            m.functions,
            e,
            row,
            h,
        );
        assert(m.of(routed.operand).at2(row, e) == routing::share(
            top,
            logits,
            experts,
            p.normalize,
            m.functions.exp,
            e,
        ));
    }
    meaning::lemma_sum_same(experts, f, u);
    top
}

/// Routing was added to what was there.
#[verifier::rlimit(40)]
proof fn lemma_routing_front(
    ops: Seq<OpV>,
    logits: OperandV,
    p: MoeV,
    g: GeometryV,
    label: Seq<char>,
    m: Reading,
)
    requires
        meaning::holds(moe::routing(ops, logits, p, g, label).ops, m),
    ensures
        meaning::holds(ops, m),
{
    let k = moe::taken(p.k, g.experts);
    let o0 = if p.x_shape.len() != 2 {
        ops.push(
            OpV::Reshape {
                input: logits,
                shape: seq![g.rows, g.experts],
                label: label + "_logits2d"@,
            },
        )
    } else {
        ops
    };
    let work = if p.x_shape.len() != 2 {
        builder::last_operand(o0)
    } else {
        logits
    };
    if k < g.experts {
        let o1 = ops::scalar_steps(o0, label + "__big"@, p.dtype, moe::big_value(p.dtype));
        let big = builder::last_operand(o1);
        let start = moe::PeelV { ops: o1, work, selected: None };
        let peeled = moe::peel(start, 0, k as int, p.dtype, big, label);
        assert(meaning::holds(peeled.ops, m)) by {
            broadcast use meaning::lemma_holds_push;

        }
        routing::lemma_peel_front(start, 0, k as int, p.dtype, big, label, m);
        assert(meaning::holds(ops, m)) by {
            broadcast use meaning::lemma_holds_push;

        }
    } else {
        broadcast use meaning::lemma_holds_push;

    }
}

/// A lowered `MoE` or `QMoE` node on a row whose logits differ and are of
/// ordinary size: element `h` of the row is the sum of what the experts give
/// there, each times its share, and the experts that share are those with the
/// `k` largest logits. With normalized weights the exponential is taken to
/// vanish on numbers of extraordinary size.
#[verifier::rlimit(40)]
pub proof fn law_mixture_of_experts(
    node: NodeV,
    name: Seq<char>,
    ctx: ContextV,
    ops: Seq<OpV>,
    m: Reading,
    w1: Seq<char>,
    w2: Seq<char>,
    g: GeometryV,
    row: int,
    h: int,
    at: Seq<int>,
) -> (top: Set<int>)
    requires
        moe::moe_params(node, name, ctx) is Ok,
        moe::moe_outcome(node, name, ctx, ops).result is Ok,
        meaning::holds(moe::moe_outcome(node, name, ctx, ops).ops, m),
        ({
            let p = moe::moe_params(node, name, ctx)->Ok_0;
            let first = moe::weight_source(ops, node, ctx, p, 2, "fc1"@, name);
            let second = moe::weight_source(
                first.ops,
                node,
                ctx,
                p,
                if p.quant {
                    5
                } else {
                    4
                },
                "fc2"@,
                name,
            );
            &&& first.result matches Ok(s1)
            &&& second.result matches Ok(s2)
            &&& s1.0 == w1
            &&& s2.0 == w2
            &&& moe::geometry(p.x_shape, s1.1, s2.1, p.activation) == Ok::<
                GeometryV,
                crate::error::ErrorV,
            >(g)
            &&& is_sized(node, p, g, w1, w2, m)
            &&& 0 <= row < g.rows
            &&& 0 <= h < g.hidden
            &&& meaning::place(at, meaning::ints(p.x_shape)) == row * g.hidden + h
            &&& p.x_shape.len() == 2 ==> at == seq![row, h]
            &&& routing::is_row(
                routing::row_of(m.name(node.input[1]), g.rows as int, g.experts as int, row),
                g.experts as int,
                p.dtype,
            )
            &&& p.normalize ==> forall|y: real|
                y <= -routing::ordinary(p.dtype) ==> #[trigger] (m.functions.exp)(y) == 0real
        }),
    ensures
        ({
            let p = moe::moe_params(node, name, ctx)->Ok_0;
            let experts = g.experts as int;
            let logits = routing::row_of(m.name(node.input[1]), g.rows as int, experts, row);
            let x = routing::row_of(m.name(node.input[0]), g.rows as int, g.hidden as int, row);
            let k = node.int_attr("k"@, 1);
            &&& routing::is_top(
                top,
                logits,
                experts,
                if k < 1 {
                    1
                } else if k > g.experts {
                    experts
                } else {
                    k as int
                },
            )
            &&& node.output_at(0) matches Some(out) ==> (m.name(out).at)(at) == meaning::sum(
                experts,
                |e: int|
                    expert(
                        x,
                        m.name(w1),
                        m.name_opt(node.input_at(if p.quant {
                            4
                        } else {
                            3
                        })),
                        m.name(w2),
                        m.name_opt(node.input_at(if p.quant {
                            7
                        } else {
                            5
                        })),
                        p,
                        g,
                        m.functions,
                        e,
                        h,
                    ) * routing::share(
                        top,
                        logits,
                        experts,
                        node.int_attr("normalize_routing_weights"@, 0) != 0,
                        m.functions.exp,
                        e,
                    ),
            )
        }),
{
    let p = moe::moe_params(node, name, ctx)->Ok_0;
    let first = moe::weight_source(ops, node, ctx, p, 2, "fc1"@, name);
    let second = moe::weight_source(
        first.ops,
        node,
        ctx,
        p,
        moe::w2_index(p.quant),
        "fc2"@,
        name,
    );
    lemma_mixture(second.ops, node, p, g, w1, w2, node.label(name), m, row, h, at)
}

} // verus!
