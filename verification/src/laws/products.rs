//! What lowered matrix products compute.
use crate::builder;
use crate::builder::{BinaryOp, OpV, OperandV};
use crate::context::ContextV;
use crate::floats;
use crate::laws::weights;
use crate::meaning;
use crate::meaning::{Reading, Tensor};
use crate::ops::matmul;
use crate::protos::NodeV;
use crate::types::DataType;
use vstd::prelude::*;

verus! {

/// A lowered `MatMul` node: the product of a tensor with a matrix.
#[verifier::rlimit(40)]
pub proof fn law_matmul(node: NodeV, name: Seq<char>, ops: Seq<OpV>, m: Reading, k: int, n: int)
    requires
        node.input.len() == 2,
        node.output.len() > 0,
        meaning::holds(matmul::matmul_outcome(node, name, ops).ops, m),
        m.name(node.input[0]).shape.len() >= 2,
        m.name(node.input[0]).shape.last() == k,
        m.name(node.input[1]).shape == seq![k, n],
    ensures
        weights::is_product(
            m.name(node.output[0]),
            m.name(node.input[0]),
            k,
            n,
            |a: int, b: int| m.name(node.input[1]).at2(a, b),
        ),
{
    broadcast use meaning::lemma_holds_push;

    let x = m.name(node.input[0]);
    let w = m.name(node.input[1]);
    assert(m.name(node.output[0]) == meaning::matmul(x, w));
    weights::lemma_product(x, w, k, n, |a: int, b: int| w.at2(a, b));
}

/// An element of a matrix, or of its transpose.
pub open spec fn entry(x: Tensor, flip: bool, i: int, j: int) -> real {
    if flip {
        x.at2(j, i)
    } else {
        x.at2(i, j)
    }
}

/// A factor of a node: one where it is not given or zero.
pub open spec fn factor(node: NodeV, name: Seq<char>) -> real {
    meaning::single(matmul::nonzero_float(node.attribute, name, floats::F32_ONE))
}

/// A lowered `Gemm` node: `alpha * A' * B' + beta * C`, with `A` and `B`
/// transposed where that is asked for.
#[verifier::rlimit(40)]
pub proof fn law_gemm(
    node: NodeV,
    name: Seq<char>,
    ops: Seq<OpV>,
    m: Reading,
    rows: int,
    k: int,
    cols: int,
    i: int,
    j: int,
)
    requires
        node.input.len() >= 2,
        node.output.len() > 0,
        meaning::holds(matmul::gemm_outcome(node, name, ops).ops, m),
        m.name(node.input[0]).shape == if matmul::flag_set(node.attribute, "transA"@) {
            seq![k, rows]
        } else {
            seq![rows, k]
        },
        m.name(node.input[1]).shape == if matmul::flag_set(node.attribute, "transB"@) {
            seq![cols, k]
        } else {
            seq![k, cols]
        },
        0 <= i < rows,
        0 <= j < cols,
    ensures
        m.name(node.output[0]).at2(i, j) == factor(node, "alpha"@) * meaning::sum(
            k,
            |t: int|
                entry(
                    m.name(node.input[0]),
                    matmul::flag_set(node.attribute, "transA"@),
                    i,
                    t,
                ) * entry(
                    m.name(node.input[1]),
                    matmul::flag_set(node.attribute, "transB"@),
                    t,
                    j,
                ),
        ) + if node.input.len() > 2 {
            factor(node, "beta"@) * (m.name(node.input[2]).at)(
                meaning::aligned(seq![i, j], m.name(node.input[2]).shape),
            )
        } else {
            0real
        },
{
    let fa = matmul::flag_set(node.attribute, "transA"@);
    let fb = matmul::flag_set(node.attribute, "transB"@);
    let a = m.name(node.input[0]);
    let b = m.name(node.input[1]);
    let c = if node.input.len() > 2 {
        Some(m.name(node.input[2]))
    } else {
        None
    };
    let y = m.name(node.output[0]);
    let x = meaning::oriented(a, fa);
    let w = meaning::oriented(b, fb);
    assert(y == meaning::gemm(x, w, c, factor(node, "alpha"@), factor(node, "beta"@))) by {
        broadcast use meaning::lemma_holds_push;

    }
    lemma_entry(a, fa, rows, k);
    lemma_entry(b, fb, k, cols);
    let p = meaning::matmul(x, w);
    weights::lemma_product(x, w, k, cols, |s: int, t: int| entry(b, fb, s, t));
    let at = seq![i, j];
    assert(p.shape =~= seq![rows, cols]);
    assert(meaning::valid(at, p.shape));
    let f = |t: int| (x.at)(at.update(1, t)) * entry(b, fb, t, at[1]);
    let g = |t: int| entry(a, fa, i, t) * entry(b, fb, t, j);
    let h = |t: int| (x.at)(at.update(1, t)) * (|s: int, t: int| entry(b, fb, s, t))(t, at[1]);
    assert forall|t: int| 0 <= t < k implies #[trigger] h(t) == g(t) by {
        assert(at.update(1, t) =~= seq![i, t]);
        assert(x.at2(i, t) == entry(a, fa, i, t));
    }
    meaning::lemma_sum_same(k, h, g);
}

proof fn lemma_entry(x: Tensor, flip: bool, rows: int, cols: int)
    requires
        x.shape == if flip {
            seq![cols, rows]
        } else {
            seq![rows, cols]
        },
    ensures
        meaning::oriented(x, flip).shape == seq![rows, cols],
        forall|i: int, j: int| #[trigger]
            meaning::oriented(x, flip).at2(i, j) == entry(x, flip, i, j),
{
    let p = seq![1int, 0];
    if flip {
        let y = meaning::transpose(x, p);
        assert(y.shape =~= seq![rows, cols]);
        assert forall|i: int, j: int| #[trigger] y.at2(i, j) == x.at2(j, i) by {
            let s = seq![j, i];
            assert(p.contains(0) && p.contains(1)) by {
                assert(p[0] == 1 && p[1] == 0);
            }
            meaning::lemma_transpose(x, p, s);
            assert(Seq::new(p.len(), |z: int| s[p[z]]) =~= seq![i, j]);
        }
    }
}

// ---------------------------------------------------------------------------
// MatMulInteger
// ---------------------------------------------------------------------------

/// An element of an integer operand less its zero point: one for all, or one
/// for each row or column.
pub open spec fn centred(x: Tensor, zero: Option<Tensor>, per_row: bool, i: int, j: int) -> real {
    x.at2(i, j) - match zero {
        None => 0real,
        Some(z) => if z.shape.len() == 0 {
            (z.at)(seq![])
        } else if z.shape[0] == 1 {
            z.at1(0)
        } else if per_row {
            z.at1(i)
        } else {
            z.at1(j)
        },
    }
}

/// A zero point fits an operand: one number, or one for each row or column,
/// and the lowering knows its shape.
pub open spec fn zero_fits(
    name: Option<Seq<char>>,
    ctx: ContextV,
    m: Reading,
    per_row: bool,
    rows: int,
    cols: int,
) -> bool {
    name matches Some(z) ==> {
        let s = m.name(z).shape;
        &&& ctx.shape(z) matches Some(t) && meaning::ints(t) == s
        &&& s.len() <= 1
        &&& s.len() == 1 ==> s[0] == 1 || s[0] == if per_row {
            rows
        } else {
            cols
        }
    }
}

proof fn lemma_centred(
    ops: Seq<OpV>,
    operand: Seq<char>,
    zero: Option<Seq<char>>,
    ctx: ContextV,
    per_row: bool,
    label: Seq<char>,
    m: Reading,
    rows: int,
    cols: int,
)
    requires
        meaning::holds(matmul::centered(ops, operand, zero, ctx, per_row, label), m),
        m.name(operand).shape == seq![rows, cols],
        zero_fits(zero, ctx, m, per_row, rows, cols),
        rows > 0,
        cols > 0,
    ensures
        meaning::holds(ops, m),
        ({
            let y = m.of(
                builder::last_operand(
                    matmul::centered(ops, operand, zero, ctx, per_row, label),
                ),
            );
            &&& y.shape == seq![rows, cols]
            &&& forall|i: int, j: int|
                0 <= i < rows && 0 <= j < cols ==> #[trigger] y.at2(i, j) == centred(
                    m.name(operand),
                    m.name_opt(zero),
                    per_row,
                    i,
                    j,
                )
        }),
{
    let n = ops.len() as int;
    let x = m.name(operand);
    let y = m.of(
        builder::last_operand(matmul::centered(ops, operand, zero, ctx, per_row, label)),
    );
    let a = m.of(OperandV { step: n + 1, output: 0 });
    let full = seq![rows, cols];
    if zero is None {
        assert(meaning::holds(ops, m) && y == meaning::cast(x, DataType::Float32)) by {
            broadcast use meaning::lemma_holds_push;

        }
    } else {
        let z = m.name(zero->0);
        let t = ctx.shape(zero->0)->0;
        let zs = meaning::ints(t);
        assert(zs.len() == t.len());
        let column = per_row && t.len() == 1 && t[0] > 1;
        let deep = seq![t[0] as int, 1];
        let b = m.of(OperandV { step: n + 3, output: 0 });
        if column {
            assert(meaning::ints(seq![t[0], 1i64]) =~= deep);
        }
        let c = if column {
            meaning::reshape(b, deep)
        } else {
            b
        };
        assert({
            &&& meaning::holds(ops, m)
            &&& a == meaning::cast(x, DataType::Float32)
            &&& b == meaning::cast(z, DataType::Float32)
            &&& y == meaning::elementwise(BinaryOp::Sub, a, c)
        }) by {
            broadcast use meaning::lemma_holds_push;

        }
        assert(zs.len() == 1 ==> zs[0] == t[0]);
        assert(meaning::joint_shape(full, c.shape) =~= full);
        assert forall|i: int, j: int| 0 <= i < rows && 0 <= j < cols implies #[trigger] y.at2(i, j)
            == centred(x, m.name_opt(zero), per_row, i, j) by {
            let at = seq![i, j];
            assert(meaning::valid(at, full));
            meaning::lemma_aligned(at, full);
            if zs.len() == 0 {
                assert(meaning::aligned(at, c.shape) =~= seq![]);
            } else if column {
                assert(meaning::aligned(at, c.shape) =~= seq![i, 0int]);
                meaning::lemma_place_2(seq![i, 0int], deep);
                meaning::lemma_place_1(seq![i], zs);
                assert(i * 1 + 0 == i);
                assert(meaning::valid(seq![i], b.shape));
                meaning::lemma_reshape(b, deep, seq![i, 0int], seq![i]);
            } else {
                assert(meaning::aligned(at, c.shape) =~= seq![
                    if zs[0] == 1 {
                        0
                    } else {
                        j
                    },
                ]);
            }
        }
    }
}

/// A lowered `MatMulInteger` node: the products of both operands less their
/// zero points, as integers.
#[verifier::rlimit(40)]
pub proof fn law_matmul_integer(
    node: NodeV,
    name: Seq<char>,
    ctx: ContextV,
    ops: Seq<OpV>,
    m: Reading,
    rows: int,
    k: int,
    cols: int,
    i: int,
    j: int,
)
    requires
        2 <= node.input.len() <= 4,
        node.output.len() > 0,
        meaning::holds(matmul::integer_outcome(node, name, ctx, ops).ops, m),
        m.name(node.input[0]).shape == seq![rows, k],
        m.name(node.input[1]).shape == seq![k, cols],
        zero_fits(node.input_at(2), ctx, m, true, rows, k),
        zero_fits(node.input_at(3), ctx, m, false, k, cols),
        k > 0,
        0 <= i < rows,
        0 <= j < cols,
    ensures
        m.name(node.output[0]).at2(i, j) == meaning::converted(
            meaning::sum(
                k,
                |t: int|
                    centred(m.name(node.input[0]), m.name_opt(node.input_at(2)), true, i, t)
                        * centred(
                        m.name(node.input[1]),
                        m.name_opt(node.input_at(3)),
                        false,
                        t,
                        j,
                    ),
            ),
            DataType::Int32,
        ),
{
    let label = node.label(name);
    let o1 = matmul::centered(ops, node.input[0], node.input_at(2), ctx, true, label + "_a"@);
    let o2 = matmul::centered(o1, node.input[1], node.input_at(3), ctx, false, label + "_b"@);
    let z = o2.len() as int;
    let x = m.of(builder::last_operand(o1));
    let w = m.of(builder::last_operand(o2));
    let p = m.of(OperandV { step: z, output: 0 });
    let y = m.name(node.output[0]);
    assert({
        &&& meaning::holds(o2, m)
        &&& p == meaning::matmul(x, w)
        &&& y == meaning::cast(p, DataType::Int32)
    }) by {
        broadcast use meaning::lemma_holds_push;

    }
    lemma_centred(o1, node.input[1], node.input_at(3), ctx, false, label + "_b"@, m, k, cols);
    lemma_centred(ops, node.input[0], node.input_at(2), ctx, true, label + "_a"@, m, rows, k);
    let (x0, z0) = (m.name(node.input[0]), m.name_opt(node.input_at(2)));
    let (x1, z1) = (m.name(node.input[1]), m.name_opt(node.input_at(3)));
    let e = |s: int, t: int| centred(x1, z1, false, s, t);
    assert forall|a: int, b: int| 0 <= a < k && 0 <= b < cols implies #[trigger] w.at2(a, b) == e(
        a,
        b,
    ) by {}
    weights::lemma_product(x, w, k, cols, e);
    let at = seq![i, j];
    assert(p.shape =~= seq![rows, cols]);
    assert(meaning::valid(at, p.shape));
    let h = |t: int| (x.at)(at.update(1, t)) * e(t, at[1]);
    let g = |t: int| centred(x0, z0, true, i, t) * centred(x1, z1, false, t, j);
    assert forall|t: int| 0 <= t < k implies #[trigger] h(t) == g(t) by {
        assert(at.update(1, t) =~= seq![i, t]);
        assert(x.at2(i, t) == centred(x0, z0, true, i, t));
    }
    meaning::lemma_sum_same(k, h, g);
}

} // verus!
