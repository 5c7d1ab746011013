//! What the routing of a lowered mixture of experts computes.
use crate::builder;
use crate::builder::{BinaryOp, OpV, OperandV, ReduceOp};
use crate::floats;
use crate::floats::FloatBits;
use crate::meaning;
use crate::meaning::{Reading, Tensor};
use crate::ops;
use crate::ops::moe;
use crate::ops::moe::{GeometryV, MoeV, PeelV};
use crate::types::DataType;
use vstd::arithmetic::power2::{lemma2_to64, lemma_pow2_adds, lemma_pow2_pos, pow2};
use vstd::prelude::*;

verus! {

/// Logits of ordinary size lie within this bound.
pub open spec fn ordinary(dtype: DataType) -> real {
    if dtype == DataType::Float16 {
        30000real
    } else {
        pow2(126) as int as real
    }
}

/// The numbers of a row are of ordinary size and differ from one another.
pub open spec fn is_row(x: spec_fn(int) -> real, experts: int, dtype: DataType) -> bool {
    &&& forall|e: int|
        0 <= e < experts ==> -ordinary(dtype) < #[trigger] x(e) < ordinary(dtype)
    &&& forall|e: int, f: int|
        0 <= e < experts && 0 <= f < experts && e != f ==> #[trigger] x(e) != #[trigger] x(f)
}

/// `top` names the `k` largest numbers of a row.
pub open spec fn is_top(top: Set<int>, x: spec_fn(int) -> real, experts: int, k: int) -> bool {
    &&& top.finite()
    &&& top.len() == k
    &&& forall|e: int| #[trigger] top.contains(e) ==> 0 <= e < experts
    &&& forall|e: int, f: int| #[trigger]
        top.contains(e) && 0 <= f < experts && !#[trigger] top.contains(f) ==> x(e) > x(f)
}

/// One where a set has a member, and zero elsewhere.
pub open spec fn mark(top: Set<int>, e: int) -> real {
    if top.contains(e) {
        1real
    } else {
        0real
    }
}

/// The number that suppresses a logit exceeds any difference of two logits of
/// ordinary size.
pub proof fn lemma_big(dtype: DataType)
    ensures
        meaning::single(moe::big_value(dtype)) >= 2real * ordinary(dtype),
        meaning::single(floats::F32_ONE) == 1real,
        ordinary(dtype) > 0real,
{
    lemma2_to64();
    assert(pow2(23) == 0x80_0000 && pow2(8) == 256 && pow2(22) == 0x40_0000);
    meaning::lemma_scaled_down(0x80_0000, 23, 1);
    if dtype == DataType::Float16 {
        assert(0x476a_6000int / 0x80_0000 == 142 && 0x476a_6000int % 0x80_0000 == 0x6a_6000);
        meaning::lemma_scaled_down(0xea_6000, 8, 60000);
    } else {
        assert(0x7f61_b1e6int / 0x80_0000 == 254 && 0x7f61_b1e6int % 0x80_0000 == 0x61_b1e6);
        lemma_pow2_adds(22, 104);
        lemma_pow2_pos(104);
        lemma_pow2_pos(126);
        let p = pow2(104) as int;
        assert(pow2(126) == 0x40_0000 * p);
        assert(0xe1_b1e6 * p >= 2 * (0x40_0000 * p)) by (nonlinear_arith)
            requires
                p > 0,
        ;
        assert(meaning::scaled(0xe1_b1e6, 104) == (0xe1_b1e6 * p) as real);
    }
}

/// A one-element constant that has just been looked up.
#[verifier::rlimit(40)]
pub proof fn lemma_scalar(ops: Seq<OpV>, name: Seq<char>, dtype: DataType, value: u32, m: Reading)
    requires
        meaning::holds(ops::scalar_steps(ops, name, dtype, value), m),
    ensures
        meaning::holds(ops, m),
        ({
            let c = m.of(builder::last_operand(ops::scalar_steps(ops, name, dtype, value)));
            &&& c.shape == seq![1int]
            &&& c.at1(0) == meaning::single(value)
        }),
{
    broadcast use meaning::lemma_holds_push;

    let c = m.of(builder::last_operand(ops::scalar_steps(ops, name, dtype, value)));
    assert(meaning::naturals(seq![1u32]) =~= seq![1int]);
    meaning::lemma_place_1(seq![0int], seq![1int]);
    assert(c.at1(0) == meaning::number(FloatBits::Single(value)));
}

/// An operation between a matrix and a one-element tensor, either way round, or
/// two matrices of the same shape.
pub proof fn lemma_pointwise(op: BinaryOp, a: Tensor, b: Tensor, rows: int, cols: int, i: int, j: int)
    requires
        0 <= i < rows,
        0 <= j < cols,
        a.shape == seq![rows, cols] || a.shape == seq![1int],
        b.shape == seq![rows, cols] || b.shape == seq![1int],
    ensures
        a.shape.len() == 2 || b.shape.len() == 2 ==> meaning::elementwise(op, a, b).shape
            == seq![rows, cols],
        meaning::elementwise(op, a, b).at2(i, j) == meaning::combined(
            op,
            if a.shape.len() == 2 {
                a.at2(i, j)
            } else {
                a.at1(0)
            },
            if b.shape.len() == 2 {
                b.at2(i, j)
            } else {
                b.at1(0)
            },
            a.dtype,
        ),
{
    let s = seq![rows, cols];
    let at = seq![i, j];
    assert(meaning::valid(at, s));
    meaning::lemma_aligned(at, s);
    assert(meaning::aligned(at, seq![1int]) =~= seq![0int]);
    assert(meaning::joint_shape(s, s) =~= s);
    assert(meaning::joint_shape(s, seq![1int]) =~= s);
    assert(meaning::joint_shape(seq![1int], s) =~= s);
}

/// The largest number of a row of a matrix.
proof fn lemma_row_max(x: Tensor, rows: int, cols: int, i: int)
    requires
        0 <= i < rows,
        cols >= 1,
        x.shape == seq![rows, cols],
    ensures
        ({
            let y = meaning::reduce(ReduceOp::Max, x, meaning::naturals(seq![1u32]), true);
            &&& y.shape == seq![rows, 1int]
            &&& y.at2(i, 0) == meaning::largest(cols, |e: int| x.at2(i, e))
        }),
{
    let axes = meaning::naturals(seq![1u32]);
    assert(axes =~= seq![1int]);
    assert(axes[0] == 1);
    assert(axes.contains(1) && !axes.contains(0));
    let y = meaning::reduce(ReduceOp::Max, x, axes, true);
    assert(y.shape =~= seq![rows, 1int]);
    let inner = Seq::new(axes.len(), |k: int| x.shape[axes[k]]);
    assert(inner =~= seq![cols]);
    meaning::lemma_place_1(seq![0int], seq![cols]);
    let at = seq![i, 0int];
    let f = |n: int|
        (x.at)(meaning::refilled(at, meaning::index_at(n, inner), 2, axes, true));
    let g = |e: int| x.at2(i, e);
    assert forall|n: int| 0 <= n < cols implies #[trigger] f(n) == g(n) by {
        meaning::lemma_place_1(seq![n], inner);
        meaning::lemma_place(seq![n], inner);
        assert(axes.index_of(1) == 0);
        assert(meaning::refilled(at, seq![n], 2, axes, true) =~= seq![i, n]);
    }
    lemma_largest_same(cols, f, g);
    let h = |j: Seq<int>| (x.at)(meaning::refilled(at, j, 2, axes, true));
    lemma_largest_same(cols, |n: int| h(meaning::index_at(n, inner)), f);
}

proof fn lemma_largest_same(n: int, f: spec_fn(int) -> real, g: spec_fn(int) -> real)
    requires
        n >= 1,
        forall|i: int| 0 <= i < n ==> #[trigger] f(i) == g(i),
    ensures
        meaning::largest(n, f) == meaning::largest(n, g),
    decreases n,
{
    assert(f(0) == g(0));
    if n > 1 {
        lemma_largest_same(n - 1, f, g);
        assert(f(n - 1) == g(n - 1));
    }
}

/// A set of fewer than `n` numbers below `n` leaves one out.
proof fn lemma_left_out(top: Set<int>, n: int) -> (e: int)
    requires
        top.finite(),
        top.len() < n,
        forall|e: int| #[trigger] top.contains(e) ==> 0 <= e < n,
    ensures
        0 <= e < n,
        !top.contains(e),
{
    let all = vstd::set_lib::set_int_range(0, n);
    vstd::set_lib::lemma_int_range(0, n);
    if forall|e: int| 0 <= e < n ==> top.contains(e) {
        assert(top =~= all);
    }
    choose|e: int| 0 <= e < n && !top.contains(e)
}

/// Where the rounds stand in one row: what has been taken is suppressed in the
/// logits that are left, and marked in the selection.
spec fn stands(
    s: PeelV,
    m: Reading,
    rows: int,
    experts: int,
    row: int,
    x: spec_fn(int) -> real,
    big: real,
    top: Set<int>,
) -> bool {
    &&& m.of(s.work).shape == seq![rows, experts]
    &&& forall|e: int|
        0 <= e < experts ==> #[trigger] m.of(s.work).at2(row, e) == x(e) - mark(top, e) * big
    &&& match s.selected {
        None => top == Set::<int>::empty(),
        Some(o) => m.of(o).shape == seq![rows, experts] && forall|e: int|
            0 <= e < experts ==> #[trigger] m.of(o).at2(row, e) == mark(top, e),
    }
}

/// A plan with rounds added begins with the plan before them.
#[verifier::rlimit(40)]
pub proof fn lemma_peel_front(
    s: PeelV,
    i: int,
    k: int,
    dtype: DataType,
    big: OperandV,
    label: Seq<char>,
    m: Reading,
)
    requires
        meaning::holds(moe::peel(s, i, k, dtype, big, label).ops, m),
    ensures
        meaning::holds(s.ops, m),
        i < k ==> meaning::holds(moe::peel_once(s, i, k, dtype, big, label).ops, m),
    decreases k - i,
{
    if i < k {
        let t = moe::peel_once(s, i, k, dtype, big, label);
        lemma_peel_front(t, i + 1, k, dtype, big, label, m);
        assert(meaning::holds(s.ops, m)) by {
            broadcast use meaning::lemma_holds_push;

        }
    }
}

/// One round takes the largest number that is left.
#[verifier::rlimit(60)]
proof fn lemma_round(
    s: PeelV,
    i: int,
    k: int,
    dtype: DataType,
    big: OperandV,
    label: Seq<char>,
    m: Reading,
    rows: int,
    experts: int,
    row: int,
    x: spec_fn(int) -> real,
    top: Set<int>,
) -> (next: Set<int>)
    requires
        0 <= i < k < experts,
        0 <= row < rows,
        meaning::holds(moe::peel_once(s, i, k, dtype, big, label).ops, m),
        is_row(x, experts, dtype),
        m.of(big).shape == seq![1int],
        m.of(big).at1(0) >= 2real * ordinary(dtype),
        stands(s, m, rows, experts, row, x, m.of(big).at1(0), top),
        is_top(top, x, experts, i),
    ensures
        is_top(next, x, experts, i + 1),
        ({
            let t = moe::peel_once(s, i, k, dtype, big, label);
            &&& t.selected is Some
            &&& m.of(t.selected->0).shape == seq![rows, experts]
            &&& forall|e: int|
                0 <= e < experts ==> #[trigger] m.of(t.selected->0).at2(row, e) == mark(next, e)
            &&& i + 1 < k ==> stands(t, m, rows, experts, row, x, m.of(big).at1(0), next)
        }),
{
    let n = s.ops.len() as int;
    let b = m.of(big).at1(0);
    let work = m.of(s.work);
    let peak = m.of(OperandV { step: n, output: 0 });
    let equal = m.of(OperandV { step: n + 1, output: 0 });
    let mask = m.of(OperandV { step: n + 2, output: 0 });
    let t = moe::peel_once(s, i, k, dtype, big, label);
    let axes = meaning::naturals(seq![1u32]);
    let more: int = if s.selected is None {
        0
    } else {
        1
    };
    let penalty = m.of(OperandV { step: n + 3 + more, output: 0 });
    let after = m.of(OperandV { step: n + 4 + more, output: 0 });
    assert({
        &&& peak == meaning::reduce(ReduceOp::Max, work, axes, true)
        &&& equal == meaning::elementwise(BinaryOp::Equal, work, peak)
        &&& mask == meaning::cast(equal, ops::float_type(dtype))
        &&& s.selected matches Some(o) ==> m.of(t.selected->0) == meaning::elementwise(
            BinaryOp::Add,
            m.of(o),
            mask,
        )
        &&& s.selected is None ==> m.of(t.selected->0) == mask
        &&& i + 1 < k ==> penalty == meaning::elementwise(BinaryOp::Mul, mask, m.of(big))
        &&& i + 1 < k ==> after == meaning::elementwise(BinaryOp::Sub, work, penalty)
        &&& i + 1 < k ==> m.of(t.work) == after
    }) by {
        broadcast use meaning::lemma_holds_push;

    }
    // The largest number that is left, and where it stands.
    let f = |e: int| work.at2(row, e);
    let at = meaning::lemma_largest(experts, f);
    lemma_row_max(work, rows, experts, row);
    lemma_largest_same(experts, f, |e: int| work.at2(row, e));
    assert(peak.at2(row, 0) == work.at2(row, at));
    let out = lemma_left_out(top, experts);
    assert(f(out) <= f(at));
    assert(work.at2(row, out) == x(out) - mark(top, out) * b);
    assert(work.at2(row, at) == x(at) - mark(top, at) * b);
    assert(mark(top, out) * b == 0real);
    assert(!top.contains(at)) by {
        if top.contains(at) {
            assert(mark(top, at) * b == b);
            assert(x(at) - x(out) < 2real * ordinary(dtype));
        }
    }
    assert(mark(top, at) * b == 0real);
    let next = top.insert(at);
    assert forall|e: int, g: int| #[trigger]
        next.contains(e) && 0 <= g < experts && !#[trigger] next.contains(g) implies x(e) > x(
        g,
    ) by {
        if e == at {
            assert(f(g) <= f(at));
            assert(work.at2(row, g) == x(g) - mark(top, g) * b);
            assert(mark(top, g) * b == 0real);
            assert(x(g) != x(at));
        } else {
            assert(top.contains(e) && !top.contains(g));
        }
    }
    // The mask of this round.
    let s2 = seq![rows, experts];
    assert(meaning::joint_shape(s2, seq![rows, 1int]) =~= s2);
    assert forall|e: int| 0 <= e < experts implies #[trigger] mask.at2(row, e) == (if e == at {
        1real
    } else {
        0real
    }) by {
        let i2 = seq![row, e];
        assert(meaning::valid(i2, s2));
        meaning::lemma_aligned(i2, s2);
        assert(meaning::aligned(i2, seq![rows, 1int]) =~= seq![row, 0int]);
        assert(f(e) <= f(at));
        assert(work.at2(row, e) == x(e) - mark(top, e) * b);
        if e != at {
            assert(x(e) != x(at));
            if top.contains(e) {
                assert(mark(top, e) * b == b);
                assert(x(e) - x(at) < 2real * ordinary(dtype));
            } else {
                assert(mark(top, e) * b == 0real);
            }
        }
        assert(equal.at2(row, e) == meaning::combined(
            BinaryOp::Equal,
            work.at2(row, e),
            peak.at2(row, 0),
            work.dtype,
        ));
    }
    assert(mask.shape == s2);
    assert forall|e: int| 0 <= e < experts implies #[trigger] m.of(t.selected->0).at2(row, e)
        == mark(next, e) by {
        assert(mask.at2(row, e) == (if e == at {
            1real
        } else {
            0real
        }));
        if s.selected is Some {
            let acc = m.of(s.selected->0);
            lemma_pointwise(BinaryOp::Add, acc, mask, rows, experts, row, e);
            assert(acc.at2(row, e) == mark(top, e));
        }
    }
    assert(m.of(t.selected->0).shape == s2) by {
        if s.selected is Some {
            lemma_pointwise(BinaryOp::Add, m.of(s.selected->0), mask, rows, experts, row, at);
        }
    }
    if i + 1 < k {
        lemma_pointwise(BinaryOp::Mul, mask, m.of(big), rows, experts, row, at);
        lemma_pointwise(BinaryOp::Sub, work, penalty, rows, experts, row, at);
        assert forall|e: int| 0 <= e < experts implies #[trigger] after.at2(row, e) == x(e) - mark(
            next,
            e,
        ) * b by {
            lemma_pointwise(BinaryOp::Mul, mask, m.of(big), rows, experts, row, e);
            lemma_pointwise(BinaryOp::Sub, work, penalty, rows, experts, row, e);
            assert(mask.at2(row, e) == (if e == at {
                1real
            } else {
                0real
            }));
            assert(work.at2(row, e) == x(e) - mark(top, e) * b);
            if e == at {
                assert(1real * b == b);
                assert(mark(next, e) * b == b);
            } else {
                assert(0real * b == 0real);
                assert(mark(next, e) == mark(top, e));
            }
        }
    }
    next
}

/// Rounds `i..k` take the numbers up to the `k` largest.
proof fn lemma_rounds(
    s: PeelV,
    i: int,
    k: int,
    dtype: DataType,
    big: OperandV,
    label: Seq<char>,
    m: Reading,
    rows: int,
    experts: int,
    row: int,
    x: spec_fn(int) -> real,
    top: Set<int>,
) -> (last: Set<int>)
    requires
        0 <= i < k < experts,
        0 <= row < rows,
        meaning::holds(moe::peel(s, i, k, dtype, big, label).ops, m),
        is_row(x, experts, dtype),
        m.of(big).shape == seq![1int],
        m.of(big).at1(0) >= 2real * ordinary(dtype),
        stands(s, m, rows, experts, row, x, m.of(big).at1(0), top),
        is_top(top, x, experts, i),
    ensures
        is_top(last, x, experts, k),
        ({
            let t = moe::peel(s, i, k, dtype, big, label);
            &&& t.selected is Some
            &&& m.of(t.selected->0).shape == seq![rows, experts]
            &&& forall|e: int|
                0 <= e < experts ==> #[trigger] m.of(t.selected->0).at2(row, e) == mark(last, e)
        }),
    decreases k - i,
{
    lemma_peel_front(s, i, k, dtype, big, label, m);
    let next = lemma_round(s, i, k, dtype, big, label, m, rows, experts, row, x, top);
    let t = moe::peel_once(s, i, k, dtype, big, label);
    if i + 1 < k {
        lemma_rounds(t, i + 1, k, dtype, big, label, m, rows, experts, row, x, next)
    } else {
        assert(moe::peel(s, i, k, dtype, big, label) == moe::peel(t, i + 1, k, dtype, big, label));
        assert(moe::peel(t, i + 1, k, dtype, big, label) == t);
        next
    }
}

/// The exponentials of the logits of a row that are in `top`.
pub open spec fn exponentials(
    top: Set<int>,
    x: spec_fn(int) -> real,
    exp: spec_fn(real) -> real,
) -> spec_fn(int) -> real {
    |e: int|
        if top.contains(e) {
            exp(x(e))
        } else {
            0real
        }
}

/// The share of an expert in a row: its part of the exponentials, of all
/// experts or, where the weights are normalized, of those taken.
pub open spec fn share(
    top: Set<int>,
    x: spec_fn(int) -> real,
    experts: int,
    normalize: bool,
    exp: spec_fn(real) -> real,
    e: int,
) -> real {
    if normalize {
        exponentials(top, x, exp)(e) / meaning::sum(experts, exponentials(top, x, exp))
    } else if top.contains(e) {
        exp(x(e)) / meaning::sum(experts, |f: int| exp(x(f)))
    } else {
        0real
    }
}

/// The row of a matrix that a tensor holds in row-major order.
pub open spec fn row_of(t: Tensor, rows: int, cols: int, row: int) -> spec_fn(int) -> real {
    |e: int| meaning::reshape(t, seq![rows, cols]).at2(row, e)
}

/// A matrix brought to its own shape stays as it is.
pub proof fn lemma_same_matrix(t: Tensor, rows: int, cols: int, i: int, j: int)
    requires
        t.shape == seq![rows, cols],
        0 <= i < rows,
        0 <= j < cols,
    ensures
        meaning::reshape(t, seq![rows, cols]).at2(i, j) == t.at2(i, j),
{
    meaning::lemma_reshape(t, seq![rows, cols], seq![i, j], seq![i, j]);
}

proof fn lemma_softmax_row(t: Tensor, exp: spec_fn(real) -> real, rows: int, cols: int, i: int, j: int)
    requires
        t.shape == seq![rows, cols],
        0 <= i < rows,
        0 <= j < cols,
    ensures
        meaning::softmax(t, 1, exp).shape == t.shape,
        meaning::softmax(t, 1, exp).at2(i, j) == exp(t.at2(i, j)) / meaning::sum(
            cols,
            |f: int| exp(t.at2(i, f)),
        ),
{
    let at = seq![i, j];
    let g = |f: int| exp((t.at)(at.update(1, f)));
    let h = |f: int| exp(t.at2(i, f));
    assert forall|f: int| 0 <= f < cols implies #[trigger] g(f) == h(f) by {
        assert(at.update(1, f) =~= seq![i, f]);
    }
    meaning::lemma_sum_same(cols, g, h);
}

/// The steps behind the selection, normalized.
#[verifier::rlimit(40)]
proof fn lemma_normalized(
    ops: Seq<OpV>,
    logits: OperandV,
    selected: OperandV,
    big: OperandV,
    dtype: DataType,
    label: Seq<char>,
    m: Reading,
    rows: int,
    experts: int,
    row: int,
    x: spec_fn(int) -> real,
    top: Set<int>,
)
    requires
        ({
            let o2 = ops::scalar_steps(ops, label + "__one"@, dtype, floats::F32_ONE);
            let o3 = o2.push(
                ops::binary_op(
                    BinaryOp::Sub,
                    builder::last_operand(o2),
                    selected,
                    label + "_unselected"@,
                ),
            );
            let o4 = o3.push(
                ops::binary_op(
                    BinaryOp::Mul,
                    builder::last_operand(o3),
                    big,
                    label + "_mask_penalty"@,
                ),
            );
            let o5 = o4.push(
                ops::binary_op(
                    BinaryOp::Sub,
                    logits,
                    builder::last_operand(o4),
                    label + "_masked_logits"@,
                ),
            );
            meaning::holds(
                o5.push(
                    OpV::Softmax {
                        input: builder::last_operand(o5),
                        axis: 1,
                        label: label + "_probs"@,
                    },
                ),
                m,
            )
        }),
        0 <= row < rows,
        m.of(logits).shape == seq![rows, experts],
        m.of(selected).shape == seq![rows, experts],
        m.of(big).shape == seq![1int],
        m.of(big).at1(0) >= 2real * ordinary(dtype),
        is_row(x, experts, dtype),
        forall|e: int| 0 <= e < experts ==> #[trigger] m.of(logits).at2(row, e) == x(e),
        forall|e: int|
            0 <= e < experts ==> #[trigger] m.of(selected).at2(row, e) == mark(top, e),
        forall|y: real| y <= -ordinary(dtype) ==> #[trigger] (m.functions.exp)(y) == 0real,
    ensures
        ({
            let r = m.of(OperandV { step: ops.len() as int + 5, output: 0 });
            &&& r.shape == seq![rows, experts]
            &&& forall|e: int|
                0 <= e < experts ==> #[trigger] r.at2(row, e) == share(
                    top,
                    x,
                    experts,
                    true,
                    m.functions.exp,
                    e,
                )
        }),
{
    let n = ops.len() as int;
    let exp = m.functions.exp;
    let one = m.of(OperandV { step: n + 1, output: 0 });
    let rest = m.of(OperandV { step: n + 2, output: 0 });
    let penalty = m.of(OperandV { step: n + 3, output: 0 });
    let masked = m.of(OperandV { step: n + 4, output: 0 });
    let r = m.of(OperandV { step: n + 5, output: 0 });
    assert({
        &&& meaning::holds(ops::scalar_steps(ops, label + "__one"@, dtype, floats::F32_ONE), m)
        &&& rest == meaning::elementwise(BinaryOp::Sub, one, m.of(selected))
        &&& penalty == meaning::elementwise(BinaryOp::Mul, rest, m.of(big))
        &&& masked == meaning::elementwise(BinaryOp::Sub, m.of(logits), penalty)
        &&& r == meaning::softmax(masked, 1, exp)
    }) by {
        broadcast use meaning::lemma_holds_push;

    }
    lemma_scalar(ops, label + "__one"@, dtype, floats::F32_ONE, m);
    lemma_big(dtype);
    let b = m.of(big).at1(0);
    let y = |f: int| exp(masked.at2(row, f));
    let z = exponentials(top, x, exp);
    assert forall|e: int| 0 <= e < experts implies masked.shape == seq![rows, experts] && (
    #[trigger] y(e)) == z(e) by {
        lemma_pointwise(BinaryOp::Sub, one, m.of(selected), rows, experts, row, e);
        lemma_pointwise(BinaryOp::Mul, rest, m.of(big), rows, experts, row, e);
        lemma_pointwise(BinaryOp::Sub, m.of(logits), penalty, rows, experts, row, e);
        assert(m.of(selected).at2(row, e) == mark(top, e));
        assert(m.of(logits).at2(row, e) == x(e));
        assert(1real * b == b && 0real * b == 0real);
        if top.contains(e) {
            assert(masked.at2(row, e) == x(e));
        } else {
            assert(masked.at2(row, e) == x(e) - b);
            assert(x(e) - b <= -ordinary(dtype));
        }
    }
    meaning::lemma_sum_same(experts, y, z);
    assert(masked.shape == seq![rows, experts]) by {
        assert(meaning::joint_shape(seq![1int], seq![rows, experts]) =~= seq![rows, experts]);
        assert(meaning::joint_shape(seq![rows, experts], seq![1int]) =~= seq![rows, experts]);
        assert(meaning::joint_shape(seq![rows, experts], seq![rows, experts]) =~= seq![
            rows,
            experts,
        ]);
    }
    assert forall|e: int| 0 <= e < experts implies #[trigger] r.at2(row, e) == share(
        top,
        x,
        experts,
        true,
        exp,
        e,
    ) by {
        lemma_softmax_row(masked, exp, rows, experts, row, e);
        assert(y(e) == z(e));
    }
}

/// The routing weights of a row whose logits differ and are of ordinary size:
/// the experts with the `k` largest logits get their shares of the
/// exponentials, and the others nothing. Where the weights are normalized the
/// exponential is taken to vanish on numbers of extraordinary size.
#[verifier::rlimit(40)]
pub proof fn law_routing_weights(
    ops: Seq<OpV>,
    logits_in: OperandV,
    p: MoeV,
    g: GeometryV,
    label: Seq<char>,
    m: Reading,
    row: int,
) -> (top: Set<int>)
    requires
        meaning::holds(moe::routing(ops, logits_in, p, g, label).ops, m),
        0 <= row < g.rows,
        1 <= g.experts,
        p.x_shape.len() == 2 ==> m.of(logits_in).shape == seq![g.rows as int, g.experts as int],
        is_row(
            row_of(m.of(logits_in), g.rows as int, g.experts as int, row),
            g.experts as int,
            p.dtype,
        ),
        p.normalize ==> forall|y: real|
            y <= -ordinary(p.dtype) ==> #[trigger] (m.functions.exp)(y) == 0real,
    ensures
        meaning::holds(ops, m),
        ({
            let x = row_of(m.of(logits_in), g.rows as int, g.experts as int, row);
            let k: int = if p.k < 1 {
                1
            } else if p.k > g.experts {
                g.experts as int
            } else {
                p.k as int
            };
            let w = m.of(moe::routing(ops, logits_in, p, g, label).operand);
            &&& is_top(top, x, g.experts as int, k)
            &&& w.shape == seq![g.rows as int, g.experts as int]
            &&& forall|e: int|
                0 <= e < g.experts ==> #[trigger] w.at2(row, e) == share(
                    top,
                    x,
                    g.experts as int,
                    p.normalize,
                    m.functions.exp,
                    e,
                )
        }),
{
    let rows = g.rows as int;
    let experts = g.experts as int;
    let exp = m.functions.exp;
    let s2 = seq![rows, experts];
    let x = row_of(m.of(logits_in), rows, experts, row);
    let k = moe::taken(p.k, g.experts);
    let part = moe::routing(ops, logits_in, p, g, label);
    let o0 = if p.x_shape.len() != 2 {
        ops.push(
            OpV::Reshape {
                input: logits_in,
                shape: seq![g.rows, g.experts],
                label: label + "_logits2d"@,
            },
        )
    } else {
        ops
    };
    let logits = if p.x_shape.len() != 2 {
        builder::last_operand(o0)
    } else {
        logits_in
    };
    let l = m.of(logits);
    let w = m.of(part.operand);
    assert(meaning::ints(seq![g.rows, g.experts]) =~= s2);
    if k >= g.experts {
        assert({
            &&& meaning::holds(ops, m)
            &&& p.x_shape.len() != 2 ==> l == meaning::reshape(m.of(logits_in), s2)
            &&& w == meaning::softmax(l, 1, exp)
        }) by {
            broadcast use meaning::lemma_holds_push;

        }
        let top = vstd::set_lib::set_int_range(0, experts);
        vstd::set_lib::lemma_int_range(0, experts);
        let y = |f: int| exp(l.at2(row, f));
        let z = |f: int| exp(x(f));
        let u = exponentials(top, x, exp);
        assert forall|e: int| 0 <= e < experts implies (#[trigger] y(e)) == z(e) && l.at2(row, e)
            == x(e) by {
            if p.x_shape.len() == 2 {
                lemma_same_matrix(l, rows, experts, row, e);
            }
        }
        meaning::lemma_sum_same(experts, y, z);
        meaning::lemma_sum_same(experts, z, u);
        assert forall|e: int| 0 <= e < experts implies #[trigger] w.at2(row, e) == share(
            top,
            x,
            experts,
            p.normalize,
            exp,
            e,
        ) by {
            lemma_softmax_row(l, exp, rows, experts, row, e);
            assert(y(e) == z(e));
        }
        return top;
    }
    let o1 = ops::scalar_steps(o0, label + "__big"@, p.dtype, moe::big_value(p.dtype));
    let big = builder::last_operand(o1);
    let start = PeelV { ops: o1, work: logits, selected: None };
    let peeled = moe::peel(start, 0, k as int, p.dtype, big, label);
    let selected = peeled.selected->0;
    let q = peeled.ops.len() as int;
    assert({
        &&& meaning::holds(peeled.ops, m)
        &&& !p.normalize ==> {
            &&& m.of(OperandV { step: q, output: 0 }) == meaning::softmax(l, 1, exp)
            &&& w == meaning::elementwise(
                BinaryOp::Mul,
                m.of(OperandV { step: q, output: 0 }),
                m.of(selected),
            )
        }
    }) by {
        broadcast use meaning::lemma_holds_push;

    }
    lemma_peel_front(start, 0, k as int, p.dtype, big, label, m);
    lemma_scalar(o0, label + "__big"@, p.dtype, moe::big_value(p.dtype), m);
    lemma_big(p.dtype);
    assert({
        &&& meaning::holds(ops, m)
        &&& p.x_shape.len() != 2 ==> l == meaning::reshape(m.of(logits_in), s2)
    }) by {
        broadcast use meaning::lemma_holds_push;

    }
    let none = Set::<int>::empty();
    let b = m.of(big).at1(0);
    assert forall|e: int| 0 <= e < experts implies #[trigger] l.at2(row, e) == x(e) by {
        if p.x_shape.len() == 2 {
            lemma_same_matrix(l, rows, experts, row, e);
        }
    }
    assert forall|e: int| 0 <= e < experts implies #[trigger] m.of(start.work).at2(row, e) == x(e)
        - mark(none, e) * b by {
        assert(l.at2(row, e) == x(e));
        assert(0real * b == 0real);
    }
    let top = lemma_rounds(
        start,
        0,
        k as int,
        p.dtype,
        big,
        label,
        m,
        rows,
        experts,
        row,
        x,
        none,
    );
    if p.normalize {
        lemma_normalized(
            peeled.ops,
            logits,
            selected,
            big,
            p.dtype,
            label,
            m,
            rows,
            experts,
            row,
            x,
            top,
        );
        assert(part.operand == (OperandV { step: q + 5, output: 0 }));
    } else {
        let probs = m.of(OperandV { step: q, output: 0 });
        let y = |f: int| exp(l.at2(row, f));
        let z = |f: int| exp(x(f));
        assert forall|e: int| 0 <= e < experts implies (#[trigger] y(e)) == z(e) by {
            assert(l.at2(row, e) == x(e));
        }
        meaning::lemma_sum_same(experts, y, z);
        assert(meaning::joint_shape(s2, s2) =~= s2);
        assert forall|e: int| 0 <= e < experts implies #[trigger] w.at2(row, e) == share(
            top,
            x,
            experts,
            p.normalize,
            exp,
            e,
        ) by {
            lemma_softmax_row(l, exp, rows, experts, row, e);
            lemma_pointwise(BinaryOp::Mul, probs, m.of(selected), rows, experts, row, e);
            assert(m.of(selected).at2(row, e) == mark(top, e));
            assert(y(e) == z(e));
            let v = exp(x(e)) / meaning::sum(experts, z);
            assert(v * 1real == v && v * 0real == 0real);
        }
    }
    top
}

} // verus!
