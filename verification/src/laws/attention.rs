//! What lowered attention computes.
use crate::builder;
use crate::builder::{BinaryOp, ConstDataV, OpV, OperandV};
use crate::context::ContextV;
use crate::floats;
use crate::laws::rotation;
use crate::laws::routing;
use crate::meaning;
use crate::meaning::{Reading, Tensor};
use crate::ops;
use crate::ops::attention;
use crate::ops::attention::GqaV;
use crate::protos::NodeV;
use crate::types::DataType;
use vstd::prelude::*;

verus! {

// ---------------------------------------------------------------------------
// Tensors of rank four
// ---------------------------------------------------------------------------

/// Two axes in the middle swapped.
pub proof fn lemma_swap_middle(x: Tensor, a: int, b: int, c: int, d: int)
    requires
        x.shape.len() == 4,
    ensures
        ({
            let y = meaning::transpose(x, meaning::naturals(seq![0u32, 2u32, 1u32, 3u32]));
            &&& y.shape == seq![x.shape[0], x.shape[2], x.shape[1], x.shape[3]]
            &&& y.at4(a, b, c, d) == x.at4(a, c, b, d)
        }),
{
    let p = meaning::naturals(seq![0u32, 2u32, 1u32, 3u32]);
    assert(p[0] == 0 && p[1] == 2 && p[2] == 1 && p[3] == 3);
    assert(p.contains(0) && p.contains(1) && p.contains(2) && p.contains(3));
    let j = seq![a, c, b, d];
    meaning::lemma_transpose(x, p, j);
    assert(Seq::new(p.len(), |z: int| j[p[z]]) =~= seq![a, b, c, d]);
    assert(meaning::transpose(x, p).shape =~= seq![
        x.shape[0],
        x.shape[2],
        x.shape[1],
        x.shape[3],
    ]);
}

/// The last two axes swapped.
proof fn lemma_swap_last(x: Tensor, a: int, b: int, c: int, d: int)
    requires
        x.shape.len() == 4,
    ensures
        ({
            let y = meaning::transpose(x, meaning::naturals(seq![0u32, 1u32, 3u32, 2u32]));
            &&& y.shape == seq![x.shape[0], x.shape[1], x.shape[3], x.shape[2]]
            &&& y.at4(a, b, c, d) == x.at4(a, b, d, c)
        }),
{
    let p = meaning::naturals(seq![0u32, 1u32, 3u32, 2u32]);
    assert(p[0] == 0 && p[1] == 1 && p[2] == 3 && p[3] == 2);
    assert(p.contains(0) && p.contains(1) && p.contains(2) && p.contains(3));
    let j = seq![a, b, d, c];
    meaning::lemma_transpose(x, p, j);
    assert(Seq::new(p.len(), |z: int| j[p[z]]) =~= seq![a, b, c, d]);
    assert(meaning::transpose(x, p).shape =~= seq![
        x.shape[0],
        x.shape[1],
        x.shape[3],
        x.shape[2],
    ]);
}

/// Matrix products for each pair of leading indices.
proof fn lemma_matmul_4(x: Tensor, y: Tensor, a: int, b: int, c: int, d: int)
    requires
        x.shape.len() == 4,
        y.shape.len() == 4,
        x.shape[0] == y.shape[0],
        x.shape[1] == y.shape[1],
        0 <= a < x.shape[0],
        0 <= b < x.shape[1],
    ensures
        ({
            let z = meaning::matmul(x, y);
            &&& z.shape == seq![x.shape[0], x.shape[1], x.shape[2], y.shape[3]]
            &&& z.at4(a, b, c, d) == meaning::sum(
                x.shape[3],
                |t: int| x.at4(a, b, c, t) * y.at4(a, b, t, d),
            )
        }),
{
    let z = meaning::matmul(x, y);
    let front = x.shape.take(2);
    assert(y.shape.take(2) =~= front);
    assert(meaning::joint_shape(front, front) =~= front);
    assert(z.shape =~= seq![x.shape[0], x.shape[1], x.shape[2], y.shape[3]]);
    let i = seq![a, b, c, d];
    assert(i.take(2) =~= seq![a, b]);
    assert(meaning::valid(seq![a, b], front));
    meaning::lemma_aligned(seq![a, b], front);
    let f = |t: int|
        (x.at)(meaning::aligned(i.take(2), front) + seq![c, t]) * (y.at)(
            meaning::aligned(i.take(2), y.shape.take(2)) + seq![t, d],
        );
    let g = |t: int| x.at4(a, b, c, t) * y.at4(a, b, t, d);
    assert forall|t: int| 0 <= t < x.shape[3] implies #[trigger] f(t) == g(t) by {
        assert(seq![a, b] + seq![c, t] =~= seq![a, b, c, t]);
        assert(seq![a, b] + seq![t, d] =~= seq![a, b, t, d]);
    }
    meaning::lemma_sum_same(x.shape[3], f, g);
}

// ---------------------------------------------------------------------------
// Caches and heads
// ---------------------------------------------------------------------------

/// The sizes of a node agree with one another.
pub open spec fn is_sized(p: GqaV) -> bool {
    &&& p.batch > 0 && p.seq > 0 && p.head_dim > 0 && p.kv_num_heads > 0
    &&& p.past_seq >= 0
    &&& p.total_seq == p.past_seq + p.seq
    &&& p.num_heads > 0 && p.num_heads as int % p.kv_num_heads as int == 0
    &&& p.num_heads * p.head_dim <= i64::MAX
}

/// A tensor with one row for each batch, head and position.
pub open spec fn by_heads(x: Tensor, p: GqaV, heads: int, positions: int) -> bool {
    x.shape == seq![p.batch as int, heads, positions, p.head_dim as int]
}

/// The cached positions come first and the new ones behind them: for every
/// batch, head and channel, position `t` of the present key or value is
/// position `t` of the cached one where there is such a position, and position
/// `t - P` of the new one otherwise.
#[verifier::rlimit(40)]
pub proof fn law_present_follows_past(
    ops: Seq<OpV>,
    past: OperandV,
    new: OperandV,
    p: GqaV,
    label: Seq<char>,
    m: Reading,
)
    requires
        meaning::holds(attention::appended(ops, past, new, p, label).ops, m),
        is_sized(p),
        by_heads(m.of(past), p, p.kv_num_heads as int, p.past_seq as int),
        by_heads(m.of(new), p, p.kv_num_heads as int, p.seq as int),
    ensures
        meaning::holds(ops, m),
        ({
            let present = m.of(attention::appended(ops, past, new, p, label).operand);
            &&& by_heads(present, p, p.kv_num_heads as int, p.past_seq + p.seq)
            &&& forall|b: int, h: int, t: int, d: int|
                0 <= t < p.past_seq + p.seq ==> #[trigger] present.at4(b, h, t, d) == if t
                    < p.past_seq {
                    m.of(past).at4(b, h, t, d)
                } else {
                    m.of(new).at4(b, h, t - p.past_seq, d)
                }
        }),
{
    let present = m.of(attention::appended(ops, past, new, p, label).operand);
    if p.past_seq != 0 {
        let parts = m.all(seq![past, new]);
        assert(meaning::holds(ops, m) && present == meaning::concat(parts, 2)) by {
            broadcast use meaning::lemma_holds_push;

        }
        assert(parts =~= seq![m.of(past), m.of(new)]);
        meaning::lemma_concat(parts, 2, seq![0int, 0, 0, 0]);
        assert(present.shape =~= seq![
            p.batch as int,
            p.kv_num_heads as int,
            p.past_seq + p.seq,
            p.head_dim as int,
        ]);
        assert forall|b: int, h: int, t: int, d: int|
            0 <= t < p.past_seq + p.seq implies #[trigger] present.at4(b, h, t, d) == if t
            < p.past_seq {
            m.of(past).at4(b, h, t, d)
        } else {
            m.of(new).at4(b, h, t - p.past_seq, d)
        } by {
            let i = seq![b, h, t, d];
            meaning::lemma_concat(parts, 2, i);
            assert(i.update(2, t - p.past_seq) =~= seq![b, h, t - p.past_seq, d]);
        }
    }
}

/// Query head `h` attends to the KV head of its group.
#[verifier::rlimit(40)]
pub proof fn law_heads_share_groups(
    ops: Seq<OpV>,
    input: OperandV,
    p: GqaV,
    label: Seq<char>,
    m: Reading,
)
    requires
        meaning::holds(attention::repeated(ops, input, p, label).ops, m),
        is_sized(p),
        by_heads(m.of(input), p, p.kv_num_heads as int, p.total_seq as int),
    ensures
        meaning::holds(ops, m),
        ({
            let r = m.of(attention::repeated(ops, input, p, label).operand);
            let group = p.num_heads as int / p.kv_num_heads as int;
            &&& by_heads(r, p, p.num_heads as int, p.total_seq as int)
            &&& forall|b: int, h: int, t: int, d: int|
                0 <= b < p.batch && 0 <= h < p.num_heads && 0 <= t < p.total_seq && 0 <= d
                    < p.head_dim ==> #[trigger] r.at4(b, h, t, d) == m.of(input).at4(
                    b,
                    h / group,
                    t,
                    d,
                )
        }),
{
    let group = p.num_heads as int / p.kv_num_heads as int;
    let kv = p.kv_num_heads as int;
    let heads = p.num_heads as int;
    let n = ops.len() as int;
    let x = m.of(input);
    let r = m.of(attention::repeated(ops, input, p, label).operand);
    assert(heads == group * kv && group > 0) by (nonlinear_arith)
        requires
            group == heads / kv,
            heads % kv == 0,
            heads > 0,
            kv > 0,
    ;
    if group == 1 {
        assert(heads == kv) by (nonlinear_arith)
            requires
                heads == group * kv,
                group == 1,
        ;
    } else {
        let total = p.total_seq as int;
        let width = p.head_dim as int;
        let grouped = m.of(OperandV { step: n, output: 0 });
        let spread = m.of(OperandV { step: n + 1, output: 0 });
        let s1 = seq![p.batch as int, kv, 1, total, width];
        let s2 = seq![p.batch as int, kv, group, total, width];
        let s3 = seq![p.batch as int, heads, total, width];
        assert(meaning::ints(
            seq![p.batch, p.kv_num_heads, 1i64, p.total_seq, p.head_dim],
        ) =~= s1);
        assert(group <= heads) by (nonlinear_arith)
            requires
                heads == group * kv,
                kv >= 1,
                group > 0,
        ;
        assert(meaning::ints(
            seq![p.batch, p.kv_num_heads, group as i64, p.total_seq, p.head_dim],
        ) =~= s2);
        assert(meaning::ints(seq![p.batch, p.num_heads, p.total_seq, p.head_dim]) =~= s3);
        assert({
            &&& meaning::holds(ops, m)
            &&& grouped == meaning::reshape(x, s1)
            &&& spread == meaning::expand(grouped, s2)
            &&& r == meaning::reshape(spread, s3)
        }) by {
            broadcast use meaning::lemma_holds_push;

        }
        assert forall|b: int, h: int, t: int, d: int|
            0 <= b < p.batch && 0 <= h < p.num_heads && 0 <= t < p.total_seq && 0 <= d
                < p.head_dim implies #[trigger] r.at4(b, h, t, d) == x.at4(
            b,
            h / group,
            t,
            d,
        ) by {
            let q = h / group;
            let k = h % group;
            assert(0 <= q < kv && 0 <= k < group && q * group + k == h) by (nonlinear_arith)
                requires
                    q == h / group,
                    k == h % group,
                    0 <= h < group * kv,
                    group > 0,
            ;
            let i5 = seq![b, q, k, t, d];
            let i4 = seq![b, h, t, d];
            meaning::lemma_place_4(i4, s3);
            meaning::lemma_place_5(i5, s2);
            assert((b * kv + q) * group + k == b * heads + h) by (nonlinear_arith)
                requires
                    heads == group * kv,
                    q * group + k == h,
            ;
            assert(meaning::valid(i5, s2));
            meaning::lemma_reshape(spread, s3, i4, i5);
            let one = seq![b, q, 0int, t, d];
            assert(meaning::aligned(i5, s1) =~= one);
            let src = seq![b, q, t, d];
            meaning::lemma_place_5(one, s1);
            meaning::lemma_place_4(src, x.shape);
            assert((b * kv + q) * 1 + 0 == b * kv + q);
            assert(meaning::valid(src, x.shape));
            meaning::lemma_reshape(x, s1, one, src);
        }
    }
}

/// A tensor laid out by heads: channel `d` of head `h` is column `h*Dh + d`.
#[verifier::rlimit(40)]
proof fn lemma_heads(
    ops: Seq<OpV>,
    input: OperandV,
    p: GqaV,
    heads: i64,
    label: Seq<char>,
    m: Reading,
)
    requires
        meaning::holds(attention::heads_steps(ops, input, p, heads, label), m),
        is_sized(p),
        heads > 0,
        m.of(input).shape == seq![p.batch as int, p.seq as int, heads * p.head_dim],
    ensures
        meaning::holds(ops, m),
        ({
            let r = m.of(
                builder::last_operand(attention::heads_steps(ops, input, p, heads, label)),
            );
            &&& by_heads(r, p, heads as int, p.seq as int)
            &&& forall|b: int, h: int, s: int, d: int|
                0 <= b < p.batch && 0 <= h < heads && 0 <= s < p.seq && 0 <= d < p.head_dim
                    ==> #[trigger] r.at4(b, h, s, d) == m.of(input).at3(b, s, h * p.head_dim + d)
        }),
{
    let n = ops.len() as int;
    let x = m.of(input);
    let cut = m.of(OperandV { step: n, output: 0 });
    let r = m.of(OperandV { step: n + 1, output: 0 });
    let s4 = seq![p.batch as int, p.seq as int, heads as int, p.head_dim as int];
    assert(meaning::ints(seq![p.batch, p.seq, heads, p.head_dim]) =~= s4);
    let perm = meaning::naturals(seq![0u32, 2u32, 1u32, 3u32]);
    assert({
        &&& meaning::holds(ops, m)
        &&& cut == meaning::reshape(x, s4)
        &&& r == meaning::transpose(cut, perm)
    }) by {
        broadcast use meaning::lemma_holds_push;

    }
    lemma_swap_middle(cut, 0, 0, 0, 0);
    assert forall|b: int, h: int, s: int, d: int|
        0 <= b < p.batch && 0 <= h < heads && 0 <= s < p.seq && 0 <= d
            < p.head_dim implies #[trigger] r.at4(b, h, s, d) == x.at3(
        b,
        s,
        h * p.head_dim + d,
    ) by {
        lemma_swap_middle(cut, b, h, s, d);
        lemma_head_column(x, p, heads, b, s, h, d);
    }
}

/// A row cut into heads.
proof fn lemma_head_column(x: Tensor, p: GqaV, heads: i64, b: int, s: int, h: int, d: int)
    requires
        is_sized(p),
        heads > 0,
        x.shape == seq![p.batch as int, p.seq as int, heads * p.head_dim],
        0 <= b < p.batch,
        0 <= h < heads,
        0 <= s < p.seq,
        0 <= d < p.head_dim,
    ensures
        meaning::reshape(
            x,
            seq![p.batch as int, p.seq as int, heads as int, p.head_dim as int],
        ).at4(b, s, h, d) == x.at3(b, s, h * p.head_dim + d),
{
    let s4 = seq![p.batch as int, p.seq as int, heads as int, p.head_dim as int];
    let w = p.head_dim as int;
    let n = heads as int;
    let i = seq![b, s, h, d];
    let j = seq![b, s, h * w + d];
    meaning::lemma_place_4(i, s4);
    meaning::lemma_place_3(j, x.shape);
    let q = b * p.seq + s;
    assert((q * n + h) * w + d == q * (n * w) + (h * w + d)) by (nonlinear_arith);
    assert(0 <= h * w + d < n * w) by (nonlinear_arith)
        requires
            0 <= h < n,
            0 <= d < w,
    ;
    assert(meaning::valid(j, x.shape));
    meaning::lemma_reshape(x, s4, i, j);
}

// ---------------------------------------------------------------------------
// Attention
// ---------------------------------------------------------------------------

/// What queries are scaled by: the given number, or the reciprocal root of the
/// head size where none is given.
pub open spec fn scale(p: GqaV, m: Reading) -> real {
    if floats::is_zero(p.scale) {
        (m.functions.inverse_sqrt)(p.head_dim as int)
    } else {
        meaning::single(p.scale)
    }
}

/// The score of key position `t` for query position `s` of a head.
pub open spec fn score(
    q: Tensor,
    key: Tensor,
    p: GqaV,
    m: Reading,
    b: int,
    h: int,
    s: int,
    t: int,
) -> real {
    meaning::sum(
        p.head_dim as int,
        |d: int| q.at4(b, h, s, d) * scale(p, m) * key.at4(b, h, t, d),
    )
}

/// The exponential of a score where the key position is visible to the query
/// position: cached positions and new ones up to its own.
pub open spec fn visible(
    q: Tensor,
    key: Tensor,
    p: GqaV,
    m: Reading,
    b: int,
    h: int,
    s: int,
) -> spec_fn(int) -> real {
    |t: int|
        if t <= p.past_seq + s {
            (m.functions.exp)(score(q, key, p, m, b, h, s, t))
        } else {
            0real
        }
}

/// The values of a head, weighted by the shares of the visible positions.
pub open spec fn attended(
    q: Tensor,
    key: Tensor,
    value: Tensor,
    p: GqaV,
    m: Reading,
    b: int,
    h: int,
    s: int,
    d: int,
) -> real {
    let e = visible(q, key, p, m, b, h, s);
    let all = meaning::sum(p.past_seq + p.seq, e);
    meaning::sum(p.past_seq + p.seq, |t: int| e(t) / all * value.at4(b, h, t, d))
}

/// Scores are of ordinary size, and the exponential vanishes on numbers that
/// are not.
pub open spec fn is_tame(q: Tensor, key: Tensor, p: GqaV, m: Reading) -> bool {
    &&& forall|b: int, h: int, s: int, t: int|
        0 <= b < p.batch && 0 <= h < p.num_heads && 0 <= s < p.seq && 0 <= t < p.past_seq + p.seq
            ==> -routing::ordinary(p.dtype) < #[trigger] score(q, key, p, m, b, h, s, t)
            < routing::ordinary(p.dtype)
    &&& forall|y: real|
        y <= -routing::ordinary(p.dtype) ==> #[trigger] (m.functions.exp)(y) == 0real
}

/// What hides a position outweighs any score of ordinary size.
proof fn lemma_masked(dtype: DataType)
    ensures
        meaning::single(attention::masked_value(dtype)) <= -2real * routing::ordinary(dtype),
        meaning::single(0) == 0real,
{
    routing::lemma_big(dtype);
    assert(meaning::scaled(0, -149) == 0real) by {
        meaning::lemma_scaled_down(0, 149, 0);
    }
    if dtype == DataType::Float16 {
        assert(0x476a_6000int / 0x80_0000 == 142 && 0xc76a_6000int / 0x80_0000 == 142 + 256);
        assert(0x476a_6000int % 0x80_0000 == 0xc76a_6000int % 0x80_0000);
    } else {
        assert(0x7f61_b1e6int / 0x80_0000 == 254 && 0xff61_b1e6int / 0x80_0000 == 254 + 256);
        assert(0x7f61_b1e6int % 0x80_0000 == 0xff61_b1e6int % 0x80_0000);
    }
}

/// The scores with the mask added, of one head and query position.
proof fn lemma_masked_scores(
    q: Tensor,
    key: Tensor,
    c: Tensor,
    mask: Tensor,
    p: GqaV,
    m: Reading,
    b: int,
    h: int,
    s: int,
    t: int,
)
    requires
        is_sized(p),
        by_heads(q, p, p.num_heads as int, p.seq as int),
        by_heads(key, p, p.num_heads as int, p.total_seq as int),
        c.shape == seq![1int],
        c.at1(0) == scale(p, m),
        mask.shape == seq![p.seq as int, p.total_seq as int],
        0 <= b < p.batch,
        0 <= h < p.num_heads,
        0 <= s < p.seq,
        0 <= t < p.total_seq,
    ensures
        ({
            let qs = meaning::elementwise(BinaryOp::Mul, q, c);
            let kt = meaning::transpose(key, meaning::naturals(seq![0u32, 1u32, 3u32, 2u32]));
            let scores = meaning::matmul(qs, kt);
            let r = meaning::elementwise(BinaryOp::Add, scores, mask);
            &&& r.shape == seq![
                p.batch as int,
                p.num_heads as int,
                p.seq as int,
                p.total_seq as int,
            ]
            &&& r.at4(b, h, s, t) == score(q, key, p, m, b, h, s, t) + mask.at2(s, t)
        }),
{
    let width = p.head_dim as int;
    let qs = meaning::elementwise(BinaryOp::Mul, q, c);
    let kt = meaning::transpose(key, meaning::naturals(seq![0u32, 1u32, 3u32, 2u32]));
    let scores = meaning::matmul(qs, kt);
    let r = meaning::elementwise(BinaryOp::Add, scores, mask);
    let full = seq![p.batch as int, p.num_heads as int, p.seq as int, p.total_seq as int];
    assert(meaning::joint_shape(q.shape, c.shape) =~= q.shape);
    lemma_swap_last(key, 0, 0, 0, 0);
    lemma_matmul_4(qs, kt, b, h, s, t);
    assert(scores.shape =~= full);
    assert(meaning::joint_shape(full, mask.shape) =~= full);
    let f = |d: int| qs.at4(b, h, s, d) * kt.at4(b, h, d, t);
    let g = |d: int| q.at4(b, h, s, d) * scale(p, m) * key.at4(b, h, t, d);
    assert forall|d: int| 0 <= d < width implies #[trigger] f(d) == g(d) by {
        let i = seq![b, h, s, d];
        assert(meaning::valid(i, q.shape));
        meaning::lemma_aligned(i, q.shape);
        assert(meaning::aligned(i, seq![1int]) =~= seq![0int]);
        lemma_swap_last(key, b, h, d, t);
    }
    meaning::lemma_sum_same(width, f, g);
    let at = seq![b, h, s, t];
    assert(meaning::valid(at, full));
    meaning::lemma_aligned(at, full);
    assert(meaning::aligned(at, mask.shape) =~= seq![s, t]);
}

/// One head's row of weighted values.
proof fn lemma_weighted(
    masked: Tensor,
    q: Tensor,
    key: Tensor,
    value: Tensor,
    p: GqaV,
    m: Reading,
    b: int,
    h: int,
    s: int,
    d: int,
)
    requires
        is_sized(p),
        is_tame(q, key, p, m),
        by_heads(value, p, p.num_heads as int, p.total_seq as int),
        masked.shape == seq![
            p.batch as int,
            p.num_heads as int,
            p.seq as int,
            p.total_seq as int,
        ],
        0 <= b < p.batch,
        0 <= h < p.num_heads,
        0 <= s < p.seq,
        0 <= d < p.head_dim,
        forall|t: int|
            0 <= t < p.total_seq ==> #[trigger] masked.at4(b, h, s, t) == score(
                q,
                key,
                p,
                m,
                b,
                h,
                s,
                t,
            ) + if t <= p.past_seq + s {
                0real
            } else {
                meaning::single(attention::masked_value(p.dtype))
            },
    ensures
        ({
            let r = meaning::matmul(meaning::softmax(masked, 3, m.functions.exp), value);
            &&& r.shape == seq![
                p.batch as int,
                p.num_heads as int,
                p.seq as int,
                p.head_dim as int,
            ]
            &&& r.at4(b, h, s, d) == attended(q, key, value, p, m, b, h, s, d)
        }),
{
    let exp = m.functions.exp;
    let total = p.total_seq as int;
    let probs = meaning::softmax(masked, 3, exp);
    lemma_matmul_4(probs, value, b, h, s, d);
    lemma_masked(p.dtype);
    let e = visible(q, key, p, m, b, h, s);
    let y = |t: int| exp(masked.at4(b, h, s, t));
    assert forall|t: int| 0 <= t < total implies #[trigger] y(t) == e(t) by {
        let x = score(q, key, p, m, b, h, s, t);
        assert(-routing::ordinary(p.dtype) < x < routing::ordinary(p.dtype));
        assert(masked.at4(b, h, s, t) == x + if t <= p.past_seq + s {
            0real
        } else {
            meaning::single(attention::masked_value(p.dtype))
        });
    }
    meaning::lemma_sum_same(total, y, e);
    let all = meaning::sum(total, e);
    let f = |t: int| probs.at4(b, h, s, t) * value.at4(b, h, t, d);
    let g = |t: int| e(t) / all * value.at4(b, h, t, d);
    assert forall|t: int| 0 <= t < total implies #[trigger] f(t) == g(t) by {
        let i = seq![b, h, s, t];
        let z = |u: int| exp((masked.at)(i.update(3, u)));
        assert forall|u: int| 0 <= u < total implies #[trigger] z(u) == y(u) by {
            assert(i.update(3, u) =~= seq![b, h, s, u]);
        }
        meaning::lemma_sum_same(total, z, y);
        assert(y(t) == e(t));
    }
    meaning::lemma_sum_same(total, f, g);
}

/// What attention leaves: for every batch, position, head and channel, the
/// values weighted by the shares of the positions visible to the query.
#[verifier::rlimit(40)]
proof fn lemma_attention(
    ops: Seq<OpV>,
    q: OperandV,
    key: OperandV,
    value: OperandV,
    p: GqaV,
    label: Seq<char>,
    m: Reading,
)
    requires
        meaning::holds(attention::attention_steps(ops, q, key, value, p, label), m),
        is_sized(p),
        p.total_seq <= u32::MAX,
        by_heads(m.of(q), p, p.num_heads as int, p.seq as int),
        by_heads(m.of(key), p, p.num_heads as int, p.total_seq as int),
        by_heads(m.of(value), p, p.num_heads as int, p.total_seq as int),
        is_tame(m.of(q), m.of(key), p, m),
    ensures
        meaning::holds(ops, m),
        ({
            let r = m.of(
                builder::last_operand(
                    attention::attention_steps(ops, q, key, value, p, label),
                ),
            );
            &&& r.shape == seq![p.batch as int, p.seq as int, p.num_heads * p.head_dim]
            &&& forall|b: int, s: int, h: int, d: int|
                0 <= b < p.batch && 0 <= s < p.seq && 0 <= h < p.num_heads && 0 <= d < p.head_dim
                    ==> r.at3(b, s, h * p.head_dim + d) == #[trigger] attended(
                    m.of(q),
                    m.of(key),
                    m.of(value),
                    p,
                    m,
                    b,
                    h,
                    s,
                    d,
                )
        }),
{
    let n = ops.len() as int;
    let c = m.of(OperandV { step: n + 1, output: 0 });
    let qs = m.of(OperandV { step: n + 2, output: 0 });
    let kt = m.of(OperandV { step: n + 3, output: 0 });
    let scores = m.of(OperandV { step: n + 4, output: 0 });
    let mask = m.of(OperandV { step: n + 6, output: 0 });
    let masked = m.of(OperandV { step: n + 7, output: 0 });
    let probs = m.of(OperandV { step: n + 8, output: 0 });
    let context = m.of(OperandV { step: n + 9, output: 0 });
    let flipped = m.of(OperandV { step: n + 10, output: 0 });
    let r = m.of(OperandV { step: n + 11, output: 0 });
    let cells = attention::causal_mask(
        p.dtype,
        p.seq as int,
        p.past_seq as int,
        p.total_seq as int,
    );
    let kind = ops::float_type(p.dtype);
    let inv = m.functions.inverse_sqrt;
    let width = p.head_dim as int;
    let heads = p.num_heads as int;
    let out = seq![p.batch as int, p.seq as int, heads * width];
    assert(meaning::ints(seq![p.batch, p.seq, (p.num_heads * p.head_dim) as i64]) =~= out) by {
        assert(0 <= p.num_heads * p.head_dim) by (nonlinear_arith)
            requires
                p.num_heads > 0,
                p.head_dim > 0,
        ;
    }
    assert({
        &&& meaning::holds(ops, m)
        &&& c == meaning::constant(
            kind,
            meaning::naturals(seq![1u32]),
            attention::scale_data(p),
            inv,
        )
        &&& qs == meaning::elementwise(BinaryOp::Mul, m.of(q), c)
        &&& kt == meaning::transpose(
            m.of(key),
            meaning::naturals(seq![0u32, 1u32, 3u32, 2u32]),
        )
        &&& scores == meaning::matmul(qs, kt)
        &&& mask == meaning::constant(
            kind,
            meaning::naturals(seq![p.seq as u32, p.total_seq as u32]),
            ConstDataV::Floats(cells),
            inv,
        )
        &&& masked == meaning::elementwise(BinaryOp::Add, scores, mask)
        &&& probs == meaning::softmax(masked, 3, m.functions.exp)
        &&& context == meaning::matmul(probs, m.of(value))
        &&& flipped == meaning::transpose(
            context,
            meaning::naturals(seq![0u32, 2u32, 1u32, 3u32]),
        )
        &&& r == meaning::reshape(flipped, out)
    }) by {
        broadcast use meaning::lemma_holds_push;

    }
    let s2 = seq![p.seq as int, p.total_seq as int];
    assert(meaning::naturals(seq![p.seq as u32, p.total_seq as u32]) =~= s2);
    assert(meaning::naturals(seq![1u32]) =~= seq![1int]);
    meaning::lemma_place_1(seq![0int], seq![1int]);
    assert(c.at1(0) == scale(p, m));
    lemma_masked(p.dtype);
    assert forall|b: int, s: int, h: int, d: int|
        0 <= b < p.batch && 0 <= s < p.seq && 0 <= h < p.num_heads && 0 <= d
            < p.head_dim implies r.at3(b, s, h * p.head_dim + d) == #[trigger] attended(
        m.of(q),
        m.of(key),
        m.of(value),
        p,
        m,
        b,
        h,
        s,
        d,
    ) by {
        lemma_masked_scores(m.of(q), m.of(key), c, mask, p, m, b, h, s, 0);
        assert forall|t: int| 0 <= t < p.total_seq implies #[trigger] masked.at4(b, h, s, t)
            == score(m.of(q), m.of(key), p, m, b, h, s, t) + if t <= p.past_seq + s {
            0real
        } else {
            meaning::single(attention::masked_value(p.dtype))
        } by {
            lemma_masked_scores(m.of(q), m.of(key), c, mask, p, m, b, h, s, t);
            meaning::lemma_place_2(seq![s, t], s2);
            attention::law_causal_mask(
                p.dtype,
                p.seq as int,
                p.past_seq as int,
                p.total_seq as int,
                s,
                t,
            );
            assert(mask.at2(s, t) == meaning::number(cells[s * p.total_seq + t]));
        }
        lemma_weighted(masked, m.of(q), m.of(key), m.of(value), p, m, b, h, s, d);
        lemma_swap_middle(context, b, s, h, d);
        let i = seq![b, s, h * width + d];
        let j = seq![b, s, h, d];
        meaning::lemma_place_3(i, out);
        meaning::lemma_place_4(j, flipped.shape);
        let z = b * p.seq + s;
        assert((z * heads + h) * width + d == z * (heads * width) + (h * width + d))
            by (nonlinear_arith);
        assert(meaning::valid(j, flipped.shape));
        meaning::lemma_reshape(flipped, out, i, j);
    }
}

// ---------------------------------------------------------------------------
// Nodes
// ---------------------------------------------------------------------------

/// Where the queries, keys and values of a packed input begin, in heads.
pub open spec fn first_head(p: GqaV, kind: int) -> int {
    if kind == 0 {
        0
    } else if kind == 1 {
        p.num_heads as int
    } else {
        p.num_heads + p.kv_num_heads
    }
}

/// Channel `d` of head `h` of the queries (kind 0), keys (1) or values (2) of a
/// node: inputs of their own, or queries, keys and values side by side in one.
pub open spec fn channel(
    node: NodeV,
    p: GqaV,
    m: Reading,
    kind: int,
    b: int,
    s: int,
    h: int,
    d: int,
) -> real {
    if p.packed {
        m.name(node.input[0]).at3(b, s, (first_head(p, kind) + h) * p.head_dim + d)
    } else {
        m.name(node.input[kind]).at3(b, s, h * p.head_dim + d)
    }
}

/// A channel of the queries or keys, rotated where the node asks for it by the
/// rows of the caches for its position.
pub open spec fn turned(
    node: NodeV,
    p: GqaV,
    ctx: ContextV,
    m: Reading,
    kind: int,
    b: int,
    s: int,
    h: int,
    d: int,
) -> real {
    match p.rotary {
        None => channel(node, p, m, kind, b, s, h, d),
        Some((cos, sin)) => rotation::rotated(
            |c: int| channel(node, p, m, kind, b, s, h, c),
            |j: int| m.name(cos).at2(p.past_seq + s, j),
            |j: int| m.name(sin).at2(p.past_seq + s, j),
            ctx.shape(cos)->0[1] as int,
            p.interleaved,
            d,
        ),
    }
}

/// The queries of a node by heads.
pub open spec fn queries(node: NodeV, p: GqaV, ctx: ContextV, m: Reading) -> Tensor {
    Tensor {
        dtype: p.dtype,
        shape: seq![p.batch as int, p.num_heads as int, p.seq as int, p.head_dim as int],
        at: |i: Seq<int>| turned(node, p, ctx, m, 0, i[0], i[2], i[1], i[3]),
    }
}

/// The cached keys with the new ones behind them.
pub open spec fn present_keys(node: NodeV, p: GqaV, ctx: ContextV, m: Reading) -> Tensor {
    Tensor {
        dtype: p.dtype,
        shape: seq![p.batch as int, p.kv_num_heads as int, p.total_seq as int, p.head_dim as int],
        at: |i: Seq<int>|
            if i[2] < p.past_seq {
                m.name(node.input[3]).at4(i[0], i[1], i[2], i[3])
            } else {
                turned(node, p, ctx, m, 1, i[0], i[2] - p.past_seq, i[1], i[3])
            },
    }
}

/// The cached values with the new ones behind them.
pub open spec fn present_values(node: NodeV, p: GqaV, m: Reading) -> Tensor {
    Tensor {
        dtype: p.dtype,
        shape: seq![p.batch as int, p.kv_num_heads as int, p.total_seq as int, p.head_dim as int],
        at: |i: Seq<int>|
            if i[2] < p.past_seq {
                m.name(node.input[4]).at4(i[0], i[1], i[2], i[3])
            } else {
                channel(node, p, m, 2, i[0], i[2] - p.past_seq, i[1], i[3])
            },
    }
}

/// Keys or values as each query head sees them: heads share those of their
/// group.
pub open spec fn for_heads(x: Tensor, p: GqaV) -> Tensor {
    Tensor {
        dtype: x.dtype,
        shape: seq![p.batch as int, p.num_heads as int, p.total_seq as int, p.head_dim as int],
        at: |i: Seq<int>|
            x.at4(i[0], i[1] / (p.num_heads as int / p.kv_num_heads as int), i[2], i[3]),
    }
}

/// Two tensors have the same elements.
pub open spec fn same_elements(x: Tensor, y: Tensor) -> bool {
    &&& x.shape == y.shape
    &&& forall|a: int, b: int, c: int, d: int|
        meaning::valid(seq![a, b, c, d], x.shape) ==> #[trigger] x.at4(a, b, c, d) == y.at4(
            a,
            b,
            c,
            d,
        )
}

/// The inputs of a node have the shapes that it says.
pub open spec fn inputs_fit(node: NodeV, p: GqaV, m: Reading) -> bool {
    let b = p.batch as int;
    let s = p.seq as int;
    let kv = p.kv_num_heads * p.head_dim;
    let cache = seq![b, p.kv_num_heads as int, p.past_seq as int, p.head_dim as int];
    &&& node.input.len() >= 5
    &&& m.name(node.input[3]).shape == cache
    &&& m.name(node.input[4]).shape == cache
    &&& if p.packed {
        m.name(node.input[0]).shape == seq![b, s, (p.num_heads + 2 * p.kv_num_heads) * p.head_dim]
    } else {
        &&& m.name(node.input[0]).shape == seq![b, s, p.num_heads * p.head_dim]
        &&& m.name(node.input[1]).shape == seq![b, s, kv]
        &&& m.name(node.input[2]).shape == seq![b, s, kv]
    }
}

/// Sizes can be held in 32 bits.
pub open spec fn is_small(p: GqaV) -> bool {
    &&& p.total_seq <= u32::MAX
    &&& (p.num_heads + 2 * p.kv_num_heads) * p.head_dim <= u32::MAX
}

proof fn lemma_score_same(
    q: Tensor,
    q2: Tensor,
    key: Tensor,
    key2: Tensor,
    p: GqaV,
    m: Reading,
    b: int,
    h: int,
    s: int,
    t: int,
)
    requires
        is_sized(p),
        by_heads(q, p, p.num_heads as int, p.seq as int),
        by_heads(key, p, p.num_heads as int, p.total_seq as int),
        same_elements(q, q2),
        same_elements(key, key2),
        0 <= b < p.batch,
        0 <= h < p.num_heads,
        0 <= s < p.seq,
        0 <= t < p.total_seq,
    ensures
        score(q, key, p, m, b, h, s, t) == score(q2, key2, p, m, b, h, s, t),
{
    let f = |d: int| q.at4(b, h, s, d) * scale(p, m) * key.at4(b, h, t, d);
    let g = |d: int| q2.at4(b, h, s, d) * scale(p, m) * key2.at4(b, h, t, d);
    assert forall|d: int| 0 <= d < p.head_dim implies #[trigger] f(d) == g(d) by {
        assert(meaning::valid(seq![b, h, s, d], q.shape));
        assert(meaning::valid(seq![b, h, t, d], key.shape));
        assert(q.at4(b, h, s, d) == q2.at4(b, h, s, d));
        assert(key.at4(b, h, t, d) == key2.at4(b, h, t, d));
    }
    meaning::lemma_sum_same(p.head_dim as int, f, g);
}

proof fn lemma_attended_same(
    q: Tensor,
    q2: Tensor,
    key: Tensor,
    key2: Tensor,
    value: Tensor,
    value2: Tensor,
    p: GqaV,
    m: Reading,
    b: int,
    h: int,
    s: int,
    d: int,
)
    requires
        is_sized(p),
        by_heads(q, p, p.num_heads as int, p.seq as int),
        by_heads(key, p, p.num_heads as int, p.total_seq as int),
        by_heads(value, p, p.num_heads as int, p.total_seq as int),
        same_elements(q, q2),
        same_elements(key, key2),
        same_elements(value, value2),
        0 <= b < p.batch,
        0 <= h < p.num_heads,
        0 <= s < p.seq,
        0 <= d < p.head_dim,
    ensures
        attended(q, key, value, p, m, b, h, s, d) == attended(q2, key2, value2, p, m, b, h, s, d),
{
    let n = p.past_seq + p.seq;
    let e = visible(q, key, p, m, b, h, s);
    let e2 = visible(q2, key2, p, m, b, h, s);
    assert forall|t: int| 0 <= t < n implies #[trigger] e(t) == e2(t) by {
        lemma_score_same(q, q2, key, key2, p, m, b, h, s, t);
    }
    meaning::lemma_sum_same(n, e, e2);
    let all = meaning::sum(n, e);
    let f = |t: int| e(t) / all * value.at4(b, h, t, d);
    let g = |t: int| e2(t) / all * value2.at4(b, h, t, d);
    assert forall|t: int| 0 <= t < n implies #[trigger] f(t) == g(t) by {
        assert(meaning::valid(seq![b, h, t, d], value.shape));
        assert(value.at4(b, h, t, d) == value2.at4(b, h, t, d));
        assert(e(t) == e2(t));
    }
    meaning::lemma_sum_same(n, f, g);
}

/// The operands that a node starts from.
#[verifier::rlimit(40)]
proof fn lemma_sources(ops: Seq<OpV>, node: NodeV, p: GqaV, label: Seq<char>, m: Reading)
    requires
        meaning::holds(attention::sources(ops, node, p, label).ops, m),
        is_sized(p),
        is_small(p),
        inputs_fit(node, p, m),
    ensures
        ({
            let src = attention::sources(ops, node, p, label);
            let b = p.batch as int;
            let s = p.seq as int;
            &&& m.of(src.past_key) == m.name(node.input[3])
            &&& m.of(src.past_value) == m.name(node.input[4])
            &&& m.of(src.q).shape == seq![b, s, p.num_heads * p.head_dim]
            &&& m.of(src.k).shape == seq![b, s, p.kv_num_heads * p.head_dim]
            &&& m.of(src.v).shape == seq![b, s, p.kv_num_heads * p.head_dim]
            &&& forall|b: int, s: int, h: int, d: int|
                m.of(src.q).at3(b, s, h * p.head_dim + d) == #[trigger] channel(
                    node,
                    p,
                    m,
                    0,
                    b,
                    s,
                    h,
                    d,
                )
            &&& forall|b: int, s: int, h: int, d: int|
                m.of(src.k).at3(b, s, h * p.head_dim + d) == #[trigger] channel(
                    node,
                    p,
                    m,
                    1,
                    b,
                    s,
                    h,
                    d,
                )
            &&& forall|b: int, s: int, h: int, d: int|
                m.of(src.v).at3(b, s, h * p.head_dim + d) == #[trigger] channel(
                    node,
                    p,
                    m,
                    2,
                    b,
                    s,
                    h,
                    d,
                )
        }),
{
    let src = attention::sources(ops, node, p, label);
    let n = ops.len() as int;
    if p.packed {
        let x = m.name(node.input[0]);
        let w = p.head_dim as int;
        let wide = p.num_heads * p.head_dim;
        let narrow = p.kv_num_heads * p.head_dim;
        let cuts = seq![wide as u32, narrow as u32, narrow as u32];
        let lens = meaning::naturals(cuts);
        assert(0 <= wide && 0 <= narrow && wide + 2 * narrow == (p.num_heads + 2 * p.kv_num_heads)
            * p.head_dim) by (nonlinear_arith)
            requires
                wide == p.num_heads * p.head_dim,
                narrow == p.kv_num_heads * p.head_dim,
                p.num_heads > 0,
                p.kv_num_heads > 0,
                p.head_dim > 0,
        ;
        assert({
            &&& m.of(src.past_key) == m.name(node.input[3])
            &&& m.of(src.past_value) == m.name(node.input[4])
            &&& meaning::agrees(
                OpV::Split {
                    input: OperandV { step: n, output: 0 },
                    sizes: cuts,
                    axis: 2,
                    label: label + "_qkv_split"@,
                },
                n + 1,
                m,
            )
            &&& m.of(OperandV { step: n, output: 0 }) == x
        }) by {
            broadcast use meaning::lemma_holds_push;

        }
        assert(src.q == OperandV { step: n + 1, output: 0 });
        assert(src.k == OperandV { step: n + 1, output: 1 });
        assert(src.v == OperandV { step: n + 1, output: 2 });
        assert(m.of(src.q) == meaning::split(x, lens, 2, 0));
        assert(m.of(src.k) == meaning::split(x, lens, 2, 1));
        assert(m.of(src.v) == meaning::split(x, lens, 2, 2));
        reveal_with_fuel(meaning::offset, 3);
        assert(meaning::offset(lens, 0) == 0 && meaning::offset(lens, 1) == wide
            && meaning::offset(lens, 2) == wide + narrow);
        assert(m.of(src.q).shape =~= seq![p.batch as int, p.seq as int, wide]);
        assert(m.of(src.k).shape =~= seq![p.batch as int, p.seq as int, narrow]);
        assert(m.of(src.v).shape =~= seq![p.batch as int, p.seq as int, narrow]);
        assert forall|b: int, s: int, h: int, d: int|
            m.of(src.q).at3(b, s, h * p.head_dim + d) == #[trigger] channel(
            node,
            p,
            m,
            0,
            b,
            s,
            h,
            d,
        ) by {
            lemma_cut(x, lens, 0, b, s, h * w + d);
            assert((0 + h) * w + d == h * w + d);
        }
        assert forall|b: int, s: int, h: int, d: int|
            m.of(src.k).at3(b, s, h * p.head_dim + d) == #[trigger] channel(
            node,
            p,
            m,
            1,
            b,
            s,
            h,
            d,
        ) by {
            lemma_cut(x, lens, 1, b, s, h * w + d);
            assert((p.num_heads + h) * w + d == h * w + d + wide) by (nonlinear_arith)
                requires
                    wide == p.num_heads * w,
            ;
        }
        assert forall|b: int, s: int, h: int, d: int|
            m.of(src.v).at3(b, s, h * p.head_dim + d) == #[trigger] channel(
            node,
            p,
            m,
            2,
            b,
            s,
            h,
            d,
        ) by {
            lemma_cut(x, lens, 2, b, s, h * w + d);
            assert((p.num_heads + p.kv_num_heads + h) * w + d == h * w + d + (wide + narrow))
                by (nonlinear_arith)
                requires
                    wide == p.num_heads * w,
                    narrow == p.kv_num_heads * w,
            ;
        }
    } else {
        broadcast use meaning::lemma_holds_push;

        assert(m.of(src.q) == m.name(node.input[0]));
        assert(m.of(src.k) == m.name(node.input[1]));
        assert(m.of(src.v) == m.name(node.input[2]));
    }
}

/// A column of a part.
proof fn lemma_cut(x: Tensor, lens: Seq<int>, k: int, b: int, s: int, c: int)
    ensures
        meaning::split(x, lens, 2, k).at3(b, s, c) == x.at3(b, s, c + meaning::offset(lens, k)),
{
    let i = seq![b, s, c];
    assert(i.update(2, c + meaning::offset(lens, k)) =~= seq![
        b,
        s,
        c + meaning::offset(lens, k),
    ]);
}

/// One of q and k, rotated and laid out by heads.
proof fn lemma_rotated_side(
    ops: Seq<OpV>,
    input: OperandV,
    cos: OperandV,
    sin: OperandV,
    cache: Seq<i64>,
    p: GqaV,
    heads: i64,
    label: Seq<char>,
    m: Reading,
    f: spec_fn(int, int, int, int) -> real,
)
    requires
        attention::rotated_side(ops, input, cos, sin, cache, p, heads, label).result is Ok,
        meaning::holds(
            attention::rotated_side(ops, input, cos, sin, cache, p, heads, label).ops,
            m,
        ),
        is_sized(p),
        p.past_seq <= u32::MAX,
        p.head_dim <= u32::MAX,
        heads > 0,
        cache.len() == 2 ==> cache[1] > 0,
        m.of(input).shape == seq![p.batch as int, p.seq as int, heads * p.head_dim],
        forall|b: int, s: int, h: int, d: int|
            m.of(input).at3(b, s, h * p.head_dim + d) == #[trigger] f(b, s, h, d),
    ensures
        meaning::holds(ops, m),
        ({
            let r = m.of(
                attention::rotated_side(
                    ops,
                    input,
                    cos,
                    sin,
                    cache,
                    p,
                    heads,
                    label,
                ).result->Ok_0,
            );
            &&& by_heads(r, p, heads as int, p.seq as int)
            &&& forall|b: int, h: int, s: int, d: int|
                0 <= b < p.batch && 0 <= h < heads && 0 <= s < p.seq && 0 <= d < p.head_dim
                    ==> #[trigger] r.at4(b, h, s, d) == rotation::rotated(
                    |c: int| f(b, s, h, c),
                    |j: int| m.of(cos).at2(p.past_seq + s, j),
                    |j: int| m.of(sin).at2(p.past_seq + s, j),
                    cache[1] as int,
                    p.interleaved,
                    d,
                )
        }),
{
    let x = m.of(input);
    let s4 = seq![p.batch as int, p.seq as int, heads as int, p.head_dim as int];
    assert(meaning::ints(seq![p.batch, p.seq, heads, p.head_dim]) =~= s4);
    let cut = OpV::Reshape {
        input,
        shape: seq![p.batch, p.seq, heads, p.head_dim],
        label: label + "_split"@,
    };
    let o1 = ops.push(cut);
    let half = cache[1];
    let done = attention::rotary_steps(
        o1,
        builder::last_operand(o1),
        cos,
        sin,
        p,
        heads,
        half,
        label + "_rotary"@,
    );
    let flip = OpV::Transpose {
        input: builder::last_operand(done),
        permutation: seq![0, 2, 1, 3],
        label: label + "_bhsd"@,
    };
    let side = attention::rotated_side(ops, input, cos, sin, cache, p, heads, label);
    assert(side.ops == done.push(flip));
    meaning::lemma_holds_push(done, flip, m);
    lemma_rotary_front(
        o1,
        builder::last_operand(o1),
        cos,
        sin,
        p,
        heads,
        half,
        label + "_rotary"@,
        m,
    );
    meaning::lemma_holds_push(ops, cut, m);
    let y = m.of(builder::last_operand(o1));
    assert(y == meaning::reshape(x, s4));
    rotation::law_heads_are_rotated(
        o1,
        builder::last_operand(o1),
        cos,
        sin,
        p,
        heads,
        half,
        label + "_rotary"@,
        m,
    );
    let z = m.of(builder::last_operand(done));
    let r = m.of(builder::last_operand(side.ops));
    assert(r == meaning::transpose(z, meaning::naturals(seq![0u32, 2u32, 1u32, 3u32])));
    lemma_swap_middle(z, 0, 0, 0, 0);
    assert forall|b: int, h: int, s: int, d: int|
        0 <= b < p.batch && 0 <= h < heads && 0 <= s < p.seq && 0 <= d
            < p.head_dim implies #[trigger] r.at4(b, h, s, d) == rotation::rotated(
        |c: int| f(b, s, h, c),
        |j: int| m.of(cos).at2(p.past_seq + s, j),
        |j: int| m.of(sin).at2(p.past_seq + s, j),
        half as int,
        p.interleaved,
        d,
    ) by {
        lemma_swap_middle(z, b, h, s, d);
        assert(meaning::valid(seq![b, s, h, d], s4));
        let u = |c: int| y.at4(b, s, h, c);
        let v = |c: int| f(b, s, h, c);
        assert forall|c: int| 0 <= c < p.head_dim implies #[trigger] u(c) == v(c) by {
            lemma_head_column(x, p, heads, b, s, h, c);
            assert(x.at3(b, s, h * p.head_dim + c) == f(b, s, h, c));
        }
        lemma_rotated_same(
            u,
            v,
            |j: int| m.of(cos).at2(p.past_seq + s, j),
            |j: int| m.of(sin).at2(p.past_seq + s, j),
            half as int,
            p.interleaved,
            d,
            p.head_dim as int,
        );
    }
}

proof fn lemma_rotated_same(
    x: spec_fn(int) -> real,
    y: spec_fn(int) -> real,
    cos: spec_fn(int) -> real,
    sin: spec_fn(int) -> real,
    half: int,
    interleaved: bool,
    d: int,
    width: int,
)
    requires
        0 <= d < width,
        0 < 2 * half <= width,
        forall|c: int| 0 <= c < width ==> #[trigger] x(c) == y(c),
    ensures
        rotation::rotated(x, cos, sin, half, interleaved, d) == rotation::rotated(
            y,
            cos,
            sin,
            half,
            interleaved,
            d,
        ),
{
    assert(x(d) == y(d));
    if d < 2 * half {
        if interleaved {
            if d % 2 == 0 {
                assert(x(d + 1) == y(d + 1));
            } else {
                assert(x(d - 1) == y(d - 1));
            }
        } else if d < half {
            assert(x(d + half) == y(d + half));
        } else {
            assert(x(d - half) == y(d - half));
        }
    }
}

#[verifier::rlimit(40)]
proof fn lemma_rotary_front(
    ops: Seq<OpV>,
    x: OperandV,
    cos: OperandV,
    sin: OperandV,
    p: GqaV,
    heads: i64,
    half: i64,
    label: Seq<char>,
    m: Reading,
)
    requires
        meaning::holds(attention::rotary_steps(ops, x, cos, sin, p, heads, half, label), m),
    ensures
        meaning::holds(ops, m),
{
    broadcast use meaning::lemma_holds_push;

}

/// The queries and new keys of a node, by heads.
proof fn lemma_query_and_key(
    ops: Seq<OpV>,
    q: OperandV,
    k: OperandV,
    node: NodeV,
    p: GqaV,
    ctx: ContextV,
    label: Seq<char>,
    m: Reading,
)
    requires
        attention::query_and_key(ops, q, k, p, ctx, label).result is Ok,
        meaning::holds(attention::query_and_key(ops, q, k, p, ctx, label).ops, m),
        is_sized(p),
        is_small(p),
        p.head_dim <= u32::MAX,
        p.rotary matches Some(c) ==> ctx.shape(c.0) is Some && (ctx.shape(c.0)->0.len() == 2
            ==> ctx.shape(c.0)->0[1] > 0),
        m.of(q).shape == seq![p.batch as int, p.seq as int, p.num_heads * p.head_dim],
        m.of(k).shape == seq![p.batch as int, p.seq as int, p.kv_num_heads * p.head_dim],
        forall|b: int, s: int, h: int, d: int|
            m.of(q).at3(b, s, h * p.head_dim + d) == #[trigger] channel(
                node,
                p,
                m,
                0,
                b,
                s,
                h,
                d,
            ),
        forall|b: int, s: int, h: int, d: int|
            m.of(k).at3(b, s, h * p.head_dim + d) == #[trigger] channel(
                node,
                p,
                m,
                1,
                b,
                s,
                h,
                d,
            ),
    ensures
        meaning::holds(ops, m),
        ({
            let r = attention::query_and_key(ops, q, k, p, ctx, label).result->Ok_0;
            &&& by_heads(m.of(r.0), p, p.num_heads as int, p.seq as int)
            &&& by_heads(m.of(r.1), p, p.kv_num_heads as int, p.seq as int)
            &&& forall|b: int, h: int, s: int, d: int|
                0 <= b < p.batch && 0 <= h < p.num_heads && 0 <= s < p.seq && 0 <= d < p.head_dim
                    ==> #[trigger] m.of(r.0).at4(b, h, s, d) == turned(
                    node,
                    p,
                    ctx,
                    m,
                    0,
                    b,
                    s,
                    h,
                    d,
                )
            &&& forall|b: int, h: int, s: int, d: int|
                0 <= b < p.batch && 0 <= h < p.kv_num_heads && 0 <= s < p.seq && 0 <= d
                    < p.head_dim ==> #[trigger] m.of(r.1).at4(b, h, s, d) == turned(
                    node,
                    p,
                    ctx,
                    m,
                    1,
                    b,
                    s,
                    h,
                    d,
                )
        }),
{
    let r = attention::query_and_key(ops, q, k, p, ctx, label).result->Ok_0;
    match p.rotary {
        None => {
            let o1 = attention::heads_steps(ops, q, p, p.num_heads, label + "_q"@);
            lemma_heads(o1, k, p, p.kv_num_heads, label + "_k"@, m);
            lemma_heads(ops, q, p, p.num_heads, label + "_q"@, m);
            assert forall|b: int, h: int, s: int, d: int|
                0 <= b < p.batch && 0 <= h < p.num_heads && 0 <= s < p.seq && 0 <= d
                    < p.head_dim implies #[trigger] m.of(r.0).at4(b, h, s, d) == turned(
                node,
                p,
                ctx,
                m,
                0,
                b,
                s,
                h,
                d,
            ) by {
                assert(m.of(q).at3(b, s, h * p.head_dim + d) == channel(
                    node,
                    p,
                    m,
                    0,
                    b,
                    s,
                    h,
                    d,
                ));
            }
            assert forall|b: int, h: int, s: int, d: int|
                0 <= b < p.batch && 0 <= h < p.kv_num_heads && 0 <= s < p.seq && 0 <= d
                    < p.head_dim implies #[trigger] m.of(r.1).at4(b, h, s, d) == turned(
                node,
                p,
                ctx,
                m,
                1,
                b,
                s,
                h,
                d,
            ) by {
                assert(m.of(k).at3(b, s, h * p.head_dim + d) == channel(
                    node,
                    p,
                    m,
                    1,
                    b,
                    s,
                    h,
                    d,
                ));
            }
        },
        Some((cos, sin)) => {
            let cache = ctx.shape(cos)->0;
            let c_op = OpV::Resolve { name: cos };
            let s_op = OpV::Resolve { name: sin };
            let o1 = ops.push(c_op);
            let o2 = o1.push(s_op);
            let co = builder::last_operand(o1);
            let si = builder::last_operand(o2);
            let qs = attention::rotated_side(
                o2,
                q,
                co,
                si,
                cache,
                p,
                p.num_heads,
                label + "_q"@,
            );
            let f = |b: int, s: int, h: int, d: int| channel(node, p, m, 0, b, s, h, d);
            let g = |b: int, s: int, h: int, d: int| channel(node, p, m, 1, b, s, h, d);
            assert forall|b: int, s: int, h: int, d: int|
                m.of(q).at3(b, s, h * p.head_dim + d) == #[trigger] f(b, s, h, d) by {
                assert(m.of(q).at3(b, s, h * p.head_dim + d) == channel(
                    node,
                    p,
                    m,
                    0,
                    b,
                    s,
                    h,
                    d,
                ));
            }
            assert forall|b: int, s: int, h: int, d: int|
                m.of(k).at3(b, s, h * p.head_dim + d) == #[trigger] g(b, s, h, d) by {
                assert(m.of(k).at3(b, s, h * p.head_dim + d) == channel(
                    node,
                    p,
                    m,
                    1,
                    b,
                    s,
                    h,
                    d,
                ));
            }
            lemma_rotated_side(
                qs.ops,
                k,
                co,
                si,
                cache,
                p,
                p.kv_num_heads,
                label + "_k"@,
                m,
                g,
            );
            lemma_rotated_side(o2, q, co, si, cache, p, p.num_heads, label + "_q"@, m, f);
            meaning::lemma_holds_push(o1, s_op, m);
            meaning::lemma_holds_push(ops, c_op, m);
            assert(m.of(co) == m.name(cos) && m.of(si) == m.name(sin));
            let half = cache[1] as int;
            assert forall|b: int, h: int, s: int, d: int|
                0 <= b < p.batch && 0 <= h < p.num_heads && 0 <= s < p.seq && 0 <= d
                    < p.head_dim implies #[trigger] m.of(r.0).at4(b, h, s, d) == turned(
                node,
                p,
                ctx,
                m,
                0,
                b,
                s,
                h,
                d,
            ) by {
                lemma_rotated_same(
                    |c: int| f(b, s, h, c),
                    |c: int| channel(node, p, m, 0, b, s, h, c),
                    |j: int| m.name(cos).at2(p.past_seq + s, j),
                    |j: int| m.name(sin).at2(p.past_seq + s, j),
                    half,
                    p.interleaved,
                    d,
                    p.head_dim as int,
                );
            }
            assert forall|b: int, h: int, s: int, d: int|
                0 <= b < p.batch && 0 <= h < p.kv_num_heads && 0 <= s < p.seq && 0 <= d
                    < p.head_dim implies #[trigger] m.of(r.1).at4(b, h, s, d) == turned(
                node,
                p,
                ctx,
                m,
                1,
                b,
                s,
                h,
                d,
            ) by {
                lemma_rotated_same(
                    |c: int| g(b, s, h, c),
                    |c: int| channel(node, p, m, 1, b, s, h, c),
                    |j: int| m.name(cos).at2(p.past_seq + s, j),
                    |j: int| m.name(sin).at2(p.past_seq + s, j),
                    half,
                    p.interleaved,
                    d,
                    p.head_dim as int,
                );
            }
        },
    }
}

/// The operands that a node records under its outputs.
proof fn lemma_attend(
    ops: Seq<OpV>,
    q: OperandV,
    k: OperandV,
    src: attention::SourcesV,
    node: NodeV,
    p: GqaV,
    ctx: ContextV,
    label: Seq<char>,
    m: Reading,
)
    requires
        meaning::holds(attention::attend(ops, q, k, src, node, p, label), m),
        is_sized(p),
        is_small(p),
        m.of(src.past_key) == m.name(node.input[3]),
        m.of(src.past_value) == m.name(node.input[4]),
        inputs_fit(node, p, m),
        by_heads(m.of(q), p, p.num_heads as int, p.seq as int),
        by_heads(m.of(k), p, p.kv_num_heads as int, p.seq as int),
        m.of(src.v).shape == seq![p.batch as int, p.seq as int, p.kv_num_heads * p.head_dim],
        same_elements(m.of(q), queries(node, p, ctx, m)),
        forall|b: int, h: int, s: int, d: int|
            0 <= b < p.batch && 0 <= h < p.kv_num_heads && 0 <= s < p.seq && 0 <= d < p.head_dim
                ==> #[trigger] m.of(k).at4(b, h, s, d) == turned(node, p, ctx, m, 1, b, s, h, d),
        forall|b: int, s: int, h: int, d: int|
            m.of(src.v).at3(b, s, h * p.head_dim + d) == #[trigger] channel(
                node,
                p,
                m,
                2,
                b,
                s,
                h,
                d,
            ),
        is_tame(
            queries(node, p, ctx, m),
            for_heads(present_keys(node, p, ctx, m), p),
            p,
            m,
        ),
    ensures
        meaning::holds(ops, m),
        node.output_at(1) matches Some(n) ==> same_elements(
            m.name(n),
            present_keys(node, p, ctx, m),
        ),
        node.output_at(2) matches Some(n) ==> same_elements(m.name(n), present_values(node, p, m)),
        node.output_at(0) matches Some(n) ==> {
            &&& m.name(n).shape == seq![p.batch as int, p.seq as int, p.num_heads * p.head_dim]
            &&& forall|b: int, s: int, h: int, d: int|
                0 <= b < p.batch && 0 <= s < p.seq && 0 <= h < p.num_heads && 0 <= d < p.head_dim
                    ==> m.name(n).at3(b, s, h * p.head_dim + d) == #[trigger] attended(
                    queries(node, p, ctx, m),
                    for_heads(present_keys(node, p, ctx, m), p),
                    for_heads(present_values(node, p, m), p),
                    p,
                    m,
                    b,
                    h,
                    s,
                    d,
                )
        },
{
    let vs = attention::heads_steps(ops, src.v, p, p.kv_num_heads, label + "_v"@);
    let v = builder::last_operand(vs);
    let key = attention::appended(vs, src.past_key, k, p, label + "_present_key"@);
    let value = attention::appended(
        key.ops,
        src.past_value,
        v,
        p,
        label + "_present_value"@,
    );
    let key_heads = attention::repeated(value.ops, key.operand, p, label + "_key"@);
    let value_heads = attention::repeated(key_heads.ops, value.operand, p, label + "_value"@);
    let done = attention::attention_steps(
        value_heads.ops,
        q,
        key_heads.operand,
        value_heads.operand,
        p,
        label,
    );
    assert({
        &&& meaning::holds(done, m)
        &&& node.output_at(0) matches Some(n) ==> m.name(n) == m.of(builder::last_operand(done))
        &&& node.output_at(1) matches Some(n) ==> m.name(n) == m.of(key.operand)
        &&& node.output_at(2) matches Some(n) ==> m.name(n) == m.of(value.operand)
    }) by {
        lemma_recorded(
            done,
            node,
            label,
            builder::last_operand(done),
            key.operand,
            value.operand,
            m,
        );
    }
    lemma_attention_front(
        value_heads.ops,
        q,
        key_heads.operand,
        value_heads.operand,
        p,
        label,
        m,
    );
    lemma_repeated_front(key_heads.ops, value.operand, p, label + "_value"@, m);
    lemma_repeated_front(value.ops, key.operand, p, label + "_key"@, m);
    lemma_appended_front(key.ops, src.past_value, v, p, label + "_present_value"@, m);
    lemma_appended_front(vs, src.past_key, k, p, label + "_present_key"@, m);
    lemma_heads(ops, src.v, p, p.kv_num_heads, label + "_v"@, m);
    law_present_follows_past(vs, src.past_key, k, p, label + "_present_key"@, m);
    law_present_follows_past(key.ops, src.past_value, v, p, label + "_present_value"@, m);
    law_heads_share_groups(value.ops, key.operand, p, label + "_key"@, m);
    law_heads_share_groups(key_heads.ops, value.operand, p, label + "_value"@, m);
    let pk = present_keys(node, p, ctx, m);
    let pv = present_values(node, p, m);
    assert(same_elements(m.of(key.operand), pk)) by {
        assert forall|a: int, b: int, c: int, d: int|
            meaning::valid(seq![a, b, c, d], pk.shape) implies #[trigger] m.of(key.operand).at4(
            a,
            b,
            c,
            d,
        ) == pk.at4(a, b, c, d) by {
            let i = seq![a, b, c, d];
            assert(i[0] == a && i[1] == b && i[2] == c && i[3] == d);
            if c >= p.past_seq {
                assert(m.of(k).at4(a, b, c - p.past_seq, d) == turned(
                    node,
                    p,
                    ctx,
                    m,
                    1,
                    a,
                    c - p.past_seq,
                    b,
                    d,
                ));
            }
        }
    }
    assert(same_elements(m.of(value.operand), pv)) by {
        assert forall|a: int, b: int, c: int, d: int|
            meaning::valid(seq![a, b, c, d], pv.shape) implies #[trigger] m.of(value.operand).at4(
            a,
            b,
            c,
            d,
        ) == pv.at4(a, b, c, d) by {
            let i = seq![a, b, c, d];
            assert(i[0] == a && i[1] == b && i[2] == c && i[3] == d);
            if c >= p.past_seq {
                assert(m.of(v).at4(a, b, c - p.past_seq, d) == m.of(src.v).at3(
                    a,
                    c - p.past_seq,
                    b * p.head_dim + d,
                ));
                assert(m.of(src.v).at3(a, c - p.past_seq, b * p.head_dim + d) == channel(
                    node,
                    p,
                    m,
                    2,
                    a,
                    c - p.past_seq,
                    b,
                    d,
                ));
            }
        }
    }
    lemma_grouped(m.of(key_heads.operand), m.of(key.operand), pk, p);
    lemma_grouped(m.of(value_heads.operand), m.of(value.operand), pv, p);
    let qq = queries(node, p, ctx, m);
    let kk = for_heads(pk, p);
    let vv = for_heads(pv, p);
    assert(is_tame(m.of(q), m.of(key_heads.operand), p, m)) by {
        assert forall|b: int, h: int, s: int, t: int|
            0 <= b < p.batch && 0 <= h < p.num_heads && 0 <= s < p.seq && 0 <= t < p.past_seq
                + p.seq implies -routing::ordinary(p.dtype) < #[trigger] score(
            m.of(q),
            m.of(key_heads.operand),
            p,
            m,
            b,
            h,
            s,
            t,
        ) < routing::ordinary(p.dtype) by {
            lemma_score_same(m.of(q), qq, m.of(key_heads.operand), kk, p, m, b, h, s, t);
            assert(-routing::ordinary(p.dtype) < score(qq, kk, p, m, b, h, s, t)
                < routing::ordinary(p.dtype));
        }
    }
    lemma_attention(
        value_heads.ops,
        q,
        key_heads.operand,
        value_heads.operand,
        p,
        label,
        m,
    );
    if node.output_at(0) is Some {
        let out = m.name(node.output_at(0)->0);
        assert forall|b: int, s: int, h: int, d: int|
            0 <= b < p.batch && 0 <= s < p.seq && 0 <= h < p.num_heads && 0 <= d
                < p.head_dim implies out.at3(b, s, h * p.head_dim + d) == #[trigger] attended(
            qq,
            kk,
            vv,
            p,
            m,
            b,
            h,
            s,
            d,
        ) by {
            lemma_attended_same(
                m.of(q),
                qq,
                m.of(key_heads.operand),
                kk,
                m.of(value_heads.operand),
                vv,
                p,
                m,
                b,
                h,
                s,
                d,
            );
            assert(out.at3(b, s, h * p.head_dim + d) == attended(
                m.of(q),
                m.of(key_heads.operand),
                m.of(value_heads.operand),
                p,
                m,
                b,
                h,
                s,
                d,
            ));
        }
    }
}

proof fn lemma_grouped(r: Tensor, x: Tensor, y: Tensor, p: GqaV)
    requires
        is_sized(p),
        by_heads(r, p, p.num_heads as int, p.total_seq as int),
        by_heads(x, p, p.kv_num_heads as int, p.total_seq as int),
        same_elements(x, y),
        forall|b: int, h: int, t: int, d: int|
            0 <= b < p.batch && 0 <= h < p.num_heads && 0 <= t < p.total_seq && 0 <= d
                < p.head_dim ==> #[trigger] r.at4(b, h, t, d) == x.at4(
                b,
                h / (p.num_heads as int / p.kv_num_heads as int),
                t,
                d,
            ),
    ensures
        same_elements(r, for_heads(y, p)),
{
    let group = p.num_heads as int / p.kv_num_heads as int;
    assert forall|b: int, h: int, t: int, d: int|
        meaning::valid(seq![b, h, t, d], r.shape) implies #[trigger] r.at4(b, h, t, d)
        == for_heads(y, p).at4(b, h, t, d) by {
        let i = seq![b, h, t, d];
        assert(i[0] == b && i[1] == h && i[2] == t && i[3] == d);
        let g = h / group;
        assert(0 <= g < p.kv_num_heads) by (nonlinear_arith)
            requires
                g == h / group,
                group == p.num_heads as int / p.kv_num_heads as int,
                p.num_heads as int % p.kv_num_heads as int == 0,
                p.num_heads > 0,
                p.kv_num_heads > 0,
                0 <= h < p.num_heads,
        ;
        assert(meaning::valid(seq![b, g, t, d], x.shape));
        assert(x.at4(b, g, t, d) == y.at4(b, g, t, d));
    }
}

#[verifier::rlimit(40)]
proof fn lemma_recorded(
    done: Seq<OpV>,
    node: NodeV,
    label: Seq<char>,
    a: OperandV,
    b: OperandV,
    c: OperandV,
    m: Reading,
)
    requires
        ({
            let r1 = ops::recorded(done, node.output_at(0), label, a);
            let r2 = ops::recorded(r1, node.output_at(1), label + "_present_key_out"@, b);
            meaning::holds(
                ops::recorded(r2, node.output_at(2), label + "_present_value_out"@, c),
                m,
            )
        }),
    ensures
        meaning::holds(done, m),
        node.output_at(0) matches Some(n) ==> m.name(n) == m.of(a),
        node.output_at(1) matches Some(n) ==> m.name(n) == m.of(b),
        node.output_at(2) matches Some(n) ==> m.name(n) == m.of(c),
{
    broadcast use meaning::lemma_holds_push;

}

#[verifier::rlimit(40)]
proof fn lemma_attention_front(
    ops: Seq<OpV>,
    q: OperandV,
    key: OperandV,
    value: OperandV,
    p: GqaV,
    label: Seq<char>,
    m: Reading,
)
    requires
        meaning::holds(attention::attention_steps(ops, q, key, value, p, label), m),
    ensures
        meaning::holds(ops, m),
{
    broadcast use meaning::lemma_holds_push;

}

#[verifier::rlimit(40)]
proof fn lemma_repeated_front(
    ops: Seq<OpV>,
    input: OperandV,
    p: GqaV,
    label: Seq<char>,
    m: Reading,
)
    requires
        meaning::holds(attention::repeated(ops, input, p, label).ops, m),
    ensures
        meaning::holds(ops, m),
{
    broadcast use meaning::lemma_holds_push;

}

#[verifier::rlimit(40)]
proof fn lemma_appended_front(
    ops: Seq<OpV>,
    past: OperandV,
    new: OperandV,
    p: GqaV,
    label: Seq<char>,
    m: Reading,
)
    requires
        meaning::holds(attention::appended(ops, past, new, p, label).ops, m),
    ensures
        meaning::holds(ops, m),
{
    broadcast use meaning::lemma_holds_push;

}

/// A lowered `GroupQueryAttention` node: under its outputs stand the present
/// keys and values, the cached positions first and the new ones behind them,
/// and for every query the values of the positions up to its own, weighted by
/// the shares of their scores. Scores are taken to be of ordinary size, and the
/// exponential to vanish on numbers that are not.
#[verifier::rlimit(40)]
pub proof fn law_group_query_attention(
    node: NodeV,
    name: Seq<char>,
    ctx: ContextV,
    ops: Seq<OpV>,
    m: Reading,
)
    requires
        attention::gqa_outcome(node, name, ctx, ops).result is Ok,
        meaning::holds(attention::gqa_outcome(node, name, ctx, ops).ops, m),
        ({
            let p = attention::gqa_params(node, name, ctx)->Ok_0;
            &&& is_sized(p)
            &&& is_small(p)
            &&& inputs_fit(node, p, m)
            &&& p.rotary matches Some(c) ==> ctx.shape(c.0)->0[1] > 0
            &&& is_tame(
                queries(node, p, ctx, m),
                for_heads(present_keys(node, p, ctx, m), p),
                p,
                m,
            )
        }),
    ensures
        ({
            let p = attention::gqa_params(node, name, ctx)->Ok_0;
            &&& node.output_at(1) matches Some(n) ==> same_elements(
                m.name(n),
                present_keys(node, p, ctx, m),
            )
            &&& node.output_at(2) matches Some(n) ==> same_elements(
                m.name(n),
                present_values(node, p, m),
            )
            &&& node.output_at(0) matches Some(n) ==> {
                &&& m.name(n).shape == seq![
                    p.batch as int,
                    p.seq as int,
                    p.num_heads * p.head_dim,
                ]
                &&& forall|b: int, s: int, h: int, d: int|
                    0 <= b < p.batch && 0 <= s < p.seq && 0 <= h < p.num_heads && 0 <= d
                        < p.head_dim ==> m.name(n).at3(b, s, h * p.head_dim + d)
                        == #[trigger] attended(
                        queries(node, p, ctx, m),
                        for_heads(present_keys(node, p, ctx, m), p),
                        for_heads(present_values(node, p, m), p),
                        p,
                        m,
                        b,
                        h,
                        s,
                        d,
                    )
            }
        }),
{
    let p = attention::gqa_params(node, name, ctx)->Ok_0;
    let label = node.label(name);
    let src = attention::sources(ops, node, p, label);
    let qk = attention::query_and_key(src.ops, src.q, src.k, p, ctx, label);
    let (q, k) = qk.result->Ok_0;
    lemma_attend_front(qk.ops, q, k, src, node, p, label, m);
    lemma_query_front(src.ops, src.q, src.k, p, ctx, label, m);
    lemma_sources(ops, node, p, label, m);
    assert(p.head_dim <= (p.num_heads + 2 * p.kv_num_heads) * p.head_dim) by (nonlinear_arith)
        requires
            p.num_heads > 0,
            p.kv_num_heads > 0,
            p.head_dim > 0,
    ;
    lemma_query_and_key(src.ops, src.q, src.k, node, p, ctx, label, m);
    let qq = queries(node, p, ctx, m);
    assert(same_elements(m.of(q), qq)) by {
        assert forall|a: int, b: int, c: int, d: int|
            meaning::valid(seq![a, b, c, d], qq.shape) implies #[trigger] m.of(q).at4(a, b, c, d)
            == qq.at4(a, b, c, d) by {
            let i = seq![a, b, c, d];
            assert(i[0] == a && i[1] == b && i[2] == c && i[3] == d);
        }
    }
    lemma_attend(qk.ops, q, k, src, node, p, ctx, label, m);
}

#[verifier::rlimit(40)]
proof fn lemma_attend_front(
    ops: Seq<OpV>,
    q: OperandV,
    k: OperandV,
    src: attention::SourcesV,
    node: NodeV,
    p: GqaV,
    label: Seq<char>,
    m: Reading,
)
    requires
        meaning::holds(attention::attend(ops, q, k, src, node, p, label), m),
    ensures
        meaning::holds(ops, m),
{
    broadcast use meaning::lemma_holds_push;

}

#[verifier::rlimit(40)]
proof fn lemma_query_front(
    ops: Seq<OpV>,
    q: OperandV,
    k: OperandV,
    p: GqaV,
    ctx: ContextV,
    label: Seq<char>,
    m: Reading,
)
    requires
        meaning::holds(attention::query_and_key(ops, q, k, p, ctx, label).ops, m),
    ensures
        meaning::holds(ops, m),
{
    broadcast use meaning::lemma_holds_push;

}

} // verus!
