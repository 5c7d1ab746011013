//! What a lowered rotary embedding computes.
use crate::builder;
use crate::builder::{OpV, OperandV};
use crate::context::ContextV;
use crate::laws::rotation;
use crate::meaning;
use crate::meaning::{Reading, Tensor};
use crate::ops;
use crate::ops::attention;
use crate::ops::rnn;
use crate::ops::rnn::RotaryV;
use crate::protos::NodeV;
use vstd::prelude::*;

verus! {

/// The sizes of a rotary embedding fit each other.
spec fn sized(p: RotaryV) -> bool {
    &&& p.batch > 0
    &&& p.sequence > 0
    &&& p.num_heads > 0
    &&& p.half > 0
    &&& p.rotary_dim == 2 * p.half
    &&& p.rotary_dim <= p.head_size
}

spec fn heads_shape(p: RotaryV, width: int) -> Seq<int> {
    seq![p.batch as int, p.sequence as int, p.num_heads as int, width]
}

/// Every second one of `2 * half` columns, or of all but the first.
proof fn lemma_widths(half: int)
    ensures
        (2 * half + 2 - 1) / 2 == half,
        (2 * half - 1 + 2 - 1) / 2 == half,
        (half + 1 - 1) / 1 == half,
{
}

/// The two components that are rotated together.
#[verifier::rlimit(40)]
proof fn lemma_components(ops: Seq<OpV>, x: OperandV, p: RotaryV, label: Seq<char>, m: Reading)
    requires
        meaning::holds(rnn::rotary_components(ops, x, p, label).ops, m),
        rnn::rotary_components(ops, x, p, label).result is Ok,
        sized(p),
    ensures
        meaning::holds(ops, m),
        ({
            let parts = rnn::rotary_components(ops, x, p, label).result->Ok_0;
            let x1 = m.of(parts.0);
            let x2 = m.of(parts.1);
            &&& x1.shape == heads_shape(p, p.half as int)
            &&& x2.shape == heads_shape(p, p.half as int)
            &&& forall|b: int, s: int, n: int, j: int| #[trigger]
                x1.at4(b, s, n, j) == m.of(x).at4(
                    b,
                    s,
                    n,
                    if p.interleaved {
                        2 * j
                    } else {
                        j
                    },
                )
            &&& forall|b: int, s: int, n: int, j: int| #[trigger]
                x2.at4(b, s, n, j) == m.of(x).at4(
                    b,
                    s,
                    n,
                    if p.interleaved {
                        2 * j + 1
                    } else {
                        p.half + j
                    },
                )
        }),
{
    let z = ops.len() as int;
    let x1 = m.of(OperandV { step: z, output: 0 });
    let x2 = m.of(OperandV { step: z + 1, output: 0 });
    let v = m.of(x);
    let (first, second, step): (i64, i64, u32) = if p.interleaved {
        (p.rotary_dim, (p.rotary_dim - 1) as i64, 2)
    } else {
        (p.half, p.half, 1)
    };
    let start: i64 = if p.interleaved {
        1
    } else {
        p.half
    };
    let zero = seq![0int, 0, 0, 0];
    let from = seq![0int, 0, 0, start as int];
    let walk = seq![1int, 1, 1, step as int];
    let sa = meaning::ints(seq![p.batch, p.sequence, p.num_heads, first]);
    let sb = meaning::ints(seq![p.batch, p.sequence, p.num_heads, second]);
    assert(meaning::naturals(seq![0u32, 0u32, 0u32, 0i64 as u32]) =~= zero);
    assert(meaning::naturals(seq![0u32, 0u32, 0u32, start as u32]) =~= from);
    assert(meaning::naturals(seq![1u32, 1u32, 1u32, step]) =~= walk);
    assert({
        &&& meaning::holds(ops, m)
        &&& x1 == meaning::slice(v, zero, sa, walk)
        &&& x2 == meaning::slice(v, from, sb, walk)
    }) by {
        broadcast use meaning::lemma_holds_push;

    }
    rotation::lemma_columns(v, zero, sa, walk, 0, step as int, 0, 0, 0, 0);
    rotation::lemma_columns(v, from, sb, walk, start as int, step as int, 0, 0, 0, 0);
    let parts = rnn::rotary_components(ops, x, p, label).result->Ok_0;
    assert(parts.0 == OperandV { step: z, output: 0 });
    assert(parts.1 == OperandV { step: z + 1, output: 0 });
    assert(sa.len() == 4 && sb.len() == 4 && sa[3] == first && sb[3] == second);
    lemma_widths(p.half as int);
    assert(x1.shape =~= heads_shape(p, p.half as int));
    assert(x2.shape =~= heads_shape(p, p.half as int));
    assert forall|b: int, s: int, n: int, j: int| #[trigger]
        x1.at4(b, s, n, j) == v.at4(
            b,
            s,
            n,
            if p.interleaved {
                2 * j
            } else {
                j
            },
        ) by {
        rotation::lemma_columns(v, zero, sa, walk, 0, step as int, b, s, n, j);
    }
    assert forall|b: int, s: int, n: int, j: int| #[trigger]
        x2.at4(b, s, n, j) == v.at4(
            b,
            s,
            n,
            if p.interleaved {
                2 * j + 1
            } else {
                p.half + j
            },
        ) by {
        rotation::lemma_columns(v, from, sb, walk, start as int, step as int, b, s, n, j);
    }
}

#[verifier::rlimit(40)]
proof fn lemma_join_front(
    ops: Seq<OpV>,
    re: OperandV,
    im: OperandV,
    p: RotaryV,
    label: Seq<char>,
    m: Reading,
)
    requires
        meaning::holds(rnn::rotary_join(ops, re, im, p, label), m),
    ensures
        meaning::holds(ops, m),
{
    broadcast use meaning::lemma_holds_push;

}

#[verifier::rlimit(40)]
proof fn lemma_join(
    ops: Seq<OpV>,
    re: OperandV,
    im: OperandV,
    p: RotaryV,
    label: Seq<char>,
    m: Reading,
)
    requires
        meaning::holds(rnn::rotary_join(ops, re, im, p, label), m),
        sized(p),
        m.of(re).shape == heads_shape(p, p.half as int),
        m.of(im).shape == heads_shape(p, p.half as int),
    ensures
        ({
            let r = m.of(builder::last_operand(rnn::rotary_join(ops, re, im, p, label)));
            &&& r.shape == heads_shape(p, 2 * p.half)
            &&& forall|b: int, s: int, n: int, d: int|
                meaning::valid(seq![b, s, n, d], heads_shape(p, 2 * p.half)) ==> #[trigger] r.at4(
                    b,
                    s,
                    n,
                    d,
                ) == rotation::joined(
                    m.of(re),
                    m.of(im),
                    p.half as int,
                    p.interleaved,
                    b,
                    s,
                    n,
                    d,
                )
        }),
{
    let z = ops.len() as int;
    let r = m.of(builder::last_operand(rnn::rotary_join(ops, re, im, p, label)));
    let shape = heads_shape(p, p.half as int);
    let out = heads_shape(p, 2 * p.half);
    let x = m.of(re);
    let y = m.of(im);
    if p.interleaved {
        let deep = seq![shape[0], shape[1], shape[2], shape[3], 1];
        let x1 = m.of(OperandV { step: z, output: 0 });
        let y1 = m.of(OperandV { step: z + 1, output: 0 });
        let pair = m.of(OperandV { step: z + 2, output: 0 });
        let parts = m.all(
            seq![OperandV { step: z, output: 0 }, OperandV { step: z + 1, output: 0 }],
        );
        assert(meaning::ints(seq![p.batch, p.sequence, p.num_heads, p.half, 1i64]) =~= deep);
        assert(meaning::ints(seq![p.batch, p.sequence, p.num_heads, p.rotary_dim]) =~= out);
        assert({
            &&& x1 == meaning::reshape(x, deep)
            &&& y1 == meaning::reshape(y, deep)
            &&& pair == meaning::concat(parts, 4)
            &&& r == meaning::reshape(pair, out)
        }) by {
            broadcast use meaning::lemma_holds_push;

        }
        assert(parts =~= seq![x1, y1]);
        assert forall|b: int, s: int, n: int, d: int|
            meaning::valid(seq![b, s, n, d], out) implies #[trigger] r.at4(b, s, n, d)
            == rotation::joined(x, y, p.half as int, true, b, s, n, d) by {
            rotation::lemma_interleave(x, y, shape, parts, b, s, n, d);
        }
    } else {
        let parts = m.all(seq![re, im]);
        assert(r == meaning::concat(parts, 3)) by {
            broadcast use meaning::lemma_holds_push;

        }
        assert(parts =~= seq![x, y]);
        rotation::lemma_halves(x, y, shape, parts, 0, 0, 0, 0);
        assert(r.shape =~= out);
        assert forall|b: int, s: int, n: int, d: int|
            meaning::valid(seq![b, s, n, d], out) implies #[trigger] r.at4(b, s, n, d)
            == rotation::joined(x, y, p.half as int, false, b, s, n, d) by {
            let i = seq![b, s, n, d];
            assert(0 <= i[3] < out[3]);
            rotation::lemma_halves(x, y, shape, parts, b, s, n, d);
        }
    }
}

/// The channels that are not rotated follow those that are.
#[verifier::rlimit(40)]
proof fn lemma_tail(
    ops: Seq<OpV>,
    turned: OperandV,
    x: OperandV,
    p: RotaryV,
    label: Seq<char>,
    m: Reading,
)
    requires
        meaning::holds(rnn::rotary_tail(ops, turned, x, p, label).ops, m),
        rnn::rotary_tail(ops, turned, x, p, label).result is Ok,
        sized(p),
    ensures
        meaning::holds(ops, m),
        m.of(turned).shape == heads_shape(p, 2 * p.half) ==> ({
            let r = m.of(rnn::rotary_tail(ops, turned, x, p, label).result->Ok_0);
            &&& r.shape == heads_shape(p, p.head_size as int)
            &&& forall|b: int, s: int, n: int, d: int|
                0 <= d < p.head_size ==> #[trigger] r.at4(b, s, n, d) == if d < 2 * p.half {
                    m.of(turned).at4(b, s, n, d)
                } else {
                    m.of(x).at4(b, s, n, d)
                }
        }),
{
    let z = ops.len() as int;
    let core = m.of(turned);
    let v = m.of(x);
    let out = heads_shape(p, 2 * p.half);
    if p.rotary_dim < p.head_size {
        let r = m.of(rnn::rotary_tail(ops, turned, x, p, label).result->Ok_0);
        let tail = m.of(OperandV { step: z, output: 0 });
        let from = seq![0int, 0, 0, p.rotary_dim as int];
        let walk = seq![1int, 1, 1, 1];
        let rest = meaning::ints(
            seq![p.batch, p.sequence, p.num_heads, (p.head_size - p.rotary_dim) as i64],
        );
        let ends = m.all(seq![turned, OperandV { step: z, output: 0 }]);
        assert(meaning::naturals(seq![0u32, 0u32, 0u32, p.rotary_dim as u32]) =~= from);
        assert(meaning::naturals(seq![1u32, 1u32, 1u32, 1u32]) =~= walk);
        assert({
            &&& meaning::holds(ops, m)
            &&& tail == meaning::slice(v, from, rest, walk)
            &&& r == meaning::concat(ends, 3)
        }) by {
            broadcast use meaning::lemma_holds_push;

        }
        if core.shape == out {
            assert(ends =~= seq![core, tail]);
            rotation::lemma_columns(v, from, rest, walk, p.rotary_dim as int, 1, 0, 0, 0, 0);
            rotation::lemma_halves(core, tail, out, ends, 0, 0, 0, 0);
            assert(r.shape =~= heads_shape(p, p.head_size as int));
            assert forall|b: int, s: int, n: int, d: int|
                0 <= d < p.head_size implies #[trigger] r.at4(b, s, n, d) == if d < 2 * p.half {
                core.at4(b, s, n, d)
            } else {
                v.at4(b, s, n, d)
            } by {
                rotation::lemma_halves(core, tail, out, ends, b, s, n, d);
                rotation::lemma_columns(
                    v,
                    from,
                    rest,
                    walk,
                    p.rotary_dim as int,
                    1,
                    b,
                    s,
                    n,
                    d - p.rotary_dim,
                );
            }
        }
    }
}

/// The front of the plan holds.
#[verifier::rlimit(40)]
proof fn lemma_body_front(ops: Seq<OpV>, p: RotaryV, label: Seq<char>, m: Reading)
    requires
        meaning::holds(rnn::rotary_body(ops, p, label).ops, m),
        rnn::rotary_body(ops, p, label).result is Ok,
        sized(p),
    ensures
        meaning::holds(rnn::rotary_start(ops, p, label).ops, m),
        ({
            let s = rnn::rotary_start(ops, p, label);
            let whole = rnn::column_slice(
                s.ops,
                s.x,
                0,
                seq![p.batch, p.sequence, p.num_heads, p.rotary_dim],
                1,
                label + "__rotate"@,
            );
            let walk = seq![1int, 1, 1, 1];
            let front = meaning::ints(seq![p.batch, p.sequence, p.num_heads, p.rotary_dim]);
            m.of(whole.result->Ok_0) == meaning::slice(
                m.of(s.x),
                seq![0int, 0, 0, 0],
                front,
                walk,
            )
        }),
{
    let s = rnn::rotary_start(ops, p, label);
    let sizes = seq![p.batch, p.sequence, p.num_heads, p.rotary_dim];
    let whole = rnn::column_slice(s.ops, s.x, 0, sizes, 1, label + "__rotate"@);
    let parts = rnn::rotary_components(whole.ops, whole.result->Ok_0, p, label);
    let (x1, x2) = parts.result->Ok_0;
    let turned = attention::rotation_steps(parts.ops, x1, x2, s.cos, s.sin);
    let re = attention::rotation_real(turned);
    let im = builder::last_operand(turned);
    let joint = rnn::rotary_join(turned, re, im, p, label);
    lemma_tail(joint, builder::last_operand(joint), s.x, p, label, m);
    lemma_join_front(turned, re, im, p, label, m);
    rotation::lemma_rotation_front(parts.ops, x1, x2, s.cos, s.sin, m);
    lemma_components(whole.ops, whole.result->Ok_0, p, label, m);
    let cut = OpV::Slice {
        input: s.x,
        starts: seq![0, 0, 0, 0i64 as u32],
        sizes,
        strides: seq![1, 1, 1, 1],
        label: label + "__rotate"@,
    };
    assert(whole.ops == s.ops.push(cut));
    meaning::lemma_holds_push(s.ops, cut, m);
    assert(meaning::naturals(seq![0u32, 0u32, 0u32, 0i64 as u32]) =~= seq![0int, 0, 0, 0]);
    assert(meaning::naturals(seq![1u32, 1u32, 1u32, 1u32]) =~= seq![1int, 1, 1, 1]);
}

/// The heads are rotated by the given cosines and sines.
#[verifier::rlimit(60)]
proof fn lemma_body(
    ops: Seq<OpV>,
    p: RotaryV,
    label: Seq<char>,
    m: Reading,
    b: int,
    t: int,
    n: int,
    d: int,
)
    requires
        meaning::holds(rnn::rotary_body(ops, p, label).ops, m),
        rnn::rotary_body(ops, p, label).result is Ok,
        sized(p),
        ({
            let s = rnn::rotary_start(ops, p, label);
            let low = seq![p.batch as int, p.sequence as int, 1, p.half as int];
            &&& m.of(s.cos).shape == low
            &&& m.of(s.sin).shape == low
        }),
        0 <= b < p.batch,
        0 <= t < p.sequence,
        0 <= n < p.num_heads,
        0 <= d < p.head_size,
    ensures
        ({
            let s = rnn::rotary_start(ops, p, label);
            let r = m.of(rnn::rotary_body(ops, p, label).result->Ok_0);
            &&& r.shape == heads_shape(p, p.head_size as int)
            &&& r.at4(b, t, n, d) == rotation::rotated(
                |c: int| m.of(s.x).at4(b, t, n, c),
                |j: int| m.of(s.cos).at4(b, t, 0, j),
                |j: int| m.of(s.sin).at4(b, t, 0, j),
                p.half as int,
                p.interleaved,
                d,
            )
        }),
{
    let s = rnn::rotary_start(ops, p, label);
    let sizes = seq![p.batch, p.sequence, p.num_heads, p.rotary_dim];
    let whole = rnn::column_slice(s.ops, s.x, 0, sizes, 1, label + "__rotate"@);
    let parts = rnn::rotary_components(whole.ops, whole.result->Ok_0, p, label);
    let (o1, o2) = parts.result->Ok_0;
    let turned = attention::rotation_steps(parts.ops, o1, o2, s.cos, s.sin);
    let re = attention::rotation_real(turned);
    let im = builder::last_operand(turned);
    let joint = rnn::rotary_join(turned, re, im, p, label);
    lemma_body_front(ops, p, label, m);
    lemma_tail(joint, builder::last_operand(joint), s.x, p, label, m);
    lemma_join_front(turned, re, im, p, label, m);
    rotation::lemma_rotation_front(parts.ops, o1, o2, s.cos, s.sin, m);
    lemma_components(whole.ops, whole.result->Ok_0, p, label, m);
    let shape = heads_shape(p, p.half as int);
    rotation::lemma_rotation(parts.ops, o1, o2, s.cos, s.sin, m, shape, p.batch as int);
    lemma_join(turned, re, im, p, label, m);
    let v = m.of(s.x);
    let x1 = m.of(o1);
    let x2 = m.of(o2);
    let xr = m.of(whole.result->Ok_0);
    let cosines = |j: int| m.of(s.cos).at4(b, t, 0, j);
    let sines = |j: int| m.of(s.sin).at4(b, t, 0, j);
    if d < 2 * p.half {
        let i = seq![b, t, n, d];
        assert(meaning::valid(i, heads_shape(p, 2 * p.half)));
        let j = if p.interleaved {
            d / 2
        } else if d < p.half {
            d
        } else {
            d - p.half
        };
        assert(meaning::valid(seq![b, t, n, j], shape));
        assert(m.of(re).at4(b, t, n, j) == x1.at4(b, t, n, j) * cosines(j) - x2.at4(b, t, n, j)
            * sines(j));
        assert(m.of(im).at4(b, t, n, j) == x1.at4(b, t, n, j) * sines(j) + x2.at4(b, t, n, j)
            * cosines(j));
        let e1 = if p.interleaved {
            2 * j
        } else {
            j
        };
        let e2 = if p.interleaved {
            2 * j + 1
        } else {
            p.half + j
        };
        let zero = seq![0int, 0, 0, 0];
        let walk = seq![1int, 1, 1, 1];
        rotation::lemma_columns(v, zero, meaning::ints(sizes), walk, 0, 1, b, t, n, e1);
        rotation::lemma_columns(v, zero, meaning::ints(sizes), walk, 0, 1, b, t, n, e2);
        assert(x1.at4(b, t, n, j) == v.at4(b, t, n, e1));
        assert(x2.at4(b, t, n, j) == v.at4(b, t, n, e2));
        rotation::lemma_turned(
            v,
            x1,
            x2,
            m.of(re),
            m.of(im),
            cosines,
            sines,
            p.half as int,
            p.interleaved,
            b,
            t,
            n,
            d,
        );
    }
}

// ---------------------------------------------------------------------------
// The first steps
// ---------------------------------------------------------------------------

/// The row of a cache for position `t` of batch `b`: the one that the position
/// names, or the one at the same place.
pub open spec fn cache_row(
    cache: Tensor,
    positions: Option<Tensor>,
    b: int,
    t: int,
) -> spec_fn(int) -> real {
    |j: int|
        match positions {
            Some(p) => cache.at2(meaning::whole(p.at2(b, t)), j),
            None => cache.at3(b, t, j),
        }
}

/// A cache fits: a row for each named position, or one for each position.
pub open spec fn cache_fits(
    cache: Tensor,
    positions: Option<Tensor>,
    batch: int,
    sequence: int,
    half: int,
) -> bool {
    match positions {
        Some(p) => {
            &&& p.shape == seq![batch, sequence]
            &&& cache.shape.len() == 2
            &&& cache.shape[1] == half
        },
        None => cache.shape == seq![batch, sequence, half],
    }
}

proof fn lemma_cache(
    cache: Tensor,
    positions: Option<Tensor>,
    rows: Tensor,
    batch: int,
    sequence: int,
    half: int,
    b: int,
    t: int,
    j: int,
)
    requires
        cache_fits(cache, positions, batch, sequence, half),
        rows == match positions {
            Some(p) => meaning::gather(cache, p, 0),
            None => cache,
        },
        0 <= b < batch,
        0 <= t < sequence,
        0 <= j < half,
    ensures
        meaning::reshape(rows, seq![batch, sequence, 1, half]).at4(b, t, 0, j) == cache_row(
            cache,
            positions,
            b,
            t,
        )(j),
{
    let flat = seq![batch, sequence, half];
    let i = seq![b, t, j];
    assert(rows.shape =~= flat);
    assert(meaning::valid(i, flat));
    meaning::lemma_place_3(i, flat);
    meaning::lemma_place_4(seq![b, t, 0int, j], seq![batch, sequence, 1, half]);
    let y = b * sequence + t;
    assert((y * 1 + 0) * half + j == y * half + j);
    meaning::lemma_reshape(rows, seq![batch, sequence, 1, half], seq![b, t, 0int, j], i);
    if positions is Some {
        let p = positions->0;
        let at = meaning::whole(p.at2(b, t));
        assert(i.subrange(0, 2) =~= seq![b, t]);
        assert(i.take(0) + seq![at] + i.skip(2) =~= seq![at, j]);
    }
}

/// An element of the input, by batch, position, head and channel.
pub open spec fn channel(x: Tensor, head_size: int, b: int, t: int, n: int, c: int) -> real {
    if x.shape.len() == 4 {
        x.at4(b, n, t, c)
    } else {
        x.at3(b, t, n * head_size + c)
    }
}

/// The input has the sizes of the embedding.
spec fn input_fits(x: Tensor, p: RotaryV) -> bool {
    if p.rank4 {
        x.shape == seq![
            p.batch as int,
            p.num_heads as int,
            p.sequence as int,
            p.head_size as int,
        ]
    } else {
        x.shape == seq![p.batch as int, p.sequence as int, p.num_heads * p.head_size]
    }
}

proof fn lemma_heads(x: Tensor, p: RotaryV, b: int, t: int, n: int, c: int)
    requires
        sized(p),
        input_fits(x, p),
        0 <= b < p.batch,
        0 <= t < p.sequence,
        0 <= n < p.num_heads,
        0 <= c < p.head_size,
    ensures
        ({
            let y = if p.rank4 {
                meaning::transpose(x, seq![0int, 2, 1, 3])
            } else {
                x
            };
            meaning::reshape(y, heads_shape(p, p.head_size as int)).at4(b, t, n, c) == channel(
                x,
                p.head_size as int,
                b,
                t,
                n,
                c,
            )
        }),
{
    let shape = heads_shape(p, p.head_size as int);
    let i = seq![b, t, n, c];
    assert(meaning::valid(i, shape));
    if p.rank4 {
        let turn = seq![0int, 2, 1, 3];
        let y = meaning::transpose(x, turn);
        assert(y.shape =~= shape);
        assert(turn[0] == 0 && turn[1] == 2 && turn[2] == 1 && turn[3] == 3);
        let j = seq![b, n, t, c];
        meaning::lemma_transpose(x, turn, j);
        assert(Seq::new(turn.len(), |a: int| j[turn[a]]) =~= i);
        meaning::lemma_reshape(y, shape, i, i);
    } else {
        lemma_flat(p, b, t, n, c);
        meaning::lemma_reshape(x, shape, i, seq![b, t, n * p.head_size + c]);
    }
}

/// Heads one behind the other.
proof fn lemma_flat(p: RotaryV, b: int, t: int, n: int, c: int)
    requires
        sized(p),
        0 <= b < p.batch,
        0 <= t < p.sequence,
        0 <= n < p.num_heads,
        0 <= c < p.head_size,
    ensures
        ({
            let flat = seq![p.batch as int, p.sequence as int, p.num_heads * p.head_size];
            let shape = heads_shape(p, p.head_size as int);
            let i = seq![b, t, n, c];
            let j = seq![b, t, n * p.head_size + c];
            &&& meaning::valid(i, shape)
            &&& meaning::valid(j, flat)
            &&& meaning::place(i, shape) == meaning::place(j, flat)
        }),
{
    let flat = seq![p.batch as int, p.sequence as int, p.num_heads * p.head_size];
    let shape = heads_shape(p, p.head_size as int);
    let i = seq![b, t, n, c];
    let j = seq![b, t, n * p.head_size + c];
    let (h, w) = (p.num_heads as int, p.head_size as int);
    assert(0 <= n * w + c < h * w) by (nonlinear_arith)
        requires
            0 <= n < h,
            0 <= c < w,
    ;
    meaning::lemma_place_4(i, shape);
    meaning::lemma_place_3(j, flat);
    let y = b * p.sequence + t;
    assert((y * h + n) * w + c == y * (h * w) + (n * w + c)) by (nonlinear_arith);
}

/// The heads and the rows of the caches.
#[verifier::rlimit(60)]
proof fn lemma_start(ops: Seq<OpV>, p: RotaryV, label: Seq<char>, m: Reading)
    requires
        meaning::holds(rnn::rotary_start(ops, p, label).ops, m),
    ensures
        ({
            let s = rnn::rotary_start(ops, p, label);
            let x = m.name(p.x);
            let shape = heads_shape(p, p.head_size as int);
            let low = seq![p.batch as int, p.sequence as int, 1, p.half as int];
            let rows = |cache: Tensor|
                match p.positions {
                    Some(n) => meaning::gather(cache, m.name(n), 0),
                    None => cache,
                };
            &&& m.of(s.x) == meaning::reshape(
                if p.rank4 {
                    meaning::transpose(x, seq![0int, 2, 1, 3])
                } else {
                    x
                },
                shape,
            )
            &&& m.of(s.cos) == meaning::reshape(rows(m.name(p.cos)), low)
            &&& m.of(s.sin) == meaning::reshape(rows(m.name(p.sin)), low)
        }),
{
    assert(meaning::naturals(seq![0u32, 2u32, 1u32, 3u32]) =~= seq![0int, 2, 1, 3]);
    assert(meaning::ints(seq![p.batch, p.sequence, p.num_heads, p.head_size]) =~= heads_shape(
        p,
        p.head_size as int,
    ));
    assert(meaning::ints(seq![p.batch, p.sequence, 1i64, p.half]) =~= seq![
        p.batch as int,
        p.sequence as int,
        1,
        p.half as int,
    ]);
    broadcast use meaning::lemma_holds_push;

    if p.rank4 {
        if p.positions is Some {
        } else {
        }
    } else {
        if p.positions is Some {
        } else {
        }
    }
}

// ---------------------------------------------------------------------------
// The node
// ---------------------------------------------------------------------------

/// The channels of a head: those of the last axis, or the hidden size over the
/// number of heads, or as many as are rotated.
pub open spec fn head_size(node: NodeV, shape: Seq<int>, half: int) -> int {
    let heads = node.int_attr("num_heads"@, 0);
    if shape.len() == 4 {
        shape[3]
    } else if heads > 0 {
        shape[2] / heads as int
    } else {
        2 * half
    }
}

/// What the parameters of a node are.
proof fn lemma_params(node: NodeV, name: Seq<char>, ctx: ContextV, x: Tensor, half: int)
    requires
        rnn::rotary_params(node, name, ctx) is Ok,
        ctx.shape(node.input[0]) matches Some(s) && meaning::ints(s) == x.shape,
        ctx.shape(
            node.input[if node.domain == "com.microsoft"@ {
                2
            } else {
                1
            }],
        ) matches Some(s) && s.last() == half,
    ensures
        ({
            let p = rnn::rotary_params(node, name, ctx)->Ok_0;
            let size = head_size(node, x.shape, half);
            &&& sized(p)
            &&& input_fits(x, p)
            &&& p.rank4 == (x.shape.len() == 4)
            &&& x.shape.len() == 3 || x.shape.len() == 4
            &&& p.half == half
            &&& p.head_size == size
            &&& meaning::ints(p.shape) == x.shape
            &&& p.interleaved == (node.int_attr("interleaved"@, 0) != 0)
        }),
{
    let p = rnn::rotary_params(node, name, ctx)->Ok_0;
    let s = ctx.shape(node.input[0])->0;
    assert(x.shape.len() == s.len());
    assert forall|i: int| 0 <= i < s.len() implies x.shape[i] == s[i] && #[trigger] s[i] > 0 by {}
    assert(s[0] > 0 && s[1] > 0 && s[2] > 0);
    if s.len() == 4 {
        assert(s[3] > 0);
        assert(x.shape =~= seq![
            p.batch as int,
            p.num_heads as int,
            p.sequence as int,
            p.head_size as int,
        ]);
    } else {
        let h = s[2] as int;
        let w = p.head_size as int;
        let a = node.int_attr("num_heads"@, 0) as int;
        if a > 0 {
            vstd::arithmetic::div_mod::lemma_fundamental_div_mod(h, a);
            assert(0 <= h / a <= h) by (nonlinear_arith)
                requires
                    h > 0,
                    a > 0,
            ;
        }
        assert(h % w == 0 && w > 0);
        vstd::arithmetic::div_mod::lemma_fundamental_div_mod(h, w);
        assert(0 <= h / w <= h) by (nonlinear_arith)
            requires
                h > 0,
                w > 0,
        ;
        assert(p.num_heads == h / w);
        assert(p.num_heads * w == h) by (nonlinear_arith)
            requires
                p.num_heads == h / w,
                h == w * (h / w) + h % w,
                h % w == 0,
        ;
        assert(p.num_heads > 0) by (nonlinear_arith)
            requires
                p.num_heads * w == h,
                h > 0,
                w > 0,
        ;
        assert(x.shape =~= seq![p.batch as int, p.sequence as int, p.num_heads * p.head_size]);
    }
}

/// The last steps put the heads where they were.
#[verifier::rlimit(40)]
proof fn lemma_restore(
    ops: Seq<OpV>,
    out: OperandV,
    output: Seq<char>,
    p: RotaryV,
    label: Seq<char>,
    m: Reading,
    b: int,
    t: int,
    n: int,
    d: int,
)
    requires
        ({
            let done = rnn::rotary_restore(ops, out, p, label);
            meaning::holds(
                ops::recorded(done, Some(output), label, builder::last_operand(done)),
                m,
            )
        }),
        sized(p),
        p.rank4 || meaning::ints(p.shape) == seq![
            p.batch as int,
            p.sequence as int,
            p.num_heads * p.head_size,
        ],
        0 <= b < p.batch,
        0 <= t < p.sequence,
        0 <= n < p.num_heads,
        0 <= d < p.head_size,
    ensures
        meaning::holds(ops, m),
        m.of(out).shape == heads_shape(p, p.head_size as int) ==> channel(
            m.name(output),
            p.head_size as int,
            b,
            t,
            n,
            d,
        ) == m.of(out).at4(b, t, n, d),
{
    let y = m.name(output);
    let r = m.of(out);
    let turn = seq![0int, 2, 1, 3];
    let shape = heads_shape(p, p.head_size as int);
    let i = seq![b, t, n, d];
    assert(meaning::naturals(seq![0u32, 2u32, 1u32, 3u32]) =~= turn);
    assert({
        &&& meaning::holds(ops, m)
        &&& y == if p.rank4 {
            meaning::transpose(r, turn)
        } else {
            meaning::reshape(r, meaning::ints(p.shape))
        }
    }) by {
        broadcast use meaning::lemma_holds_push;

    }
    if r.shape == shape {
        if p.rank4 {
            assert(turn[0] == 0 && turn[1] == 2 && turn[2] == 1 && turn[3] == 3);
            meaning::lemma_transpose(r, turn, i);
            assert(Seq::new(turn.len(), |a: int| i[turn[a]]) =~= seq![b, n, t, d]);
        } else {
            lemma_flat(p, b, t, n, d);
            meaning::lemma_reshape(
                r,
                meaning::ints(p.shape),
                seq![b, t, n * p.head_size + d],
                i,
            );
        }
    }
}

/// A lowered `RotaryEmbedding` node turns every head by the angles of its
/// position: channel `d` of head `n` at position `t` of batch `b`. The angles
/// are those of the rows that the positions name, or one row for each position.
#[verifier::rlimit(60)]
pub proof fn law_rotary_embedding(
    node: NodeV,
    name: Seq<char>,
    ctx: ContextV,
    ops: Seq<OpV>,
    m: Reading,
    half: int,
    b: int,
    t: int,
    n: int,
    d: int,
)
    requires
        rnn::rotary_outcome(node, name, ctx, ops).result is Ok,
        meaning::holds(rnn::rotary_outcome(node, name, ctx, ops).ops, m),
        node.output.len() > 0,
        node.output[0].len() > 0,
        ({
            let microsoft = node.domain == "com.microsoft"@;
            let x = m.name(node.input[0]);
            let cos = node.input[if microsoft {
                2
            } else {
                1
            }];
            let sin = node.input[if microsoft {
                3
            } else {
                2
            }];
            let positions = m.name_opt(
                if microsoft {
                    Some(node.input[1])
                } else {
                    node.input_at(3)
                },
            );
            let sequence = if x.shape.len() == 4 {
                x.shape[2]
            } else {
                x.shape[1]
            };
            let size = head_size(node, x.shape, half);
            &&& ctx.shape(node.input[0]) matches Some(s) && meaning::ints(s) == x.shape
            &&& ctx.shape(cos) matches Some(s) && s.last() == half
            &&& cache_fits(m.name(cos), positions, x.shape[0], sequence, half)
            &&& cache_fits(m.name(sin), positions, x.shape[0], sequence, half)
            &&& 0 <= b < x.shape[0]
            &&& 0 <= t < sequence
            &&& 0 <= n
            &&& 0 <= d < size
            &&& if x.shape.len() == 4 {
                n < x.shape[1]
            } else {
                (n + 1) * size <= x.shape[2]
            }
        }),
    ensures
        ({
            let microsoft = node.domain == "com.microsoft"@;
            let x = m.name(node.input[0]);
            let cos = m.name(
                node.input[if microsoft {
                    2
                } else {
                    1
                }],
            );
            let sin = m.name(
                node.input[if microsoft {
                    3
                } else {
                    2
                }],
            );
            let positions = m.name_opt(
                if microsoft {
                    Some(node.input[1])
                } else {
                    node.input_at(3)
                },
            );
            let size = head_size(node, x.shape, half);
            channel(m.name(node.output[0]), size, b, t, n, d) == rotation::rotated(
                |c: int| channel(x, size, b, t, n, c),
                cache_row(cos, positions, b, t),
                cache_row(sin, positions, b, t),
                half,
                node.int_attr("interleaved"@, 0) != 0,
                d,
            )
        }),
{
    let x = m.name(node.input[0]);
    lemma_params(node, name, ctx, x, half);
    let p = rnn::rotary_params(node, name, ctx)->Ok_0;
    let size = p.head_size as int;
    let label = node.label(name);
    let body = rnn::rotary_body(ops, p, label);
    let s = rnn::rotary_start(ops, p, label);
    let out = body.result->Ok_0;
    if !p.rank4 {
        assert(n < p.num_heads) by (nonlinear_arith)
            requires
                (n + 1) * size <= p.num_heads * size,
                size > 0,
        ;
    }
    lemma_restore(body.ops, out, node.output[0], p, label, m, b, t, n, d);
    lemma_body_front(ops, p, label, m);
    lemma_start(ops, p, label, m);
    lemma_body(ops, p, label, m, b, t, n, d);
    let positions = m.name_opt(p.positions);
    let cos = m.name(p.cos);
    let sin = m.name(p.sin);
    let rows = |cache: Tensor|
        match p.positions {
            Some(n) => meaning::gather(cache, m.name(n), 0),
            None => cache,
        };
    assert forall|c: int| 0 <= c < size implies #[trigger] m.of(s.x).at4(b, t, n, c) == channel(
        x,
        size,
        b,
        t,
        n,
        c,
    ) by {
        lemma_heads(x, p, b, t, n, c);
    }
    assert forall|j: int| 0 <= j < half implies #[trigger] m.of(s.cos).at4(b, t, 0, j) == cache_row(
        cos,
        positions,
        b,
        t,
    )(j) by {
        lemma_cache(
            cos,
            positions,
            rows(cos),
            p.batch as int,
            p.sequence as int,
            half,
            b,
            t,
            j,
        );
    }
    assert forall|j: int| 0 <= j < half implies #[trigger] m.of(s.sin).at4(b, t, 0, j) == cache_row(
        sin,
        positions,
        b,
        t,
    )(j) by {
        lemma_cache(
            sin,
            positions,
            rows(sin),
            p.batch as int,
            p.sequence as int,
            half,
            b,
            t,
            j,
        );
    }
    lemma_same_turn(
        |c: int| m.of(s.x).at4(b, t, n, c),
        |c: int| channel(x, size, b, t, n, c),
        |j: int| m.of(s.cos).at4(b, t, 0, j),
        cache_row(cos, positions, b, t),
        |j: int| m.of(s.sin).at4(b, t, 0, j),
        cache_row(sin, positions, b, t),
        half,
        size,
        p.interleaved,
        d,
    );
}

proof fn lemma_same_turn(
    x: spec_fn(int) -> real,
    y: spec_fn(int) -> real,
    cos: spec_fn(int) -> real,
    cos2: spec_fn(int) -> real,
    sin: spec_fn(int) -> real,
    sin2: spec_fn(int) -> real,
    half: int,
    size: int,
    interleaved: bool,
    d: int,
)
    requires
        0 <= d < size,
        0 < 2 * half <= size,
        forall|c: int| 0 <= c < size ==> #[trigger] x(c) == y(c),
        forall|j: int| 0 <= j < half ==> #[trigger] cos(j) == cos2(j),
        forall|j: int| 0 <= j < half ==> #[trigger] sin(j) == sin2(j),
    ensures
        rotation::rotated(x, cos, sin, half, interleaved, d) == rotation::rotated(
            y,
            cos2,
            sin2,
            half,
            interleaved,
            d,
        ),
{
}

} // verus!
