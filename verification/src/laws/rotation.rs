//! What lowered rotary embeddings compute.
use crate::builder;
use crate::builder::{BinaryOp, OpV, OperandV};
use crate::meaning;
use crate::meaning::{Reading, Tensor};
use crate::ops;
use crate::ops::attention;
use crate::ops::attention::GqaV;
use vstd::prelude::*;

verus! {

/// Channel `d` of a head whose first `2 * half` channels are rotated: pairs of
/// channels, neighbours or `half` apart, are turned by the angle with these
/// cosines and sines; the other channels stay.
pub open spec fn rotated(
    x: spec_fn(int) -> real,
    cos: spec_fn(int) -> real,
    sin: spec_fn(int) -> real,
    half: int,
    interleaved: bool,
    d: int,
) -> real {
    if d >= 2 * half {
        x(d)
    } else if interleaved {
        let j = d / 2;
        if d % 2 == 0 {
            x(d) * cos(j) - x(d + 1) * sin(j)
        } else {
            x(d - 1) * sin(j) + x(d) * cos(j)
        }
    } else if d < half {
        x(d) * cos(d) - x(d + half) * sin(d)
    } else {
        x(d - half) * sin(d - half) + x(d) * cos(d - half)
    }
}

// ---------------------------------------------------------------------------
// Pieces
// ---------------------------------------------------------------------------

/// Columns of a tensor, from `start` on.
pub proof fn lemma_columns(
    x: Tensor,
    starts: Seq<int>,
    sizes: Seq<int>,
    strides: Seq<int>,
    start: int,
    step: int,
    b: int,
    s: int,
    n: int,
    j: int,
)
    requires
        starts == seq![0int, 0, 0, start],
        sizes.len() == 4,
        strides == Seq::<int>::empty() && step == 1 || strides == seq![1int, 1, 1, step],
        step >= 1,
    ensures
        ({
            let y = meaning::slice(x, starts, sizes, strides);
            &&& y.shape == seq![sizes[0], sizes[1], sizes[2], (sizes[3] + step - 1) / step]
            &&& y.at4(b, s, n, j) == x.at4(b, s, n, start + j * step)
        }),
{
    let y = meaning::slice(x, starts, sizes, strides);
    assert(y.shape =~= seq![sizes[0], sizes[1], sizes[2], (sizes[3] + step - 1) / step]);
    let i = seq![b, s, n, j];
    assert(Seq::new(i.len(), |a: int| starts[a] + i[a] * meaning::stride_at(strides, a))
        =~= seq![b, s, n, start + j * step]) by {
        vstd::arithmetic::mul::lemma_mul_basics(b);
        vstd::arithmetic::mul::lemma_mul_basics(s);
        vstd::arithmetic::mul::lemma_mul_basics(n);
        vstd::arithmetic::mul::lemma_mul_basics(j);
        assert(meaning::stride_at(strides, 0) == 1 && meaning::stride_at(strides, 1) == 1
            && meaning::stride_at(strides, 2) == 1 && meaning::stride_at(strides, 3) == step);
    }
}

/// The two results of a rotation. Cosines and sines are the same for all heads
/// and, where they have one batch, for all batches.
#[verifier::rlimit(40)]
pub proof fn lemma_rotation(
    ops: Seq<OpV>,
    x1: OperandV,
    x2: OperandV,
    cos: OperandV,
    sin: OperandV,
    m: Reading,
    shape: Seq<int>,
    batches: int,
)
    requires
        meaning::holds(attention::rotation_steps(ops, x1, x2, cos, sin), m),
        shape.len() == 4,
        batches == 1 || batches == shape[0],
        m.of(x1).shape == shape,
        m.of(x2).shape == shape,
        m.of(cos).shape == seq![batches, shape[1], 1, shape[3]],
        m.of(sin).shape == seq![batches, shape[1], 1, shape[3]],
    ensures
        meaning::holds(ops, m),
        ({
            let done = attention::rotation_steps(ops, x1, x2, cos, sin);
            let re = m.of(attention::rotation_real(done));
            let im = m.of(builder::last_operand(done));
            &&& re.shape == shape
            &&& im.shape == shape
            &&& forall|b: int, s: int, n: int, j: int|
                meaning::valid(seq![b, s, n, j], shape) ==> #[trigger] re.at4(b, s, n, j)
                    == m.of(x1).at4(b, s, n, j) * spread(m.of(cos), batches, b, s, j) - m.of(
                    x2,
                ).at4(b, s, n, j) * spread(m.of(sin), batches, b, s, j)
            &&& forall|b: int, s: int, n: int, j: int|
                meaning::valid(seq![b, s, n, j], shape) ==> #[trigger] im.at4(b, s, n, j)
                    == m.of(x1).at4(b, s, n, j) * spread(m.of(sin), batches, b, s, j) + m.of(
                    x2,
                ).at4(b, s, n, j) * spread(m.of(cos), batches, b, s, j)
        }),
{
    let z = ops.len() as int;
    let y1 = m.of(OperandV { step: z, output: 0 });
    let y2 = m.of(OperandV { step: z + 1, output: 0 });
    let re = m.of(OperandV { step: z + 2, output: 0 });
    let y4 = m.of(OperandV { step: z + 3, output: 0 });
    let y5 = m.of(OperandV { step: z + 4, output: 0 });
    let im = m.of(OperandV { step: z + 5, output: 0 });
    assert({
        &&& meaning::holds(ops, m)
        &&& y1 == meaning::elementwise(BinaryOp::Mul, m.of(x1), m.of(cos))
        &&& y2 == meaning::elementwise(BinaryOp::Mul, m.of(x2), m.of(sin))
        &&& re == meaning::elementwise(BinaryOp::Sub, y1, y2)
        &&& y4 == meaning::elementwise(BinaryOp::Mul, m.of(x1), m.of(sin))
        &&& y5 == meaning::elementwise(BinaryOp::Mul, m.of(x2), m.of(cos))
        &&& im == meaning::elementwise(BinaryOp::Add, y4, y5)
    }) by {
        broadcast use meaning::lemma_holds_push;

    }
    let low = seq![batches, shape[1], 1, shape[3]];
    assert(meaning::joint_shape(shape, low) =~= shape);
    assert(meaning::joint_shape(shape, shape) =~= shape);
    let done = attention::rotation_steps(ops, x1, x2, cos, sin);
    assert(attention::rotation_real(done) == OperandV { step: z + 2, output: 0 });
    assert forall|b: int, s: int, n: int, j: int|
        meaning::valid(seq![b, s, n, j], shape) implies #[trigger] re.at4(b, s, n, j) == m.of(
        x1,
    ).at4(b, s, n, j) * spread(m.of(cos), batches, b, s, j) - m.of(x2).at4(b, s, n, j) * spread(
        m.of(sin),
        batches,
        b,
        s,
        j,
    ) by {
        lemma_spread(shape, batches, b, s, n, j);
    }
    assert forall|b: int, s: int, n: int, j: int|
        meaning::valid(seq![b, s, n, j], shape) implies #[trigger] im.at4(b, s, n, j) == m.of(
        x1,
    ).at4(b, s, n, j) * spread(m.of(sin), batches, b, s, j) + m.of(x2).at4(b, s, n, j) * spread(
        m.of(cos),
        batches,
        b,
        s,
        j,
    ) by {
        lemma_spread(shape, batches, b, s, n, j);
    }
}

/// The cosine or sine of a position and column.
pub open spec fn spread(x: Tensor, batches: int, b: int, s: int, j: int) -> real {
    x.at4(
        if batches == 1 {
            0
        } else {
            b
        },
        s,
        0,
        j,
    )
}

proof fn lemma_spread(shape: Seq<int>, batches: int, b: int, s: int, n: int, j: int)
    requires
        shape.len() == 4,
        batches == 1 || batches == shape[0],
        meaning::valid(seq![b, s, n, j], shape),
    ensures
        meaning::aligned(seq![b, s, n, j], shape) == seq![b, s, n, j],
        meaning::aligned(seq![b, s, n, j], seq![batches, shape[1], 1, shape[3]]) == seq![
            if batches == 1 {
                0
            } else {
                b
            },
            s,
            0int,
            j,
        ],
{
    let i = seq![b, s, n, j];
    meaning::lemma_aligned(i, shape);
    assert(i[0] == b && i[1] == s && i[2] == n && i[3] == j);
    assert(meaning::aligned(i, seq![batches, shape[1], 1, shape[3]]) =~= seq![
        if batches == 1 {
            0
        } else {
            b
        },
        s,
        0int,
        j,
    ]);
}

/// Two components put side by side.
pub proof fn lemma_interleave(
    re: Tensor,
    im: Tensor,
    shape: Seq<int>,
    parts: Seq<Tensor>,
    b: int,
    s: int,
    n: int,
    d: int,
)
    requires
        shape.len() == 4,
        re.shape == shape,
        im.shape == shape,
        parts == seq![
            meaning::reshape(re, seq![shape[0], shape[1], shape[2], shape[3], 1]),
            meaning::reshape(im, seq![shape[0], shape[1], shape[2], shape[3], 1]),
        ],
        meaning::valid(seq![b, s, n, d], seq![shape[0], shape[1], shape[2], 2 * shape[3]]),
    ensures
        meaning::reshape(
            meaning::concat(parts, 4),
            seq![shape[0], shape[1], shape[2], 2 * shape[3]],
        ).at4(b, s, n, d) == if d % 2 == 0 {
            re.at4(b, s, n, d / 2)
        } else {
            im.at4(b, s, n, d / 2)
        },
{
    let out = seq![shape[0], shape[1], shape[2], 2 * shape[3]];
    let i = seq![b, s, n, d];
    assert(i[0] == b && i[1] == s && i[2] == n && i[3] == d);
    let deep = seq![shape[0], shape[1], shape[2], shape[3], 1];
    let pair = meaning::concat(parts, 4);
    let at = seq![b, s, n, d / 2, d % 2];
    meaning::lemma_concat(parts, 4, at);
    assert(pair.shape =~= seq![shape[0], shape[1], shape[2], shape[3], 2]);
    assert(at.update(4, d % 2 - 1) =~= seq![b, s, n, d / 2, d % 2 - 1]);
    let src = seq![b, s, n, d / 2];
    assert(meaning::valid(src, shape));
    let one = seq![b, s, n, d / 2, 0int];
    meaning::lemma_place_5(one, deep);
    meaning::lemma_place_4(src, shape);
    let z = ((b * shape[1] + s) * shape[2] + n) * shape[3] + d / 2;
    assert(z * 1 + 0 == z);
    meaning::lemma_reshape(re, deep, one, src);
    meaning::lemma_reshape(im, deep, one, src);
    assert(meaning::valid(at, pair.shape));
    meaning::lemma_place_5(at, pair.shape);
    meaning::lemma_place_4(i, out);
    let y = (b * shape[1] + s) * shape[2] + n;
    assert((y * shape[3] + d / 2) * 2 + d % 2 == y * (2 * shape[3]) + d) by (nonlinear_arith);
    meaning::lemma_reshape(pair, out, i, at);
}

// ---------------------------------------------------------------------------
// Rotation of queries and keys
// ---------------------------------------------------------------------------

/// The rows of the caches for the new positions.
#[verifier::rlimit(40)]
proof fn lemma_cache_rows(
    ops: Seq<OpV>,
    cos: OperandV,
    sin: OperandV,
    p: GqaV,
    half: i64,
    label: Seq<char>,
    m: Reading,
)
    requires
        meaning::holds(attention::cache_rows_steps(ops, cos, sin, p, half, label), m),
        0 <= p.past_seq <= u32::MAX,
        p.seq > 0,
        half > 0,
    ensures
        meaning::holds(ops, m),
        ({
            let rows = attention::cache_rows_steps(ops, cos, sin, p, half, label);
            let c = m.of(attention::second_last(rows));
            let k = m.of(builder::last_operand(rows));
            &&& c.shape == seq![1int, p.seq as int, 1, half as int]
            &&& k.shape == seq![1int, p.seq as int, 1, half as int]
            &&& forall|s: int, j: int|
                0 <= s < p.seq && 0 <= j < half ==> #[trigger] c.at4(0, s, 0, j) == m.of(cos).at2(
                    p.past_seq + s,
                    j,
                )
            &&& forall|s: int, j: int|
                0 <= s < p.seq && 0 <= j < half ==> #[trigger] k.at4(0, s, 0, j) == m.of(sin).at2(
                    p.past_seq + s,
                    j,
                )
        }),
{
    let n = ops.len() as int;
    let c1 = m.of(OperandV { step: n, output: 0 });
    let k1 = m.of(OperandV { step: n + 1, output: 0 });
    let c = m.of(OperandV { step: n + 2, output: 0 });
    let k = m.of(OperandV { step: n + 3, output: 0 });
    let starts = seq![p.past_seq as int, 0];
    let sizes = seq![p.seq as int, half as int];
    let none = Seq::<int>::empty();
    let deep = seq![1int, p.seq as int, 1, half as int];
    assert(meaning::naturals(seq![p.past_seq as u32, 0u32]) =~= starts);
    assert(meaning::ints(seq![p.seq, half]) =~= sizes);
    assert(meaning::naturals(seq![]) =~= none);
    assert(meaning::ints(seq![1i64, p.seq, 1i64, half]) =~= deep);
    assert({
        &&& meaning::holds(ops, m)
        &&& c1 == meaning::slice(m.of(cos), starts, sizes, none)
        &&& k1 == meaning::slice(m.of(sin), starts, sizes, none)
        &&& c == meaning::reshape(c1, deep)
        &&& k == meaning::reshape(k1, deep)
    }) by {
        broadcast use meaning::lemma_holds_push;

    }
    assert forall|s: int, j: int| 0 <= s < p.seq && 0 <= j < half implies #[trigger] c.at4(
        0,
        s,
        0,
        j,
    ) == m.of(cos).at2(p.past_seq + s, j) by {
        lemma_cache_row(m.of(cos), starts, sizes, s, j);
    }
    assert forall|s: int, j: int| 0 <= s < p.seq && 0 <= j < half implies #[trigger] k.at4(
        0,
        s,
        0,
        j,
    ) == m.of(sin).at2(p.past_seq + s, j) by {
        lemma_cache_row(m.of(sin), starts, sizes, s, j);
    }
}

proof fn lemma_cache_row(x: Tensor, starts: Seq<int>, sizes: Seq<int>, s: int, j: int)
    requires
        starts.len() == 2,
        starts[1] == 0,
        sizes.len() == 2,
        0 <= s < sizes[0],
        0 <= j < sizes[1],
    ensures
        meaning::reshape(
            meaning::slice(x, starts, sizes, Seq::<int>::empty()),
            seq![1int, sizes[0], 1, sizes[1]],
        ).at4(0, s, 0, j) == x.at2(starts[0] + s, j),
{
    let none = Seq::<int>::empty();
    let y = meaning::slice(x, starts, sizes, none);
    let deep = seq![1int, sizes[0], 1, sizes[1]];
    assert(y.shape =~= sizes);
    let i = seq![s, j];
    assert(Seq::new(i.len(), |a: int| starts[a] + i[a] * meaning::stride_at(none, a)) =~= seq![
        starts[0] + s,
        j,
    ]);
    meaning::lemma_place_2(i, sizes);
    meaning::lemma_place_4(seq![0int, s, 0, j], deep);
    assert(((0 * sizes[0] + s) * 1 + 0) * sizes[1] + j == s * sizes[1] + j) by (nonlinear_arith);
    assert(meaning::valid(i, sizes));
    meaning::lemma_reshape(y, deep, seq![0int, s, 0, j], i);
}

/// The two components that are rotated together.
#[verifier::rlimit(40)]
proof fn lemma_components(
    ops: Seq<OpV>,
    x: OperandV,
    p: GqaV,
    heads: i64,
    half: i64,
    label: Seq<char>,
    m: Reading,
)
    requires
        meaning::holds(attention::components_steps(ops, x, p, heads, half, label), m),
        0 < half <= u32::MAX,
    ensures
        meaning::holds(ops, m),
        ({
            let parts = attention::components_steps(ops, x, p, heads, half, label);
            let x1 = m.of(attention::second_last(parts));
            let x2 = m.of(builder::last_operand(parts));
            let shape = seq![p.batch as int, p.seq as int, heads as int, half as int];
            &&& x1.shape == shape
            &&& x2.shape == shape
            &&& forall|b: int, s: int, n: int, j: int| #[trigger]
                x1.at4(b, s, n, j) == m.of(x).at4(
                    b,
                    s,
                    n,
                    if p.interleaved {
                        2 * j
                    } else {
                        j
                    },
                )
            &&& forall|b: int, s: int, n: int, j: int| #[trigger]
                x2.at4(b, s, n, j) == m.of(x).at4(
                    b,
                    s,
                    n,
                    if p.interleaved {
                        2 * j + 1
                    } else {
                        half + j
                    },
                )
        }),
{
    let n = ops.len() as int;
    let x1 = m.of(OperandV { step: n, output: 0 });
    let x2 = m.of(OperandV { step: n + 1, output: 0 });
    let v = m.of(x);
    let width = (half * 2) as i64;
    let none = Seq::<int>::empty();
    let zero = seq![0int, 0, 0, 0];
    assert(meaning::naturals(seq![0u32, 0u32, 0u32, 0u32]) =~= zero);
    assert(meaning::naturals(seq![]) =~= none);
    let two = seq![1int, 1, 1, 2];
    assert(meaning::naturals(seq![1u32, 1u32, 1u32, 2u32]) =~= two);
    if p.interleaved {
        let sa = meaning::ints(seq![p.batch, p.seq, heads, width]);
        let sb = meaning::ints(seq![p.batch, p.seq, heads, (width - 1) as i64]);
        let one = seq![0int, 0, 0, 1];
        assert(meaning::naturals(seq![0u32, 0u32, 0u32, 1u32]) =~= one);
        assert({
            &&& meaning::holds(ops, m)
            &&& x1 == meaning::slice(v, zero, sa, two)
            &&& x2 == meaning::slice(v, one, sb, two)
        }) by {
            broadcast use meaning::lemma_holds_push;

        }
        lemma_columns(v, zero, sa, two, 0, 2, 0, 0, 0, 0);
        lemma_columns(v, one, sb, two, 1, 2, 0, 0, 0, 0);
        assert forall|b: int, s: int, n: int, j: int| #[trigger]
            x1.at4(b, s, n, j) == v.at4(b, s, n, 2 * j) by {
            lemma_columns(v, zero, sa, two, 0, 2, b, s, n, j);
        }
        assert forall|b: int, s: int, n: int, j: int| #[trigger]
            x2.at4(b, s, n, j) == v.at4(b, s, n, 2 * j + 1) by {
            lemma_columns(v, one, sb, two, 1, 2, b, s, n, j);
        }
    } else {
        let sa = meaning::ints(seq![p.batch, p.seq, heads, half]);
        let mid = seq![0int, 0, 0, half as int];
        assert(meaning::naturals(seq![0u32, 0u32, 0u32, half as u32]) =~= mid);
        assert({
            &&& meaning::holds(ops, m)
            &&& x1 == meaning::slice(v, zero, sa, none)
            &&& x2 == meaning::slice(v, mid, sa, none)
        }) by {
            broadcast use meaning::lemma_holds_push;

        }
        lemma_columns(v, zero, sa, none, 0, 1, 0, 0, 0, 0);
        lemma_columns(v, mid, sa, none, half as int, 1, 0, 0, 0, 0);
        assert forall|b: int, s: int, n: int, j: int| #[trigger]
            x1.at4(b, s, n, j) == v.at4(b, s, n, j) by {
            lemma_columns(v, zero, sa, none, 0, 1, b, s, n, j);
        }
        assert forall|b: int, s: int, n: int, j: int| #[trigger]
            x2.at4(b, s, n, j) == v.at4(b, s, n, half + j) by {
            lemma_columns(v, mid, sa, none, half as int, 1, b, s, n, j);
        }
    }
}

/// Where column `d` of two components joined comes from.
pub open spec fn joined(re: Tensor, im: Tensor, half: int, interleaved: bool, b: int, s: int, n: int, d: int) -> real {
    if interleaved {
        if d % 2 == 0 {
            re.at4(b, s, n, d / 2)
        } else {
            im.at4(b, s, n, d / 2)
        }
    } else if d < half {
        re.at4(b, s, n, d)
    } else {
        im.at4(b, s, n, d - half)
    }
}

/// Two halves one behind the other.
pub proof fn lemma_halves(
    re: Tensor,
    im: Tensor,
    shape: Seq<int>,
    parts: Seq<Tensor>,
    b: int,
    s: int,
    n: int,
    d: int,
)
    requires
        shape.len() == 4,
        re.shape == shape,
        im.shape.len() == 4,
        parts == seq![re, im],
        0 <= d < shape[3] + im.shape[3],
    ensures
        meaning::concat(parts, 3).shape == seq![
            shape[0],
            shape[1],
            shape[2],
            shape[3] + im.shape[3],
        ],
        meaning::concat(parts, 3).at4(b, s, n, d) == if d < shape[3] {
            re.at4(b, s, n, d)
        } else {
            im.at4(b, s, n, d - shape[3])
        },
{
    let i = seq![b, s, n, d];
    meaning::lemma_concat(parts, 3, i);
    assert(i.update(3, d - shape[3]) =~= seq![b, s, n, d - shape[3]]);
    assert(meaning::concat(parts, 3).shape =~= seq![
        shape[0],
        shape[1],
        shape[2],
        shape[3] + im.shape[3],
    ]);
}

#[verifier::rlimit(40)]
proof fn lemma_join(
    ops: Seq<OpV>,
    re: OperandV,
    im: OperandV,
    p: GqaV,
    heads: i64,
    half: i64,
    label: Seq<char>,
    m: Reading,
)
    requires
        meaning::holds(attention::join_steps(ops, re, im, p, heads, half, label), m),
        p.batch > 0,
        p.seq > 0,
        heads > 0,
        0 < half <= u32::MAX,
        m.of(re).shape == seq![p.batch as int, p.seq as int, heads as int, half as int],
        m.of(im).shape == seq![p.batch as int, p.seq as int, heads as int, half as int],
    ensures
        meaning::holds(ops, m),
        ({
            let r = m.of(
                builder::last_operand(
                    attention::join_steps(ops, re, im, p, heads, half, label),
                ),
            );
            let out = seq![p.batch as int, p.seq as int, heads as int, 2 * half];
            &&& r.shape == out
            &&& forall|b: int, s: int, n: int, d: int|
                meaning::valid(seq![b, s, n, d], out) ==> #[trigger] r.at4(b, s, n, d) == joined(
                    m.of(re),
                    m.of(im),
                    half as int,
                    p.interleaved,
                    b,
                    s,
                    n,
                    d,
                )
        }),
{
    let z = ops.len() as int;
    let done = attention::join_steps(ops, re, im, p, heads, half, label);
    let r = m.of(builder::last_operand(done));
    let shape = seq![p.batch as int, p.seq as int, heads as int, half as int];
    let out = seq![p.batch as int, p.seq as int, heads as int, 2 * half];
    let x = m.of(re);
    let y = m.of(im);
    if p.interleaved {
        let deep = seq![shape[0], shape[1], shape[2], shape[3], 1];
        let x1 = m.of(OperandV { step: z, output: 0 });
        let y1 = m.of(OperandV { step: z + 1, output: 0 });
        let pair = m.of(OperandV { step: z + 2, output: 0 });
        let parts = m.all(
            seq![OperandV { step: z, output: 0 }, OperandV { step: z + 1, output: 0 }],
        );
        assert(meaning::ints(seq![p.batch, p.seq, heads, half, 1i64]) =~= deep);
        assert(meaning::ints(seq![p.batch, p.seq, heads, (half * 2) as i64]) =~= out);
        assert({
            &&& meaning::holds(ops, m)
            &&& x1 == meaning::reshape(x, deep)
            &&& y1 == meaning::reshape(y, deep)
            &&& pair == meaning::concat(parts, 4)
            &&& r == meaning::reshape(pair, out)
        }) by {
            broadcast use meaning::lemma_holds_push;

        }
        assert(parts =~= seq![x1, y1]);
        assert forall|b: int, s: int, n: int, d: int|
            meaning::valid(seq![b, s, n, d], out) implies #[trigger] r.at4(b, s, n, d) == joined(
            x,
            y,
            half as int,
            true,
            b,
            s,
            n,
            d,
        ) by {
            lemma_interleave(x, y, shape, parts, b, s, n, d);
        }
    } else {
        let parts = m.all(seq![re, im]);
        assert({
            &&& meaning::holds(ops, m)
            &&& r == meaning::concat(parts, 3)
        }) by {
            broadcast use meaning::lemma_holds_push;

        }
        assert(parts =~= seq![x, y]);
        lemma_halves(x, y, shape, parts, 0, 0, 0, 0);
        assert(r.shape =~= out);
        assert forall|b: int, s: int, n: int, d: int|
            meaning::valid(seq![b, s, n, d], out) implies #[trigger] r.at4(b, s, n, d) == joined(
            x,
            y,
            half as int,
            false,
            b,
            s,
            n,
            d,
        ) by {
            let i = seq![b, s, n, d];
            assert(0 <= i[3] < out[3]);
            lemma_halves(x, y, shape, parts, b, s, n, d);
        }
    }
}

/// Rotated components joined are the rotated channels.
pub proof fn lemma_turned(
    x: Tensor,
    x1: Tensor,
    x2: Tensor,
    re: Tensor,
    im: Tensor,
    cos: spec_fn(int) -> real,
    sin: spec_fn(int) -> real,
    half: int,
    interleaved: bool,
    b: int,
    s: int,
    n: int,
    d: int,
)
    requires
        0 <= d < 2 * half,
        ({
            let j = if interleaved {
                d / 2
            } else if d < half {
                d
            } else {
                d - half
            };
            &&& x1.at4(b, s, n, j) == x.at4(
                b,
                s,
                n,
                if interleaved {
                    2 * j
                } else {
                    j
                },
            )
            &&& x2.at4(b, s, n, j) == x.at4(
                b,
                s,
                n,
                if interleaved {
                    2 * j + 1
                } else {
                    half + j
                },
            )
            &&& re.at4(b, s, n, j) == x1.at4(b, s, n, j) * cos(j) - x2.at4(b, s, n, j) * sin(j)
            &&& im.at4(b, s, n, j) == x1.at4(b, s, n, j) * sin(j) + x2.at4(b, s, n, j) * cos(j)
        }),
    ensures
        joined(re, im, half, interleaved, b, s, n, d) == rotated(
            |c: int| x.at4(b, s, n, c),
            cos,
            sin,
            half,
            interleaved,
            d,
        ),
{
}

/// `x` (`[B, S, heads, Dh]`) with its heads rotated by the rows of the caches
/// for the new positions, which follow the cached ones.
#[verifier::rlimit(60)]
pub proof fn law_heads_are_rotated(
    ops: Seq<OpV>,
    x: OperandV,
    cos: OperandV,
    sin: OperandV,
    p: GqaV,
    heads: i64,
    half: i64,
    label: Seq<char>,
    m: Reading,
)
    requires
        meaning::holds(attention::rotary_steps(ops, x, cos, sin, p, heads, half, label), m),
        p.batch > 0,
        p.seq > 0,
        heads > 0,
        0 <= p.past_seq <= u32::MAX,
        0 < 2 * half <= p.head_dim <= u32::MAX,
        m.of(x).shape == seq![p.batch as int, p.seq as int, heads as int, p.head_dim as int],
    ensures
        meaning::holds(ops, m),
        ({
            let r = m.of(
                builder::last_operand(
                    attention::rotary_steps(ops, x, cos, sin, p, heads, half, label),
                ),
            );
            &&& r.shape == m.of(x).shape
            &&& forall|b: int, s: int, n: int, d: int|
                meaning::valid(seq![b, s, n, d], m.of(x).shape) ==> #[trigger] r.at4(b, s, n, d)
                    == rotated(
                    |c: int| m.of(x).at4(b, s, n, c),
                    |j: int| m.of(cos).at2(p.past_seq + s, j),
                    |j: int| m.of(sin).at2(p.past_seq + s, j),
                    half as int,
                    p.interleaved,
                    d,
                )
        }),
{
    let v = m.of(x);
    let width = (half * 2) as i64;
    let none = Seq::<int>::empty();
    let zero = seq![0int, 0, 0, 0];
    let partial = width < p.head_dim;
    let rows = attention::cache_rows_steps(ops, cos, sin, p, half, label);
    let taken = if partial {
        rows.push(
            attention::slice_op(
                x,
                seq![0, 0, 0, 0],
                seq![p.batch, p.seq, heads, width],
                seq![],
                label + "_rotate"@,
            ),
        )
    } else {
        rows
    };
    let x_rotate = if partial {
        builder::last_operand(taken)
    } else {
        x
    };
    let parts = attention::components_steps(taken, x_rotate, p, heads, half, label);
    let turned = attention::rotation_steps(
        parts,
        attention::second_last(parts),
        builder::last_operand(parts),
        attention::second_last(rows),
        builder::last_operand(rows),
    );
    let joint = attention::join_steps(
        turned,
        attention::rotation_real(turned),
        builder::last_operand(turned),
        p,
        heads,
        half,
        label,
    );
    let done = attention::rotary_steps(ops, x, cos, sin, p, heads, half, label);
    let r = m.of(builder::last_operand(done));
    let core = m.of(builder::last_operand(joint));
    let z = joint.len() as int;
    let tail = m.of(OperandV { step: z, output: 0 });
    let ends = m.all(seq![builder::last_operand(joint), OperandV { step: z, output: 0 }]);
    let start = seq![0int, 0, 0, width as int];
    assert(meaning::naturals(seq![0u32, 0u32, 0u32, width as u32]) =~= start);
    assert(meaning::naturals(seq![0u32, 0u32, 0u32, 0u32]) =~= zero);
    assert(meaning::naturals(seq![]) =~= none);
    let rest = meaning::ints(seq![p.batch, p.seq, heads, (p.head_dim - width) as i64]);
    let front = meaning::ints(seq![p.batch, p.seq, heads, width]);
    if partial {
        let cut = attention::slice_op(
            x,
            seq![0, 0, 0, width as u32],
            seq![p.batch, p.seq, heads, (p.head_dim - width) as i64],
            seq![],
            label + "_tail"@,
        );
        let both = OpV::Concat {
            inputs: seq![builder::last_operand(joint), builder::last_operand(joint.push(cut))],
            axis: 3,
            label: seq![],
        };
        assert(done == joint.push(cut).push(both));
        meaning::lemma_holds_push(joint.push(cut), both, m);
        meaning::lemma_holds_push(joint, cut, m);
        assert(tail == meaning::slice(v, start, rest, none));
        assert(r == meaning::concat(ends, 3));
    } else {
        assert(done == joint);
    }
    let shape = seq![p.batch as int, p.seq as int, heads as int, half as int];
    let out = seq![p.batch as int, p.seq as int, heads as int, 2 * half];
    // From the end of the plan to its start.
    lemma_join_front(turned, p, heads, half, label, m);
    lemma_rotation_front(
        parts,
        attention::second_last(parts),
        builder::last_operand(parts),
        attention::second_last(rows),
        builder::last_operand(rows),
        m,
    );
    lemma_components(taken, x_rotate, p, heads, half, label, m);
    let xr = m.of(x_rotate);
    if partial {
        meaning::lemma_holds_push(
            rows,
            attention::slice_op(
                x,
                seq![0, 0, 0, 0],
                seq![p.batch, p.seq, heads, width],
                seq![],
                label + "_rotate"@,
            ),
            m,
        );
        assert(xr == meaning::slice(v, zero, front, none));
    }
    lemma_cache_rows(ops, cos, sin, p, half, label, m);
    let x1 = m.of(attention::second_last(parts));
    let x2 = m.of(builder::last_operand(parts));
    let c = m.of(attention::second_last(rows));
    let k = m.of(builder::last_operand(rows));
    lemma_rotation(
        parts,
        attention::second_last(parts),
        builder::last_operand(parts),
        attention::second_last(rows),
        builder::last_operand(rows),
        m,
        shape,
        1,
    );
    let re = m.of(attention::rotation_real(turned));
    let im = m.of(builder::last_operand(turned));
    lemma_join(
        turned,
        attention::rotation_real(turned),
        builder::last_operand(turned),
        p,
        heads,
        half,
        label,
        m,
    );
    assert forall|b: int, s: int, n: int, d: int|
        meaning::valid(seq![b, s, n, d], out) implies #[trigger] core.at4(b, s, n, d) == rotated(
        |e: int| v.at4(b, s, n, e),
        |j: int| m.of(cos).at2(p.past_seq + s, j),
        |j: int| m.of(sin).at2(p.past_seq + s, j),
        half as int,
        p.interleaved,
        d,
    ) by {
        let i = seq![b, s, n, d];
        assert(i[0] == b && i[1] == s && i[2] == n && i[3] == d);
        let j = if p.interleaved {
            d / 2
        } else if d < half {
            d
        } else {
            d - half
        };
        let cosines = |j: int| m.of(cos).at2(p.past_seq + s, j);
        let sines = |j: int| m.of(sin).at2(p.past_seq + s, j);
        assert(meaning::valid(seq![b, s, n, j], shape));
        assert(c.at4(0, s, 0, j) == cosines(j));
        assert(k.at4(0, s, 0, j) == sines(j));
        assert(re.at4(b, s, n, j) == x1.at4(b, s, n, j) * cosines(j) - x2.at4(b, s, n, j) * sines(
            j,
        ));
        assert(im.at4(b, s, n, j) == x1.at4(b, s, n, j) * sines(j) + x2.at4(b, s, n, j) * cosines(
            j,
        ));
        let e1 = if p.interleaved {
            2 * j
        } else {
            j
        };
        let e2 = if p.interleaved {
            2 * j + 1
        } else {
            half + j
        };
        if partial {
            lemma_columns(v, zero, front, none, 0, 1, b, s, n, e1);
            lemma_columns(v, zero, front, none, 0, 1, b, s, n, e2);
        }
        assert(x1.at4(b, s, n, j) == v.at4(b, s, n, e1));
        assert(x2.at4(b, s, n, j) == v.at4(b, s, n, e2));
        lemma_turned(
            v,
            x1,
            x2,
            re,
            im,
            cosines,
            sines,
            half as int,
            p.interleaved,
            b,
            s,
            n,
            d,
        );
    }
    if partial {
        assert(ends =~= seq![core, tail]);
        lemma_columns(v, start, rest, none, width as int, 1, 0, 0, 0, 0);
        lemma_halves(core, tail, out, ends, 0, 0, 0, 0);
        assert(r.shape =~= v.shape);
        assert forall|b: int, s: int, n: int, d: int|
            meaning::valid(seq![b, s, n, d], v.shape) implies #[trigger] r.at4(b, s, n, d)
            == rotated(
            |e: int| v.at4(b, s, n, e),
            |j: int| m.of(cos).at2(p.past_seq + s, j),
            |j: int| m.of(sin).at2(p.past_seq + s, j),
            half as int,
            p.interleaved,
            d,
        ) by {
            let i = seq![b, s, n, d];
            assert(i[0] == b && i[1] == s && i[2] == n && i[3] == d);
            lemma_halves(core, tail, out, ends, b, s, n, d);
            if d < width {
                assert(meaning::valid(i, out));
            } else {
                lemma_columns(v, start, rest, none, width as int, 1, b, s, n, d - width);
            }
        }
    } else {
        assert(out =~= v.shape);
    }
}

/// Plans that were added to begin with what was there.
#[verifier::rlimit(40)]
proof fn lemma_join_front(
    turned: Seq<OpV>,
    p: GqaV,
    heads: i64,
    half: i64,
    label: Seq<char>,
    m: Reading,
)
    requires
        meaning::holds(
            attention::join_steps(
                turned,
                attention::rotation_real(turned),
                builder::last_operand(turned),
                p,
                heads,
                half,
                label,
            ),
            m,
        ),
    ensures
        meaning::holds(turned, m),
{
    broadcast use meaning::lemma_holds_push;

}

#[verifier::rlimit(40)]
pub proof fn lemma_rotation_front(
    ops: Seq<OpV>,
    x1: OperandV,
    x2: OperandV,
    cos: OperandV,
    sin: OperandV,
    m: Reading,
)
    requires
        meaning::holds(attention::rotation_steps(ops, x1, x2, cos, sin), m),
    ensures
        meaning::holds(ops, m),
{
    broadcast use meaning::lemma_holds_push;

}

} // verus!
