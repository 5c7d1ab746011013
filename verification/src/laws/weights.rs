//! What lowered products with quantized weights compute.
use crate::builder;
use crate::builder::{BinaryOp, ConstDataV, OpV, OperandV};
use crate::bytes;
use crate::context::ContextV;
use crate::meaning;
use crate::meaning::{Reading, Tensor};
use crate::ops;
use crate::ops::matmul;
use crate::ops::matmul::BnbV;
use crate::protos::NodeV;
use crate::types::DataType;
use vstd::prelude::*;

verus! {

// ---------------------------------------------------------------------------
// Products with a matrix
// ---------------------------------------------------------------------------

/// `y` is the product of `x` with the matrix `w`, given by rows and columns,
/// which has `k` rows and `n` columns.
pub open spec fn is_product(
    y: Tensor,
    x: Tensor,
    k: int,
    n: int,
    w: spec_fn(int, int) -> real,
) -> bool {
    let last = x.shape.len() - 1;
    &&& y.shape == x.shape.update(last, n)
    &&& forall|i: Seq<int>|
        meaning::valid(i, y.shape) ==> #[trigger] (y.at)(i) == meaning::sum(
            k,
            |t: int| (x.at)(i.update(last, t)) * w(t, i[last]),
        )
}

pub proof fn lemma_product(x: Tensor, w: Tensor, k: int, n: int, f: spec_fn(int, int) -> real)
    requires
        x.shape.len() >= 2,
        x.shape.last() == k,
        w.shape == seq![k, n],
        forall|a: int, b: int| 0 <= a < k && 0 <= b < n ==> #[trigger] w.at2(a, b) == f(a, b),
    ensures
        is_product(meaning::matmul(x, w), x, k, n, f),
{
    let y = meaning::matmul(x, w);
    let rank = x.shape.len() as int;
    let front = x.shape.take(rank - 2);
    let none = w.shape.take(0);
    assert(meaning::joint_shape(front, none) =~= front);
    assert(y.shape =~= x.shape.update(rank - 1, n));
    assert forall|i: Seq<int>| meaning::valid(i, y.shape) implies #[trigger] (y.at)(i)
        == meaning::sum(k, |t: int| (x.at)(i.update(rank - 1, t)) * f(t, i[rank - 1])) by {
        let lead = i.take(rank - 2);
        assert forall|a: int| 0 <= a < lead.len() implies 0 <= #[trigger] lead[a] < front[a] by {
            assert(lead[a] == i[a]);
        }
        meaning::lemma_aligned(lead, front);
        assert(meaning::aligned(lead, none) =~= seq![]);
        let g = |t: int|
            (x.at)(meaning::aligned(lead, front) + seq![i[rank - 2], t]) * (w.at)(
                meaning::aligned(lead, none) + seq![t, i[rank - 1]],
            );
        let h = |t: int| (x.at)(i.update(rank - 1, t)) * f(t, i[rank - 1]);
        assert(0 <= i[rank - 1] < n);
        assert forall|t: int| 0 <= t < k implies #[trigger] g(t) == h(t) by {
            assert(lead + seq![i[rank - 2], t] =~= i.update(rank - 1, t));
            assert(meaning::aligned(lead, none) + seq![t, i[rank - 1]] =~= seq![t, i[rank - 1]]);
            assert(w.at2(t, i[rank - 1]) == f(t, i[rank - 1]));
        }
        meaning::lemma_sum_same(k, g, h);
    }
}

// ---------------------------------------------------------------------------
// MatMulBnb4
// ---------------------------------------------------------------------------

/// The 4-bit code of an element: of the two in a byte, the first is in the high
/// bits.
pub open spec fn stored_code(packed: Seq<u8>, e: int) -> int {
    let byte = packed[e / 2] as int;
    if e % 2 == 0 {
        byte / 16
    } else {
        byte % 16
    }
}

/// The weight that multiplies element `a` of a row of the operand towards
/// column `b` of the result: elements are stored by columns of the result, and
/// each is an entry of the codebook times the scale of its block.
pub open spec fn stored_weight(p: BnbV, a: int, b: int) -> real {
    let e = b * p.k + a;
    meaning::number(p.codebook[stored_code(p.packed, e)]) * meaning::number(
        p.absmax[e / p.block_size as int],
    )
}

/// A constant that has just been declared and looked up.
#[verifier::rlimit(40)]
pub proof fn lemma_constant(
    ops: Seq<OpV>,
    name: Seq<char>,
    dtype: DataType,
    shape: Seq<u32>,
    data: ConstDataV,
    m: Reading,
)
    requires
        meaning::holds(matmul::constant_steps(ops, name, dtype, shape, data), m),
    ensures
        meaning::holds(ops, m),
        m.of(builder::last_operand(matmul::constant_steps(ops, name, dtype, shape, data)))
            == meaning::constant(
            dtype,
            meaning::naturals(shape),
            data,
            m.functions.inverse_sqrt,
        ),
{
    broadcast use meaning::lemma_holds_push;

}

/// Sixteen as a one-element constant.
proof fn lemma_sixteen()
    ensures
        meaning::element(bytes::le_bytes(16, 4), DataType::Int32, 0) == 16real,
{
    bytes::lemma_le_len(16, 4);
    bytes::lemma_span(4);
    bytes::lemma_le_value(16, 4);
    let b = bytes::le_bytes(16, 4);
    assert(b.subrange(0, 4) =~= b);
}

/// The list that unpacking leaves: the codes of the elements in order.
#[verifier::rlimit(40)]
proof fn lemma_unpack(
    ops: Seq<OpV>,
    blob: OperandV,
    c16: OperandV,
    half: u32,
    total: i64,
    label: Seq<char>,
    packed: Seq<u8>,
    m: Reading,
)
    requires
        meaning::holds(matmul::unpack_steps(ops, blob, c16, half, total, label), m),
        m.of(blob).shape == seq![half as int],
        packed.len() == half,
        forall|j: int|
            0 <= j < half ==> #[trigger] m.of(blob).at1(j) == packed[j] as int as real,
        m.of(c16).shape == seq![1int],
        m.of(c16).at1(0) == 16real,
        0 <= total <= 2 * half,
    ensures
        meaning::holds(ops, m),
        ({
            let codes = m.of(
                builder::last_operand(
                    matmul::unpack_steps(ops, blob, c16, half, total, label),
                ),
            );
            &&& codes.shape == seq![total as int]
            &&& forall|e: int|
                0 <= e < total ==> #[trigger] codes.at1(e) == stored_code(packed, e) as real
        }),
{
    broadcast use meaning::lemma_holds_push;

    let n = ops.len() as int;
    let wide = m.of(OperandV { step: n, output: 0 });
    let hi = m.of(OperandV { step: n + 1, output: 0 });
    let hi16 = m.of(OperandV { step: n + 2, output: 0 });
    let lo = m.of(OperandV { step: n + 3, output: 0 });
    let hi_col = m.of(OperandV { step: n + 4, output: 0 });
    let lo_col = m.of(OperandV { step: n + 5, output: 0 });
    let pair = m.of(OperandV { step: n + 6, output: 0 });
    let codes = m.of(OperandV { step: n + 7, output: 0 });
    let b = m.of(blob);
    let c = m.of(c16);
    let line = seq![half as int];
    let column = seq![half as int, 1];
    assert(wide == meaning::cast(b, DataType::Int32));
    assert(hi == meaning::elementwise(BinaryOp::Div, wide, c));
    assert(hi16 == meaning::elementwise(BinaryOp::Mul, hi, c));
    assert(lo == meaning::elementwise(BinaryOp::Sub, wide, hi16));
    assert(meaning::ints(seq![half as i64, 1i64]) =~= column);
    assert(meaning::ints(seq![total]) =~= seq![total as int]);
    assert(hi_col == meaning::reshape(hi, column));
    assert(lo_col == meaning::reshape(lo, column));
    let parts = m.all(
        seq![OperandV { step: n + 4, output: 0 }, OperandV { step: n + 5, output: 0 }],
    );
    assert(parts =~= seq![hi_col, lo_col]);
    assert(pair == meaning::concat(parts, 1));
    assert(codes == meaning::reshape(pair, seq![total as int]));
    assert(meaning::joint_shape(line, seq![1int]) =~= line);
    assert(meaning::joint_shape(line, line) =~= line);
    assert forall|e: int| 0 <= e < total implies #[trigger] codes.at1(e) == stored_code(
        packed,
        e,
    ) as real by {
        let j = e / 2;
        let v = packed[j] as int;
        let i = seq![j];
        assert(meaning::valid(i, line));
        meaning::lemma_aligned(i, line);
        assert(meaning::aligned(i, seq![1int]) =~= seq![0int]);
        assert(b.at1(j) == v as real);
        meaning::lemma_whole(v as real / 1real, v);
        assert(wide.at1(j) == v as real);
        meaning::lemma_whole(v as real / 16real, v / 16);
        assert(hi.at1(j) == (v / 16) as real);
        assert(hi16.at1(j) == (v / 16) as real * 16real);
        assert(lo.at1(j) == (v % 16) as real);
        meaning::lemma_place_1(i, line);
        meaning::lemma_place_2(seq![j, 0], column);
        meaning::lemma_reshape(hi, column, seq![j, 0], i);
        meaning::lemma_reshape(lo, column, seq![j, 0], i);
        let at = seq![j, e % 2];
        meaning::lemma_concat(parts, 1, at);
        assert(at.update(1, e % 2 - 1) =~= seq![j, e % 2 - 1]);
        assert(pair.shape =~= seq![half as int, 2]);
        assert(pair.at2(j, e % 2) == stored_code(packed, e) as real);
        assert(meaning::valid(at, pair.shape));
        meaning::lemma_place_2(at, pair.shape);
        meaning::lemma_place_1(seq![e], seq![total as int]);
        meaning::lemma_reshape(pair, seq![total as int], seq![e], at);
    }
}

/// What the parameters of a node are: attributes, the given bytes from the
/// front, and one scale for each block.
#[verifier::rlimit(40)]
pub proof fn law_bnb_params(node: NodeV, name: Seq<char>, ctx: ContextV)
    requires
        matmul::bnb_params(node, name, ctx) is Ok,
    ensures
        ({
            let p = matmul::bnb_params(node, name, ctx)->Ok_0;
            let total = p.n * p.k;
            &&& p.k == node.int_attr("K"@, 0)
            &&& p.n == node.int_attr("N"@, 0)
            &&& p.block_size == node.int_attr("block_size"@, 0)
            &&& p.k > 0 && p.n > 0 && p.block_size > 0
            &&& p.codebook.len() == 16
            &&& ctx.initializers[node.input[1]].bytes() matches Ok(b)
            &&& b.len() >= p.packed.len()
            &&& 2 * p.packed.len() - 1 <= total <= 2 * p.packed.len()
            &&& forall|i: int| 0 <= i < p.packed.len() ==> #[trigger] p.packed[i] == b[i]
            &&& matmul::float_values(ctx.initializers[node.input[2]]) matches Ok(s)
            &&& s.len() >= p.absmax.len()
            &&& (p.absmax.len() - 1) * p.block_size < total <= p.absmax.len() * p.block_size
            &&& forall|i: int| 0 <= i < p.absmax.len() ==> #[trigger] p.absmax[i] == s[i]
        }),
{
    let p = matmul::bnb_params(node, name, ctx)->Ok_0;
    let total = p.n * p.k;
    let d = p.block_size as int;
    assert(total > 0) by (nonlinear_arith)
        requires
            total == p.n * p.k,
            p.n > 0,
            p.k > 0,
    ;
    let q = (total + d - 1) / d;
    assert((q - 1) * d < total <= q * d && q > 0) by (nonlinear_arith)
        requires
            q == (total + d - 1) / d,
            d > 0,
            total > 0,
    ;
}

/// Codes looked up in a codebook, scaled by blocks and brought to rows and
/// columns.
proof fn lemma_scaled_codes(p: BnbV, book: Tensor, codes: Tensor, scale: Tensor, flip: Seq<int>)
    requires
        p.k > 0,
        p.n > 0,
        p.block_size > 0,
        p.codebook.len() == 16,
        2 * p.packed.len() - 1 <= p.n * p.k <= 2 * p.packed.len(),
        p.n * p.k == p.absmax.len() * p.block_size,
        book.shape == seq![16int],
        forall|c: int| 0 <= c < 16 ==> #[trigger] book.at1(c) == meaning::number(p.codebook[c]),
        codes.shape == seq![p.n * p.k],
        forall|e: int|
            0 <= e < p.n * p.k ==> #[trigger] codes.at1(e) == stored_code(p.packed, e) as real,
        scale.shape == seq![p.absmax.len() as int, 1],
        forall|q: int|
            0 <= q < p.absmax.len() ==> #[trigger] scale.at2(q, 0) == meaning::number(
                p.absmax[q],
            ),
        flip == seq![1int, 0],
    ensures
        ({
            let lookup = meaning::gather(book, codes, 0);
            let blocked = meaning::reshape(
                lookup,
                seq![p.absmax.len() as int, p.block_size as int],
            );
            let scaled = meaning::elementwise(BinaryOp::Mul, blocked, scale);
            let nk = meaning::reshape(scaled, seq![p.n as int, p.k as int]);
            let kn = meaning::transpose(nk, flip);
            &&& kn.shape == seq![p.k as int, p.n as int]
            &&& forall|a: int, b: int|
                0 <= a < p.k && 0 <= b < p.n ==> #[trigger] kn.at2(a, b) == stored_weight(p, a, b)
        }),
{
    let count = p.absmax.len() as int;
    let d = p.block_size as int;
    let k = p.k as int;
    let n = p.n as int;
    let total = n * k;
    let rows = seq![count, d];
    let lookup = meaning::gather(book, codes, 0);
    let blocked = meaning::reshape(lookup, rows);
    let scaled = meaning::elementwise(BinaryOp::Mul, blocked, scale);
    let nk = meaning::reshape(scaled, seq![n, k]);
    let kn = meaning::transpose(nk, flip);
    assert(lookup.shape =~= seq![total]);
    assert(meaning::joint_shape(rows, seq![count, 1]) =~= rows);
    assert(kn.shape =~= seq![k, n]);
    assert forall|a: int, b: int| 0 <= a < k && 0 <= b < n implies #[trigger] kn.at2(a, b)
        == stored_weight(p, a, b) by {
        let e = b * k + a;
        assert(0 <= e < n * k) by (nonlinear_arith)
            requires
                e == b * k + a,
                0 <= a < k,
                0 <= b < n,
        ;
        let c = stored_code(p.packed, e);
        assert(codes.at1(e) == c as real);
        meaning::lemma_whole(c as real, c);
        let i = seq![e];
        assert(i.subrange(0, 1) =~= i);
        assert(i.take(0) + seq![c] + i.skip(1) =~= seq![c]);
        assert(book.at1(c) == meaning::number(p.codebook[c]));
        assert(lookup.at1(e) == meaning::number(p.codebook[c]));
        let q = e / d;
        let r = e % d;
        assert(0 <= q < count && 0 <= r < d && q * d + r == e) by (nonlinear_arith)
            requires
                q == e / d,
                r == e % d,
                0 <= e < count * d,
                d > 0,
        ;
        let at = seq![q, r];
        meaning::lemma_place_1(i, seq![total]);
        meaning::lemma_place_2(at, rows);
        meaning::lemma_reshape(lookup, rows, at, i);
        assert(meaning::valid(at, rows));
        meaning::lemma_aligned(at, rows);
        let one = meaning::aligned(at, seq![count, 1]);
        assert(one =~= seq![q, 0]);
        assert(scale.at2(q, 0) == meaning::number(p.absmax[q]));
        assert(scaled.at2(q, r) == stored_weight(p, a, b));
        meaning::lemma_place_2(seq![b, a], seq![n, k]);
        meaning::lemma_reshape(scaled, seq![n, k], seq![b, a], at);
        let j = seq![b, a];
        assert(flip.contains(0) && flip.contains(1)) by {
            assert(flip[0] == 1 && flip[1] == 0);
        }
        meaning::lemma_transpose(nk, flip, j);
        assert(Seq::new(flip.len(), |z: int| j[flip[z]]) =~= seq![a, b]);
    }
}

/// The packed weight brought to rows and columns.
#[verifier::rlimit(40)]
proof fn lemma_packed_weight(
    ops: Seq<OpV>,
    node: NodeV,
    dtype: DataType,
    p: BnbV,
    label: Seq<char>,
    m: Reading,
)
    requires
        meaning::holds(matmul::bnb_packed_steps(ops, node, dtype, p, label), m),
        p.k > 0,
        p.n > 0,
        p.block_size > 0,
        p.codebook.len() == 16,
        2 * p.packed.len() - 1 <= p.n * p.k <= 2 * p.packed.len(),
        0 < p.n * p.k <= u32::MAX,
        0 < p.absmax.len() <= u32::MAX,
        p.n * p.k == p.absmax.len() * p.block_size,
        m.name(node.input[0]).shape.len() >= 2,
        m.name(node.input[0]).shape.last() == p.k,
    ensures
        node.output_at(0) matches Some(y) ==> is_product(
            m.name(y),
            m.name(node.input[0]),
            p.k as int,
            p.n as int,
            |a: int, b: int| stored_weight(p, a, b),
        ),
{
    let half = p.packed.len() as u32;
    let count = p.absmax.len() as int;
    let blocks = count as i64;
    let o1 = matmul::constant_steps(
        ops,
        label + "__blob"@,
        DataType::Uint8,
        seq![half],
        ConstDataV::Bytes(p.packed),
    );
    let o2 = matmul::constant_steps(
        o1,
        label + "__c16"@,
        DataType::Int32,
        seq![1],
        ConstDataV::Bytes(bytes::le_bytes(16, 4)),
    );
    let o3 = matmul::constant_steps(
        o2,
        label + "__codebook"@,
        dtype,
        seq![16],
        ConstDataV::Floats(p.codebook),
    );
    let o4 = matmul::constant_steps(
        o3,
        label + "__absmax"@,
        dtype,
        seq![blocks as u32, 1],
        ConstDataV::Floats(p.absmax),
    );
    let o5 = matmul::unpack_steps(
        o4,
        builder::last_operand(o1),
        builder::last_operand(o2),
        half,
        (p.n * p.k) as i64,
        label,
    );
    let s = o5.len() as int;
    let codes = m.of(builder::last_operand(o5));
    let book = m.of(builder::last_operand(o3));
    let scale = m.of(builder::last_operand(o4));
    let lookup = m.of(OperandV { step: s, output: 0 });
    let blocked = m.of(OperandV { step: s + 1, output: 0 });
    let scaled = m.of(OperandV { step: s + 2, output: 0 });
    let nk = m.of(OperandV { step: s + 3, output: 0 });
    let kn = m.of(OperandV { step: s + 4, output: 0 });
    let x = m.of(OperandV { step: s + 5, output: 0 });
    let y = m.of(OperandV { step: s + 6, output: 0 });
    let rows = seq![count, p.block_size as int];
    let square = seq![p.n as int, p.k as int];
    let flip = seq![1int, 0];
    assert(meaning::ints(seq![blocks, p.block_size]) =~= rows);
    assert(meaning::ints(seq![p.n, p.k]) =~= square);
    assert(meaning::naturals(seq![1u32, 0u32]) =~= flip);
    let k = p.k as int;
    let n = p.n as int;
    assert({
        &&& meaning::holds(o5, m)
        &&& lookup == meaning::gather(book, codes, 0)
        &&& blocked == meaning::reshape(lookup, rows)
        &&& scaled == meaning::elementwise(BinaryOp::Mul, blocked, scale)
        &&& nk == meaning::reshape(scaled, square)
        &&& kn == meaning::transpose(nk, flip)
        &&& x == m.name(node.input[0])
        &&& y == meaning::matmul(x, kn)
        &&& node.output_at(0) matches Some(out) ==> m.name(out) == y
    }) by {
        broadcast use meaning::lemma_holds_push;

    }
    lemma_unpacked_codes(ops, dtype, p, label, m);
    assert(meaning::naturals(seq![blocks as u32, 1u32]) =~= seq![count, 1]);
    assert(meaning::naturals(seq![16u32]) =~= seq![16int]);
    assert forall|c: int| 0 <= c < 16 implies #[trigger] book.at1(c) == meaning::number(
        p.codebook[c],
    ) by {
        meaning::lemma_place_1(seq![c], seq![16int]);
    }
    assert forall|q: int| 0 <= q < count implies #[trigger] scale.at2(q, 0) == meaning::number(
        p.absmax[q],
    ) by {
        meaning::lemma_place_2(seq![q, 0], seq![count, 1]);
    }
    lemma_scaled_codes(p, book, codes, scale, flip);
    let f = |a: int, b: int| stored_weight(p, a, b);
    assert forall|a: int, b: int| 0 <= a < k && 0 <= b < n implies #[trigger] kn.at2(a, b) == f(
        a,
        b,
    ) by {}
    lemma_product(x, kn, k, n, f);
}

/// The codes that the packed lowering unpacks, and the constants around them.
#[verifier::rlimit(40)]
proof fn lemma_unpacked_codes(
    ops: Seq<OpV>,
    dtype: DataType,
    p: BnbV,
    label: Seq<char>,
    m: Reading,
)
    requires
        ({
            let half = p.packed.len() as u32;
            let o1 = matmul::constant_steps(
                ops,
                label + "__blob"@,
                DataType::Uint8,
                seq![half],
                ConstDataV::Bytes(p.packed),
            );
            let o2 = matmul::constant_steps(
                o1,
                label + "__c16"@,
                DataType::Int32,
                seq![1],
                ConstDataV::Bytes(bytes::le_bytes(16, 4)),
            );
            let o3 = matmul::constant_steps(
                o2,
                label + "__codebook"@,
                dtype,
                seq![16],
                ConstDataV::Floats(p.codebook),
            );
            let o4 = matmul::constant_steps(
                o3,
                label + "__absmax"@,
                dtype,
                seq![p.absmax.len() as i64 as u32, 1],
                ConstDataV::Floats(p.absmax),
            );
            meaning::holds(
                matmul::unpack_steps(
                    o4,
                    builder::last_operand(o1),
                    builder::last_operand(o2),
                    half,
                    (p.n * p.k) as i64,
                    label,
                ),
                m,
            )
        }),
        2 * p.packed.len() - 1 <= p.n * p.k <= 2 * p.packed.len(),
        0 < p.n * p.k <= u32::MAX,
    ensures
        ({
            let n = ops.len() as int;
            let codes = m.of(OperandV { step: n + 15, output: 0 });
            let inv = m.functions.inverse_sqrt;
            &&& codes.shape == seq![p.n * p.k]
            &&& forall|e: int|
                0 <= e < p.n * p.k ==> #[trigger] codes.at1(e) == stored_code(p.packed, e) as real
            &&& m.of(OperandV { step: n + 5, output: 0 }) == meaning::constant(
                dtype,
                meaning::naturals(seq![16u32]),
                ConstDataV::Floats(p.codebook),
                inv,
            )
            &&& m.of(OperandV { step: n + 7, output: 0 }) == meaning::constant(
                dtype,
                meaning::naturals(seq![p.absmax.len() as i64 as u32, 1]),
                ConstDataV::Floats(p.absmax),
                inv,
            )
        }),
{
    let half = p.packed.len() as u32;
    let o1 = matmul::constant_steps(
        ops,
        label + "__blob"@,
        DataType::Uint8,
        seq![half],
        ConstDataV::Bytes(p.packed),
    );
    let c16 = ConstDataV::Bytes(bytes::le_bytes(16, 4));
    let o2 = matmul::constant_steps(o1, label + "__c16"@, DataType::Int32, seq![1], c16);
    let o3 = matmul::constant_steps(
        o2,
        label + "__codebook"@,
        dtype,
        seq![16],
        ConstDataV::Floats(p.codebook),
    );
    let o4 = matmul::constant_steps(
        o3,
        label + "__absmax"@,
        dtype,
        seq![p.absmax.len() as i64 as u32, 1],
        ConstDataV::Floats(p.absmax),
    );
    let o5 = matmul::unpack_steps(
        o4,
        builder::last_operand(o1),
        builder::last_operand(o2),
        half,
        (p.n * p.k) as i64,
        label,
    );
    assert(meaning::holds(o4, m)) by {
        broadcast use meaning::lemma_holds_push;

    }
    lemma_constant(
        o3,
        label + "__absmax"@,
        dtype,
        seq![p.absmax.len() as i64 as u32, 1],
        ConstDataV::Floats(p.absmax),
        m,
    );
    lemma_constant(
        o2,
        label + "__codebook"@,
        dtype,
        seq![16],
        ConstDataV::Floats(p.codebook),
        m,
    );
    lemma_constant(o1, label + "__c16"@, DataType::Int32, seq![1], c16, m);
    lemma_constant(
        ops,
        label + "__blob"@,
        DataType::Uint8,
        seq![half],
        ConstDataV::Bytes(p.packed),
        m,
    );
    let blob = m.of(builder::last_operand(o1));
    let sixteen = m.of(builder::last_operand(o2));
    assert(blob.shape =~= seq![half as int]);
    assert(sixteen.shape =~= seq![1int]);
    meaning::lemma_place_1(seq![0int], seq![1int]);
    lemma_sixteen();
    assert(sixteen.at1(0) == 16real);
    assert forall|j: int| 0 <= j < half implies #[trigger] blob.at1(j)
        == p.packed[j] as int as real by {
        meaning::lemma_place_1(seq![j], seq![half as int]);
    }
    lemma_unpack(
        o4,
        builder::last_operand(o1),
        builder::last_operand(o2),
        half,
        (p.n * p.k) as i64,
        label,
        p.packed,
        m,
    );
}

/// The dense weight by rows and columns.
#[verifier::rlimit(40)]
proof fn lemma_dense_weight(
    ops: Seq<OpV>,
    node: NodeV,
    ctx: ContextV,
    p: BnbV,
    label: Seq<char>,
    m: Reading,
)
    requires
        meaning::holds(matmul::bnb_dense_steps(ops, node, ctx, p, label), m),
        p.k > 0,
        p.n > 0,
        p.n * p.k <= u32::MAX,
        m.name(node.input[0]).shape.len() >= 2,
        m.name(node.input[0]).shape.last() == p.k,
    ensures
        node.output_at(0) matches Some(y) ==> is_product(
            m.name(y),
            m.name(node.input[0]),
            p.k as int,
            p.n as int,
            |a: int, b: int| stored_weight(p, a, b),
        ),
{
    broadcast use meaning::lemma_holds_push;

    let k = p.k as int;
    let n = p.n as int;
    assert(n <= u32::MAX && k <= u32::MAX) by (nonlinear_arith)
        requires
            n * k <= u32::MAX,
            n > 0,
            k > 0,
    ;
    let o1 = ops::resolved(ops, node.input[0]);
    let o2 = matmul::constant_steps(
        o1,
        label + "__weights_kn"@,
        ops::float_type(ctx.dtype(node.input[0])),
        seq![p.k as u32, p.n as u32],
        ConstDataV::Products(matmul::bnb_dense(p)),
    );
    let x = m.of(builder::last_operand(o1));
    let w = m.of(builder::last_operand(o2));
    let f = |a: int, b: int| stored_weight(p, a, b);
    assert(w.shape =~= seq![k, n]);
    assert forall|a: int, b: int| 0 <= a < k && 0 <= b < n implies #[trigger] w.at2(a, b) == f(
        a,
        b,
    ) by {
        let e = a * n + b;
        assert(0 <= e < n * k) by (nonlinear_arith)
            requires
                e == a * n + b,
                0 <= a < k,
                0 <= b < n,
        ;
        vstd::arithmetic::div_mod::lemma_fundamental_div_mod_converse(e, n, a, b);
        meaning::lemma_place_2(seq![a, b], seq![k, n]);
    }
    lemma_product(x, w, k, n, f);
}

/// A lowered `MatMulBnb4` node, packed or dense, multiplies its input with the
/// stored weight.
#[verifier::rlimit(40)]
pub proof fn law_bnb_product(
    node: NodeV,
    name: Seq<char>,
    ctx: ContextV,
    ops: Seq<OpV>,
    m: Reading,
)
    requires
        matmul::bnb_params(node, name, ctx) is Ok,
        meaning::holds(matmul::bnb_outcome(node, name, ctx, ops).ops, m),
        ({
            let p = matmul::bnb_params(node, name, ctx)->Ok_0;
            &&& p.n * p.k <= u32::MAX
            &&& m.name(node.input[0]).shape.len() >= 2
            &&& m.name(node.input[0]).shape.last() == p.k
        }),
    ensures
        ({
            let p = matmul::bnb_params(node, name, ctx)->Ok_0;
            node.output_at(0) matches Some(y) ==> is_product(
                m.name(y),
                m.name(node.input[0]),
                p.k as int,
                p.n as int,
                |a: int, b: int| stored_weight(p, a, b),
            )
        }),
{
    let p = matmul::bnb_params(node, name, ctx)->Ok_0;
    law_bnb_params(node, name, ctx);
    let total = p.n * p.k;
    let d = p.block_size as int;
    let label = node.label(name);
    if total % d == 0 {
        let c = p.absmax.len() as int;
        assert(total == c * d) by (nonlinear_arith)
            requires
                total % d == 0,
                (c - 1) * d < total <= c * d,
                d > 0,
        ;
        assert(0 < total && c <= total) by (nonlinear_arith)
            requires
                total == p.n * p.k,
                p.n > 0,
                p.k > 0,
                total == c * d,
                d > 0,
                c >= 0,
        ;
        assert(c > 0) by (nonlinear_arith)
            requires
                total > 0,
                total == c * d,
                d > 0,
        ;
        lemma_packed_weight(ops, node, ctx.dtype(node.input[0]), p, label, m);
    } else {
        lemma_dense_weight(ops, node, ctx, p, label, m);
    }
}

} // verus!
