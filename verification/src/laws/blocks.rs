//! What weights quantized by blocks stand for.
use crate::builder;
use crate::builder::{BinaryOp, ConstDataV, OpV, OperandV};
use crate::context::{ContextV, InitV};
use crate::floats;
use crate::floats::FloatBits;
use crate::laws::weights;
use crate::meaning;
use crate::meaning::{Reading, Tensor};
use crate::ops;
use crate::ops::matmul;
use crate::ops::matmul::NbitsV;
use crate::ops::moe;
use crate::ops::moe::QuantV;
use crate::protos;
use crate::protos::NodeV;
use crate::types;
use crate::types::DataType;
use vstd::arithmetic::power2::{lemma2_to64, lemma_pow2_adds, lemma_pow2_pos, lemma_pow2_unfold, pow2};
use vstd::prelude::*;

verus! {

/// A 4-bit number in a payload: of the two in a byte, the first is in the low
/// bits.
pub open spec fn low_first(b: Seq<u8>, n: int) -> int {
    if n % 2 == 0 {
        b[n / 2] as int % 16
    } else {
        b[n / 2] as int / 16
    }
}

// ---------------------------------------------------------------------------
// MatMulNBits
// ---------------------------------------------------------------------------

/// The payloads of a node's weight, scales and zero points.
pub struct Blocks {
    pub codes: Seq<u8>,
    pub scales: Seq<u8>,
    pub scale_type: DataType,
    /// Where there are none, every zero point is the middle of the range.
    pub zeros: Option<Seq<u8>>,
}

/// The weight that multiplies element `k` of a row towards column `n`: the code
/// less the zero point of its block, times the block's scale.
pub open spec fn block_weight(b: Blocks, p: NbitsV, k: int, n: int) -> real {
    let block = n * p.n_blocks + k / p.block_size as int;
    let code = low_first(b.codes, block * p.block_size + k % p.block_size as int);
    let zero = match b.zeros {
        Some(z) => low_first(z, block),
        None => 8,
    };
    (code - zero) as real * meaning::element(b.scales, b.scale_type, block)
}

/// The payloads that a node is lowered with.
pub open spec fn node_blocks(node: NodeV, ctx: ContextV, p: NbitsV) -> Blocks {
    let s = ctx.initializers[node.input[2]];
    Blocks {
        codes: p.weight.bytes()->Ok_0,
        scales: s.bytes()->Ok_0,
        scale_type: types::mapped_type(s.data_type)->Ok_0,
        zeros: match node.input_at(3) {
            Some(z) => Some(ctx.initializers[z].bytes()->Ok_0),
            None => None,
        },
    }
}

/// A dequantized weight by rows and columns.
proof fn lemma_dequantized(
    codes: Tensor,
    scale: Tensor,
    zero: Tensor,
    rows: int,
    blocks: int,
    len: int,
    i: int,
    j: int,
    c: int,
)
    requires
        codes.shape == seq![rows, blocks, len],
        scale.shape == seq![rows, blocks, 1],
        zero.shape == seq![rows, blocks, 1],
        0 <= i < rows,
        0 <= j < blocks,
        0 <= c < len,
    ensures
        meaning::dequantize(codes, scale, zero).shape == codes.shape,
        meaning::dequantize(codes, scale, zero).at3(i, j, c) == (codes.at3(i, j, c) - zero.at3(
            i,
            j,
            0,
        )) * scale.at3(i, j, 0),
{
    let at = seq![i, j, c];
    assert(rows / rows == 1 && blocks / blocks == 1 && len / 1 == len) by (nonlinear_arith)
        requires
            rows > 0,
            blocks > 0,
            len > 0,
    ;
    assert(c / len == 0) by (nonlinear_arith)
        requires
            0 <= c < len,
    ;
    assert(meaning::block_of(at, codes.shape, scale.shape) =~= seq![i, j, 0int]);
}

/// The dequantized weight flattened to rows, its padding cut off, transposed.
#[verifier::rlimit(40)]
proof fn lemma_rows(
    ops: Seq<OpV>,
    dequantized: OperandV,
    p: NbitsV,
    label: Seq<char>,
    m: Reading,
    f: spec_fn(int, int) -> real,
)
    requires
        meaning::holds(matmul::nbits_rows(ops, dequantized, p, label), m),
        0 < p.n <= u32::MAX,
        0 < p.k <= u32::MAX,
        p.k <= p.n_blocks * p.block_size <= i64::MAX,
        p.block_size > 0,
        m.of(dequantized).shape == seq![p.n as int, p.n_blocks as int, p.block_size as int],
        forall|n: int, k: int|
            0 <= n < p.n && 0 <= k < p.k ==> #[trigger] f(k, n) == m.of(dequantized).at3(
                n,
                k / p.block_size as int,
                k % p.block_size as int,
            ),
    ensures
        meaning::holds(ops, m),
        ({
            let r = m.of(builder::last_operand(matmul::nbits_rows(ops, dequantized, p, label)));
            &&& r.shape == seq![p.n as int, p.k as int]
            &&& forall|n: int, k: int|
                0 <= n < p.n && 0 <= k < p.k ==> #[trigger] r.at2(n, k) == f(k, n)
        }),
{
    let z = ops.len() as int;
    let x = m.of(dequantized);
    let bs = p.block_size as int;
    let blocks = p.n_blocks as int;
    let width = blocks * bs;
    let padded = (p.n_blocks * p.block_size) as i64;
    let r = m.of(builder::last_operand(matmul::nbits_rows(ops, dequantized, p, label)));
    let square = seq![p.n as int, p.k as int];
    let wide = seq![p.n as int, padded as int];
    let flat = m.of(OperandV { step: z, output: 0 });
    let none = Seq::<int>::empty();
    let zero = seq![0int, 0];
    if padded != p.k {
        assert(meaning::ints(seq![p.n, padded]) =~= wide);
        assert(meaning::ints(seq![p.n as u32 as i64, p.k as u32 as i64]) =~= square);
        assert(meaning::naturals(seq![0u32, 0u32]) =~= zero);
        assert(meaning::naturals(seq![]) =~= none);
        assert({
            &&& meaning::holds(ops, m)
            &&& flat == meaning::reshape(x, wide)
            &&& r == meaning::slice(flat, zero, square, none)
        }) by {
            broadcast use meaning::lemma_holds_push;

        }
        assert(r.shape =~= square);
    } else {
        assert(meaning::ints(seq![p.n, p.k]) =~= square);
        assert({
            &&& meaning::holds(ops, m)
            &&& r == meaning::reshape(x, square)
        }) by {
            broadcast use meaning::lemma_holds_push;

        }
    }
    assert(padded == width);
    assert forall|n: int, k: int| 0 <= n < p.n && 0 <= k < p.k implies #[trigger] r.at2(n, k) == f(
        k,
        n,
    ) by {
        let q = k / bs;
        let c = k % bs;
        assert(0 <= q < blocks && 0 <= c < bs && q * bs + c == k) by (nonlinear_arith)
            requires
                q == k / bs,
                c == k % bs,
                0 <= k < blocks * bs,
                bs > 0,
        ;
        let at = seq![n, q, c];
        meaning::lemma_place_3(at, x.shape);
        assert((n * blocks + q) * bs + c == n * width + k) by (nonlinear_arith)
            requires
                width == blocks * bs,
                q * bs + c == k,
        ;
        assert(meaning::valid(at, x.shape));
        let i = seq![n, k];
        assert(f(k, n) == x.at3(n, q, c));
        if padded != p.k {
            meaning::lemma_place_2(i, wide);
            meaning::lemma_reshape(x, wide, i, at);
            assert(Seq::new(i.len(), |a: int| zero[a] + i[a] * meaning::stride_at(none, a)) =~= i);
        } else {
            meaning::lemma_place_2(i, square);
            meaning::lemma_reshape(x, square, i, at);
        }
    }
}

/// A product with a bias behind it, where there is one.
pub open spec fn is_biased_product(
    y: Tensor,
    x: Tensor,
    k: int,
    n: int,
    w: spec_fn(int, int) -> real,
    bias: Option<Tensor>,
) -> bool {
    let last = x.shape.len() - 1;
    forall|i: Seq<int>|
        meaning::valid(i, x.shape.update(last, n)) ==> #[trigger] (y.at)(i) == meaning::sum(
            k,
            |t: int| (x.at)(i.update(last, t)) * w(t, i[last]),
        ) + match bias {
            None => 0real,
            Some(b) => (b.at)(meaning::aligned(i, b.shape)),
        }
}

/// Everything behind the dequantized weight.
#[verifier::rlimit(40)]
proof fn lemma_nbits_product(
    ops: Seq<OpV>,
    dequantized: OperandV,
    node: NodeV,
    p: NbitsV,
    label: Seq<char>,
    m: Reading,
    f: spec_fn(int, int) -> real,
)
    requires
        meaning::holds(matmul::nbits_product(ops, dequantized, node, p, label), m),
        0 < p.n <= u32::MAX,
        0 < p.k <= u32::MAX,
        p.k <= p.n_blocks * p.block_size <= i64::MAX,
        p.block_size > 0,
        m.of(dequantized).shape == seq![p.n as int, p.n_blocks as int, p.block_size as int],
        forall|n: int, k: int|
            0 <= n < p.n && 0 <= k < p.k ==> #[trigger] f(k, n) == m.of(dequantized).at3(
                n,
                k / p.block_size as int,
                k % p.block_size as int,
            ),
        m.name(node.input[0]).shape.len() >= 2,
        m.name(node.input[0]).shape.last() == p.k,
    ensures
        node.output_at(0) matches Some(y) ==> is_biased_product(
            m.name(y),
            m.name(node.input[0]),
            p.k as int,
            p.n as int,
            f,
            m.name_opt(node.input_at(5)),
        ),
{
    let o1 = matmul::nbits_rows(ops, dequantized, p, label);
    let z = o1.len() as int;
    let nk = m.of(builder::last_operand(o1));
    let kn = m.of(OperandV { step: z, output: 0 });
    let x = m.of(OperandV { step: z + 1, output: 0 });
    let product = m.of(OperandV { step: z + 2, output: 0 });
    let flip = seq![1int, 0];
    assert(meaning::naturals(seq![1u32, 0u32]) =~= flip);
    assert({
        &&& meaning::holds(o1, m)
        &&& kn == meaning::transpose(nk, flip)
        &&& x == m.name(node.input[0])
        &&& product == meaning::matmul(x, kn)
        &&& node.output_at(0) matches Some(out) ==> m.name(out) == match node.input_at(5) {
            None => product,
            Some(n) => meaning::elementwise(BinaryOp::Add, product, m.name(n)),
        }
    }) by {
        broadcast use meaning::lemma_holds_push;

    }
    lemma_rows(ops, dequantized, p, label, m, f);
    let k = p.k as int;
    let n = p.n as int;
    assert(kn.shape =~= seq![k, n]);
    assert forall|a: int, b: int| 0 <= a < k && 0 <= b < n implies #[trigger] kn.at2(a, b) == f(
        a,
        b,
    ) by {
        let j = seq![b, a];
        assert(flip.contains(0) && flip.contains(1)) by {
            assert(flip[0] == 1 && flip[1] == 0);
        }
        meaning::lemma_transpose(nk, flip, j);
        assert(Seq::new(flip.len(), |z: int| j[flip[z]]) =~= seq![a, b]);
        assert(nk.at2(b, a) == f(a, b));
    }
    weights::lemma_product(x, kn, k, n, f);
    if node.output_at(0) is Some {
        let y = m.name(node.output_at(0)->0);
        let last = x.shape.len() - 1;
        assert forall|i: Seq<int>|
            meaning::valid(i, x.shape.update(last, n)) implies #[trigger] (y.at)(i)
            == meaning::sum(k, |t: int| (x.at)(i.update(last, t)) * f(t, i[last])) + match m.name_opt(
            node.input_at(5),
        ) {
            None => 0real,
            Some(b) => (b.at)(meaning::aligned(i, b.shape)),
        } by {
            assert((product.at)(i) == meaning::sum(
                k,
                |t: int| (x.at)(i.update(last, t)) * f(t, i[last]),
            ));
            meaning::lemma_aligned(i, product.shape);
        }
    }
}

/// Zero points in the middle of the range.
proof fn lemma_middle(count: int, n: int)
    requires
        0 <= n < count,
    ensures
        ({
            let v = Seq::new(matmul::half_up(count) as nat, |i: int| 0x88u8);
            meaning::element(v, DataType::Uint4, n) == 8real
        }),
{
    let v = Seq::new(matmul::half_up(count) as nat, |i: int| 0x88u8);
    assert(0 <= n / 2 < matmul::half_up(count));
    assert(v[n / 2] == 0x88u8);
}

/// A lowered `MatMulNBits` node multiplies its input with the weight that its
/// blocks stand for, and adds the bias where there is one.
#[verifier::rlimit(60)]
pub proof fn law_nbits_product(
    node: NodeV,
    name: Seq<char>,
    ctx: ContextV,
    ops: Seq<OpV>,
    m: Reading,
)
    requires
        matmul::nbits_params(node, name, ctx) is Ok,
        matmul::nbits_outcome(node, name, ctx, ops).result is Ok,
        meaning::holds(matmul::nbits_outcome(node, name, ctx, ops).ops, m),
        ({
            let p = matmul::nbits_params(node, name, ctx)->Ok_0;
            &&& p.n <= u32::MAX
            &&& p.k <= u32::MAX
            &&& node.int_attr("block_size"@, 32) <= u32::MAX
            &&& p.n_blocks as int * p.n as int <= usize::MAX
            &&& m.name(node.input[0]).shape.len() >= 2
            &&& m.name(node.input[0]).shape.last() == p.k
        }),
    ensures
        ({
            let p = matmul::nbits_params(node, name, ctx)->Ok_0;
            let b = node_blocks(node, ctx, p);
            &&& p.k == node.int_attr("K"@, 0)
            &&& p.n == node.int_attr("N"@, 0)
            &&& p.block_size == node.int_attr("block_size"@, 32)
            &&& p.weight == ctx.initializers[node.input[1]]
            &&& node.output_at(0) matches Some(y) ==> is_biased_product(
                m.name(y),
                m.name(node.input[0]),
                p.k as int,
                p.n as int,
                |k: int, n: int| block_weight(b, p, k, n),
                m.name_opt(node.input_at(5)),
            )
        }),
{
    let p = matmul::nbits_params(node, name, ctx)->Ok_0;
    let b = node_blocks(node, ctx, p);
    let label = node.label(name);
    let packed = p.weight.bytes()->Ok_0;
    let n = p.n as int;
    let blocks = p.n_blocks as int;
    let bs = p.block_size as int;
    let size = node.int_attr("block_size"@, 32) as int;
    assert(size % 2 == 0 && bs == size) by {
        reveal_with_fuel(matmul::is_power_of_two, 2);
    }
    assert(p.blob_size * 2 == bs);
    let s3 = seq![p.n as u32, p.n_blocks, (p.blob_size * 2) as u32];
    let o1 = matmul::constant_steps(
        ops,
        label + "__B_quant"@,
        DataType::Uint4,
        s3,
        ConstDataV::Bytes(packed),
    );
    let scales = matmul::nbits_scales(o1, node, name, ctx, p, label);
    let zeros = matmul::zero_point_payload(
        ctx,
        node.input_at(3),
        p.n as u32 * p.n_blocks,
        4,
        label + "__zero_point"@,
    )->Ok_0;
    let low = seq![p.n as u32, p.n_blocks, 1];
    let zero = matmul::zero_point_outcome(
        scales.ops,
        ctx,
        node.input_at(3),
        p.n as u32,
        p.n_blocks,
        4,
        label + "__zero_point"@,
    );
    let dq = OpV::Dequantize {
        input: builder::last_operand(o1),
        scale: scales.result->Ok_0,
        zero_point: zero.result->Ok_0,
    };
    let o2 = zero.ops.push(dq);
    let whole = matmul::nbits_product(o2, builder::last_operand(o2), node, p, label);
    assert(matmul::nbits_outcome(node, name, ctx, ops).ops == whole);
    lemma_product_front(o2, builder::last_operand(o2), node, p, label, m);
    meaning::lemma_holds_push(zero.ops, dq, m);
    assert(zero.ops == matmul::constant_steps(
        scales.ops,
        label + "__zero_point"@,
        DataType::Uint4,
        low,
        ConstDataV::Bytes(zeros),
    ));
    weights::lemma_constant(
        scales.ops,
        label + "__zero_point"@,
        DataType::Uint4,
        low,
        ConstDataV::Bytes(zeros),
        m,
    );
    assert(scales.ops == matmul::constant_steps(
        o1,
        label + "__scales"@,
        b.scale_type,
        low,
        ConstDataV::Bytes(b.scales),
    ));
    weights::lemma_constant(
        o1,
        label + "__scales"@,
        b.scale_type,
        low,
        ConstDataV::Bytes(b.scales),
        m,
    );
    weights::lemma_constant(
        ops,
        label + "__B_quant"@,
        DataType::Uint4,
        s3,
        ConstDataV::Bytes(packed),
        m,
    );
    let t_codes = m.of(builder::last_operand(o1));
    let t_scale = m.of(scales.result->Ok_0);
    let t_zero = m.of(zero.result->Ok_0);
    let deq = m.of(builder::last_operand(o2));
    assert(deq == meaning::dequantize(t_codes, t_scale, t_zero));
    let full = seq![n, blocks, bs];
    let thin = seq![n, blocks, 1];
    assert(meaning::naturals(s3) =~= full);
    assert(meaning::naturals(low) =~= thin);
    let f = |k: int, n: int| block_weight(b, p, k, n);
    assert(p.k <= blocks * bs && 0 < blocks && blocks * bs <= p.k + bs) by (nonlinear_arith)
        requires
            blocks == (p.k + bs - 1) / bs,
            bs > 0,
            p.k > 0,
    ;
    assert forall|c: int, k: int| 0 <= c < p.n && 0 <= k < p.k implies #[trigger] f(k, c)
        == deq.at3(c, k / bs, k % bs) by {
        let q = k / bs;
        let r = k % bs;
        assert(0 <= q < blocks && 0 <= r < bs) by (nonlinear_arith)
            requires
                q == k / bs,
                r == k % bs,
                0 <= k < blocks * bs,
                bs > 0,
        ;
        lemma_dequantized(t_codes, t_scale, t_zero, n, blocks, bs, c, q, r);
        meaning::lemma_place_3(seq![c, q, r], full);
        meaning::lemma_place_3(seq![c, q, 0int], thin);
        let block = c * blocks + q;
        assert((c * blocks + q) * 1 + 0 == block);
        assert(t_codes.at3(c, q, r) == low_first(packed, block * bs + r) as real);
        assert(t_scale.at3(c, q, 0) == meaning::element(b.scales, b.scale_type, block));
        if node.input_at(3) is None {
            assert(0 <= block < n * blocks) by (nonlinear_arith)
                requires
                    block == c * blocks + q,
                    0 <= c < n,
                    0 <= q < blocks,
            ;
            lemma_middle(n * blocks, block);
            assert(zeros =~= Seq::new(matmul::half_up(n * blocks) as nat, |i: int| 0x88u8));
        }
        assert(t_zero.at3(c, q, 0) == (match b.zeros {
            Some(z) => low_first(z, block),
            None => 8int,
        }) as real);
    }
    assert(deq.shape == full);
    lemma_nbits_product(o2, builder::last_operand(o2), node, p, label, m, f);
}

#[verifier::rlimit(40)]
proof fn lemma_product_front(
    ops: Seq<OpV>,
    dequantized: OperandV,
    node: NodeV,
    p: NbitsV,
    label: Seq<char>,
    m: Reading,
)
    requires
        meaning::holds(matmul::nbits_product(ops, dequantized, node, p, label), m),
    ensures
        meaning::holds(ops, m),
{
    broadcast use meaning::lemma_holds_push;

}

// ---------------------------------------------------------------------------
// Expert weights
// ---------------------------------------------------------------------------

/// A number from its float32 pattern.
proof fn lemma_high_bit(n: int)
    requires
        n > 0,
    ensures
        pow2(floats::high_bit(n)) <= n < 2 * pow2(floats::high_bit(n)),
    decreases n,
{
    lemma2_to64();
    if n >= 2 {
        lemma_high_bit(n / 2);
        lemma_pow2_unfold(floats::high_bit(n));
    }
}

proof fn lemma_positive_bits(v: int)
    requires
        0 < v < 256,
    ensures
        0 <= floats::int_bits(v) < 0x8000_0000,
        meaning::single(floats::int_bits(v) as u32) == v as real,
{
    let k = floats::high_bit(v);
    lemma_high_bit(v);
    lemma2_to64();
    assert(k < 8) by {
        if k >= 8 {
            lemma_pow2_grows(8, k);
        }
    }
    let d = (23 - k) as nat;
    lemma_pow2_adds(k, d);
    lemma_pow2_pos(d);
    let sig = floats::significand(v);
    let p = pow2(d) as int;
    let q = pow2(k) as int;
    assert(q * p == 0x80_0000);
    assert(0x80_0000 <= v * p < 0x100_0000) by (nonlinear_arith)
        requires
            q <= v < 2 * q,
            q * p == 0x80_0000,
            p > 0,
    ;
    assert(sig == v * p);
    let bits = floats::int_bits(v);
    assert(bits == (126 + k) * 0x80_0000 + sig);
    assert(bits == (127 + k) * 0x80_0000 + (sig - 0x80_0000));
    assert(bits / 0x80_0000 == 127 + k && bits % 0x80_0000 == sig - 0x80_0000);
    assert(meaning::single(bits as u32) == meaning::scaled(sig, (127 + k) - 150));
    assert((127 + k) - 150 == -(d as int));
    assert(sig as real == v as real * (p as real)) by {
        assert((v * p) as real == v as real * (p as real)) by (nonlinear_arith);
    }
    meaning::lemma_scaled_down(sig, d, v);
}

proof fn lemma_pow2_grows(a: nat, b: nat)
    requires
        a <= b,
    ensures
        pow2(a) <= pow2(b),
    decreases b,
{
    if a < b {
        lemma_pow2_unfold(b);
        lemma_pow2_grows(a, (b - 1) as nat);
    }
}

/// The pattern of a small integer stands for the integer.
#[verifier::rlimit(40)]
pub proof fn law_small_integers_are_exact(v: int)
    requires
        -256 < v < 256,
    ensures
        meaning::single(floats::int_bits(v) as u32) == v as real,
{
    if v == 0 {
        meaning::lemma_scaled_down(0, 149, 0);
    } else if v > 0 {
        lemma_positive_bits(v);
    } else {
        lemma_positive_bits(-v);
        let a = floats::int_bits(-v);
        let b = floats::int_bits(v);
        assert(b == a + 0x8000_0000);
        assert(b / 0x80_0000 == a / 0x80_0000 + 256 && b % 0x80_0000 == a % 0x80_0000);
    }
}

/// A code in a payload of 4-bit or 8-bit codes.
pub open spec fn stored(data: Seq<u8>, bits: i64, n: int) -> int {
    if bits == 4 {
        low_first(data, n)
    } else {
        data[n] as int
    }
}

/// A weight of an expert: the code less the middle of the range, times the
/// scale of its block of the row.
pub open spec fn expert_weight(
    w: InitV,
    s: InitV,
    bits: i64,
    block_size: int,
    in_cols: int,
    e: int,
    o: int,
    c: int,
) -> real {
    let row = e * w.dims[1] + o;
    let code = stored(w.bytes()->Ok_0, bits, row * in_cols + c);
    let middle: int = if bits == 4 {
        8
    } else {
        128
    };
    (code - middle) as real * meaning::element(
        s.bytes()->Ok_0,
        types::mapped_type(s.data_type)->Ok_0,
        row * s.dims[2] + c / block_size,
    )
}

/// A code by its column is the code by its place.
proof fn lemma_code(data: Seq<u8>, row: int, packed: int, c: int, bits: i64)
    requires
        bits == 4 || bits == 8,
    ensures
        moe::quant_code(data, row, packed, c, bits) == stored(
            data,
            bits,
            row * (packed * moe::per_byte(bits)) + c,
        ),
{
    let n = row * (packed * moe::per_byte(bits)) + c;
    if bits == 4 {
        assert(row * (packed * 2) == 2 * (row * packed)) by (nonlinear_arith);
        assert(n / 2 == row * packed + c / 2 && n % 2 == c % 2);
    } else {
        assert(packed * 1 == packed);
    }
}

/// The block of a column, by the sizes of the tensors.
proof fn lemma_block(cols: int, blocks: int, bs: int, c: int)
    requires
        cols > 0,
        bs > 0,
        blocks == (cols + bs - 1) / bs,
        blocks == 1 || cols % bs == 0,
        0 <= c < cols,
    ensures
        blocks > 0,
        c / (cols / blocks) == c / bs,
        0 <= c / bs < blocks,
{
    if cols % bs == 0 {
        let q = cols / bs;
        assert(cols == q * bs && q > 0 && blocks == q) by (nonlinear_arith)
            requires
                q == cols / bs,
                cols % bs == 0,
                cols > 0,
                bs > 0,
                blocks == (cols + bs - 1) / bs,
        ;
        assert(cols / q == bs) by (nonlinear_arith)
            requires
                cols == q * bs,
                q > 0,
        ;
        assert(0 <= c / bs < q) by (nonlinear_arith)
            requires
                0 <= c < q * bs,
                bs > 0,
        ;
    } else {
        assert(cols <= bs) by (nonlinear_arith)
            requires
                (cols + bs - 1) / bs == 1,
                bs > 0,
        ;
        assert(c / bs == 0 && cols / 1 == cols && c / cols == 0) by (nonlinear_arith)
            requires
                0 <= c < cols,
                cols <= bs,
        ;
    }
}

/// The scale type is a float type.
proof fn lemma_scale_type(s: InitV)
    requires
        s.data_type == protos::TYPE_FLOAT || s.data_type == protos::TYPE_FLOAT16,
    ensures
        types::mapped_type(s.data_type) is Ok,
        meaning::is_float(types::mapped_type(s.data_type)->Ok_0),
        s.bytes() is Ok ==> matmul::float_values(s) is Ok && forall|n: int|
            0 <= n < matmul::float_values(s)->Ok_0.len() ==> meaning::number(
                #[trigger] matmul::float_values(s)->Ok_0[n],
            ) == meaning::element(
                s.bytes()->Ok_0,
                types::mapped_type(s.data_type)->Ok_0,
                n,
            ),
{
}

/// The weights of the experts through `dequantizeLinear`.
#[verifier::rlimit(40)]
proof fn lemma_blockwise(
    ops: Seq<OpV>,
    w: InitV,
    s: InitV,
    q: QuantV,
    bits: i64,
    block_size: i64,
    dtype: DataType,
    name: Seq<char>,
    m: Reading,
)
    requires
        meaning::holds(
            moe::blockwise_outcome(ops, w.bytes()->Ok_0, s, q, bits, dtype, name).ops,
            m,
        ),
        moe::blockwise_outcome(ops, w.bytes()->Ok_0, s, q, bits, dtype, name).result is Ok,
        w.bytes() is Ok,
        s.bytes() is Ok,
        s.data_type == protos::TYPE_FLOAT || s.data_type == protos::TYPE_FLOAT16,
        meaning::is_float(dtype),
        bits == 4 || bits == 8,
        block_size > 0,
        q.packed > 0,
        q.in_cols == q.packed * moe::per_byte(bits),
        q.blocks == (q.in_cols + block_size - 1) / block_size as int,
        moe::even_blocks(q, block_size),
        w.dims[1] == q.out_rows,
        s.dims[2] == q.blocks,
        0 < q.experts <= u32::MAX,
        0 < q.out_rows <= u32::MAX,
        q.in_cols <= u32::MAX,
        w.bytes()->Ok_0.len() >= q.experts * q.out_rows * q.packed,
    ensures
        m.name(name).shape == seq![q.experts as int, q.out_rows as int, q.in_cols],
        forall|e: int, o: int, c: int|
            0 <= e < q.experts && 0 <= o < q.out_rows && 0 <= c < q.in_cols ==> #[trigger] m.name(
                name,
            ).at3(e, o, c) == expert_weight(
                w,
                s,
                bits,
                block_size as int,
                q.in_cols,
                e,
                o,
                c,
            ),
{
    lemma_scale_type(s);
    let data = w.bytes()->Ok_0;
    assert(0 < q.in_cols);
    let s_bytes = s.bytes()->Ok_0;
    let s_type = types::mapped_type(s.data_type)->Ok_0;
    let experts = q.experts as int;
    let rows = q.out_rows as int;
    let cols = q.in_cols;
    let blocks = q.blocks;
    let bs = block_size as int;
    let count = experts * rows;
    lemma_block(cols, blocks, bs, 0);
    assert(blocks <= cols) by (nonlinear_arith)
        requires
            blocks == (cols + bs - 1) / bs,
            bs > 0,
            cols > 0,
    ;
    let z = ops.len() as int;
    let front = data.take(count * q.packed);
    let full = seq![experts, rows, cols];
    let coarse = seq![experts, rows, blocks];
    assert(meaning::naturals(seq![q.experts as u32, q.out_rows as u32, q.in_cols as u32]) =~= full);
    assert(meaning::naturals(seq![q.experts as u32, q.out_rows as u32, q.blocks as u32])
        =~= coarse);
    let kind = moe::code_type(bits);
    let inv = m.functions.inverse_sqrt;
    let codes = m.of(OperandV { step: z + 3, output: 0 });
    let scale = m.of(OperandV { step: z + 4, output: 0 });
    let zero = m.of(OperandV { step: z + 5, output: 0 });
    let deq = m.of(OperandV { step: z + 6, output: 0 });
    let r = m.name(name);
    let zeros = moe::zero_points(count * blocks, bits);
    assert({
        &&& codes == meaning::constant(kind, full, ConstDataV::Bytes(front), inv)
        &&& scale == meaning::constant(s_type, coarse, ConstDataV::Bytes(s_bytes), inv)
        &&& zero == meaning::constant(kind, coarse, ConstDataV::Bytes(zeros), inv)
        &&& deq == meaning::dequantize(codes, scale, zero)
        &&& r == deq || r == meaning::cast(deq, dtype)
    }) by {
        broadcast use meaning::lemma_holds_push;

    }
    assert forall|e: int, o: int, c: int|
        0 <= e < q.experts && 0 <= o < q.out_rows && 0 <= c < q.in_cols implies #[trigger] r.at3(
        e,
        o,
        c,
    ) == expert_weight(w, s, bits, bs, cols, e, o, c) by {
        lemma_blockwise_at(w, s, q, bits, bs, codes, scale, zero, inv, e, o, c);
        assert(deq.at3(e, o, c) == expert_weight(w, s, bits, bs, cols, e, o, c));
    }
}

/// The block that an element falls into.
proof fn lemma_block_of(
    experts: int,
    rows: int,
    cols: int,
    blocks: int,
    bs: int,
    e: int,
    o: int,
    c: int,
)
    requires
        experts > 0,
        rows > 0,
        cols > 0,
        bs > 0,
        blocks == (cols + bs - 1) / bs,
        blocks == 1 || cols % bs == 0,
        0 <= c < cols,
    ensures
        meaning::block_of(seq![e, o, c], seq![experts, rows, cols], seq![experts, rows, blocks])
            == seq![e, o, c / bs],
{
    lemma_block(cols, blocks, bs, c);
    let i = seq![e, o, c];
    let s = seq![experts, rows, cols];
    let t = seq![experts, rows, blocks];
    assert(experts / experts == 1) by (nonlinear_arith)
        requires
            experts > 0,
    ;
    assert(rows / rows == 1) by (nonlinear_arith)
        requires
            rows > 0,
    ;
    assert(e / 1 == e && o / 1 == o);
    let r = meaning::block_of(i, s, t);
    assert(r.len() == 3);
    assert(r[0] == i[0] / (s[0] / t[0]));
    assert(r[1] == i[1] / (s[1] / t[1]));
    assert(r[2] == i[2] / (s[2] / t[2]));
    assert(r =~= seq![e, o, c / bs]);
}

proof fn lemma_blockwise_at(
    w: InitV,
    s: InitV,
    q: QuantV,
    bits: i64,
    bs: int,
    codes: Tensor,
    scale: Tensor,
    zero: Tensor,
    inv: spec_fn(int) -> real,
    e: int,
    o: int,
    c: int,
)
    requires
        bits == 4 || bits == 8,
        bs > 0,
        q.packed > 0,
        q.in_cols == q.packed * moe::per_byte(bits),
        q.blocks == (q.in_cols + bs - 1) / bs,
        q.blocks == 1 || q.in_cols % bs == 0,
        w.dims[1] == q.out_rows,
        s.dims[2] == q.blocks,
        0 < q.experts,
        0 < q.out_rows,
        w.bytes()->Ok_0.len() >= q.experts * q.out_rows * q.packed,
        ({
            let count = q.experts * q.out_rows;
            let kind = moe::code_type(bits);
            let full = seq![q.experts as int, q.out_rows as int, q.in_cols];
            let coarse = seq![q.experts as int, q.out_rows as int, q.blocks];
            &&& codes == meaning::constant(
                kind,
                full,
                ConstDataV::Bytes(w.bytes()->Ok_0.take(count * q.packed)),
                inv,
            )
            &&& scale == meaning::constant(
                types::mapped_type(s.data_type)->Ok_0,
                coarse,
                ConstDataV::Bytes(s.bytes()->Ok_0),
                inv,
            )
            &&& zero == meaning::constant(
                kind,
                coarse,
                ConstDataV::Bytes(moe::zero_points(count * q.blocks, bits)),
                inv,
            )
        }),
        0 <= e < q.experts,
        0 <= o < q.out_rows,
        0 <= c < q.in_cols,
    ensures
        meaning::dequantize(codes, scale, zero).at3(e, o, c) == expert_weight(
            w,
            s,
            bits,
            bs,
            q.in_cols,
            e,
            o,
            c,
        ),
{
    let experts = q.experts as int;
    let rows = q.out_rows as int;
    let cols = q.in_cols;
    let blocks = q.blocks;
    let count = q.experts * q.out_rows;
    let full = seq![experts, rows, cols];
    let coarse = seq![experts, rows, blocks];
    lemma_block(cols, blocks, bs, c);
    lemma_block_of(experts, rows, cols, blocks, bs, e, o, c);
    let b = c / bs;
    meaning::lemma_place_3(seq![e, o, c], full);
    meaning::lemma_place_3(seq![e, o, b], coarse);
    let row = e * rows + o;
    assert(0 <= row < count) by (nonlinear_arith)
        requires
            row == e * rows + o,
            count == experts * rows,
            0 <= e < experts,
            0 <= o < rows,
    ;
    let n = row * cols + c;
    let k = row * blocks + b;
    assert(0 <= n < count * cols) by (nonlinear_arith)
        requires
            n == row * cols + c,
            0 <= row < count,
            0 <= c < cols,
    ;
    assert(0 <= k < count * blocks) by (nonlinear_arith)
        requires
            k == row * blocks + b,
            0 <= row < count,
            0 <= b < blocks,
    ;
    let data = w.bytes()->Ok_0;
    lemma_payload(data, data.take(count * q.packed), count, q.packed as int, cols, bits, n);
    lemma_zero(count * blocks, bits, k);
    assert(codes.at3(e, o, c) == stored(data, bits, n) as real);
    assert(zero.at3(e, o, b) == (if bits == 4 {
        8int
    } else {
        128int
    }) as real);
}

/// A code from the front of a payload.
proof fn lemma_payload(
    data: Seq<u8>,
    front: Seq<u8>,
    count: int,
    packed: int,
    cols: int,
    bits: i64,
    n: int,
)
    requires
        bits == 4 || bits == 8,
        cols == packed * moe::per_byte(bits),
        0 <= n < count * cols,
        data.len() >= count * packed,
        front == data.take(count * packed),
    ensures
        meaning::element(front, moe::code_type(bits), n) == stored(data, bits, n) as real,
{
    if bits == 4 {
        assert(count * (packed * 2) == 2 * (count * packed)) by (nonlinear_arith);
        assert(0 <= n / 2 < count * packed);
        assert(front[n / 2] == data[n / 2]);
    } else {
        assert(packed * 1 == packed);
        assert(front[n] == data[n]);
    }
}

/// Zero points are the middle of the range.
proof fn lemma_zero(count: int, bits: i64, n: int)
    requires
        bits == 4 || bits == 8,
        0 <= n < count,
    ensures
        meaning::element(moe::zero_points(count, bits), moe::code_type(bits), n) == (if bits == 4 {
            8int
        } else {
            128int
        }) as real,
{
    let v = moe::zero_points(count, bits);
    if bits == 4 {
        assert(0 <= n / 2 < (count + 1) / 2);
        assert(v[n / 2] == 0x88u8);
    } else {
        assert(v[n] == 0x80u8);
    }
}

/// A weight that is expanded.
proof fn lemma_dense_at(
    w: InitV,
    s: InitV,
    q: QuantV,
    bits: i64,
    block_size: i64,
    e: int,
    o: int,
    c: int,
)
    requires
        bits == 4 || bits == 8,
        block_size > 0,
        q.packed > 0,
        q.in_cols == q.packed * moe::per_byte(bits),
        q.blocks == (q.in_cols + block_size - 1) / block_size as int,
        w.dims[1] == q.out_rows,
        s.dims[2] == q.blocks,
        0 <= e < q.experts,
        0 <= o < q.out_rows,
        0 <= c < q.in_cols,
        s.bytes() is Ok,
        s.data_type == protos::TYPE_FLOAT || s.data_type == protos::TYPE_FLOAT16,
        matmul::float_values(s) is Ok,
        matmul::float_values(s)->Ok_0.len() >= q.experts * q.out_rows * q.blocks,
    ensures
        ({
            let v = moe::dense_weights(
                w.bytes()->Ok_0,
                matmul::float_values(s)->Ok_0,
                q,
                bits,
                block_size,
            );
            let n = (e * q.out_rows + o) * q.in_cols + c;
            meaning::number(v[n].0) * meaning::number(v[n].1) == expert_weight(
                w,
                s,
                bits,
                block_size as int,
                q.in_cols,
                e,
                o,
                c,
            )
        }),
{
    lemma_scale_type(s);
    let data = w.bytes()->Ok_0;
    let values = matmul::float_values(s)->Ok_0;
    let products = moe::dense_weights(data, values, q, bits, block_size);
    let bs = block_size as int;
    let cols = q.in_cols;
    let rows = q.out_rows as int;
    let count = q.experts * q.out_rows;
    let blocks = q.blocks;
    let row = e * rows + o;
    assert(0 <= row < count) by (nonlinear_arith)
        requires
            row == e * rows + o,
            count == q.experts * rows,
            0 <= e < q.experts,
            0 <= o < rows,
    ;
    let n = row * cols + c;
    let b = c / bs;
    assert(0 <= b < blocks) by (nonlinear_arith)
        requires
            b == c / bs,
            blocks == (cols + bs - 1) / bs,
            bs > 0,
            0 <= c < cols,
    ;
    assert(0 <= n < count * cols) by (nonlinear_arith)
        requires
            0 <= c < cols,
            n == row * cols + c,
            0 <= row < count,
    ;
    assert(0 <= row * blocks + b < count * blocks) by (nonlinear_arith)
        requires
            0 <= row < count,
            0 <= b < blocks,
    ;
    vstd::arithmetic::div_mod::lemma_fundamental_div_mod_converse(n, cols, row, c);
    lemma_code(data, row, q.packed as int, c, bits);
    let code = stored(data, bits, n);
    assert(0 <= code < 256);
    let zero = moe::quant_zero(bits);
    law_small_integers_are_exact(code - zero);
    assert(products[n].1 == values[row * blocks + b]);
    assert(products[n].0 == FloatBits::Single(floats::int_bits(code - zero) as u32));
}

/// The weights of a quantized mixture of experts, packed or expanded: each is
/// its code less the middle of the range, times the scale of its block.
#[verifier::rlimit(40)]
pub proof fn law_expert_weights(
    ops: Seq<OpV>,
    ctx: ContextV,
    weight: Seq<char>,
    scales: Seq<char>,
    block_size: i64,
    bits: i64,
    dtype: DataType,
    name: Seq<char>,
    m: Reading,
)
    requires
        moe::expert_weights(ops, ctx, weight, scales, block_size, bits, dtype, name).result is Ok,
        meaning::holds(
            moe::expert_weights(ops, ctx, weight, scales, block_size, bits, dtype, name).ops,
            m,
        ),
        moe::quant_in_range(ctx, weight, scales, block_size, bits),
        bits == 4 || bits == 8,
        block_size > 0,
        meaning::is_float(dtype),
        ({
            let w = ctx.initializers[weight];
            let s = ctx.initializers[scales];
            &&& s.data_type == protos::TYPE_FLOAT || s.data_type == protos::TYPE_FLOAT16
            &&& 0 < w.dims[0] <= u32::MAX
            &&& 0 < w.dims[1] <= u32::MAX
            &&& w.dims[2] * 2 <= u32::MAX
        }),
    ensures
        moe::expert_weights(
            ops,
            ctx,
            weight,
            scales,
            block_size,
            bits,
            dtype,
            name,
        ).result->Ok_0.0 == name,
        ({
            let w = ctx.initializers[weight];
            let s = ctx.initializers[scales];
            let cols = if bits == 4 {
                2 * w.dims[2]
            } else {
                w.dims[2] as int
            };
            &&& m.name(name).shape == seq![w.dims[0] as int, w.dims[1] as int, cols]
            &&& forall|e: int, o: int, c: int|
                0 <= e < w.dims[0] && 0 <= o < w.dims[1] && 0 <= c < cols ==> #[trigger] m.name(
                    name,
                ).at3(e, o, c) == expert_weight(
                    w,
                    s,
                    bits,
                    block_size as int,
                    cols,
                    e,
                    o,
                    c,
                )
        }),
{
    let w = ctx.initializers[weight];
    let s = ctx.initializers[scales];
    let q = moe::quant_shape(w, bits, block_size);
    let data = w.bytes()->Ok_0;
    let bs = block_size as int;
    let cols = q.in_cols;
    let rows = q.out_rows as int;
    lemma_scale_type(s);
    if moe::even_blocks(q, block_size) {
        lemma_blockwise(ops, w, s, q, bits, block_size, dtype, name, m);
    } else {
        let values = matmul::float_values(s)->Ok_0;
        let count = q.experts * q.out_rows;
        let full = seq![q.experts as int, rows, cols];
        assert(meaning::naturals(seq![q.experts as u32, q.out_rows as u32, q.in_cols as u32])
            =~= full);
        let products = moe::dense_weights(data, values, q, bits, block_size);
        let r = m.name(name);
        assert(r == meaning::constant(
            ops::float_type(dtype),
            full,
            ConstDataV::Products(products),
            m.functions.inverse_sqrt,
        )) by {
            broadcast use meaning::lemma_holds_push;

        }
        assert forall|e: int, o: int, c: int|
            0 <= e < q.experts && 0 <= o < q.out_rows && 0 <= c < cols implies #[trigger] r.at3(
            e,
            o,
            c,
        ) == expert_weight(w, s, bits, bs, cols, e, o, c) by {
            lemma_dense_at(w, s, q, bits, block_size, e, o, c);
            meaning::lemma_place_3(seq![e, o, c], full);
        }
    }
}

} // verus!
