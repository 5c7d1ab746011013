//! Lowered plans are well formed: every step reads only operands that earlier
//! steps produce, and lowering a node leaves the steps before it as they are.
use crate::arith;
use crate::builder;
use crate::builder::{BinaryOp, ConstDataV, Direction, OpV, OperandV};
use crate::bytes;
use crate::context::ContextV;
use crate::ops;
use crate::ops::attention;
use crate::ops::attention::{GqaV, PairOutcome, SourcesV};
use crate::ops::einsum;
use crate::ops::einsum::TermV;
use crate::ops::matmul;
use crate::ops::moe;
use crate::ops::moe::{GeometryV, MoeV, PeelV};
use crate::ops::rnn;
use crate::ops::rnn::{OutputsV, RotaryV};
use crate::ops::{Part, PartOutcome};
use crate::protos::NodeV;
use crate::registry;
use crate::registry::Handler;
use crate::types::DataType;
use vstd::prelude::*;

verus! {

broadcast use builder::group_plans;

/// The plan continues and its last step leaves an operand.
pub open spec fn leads_on(ops: Seq<OpV>, more: Seq<OpV>) -> bool {
    builder::continues(ops, more) && builder::defined(more, builder::last_operand(more))
}

/// The plan continues and leaves the operand of a part.
pub open spec fn part_leads_on(ops: Seq<OpV>, part: Part) -> bool {
    builder::continues(ops, part.ops) && builder::defined(part.ops, part.operand)
}

/// The plan continues and, without an error, leaves the operand of a part.
pub open spec fn outcome_leads_on(ops: Seq<OpV>, part: PartOutcome) -> bool {
    &&& builder::continues(ops, part.ops)
    &&& part.result matches Ok(o) ==> builder::defined(part.ops, o)
}

/// The plan continues and, without an error, leaves two operands.
pub open spec fn pair_leads_on(ops: Seq<OpV>, pair: PairOutcome) -> bool {
    &&& builder::continues(ops, pair.ops)
    &&& pair.result matches Ok(o) ==> builder::defined(pair.ops, o.0) && builder::defined(
        pair.ops,
        o.1,
    )
}

// ---------------------------------------------------------------------------
// Matrix products
// ---------------------------------------------------------------------------

proof fn lemma_matmul(node: NodeV, name: Seq<char>, ops: Seq<OpV>)
    requires
        builder::well_formed(ops),
    ensures
        builder::continues(ops, matmul::matmul_outcome(node, name, ops).ops),
{
}

proof fn lemma_gemm(node: NodeV, name: Seq<char>, ops: Seq<OpV>)
    requires
        builder::well_formed(ops),
    ensures
        builder::continues(ops, matmul::gemm_outcome(node, name, ops).ops),
{
}

proof fn lemma_centered(
    ops: Seq<OpV>,
    operand: Seq<char>,
    zero_point: Option<Seq<char>>,
    ctx: ContextV,
    per_row: bool,
    label: Seq<char>,
)
    requires
        builder::well_formed(ops),
    ensures
        leads_on(ops, matmul::centered(ops, operand, zero_point, ctx, per_row, label)),
{
}

proof fn lemma_integer(node: NodeV, name: Seq<char>, ctx: ContextV, ops: Seq<OpV>)
    requires
        builder::well_formed(ops),
    ensures
        builder::continues(ops, matmul::integer_outcome(node, name, ctx, ops).ops),
{
    let label = node.label(name);
    let o1 = matmul::centered(ops, node.input[0], node.input_at(2), ctx, true, label + "_a"@);
    lemma_centered(ops, node.input[0], node.input_at(2), ctx, true, label + "_a"@);
    let o2 = matmul::centered(o1, node.input[1], node.input_at(3), ctx, false, label + "_b"@);
    lemma_centered(o1, node.input[1], node.input_at(3), ctx, false, label + "_b"@);
    builder::lemma_continues_trans(ops, o1, o2);
    builder::lemma_defined_continues(o1, o2, builder::last_operand(o1));
}

proof fn lemma_unpack(
    ops: Seq<OpV>,
    blob: OperandV,
    c16: OperandV,
    half: u32,
    total: i64,
    label: Seq<char>,
)
    requires
        builder::well_formed(ops),
        builder::defined(ops, blob),
        builder::defined(ops, c16),
    ensures
        leads_on(ops, matmul::unpack_steps(ops, blob, c16, half, total, label)),
{
}

proof fn lemma_bnb_packed(
    ops: Seq<OpV>,
    node: NodeV,
    dtype: DataType,
    p: matmul::BnbV,
    label: Seq<char>,
)
    requires
        builder::well_formed(ops),
    ensures
        builder::continues(ops, matmul::bnb_packed_steps(ops, node, dtype, p, label)),
{
    let half = p.packed.len() as u32;
    let blocks = p.absmax.len() as i64;
    let total = (p.n * p.k) as i64;
    let o1 = matmul::constant_steps(
        ops,
        label + "__blob"@,
        DataType::Uint8,
        seq![half],
        ConstDataV::Bytes(p.packed),
    );
    let o2 = matmul::constant_steps(
        o1,
        label + "__c16"@,
        DataType::Int32,
        seq![1],
        ConstDataV::Bytes(bytes::le_bytes(16, 4)),
    );
    let o3 = matmul::constant_steps(
        o2,
        label + "__codebook"@,
        dtype,
        seq![16],
        ConstDataV::Floats(p.codebook),
    );
    let o4 = matmul::constant_steps(
        o3,
        label + "__absmax"@,
        dtype,
        seq![blocks as u32, 1],
        ConstDataV::Floats(p.absmax),
    );
    assert(builder::continues(ops, o4));
    let blob = builder::last_operand(o1);
    let c16 = builder::last_operand(o2);
    let codebook = builder::last_operand(o3);
    let scales = builder::last_operand(o4);
    assert(builder::defined(o4, blob) && builder::defined(o4, c16));
    assert(builder::defined(o4, codebook) && builder::defined(o4, scales));
    let o5 = matmul::unpack_steps(o4, blob, c16, half, total, label);
    lemma_unpack(o4, blob, c16, half, total, label);
    builder::lemma_continues_trans(ops, o4, o5);
    builder::lemma_defined_continues(o4, o5, codebook);
    builder::lemma_defined_continues(o4, o5, scales);
}

proof fn lemma_bnb(node: NodeV, name: Seq<char>, ctx: ContextV, ops: Seq<OpV>)
    requires
        builder::well_formed(ops),
    ensures
        builder::continues(ops, matmul::bnb_outcome(node, name, ctx, ops).ops),
{
    if let Ok(p) = matmul::bnb_params(node, name, ctx) {
        lemma_bnb_packed(ops, node, ctx.dtype(node.input[0]), p, node.label(name));
    }
}

proof fn lemma_nbits_product(
    ops: Seq<OpV>,
    dequantized: OperandV,
    node: NodeV,
    p: matmul::NbitsV,
    label: Seq<char>,
)
    requires
        builder::well_formed(ops),
        builder::defined(ops, dequantized),
    ensures
        builder::continues(ops, matmul::nbits_product(ops, dequantized, node, p, label)),
{
    let o1 = matmul::nbits_rows(ops, dequantized, p, label);
    assert(leads_on(ops, o1));
}

proof fn lemma_nbits(node: NodeV, name: Seq<char>, ctx: ContextV, ops: Seq<OpV>)
    requires
        builder::well_formed(ops),
    ensures
        builder::continues(ops, matmul::nbits_outcome(node, name, ctx, ops).ops),
{
    if let Ok(p) = matmul::nbits_params(node, name, ctx) {
        if let Ok(packed) = p.weight.bytes() {
            let label = node.label(name);
            let o1 = matmul::constant_steps(
                ops,
                label + "__B_quant"@,
                DataType::Uint4,
                seq![p.n as u32, p.n_blocks, (p.blob_size * 2) as u32],
                ConstDataV::Bytes(packed),
            );
            assert(leads_on(ops, o1));
            let scales = matmul::nbits_scales(o1, node, name, ctx, p, label);
            assert(outcome_leads_on(o1, scales));
            builder::lemma_continues_trans(ops, o1, scales.ops);
            if let Ok(scale) = scales.result {
                let zero = matmul::zero_point_outcome(
                    scales.ops,
                    ctx,
                    node.input_at(3),
                    p.n as u32,
                    p.n_blocks,
                    4,
                    label + "__zero_point"@,
                );
                assert(outcome_leads_on(scales.ops, zero));
                builder::lemma_continues_trans(ops, scales.ops, zero.ops);
                builder::lemma_continues_trans(o1, scales.ops, zero.ops);
                builder::lemma_defined_continues(o1, zero.ops, builder::last_operand(o1));
                builder::lemma_defined_continues(scales.ops, zero.ops, scale);
                if let Ok(zero_point) = zero.result {
                    let o2 = zero.ops.push(
                        OpV::Dequantize { input: builder::last_operand(o1), scale, zero_point },
                    );
                    assert(builder::continues(ops, o2));
                    let d = builder::last_operand(o2);
                    lemma_nbits_product(o2, d, node, p, label);
                    builder::lemma_continues_trans(
                        ops,
                        o2,
                        matmul::nbits_product(o2, d, node, p, label),
                    );
                }
            }
        }
    }
}

proof fn lemma_matrix_products(node: NodeV, ctx: ContextV, ops: Seq<OpV>)
    requires
        builder::well_formed(ops),
    ensures
        builder::continues(ops, matmul::handler_outcome(node, ctx, ops).ops),
{
    let name = node.display_name();
    lemma_matmul(node, name, ops);
    lemma_gemm(node, name, ops);
    lemma_nbits(node, name, ctx, ops);
    lemma_integer(node, name, ctx, ops);
    lemma_bnb(node, name, ctx, ops);
}

// ---------------------------------------------------------------------------
// Attention
// ---------------------------------------------------------------------------

proof fn lemma_heads(ops: Seq<OpV>, input: OperandV, p: GqaV, heads: i64, label: Seq<char>)
    requires
        builder::well_formed(ops),
        builder::defined(ops, input),
    ensures
        leads_on(ops, attention::heads_steps(ops, input, p, heads, label)),
{
}

proof fn lemma_rotation(
    ops: Seq<OpV>,
    x1: OperandV,
    x2: OperandV,
    cos: OperandV,
    sin: OperandV,
)
    requires
        builder::well_formed(ops),
        builder::defined(ops, x1),
        builder::defined(ops, x2),
        builder::defined(ops, cos),
        builder::defined(ops, sin),
    ensures
        ({
            let r = attention::rotation_steps(ops, x1, x2, cos, sin);
            leads_on(ops, r) && builder::defined(r, attention::rotation_real(r))
        }),
{
    reveal(builder::defined);
}

proof fn lemma_cache_rows(
    ops: Seq<OpV>,
    cos: OperandV,
    sin: OperandV,
    p: GqaV,
    half: i64,
    label: Seq<char>,
)
    requires
        builder::well_formed(ops),
        builder::defined(ops, cos),
        builder::defined(ops, sin),
    ensures
        ({
            let r = attention::cache_rows_steps(ops, cos, sin, p, half, label);
            leads_on(ops, r) && builder::defined(r, attention::second_last(r))
        }),
{
    reveal(builder::defined);
}

proof fn lemma_components(
    ops: Seq<OpV>,
    x: OperandV,
    p: GqaV,
    heads: i64,
    half: i64,
    label: Seq<char>,
)
    requires
        builder::well_formed(ops),
        builder::defined(ops, x),
    ensures
        ({
            let r = attention::components_steps(ops, x, p, heads, half, label);
            leads_on(ops, r) && builder::defined(r, attention::second_last(r))
        }),
{
    reveal(builder::defined);
}

proof fn lemma_join(
    ops: Seq<OpV>,
    re: OperandV,
    im: OperandV,
    p: GqaV,
    heads: i64,
    half: i64,
    label: Seq<char>,
)
    requires
        builder::well_formed(ops),
        builder::defined(ops, re),
        builder::defined(ops, im),
    ensures
        leads_on(ops, attention::join_steps(ops, re, im, p, heads, half, label)),
{
}

proof fn lemma_rotary_steps(
    ops: Seq<OpV>,
    x: OperandV,
    cos: OperandV,
    sin: OperandV,
    p: GqaV,
    heads: i64,
    half: i64,
    label: Seq<char>,
)
    requires
        builder::well_formed(ops),
        builder::defined(ops, x),
        builder::defined(ops, cos),
        builder::defined(ops, sin),
    ensures
        leads_on(ops, attention::rotary_steps(ops, x, cos, sin, p, heads, half, label)),
{
    let rotary_dim = (half * 2) as i64;
    let rows = attention::cache_rows_steps(ops, cos, sin, p, half, label);
    lemma_cache_rows(ops, cos, sin, p, half, label);
    builder::lemma_defined_continues(ops, rows, x);
    let partial = rotary_dim < p.head_dim;
    let taken = if partial {
        rows.push(
            attention::slice_op(
                x,
                seq![0, 0, 0, 0],
                seq![p.batch, p.seq, heads, rotary_dim],
                seq![],
                label + "_rotate"@,
            ),
        )
    } else {
        rows
    };
    let x_rotate = if partial {
        builder::last_operand(taken)
    } else {
        x
    };
    assert(builder::continues(ops, taken));
    assert(builder::continues(rows, taken));
    let parts = attention::components_steps(taken, x_rotate, p, heads, half, label);
    lemma_components(taken, x_rotate, p, heads, half, label);
    let x1 = attention::second_last(parts);
    let x2 = builder::last_operand(parts);
    let c = attention::second_last(rows);
    let s = builder::last_operand(rows);
    builder::lemma_continues_trans(rows, taken, parts);
    builder::lemma_continues_trans(ops, taken, parts);
    builder::lemma_defined_continues(rows, parts, c);
    builder::lemma_defined_continues(rows, parts, s);
    let turned = attention::rotation_steps(parts, x1, x2, c, s);
    lemma_rotation(parts, x1, x2, c, s);
    builder::lemma_continues_trans(ops, parts, turned);
    let re = attention::rotation_real(turned);
    let im = builder::last_operand(turned);
    let joined = attention::join_steps(turned, re, im, p, heads, half, label);
    lemma_join(turned, re, im, p, heads, half, label);
    builder::lemma_continues_trans(ops, turned, joined);
    builder::lemma_defined_continues(ops, joined, x);
}

proof fn lemma_rotary_outcome(
    ops: Seq<OpV>,
    x: OperandV,
    cos: OperandV,
    sin: OperandV,
    cache: Seq<i64>,
    p: GqaV,
    heads: i64,
    label: Seq<char>,
)
    requires
        builder::well_formed(ops),
        builder::defined(ops, x),
        builder::defined(ops, cos),
        builder::defined(ops, sin),
    ensures
        outcome_leads_on(
            ops,
            attention::rotary_outcome(ops, x, cos, sin, cache, p, heads, label),
        ),
{
    lemma_rotary_steps(ops, x, cos, sin, p, heads, cache[1], label);
}

proof fn lemma_rotated_side(
    ops: Seq<OpV>,
    input: OperandV,
    cos: OperandV,
    sin: OperandV,
    cache: Seq<i64>,
    p: GqaV,
    heads: i64,
    label: Seq<char>,
)
    requires
        builder::well_formed(ops),
        builder::defined(ops, input),
        builder::defined(ops, cos),
        builder::defined(ops, sin),
    ensures
        outcome_leads_on(
            ops,
            attention::rotated_side(ops, input, cos, sin, cache, p, heads, label),
        ),
{
    let o1 = ops.push(
        OpV::Reshape {
            input,
            shape: seq![p.batch, p.seq, heads, p.head_dim],
            label: label + "_split"@,
        },
    );
    assert(builder::continues(ops, o1));
    let x = builder::last_operand(o1);
    let turned = attention::rotary_outcome(
        o1,
        x,
        cos,
        sin,
        cache,
        p,
        heads,
        label + "_rotary"@,
    );
    lemma_rotary_outcome(o1, x, cos, sin, cache, p, heads, label + "_rotary"@);
    builder::lemma_continues_trans(ops, o1, turned.ops);
}

proof fn lemma_sources(ops: Seq<OpV>, node: NodeV, p: GqaV, label: Seq<char>)
    requires
        builder::well_formed(ops),
    ensures
        ({
            let r = attention::sources(ops, node, p, label);
            &&& builder::continues(ops, r.ops)
            &&& builder::defined(r.ops, r.q)
            &&& builder::defined(r.ops, r.k)
            &&& builder::defined(r.ops, r.v)
            &&& builder::defined(r.ops, r.past_key)
            &&& builder::defined(r.ops, r.past_value)
        }),
{
    reveal(builder::defined);
}

proof fn lemma_query_and_key(
    ops: Seq<OpV>,
    q: OperandV,
    k: OperandV,
    p: GqaV,
    ctx: ContextV,
    label: Seq<char>,
)
    requires
        builder::well_formed(ops),
        builder::defined(ops, q),
        builder::defined(ops, k),
    ensures
        pair_leads_on(ops, attention::query_and_key(ops, q, k, p, ctx, label)),
{
    match p.rotary {
        Some((cos, sin)) => {
            if let Some(cache) = ctx.shape(cos) {
                let o1 = ops::resolved(ops, cos);
                let o2 = ops::resolved(o1, sin);
                assert(builder::continues(ops, o2));
                let c = builder::last_operand(o1);
                let s = builder::last_operand(o2);
                let qs = attention::rotated_side(o2, q, c, s, cache, p, p.num_heads, label + "_q"@);
                lemma_rotated_side(o2, q, c, s, cache, p, p.num_heads, label + "_q"@);
                builder::lemma_continues_trans(ops, o2, qs.ops);
                if let Ok(qo) = qs.result {
                    builder::lemma_defined_continues(o2, qs.ops, c);
                    builder::lemma_defined_continues(o2, qs.ops, s);
                    builder::lemma_defined_continues(ops, qs.ops, k);
                    let ks = attention::rotated_side(
                        qs.ops,
                        k,
                        c,
                        s,
                        cache,
                        p,
                        p.kv_num_heads,
                        label + "_k"@,
                    );
                    lemma_rotated_side(qs.ops, k, c, s, cache, p, p.kv_num_heads, label + "_k"@);
                    builder::lemma_continues_trans(ops, qs.ops, ks.ops);
                    builder::lemma_defined_continues(qs.ops, ks.ops, qo);
                }
            }
        },
        None => {
            let qs = attention::heads_steps(ops, q, p, p.num_heads, label + "_q"@);
            lemma_heads(ops, q, p, p.num_heads, label + "_q"@);
            builder::lemma_defined_continues(ops, qs, k);
            let ks = attention::heads_steps(qs, k, p, p.kv_num_heads, label + "_k"@);
            lemma_heads(qs, k, p, p.kv_num_heads, label + "_k"@);
            builder::lemma_continues_trans(ops, qs, ks);
            builder::lemma_defined_continues(qs, ks, builder::last_operand(qs));
        },
    }
}

proof fn lemma_appended(
    ops: Seq<OpV>,
    past: OperandV,
    new: OperandV,
    p: GqaV,
    label: Seq<char>,
)
    requires
        builder::well_formed(ops),
        builder::defined(ops, past),
        builder::defined(ops, new),
    ensures
        part_leads_on(ops, attention::appended(ops, past, new, p, label)),
{
}

proof fn lemma_repeated(ops: Seq<OpV>, input: OperandV, p: GqaV, label: Seq<char>)
    requires
        builder::well_formed(ops),
        builder::defined(ops, input),
    ensures
        part_leads_on(ops, attention::repeated(ops, input, p, label)),
{
}

proof fn lemma_attention_steps(
    ops: Seq<OpV>,
    q: OperandV,
    key_heads: OperandV,
    value_heads: OperandV,
    p: GqaV,
    label: Seq<char>,
)
    requires
        builder::well_formed(ops),
        builder::defined(ops, q),
        builder::defined(ops, key_heads),
        builder::defined(ops, value_heads),
    ensures
        leads_on(ops, attention::attention_steps(ops, q, key_heads, value_heads, p, label)),
{
}

proof fn lemma_attend(
    ops: Seq<OpV>,
    q: OperandV,
    k: OperandV,
    src: SourcesV,
    node: NodeV,
    p: GqaV,
    label: Seq<char>,
)
    requires
        builder::well_formed(ops),
        builder::defined(ops, q),
        builder::defined(ops, k),
        builder::defined(ops, src.v),
        builder::defined(ops, src.past_key),
        builder::defined(ops, src.past_value),
    ensures
        builder::continues(ops, attention::attend(ops, q, k, src, node, p, label)),
{
    let vs = attention::heads_steps(ops, src.v, p, p.kv_num_heads, label + "_v"@);
    lemma_heads(ops, src.v, p, p.kv_num_heads, label + "_v"@);
    let v = builder::last_operand(vs);
    builder::lemma_defined_continues(ops, vs, src.past_key);
    builder::lemma_defined_continues(ops, vs, k);
    let key = attention::appended(vs, src.past_key, k, p, label + "_present_key"@);
    lemma_appended(vs, src.past_key, k, p, label + "_present_key"@);
    builder::lemma_continues_trans(ops, vs, key.ops);
    builder::lemma_defined_continues(ops, key.ops, src.past_value);
    builder::lemma_defined_continues(vs, key.ops, v);
    let value = attention::appended(key.ops, src.past_value, v, p, label + "_present_value"@);
    lemma_appended(key.ops, src.past_value, v, p, label + "_present_value"@);
    builder::lemma_continues_trans(ops, key.ops, value.ops);
    builder::lemma_defined_continues(key.ops, value.ops, key.operand);
    let kh = attention::repeated(value.ops, key.operand, p, label + "_key"@);
    lemma_repeated(value.ops, key.operand, p, label + "_key"@);
    builder::lemma_continues_trans(ops, value.ops, kh.ops);
    builder::lemma_defined_continues(value.ops, kh.ops, value.operand);
    builder::lemma_defined_continues(value.ops, kh.ops, key.operand);
    let vh = attention::repeated(kh.ops, value.operand, p, label + "_value"@);
    lemma_repeated(kh.ops, value.operand, p, label + "_value"@);
    builder::lemma_continues_trans(ops, kh.ops, vh.ops);
    builder::lemma_defined_continues(ops, vh.ops, q);
    builder::lemma_defined_continues(kh.ops, vh.ops, kh.operand);
    builder::lemma_defined_continues(kh.ops, vh.ops, key.operand);
    builder::lemma_defined_continues(kh.ops, vh.ops, value.operand);
    let done = attention::attention_steps(vh.ops, q, kh.operand, vh.operand, p, label);
    lemma_attention_steps(vh.ops, q, kh.operand, vh.operand, p, label);
    builder::lemma_continues_trans(ops, vh.ops, done);
    builder::lemma_defined_continues(vh.ops, done, key.operand);
    builder::lemma_defined_continues(vh.ops, done, value.operand);
}

proof fn lemma_gqa(node: NodeV, name: Seq<char>, ctx: ContextV, ops: Seq<OpV>)
    requires
        builder::well_formed(ops),
    ensures
        builder::continues(ops, attention::gqa_outcome(node, name, ctx, ops).ops),
{
    if let Ok(p) = attention::gqa_params(node, name, ctx) {
        let label = node.label(name);
        let src = attention::sources(ops, node, p, label);
        lemma_sources(ops, node, p, label);
        let qk = attention::query_and_key(src.ops, src.q, src.k, p, ctx, label);
        lemma_query_and_key(src.ops, src.q, src.k, p, ctx, label);
        builder::lemma_continues_trans(ops, src.ops, qk.ops);
        if let Ok((q, k)) = qk.result {
            builder::lemma_defined_continues(src.ops, qk.ops, src.v);
            builder::lemma_defined_continues(src.ops, qk.ops, src.past_key);
            builder::lemma_defined_continues(src.ops, qk.ops, src.past_value);
            lemma_attend(qk.ops, q, k, src, node, p, label);
            builder::lemma_continues_trans(
                ops,
                qk.ops,
                attention::attend(qk.ops, q, k, src, node, p, label),
            );
        }
    }
}

// ---------------------------------------------------------------------------
// Einsum
// ---------------------------------------------------------------------------

/// Every term's operand is one that the plan produces.
pub open spec fn terms_defined(ops: Seq<OpV>, terms: Seq<TermV>) -> bool {
    forall|i: int| 0 <= i < terms.len() ==> builder::defined(ops, (#[trigger] terms[i]).operand)
}

proof fn lemma_load_terms(
    ops: Seq<OpV>,
    found: Seq<TermV>,
    node: NodeV,
    ctx: ContextV,
    specs: Seq<Seq<char>>,
    equation: Seq<char>,
    from: int,
)
    requires
        builder::well_formed(ops),
        terms_defined(ops, found),
        found.len() == from,
        from <= node.input.len(),
    ensures
        ({
            let r = einsum::load_terms(ops, found, node, ctx, specs, equation, from);
            &&& builder::continues(ops, r.ops)
            &&& r.result matches Ok(t) ==> terms_defined(r.ops, t) && t.len() == node.input.len()
        }),
    decreases node.input.len() - from,
{
    if from < node.input.len() {
        let name = node.input[from];
        if einsum::shape_error(
            from,
            name,
            specs[from].len() as int,
            ctx.shape(name),
            equation,
        ) is None {
            let o = ops::resolved(ops, name);
            let t = TermV {
                operand: builder::last_operand(o),
                labels: specs[from],
                dims: ctx.shape(name)->0,
            };
            assert(builder::continues(ops, o));
            let more = found.push(t);
            assert forall|i: int| 0 <= i < more.len() implies builder::defined(
                o,
                (#[trigger] more[i]).operand,
            ) by {
                if i < found.len() {
                    assert(more[i] == found[i]);
                }
            }
            lemma_load_terms(o, more, node, ctx, specs, equation, from + 1);
            builder::lemma_continues_trans(
                ops,
                o,
                einsum::load_terms(o, more, node, ctx, specs, equation, from + 1).ops,
            );
        }
    }
}

proof fn lemma_reordered(ops: Seq<OpV>, t: TermV, target: Seq<char>, label: Seq<char>)
    requires
        builder::well_formed(ops),
        builder::defined(ops, t.operand),
    ensures
        part_leads_on(ops, einsum::reordered(ops, t, target, label)),
{
}

proof fn lemma_contracted_pair(
    ops: Seq<OpV>,
    a: TermV,
    b: TermV,
    output: Seq<char>,
    label: Seq<char>,
)
    requires
        builder::well_formed(ops),
        builder::defined(ops, a.operand),
        builder::defined(ops, b.operand),
    ensures
        part_leads_on(ops, einsum::contracted_pair(ops, a, b, output, label)),
{
    let g = einsum::groups(a.labels, b.labels, output);
    let batch_dims = einsum::sizes_of(a.labels, a.dims, g.batch);
    let nb = arith::product(batch_dims) as i64;
    let fa = arith::product(einsum::sizes_of(a.labels, a.dims, g.free_a)) as i64;
    let c = arith::product(einsum::sizes_of(a.labels, a.dims, g.contracted)) as i64;
    let fb = arith::product(einsum::sizes_of(b.labels, b.dims, g.free_b)) as i64;
    let a_order = g.batch + g.free_a + g.contracted;
    let a_t = einsum::reordered(ops, a, a_order, label + "__a_perm"@);
    lemma_reordered(ops, a, a_order, label + "__a_perm"@);
    let o1 = a_t.ops.push(
        OpV::Reshape { input: a_t.operand, shape: seq![nb, fa, c], label: label + "__a_3d"@ },
    );
    assert(leads_on(ops, o1));
    builder::lemma_defined_continues(ops, o1, b.operand);
    let b_order = g.batch + g.contracted + g.free_b;
    let b_t = einsum::reordered(o1, b, b_order, label + "__b_perm"@);
    lemma_reordered(o1, b, b_order, label + "__b_perm"@);
    builder::lemma_continues_trans(ops, o1, b_t.ops);
    builder::lemma_defined_continues(o1, b_t.ops, builder::last_operand(o1));
    let o2 = b_t.ops.push(
        OpV::Reshape { input: b_t.operand, shape: seq![nb, c, fb], label: label + "__b_3d"@ },
    );
    let o3 = o2.push(
        ops::binary_op(
            BinaryOp::Matmul,
            builder::last_operand(o1),
            builder::last_operand(o2),
            label + "__matmul"@,
        ),
    );
    let unpacked = batch_dims + einsum::sizes_of(a.labels, a.dims, g.free_a) + einsum::sizes_of(
        b.labels,
        b.dims,
        g.free_b,
    );
    let o4 = o3.push(
        OpV::Reshape {
            input: builder::last_operand(o3),
            shape: unpacked,
            label: label + "__unpacked"@,
        },
    );
    assert(leads_on(ops, o4));
    let t = TermV {
        operand: builder::last_operand(o4),
        labels: g.batch + g.free_a + g.free_b,
        dims: unpacked,
    };
    lemma_reordered(o4, t, output, label + "__out_perm"@);
    builder::lemma_continues_trans(
        ops,
        o4,
        einsum::reordered(o4, t, output, label + "__out_perm"@).ops,
    );
}

proof fn lemma_contracted(
    ops: Seq<OpV>,
    terms: Seq<TermV>,
    p: einsum::ParsedV,
    label: Seq<char>,
)
    requires
        builder::well_formed(ops),
        terms_defined(ops, terms),
        1 <= terms.len() <= 2,
    ensures
        part_leads_on(ops, einsum::contracted(ops, terms, p, label)),
{
    assert(builder::defined(ops, terms[0].operand));
    let first = einsum::sum_term(ops, terms[0], p.input_specs, p.output_spec, 0, label);
    assert(builder::continues(ops, first.ops));
    assert(builder::defined(first.ops, first.term.operand));
    if terms.len() == 1 {
        lemma_reordered(first.ops, first.term, p.output_spec, label + "__perm"@);
        builder::lemma_continues_trans(
            ops,
            first.ops,
            einsum::reordered(first.ops, first.term, p.output_spec, label + "__perm"@).ops,
        );
    } else {
        assert(builder::defined(ops, terms[1].operand));
        builder::lemma_defined_continues(ops, first.ops, terms[1].operand);
        let second = einsum::sum_term(
            first.ops,
            terms[1],
            p.input_specs,
            p.output_spec,
            1,
            label,
        );
        assert(builder::continues(first.ops, second.ops));
        assert(builder::defined(second.ops, second.term.operand));
        builder::lemma_continues_trans(ops, first.ops, second.ops);
        builder::lemma_defined_continues(first.ops, second.ops, first.term.operand);
        lemma_contracted_pair(second.ops, first.term, second.term, p.output_spec, label);
        builder::lemma_continues_trans(
            ops,
            second.ops,
            einsum::contracted_pair(
                second.ops,
                first.term,
                second.term,
                p.output_spec,
                label,
            ).ops,
        );
    }
}

proof fn lemma_einsum(node: NodeV, name: Seq<char>, ctx: ContextV, ops: Seq<OpV>)
    requires
        builder::well_formed(ops),
    ensures
        builder::continues(ops, einsum::einsum_outcome(node, name, ctx, ops).ops),
{
    if let Ok(p) = einsum::einsum_params(node, name) {
        let equation = einsum::node_equation(node)->0;
        let loaded = einsum::load_terms(
            ops,
            seq![],
            node,
            ctx,
            p.input_specs,
            equation,
            0,
        );
        lemma_load_terms(ops, seq![], node, ctx, p.input_specs, equation, 0);
        if let Ok(terms) = loaded.result {
            lemma_contracted(loaded.ops, terms, p, node.label(name));
            builder::lemma_continues_trans(
                ops,
                loaded.ops,
                einsum::contracted(loaded.ops, terms, p, node.label(name)).ops,
            );
        }
    }
}

// ---------------------------------------------------------------------------
// Mixture of experts
// ---------------------------------------------------------------------------

proof fn lemma_weight_source(
    ops: Seq<OpV>,
    node: NodeV,
    ctx: ContextV,
    p: MoeV,
    index: int,
    which: Seq<char>,
    name: Seq<char>,
)
    requires
        builder::well_formed(ops),
    ensures
        builder::continues(ops, moe::weight_source(ops, node, ctx, p, index, which, name).ops),
{
}

/// The operands that peeling works on are ones that the plan produces.
pub open spec fn peel_defined(s: PeelV, big: OperandV) -> bool {
    &&& builder::defined(s.ops, s.work)
    &&& builder::defined_opt(s.ops, s.selected)
    &&& builder::defined(s.ops, big)
}

proof fn lemma_peel(
    s: PeelV,
    i: int,
    k: int,
    dtype: DataType,
    big: OperandV,
    label: Seq<char>,
)
    requires
        builder::well_formed(s.ops),
        peel_defined(s, big),
    ensures
        ({
            let r = moe::peel(s, i, k, dtype, big, label);
            &&& builder::continues(s.ops, r.ops)
            &&& peel_defined(r, big)
            &&& i < k || s.selected is Some ==> r.selected is Some
        }),
    decreases k - i,
{
    if i < k {
        let t = moe::peel_once(s, i, k, dtype, big, label);
        assert(builder::continues(s.ops, t.ops) && peel_defined(t, big) && t.selected is Some);
        lemma_peel(t, i + 1, k, dtype, big, label);
        builder::lemma_continues_trans(
            s.ops,
            t.ops,
            moe::peel(t, i + 1, k, dtype, big, label).ops,
        );
    }
}

proof fn lemma_routing(
    ops: Seq<OpV>,
    logits_in: OperandV,
    p: MoeV,
    g: GeometryV,
    label: Seq<char>,
)
    requires
        builder::well_formed(ops),
        builder::defined(ops, logits_in),
    ensures
        part_leads_on(ops, moe::routing(ops, logits_in, p, g, label)),
{
    let k = moe::taken(p.k, g.experts);
    let o0 = if p.x_shape.len() != 2 {
        ops.push(
            OpV::Reshape {
                input: logits_in,
                shape: seq![g.rows, g.experts],
                label: label + "_logits2d"@,
            },
        )
    } else {
        ops
    };
    let logits = if p.x_shape.len() != 2 {
        builder::last_operand(o0)
    } else {
        logits_in
    };
    assert(builder::continues(ops, o0) && builder::defined(o0, logits));
    if k < g.experts {
        let o1 = ops::scalar_steps(o0, label + "__big"@, p.dtype, moe::big_value(p.dtype));
        let big = builder::last_operand(o1);
        assert(builder::continues(ops, o1) && builder::defined(o1, big));
        assert(builder::defined(o1, logits));
        let start = PeelV { ops: o1, work: logits, selected: None };
        let top = moe::peel(start, 0, k as int, p.dtype, big, label);
        lemma_peel(start, 0, k as int, p.dtype, big, label);
        builder::lemma_continues_trans(ops, o1, top.ops);
        builder::lemma_defined_continues(o1, top.ops, logits);
    }
}

proof fn lemma_expert_matmul(
    ops: Seq<OpV>,
    x: OperandV,
    w_name: Seq<char>,
    bias: Option<Seq<char>>,
    experts: i64,
    out_cols: i64,
    label: Seq<char>,
)
    requires
        builder::well_formed(ops),
        builder::defined(ops, x),
    ensures
        leads_on(ops, moe::expert_matmul(ops, x, w_name, bias, experts, out_cols, label)),
{
}

proof fn lemma_activation(ops: Seq<OpV>, fc1: OperandV, p: MoeV, g: GeometryV, label: Seq<char>)
    requires
        builder::well_formed(ops),
        builder::defined(ops, fc1),
    ensures
        leads_on(ops, moe::activation_steps(ops, fc1, p, g, label)),
{
}

proof fn lemma_spread(ops: Seq<OpV>, x_in: OperandV, p: MoeV, g: GeometryV, label: Seq<char>)
    requires
        builder::well_formed(ops),
        builder::defined(ops, x_in),
    ensures
        leads_on(ops, moe::spread_steps(ops, x_in, p, g, label)),
{
}

proof fn lemma_blend(
    ops: Seq<OpV>,
    weights: OperandV,
    expert_out: OperandV,
    p: MoeV,
    g: GeometryV,
    label: Seq<char>,
)
    requires
        builder::well_formed(ops),
        builder::defined(ops, weights),
        builder::defined(ops, expert_out),
    ensures
        leads_on(ops, moe::blend(ops, weights, expert_out, p, g, label)),
{
}

proof fn lemma_moe_steps(
    ops: Seq<OpV>,
    node: NodeV,
    p: MoeV,
    g: GeometryV,
    w1: Seq<char>,
    w2: Seq<char>,
    label: Seq<char>,
)
    requires
        builder::well_formed(ops),
    ensures
        builder::continues(ops, moe::moe_steps(ops, node, p, g, w1, w2, label)),
{
    let o1 = ops::resolved(ops, node.input[0]);
    let o2 = ops::resolved(o1, node.input[1]);
    let x = builder::last_operand(o1);
    assert(builder::continues(ops, o2) && builder::defined(o2, x));
    let logits = builder::last_operand(o2);
    let routed = moe::routing(o2, logits, p, g, label);
    lemma_routing(o2, logits, p, g, label);
    builder::lemma_continues_trans(ops, o2, routed.ops);
    builder::lemma_defined_continues(o2, routed.ops, x);
    let o3 = moe::spread_steps(routed.ops, x, p, g, label);
    lemma_spread(routed.ops, x, p, g, label);
    builder::lemma_continues_trans(ops, routed.ops, o3);
    let b1 = node.input_at(moe::b1_index(p.quant));
    let o4 = moe::expert_matmul(
        o3,
        builder::last_operand(o3),
        w1,
        b1,
        g.experts,
        g.fc1_out,
        label + "_fc1"@,
    );
    lemma_expert_matmul(
        o3,
        builder::last_operand(o3),
        w1,
        b1,
        g.experts,
        g.fc1_out,
        label + "_fc1"@,
    );
    let o5 = moe::activation_steps(o4, builder::last_operand(o4), p, g, label);
    lemma_activation(o4, builder::last_operand(o4), p, g, label);
    let b2 = node.input_at(moe::b2_index(p.quant));
    let o6 = moe::expert_matmul(
        o5,
        builder::last_operand(o5),
        w2,
        b2,
        g.experts,
        g.hidden,
        label + "_fc2"@,
    );
    lemma_expert_matmul(
        o5,
        builder::last_operand(o5),
        w2,
        b2,
        g.experts,
        g.hidden,
        label + "_fc2"@,
    );
    builder::lemma_continues_trans(routed.ops, o3, o4);
    builder::lemma_continues_trans(routed.ops, o4, o5);
    builder::lemma_continues_trans(routed.ops, o5, o6);
    builder::lemma_continues_trans(ops, routed.ops, o6);
    builder::lemma_defined_continues(routed.ops, o6, routed.operand);
    let o7 = moe::blend(o6, routed.operand, builder::last_operand(o6), p, g, label);
    lemma_blend(o6, routed.operand, builder::last_operand(o6), p, g, label);
    builder::lemma_continues_trans(ops, o6, o7);
}

proof fn lemma_moe(node: NodeV, name: Seq<char>, ctx: ContextV, ops: Seq<OpV>)
    requires
        builder::well_formed(ops),
    ensures
        builder::continues(ops, moe::moe_outcome(node, name, ctx, ops).ops),
{
    if let Ok(p) = moe::moe_params(node, name, ctx) {
        let first = moe::weight_source(ops, node, ctx, p, 2, "fc1"@, name);
        lemma_weight_source(ops, node, ctx, p, 2, "fc1"@, name);
        if let Ok((w1, s1)) = first.result {
            let at = moe::w2_index(p.quant);
            let second = moe::weight_source(first.ops, node, ctx, p, at, "fc2"@, name);
            lemma_weight_source(first.ops, node, ctx, p, at, "fc2"@, name);
            builder::lemma_continues_trans(ops, first.ops, second.ops);
            if let Ok((w2, s2)) = second.result {
                if let Ok(g) = moe::geometry(p.x_shape, s1, s2, p.activation) {
                    lemma_moe_steps(second.ops, node, p, g, w1, w2, node.label(name));
                    builder::lemma_continues_trans(
                        ops,
                        second.ops,
                        moe::moe_steps(second.ops, node, p, g, w1, w2, node.label(name)),
                    );
                }
            }
        }
    }
}

// ---------------------------------------------------------------------------
// Recurrent layers and rotary embedding
// ---------------------------------------------------------------------------

proof fn lemma_rotary_start(ops: Seq<OpV>, p: RotaryV, label: Seq<char>)
    requires
        builder::well_formed(ops),
    ensures
        ({
            let r = rnn::rotary_start(ops, p, label);
            &&& builder::continues(ops, r.ops)
            &&& builder::defined(r.ops, r.x)
            &&& builder::defined(r.ops, r.cos)
            &&& builder::defined(r.ops, r.sin)
        }),
{
}

proof fn lemma_rotary_components(ops: Seq<OpV>, x: OperandV, p: RotaryV, label: Seq<char>)
    requires
        builder::well_formed(ops),
        builder::defined(ops, x),
    ensures
        pair_leads_on(ops, rnn::rotary_components(ops, x, p, label)),
{
}

proof fn lemma_rotary_join(
    ops: Seq<OpV>,
    re: OperandV,
    im: OperandV,
    p: RotaryV,
    label: Seq<char>,
)
    requires
        builder::well_formed(ops),
        builder::defined(ops, re),
        builder::defined(ops, im),
    ensures
        leads_on(ops, rnn::rotary_join(ops, re, im, p, label)),
{
}

proof fn lemma_rotary_tail(
    ops: Seq<OpV>,
    rotated: OperandV,
    x: OperandV,
    p: RotaryV,
    label: Seq<char>,
)
    requires
        builder::well_formed(ops),
        builder::defined(ops, rotated),
        builder::defined(ops, x),
    ensures
        outcome_leads_on(ops, rnn::rotary_tail(ops, rotated, x, p, label)),
{
}

proof fn lemma_rotary_body(ops: Seq<OpV>, p: RotaryV, label: Seq<char>)
    requires
        builder::well_formed(ops),
    ensures
        outcome_leads_on(ops, rnn::rotary_body(ops, p, label)),
{
    let s = rnn::rotary_start(ops, p, label);
    lemma_rotary_start(ops, p, label);
    let whole = rnn::column_slice(
        s.ops,
        s.x,
        0,
        seq![p.batch, p.sequence, p.num_heads, p.rotary_dim],
        1,
        label + "__rotate"@,
    );
    assert(outcome_leads_on(s.ops, whole) && whole.result is Ok);
    builder::lemma_continues_trans(ops, s.ops, whole.ops);
    let w = whole.result->Ok_0;
    let parts = rnn::rotary_components(whole.ops, w, p, label);
    lemma_rotary_components(whole.ops, w, p, label);
    builder::lemma_continues_trans(s.ops, whole.ops, parts.ops);
    builder::lemma_continues_trans(ops, s.ops, parts.ops);
    if let Ok((x1, x2)) = parts.result {
        builder::lemma_defined_continues(s.ops, parts.ops, s.cos);
        builder::lemma_defined_continues(s.ops, parts.ops, s.sin);
        let turned = attention::rotation_steps(parts.ops, x1, x2, s.cos, s.sin);
        lemma_rotation(parts.ops, x1, x2, s.cos, s.sin);
        builder::lemma_continues_trans(s.ops, parts.ops, turned);
        let re = attention::rotation_real(turned);
        let im = builder::last_operand(turned);
        let joined = rnn::rotary_join(turned, re, im, p, label);
        lemma_rotary_join(turned, re, im, p, label);
        builder::lemma_continues_trans(s.ops, turned, joined);
        builder::lemma_continues_trans(ops, s.ops, joined);
        builder::lemma_defined_continues(s.ops, joined, s.x);
        let last = builder::last_operand(joined);
        lemma_rotary_tail(joined, last, s.x, p, label);
        builder::lemma_continues_trans(
            ops,
            joined,
            rnn::rotary_tail(joined, last, s.x, p, label).ops,
        );
    }
}

proof fn lemma_rotary(node: NodeV, name: Seq<char>, ctx: ContextV, ops: Seq<OpV>)
    requires
        builder::well_formed(ops),
    ensures
        builder::continues(ops, rnn::rotary_outcome(node, name, ctx, ops).ops),
{
    if let Ok(p) = rnn::rotary_params(node, name, ctx) {
        lemma_rotary_body(ops, p, node.label(name));
    }
}

proof fn lemma_float_input(ops: Seq<OpV>, name: Seq<char>, as_f32: bool, label: Seq<char>)
    requires
        builder::well_formed(ops),
    ensures
        part_leads_on(ops, rnn::float_input(ops, name, as_f32, label)),
{
}

proof fn lemma_split_bias(
    ops: Seq<OpV>,
    name: Seq<char>,
    bias: Option<Seq<char>>,
    len: u32,
    as_f32: bool,
    directions: i64,
)
    requires
        builder::well_formed(ops),
    ensures
        ({
            let r = rnn::split_bias(ops, name, bias, len, as_f32, directions);
            &&& builder::continues(ops, r.ops)
            &&& builder::defined_opt(r.ops, r.bias)
            &&& builder::defined_opt(r.ops, r.recurrent)
        }),
{
    if let Some(n) = bias {
        lemma_float_input(ops, n, as_f32, name + "_bias_f32"@);
    }
}

proof fn lemma_rnn_inputs(
    ops: Seq<OpV>,
    node: NodeV,
    name: Seq<char>,
    as_f32: bool,
    bias_len: u32,
    direction: Direction,
)
    requires
        builder::well_formed(ops),
    ensures
        ({
            let t = rnn::rnn_inputs(ops, node, name, as_f32, bias_len, direction);
            &&& builder::continues(ops, t.ops)
            &&& builder::defined(t.ops, t.x)
            &&& builder::defined(t.ops, t.w)
            &&& builder::defined(t.ops, t.r)
            &&& builder::defined_opt(t.ops, t.bias)
            &&& builder::defined_opt(t.ops, t.recurrent)
        }),
{
    let x = rnn::float_input(ops, node.input[0], as_f32, name + "_x_f32"@);
    lemma_float_input(ops, node.input[0], as_f32, name + "_x_f32"@);
    let w = rnn::float_input(x.ops, node.input[1], as_f32, name + "_w_f32"@);
    lemma_float_input(x.ops, node.input[1], as_f32, name + "_w_f32"@);
    let r = rnn::float_input(w.ops, node.input[2], as_f32, name + "_r_f32"@);
    lemma_float_input(w.ops, node.input[2], as_f32, name + "_r_f32"@);
    let d = rnn::direction_count(direction);
    let s = rnn::split_bias(r.ops, name, node.input_at(3), bias_len, as_f32, d);
    lemma_split_bias(r.ops, name, node.input_at(3), bias_len, as_f32, d);
    builder::lemma_continues_trans(w.ops, r.ops, s.ops);
    builder::lemma_continues_trans(x.ops, w.ops, s.ops);
    builder::lemma_continues_trans(ops, x.ops, s.ops);
    builder::lemma_defined_continues(x.ops, s.ops, x.operand);
    builder::lemma_defined_continues(w.ops, s.ops, w.operand);
    builder::lemma_defined_continues(r.ops, s.ops, r.operand);
}

proof fn lemma_sequence_output(
    s: OutputsV,
    node: NodeV,
    name: Seq<char>,
    ctx: ContextV,
    seq: OperandV,
    direction: Direction,
    dtype: DataType,
    label: Seq<char>,
)
    requires
        builder::well_formed(s.ops),
        node.output_at(0) is Some ==> builder::defined(s.ops, seq),
    ensures
        builder::continues(
            s.ops,
            rnn::sequence_output(s, node, name, ctx, seq, direction, dtype, label).ops,
        ),
{
}

proof fn lemma_state_output(
    s: OutputsV,
    output: Option<Seq<char>>,
    state: OperandV,
    dtype: DataType,
    label: Seq<char>,
)
    requires
        builder::well_formed(s.ops),
        builder::defined(s.ops, state),
    ensures
        builder::continues(s.ops, rnn::state_output(s, output, state, dtype, label).ops),
{
}

proof fn lemma_gru(node: NodeV, name: Seq<char>, ctx: ContextV, ops: Seq<OpV>)
    requires
        builder::well_formed(ops),
    ensures
        builder::continues(ops, rnn::gru_outcome(node, name, ctx, ops).ops),
{
    if let Ok((direction, hidden)) = rnn::gru_params(node, name) {
        let dtype = ctx.dtype(node.input[0]);
        let as_f32 = dtype == DataType::Float16;
        let label = node.label(name);
        let t = rnn::rnn_inputs(ops, node, name, as_f32, (3 * hidden) as u32, direction);
        lemma_rnn_inputs(ops, node, name, as_f32, (3 * hidden) as u32, direction);
        let op = OpV::Gru {
            x: t.x,
            w: t.w,
            r: t.r,
            steps: rnn::step_count(ctx, node.input[0]),
            hidden_size: hidden,
            bias: t.bias,
            recurrent_bias: t.recurrent,
            return_sequence: node.output_at(0) is Some,
            direction,
            reset_after: node.int_attr("linear_before_reset"@, 0) != 0,
            label,
        };
        let o1 = t.ops.push(op);
        assert(builder::continues(ops, o1));
        let state = builder::last_operand(o1);
        let seq = OperandV { step: state.step, output: 1 };
        assert(node.output_at(0) is Some ==> builder::defined(o1, seq)) by {
            reveal(builder::defined);
        }
        let s0 = OutputsV { ops: o1, types: Map::empty() };
        let s1 = rnn::sequence_output(s0, node, name, ctx, seq, direction, dtype, label);
        lemma_sequence_output(s0, node, name, ctx, seq, direction, dtype, label);
        builder::lemma_defined_continues(o1, s1.ops, state);
        let s2 = rnn::state_output(s1, node.output_at(1), state, dtype, label + "_y_h"@);
        lemma_state_output(s1, node.output_at(1), state, dtype, label + "_y_h"@);
        builder::lemma_continues_trans(o1, s1.ops, s2.ops);
        builder::lemma_continues_trans(ops, o1, s2.ops);
    }
}

proof fn lemma_initial_state(
    ops: Seq<OpV>,
    name: Option<Seq<char>>,
    as_f32: bool,
    label: Seq<char>,
)
    requires
        builder::well_formed(ops),
    ensures
        ({
            let r = rnn::initial_state(ops, name, as_f32, label);
            builder::continues(ops, r.ops) && builder::defined_opt(r.ops, r.state)
        }),
{
    if let Some(n) = name {
        lemma_float_input(ops, n, as_f32, label);
    }
}

proof fn lemma_opt_continues(ops: Seq<OpV>, more: Seq<OpV>, o: Option<OperandV>)
    requires
        builder::continues(ops, more),
        builder::defined_opt(ops, o),
    ensures
        builder::defined_opt(more, o),
{
    if let Some(v) = o {
        builder::lemma_defined_continues(ops, more, v);
    }
}

proof fn lemma_lstm(node: NodeV, name: Seq<char>, ctx: ContextV, ops: Seq<OpV>)
    requires
        builder::well_formed(ops),
    ensures
        builder::continues(ops, rnn::lstm_outcome(node, name, ctx, ops).ops),
{
    if let Ok((direction, hidden)) = rnn::lstm_params(node, name) {
        let dtype = ctx.dtype(node.input[0]);
        let as_f32 = dtype == DataType::Float16;
        let label = node.label(name);
        let t = rnn::rnn_inputs(ops, node, name, as_f32, (4 * hidden) as u32, direction);
        lemma_rnn_inputs(ops, node, name, as_f32, (4 * hidden) as u32, direction);
        let h0 = rnn::initial_state(t.ops, node.input_at(5), as_f32, name + "_h0_f32"@);
        lemma_initial_state(t.ops, node.input_at(5), as_f32, name + "_h0_f32"@);
        let c0 = rnn::initial_state(h0.ops, node.input_at(6), as_f32, name + "_c0_f32"@);
        lemma_initial_state(h0.ops, node.input_at(6), as_f32, name + "_c0_f32"@);
        builder::lemma_continues_trans(t.ops, h0.ops, c0.ops);
        builder::lemma_continues_trans(ops, t.ops, c0.ops);
        builder::lemma_defined_continues(t.ops, c0.ops, t.x);
        builder::lemma_defined_continues(t.ops, c0.ops, t.w);
        builder::lemma_defined_continues(t.ops, c0.ops, t.r);
        lemma_opt_continues(t.ops, c0.ops, t.bias);
        lemma_opt_continues(t.ops, c0.ops, t.recurrent);
        lemma_opt_continues(h0.ops, c0.ops, h0.state);
        let op = OpV::Lstm {
            x: t.x,
            w: t.w,
            r: t.r,
            steps: rnn::step_count(ctx, node.input[0]),
            hidden_size: hidden,
            bias: t.bias,
            recurrent_bias: t.recurrent,
            initial_hidden_state: h0.state,
            initial_cell_state: c0.state,
            return_sequence: node.output_at(0) is Some,
            direction,
            label,
        };
        let o1 = c0.ops.push(op);
        assert(builder::continues(ops, o1));
        let state = builder::last_operand(o1);
        let seq = OperandV { step: state.step, output: 2 };
        let cell = OperandV { step: state.step, output: 1 };
        assert(builder::defined(o1, cell)) by {
            reveal(builder::defined);
        }
        assert(node.output_at(0) is Some ==> builder::defined(o1, seq)) by {
            reveal(builder::defined);
        }
        let s0 = OutputsV { ops: o1, types: Map::empty() };
        let s1 = rnn::sequence_output(s0, node, name, ctx, seq, direction, dtype, label);
        lemma_sequence_output(s0, node, name, ctx, seq, direction, dtype, label);
        builder::lemma_defined_continues(o1, s1.ops, state);
        let s2 = rnn::state_output(s1, node.output_at(1), state, dtype, label + "_y_h"@);
        lemma_state_output(s1, node.output_at(1), state, dtype, label + "_y_h"@);
        builder::lemma_continues_trans(o1, s1.ops, s2.ops);
        builder::lemma_defined_continues(o1, s2.ops, cell);
        let s3 = rnn::state_output(s2, node.output_at(2), cell, dtype, label + "_y_c"@);
        lemma_state_output(s2, node.output_at(2), cell, dtype, label + "_y_c"@);
        builder::lemma_continues_trans(o1, s2.ops, s3.ops);
        builder::lemma_continues_trans(ops, o1, s3.ops);
    }
}

// ---------------------------------------------------------------------------
// Laws
// ---------------------------------------------------------------------------

/// Lowering a node keeps the steps before it, and every step it appends reads
/// only operands that earlier steps produce, also where lowering fails.
pub proof fn law_lowered_nodes_continue_the_plan(node: NodeV, ctx: ContextV, ops: Seq<OpV>)
    requires
        builder::well_formed(ops),
    ensures
        registry::lowered_node(node, ctx, ops) matches Some(o) ==> builder::continues(ops, o.ops),
{
    let name = node.display_name();
    match registry::handler_of(node.op_type) {
        Some(Handler::Attention) => lemma_gqa(node, name, ctx, ops),
        Some(Handler::Einsum) => lemma_einsum(node, name, ctx, ops),
        Some(Handler::MatMul) => lemma_matrix_products(node, ctx, ops),
        Some(Handler::Moe) => lemma_moe(node, name, ctx, ops),
        Some(Handler::Rnn) => {
            let label = rnn::rnn_name(node);
            lemma_gru(node, label, ctx, ops);
            lemma_lstm(node, label, ctx, ops);
            lemma_rotary(node, label, ctx, ops);
        },
        None => {},
    }
}

} // verus!
