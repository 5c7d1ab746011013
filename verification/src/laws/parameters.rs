//! What attributes and tables stand for.
use crate::builder::Direction;
use crate::context::ContextV;
use crate::floats;
use crate::meaning;
use crate::ops::attention;
use crate::ops::matmul;
use crate::ops::moe;
use crate::ops::moe::Activation;
use crate::ops::rnn;
use crate::protos::{AttributeV, NodeV};
use crate::text;
use vstd::arithmetic::power2::*;
use vstd::prelude::*;

verus! {

/// An accepted `GroupQueryAttention` node has the heads that its attributes
/// give, the sizes of its query and its past keys, and is rotated only where
/// that is asked for. Queries and keys fill the last axis of the query.
pub proof fn law_attention_parameters(node: NodeV, name: Seq<char>, ctx: ContextV)
    requires
        attention::gqa_params(node, name, ctx) is Ok,
        ctx.shape(node.input[3]) matches Some(s) && s.len() == 4 && s[2] + ctx.shape(
            node.input[0],
        )->0[1] <= i64::MAX && s[2] >= 0,
    ensures
        ({
            let p = attention::gqa_params(node, name, ctx)->Ok_0;
            let packed = node.input[1].len() == 0 || node.input[2].len() == 0;
            &&& p.packed == packed
            &&& p.num_heads == node.int_attr("num_heads"@, 0)
            &&& p.kv_num_heads == node.int_attr("kv_num_heads"@, 0)
            &&& p.num_heads > 0 && p.kv_num_heads > 0
            &&& p.num_heads % p.kv_num_heads == 0
            &&& p.scale == node.float_attr("scale"@, 0)
            &&& p.interleaved <==> node.int_attr("rotary_interleaved"@, 0) != 0
            &&& p.rotary is Some <==> node.int_attr("do_rotary"@, 0) != 0
            &&& p.rotary matches Some(c) ==> node.input.len() > 8 && c.0 == node.input[7] && c.1
                == node.input[8]
            &&& p.dtype == ctx.dtype(node.input[0])
            &&& ctx.shape(node.input[0]) matches Some(q)
            &&& q == seq![
                p.batch,
                p.seq,
                if packed {
                    (p.head_dim * (p.num_heads + p.kv_num_heads + p.kv_num_heads)) as i64
                } else {
                    (p.head_dim * p.num_heads) as i64
                },
            ]
            &&& ctx.shape(node.input[3]) matches Some(past)
            &&& p.past_seq == past[2]
            &&& p.head_dim == past[3]
            &&& p.total_seq - p.past_seq == p.seq
        }),
{
    let p = attention::gqa_params(node, name, ctx)->Ok_0;
    let q = ctx.shape(node.input[0])->0;
    let (h, kv, d) = (p.num_heads as int, p.kv_num_heads as int, p.head_dim as int);
    assert((h + 2 * kv) * d == d * (h + kv + kv)) by (nonlinear_arith);
    assert(h * d == d * h) by (nonlinear_arith);
    assert(q =~= seq![p.batch, p.seq, q[2]]);
}

/// An accepted `MoE` or `QMoE` node has what its attributes give: one expert,
/// plain rectification, no scale, no offset and no limit where they are not
/// given, and gates of fused pairs.
pub proof fn law_expert_parameters(node: NodeV, name: Seq<char>, ctx: ContextV)
    requires
        moe::moe_params(node, name, ctx) is Ok,
    ensures
        ({
            let p = moe::moe_params(node, name, ctx)->Ok_0;
            &&& p.quant <==> node.op_type == "QMoE"@
            &&& p.k == node.int_attr("k"@, 1)
            &&& p.normalize <==> node.int_attr("normalize_routing_weights"@, 0) != 0
            &&& p.alpha == node.float_attr("activation_alpha"@, floats::F32_ONE)
            &&& p.beta == node.float_attr("activation_beta"@, 0)
            &&& p.limit == node.float_attr("swiglu_limit"@, floats::F32_INFINITY)
            &&& p.bits == node.int_attr("expert_weight_bits"@, 4)
            &&& p.quant ==> p.bits == 4 || p.bits == 8
            &&& p.block_size == node.int_attr("block_size"@, 0)
            &&& p.quant ==> p.block_size > 0
            &&& ctx.shape(node.input[0]) == Some(p.x_shape)
            &&& p.dtype == ctx.dtype(node.input[0])
            &&& moe::activation_text(node) == match p.activation {
                Activation::Swiglu => "swiglu"@,
                Activation::Relu => "relu"@,
                Activation::Gelu => "gelu"@,
                Activation::Sigmoid => "sigmoid"@,
            }
            &&& p.activation == Activation::Swiglu ==> node.int_attr("swiglu_fusion"@, 0) == 1
            &&& node.int_attr("use_sparse_mixer"@, 0) == 0
            &&& forall|i: int|
                (if p.quant {
                    8int
                } else {
                    6
                }) <= i < node.input.len() ==> (#[trigger] node.input[i]).len() == 0
        }),
{
}

// ---------------------------------------------------------------------------
// Recurrent nodes
// ---------------------------------------------------------------------------

/// What a direction is called.
pub open spec fn names_direction(a: AttributeV, d: Direction) -> bool {
    let s = text::unicode_lower(text::utf8_lossy(a.s));
    match d {
        Direction::Forward => s.len() == 0 || s == "forward"@,
        Direction::Backward => s == "reverse"@,
        Direction::Both => s == "bidirectional"@,
    }
}

/// The direction of an accepted recurrent node is the one that its last
/// direction attribute names, and the one at hand where it has none. Its
/// activations are not replaced.
pub proof fn law_direction(
    attrs: Seq<AttributeV>,
    so_far: Direction,
    name: Seq<char>,
    op: Seq<char>,
    at: int,
)
    requires
        rnn::rnn_direction(attrs, so_far, name, op) is Ok,
    ensures
        ({
            let d = rnn::rnn_direction(attrs, so_far, name, op)->Ok_0;
            &&& (forall|i: int|
                0 <= i < attrs.len() ==> (#[trigger] attrs[i]).name != "direction"@) ==> d
                == so_far
            &&& 0 <= at < attrs.len() && attrs[at].name == "direction"@ && (forall|i: int|
                at < i < attrs.len() ==> (#[trigger] attrs[i]).name != "direction"@)
                ==> names_direction(attrs[at], d)
            &&& forall|i: int|
                0 <= i < attrs.len() && (#[trigger] attrs[i]).name == "activations"@
                    ==> attrs[i].strings.len() == 0
        }),
    decreases attrs.len(),
{
    if attrs.len() > 0 {
        lemma_names_differ();
        let next = rnn::attr_direction(attrs[0], so_far, name, op)->Ok_0;
        let rest = attrs.drop_first();
        law_direction(rest, next, name, op, at - 1);
        assert forall|i: int|
            0 <= i < attrs.len() && (#[trigger] attrs[i]).name == "activations"@ implies attrs[i].strings.len()
            == 0 by {
            if i > 0 {
                assert(rest[i - 1] == attrs[i]);
            }
        }
        if forall|i: int| 0 <= i < attrs.len() ==> (#[trigger] attrs[i]).name != "direction"@ {
            assert forall|i: int| 0 <= i < rest.len() implies (#[trigger] rest[i]).name
                != "direction"@ by {
                assert(rest[i] == attrs[i + 1]);
            }
        }
        if 0 <= at < attrs.len() && attrs[at].name == "direction"@ && (forall|i: int|
            at < i < attrs.len() ==> (#[trigger] attrs[i]).name != "direction"@) {
            assert forall|i: int| at - 1 < i < rest.len() implies (#[trigger] rest[i]).name
                != "direction"@ by {
                assert(rest[i] == attrs[i + 1]);
            }
            if at > 0 {
                assert(rest[at - 1] == attrs[at]);
            }
        }
    }
}

proof fn lemma_names_differ()
    ensures
        "activations"@ != "direction"@,
        "activations"@ != "layout"@,
        "direction"@ != "layout"@,
{
    reveal_strlit("activations");
    reveal_strlit("direction");
    reveal_strlit("layout");
    assert("activations"@.len() == 11 && "direction"@.len() == 9 && "layout"@.len() == 6);
}

/// The hidden size of an accepted recurrent node is the first positive one that
/// its attributes give.
pub proof fn law_hidden_size(attrs: Seq<AttributeV>) -> (at: int)
    requires
        rnn::hidden_attr(attrs) is Some,
    ensures
        0 <= at < attrs.len(),
        attrs[at].name == "hidden_size"@,
        attrs[at].i == rnn::hidden_attr(attrs)->0,
        attrs[at].i > 0,
        forall|i: int|
            0 <= i < at && (#[trigger] attrs[i]).name == "hidden_size"@ ==> attrs[i].i <= 0,
    decreases attrs.len(),
{
    if attrs[0].name == "hidden_size"@ && attrs[0].i > 0 {
        0
    } else {
        let rest = attrs.drop_first();
        let at = law_hidden_size(rest);
        assert(rest[at] == attrs[at + 1]);
        assert forall|i: int|
            0 <= i < at + 1 && (#[trigger] attrs[i]).name == "hidden_size"@ implies attrs[i].i
            <= 0 by {
            if i > 0 {
                assert(rest[i - 1] == attrs[i]);
            }
        }
        at + 1
    }
}

/// An accepted `GRU` or `LSTM` node runs in the direction that its last
/// direction attribute names, or forward, with the first positive hidden size.
pub proof fn law_recurrent_parameters(node: NodeV, name: Seq<char>, lstm: bool, last: int) -> (at:
    int)
    requires
        (if lstm {
            rnn::lstm_params(node, name)
        } else {
            rnn::gru_params(node, name)
        }) is Ok,
    ensures
        ({
            let attrs = node.attribute;
            let (d, h) = (if lstm {
                rnn::lstm_params(node, name)
            } else {
                rnn::gru_params(node, name)
            })->Ok_0;
            &&& (forall|i: int|
                0 <= i < attrs.len() ==> (#[trigger] attrs[i]).name != "direction"@) ==> d
                == Direction::Forward
            &&& 0 <= last < attrs.len() && attrs[last].name == "direction"@ && (forall|i: int|
                last < i < attrs.len() ==> (#[trigger] attrs[i]).name != "direction"@)
                ==> names_direction(attrs[last], d)
            &&& 0 <= at < attrs.len()
            &&& attrs[at].name == "hidden_size"@
            &&& attrs[at].i == h
            &&& h > 0
            &&& forall|i: int|
                0 <= i < at && (#[trigger] attrs[i]).name == "hidden_size"@ ==> attrs[i].i <= 0
        }),
{
    let op = if lstm {
        "LSTM"@
    } else {
        "GRU"@
    };
    law_direction(node.attribute, Direction::Forward, name, op, last);
    law_hidden_size(node.attribute)
}

// ---------------------------------------------------------------------------
// Codebooks
// ---------------------------------------------------------------------------

/// The number that a code of a codebook stands for.
pub open spec fn code_value(nf4: bool, code: int) -> real {
    meaning::number(
        if nf4 {
            matmul::nf4_codebook()[code]
        } else {
            matmul::fp4_codebook()[code]
        },
    )
}

/// An accepted `MatMulBnb4` node reads its codes in the NF4 codebook, or in the
/// FP4 codebook where its attribute is zero.
pub proof fn law_bnb_codebook(node: NodeV, name: Seq<char>, ctx: ContextV, code: int)
    requires
        matmul::bnb_params(node, name, ctx) is Ok,
        0 <= code < 16,
    ensures
        meaning::number(matmul::bnb_params(node, name, ctx)->Ok_0.codebook[code]) == code_value(
            node.int_attr("quant_type"@, 1) != 0,
            code,
        ),
{
}

proof fn lemma_ratio(m: real, d: real, n: real, f: real)
    requires
        d > 0real,
        d * f == 2147483648real,
        n == m * f,
    ensures
        (m / d) * 2147483648real == n,
{
    assert((m / d) * 2147483648real == n) by (nonlinear_arith)
        requires
            d > 0real,
            d * f == 2147483648real,
            n == m * f,
    ;
}

/// The two patterns of zero.
proof fn lemma_zeros()
    ensures
        meaning::single(0) == 0real,
        meaning::single(0x8000_0000) == 0real,
{
    let d = pow2(149) as int as real;
    lemma_pow2_pos(149);
    assert(0real / d == 0real) by (nonlinear_arith)
        requires
            d > 0real,
    ;
    assert((-(-149int)) as nat == 149);
    assert(meaning::scaled(0, -149) == 0real);
}

/// A float32 pattern between a 256th and two, in units of two to the minus
/// 31st.
proof fn lemma_units(bits: u32, n: int)
    requires
        119 <= (bits as int / 0x80_0000) % 256 <= 127,
        (bits as int / 0x80_0000) % 256 == 119 ==> n == bits as int % 0x80_0000 + 0x80_0000,
        (bits as int / 0x80_0000) % 256 == 120 ==> n == 2 * (bits as int % 0x80_0000 + 0x80_0000),
        (bits as int / 0x80_0000) % 256 == 121 ==> n == 4 * (bits as int % 0x80_0000 + 0x80_0000),
        (bits as int / 0x80_0000) % 256 == 122 ==> n == 8 * (bits as int % 0x80_0000 + 0x80_0000),
        (bits as int / 0x80_0000) % 256 == 123 ==> n == 16 * (bits as int % 0x80_0000 + 0x80_0000),
        (bits as int / 0x80_0000) % 256 == 124 ==> n == 32 * (bits as int % 0x80_0000 + 0x80_0000),
        (bits as int / 0x80_0000) % 256 == 125 ==> n == 64 * (bits as int % 0x80_0000 + 0x80_0000),
        (bits as int / 0x80_0000) % 256 == 126 ==> n == 128 * (bits as int % 0x80_0000 + 0x80_0000),
        (bits as int / 0x80_0000) % 256 == 127 ==> n == 256 * (bits as int % 0x80_0000 + 0x80_0000),
    ensures
        meaning::single(bits) * 2147483648real == if bits >= 0x8000_0000 {
            -(n as real)
        } else {
            n as real
        },
{
    lemma2_to64();
    let e = (bits as int / 0x80_0000) % 256;
    let m = bits as int % 0x80_0000 + 0x80_0000;
    let k = (150 - e) as nat;
    let v = meaning::scaled(m, e - 150);
    assert((-(e - 150)) as nat == k);
    assert(v == m as real / (pow2(k) as int as real));
    if e == 119 {
        assert(pow2(31) == 0x80000000);
        lemma_ratio(m as real, 2147483648real, n as real, 1real);
    } else if e == 120 {
        assert(pow2(30) == 0x40000000);
        lemma_ratio(m as real, 1073741824real, n as real, 2real);
    } else if e == 121 {
        assert(pow2(29) == 0x20000000);
        lemma_ratio(m as real, 536870912real, n as real, 4real);
    } else if e == 122 {
        assert(pow2(28) == 0x10000000);
        lemma_ratio(m as real, 268435456real, n as real, 8real);
    } else if e == 123 {
        assert(pow2(27) == 0x8000000);
        lemma_ratio(m as real, 134217728real, n as real, 16real);
    } else if e == 124 {
        assert(pow2(26) == 0x4000000);
        lemma_ratio(m as real, 67108864real, n as real, 32real);
    } else if e == 125 {
        assert(pow2(25) == 0x2000000);
        lemma_ratio(m as real, 33554432real, n as real, 64real);
    } else if e == 126 {
        assert(pow2(24) == 0x1000000);
        lemma_ratio(m as real, 16777216real, n as real, 128real);
    } else if e == 127 {
        assert(pow2(23) == 0x800000);
        lemma_ratio(m as real, 8388608real, n as real, 256real);
    }
    assert(v * 2147483648real == n as real);
    assert((-v) * 2147483648real == -(n as real));
}

/// The codes of the NF4 codebook stand for numbers that rise from minus one
/// over zero, the eighth, to one.
#[verifier::rlimit(40)]
pub proof fn law_nf4_codes_rise(a: int, b: int)
    requires
        0 <= a < b < 16,
    ensures
        code_value(true, a) < code_value(true, b),
        a == 0 ==> code_value(true, a) == -1real,
        a == 7 ==> code_value(true, a) == 0real,
        b == 15 ==> code_value(true, b) == 1real,
{
    lemma2_to64();
    lemma_units(0xbf800000, 2147483648);
    lemma_units(0xbf3239b1, 1495062656);
    lemma_units(0xbf066b30, 1127585792);
    lemma_units(0xbeca32a0, 848078848);
    lemma_units(0xbe91a24d, 610833216);
    lemma_units(0xbe3d353f, 396797920);
    lemma_units(0xbdba7871, 195528464);
    lemma_units(0x3da2faff, 170897392);
    lemma_units(0x3e24cae3, 345594976);
    lemma_units(0x3e7c04dd, 528522144);
    lemma_units(0x3ead033a, 725667456);
    lemma_units(0x3ee1a4b8, 946417152);
    lemma_units(0x3f1007ab, 1208210816);
    lemma_units(0x3f3913b3, 1552537984);
    lemma_units(0x3f800000, 2147483648);
    lemma_zeros();
    assert(code_value(true, 7) == 0real);
}

/// Half of the codes of the FP4 codebook stand for the negated numbers of the
/// others, which are 0, 1, 128, 192, 64, 96, 32 and 48 parts of 192, as near as
/// float32 comes.
#[verifier::rlimit(40)]
pub proof fn law_fp4_codes(code: int)
    requires
        0 <= code < 8,
    ensures
        code_value(false, code + 8) == -code_value(false, code),
        ({
            let parts = seq![0real, 1real, 128real, 192real, 64real, 96real, 32real, 48real];
            let off = code_value(false, code) * 192real - parts[code];
            -1real < off * 100000real < 1real
        }),
{
    lemma2_to64();
    lemma_units(0x3baaaaab, 11184811);
    lemma_units(0xbbaaaaab, 11184811);
    lemma_units(0x3f2aaaab, 1431655808);
    lemma_units(0xbf2aaaab, 1431655808);
    lemma_units(0x3f800000, 2147483648);
    lemma_units(0xbf800000, 2147483648);
    lemma_units(0x3eaaaaab, 715827904);
    lemma_units(0xbeaaaaab, 715827904);
    lemma_units(0x3f000000, 1073741824);
    lemma_units(0xbf000000, 1073741824);
    lemma_units(0x3e2aaaab, 357913952);
    lemma_units(0xbe2aaaab, 357913952);
    lemma_units(0x3e800000, 536870912);
    lemma_units(0xbe800000, 536870912);
    lemma_zeros();
    assert(code_value(false, 0) == 0real && code_value(false, 8) == 0real);
}

} // verus!
