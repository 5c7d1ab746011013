//! MatMul, Gemm, MatMulInteger, and the `com.microsoft` quantized matmuls
//! (MatMulNBits, MatMulBnb4).
use crate::arith;
use crate::builder;
use crate::builder::{
    BinaryOp, BuilderOp, ConstData, ConstDataV, OnnxBuilder, OpV, Operand, OperandV, label_with,
    list1, list2, list3,
};
use crate::bytes;
use crate::context::{ContextV, ConversionContext, InitTensor, InitV};
use crate::error;
use crate::error::{ErrorV, OnnxError};
use crate::floats;
use crate::floats::FloatBits;
use crate::ops;
use crate::ops::{ConversionResult, NodeOutcome, PartOutcome};
use crate::protos;
use crate::protos::{AttributeV, NodeProto, NodeV};
use crate::text;
use crate::types;
use crate::types::DataType;
use vstd::prelude::*;

verus! {

pub struct MatMulHandler;

// ---------------------------------------------------------------------------
// Float tensors
// ---------------------------------------------------------------------------

/// The float32 patterns in a payload; a rest of less than four bytes is left
/// out.
pub open spec fn single_patterns(b: Seq<u8>) -> Seq<FloatBits> {
    Seq::new(
        b.len() / 4,
        |i: int| FloatBits::Single(bytes::le_value(b.subrange(4 * i, 4 * i + 4)) as u32),
    )
}

/// The float16 patterns in a payload; a last odd byte is left out.
pub open spec fn half_patterns(b: Seq<u8>) -> Seq<FloatBits> {
    Seq::new(
        b.len() / 2,
        |i: int| FloatBits::Half(bytes::le_value(b.subrange(2 * i, 2 * i + 2)) as u16),
    )
}

/// The values of a float32 or float16 tensor.
pub open spec fn float_values(t: InitV) -> Result<Seq<FloatBits>, ErrorV> {
    match t.bytes() {
        Err(e) => Err(e),
        Ok(b) => if t.data_type == protos::TYPE_FLOAT {
            Ok(single_patterns(b))
        } else if t.data_type == protos::TYPE_FLOAT16 {
            Ok(half_patterns(b))
        } else {
            Err(
                ErrorV::InvalidShape(
                    "expected float/float16 tensor, got data_type="@ + text::decimal(
                        t.data_type as int,
                    ),
                ),
            )
        },
    }
}

fn read_singles(b: &Vec<u8>) -> (r: Vec<FloatBits>)
    ensures
        r@ == single_patterns(b@),
{
    let len: usize = b.len();
    let n: usize = len / 4;
    let mut out: Vec<FloatBits> = Vec::new();
    let mut i: usize = 0;
    while i < n
        invariant
            i <= n,
            len == b@.len(),
            n == len / 4,
            out@.len() == i,
            forall|k: int| 0 <= k < i ==> #[trigger] out@[k] == single_patterns(b@)[k],
        decreases n - i,
    {
        let v: u64 = bytes::read_le(b, 4 * i, 4);
        proof {
            bytes::lemma_le_value_range(b@.subrange(4 * i, 4 * i + 4));
            bytes::lemma_span(4);
        }
        out.push(FloatBits::Single(v as u32));
        i = i + 1;
    }
    assert(out@ =~= single_patterns(b@));
    out
}

fn read_halves(b: &Vec<u8>) -> (r: Vec<FloatBits>)
    ensures
        r@ == half_patterns(b@),
{
    let len: usize = b.len();
    let n: usize = len / 2;
    let mut out: Vec<FloatBits> = Vec::new();
    let mut i: usize = 0;
    while i < n
        invariant
            i <= n,
            len == b@.len(),
            n == len / 2,
            out@.len() == i,
            forall|k: int| 0 <= k < i ==> #[trigger] out@[k] == half_patterns(b@)[k],
        decreases n - i,
    {
        let v: u64 = bytes::read_le(b, 2 * i, 2);
        proof {
            bytes::lemma_le_value_range(b@.subrange(2 * i, 2 * i + 2));
            bytes::lemma_span(2);
        }
        out.push(FloatBits::Half(v as u16));
        i = i + 1;
    }
    assert(out@ =~= half_patterns(b@));
    out
}

/// Decode a float32/float16 initializer (MatMulBnb4 absmax, QMoE scales) into
/// the patterns of its values.
pub fn decode_float_tensor(tensor: &InitTensor) -> (r: Result<Vec<FloatBits>, OnnxError>)
    ensures
        error::failed(r, |v: Vec<FloatBits>| v@) == float_values(tensor@),
{
    let b = match tensor.bytes() {
        Ok(b) => b,
        Err(e) => return Err(e),
    };
    if tensor.data_type == protos::TYPE_FLOAT {
        Ok(read_singles(b))
    } else if tensor.data_type == protos::TYPE_FLOAT16 {
        Ok(read_halves(b))
    } else {
        let mut m = String::from_str("expected float/float16 tensor, got data_type=");
        let d = text::decimal_i64(tensor.data_type as i64);
        m.append(d.as_str());
        Err(OnnxError::InvalidShape(m))
    }
}

// ---------------------------------------------------------------------------
// MatMul and Gemm
// ---------------------------------------------------------------------------

/// The lowering of a `MatMul` node.
pub open spec fn matmul_outcome(node: NodeV, name: Seq<char>, ops: Seq<OpV>) -> NodeOutcome {
    if node.input.len() != 2 {
        ops::node_failed(
            ops,
            ErrorV::InvalidShape(
                "MatMul expects 2 inputs, got "@ + text::decimal(node.input.len() as int),
            ),
        )
    } else {
        let label = node.label(name);
        let o1 = ops::resolved(ops, node.input[0]);
        let o2 = ops::resolved(o1, node.input[1]);
        let o3 = o2.push(
            ops::binary_op(
                BinaryOp::Matmul,
                builder::last_operand(o1),
                builder::last_operand(o2),
                label,
            ),
        );
        ops::node_done(
            ops::recorded_or_named(o3, node.first_output(), label, builder::last_operand(o3)),
        )
    }
}

/// The float of the last attribute with this name that is not zero, or
/// `default`.
pub open spec fn nonzero_float(attrs: Seq<AttributeV>, name: Seq<char>, default: u32) -> u32
    decreases attrs.len(),
{
    if attrs.len() == 0 {
        default
    } else if attrs.last().name == name && !floats::is_zero(attrs.last().f) {
        attrs.last().f
    } else {
        nonzero_float(attrs.drop_last(), name, default)
    }
}

/// An attribute with this name is set.
pub open spec fn flag_set(attrs: Seq<AttributeV>, name: Seq<char>) -> bool {
    exists|i: int| 0 <= i < attrs.len() && (#[trigger] attrs[i]).name == name && attrs[i].i != 0
}

fn find_nonzero_float(node: &NodeProto, name: &str, default: u32) -> (r: u32)
    ensures
        r == nonzero_float(node@.attribute, name@, default),
{
    let ghost all = node@.attribute;
    let mut i: usize = node.attribute.len();
    assert(all.take(i as int) =~= all);
    while i > 0
        invariant
            i <= node.attribute@.len(),
            all == node@.attribute,
            nonzero_float(all, name@, default) == nonzero_float(
                all.take(i as int),
                name@,
                default,
            ),
        decreases i,
    {
        i = i - 1;
        assert(all.take(i + 1).drop_last() =~= all.take(i as int));
        assert(all[i as int] == node.attribute@[i as int]@);
        if text::str_eq(node.attribute[i].name.as_str(), name) && !floats::f32_is_zero(
            node.attribute[i].f,
        ) {
            return node.attribute[i].f;
        }
    }
    default
}

fn find_flag(node: &NodeProto, name: &str) -> (r: bool)
    ensures
        r == flag_set(node@.attribute, name@),
{
    let mut i: usize = 0;
    while i < node.attribute.len()
        invariant
            i <= node.attribute@.len(),
            forall|k: int|
                0 <= k < i ==> !((#[trigger] node@.attribute[k]).name == name@
                    && node@.attribute[k].i != 0),
        decreases node.attribute@.len() - i,
    {
        assert(node@.attribute[i as int] == node.attribute@[i as int]@);
        if text::str_eq(node.attribute[i].name.as_str(), name) && node.attribute[i].i != 0 {
            return true;
        }
        i = i + 1;
    }
    false
}

/// The lowering of a `Gemm` node. Zero `alpha` and `beta` stand for one.
pub open spec fn gemm_outcome(node: NodeV, name: Seq<char>, ops: Seq<OpV>) -> NodeOutcome {
    if node.input.len() < 2 {
        ops::node_failed(
            ops,
            ErrorV::InvalidShape(
                "Gemm expects at least 2 inputs, got "@ + text::decimal(node.input.len() as int),
            ),
        )
    } else {
        let label = node.label(name);
        let o1 = ops::resolved(ops, node.input[0]);
        let o2 = ops::resolved(o1, node.input[1]);
        let o3 = if node.input.len() > 2 {
            ops::resolved(o2, node.input[2])
        } else {
            o2
        };
        let o4 = o3.push(
            OpV::Gemm {
                a: builder::last_operand(o1),
                b: builder::last_operand(o2),
                c: if node.input.len() > 2 {
                    Some(builder::last_operand(o3))
                } else {
                    None
                },
                alpha: nonzero_float(node.attribute, "alpha"@, floats::F32_ONE),
                beta: nonzero_float(node.attribute, "beta"@, floats::F32_ONE),
                a_transpose: flag_set(node.attribute, "transA"@),
                b_transpose: flag_set(node.attribute, "transB"@),
                label,
            },
        );
        ops::node_done(
            ops::recorded_or_named(o4, node.first_output(), label, builder::last_operand(o4)),
        )
    }
}

impl MatMulHandler {
    /// Lower a `MatMul` node.
    pub fn convert_matmul(&self, node: &NodeProto, node_name: &String, b: &mut OnnxBuilder) -> (r:
        Result<ConversionResult, OnnxError>)
        ensures
            ops::node_outcome(final(b)@, r) == matmul_outcome(node@, node_name@, old(b)@),
    {
        let count: usize = node.input.len();
        if count != 2 {
            let mut m = String::from_str("MatMul expects 2 inputs, got ");
            let d = text::decimal_usize(count);
            m.append(d.as_str());
            return Err(OnnxError::InvalidShape(m));
        }
        assert(node@.input[0] == node.input@[0]@);
        assert(node@.input[1] == node.input@[1]@);
        let label = node.output_label(node_name);
        let x = b.resolve(&node.input[0]);
        let y = b.resolve(&node.input[1]);
        let out = b.binary(BinaryOp::Matmul, x, y, label.clone());
        ops::record_or_name(b, node.first_output(), label, out);
        Ok(ConversionResult::none())
    }

    /// Lower a `Gemm` node.
    pub fn convert_gemm(&self, node: &NodeProto, node_name: &String, b: &mut OnnxBuilder) -> (r:
        Result<ConversionResult, OnnxError>)
        ensures
            ops::node_outcome(final(b)@, r) == gemm_outcome(node@, node_name@, old(b)@),
    {
        let count: usize = node.input.len();
        if count < 2 {
            let mut m = String::from_str("Gemm expects at least 2 inputs, got ");
            let d = text::decimal_usize(count);
            m.append(d.as_str());
            return Err(OnnxError::InvalidShape(m));
        }
        assert(forall|i: int|
            0 <= i < node.input@.len() ==> node@.input[i] == (#[trigger] node.input@[i])@);
        let label = node.output_label(node_name);
        let x = b.resolve(&node.input[0]);
        let y = b.resolve(&node.input[1]);
        let c: Option<Operand> = if count > 2 {
            Some(b.resolve(&node.input[2]))
        } else {
            None
        };
        let out = b.push(
            BuilderOp::Gemm {
                a: x,
                b: y,
                c,
                alpha: find_nonzero_float(node, "alpha", floats::F32_ONE),
                beta: find_nonzero_float(node, "beta", floats::F32_ONE),
                a_transpose: find_flag(node, "transA"),
                b_transpose: find_flag(node, "transB"),
                label: label.clone(),
            },
        );
        ops::record_or_name(b, node.first_output(), label, out);
        Ok(ConversionResult::none())
    }
}

// ---------------------------------------------------------------------------
// MatMulInteger
// ---------------------------------------------------------------------------

/// A quantized operand as float32 with its zero point subtracted, where it has
/// one. A vector of zero points becomes a column where there is one per row.
pub open spec fn centered(
    ops: Seq<OpV>,
    operand: Seq<char>,
    zero_point: Option<Seq<char>>,
    ctx: ContextV,
    per_row: bool,
    label: Seq<char>,
) -> Seq<OpV> {
    let o1 = ops::resolved(ops, operand);
    let o2 = o1.push(
        OpV::Cast {
            input: builder::last_operand(o1),
            dtype: DataType::Float32,
            label: label + "_float"@,
        },
    );
    match zero_point {
        None => o2,
        Some(z) => {
            let o3 = ops::resolved(o2, z);
            let o4 = o3.push(
                OpV::Cast {
                    input: builder::last_operand(o3),
                    dtype: DataType::Float32,
                    label: label + "_zero_point_float"@,
                },
            );
            let o5 = match ctx.shape(z) {
                Some(s) => if per_row && s.len() == 1 && s[0] > 1 {
                    o4.push(
                        OpV::Reshape {
                            input: builder::last_operand(o4),
                            shape: seq![s[0], 1],
                            label: label + "_zero_point_reshape"@,
                        },
                    )
                } else {
                    o4
                },
                None => o4,
            };
            o5.push(
                ops::binary_op(
                    BinaryOp::Sub,
                    builder::last_operand(o2),
                    builder::last_operand(o5),
                    label + "_centered"@,
                ),
            )
        },
    }
}

/// The lowering of a `MatMulInteger` node as a centered float matmul.
pub open spec fn integer_outcome(
    node: NodeV,
    name: Seq<char>,
    ctx: ContextV,
    ops: Seq<OpV>,
) -> NodeOutcome {
    if node.input.len() < 2 || node.input.len() > 4 {
        ops::node_failed(
            ops,
            ErrorV::InvalidShape(
                "MatMulInteger expects 2 to 4 inputs (A, B[, a_zero_point, b_zero_point]), got "@
                    + text::decimal(node.input.len() as int),
            ),
        )
    } else {
        let label = node.label(name);
        let o1 = centered(ops, node.input[0], node.input_at(2), ctx, true, label + "_a"@);
        let o2 = centered(o1, node.input[1], node.input_at(3), ctx, false, label + "_b"@);
        let o3 = o2.push(
            ops::binary_op(
                BinaryOp::Matmul,
                builder::last_operand(o1),
                builder::last_operand(o2),
                label + "_matmul"@,
            ),
        );
        let o4 = o3.push(
            OpV::Cast { input: builder::last_operand(o3), dtype: DataType::Int32, label },
        );
        NodeOutcome {
            ops: ops::recorded_or_named(
                o4,
                node.first_output(),
                label,
                builder::last_operand(o4),
            ),
            result: Ok(
                match node.first_output() {
                    Some(n) => Map::empty().insert(n, DataType::Int32),
                    None => Map::empty(),
                },
            ),
        }
    }
}

fn centered_integer_operand(
    b: &mut OnnxBuilder,
    operand: &String,
    zero_point: Option<&String>,
    context: &ConversionContext,
    per_row: bool,
    label: String,
) -> (r: Operand)
    ensures
        final(b)@ == centered(
            old(b)@,
            operand@,
            match zero_point {
                Some(n) => Some(n@),
                None => None,
            },
            context@,
            per_row,
            label@,
        ),
        r@ == builder::last_operand(final(b)@),
{
    let x = b.resolve(operand);
    let as_float = b.cast(x, DataType::Float32, label_with(&label, "_float"));
    let z = match zero_point {
        None => return as_float,
        Some(z) => z,
    };
    let zp = b.resolve(z);
    let mut zp_float = b.cast(zp, DataType::Float32, label_with(&label, "_zero_point_float"));
    if per_row {
        if let Some(s) = context.resolve_shape(z) {
            if s.len() == 1 && s[0] > 1 {
                zp_float = b.reshape(
                    zp_float,
                    list2(s[0], 1),
                    label_with(&label, "_zero_point_reshape"),
                );
            }
        }
    }
    b.binary(BinaryOp::Sub, as_float, zp_float, label_with(&label, "_centered"))
}

impl MatMulHandler {
    /// Lower `MatMulInteger` as a centered float matmul: cast both operands to
    /// float32, subtract their zero points, `matmul`, and cast the product back
    /// to int32.
    pub fn convert_matmul_integer(
        &self,
        node: &NodeProto,
        node_name: &String,
        context: &ConversionContext,
        b: &mut OnnxBuilder,
    ) -> (r: Result<ConversionResult, OnnxError>)
        ensures
            ops::node_outcome(final(b)@, r) == integer_outcome(
                node@,
                node_name@,
                context@,
                old(b)@,
            ),
    {
        let count: usize = node.input.len();
        if count < 2 || count > 4 {
            let mut m = String::from_str(
                "MatMulInteger expects 2 to 4 inputs (A, B[, a_zero_point, b_zero_point]), got ",
            );
            let d = text::decimal_usize(count);
            m.append(d.as_str());
            return Err(OnnxError::InvalidShape(m));
        }
        assert(node@.input[0] == node.input@[0]@);
        assert(node@.input[1] == node.input@[1]@);
        let label = node.output_label(node_name);
        let x = centered_integer_operand(
            b,
            &node.input[0],
            node.input_name(2),
            context,
            true,
            label_with(&label, "_a"),
        );
        let y = centered_integer_operand(
            b,
            &node.input[1],
            node.input_name(3),
            context,
            false,
            label_with(&label, "_b"),
        );
        let product = b.binary(BinaryOp::Matmul, x, y, label_with(&label, "_matmul"));
        let out = b.cast(product, DataType::Int32, label.clone());
        ops::record_or_name(b, node.first_output(), label, out);
        let mut result = ConversionResult::none();
        if let Some(n) = node.first_output() {
            result.output_types.insert(n.clone(), DataType::Int32);
        }
        Ok(result)
    }
}

// ---------------------------------------------------------------------------
// MatMulBnb4
// ---------------------------------------------------------------------------

/// The bitsandbytes FP4 codebook: 0, 0.0052083335, 0.6666667, 1, 0.33333334,
/// 0.5, 0.16666667, 0.25, and the same values negated.
pub open spec fn fp4_codebook() -> Seq<FloatBits> {
    seq![
        FloatBits::Single(0x0000_0000),
        FloatBits::Single(0x3baa_aaab),
        FloatBits::Single(0x3f2a_aaab),
        FloatBits::Single(0x3f80_0000),
        FloatBits::Single(0x3eaa_aaab),
        FloatBits::Single(0x3f00_0000),
        FloatBits::Single(0x3e2a_aaab),
        FloatBits::Single(0x3e80_0000),
        FloatBits::Single(0x8000_0000),
        FloatBits::Single(0xbbaa_aaab),
        FloatBits::Single(0xbf2a_aaab),
        FloatBits::Single(0xbf80_0000),
        FloatBits::Single(0xbeaa_aaab),
        FloatBits::Single(0xbf00_0000),
        FloatBits::Single(0xbe2a_aaab),
        FloatBits::Single(0xbe80_0000),
    ]
}

fn fp4_codebook_table() -> (r: Vec<FloatBits>)
    ensures
        r@ == fp4_codebook(),
{
    let mut v: Vec<FloatBits> = Vec::new();
    v.push(FloatBits::Single(0x0000_0000));
    v.push(FloatBits::Single(0x3baa_aaab));
    v.push(FloatBits::Single(0x3f2a_aaab));
    v.push(FloatBits::Single(0x3f80_0000));
    v.push(FloatBits::Single(0x3eaa_aaab));
    v.push(FloatBits::Single(0x3f00_0000));
    v.push(FloatBits::Single(0x3e2a_aaab));
    v.push(FloatBits::Single(0x3e80_0000));
    v.push(FloatBits::Single(0x8000_0000));
    v.push(FloatBits::Single(0xbbaa_aaab));
    v.push(FloatBits::Single(0xbf2a_aaab));
    v.push(FloatBits::Single(0xbf80_0000));
    v.push(FloatBits::Single(0xbeaa_aaab));
    v.push(FloatBits::Single(0xbf00_0000));
    v.push(FloatBits::Single(0xbe2a_aaab));
    v.push(FloatBits::Single(0xbe80_0000));
    assert(v@ =~= fp4_codebook());
    v
}

/// The bitsandbytes NF4 codebook: sixteen values from -1 to 1, with zero at
/// position seven.
pub open spec fn nf4_codebook() -> Seq<FloatBits> {
    seq![
        FloatBits::Single(0xbf80_0000),
        FloatBits::Single(0xbf32_39b1),
        FloatBits::Single(0xbf06_6b30),
        FloatBits::Single(0xbeca_32a0),
        FloatBits::Single(0xbe91_a24d),
        FloatBits::Single(0xbe3d_353f),
        FloatBits::Single(0xbdba_7871),
        FloatBits::Single(0x0000_0000),
        FloatBits::Single(0x3da2_faff),
        FloatBits::Single(0x3e24_cae3),
        FloatBits::Single(0x3e7c_04dd),
        FloatBits::Single(0x3ead_033a),
        FloatBits::Single(0x3ee1_a4b8),
        FloatBits::Single(0x3f10_07ab),
        FloatBits::Single(0x3f39_13b3),
        FloatBits::Single(0x3f80_0000),
    ]
}

fn nf4_codebook_table() -> (r: Vec<FloatBits>)
    ensures
        r@ == nf4_codebook(),
{
    let mut v: Vec<FloatBits> = Vec::new();
    v.push(FloatBits::Single(0xbf80_0000));
    v.push(FloatBits::Single(0xbf32_39b1));
    v.push(FloatBits::Single(0xbf06_6b30));
    v.push(FloatBits::Single(0xbeca_32a0));
    v.push(FloatBits::Single(0xbe91_a24d));
    v.push(FloatBits::Single(0xbe3d_353f));
    v.push(FloatBits::Single(0xbdba_7871));
    v.push(FloatBits::Single(0x0000_0000));
    v.push(FloatBits::Single(0x3da2_faff));
    v.push(FloatBits::Single(0x3e24_cae3));
    v.push(FloatBits::Single(0x3e7c_04dd));
    v.push(FloatBits::Single(0x3ead_033a));
    v.push(FloatBits::Single(0x3ee1_a4b8));
    v.push(FloatBits::Single(0x3f10_07ab));
    v.push(FloatBits::Single(0x3f39_13b3));
    v.push(FloatBits::Single(0x3f80_0000));
    assert(v@ =~= nf4_codebook());
    v
}

pub open spec fn half_up(n: int) -> int {
    (n + 1) / 2
}

pub open spec fn ceil_div(n: int, d: int) -> int {
    (n + d - 1) / d
}

/// What the lowering needs to know of a node.
pub struct BnbV {
    pub k: i64,
    pub n: i64,
    pub block_size: i64,
    pub codebook: Seq<FloatBits>,
    pub packed: Seq<u8>,
    pub absmax: Seq<FloatBits>,
}

struct Bnb<'a> {
    k: i64,
    n: i64,
    block_size: i64,
    codebook: Vec<FloatBits>,
    packed: &'a Vec<u8>,
    absmax: Vec<FloatBits>,
}

impl<'a> View for Bnb<'a> {
    type V = BnbV;

    closed spec fn view(&self) -> BnbV {
        BnbV {
            k: self.k,
            n: self.n,
            block_size: self.block_size,
            codebook: self.codebook@,
            packed: self.packed@,
            absmax: self.absmax@,
        }
    }
}

/// The tensors of a node whose attributes are in order.
pub open spec fn bnb_tensors(
    node: NodeV,
    name: Seq<char>,
    ctx: ContextV,
    k: i64,
    n: i64,
    block_size: i64,
    codebook: Seq<FloatBits>,
) -> Result<BnbV, ErrorV> {
    let total = n * k;
    if !ctx.initializers.contains_key(node.input[1]) {
        Err(error::unsupported("MatMulBnb4(non-constant B)"@, name))
    } else if ctx.initializers[node.input[1]].data_type != protos::TYPE_UINT8 {
        Err(
            ErrorV::InvalidShape(
                "MatMulBnb4 B must be packed uint8, got data_type="@ + text::decimal(
                    ctx.initializers[node.input[1]].data_type as int,
                ),
            ),
        )
    } else if !ctx.initializers.contains_key(node.input[2]) {
        Err(error::unsupported("MatMulBnb4(non-constant absmax)"@, name))
    } else if total > usize::MAX {
        Err(ErrorV::InvalidShape("MatMulBnb4 N*K overflow"@))
    } else {
        match ctx.initializers[node.input[1]].bytes() {
            Err(e) => Err(e),
            Ok(packed) => if packed.len() < half_up(total) {
                Err(
                    ErrorV::InvalidShape(
                        "MatMulBnb4 B holds "@ + text::decimal(packed.len() as int)
                            + " bytes, need "@ + text::decimal(half_up(total)) + " for N*K="@
                            + text::decimal(total) + " nibbles"@,
                    ),
                )
            } else {
                match float_values(ctx.initializers[node.input[2]]) {
                    Err(e) => Err(e),
                    Ok(absmax) => if absmax.len() < ceil_div(total, block_size as int) {
                        Err(
                            ErrorV::InvalidShape(
                                "MatMulBnb4 absmax holds "@ + text::decimal(absmax.len() as int)
                                    + " values, need "@ + text::decimal(
                                    ceil_div(total, block_size as int),
                                ),
                            ),
                        )
                    } else {
                        Ok(
                            BnbV {
                                k,
                                n,
                                block_size,
                                codebook,
                                packed: packed.take(half_up(total)),
                                absmax: absmax.take(ceil_div(total, block_size as int)),
                            },
                        )
                    },
                }
            },
        }
    }
}

/// The parameters of a node, or the first thing that is wrong with it.
pub open spec fn bnb_params(node: NodeV, name: Seq<char>, ctx: ContextV) -> Result<BnbV, ErrorV> {
    let k = node.int_attr("K"@, 0);
    let n = node.int_attr("N"@, 0);
    let block_size = node.int_attr("block_size"@, 0);
    let quant_type = node.int_attr("quant_type"@, 1);
    if node.input.len() < 3 {
        Err(
            ErrorV::InvalidShape(
                "MatMulBnb4 expects 3 inputs (A, B, absmax), got "@ + text::decimal(
                    node.input.len() as int,
                ),
            ),
        )
    } else if k <= 0 || n <= 0 || block_size <= 0 {
        Err(
            ErrorV::InvalidShape(
                "MatMulBnb4 requires positive K/N/block_size, got K="@ + text::decimal(k as int)
                    + " N="@ + text::decimal(n as int) + " block_size="@ + text::decimal(
                    block_size as int,
                ),
            ),
        )
    } else if quant_type == 0 {
        bnb_tensors(node, name, ctx, k, n, block_size, fp4_codebook())
    } else if quant_type == 1 {
        bnb_tensors(node, name, ctx, k, n, block_size, nf4_codebook())
    } else {
        Err(
            error::unsupported(
                "MatMulBnb4(quant_type="@ + text::decimal(quant_type as int) + ")"@,
                name,
            ),
        )
    }
}

fn find_bnb_tensors<'a>(
    node: &NodeProto,
    name: &String,
    ctx: &'a ConversionContext,
    k: i64,
    n: i64,
    block_size: i64,
    codebook: Vec<FloatBits>,
) -> (r: Result<Bnb<'a>, OnnxError>)
    requires
        node.input@.len() >= 3,
        k > 0,
        n > 0,
        block_size > 0,
    ensures
        r is Err ==> bnb_tensors(node@, name@, ctx@, k, n, block_size, codebook@) is Err && r->Err_0@
            == bnb_tensors(node@, name@, ctx@, k, n, block_size, codebook@)->Err_0,
        r matches Ok(p) ==> ({
            let total = n * k;
            &&& 0 < total <= usize::MAX
            &&& p@.packed.len() >= half_up(total)
            &&& p@.absmax.len() == ceil_div(total, block_size as int)
            &&& bnb_tensors(node@, name@, ctx@, k, n, block_size, codebook@) == Ok::<
                BnbV,
                ErrorV,
            >(BnbV { packed: p@.packed.take(half_up(total)), ..p@ })
            &&& p@.k == k
            &&& p@.n == n
            &&& p@.block_size == block_size
            &&& p@.codebook == codebook@
        }),
{
    assert(forall|i: int|
        0 <= i < node.input@.len() ==> node@.input[i] == (#[trigger] node.input@[i])@);
    let b_tensor = match ctx.initializers.get(&node.input[1]) {
        Some(t) => t,
        None => return Err(
            OnnxError::unsupported_op(String::from_str("MatMulBnb4(non-constant B)"), name.clone()),
        ),
    };
    if b_tensor.data_type != protos::TYPE_UINT8 {
        let mut m = String::from_str("MatMulBnb4 B must be packed uint8, got data_type=");
        let d = text::decimal_i64(b_tensor.data_type as i64);
        m.append(d.as_str());
        return Err(OnnxError::InvalidShape(m));
    }
    let absmax_tensor = match ctx.initializers.get(&node.input[2]) {
        Some(t) => t,
        None => return Err(
            OnnxError::unsupported_op(
                String::from_str("MatMulBnb4(non-constant absmax)"),
                name.clone(),
            ),
        ),
    };
    let wide: i128 = arith::wide_product(n, k);
    assert(n * k > 0) by (nonlinear_arith)
        requires
            n > 0,
            k > 0,
    ;
    if wide > usize::MAX as i128 {
        return Err(OnnxError::InvalidShape(String::from_str("MatMulBnb4 N*K overflow")));
    }
    let total: usize = wide as usize;
    let need: usize = total / 2 + total % 2;
    let packed = match b_tensor.bytes() {
        Ok(v) => v,
        Err(e) => return Err(e),
    };
    if packed.len() < need {
        let mut m = String::from_str("MatMulBnb4 B holds ");
        let d = text::decimal_usize(packed.len());
        m.append(d.as_str());
        m.append(" bytes, need ");
        let d = text::decimal_usize(need);
        m.append(d.as_str());
        m.append(" for N*K=");
        let d = text::decimal_usize(total);
        m.append(d.as_str());
        m.append(" nibbles");
        return Err(OnnxError::InvalidShape(m));
    }
    let mut absmax: Vec<FloatBits> = match decode_float_tensor(absmax_tensor) {
        Ok(v) => v,
        Err(e) => return Err(e),
    };
    let blocks: u64 = block_total(total as u64, block_size as u64);
    if (absmax.len() as u64) < blocks {
        let mut m = String::from_str("MatMulBnb4 absmax holds ");
        let d = text::decimal_usize(absmax.len());
        m.append(d.as_str());
        m.append(" values, need ");
        let d = text::decimal_u64(blocks);
        m.append(d.as_str());
        return Err(OnnxError::InvalidShape(m));
    }
    let ghost all = absmax@;
    absmax.truncate(blocks as usize);
    assert(absmax@ =~= all.take(blocks as int));
    Ok(Bnb { k, n, block_size, codebook, packed, absmax })
}

/// The number of blocks that cover `n` elements.
fn block_total(n: u64, d: u64) -> (r: u64)
    requires
        d > 0,
    ensures
        r == ceil_div(n as int, d as int),
        r <= n,
{
    let q: u64 = n / d;
    let r: u64 = n % d;
    proof {
        let ni = n as int;
        let di = d as int;
        vstd::arithmetic::div_mod::lemma_fundamental_div_mod(ni, di);
        assert(di * (ni / di) == (ni / di) * di) by (nonlinear_arith);
        if r == 0 {
            vstd::arithmetic::div_mod::lemma_fundamental_div_mod_converse(
                ni + di - 1,
                di,
                q as int,
                di - 1,
            );
        } else {
            assert((q + 1) * di == q * di + di) by (nonlinear_arith);
            vstd::arithmetic::div_mod::lemma_fundamental_div_mod_converse(
                ni + di - 1,
                di,
                q + 1,
                r - 1,
            );
        }
        assert(q <= n) by (nonlinear_arith)
            requires
                q == n / d,
                d > 0,
        ;
        if r != 0 {
            assert(q < n) by (nonlinear_arith)
                requires
                    n == q * d + r,
                    d > 0,
                    r > 0,
                    q >= 0,
            ;
        }
    }
    if r == 0 {
        q
    } else {
        q + 1
    }
}

fn find_bnb<'a>(node: &NodeProto, name: &String, ctx: &'a ConversionContext) -> (r: Result<
    Bnb<'a>,
    OnnxError,
>)
    ensures
        r is Err ==> bnb_params(node@, name@, ctx@) is Err && r->Err_0@ == bnb_params(
            node@,
            name@,
            ctx@,
        )->Err_0,
        r matches Ok(p) ==> ({
            let total = p@.n * p@.k;
            &&& node@.input.len() >= 3
            &&& p@.k > 0
            &&& p@.n > 0
            &&& p@.block_size > 0
            &&& p@.codebook.len() == 16
            &&& 0 < total <= usize::MAX
            &&& p@.packed.len() >= half_up(total)
            &&& p@.absmax.len() == ceil_div(total, p@.block_size as int)
            &&& bnb_params(node@, name@, ctx@) == Ok::<BnbV, ErrorV>(
                BnbV { packed: p@.packed.take(half_up(total)), ..p@ },
            )
        }),
{
    let count: usize = node.input.len();
    if count < 3 {
        let mut m = String::from_str("MatMulBnb4 expects 3 inputs (A, B, absmax), got ");
        let d = text::decimal_usize(count);
        m.append(d.as_str());
        return Err(OnnxError::InvalidShape(m));
    }
    let k: i64 = node.int_attr("K", 0);
    let n: i64 = node.int_attr("N", 0);
    let block_size: i64 = node.int_attr("block_size", 0);
    let quant_type: i64 = node.int_attr("quant_type", 1);
    if k <= 0 || n <= 0 || block_size <= 0 {
        let mut m = String::from_str("MatMulBnb4 requires positive K/N/block_size, got K=");
        let d = text::decimal_i64(k);
        m.append(d.as_str());
        m.append(" N=");
        let d = text::decimal_i64(n);
        m.append(d.as_str());
        m.append(" block_size=");
        let d = text::decimal_i64(block_size);
        m.append(d.as_str());
        return Err(OnnxError::InvalidShape(m));
    }
    let codebook: Vec<FloatBits> = if quant_type == 0 {
        fp4_codebook_table()
    } else if quant_type == 1 {
        nf4_codebook_table()
    } else {
        let mut m = String::from_str("MatMulBnb4(quant_type=");
        let d = text::decimal_i64(quant_type);
        m.append(d.as_str());
        m.append(")");
        return Err(OnnxError::unsupported_op(m, name.clone()));
    };
    find_bnb_tensors(node, name, ctx, k, n, block_size, codebook)
}

/// A constant under a label, and a lookup of it.
pub open spec fn constant_steps(
    ops: Seq<OpV>,
    name: Seq<char>,
    dtype: DataType,
    shape: Seq<u32>,
    data: ConstDataV,
) -> Seq<OpV> {
    ops::resolved(ops.push(OpV::Constant { name, dtype, shape, data }), name)
}

fn declare_constant(
    b: &mut OnnxBuilder,
    name: String,
    dtype: DataType,
    shape: Vec<u32>,
    data: ConstData,
) -> (r: Operand)
    ensures
        final(b)@ == constant_steps(old(b)@, name@, dtype, shape@, data@),
        r@ == builder::last_operand(final(b)@),
{
    b.constant(&name, dtype, shape, data);
    b.resolve(&name)
}

/// The codes of the packed weight, high nibble first, as a list.
pub open spec fn unpack_steps(
    ops: Seq<OpV>,
    blob: OperandV,
    c16: OperandV,
    half: u32,
    total: i64,
    label: Seq<char>,
) -> Seq<OpV> {
    let o1 = ops.push(
        OpV::Cast { input: blob, dtype: DataType::Int32, label: label + "__i32"@ },
    );
    let o2 = o1.push(
        ops::binary_op(BinaryOp::Div, builder::last_operand(o1), c16, label + "__hi"@),
    );
    let o3 = o2.push(
        ops::binary_op(BinaryOp::Mul, builder::last_operand(o2), c16, label + "__hi16"@),
    );
    let o4 = o3.push(
        ops::binary_op(
            BinaryOp::Sub,
            builder::last_operand(o1),
            builder::last_operand(o3),
            label + "__lo"@,
        ),
    );
    let o5 = o4.push(
        OpV::Reshape {
            input: builder::last_operand(o2),
            shape: seq![half as i64, 1],
            label: label + "__hi_col"@,
        },
    );
    let o6 = o5.push(
        OpV::Reshape {
            input: builder::last_operand(o4),
            shape: seq![half as i64, 1],
            label: label + "__lo_col"@,
        },
    );
    let o7 = o6.push(
        OpV::Concat {
            inputs: seq![builder::last_operand(o5), builder::last_operand(o6)],
            axis: 1,
            label: label + "__codes"@,
        },
    );
    o7.push(
        OpV::Reshape {
            input: builder::last_operand(o7),
            shape: seq![total],
            label: label + "__codes_flat"@,
        },
    )
}

/// The weight kept packed: unpack nibbles, look them up in the codebook, scale
/// per block, then matmul.
pub open spec fn bnb_packed_steps(
    ops: Seq<OpV>,
    node: NodeV,
    dtype: DataType,
    p: BnbV,
    label: Seq<char>,
) -> Seq<OpV> {
    let half = p.packed.len() as u32;
    let blocks = p.absmax.len() as i64;
    let o1 = constant_steps(
        ops,
        label + "__blob"@,
        DataType::Uint8,
        seq![half],
        ConstDataV::Bytes(p.packed),
    );
    let o2 = constant_steps(
        o1,
        label + "__c16"@,
        DataType::Int32,
        seq![1],
        ConstDataV::Bytes(bytes::le_bytes(16, 4)),
    );
    let o3 = constant_steps(
        o2,
        label + "__codebook"@,
        dtype,
        seq![16],
        ConstDataV::Floats(p.codebook),
    );
    let o4 = constant_steps(
        o3,
        label + "__absmax"@,
        dtype,
        seq![blocks as u32, 1],
        ConstDataV::Floats(p.absmax),
    );
    let o5 = unpack_steps(
        o4,
        builder::last_operand(o1),
        builder::last_operand(o2),
        half,
        (p.n * p.k) as i64,
        label,
    );
    let o6 = o5.push(
        OpV::Gather {
            input: builder::last_operand(o3),
            indices: builder::last_operand(o5),
            axis: 0,
            label: label + "__lookup"@,
        },
    );
    let o7 = o6.push(
        OpV::Reshape {
            input: builder::last_operand(o6),
            shape: seq![blocks, p.block_size],
            label: label + "__blocked"@,
        },
    );
    let o8 = o7.push(
        ops::binary_op(
            BinaryOp::Mul,
            builder::last_operand(o7),
            builder::last_operand(o4),
            label + "__scaled"@,
        ),
    );
    let o9 = o8.push(
        OpV::Reshape {
            input: builder::last_operand(o8),
            shape: seq![p.n, p.k],
            label: label + "__weights_nk"@,
        },
    );
    let o10 = o9.push(
        OpV::Transpose {
            input: builder::last_operand(o9),
            permutation: seq![1, 0],
            label: label + "__weights_kn"@,
        },
    );
    let o11 = ops::resolved(o10, node.input[0]);
    let o12 = o11.push(
        ops::binary_op(
            BinaryOp::Matmul,
            builder::last_operand(o11),
            builder::last_operand(o10),
            label,
        ),
    );
    ops::recorded_or_named(o12, node.output_at(0), label, builder::last_operand(o12))
}

/// The code of an element: 2i sits in the high nibble, 2i+1 in the low nibble.
pub open spec fn nibble(packed: Seq<u8>, i: int) -> int {
    if i % 2 == 0 {
        packed[i / 2] as int / 16
    } else {
        packed[i / 2] as int % 16
    }
}

/// The row-major `[N, K]` weight transposed to `[K, N]`: every element as its
/// codebook value and the scale of its block.
pub open spec fn bnb_dense(p: BnbV) -> Seq<(FloatBits, FloatBits)> {
    Seq::new(
        (p.n * p.k) as nat,
        |e: int|
            {
                let i = (e % p.n as int) * p.k + e / p.n as int;
                (p.codebook[nibble(p.packed, i)], p.absmax[i / p.block_size as int])
            },
    )
}

/// The weight expanded to a float constant, then matmul.
pub open spec fn bnb_dense_steps(
    ops: Seq<OpV>,
    node: NodeV,
    ctx: ContextV,
    p: BnbV,
    label: Seq<char>,
) -> Seq<OpV> {
    let o1 = ops::resolved(ops, node.input[0]);
    let o2 = constant_steps(
        o1,
        label + "__weights_kn"@,
        ops::float_type(ctx.dtype(node.input[0])),
        seq![p.k as u32, p.n as u32],
        ConstDataV::Products(bnb_dense(p)),
    );
    let o3 = o2.push(
        ops::binary_op(
            BinaryOp::Matmul,
            builder::last_operand(o1),
            builder::last_operand(o2),
            label,
        ),
    );
    ops::recorded(o3, node.output_at(0), label, builder::last_operand(o3))
}

/// The lowering of a `MatMulBnb4` node: packed where the weight is a whole
/// number of blocks, and dense otherwise.
pub open spec fn bnb_outcome(
    node: NodeV,
    name: Seq<char>,
    ctx: ContextV,
    ops: Seq<OpV>,
) -> NodeOutcome {
    match bnb_params(node, name, ctx) {
        Err(e) => ops::node_failed(ops, e),
        Ok(p) => if (p.n * p.k) % p.block_size as int == 0 {
            ops::node_done(
                bnb_packed_steps(ops, node, ctx.dtype(node.input[0]), p, node.label(name)),
            )
        } else {
            ops::node_done(bnb_dense_steps(ops, node, ctx, p, node.label(name)))
        },
    }
}

/// The number of weights is a 64-bit integer, and they can be held.
pub open spec fn bnb_in_range(node: NodeV, name: Seq<char>, ctx: ContextV) -> bool {
    bnb_params(node, name, ctx) matches Ok(p) ==> p.n * p.k * 4 <= isize::MAX
}

fn lower_bnb_packed(
    b: &mut OnnxBuilder,
    node: &NodeProto,
    dtype: DataType,
    p: &Bnb,
    label: &String,
)
    requires
        node.input@.len() >= 3,
        p@.packed.len() >= half_up(p@.n * p@.k),
        0 < p@.n * p@.k,
        p@.n * p@.k * 4 <= isize::MAX,
        p@.absmax.len() <= p@.n * p@.k,
    ensures
        final(b)@ == bnb_packed_steps(
            old(b)@,
            node@,
            dtype,
            BnbV { packed: p@.packed.take(half_up(p@.n * p@.k)), ..p@ },
            label@,
        ),
{
    assert(node@.input[0] == node.input@[0]@);
    let total: i64 = p.n * p.k;
    let bytes_used: usize = (total / 2 + total % 2) as usize;
    let mut packed: Vec<u8> = p.packed.clone();
    assert(packed@ =~= p.packed@);
    packed.truncate(bytes_used);
    assert(packed@ =~= p@.packed.take(half_up(p@.n * p@.k)));
    let half: u32 = packed.len() as u32;
    let blocks: i64 = p.absmax.len() as i64;
    let codebook: Vec<FloatBits> = p.codebook.clone();
    assert(codebook@ =~= p.codebook@);
    let absmax: Vec<FloatBits> = p.absmax.clone();
    assert(absmax@ =~= p.absmax@);
    let mut sixteen: Vec<u8> = Vec::new();
    bytes::put_u32(&mut sixteen, 16);
    assert(sixteen@ =~= bytes::le_bytes(16, 4));

    let blob = declare_constant(
        b,
        label_with(label, "__blob"),
        DataType::Uint8,
        list1(half),
        ConstData::Bytes(packed),
    );
    let c16 = declare_constant(
        b,
        label_with(label, "__c16"),
        DataType::Int32,
        list1(1),
        ConstData::Bytes(sixteen),
    );
    let codebook = declare_constant(
        b,
        label_with(label, "__codebook"),
        dtype,
        list1(16),
        ConstData::Floats(codebook),
    );
    let scales = declare_constant(
        b,
        label_with(label, "__absmax"),
        dtype,
        list2(blocks as u32, 1),
        ConstData::Floats(absmax),
    );
    let x = b.cast(blob, DataType::Int32, label_with(label, "__i32"));
    let hi = b.binary(BinaryOp::Div, x, c16, label_with(label, "__hi"));
    let hi16 = b.binary(BinaryOp::Mul, hi, c16, label_with(label, "__hi16"));
    let lo = b.binary(BinaryOp::Sub, x, hi16, label_with(label, "__lo"));
    let hi = b.reshape(hi, list2(half as i64, 1), label_with(label, "__hi_col"));
    let lo = b.reshape(lo, list2(half as i64, 1), label_with(label, "__lo_col"));
    let codes = b.concat(hi, lo, 1, label_with(label, "__codes"));
    let codes = b.reshape(codes, list1(total), label_with(label, "__codes_flat"));
    let values = b.gather(codebook, codes, 0, label_with(label, "__lookup"));
    let blocked = b.reshape(values, list2(blocks, p.block_size), label_with(label, "__blocked"));
    let scaled = b.binary(BinaryOp::Mul, blocked, scales, label_with(label, "__scaled"));
    let weights_nk = b.reshape(scaled, list2(p.n, p.k), label_with(label, "__weights_nk"));
    let weights = b.transpose(weights_nk, list2(1, 0), label_with(label, "__weights_kn"));
    let a = b.resolve(&node.input[0]);
    let out = b.binary(BinaryOp::Matmul, a, weights, label.clone());
    ops::record_or_name(b, node.output_name(0), label.clone(), out);
}

fn dense_bnb_weights(p: &Bnb) -> (r: Vec<(FloatBits, FloatBits)>)
    requires
        p@.k > 0,
        p@.n > 0,
        p@.block_size > 0,
        p@.codebook.len() == 16,
        0 < p@.n * p@.k,
        p@.n * p@.k * 4 <= isize::MAX,
        p@.packed.len() >= half_up(p@.n * p@.k),
        p@.absmax.len() == ceil_div(p@.n * p@.k, p@.block_size as int),
    ensures
        r@ == bnb_dense(BnbV { packed: p@.packed.take(half_up(p@.n * p@.k)), ..p@ }),
{
    let ghost v = BnbV { packed: p@.packed.take(half_up(p@.n * p@.k)), ..p@ };
    let total: i64 = p.n * p.k;
    let mut out: Vec<(FloatBits, FloatBits)> = Vec::new();
    let mut e: i64 = 0;
    while e < total
        invariant
            0 <= e <= total,
            total == p@.n * p@.k,
            total * 4 <= isize::MAX,
            p@.k > 0,
            p@.n > 0,
            p@.block_size > 0,
            p@.codebook.len() == 16,
            p@.packed.len() >= half_up(total as int),
            p@.absmax.len() == ceil_div(total as int, p@.block_size as int),
            v == (BnbV { packed: p@.packed.take(half_up(p@.n * p@.k)), ..p@ }),
            out@ == bnb_dense(v).take(e as int),
        decreases total - e,
    {
        let row: i64 = e % p.n;
        let col: i64 = e / p.n;
        proof {
            let n = p@.n as int;
            let k = p@.k as int;
            assert(0 <= col < k) by (nonlinear_arith)
                requires
                    col == e as int / n,
                    0 <= e < n * k,
                    n > 0,
            ;
            assert(0 <= row * k && row * k + k <= n * k) by (nonlinear_arith)
                requires
                    0 <= row < n,
                    k > 0,
            ;
        }
        let i: i64 = row * p.k + col;
        assert(0 <= i < total);
        let byte: u8 = p.packed[(i / 2) as usize];
        let code: u8 = if i % 2 == 0 {
            byte / 16
        } else {
            byte % 16
        };
        assert(v.packed[i as int / 2] == byte);
        let block: i64 = i / p.block_size;
        proof {
            let bs = p@.block_size as int;
            assert(0 <= i as int / bs < ceil_div(total as int, bs)) by (nonlinear_arith)
                requires
                    0 <= i < total,
                    bs > 0,
            ;
        }
        out.push((p.codebook[code as usize], p.absmax[block as usize]));
        assert(bnb_dense(v).take(e + 1) =~= bnb_dense(v).take(e as int).push(
            bnb_dense(v)[e as int],
        ));
        e = e + 1;
    }
    assert(bnb_dense(v).take(total as int) =~= bnb_dense(v));
    out
}

impl MatMulHandler {
    /// Lower `com.microsoft.MatMulBnb4`. bitsandbytes FP4/NF4 uses a codebook
    /// of sixteen entries, so `dequantizeLinear` cannot express it; since B and
    /// absmax are initializers, the weight is looked up in the graph, or
    /// expanded where it is not a whole number of blocks.
    pub fn convert_matmul_bnb4(
        &self,
        node: &NodeProto,
        node_name: &String,
        context: &ConversionContext,
        b: &mut OnnxBuilder,
    ) -> (r: Result<ConversionResult, OnnxError>)
        requires
            bnb_in_range(node@, node_name@, context@),
        ensures
            ops::node_outcome(final(b)@, r) == bnb_outcome(node@, node_name@, context@, old(b)@),
    {
        let p = match find_bnb(node, node_name, context) {
            Ok(p) => p,
            Err(e) => return Err(e),
        };
        assert(node@.input[0] == node.input@[0]@);
        let total: i64 = p.n * p.k;
        let label = node.output_label(node_name);
        let dtype: DataType = context.value_type(&node.input[0]);
        if total % p.block_size == 0 {
            proof {
                let bs = p@.block_size as int;
                assert(ceil_div(total as int, bs) <= total) by (nonlinear_arith)
                    requires
                        total > 0,
                        bs > 0,
                ;
            }
            lower_bnb_packed(b, node, dtype, &p, &label);
            return Ok(ConversionResult::none());
        }
        let weights_kn = dense_bnb_weights(&p);
        let a = b.resolve(&node.input[0]);
        let weights = declare_constant(
            b,
            label_with(&label, "__weights_kn"),
            ops::float_type_of(dtype),
            list2(p.k as u32, p.n as u32),
            ConstData::Products(weights_kn),
        );
        let out = b.binary(BinaryOp::Matmul, a, weights, label.clone());
        ops::record_if(b, node.output_name(0), label, out);
        Ok(ConversionResult::none())
    }
}

// ---------------------------------------------------------------------------
// MatMulNBits
// ---------------------------------------------------------------------------

/// The integer is a power of two.
pub open spec fn is_power_of_two(n: int) -> bool
    decreases n,
{
    n == 1 || (n > 1 && n % 2 == 0 && is_power_of_two(n / 2))
}

fn power_of_two(n: i64) -> (r: bool)
    ensures
        r == is_power_of_two(n as int),
{
    let mut m: i64 = n;
    while m > 1
        invariant
            is_power_of_two(m as int) == is_power_of_two(n as int),
        decreases m,
    {
        if m % 2 != 0 {
            return false;
        }
        m = m / 2;
    }
    m == 1
}

/// What the lowering needs to know of a node. Sizes are taken modulo 2^32.
pub struct NbitsV {
    pub k: i64,
    pub n: i64,
    pub n_blocks: u32,
    pub blob_size: u32,
    pub block_size: u32,
    pub weight: InitV,
}

struct Nbits<'a> {
    k: i64,
    n: i64,
    n_blocks: u32,
    blob_size: u32,
    block_size: u32,
    weight: &'a InitTensor,
}

impl<'a> View for Nbits<'a> {
    type V = NbitsV;

    closed spec fn view(&self) -> NbitsV {
        NbitsV {
            k: self.k,
            n: self.n,
            n_blocks: self.n_blocks,
            blob_size: self.blob_size,
            block_size: self.block_size,
            weight: self.weight@,
        }
    }
}

pub open spec fn nbits_sizes_valid(k: i64, n: i64, block_size: i64) -> bool {
    k > 0 && n > 0 && block_size >= 16 && is_power_of_two(block_size as int)
}

/// The parameters of a node whose weight is an initializer.
pub open spec fn nbits_weight(w: InitV, k: i64, n: i64, block_size: i64) -> Result<
    NbitsV,
    ErrorV,
> {
    let n_blocks = w.dims[1] as u32;
    let blob_size = w.dims[2] as u32;
    let bs = block_size as u32;
    let expected_blocks = ceil_div(k as u32 as int, bs as int);
    let expected_blob = ceil_div(bs * 4, 8);
    if w.data_type != protos::TYPE_UINT8 {
        Err(
            ErrorV::InvalidShape(
                "MatMulNBits B must be uint8 packed weights, got data_type="@ + text::decimal(
                    w.data_type as int,
                ),
            ),
        )
    } else if w.dims.len() != 3 {
        Err(
            ErrorV::InvalidShape(
                "MatMulNBits B must have shape [N, n_blocks, blob_size], got "@ + text::list_text(
                    text::ints(w.dims),
                ),
            ),
        )
    } else if w.dims[0] != n {
        Err(
            ErrorV::InvalidShape(
                "MatMulNBits B dim0 "@ + text::decimal(w.dims[0] as int) + " does not match N="@
                    + text::decimal(n as int),
            ),
        )
    } else if n_blocks != expected_blocks {
        Err(
            ErrorV::InvalidShape(
                "MatMulNBits n_blocks "@ + text::decimal(n_blocks as int)
                    + " != ceil(K/block_size)="@ + text::decimal(expected_blocks),
            ),
        )
    } else if blob_size != expected_blob {
        Err(
            ErrorV::InvalidShape(
                "MatMulNBits blob_size "@ + text::decimal(blob_size as int)
                    + " != block_size*bits/8="@ + text::decimal(expected_blob),
            ),
        )
    } else {
        Ok(NbitsV { k, n, n_blocks, blob_size, block_size: bs, weight: w })
    }
}

/// The parameters of a node, or the first thing that is wrong with it.
pub open spec fn nbits_params(node: NodeV, name: Seq<char>, ctx: ContextV) -> Result<
    NbitsV,
    ErrorV,
> {
    let k = node.int_attr("K"@, 0);
    let n = node.int_attr("N"@, 0);
    let bits = node.int_attr("bits"@, 4);
    let block_size = node.int_attr("block_size"@, 32);
    if node.input.len() < 3 {
        Err(
            ErrorV::InvalidShape(
                "MatMulNBits expects at least 3 inputs (A, B, scales), got "@ + text::decimal(
                    node.input.len() as int,
                ),
            ),
        )
    } else if bits != 4 {
        Err(
            error::unsupported(
                "MatMulNBits(bits="@ + text::decimal(bits as int) + ")"@,
                name,
            ),
        )
    } else if !nbits_sizes_valid(k, n, block_size) {
        Err(
            ErrorV::InvalidShape(
                "MatMulNBits requires positive K/N and power-of-two block_size>=16, got K="@
                    + text::decimal(k as int) + " N="@ + text::decimal(n as int) + " block_size="@
                    + text::decimal(block_size as int),
            ),
        )
    } else if node.input_at(4) is Some {
        Err(error::unsupported("MatMulNBits(g_idx)"@, name))
    } else if !ctx.initializers.contains_key(node.input[1]) {
        Err(error::unsupported("MatMulNBits(non-constant B)"@, name))
    } else {
        nbits_weight(ctx.initializers[node.input[1]], k, n, block_size)
    }
}

/// The sizes of blocks and blobs can be computed in 32 bits.
pub open spec fn nbits_sizes_in_range(node: NodeV, ctx: ContextV) -> bool {
    let block_size = node.int_attr("block_size"@, 32);
    let bs = block_size as u32;
    node.input.len() >= 3 && node.int_attr("bits"@, 4) == 4 && nbits_sizes_valid(
        node.int_attr("K"@, 0),
        node.int_attr("N"@, 0),
        block_size,
    ) && node.input_at(4) is None && ctx.initializers.contains_key(node.input[1]) ==> {
        let w = ctx.initializers[node.input[1]];
        w.data_type == protos::TYPE_UINT8 && w.dims.len() == 3 && w.dims[0] == node.int_attr(
            "N"@,
            0,
        ) ==> {
            &&& bs > 0
            &&& w.dims[1] as u32 == ceil_div(
                node.int_attr("K"@, 0) as u32 as int,
                bs as int,
            ) ==> bs * 4 <= u32::MAX && (w.dims[1] as u32) * bs <= u32::MAX
        }
    }
}

fn check_nbits_weight<'a>(w: &'a InitTensor, k: i64, n: i64, block_size: i64) -> (r: Result<
    Nbits<'a>,
    OnnxError,
>)
    requires
        w.data_type == protos::TYPE_UINT8 && w.dims@.len() == 3 && w.dims@[0] == n ==> (
        block_size as u32) > 0 && (w.dims@[1] as u32 == ceil_div(
            k as u32 as int,
            (block_size as u32) as int,
        ) ==> (block_size as u32) * 4 <= u32::MAX),
    ensures
        error::failed(r, |p: Nbits| p@) == nbits_weight(w@, k, n, block_size),
{
    if w.data_type != protos::TYPE_UINT8 {
        let mut m = String::from_str("MatMulNBits B must be uint8 packed weights, got data_type=");
        let d = text::decimal_i64(w.data_type as i64);
        m.append(d.as_str());
        return Err(OnnxError::InvalidShape(m));
    }
    if w.dims.len() != 3 {
        let mut m = String::from_str(
            "MatMulNBits B must have shape [N, n_blocks, blob_size], got ",
        );
        let d = text::list_i64(&w.dims);
        m.append(d.as_str());
        return Err(OnnxError::InvalidShape(m));
    }
    let n_blocks: u32 = w.dims[1] as u32;
    let blob_size: u32 = w.dims[2] as u32;
    let bs: u32 = block_size as u32;
    if w.dims[0] != n {
        let mut m = String::from_str("MatMulNBits B dim0 ");
        let d = text::decimal_i64(w.dims[0]);
        m.append(d.as_str());
        m.append(" does not match N=");
        let d = text::decimal_i64(n);
        m.append(d.as_str());
        return Err(OnnxError::InvalidShape(m));
    }
    let expected_blocks: u64 = block_total(k as u32 as u64, bs as u64);
    if n_blocks as u64 != expected_blocks {
        let mut m = String::from_str("MatMulNBits n_blocks ");
        let d = text::decimal_u64(n_blocks as u64);
        m.append(d.as_str());
        m.append(" != ceil(K/block_size)=");
        let d = text::decimal_u64(expected_blocks);
        m.append(d.as_str());
        return Err(OnnxError::InvalidShape(m));
    }
    let expected_blob: u64 = block_total(bs as u64 * 4, 8);
    if blob_size as u64 != expected_blob {
        let mut m = String::from_str("MatMulNBits blob_size ");
        let d = text::decimal_u64(blob_size as u64);
        m.append(d.as_str());
        m.append(" != block_size*bits/8=");
        let d = text::decimal_u64(expected_blob);
        m.append(d.as_str());
        return Err(OnnxError::InvalidShape(m));
    }
    Ok(Nbits { k, n, n_blocks, blob_size, block_size: bs, weight: w })
}

fn find_nbits<'a>(node: &NodeProto, name: &String, ctx: &'a ConversionContext) -> (r: Result<
    Nbits<'a>,
    OnnxError,
>)
    requires
        nbits_sizes_in_range(node@, ctx@),
    ensures
        error::failed(r, |p: Nbits| p@) == nbits_params(node@, name@, ctx@),
{
    let count: usize = node.input.len();
    if count < 3 {
        let mut m = String::from_str("MatMulNBits expects at least 3 inputs (A, B, scales), got ");
        let d = text::decimal_usize(count);
        m.append(d.as_str());
        return Err(OnnxError::InvalidShape(m));
    }
    let k: i64 = node.int_attr("K", 0);
    let n: i64 = node.int_attr("N", 0);
    let bits: i64 = node.int_attr("bits", 4);
    let block_size: i64 = node.int_attr("block_size", 32);
    if bits != 4 {
        let mut m = String::from_str("MatMulNBits(bits=");
        let d = text::decimal_i64(bits);
        m.append(d.as_str());
        m.append(")");
        return Err(OnnxError::unsupported_op(m, name.clone()));
    }
    if k <= 0 || n <= 0 || block_size < 16 || !power_of_two(block_size) {
        let mut m = String::from_str(
            "MatMulNBits requires positive K/N and power-of-two block_size>=16, got K=",
        );
        let d = text::decimal_i64(k);
        m.append(d.as_str());
        m.append(" N=");
        let d = text::decimal_i64(n);
        m.append(d.as_str());
        m.append(" block_size=");
        let d = text::decimal_i64(block_size);
        m.append(d.as_str());
        return Err(OnnxError::InvalidShape(m));
    }
    if node.input_name(4).is_some() {
        return Err(
            OnnxError::unsupported_op(String::from_str("MatMulNBits(g_idx)"), name.clone()),
        );
    }
    assert(node@.input[1] == node.input@[1]@);
    match ctx.initializers.get(&node.input[1]) {
        None => Err(
            OnnxError::unsupported_op(
                String::from_str("MatMulNBits(non-constant B)"),
                name.clone(),
            ),
        ),
        Some(w) => check_nbits_weight(w, k, n, block_size),
    }
}

/// The number of bytes that this many packed zero points take: two per byte
/// with 4 bits, one per byte with 8.
pub open spec fn zero_point_len(count: int, bits: i64) -> int {
    if bits == 4 {
        half_up(count)
    } else {
        count
    }
}

pub open spec fn zero_point_type(bits: i64) -> DataType {
    if bits == 4 {
        DataType::Uint4
    } else {
        DataType::Uint8
    }
}

/// The payload of the zero points: the given tensor's, or the middle of the
/// range for every one.
pub open spec fn zero_point_payload(
    ctx: ContextV,
    zero_points: Option<Seq<char>>,
    count: int,
    bits: i64,
    label: Seq<char>,
) -> Result<Seq<u8>, ErrorV> {
    let len = zero_point_len(count, bits);
    match zero_points {
        None => Ok(
            Seq::new(
                len as nat,
                |i: int|
                    if bits == 4 {
                        0x88u8
                    } else {
                        0x80u8
                    },
            ),
        ),
        Some(z) => if !ctx.initializers.contains_key(z) {
            Err(error::unsupported("MatMulNBits(non-constant zero_points)"@, label))
        } else if ctx.initializers[z].data_type != protos::TYPE_UINT8 {
            Err(
                ErrorV::InvalidShape(
                    "MatMulNBits zero_points must be packed uint8, got data_type="@
                        + text::decimal(ctx.initializers[z].data_type as int),
                ),
            )
        } else {
            match ctx.initializers[z].bytes() {
                Err(e) => Err(e),
                Ok(v) => if v.len() != len {
                    Err(
                        ErrorV::InvalidShape(
                            "MatMulNBits zero_points packed length "@ + text::decimal(
                                v.len() as int,
                            ) + " != expected "@ + text::decimal(len),
                        ),
                    )
                } else {
                    Ok(v)
                },
            }
        },
    }
}

/// The zero points as a constant `[N, n_blocks, 1]`.
pub open spec fn zero_point_outcome(
    ops: Seq<OpV>,
    ctx: ContextV,
    zero_points: Option<Seq<char>>,
    n: u32,
    n_blocks: u32,
    bits: i64,
    label: Seq<char>,
) -> PartOutcome {
    if n * n_blocks > usize::MAX {
        PartOutcome {
            ops,
            result: Err(ErrorV::InvalidShape("MatMulNBits zero_point size overflow"@)),
        }
    } else {
        match zero_point_payload(ctx, zero_points, n * n_blocks, bits, label) {
            Err(e) => PartOutcome { ops, result: Err(e) },
            Ok(v) => {
                let o = constant_steps(
                    ops,
                    label,
                    zero_point_type(bits),
                    seq![n, n_blocks, 1],
                    ConstDataV::Bytes(v),
                );
                PartOutcome { ops: o, result: Ok(builder::last_operand(o)) }
            },
        }
    }
}

/// Declare the zero points of a node.
pub fn register_matmul_nbits_zero_point(
    b: &mut OnnxBuilder,
    context: &ConversionContext,
    zero_points: Option<&String>,
    n: u32,
    n_blocks: u32,
    bits: i64,
    label: String,
) -> (r: Result<Operand, OnnxError>)
    ensures
        ops::part_outcome(final(b)@, r) == zero_point_outcome(
            old(b)@,
            context@,
            match zero_points {
                Some(z) => Some(z@),
                None => None,
            },
            n,
            n_blocks,
            bits,
            label@,
        ),
{
    assert(0 <= n * n_blocks <= 0xffff_ffff * 0xffff_ffff) by (nonlinear_arith)
        requires
            0 <= n <= 0xffff_ffff,
            0 <= n_blocks <= 0xffff_ffff,
    ;
    let wide: u64 = n as u64 * n_blocks as u64;
    if wide > usize::MAX as u64 {
        return Err(
            OnnxError::InvalidShape(String::from_str("MatMulNBits zero_point size overflow")),
        );
    }
    let count: usize = wide as usize;
    let (len, byte, dtype): (usize, u8, DataType) = if bits == 4 {
        (count / 2 + count % 2, 0x88, DataType::Uint4)
    } else {
        (count, 0x80, DataType::Uint8)
    };
    let packed: Vec<u8> = match zero_points {
        None => {
            let v: Vec<u8> = vec![byte; len];
            assert(v@ =~= zero_point_payload(context@, None, count as int, bits, label@)->Ok_0);
            v
        },
        Some(z) => {
            let tensor = match context.initializers.get(z) {
                Some(t) => t,
                None => return Err(
                    OnnxError::unsupported_op(
                        String::from_str("MatMulNBits(non-constant zero_points)"),
                        label,
                    ),
                ),
            };
            if tensor.data_type != protos::TYPE_UINT8 {
                let mut m = String::from_str(
                    "MatMulNBits zero_points must be packed uint8, got data_type=",
                );
                let d = text::decimal_i64(tensor.data_type as i64);
                m.append(d.as_str());
                return Err(OnnxError::InvalidShape(m));
            }
            let v = match tensor.bytes() {
                Ok(v) => v,
                Err(e) => return Err(e),
            };
            if v.len() != len {
                let mut m = String::from_str("MatMulNBits zero_points packed length ");
                let d = text::decimal_usize(v.len());
                m.append(d.as_str());
                m.append(" != expected ");
                let d = text::decimal_usize(len);
                m.append(d.as_str());
                return Err(OnnxError::InvalidShape(m));
            }
            let c: Vec<u8> = v.clone();
            assert(c@ =~= v@);
            c
        },
    };
    Ok(declare_constant(b, label, dtype, list3(n, n_blocks, 1), ConstData::Bytes(packed)))
}

/// The dequantized weight as `[N, K]`: columns that pad the last block are cut
/// off.
pub open spec fn nbits_rows(
    ops: Seq<OpV>,
    dequantized: OperandV,
    p: NbitsV,
    label: Seq<char>,
) -> Seq<OpV> {
    let padded = (p.n_blocks * p.block_size) as i64;
    if padded != p.k {
        let o1 = ops.push(
            OpV::Reshape {
                input: dequantized,
                shape: seq![p.n, padded],
                label: label + "__weights_nk_padded"@,
            },
        );
        o1.push(
            OpV::Slice {
                input: builder::last_operand(o1),
                starts: seq![0, 0],
                sizes: seq![p.n as u32 as i64, p.k as u32 as i64],
                strides: seq![],
                label: label + "__weights_nk"@,
            },
        )
    } else {
        ops.push(
            OpV::Reshape {
                input: dequantized,
                shape: seq![p.n, p.k],
                label: label + "__weights_nk"@,
            },
        )
    }
}

/// Everything behind the dequantized weight.
pub open spec fn nbits_product(
    ops: Seq<OpV>,
    dequantized: OperandV,
    node: NodeV,
    p: NbitsV,
    label: Seq<char>,
) -> Seq<OpV> {
    let o1 = nbits_rows(ops, dequantized, p, label);
    let o2 = o1.push(
        OpV::Transpose {
            input: builder::last_operand(o1),
            permutation: seq![1, 0],
            label: label + "__weights_kn"@,
        },
    );
    let o3 = ops::resolved(o2, node.input[0]);
    let o4 = o3.push(
        ops::binary_op(
            BinaryOp::Matmul,
            builder::last_operand(o3),
            builder::last_operand(o2),
            label,
        ),
    );
    let o5 = match node.input_at(5) {
        None => o4,
        Some(n) => {
            let biased = ops::resolved(o4, n);
            biased.push(
                ops::binary_op(
                    BinaryOp::Add,
                    builder::last_operand(o4),
                    builder::last_operand(biased),
                    label + "__bias"@,
                ),
            )
        },
    };
    ops::recorded(o5, node.output_at(0), label, builder::last_operand(o5))
}

/// The scales as a constant `[N, n_blocks, 1]`.
pub open spec fn nbits_scales(
    ops: Seq<OpV>,
    node: NodeV,
    name: Seq<char>,
    ctx: ContextV,
    p: NbitsV,
    label: Seq<char>,
) -> PartOutcome {
    if !ctx.initializers.contains_key(node.input[2]) {
        PartOutcome {
            ops,
            result: Err(error::unsupported("MatMulNBits(non-constant scales)"@, name)),
        }
    } else {
        let t = ctx.initializers[node.input[2]];
        match types::mapped_type(t.data_type) {
            Err(e) => PartOutcome { ops, result: Err(e) },
            Ok(dtype) => match t.bytes() {
                Err(e) => PartOutcome { ops, result: Err(e) },
                Ok(v) => {
                    let o = constant_steps(
                        ops,
                        label + "__scales"@,
                        dtype,
                        seq![p.n as u32, p.n_blocks, 1],
                        ConstDataV::Bytes(v),
                    );
                    PartOutcome { ops: o, result: Ok(builder::last_operand(o)) }
                },
            },
        }
    }
}

/// The lowering of a `MatMulNBits` node: `dequantizeLinear`, reshape `[N, K]`,
/// transpose `[K, N]`, `matmul`, and the bias where there is one.
pub open spec fn nbits_outcome(
    node: NodeV,
    name: Seq<char>,
    ctx: ContextV,
    ops: Seq<OpV>,
) -> NodeOutcome {
    match nbits_params(node, name, ctx) {
        Err(e) => ops::node_failed(ops, e),
        Ok(p) => match p.weight.bytes() {
            Err(e) => ops::node_failed(ops, e),
            Ok(packed) => {
                let label = node.label(name);
                let o1 = constant_steps(
                    ops,
                    label + "__B_quant"@,
                    DataType::Uint4,
                    seq![p.n as u32, p.n_blocks, (p.blob_size * 2) as u32],
                    ConstDataV::Bytes(packed),
                );
                let scales = nbits_scales(o1, node, name, ctx, p, label);
                match scales.result {
                    Err(e) => ops::node_failed(scales.ops, e),
                    Ok(scale) => {
                        let zero = zero_point_outcome(
                            scales.ops,
                            ctx,
                            node.input_at(3),
                            p.n as u32,
                            p.n_blocks,
                            4,
                            label + "__zero_point"@,
                        );
                        match zero.result {
                            Err(e) => ops::node_failed(zero.ops, e),
                            Ok(zero_point) => {
                                let o2 = zero.ops.push(
                                    OpV::Dequantize {
                                        input: builder::last_operand(o1),
                                        scale,
                                        zero_point,
                                    },
                                );
                                ops::node_done(
                                    nbits_product(
                                        o2,
                                        builder::last_operand(o2),
                                        node,
                                        p,
                                        label,
                                    ),
                                )
                            },
                        }
                    },
                }
            },
        },
    }
}

fn declare_nbits_scales(
    b: &mut OnnxBuilder,
    node: &NodeProto,
    name: &String,
    ctx: &ConversionContext,
    p: &Nbits,
    label: &String,
) -> (r: Result<Operand, OnnxError>)
    requires
        node.input@.len() >= 3,
    ensures
        ops::part_outcome(final(b)@, r) == nbits_scales(
            old(b)@,
            node@,
            name@,
            ctx@,
            p@,
            label@,
        ),
{
    assert(node@.input[2] == node.input@[2]@);
    let t = match ctx.initializers.get(&node.input[2]) {
        Some(t) => t,
        None => return Err(
            OnnxError::unsupported_op(
                String::from_str("MatMulNBits(non-constant scales)"),
                name.clone(),
            ),
        ),
    };
    let dtype: DataType = match types::map_onnx_data_type(t.data_type) {
        Ok(d) => d,
        Err(e) => return Err(e),
    };
    let v = match t.bytes() {
        Ok(v) => v,
        Err(e) => return Err(e),
    };
    let payload: Vec<u8> = v.clone();
    assert(payload@ =~= v@);
    Ok(
        declare_constant(
            b,
            label_with(label, "__scales"),
            dtype,
            list3(p.n as u32, p.n_blocks, 1),
            ConstData::Bytes(payload),
        ),
    )
}

fn multiply_nbits(
    b: &mut OnnxBuilder,
    dequantized: Operand,
    node: &NodeProto,
    p: &Nbits,
    label: &String,
)
    requires
        node.input@.len() >= 3,
        p@.n_blocks * p@.block_size <= u32::MAX,
    ensures
        final(b)@ == nbits_product(old(b)@, dequantized@, node@, p@, label@),
{
    assert(node@.input[0] == node.input@[0]@);
    let padded: i64 = (p.n_blocks * p.block_size) as i64;
    let weights: Operand = if padded != p.k {
        let full = b.reshape(
            dequantized,
            list2(p.n, padded),
            label_with(label, "__weights_nk_padded"),
        );
        b.slice(
            full,
            list2(0, 0),
            list2(p.n as u32 as i64, p.k as u32 as i64),
            Vec::new(),
            label_with(label, "__weights_nk"),
        )
    } else {
        b.reshape(dequantized, list2(p.n, p.k), label_with(label, "__weights_nk"))
    };
    let weights = b.transpose(weights, list2(1, 0), label_with(label, "__weights_kn"));
    let a = b.resolve(&node.input[0]);
    let product = b.binary(BinaryOp::Matmul, a, weights, label.clone());
    let out: Operand = match node.input_name(5) {
        None => product,
        Some(n) => {
            let bias = b.resolve(n);
            b.binary(BinaryOp::Add, product, bias, label_with(label, "__bias"))
        },
    };
    ops::record_if(b, node.output_name(0), label.clone(), out);
}

proof fn lemma_nbits_ok(node: NodeV, name: Seq<char>, ctx: ContextV)
    requires
        nbits_sizes_in_range(node, ctx),
        nbits_params(node, name, ctx) is Ok,
    ensures
        ({
            let p = nbits_params(node, name, ctx)->Ok_0;
            &&& node.input.len() >= 3
            &&& p.n_blocks * p.block_size <= u32::MAX
            &&& p.blob_size * 2 <= u32::MAX
        }),
{
}

impl MatMulHandler {
    /// Lower `com.microsoft.MatMulNBits`: `dequantizeLinear`, reshape `[N, K]`,
    /// transpose `[K, N]`, `matmul`, and an optional bias.
    ///
    /// Supported: 4 bits, constant packed B, constant scales, optional constant
    /// zero points, optional bias. Rejected: other widths, `g_idx`, and
    /// non-constant B, scales or zero points.
    pub fn convert_matmul_nbits(
        &self,
        node: &NodeProto,
        node_name: &String,
        context: &ConversionContext,
        b: &mut OnnxBuilder,
    ) -> (r: Result<ConversionResult, OnnxError>)
        requires
            nbits_sizes_in_range(node@, context@),
        ensures
            ops::node_outcome(final(b)@, r) == nbits_outcome(
                node@,
                node_name@,
                context@,
                old(b)@,
            ),
    {
        let p = match find_nbits(node, node_name, context) {
            Ok(p) => p,
            Err(e) => return Err(e),
        };
        proof {
            lemma_nbits_ok(node@, node_name@, context@);
        }
        let packed = match p.weight.bytes() {
            Ok(v) => v,
            Err(e) => return Err(e),
        };
        let payload: Vec<u8> = packed.clone();
        assert(payload@ =~= packed@);
        let label = node.output_label(node_name);
        let weight = declare_constant(
            b,
            label_with(&label, "__B_quant"),
            DataType::Uint4,
            list3(p.n as u32, p.n_blocks, p.blob_size * 2),
            ConstData::Bytes(payload),
        );
        let scale = match declare_nbits_scales(b, node, node_name, context, &p, &label) {
            Ok(o) => o,
            Err(e) => return Err(e),
        };
        let zero_point = match register_matmul_nbits_zero_point(
            b,
            context,
            node.input_name(3),
            p.n as u32,
            p.n_blocks,
            4,
            label_with(&label, "__zero_point"),
        ) {
            Ok(o) => o,
            Err(e) => return Err(e),
        };
        let dequantized = b.push(BuilderOp::Dequantize { input: weight, scale, zero_point });
        multiply_nbits(b, dequantized, node, &p, &label);
        Ok(ConversionResult::none())
    }
}

// ---------------------------------------------------------------------------
// Range test and handler
// ---------------------------------------------------------------------------

fn nbits_range(node: &NodeProto, ctx: &ConversionContext) -> (r: bool)
    ensures
        r == nbits_sizes_in_range(node@, ctx@),
{
    let k: i64 = node.int_attr("K", 0);
    let n: i64 = node.int_attr("N", 0);
    let block_size: i64 = node.int_attr("block_size", 32);
    if node.input.len() < 3 || node.int_attr("bits", 4) != 4 || k <= 0 || n <= 0 || block_size < 16
        || !power_of_two(block_size) || node.input_name(4).is_some() {
        return true;
    }
    assert(node@.input[1] == node.input@[1]@);
    let w = match ctx.initializers.get(&node.input[1]) {
        Some(w) => w,
        None => return true,
    };
    if w.data_type != protos::TYPE_UINT8 || w.dims.len() != 3 || w.dims[0] != n {
        return true;
    }
    let bs: u32 = block_size as u32;
    if bs == 0 {
        return false;
    }
    let n_blocks: u32 = w.dims[1] as u32;
    if n_blocks as u64 != block_total(k as u32 as u64, bs as u64) {
        return true;
    }
    assert(0 <= n_blocks * bs <= 0xffff_ffff * 0xffff_ffff) by (nonlinear_arith)
        requires
            0 <= n_blocks <= 0xffff_ffff,
            0 <= bs <= 0xffff_ffff,
    ;
    bs <= u32::MAX / 4 && n_blocks as u64 * bs as u64 <= u32::MAX as u64
}

fn bnb_range(node: &NodeProto, name: &String, ctx: &ConversionContext) -> (r: bool)
    ensures
        r == bnb_in_range(node@, name@, ctx@),
{
    match find_bnb(node, name, ctx) {
        Err(_) => true,
        Ok(p) => arith::wide_product(p.n, p.k) <= (isize::MAX as i128) / 4,
    }
}

/// The lowering of a node that the handler supports; others are rejected.
pub open spec fn handler_outcome(node: NodeV, ctx: ContextV, ops: Seq<OpV>) -> NodeOutcome {
    let name = node.display_name();
    if node.op_type == "MatMul"@ {
        matmul_outcome(node, name, ops)
    } else if node.op_type == "Gemm"@ {
        gemm_outcome(node, name, ops)
    } else if node.op_type == "MatMulNBits"@ {
        nbits_outcome(node, name, ctx, ops)
    } else if node.op_type == "MatMulInteger"@ {
        integer_outcome(node, name, ctx, ops)
    } else if node.op_type == "MatMulBnb4"@ {
        bnb_outcome(node, name, ctx, ops)
    } else {
        ops::node_failed(ops, error::unsupported(node.op_type, name))
    }
}

pub open spec fn handler_in_range(node: NodeV, ctx: ContextV) -> bool {
    &&& node.op_type == "MatMulNBits"@ ==> nbits_sizes_in_range(node, ctx)
    &&& node.op_type == "MatMulBnb4"@ ==> bnb_in_range(node, node.display_name(), ctx)
}

impl MatMulHandler {
    pub fn supports(&self, op_type: &str) -> (r: bool)
        ensures
            r == (op_type@ == "MatMul"@ || op_type@ == "Gemm"@ || op_type@ == "MatMulNBits"@
                || op_type@ == "MatMulInteger"@ || op_type@ == "MatMulBnb4"@),
    {
        text::str_eq(op_type, "MatMul") || text::str_eq(op_type, "Gemm") || text::str_eq(
            op_type,
            "MatMulNBits",
        ) || text::str_eq(op_type, "MatMulInteger") || text::str_eq(op_type, "MatMulBnb4")
    }

    /// Whether [`Self::convert`] can be called on the node.
    pub fn in_range(&self, node: &NodeProto, context: &ConversionContext) -> (r: bool)
        ensures
            r == handler_in_range(node@, context@),
    {
        let node_name = node.display_name();
        (!text::str_eq(node.op_type.as_str(), "MatMulNBits") || nbits_range(node, context)) && (
        !text::str_eq(node.op_type.as_str(), "MatMulBnb4") || bnb_range(node, &node_name, context))
    }

    pub fn convert(&self, node: &NodeProto, context: &ConversionContext, b: &mut OnnxBuilder) -> (r:
        Result<ConversionResult, OnnxError>)
        requires
            handler_in_range(node@, context@),
        ensures
            ops::node_outcome(final(b)@, r) == handler_outcome(node@, context@, old(b)@),
    {
        let node_name = node.display_name();
        if text::str_eq(node.op_type.as_str(), "MatMul") {
            self.convert_matmul(node, &node_name, b)
        } else if text::str_eq(node.op_type.as_str(), "Gemm") {
            self.convert_gemm(node, &node_name, b)
        } else if text::str_eq(node.op_type.as_str(), "MatMulNBits") {
            self.convert_matmul_nbits(node, &node_name, context, b)
        } else if text::str_eq(node.op_type.as_str(), "MatMulInteger") {
            self.convert_matmul_integer(node, &node_name, context, b)
        } else if text::str_eq(node.op_type.as_str(), "MatMulBnb4") {
            self.convert_matmul_bnb4(node, &node_name, context, b)
        } else {
            Err(OnnxError::unsupported_op(node.op_type.clone(), node_name))
        }
    }
}

} // verus!
