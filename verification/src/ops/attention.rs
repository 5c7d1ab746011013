//! `com.microsoft.GroupQueryAttention`.
//!
//! Lowered as reshape/transpose, concat with the KV cache, scaled `q * k^T`, a
//! static causal mask, softmax, and `* v`, in the layout
//!   query `[B, S, H*Dh]`, key/value `[B, S, kvH*Dh]`, past `[B, kvH, P, Dh]`.
//!
//! The mask is a constant that allows key position `j` for query row `i` iff
//! `j <= P + i`: the KV cache is taken to be fully populated and the batch to be
//! unpadded, so the sequence-length inputs are not read.
//!
//! Packed QKV (empty key/value inputs, query `[B, S, (H + 2*kvH)*Dh]`) is split
//! along the hidden axis first. With `do_rotary` the cos/sin caches (inputs 7
//! and 8, `[max_seq, rotary_dim/2]`) are applied to q and k at positions
//! `P..P+S`. Softcap and local attention are rejected.
use crate::arith;
use crate::builder;
use crate::builder::{
    BinaryOp, BuilderOp, ConstData, ConstDataV, OnnxBuilder, OpV, Operand, OperandV, label_with,
    list1, list2, list3, list4, list5,
};
use crate::context::{ContextV, ConversionContext};
use crate::error;
use crate::error::{ErrorV, OnnxError};
use crate::floats;
use crate::floats::FloatBits;
use crate::names::NameMap;
use crate::ops;
use crate::ops::{ConversionResult, NodeOutcome, Part, PartOutcome};
use crate::protos::{NodeProto, NodeV};
use crate::text;
use crate::types::DataType;
use vstd::prelude::*;

verus! {

pub struct AttentionHandler;

// ---------------------------------------------------------------------------
// Shape propagation
// ---------------------------------------------------------------------------

/// The key or the value is not given on its own.
pub open spec fn is_packed(node: NodeV) -> bool {
    node.input[1].len() == 0 || node.input[2].len() == 0
}

/// How wide the attention output is: as wide as the query, or, where the query
/// is packed, as wide as its heads.
pub open spec fn output_width(node: NodeV, q: Seq<i64>, past: Seq<i64>) -> int {
    if is_packed(node) {
        node.int_attr("num_heads"@, 0) * past[3]
    } else {
        q[2] as int
    }
}

/// Shapes of the attention output, the present key and the present value.
pub open spec fn output_shapes(node: NodeV, shapes: Map<Seq<char>, Seq<i64>>) -> Option<
    (Seq<i64>, Seq<i64>, Seq<i64>),
> {
    if node.input.len() > 3 && shapes.contains_key(node.input[0]) && shapes.contains_key(
        node.input[3],
    ) {
        let q = shapes[node.input[0]];
        let past = shapes[node.input[3]];
        if q.len() == 3 && past.len() == 4 && arith::fits_i64(past[2] + q[1]) && arith::fits_i64(
            output_width(node, q, past),
        ) {
            let present = past.update(2, (past[2] + q[1]) as i64);
            Some((seq![q[0], q[1], output_width(node, q, past) as i64], present, present))
        } else {
            None
        }
    } else {
        None
    }
}

/// Output shapes for shape propagation: (attention output, present key,
/// present value).
pub fn gqa_output_shapes(node: &NodeProto, value_shapes: &NameMap<Vec<i64>>) -> (r: Option<
    (Vec<i64>, Vec<i64>, Vec<i64>),
>)
    ensures
        r matches Some(t) ==> output_shapes(node@, value_shapes@) == Some((t.0@, t.1@, t.2@)),
        r is None ==> output_shapes(node@, value_shapes@) is None,
{
    if node.input.len() <= 3 {
        return None;
    }
    proof {
        lemma_input_views(node);
    }
    let q = match value_shapes.get(&node.input[0]) {
        Some(s) => s,
        None => return None,
    };
    let past = match value_shapes.get(&node.input[3]) {
        Some(s) => s,
        None => return None,
    };
    if q.len() != 3 || past.len() != 4 {
        return None;
    }
    let total: i64 = match past[2].checked_add(q[1]) {
        Some(t) => t,
        None => return None,
    };
    let width: i64 = if node.input[1].as_str().is_empty() || node.input[2].as_str().is_empty() {
        match node.int_attr("num_heads", 0).checked_mul(past[3]) {
            Some(w) => w,
            None => return None,
        }
    } else {
        q[2]
    };
    let present = list4(past[0], past[1], total, past[3]);
    assert(present@ =~= past@.update(2, total));
    let second = list4(past[0], past[1], total, past[3]);
    Some((list3(q[0], q[1], width), present, second))
}

// ---------------------------------------------------------------------------
// Attributes and shapes of a node
// ---------------------------------------------------------------------------

/// What the lowering needs to know of a node.
pub struct GqaParams {
    pub packed: bool,
    pub batch: i64,
    pub seq: i64,
    pub past_seq: i64,
    pub total_seq: i64,
    pub num_heads: i64,
    pub kv_num_heads: i64,
    pub head_dim: i64,
    /// Float32 pattern; zero asks for the reciprocal root of `head_dim`.
    pub scale: u32,
    pub dtype: DataType,
    pub interleaved: bool,
    /// Names of the cos and sin caches, where q and k are rotated.
    pub rotary: Option<(String, String)>,
}

pub struct GqaV {
    pub packed: bool,
    pub batch: i64,
    pub seq: i64,
    pub past_seq: i64,
    pub total_seq: i64,
    pub num_heads: i64,
    pub kv_num_heads: i64,
    pub head_dim: i64,
    pub scale: u32,
    pub dtype: DataType,
    pub interleaved: bool,
    pub rotary: Option<(Seq<char>, Seq<char>)>,
}

impl View for GqaParams {
    type V = GqaV;

    open spec fn view(&self) -> GqaV {
        GqaV {
            packed: self.packed,
            batch: self.batch,
            seq: self.seq,
            past_seq: self.past_seq,
            total_seq: self.total_seq,
            num_heads: self.num_heads,
            kv_num_heads: self.kv_num_heads,
            head_dim: self.head_dim,
            scale: self.scale,
            dtype: self.dtype,
            interleaved: self.interleaved,
            rotary: match self.rotary {
                Some((c, s)) => Some((c@, s@)),
                None => None,
            },
        }
    }
}

/// The head counts are positive and every KV head serves as many query heads.
pub open spec fn heads_valid(node: NodeV) -> bool {
    let h = node.int_attr("num_heads"@, 0);
    let kv = node.int_attr("kv_num_heads"@, 0);
    h > 0 && kv > 0 && h % kv == 0
}

pub open spec fn shapes_valid(q: Seq<i64>, past: Seq<i64>) -> bool {
    q.len() == 3 && past.len() == 4 && (forall|i: int| 0 <= i < 3 ==> #[trigger] q[i] > 0)
}

/// How wide the query must be.
pub open spec fn expected_hidden(node: NodeV, head_dim: int) -> int {
    let h = node.int_attr("num_heads"@, 0) as int;
    let kv = node.int_attr("kv_num_heads"@, 0) as int;
    if is_packed(node) {
        (h + 2 * kv) * head_dim
    } else {
        h * head_dim
    }
}

/// The rotary caches of a node: the names, or `Err` where they are asked for
/// and missing.
pub open spec fn rotary_names(node: NodeV) -> Result<Option<(Seq<char>, Seq<char>)>, ()> {
    if node.int_attr("do_rotary"@, 0) != 0 {
        match (node.input_at(7), node.input_at(8)) {
            (Some(c), Some(s)) => Ok(Some((c, s))),
            _ => Err(()),
        }
    } else {
        Ok(None)
    }
}

/// The parameters of a node, or the first thing that is wrong with it.
pub open spec fn gqa_params(node: NodeV, name: Seq<char>, ctx: ContextV) -> Result<GqaV, ErrorV> {
    let h = node.int_attr("num_heads"@, 0);
    let kv = node.int_attr("kv_num_heads"@, 0);
    if node.input.len() < 5 {
        Err(
            ErrorV::InvalidShape(
                "GroupQueryAttention expects at least 5 inputs, got "@ + text::decimal(
                    node.input.len() as int,
                ),
            ),
        )
    } else if rotary_names(node) is Err {
        Err(
            ErrorV::InvalidShape(
                "GroupQueryAttention "@ + name + " has do_rotary=1 but no cos/sin caches"@,
            ),
        )
    } else if !floats::is_zero(node.float_attr("softcap"@, 0)) {
        Err(error::unsupported("GroupQueryAttention(softcap)"@, name))
    } else if node.int_attr("local_window_size"@, (-1) as i64) >= 0 {
        Err(error::unsupported("GroupQueryAttention(local_window_size)"@, name))
    } else if !heads_valid(node) {
        Err(
            ErrorV::InvalidShape(
                "GroupQueryAttention requires num_heads divisible by kv_num_heads, got num_heads="@
                    + text::decimal(h as int) + " kv_num_heads="@ + text::decimal(kv as int),
            ),
        )
    } else if ctx.shape(node.input[0]) is None {
        Err(
            ErrorV::InvalidShape(
                "GroupQueryAttention requires a static query shape for '"@ + node.input[0] + "'"@,
            ),
        )
    } else if ctx.shape(node.input[3]) is None {
        Err(
            ErrorV::InvalidShape(
                "GroupQueryAttention requires a static past_key shape for '"@ + node.input[3]
                    + "'"@,
            ),
        )
    } else {
        let q = ctx.shape(node.input[0])->0;
        let past = ctx.shape(node.input[3])->0;
        if !shapes_valid(q, past) {
            Err(
                ErrorV::InvalidShape(
                    "GroupQueryAttention expects query [B,S,H*Dh] and past_key [B,kvH,P,Dh], got "@
                        + text::list_text(text::ints(q)) + " and "@ + text::list_text(
                        text::ints(past),
                    ),
                ),
            )
        } else if q[2] != expected_hidden(node, past[3] as int) {
            Err(
                ErrorV::InvalidShape(
                    "GroupQueryAttention hidden "@ + text::decimal(q[2] as int) + " != expected "@
                        + text::decimal(expected_hidden(node, past[3] as int)),
                ),
            )
        } else {
            Ok(
                GqaV {
                    packed: is_packed(node),
                    batch: q[0],
                    seq: q[1],
                    past_seq: past[2],
                    total_seq: (past[2] + q[1]) as i64,
                    num_heads: h,
                    kv_num_heads: kv,
                    head_dim: past[3],
                    scale: node.float_attr("scale"@, 0),
                    dtype: ctx.dtype(node.input[0]),
                    interleaved: node.int_attr("rotary_interleaved"@, 0) != 0,
                    rotary: rotary_names(node)->Ok_0,
                },
            )
        }
    }
}

/// Nothing that is not supported is asked for.
pub open spec fn features_valid(node: NodeV) -> bool {
    rotary_names(node) is Ok && floats::is_zero(node.float_attr("softcap"@, 0)) && node.int_attr(
        "local_window_size"@,
        (-1) as i64,
    ) < 0
}

/// The sums and products of the shapes of a node that is not rejected before
/// they are made stay in range.
pub open spec fn params_in_range(node: NodeV, ctx: ContextV) -> bool {
    let h = node.int_attr("num_heads"@, 0) as int;
    let kv = node.int_attr("kv_num_heads"@, 0) as int;
    node.input.len() >= 5 && features_valid(node) && heads_valid(node) && ctx.shape(node.input[0]) is Some && ctx.shape(
        node.input[3],
    ) is Some && shapes_valid(ctx.shape(node.input[0])->0, ctx.shape(node.input[3])->0) ==> {
        let q = ctx.shape(node.input[0])->0;
        let past = ctx.shape(node.input[3])->0;
        &&& arith::fits_i64(past[2] + q[1])
        &&& is_packed(node) ==> arith::fits_i64(2 * kv) && arith::fits_i64(h + 2 * kv)
        &&& arith::fits_i64(expected_hidden(node, past[3] as int))
    }
}

proof fn lemma_input_views(node: &NodeProto)
    ensures
        node@.input.len() == node.input@.len(),
        forall|i: int| 0 <= i < node.input@.len() ==> node@.input[i] == (#[trigger] node.input@[i])@,
{
}

fn params(node: &NodeProto, name: &String, ctx: &ConversionContext) -> (r: Result<
    GqaParams,
    OnnxError,
>)
    requires
        params_in_range(node@, ctx@),
    ensures
        error::failed(r, |p: GqaParams| p@) == gqa_params(node@, name@, ctx@),
{
    let count: usize = node.input.len();
    if count < 5 {
        let mut m = String::from_str("GroupQueryAttention expects at least 5 inputs, got ");
        let d = text::decimal_usize(count);
        m.append(d.as_str());
        return Err(OnnxError::InvalidShape(m));
    }
    proof {
        lemma_input_views(node);
    }
    let packed: bool = node.input[1].as_str().is_empty() || node.input[2].as_str().is_empty();
    let num_heads: i64 = node.int_attr("num_heads", 0);
    let kv_num_heads: i64 = node.int_attr("kv_num_heads", 0);
    let scale: u32 = node.float_attr("scale", 0);
    let do_rotary: i64 = node.int_attr("do_rotary", 0);
    let rotary_interleaved: i64 = node.int_attr("rotary_interleaved", 0);
    let softcap: u32 = node.float_attr("softcap", 0);
    let local_window_size: i64 = node.int_attr("local_window_size", -1);
    let rotary: Option<(String, String)> = if do_rotary != 0 {
        match (node.input_name(7), node.input_name(8)) {
            (Some(c), Some(s)) => Some((c.clone(), s.clone())),
            _ => {
                let mut m = String::from_str("GroupQueryAttention ");
                m.append(name.as_str());
                m.append(" has do_rotary=1 but no cos/sin caches");
                return Err(OnnxError::InvalidShape(m));
            },
        }
    } else {
        None
    };
    if !floats::f32_is_zero(softcap) {
        return Err(
            OnnxError::unsupported_op(
                String::from_str("GroupQueryAttention(softcap)"),
                name.clone(),
            ),
        );
    }
    if local_window_size >= 0 {
        return Err(
            OnnxError::unsupported_op(
                String::from_str("GroupQueryAttention(local_window_size)"),
                name.clone(),
            ),
        );
    }
    if num_heads <= 0 || kv_num_heads <= 0 || num_heads % kv_num_heads != 0 {
        let mut m = String::from_str(
            "GroupQueryAttention requires num_heads divisible by kv_num_heads, got num_heads=",
        );
        let d = text::decimal_i64(num_heads);
        m.append(d.as_str());
        m.append(" kv_num_heads=");
        let d = text::decimal_i64(kv_num_heads);
        m.append(d.as_str());
        return Err(OnnxError::InvalidShape(m));
    }
    let q_shape = match ctx.resolve_shape(&node.input[0]) {
        Some(s) => s,
        None => {
            let mut m = String::from_str("GroupQueryAttention requires a static query shape for '");
            m.append(node.input[0].as_str());
            m.append("'");
            return Err(OnnxError::InvalidShape(m));
        },
    };
    let past_shape = match ctx.resolve_shape(&node.input[3]) {
        Some(s) => s,
        None => {
            let mut m = String::from_str(
                "GroupQueryAttention requires a static past_key shape for '",
            );
            m.append(node.input[3].as_str());
            m.append("'");
            return Err(OnnxError::InvalidShape(m));
        },
    };
    if q_shape.len() != 3 || past_shape.len() != 4 || q_shape[0] <= 0 || q_shape[1] <= 0
        || q_shape[2] <= 0 {
        let mut m = String::from_str(
            "GroupQueryAttention expects query [B,S,H*Dh] and past_key [B,kvH,P,Dh], got ",
        );
        let d = text::list_i64(q_shape);
        m.append(d.as_str());
        m.append(" and ");
        let d = text::list_i64(past_shape);
        m.append(d.as_str());
        return Err(OnnxError::InvalidShape(m));
    }
    let batch: i64 = q_shape[0];
    let seq: i64 = q_shape[1];
    let head_dim: i64 = past_shape[3];
    let past_seq: i64 = past_shape[2];
    let total_seq: i64 = past_seq + seq;
    let expected: i64 = if packed {
        (num_heads + 2 * kv_num_heads) * head_dim
    } else {
        num_heads * head_dim
    };
    if q_shape[2] != expected {
        let mut m = String::from_str("GroupQueryAttention hidden ");
        let d = text::decimal_i64(q_shape[2]);
        m.append(d.as_str());
        m.append(" != expected ");
        let d = text::decimal_i64(expected);
        m.append(d.as_str());
        return Err(OnnxError::InvalidShape(m));
    }
    Ok(
        GqaParams {
            packed,
            batch,
            seq,
            past_seq,
            total_seq,
            num_heads,
            kv_num_heads,
            head_dim,
            scale,
            dtype: ctx.value_type(&node.input[0]),
            interleaved: rotary_interleaved != 0,
            rotary,
        },
    )
}

// ---------------------------------------------------------------------------
// Rotary embedding
// ---------------------------------------------------------------------------

/// `[B, S, heads*Dh] -> [B, S, heads, Dh] -> [B, heads, S, Dh]`.
pub open spec fn heads_steps(
    ops: Seq<OpV>,
    input: OperandV,
    p: GqaV,
    heads: i64,
    label: Seq<char>,
) -> Seq<OpV> {
    let split = ops.push(
        OpV::Reshape {
            input,
            shape: seq![p.batch, p.seq, heads, p.head_dim],
            label: label + "_split"@,
        },
    );
    split.push(
        OpV::Transpose {
            input: builder::last_operand(split),
            permutation: seq![0, 2, 1, 3],
            label: label + "_bhsd"@,
        },
    )
}

fn heads_layout(
    b: &mut OnnxBuilder,
    input: Operand,
    p: &GqaParams,
    heads: i64,
    label: &String,
) -> (r: Operand)
    ensures
        final(b)@ == heads_steps(old(b)@, input@, p@, heads, label@),
        r@ == builder::last_operand(final(b)@),
{
    let split = b.reshape(
        input,
        list4(p.batch, p.seq, heads, p.head_dim),
        label_with(label, "_split"),
    );
    b.transpose(split, list4(0, 2, 1, 3), label_with(label, "_bhsd"))
}

/// A slice with 64-bit starts, taken modulo 2^32.
pub open spec fn slice_op(
    input: OperandV,
    starts: Seq<u32>,
    sizes: Seq<i64>,
    strides: Seq<u32>,
    label: Seq<char>,
) -> OpV {
    OpV::Slice { input, starts, sizes, strides, label }
}

/// Rotates `x1 + i*x2` by the angle with these cosines and sines: appends
/// `x1*cos - x2*sin` and `x1*sin + x2*cos`, the latter last, the former three
/// steps before it.
pub open spec fn rotation_steps(
    ops: Seq<OpV>,
    x1: OperandV,
    x2: OperandV,
    cos: OperandV,
    sin: OperandV,
) -> Seq<OpV> {
    let o1 = ops.push(ops::binary_op(BinaryOp::Mul, x1, cos, seq![]));
    let o2 = o1.push(ops::binary_op(BinaryOp::Mul, x2, sin, seq![]));
    let o3 = o2.push(
        ops::binary_op(BinaryOp::Sub, builder::last_operand(o1), builder::last_operand(o2), seq![]),
    );
    let o4 = o3.push(ops::binary_op(BinaryOp::Mul, x1, sin, seq![]));
    let o5 = o4.push(ops::binary_op(BinaryOp::Mul, x2, cos, seq![]));
    o5.push(ops::binary_op(BinaryOp::Add, builder::last_operand(o4), builder::last_operand(o5), seq![]))
}

/// The first of the two operands `rotation_steps` leaves.
pub open spec fn rotation_real(ops: Seq<OpV>) -> OperandV {
    OperandV { step: ops.len() - 4, output: 0 }
}

/// Appends the steps of a rotation and names the two results.
pub fn rotate(b: &mut OnnxBuilder, x1: Operand, x2: Operand, cos: Operand, sin: Operand) -> (r: (
    Operand,
    Operand,
))
    ensures
        final(b)@ == rotation_steps(old(b)@, x1@, x2@, cos@, sin@),
        r.0@ == rotation_real(final(b)@),
        r.1@ == builder::last_operand(final(b)@),
{
    let cos_x1 = b.binary(BinaryOp::Mul, x1, cos, String::new());
    let sin_x2 = b.binary(BinaryOp::Mul, x2, sin, String::new());
    let re = b.binary(BinaryOp::Sub, cos_x1, sin_x2, String::new());
    let sin_x1 = b.binary(BinaryOp::Mul, x1, sin, String::new());
    let cos_x2 = b.binary(BinaryOp::Mul, x2, cos, String::new());
    let im = b.binary(BinaryOp::Add, sin_x1, cos_x2, String::new());
    (re, im)
}

/// The cache covers the positions and its rows fit the heads.
pub open spec fn cache_error(cache: Seq<i64>, p: GqaV) -> Option<ErrorV> {
    if cache.len() != 2 || cache[0] < p.past_seq + p.seq {
        Some(
            ErrorV::InvalidShape(
                "GroupQueryAttention rotary cache "@ + text::list_text(text::ints(cache))
                    + " too small for positions "@ + text::decimal(p.past_seq as int) + ".."@
                    + text::decimal(p.past_seq + p.seq),
            ),
        )
    } else if cache[1] * 2 > p.head_dim {
        Some(
            ErrorV::InvalidShape(
                "GroupQueryAttention rotary_dim "@ + text::decimal(cache[1] * 2)
                    + " exceeds head_dim "@ + text::decimal(p.head_dim as int),
            ),
        )
    } else {
        None
    }
}

/// The rows of a cache for the current positions, `[1, S, 1, half]`.
pub open spec fn cache_rows_steps(
    ops: Seq<OpV>,
    cos: OperandV,
    sin: OperandV,
    p: GqaV,
    half: i64,
    label: Seq<char>,
) -> Seq<OpV> {
    let o1 = ops.push(
        slice_op(
            cos,
            seq![p.past_seq as u32, 0],
            seq![p.seq, half],
            seq![],
            label + "_cos_rows"@,
        ),
    );
    let o2 = o1.push(
        slice_op(
            sin,
            seq![p.past_seq as u32, 0],
            seq![p.seq, half],
            seq![],
            label + "_sin_rows"@,
        ),
    );
    let o3 = o2.push(
        OpV::Reshape {
            input: builder::last_operand(o1),
            shape: seq![1, p.seq, 1, half],
            label: label + "_cos"@,
        },
    );
    o3.push(
        OpV::Reshape {
            input: builder::last_operand(o2),
            shape: seq![1, p.seq, 1, half],
            label: label + "_sin"@,
        },
    )
}

/// The two components of `x`: every other column, or the two halves.
pub open spec fn components_steps(
    ops: Seq<OpV>,
    x: OperandV,
    p: GqaV,
    heads: i64,
    half: i64,
    label: Seq<char>,
) -> Seq<OpV> {
    let rotary_dim = (half * 2) as i64;
    if p.interleaved {
        let o1 = ops.push(
            slice_op(
                x,
                seq![0, 0, 0, 0],
                seq![p.batch, p.seq, heads, rotary_dim],
                seq![1, 1, 1, 2],
                label + "_even"@,
            ),
        );
        o1.push(
            slice_op(
                x,
                seq![0, 0, 0, 1],
                seq![p.batch, p.seq, heads, (rotary_dim - 1) as i64],
                seq![1, 1, 1, 2],
                label + "_odd"@,
            ),
        )
    } else {
        let o1 = ops.push(
            slice_op(
                x,
                seq![0, 0, 0, 0],
                seq![p.batch, p.seq, heads, half],
                seq![],
                label + "_first_half"@,
            ),
        );
        o1.push(
            slice_op(
                x,
                seq![0, 0, 0, half as u32],
                seq![p.batch, p.seq, heads, half],
                seq![],
                label + "_second_half"@,
            ),
        )
    }
}

pub open spec fn second_last(ops: Seq<OpV>) -> OperandV {
    OperandV { step: ops.len() - 2, output: 0 }
}

/// The two components joined again.
pub open spec fn join_steps(
    ops: Seq<OpV>,
    re: OperandV,
    im: OperandV,
    p: GqaV,
    heads: i64,
    half: i64,
    label: Seq<char>,
) -> Seq<OpV> {
    if p.interleaved {
        let o1 = ops.push(
            OpV::Reshape {
                input: re,
                shape: seq![p.batch, p.seq, heads, half, 1],
                label: label + "_real"@,
            },
        );
        let o2 = o1.push(
            OpV::Reshape {
                input: im,
                shape: seq![p.batch, p.seq, heads, half, 1],
                label: label + "_imag"@,
            },
        );
        let o3 = o2.push(
            OpV::Concat {
                inputs: seq![builder::last_operand(o1), builder::last_operand(o2)],
                axis: 4,
                label: seq![],
            },
        );
        o3.push(
            OpV::Reshape {
                input: builder::last_operand(o3),
                shape: seq![p.batch, p.seq, heads, (half * 2) as i64],
                label: label + "_interleaved"@,
            },
        )
    } else {
        ops.push(OpV::Concat { inputs: seq![re, im], axis: 3, label: seq![] })
    }
}

/// `x` (`[B, S, heads, Dh]`) rotated by the caches at the current positions.
pub open spec fn rotary_steps(
    ops: Seq<OpV>,
    x: OperandV,
    cos_cache: OperandV,
    sin_cache: OperandV,
    p: GqaV,
    heads: i64,
    half: i64,
    label: Seq<char>,
) -> Seq<OpV> {
    let rotary_dim = (half * 2) as i64;
    let rows = cache_rows_steps(ops, cos_cache, sin_cache, p, half, label);
    let partial = rotary_dim < p.head_dim;
    let taken = if partial {
        rows.push(
            slice_op(
                x,
                seq![0, 0, 0, 0],
                seq![p.batch, p.seq, heads, rotary_dim],
                seq![],
                label + "_rotate"@,
            ),
        )
    } else {
        rows
    };
    let x_rotate = if partial {
        builder::last_operand(taken)
    } else {
        x
    };
    let parts = components_steps(taken, x_rotate, p, heads, half, label);
    let turned = rotation_steps(
        parts,
        second_last(parts),
        builder::last_operand(parts),
        second_last(rows),
        builder::last_operand(rows),
    );
    let joined = join_steps(
        turned,
        rotation_real(turned),
        builder::last_operand(turned),
        p,
        heads,
        half,
        label,
    );
    if partial {
        let tail = joined.push(
            slice_op(
                x,
                seq![0, 0, 0, rotary_dim as u32],
                seq![p.batch, p.seq, heads, (p.head_dim - rotary_dim) as i64],
                seq![],
                label + "_tail"@,
            ),
        );
        tail.push(
            OpV::Concat {
                inputs: seq![builder::last_operand(joined), builder::last_operand(tail)],
                axis: 3,
                label: seq![],
            },
        )
    } else {
        joined
    }
}

/// `apply_rotary`: the rotated operand, or what is wrong with the cache.
pub open spec fn rotary_outcome(
    ops: Seq<OpV>,
    x: OperandV,
    cos_cache: OperandV,
    sin_cache: OperandV,
    cache: Seq<i64>,
    p: GqaV,
    heads: i64,
    label: Seq<char>,
) -> PartOutcome {
    match cache_error(cache, p) {
        Some(e) => PartOutcome { ops, result: Err(e) },
        None => {
            let done = rotary_steps(ops, x, cos_cache, sin_cache, p, heads, cache[1], label);
            PartOutcome { ops: done, result: Ok(builder::last_operand(done)) }
        },
    }
}

/// The sums and products of the cache's shape stay in range.
pub open spec fn cache_in_range(cache: Seq<i64>, p: GqaV) -> bool {
    &&& arith::fits_i64(p.past_seq + p.seq)
    &&& cache.len() == 2 && cache[0] >= p.past_seq + p.seq ==> arith::fits_i64(cache[1] * 2) && arith::fits_i64(
        cache[1] * 2 - 1,
    ) && arith::fits_i64(p.head_dim - cache[1] * 2)
}

fn components(
    b: &mut OnnxBuilder,
    x: Operand,
    p: &GqaParams,
    heads: i64,
    half: i64,
    label: &String,
) -> (r: (Operand, Operand))
    requires
        arith::fits_i64(half * 2),
        arith::fits_i64(half * 2 - 1),
    ensures
        final(b)@ == components_steps(old(b)@, x@, p@, heads, half, label@),
        r.0@ == second_last(final(b)@),
        r.1@ == builder::last_operand(final(b)@),
{
    let rotary_dim: i64 = half * 2;
    if p.interleaved {
        let x1 = b.slice(
            x,
            list4(0, 0, 0, 0),
            list4(p.batch, p.seq, heads, rotary_dim),
            list4(1, 1, 1, 2),
            label_with(label, "_even"),
        );
        let x2 = b.slice(
            x,
            list4(0, 0, 0, 1),
            list4(p.batch, p.seq, heads, rotary_dim - 1),
            list4(1, 1, 1, 2),
            label_with(label, "_odd"),
        );
        (x1, x2)
    } else {
        let x1 = b.slice(
            x,
            list4(0, 0, 0, 0),
            list4(p.batch, p.seq, heads, half),
            Vec::new(),
            label_with(label, "_first_half"),
        );
        let x2 = b.slice(
            x,
            list4(0, 0, 0, half as u32),
            list4(p.batch, p.seq, heads, half),
            Vec::new(),
            label_with(label, "_second_half"),
        );
        (x1, x2)
    }
}

fn join(
    b: &mut OnnxBuilder,
    re: Operand,
    im: Operand,
    p: &GqaParams,
    heads: i64,
    half: i64,
    label: &String,
) -> (r: Operand)
    requires
        arith::fits_i64(half * 2),
    ensures
        final(b)@ == join_steps(old(b)@, re@, im@, p@, heads, half, label@),
        r@ == builder::last_operand(final(b)@),
{
    if p.interleaved {
        let re = b.reshape(
            re,
            list5(p.batch, p.seq, heads, half, 1),
            label_with(label, "_real"),
        );
        let im = b.reshape(
            im,
            list5(p.batch, p.seq, heads, half, 1),
            label_with(label, "_imag"),
        );
        let joined = b.concat(re, im, 4, String::new());
        b.reshape(
            joined,
            list4(p.batch, p.seq, heads, half * 2),
            label_with(label, "_interleaved"),
        )
    } else {
        b.concat(re, im, 3, String::new())
    }
}

/// Rotate `x` (`[B, S, heads, Dh]`) with the cos/sin caches
/// (`[max_seq, rotary_dim/2]`) at positions `past_seq..past_seq+seq`.
fn apply_rotary(
    b: &mut OnnxBuilder,
    x: Operand,
    cos_cache: Operand,
    sin_cache: Operand,
    cache_shape: &Vec<i64>,
    p: &GqaParams,
    heads: i64,
    label: &String,
) -> (r: Result<Operand, OnnxError>)
    requires
        cache_in_range(cache_shape@, p@),
    ensures
        ops::part_outcome(final(b)@, r) == rotary_outcome(
            old(b)@,
            x@,
            cos_cache@,
            sin_cache@,
            cache_shape@,
            p@,
            heads,
            label@,
        ),
{
    if cache_shape.len() != 2 || cache_shape[0] < p.past_seq + p.seq {
        let mut m = String::from_str("GroupQueryAttention rotary cache ");
        let d = text::list_i64(cache_shape);
        m.append(d.as_str());
        m.append(" too small for positions ");
        let d = text::decimal_i64(p.past_seq);
        m.append(d.as_str());
        m.append("..");
        let d = text::decimal_i64(p.past_seq + p.seq);
        m.append(d.as_str());
        return Err(OnnxError::InvalidShape(m));
    }
    let half: i64 = cache_shape[1];
    let rotary_dim: i64 = half * 2;
    if rotary_dim > p.head_dim {
        let mut m = String::from_str("GroupQueryAttention rotary_dim ");
        let d = text::decimal_i64(rotary_dim);
        m.append(d.as_str());
        m.append(" exceeds head_dim ");
        let d = text::decimal_i64(p.head_dim);
        m.append(d.as_str());
        return Err(OnnxError::InvalidShape(m));
    }
    let cos = b.slice(
        cos_cache,
        list2(p.past_seq as u32, 0),
        list2(p.seq, half),
        Vec::new(),
        label_with(label, "_cos_rows"),
    );
    let sin = b.slice(
        sin_cache,
        list2(p.past_seq as u32, 0),
        list2(p.seq, half),
        Vec::new(),
        label_with(label, "_sin_rows"),
    );
    let cos = b.reshape(cos, list4(1, p.seq, 1, half), label_with(label, "_cos"));
    let sin = b.reshape(sin, list4(1, p.seq, 1, half), label_with(label, "_sin"));
    let ghost rows = b@;
    assert(rows == cache_rows_steps(old(b)@, cos_cache@, sin_cache@, p@, half, label@));
    let x_rotate: Operand = if rotary_dim < p.head_dim {
        b.slice(
            x,
            list4(0, 0, 0, 0),
            list4(p.batch, p.seq, heads, rotary_dim),
            Vec::new(),
            label_with(label, "_rotate"),
        )
    } else {
        x
    };
    let (x1, x2) = components(b, x_rotate, p, heads, half, label);
    let (re, im) = rotate(b, x1, x2, cos, sin);
    let rotated = join(b, re, im, p, heads, half, label);
    if rotary_dim < p.head_dim {
        let tail = b.slice(
            x,
            list4(0, 0, 0, rotary_dim as u32),
            list4(p.batch, p.seq, heads, p.head_dim - rotary_dim),
            Vec::new(),
            label_with(label, "_tail"),
        );
        return Ok(b.concat(rotated, tail, 3, String::new()));
    }
    Ok(rotated)
}

// ---------------------------------------------------------------------------
// Constants
// ---------------------------------------------------------------------------

/// A large finite negative number (float32 pattern) that the type can hold:
/// `exp` of it is zero, and differences of two of it are not NaN.
pub open spec fn masked_value(dtype: DataType) -> u32 {
    if dtype == DataType::Float16 {
        0xc76a_6000
    } else {
        0xff61_b1e6
    }
}

/// The causal mask `[S, T]` in row-major order: key `j` is visible to query
/// `i` iff `j <= P + i`.
pub open spec fn causal_mask(dtype: DataType, seq: int, past: int, total: int) -> Seq<FloatBits> {
    Seq::new(
        (seq * total) as nat,
        |n: int|
            if n % total > past + n / total {
                FloatBits::Single(masked_value(dtype))
            } else {
                FloatBits::Single(0)
            },
    )
}

/// Key `j` of query row `i` is open in the mask iff `j <= P + i`.
pub proof fn law_causal_mask(dtype: DataType, seq: int, past: int, total: int, i: int, j: int)
    requires
        0 <= i < seq,
        0 <= j < total,
    ensures
        0 <= i * total + j < causal_mask(dtype, seq, past, total).len(),
        causal_mask(dtype, seq, past, total)[i * total + j] == FloatBits::Single(
            if j <= past + i {
                0
            } else {
                masked_value(dtype)
            },
        ),
{
    let n = i * total + j;
    assert(0 <= n < seq * total) by (nonlinear_arith)
        requires
            0 <= i < seq,
            0 <= j < total,
            n == i * total + j,
    ;
    vstd::arithmetic::div_mod::lemma_fundamental_div_mod_converse(n, total, i, j);
}

/// The mask can be computed and held.
pub open spec fn mask_in_range(p: GqaV) -> bool {
    &&& p.past_seq >= 0 || p.total_seq == 0
    &&& 0 <= p.seq * p.total_seq
    &&& p.seq * p.total_seq * 4 <= isize::MAX
}

fn mask_cells(dtype: DataType, seq: usize, past: usize, total: usize) -> (r: Vec<FloatBits>)
    requires
        seq * total <= usize::MAX,
        total > 0 ==> past + seq <= usize::MAX,
    ensures
        r@ == causal_mask(dtype, seq as int, past as int, total as int),
{
    let neg: u32 = match dtype {
        DataType::Float16 => 0xc76a_6000,
        _ => 0xff61_b1e6,
    };
    let mut out: Vec<FloatBits> = Vec::new();
    let mut i: usize = 0;
    let ghost full = causal_mask(dtype, seq as int, past as int, total as int);
    assert(out@ =~= full.take(0));
    while i < seq
        invariant
            i <= seq,
            seq * total <= usize::MAX,
            total > 0 ==> past + seq <= usize::MAX,
            neg == masked_value(dtype),
            full == causal_mask(dtype, seq as int, past as int, total as int),
            0 <= i * total <= seq * total,
            out@ == full.take(i * total),
        decreases seq - i,
    {
        let mut j: usize = 0;
        assert((i + 1) * total == i * total + total) by (nonlinear_arith);
        assert((i + 1) * total <= seq * total) by (nonlinear_arith)
            requires
                i + 1 <= seq,
                total >= 0,
        ;
        while j < total
            invariant
                j <= total,
                i < seq,
                seq * total <= usize::MAX,
                total > 0 ==> past + seq <= usize::MAX,
                neg == masked_value(dtype),
                full == causal_mask(dtype, seq as int, past as int, total as int),
                0 <= i * total,
                i * total + total <= seq * total,
                out@ == full.take(i * total + j),
            decreases total - j,
        {
            proof {
                law_causal_mask(dtype, seq as int, past as int, total as int, i as int, j as int);
            }
            if j > past + i {
                out.push(FloatBits::Single(neg));
            } else {
                out.push(FloatBits::Single(0));
            }
            assert(full.take(i * total + j + 1) =~= full.take(i * total + j).push(
                full[i * total + j],
            ));
            j = j + 1;
        }
        i = i + 1;
    }
    assert(full.take(seq * total) =~= full);
    out
}

/// The payload of the scale: the given one, or the reciprocal root of the head
/// size where it is zero.
pub open spec fn scale_data(p: GqaV) -> ConstDataV {
    if floats::is_zero(p.scale) {
        ConstDataV::InverseSqrt(p.head_dim)
    } else {
        ConstDataV::Floats(seq![FloatBits::Single(p.scale)])
    }
}

// ---------------------------------------------------------------------------
// Lowering
// ---------------------------------------------------------------------------

/// The operands a node starts from.
pub struct SourcesV {
    pub ops: Seq<OpV>,
    pub q: OperandV,
    pub k: OperandV,
    pub v: OperandV,
    pub past_key: OperandV,
    pub past_value: OperandV,
}

pub open spec fn sources(ops: Seq<OpV>, node: NodeV, p: GqaV, label: Seq<char>) -> SourcesV {
    if p.packed {
        let o1 = ops::resolved(ops, node.input[0]);
        let o2 = o1.push(
            OpV::Split {
                input: builder::last_operand(o1),
                sizes: seq![
                    (p.num_heads * p.head_dim) as u32,
                    (p.kv_num_heads * p.head_dim) as u32,
                    (p.kv_num_heads * p.head_dim) as u32,
                ],
                axis: 2,
                label: label + "_qkv_split"@,
            },
        );
        let o3 = ops::resolved(o2, node.input[3]);
        let o4 = ops::resolved(o3, node.input[4]);
        SourcesV {
            ops: o4,
            q: OperandV { step: o2.len() - 1, output: 0 },
            k: OperandV { step: o2.len() - 1, output: 1 },
            v: OperandV { step: o2.len() - 1, output: 2 },
            past_key: builder::last_operand(o3),
            past_value: builder::last_operand(o4),
        }
    } else {
        let o1 = ops::resolved(ops, node.input[0]);
        let o2 = ops::resolved(o1, node.input[1]);
        let o3 = ops::resolved(o2, node.input[2]);
        let o4 = ops::resolved(o3, node.input[3]);
        let o5 = ops::resolved(o4, node.input[4]);
        SourcesV {
            ops: o5,
            q: builder::last_operand(o1),
            k: builder::last_operand(o2),
            v: builder::last_operand(o3),
            past_key: builder::last_operand(o4),
            past_value: builder::last_operand(o5),
        }
    }
}

/// One of q and k, rotated and laid out by heads.
pub open spec fn rotated_side(
    ops: Seq<OpV>,
    input: OperandV,
    cos: OperandV,
    sin: OperandV,
    cache: Seq<i64>,
    p: GqaV,
    heads: i64,
    label: Seq<char>,
) -> PartOutcome {
    let o1 = ops.push(
        OpV::Reshape {
            input,
            shape: seq![p.batch, p.seq, heads, p.head_dim],
            label: label + "_split"@,
        },
    );
    let turned = rotary_outcome(
        o1,
        builder::last_operand(o1),
        cos,
        sin,
        cache,
        p,
        heads,
        label + "_rotary"@,
    );
    match turned.result {
        Err(e) => turned,
        Ok(x) => {
            let o2 = turned.ops.push(
                OpV::Transpose { input: x, permutation: seq![0, 2, 1, 3], label: label + "_bhsd"@ },
            );
            PartOutcome { ops: o2, result: Ok(builder::last_operand(o2)) }
        },
    }
}

/// The steps so far and the operands of q and k, or an error.
pub struct PairOutcome {
    pub ops: Seq<OpV>,
    pub result: Result<(OperandV, OperandV), ErrorV>,
}

/// q and k laid out by heads, rotated where the node asks for it.
pub open spec fn query_and_key(
    ops: Seq<OpV>,
    q: OperandV,
    k: OperandV,
    p: GqaV,
    ctx: ContextV,
    label: Seq<char>,
) -> PairOutcome {
    match p.rotary {
        Some((cos, sin)) => match ctx.shape(cos) {
            None => PairOutcome {
                ops,
                result: Err(
                    ErrorV::InvalidShape(
                        "GroupQueryAttention requires a static cos_cache shape for '"@ + cos + "'"@,
                    ),
                ),
            },
            Some(cache) => {
                let o1 = ops::resolved(ops, cos);
                let o2 = ops::resolved(o1, sin);
                let qs = rotated_side(
                    o2,
                    q,
                    builder::last_operand(o1),
                    builder::last_operand(o2),
                    cache,
                    p,
                    p.num_heads,
                    label + "_q"@,
                );
                match qs.result {
                    Err(e) => PairOutcome { ops: qs.ops, result: Err(e) },
                    Ok(qo) => {
                        let ks = rotated_side(
                            qs.ops,
                            k,
                            builder::last_operand(o1),
                            builder::last_operand(o2),
                            cache,
                            p,
                            p.kv_num_heads,
                            label + "_k"@,
                        );
                        match ks.result {
                            Err(e) => PairOutcome { ops: ks.ops, result: Err(e) },
                            Ok(ko) => PairOutcome { ops: ks.ops, result: Ok((qo, ko)) },
                        }
                    },
                }
            },
        },
        None => {
            let o1 = heads_steps(ops, q, p, p.num_heads, label + "_q"@);
            let o2 = heads_steps(o1, k, p, p.kv_num_heads, label + "_k"@);
            PairOutcome {
                ops: o2,
                result: Ok((builder::last_operand(o1), builder::last_operand(o2))),
            }
        },
    }
}

/// The new keys or values behind the cached ones; the new ones alone where the
/// cache is empty.
pub open spec fn appended(
    ops: Seq<OpV>,
    past: OperandV,
    new: OperandV,
    p: GqaV,
    label: Seq<char>,
) -> Part {
    if p.past_seq == 0 {
        Part { ops, operand: new }
    } else {
        let o = ops.push(OpV::Concat { inputs: seq![past, new], axis: 2, label });
        Part { ops: o, operand: builder::last_operand(o) }
    }
}

/// KV heads repeated across each group of query heads:
/// `[B, kvH, T, Dh] -> [B, H, T, Dh]`.
pub open spec fn repeated(ops: Seq<OpV>, input: OperandV, p: GqaV, label: Seq<char>) -> Part {
    let group = (p.num_heads as int / p.kv_num_heads as int) as i64;
    if group == 1 {
        Part { ops, operand: input }
    } else {
        let o1 = ops.push(
            OpV::Reshape {
                input,
                shape: seq![p.batch, p.kv_num_heads, 1, p.total_seq, p.head_dim],
                label: label + "_grouped"@,
            },
        );
        let o2 = o1.push(
            OpV::Expand {
                input: builder::last_operand(o1),
                shape: seq![p.batch, p.kv_num_heads, group, p.total_seq, p.head_dim],
                label: label + "_expanded"@,
            },
        );
        let o3 = o2.push(
            OpV::Reshape {
                input: builder::last_operand(o2),
                shape: seq![p.batch, p.num_heads, p.total_seq, p.head_dim],
                label: label + "_heads"@,
            },
        );
        Part { ops: o3, operand: builder::last_operand(o3) }
    }
}

/// `softmax(q * scale @ k^T + mask) @ v`, as `[B, S, H*Dh]`.
pub open spec fn attention_steps(
    ops: Seq<OpV>,
    q: OperandV,
    key_heads: OperandV,
    value_heads: OperandV,
    p: GqaV,
    label: Seq<char>,
) -> Seq<OpV> {
    let o1 = ops.push(
        OpV::Constant {
            name: label + "__scale"@,
            dtype: ops::float_type(p.dtype),
            shape: seq![1],
            data: scale_data(p),
        },
    );
    let o2 = ops::resolved(o1, label + "__scale"@);
    let o3 = o2.push(
        ops::binary_op(BinaryOp::Mul, q, builder::last_operand(o2), label + "_q_scaled"@),
    );
    let o4 = o3.push(
        OpV::Transpose {
            input: key_heads,
            permutation: seq![0, 1, 3, 2],
            label: label + "_key_t"@,
        },
    );
    let o5 = o4.push(
        ops::binary_op(
            BinaryOp::Matmul,
            builder::last_operand(o3),
            builder::last_operand(o4),
            label + "_scores"@,
        ),
    );
    let o6 = o5.push(
        OpV::Constant {
            name: label + "__causal_mask"@,
            dtype: ops::float_type(p.dtype),
            shape: seq![p.seq as u32, p.total_seq as u32],
            data: ConstDataV::Floats(
                causal_mask(p.dtype, p.seq as int, p.past_seq as int, p.total_seq as int),
            ),
        },
    );
    let o7 = ops::resolved(o6, label + "__causal_mask"@);
    let o8 = o7.push(
        ops::binary_op(
            BinaryOp::Add,
            builder::last_operand(o5),
            builder::last_operand(o7),
            label + "_masked"@,
        ),
    );
    let o9 = o8.push(
        OpV::Softmax { input: builder::last_operand(o8), axis: 3, label: label + "_probs"@ },
    );
    let o10 = o9.push(
        ops::binary_op(
            BinaryOp::Matmul,
            builder::last_operand(o9),
            value_heads,
            label + "_context"@,
        ),
    );
    let o11 = o10.push(
        OpV::Transpose {
            input: builder::last_operand(o10),
            permutation: seq![0, 2, 1, 3],
            label: label + "_context_bshd"@,
        },
    );
    o11.push(
        OpV::Reshape {
            input: builder::last_operand(o11),
            shape: seq![p.batch, p.seq, (p.num_heads * p.head_dim) as i64],
            label: label + "_output"@,
        },
    )
}

/// Everything behind q and k: the values, the caches, attention, the outputs.
pub open spec fn attend(
    ops: Seq<OpV>,
    q: OperandV,
    k: OperandV,
    src: SourcesV,
    node: NodeV,
    p: GqaV,
    label: Seq<char>,
) -> Seq<OpV> {
    let vs = heads_steps(ops, src.v, p, p.kv_num_heads, label + "_v"@);
    let key = appended(vs, src.past_key, k, p, label + "_present_key"@);
    let value = appended(
        key.ops,
        src.past_value,
        builder::last_operand(vs),
        p,
        label + "_present_value"@,
    );
    let key_heads = repeated(value.ops, key.operand, p, label + "_key"@);
    let value_heads = repeated(key_heads.ops, value.operand, p, label + "_value"@);
    let done = attention_steps(
        value_heads.ops,
        q,
        key_heads.operand,
        value_heads.operand,
        p,
        label,
    );
    let r1 = ops::recorded(done, node.output_at(0), label, builder::last_operand(done));
    let r2 = ops::recorded(
        r1,
        node.output_at(1),
        label + "_present_key_out"@,
        key.operand,
    );
    ops::recorded(r2, node.output_at(2), label + "_present_value_out"@, value.operand)
}

/// The lowering of a `GroupQueryAttention` node.
pub open spec fn gqa_outcome(
    node: NodeV,
    name: Seq<char>,
    ctx: ContextV,
    ops: Seq<OpV>,
) -> NodeOutcome {
    match gqa_params(node, name, ctx) {
        Err(e) => ops::node_failed(ops, e),
        Ok(p) => {
            let label = node.label(name);
            let src = sources(ops, node, p, label);
            let qk = query_and_key(src.ops, src.q, src.k, p, ctx, label);
            match qk.result {
                Err(e) => ops::node_failed(qk.ops, e),
                Ok((q, k)) => ops::node_done(attend(qk.ops, q, k, src, node, p, label)),
            }
        },
    }
}

/// All arithmetic of the lowering stays in range.
pub open spec fn gqa_in_range(node: NodeV, name: Seq<char>, ctx: ContextV) -> bool {
    &&& params_in_range(node, ctx)
    &&& gqa_params(node, name, ctx) matches Ok(p) ==> {
        &&& mask_in_range(p)
        &&& p.rotary matches Some(c) ==> ctx.shape(c.0) is Some ==> cache_in_range(
            ctx.shape(c.0)->0,
            p,
        )
    }
}

proof fn lemma_params(node: NodeV, name: Seq<char>, ctx: ContextV)
    requires
        params_in_range(node, ctx),
        gqa_params(node, name, ctx) is Ok,
    ensures
        ({
            let p = gqa_params(node, name, ctx)->Ok_0;
            &&& node.input.len() >= 5
            &&& p.num_heads > 0
            &&& p.kv_num_heads > 0
            &&& p.head_dim > 0
            &&& p.seq > 0
            &&& p.batch > 0
            &&& p.total_seq == p.past_seq + p.seq
            &&& p.num_heads >= p.kv_num_heads
            &&& 0 < p.num_heads * p.head_dim <= i64::MAX
            &&& 0 < p.kv_num_heads * p.head_dim <= i64::MAX
        }),
{
    let p = gqa_params(node, name, ctx)->Ok_0;
    let q = ctx.shape(node.input[0])->0;
    let h = p.num_heads as int;
    let kv = p.kv_num_heads as int;
    let d = p.head_dim as int;
    assert(q[2] > 0);
    assert(h >= kv) by (nonlinear_arith)
        requires
            h > 0,
            kv > 0,
            h % kv == 0,
    ;
    if p.packed {
        assert(d > 0 && h * d <= (h + 2 * kv) * d) by (nonlinear_arith)
            requires
                (h + 2 * kv) * d > 0,
                h > 0,
                kv > 0,
        ;
    } else {
        assert(d > 0) by (nonlinear_arith)
            requires
                h * d > 0,
                h > 0,
        ;
    }
    assert(0 < kv * d <= h * d) by (nonlinear_arith)
        requires
            0 < kv <= h,
            d > 0,
    ;
}

struct Sources {
    q: Operand,
    k: Operand,
    v: Operand,
    past_key: Operand,
    past_value: Operand,
}

fn resolve_sources(b: &mut OnnxBuilder, node: &NodeProto, p: &GqaParams, label: &String) -> (r:
    Sources)
    requires
        node.input@.len() >= 5,
        0 < p.num_heads * p.head_dim <= i64::MAX,
        0 < p.kv_num_heads * p.head_dim <= i64::MAX,
    ensures
        ({
            let s = sources(old(b)@, node@, p@, label@);
            &&& final(b)@ == s.ops
            &&& r.q@ == s.q
            &&& r.k@ == s.k
            &&& r.v@ == s.v
            &&& r.past_key@ == s.past_key
            &&& r.past_value@ == s.past_value
        }),
{
    proof {
        lemma_input_views(node);
    }
    if p.packed {
        let qkv = b.resolve(&node.input[0]);
        let parts = b.push(
            BuilderOp::Split {
                input: qkv,
                sizes: list3(
                    (p.num_heads * p.head_dim) as u32,
                    (p.kv_num_heads * p.head_dim) as u32,
                    (p.kv_num_heads * p.head_dim) as u32,
                ),
                axis: 2,
                label: label_with(label, "_qkv_split"),
            },
        );
        let past_key = b.resolve(&node.input[3]);
        let past_value = b.resolve(&node.input[4]);
        Sources {
            q: parts,
            k: Operand { step: parts.step, output: 1 },
            v: Operand { step: parts.step, output: 2 },
            past_key,
            past_value,
        }
    } else {
        let q = b.resolve(&node.input[0]);
        let k = b.resolve(&node.input[1]);
        let v = b.resolve(&node.input[2]);
        let past_key = b.resolve(&node.input[3]);
        let past_value = b.resolve(&node.input[4]);
        Sources { q, k, v, past_key, past_value }
    }
}

fn rotate_side(
    b: &mut OnnxBuilder,
    input: Operand,
    cos: Operand,
    sin: Operand,
    cache_shape: &Vec<i64>,
    p: &GqaParams,
    heads: i64,
    label: &String,
) -> (r: Result<Operand, OnnxError>)
    requires
        cache_in_range(cache_shape@, p@),
    ensures
        ops::part_outcome(final(b)@, r) == rotated_side(
            old(b)@,
            input@,
            cos@,
            sin@,
            cache_shape@,
            p@,
            heads,
            label@,
        ),
{
    let bshd = b.reshape(
        input,
        list4(p.batch, p.seq, heads, p.head_dim),
        label_with(label, "_split"),
    );
    let rotary_label = label_with(label, "_rotary");
    match apply_rotary(b, bshd, cos, sin, cache_shape, p, heads, &rotary_label) {
        Err(e) => Err(e),
        Ok(x) => Ok(b.transpose(x, list4(0, 2, 1, 3), label_with(label, "_bhsd"))),
    }
}

pub open spec fn pair_outcome(ops: Seq<OpV>, r: Result<(Operand, Operand), OnnxError>) -> PairOutcome {
    PairOutcome {
        ops,
        result: match r {
            Ok(t) => Ok((t.0@, t.1@)),
            Err(e) => Err(e@),
        },
    }
}

fn layout_query_and_key(
    b: &mut OnnxBuilder,
    q: Operand,
    k: Operand,
    p: &GqaParams,
    ctx: &ConversionContext,
    label: &String,
) -> (r: Result<(Operand, Operand), OnnxError>)
    requires
        p@.rotary matches Some(c) ==> ctx@.shape(c.0) is Some ==> cache_in_range(
            ctx@.shape(c.0)->0,
            p@,
        ),
    ensures
        pair_outcome(final(b)@, r) == query_and_key(old(b)@, q@, k@, p@, ctx@, label@),
{
    let q_label = label_with(label, "_q");
    let k_label = label_with(label, "_k");
    match &p.rotary {
        Some((cos_name, sin_name)) => {
            let cache_shape = match ctx.resolve_shape(cos_name) {
                Some(s) => s,
                None => {
                    let mut m = String::from_str(
                        "GroupQueryAttention requires a static cos_cache shape for '",
                    );
                    m.append(cos_name.as_str());
                    m.append("'");
                    return Err(OnnxError::InvalidShape(m));
                },
            };
            let cos = b.resolve(cos_name);
            let sin = b.resolve(sin_name);
            let q = match rotate_side(b, q, cos, sin, cache_shape, p, p.num_heads, &q_label) {
                Ok(o) => o,
                Err(e) => return Err(e),
            };
            let k = match rotate_side(b, k, cos, sin, cache_shape, p, p.kv_num_heads, &k_label) {
                Ok(o) => o,
                Err(e) => return Err(e),
            };
            Ok((q, k))
        },
        None => {
            let q = heads_layout(b, q, p, p.num_heads, &q_label);
            let k = heads_layout(b, k, p, p.kv_num_heads, &k_label);
            Ok((q, k))
        },
    }
}

fn append_cache(b: &mut OnnxBuilder, past: Operand, new: Operand, p: &GqaParams, label: String) -> (r:
    Operand)
    ensures
        final(b)@ == appended(old(b)@, past@, new@, p@, label@).ops,
        r@ == appended(old(b)@, past@, new@, p@, label@).operand,
{
    if p.past_seq == 0 {
        return new;
    }
    b.concat(past, new, 2, label)
}

fn repeat_heads(b: &mut OnnxBuilder, input: Operand, p: &GqaParams, label: String) -> (r: Operand)
    requires
        p.num_heads > 0,
        p.kv_num_heads > 0,
    ensures
        final(b)@ == repeated(old(b)@, input@, p@, label@).ops,
        r@ == repeated(old(b)@, input@, p@, label@).operand,
{
    let group: i64 = p.num_heads / p.kv_num_heads;
    if group == 1 {
        return input;
    }
    let grouped = b.reshape(
        input,
        list5(p.batch, p.kv_num_heads, 1, p.total_seq, p.head_dim),
        label_with(&label, "_grouped"),
    );
    let expanded = b.expand(
        grouped,
        list5(p.batch, p.kv_num_heads, group, p.total_seq, p.head_dim),
        label_with(&label, "_expanded"),
    );
    b.reshape(
        expanded,
        list4(p.batch, p.num_heads, p.total_seq, p.head_dim),
        label_with(&label, "_heads"),
    )
}

fn attention(
    b: &mut OnnxBuilder,
    q: Operand,
    key_heads: Operand,
    value_heads: Operand,
    p: &GqaParams,
    label: &String,
) -> (r: Operand)
    requires
        mask_in_range(p@),
        p.seq > 0,
        p.total_seq == p.past_seq + p.seq,
        0 < p.num_heads * p.head_dim <= i64::MAX,
    ensures
        final(b)@ == attention_steps(old(b)@, q@, key_heads@, value_heads@, p@, label@),
        r@ == builder::last_operand(final(b)@),
{
    let scale_name = label_with(label, "__scale");
    let scale: ConstData = if floats::f32_is_zero(p.scale) {
        ConstData::InverseSqrt(p.head_dim)
    } else {
        ConstData::Floats(list1(FloatBits::Single(p.scale)))
    };
    b.constant(&scale_name, ops::float_type_of(p.dtype), list1(1), scale);
    let scale_op = b.resolve(&scale_name);
    let q_scaled = b.binary(BinaryOp::Mul, q, scale_op, label_with(label, "_q_scaled"));
    let key_t = b.transpose(key_heads, list4(0, 1, 3, 2), label_with(label, "_key_t"));
    let scores = b.binary(BinaryOp::Matmul, q_scaled, key_t, label_with(label, "_scores"));

    let mask_name = label_with(label, "__causal_mask");
    let mask = causal_cells(p);
    b.constant(
        &mask_name,
        ops::float_type_of(p.dtype),
        list2(p.seq as u32, p.total_seq as u32),
        ConstData::Floats(mask),
    );
    let mask_op = b.resolve(&mask_name);
    let masked = b.binary(BinaryOp::Add, scores, mask_op, label_with(label, "_masked"));
    let probs = b.softmax(masked, 3, label_with(label, "_probs"));
    let context_heads = b.binary(
        BinaryOp::Matmul,
        probs,
        value_heads,
        label_with(label, "_context"),
    );
    let context_bshd = b.transpose(
        context_heads,
        list4(0, 2, 1, 3),
        label_with(label, "_context_bshd"),
    );
    b.reshape(
        context_bshd,
        list3(p.batch, p.seq, p.num_heads * p.head_dim),
        label_with(label, "_output"),
    )
}

fn causal_cells(p: &GqaParams) -> (r: Vec<FloatBits>)
    requires
        mask_in_range(p@),
        p.seq > 0,
        p.total_seq == p.past_seq + p.seq,
    ensures
        r@ == causal_mask(p.dtype, p.seq as int, p.past_seq as int, p.total_seq as int),
{
    if p.total_seq == 0 {
        let r: Vec<FloatBits> = Vec::new();
        assert(p.seq * p.total_seq == 0) by (nonlinear_arith)
            requires
                p.total_seq == 0,
        ;
        assert(r@ =~= causal_mask(p.dtype, p.seq as int, p.past_seq as int, p.total_seq as int));
        r
    } else {
        assert(p.total_seq <= p.seq * p.total_seq && p.seq <= p.seq * p.total_seq) by (
            nonlinear_arith)
            requires
                p.seq > 0,
                p.total_seq > 0,
        ;
        mask_cells(p.dtype, p.seq as usize, p.past_seq as usize, p.total_seq as usize)
    }
}

/// Lower a `GroupQueryAttention` node.
pub fn convert_group_query_attention(
    node: &NodeProto,
    node_name: &String,
    context: &ConversionContext,
    b: &mut OnnxBuilder,
) -> (r: Result<ConversionResult, OnnxError>)
    requires
        gqa_in_range(node@, node_name@, context@),
    ensures
        ops::node_outcome(final(b)@, r) == gqa_outcome(node@, node_name@, context@, old(b)@),
{
    let p = match params(node, node_name, context) {
        Ok(p) => p,
        Err(e) => return Err(e),
    };
    proof {
        lemma_params(node@, node_name@, context@);
    }
    let label = node.output_label(node_name);
    let src = resolve_sources(b, node, &p, &label);
    let (q, k) = match layout_query_and_key(b, src.q, src.k, &p, context, &label) {
        Ok(t) => t,
        Err(e) => return Err(e),
    };
    let v_label = label_with(&label, "_v");
    let v = heads_layout(b, src.v, &p, p.kv_num_heads, &v_label);
    let present_key = append_cache(b, src.past_key, k, &p, label_with(&label, "_present_key"));
    let present_value = append_cache(
        b,
        src.past_value,
        v,
        &p,
        label_with(&label, "_present_value"),
    );
    let key_heads = repeat_heads(b, present_key, &p, label_with(&label, "_key"));
    let value_heads = repeat_heads(b, present_value, &p, label_with(&label, "_value"));
    let output = attention(b, q, key_heads, value_heads, &p, &label);
    ops::record_if(b, node.output_name(0), label.clone(), output);
    ops::record_if(b, node.output_name(1), label_with(&label, "_present_key_out"), present_key);
    ops::record_if(b, node.output_name(2), label_with(&label, "_present_value_out"), present_value);
    Ok(ConversionResult::none())
}

// ---------------------------------------------------------------------------
// Range test and handler
// ---------------------------------------------------------------------------

fn params_range(node: &NodeProto, ctx: &ConversionContext) -> (r: bool)
    ensures
        r == params_in_range(node@, ctx@),
{
    if node.input.len() < 5 {
        return true;
    }
    proof {
        lemma_input_views(node);
    }
    if node.int_attr("do_rotary", 0) != 0 && (node.input_name(7).is_none() || node.input_name(
        8,
    ).is_none()) {
        return true;
    }
    if !floats::f32_is_zero(node.float_attr("softcap", 0)) || node.int_attr(
        "local_window_size",
        -1,
    ) >= 0 {
        return true;
    }
    let h: i64 = node.int_attr("num_heads", 0);
    let kv: i64 = node.int_attr("kv_num_heads", 0);
    if h <= 0 || kv <= 0 || h % kv != 0 {
        return true;
    }
    let q = match ctx.resolve_shape(&node.input[0]) {
        Some(s) => s,
        None => return true,
    };
    let past = match ctx.resolve_shape(&node.input[3]) {
        Some(s) => s,
        None => return true,
    };
    if q.len() != 3 || past.len() != 4 || q[0] <= 0 || q[1] <= 0 || q[2] <= 0 {
        return true;
    }
    if past[2].checked_add(q[1]).is_none() {
        return false;
    }
    if node.input[1].as_str().is_empty() || node.input[2].as_str().is_empty() {
        let twice: i64 = match kv.checked_mul(2) {
            Some(t) => t,
            None => return false,
        };
        let all: i64 = match h.checked_add(twice) {
            Some(t) => t,
            None => return false,
        };
        all.checked_mul(past[3]).is_some()
    } else {
        h.checked_mul(past[3]).is_some()
    }
}

fn mask_range(p: &GqaParams) -> (r: bool)
    ensures
        r == mask_in_range(p@),
{
    let cells: i128 = arith::wide_product(p.seq, p.total_seq);
    (p.past_seq >= 0 || p.total_seq == 0) && cells >= 0 && cells <= (isize::MAX as i128) / 4
}

fn cache_range(cache: &Vec<i64>, p: &GqaParams) -> (r: bool)
    ensures
        r == cache_in_range(cache@, p@),
{
    let end: i64 = match p.past_seq.checked_add(p.seq) {
        Some(e) => e,
        None => return false,
    };
    if cache.len() != 2 || cache[0] < end {
        return true;
    }
    let dim: i128 = cache[1] as i128 * 2;
    let rest: i128 = p.head_dim as i128 - dim;
    i64::MIN as i128 <= dim - 1 && dim <= i64::MAX as i128 && i64::MIN as i128 <= rest && rest
        <= i64::MAX as i128
}

/// Whether all arithmetic of the lowering of a node stays in range; the node
/// can be converted then.
pub fn gqa_range(node: &NodeProto, node_name: &String, context: &ConversionContext) -> (r: bool)
    ensures
        r == gqa_in_range(node@, node_name@, context@),
{
    if !params_range(node, context) {
        return false;
    }
    match params(node, node_name, context) {
        Err(_) => true,
        Ok(p) => {
            if !mask_range(&p) {
                return false;
            }
            match &p.rotary {
                None => true,
                Some((cos, _)) => match context.resolve_shape(cos) {
                    None => true,
                    Some(cache) => cache_range(cache, &p),
                },
            }
        },
    }
}

/// Shape propagation agrees with the lowering of a node, packed or not: the
/// propagated output is the shape that attention is brought to at its end, and
/// the present key and value are as long as the cached and the new positions
/// together, with heads as wide as those attended to.
pub proof fn law_propagated_shapes_are_lowered_to(
    node: NodeV,
    name: Seq<char>,
    ctx: ContextV,
    shapes: Map<Seq<char>, Seq<i64>>,
    ops: Seq<OpV>,
    q: OperandV,
    key_heads: OperandV,
    value_heads: OperandV,
    label: Seq<char>,
)
    requires
        params_in_range(node, ctx),
        gqa_params(node, name, ctx) is Ok,
        shapes.contains_pair(node.input[0], ctx.shape(node.input[0])->0),
        shapes.contains_pair(node.input[3], ctx.shape(node.input[3])->0),
    ensures
        ({
            let p = gqa_params(node, name, ctx)->Ok_0;
            &&& output_shapes(node, shapes) matches Some((out, key, value))
            &&& attention_steps(ops, q, key_heads, value_heads, p, label).last() matches OpV::Reshape {
                shape,
                ..
            }
            &&& shape == out
            &&& key == value
            &&& key.len() == 4
            &&& key[2] == p.total_seq
            &&& key[3] == p.head_dim
        }),
{
    let p = gqa_params(node, name, ctx)->Ok_0;
    lemma_params(node, name, ctx);
    assert(output_width(node, ctx.shape(node.input[0])->0, ctx.shape(node.input[3])->0)
        == p.num_heads * p.head_dim);
}

impl AttentionHandler {
    pub fn supports(&self, op_type: &str) -> (r: bool)
        ensures
            r == (op_type@ == "GroupQueryAttention"@),
    {
        text::str_eq(op_type, "GroupQueryAttention")
    }

    /// Whether [`Self::convert`] can be called on the node.
    pub fn in_range(&self, node: &NodeProto, context: &ConversionContext) -> (r: bool)
        ensures
            r == gqa_in_range(node@, node@.display_name(), context@),
    {
        let node_name = node.display_name();
        gqa_range(node, &node_name, context)
    }

    pub fn convert(&self, node: &NodeProto, context: &ConversionContext, b: &mut OnnxBuilder) -> (r:
        Result<ConversionResult, OnnxError>)
        requires
            gqa_in_range(node@, node@.display_name(), context@),
        ensures
            ops::node_outcome(final(b)@, r) == gqa_outcome(
                node@,
                node@.display_name(),
                context@,
                old(b)@,
            ),
    {
        let node_name = node.display_name();
        convert_group_query_attention(node, &node_name, context, b)
    }
}

} // verus!
