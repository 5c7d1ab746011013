//! Recurrent and positional operators: GRU, LSTM, RotaryEmbedding.
use crate::builder;
use crate::builder::{
    BuilderOp, Direction, OnnxBuilder, OpV, Operand, OperandV, label_with, list1, list2, list4,
    list5,
};
use crate::context;
use crate::context::{ContextV, ConversionContext};
use crate::error;
use crate::error::{ErrorV, OnnxError};
use crate::floats;
use crate::ops;
use crate::ops::attention;
use crate::ops::{ConversionResult, NodeOutcome, PartOutcome};
use crate::protos::{AttributeProto, AttributeV, NodeProto, NodeV};
use crate::text;
use crate::types;
use crate::types::DataType;
use vstd::prelude::*;

verus! {

pub struct RnnHandler;

// ---------------------------------------------------------------------------
// RotaryEmbedding: parameters
// ---------------------------------------------------------------------------

/// The input is laid out as `[B, N, S, H]` (rank 4) or `[B, S, N*H]` (rank 3).
pub struct RotaryV {
    pub x: Seq<char>,
    pub positions: Option<Seq<char>>,
    pub cos: Seq<char>,
    pub sin: Seq<char>,
    pub shape: Seq<i64>,
    pub interleaved: bool,
    pub half: i64,
    pub rotary_dim: i64,
    pub batch: i64,
    pub sequence: i64,
    pub num_heads: i64,
    pub head_size: i64,
    pub rank4: bool,
}

struct Rotary {
    x: String,
    positions: Option<String>,
    cos: String,
    sin: String,
    shape: Vec<i64>,
    interleaved: bool,
    half: i64,
    rotary_dim: i64,
    batch: i64,
    sequence: i64,
    num_heads: i64,
    head_size: i64,
    rank4: bool,
}

pub open spec fn name_opt(n: Option<String>) -> Option<Seq<char>> {
    match n {
        Some(s) => Some(s@),
        None => None,
    }
}

impl View for Rotary {
    type V = RotaryV;

    closed spec fn view(&self) -> RotaryV {
        RotaryV {
            x: self.x@,
            positions: name_opt(self.positions),
            cos: self.cos@,
            sin: self.sin@,
            shape: self.shape@,
            interleaved: self.interleaved,
            half: self.half,
            rotary_dim: self.rotary_dim,
            batch: self.batch,
            sequence: self.sequence,
            num_heads: self.num_heads,
            head_size: self.head_size,
            rank4: self.rank4,
        }
    }
}

/// The names of input, positions, cosines and sines.
pub struct RotaryNames {
    pub x: Seq<char>,
    pub positions: Option<Seq<char>>,
    pub cos: Seq<char>,
    pub sin: Seq<char>,
}

/// The `com.microsoft` form has the positions as its second input, the standard
/// form as an optional fourth.
pub open spec fn rotary_names(node: NodeV) -> RotaryNames {
    if node.domain == "com.microsoft"@ {
        RotaryNames {
            x: node.input[0],
            positions: Some(node.input[1]),
            cos: node.input[2],
            sin: node.input[3],
        }
    } else {
        RotaryNames {
            x: node.input[0],
            positions: node.input_at(3),
            cos: node.input[1],
            sin: node.input[2],
        }
    }
}

/// Heads and head size of a rank 3 input, or an error.
pub open spec fn split_hidden(hidden: i64, num_heads_attr: i64, rotary_dim: i64) -> Result<
    (i64, i64),
    ErrorV,
> {
    if num_heads_attr > 0 && hidden % num_heads_attr != 0 {
        Err(
            ErrorV::InvalidShape(
                "RotaryEmbedding hidden size "@ + text::decimal(hidden as int)
                    + " is not divisible by num_heads "@ + text::decimal(num_heads_attr as int),
            ),
        )
    } else {
        let head_size = if num_heads_attr > 0 {
            (hidden as int / num_heads_attr as int) as i64
        } else {
            rotary_dim
        };
        if head_size <= 0 || hidden % head_size != 0 {
            Err(
                ErrorV::InvalidShape(
                    "RotaryEmbedding cannot derive heads from hidden size "@ + text::decimal(
                        hidden as int,
                    ) + " and head size "@ + text::decimal(head_size as int),
                ),
            )
        } else {
            Ok(((hidden as int / head_size as int) as i64, head_size))
        }
    }
}

/// How many values of a head are rotated: the attribute, or twice the width of
/// the caches.
pub open spec fn rotary_width(attr: i64, half: i64) -> Result<i64, ErrorV> {
    if attr <= 0 && half * 2 > i64::MAX {
        Err(ErrorV::InvalidShape("RotaryEmbedding dimension overflow"@))
    } else {
        let dim = if attr > 0 {
            attr
        } else {
            (half * 2) as i64
        };
        if dim % 2 != 0 || dim as int / 2 != half {
            Err(
                ErrorV::InvalidShape(
                    "RotaryEmbedding dimension "@ + text::decimal(dim as int)
                        + " does not match cache width "@ + text::decimal(half as int),
                ),
            )
        } else {
            Ok(dim)
        }
    }
}

/// What follows once the width of the caches is known.
pub open spec fn rotary_layout(
    node: NodeV,
    names: RotaryNames,
    shape: Seq<i64>,
    half: i64,
) -> Result<RotaryV, ErrorV> {
    match rotary_width(node.int_attr("rotary_embedding_dim"@, 0), half) {
        Err(e) => Err(e),
        Ok(rotary_dim) => {
            let heads = if shape.len() == 4 {
                Ok((shape[1], shape[3]))
            } else {
                split_hidden(shape[2], node.int_attr("num_heads"@, 0), rotary_dim)
            };
            match heads {
                Err(e) => Err(e),
                Ok((num_heads, head_size)) => if rotary_dim > head_size {
                    Err(
                        ErrorV::InvalidShape(
                            "RotaryEmbedding dimension "@ + text::decimal(rotary_dim as int)
                                + " exceeds head size "@ + text::decimal(head_size as int),
                        ),
                    )
                } else {
                    Ok(
                        RotaryV {
                            x: names.x,
                            positions: names.positions,
                            cos: names.cos,
                            sin: names.sin,
                            shape,
                            interleaved: node.int_attr("interleaved"@, 0) != 0,
                            half,
                            rotary_dim,
                            batch: shape[0],
                            sequence: if shape.len() == 4 {
                                shape[2]
                            } else {
                                shape[1]
                            },
                            num_heads,
                            head_size,
                            rank4: shape.len() == 4,
                        },
                    )
                },
            }
        },
    }
}

pub open spec fn all_positive(s: Seq<i64>) -> bool {
    forall|i: int| 0 <= i < s.len() ==> #[trigger] s[i] > 0
}

/// The parameters of a node, or the first thing that is wrong with it.
pub open spec fn rotary_params(node: NodeV, name: Seq<char>, ctx: ContextV) -> Result<
    RotaryV,
    ErrorV,
> {
    let scale = node.float_attr("scale"@, floats::F32_ONE);
    if node.input.len() < 3 || node.input.len() > 4 {
        Err(
            ErrorV::InvalidShape(
                "RotaryEmbedding expects 3 or 4 inputs, got "@ + text::decimal(
                    node.input.len() as int,
                ),
            ),
        )
    } else if node.domain == "com.microsoft"@ && node.input.len() != 4 {
        Err(
            ErrorV::InvalidShape(
                "com.microsoft.RotaryEmbedding expects (input, position_ids, cos_cache, sin_cache)"@,
            ),
        )
    } else {
        let names = rotary_names(node);
        match ctx.shape(names.x) {
            None => Err(
                ErrorV::InvalidShape("RotaryEmbedding requires a known input shape"@),
            ),
            Some(shape) => if shape.len() != 3 && shape.len() != 4 {
                Err(
                    ErrorV::InvalidShape(
                        "RotaryEmbedding input rank must be 3 or 4, got "@ + text::decimal(
                            shape.len() as int,
                        ),
                    ),
                )
            } else if !all_positive(shape) {
                Err(
                    ErrorV::InvalidShape(
                        "RotaryEmbedding requires concrete positive dimensions, got "@
                            + text::list_text(text::ints(shape)),
                    ),
                )
            } else if !floats::is_about_one(scale) {
                Err(
                    error::unsupported(
                        "RotaryEmbedding(scale="@ + node.float_attr_text("scale"@) + ")"@,
                        name,
                    ),
                )
            } else {
                match ctx.shape(names.cos) {
                    None => Err(
                        ErrorV::InvalidShape("RotaryEmbedding requires a known cos_cache shape"@),
                    ),
                    Some(cache) => if cache.len() == 0 || cache.last() <= 0 {
                        Err(ErrorV::InvalidShape("RotaryEmbedding cos_cache has invalid shape"@))
                    } else {
                        rotary_layout(node, names, shape, cache.last())
                    },
                }
            },
        }
    }
}

fn find_split(hidden: i64, num_heads_attr: i64, rotary_dim: i64) -> (r: Result<
    (i64, i64),
    OnnxError,
>)
    requires
        hidden > 0,
    ensures
        error::failed(r, |t: (i64, i64)| t) == split_hidden(hidden, num_heads_attr, rotary_dim),
{
    if num_heads_attr > 0 && hidden % num_heads_attr != 0 {
        let mut m = String::from_str("RotaryEmbedding hidden size ");
        let d = text::decimal_i64(hidden);
        m.append(d.as_str());
        m.append(" is not divisible by num_heads ");
        let d = text::decimal_i64(num_heads_attr);
        m.append(d.as_str());
        return Err(OnnxError::InvalidShape(m));
    }
    let head_size: i64 = if num_heads_attr > 0 {
        hidden / num_heads_attr
    } else {
        rotary_dim
    };
    if head_size <= 0 || hidden % head_size != 0 {
        let mut m = String::from_str("RotaryEmbedding cannot derive heads from hidden size ");
        let d = text::decimal_i64(hidden);
        m.append(d.as_str());
        m.append(" and head size ");
        let d = text::decimal_i64(head_size);
        m.append(d.as_str());
        return Err(OnnxError::InvalidShape(m));
    }
    Ok((hidden / head_size, head_size))
}

fn find_width(attr: i64, half: i64) -> (r: Result<i64, OnnxError>)
    requires
        half > 0,
    ensures
        error::failed(r, |t: i64| t) == rotary_width(attr, half),
{
    let dim: i64 = if attr > 0 {
        attr
    } else {
        match half.checked_mul(2) {
            Some(d) => d,
            None => return Err(
                OnnxError::InvalidShape(String::from_str("RotaryEmbedding dimension overflow")),
            ),
        }
    };
    if dim % 2 != 0 || dim / 2 != half {
        let mut m = String::from_str("RotaryEmbedding dimension ");
        let d = text::decimal_i64(dim);
        m.append(d.as_str());
        m.append(" does not match cache width ");
        let d = text::decimal_i64(half);
        m.append(d.as_str());
        return Err(OnnxError::InvalidShape(m));
    }
    Ok(dim)
}

fn is_positive(s: &Vec<i64>) -> (r: bool)
    ensures
        r == all_positive(s@),
{
    let mut i: usize = 0;
    while i < s.len()
        invariant
            i <= s@.len(),
            forall|k: int| 0 <= k < i ==> #[trigger] s@[k] > 0,
        decreases s@.len() - i,
    {
        if s[i] <= 0 {
            return false;
        }
        i = i + 1;
    }
    true
}

fn find_rotary(node: &NodeProto, name: &String, ctx: &ConversionContext) -> (r: Result<
    Rotary,
    OnnxError,
>)
    ensures
        error::failed(r, |p: Rotary| p@) == rotary_params(node@, name@, ctx@),
{
    let count: usize = node.input.len();
    if count < 3 || count > 4 {
        let mut m = String::from_str("RotaryEmbedding expects 3 or 4 inputs, got ");
        let d = text::decimal_usize(count);
        m.append(d.as_str());
        return Err(OnnxError::InvalidShape(m));
    }
    assert(forall|i: int|
        0 <= i < node.input@.len() ==> node@.input[i] == (#[trigger] node.input@[i])@);
    let ms: bool = text::str_eq(node.domain.as_str(), "com.microsoft");
    if ms && count != 4 {
        return Err(
            OnnxError::InvalidShape(
                String::from_str(
                    "com.microsoft.RotaryEmbedding expects (input, position_ids, cos_cache, sin_cache)",
                ),
            ),
        );
    }
    let (positions, cos, sin): (Option<String>, String, String) = if ms {
        (Some(node.input[1].clone()), node.input[2].clone(), node.input[3].clone())
    } else {
        (
            match node.input_name(3) {
                Some(n) => Some(n.clone()),
                None => None,
            },
            node.input[1].clone(),
            node.input[2].clone(),
        )
    };
    let x: String = node.input[0].clone();
    let shape = match ctx.resolve_shape(&x) {
        Some(s) => s,
        None => return Err(
            OnnxError::InvalidShape(
                String::from_str("RotaryEmbedding requires a known input shape"),
            ),
        ),
    };
    if shape.len() != 3 && shape.len() != 4 {
        let mut m = String::from_str("RotaryEmbedding input rank must be 3 or 4, got ");
        let d = text::decimal_usize(shape.len());
        m.append(d.as_str());
        return Err(OnnxError::InvalidShape(m));
    }
    if !is_positive(shape) {
        let mut m = String::from_str("RotaryEmbedding requires concrete positive dimensions, got ");
        let d = text::list_i64(shape);
        m.append(d.as_str());
        return Err(OnnxError::InvalidShape(m));
    }
    let scale: u32 = node.float_attr("scale", floats::F32_ONE);
    if !floats::f32_is_about_one(scale) {
        let mut m = String::from_str("RotaryEmbedding(scale=");
        let d = node.float_attr_text("scale");
        m.append(d.as_str());
        m.append(")");
        return Err(OnnxError::unsupported_op(m, name.clone()));
    }
    let cache = match ctx.resolve_shape(&cos) {
        Some(s) => s,
        None => return Err(
            OnnxError::InvalidShape(
                String::from_str("RotaryEmbedding requires a known cos_cache shape"),
            ),
        ),
    };
    if cache.len() == 0 || cache[cache.len() - 1] <= 0 {
        return Err(
            OnnxError::InvalidShape(
                String::from_str("RotaryEmbedding cos_cache has invalid shape"),
            ),
        );
    }
    let half: i64 = cache[cache.len() - 1];
    let rotary_dim: i64 = match find_width(node.int_attr("rotary_embedding_dim", 0), half) {
        Ok(d) => d,
        Err(e) => return Err(e),
    };
    let rank4: bool = shape.len() == 4;
    let (num_heads, head_size): (i64, i64) = if rank4 {
        (shape[1], shape[3])
    } else {
        match find_split(shape[2], node.int_attr("num_heads", 0), rotary_dim) {
            Ok(t) => t,
            Err(e) => return Err(e),
        }
    };
    if rotary_dim > head_size {
        let mut m = String::from_str("RotaryEmbedding dimension ");
        let d = text::decimal_i64(rotary_dim);
        m.append(d.as_str());
        m.append(" exceeds head size ");
        let d = text::decimal_i64(head_size);
        m.append(d.as_str());
        return Err(OnnxError::InvalidShape(m));
    }
    let own_shape: Vec<i64> = shape.clone();
    assert(own_shape@ =~= shape@);
    Ok(
        Rotary {
            x,
            positions,
            cos,
            sin,
            shape: own_shape,
            interleaved: node.int_attr("interleaved", 0) != 0,
            half,
            rotary_dim,
            batch: shape[0],
            sequence: if rank4 {
                shape[2]
            } else {
                shape[1]
            },
            num_heads,
            head_size,
            rank4,
        },
    )
}

// ---------------------------------------------------------------------------
// RotaryEmbedding: lowering
// ---------------------------------------------------------------------------

/// A slice of a `[B, S, N, H]` operand that starts at column `start`.
pub open spec fn column_slice(
    ops: Seq<OpV>,
    input: OperandV,
    start: i64,
    sizes: Seq<i64>,
    stride: u32,
    label: Seq<char>,
) -> PartOutcome {
    if 0 <= start <= u32::MAX {
        let o = ops.push(
            OpV::Slice {
                input,
                starts: seq![0, 0, 0, start as u32],
                sizes,
                strides: seq![1, 1, 1, stride],
                label,
            },
        );
        PartOutcome { ops: o, result: Ok(builder::last_operand(o)) }
    } else {
        PartOutcome {
            ops,
            result: Err(
                ErrorV::InvalidShape(
                    "RotaryEmbedding slice start "@ + text::decimal(start as int)
                        + " is out of range"@,
                ),
            ),
        }
    }
}

fn slice_operand(
    b: &mut OnnxBuilder,
    input: Operand,
    start: i64,
    sizes: Vec<i64>,
    stride: u32,
    label: String,
) -> (r: Result<Operand, OnnxError>)
    ensures
        ops::part_outcome(final(b)@, r) == column_slice(
            old(b)@,
            input@,
            start,
            sizes@,
            stride,
            label@,
        ),
{
    if start < 0 || start > u32::MAX as i64 {
        let mut m = String::from_str("RotaryEmbedding slice start ");
        let d = text::decimal_i64(start);
        m.append(d.as_str());
        m.append(" is out of range");
        return Err(OnnxError::InvalidShape(m));
    }
    Ok(b.slice(input, list4(0, 0, 0, start as u32), sizes, list4(1, 1, 1, stride), label))
}

/// Steps and operands up to the sliced part that is rotated.
pub struct RotaryStartV {
    pub ops: Seq<OpV>,
    pub x: OperandV,
    pub cos: OperandV,
    pub sin: OperandV,
}

/// The input as `[B, S, N, H]`, and the rows of the caches as `[B, S, 1, half]`.
pub open spec fn rotary_start(ops: Seq<OpV>, p: RotaryV, label: Seq<char>) -> RotaryStartV {
    let o1 = ops::resolved(ops, p.x);
    let o2 = if p.rank4 {
        o1.push(
            OpV::Transpose {
                input: builder::last_operand(o1),
                permutation: seq![0, 2, 1, 3],
                label: label + "__to_bsnh"@,
            },
        )
    } else {
        o1
    };
    let o3 = o2.push(
        OpV::Reshape {
            input: builder::last_operand(o2),
            shape: seq![p.batch, p.sequence, p.num_heads, p.head_size],
            label: label + "__heads"@,
        },
    );
    let o4 = ops::resolved(o3, p.cos);
    let o5 = ops::resolved(o4, p.sin);
    let rows = match p.positions {
        None => (o5, builder::last_operand(o4), builder::last_operand(o5)),
        Some(n) => {
            let o6 = ops::resolved(o5, n);
            let o7 = o6.push(
                OpV::Gather {
                    input: builder::last_operand(o4),
                    indices: builder::last_operand(o6),
                    axis: 0,
                    label: label + "__cos_gather"@,
                },
            );
            let o8 = o7.push(
                OpV::Gather {
                    input: builder::last_operand(o5),
                    indices: builder::last_operand(o6),
                    axis: 0,
                    label: label + "__sin_gather"@,
                },
            );
            (o8, builder::last_operand(o7), builder::last_operand(o8))
        },
    };
    let o9 = rows.0.push(
        OpV::Reshape {
            input: rows.1,
            shape: seq![p.batch, p.sequence, 1, p.half],
            label: label + "__cos"@,
        },
    );
    let o10 = o9.push(
        OpV::Reshape {
            input: rows.2,
            shape: seq![p.batch, p.sequence, 1, p.half],
            label: label + "__sin"@,
        },
    );
    RotaryStartV {
        ops: o10,
        x: builder::last_operand(o3),
        cos: builder::last_operand(o9),
        sin: builder::last_operand(o10),
    }
}

struct RotaryStart {
    x: Operand,
    cos: Operand,
    sin: Operand,
}

fn start_rotary(b: &mut OnnxBuilder, p: &Rotary, label: &String) -> (r: RotaryStart)
    ensures
        ({
            let s = rotary_start(old(b)@, p@, label@);
            &&& final(b)@ == s.ops
            &&& r.x@ == s.x
            &&& r.cos@ == s.cos
            &&& r.sin@ == s.sin
        }),
{
    let mut x = b.resolve(&p.x);
    if p.rank4 {
        x = b.transpose(x, list4(0, 2, 1, 3), label_with(label, "__to_bsnh"));
    }
    let x = b.reshape(
        x,
        list4(p.batch, p.sequence, p.num_heads, p.head_size),
        label_with(label, "__heads"),
    );
    let cos = b.resolve(&p.cos);
    let sin = b.resolve(&p.sin);
    let (cos, sin): (Operand, Operand) = match &p.positions {
        None => (cos, sin),
        Some(n) => {
            let positions = b.resolve(n);
            let c = b.gather(cos, positions, 0, label_with(label, "__cos_gather"));
            let s = b.gather(sin, positions, 0, label_with(label, "__sin_gather"));
            (c, s)
        },
    };
    let cos = b.reshape(
        cos,
        list4(p.batch, p.sequence, 1, p.half),
        label_with(label, "__cos"),
    );
    let sin = b.reshape(
        sin,
        list4(p.batch, p.sequence, 1, p.half),
        label_with(label, "__sin"),
    );
    RotaryStart { x, cos, sin }
}

/// The two components of the part that is rotated. Sizes of a strided slice
/// describe the extent of its input.
pub open spec fn rotary_components(
    ops: Seq<OpV>,
    x: OperandV,
    p: RotaryV,
    label: Seq<char>,
) -> attention::PairOutcome {
    let width = if p.interleaved {
        p.rotary_dim
    } else {
        p.half
    };
    let first = column_slice(
        ops,
        x,
        0,
        seq![p.batch, p.sequence, p.num_heads, width],
        if p.interleaved {
            2
        } else {
            1
        },
        label + if p.interleaved {
            "__even"@
        } else {
            "__first_half"@
        },
    );
    let second = column_slice(
        first.ops,
        x,
        if p.interleaved {
            1
        } else {
            p.half
        },
        seq![
            p.batch,
            p.sequence,
            p.num_heads,
            if p.interleaved {
                (p.rotary_dim - 1) as i64
            } else {
                p.half
            },
        ],
        if p.interleaved {
            2
        } else {
            1
        },
        label + if p.interleaved {
            "__odd"@
        } else {
            "__second_half"@
        },
    );
    attention::PairOutcome {
        ops: second.ops,
        result: match second.result {
            Err(e) => Err(e),
            Ok(o) => Ok((first.result->Ok_0, o)),
        },
    }
}

fn split_components(b: &mut OnnxBuilder, x: Operand, p: &Rotary, label: &String) -> (r: Result<
    (Operand, Operand),
    OnnxError,
>)
    requires
        p@.rotary_dim > 0,
    ensures
        attention::pair_outcome(final(b)@, r) == rotary_components(old(b)@, x@, p@, label@),
{
    if p.interleaved {
        let first = match slice_operand(
            b,
            x,
            0,
            list4(p.batch, p.sequence, p.num_heads, p.rotary_dim),
            2,
            label_with(label, "__even"),
        ) {
            Ok(o) => o,
            Err(e) => return Err(e),
        };
        let second = match slice_operand(
            b,
            x,
            1,
            list4(p.batch, p.sequence, p.num_heads, p.rotary_dim - 1),
            2,
            label_with(label, "__odd"),
        ) {
            Ok(o) => o,
            Err(e) => return Err(e),
        };
        Ok((first, second))
    } else {
        let first = match slice_operand(
            b,
            x,
            0,
            list4(p.batch, p.sequence, p.num_heads, p.half),
            1,
            label_with(label, "__first_half"),
        ) {
            Ok(o) => o,
            Err(e) => return Err(e),
        };
        let second = match slice_operand(
            b,
            x,
            p.half,
            list4(p.batch, p.sequence, p.num_heads, p.half),
            1,
            label_with(label, "__second_half"),
        ) {
            Ok(o) => o,
            Err(e) => return Err(e),
        };
        Ok((first, second))
    }
}

/// The two rotated components joined again.
pub open spec fn rotary_join(
    ops: Seq<OpV>,
    re: OperandV,
    im: OperandV,
    p: RotaryV,
    label: Seq<char>,
) -> Seq<OpV> {
    if p.interleaved {
        let o1 = ops.push(
            OpV::Reshape {
                input: re,
                shape: seq![p.batch, p.sequence, p.num_heads, p.half, 1],
                label: label + "__real_component"@,
            },
        );
        let o2 = o1.push(
            OpV::Reshape {
                input: im,
                shape: seq![p.batch, p.sequence, p.num_heads, p.half, 1],
                label: label + "__imag_component"@,
            },
        );
        let o3 = o2.push(
            OpV::Concat {
                inputs: seq![builder::last_operand(o1), builder::last_operand(o2)],
                axis: 4,
                label: seq![],
            },
        );
        o3.push(
            OpV::Reshape {
                input: builder::last_operand(o3),
                shape: seq![p.batch, p.sequence, p.num_heads, p.rotary_dim],
                label: label + "__interleaved"@,
            },
        )
    } else {
        ops.push(OpV::Concat { inputs: seq![re, im], axis: 3, label: seq![] })
    }
}

fn join_components(b: &mut OnnxBuilder, re: Operand, im: Operand, p: &Rotary, label: &String) -> (r:
    Operand)
    ensures
        final(b)@ == rotary_join(old(b)@, re@, im@, p@, label@),
        r@ == builder::last_operand(final(b)@),
{
    if p.interleaved {
        let re = b.reshape(
            re,
            list5(p.batch, p.sequence, p.num_heads, p.half, 1),
            label_with(label, "__real_component"),
        );
        let im = b.reshape(
            im,
            list5(p.batch, p.sequence, p.num_heads, p.half, 1),
            label_with(label, "__imag_component"),
        );
        let joined = b.concat(re, im, 4, String::new());
        b.reshape(
            joined,
            list4(p.batch, p.sequence, p.num_heads, p.rotary_dim),
            label_with(label, "__interleaved"),
        )
    } else {
        b.concat(re, im, 3, String::new())
    }
}

/// The rotated part with the rest of the head behind it, where there is one.
pub open spec fn rotary_tail(
    ops: Seq<OpV>,
    rotated: OperandV,
    x: OperandV,
    p: RotaryV,
    label: Seq<char>,
) -> PartOutcome {
    if p.rotary_dim < p.head_size {
        let tail = column_slice(
            ops,
            x,
            p.rotary_dim,
            seq![p.batch, p.sequence, p.num_heads, (p.head_size - p.rotary_dim) as i64],
            1,
            label + "__tail"@,
        );
        match tail.result {
            Err(e) => tail,
            Ok(t) => {
                let o = tail.ops.push(
                    OpV::Concat { inputs: seq![rotated, t], axis: 3, label: seq![] },
                );
                PartOutcome { ops: o, result: Ok(builder::last_operand(o)) }
            },
        }
    } else {
        PartOutcome { ops, result: Ok(rotated) }
    }
}

/// The rotated input as `[B, S, N, H]`.
pub open spec fn rotary_body(ops: Seq<OpV>, p: RotaryV, label: Seq<char>) -> PartOutcome {
    let s = rotary_start(ops, p, label);
    let whole = column_slice(
        s.ops,
        s.x,
        0,
        seq![p.batch, p.sequence, p.num_heads, p.rotary_dim],
        1,
        label + "__rotate"@,
    );
    let parts = rotary_components(whole.ops, whole.result->Ok_0, p, label);
    match parts.result {
        Err(e) => PartOutcome { ops: parts.ops, result: Err(e) },
        Ok((x1, x2)) => {
            let turned = attention::rotation_steps(parts.ops, x1, x2, s.cos, s.sin);
            let joined = rotary_join(
                turned,
                attention::rotation_real(turned),
                builder::last_operand(turned),
                p,
                label,
            );
            rotary_tail(joined, builder::last_operand(joined), s.x, p, label)
        },
    }
}

/// The result in the layout of the input.
pub open spec fn rotary_restore(
    ops: Seq<OpV>,
    out: OperandV,
    p: RotaryV,
    label: Seq<char>,
) -> Seq<OpV> {
    if p.rank4 {
        ops.push(
            OpV::Transpose {
                input: out,
                permutation: seq![0, 2, 1, 3],
                label: label + "__restore_bnsd"@,
            },
        )
    } else {
        ops.push(OpV::Reshape { input: out, shape: p.shape, label })
    }
}

/// The output type of a node whose first output has a name.
pub open spec fn first_output_type(node: NodeV, dtype: DataType) -> Map<Seq<char>, DataType> {
    match node.output_at(0) {
        Some(n) => Map::empty().insert(n, dtype),
        None => Map::empty(),
    }
}

/// The lowering of a `RotaryEmbedding` node.
pub open spec fn rotary_outcome(
    node: NodeV,
    name: Seq<char>,
    ctx: ContextV,
    ops: Seq<OpV>,
) -> NodeOutcome {
    match rotary_params(node, name, ctx) {
        Err(e) => ops::node_failed(ops, e),
        Ok(p) => {
            let label = node.label(name);
            let body = rotary_body(ops, p, label);
            match body.result {
                Err(e) => ops::node_failed(body.ops, e),
                Ok(out) => {
                    let done = rotary_restore(body.ops, out, p, label);
                    NodeOutcome {
                        ops: ops::recorded(
                            done,
                            node.output_at(0),
                            label,
                            builder::last_operand(done),
                        ),
                        result: Ok(first_output_type(node, ctx.dtype(p.x))),
                    }
                },
            }
        },
    }
}

fn lower_rotary(b: &mut OnnxBuilder, p: &Rotary, label: &String) -> (r: Result<Operand, OnnxError>)
    requires
        p@.rotary_dim > 0,
    ensures
        ops::part_outcome(final(b)@, r) == rotary_body(old(b)@, p@, label@),
{
    let s = start_rotary(b, p, label);
    let x_rotate = match slice_operand(
        b,
        s.x,
        0,
        list4(p.batch, p.sequence, p.num_heads, p.rotary_dim),
        1,
        label_with(label, "__rotate"),
    ) {
        Ok(o) => o,
        Err(e) => return Err(e),
    };
    let (x1, x2) = match split_components(b, x_rotate, p, label) {
        Ok(t) => t,
        Err(e) => return Err(e),
    };
    let (re, im) = attention::rotate(b, x1, x2, s.cos, s.sin);
    let rotated = join_components(b, re, im, p, label);
    if p.rotary_dim < p.head_size {
        let tail = match slice_operand(
            b,
            s.x,
            p.rotary_dim,
            list4(p.batch, p.sequence, p.num_heads, p.head_size - p.rotary_dim),
            1,
            label_with(label, "__tail"),
        ) {
            Ok(o) => o,
            Err(e) => return Err(e),
        };
        Ok(b.concat(rotated, tail, 3, String::new()))
    } else {
        Ok(rotated)
    }
}

impl RnnHandler {
    /// Lower a `RotaryEmbedding` node.
    pub fn convert_rotary_embedding(
        &self,
        node: &NodeProto,
        node_name: &String,
        context: &ConversionContext,
        b: &mut OnnxBuilder,
    ) -> (r: Result<ConversionResult, OnnxError>)
        ensures
            ops::node_outcome(final(b)@, r) == rotary_outcome(
                node@,
                node_name@,
                context@,
                old(b)@,
            ),
    {
        let p = match find_rotary(node, node_name, context) {
            Ok(p) => p,
            Err(e) => return Err(e),
        };
        let label = node.output_label(node_name);
        let body = match lower_rotary(b, &p, &label) {
            Ok(o) => o,
            Err(e) => return Err(e),
        };
        let out: Operand = if p.rank4 {
            b.transpose(body, list4(0, 2, 1, 3), label_with(&label, "__restore_bnsd"))
        } else {
            let shape: Vec<i64> = p.shape.clone();
            assert(shape@ =~= p.shape@);
            b.reshape(body, shape, label.clone())
        };
        ops::record_if(b, node.output_name(0), label.clone(), out);
        let mut result = ConversionResult::none();
        if let Some(n) = node.output_name(0) {
            result.output_types.insert(n.clone(), context.value_type(&p.x));
        }
        Ok(result)
    }
}

// ---------------------------------------------------------------------------
// GRU and LSTM: attributes
// ---------------------------------------------------------------------------

/// The direction that a `direction` attribute in lower case asks for.
pub open spec fn direction_named(s: Seq<char>) -> Option<Direction> {
    if s.len() == 0 || s == "forward"@ {
        Some(Direction::Forward)
    } else if s == "reverse"@ {
        Some(Direction::Backward)
    } else if s == "bidirectional"@ {
        Some(Direction::Both)
    } else {
        None
    }
}

/// The direction that a `direction` attribute in lower case asks for.
pub fn find_direction(s: &String) -> (r: Option<Direction>)
    ensures
        r == direction_named(s@),
{
    if s.as_str().is_empty() || text::str_eq(s.as_str(), "forward") {
        Some(Direction::Forward)
    } else if text::str_eq(s.as_str(), "reverse") {
        Some(Direction::Backward)
    } else if text::str_eq(s.as_str(), "bidirectional") {
        Some(Direction::Both)
    } else {
        None
    }
}

/// A `layout` attribute that changes nothing.
pub open spec fn layout_known(s: Seq<char>) -> bool {
    s.len() == 0 || s == "zrh"@ || s == "iofg"@
}

/// A `layout` attribute that changes nothing.
pub fn is_known_layout(s: &String) -> (r: bool)
    ensures
        r == layout_known(s@),
{
    s.as_str().is_empty() || text::str_eq(s.as_str(), "zrh") || text::str_eq(s.as_str(), "iofg")
}

/// What one attribute makes of the direction so far.
pub open spec fn attr_direction(
    a: AttributeV,
    so_far: Direction,
    name: Seq<char>,
    op: Seq<char>,
) -> Result<Direction, ErrorV> {
    if a.name == "direction"@ {
        let d = text::unicode_lower(text::utf8_lossy(a.s));
        match direction_named(d) {
            Some(x) => Ok(x),
            None => Err(error::unsupported(op + "(direction="@ + d + ")"@, name)),
        }
    } else if a.name == "layout"@ {
        let l = text::utf8_lossy(a.s);
        if layout_known(l) {
            Ok(so_far)
        } else {
            Err(error::unsupported(op + "(layout="@ + l + ")"@, name))
        }
    } else if a.name == "activations"@ && a.strings.len() > 0 {
        Err(error::unsupported(op + "(custom activations)"@, name))
    } else {
        Ok(so_far)
    }
}

/// The direction that the attributes ask for, or the first that is not
/// supported.
pub open spec fn rnn_direction(
    attrs: Seq<AttributeV>,
    so_far: Direction,
    name: Seq<char>,
    op: Seq<char>,
) -> Result<Direction, ErrorV>
    decreases attrs.len(),
{
    if attrs.len() == 0 {
        Ok(so_far)
    } else {
        match attr_direction(attrs[0], so_far, name, op) {
            Err(e) => Err(e),
            Ok(d) => rnn_direction(attrs.drop_first(), d, name, op),
        }
    }
}

fn apply_attr(a: &AttributeProto, so_far: Direction, name: &String, op: &str) -> (r: Result<
    Direction,
    OnnxError,
>)
    ensures
        error::failed(r, |d: Direction| d) == attr_direction(a@, so_far, name@, op@),
{
    if text::str_eq(a.name.as_str(), "direction") {
        let lossy = text::from_utf8_lossy(&a.s);
        let d = text::to_unicode_lower(lossy.as_str());
        match find_direction(&d) {
            Some(x) => Ok(x),
            None => {
                let mut m = String::from_str(op);
                m.append("(direction=");
                m.append(d.as_str());
                m.append(")");
                Err(OnnxError::unsupported_op(m, name.clone()))
            },
        }
    } else if text::str_eq(a.name.as_str(), "layout") {
        let l = text::from_utf8_lossy(&a.s);
        if is_known_layout(&l) {
            Ok(so_far)
        } else {
            let mut m = String::from_str(op);
            m.append("(layout=");
            m.append(l.as_str());
            m.append(")");
            Err(OnnxError::unsupported_op(m, name.clone()))
        }
    } else if text::str_eq(a.name.as_str(), "activations") && a.strings.len() > 0 {
        let mut m = String::from_str(op);
        m.append("(custom activations)");
        Err(OnnxError::unsupported_op(m, name.clone()))
    } else {
        Ok(so_far)
    }
}

/// Validate shared RNN attributes and find the direction.
pub fn validate_rnn_attrs(node: &NodeProto, node_name: &String, op: &str) -> (r: Result<
    Direction,
    OnnxError,
>)
    ensures
        error::failed(r, |d: Direction| d) == rnn_direction(
            node@.attribute,
            Direction::Forward,
            node_name@,
            op@,
        ),
{
    let ghost all = node@.attribute;
    let mut direction: Direction = Direction::Forward;
    let mut i: usize = 0;
    assert(all.skip(0) =~= all);
    while i < node.attribute.len()
        invariant
            i <= node.attribute@.len(),
            all == node@.attribute,
            rnn_direction(all, Direction::Forward, node_name@, op@) == rnn_direction(
                all.skip(i as int),
                direction,
                node_name@,
                op@,
            ),
        decreases node.attribute@.len() - i,
    {
        assert(all.skip(i as int).drop_first() =~= all.skip(i + 1));
        assert(all[i as int] == node.attribute@[i as int]@);
        match apply_attr(&node.attribute[i], direction, node_name, op) {
            Ok(d) => {
                direction = d;
            },
            Err(e) => return Err(e),
        }
        i = i + 1;
    }
    Ok(direction)
}

/// The first input from `start` on that is given.
pub open spec fn first_given(inputs: Seq<Seq<char>>, start: int) -> Option<int>
    decreases inputs.len() - start,
{
    if start < 0 || start >= inputs.len() {
        None
    } else if inputs[start].len() > 0 {
        Some(start)
    } else {
        first_given(inputs, start + 1)
    }
}

pub open spec fn optional_inputs_error(
    inputs: Seq<Seq<char>>,
    start: int,
    name: Seq<char>,
    op: Seq<char>,
) -> Option<ErrorV> {
    match first_given(inputs, start) {
        Some(i) => Some(error::unsupported(op + " optional input "@ + text::decimal(i), name)),
        None => None,
    }
}

/// Reject nodes that give an input from `start` on.
pub fn reject_optional_rnn_inputs(
    node: &NodeProto,
    start: usize,
    node_name: &String,
    op: &str,
) -> (r: Result<(), OnnxError>)
    ensures
        r matches Err(e) ==> optional_inputs_error(node@.input, start as int, node_name@, op@)
            == Some(e@),
        r is Ok ==> optional_inputs_error(node@.input, start as int, node_name@, op@) is None,
{
    let mut i: usize = start;
    while i < node.input.len()
        invariant
            start <= i,
            first_given(node@.input, start as int) == first_given(node@.input, i as int),
        decreases node.input@.len() - i,
    {
        assert(node@.input[i as int] == node.input@[i as int]@);
        if !node.input[i].as_str().is_empty() {
            let mut m = String::from_str(op);
            m.append(" optional input ");
            let d = text::decimal_usize(i);
            m.append(d.as_str());
            return Err(OnnxError::unsupported_op(m, node_name.clone()));
        }
        i = i + 1;
    }
    Ok(())
}

/// The first positive `hidden_size`.
pub open spec fn hidden_attr(attrs: Seq<AttributeV>) -> Option<i64>
    decreases attrs.len(),
{
    if attrs.len() == 0 {
        None
    } else if attrs[0].name == "hidden_size"@ && attrs[0].i > 0 {
        Some(attrs[0].i)
    } else {
        hidden_attr(attrs.drop_first())
    }
}

pub open spec fn hidden_size(node: NodeV, op: Seq<char>) -> Result<u32, ErrorV> {
    match hidden_attr(node.attribute) {
        None => Err(ErrorV::MissingAttribute { attr: "hidden_size"@, op }),
        Some(n) => if n > u32::MAX {
            Err(
                ErrorV::InvalidShape(
                    op + " hidden_size "@ + text::decimal(n as int) + " is out of range"@,
                ),
            )
        } else {
            Ok(n as u32)
        },
    }
}

/// The first positive `hidden_size`, which must be there.
pub fn require_hidden_size(node: &NodeProto, op: &str) -> (r: Result<u32, OnnxError>)
    ensures
        error::failed(r, |n: u32| n) == hidden_size(node@, op@),
{
    let ghost all = node@.attribute;
    let mut i: usize = 0;
    assert(all.skip(0) =~= all);
    while i < node.attribute.len()
        invariant
            i <= node.attribute@.len(),
            all == node@.attribute,
            hidden_attr(all) == hidden_attr(all.skip(i as int)),
        decreases node.attribute@.len() - i,
    {
        assert(all.skip(i as int).drop_first() =~= all.skip(i + 1));
        assert(all[i as int] == node.attribute@[i as int]@);
        let n: i64 = node.attribute[i].i;
        if text::str_eq(node.attribute[i].name.as_str(), "hidden_size") && n > 0 {
            if n > u32::MAX as i64 {
                let mut m = String::from_str(op);
                m.append(" hidden_size ");
                let d = text::decimal_i64(n);
                m.append(d.as_str());
                m.append(" is out of range");
                return Err(OnnxError::InvalidShape(m));
            }
            return Ok(n as u32);
        }
        i = i + 1;
    }
    Err(
        OnnxError::MissingAttribute {
            attr: String::from_str("hidden_size"),
            op: String::from_str(op),
        },
    )
}

/// The number of time steps: the first axis of a rank 3 input, where it is a
/// positive 32-bit number, and one otherwise.
pub open spec fn step_count(ctx: ContextV, x: Seq<char>) -> u32 {
    match ctx.shape(x) {
        Some(s) => if s.len() == 3 && 0 < s[0] <= u32::MAX {
            s[0] as u32
        } else {
            1
        },
        None => 1,
    }
}

/// The number of time steps of an input.
pub fn resolve_steps(context: &ConversionContext, x_name: &String) -> (r: u32)
    ensures
        r == step_count(context@, x_name@),
{
    match context.resolve_shape(x_name) {
        Some(s) => if s.len() == 3 && s[0] > 0 && s[0] <= u32::MAX as i64 {
            s[0] as u32
        } else {
            1
        },
        None => 1,
    }
}

// ---------------------------------------------------------------------------
// GRU and LSTM: lowering
// ---------------------------------------------------------------------------

/// The steps with a cast appended, where one is needed.
pub open spec fn cast_if(
    ops: Seq<OpV>,
    input: OperandV,
    needed: bool,
    dtype: DataType,
    label: Seq<char>,
) -> ops::Part {
    if needed {
        let o = ops.push(OpV::Cast { input, dtype, label });
        ops::Part { ops: o, operand: builder::last_operand(o) }
    } else {
        ops::Part { ops, operand: input }
    }
}

fn maybe_cast_for_rnn(
    b: &mut OnnxBuilder,
    operand: Operand,
    should_cast: bool,
    target_type: DataType,
    label: String,
) -> (r: Operand)
    ensures
        final(b)@ == cast_if(old(b)@, operand@, should_cast, target_type, label@).ops,
        r@ == cast_if(old(b)@, operand@, should_cast, target_type, label@).operand,
{
    if !should_cast {
        return operand;
    }
    b.cast(operand, target_type, label)
}

/// A looked-up operand, as float32 where the layer computes in it.
pub open spec fn float_input(
    ops: Seq<OpV>,
    name: Seq<char>,
    as_f32: bool,
    label: Seq<char>,
) -> ops::Part {
    let o = ops::resolved(ops, name);
    cast_if(o, builder::last_operand(o), as_f32, DataType::Float32, label)
}

fn resolve_float(b: &mut OnnxBuilder, name: &String, as_f32: bool, label: String) -> (r: Operand)
    ensures
        final(b)@ == float_input(old(b)@, name@, as_f32, label@).ops,
        r@ == float_input(old(b)@, name@, as_f32, label@).operand,
{
    let o = b.resolve(name);
    maybe_cast_for_rnn(b, o, as_f32, DataType::Float32, label)
}

/// The steps, and the two halves of the combined bias where there is one.
pub struct BiasV {
    pub ops: Seq<OpV>,
    pub bias: Option<OperandV>,
    pub recurrent: Option<OperandV>,
}

/// ONNX's combined bias `[D, 2*len]` as WebNN's bias and recurrent bias
/// `[D, len]`.
pub open spec fn split_bias(
    ops: Seq<OpV>,
    name: Seq<char>,
    bias: Option<Seq<char>>,
    len: u32,
    as_f32: bool,
    directions: i64,
) -> BiasV {
    match bias {
        None => BiasV { ops, bias: None, recurrent: None },
        Some(n) => {
            let combined = float_input(ops, n, as_f32, name + "_bias_f32"@);
            let o1 = combined.ops.push(
                OpV::Slice {
                    input: combined.operand,
                    starts: seq![0, 0],
                    sizes: seq![directions, len as i64],
                    strides: seq![],
                    label: name + "_bias"@,
                },
            );
            let o2 = o1.push(
                OpV::Slice {
                    input: combined.operand,
                    starts: seq![0, len],
                    sizes: seq![directions, len as i64],
                    strides: seq![],
                    label: name + "_recurrent_bias"@,
                },
            );
            BiasV {
                ops: o2,
                bias: Some(builder::last_operand(o1)),
                recurrent: Some(builder::last_operand(o2)),
            }
        },
    }
}

fn split_combined_bias(
    b: &mut OnnxBuilder,
    node_name: &String,
    bias_name: Option<&String>,
    len: u32,
    as_f32: bool,
    directions: i64,
) -> (r: (Option<Operand>, Option<Operand>))
    ensures
        ({
            let s = split_bias(
                old(b)@,
                node_name@,
                match bias_name {
                    Some(n) => Some(n@),
                    None => None,
                },
                len,
                as_f32,
                directions,
            );
            &&& final(b)@ == s.ops
            &&& builder::operand_opt(r.0) == s.bias
            &&& builder::operand_opt(r.1) == s.recurrent
        }),
{
    let n = match bias_name {
        None => return (None, None),
        Some(n) => n,
    };
    let combined = resolve_float(b, n, as_f32, label_with(node_name, "_bias_f32"));
    let bias = b.slice(
        combined,
        list2(0, 0),
        list2(directions, len as i64),
        Vec::new(),
        label_with(node_name, "_bias"),
    );
    let recurrent = b.slice(
        combined,
        list2(0, len),
        list2(directions, len as i64),
        Vec::new(),
        label_with(node_name, "_recurrent_bias"),
    );
    (Some(bias), Some(recurrent))
}

/// WebNN's sequence `[steps, D, batch, hidden]` in ONNX's layout: the axis of
/// directions is dropped for one direction, unless the output is known to have
/// rank 4.
pub open spec fn sequence_layout(
    ops: Seq<OpV>,
    seq: OperandV,
    shape: Option<Seq<i64>>,
    direction: Direction,
    name: Seq<char>,
) -> ops::Part {
    if direction == Direction::Both || (shape is Some && shape->0.len() == 4) {
        ops::Part { ops, operand: seq }
    } else {
        let o = ops.push(
            OpV::Squeeze { input: seq, axes: seq![1], label: name + "_squeeze_dir"@ },
        );
        ops::Part { ops: o, operand: builder::last_operand(o) }
    }
}

fn map_onnx_sequence_output(
    b: &mut OnnxBuilder,
    node_name: &String,
    seq: Operand,
    context: &ConversionContext,
    onnx_output: &String,
    direction: Direction,
) -> (r: Operand)
    ensures
        ({
            let s = sequence_layout(
                old(b)@,
                seq@,
                context@.shape(onnx_output@),
                direction,
                node_name@,
            );
            &&& final(b)@ == s.ops
            &&& r@ == s.operand
        }),
{
    if let Direction::Both = direction {
        return seq;
    }
    if let Some(shape) = context.resolve_shape(onnx_output) {
        if shape.len() == 4 {
            return seq;
        }
    }
    b.push(
        BuilderOp::Squeeze {
            input: seq,
            axes: list1(1),
            label: label_with(node_name, "_squeeze_dir"),
        },
    )
}

/// The operands shared by GRU and LSTM.
pub struct RnnInputsV {
    pub ops: Seq<OpV>,
    pub x: OperandV,
    pub w: OperandV,
    pub r: OperandV,
    pub bias: Option<OperandV>,
    pub recurrent: Option<OperandV>,
}

pub open spec fn direction_count(d: Direction) -> i64 {
    if d == Direction::Both {
        2
    } else {
        1
    }
}

pub open spec fn rnn_inputs(
    ops: Seq<OpV>,
    node: NodeV,
    name: Seq<char>,
    as_f32: bool,
    bias_len: u32,
    direction: Direction,
) -> RnnInputsV {
    let x = float_input(ops, node.input[0], as_f32, name + "_x_f32"@);
    let w = float_input(x.ops, node.input[1], as_f32, name + "_w_f32"@);
    let r = float_input(w.ops, node.input[2], as_f32, name + "_r_f32"@);
    let s = split_bias(
        r.ops,
        name,
        node.input_at(3),
        bias_len,
        as_f32,
        direction_count(direction),
    );
    RnnInputsV {
        ops: s.ops,
        x: x.operand,
        w: w.operand,
        r: r.operand,
        bias: s.bias,
        recurrent: s.recurrent,
    }
}

struct RnnInputs {
    x: Operand,
    w: Operand,
    r: Operand,
    bias: Option<Operand>,
    recurrent: Option<Operand>,
}

fn resolve_rnn_inputs(
    b: &mut OnnxBuilder,
    node: &NodeProto,
    name: &String,
    as_f32: bool,
    bias_len: u32,
    direction: Direction,
) -> (t: RnnInputs)
    requires
        node.input@.len() >= 3,
    ensures
        ({
            let s = rnn_inputs(old(b)@, node@, name@, as_f32, bias_len, direction);
            &&& final(b)@ == s.ops
            &&& t.x@ == s.x
            &&& t.w@ == s.w
            &&& t.r@ == s.r
            &&& builder::operand_opt(t.bias) == s.bias
            &&& builder::operand_opt(t.recurrent) == s.recurrent
        }),
{
    assert(forall|i: int|
        0 <= i < node.input@.len() ==> node@.input[i] == (#[trigger] node.input@[i])@);
    let x = resolve_float(b, &node.input[0], as_f32, label_with(name, "_x_f32"));
    let w = resolve_float(b, &node.input[1], as_f32, label_with(name, "_w_f32"));
    let r = resolve_float(b, &node.input[2], as_f32, label_with(name, "_r_f32"));
    let directions: i64 = match direction {
        Direction::Both => 2,
        _ => 1,
    };
    let (bias, recurrent) = split_combined_bias(
        b,
        name,
        node.input_name(3),
        bias_len,
        as_f32,
        directions,
    );
    RnnInputs { x, w, r, bias, recurrent }
}

/// Steps and output types so far.
pub struct OutputsV {
    pub ops: Seq<OpV>,
    pub types: Map<Seq<char>, DataType>,
}

/// The sequence output, where it has a name.
pub open spec fn sequence_output(
    s: OutputsV,
    node: NodeV,
    name: Seq<char>,
    ctx: ContextV,
    seq: OperandV,
    direction: Direction,
    dtype: DataType,
    label: Seq<char>,
) -> OutputsV {
    match node.output_at(0) {
        None => s,
        Some(n) => {
            let mapped = sequence_layout(s.ops, seq, ctx.shape(n), direction, name);
            let cast = cast_if(
                mapped.ops,
                mapped.operand,
                dtype == DataType::Float16,
                dtype,
                label + "_y_cast"@,
            );
            OutputsV {
                ops: cast.ops.push(
                    OpV::RecordOutput {
                        output: n,
                        label: label + "_y"@,
                        operand: cast.operand,
                    },
                ),
                types: s.types.insert(n, dtype),
            }
        },
    }
}

/// A state output, where it has a name.
pub open spec fn state_output(
    s: OutputsV,
    output: Option<Seq<char>>,
    state: OperandV,
    dtype: DataType,
    label: Seq<char>,
) -> OutputsV {
    match output {
        None => s,
        Some(n) => {
            let cast = cast_if(
                s.ops,
                state,
                dtype == DataType::Float16,
                dtype,
                label + "_cast"@,
            );
            OutputsV {
                ops: cast.ops.push(
                    OpV::RecordOutput { output: n, label, operand: cast.operand },
                ),
                types: s.types.insert(n, dtype),
            }
        },
    }
}

fn record_sequence(
    b: &mut OnnxBuilder,
    result: &mut ConversionResult,
    node: &NodeProto,
    name: &String,
    ctx: &ConversionContext,
    seq: Operand,
    direction: Direction,
    dtype: DataType,
    label: &String,
)
    ensures
        (OutputsV { ops: final(b)@, types: final(result)@ }) == sequence_output(
            OutputsV { ops: old(b)@, types: old(result)@ },
            node@,
            name@,
            ctx@,
            seq@,
            direction,
            dtype,
            label@,
        ),
{
    if let Some(n) = node.output_name(0) {
        let mapped = map_onnx_sequence_output(b, name, seq, ctx, n, direction);
        let cast = maybe_cast_for_rnn(
            b,
            mapped,
            dtype == DataType::Float16,
            dtype,
            label_with(label, "_y_cast"),
        );
        b.record_output(n, label_with(label, "_y"), cast);
        result.output_types.insert(n.clone(), dtype);
    }
}

fn record_state(
    b: &mut OnnxBuilder,
    result: &mut ConversionResult,
    output: Option<&String>,
    state: Operand,
    dtype: DataType,
    label: String,
)
    ensures
        (OutputsV { ops: final(b)@, types: final(result)@ }) == state_output(
            OutputsV { ops: old(b)@, types: old(result)@ },
            match output {
                Some(n) => Some(n@),
                None => None,
            },
            state@,
            dtype,
            label@,
        ),
{
    if let Some(n) = output {
        let cast = maybe_cast_for_rnn(
            b,
            state,
            dtype == DataType::Float16,
            dtype,
            label_with(&label, "_cast"),
        );
        b.record_output(n, label, cast);
        result.output_types.insert(n.clone(), dtype);
    }
}

/// What is checked before a GRU is lowered: its direction and hidden size.
pub open spec fn gru_params(node: NodeV, name: Seq<char>) -> Result<(Direction, u32), ErrorV> {
    if node.input.len() < 3 {
        Err(
            ErrorV::InvalidShape(
                "GRU expects at least 3 inputs (X, W, R), got "@ + text::decimal(
                    node.input.len() as int,
                ),
            ),
        )
    } else {
        match rnn_direction(node.attribute, Direction::Forward, name, "GRU"@) {
            Err(e) => Err(e),
            Ok(d) => match optional_inputs_error(node.input, 4, name, "GRU"@) {
                Some(e) => Err(e),
                None => match hidden_size(node, "GRU"@) {
                    Err(e) => Err(e),
                    Ok(h) => Ok((d, h)),
                },
            },
        }
    }
}

/// The lowering of a `GRU` node.
pub open spec fn gru_outcome(
    node: NodeV,
    name: Seq<char>,
    ctx: ContextV,
    ops: Seq<OpV>,
) -> NodeOutcome {
    match gru_params(node, name) {
        Err(e) => ops::node_failed(ops, e),
        Ok((direction, hidden)) => {
            let dtype = ctx.dtype(node.input[0]);
            let label = node.label(name);
            let t = rnn_inputs(
                ops,
                node,
                name,
                dtype == DataType::Float16,
                (3 * hidden) as u32,
                direction,
            );
            let o1 = t.ops.push(
                OpV::Gru {
                    x: t.x,
                    w: t.w,
                    r: t.r,
                    steps: step_count(ctx, node.input[0]),
                    hidden_size: hidden,
                    bias: t.bias,
                    recurrent_bias: t.recurrent,
                    return_sequence: node.output_at(0) is Some,
                    direction,
                    reset_after: node.int_attr("linear_before_reset"@, 0) != 0,
                    label,
                },
            );
            let state = builder::last_operand(o1);
            let s1 = sequence_output(
                OutputsV { ops: o1, types: Map::empty() },
                node,
                name,
                ctx,
                OperandV { step: state.step, output: 1 },
                direction,
                dtype,
                label,
            );
            let s2 = state_output(s1, node.output_at(1), state, dtype, label + "_y_h"@);
            NodeOutcome { ops: s2.ops, result: Ok(s2.types) }
        },
    }
}

/// The gates of a bias fit 32 bits.
pub open spec fn gru_in_range(node: NodeV, name: Seq<char>) -> bool {
    gru_params(node, name) matches Ok(t) ==> 3 * t.1 <= u32::MAX
}

/// What is checked before an LSTM is lowered: its direction and hidden size.
/// Sequence lengths (input 4) and peepholes (input 7) are not supported.
pub open spec fn lstm_params(node: NodeV, name: Seq<char>) -> Result<(Direction, u32), ErrorV> {
    if node.input.len() < 3 {
        Err(
            ErrorV::InvalidShape(
                "LSTM expects at least 3 inputs (X, W, R), got "@ + text::decimal(
                    node.input.len() as int,
                ),
            ),
        )
    } else {
        match rnn_direction(node.attribute, Direction::Forward, name, "LSTM"@) {
            Err(e) => Err(e),
            Ok(d) => if node.input_at(4) is Some {
                Err(error::unsupported("LSTM(sequence_lens)"@, name))
            } else if node.input_at(7) is Some {
                Err(error::unsupported("LSTM(peephole)"@, name))
            } else {
                match hidden_size(node, "LSTM"@) {
                    Err(e) => Err(e),
                    Ok(h) => Ok((d, h)),
                }
            },
        }
    }
}

/// Steps, and the operand of an initial state where one is given.
pub struct StateV {
    pub ops: Seq<OpV>,
    pub state: Option<OperandV>,
}

pub open spec fn initial_state(
    ops: Seq<OpV>,
    name: Option<Seq<char>>,
    as_f32: bool,
    label: Seq<char>,
) -> StateV {
    match name {
        None => StateV { ops, state: None },
        Some(n) => {
            let s = float_input(ops, n, as_f32, label);
            StateV { ops: s.ops, state: Some(s.operand) }
        },
    }
}

fn resolve_state(b: &mut OnnxBuilder, name: Option<&String>, as_f32: bool, label: String) -> (r:
    Option<Operand>)
    ensures
        ({
            let s = initial_state(
                old(b)@,
                match name {
                    Some(n) => Some(n@),
                    None => None,
                },
                as_f32,
                label@,
            );
            &&& final(b)@ == s.ops
            &&& builder::operand_opt(r) == s.state
        }),
{
    match name {
        None => None,
        Some(n) => Some(resolve_float(b, n, as_f32, label)),
    }
}

/// The lowering of an `LSTM` node.
pub open spec fn lstm_outcome(
    node: NodeV,
    name: Seq<char>,
    ctx: ContextV,
    ops: Seq<OpV>,
) -> NodeOutcome {
    match lstm_params(node, name) {
        Err(e) => ops::node_failed(ops, e),
        Ok((direction, hidden)) => {
            let dtype = ctx.dtype(node.input[0]);
            let as_f32 = dtype == DataType::Float16;
            let label = node.label(name);
            let t = rnn_inputs(ops, node, name, as_f32, (4 * hidden) as u32, direction);
            let h0 = initial_state(t.ops, node.input_at(5), as_f32, name + "_h0_f32"@);
            let c0 = initial_state(h0.ops, node.input_at(6), as_f32, name + "_c0_f32"@);
            let o1 = c0.ops.push(
                OpV::Lstm {
                    x: t.x,
                    w: t.w,
                    r: t.r,
                    steps: step_count(ctx, node.input[0]),
                    hidden_size: hidden,
                    bias: t.bias,
                    recurrent_bias: t.recurrent,
                    initial_hidden_state: h0.state,
                    initial_cell_state: c0.state,
                    return_sequence: node.output_at(0) is Some,
                    direction,
                    label,
                },
            );
            let state = builder::last_operand(o1);
            let s1 = sequence_output(
                OutputsV { ops: o1, types: Map::empty() },
                node,
                name,
                ctx,
                OperandV { step: state.step, output: 2 },
                direction,
                dtype,
                label,
            );
            let s2 = state_output(s1, node.output_at(1), state, dtype, label + "_y_h"@);
            let s3 = state_output(
                s2,
                node.output_at(2),
                OperandV { step: state.step, output: 1 },
                dtype,
                label + "_y_c"@,
            );
            NodeOutcome { ops: s3.ops, result: Ok(s3.types) }
        },
    }
}

/// The gates of a bias fit 32 bits.
pub open spec fn lstm_in_range(node: NodeV, name: Seq<char>) -> bool {
    lstm_params(node, name) matches Ok(t) ==> 4 * t.1 <= u32::MAX
}

fn find_gru(node: &NodeProto, name: &String) -> (r: Result<(Direction, u32), OnnxError>)
    ensures
        error::failed(r, |t: (Direction, u32)| t) == gru_params(node@, name@),
{
    let count: usize = node.input.len();
    if count < 3 {
        let mut m = String::from_str("GRU expects at least 3 inputs (X, W, R), got ");
        let d = text::decimal_usize(count);
        m.append(d.as_str());
        return Err(OnnxError::InvalidShape(m));
    }
    let direction: Direction = match validate_rnn_attrs(node, name, "GRU") {
        Ok(d) => d,
        Err(e) => return Err(e),
    };
    match reject_optional_rnn_inputs(node, 4, name, "GRU") {
        Ok(_) => {},
        Err(e) => return Err(e),
    }
    match require_hidden_size(node, "GRU") {
        Ok(h) => Ok((direction, h)),
        Err(e) => Err(e),
    }
}

fn find_lstm(node: &NodeProto, name: &String) -> (r: Result<(Direction, u32), OnnxError>)
    ensures
        error::failed(r, |t: (Direction, u32)| t) == lstm_params(node@, name@),
{
    let count: usize = node.input.len();
    if count < 3 {
        let mut m = String::from_str("LSTM expects at least 3 inputs (X, W, R), got ");
        let d = text::decimal_usize(count);
        m.append(d.as_str());
        return Err(OnnxError::InvalidShape(m));
    }
    let direction: Direction = match validate_rnn_attrs(node, name, "LSTM") {
        Ok(d) => d,
        Err(e) => return Err(e),
    };
    if node.input_name(4).is_some() {
        return Err(
            OnnxError::unsupported_op(String::from_str("LSTM(sequence_lens)"), name.clone()),
        );
    }
    if node.input_name(7).is_some() {
        return Err(
            OnnxError::unsupported_op(String::from_str("LSTM(peephole)"), name.clone()),
        );
    }
    match require_hidden_size(node, "LSTM") {
        Ok(h) => Ok((direction, h)),
        Err(e) => Err(e),
    }
}

/// The lowering of a node that the handler supports; others are rejected.
pub open spec fn rnn_outcome(node: NodeV, ctx: ContextV, ops: Seq<OpV>) -> NodeOutcome {
    let name = rnn_name(node);
    if node.op_type == "GRU"@ {
        gru_outcome(node, name, ctx, ops)
    } else if node.op_type == "LSTM"@ {
        lstm_outcome(node, name, ctx, ops)
    } else if node.op_type == "RotaryEmbedding"@ {
        rotary_outcome(node, name, ctx, ops)
    } else {
        ops::node_failed(ops, error::unsupported(node.op_type, name))
    }
}

/// The sanitized name of a node: it seeds operand labels.
pub open spec fn rnn_name(node: NodeV) -> Seq<char> {
    if node.name.len() > 0 {
        types::sanitized(node.name)
    } else {
        "unnamed"@
    }
}

pub open spec fn rnn_in_range(node: NodeV) -> bool {
    &&& node.op_type == "GRU"@ ==> gru_in_range(node, rnn_name(node))
    &&& node.op_type == "LSTM"@ ==> lstm_in_range(node, rnn_name(node))
}

fn rnn_name_of(node: &NodeProto) -> (r: String)
    ensures
        r@ == rnn_name(node@),
{
    if node.name.as_str().is_empty() {
        String::from_str("unnamed")
    } else {
        types::sanitize_identifier(node.name.as_str())
    }
}

impl RnnHandler {
    pub fn supports(&self, op_type: &str) -> (r: bool)
        ensures
            r == (op_type@ == "GRU"@ || op_type@ == "LSTM"@ || op_type@ == "RotaryEmbedding"@),
    {
        text::str_eq(op_type, "GRU") || text::str_eq(op_type, "LSTM") || text::str_eq(
            op_type,
            "RotaryEmbedding",
        )
    }

    /// Whether [`Self::convert`] can be called on the node.
    pub fn in_range(&self, node: &NodeProto) -> (r: bool)
        ensures
            r == rnn_in_range(node@),
    {
        let name = rnn_name_of(node);
        if text::str_eq(node.op_type.as_str(), "GRU") {
            match find_gru(node, &name) {
                Err(_) => {},
                Ok((_, h)) => {
                    if h > u32::MAX / 3 {
                        return false;
                    }
                },
            }
        }
        if text::str_eq(node.op_type.as_str(), "LSTM") {
            match find_lstm(node, &name) {
                Err(_) => {},
                Ok((_, h)) => {
                    if h > u32::MAX / 4 {
                        return false;
                    }
                },
            }
        }
        true
    }

    pub fn convert(&self, node: &NodeProto, context: &ConversionContext, b: &mut OnnxBuilder) -> (r:
        Result<ConversionResult, OnnxError>)
        requires
            rnn_in_range(node@),
        ensures
            ops::node_outcome(final(b)@, r) == rnn_outcome(node@, context@, old(b)@),
    {
        let node_name = rnn_name_of(node);
        if text::str_eq(node.op_type.as_str(), "GRU") {
            self.convert_gru(node, &node_name, context, b)
        } else if text::str_eq(node.op_type.as_str(), "LSTM") {
            self.convert_lstm(node, &node_name, context, b)
        } else if text::str_eq(node.op_type.as_str(), "RotaryEmbedding") {
            self.convert_rotary_embedding(node, &node_name, context, b)
        } else {
            Err(OnnxError::unsupported_op(node.op_type.clone(), node_name))
        }
    }

    /// Lower a `GRU` node.
    pub fn convert_gru(
        &self,
        node: &NodeProto,
        node_name: &String,
        context: &ConversionContext,
        b: &mut OnnxBuilder,
    ) -> (r: Result<ConversionResult, OnnxError>)
        requires
            gru_in_range(node@, node_name@),
        ensures
            ops::node_outcome(final(b)@, r) == gru_outcome(node@, node_name@, context@, old(b)@),
    {
        let (direction, hidden) = match find_gru(node, node_name) {
            Ok(t) => t,
            Err(e) => return Err(e),
        };
        assert(node@.input[0] == node.input@[0]@);
        let dtype: DataType = context.value_type(&node.input[0]);
        let t = resolve_rnn_inputs(
            b,
            node,
            node_name,
            dtype == DataType::Float16,
            3 * hidden,
            direction,
        );
        let steps: u32 = resolve_steps(context, &node.input[0]);
        let label = node.output_label(node_name);
        let state = b.push(
            BuilderOp::Gru {
                x: t.x,
                w: t.w,
                r: t.r,
                steps,
                hidden_size: hidden,
                bias: t.bias,
                recurrent_bias: t.recurrent,
                return_sequence: node.output_name(0).is_some(),
                direction,
                reset_after: node.int_attr("linear_before_reset", 0) != 0,
                label: label.clone(),
            },
        );
        let mut result = ConversionResult::none();
        record_sequence(
            b,
            &mut result,
            node,
            node_name,
            context,
            Operand { step: state.step, output: 1 },
            direction,
            dtype,
            &label,
        );
        record_state(
            b,
            &mut result,
            node.output_name(1),
            state,
            dtype,
            label_with(&label, "_y_h"),
        );
        Ok(result)
    }

    /// Lower an `LSTM` node.
    pub fn convert_lstm(
        &self,
        node: &NodeProto,
        node_name: &String,
        context: &ConversionContext,
        b: &mut OnnxBuilder,
    ) -> (r: Result<ConversionResult, OnnxError>)
        requires
            lstm_in_range(node@, node_name@),
        ensures
            ops::node_outcome(final(b)@, r) == lstm_outcome(node@, node_name@, context@, old(b)@),
    {
        let (direction, hidden) = match find_lstm(node, node_name) {
            Ok(t) => t,
            Err(e) => return Err(e),
        };
        assert(node@.input[0] == node.input@[0]@);
        let dtype: DataType = context.value_type(&node.input[0]);
        let as_f32: bool = dtype == DataType::Float16;
        let t = resolve_rnn_inputs(b, node, node_name, as_f32, 4 * hidden, direction);
        let steps: u32 = resolve_steps(context, &node.input[0]);
        let h0 = resolve_state(b, node.input_name(5), as_f32, label_with(node_name, "_h0_f32"));
        let c0 = resolve_state(b, node.input_name(6), as_f32, label_with(node_name, "_c0_f32"));
        let label = node.output_label(node_name);
        let state = b.push(
            BuilderOp::Lstm {
                x: t.x,
                w: t.w,
                r: t.r,
                steps,
                hidden_size: hidden,
                bias: t.bias,
                recurrent_bias: t.recurrent,
                initial_hidden_state: h0,
                initial_cell_state: c0,
                return_sequence: node.output_name(0).is_some(),
                direction,
                label: label.clone(),
            },
        );
        let mut result = ConversionResult::none();
        record_sequence(
            b,
            &mut result,
            node,
            node_name,
            context,
            Operand { step: state.step, output: 2 },
            direction,
            dtype,
            &label,
        );
        record_state(
            b,
            &mut result,
            node.output_name(1),
            state,
            dtype,
            label_with(&label, "_y_h"),
        );
        record_state(
            b,
            &mut result,
            node.output_name(2),
            Operand { step: state.step, output: 1 },
            dtype,
            label_with(&label, "_y_c"),
        );
        Ok(result)
    }
}

} // verus!
