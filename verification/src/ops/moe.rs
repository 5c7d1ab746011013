//! `com.microsoft.MoE` (mixture of experts) and its quantized form `QMoE`.
//!
//! WebNN has no sparse dispatch, so the lowering runs every expert densely and
//! blends the results with the routing weights:
//!
//!   1. routing: softmax over the top-k router logits per row. The top-k mask
//!      is built with k iterations of reduceMax and equal, with suppression.
//!   2. experts: X expanded to `[E, R, H]`, batched matmul against the
//!      per-expert weights (stored `[E, out, in]`), bias, activation, second
//!      matmul and bias, giving `[E, R, H]`.
//!   3. blend: multiply by the routing weights `[E, R, 1]` and sum over E.
//!
//! Activations: fused interleaved SwiGLU (`swiglu_fusion=1`, `[g0, l0, g1, l1,
//! ...]`), where `gate = min(gate, limit)`, `linear = clamp(linear, +/-limit)`
//! and the result is `gate * sigmoid(alpha*gate) * (linear + beta)`; relu,
//! gelu and sigmoid. Unfused gating, the sparse mixer and other fusion layouts
//! are rejected.
use crate::arith;
use crate::builder;
use crate::builder::{
    BinaryOp, BuilderOp, ConstData, ConstDataV, OnnxBuilder, OpV, Operand, OperandV, ReduceOp,
    UnaryOp, label_with, list1, list2, list3, list4,
};
use crate::context;
use crate::context::{ContextV, ConversionContext, InitTensor, InitV};
use crate::error;
use crate::error::{ErrorV, OnnxError};
use crate::floats;
use crate::floats::FloatBits;
use crate::ops;
use crate::ops::matmul;
use crate::ops::{ConversionResult, NodeOutcome, Part};
use crate::protos::{NodeProto, NodeV};
use crate::text;
use crate::types;
use crate::types::DataType;
use vstd::prelude::*;

verus! {

pub struct MoeHandler;

// ---------------------------------------------------------------------------
// Quantized expert weights
// ---------------------------------------------------------------------------

/// How many weights a byte holds.
pub open spec fn per_byte(bits: i64) -> int {
    if bits == 4 {
        2
    } else {
        1
    }
}

/// The number of blocks that cover a row.
pub open spec fn block_count(in_cols: int, block_size: int) -> int {
    let x = in_cols + block_size - 1;
    if x >= 0 {
        x / block_size
    } else {
        -((-x) / block_size)
    }
}

/// The shape of a packed weight tensor and its scales.
pub struct QuantV {
    pub experts: i64,
    pub out_rows: i64,
    pub packed: i64,
    pub in_cols: int,
    pub blocks: int,
}

pub open spec fn quant_shape(w: InitV, bits: i64, block_size: i64) -> QuantV {
    QuantV {
        experts: w.dims[0],
        out_rows: w.dims[1],
        packed: w.dims[2],
        in_cols: w.dims[2] * per_byte(bits),
        blocks: block_count(w.dims[2] * per_byte(bits), block_size as int),
    }
}

/// The weight at column `i` of a row: low nibble first where a byte holds two.
pub open spec fn quant_code(data: Seq<u8>, row: int, packed: int, i: int, bits: i64) -> int {
    if bits == 4 {
        let byte = data[row * packed + i / 2] as int;
        if i % 2 == 0 {
            byte % 16
        } else {
            byte / 16
        }
    } else {
        data[row * packed + i] as int
    }
}

/// The middle of the range of codes.
pub open spec fn quant_zero(bits: i64) -> int {
    if bits == 4 {
        8
    } else {
        128
    }
}

/// Every weight as its centred code and the scale of its block.
pub open spec fn dense_weights(
    data: Seq<u8>,
    scales: Seq<FloatBits>,
    q: QuantV,
    bits: i64,
    block_size: i64,
) -> Seq<(FloatBits, FloatBits)> {
    Seq::new(
        (q.experts * q.out_rows * q.in_cols) as nat,
        |n: int|
            {
                let row = n / q.in_cols;
                let i = n % q.in_cols;
                (
                    FloatBits::Single(
                        floats::int_bits(
                            quant_code(data, row, q.packed as int, i, bits) - quant_zero(bits),
                        ) as u32,
                    ),
                    scales[row * q.blocks + i / block_size as int],
                )
            },
    )
}

/// Steps, and the name and shape of the weights or an error.
pub struct WeightsOutcome {
    pub ops: Seq<OpV>,
    pub result: Result<(Seq<char>, Seq<i64>), ErrorV>,
}

pub open spec fn weights_failed(ops: Seq<OpV>, e: ErrorV) -> WeightsOutcome {
    WeightsOutcome { ops, result: Err(e) }
}

/// Both tensors, or what is wrong with them.
pub open spec fn quant_tensors(ctx: ContextV, weight: Seq<char>, scales: Seq<char>) -> Result<
    (InitV, InitV),
    ErrorV,
> {
    if !ctx.initializers.contains_key(weight) {
        Err(
            ErrorV::InvalidShape("QMoE weight '"@ + weight + "' must be an initializer"@),
        )
    } else if !ctx.initializers.contains_key(scales) {
        Err(
            ErrorV::InvalidShape("QMoE scales '"@ + scales + "' must be an initializer"@),
        )
    } else {
        let w = ctx.initializers[weight];
        let s = ctx.initializers[scales];
        if w.dims.len() != 3 || s.dims.len() != 3 {
            Err(
                ErrorV::InvalidShape(
                    "QMoE expects 3-D weights/scales, got "@ + text::list_text(text::ints(w.dims))
                        + " and "@ + text::list_text(text::ints(s.dims)),
                ),
            )
        } else {
            Ok((w, s))
        }
    }
}

/// The scales have one row of blocks for each row of weights.
pub open spec fn scales_match(s: InitV, q: QuantV) -> bool {
    s.dims[0] == q.experts && s.dims[1] == q.out_rows && s.dims[2] == q.blocks
}

pub open spec fn scales_error(s: InitV, q: QuantV, block_size: i64) -> ErrorV {
    ErrorV::InvalidShape(
        "QMoE scales "@ + text::list_text(text::ints(s.dims)) + " do not match weights [E="@
            + text::decimal(q.experts as int) + ", out="@ + text::decimal(q.out_rows as int)
            + "] with "@ + text::decimal(q.blocks) + " blocks of "@ + text::decimal(
            block_size as int,
        ),
    )
}

pub open spec fn payload_error(what: Seq<char>, q: QuantV) -> ErrorV {
    ErrorV::InvalidShape(
        what + "payload too small for [E="@ + text::decimal(q.experts as int) + ", out="@
            + text::decimal(q.out_rows as int) + ", in="@ + text::decimal(q.in_cols) + "]"@,
    )
}

/// The quantized type of codes of this many bits.
pub open spec fn code_type(bits: i64) -> DataType {
    if bits == 4 {
        DataType::Uint4
    } else {
        DataType::Uint8
    }
}

/// The packed zero points of `n` blocks: every one is the middle code.
pub open spec fn zero_points(n: int, bits: i64) -> Seq<u8> {
    if bits == 4 {
        Seq::new(((n + 1) / 2) as nat, |i: int| 0x88u8)
    } else {
        Seq::new(n as nat, |i: int| 0x80u8)
    }
}

/// The weights through `dequantizeLinear`.
pub open spec fn blockwise_outcome(
    ops: Seq<OpV>,
    data: Seq<u8>,
    s: InitV,
    q: QuantV,
    bits: i64,
    dtype: DataType,
    name: Seq<char>,
) -> WeightsOutcome {
    let rows = q.experts * q.out_rows;
    let block_shape = seq![q.experts as u32, q.out_rows as u32, q.blocks as u32];
    let o1 = ops.push(
        OpV::Constant {
            name: name + "__q"@,
            dtype: code_type(bits),
            shape: seq![q.experts as u32, q.out_rows as u32, q.in_cols as u32],
            data: ConstDataV::Bytes(data.take(rows * q.packed)),
        },
    );
    match types::mapped_type(s.data_type) {
        Err(e) => weights_failed(o1, e),
        Ok(s_type) => match s.bytes() {
            Err(e) => weights_failed(o1, e),
            Ok(s_bytes) => {
                let o2 = o1.push(
                    OpV::Constant {
                        name: name + "__scales"@,
                        dtype: s_type,
                        shape: block_shape,
                        data: ConstDataV::Bytes(s_bytes),
                    },
                );
                let o3 = o2.push(
                    OpV::Constant {
                        name: name + "__zp"@,
                        dtype: code_type(bits),
                        shape: block_shape,
                        data: ConstDataV::Bytes(zero_points(rows * q.blocks, bits)),
                    },
                );
                let o4 = ops::resolved(o3, name + "__q"@);
                let o5 = ops::resolved(o4, name + "__scales"@);
                let o6 = ops::resolved(o5, name + "__zp"@);
                let o7 = o6.push(
                    OpV::Dequantize {
                        input: builder::last_operand(o4),
                        scale: builder::last_operand(o5),
                        zero_point: builder::last_operand(o6),
                    },
                );
                let o8 = if s_type != dtype {
                    o7.push(
                        OpV::Cast {
                            input: builder::last_operand(o7),
                            dtype,
                            label: name + "__cast"@,
                        },
                    )
                } else {
                    o7
                };
                let o9 = o8.push(OpV::Record { name, operand: builder::last_operand(o8) });
                WeightsOutcome {
                    ops: o9,
                    result: Ok((name, seq![q.experts, q.out_rows, q.in_cols as i64])),
                }
            },
        },
    }
}

/// The weights as a float constant.
pub open spec fn dense_outcome(
    ops: Seq<OpV>,
    data: Seq<u8>,
    s: InitV,
    q: QuantV,
    bits: i64,
    block_size: i64,
    dtype: DataType,
    name: Seq<char>,
) -> WeightsOutcome {
    match matmul::float_values(s) {
        Err(e) => weights_failed(ops, e),
        Ok(scales) => if scales.len() < q.experts * q.out_rows * q.blocks {
            weights_failed(ops, payload_error("QMoE scale "@, q))
        } else {
            WeightsOutcome {
                ops: ops.push(
                    OpV::Constant {
                        name,
                        dtype: ops::float_type(dtype),
                        shape: seq![q.experts as u32, q.out_rows as u32, q.in_cols as u32],
                        data: ConstDataV::Products(
                            dense_weights(data, scales, q, bits, block_size),
                        ),
                    },
                ),
                result: Ok((name, seq![q.experts, q.out_rows, q.in_cols as i64])),
            }
        },
    }
}

/// The columns fall into blocks that `dequantizeLinear` can express: a single
/// block, or blocks of the same size.
pub open spec fn even_blocks(q: QuantV, block_size: i64) -> bool {
    q.blocks == 1 || q.in_cols % (block_size as int) == 0
}

/// Dequantized expert weights under `name`.
pub open spec fn expert_weights(
    ops: Seq<OpV>,
    ctx: ContextV,
    weight: Seq<char>,
    scales: Seq<char>,
    block_size: i64,
    bits: i64,
    dtype: DataType,
    name: Seq<char>,
) -> WeightsOutcome {
    match quant_tensors(ctx, weight, scales) {
        Err(e) => weights_failed(ops, e),
        Ok((w, s)) => {
            let q = quant_shape(w, bits, block_size);
            if !scales_match(s, q) {
                weights_failed(ops, scales_error(s, q, block_size))
            } else {
                match w.bytes() {
                    Err(e) => weights_failed(ops, e),
                    Ok(data) => if data.len() < q.experts * q.out_rows * q.packed {
                        weights_failed(ops, payload_error("QMoE weight "@, q))
                    } else if even_blocks(q, block_size) {
                        blockwise_outcome(ops, data, s, q, bits, dtype, name)
                    } else {
                        dense_outcome(ops, data, s, q, bits, block_size, dtype, name)
                    },
                }
            }
        },
    }
}

/// The sizes of the tensors can be computed and held. A tensor without
/// columns has no block.
pub open spec fn quant_in_range(
    ctx: ContextV,
    weight: Seq<char>,
    scales: Seq<char>,
    block_size: i64,
    bits: i64,
) -> bool {
    quant_tensors(ctx, weight, scales) matches Ok(t) ==> {
        let q = quant_shape(t.0, bits, block_size);
        &&& arith::fits_i64(q.in_cols)
        &&& arith::fits_i64(q.in_cols + block_size - 1)
        &&& scales_match(t.1, q) && t.0.bytes() is Ok ==> {
            &&& q.experts >= 0
            &&& q.out_rows >= 0
            &&& q.packed > 0
            &&& q.experts * q.out_rows <= i64::MAX
            &&& q.experts * q.out_rows * q.in_cols * 4 <= isize::MAX
        }
    }
}

proof fn lemma_sizes(q: QuantV, bits: i64, block_size: i64)
    requires
        q.experts >= 0,
        q.out_rows >= 0,
        q.packed > 0,
        q.in_cols == q.packed * per_byte(bits),
        q.blocks == block_count(q.in_cols, block_size as int),
        q.experts * q.out_rows * q.in_cols * 4 <= isize::MAX,
        block_size > 0,
        bits == 4 || bits == 8,
    ensures
        0 <= q.experts * q.out_rows <= isize::MAX,
        0 < q.packed <= q.in_cols,
        0 < q.blocks <= q.in_cols,
        0 <= q.experts * q.out_rows * q.packed <= isize::MAX,
        0 <= q.experts * q.out_rows * q.blocks <= isize::MAX,
        0 <= q.experts * q.out_rows * q.in_cols <= isize::MAX,
        forall|i: int| 0 <= i < q.in_cols ==> 0 <= #[trigger] (i / block_size as int) < q.blocks,
{
    let rows = q.experts * q.out_rows;
    let b = block_size as int;
    assert(0 <= rows) by (nonlinear_arith)
        requires
            rows == q.experts * q.out_rows,
            q.experts >= 0,
            q.out_rows >= 0,
    ;
    assert(0 < (q.in_cols + b - 1) / b <= q.in_cols) by (nonlinear_arith)
        requires
            q.in_cols > 0,
            b > 0,
    ;
    assert(rows * q.packed <= rows * q.in_cols && rows * q.blocks <= rows * q.in_cols && rows
        <= rows * q.in_cols && 0 <= rows * q.packed && 0 <= rows * q.blocks) by (nonlinear_arith)
        requires
            0 <= rows,
            0 < q.packed <= q.in_cols,
            0 < q.blocks <= q.in_cols,
    ;
    assert forall|i: int| 0 <= i < q.in_cols implies 0 <= #[trigger] (i / b) < q.blocks by {
        assert(0 <= i / b < (q.in_cols + b - 1) / b) by (nonlinear_arith)
            requires
                0 <= i < q.in_cols,
                b > 0,
        ;
    }
}

fn payload_message(what: &str, experts: i64, out_rows: i64, in_cols: i64) -> (r: OnnxError)
    ensures
        forall|q: QuantV|
            q.experts == experts && q.out_rows == out_rows && q.in_cols == in_cols
                ==> #[trigger] payload_error(what@, q) == r@,
{
    let mut m = String::from_str(what);
    m.append("payload too small for [E=");
    let d = text::decimal_i64(experts);
    m.append(d.as_str());
    m.append(", out=");
    let d = text::decimal_i64(out_rows);
    m.append(d.as_str());
    m.append(", in=");
    let d = text::decimal_i64(in_cols);
    m.append(d.as_str());
    m.append("]");
    OnnxError::InvalidShape(m)
}

fn code_type_of(bits: i64) -> (r: DataType)
    ensures
        r == code_type(bits),
{
    if bits == 4 {
        DataType::Uint4
    } else {
        DataType::Uint8
    }
}

fn zero_point_bytes(n: usize, bits: i64) -> (r: Vec<u8>)
    requires
        n <= isize::MAX,
    ensures
        r@ == zero_points(n as int, bits),
{
    let (len, byte): (usize, u8) = if bits == 4 {
        ((n + 1) / 2, 0x88)
    } else {
        (n, 0x80)
    };
    let r: Vec<u8> = vec![byte; len];
    assert(r@ =~= zero_points(n as int, bits));
    r
}

/// The shape of a packed weight tensor, in range.
struct Quant {
    experts: i64,
    out_rows: i64,
    packed: i64,
    in_cols: i64,
    blocks: i64,
}

impl View for Quant {
    type V = QuantV;

    closed spec fn view(&self) -> QuantV {
        QuantV {
            experts: self.experts,
            out_rows: self.out_rows,
            packed: self.packed,
            in_cols: self.in_cols as int,
            blocks: self.blocks as int,
        }
    }
}

pub open spec fn weights_outcome(
    ops: Seq<OpV>,
    r: Result<(String, Vec<i64>), OnnxError>,
) -> WeightsOutcome {
    WeightsOutcome {
        ops,
        result: match r {
            Ok(t) => Ok((t.0@, t.1@)),
            Err(e) => Err(e@),
        },
    }
}

fn blockwise_weights(
    b: &mut OnnxBuilder,
    data: &Vec<u8>,
    s: &InitTensor,
    q: &Quant,
    bits: i64,
    block_size: i64,
    dtype: DataType,
    name: &String,
) -> (r: Result<(String, Vec<i64>), OnnxError>)
    requires
        q@.experts >= 0,
        q@.out_rows >= 0,
        q@.packed > 0,
        q@.in_cols == q@.packed * per_byte(bits),
        q@.blocks == block_count(q@.in_cols, block_size as int),
        q@.experts * q@.out_rows * q@.in_cols * 4 <= isize::MAX,
        block_size > 0,
        bits == 4 || bits == 8,
        data@.len() >= q@.experts * q@.out_rows * q@.packed,
    ensures
        weights_outcome(final(b)@, r) == blockwise_outcome(
            old(b)@,
            data@,
            s@,
            q@,
            bits,
            dtype,
            name@,
        ),
{
    proof {
        lemma_sizes(q@, bits, block_size);
    }
    let rows: i64 = q.experts * q.out_rows;
    let mut payload: Vec<u8> = data.clone();
    assert(payload@ =~= data@);
    payload.truncate((rows * q.packed) as usize);
    assert(payload@ =~= data@.take(rows * q.packed));
    let q_name = label_with(name, "__q");
    b.constant(
        &q_name,
        code_type_of(bits),
        list3(q.experts as u32, q.out_rows as u32, q.in_cols as u32),
        ConstData::Bytes(payload),
    );
    let s_type = match types::map_onnx_data_type(s.data_type) {
        Ok(t) => t,
        Err(e) => return Err(e),
    };
    let s_bytes = match s.bytes() {
        Ok(v) => v,
        Err(e) => return Err(e),
    };
    let s_payload: Vec<u8> = s_bytes.clone();
    assert(s_payload@ =~= s_bytes@);
    let s_name = label_with(name, "__scales");
    b.constant(
        &s_name,
        s_type,
        list3(q.experts as u32, q.out_rows as u32, q.blocks as u32),
        ConstData::Bytes(s_payload),
    );
    let zp_name = label_with(name, "__zp");
    b.constant(
        &zp_name,
        code_type_of(bits),
        list3(q.experts as u32, q.out_rows as u32, q.blocks as u32),
        ConstData::Bytes(zero_point_bytes((rows * q.blocks) as usize, bits)),
    );
    let codes = b.resolve(&q_name);
    let scales = b.resolve(&s_name);
    let zp = b.resolve(&zp_name);
    let mut weights = b.push(
        BuilderOp::Dequantize { input: codes, scale: scales, zero_point: zp },
    );
    if s_type != dtype {
        weights = b.cast(weights, dtype, label_with(name, "__cast"));
    }
    b.record(name, weights);
    Ok((name.clone(), list3(q.experts, q.out_rows, q.in_cols)))
}

fn code_at(data: &Vec<u8>, row: usize, packed: usize, i: usize, bits: i64) -> (r: u8)
    requires
        bits == 4 || bits == 8,
        0 <= row * packed,
        row * packed + packed <= data@.len(),
        i < packed * per_byte(bits),
    ensures
        r == quant_code(data@, row as int, packed as int, i as int, bits),
{
    let len: usize = data.len();
    if bits == 4 {
        let byte: u8 = data[row * packed + i / 2];
        if i % 2 == 0 {
            byte % 16
        } else {
            byte / 16
        }
    } else {
        data[row * packed + i]
    }
}

fn dense_values(
    data: &Vec<u8>,
    scales: &Vec<FloatBits>,
    q: &Quant,
    bits: i64,
    block_size: i64,
) -> (r: Vec<(FloatBits, FloatBits)>)
    requires
        q@.experts >= 0,
        q@.out_rows >= 0,
        q@.packed > 0,
        q@.in_cols == q@.packed * per_byte(bits),
        q@.blocks == block_count(q@.in_cols, block_size as int),
        q@.experts * q@.out_rows * q@.in_cols * 4 <= isize::MAX,
        block_size > 0,
        bits == 4 || bits == 8,
        data@.len() >= q@.experts * q@.out_rows * q@.packed,
        scales@.len() >= q@.experts * q@.out_rows * q@.blocks,
    ensures
        r@ == dense_weights(data@, scales@, q@, bits, block_size),
{
    proof {
        lemma_sizes(q@, bits, block_size);
    }
    let rows: usize = (q.experts * q.out_rows) as usize;
    let ghost full = dense_weights(data@, scales@, q@, bits, block_size);
    let mut out: Vec<(FloatBits, FloatBits)> = Vec::new();
    if rows == 0 {
        assert(q@.experts * q@.out_rows * q@.in_cols == 0) by (nonlinear_arith)
            requires
                q@.experts * q@.out_rows == 0,
        ;
        assert(out@ =~= full);
        return out;
    }
    assert(q@.in_cols <= q@.experts * q@.out_rows * q@.in_cols) by (nonlinear_arith)
        requires
            q@.experts * q@.out_rows >= 1,
            q@.in_cols > 0,
    ;
    let packed: usize = q.packed as usize;
    let in_cols: usize = q.in_cols as usize;
    let blocks: usize = q.blocks as usize;
    let zero: i64 = if bits == 4 {
        8
    } else {
        128
    };
    let mut row: usize = 0;
    assert(out@ =~= full.take(0));
    assert(0 * in_cols == 0) by (nonlinear_arith);
    while row < rows
        invariant
            row <= rows,
            rows == q@.experts * q@.out_rows,
            packed == q@.packed,
            in_cols == q@.in_cols,
            blocks == q@.blocks,
            bits == 4 || bits == 8,
            block_size > 0,
            zero == quant_zero(bits),
            in_cols == packed * per_byte(bits),
            0 < packed <= in_cols,
            0 < blocks <= in_cols,
            rows * in_cols <= isize::MAX,
            rows * packed <= data@.len(),
            rows * blocks <= scales@.len(),
            rows * packed <= isize::MAX,
            rows * blocks <= isize::MAX,
            forall|i: int|
                0 <= i < q@.in_cols ==> 0 <= #[trigger] (i / block_size as int) < q@.blocks,
            full == dense_weights(data@, scales@, q@, bits, block_size),
            0 <= row * in_cols <= rows * in_cols,
            out@ == full.take(row * in_cols),
        decreases rows - row,
    {
        assert((row + 1) * in_cols == row * in_cols + in_cols && (row + 1) * packed == row * packed
            + packed && (row + 1) * blocks == row * blocks + blocks) by (nonlinear_arith);
        assert((row + 1) * in_cols <= rows * in_cols && (row + 1) * packed <= rows * packed && (row
            + 1) * blocks <= rows * blocks && 0 <= row * packed && 0 <= row * blocks) by (
            nonlinear_arith)
            requires
                row + 1 <= rows,
                in_cols >= 0,
                packed >= 0,
                blocks >= 0,
                row >= 0,
        ;
        let mut i: usize = 0;
        while i < in_cols
            invariant
                i <= in_cols,
                row < rows,
                rows == q@.experts * q@.out_rows,
                packed == q@.packed,
                in_cols == q@.in_cols,
                blocks == q@.blocks,
                bits == 4 || bits == 8,
                block_size > 0,
                zero == quant_zero(bits),
                in_cols == packed * per_byte(bits),
                rows * in_cols <= isize::MAX,
                0 <= row * packed,
                0 <= row * blocks,
                0 <= row * in_cols,
                row * packed + packed <= data@.len(),
                row * blocks + blocks <= scales@.len(),
                row * blocks + blocks <= isize::MAX,
                row * in_cols + in_cols <= rows * in_cols,
                forall|j: int|
                    0 <= j < q@.in_cols ==> 0 <= #[trigger] (j / block_size as int) < q@.blocks,
                full == dense_weights(data@, scales@, q@, bits, block_size),
                out@ == full.take(row * in_cols + i),
            decreases in_cols - i,
        {
            let code: u8 = code_at(data, row, packed, i, bits);
            let block: usize = ((i as u64) / (block_size as u64)) as usize;
            assert(block == i as int / block_size as int);
            let scale: FloatBits = scales[row * blocks + block];
            let centred: i64 = code as i64 - zero;
            out.push((FloatBits::Single(floats::int_to_f32(centred)), scale));
            proof {
                let n = row * in_cols + i;
                vstd::arithmetic::div_mod::lemma_fundamental_div_mod_converse(
                    n,
                    in_cols as int,
                    row as int,
                    i as int,
                );
                assert(full.len() == rows * in_cols);
                assert(full.take(n + 1) =~= full.take(n).push(full[n]));
            }
            i = i + 1;
        }
        row = row + 1;
    }
    assert(full.take(rows * in_cols) =~= full);
    out
}

fn quant_pair<'a>(ctx: &'a ConversionContext, weight: &String, scales: &String) -> (r: Result<
    (&'a InitTensor, &'a InitTensor),
    OnnxError,
>)
    ensures
        error::failed(r, |t: (&InitTensor, &InitTensor)| (t.0@, t.1@)) == quant_tensors(
            ctx@,
            weight@,
            scales@,
        ),
{
    let w = match ctx.initializers.get(weight) {
        Some(t) => t,
        None => {
            let mut m = String::from_str("QMoE weight '");
            m.append(weight.as_str());
            m.append("' must be an initializer");
            return Err(OnnxError::InvalidShape(m));
        },
    };
    let s = match ctx.initializers.get(scales) {
        Some(t) => t,
        None => {
            let mut m = String::from_str("QMoE scales '");
            m.append(scales.as_str());
            m.append("' must be an initializer");
            return Err(OnnxError::InvalidShape(m));
        },
    };
    if w.dims.len() != 3 || s.dims.len() != 3 {
        let mut m = String::from_str("QMoE expects 3-D weights/scales, got ");
        let d = text::list_i64(&w.dims);
        m.append(d.as_str());
        m.append(" and ");
        let d = text::list_i64(&s.dims);
        m.append(d.as_str());
        return Err(OnnxError::InvalidShape(m));
    }
    Ok((w, s))
}

/// The shape of a packed weight tensor; `None` where it is out of range.
fn quant_of(w: &InitTensor, bits: i64, block_size: i64) -> (r: Option<Quant>)
    requires
        w.dims@.len() == 3,
        block_size > 0,
        bits == 4 || bits == 8,
    ensures
        r matches Some(q) ==> q@ == quant_shape(w@, bits, block_size) && arith::fits_i64(
            q@.in_cols + block_size - 1,
        ),
        r is None ==> !(arith::fits_i64(quant_shape(w@, bits, block_size).in_cols)
            && arith::fits_i64(quant_shape(w@, bits, block_size).in_cols + block_size - 1)),
{
    let per: i64 = if bits == 4 {
        2
    } else {
        1
    };
    let in_cols: i64 = match w.dims[2].checked_mul(per) {
        Some(c) => c,
        None => return None,
    };
    let end: i128 = in_cols as i128 + block_size as i128 - 1;
    if end > i64::MAX as i128 {
        return None;
    }
    let blocks: i64 = if end >= 0 {
        (end as i64) / block_size
    } else {
        let below: i128 = 0 - end;
        (0 - below / (block_size as i128)) as i64
    };
    Some(
        Quant {
            experts: w.dims[0],
            out_rows: w.dims[1],
            packed: w.dims[2],
            in_cols,
            blocks,
        },
    )
}

/// Dequantize QMoE expert weights (uint8; 4-bit packs two values per byte, low
/// nibble first; symmetric zero point) with blockwise scales
/// `[E, out, in/block_size]` through `dequantizeLinear`; expanded to a float
/// constant only when the block layout cannot be expressed that way.
fn dequantize_expert_weights(
    b: &mut OnnxBuilder,
    context: &ConversionContext,
    weight_name: &String,
    scales_name: &String,
    block_size: i64,
    bits: i64,
    dtype: DataType,
    const_name: &String,
) -> (r: Result<(String, Vec<i64>), OnnxError>)
    requires
        block_size > 0,
        bits == 4 || bits == 8,
        quant_in_range(context@, weight_name@, scales_name@, block_size, bits),
    ensures
        weights_outcome(final(b)@, r) == expert_weights(
            old(b)@,
            context@,
            weight_name@,
            scales_name@,
            block_size,
            bits,
            dtype,
            const_name@,
        ),
{
    let (w, s) = match quant_pair(context, weight_name, scales_name) {
        Ok(t) => t,
        Err(e) => return Err(e),
    };
    let ghost gq = quant_shape(w@, bits, block_size);
    let q = match quant_of(w, bits, block_size) {
        Some(q) => q,
        None => {
            assert(false);
            return Err(OnnxError::InvalidShape(String::new()));
        },
    };
    assert(q@ == gq);
    if s.dims[0] != q.experts || s.dims[1] != q.out_rows || s.dims[2] != q.blocks {
        let mut m = String::from_str("QMoE scales ");
        let d = text::list_i64(&s.dims);
        m.append(d.as_str());
        m.append(" do not match weights [E=");
        let d = text::decimal_i64(q.experts);
        m.append(d.as_str());
        m.append(", out=");
        let d = text::decimal_i64(q.out_rows);
        m.append(d.as_str());
        m.append("] with ");
        let d = text::decimal_i64(q.blocks);
        m.append(d.as_str());
        m.append(" blocks of ");
        let d = text::decimal_i64(block_size);
        m.append(d.as_str());
        return Err(OnnxError::InvalidShape(m));
    }
    let data = match w.bytes() {
        Ok(d) => d,
        Err(e) => return Err(e),
    };
    proof {
        lemma_sizes(q@, bits, block_size);
    }
    let rows: i64 = q.experts * q.out_rows;
    if data.len() < (rows * q.packed) as usize {
        let e = payload_message("QMoE weight ", q.experts, q.out_rows, q.in_cols);
        assert(e@ == payload_error("QMoE weight "@, gq));
        return Err(e);
    }
    if q.blocks == 1 || q.in_cols % block_size == 0 {
        return blockwise_weights(b, data, s, &q, bits, block_size, dtype, const_name);
    }
    let scales = match matmul::decode_float_tensor(s) {
        Ok(v) => v,
        Err(e) => return Err(e),
    };
    if scales.len() < (rows * q.blocks) as usize {
        let e = payload_message("QMoE scale ", q.experts, q.out_rows, q.in_cols);
        assert(e@ == payload_error("QMoE scale "@, gq));
        return Err(e);
    }
    let values = dense_values(data, &scales, &q, bits, block_size);
    b.constant(
        const_name,
        ops::float_type_of(dtype),
        list3(q.experts as u32, q.out_rows as u32, q.in_cols as u32),
        ConstData::Products(values),
    );
    Ok((const_name.clone(), list3(q.experts, q.out_rows, q.in_cols)))
}

// ---------------------------------------------------------------------------
// Attributes of a node
// ---------------------------------------------------------------------------

#[derive(Debug, Clone, Copy, PartialEq, Eq, Structural)]
pub enum Activation {
    Swiglu,
    Relu,
    Gelu,
    Sigmoid,
}

/// The activation with this name.
pub open spec fn activation_named(s: Seq<char>) -> Option<Activation> {
    if s == "swiglu"@ {
        Some(Activation::Swiglu)
    } else if s == "relu"@ {
        Some(Activation::Relu)
    } else if s == "gelu"@ {
        Some(Activation::Gelu)
    } else if s == "sigmoid"@ {
        Some(Activation::Sigmoid)
    } else {
        None
    }
}

fn find_activation(s: &String) -> (r: Option<Activation>)
    ensures
        r == activation_named(s@),
{
    if text::str_eq(s.as_str(), "swiglu") {
        Some(Activation::Swiglu)
    } else if text::str_eq(s.as_str(), "relu") {
        Some(Activation::Relu)
    } else if text::str_eq(s.as_str(), "gelu") {
        Some(Activation::Gelu)
    } else if text::str_eq(s.as_str(), "sigmoid") {
        Some(Activation::Sigmoid)
    } else {
        None
    }
}

/// Which inputs of a node hold what. QMoE: X, logits, fc1_w, fc1_scales,
/// fc1_b, fc2_w, fc2_scales, fc2_b, fc3... MoE: X, logits, fc1_w, fc1_b, fc2_w,
/// fc2_b, fc3...
pub open spec fn is_quant(node: NodeV) -> bool {
    node.op_type == "QMoE"@
}

pub open spec fn b1_index(quant: bool) -> int {
    if quant {
        4
    } else {
        3
    }
}

pub open spec fn w2_index(quant: bool) -> int {
    if quant {
        5
    } else {
        4
    }
}

pub open spec fn b2_index(quant: bool) -> int {
    if quant {
        7
    } else {
        5
    }
}

pub open spec fn fc3_index(quant: bool) -> int {
    if quant {
        8
    } else {
        6
    }
}

/// A separate gating projection is given.
pub open spec fn has_fc3(node: NodeV) -> bool {
    exists|i: int|
        fc3_index(is_quant(node)) <= i < node.input.len() && (#[trigger] node.input[i]).len() > 0
}

pub open spec fn activation_text(node: NodeV) -> Seq<char> {
    match context::last_attr(node.attribute, "activation_type"@) {
        Some(a) => text::utf8_lossy(a.s),
        None => "relu"@,
    }
}

/// What the lowering needs to know of a node besides its weights.
pub struct MoeV {
    pub quant: bool,
    pub k: i64,
    pub normalize: bool,
    pub activation: Activation,
    pub alpha: u32,
    pub beta: u32,
    pub limit: u32,
    pub bits: i64,
    pub block_size: i64,
    pub x_shape: Seq<i64>,
    pub dtype: DataType,
}

struct Moe {
    quant: bool,
    k: i64,
    normalize: bool,
    activation: Activation,
    alpha: u32,
    beta: u32,
    limit: u32,
    bits: i64,
    block_size: i64,
    x_shape: Vec<i64>,
    dtype: DataType,
}

impl View for Moe {
    type V = MoeV;

    closed spec fn view(&self) -> MoeV {
        MoeV {
            quant: self.quant,
            k: self.k,
            normalize: self.normalize,
            activation: self.activation,
            alpha: self.alpha,
            beta: self.beta,
            limit: self.limit,
            bits: self.bits,
            block_size: self.block_size,
            x_shape: self.x_shape@,
            dtype: self.dtype,
        }
    }
}

/// The parameters of a node, or the first thing that is wrong with it.
pub open spec fn moe_params(node: NodeV, name: Seq<char>, ctx: ContextV) -> Result<MoeV, ErrorV> {
    let quant = is_quant(node);
    let act = activation_text(node);
    let fusion = node.int_attr("swiglu_fusion"@, 0);
    let bits = node.int_attr("expert_weight_bits"@, 4);
    let block_size = node.int_attr("block_size"@, 0);
    if node.input.len() <= w2_index(quant) {
        Err(
            ErrorV::InvalidShape(
                node.op_type + " expects at least "@ + text::decimal(w2_index(quant) + 1)
                    + " inputs, got "@ + text::decimal(node.input.len() as int),
            ),
        )
    } else if has_fc3(node) {
        Err(error::unsupported(node.op_type + "(fc3)"@, name))
    } else if node.int_attr("use_sparse_mixer"@, 0) != 0 {
        Err(error::unsupported("MoE(use_sparse_mixer)"@, name))
    } else if act == "swiglu"@ && fusion != 1 {
        Err(
            error::unsupported(
                "MoE(swiglu_fusion="@ + text::decimal(fusion as int) + ")"@,
                name,
            ),
        )
    } else if activation_named(act) is None {
        Err(error::unsupported("MoE(activation="@ + act + ")"@, name))
    } else if ctx.shape(node.input[0]) is None {
        Err(
            ErrorV::InvalidShape(
                "MoE requires a static input shape for '"@ + node.input[0] + "'"@,
            ),
        )
    } else if quant && bits != 4 && bits != 8 {
        Err(
            error::unsupported(
                "QMoE(expert_weight_bits="@ + text::decimal(bits as int) + ")"@,
                name,
            ),
        )
    } else if quant && block_size <= 0 {
        Err(
            ErrorV::InvalidShape(
                "QMoE requires a positive block_size, got "@ + text::decimal(block_size as int),
            ),
        )
    } else {
        Ok(
            MoeV {
                quant,
                k: node.int_attr("k"@, 1),
                normalize: node.int_attr("normalize_routing_weights"@, 0) != 0,
                activation: activation_named(act)->0,
                alpha: node.float_attr("activation_alpha"@, floats::F32_ONE),
                beta: node.float_attr("activation_beta"@, 0),
                limit: node.float_attr("swiglu_limit"@, floats::F32_INFINITY),
                bits,
                block_size,
                x_shape: ctx.shape(node.input[0])->0,
                dtype: ctx.dtype(node.input[0]),
            },
        )
    }
}

fn find_fc3(node: &NodeProto, quant: bool) -> (r: bool)
    requires
        quant == is_quant(node@),
    ensures
        r == has_fc3(node@),
{
    let start: usize = if quant {
        8
    } else {
        6
    };
    let mut i: usize = start;
    while i < node.input.len()
        invariant
            start == fc3_index(is_quant(node@)),
            start <= i,
            forall|k: int|
                start <= k < i && k < node@.input.len() ==> (#[trigger] node@.input[k]).len() == 0,
        decreases node.input@.len() - i,
    {
        assert(node@.input[i as int] == node.input@[i as int]@);
        if !node.input[i].as_str().is_empty() {
            return true;
        }
        i = i + 1;
    }
    false
}

fn params(node: &NodeProto, name: &String, ctx: &ConversionContext) -> (r: Result<Moe, OnnxError>)
    ensures
        error::failed(r, |p: Moe| p@) == moe_params(node@, name@, ctx@),
{
    let quant: bool = text::str_eq(node.op_type.as_str(), "QMoE");
    let w2: usize = if quant {
        5
    } else {
        4
    };
    let count: usize = node.input.len();
    if count <= w2 {
        let mut m = node.op_type.clone();
        m.append(" expects at least ");
        let d = text::decimal_usize(w2 + 1);
        m.append(d.as_str());
        m.append(" inputs, got ");
        let d = text::decimal_usize(count);
        m.append(d.as_str());
        return Err(OnnxError::InvalidShape(m));
    }
    if find_fc3(node, quant) {
        return Err(
            OnnxError::unsupported_op(label_with(&node.op_type, "(fc3)"), name.clone()),
        );
    }
    let k: i64 = node.int_attr("k", 1);
    let normalize: i64 = node.int_attr("normalize_routing_weights", 0);
    let use_sparse_mixer: i64 = node.int_attr("use_sparse_mixer", 0);
    let swiglu_fusion: i64 = node.int_attr("swiglu_fusion", 0);
    let activation: String = match node.find_last_attr("activation_type") {
        Some(a) => text::from_utf8_lossy(&a.s),
        None => String::from_str("relu"),
    };
    let alpha: u32 = node.float_attr("activation_alpha", floats::F32_ONE);
    let beta: u32 = node.float_attr("activation_beta", 0);
    let limit: u32 = node.float_attr("swiglu_limit", floats::F32_INFINITY);
    let bits: i64 = node.int_attr("expert_weight_bits", 4);
    let block_size: i64 = node.int_attr("block_size", 0);
    if use_sparse_mixer != 0 {
        return Err(
            OnnxError::unsupported_op(String::from_str("MoE(use_sparse_mixer)"), name.clone()),
        );
    }
    if text::str_eq(activation.as_str(), "swiglu") && swiglu_fusion != 1 {
        let mut m = String::from_str("MoE(swiglu_fusion=");
        let d = text::decimal_i64(swiglu_fusion);
        m.append(d.as_str());
        m.append(")");
        return Err(OnnxError::unsupported_op(m, name.clone()));
    }
    let kind: Activation = match find_activation(&activation) {
        Some(a) => a,
        None => {
            let mut m = String::from_str("MoE(activation=");
            m.append(activation.as_str());
            m.append(")");
            return Err(OnnxError::unsupported_op(m, name.clone()));
        },
    };
    assert(node@.input[0] == node.input@[0]@);
    let x_shape = match ctx.resolve_shape(&node.input[0]) {
        Some(s) => s,
        None => {
            let mut m = String::from_str("MoE requires a static input shape for '");
            m.append(node.input[0].as_str());
            m.append("'");
            return Err(OnnxError::InvalidShape(m));
        },
    };
    if quant && bits != 4 && bits != 8 {
        let mut m = String::from_str("QMoE(expert_weight_bits=");
        let d = text::decimal_i64(bits);
        m.append(d.as_str());
        m.append(")");
        return Err(OnnxError::unsupported_op(m, name.clone()));
    }
    if quant && block_size <= 0 {
        let mut m = String::from_str("QMoE requires a positive block_size, got ");
        let d = text::decimal_i64(block_size);
        m.append(d.as_str());
        return Err(OnnxError::InvalidShape(m));
    }
    let shape: Vec<i64> = x_shape.clone();
    assert(shape@ =~= x_shape@);
    Ok(
        Moe {
            quant,
            k,
            normalize: normalize != 0,
            activation: kind,
            alpha,
            beta,
            limit,
            bits,
            block_size,
            x_shape: shape,
            dtype: ctx.value_type(&node.input[0]),
        },
    )
}

// ---------------------------------------------------------------------------
// Weights and their shapes
// ---------------------------------------------------------------------------

/// The name and shape of one of the two weight tensors.
pub open spec fn weight_source(
    ops: Seq<OpV>,
    node: NodeV,
    ctx: ContextV,
    p: MoeV,
    index: int,
    which: Seq<char>,
    name: Seq<char>,
) -> WeightsOutcome {
    if p.quant {
        expert_weights(
            ops,
            ctx,
            node.input[index],
            node.input[index + 1],
            p.block_size,
            p.bits,
            p.dtype,
            node.label(name) + "__"@ + which + "_deq"@,
        )
    } else {
        match ctx.shape(node.input[index]) {
            None => weights_failed(
                ops,
                ErrorV::InvalidShape(
                    "MoE requires a static "@ + which + " weight shape for '"@ + node.input[index]
                        + "'"@,
                ),
            ),
            Some(s) => WeightsOutcome { ops, result: Ok((node.input[index], s)) },
        }
    }
}

/// Whether there is a weight tensor does not depend on the steps before it.
proof fn lemma_source_result(
    a: Seq<OpV>,
    b: Seq<OpV>,
    node: NodeV,
    ctx: ContextV,
    p: MoeV,
    index: int,
    which: Seq<char>,
    name: Seq<char>,
)
    ensures
        weight_source(a, node, ctx, p, index, which, name).result == weight_source(
            b,
            node,
            ctx,
            p,
            index,
            which,
            name,
        ).result,
{
}

fn find_weights(
    b: &mut OnnxBuilder,
    node: &NodeProto,
    ctx: &ConversionContext,
    p: &Moe,
    index: usize,
    which: &str,
    name: &String,
) -> (r: Result<(String, Vec<i64>), OnnxError>)
    requires
        index < node.input@.len(),
        p@.quant ==> index + 1 < node.input@.len() && p@.block_size > 0 && (p@.bits == 4 || p@.bits
            == 8) && quant_in_range(
            ctx@,
            node@.input[index as int],
            node@.input[index + 1],
            p@.block_size,
            p@.bits,
        ),
    ensures
        weights_outcome(final(b)@, r) == weight_source(
            old(b)@,
            node@,
            ctx@,
            p@,
            index as int,
            which@,
            name@,
        ),
{
    let count: usize = node.input.len();
    assert(node@.input[index as int] == node.input@[index as int]@);
    if p.quant {
        assert(index + 1 < count);
        assert(node@.input[index + 1] == node.input@[index + 1]@);
        let mut const_name = node.output_label(name);
        const_name.append("__");
        const_name.append(which);
        const_name.append("_deq");
        dequantize_expert_weights(
            b,
            ctx,
            &node.input[index],
            &node.input[index + 1],
            p.block_size,
            p.bits,
            p.dtype,
            &const_name,
        )
    } else {
        match ctx.resolve_shape(&node.input[index]) {
            Some(s) => {
                let shape: Vec<i64> = s.clone();
                assert(shape@ =~= s@);
                Ok((node.input[index].clone(), shape))
            },
            None => {
                let mut m = String::from_str("MoE requires a static ");
                m.append(which);
                m.append(" weight shape for '");
                m.append(node.input[index].as_str());
                m.append("'");
                Err(OnnxError::InvalidShape(m))
            },
        }
    }
}

/// The sizes that the shapes of X and the weights agree on.
pub struct GeometryV {
    pub rows: i64,
    pub hidden: i64,
    pub experts: i64,
    pub fc1_out: i64,
    pub inter: i64,
}

pub open spec fn shape_list(s: Seq<i64>) -> Seq<char> {
    text::list_text(text::ints(s))
}

pub open spec fn geometry(x: Seq<i64>, w1: Seq<i64>, w2: Seq<i64>, act: Activation) -> Result<
    GeometryV,
    ErrorV,
> {
    if x.len() == 0 || w1.len() != 3 || w2.len() != 3 {
        Err(
            ErrorV::InvalidShape(
                "MoE expects input [.., hidden], fc1 [E,fc1_out,hidden], fc2 [E,hidden,inter], got x="@
                    + shape_list(x) + " fc1="@ + shape_list(w1) + " fc2="@ + shape_list(w2),
            ),
        )
    } else if w1[2] != x.last() || w2[0] != w1[0] || w2[1] != x.last() {
        Err(
            ErrorV::InvalidShape(
                "MoE weight shapes inconsistent with hidden="@ + text::decimal(x.last() as int)
                    + ": fc1="@ + shape_list(w1) + " fc2="@ + shape_list(w2),
            ),
        )
    } else if act == Activation::Swiglu && w1[1] != 2 * w2[2] {
        Err(
            ErrorV::InvalidShape(
                "MoE fused swiglu expects fc1 rows = 2*inter ("@ + text::decimal(2 * w2[2])
                    + "), got "@ + text::decimal(w1[1] as int),
            ),
        )
    } else {
        Ok(
            GeometryV {
                rows: arith::product(x.drop_last()) as i64,
                hidden: x.last(),
                experts: w1[0],
                fc1_out: w1[1],
                inter: w2[2],
            },
        )
    }
}

/// The products of the shapes stay in range, and there is an expert.
pub open spec fn geometry_in_range(
    x: Seq<i64>,
    w1: Seq<i64>,
    w2: Seq<i64>,
    act: Activation,
) -> bool {
    x.len() > 0 && w1.len() == 3 && w2.len() == 3 ==> {
        &&& arith::product_fits(x.drop_last())
        &&& w1[2] == x.last() && w2[0] == w1[0] && w2[1] == x.last() ==> {
            &&& act == Activation::Swiglu ==> arith::fits_i64(2 * w2[2])
            &&& geometry(x, w1, w2, act) is Ok ==> w1[0] >= 1
        }
    }
}

struct Geometry {
    rows: i64,
    hidden: i64,
    experts: i64,
    fc1_out: i64,
    inter: i64,
}

impl View for Geometry {
    type V = GeometryV;

    closed spec fn view(&self) -> GeometryV {
        GeometryV {
            rows: self.rows,
            hidden: self.hidden,
            experts: self.experts,
            fc1_out: self.fc1_out,
            inter: self.inter,
        }
    }
}

fn find_geometry(x: &Vec<i64>, w1: &Vec<i64>, w2: &Vec<i64>, act: Activation) -> (r: Result<
    Geometry,
    OnnxError,
>)
    requires
        geometry_in_range(x@, w1@, w2@, act),
    ensures
        error::failed(r, |g: Geometry| g@) == geometry(x@, w1@, w2@, act),
{
    if x.len() == 0 || w1.len() != 3 || w2.len() != 3 {
        let mut m = String::from_str(
            "MoE expects input [.., hidden], fc1 [E,fc1_out,hidden], fc2 [E,hidden,inter], got x=",
        );
        let d = text::list_i64(x);
        m.append(d.as_str());
        m.append(" fc1=");
        let d = text::list_i64(w1);
        m.append(d.as_str());
        m.append(" fc2=");
        let d = text::list_i64(w2);
        m.append(d.as_str());
        return Err(OnnxError::InvalidShape(m));
    }
    let hidden: i64 = x[x.len() - 1];
    let mut front: Vec<i64> = x.clone();
    assert(front@ =~= x@);
    front.truncate(x.len() - 1);
    assert(front@ =~= x@.drop_last());
    let rows: i64 = match arith::checked_product(&front) {
        Some(p) => p,
        None => 0,
    };
    if w1[2] != hidden || w2[0] != w1[0] || w2[1] != hidden {
        let mut m = String::from_str("MoE weight shapes inconsistent with hidden=");
        let d = text::decimal_i64(hidden);
        m.append(d.as_str());
        m.append(": fc1=");
        let d = text::list_i64(w1);
        m.append(d.as_str());
        m.append(" fc2=");
        let d = text::list_i64(w2);
        m.append(d.as_str());
        return Err(OnnxError::InvalidShape(m));
    }
    let inter: i64 = w2[2];
    if let Activation::Swiglu = act {
        if w1[1] != 2 * inter {
            let mut m = String::from_str("MoE fused swiglu expects fc1 rows = 2*inter (");
            let d = text::decimal_i64(2 * inter);
            m.append(d.as_str());
            m.append("), got ");
            let d = text::decimal_i64(w1[1]);
            m.append(d.as_str());
            return Err(OnnxError::InvalidShape(m));
        }
    }
    Ok(Geometry { rows, hidden, experts: w1[0], fc1_out: w1[1], inter })
}

// ---------------------------------------------------------------------------
// Routing
// ---------------------------------------------------------------------------

/// A large finite number (float32 pattern) that the type can hold.
pub open spec fn big_value(dtype: DataType) -> u32 {
    if dtype == DataType::Float16 {
        0x476a_6000
    } else {
        0x7f61_b1e6
    }
}

pub open spec fn top_label(label: Seq<char>, i: int, tag: Seq<char>) -> Seq<char> {
    label + "_top"@ + text::decimal(i) + tag
}

fn top_label_of(label: &String, i: i64, tag: &str) -> (r: String)
    ensures
        r@ == top_label(label@, i as int, tag@),
{
    let mut s = label.clone();
    s.append("_top");
    let d = text::decimal_i64(i);
    s.append(d.as_str());
    s.append(tag);
    s
}

/// Where the peeling of the largest logits stands: the steps, the logits that
/// are left, and the mask of those already taken.
pub struct PeelV {
    pub ops: Seq<OpV>,
    pub work: OperandV,
    pub selected: Option<OperandV>,
}

/// One round: mask the largest remaining logit of each row, add it to the
/// selection and, unless it is the last round, push it below all others.
pub open spec fn peel_once(
    s: PeelV,
    i: int,
    k: int,
    dtype: DataType,
    big: OperandV,
    label: Seq<char>,
) -> PeelV {
    let o1 = s.ops.push(
        OpV::Reduce {
            op: ReduceOp::Max,
            input: s.work,
            axes: seq![1],
            keep_dimensions: true,
            label: top_label(label, i, "_max"@),
        },
    );
    let o2 = o1.push(
        ops::binary_op(
            BinaryOp::Equal,
            s.work,
            builder::last_operand(o1),
            top_label(label, i, "_eq"@),
        ),
    );
    let o3 = o2.push(
        OpV::Cast {
            input: builder::last_operand(o2),
            dtype: ops::float_type(dtype),
            label: top_label(label, i, "_mask"@),
        },
    );
    let is_max = builder::last_operand(o3);
    let o4 = match s.selected {
        None => o3,
        Some(acc) => o3.push(
            ops::binary_op(BinaryOp::Add, acc, is_max, top_label(label, i, "_acc"@)),
        ),
    };
    let selected = Some(builder::last_operand(o4));
    if i + 1 < k {
        let o5 = o4.push(
            ops::binary_op(BinaryOp::Mul, is_max, big, top_label(label, i, "_penalty"@)),
        );
        let o6 = o5.push(
            ops::binary_op(
                BinaryOp::Sub,
                s.work,
                builder::last_operand(o5),
                top_label(label, i, "_next"@),
            ),
        );
        PeelV { ops: o6, work: builder::last_operand(o6), selected }
    } else {
        PeelV { ops: o4, work: s.work, selected }
    }
}

/// Rounds `i..k`.
pub open spec fn peel(
    s: PeelV,
    i: int,
    k: int,
    dtype: DataType,
    big: OperandV,
    label: Seq<char>,
) -> PeelV
    decreases k - i,
{
    if i >= k {
        s
    } else {
        peel(peel_once(s, i, k, dtype, big, label), i + 1, k, dtype, big, label)
    }
}

/// The number of experts taken per row.
pub open spec fn taken(k: i64, experts: i64) -> i64 {
    if k < 1 {
        1
    } else if k > experts {
        experts
    } else {
        k
    }
}

/// Routing weights `[R, E]`.
pub open spec fn routing(
    ops: Seq<OpV>,
    logits_in: OperandV,
    p: MoeV,
    g: GeometryV,
    label: Seq<char>,
) -> Part {
    let k = taken(p.k, g.experts);
    let o0 = if p.x_shape.len() != 2 {
        ops.push(
            OpV::Reshape {
                input: logits_in,
                shape: seq![g.rows, g.experts],
                label: label + "_logits2d"@,
            },
        )
    } else {
        ops
    };
    let logits = if p.x_shape.len() != 2 {
        builder::last_operand(o0)
    } else {
        logits_in
    };
    if k >= g.experts {
        let o1 = o0.push(OpV::Softmax { input: logits, axis: 1, label: label + "_probs"@ });
        Part { ops: o1, operand: builder::last_operand(o1) }
    } else {
        let o1 = ops::scalar_steps(o0, label + "__big"@, p.dtype, big_value(p.dtype));
        let big = builder::last_operand(o1);
        let top = peel(
            PeelV { ops: o1, work: logits, selected: None },
            0,
            k as int,
            p.dtype,
            big,
            label,
        );
        let selected = top.selected->0;
        if p.normalize {
            let o2 = ops::scalar_steps(top.ops, label + "__one"@, p.dtype, floats::F32_ONE);
            let o3 = o2.push(
                ops::binary_op(
                    BinaryOp::Sub,
                    builder::last_operand(o2),
                    selected,
                    label + "_unselected"@,
                ),
            );
            let o4 = o3.push(
                ops::binary_op(
                    BinaryOp::Mul,
                    builder::last_operand(o3),
                    big,
                    label + "_mask_penalty"@,
                ),
            );
            let o5 = o4.push(
                ops::binary_op(
                    BinaryOp::Sub,
                    logits,
                    builder::last_operand(o4),
                    label + "_masked_logits"@,
                ),
            );
            let o6 = o5.push(
                OpV::Softmax {
                    input: builder::last_operand(o5),
                    axis: 1,
                    label: label + "_probs"@,
                },
            );
            Part { ops: o6, operand: builder::last_operand(o6) }
        } else {
            let o2 = top.ops.push(
                OpV::Softmax { input: logits, axis: 1, label: label + "_softmax"@ },
            );
            let o3 = o2.push(
                ops::binary_op(
                    BinaryOp::Mul,
                    builder::last_operand(o2),
                    selected,
                    label + "_probs"@,
                ),
            );
            Part { ops: o3, operand: builder::last_operand(o3) }
        }
    }
}

fn peel_top(
    b: &mut OnnxBuilder,
    logits: Operand,
    k: i64,
    dtype: DataType,
    big: Operand,
    label: &String,
) -> (r: Operand)
    requires
        k >= 1,
    ensures
        ({
            let top = peel(
                PeelV { ops: old(b)@, work: logits@, selected: None },
                0,
                k as int,
                dtype,
                big@,
                label@,
            );
            &&& final(b)@ == top.ops
            &&& top.selected == Some(r@)
        }),
{
    let mut work: Operand = logits;
    let mut selected: Option<Operand> = None;
    let mut i: i64 = 0;
    let ghost goal = peel(
        PeelV { ops: old(b)@, work: logits@, selected: None },
        0,
        k as int,
        dtype,
        big@,
        label@,
    );
    while i < k
        invariant
            0 <= i <= k,
            i > 0 ==> selected is Some,
            goal == peel(
                PeelV { ops: b@, work: work@, selected: builder::operand_opt(selected) },
                i as int,
                k as int,
                dtype,
                big@,
                label@,
            ),
        decreases k - i,
    {
        let ghost before = PeelV {
            ops: b@,
            work: work@,
            selected: builder::operand_opt(selected),
        };
        let row_max = b.reduce(
            ReduceOp::Max,
            work,
            list1(1),
            true,
            top_label_of(label, i, "_max"),
        );
        let is_max_bool = b.binary(BinaryOp::Equal, work, row_max, top_label_of(label, i, "_eq"));
        let is_max = b.cast(
            is_max_bool,
            ops::float_type_of(dtype),
            top_label_of(label, i, "_mask"),
        );
        let chosen: Operand = match selected {
            None => is_max,
            Some(acc) => b.binary(BinaryOp::Add, acc, is_max, top_label_of(label, i, "_acc")),
        };
        selected = Some(chosen);
        if i + 1 < k {
            let penalty = b.binary(
                BinaryOp::Mul,
                is_max,
                big,
                top_label_of(label, i, "_penalty"),
            );
            work = b.binary(BinaryOp::Sub, work, penalty, top_label_of(label, i, "_next"));
        }
        assert(peel_once(before, i as int, k as int, dtype, big@, label@) == (PeelV {
            ops: b@,
            work: work@,
            selected: builder::operand_opt(selected),
        }));
        i = i + 1;
    }
    selected.unwrap()
}

fn route(b: &mut OnnxBuilder, logits_in: Operand, p: &Moe, g: &Geometry, label: &String) -> (r:
    Operand)
    requires
        g@.experts >= 1,
    ensures
        final(b)@ == routing(old(b)@, logits_in@, p@, g@, label@).ops,
        r@ == routing(old(b)@, logits_in@, p@, g@, label@).operand,
{
    let k: i64 = if p.k < 1 {
        1
    } else if p.k > g.experts {
        g.experts
    } else {
        p.k
    };
    let big: u32 = match p.dtype {
        DataType::Float16 => 0x476a_6000,
        _ => 0x7f61_b1e6,
    };
    let logits: Operand = if p.x_shape.len() != 2 {
        b.reshape(logits_in, list2(g.rows, g.experts), label_with(label, "_logits2d"))
    } else {
        logits_in
    };
    if k >= g.experts {
        return b.softmax(logits, 1, label_with(label, "_probs"));
    }
    let big_name = label_with(label, "__big");
    let big_c = ops::scalar_const(b, &big_name, p.dtype, big);
    let selected = peel_top(b, logits, k, p.dtype, big_c, label);
    if p.normalize {
        let one_name = label_with(label, "__one");
        let one = ops::scalar_const(b, &one_name, p.dtype, floats::F32_ONE);
        let unselected = b.binary(BinaryOp::Sub, one, selected, label_with(label, "_unselected"));
        let penalty = b.binary(
            BinaryOp::Mul,
            unselected,
            big_c,
            label_with(label, "_mask_penalty"),
        );
        let masked = b.binary(
            BinaryOp::Sub,
            logits,
            penalty,
            label_with(label, "_masked_logits"),
        );
        b.softmax(masked, 1, label_with(label, "_probs"))
    } else {
        let probs = b.softmax(logits, 1, label_with(label, "_softmax"));
        b.binary(BinaryOp::Mul, probs, selected, label_with(label, "_probs"))
    }
}

// ---------------------------------------------------------------------------
// Experts
// ---------------------------------------------------------------------------

/// `x @ w^T` for every expert, plus the bias where there is one. Weights are
/// `[E, out, in]`.
pub open spec fn expert_matmul(
    ops: Seq<OpV>,
    x: OperandV,
    w_name: Seq<char>,
    bias: Option<Seq<char>>,
    experts: i64,
    out_cols: i64,
    label: Seq<char>,
) -> Seq<OpV> {
    let o1 = ops::resolved(ops, w_name);
    let o2 = o1.push(
        OpV::Transpose {
            input: builder::last_operand(o1),
            permutation: seq![0, 2, 1],
            label: label + "_wt"@,
        },
    );
    let o3 = o2.push(
        ops::binary_op(BinaryOp::Matmul, x, builder::last_operand(o2), label + "_matmul"@),
    );
    match bias {
        None => o3,
        Some(n) => {
            let o4 = ops::resolved(o3, n);
            let o5 = o4.push(
                OpV::Reshape {
                    input: builder::last_operand(o4),
                    shape: seq![experts, 1, out_cols],
                    label: label + "_bias3d"@,
                },
            );
            o5.push(
                ops::binary_op(
                    BinaryOp::Add,
                    builder::last_operand(o3),
                    builder::last_operand(o5),
                    label + "_biased"@,
                ),
            )
        },
    }
}

fn multiply_experts(
    b: &mut OnnxBuilder,
    x: Operand,
    w_name: &String,
    bias: Option<&String>,
    experts: i64,
    out_cols: i64,
    label: String,
) -> (r: Operand)
    ensures
        final(b)@ == expert_matmul(
            old(b)@,
            x@,
            w_name@,
            match bias {
                Some(n) => Some(n@),
                None => None,
            },
            experts,
            out_cols,
            label@,
        ),
        r@ == builder::last_operand(final(b)@),
{
    let w = b.resolve(w_name);
    let w_t = b.transpose(w, list3(0, 2, 1), label_with(&label, "_wt"));
    let y = b.binary(BinaryOp::Matmul, x, w_t, label_with(&label, "_matmul"));
    match bias {
        None => y,
        Some(n) => {
            let bias_in = b.resolve(n);
            let bias_3d = b.reshape(
                bias_in,
                list3(experts, 1, out_cols),
                label_with(&label, "_bias3d"),
            );
            b.binary(BinaryOp::Add, y, bias_3d, label_with(&label, "_biased"))
        },
    }
}

/// One column of the pairs `[E, R, inter, 2]`, as `[E, R, inter]`.
pub open spec fn pair_column(
    ops: Seq<OpV>,
    pairs: OperandV,
    g: GeometryV,
    index: u32,
    label: Seq<char>,
) -> Seq<OpV> {
    let o1 = ops.push(
        OpV::Slice {
            input: pairs,
            starts: seq![0, 0, 0, index],
            sizes: seq![g.experts, g.rows, g.inter, 1],
            strides: seq![],
            label: label + "_slice"@,
        },
    );
    o1.push(
        OpV::Reshape {
            input: builder::last_operand(o1),
            shape: seq![g.experts, g.rows, g.inter],
            label,
        },
    )
}

fn take_column(b: &mut OnnxBuilder, pairs: Operand, g: &Geometry, index: u32, label: String) -> (r:
    Operand)
    ensures
        final(b)@ == pair_column(old(b)@, pairs@, g@, index, label@),
        r@ == builder::last_operand(final(b)@),
{
    let sliced = b.slice(
        pairs,
        list4(0, 0, 0, index),
        list4(g.experts, g.rows, g.inter, 1),
        Vec::new(),
        label_with(&label, "_slice"),
    );
    b.reshape(sliced, list3(g.experts, g.rows, g.inter), label)
}

/// A bound of a clamp: the pattern, where it is finite.
pub open spec fn finite_limit(limit: u32, bound: u32) -> Option<u32> {
    if floats::is_finite(limit) {
        Some(bound)
    } else {
        None
    }
}

/// Fused interleaved SwiGLU.
pub open spec fn swiglu_steps(
    ops: Seq<OpV>,
    fc1: OperandV,
    p: MoeV,
    g: GeometryV,
    label: Seq<char>,
) -> Seq<OpV> {
    let o1 = ops.push(
        OpV::Reshape {
            input: fc1,
            shape: seq![g.experts, g.rows, g.inter, 2],
            label: label + "_pairs"@,
        },
    );
    let pairs = builder::last_operand(o1);
    let o2 = pair_column(o1, pairs, g, 0, label + "_gate"@);
    let o3 = pair_column(o2, pairs, g, 1, label + "_linear"@);
    let o4 = o3.push(
        OpV::Clamp {
            input: builder::last_operand(o2),
            min: None,
            max: finite_limit(p.limit, p.limit),
            label: label + "_gate_clamp"@,
        },
    );
    let gate = builder::last_operand(o4);
    let o5 = o4.push(
        OpV::Clamp {
            input: builder::last_operand(o3),
            min: finite_limit(p.limit, floats::negated(p.limit)),
            max: finite_limit(p.limit, p.limit),
            label: label + "_linear_clamp"@,
        },
    );
    let linear = builder::last_operand(o5);
    let o6 = ops::scalar_steps(o5, label + "__alpha"@, p.dtype, p.alpha);
    let o7 = ops::scalar_steps(o6, label + "__beta"@, p.dtype, p.beta);
    let o8 = o7.push(
        ops::binary_op(BinaryOp::Mul, gate, builder::last_operand(o6), label + "_gate_alpha"@),
    );
    let o9 = o8.push(
        OpV::Unary {
            op: UnaryOp::Sigmoid,
            input: builder::last_operand(o8),
            label: label + "_gate_sig"@,
        },
    );
    let o10 = o9.push(
        ops::binary_op(BinaryOp::Mul, gate, builder::last_operand(o9), label + "_gate_silu"@),
    );
    let o11 = o10.push(
        ops::binary_op(
            BinaryOp::Add,
            linear,
            builder::last_operand(o7),
            label + "_linear_beta"@,
        ),
    );
    o11.push(
        ops::binary_op(
            BinaryOp::Mul,
            builder::last_operand(o10),
            builder::last_operand(o11),
            label + "_swiglu"@,
        ),
    )
}

/// The first matmul's result, activated.
pub open spec fn activation_steps(
    ops: Seq<OpV>,
    fc1: OperandV,
    p: MoeV,
    g: GeometryV,
    label: Seq<char>,
) -> Seq<OpV> {
    match p.activation {
        Activation::Swiglu => swiglu_steps(ops, fc1, p, g, label),
        Activation::Relu => ops.push(
            OpV::Unary { op: UnaryOp::Relu, input: fc1, label: label + "_act"@ },
        ),
        Activation::Gelu => ops.push(
            OpV::Unary { op: UnaryOp::Gelu, input: fc1, label: label + "_act"@ },
        ),
        Activation::Sigmoid => ops.push(
            OpV::Unary { op: UnaryOp::Sigmoid, input: fc1, label: label + "_act"@ },
        ),
    }
}

fn swiglu(b: &mut OnnxBuilder, fc1: Operand, p: &Moe, g: &Geometry, label: &String) -> (r: Operand)
    ensures
        final(b)@ == swiglu_steps(old(b)@, fc1@, p@, g@, label@),
        r@ == builder::last_operand(final(b)@),
{
    let pairs = b.reshape(
        fc1,
        list4(g.experts, g.rows, g.inter, 2),
        label_with(label, "_pairs"),
    );
    let gate = take_column(b, pairs, g, 0, label_with(label, "_gate"));
    let linear = take_column(b, pairs, g, 1, label_with(label, "_linear"));
    let finite: bool = floats::f32_is_finite(p.limit);
    let gate = b.push(
        BuilderOp::Clamp {
            input: gate,
            min: None,
            max: if finite {
                Some(p.limit)
            } else {
                None
            },
            label: label_with(label, "_gate_clamp"),
        },
    );
    let linear = b.push(
        BuilderOp::Clamp {
            input: linear,
            min: if finite {
                Some(floats::f32_negate(p.limit))
            } else {
                None
            },
            max: if finite {
                Some(p.limit)
            } else {
                None
            },
            label: label_with(label, "_linear_clamp"),
        },
    );
    let alpha_name = label_with(label, "__alpha");
    let alpha_c = ops::scalar_const(b, &alpha_name, p.dtype, p.alpha);
    let beta_name = label_with(label, "__beta");
    let beta_c = ops::scalar_const(b, &beta_name, p.dtype, p.beta);
    let gated = b.binary(BinaryOp::Mul, gate, alpha_c, label_with(label, "_gate_alpha"));
    let sig = b.unary(UnaryOp::Sigmoid, gated, label_with(label, "_gate_sig"));
    let silu = b.binary(BinaryOp::Mul, gate, sig, label_with(label, "_gate_silu"));
    let lin_beta = b.binary(BinaryOp::Add, linear, beta_c, label_with(label, "_linear_beta"));
    b.binary(BinaryOp::Mul, silu, lin_beta, label_with(label, "_swiglu"))
}

fn activate(b: &mut OnnxBuilder, fc1: Operand, p: &Moe, g: &Geometry, label: &String) -> (r:
    Operand)
    ensures
        final(b)@ == activation_steps(old(b)@, fc1@, p@, g@, label@),
        r@ == builder::last_operand(final(b)@),
{
    match p.activation {
        Activation::Swiglu => swiglu(b, fc1, p, g, label),
        Activation::Relu => b.unary(UnaryOp::Relu, fc1, label_with(label, "_act")),
        Activation::Gelu => b.unary(UnaryOp::Gelu, fc1, label_with(label, "_act")),
        Activation::Sigmoid => b.unary(UnaryOp::Sigmoid, fc1, label_with(label, "_act")),
    }
}

/// X for every expert, `[E, R, H]`.
pub open spec fn spread_steps(
    ops: Seq<OpV>,
    x_in: OperandV,
    p: MoeV,
    g: GeometryV,
    label: Seq<char>,
) -> Seq<OpV> {
    let o1 = if p.x_shape.len() != 2 {
        ops.push(
            OpV::Reshape { input: x_in, shape: seq![g.rows, g.hidden], label: label + "_x2d"@ },
        )
    } else {
        ops
    };
    let x2d = if p.x_shape.len() != 2 {
        builder::last_operand(o1)
    } else {
        x_in
    };
    let o2 = o1.push(
        OpV::Reshape { input: x2d, shape: seq![1, g.rows, g.hidden], label: label + "_x3d"@ },
    );
    o2.push(
        OpV::Expand {
            input: builder::last_operand(o2),
            shape: seq![g.experts, g.rows, g.hidden],
            label: label + "_x_e"@,
        },
    )
}

/// The results of all experts blended with the routing weights, in the shape
/// of X.
pub open spec fn blend(
    ops: Seq<OpV>,
    weights: OperandV,
    expert_out: OperandV,
    p: MoeV,
    g: GeometryV,
    label: Seq<char>,
) -> Seq<OpV> {
    let o1 = ops.push(
        OpV::Transpose {
            input: weights,
            permutation: seq![1, 0],
            label: label + "_weights_er"@,
        },
    );
    let o2 = o1.push(
        OpV::Reshape {
            input: builder::last_operand(o1),
            shape: seq![g.experts, g.rows, 1],
            label: label + "_weights_er1"@,
        },
    );
    let o3 = o2.push(
        ops::binary_op(
            BinaryOp::Mul,
            expert_out,
            builder::last_operand(o2),
            label + "_weighted"@,
        ),
    );
    let o4 = o3.push(
        OpV::Reduce {
            op: ReduceOp::Sum,
            input: builder::last_operand(o3),
            axes: seq![0],
            keep_dimensions: false,
            label: label + "_sum"@,
        },
    );
    if p.x_shape.len() != 2 {
        o4.push(
            OpV::Reshape {
                input: builder::last_operand(o4),
                shape: p.x_shape,
                label: label + "_out"@,
            },
        )
    } else {
        o4
    }
}

/// Everything behind the weights.
pub open spec fn moe_steps(
    ops: Seq<OpV>,
    node: NodeV,
    p: MoeV,
    g: GeometryV,
    w1: Seq<char>,
    w2: Seq<char>,
    label: Seq<char>,
) -> Seq<OpV> {
    let o1 = ops::resolved(ops, node.input[0]);
    let o2 = ops::resolved(o1, node.input[1]);
    let routed = routing(o2, builder::last_operand(o2), p, g, label);
    let o3 = spread_steps(routed.ops, builder::last_operand(o1), p, g, label);
    let o4 = expert_matmul(
        o3,
        builder::last_operand(o3),
        w1,
        node.input_at(b1_index(p.quant)),
        g.experts,
        g.fc1_out,
        label + "_fc1"@,
    );
    let o5 = activation_steps(o4, builder::last_operand(o4), p, g, label);
    let o6 = expert_matmul(
        o5,
        builder::last_operand(o5),
        w2,
        node.input_at(b2_index(p.quant)),
        g.experts,
        g.hidden,
        label + "_fc2"@,
    );
    let o7 = blend(o6, routed.operand, builder::last_operand(o6), p, g, label);
    ops::recorded_or_named(o7, node.output_at(0), label, builder::last_operand(o7))
}

/// The lowering of a `MoE` or `QMoE` node.
pub open spec fn moe_outcome(
    node: NodeV,
    name: Seq<char>,
    ctx: ContextV,
    ops: Seq<OpV>,
) -> NodeOutcome {
    match moe_params(node, name, ctx) {
        Err(e) => ops::node_failed(ops, e),
        Ok(p) => {
            let first = weight_source(ops, node, ctx, p, 2, "fc1"@, name);
            match first.result {
                Err(e) => ops::node_failed(first.ops, e),
                Ok((w1, s1)) => {
                    let second = weight_source(
                        first.ops,
                        node,
                        ctx,
                        p,
                        w2_index(p.quant),
                        "fc2"@,
                        name,
                    );
                    match second.result {
                        Err(e) => ops::node_failed(second.ops, e),
                        Ok((w2, s2)) => match geometry(p.x_shape, s1, s2, p.activation) {
                            Err(e) => ops::node_failed(second.ops, e),
                            Ok(g) => ops::node_done(
                                moe_steps(second.ops, node, p, g, w1, w2, node.label(name)),
                            ),
                        },
                    }
                },
            }
        },
    }
}

/// The arithmetic of the lowering stays in range, and a quantized node that
/// gets as far as its second weights has scales for them.
pub open spec fn moe_in_range(node: NodeV, name: Seq<char>, ctx: ContextV) -> bool {
    moe_params(node, name, ctx) matches Ok(p) ==> {
        let none = Seq::<OpV>::empty();
        &&& p.quant ==> quant_in_range(ctx, node.input[2], node.input[3], p.block_size, p.bits)
        &&& weight_source(none, node, ctx, p, 2, "fc1"@, name).result matches Ok(t1) ==> {
            &&& p.quant ==> node.input.len() > 6 && quant_in_range(
                ctx,
                node.input[5],
                node.input[6],
                p.block_size,
                p.bits,
            )
            &&& weight_source(
                none,
                node,
                ctx,
                p,
                w2_index(p.quant),
                "fc2"@,
                name,
            ).result matches Ok(t2) ==> geometry_in_range(p.x_shape, t1.1, t2.1, p.activation)
        }
    }
}

fn lower_experts(
    b: &mut OnnxBuilder,
    node: &NodeProto,
    p: &Moe,
    g: &Geometry,
    w1: &String,
    w2: &String,
    label: &String,
)
    requires
        node.input@.len() > 1,
        g@.experts >= 1,
    ensures
        final(b)@ == moe_steps(old(b)@, node@, p@, g@, w1@, w2@, label@),
{
    assert(node@.input[0] == node.input@[0]@);
    assert(node@.input[1] == node.input@[1]@);
    let x_in = b.resolve(&node.input[0]);
    let logits = b.resolve(&node.input[1]);
    let weights = route(b, logits, p, g, label);
    let x2d: Operand = if p.x_shape.len() != 2 {
        b.reshape(x_in, list2(g.rows, g.hidden), label_with(label, "_x2d"))
    } else {
        x_in
    };
    let x3d = b.reshape(x2d, list3(1, g.rows, g.hidden), label_with(label, "_x3d"));
    let x_e = b.expand(x3d, list3(g.experts, g.rows, g.hidden), label_with(label, "_x_e"));
    let b1: usize = if p.quant {
        4
    } else {
        3
    };
    let b2: usize = if p.quant {
        7
    } else {
        5
    };
    let fc1 = multiply_experts(
        b,
        x_e,
        w1,
        node.input_name(b1),
        g.experts,
        g.fc1_out,
        label_with(label, "_fc1"),
    );
    let activated = activate(b, fc1, p, g, label);
    let expert_out = multiply_experts(
        b,
        activated,
        w2,
        node.input_name(b2),
        g.experts,
        g.hidden,
        label_with(label, "_fc2"),
    );
    let ghost o6 = b@;
    let w_t = b.transpose(weights, list2(1, 0), label_with(label, "_weights_er"));
    let w_e = b.reshape(w_t, list3(g.experts, g.rows, 1), label_with(label, "_weights_er1"));
    let weighted = b.binary(BinaryOp::Mul, expert_out, w_e, label_with(label, "_weighted"));
    let summed = b.reduce(ReduceOp::Sum, weighted, list1(0), false, label_with(label, "_sum"));
    let out: Operand = if p.x_shape.len() != 2 {
        let shape: Vec<i64> = p.x_shape.clone();
        assert(shape@ =~= p.x_shape@);
        b.reshape(summed, shape, label_with(label, "_out"))
    } else {
        summed
    };
    assert(b@ == blend(o6, weights@, expert_out@, p@, g@, label@));
    ops::record_or_name(b, node.output_name(0), label.clone(), out);
}

/// Lower a `MoE` or `QMoE` node.
pub fn convert_moe(
    node: &NodeProto,
    node_name: &String,
    context: &ConversionContext,
    b: &mut OnnxBuilder,
) -> (r: Result<ConversionResult, OnnxError>)
    requires
        moe_in_range(node@, node_name@, context@),
    ensures
        ops::node_outcome(final(b)@, r) == moe_outcome(node@, node_name@, context@, old(b)@),
{
    let p = match params(node, node_name, context) {
        Ok(p) => p,
        Err(e) => return Err(e),
    };
    let ghost none = Seq::<OpV>::empty();
    let w2_idx: usize = if p.quant {
        5
    } else {
        4
    };
    proof {
        lemma_source_result(none, b@, node@, context@, p@, 2, "fc1"@, node_name@);
    }
    let (w1_name, w1_shape) = match find_weights(b, node, context, &p, 2, "fc1", node_name) {
        Ok(t) => t,
        Err(e) => return Err(e),
    };
    proof {
        lemma_source_result(none, b@, node@, context@, p@, w2_idx as int, "fc2"@, node_name@);
    }
    let (w2_name, w2_shape) = match find_weights(b, node, context, &p, w2_idx, "fc2", node_name) {
        Ok(t) => t,
        Err(e) => return Err(e),
    };
    let g = match find_geometry(&p.x_shape, &w1_shape, &w2_shape, p.activation) {
        Ok(g) => g,
        Err(e) => return Err(e),
    };
    let label = node.output_label(node_name);
    lower_experts(b, node, &p, &g, &w1_name, &w2_name, &label);
    Ok(ConversionResult::none())
}

// ---------------------------------------------------------------------------
// Range test and handler
// ---------------------------------------------------------------------------

fn quant_range(
    ctx: &ConversionContext,
    weight: &String,
    scales: &String,
    block_size: i64,
    bits: i64,
) -> (r: bool)
    requires
        block_size > 0,
        bits == 4 || bits == 8,
    ensures
        r == quant_in_range(ctx@, weight@, scales@, block_size, bits),
{
    let (w, s) = match quant_pair(ctx, weight, scales) {
        Ok(t) => t,
        Err(_) => return true,
    };
    let q = match quant_of(w, bits, block_size) {
        Some(q) => q,
        None => return false,
    };
    if s.dims[0] != q.experts || s.dims[1] != q.out_rows || s.dims[2] != q.blocks {
        return true;
    }
    if w.bytes().is_err() {
        return true;
    }
    if q.experts < 0 || q.out_rows < 0 || q.packed <= 0 {
        return false;
    }
    let rows: i64 = match q.experts.checked_mul(q.out_rows) {
        Some(n) => n,
        None => return false,
    };
    let cells: i128 = arith::wide_product(rows, q.in_cols);
    cells <= (isize::MAX as i128) / 4
}

fn geometry_range(x: &Vec<i64>, w1: &Vec<i64>, w2: &Vec<i64>, act: Activation) -> (r: bool)
    ensures
        r == geometry_in_range(x@, w1@, w2@, act),
{
    if x.len() == 0 || w1.len() != 3 || w2.len() != 3 {
        return true;
    }
    let mut front: Vec<i64> = x.clone();
    assert(front@ =~= x@);
    front.truncate(x.len() - 1);
    assert(front@ =~= x@.drop_last());
    if arith::checked_product(&front).is_none() {
        return false;
    }
    let hidden: i64 = x[x.len() - 1];
    if w1[2] != hidden || w2[0] != w1[0] || w2[1] != hidden {
        return true;
    }
    if let Activation::Swiglu = act {
        match w2[2].checked_mul(2) {
            None => return false,
            Some(t) => {
                if w1[1] != t {
                    return true;
                }
            },
        }
    }
    w1[0] >= 1
}

/// Whether [`convert_moe`] can be called on the node.
pub fn moe_range(node: &NodeProto, node_name: &String, context: &ConversionContext) -> (r: bool)
    ensures
        r == moe_in_range(node@, node_name@, context@),
{
    let p = match params(node, node_name, context) {
        Ok(p) => p,
        Err(_) => return true,
    };
    let count: usize = node.input.len();
    let w2_idx: usize = if p.quant {
        5
    } else {
        4
    };
    assert(forall|i: int|
        0 <= i < node.input@.len() ==> node@.input[i] == (#[trigger] node.input@[i])@);
    if p.quant && !quant_range(context, &node.input[2], &node.input[3], p.block_size, p.bits) {
        return false;
    }
    let mut first = OnnxBuilder::new();
    let w1_shape: Vec<i64> = match find_weights(
        &mut first,
        node,
        context,
        &p,
        2,
        "fc1",
        node_name,
    ) {
        Ok((_, s)) => s,
        Err(_) => return true,
    };
    if p.quant && (count <= 6 || !quant_range(
        context,
        &node.input[5],
        &node.input[6],
        p.block_size,
        p.bits,
    )) {
        return false;
    }
    let mut second = OnnxBuilder::new();
    let w2_shape: Vec<i64> = match find_weights(
        &mut second,
        node,
        context,
        &p,
        w2_idx,
        "fc2",
        node_name,
    ) {
        Ok((_, s)) => s,
        Err(_) => return true,
    };
    geometry_range(&p.x_shape, &w1_shape, &w2_shape, p.activation)
}

impl MoeHandler {
    pub fn supports(&self, op_type: &str) -> (r: bool)
        ensures
            r == (op_type@ == "MoE"@ || op_type@ == "QMoE"@),
    {
        text::str_eq(op_type, "MoE") || text::str_eq(op_type, "QMoE")
    }

    /// Whether [`Self::convert`] can be called on the node.
    pub fn in_range(&self, node: &NodeProto, context: &ConversionContext) -> (r: bool)
        ensures
            r == moe_in_range(node@, node@.display_name(), context@),
    {
        let node_name = node.display_name();
        moe_range(node, &node_name, context)
    }

    pub fn convert(&self, node: &NodeProto, context: &ConversionContext, b: &mut OnnxBuilder) -> (r:
        Result<ConversionResult, OnnxError>)
        requires
            moe_in_range(node@, node@.display_name(), context@),
        ensures
            ops::node_outcome(final(b)@, r) == moe_outcome(
                node@,
                node@.display_name(),
                context@,
                old(b)@,
            ),
    {
        let node_name = node.display_name();
        convert_moe(node, &node_name, context, b)
    }
}

} // verus!
