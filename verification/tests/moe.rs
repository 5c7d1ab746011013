use onnx2webnn::builder::{BinaryOp, BuilderOp, ConstData, OnnxBuilder, Operand, UnaryOp};
use onnx2webnn::context::{ConversionContext, InitTensor};
use onnx2webnn::error::OnnxError;
use onnx2webnn::floats::FloatBits;
use onnx2webnn::ops::moe::MoeHandler;
use onnx2webnn::protos::{AttributeProto, NodeProto, TYPE_FLOAT, TYPE_UINT8};
use onnx2webnn::types::DataType;

fn s(t: &str) -> String {
    t.to_string()
}

fn int_attr(name: &str, i: i64) -> AttributeProto {
    AttributeProto { name: s(name), i, ..Default::default() }
}

fn float_attr(name: &str, f: f32) -> AttributeProto {
    AttributeProto { name: s(name), f: f.to_bits(), f_text: f.to_string(), ..Default::default() }
}

fn text_attr(name: &str, t: &str) -> AttributeProto {
    AttributeProto { name: s(name), s: t.as_bytes().to_vec(), ..Default::default() }
}

fn node(op: &str, inputs: &[&str], attribute: Vec<AttributeProto>) -> NodeProto {
    NodeProto {
        op_type: s(op),
        name: s("moe"),
        input: inputs.iter().map(|t| s(t)).collect(),
        output: vec![s("y")],
        attribute,
        ..Default::default()
    }
}

fn context() -> ConversionContext {
    let mut c = ConversionContext::new();
    c.value_shapes.insert(s("x"), vec![5, 4]);
    c.value_shapes.insert(s("x3"), vec![1, 5, 4]);
    c.value_shapes.insert(s("w1"), vec![3, 6, 4]);
    c.value_shapes.insert(s("w2"), vec![3, 4, 6]);
    c.value_shapes.insert(s("w2_half"), vec![3, 4, 3]);
    c
}

fn at(step: usize) -> Operand {
    Operand { step, output: 0 }
}

fn labels(steps: &[BuilderOp]) -> Vec<String> {
    steps
        .iter()
        .map(|op| {
            let text = format!("{op:?}");
            let kind = text.split(' ').next().unwrap().to_string();
            let field = |key: &str| {
                text.find(key).map(|i| {
                    let rest = &text[i + key.len()..];
                    rest[..rest.find('"').unwrap()].to_string()
                })
            };
            let tag = field("label: \"").or(field("name: \"")).unwrap_or_default();
            format!("{kind} {tag}")
        })
        .collect()
}

fn lower(n: &NodeProto, c: &ConversionContext) -> Result<Vec<BuilderOp>, OnnxError> {
    let mut b = OnnxBuilder::new();
    assert!(MoeHandler.supports(&n.op_type));
    assert!(MoeHandler.in_range(n, c));
    MoeHandler.convert(n, c, &mut b)?;
    Ok(b.steps)
}

#[test]
fn dense_experts_are_blended() {
    let n = node("MoE", &["x", "logits", "w1", "b1", "w2"], vec![int_attr("k", 3)]);
    let steps = lower(&n, &context()).unwrap();
    assert_eq!(
        labels(&steps),
        vec![
            "Resolve x",
            "Resolve logits",
            "Softmax y_probs",
            "Reshape y_x3d",
            "Expand y_x_e",
            "Resolve w1",
            "Transpose y_fc1_wt",
            "Binary y_fc1_matmul",
            "Resolve b1",
            "Reshape y_fc1_bias3d",
            "Binary y_fc1_biased",
            "Unary y_act",
            "Resolve w2",
            "Transpose y_fc2_wt",
            "Binary y_fc2_matmul",
            "Transpose y_weights_er",
            "Reshape y_weights_er1",
            "Binary y_weighted",
            "Reduce y_sum",
            "RecordOutput y",
        ]
    );
    assert_eq!(
        steps[4],
        BuilderOp::Expand { input: at(3), shape: vec![3, 5, 4], label: s("y_x_e") }
    );
    assert_eq!(
        steps[9],
        BuilderOp::Reshape { input: at(8), shape: vec![3, 1, 6], label: s("y_fc1_bias3d") }
    );
    assert_eq!(
        steps[11],
        BuilderOp::Unary { op: UnaryOp::Relu, input: at(10), label: s("y_act") }
    );
}

#[test]
fn top_experts_are_selected_one_by_one() {
    let attrs = vec![
        int_attr("k", 2),
        int_attr("normalize_routing_weights", 1),
        text_attr("activation_type", "gelu"),
    ];
    let n = node("MoE", &["x3", "logits", "w1", "", "w2"], attrs);
    let steps = lower(&n, &context()).unwrap();
    assert_eq!(
        labels(&steps)[..20],
        [
            "Resolve x3",
            "Resolve logits",
            "Reshape y_logits2d",
            "Constant y__big",
            "Resolve y__big",
            "Reduce y_top0_max",
            "Binary y_top0_eq",
            "Cast y_top0_mask",
            "Binary y_top0_penalty",
            "Binary y_top0_next",
            "Reduce y_top1_max",
            "Binary y_top1_eq",
            "Cast y_top1_mask",
            "Binary y_top1_acc",
            "Constant y__one",
            "Resolve y__one",
            "Binary y_unselected",
            "Binary y_mask_penalty",
            "Binary y_masked_logits",
            "Softmax y_probs",
        ]
    );
    assert_eq!(
        steps[13],
        BuilderOp::Binary { op: BinaryOp::Add, a: at(7), b: at(12), label: s("y_top1_acc") }
    );
    let last = steps.len() - 2;
    assert_eq!(
        steps[last],
        BuilderOp::Reshape { input: at(last - 1), shape: vec![1, 5, 4], label: s("y_out") }
    );
}

#[test]
fn fused_swiglu_splits_pairs() {
    let attrs = vec![
        text_attr("activation_type", "swiglu"),
        int_attr("swiglu_fusion", 1),
        float_attr("swiglu_limit", 7.0),
        float_attr("activation_alpha", 1.5),
        float_attr("activation_beta", 1.0),
        int_attr("k", 9),
    ];
    let n = node("MoE", &["x", "logits", "w1", "", "w2_half"], attrs);
    let steps = lower(&n, &context()).unwrap();
    let clamps: Vec<&BuilderOp> =
        steps.iter().filter(|op| matches!(op, BuilderOp::Clamp { .. })).collect();
    match (clamps[0], clamps[1]) {
        (
            BuilderOp::Clamp { min: None, max: Some(top), .. },
            BuilderOp::Clamp { min: Some(low), max: Some(high), .. },
        ) => {
            assert_eq!(*top, 7.0f32.to_bits());
            assert_eq!(*low, (-7.0f32).to_bits());
            assert_eq!(*high, 7.0f32.to_bits());
        }
        other => panic!("{other:?}"),
    }
    let text = labels(&steps);
    for tag in ["gate_slice", "linear_slice", "gate_silu", "linear_beta", "swiglu"] {
        assert!(text.iter().any(|t| t.ends_with(&format!("y_{tag}"))), "{tag}");
    }
    let n = node(
        "MoE",
        &["x", "logits", "w1", "", "w2"],
        vec![text_attr("activation_type", "swiglu"), int_attr("swiglu_fusion", 1)],
    );
    assert_eq!(
        lower(&n, &context()).unwrap_err().message(),
        "invalid tensor shape: MoE fused swiglu expects fc1 rows = 2*inter (12), got 6"
    );
}

fn tensor(data_type: i32, dims: &[i64], payload: Vec<u8>) -> InitTensor {
    InitTensor { data_type, dims: dims.to_vec(), payload: Ok(payload) }
}

fn quant_context(cols: i64, blocks: i64) -> ConversionContext {
    let mut c = ConversionContext::new();
    c.value_shapes.insert(s("x"), vec![1, 2 * cols]);
    let count = (2 * cols * cols) as usize;
    let w = |rows: i64| tensor(TYPE_UINT8, &[1, rows, cols], vec![0x2f; count]);
    let scale = |rows: i64| {
        let bytes: Vec<u8> =
            (0..rows * blocks).flat_map(|_| 0.25f32.to_le_bytes()).collect();
        tensor(TYPE_FLOAT, &[1, rows, blocks], bytes)
    };
    c.initializers.insert(s("w1"), w(2 * cols));
    c.initializers.insert(s("w2"), w(2 * cols));
    c.initializers.insert(s("s1"), scale(2 * cols));
    c.initializers.insert(s("s2"), scale(2 * cols));
    c
}

fn quant_node(block_size: i64, bits: i64) -> NodeProto {
    node(
        "QMoE",
        &["x", "logits", "w1", "s1", "", "w2", "s2"],
        vec![int_attr("block_size", block_size), int_attr("expert_weight_bits", bits)],
    )
}

#[test]
fn quantized_experts_stay_packed_where_blocks_are_even() {
    let steps = lower(&quant_node(2, 4), &quant_context(2, 2)).unwrap();
    assert_eq!(
        labels(&steps)[..8],
        [
            "Constant y__fc1_deq__q",
            "Constant y__fc1_deq__scales",
            "Constant y__fc1_deq__zp",
            "Resolve y__fc1_deq__q",
            "Resolve y__fc1_deq__scales",
            "Resolve y__fc1_deq__zp",
            "Dequantize ",
            "Record y__fc1_deq",
        ]
    );
    assert_eq!(
        steps[2],
        BuilderOp::Constant {
            name: s("y__fc1_deq__zp"),
            dtype: DataType::Uint4,
            shape: vec![1, 4, 2],
            data: ConstData::Bytes(vec![0x88; 4]),
        }
    );
}

#[test]
fn uneven_blocks_are_decoded() {
    let mut c = quant_context(3, 2);
    c.value_shapes.insert(s("x"), vec![1, 6]);
    let scale = tensor(
        TYPE_FLOAT,
        &[1, 6, 4],
        (0..24).flat_map(|i| (i as f32).to_le_bytes()).collect(),
    );
    c.initializers.insert(s("s1"), scale);
    let r = lower(&quant_node(4, 4), &c);
    assert_eq!(
        r.unwrap_err().message(),
        "invalid tensor shape: QMoE scales [1, 6, 4] do not match weights [E=1, out=6] with 2 blocks of 4"
    );
    // Ten columns in blocks of three are four blocks.
    let mut c = quant_context(5, 4);
    c.value_shapes.insert(s("x"), vec![1, 10]);
    let steps = lower(&quant_node(3, 4), &c).unwrap();
    match &steps[0] {
        BuilderOp::Constant { name, shape, data: ConstData::Products(v), .. } => {
            assert_eq!(name, "y__fc1_deq");
            assert_eq!(*shape, vec![1, 10, 10]);
            assert_eq!(v.len(), 100);
            let scale = FloatBits::Single(0.25f32.to_bits());
            assert_eq!(v[0], (FloatBits::Single(7.0f32.to_bits()), scale));
            assert_eq!(v[1], (FloatBits::Single((-6.0f32).to_bits()), scale));
        }
        other => panic!("{other:?}"),
    }
}

#[test]
fn a_short_last_block_has_its_own_scale() {
    // Four columns in blocks of three: three columns and one.
    let mut c = quant_context(2, 2);
    c.initializers.insert(s("w1"), tensor(TYPE_UINT8, &[1, 4, 2], [0x98, 0x99].repeat(4)));
    let scales = [2.0f32, 3.0].repeat(4);
    c.initializers.insert(
        s("s1"),
        tensor(TYPE_FLOAT, &[1, 4, 2], scales.iter().flat_map(|v| v.to_le_bytes()).collect()),
    );
    let steps = lower(&quant_node(3, 4), &c).unwrap();
    match &steps[0] {
        BuilderOp::Constant { name, dtype, shape, data: ConstData::Products(v) } => {
            assert_eq!(name, "y__fc1_deq");
            assert_eq!(*dtype, DataType::Float32);
            assert_eq!(*shape, vec![1, 4, 4]);
            let number = |f: FloatBits| match f {
                FloatBits::Single(bits) => f32::from_bits(bits),
                other => panic!("{other:?}"),
            };
            let row: Vec<f32> = v[..4].iter().map(|&(q, s)| number(q) * number(s)).collect();
            assert_eq!(row, vec![0.0, 2.0, 2.0, 3.0]);
            assert_eq!(v[..4], v[12..]);
        }
        other => panic!("{other:?}"),
    }
}

#[test]
fn a_single_block_stays_packed() {
    let steps = lower(&quant_node(16, 4), &quant_context(2, 1)).unwrap();
    assert_eq!(labels(&steps)[0], "Constant y__fc1_deq__q");
    assert_eq!(labels(&steps)[6], "Dequantize ");
}

#[test]
fn moe_failures_say_why() {
    let fails = |n: NodeProto| lower(&n, &context()).unwrap_err().message();
    let plain = |a: Vec<AttributeProto>| node("MoE", &["x", "logits", "w1", "", "w2"], a);
    assert_eq!(
        fails(node("QMoE", &["x", "logits", "w1", "", "w2"], vec![])),
        "invalid tensor shape: QMoE expects at least 6 inputs, got 5"
    );
    assert_eq!(
        fails(node("MoE", &["x", "logits", "w1", "", "w2", "", "fc3"], vec![])),
        "unsupported operator(s): MoE(fc3) (node: moe)"
    );
    assert_eq!(
        fails(plain(vec![int_attr("use_sparse_mixer", 1)])),
        "unsupported operator(s): MoE(use_sparse_mixer) (node: moe)"
    );
    assert_eq!(
        fails(plain(vec![text_attr("activation_type", "swiglu")])),
        "unsupported operator(s): MoE(swiglu_fusion=0) (node: moe)"
    );
    assert_eq!(
        fails(plain(vec![text_attr("activation_type", "tanh")])),
        "unsupported operator(s): MoE(activation=tanh) (node: moe)"
    );
    assert_eq!(
        fails(node("MoE", &["z", "logits", "w1", "", "w2"], vec![])),
        "invalid tensor shape: MoE requires a static input shape for 'z'"
    );
    assert_eq!(
        fails(node("MoE", &["x", "logits", "w2", "", "w1"], vec![])),
        "invalid tensor shape: MoE weight shapes inconsistent with hidden=4: fc1=[3, 4, 6] fc2=[3, 6, 4]"
    );
    let quant = node("QMoE", &["x", "logits", "w1", "s1", "", "w2", "s2"], vec![]);
    assert_eq!(
        fails(quant),
        "invalid tensor shape: QMoE requires a positive block_size, got 0"
    );
}
