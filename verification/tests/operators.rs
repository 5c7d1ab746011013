use onnx2webnn::builder::{
    BinaryOp, BuilderOp, ConstData, Direction, OnnxBuilder, Operand, ReduceOp,
};
use onnx2webnn::context::{ConversionContext, InitTensor};
use onnx2webnn::error::OnnxError;
use onnx2webnn::floats::FloatBits;
use onnx2webnn::ops::attention::{gqa_output_shapes, AttentionHandler};
use onnx2webnn::ops::einsum::{einsum_output_shape, parse_einsum_equation, EinsumHandler};
use onnx2webnn::ops::matmul::{decode_float_tensor, MatMulHandler};
use onnx2webnn::ops::rnn::RnnHandler;
use onnx2webnn::protos::{AttributeProto, NodeProto, TYPE_FLOAT, TYPE_FLOAT16, TYPE_UINT8};
use onnx2webnn::types::DataType;

fn s(t: &str) -> String {
    t.to_string()
}

fn create_test_node(op_type: &str, inputs: Vec<&str>, outputs: Vec<&str>) -> NodeProto {
    NodeProto {
        op_type: op_type.to_string(),
        name: format!("test_{}", op_type.to_lowercase()),
        input: inputs.iter().map(|s| s.to_string()).collect(),
        output: outputs.iter().map(|s| s.to_string()).collect(),
        ..Default::default()
    }
}

fn int_attr(name: &str, i: i64) -> AttributeProto {
    AttributeProto { name: s(name), i, ..Default::default() }
}

fn float_attr(name: &str, f: f32) -> AttributeProto {
    AttributeProto { name: s(name), f: f.to_bits(), f_text: f.to_string(), ..Default::default() }
}

fn text_attr(name: &str, t: &str) -> AttributeProto {
    AttributeProto { name: s(name), s: t.as_bytes().to_vec(), ..Default::default() }
}

fn context(values: &[(&str, &[i64], DataType)]) -> ConversionContext {
    let mut c = ConversionContext::new();
    for (name, shape, dtype) in values {
        c.value_shapes.insert(s(name), shape.to_vec());
        c.value_types.insert(s(name), *dtype);
    }
    c
}

fn initializer(data_type: i32, dims: &[i64], payload: Vec<u8>) -> InitTensor {
    InitTensor { data_type, dims: dims.to_vec(), payload: Ok(payload) }
}

fn at(step: usize) -> Operand {
    Operand { step, output: 0 }
}

fn resolve(name: &str) -> BuilderOp {
    BuilderOp::Resolve { name: s(name) }
}

fn recorded(output: &str, step: usize) -> BuilderOp {
    BuilderOp::RecordOutput { output: s(output), label: s(output), operand: at(step) }
}

/// The kind of each step with its label, or with the name it goes by.
fn outline(steps: &[BuilderOp]) -> Vec<String> {
    steps
        .iter()
        .map(|op| {
            let text = format!("{op:?}");
            let kind = text.split(' ').next().unwrap().to_string();
            let field = |key: &str| {
                text.find(key).map(|i| {
                    let rest = &text[i + key.len()..];
                    rest[..rest.find('"').unwrap()].to_string()
                })
            };
            let tag = field("label: \"").or(field("name: \"")).unwrap_or_default();
            format!("{kind} {tag}")
        })
        .collect()
}

fn f32_bytes(values: &[f32]) -> Vec<u8> {
    values.iter().flat_map(|v| v.to_le_bytes()).collect()
}

// ---------------------------------------------------------------------------
// MatMul
// ---------------------------------------------------------------------------

fn matmul(node: &NodeProto, c: &ConversionContext) -> Result<Vec<BuilderOp>, OnnxError> {
    let mut b = OnnxBuilder::new();
    assert!(MatMulHandler.in_range(node, c));
    MatMulHandler.convert(node, c, &mut b)?;
    Ok(b.steps)
}

#[test]
fn test_matmul_handler_supports() {
    let handler = MatMulHandler;
    assert!(handler.supports("MatMul"));
    assert!(handler.supports("Gemm"));
    assert!(handler.supports("MatMulNBits"));
}

#[test]
fn test_convert_matmul() {
    let node = create_test_node("MatMul", vec!["a", "b"], vec!["c"]);
    let steps = matmul(&node, &ConversionContext::new()).unwrap();
    assert_eq!(
        steps,
        vec![
            resolve("a"),
            resolve("b"),
            BuilderOp::Binary { op: BinaryOp::Matmul, a: at(0), b: at(1), label: s("c") },
            recorded("c", 2),
        ]
    );
}

#[test]
fn test_convert_gemm_simple() {
    let node = create_test_node("Gemm", vec!["a", "b"], vec!["c"]);
    let steps = matmul(&node, &ConversionContext::new()).unwrap();
    assert_eq!(
        steps,
        vec![
            resolve("a"),
            resolve("b"),
            BuilderOp::Gemm {
                a: at(0),
                b: at(1),
                c: None,
                alpha: 1.0f32.to_bits(),
                beta: 1.0f32.to_bits(),
                a_transpose: false,
                b_transpose: false,
                label: s("c"),
            },
            recorded("c", 2),
        ]
    );
}

#[test]
fn gemm_reads_its_attributes() {
    let mut node = create_test_node("Gemm", vec!["a", "b", "bias"], vec![]);
    node.attribute = vec![
        float_attr("alpha", 0.5),
        float_attr("alpha", 0.0),
        float_attr("beta", -0.0),
        int_attr("transB", 1),
        int_attr("transB", 0),
    ];
    let steps = matmul(&node, &ConversionContext::new()).unwrap();
    assert_eq!(
        steps[3..],
        [
            BuilderOp::Gemm {
                a: at(0),
                b: at(1),
                c: Some(at(2)),
                alpha: 0.5f32.to_bits(),
                beta: 1.0f32.to_bits(),
                a_transpose: false,
                b_transpose: true,
                label: s("test_gemm_output"),
            },
            BuilderOp::Record { name: s("test_gemm_output"), operand: at(3) },
        ]
    );
    let short = create_test_node("Gemm", vec!["a"], vec!["c"]);
    assert_eq!(
        matmul(&short, &ConversionContext::new()).unwrap_err().message(),
        "invalid tensor shape: Gemm expects at least 2 inputs, got 1"
    );
    let long = create_test_node("MatMul", vec!["a", "b", "c"], vec!["d"]);
    assert_eq!(
        matmul(&long, &ConversionContext::new()).unwrap_err().message(),
        "invalid tensor shape: MatMul expects 2 inputs, got 3"
    );
}

#[test]
fn matmul_integer_centres_both_operands() {
    let node = create_test_node("MatMulInteger", vec!["a", "b", "za", "zb"], vec!["y"]);
    let c = context(&[("za", &[3], DataType::Uint8), ("zb", &[4], DataType::Uint8)]);
    let mut b = OnnxBuilder::new();
    let r = MatMulHandler.convert(&node, &c, &mut b).unwrap();
    assert_eq!(r.output_types.get(&s("y")), Some(&DataType::Int32));
    assert_eq!(
        outline(&b.steps),
        vec![
            "Resolve a",
            "Cast y_a_float",
            "Resolve za",
            "Cast y_a_zero_point_float",
            "Reshape y_a_zero_point_reshape",
            "Binary y_a_centered",
            "Resolve b",
            "Cast y_b_float",
            "Resolve zb",
            "Cast y_b_zero_point_float",
            "Binary y_b_centered",
            "Binary y_matmul",
            "Cast y",
            "RecordOutput y",
        ]
    );
    assert_eq!(
        b.steps[4],
        BuilderOp::Reshape {
            input: at(3),
            shape: vec![3, 1],
            label: s("y_a_zero_point_reshape"),
        }
    );
}

fn nbits_node(k: i64, inputs: Vec<&str>) -> NodeProto {
    let mut node = create_test_node("MatMulNBits", inputs, vec!["y"]);
    node.domain = s("com.microsoft");
    node.attribute = vec![
        int_attr("K", k),
        int_attr("N", 16),
        int_attr("bits", 4),
        int_attr("block_size", 32),
    ];
    node
}

fn nbits_context() -> ConversionContext {
    // B: [N=16, n_blocks=1, blob_size=16] packed uint8 (= 512 uint4 values).
    let values: Vec<u8> = (0..512).map(|v| (v % 16) as u8).collect();
    let packed: Vec<u8> = values.chunks(2).map(|p| p[0] | (p[1] << 4)).collect();
    let mut c = context(&[
        ("a", &[2, 32], DataType::Float32),
        ("b_q4", &[16, 1, 16], DataType::Uint8),
        ("scales", &[16, 1], DataType::Float32),
    ]);
    c.initializers.insert(s("b_q4"), initializer(TYPE_UINT8, &[16, 1, 16], packed));
    c.initializers
        .insert(s("scales"), initializer(TYPE_FLOAT, &[16, 1], f32_bytes(&[0.5; 16])));
    c
}

#[test]
fn converts_matmul_nbits_4bit_without_zero_points() {
    let node = nbits_node(32, vec!["a", "b_q4", "scales"]);
    let steps = matmul(&node, &nbits_context()).unwrap();
    assert_eq!(
        outline(&steps),
        vec![
            "Constant y__B_quant",
            "Resolve y__B_quant",
            "Constant y__scales",
            "Resolve y__scales",
            "Constant y__zero_point",
            "Resolve y__zero_point",
            "Dequantize ",
            "Reshape y__weights_nk",
            "Transpose y__weights_kn",
            "Resolve a",
            "Binary y",
            "RecordOutput y",
        ]
    );
    assert_eq!(
        steps[4],
        BuilderOp::Constant {
            name: s("y__zero_point"),
            dtype: DataType::Uint4,
            shape: vec![16, 1, 1],
            data: ConstData::Bytes(vec![0x88; 8]),
        }
    );
    match &steps[0] {
        BuilderOp::Constant { dtype, shape, data: ConstData::Bytes(d), .. } => {
            assert_eq!((*dtype, shape.clone()), (DataType::Uint4, vec![16, 1, 32]));
            assert_eq!(d.len(), 256);
        }
        other => panic!("{other:?}"),
    }
}

#[test]
fn a_padded_last_block_is_cut() {
    let node = nbits_node(8, vec!["a", "b_q4", "scales", "", "", "bias"]);
    let steps = matmul(&node, &nbits_context()).unwrap();
    assert_eq!(
        steps[8],
        BuilderOp::Slice {
            input: at(7),
            starts: vec![0, 0],
            sizes: vec![16, 8],
            strides: vec![],
            label: s("y__weights_nk"),
        }
    );
    assert_eq!(outline(&steps[9..])[2..4], ["Binary y", "Resolve bias"]);
}

#[test]
fn rejects_matmul_nbits_with_g_idx() {
    let node = nbits_node(32, vec!["a", "b", "scales", "", "g_idx"]);
    let err = matmul(&node, &ConversionContext::new()).unwrap_err();
    assert!(matches!(err, OnnxError::UnsupportedOps(_)));
}

#[test]
fn nbits_failures_say_why() {
    let fails = |edit: fn(&mut NodeProto, &mut ConversionContext)| {
        let mut node = nbits_node(32, vec!["a", "b_q4", "scales"]);
        let mut c = nbits_context();
        edit(&mut node, &mut c);
        matmul(&node, &c).unwrap_err().message()
    };
    assert_eq!(
        fails(|n, _| n.attribute[2].i = 2),
        "unsupported operator(s): MatMulNBits(bits=2) (node: test_matmulnbits)"
    );
    assert_eq!(
        fails(|n, _| n.attribute[3].i = 24),
        "invalid tensor shape: MatMulNBits requires positive K/N and power-of-two block_size>=16, got K=32 N=16 block_size=24"
    );
    assert_eq!(
        fails(|n, _| n.attribute[0].i = 33),
        "invalid tensor shape: MatMulNBits n_blocks 1 != ceil(K/block_size)=2"
    );
    assert_eq!(
        fails(|n, _| n.input[1] = "a".to_string()),
        "unsupported operator(s): MatMulNBits(non-constant B) (node: test_matmulnbits)"
    );
    assert_eq!(
        fails(|n, c| {
            n.input.push("zp".to_string());
            c.initializers.insert("zp".to_string(), initializer(TYPE_UINT8, &[1], vec![1, 2]));
        }),
        "invalid tensor shape: MatMulNBits zero_points packed length 2 != expected 8"
    );
}

fn bnb_node(block_size: i64, quant_type: i64) -> NodeProto {
    let mut node = create_test_node("MatMulBnb4", vec!["a", "w", "absmax"], vec!["y"]);
    node.attribute = vec![
        int_attr("K", 3),
        int_attr("N", 2),
        int_attr("block_size", block_size),
        int_attr("quant_type", quant_type),
    ];
    node
}

fn bnb_context(absmax: &[f32]) -> ConversionContext {
    let mut c = context(&[("a", &[1, 3], DataType::Float32)]);
    c.initializers.insert(s("w"), initializer(TYPE_UINT8, &[3], vec![0x01, 0xf7, 0x3a]));
    c.initializers.insert(
        s("absmax"),
        initializer(TYPE_FLOAT, &[absmax.len() as i64], f32_bytes(absmax)),
    );
    c
}

#[test]
fn bnb4_decodes_blocks_that_do_not_divide_the_weight() {
    let steps = matmul(&bnb_node(4, 1), &bnb_context(&[2.0, 4.0])).unwrap();
    let nf4 = |code: usize| -> f32 {
        [
            -1.0, -0.696_192_8, -0.525_073_05, -0.394_917_5, -0.284_441_38, -0.184_773_43,
            -0.091_050_036, 0.0, 0.079_580_3, 0.160_930_2, 0.246_112_3, 0.337_915_24,
            0.440_709_83, 0.562_617, 0.722_956_84, 1.0,
        ][code]
    };
    let pair = |code: usize, scale: f32| {
        (FloatBits::Single(nf4(code).to_bits()), FloatBits::Single(scale.to_bits()))
    };
    // Codes in order: 0 1 f 7 3 a; rows of three, emitted by columns.
    assert_eq!(
        steps,
        vec![
            resolve("a"),
            BuilderOp::Constant {
                name: s("y__weights_kn"),
                dtype: DataType::Float32,
                shape: vec![3, 2],
                data: ConstData::Products(vec![
                    pair(0x0, 2.0),
                    pair(0x7, 2.0),
                    pair(0x1, 2.0),
                    pair(0x3, 4.0),
                    pair(0xf, 2.0),
                    pair(0xa, 4.0),
                ]),
            },
            resolve("y__weights_kn"),
            BuilderOp::Binary { op: BinaryOp::Matmul, a: at(0), b: at(2), label: s("y") },
            recorded("y", 3),
        ]
    );
}

#[test]
fn bnb4_keeps_whole_blocks_packed() {
    let steps = matmul(&bnb_node(3, 0), &bnb_context(&[2.0, 4.0, 9.0])).unwrap();
    assert_eq!(
        outline(&steps),
        vec![
            "Constant y__blob",
            "Resolve y__blob",
            "Constant y__c16",
            "Resolve y__c16",
            "Constant y__codebook",
            "Resolve y__codebook",
            "Constant y__absmax",
            "Resolve y__absmax",
            "Cast y__i32",
            "Binary y__hi",
            "Binary y__hi16",
            "Binary y__lo",
            "Reshape y__hi_col",
            "Reshape y__lo_col",
            "Concat y__codes",
            "Reshape y__codes_flat",
            "Gather y__lookup",
            "Reshape y__blocked",
            "Binary y__scaled",
            "Reshape y__weights_nk",
            "Transpose y__weights_kn",
            "Resolve a",
            "Binary y",
            "RecordOutput y",
        ]
    );
    match &steps[4] {
        BuilderOp::Constant { data: ConstData::Floats(v), shape, .. } => {
            assert_eq!(*shape, vec![16]);
            assert_eq!(v[1], FloatBits::Single(0.005_208_333_5f32.to_bits()));
            assert_eq!(v[15], FloatBits::Single((-0.25f32).to_bits()));
        }
        other => panic!("{other:?}"),
    }
    match &steps[6] {
        BuilderOp::Constant { data: ConstData::Floats(v), shape, .. } => {
            assert_eq!(*shape, vec![2, 1]);
            assert_eq!(v.len(), 2);
        }
        other => panic!("{other:?}"),
    }
}

#[test]
fn bnb4_failures_say_why() {
    assert_eq!(
        matmul(&bnb_node(4, 2), &bnb_context(&[1.0])).unwrap_err().message(),
        "unsupported operator(s): MatMulBnb4(quant_type=2) (node: test_matmulbnb4)"
    );
    assert_eq!(
        matmul(&bnb_node(4, 1), &bnb_context(&[1.0])).unwrap_err().message(),
        "invalid tensor shape: MatMulBnb4 absmax holds 1 values, need 2"
    );
    assert_eq!(
        matmul(&bnb_node(0, 1), &bnb_context(&[1.0])).unwrap_err().message(),
        "invalid tensor shape: MatMulBnb4 requires positive K/N/block_size, got K=3 N=2 block_size=0"
    );
}

#[test]
fn float_tensors_are_read_by_their_patterns() {
    let t = initializer(TYPE_FLOAT, &[2], f32_bytes(&[1.5, -2.0]));
    assert_eq!(
        decode_float_tensor(&t).unwrap(),
        vec![FloatBits::Single(1.5f32.to_bits()), FloatBits::Single((-2.0f32).to_bits())]
    );
    let t = initializer(TYPE_FLOAT16, &[1], half::f16::from_f32(0.1).to_le_bytes().to_vec());
    assert_eq!(
        decode_float_tensor(&t).unwrap(),
        vec![FloatBits::Half(half::f16::from_f32(0.1).to_bits())]
    );
    assert_eq!(
        decode_float_tensor(&initializer(TYPE_UINT8, &[1], vec![1])).unwrap_err().message(),
        "invalid tensor shape: expected float/float16 tensor, got data_type=2"
    );
}

// ---------------------------------------------------------------------------
// Einsum
// ---------------------------------------------------------------------------

fn einsum_node(equation: &str, inputs: Vec<&str>) -> NodeProto {
    let mut node = create_test_node("Einsum", inputs, vec!["y"]);
    node.attribute = vec![text_attr("equation", equation)];
    node
}

fn convert_with_shapes(
    equation: &str,
    shapes: &[(&str, Vec<i64>)],
) -> Result<Vec<BuilderOp>, OnnxError> {
    let node = einsum_node(equation, shapes.iter().map(|(n, _)| *n).collect());
    let values: Vec<(&str, &[i64], DataType)> =
        shapes.iter().map(|(n, d)| (*n, d.as_slice(), DataType::Float32)).collect();
    let c = context(&values);
    let mut b = OnnxBuilder::new();
    assert!(EinsumHandler.supports("Einsum"));
    assert!(EinsumHandler.in_range(&node, &c));
    EinsumHandler.convert(&node, &c, &mut b)?;
    Ok(b.steps)
}

#[test]
fn parses_explicit_and_implicit_output() {
    let parsed = parse_einsum_equation("ij,jk->ik", 2, &s("t")).unwrap();
    assert_eq!(parsed.output_spec, vec!['i', 'k']);
    let implicit = parse_einsum_equation("ij,jk", 2, &s("t")).unwrap();
    assert_eq!(implicit.output_spec, vec!['i', 'k']);
}

#[test]
fn rejects_ellipsis_and_diagonals() {
    assert!(matches!(
        parse_einsum_equation("...ij,jk->...ik", 2, &s("t")).unwrap_err(),
        OnnxError::UnsupportedOps(_)
    ));
    assert!(matches!(
        parse_einsum_equation("ii->i", 1, &s("t")).unwrap_err(),
        OnnxError::UnsupportedOps(_)
    ));
}

#[test]
fn infers_output_shapes() {
    assert_eq!(
        einsum_output_shape("i,j->ij", &vec![vec![5], vec![3]]),
        Some(vec![5, 3])
    );
    assert_eq!(
        einsum_output_shape("bid,bjd->bij", &vec![vec![2, 4, 8], vec![2, 6, 8]]),
        Some(vec![2, 4, 6])
    );
    assert_eq!(
        einsum_output_shape("ij->ji", &vec![vec![2, 3]]),
        Some(vec![3, 2])
    );
    // Mismatched shared dimension.
    assert_eq!(
        einsum_output_shape("ij,jk->ik", &vec![vec![2, 3], vec![4, 5]]),
        None
    );
}

#[test]
fn converts_outer_product() {
    let steps = convert_with_shapes("i,j->ij", &[("a", vec![4]), ("b", vec![6])]).unwrap();
    assert_eq!(
        steps,
        vec![
            resolve("a"),
            resolve("b"),
            BuilderOp::Reshape { input: at(0), shape: vec![1, 4, 1], label: s("y__a_3d") },
            BuilderOp::Reshape { input: at(1), shape: vec![1, 1, 6], label: s("y__b_3d") },
            BuilderOp::Binary { op: BinaryOp::Matmul, a: at(2), b: at(3), label: s("y__matmul") },
            BuilderOp::Reshape { input: at(4), shape: vec![4, 6], label: s("y__unpacked") },
            recorded("y", 5),
        ]
    );
}

#[test]
fn converts_matmul_equation() {
    let steps =
        convert_with_shapes("ij,jk->ik", &[("a", vec![2, 3]), ("b", vec![3, 5])]).unwrap();
    assert_eq!(steps.len(), 7);
}

#[test]
fn converts_batched_attention_equation() {
    let steps = convert_with_shapes(
        "bhid,bhjd->bhij",
        &[("q", vec![2, 4, 7, 16]), ("k", vec![2, 4, 9, 16])],
    )
    .unwrap();
    assert_eq!(
        steps[2..],
        [
            BuilderOp::Reshape { input: at(0), shape: vec![8, 7, 16], label: s("y__a_3d") },
            BuilderOp::Transpose {
                input: at(1),
                permutation: vec![0, 1, 3, 2],
                label: s("y__b_perm"),
            },
            BuilderOp::Reshape { input: at(3), shape: vec![8, 16, 9], label: s("y__b_3d") },
            BuilderOp::Binary { op: BinaryOp::Matmul, a: at(2), b: at(4), label: s("y__matmul") },
            BuilderOp::Reshape { input: at(5), shape: vec![2, 4, 7, 9], label: s("y__unpacked") },
            recorded("y", 6),
        ]
    );
}

#[test]
fn converts_transpose_equation() {
    let steps = convert_with_shapes("ij->ji", &[("a", vec![2, 3])]).unwrap();
    assert_eq!(
        steps[1],
        BuilderOp::Transpose { input: at(0), permutation: vec![1, 0], label: s("y__perm") }
    );
}

#[test]
fn converts_single_input_reduction() {
    let steps = convert_with_shapes("ij->i", &[("a", vec![2, 3])]).unwrap();
    assert_eq!(
        steps[1],
        BuilderOp::Reduce {
            op: ReduceOp::Sum,
            input: at(0),
            axes: vec![1],
            keep_dimensions: false,
            label: s("y__sum_in0"),
        }
    );
}

#[test]
fn rejects_three_inputs() {
    let err = convert_with_shapes(
        "i,j,k->ijk",
        &[("a", vec![2]), ("b", vec![3]), ("c", vec![4])],
    )
    .unwrap_err();
    assert!(matches!(err, OnnxError::UnsupportedOps(_)));
}

#[test]
fn equations_that_do_not_parse_say_why() {
    let fails = |e: &str, n: usize| parse_einsum_equation(e, n, &s("t")).unwrap_err().message();
    for e in ["i1->i", "i\u{e9}->i", "i'->i", "i\"->i"] {
        let bad = e.chars().nth(1).unwrap();
        let spaced: String = e.to_string();
        assert!(fails(&spaced, 1).contains(&format!("{bad:?}")), "{}", fails(e, 1));
    }
    assert!(fails("i,j->ij", 1).contains(&format!("{:?}", "i,j->ij")));
    assert!(fails("i->j", 1).contains(&format!("{:?}", 'j')) || fails("i->j", 1).contains("'j'"));
}

#[test]
fn equations_with_bytes_outside_utf8_are_read() {
    let mut node = einsum_node("", vec!["a"]);
    node.attribute[0].s = vec![b'i', 0xff];
    let c = context(&[("a", &[2, 3], DataType::Float32)]);
    let mut b = OnnxBuilder::new();
    let err = EinsumHandler.convert(&node, &c, &mut b).err().unwrap();
    assert!(err.message().contains("\u{fffd}"), "{}", err.message());
}

#[test]
fn einsum_needs_known_shapes() {
    let fails = |shapes: &[(&str, Vec<i64>)]| {
        convert_with_shapes("ij->ji", shapes).unwrap_err().message()
    };
    assert_eq!(
        fails(&[("a", vec![2])]),
        "invalid tensor shape: Einsum term 0 of \"ij->ji\" has 2 labels but 'a' has rank 1 (shape [2])"
    );
    assert_eq!(
        fails(&[("a", vec![2, -1])]),
        "invalid tensor shape: Einsum requires static dimensions for 'a', got [2, -1]"
    );
    let mut b = OnnxBuilder::new();
    let node = einsum_node("i->i", vec!["x"]);
    assert_eq!(
        EinsumHandler
            .convert(&node, &ConversionContext::new(), &mut b)
            .err()
            .unwrap()
            .message(),
        "invalid tensor shape: Einsum requires a known static shape for 'x'"
    );
}

// ---------------------------------------------------------------------------
// Recurrent layers and rotary embedding
// ---------------------------------------------------------------------------

fn rnn(node: &NodeProto, c: &ConversionContext) -> Result<Vec<BuilderOp>, OnnxError> {
    let mut b = OnnxBuilder::new();
    assert!(RnnHandler.in_range(node));
    RnnHandler.convert(node, c, &mut b)?;
    Ok(b.steps)
}

fn rotary_node(attribute: Vec<AttributeProto>) -> NodeProto {
    NodeProto {
        op_type: s("RotaryEmbedding"),
        domain: s("com.microsoft"),
        name: s("rope"),
        input: vec![s("x"), s("position_ids"), s("cos_cache"), s("sin_cache")],
        output: vec![s("y")],
        attribute,
        ..Default::default()
    }
}

fn rotary_context() -> ConversionContext {
    context(&[
        ("x", &[1, 2, 128], DataType::Float32),
        ("position_ids", &[1, 2], DataType::Int64),
        ("cos_cache", &[16, 32], DataType::Float32),
        ("sin_cache", &[16, 32], DataType::Float32),
    ])
}

#[test]
fn converts_microsoft_interleaved_rotary_embedding() {
    let steps = rnn(&rotary_node(vec![int_attr("interleaved", 1)]), &rotary_context()).unwrap();
    assert_eq!(
        outline(&steps),
        vec![
            "Resolve x",
            "Reshape y__heads",
            "Resolve cos_cache",
            "Resolve sin_cache",
            "Resolve position_ids",
            "Gather y__cos_gather",
            "Gather y__sin_gather",
            "Reshape y__cos",
            "Reshape y__sin",
            "Slice y__rotate",
            "Slice y__even",
            "Slice y__odd",
            "Binary ",
            "Binary ",
            "Binary ",
            "Binary ",
            "Binary ",
            "Binary ",
            "Reshape y__real_component",
            "Reshape y__imag_component",
            "Concat ",
            "Reshape y__interleaved",
            "Reshape y",
            "RecordOutput y",
        ]
    );
    assert_eq!(
        steps[11],
        BuilderOp::Slice {
            input: at(9),
            starts: vec![0, 0, 0, 1],
            sizes: vec![1, 2, 2, 63],
            strides: vec![1, 1, 1, 2],
            label: s("y__odd"),
        }
    );
}

#[test]
fn rotary_scales_other_than_one_are_rejected() {
    for scale in [2.0f32, 0.1, 1.0e30, -0.0, f32::INFINITY] {
        let err = rnn(&rotary_node(vec![float_attr("scale", scale)]), &rotary_context())
            .unwrap_err();
        assert_eq!(
            err.message(),
            format!("unsupported operator(s): RotaryEmbedding(scale={scale}) (node: rope)")
        );
    }
    for scale in [1.0f32, 1.0 + f32::EPSILON, 1.0 - f32::EPSILON, f32::NAN] {
        assert!(rnn(&rotary_node(vec![float_attr("scale", scale)]), &rotary_context()).is_ok());
    }
}

#[test]
fn rotary_failures_say_why() {
    let fails = |attribute: Vec<AttributeProto>| {
        rnn(&rotary_node(attribute), &rotary_context()).unwrap_err().message()
    };
    assert_eq!(
        fails(vec![int_attr("rotary_embedding_dim", 30)]),
        "invalid tensor shape: RotaryEmbedding dimension 30 does not match cache width 32"
    );
    assert_eq!(
        fails(vec![int_attr("num_heads", 3)]),
        "invalid tensor shape: RotaryEmbedding hidden size 128 is not divisible by num_heads 3"
    );
    assert_eq!(
        fails(vec![int_attr("num_heads", 4)]),
        "invalid tensor shape: RotaryEmbedding dimension 64 exceeds head size 32"
    );
    let mut node = rotary_node(vec![]);
    node.input.pop();
    assert_eq!(
        rnn(&node, &rotary_context()).unwrap_err().message(),
        "invalid tensor shape: com.microsoft.RotaryEmbedding expects (input, position_ids, cos_cache, sin_cache)"
    );
}

#[test]
fn lowers_a_forward_gru() {
    let mut node = create_test_node("GRU", vec!["x", "w", "r", "bias"], vec!["y", "h"]);
    node.name = s("/gru/GRU");
    node.attribute = vec![int_attr("hidden_size", 4), int_attr("linear_before_reset", 1)];
    let c = context(&[("x", &[5, 1, 3], DataType::Float32)]);
    let steps = rnn(&node, &c).unwrap();
    assert_eq!(
        steps,
        vec![
            resolve("x"),
            resolve("w"),
            resolve("r"),
            resolve("bias"),
            BuilderOp::Slice {
                input: at(3),
                starts: vec![0, 0],
                sizes: vec![1, 12],
                strides: vec![],
                label: s("_gru_GRU_bias"),
            },
            BuilderOp::Slice {
                input: at(3),
                starts: vec![0, 12],
                sizes: vec![1, 12],
                strides: vec![],
                label: s("_gru_GRU_recurrent_bias"),
            },
            BuilderOp::Gru {
                x: at(0),
                w: at(1),
                r: at(2),
                steps: 5,
                hidden_size: 4,
                bias: Some(at(4)),
                recurrent_bias: Some(at(5)),
                return_sequence: true,
                direction: Direction::Forward,
                reset_after: true,
                label: s("y"),
            },
            BuilderOp::Squeeze {
                input: Operand { step: 6, output: 1 },
                axes: vec![1],
                label: s("_gru_GRU_squeeze_dir"),
            },
            BuilderOp::RecordOutput { output: s("y"), label: s("y_y"), operand: at(7) },
            BuilderOp::RecordOutput { output: s("h"), label: s("y_y_h"), operand: at(6) },
        ]
    );
}

#[test]
fn lowers_a_bidirectional_half_precision_lstm() {
    let mut node =
        create_test_node("LSTM", vec!["x", "w", "r", "", "", "h0"], vec!["y", "", "c"]);
    node.attribute = vec![int_attr("hidden_size", 2), text_attr("direction", "BiDirectional")];
    let c = context(&[("x", &[2, 1, 3], DataType::Float16)]);
    let mut b = OnnxBuilder::new();
    let r = RnnHandler.convert(&node, &c, &mut b).unwrap();
    assert_eq!(
        outline(&b.steps),
        vec![
            "Resolve x",
            "Cast test_lstm_x_f32",
            "Resolve w",
            "Cast test_lstm_w_f32",
            "Resolve r",
            "Cast test_lstm_r_f32",
            "Resolve h0",
            "Cast test_lstm_h0_f32",
            "Lstm y",
            "Cast y_y_cast",
            "RecordOutput y_y",
            "Cast y_y_c_cast",
            "RecordOutput y_y_c",
        ]
    );
    match &b.steps[8] {
        BuilderOp::Lstm { direction, initial_hidden_state, initial_cell_state, steps, .. } => {
            assert_eq!(*direction, Direction::Both);
            assert_eq!(*initial_hidden_state, Some(at(7)));
            assert_eq!(*initial_cell_state, None);
            assert_eq!(*steps, 2);
        }
        other => panic!("{other:?}"),
    }
    assert_eq!(r.output_types.get(&s("c")), Some(&DataType::Float16));
    assert!(r.output_types.get(&s("")).is_none());
}

#[test]
fn recurrent_failures_say_why() {
    let fails = |op: &str, inputs: Vec<&str>, attribute: Vec<AttributeProto>| {
        let mut node = create_test_node(op, inputs, vec!["y"]);
        node.attribute = attribute;
        rnn(&node, &ConversionContext::new()).unwrap_err().message()
    };
    assert_eq!(
        fails("GRU", vec!["x", "w", "r"], vec![]),
        "missing required attribute: hidden_size in GRU"
    );
    assert_eq!(
        fails("GRU", vec!["x", "w", "r", "", "lens"], vec![int_attr("hidden_size", 1)]),
        "unsupported operator(s): GRU optional input 4 (node: test_gru)"
    );
    assert_eq!(
        fails("LSTM", vec!["x", "w", "r"], vec![text_attr("direction", "SideWays\u{c4}")]),
        "unsupported operator(s): LSTM(direction=sideways\u{e4}) (node: test_lstm)"
    );
    assert_eq!(
        fails("LSTM", vec!["x", "w", "r"], vec![text_attr("layout", "abc")]),
        "unsupported operator(s): LSTM(layout=abc) (node: test_lstm)"
    );
    assert_eq!(
        fails("LSTM", vec!["x", "w", "r", "", "", "", "", "p"], vec![]),
        "unsupported operator(s): LSTM(peephole) (node: test_lstm)"
    );
    assert_eq!(
        fails("LSTM", vec!["x", "w", "r", "", "lens"], vec![]),
        "unsupported operator(s): LSTM(sequence_lens) (node: test_lstm)"
    );
    assert_eq!(
        fails("GRU", vec!["x"], vec![]),
        "invalid tensor shape: GRU expects at least 3 inputs (X, W, R), got 1"
    );
    let mut big = create_test_node("GRU", vec!["x", "w", "r"], vec!["y"]);
    big.attribute = vec![int_attr("hidden_size", 1 << 31)];
    assert!(!RnnHandler.in_range(&big));
}

// ---------------------------------------------------------------------------
// Attention
// ---------------------------------------------------------------------------

fn gqa_node(inputs: Vec<&str>, attribute: Vec<AttributeProto>) -> NodeProto {
    let mut node = create_test_node("GroupQueryAttention", inputs, vec!["y", "pk", "pv"]);
    node.attribute = vec![int_attr("num_heads", 2), int_attr("kv_num_heads", 1)];
    node.attribute.extend(attribute);
    node
}

fn gqa_context() -> ConversionContext {
    context(&[
        ("q", &[1, 2, 8], DataType::Float32),
        ("qkv", &[1, 2, 16], DataType::Float16),
        ("past_k", &[1, 1, 1, 4], DataType::Float32),
        ("cos", &[8, 2], DataType::Float32),
    ])
}

fn attention(node: &NodeProto) -> Result<Vec<BuilderOp>, OnnxError> {
    let c = gqa_context();
    let mut b = OnnxBuilder::new();
    assert!(AttentionHandler.in_range(node, &c));
    AttentionHandler.convert(node, &c, &mut b)?;
    Ok(b.steps)
}

#[test]
fn lowers_grouped_attention_with_a_cache() {
    let steps = attention(&gqa_node(vec!["q", "k", "v", "past_k", "past_v"], vec![])).unwrap();
    assert_eq!(
        outline(&steps),
        vec![
            "Resolve q",
            "Resolve k",
            "Resolve v",
            "Resolve past_k",
            "Resolve past_v",
            "Reshape y_q_split",
            "Transpose y_q_bhsd",
            "Reshape y_k_split",
            "Transpose y_k_bhsd",
            "Reshape y_v_split",
            "Transpose y_v_bhsd",
            "Concat y_present_key",
            "Concat y_present_value",
            "Reshape y_key_grouped",
            "Expand y_key_expanded",
            "Reshape y_key_heads",
            "Reshape y_value_grouped",
            "Expand y_value_expanded",
            "Reshape y_value_heads",
            "Constant y__scale",
            "Resolve y__scale",
            "Binary y_q_scaled",
            "Transpose y_key_t",
            "Binary y_scores",
            "Constant y__causal_mask",
            "Resolve y__causal_mask",
            "Binary y_masked",
            "Softmax y_probs",
            "Binary y_context",
            "Transpose y_context_bshd",
            "Reshape y_output",
            "RecordOutput y",
            "RecordOutput y_present_key_out",
            "RecordOutput y_present_value_out",
        ]
    );
    assert_eq!(
        steps[14],
        BuilderOp::Expand {
            input: at(13),
            shape: vec![1, 1, 2, 3, 4],
            label: s("y_key_expanded"),
        }
    );
    match &steps[19] {
        BuilderOp::Constant { data, .. } => assert_eq!(*data, ConstData::InverseSqrt(4)),
        other => panic!("{other:?}"),
    }
    // Key j is visible to query i iff j <= 1 + i.
    let far = -3.0e38f32;
    match &steps[24] {
        BuilderOp::Constant { data, shape, dtype, .. } => {
            assert_eq!((*dtype, shape.clone()), (DataType::Float32, vec![2, 3]));
            let expected = [0.0, 0.0, far, 0.0, 0.0, 0.0];
            let ok = *data == ConstData::Bytes(f32_bytes(&expected))
                || *data
                    == ConstData::Floats(
                        expected.iter().map(|v| FloatBits::Single(v.to_bits())).collect(),
                    );
            assert!(ok, "{data:?}");
        }
        other => panic!("{other:?}"),
    }
    assert_eq!(
        steps[30],
        BuilderOp::Reshape { input: at(29), shape: vec![1, 2, 8], label: s("y_output") }
    );
}

#[test]
fn packed_attention_is_split_and_rotated() {
    let steps = attention(&gqa_node(
        vec!["qkv", "", "", "past_k", "past_v", "", "", "cos", "sin"],
        vec![int_attr("do_rotary", 1)],
    ))
    .unwrap();
    assert_eq!(
        steps[1],
        BuilderOp::Split {
            input: at(0),
            sizes: vec![8, 4, 4],
            axis: 2,
            label: s("y_qkv_split"),
        }
    );
    assert_eq!(
        steps[6],
        BuilderOp::Reshape {
            input: Operand { step: 1, output: 0 },
            shape: vec![1, 2, 2, 4],
            label: s("y_q_split"),
        }
    );
    // Rows 1..3 of the cache.
    assert_eq!(
        steps[7],
        BuilderOp::Slice {
            input: at(4),
            starts: vec![1, 0],
            sizes: vec![2, 2],
            strides: vec![],
            label: s("y_q_rotary_cos_rows"),
        }
    );
}

#[test]
fn attention_failures_say_why() {
    let fails = |inputs: Vec<&str>, attribute: Vec<AttributeProto>| {
        attention(&gqa_node(inputs, attribute)).unwrap_err().message()
    };
    let all = || vec!["q", "k", "v", "past_k", "past_v"];
    assert_eq!(
        fails(all(), vec![float_attr("softcap", 1.0)]),
        "unsupported operator(s): GroupQueryAttention(softcap) (node: test_groupqueryattention)"
    );
    assert_eq!(
        fails(all(), vec![int_attr("local_window_size", 0)]),
        "unsupported operator(s): GroupQueryAttention(local_window_size) (node: test_groupqueryattention)"
    );
    assert_eq!(
        fails(all(), vec![int_attr("do_rotary", 1)]),
        "invalid tensor shape: GroupQueryAttention test_groupqueryattention has do_rotary=1 but no cos/sin caches"
    );
    assert_eq!(
        fails(all(), vec![int_attr("num_heads", 4)]),
        "invalid tensor shape: GroupQueryAttention hidden 8 != expected 16"
    );
    assert_eq!(
        fails(all(), vec![int_attr("num_heads", 3), int_attr("kv_num_heads", 2)]),
        "invalid tensor shape: GroupQueryAttention requires num_heads divisible by kv_num_heads, got num_heads=3 kv_num_heads=2"
    );
    assert_eq!(
        fails(vec!["x", "k", "v", "past_k", "past_v"], vec![]),
        "invalid tensor shape: GroupQueryAttention requires a static query shape for 'x'"
    );
}

#[test]
fn attention_shapes_grow_the_cache() {
    let node = gqa_node(vec!["q", "k", "v", "past_k", "past_v"], vec![]);
    let c = gqa_context();
    let present = vec![1, 1, 3, 4];
    assert_eq!(
        gqa_output_shapes(&node, &c.value_shapes),
        Some((vec![1, 2, 8], present.clone(), present))
    );
    let short = gqa_node(vec!["q", "k", "v"], vec![]);
    assert_eq!(gqa_output_shapes(&short, &c.value_shapes), None);
}

#[test]
fn packed_attention_is_as_wide_as_its_heads() {
    let node = gqa_node(vec!["qkv", "", "", "pk", "pv"], vec![]);
    let c = context(&[
        ("qkv", &[1, 4, 32], DataType::Float32),
        ("pk", &[1, 1, 3, 8], DataType::Float32),
    ]);
    assert_eq!(
        gqa_output_shapes(&node, &c.value_shapes),
        Some((vec![1, 4, 16], vec![1, 1, 7, 8], vec![1, 1, 7, 8]))
    );
    let mut b = OnnxBuilder::new();
    assert!(AttentionHandler.in_range(&node, &c));
    AttentionHandler.convert(&node, &c, &mut b).unwrap();
    assert!(b.steps.iter().any(|op| matches!(
        op,
        BuilderOp::Reshape { shape, label, .. } if label == "y_output" && *shape == [1, 4, 16]
    )));
    let wide = context(&[
        ("qkv", &[1, 4, 32], DataType::Float32),
        ("pk", &[1, 1, 3, i64::MAX], DataType::Float32),
    ]);
    assert_eq!(gqa_output_shapes(&node, &wide.value_shapes), None);
}

#[test]
fn rejected_attention_needs_no_range() {
    let c = context(&[
        ("q", &[1, 2, 8], DataType::Float32),
        ("past_k", &[1, 1, i64::MAX, 4], DataType::Float32),
    ]);
    let inputs = vec!["q", "k", "v", "past_k", "past_v"];
    assert!(!AttentionHandler.in_range(&gqa_node(inputs.clone(), vec![]), &c));
    for attribute in [
        float_attr("softcap", 1.0),
        int_attr("local_window_size", 4),
        int_attr("do_rotary", 1),
    ] {
        let node = gqa_node(inputs.clone(), vec![attribute]);
        assert!(AttentionHandler.in_range(&node, &c));
        assert!(AttentionHandler.convert(&node, &c, &mut OnnxBuilder::new()).is_err());
    }
}

#[test]
fn plans_read_only_earlier_steps() {
    let mut plans = vec![
        matmul(&nbits_node(32, vec!["a", "b_q4", "scales"]), &nbits_context()).unwrap(),
        matmul(&bnb_node(3, 0), &bnb_context(&[2.0, 4.0])).unwrap(),
        rnn(&rotary_node(vec![]), &rotary_context()).unwrap(),
        attention(&gqa_node(vec!["q", "k", "v", "past_k", "past_v"], vec![])).unwrap(),
    ];
    plans.push(
        convert_with_shapes("ba,bc->ca", &[("a", vec![2, 3]), ("b", vec![2, 5])]).unwrap(),
    );
    for steps in plans {
        for (i, op) in steps.iter().enumerate() {
            let text = format!("{op:?}");
            for part in text.split("Operand { step: ").skip(1) {
                let step: usize = part[..part.find(',').unwrap()].parse().unwrap();
                assert!(step < i, "{text}");
            }
        }
    }
}

#[test]
fn contractions_have_the_inferred_shape() {
    let shapes = vec![vec![2, 3, 5, 7], vec![7, 2, 11, 13]];
    let equation = "bijd,dbkz->kbi";
    let steps =
        convert_with_shapes(equation, &[("a", shapes[0].clone()), ("b", shapes[1].clone())])
            .unwrap();
    let mut dims = vec![];
    for step in &steps {
        match step {
            BuilderOp::Reshape { shape, label, .. } if label.ends_with("__unpacked") => {
                dims = shape.clone();
            }
            BuilderOp::Transpose { permutation, label, .. } if label.ends_with("__out_perm") => {
                dims = permutation.iter().map(|&p| dims[p as usize]).collect();
            }
            _ => {}
        }
    }
    let inferred = einsum_output_shape(equation, &shapes);
    assert_eq!(inferred, Some(vec![11, 2, 3]));
    assert_eq!(Some(dims), inferred);
}

#[test]
fn attention_ends_in_the_propagated_shape() {
    let node = gqa_node(vec!["q", "k", "v", "past_k", "past_v"], vec![]);
    let (out, key, value) = gqa_output_shapes(&node, &gqa_context().value_shapes).unwrap();
    assert_eq!(out, vec![1, 2, 8]);
    assert_eq!(key, vec![1, 1, 3, 4]);
    assert_eq!(key, value);
    let steps = attention(&node).unwrap();
    assert!(steps.iter().any(|op| matches!(
        op,
        BuilderOp::Reshape { shape, label, .. } if label == "y_output" && *shape == out
    )));
}
