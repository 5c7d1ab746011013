use onnx2webnn::builder::{BuilderOp, ConstData, OnnxBuilder};
use onnx2webnn::bytes::{read_signed_chunks, to_le_bytes};
use onnx2webnn::convert::{
    is_element_wise_logical_onnx_op, prepare_model, prune_pinned_model, reject_sequence_output,
    Inferred, InferenceEvent, Lowering, NodeStep, OnnxConverter,
};
use onnx2webnn::error::{ConversionError, OnnxError, UnsupportedOpEntry};
use onnx2webnn::floats::{int_to_f32, FloatBits};
use onnx2webnn::names::NameMap;
use onnx2webnn::options::ConvertOptions;
use onnx2webnn::overrides::{
    add_bindings, dimension_for_param, dynamic_max_for_dim, merge_json, resolve_dim_for_inference,
    resolve_dim_override,
};
use onnx2webnn::progress::{Progress, Propagated, Work};
use onnx2webnn::protos::{
    AttributeProto, DimensionProto, GraphProto, ModelProto, NodeProto, OperatorSetIdProto,
    StringStringEntryProto, TensorProto, TensorTypeProto, ValueInfoProto, TYPE_BOOL, TYPE_DOUBLE,
    TYPE_FLOAT, TYPE_INT32, TYPE_INT64,
};
use onnx2webnn::registry::{Handler, OpRegistry};
use onnx2webnn::types::{
    map_onnx_data_type, sanitize_identifier, DataType, Dimension, Dims,
};

fn s(t: &str) -> String {
    t.to_string()
}

fn input(name: &str, elem_type: i32, dims: Vec<DimensionProto>) -> ValueInfoProto {
    ValueInfoProto {
        name: s(name),
        tensor_type: Some(TensorTypeProto { elem_type, shape: Some(dims) }),
    }
}

fn value(v: i64) -> DimensionProto {
    DimensionProto::DimValue(v)
}

fn param(p: &str) -> DimensionProto {
    DimensionProto::DimParam(s(p))
}

fn node(op: &str, name: &str, inputs: &[&str], outputs: &[&str]) -> NodeProto {
    NodeProto {
        op_type: s(op),
        name: s(name),
        input: inputs.iter().map(|t| s(t)).collect(),
        output: outputs.iter().map(|t| s(t)).collect(),
        ..Default::default()
    }
}

fn model(graph: GraphProto) -> ModelProto {
    ModelProto { graph: Some(graph), ..Default::default() }
}

fn registry() -> OpRegistry {
    OpRegistry::new(vec![s("Add"), s("Constant"), s("Range")])
}

fn options(dynamic: bool, overrides: &[(&str, u32)]) -> ConvertOptions {
    let mut o = ConvertOptions::default();
    o.experimental_dynamic_inputs = dynamic;
    for (k, v) in overrides {
        o.free_dim_overrides.insert(s(k), *v);
    }
    o
}

fn begin(m: ModelProto, o: &ConvertOptions, b: &mut OnnxBuilder) -> Result<Lowering, OnnxError> {
    let payloads = m
        .graph
        .as_ref()
        .map(|g| g.initializer.iter().map(|t| Ok(t.raw_data.clone())).collect())
        .unwrap_or_default();
    OnnxConverter::new(m).unwrap().convert_with_builder(&registry(), o, &payloads, b)
}

#[test]
fn test_convert_options_default() {
    let options = ConvertOptions::default();
    assert!(!options.optimize);
    assert!(options.free_dim_overrides.is_empty());
}

#[test]
fn test_sanitize_identifier_replaces_colons() {
    assert_eq!(sanitize_identifier("foo::bar"), "foo__bar");
    assert_eq!(sanitize_identifier("foo:bar"), "foo_bar");
}

#[test]
fn test_sanitize_identifier_replaces_dots() {
    assert_eq!(sanitize_identifier("encoder.block.0"), "encoder_block_0");
    assert_eq!(sanitize_identifier("model.layer.weight"), "model_layer_weight");
    assert_eq!(sanitize_identifier("a.b.c"), "a_b_c");
}

#[test]
fn test_sanitize_identifier_replaces_combined() {
    // Test combinations of :: : and .
    assert_eq!(
        sanitize_identifier("module::class:method.field"),
        "module__class_method_field"
    );
    assert_eq!(
        sanitize_identifier("encoder.attention::output:dense"),
        "encoder_attention__output_dense"
    );
}

#[test]
fn test_sanitize_identifier_no_change() {
    // Identifiers that don't need sanitization
    assert_eq!(sanitize_identifier("simple_name"), "simple_name");
    assert_eq!(sanitize_identifier("CamelCase"), "CamelCase");
    assert_eq!(sanitize_identifier("name123"), "name123");
}

#[test]
fn sanitized_names_are_stable_and_start_with_no_digit() {
    assert_eq!(sanitize_identifier("495"), "_495");
    assert_eq!(sanitize_identifier("_495"), "_495");
    assert_eq!(sanitize_identifier("/a/b.c"), "_a_b_c");
    assert_eq!(sanitize_identifier(&sanitize_identifier("4/x:y")), sanitize_identifier("4/x:y"));
    assert_eq!(sanitize_identifier(""), "");
}

#[test]
fn test_inline_bytes_encoding_for_i64_values() {
    // Test the inline bytes encoding logic used for non-scalar constants
    // This simulates what happens when Range or similar ops produce constant arrays
    let values: Vec<i64> = vec![0, 1, 2, 3, 4];
    let bytes = to_le_bytes(&values, 8);

    // Verify byte length
    assert_eq!(bytes.len(), 40); // 5 values * 8 bytes each

    // Verify first value (0)
    let first_bytes: [u8; 8] = bytes[0..8].try_into().unwrap();
    assert_eq!(i64::from_le_bytes(first_bytes), 0);

    // Verify last value (4)
    let last_bytes: [u8; 8] = bytes[32..40].try_into().unwrap();
    assert_eq!(i64::from_le_bytes(last_bytes), 4);
}

#[test]
fn test_inline_bytes_encoding_single_value() {
    // Test single value encoding
    let values: Vec<i64> = vec![42];
    let bytes = to_le_bytes(&values, 8);

    assert_eq!(bytes.len(), 8);
    let decoded: [u8; 8] = bytes.try_into().unwrap();
    assert_eq!(i64::from_le_bytes(decoded), 42);
}

#[test]
fn test_inline_bytes_encoding_negative_values() {
    // Test with negative values (important for Range with negative delta)
    let values: Vec<i64> = vec![5, 4, 3, 2, 1, 0, -1, -2];
    let bytes = to_le_bytes(&values, 8);

    assert_eq!(bytes.len(), 64); // 8 values * 8 bytes each

    // Verify a negative value
    let neg_bytes: [u8; 8] = bytes[56..64].try_into().unwrap();
    assert_eq!(i64::from_le_bytes(neg_bytes), -2);
}

#[test]
fn test_inline_bytes_encoding_large_values() {
    // Test with large i64 values
    let values: Vec<i64> = vec![i64::MAX, i64::MIN, 0];
    let bytes = to_le_bytes(&values, 8);

    assert_eq!(bytes.len(), 24);

    // Verify MAX value
    let max_bytes: [u8; 8] = bytes[0..8].try_into().unwrap();
    assert_eq!(i64::from_le_bytes(max_bytes), i64::MAX);

    // Verify MIN value
    let min_bytes: [u8; 8] = bytes[8..16].try_into().unwrap();
    assert_eq!(i64::from_le_bytes(min_bytes), i64::MIN);
}

#[test]
fn written_integers_are_read_back() {
    let values: Vec<i64> = vec![0, -1, i64::MIN, i64::MAX, 513];
    assert_eq!(read_signed_chunks(&to_le_bytes(&values, 8), 8), values);
    assert_eq!(read_signed_chunks(&to_le_bytes(&vec![-2, 70_000], 4), 4), vec![-2, 70_000]);
    assert_eq!(to_le_bytes(&vec![-1, 258], 1), vec![255, 2]);
    assert_eq!(read_signed_chunks(&vec![1, 0, 0, 0, 9], 4), vec![1]);
}

#[test]
fn integers_round_to_the_nearest_float() {
    for v in [0i64, 1, -3, 16_777_216, 16_777_217, 16_777_219, i64::MAX, i64::MIN, 123_456_789] {
        assert_eq!(int_to_f32(v), (v as f32).to_bits(), "{v}");
    }
}

#[test]
fn test_collects_all_unsupported_ops() {
    let model = ModelProto {
        opset_import: vec![OperatorSetIdProto { version: 17, ..Default::default() }],
        graph: Some(GraphProto {
            node: vec![
                NodeProto { op_type: s("If"), name: s("if_node"), ..Default::default() },
                NodeProto { op_type: s("Loop"), name: s("loop_node"), ..Default::default() },
                NodeProto { op_type: s("Add"), name: s("add_node"), ..Default::default() },
            ],
            ..Default::default()
        }),
        ..Default::default()
    };

    let mut b = OnnxBuilder::new();
    let err = match begin(model, &ConvertOptions::default(), &mut b) {
        Err(err) => err,
        Ok(_) => panic!("expected unsupported ops error"),
    };
    assert!(err.is_unsupported_op());
    let ops = err.unsupported_ops().expect("unsupported ops payload");
    assert_eq!(ops.len(), 2);
    assert_eq!(ops[0].op, "If");
    assert_eq!(ops[0].node, "if_node");
    assert_eq!(ops[1].op, "Loop");
    assert_eq!(ops[1].node, "loop_node");
    assert_eq!(
        err.message(),
        "unsupported operator(s): If (node: if_node), Loop (node: loop_node)"
    );
}

#[test]
fn test_convert_preserves_dynamic_input_dim_without_override() {
    let info = || input("input_ids", TYPE_INT64, vec![param("batch_size"), value(1)]);
    let model = model(GraphProto {
        input: vec![info()],
        output: vec![info()],
        ..Default::default()
    });
    let mut b = OnnxBuilder::new();
    let l = match begin(model, &options(true, &[]), &mut b) {
        Ok(l) => l,
        Err(e) => panic!("dynamic inputs should be kept: {}", e.message()),
    };
    assert_eq!(
        b.steps,
        vec![BuilderOp::Input {
            name: s("input_ids"),
            dtype: DataType::Int64,
            shape: Dims {
                items: vec![
                    Dimension::Dynamic { name: s("batch_size"), max_size: 8 },
                    Dimension::Static(1),
                ],
            },
        }]
    );
    // Inference goes by the upper bound.
    assert_eq!(l.context.value_shapes.get(&s("input_ids")), Some(&vec![8, 1]));
    assert_eq!(l.inference_overrides.get(&s("batch_size")), Some(&8));
}

#[test]
fn test_convert_rejects_dynamic_input_dim_without_flag() {
    let info = || input("input_ids", TYPE_INT64, vec![param("unknown_dim"), value(1)]);
    let model = model(GraphProto {
        input: vec![info()],
        output: vec![info()],
        ..Default::default()
    });
    let mut b = OnnxBuilder::new();
    let msg = match begin(model, &ConvertOptions::default(), &mut b) {
        Err(err) => err.message(),
        Ok(_) => panic!("should require overrides or flag"),
    };
    assert!(msg.contains("override-dim"));
    assert!(msg.contains("experimental-dynamic-inputs"));
}

#[test]
fn axes_are_resolved_by_sizes_overrides_and_batch_names() {
    let dims = vec![value(3), value(0), param("Seq"), param("batch")];
    let g = GraphProto { input: vec![input("a.b", TYPE_FLOAT, dims)], ..Default::default() };
    let mut b = OnnxBuilder::new();
    let l = match begin(model(g), &options(false, &[("a_b_dim1", 5), ("seq", 6)]), &mut b) {
        Ok(l) => l,
        Err(e) => panic!("{}", e.message()),
    };
    let sizes = [3, 5, 6, 1].map(Dimension::Static);
    assert_eq!(
        b.steps,
        vec![BuilderOp::Input {
            name: s("a.b"),
            dtype: DataType::Float32,
            shape: Dims { items: sizes.into_iter().collect() },
        }]
    );
    assert_eq!(l.names.get(&s("a.b")), Some(&s("a_b")));
    assert_eq!(l.context.value_types.get(&s("a_b")), Some(&DataType::Float32));
    assert_eq!(l.effective_overrides.get(&s("batch")), Some(&1));
    // A size that is declared as zero is not known to inference.
    assert!(l.context.value_shapes.get(&s("a.b")).is_none());
}

#[test]
fn inputs_that_cannot_be_declared_say_why() {
    let fails = |i: ValueInfoProto| {
        let mut b = OnnxBuilder::new();
        let g = GraphProto { input: vec![i], ..Default::default() };
        match begin(model(g), &ConvertOptions::default(), &mut b) {
            Err(e) => e.message(),
            Ok(_) => panic!("should fail"),
        }
    };
    assert_eq!(
        fails(input("x", TYPE_FLOAT, vec![value(-1)])),
        "invalid tensor shape: Input 'x' has non-positive dim value (-1) at index 0. Provide --override-dim x_dim0=<value> or enable --experimental-dynamic-inputs."
    );
    assert_eq!(
        fails(input("x", TYPE_FLOAT, vec![value(1), DimensionProto::Unknown])),
        "invalid tensor shape: Input 'x' has unknown dimension at index 1. Provide --override-dim x_dim1=<value> or enable --experimental-dynamic-inputs."
    );
    assert_eq!(
        fails(ValueInfoProto {
            name: s("x"),
            tensor_type: Some(TensorTypeProto { elem_type: TYPE_FLOAT, shape: None }),
        }),
        "invalid tensor shape: Input 'x' is missing shape information"
    );
    assert_eq!(
        fails(input("x", 8, vec![value(1)])),
        "type conversion error: unsupported data type code: 8"
    );
}

#[test]
fn scalars_initializers_and_opaque_inputs_are_passed_over() {
    let g = GraphProto {
        input: vec![
            input("scalar", TYPE_FLOAT, vec![]),
            input("w", TYPE_FLOAT, vec![value(-1)]),
            ValueInfoProto { name: s("opaque"), tensor_type: None },
        ],
        initializer: vec![TensorProto::raw(s("w"), TYPE_FLOAT, vec![1], vec![0, 0, 128, 63])],
        ..Default::default()
    };
    let mut b = OnnxBuilder::new();
    assert!(begin(model(g), &ConvertOptions::default(), &mut b).is_ok());
    assert_eq!(
        b.steps,
        vec![BuilderOp::Constant {
            name: s("w"),
            dtype: DataType::Float32,
            shape: vec![1],
            data: ConstData::Bytes(vec![0, 0, 128, 63]),
        }]
    );
}

#[test]
fn initializers_become_constants_or_absent_values() {
    let g = GraphProto {
        initializer: vec![
            TensorProto::raw(s("empty"), TYPE_INT64, vec![0], vec![]),
            TensorProto::raw(s("no.data"), TYPE_FLOAT, vec![2], vec![]),
            TensorProto::raw(s("k.1"), TYPE_INT64, vec![1], vec![7, 0, 0, 0, 0, 0, 0, 0]),
        ],
        ..Default::default()
    };
    let mut b = OnnxBuilder::new();
    let l = match begin(model(g), &ConvertOptions::default(), &mut b) {
        Ok(l) => l,
        Err(e) => panic!("{}", e.message()),
    };
    assert_eq!(
        b.steps,
        vec![
            BuilderOp::MarkEmptyOptional { name: s("empty") },
            BuilderOp::Constant {
                name: s("k.1"),
                dtype: DataType::Int64,
                shape: vec![1],
                data: ConstData::Bytes(vec![7, 0, 0, 0, 0, 0, 0, 0]),
            },
        ]
    );
    assert_eq!(l.const_values.get(&s("k.1")), Some(&vec![7]));
    assert_eq!(l.context.value_shapes.get(&s("k.1")), Some(&vec![1]));
    assert_eq!(l.names.get(&s("k_1")), Some(&s("k_1")));
    assert!(l.context.initializers.get(&s("no.data")).is_none());

    let bad = GraphProto {
        initializer: vec![TensorProto::raw(s("x"), TYPE_FLOAT, vec![1], vec![1])],
        ..Default::default()
    };
    let c = OnnxConverter::new(model(bad)).unwrap();
    let mut b = OnnxBuilder::new();
    let r = c.convert_with_builder(
        &registry(),
        &ConvertOptions::default(),
        &vec![Err(s("short payload"))],
        &mut b,
    );
    match r {
        Err(e) => assert_eq!(e.message(), "invalid tensor shape: short payload"),
        Ok(_) => panic!("should fail"),
    }
}

#[test]
fn opsets_outside_the_supported_range_are_rejected() {
    let check = |domain: &str, version: i64| {
        let m = ModelProto {
            opset_import: vec![OperatorSetIdProto { domain: s(domain), version }],
            graph: Some(GraphProto::default()),
            ..Default::default()
        };
        OnnxConverter::new(m).unwrap().check(&registry())
    };
    assert!(check("", 1).is_ok());
    assert!(check("ai.onnx", 26).is_ok());
    assert!(check("com.microsoft", 99).is_ok());
    assert_eq!(
        check("", 27).unwrap_err().message(),
        "unsupported ONNX opset version 27 for domain 'ai.onnx'"
    );
    assert_eq!(
        check("ai.onnx", 0).unwrap_err(),
        OnnxError::UnsupportedOpset { domain: s("ai.onnx"), version: 0 }
    );
}

#[test]
fn a_model_needs_a_graph() {
    let c = OnnxConverter::new(ModelProto::default()).unwrap();
    assert_eq!(
        c.extract_metadata().unwrap_err().message(),
        "failed to parse ONNX protobuf: Missing graph in model"
    );
    assert!(c.check(&registry()).is_err());
    let c = OnnxConverter::new(model(GraphProto {
        node: vec![node("Add", "a", &["x", "x"], &["y"])],
        ..Default::default()
    }))
    .unwrap();
    let summary = c.extract_metadata().unwrap();
    assert_eq!(summary.name, "graph");
    assert_eq!((summary.nodes, summary.inputs), (1, 0));
}

#[test]
fn metadata_overrides_do_not_replace_given_ones() {
    let m = ModelProto {
        metadata_props: vec![StringStringEntryProto {
            key: s("FreeDimensionOverrides"),
            value: s("{\"freeDimensionOverrides\": {\"n\": 4, \"m\": 5, \"bad\": -1, \"t\": \"x\"}}"),
        }],
        graph: Some(GraphProto {
            input: vec![input("x", TYPE_FLOAT, vec![param("n"), param("m")])],
            ..Default::default()
        }),
        ..Default::default()
    };
    let mut b = OnnxBuilder::new();
    let l = match begin(m, &options(false, &[("n", 2)]), &mut b) {
        Ok(l) => l,
        Err(e) => panic!("{}", e.message()),
    };
    assert_eq!(l.effective_overrides.get(&s("n")), Some(&2));
    assert_eq!(l.effective_overrides.get(&s("m")), Some(&5));
    assert!(l.effective_overrides.get(&s("bad")).is_none());
    assert!(l.inference_overrides.get(&s("m")).is_none());
}

#[test]
fn json_bindings_are_flat_or_nested() {
    let mut m = NameMap::new();
    merge_json(&mut m, "{\"a\": 1, \"b\": 4294967297, \"c\": 1.5}");
    assert_eq!(m.get(&s("a")), Some(&1));
    // Cut to 32 bits.
    assert_eq!(m.get(&s("b")), Some(&1));
    assert!(m.get(&s("c")).is_none());
    merge_json(&mut m, "{\"freeDimensionOverrides\": {\"a\": 9, \"d\": 2}, \"e\": 3}");
    assert_eq!(m.get(&s("a")), Some(&1));
    assert_eq!(m.get(&s("d")), Some(&2));
    assert!(m.get(&s("e")).is_none());
    merge_json(&mut m, "[1]");
    merge_json(&mut m, "not json");
    assert_eq!(m.len(), 3);
    add_bindings(&mut m, &vec![(s("f"), Some(6)), (s("g"), None), (s("f"), Some(7))]);
    assert_eq!(m.get(&s("f")), Some(&6));
    assert!(m.get(&s("g")).is_none());
}

#[test]
fn symbols_are_looked_up_in_lower_case_too() {
    let mut m = NameMap::new();
    m.insert(s("seq"), 4u32);
    assert_eq!(resolve_dim_override(&s("SEQ"), &m), Some(4));
    assert_eq!(resolve_dim_override(&s("s"), &m), None);
    assert_eq!(dynamic_max_for_dim(&s("past_len")), 4096);
    assert_eq!(dynamic_max_for_dim(&s("T")), 4096);
    assert_eq!(dynamic_max_for_dim(&s("N")), 8);
    assert_eq!(dynamic_max_for_dim(&s("width")), 65_535);
    assert_eq!(dimension_for_param(&s("seq"), &m), Dimension::Static(4));
    assert_eq!(resolve_dim_for_inference(&s("Batch"), &mut m), Some(1));
    assert_eq!(m.get(&s("Batch")), Some(&1));
    assert_eq!(resolve_dim_for_inference(&s("other"), &mut m), None);
}

#[test]
fn data_types_map_to_webnn() {
    assert_eq!(map_onnx_data_type(TYPE_BOOL).unwrap(), DataType::Uint8);
    assert_eq!(map_onnx_data_type(TYPE_DOUBLE).unwrap(), DataType::Float32);
    assert_eq!(map_onnx_data_type(TYPE_INT32).unwrap(), DataType::Int32);
    assert_eq!(map_onnx_data_type(22).unwrap(), DataType::Int4);
    assert_eq!(
        map_onnx_data_type(8).unwrap_err(),
        OnnxError::TypeConversion(ConversionError::UnsupportedOnnxDataType(8))
    );
}

fn empty_lowering() -> Lowering {
    let mut b = OnnxBuilder::new();
    match begin(model(GraphProto::default()), &ConvertOptions::default(), &mut b) {
        Ok(l) => l,
        Err(e) => panic!("{}", e.message()),
    }
}

#[test]
fn inference_is_tried_again_once_for_a_symbol() {
    let mut l = empty_lowering();
    let event = InferenceEvent::DynamicDim(s("seq"));
    assert_eq!(l.on_inference(&event, false).unwrap(), false);
    assert_eq!(l.on_inference(&event, true).unwrap(), true);
    assert_eq!(l.inference_overrides.get(&s("seq")), Some(&4096));
    assert_eq!(l.on_inference(&event, true).unwrap(), false);
    assert_eq!(
        l.on_inference(&InferenceEvent::Failed(s("bad node")), true).unwrap_err().message(),
        "shape inference failed for node: bad node"
    );
}

#[test]
fn inferred_shapes_are_added_and_constants_corrected() {
    let mut l = empty_lowering();
    l.context.value_shapes.insert(s("x"), vec![1]);
    l.const_values.insert(s("x"), vec![1]);
    let mut i = Inferred {
        value_shapes: NameMap::new(),
        value_types: NameMap::new(),
        const_values: NameMap::new(),
    };
    i.value_shapes.insert(s("x"), vec![2]);
    i.value_shapes.insert(s("y"), vec![3]);
    i.value_types.insert(s("y"), DataType::Int32);
    i.const_values.insert(s("x"), vec![5]);
    assert_eq!(l.on_inference(&InferenceEvent::Inferred(i), false).unwrap(), false);
    assert_eq!(l.context.value_shapes.get(&s("x")), Some(&vec![1]));
    assert_eq!(l.context.value_shapes.get(&s("y")), Some(&vec![3]));
    assert_eq!(l.const_values.get(&s("x")), Some(&vec![5]));
}

#[test]
fn known_outputs_are_emitted_as_constants() {
    let mut l = empty_lowering();
    l.const_values.insert(s("r.0"), vec![3, -1]);
    l.context.value_shapes.insert(s("r.0"), vec![4, 4]);
    l.context.value_types.insert(s("r.0"), DataType::Int32);
    let n = node("Range", "range", &["a"], &["r.0"]);
    let mut b = OnnxBuilder::new();
    assert!(l.node_fits(&n, &registry()));
    assert_eq!(l.lower_node(&n, &registry(), &mut b).unwrap(), NodeStep::Emitted);
    assert_eq!(
        b.steps,
        vec![BuilderOp::Constant {
            name: s("r_0"),
            dtype: DataType::Int32,
            shape: vec![2],
            data: ConstData::Bytes(vec![3, 0, 0, 0, 255, 255, 255, 255]),
        }]
    );
    // The shape did not fit the values and was repaired.
    assert_eq!(l.context.value_shapes.get(&s("r.0")), Some(&vec![2]));
    assert_eq!(l.context.value_shapes.get(&s("r_0")), Some(&vec![2]));
}

#[test]
fn emitted_payloads_follow_the_tracked_type() {
    let data = |t: DataType| {
        let mut l = empty_lowering();
        l.const_values.insert(s("o"), vec![2, 3]);
        l.context.value_types.insert(s("o"), t);
        let mut b = OnnxBuilder::new();
        l.lower_node(&node("Range", "r", &[], &["o"]), &registry(), &mut b).unwrap();
        match b.steps.pop().unwrap() {
            BuilderOp::Constant { dtype, data, .. } => (dtype, data),
            other => panic!("{other:?}"),
        }
    };
    assert_eq!(data(DataType::Uint8), (DataType::Uint8, ConstData::Bytes(vec![2, 3])));
    let mut floats = 2.0f32.to_le_bytes().to_vec();
    floats.extend(3.0f32.to_le_bytes());
    assert_eq!(data(DataType::Float32), (DataType::Float32, ConstData::Bytes(floats)));
    assert_eq!(
        data(DataType::Float16),
        (
            DataType::Float16,
            ConstData::Floats(vec![
                FloatBits::Single(2.0f32.to_bits()),
                FloatBits::Single(3.0f32.to_bits()),
            ])
        )
    );
    let mut wide = 2i64.to_le_bytes().to_vec();
    wide.extend(3i64.to_le_bytes());
    assert_eq!(data(DataType::Uint32), (DataType::Int64, ConstData::Bytes(wide)));
}

#[test]
fn scalars_and_absent_values_are_emitted() {
    let mut l = empty_lowering();
    l.const_values.insert(s("k"), vec![9]);
    l.context.value_shapes.insert(s("k"), vec![]);
    let mut b = OnnxBuilder::new();
    l.lower_node(&node("Range", "r", &[], &["k"]), &registry(), &mut b).unwrap();
    let constant = || BuilderOp::Constant {
        name: s("k"),
        dtype: DataType::Int64,
        shape: vec![],
        data: ConstData::Bytes(vec![9, 0, 0, 0, 0, 0, 0, 0]),
    };
    assert_eq!(b.steps, vec![constant(), constant()]);

    let mut l = empty_lowering();
    l.const_values.insert(s("e"), vec![]);
    let n = node("Range", "r", &[], &["e"]);
    let mut b = OnnxBuilder::new();
    assert!(l.node_fits(&n, &registry()));
    l.lower_node(&n, &registry(), &mut b).unwrap();
    assert_eq!(b.steps, vec![BuilderOp::MarkEmptyOptional { name: s("e") }]);
    // An empty value declared as a scalar has no first element to emit.
    l.context.value_shapes.insert(s("e"), vec![]);
    assert!(!l.node_fits(&n, &registry()));
}

#[test]
fn some_nodes_are_never_emitted() {
    let mut l = empty_lowering();
    l.const_values.insert(s("o"), vec![1]);
    for op in ["Cast", "ConstantOfShape", "Equal", "Not", "Xor"] {
        assert!(!l.is_constant_node(&node(op, "n", &[], &["o"])), "{op}");
    }
    assert!(l.is_constant_node(&node("Range", "n", &[], &["o"])));
    assert!(!l.is_constant_node(&node("Range", "n", &[], &["o", "p"])));
    assert!(!l.is_constant_node(&node("Range", "n", &[], &[])));
    l.value_shape_dims.insert(
        s("o"),
        Dims { items: vec![Dimension::Dynamic { name: s("n"), max_size: 8 }] },
    );
    assert!(!l.is_constant_node(&node("Range", "n", &[], &["o"])));
    assert!(is_element_wise_logical_onnx_op("GreaterOrEqual"));
    assert!(!is_element_wise_logical_onnx_op("Add"));
}

#[test]
fn nodes_are_lowered_by_their_handler_or_elsewhere() {
    let r = registry();
    assert_eq!(r.find_handler("QMoE"), Some(Handler::Moe));
    assert_eq!(r.find_handler("LSTM"), Some(Handler::Rnn));
    assert_eq!(r.find_handler("GroupQueryAttention"), Some(Handler::Attention));
    assert_eq!(r.find_handler("Add"), None);
    assert!(r.is_supported(&s("Add")));
    assert!(!r.is_supported(&s("Loop")));
    let mut l = empty_lowering();
    let mut b = OnnxBuilder::new();
    let m = node("MatMul", "mm", &["a", "b"], &["c"]);
    assert!(l.node_fits(&m, &r));
    assert_eq!(l.lower_node(&m, &r, &mut b).unwrap(), NodeStep::Lowered);
    assert_eq!(b.steps.len(), 4);
    l.note_shape(&m, &vec![2, 3]);
    assert_eq!(l.context.value_shapes.get(&s("c")), Some(&vec![2, 3]));
    let a = node("Add", "add", &["a", "b"], &["d.0"]);
    assert_eq!(l.lower_node(&a, &r, &mut b).unwrap(), NodeStep::Elsewhere);
    let mut t = NameMap::new();
    t.insert(s("d.0"), DataType::Float16);
    l.note_types(&t);
    assert_eq!(l.names.get(&s("d.0")), Some(&s("d_0")));
    assert_eq!(l.context.value_types.get(&s("d_0")), Some(&DataType::Float16));
}

#[test]
fn constant_nodes_seed_integers() {
    let mut c = node("Constant", "c", &[], &["k"]);
    c.attribute.push(AttributeProto {
        name: s("value"),
        t: Some(TensorProto { int32_data: vec![4, -5], ..TensorProto::raw(s("t"), TYPE_INT32, vec![2], vec![]) }),
        ..Default::default()
    });
    let g = GraphProto { node: vec![c], ..Default::default() };
    let mut b = OnnxBuilder::new();
    let l = match begin(model(g), &ConvertOptions::default(), &mut b) {
        Ok(l) => l,
        Err(e) => panic!("{}", e.message()),
    };
    assert_eq!(l.const_values.get(&s("k")), Some(&vec![4, -5]));
    assert_eq!(l.context.value_types.get(&s("k")), Some(&DataType::Int64));
}

#[test]
fn preparation_fills_pins_and_prunes() {
    let mut w = TensorProto::raw(s("w"), TYPE_FLOAT, vec![2], vec![]);
    w.data_location = 1;
    let mut m = model(GraphProto {
        input: vec![input("flag", TYPE_BOOL, vec![value(1)]), input("unused", TYPE_FLOAT, vec![])],
        output: vec![input("y", TYPE_FLOAT, vec![])],
        node: vec![node("Add", "a", &["w", "w"], &["y"])],
        initializer: vec![w],
        ..Default::default()
    });
    let mut o = ConvertOptions::default();
    o.zero_fill_missing_external_data = true;
    o.pinned_inputs.insert(s("flag"), 0);
    prepare_model(&mut m, &o).unwrap();
    let g = m.graph.as_ref().unwrap();
    assert_eq!(g.initializer[0].raw_data, vec![0u8; 8]);
    assert_eq!(g.initializer[1].raw_data, vec![0u8]);
    prune_pinned_model(&mut m, &o);
    assert!(m.graph.as_ref().unwrap().input.is_empty());
    let unchanged = m.graph.as_ref().unwrap().copy();
    prune_pinned_model(&mut m, &ConvertOptions::default());
    assert_eq!(m.graph.unwrap(), unchanged);
}

#[test]
fn sequence_outputs_are_rejected() {
    assert!(reject_sequence_output(&s("y"), false).is_ok());
    assert_eq!(
        reject_sequence_output(&s("y"), true).unwrap_err(),
        OnnxError::UnsupportedOps(vec![UnsupportedOpEntry {
            op: s("SplitToSequence(sequence graph output)"),
            node: s("y"),
        }])
    );
}

#[test]
fn errors_have_texts() {
    assert_eq!(OnnxError::IoError(s("gone")).message(), "failed to read ONNX file: gone");
    assert_eq!(
        OnnxError::MissingAttribute { attr: s("a"), op: s("Op") }.message(),
        "missing required attribute: a in Op"
    );
    assert!(OnnxError::InvalidShape(s("x")).unsupported_ops().is_none());
}

#[test]
fn work_goes_through_the_nodes_in_order() {
    let nodes = vec![
        node("Range", "r", &[], &["k"]),
        node("MatMul", "mm", &["a", "b"], &["c"]),
        node("Add", "add", &["c", "k"], &["d"]),
    ];
    let r = registry();
    let mut p = Progress::new(empty_lowering(), nodes.len());
    assert_eq!(p.due, Work::Infer);
    p.on_inference(&InferenceEvent::DynamicDim(s("seq")), true).unwrap();
    assert_eq!(p.due, Work::Infer);
    assert!(p.on_inference(&InferenceEvent::Failed(s("bad")), true).is_err());
    assert_eq!(p.due, Work::Infer);
    p.on_inference(&InferenceEvent::DynamicDim(s("seq")), true).unwrap();
    assert_eq!(p.due, Work::Propagate);
    assert!(!p.node_fits(&nodes, &r));

    let mut known = Propagated {
        value_shapes: NameMap::new(),
        value_types: NameMap::new(),
        const_values: NameMap::new(),
        value_shape_dims: NameMap::new(),
    };
    known.const_values.insert(s("k"), vec![1, 2]);
    p.on_propagated(known);
    assert_eq!(p.due, Work::Node(0));

    let mut b = OnnxBuilder::new();
    assert!(p.node_fits(&nodes, &r));
    p.on_node(&nodes, &r, &mut b).unwrap();
    assert_eq!(b.steps.len(), 1);
    assert_eq!(p.due, Work::Node(1));
    p.on_node(&nodes, &r, &mut b).unwrap();
    assert_eq!(b.steps.len(), 5);
    assert_eq!(p.due, Work::Shape(1));
    p.on_shape(&nodes, Some(&vec![4]));
    assert_eq!(p.lowering.context.value_shapes.get(&s("c")), Some(&vec![4]));
    assert_eq!(p.due, Work::Node(2));
    p.on_node(&nodes, &r, &mut b).unwrap();
    assert_eq!(b.steps.len(), 5);
    assert_eq!(p.due, Work::Lower(2));
    let mut types = NameMap::new();
    types.insert(s("d.0"), DataType::Int32);
    p.on_lowered(&types);
    assert_eq!(p.lowering.context.value_types.get(&s("d_0")), Some(&DataType::Int32));
    assert_eq!(p.due, Work::Shape(2));
    p.on_shape(&nodes, None);
    assert_eq!(p.due, Work::Finished);
}

#[test]
fn a_node_that_fails_stays_due() {
    let nodes = vec![node("MatMul", "mm", &["a"], &["c"])];
    let r = registry();
    let mut p = Progress::new(empty_lowering(), 1);
    p.on_inference(&InferenceEvent::DynamicDim(s("n")), false).unwrap();
    p.on_propagated(Propagated {
        value_shapes: NameMap::new(),
        value_types: NameMap::new(),
        const_values: NameMap::new(),
        value_shape_dims: NameMap::new(),
    });
    let mut b = OnnxBuilder::new();
    assert!(p.node_fits(&nodes, &r));
    assert!(p.on_node(&nodes, &r, &mut b).is_err());
    assert_eq!(p.due, Work::Node(0));
    assert!(Progress::new(empty_lowering(), 0).count == 0);
}

#[test]
fn a_sidecar_counts_only_without_given_overrides() {
    let doc = r#"{"freeDimensionOverrides": {"batch": 2, "seq": 7}}"#;
    let mut o = options(false, &[]);
    assert!(o.takes_sidecar());
    o.merge_sidecar(doc);
    assert_eq!(o.free_dim_overrides.get(&s("seq")), Some(&7));
    let mut o = options(false, &[("batch", 1)]);
    assert!(!o.takes_sidecar());
    o.merge_sidecar(doc);
    assert_eq!(o.free_dim_overrides.get(&s("batch")), Some(&1));
    assert_eq!(o.free_dim_overrides.get(&s("seq")), None);
}
