use onnx2webnn::external::{
    check_location, choose_load, external_reference, next_external, read_failure, read_range,
    strip_initializer_payloads, supply_payload, tensor_byte_len, zero_fill,
    zero_fill_external_tensors, zero_fill_step, FillStep,
};
use onnx2webnn::inline_if::{inline_decided_ifs, round_due, seed_graph};
use onnx2webnn::names::NameMap;
use onnx2webnn::options::parse_pinned_input;
use onnx2webnn::pin::{pin_graph_inputs, pins_fit};
use onnx2webnn::protos::{
    AttributeProto, DimensionProto, GraphProto, ModelProto, NodeProto, OperatorSetIdProto,
    StringStringEntryProto, TensorProto, TensorTypeProto, ValueInfoProto, TYPE_BOOL, TYPE_DOUBLE,
    TYPE_FLOAT, TYPE_FLOAT16, TYPE_INT32, TYPE_INT64, TYPE_UINT4, TYPE_UINT8,
};
use onnx2webnn::prune::{
    prune_dead_nodes, prune_empty_graph_outputs, prune_unused_graph_inputs,
};

fn tensor(name: &str, data_type: i32, dims: &[i64]) -> TensorProto {
    TensorProto { name: name.to_string(), data_type, dims: dims.to_vec(), ..Default::default() }
}

fn f32_init(name: &str, dims: &[i64]) -> TensorProto {
    tensor(name, TYPE_FLOAT, dims)
}

fn i64_init(name: &str, dims: &[i64], values: &[i64]) -> TensorProto {
    TensorProto { int64_data: values.to_vec(), ..tensor(name, TYPE_INT64, dims) }
}

fn tensor_input(name: &str, elem_type: i32, dims: &[i64]) -> ValueInfoProto {
    ValueInfoProto {
        name: name.to_string(),
        tensor_type: Some(TensorTypeProto {
            elem_type,
            shape: Some(dims.iter().map(|d| DimensionProto::DimValue(*d)).collect()),
        }),
    }
}

fn f32_input(name: &str, dims: &[i64]) -> ValueInfoProto {
    tensor_input(name, TYPE_FLOAT, dims)
}

fn f32_output(name: &str, dims: &[i64]) -> ValueInfoProto {
    tensor_input(name, TYPE_FLOAT, dims)
}

fn node(op: &str, name: &str, inputs: &[&str], outputs: &[&str]) -> NodeProto {
    NodeProto {
        op_type: op.to_string(),
        name: name.to_string(),
        input: inputs.iter().map(|s| s.to_string()).collect(),
        output: outputs.iter().map(|s| s.to_string()).collect(),
        ..Default::default()
    }
}

fn graph(
    name: &str,
    input: Vec<ValueInfoProto>,
    output: Vec<ValueInfoProto>,
    node: Vec<NodeProto>,
    initializer: Vec<TensorProto>,
) -> GraphProto {
    GraphProto { name: name.to_string(), node, initializer, input, output, value_info: vec![] }
}

fn model(version: i64, graph: GraphProto) -> ModelProto {
    ModelProto {
        opset_import: vec![OperatorSetIdProto { version, ..Default::default() }],
        metadata_props: vec![],
        graph: Some(graph),
    }
}

fn entry(key: &str, value: &str) -> StringStringEntryProto {
    StringStringEntryProto { key: key.to_string(), value: value.to_string() }
}

fn pins(pairs: &[(&str, i64)]) -> NameMap<i64> {
    let mut m = NameMap::new();
    for (k, v) in pairs {
        m.insert(k.to_string(), *v);
    }
    m
}

fn names(g: &GraphProto) -> Vec<&str> {
    g.node.iter().map(|n| n.name.as_str()).collect()
}

// ---------------------------------------------------------------------------
// External data
// ---------------------------------------------------------------------------

fn model_with_missing_external_weight() -> ModelProto {
    let mut weight = f32_init("w", &[2, 3]);
    weight.data_location = 1;
    weight.external_data.push(entry("location", "does_not_exist.bin"));
    model(
        17,
        graph(
            "ext",
            vec![f32_input("x", &[2, 3])],
            vec![f32_output("y", &[2, 3])],
            vec![node("Add", "add", &["x", "w"], &["y"])],
            vec![weight],
        ),
    )
}

#[test]
fn tensor_byte_len_uses_dims_and_element_size() {
    assert_eq!(tensor_byte_len(&f32_init("a", &[2, 3])), Some(24));
    assert_eq!(tensor_byte_len(&i64_init("b", &[4], &[])), Some(32));
    assert_eq!(tensor_byte_len(&tensor("c", TYPE_UINT8, &[])), Some(1));
    assert_eq!(tensor_byte_len(&tensor("d", TYPE_FLOAT16, &[5])), Some(10));
}

#[test]
fn byte_len_of_packed_unknown_and_huge_tensors() {
    assert_eq!(tensor_byte_len(&tensor("a", TYPE_UINT4, &[3, 3])), Some(5));
    assert_eq!(tensor_byte_len(&tensor("a", TYPE_DOUBLE, &[2])), Some(16));
    assert_eq!(tensor_byte_len(&tensor("a", 8, &[2])), None);
    assert_eq!(tensor_byte_len(&f32_init("a", &[-1])), None);
    assert_eq!(tensor_byte_len(&f32_init("a", &[i64::MAX, 4])), None);
    assert_eq!(tensor_byte_len(&f32_init("a", &[0, 7])), Some(0));
}

#[test]
fn missing_external_data_is_zero_filled_only_when_allowed() {
    let mut m = model_with_missing_external_weight();
    let g = m.graph.as_mut().unwrap();
    assert_eq!(next_external(g, 0), Some(0));
    let reference = external_reference(&g.initializer[0]).unwrap();
    assert_eq!(reference.location, "does_not_exist.bin");
    assert_eq!((reference.offset, reference.length), (0, None));

    // Without permission the file is to be read, and reading it fails.
    let choice = choose_load(&g.initializer[0], &reference, false, true, false).unwrap();
    assert_eq!(choice, None);
    let err = read_failure("/tmp/does_not_exist.bin", "w", "not found");
    assert!(err.message().contains("does_not_exist.bin"), "{}", err.message());

    let choice = choose_load(&g.initializer[0], &reference, false, true, true).unwrap();
    assert_eq!(choice, Some(24));
    zero_fill(&mut g.initializer[0], 24);
    let w = &g.initializer[0];
    assert_eq!(w.data_location, 0);
    assert!(w.external_data.is_empty());
    assert_eq!(w.raw_data, vec![0u8; 24]);
    assert_eq!(next_external(g, 0), None);
}

#[test]
fn external_references_are_read_in_order() {
    let mut t = f32_init("w", &[2]);
    t.data_location = 1;
    t.external_data = vec![
        entry("location", "a.bin"),
        entry("offset", " 4 "),
        entry("length", "8"),
        entry("checksum", "?"),
        entry("location", "b.bin"),
    ];
    let r = external_reference(&t).unwrap();
    assert_eq!((r.location.as_str(), r.offset, r.length), ("b.bin", 4, Some(8)));
    assert_eq!(read_range(&r, &t.name, 12).unwrap(), (4, 12));
    assert_eq!(
        read_range(&r, &t.name, 11).unwrap_err().message(),
        "invalid tensor shape: external tensor 'w' range 4+Some(8) exceeds 'b.bin' (11 bytes)"
    );

    t.external_data = vec![entry("location", "a.bin"), entry("offset", "3")];
    let r = external_reference(&t).unwrap();
    assert_eq!(read_range(&r, &t.name, 10).unwrap(), (3, 10));

    t.external_data = vec![entry("offset", "x")];
    assert_eq!(
        external_reference(&t).unwrap_err().message(),
        "invalid tensor shape: invalid external data offset 'x' for tensor 'w'"
    );
    t.external_data = vec![entry("length", "-1")];
    assert_eq!(
        external_reference(&t).unwrap_err().message(),
        "invalid tensor shape: invalid external data length '-1' for tensor 'w'"
    );
    t.external_data = vec![];
    assert_eq!(
        external_reference(&t).unwrap_err().message(),
        "invalid tensor shape: external tensor 'w' has no data location"
    );
}

#[test]
fn locations_outside_the_model_directory_are_rejected() {
    let mut t = f32_init("w", &[2]);
    t.external_data = vec![entry("location", "../up.bin")];
    let r = external_reference(&t).unwrap();
    assert_eq!(
        choose_load(&t, &r, false, false, false).unwrap_err().message(),
        "invalid tensor shape: external tensor 'w' references a non-relative location '../up.bin'"
    );
    t.external_data = vec![entry("location", "/abs.bin")];
    let r = external_reference(&t).unwrap();
    assert!(choose_load(&t, &r, true, false, false).is_err());
    assert_eq!(choose_load(&t, &r, false, false, true).unwrap(), None);
}

#[test]
fn zero_fill_reaches_subgraphs_and_uses_declared_lengths() {
    let mut inner = tensor("s", 8, &[2]);
    inner.data_location = 1;
    inner.external_data = vec![entry("length", "3")];
    let mut holder = node("If", "if", &["c"], &["y"]);
    holder.attribute.push(AttributeProto {
        name: "then_branch".to_string(),
        g: Some(graph("b", vec![], vec![], vec![], vec![inner])),
        ..Default::default()
    });
    let mut w = f32_init("w", &[2]);
    w.data_location = 1;
    let mut g = graph("g", vec![], vec![], vec![holder], vec![w, i64_init("k", &[1], &[5])]);
    assert_eq!(zero_fill_step(&g), FillStep::Done);
    zero_fill_external_tensors(&mut g).unwrap();
    assert_eq!(g.initializer[0].raw_data, vec![0u8; 8]);
    assert_eq!(g.initializer[1].int64_data, vec![5]);
    let sub = g.node[0].attribute[0].g.as_ref().unwrap();
    assert_eq!(sub.initializer[0].raw_data, vec![0u8; 3]);
    assert_eq!(sub.initializer[0].data_location, 0);

    let mut bad = tensor("u", 8, &[2]);
    bad.data_location = 1;
    let mut g = graph("g", vec![], vec![], vec![], vec![bad]);
    assert_eq!(zero_fill_step(&g), FillStep::Failed);
    assert_eq!(
        zero_fill_external_tensors(&mut g).unwrap_err().message(),
        "invalid tensor shape: external tensor 'u' has no length and an unknown element size"
    );

    let mut huge = f32_init("h", &[i64::MAX / 2]);
    huge.data_location = 1;
    let g = graph("g", vec![], vec![], vec![], vec![huge]);
    assert_eq!(zero_fill_step(&g), FillStep::TooLarge);
}

#[test]
fn stripping_keeps_names_dims_and_types() {
    let mut t = i64_init("k", &[2], &[1, 2]);
    t.raw_data = vec![9];
    let mut g = graph("g", vec![], vec![], vec![node("Add", "a", &["k"], &["y"])], vec![t]);
    strip_initializer_payloads(&mut g);
    assert_eq!(g.initializer[0], tensor("k", TYPE_INT64, &[2]));
    assert_eq!(g.node[0], node("Add", "a", &["k"], &["y"]));
    let again = GraphProto { initializer: vec![tensor("k", TYPE_INT64, &[2])], ..g.copy() };
    strip_initializer_payloads(&mut g);
    assert_eq!(g, again);
}

#[test]
fn supplied_payloads_are_inline() {
    let mut t = f32_init("w", &[1]);
    t.data_location = 1;
    t.external_data = vec![entry("location", "a")];
    supply_payload(&mut t, vec![1, 2, 3, 4]);
    assert_eq!((t.data_location, t.raw_data.as_slice()), (0, &[1u8, 2, 3, 4][..]));
    assert!(t.external_data.is_empty());
}

// ---------------------------------------------------------------------------
// Pinned inputs
// ---------------------------------------------------------------------------

fn if_model_with_bool_input() -> ModelProto {
    model(
        17,
        graph(
            "pin_graph",
            vec![f32_input("x", &[2]), tensor_input("flag", TYPE_BOOL, &[1])],
            vec![f32_output("y", &[2])],
            vec![node("Add", "add", &["x", "x"], &["y"])],
            vec![],
        ),
    )
}

#[test]
fn parse_pinned_input_accepts_bools_and_integers() {
    assert_eq!(
        parse_pinned_input("use_cache_branch=false").unwrap(),
        ("use_cache_branch".to_string(), 0)
    );
    assert_eq!(parse_pinned_input(" flag = true ").unwrap(), ("flag".to_string(), 1));
    assert_eq!(parse_pinned_input("n=3").unwrap(), ("n".to_string(), 3));
    assert!(parse_pinned_input("flag").is_err());
    assert!(parse_pinned_input("flag=maybe").is_err());
}

#[test]
fn pin_arguments_at_the_edges() {
    assert_eq!(
        parse_pinned_input("n=-9223372036854775808").unwrap(),
        ("n".to_string(), i64::MIN)
    );
    assert_eq!(parse_pinned_input("a=b=1").unwrap_err().message(),
        "invalid tensor shape: Invalid pin-input value 'b=1' for 'a': expected true/false or an integer");
    assert_eq!(
        parse_pinned_input("flag").unwrap_err().message(),
        "invalid tensor shape: Invalid pin-input format: 'flag'. Expected NAME=VALUE"
    );
    assert!(parse_pinned_input("n=9223372036854775808").is_err());
    assert!(parse_pinned_input("n=").is_err());
    assert_eq!(parse_pinned_input("=+7").unwrap(), (String::new(), 7));
}

#[test]
fn pin_graph_inputs_turns_input_into_initializer() {
    let mut m = if_model_with_bool_input();
    let pinned = pins(&[("flag", 1)]);
    assert!(pins_fit(&m, &pinned));
    pin_graph_inputs(&mut m, &pinned).unwrap();
    let initializers_after_pin = {
        let g = m.graph.as_ref().unwrap();
        assert!(g.input.iter().all(|vi| vi.name != "flag"));
        let init = g.initializer.iter().find(|t| t.name == "flag").unwrap();
        assert_eq!(init.data_type, TYPE_BOOL);
        assert_eq!(init.dims, vec![1]);
        assert_eq!(init.raw_data, vec![1u8]);
        g.initializer.len()
    };

    // The input is gone now, so pinning it again is an error.
    assert!(pin_graph_inputs(&mut m, &pinned).is_err());
    assert_eq!(m.graph.as_ref().unwrap().initializer.len(), initializers_after_pin);

    let unknown = pins(&[("nope", 1)]);
    assert!(pin_graph_inputs(&mut m, &unknown).is_err());
}

#[test]
fn pin_graph_inputs_rejects_dynamic_dims() {
    let mut m = model(
        17,
        graph(
            "pin_dyn",
            vec![tensor_input("ids", TYPE_INT64, &[-1])],
            vec![f32_output("y", &[2])],
            vec![],
            vec![],
        ),
    );
    // Mark the dim symbolic.
    if let Some(tt) = m.graph.as_mut().unwrap().input[0].tensor_type.as_mut() {
        tt.shape.as_mut().unwrap()[0] = DimensionProto::DimParam("n".to_string());
    }
    let pinned = pins(&[("ids", 7)]);
    assert!(pin_graph_inputs(&mut m, &pinned).is_err());
}

#[test]
fn pinned_payloads_have_the_declared_type() {
    let mut m = model(
        17,
        graph(
            "g",
            vec![
                tensor_input("i", TYPE_INT32, &[2]),
                tensor_input("l", TYPE_INT64, &[]),
                tensor_input("f", TYPE_FLOAT, &[1, 1]),
                tensor_input("s", 8, &[1]),
            ],
            vec![],
            vec![],
            vec![],
        ),
    );
    pin_graph_inputs(&mut m, &pins(&[("i", -2), ("l", 258), ("f", -3)])).unwrap();
    let g = m.graph.as_ref().unwrap();
    assert_eq!(g.initializer[0].raw_data, vec![254, 255, 255, 255, 254, 255, 255, 255]);
    assert_eq!(g.initializer[1].raw_data, vec![2, 1, 0, 0, 0, 0, 0, 0]);
    assert_eq!(g.initializer[2].raw_data, (-3.0f32).to_le_bytes().to_vec());
    assert_eq!(g.input.len(), 1);
    assert_eq!(
        pin_graph_inputs(&mut m, &pins(&[("s", 1)])).unwrap_err().message(),
        "invalid tensor shape: pin-input: unsupported element type 8 for 's' (bool, int32, int64, float)"
    );
    let mut none = ModelProto::default();
    assert_eq!(
        pin_graph_inputs(&mut none, &pins(&[("s", 1)])).unwrap_err().message(),
        "invalid tensor shape: model has no graph"
    );
    assert!(pin_graph_inputs(&mut none, &pins(&[])).is_ok());
    let mut opaque = model(17, graph("g", vec![ValueInfoProto { name: "q".to_string(), tensor_type: None }], vec![], vec![], vec![]));
    assert_eq!(
        pin_graph_inputs(&mut opaque, &pins(&[("q", 1)])).unwrap_err().message(),
        "invalid tensor shape: pin-input: 'q' is not a tensor input"
    );
    let big = model(17, graph("g", vec![tensor_input("b", TYPE_INT64, &[i64::MAX, 2])], vec![], vec![], vec![]));
    assert!(!pins_fit(&big, &pins(&[("b", 1)])));
}

// ---------------------------------------------------------------------------
// Pruning
// ---------------------------------------------------------------------------

#[test]
fn prune_dead_nodes_drops_dead_chain_and_keeps_input_initializers() {
    let mut gather = node("Gather", "gather", &["xs", "idx"], &["d0"]);
    gather.attribute.push(AttributeProto { name: "axis".to_string(), i: 0, ..Default::default() });
    let mut m = model(
        17,
        graph(
            "prune_dead",
            vec![f32_input("x", &[2, 3]), tensor_input("kept_in", TYPE_INT64, &[1])],
            vec![f32_output("y", &[2, 3])],
            vec![
                node("Add", "live", &["x", "x"], &["y"]),
                // Dead chain: nothing consumes `cond`.
                node("Shape", "shape", &["x"], &["xs"]),
                gather,
                node("Equal", "eq", &["d0", "two"], &["cond"]),
            ],
            vec![
                i64_init("idx", &[], &[0]),
                i64_init("two", &[], &[2]),
                // Doubles as a graph input; must survive even though only
                // dead nodes referenced it.
                i64_init("kept_in", &[1], &[5]),
            ],
        ),
    );
    prune_dead_nodes(m.graph.as_mut().unwrap());
    let g = m.graph.as_ref().unwrap();
    assert_eq!(names(g), vec!["live"]);
    assert!(g.initializer.iter().all(|t| t.name != "idx" && t.name != "two"));
    assert!(g.initializer.iter().any(|t| t.name == "kept_in"));
    let once = g.copy();
    prune_dead_nodes(m.graph.as_mut().unwrap());
    assert_eq!(m.graph.unwrap(), once);
}

fn if_node(branch: fn(&str) -> GraphProto) -> NodeProto {
    let mut n = node("If", "test_if", &["cond"], &["y"]);
    for (name, g) in [("then_branch", branch("then")), ("else_branch", branch("else"))] {
        n.attribute.push(AttributeProto {
            name: name.to_string(),
            g: Some(g),
            ..Default::default()
        });
    }
    n
}

fn capturing_branch(tag: &str) -> GraphProto {
    graph(
        &format!("{tag}_g"),
        vec![],
        vec![f32_output("branch_out", &[2, 3])],
        vec![node("Identity", &format!("{tag}_id"), &["captured"], &["branch_out"])],
        vec![],
    )
}

#[test]
fn prune_dead_nodes_keeps_producers_captured_by_if_subgraphs() {
    // `captured` is produced at top level but consumed ONLY implicitly
    // inside the If's branch bodies - it must survive pruning.
    let mut m = model(
        17,
        graph(
            "prune_captures",
            vec![f32_input("x", &[2, 3]), tensor_input("cond", TYPE_BOOL, &[])],
            vec![f32_output("y", &[2, 3])],
            vec![
                node("Add", "capture_producer", &["x", "x"], &["captured"]),
                if_node(capturing_branch),
            ],
            vec![],
        ),
    );
    prune_dead_nodes(m.graph.as_mut().unwrap());
    let g = m.graph.as_ref().unwrap();
    let names = names(g);
    assert!(
        names.contains(&"capture_producer"),
        "producer consumed only inside If branches was pruned: {names:?}"
    );
    assert!(names.contains(&"test_if"));
}

#[test]
fn prune_empty_graph_outputs_drops_zero_size_constants() {
    let mut constant = node("Constant", "dummy_const", &[], &["dummy"]);
    constant.attribute.push(AttributeProto {
        name: "value".to_string(),
        t: Some(f32_init("dummy_val", &[0, 4])),
        ..Default::default()
    });
    let mut m = model(
        17,
        graph(
            "prune_out",
            vec![f32_input("x", &[2])],
            vec![f32_output("y", &[2]), f32_output("dummy", &[0, 4])],
            vec![node("Add", "add", &["x", "x"], &["y"]), constant],
            vec![],
        ),
    );
    prune_empty_graph_outputs(&mut m);
    let g = m.graph.as_ref().unwrap();
    assert_eq!(g.output.iter().map(|o| o.name.as_str()).collect::<Vec<_>>(), vec!["y"]);
    assert!(g.node.iter().all(|n| n.op_type != "Constant"));
}

#[test]
fn a_graph_that_would_lose_every_output_keeps_its_nodes() {
    let mut m = model(
        17,
        graph(
            "g",
            vec![],
            vec![f32_output("e", &[0])],
            vec![node("Add", "add", &["x", "x"], &["y"])],
            vec![f32_init("e", &[0])],
        ),
    );
    prune_empty_graph_outputs(&mut m);
    let g = m.graph.as_ref().unwrap();
    assert!(g.output.is_empty());
    assert_eq!(g.initializer.len(), 1);
    assert_eq!(g.node.len(), 1);
}

#[test]
fn prune_unused_graph_inputs_keeps_consumed_and_passthrough_inputs() {
    let mut m = model(
        17,
        graph(
            "prune_in",
            vec![f32_input("x", &[2]), f32_input("unused", &[2]), f32_input("passthrough", &[2])],
            vec![f32_output("y", &[2]), f32_output("passthrough", &[2])],
            vec![node("Add", "add", &["x", "x"], &["y"])],
            vec![],
        ),
    );
    prune_unused_graph_inputs(&mut m);
    let names: Vec<&str> =
        m.graph.as_ref().unwrap().input.iter().map(|vi| vi.name.as_str()).collect();
    assert_eq!(names, vec!["x", "passthrough"]);
}

// ---------------------------------------------------------------------------
// Inlining
// ---------------------------------------------------------------------------

fn branch_with_weight(tag: &str) -> GraphProto {
    graph(
        &format!("{tag}_g"),
        vec![],
        vec![f32_output("out", &[2])],
        vec![
            node("Add", "sum", &["x", "w"], &["mid"]),
            node("Mul", "", &["mid", "w"], &["out"]),
        ],
        vec![f32_init("w", &[2])],
    )
}

#[test]
fn a_pinned_condition_inlines_the_chosen_branch() {
    let mut m = model(
        17,
        graph(
            "g",
            vec![f32_input("x", &[2]), tensor_input("cond", TYPE_BOOL, &[1])],
            vec![f32_output("y", &[2])],
            vec![if_node(branch_with_weight)],
            vec![],
        ),
    );
    pin_graph_inputs(&mut m, &pins(&[("cond", 1)])).unwrap();
    assert!(round_due(&m, 0));
    assert!(!round_due(&m, 4));
    let g = m.graph.as_mut().unwrap();
    let seed = seed_graph(g, &NameMap::new());
    assert_eq!(seed.const_values.get(&"cond".to_string()), Some(&vec![1]));
    assert_eq!(seed.value_shapes.get(&"x".to_string()), Some(&vec![2]));
    assert!(inline_decided_ifs(g, &seed.const_values));
    assert_eq!(
        g.node,
        vec![
            node("Add", "test_if::sum", &["x", "test_if::w"], &["test_if::mid"]),
            node("Mul", "", &["test_if::mid", "test_if::w"], &["y"]),
        ]
    );
    // The pinned condition is dead now; the weight came along.
    let inits: Vec<&str> = g.initializer.iter().map(|t| t.name.as_str()).collect();
    assert_eq!(inits, vec!["cond", "test_if::w"]);
    assert!(!round_due(&m, 1));
}

#[test]
fn a_captured_branch_output_gets_a_passthrough() {
    let pass = |_: &str| graph("p", vec![], vec![f32_output("outer", &[2])], vec![], vec![]);
    let mut g = graph(
        "g",
        vec![f32_input("x", &[2])],
        vec![f32_output("y", &[2])],
        vec![node("Add", "add", &["x", "x"], &["outer"]), if_node(pass)],
        vec![],
    );
    let mut consts = NameMap::new();
    consts.insert("cond".to_string(), vec![0i64]);
    assert!(inline_decided_ifs(&mut g, &consts));
    assert_eq!(g.node[1], node("Identity", "test_if::passthrough_y", &["outer"], &["y"]));
}

#[test]
fn an_unknown_condition_leaves_the_graph_alone() {
    let mut g = graph(
        "g",
        vec![],
        vec![f32_output("y", &[2])],
        vec![if_node(capturing_branch)],
        vec![],
    );
    let before = g.copy();
    assert!(!inline_decided_ifs(&mut g, &NameMap::new()));
    assert_eq!(g, before);
}

#[test]
fn seeds_use_overrides_for_symbols_and_unnamed_axes() {
    let mut info = f32_input("a.b", &[0, 3]);
    info.tensor_type.as_mut().unwrap().shape.as_mut().unwrap()[1] =
        DimensionProto::DimParam("n".to_string());
    let g = graph("g", vec![info], vec![], vec![], vec![i64_init("k", &[2], &[4, 5])]);
    let mut over = NameMap::new();
    over.insert("a_b_dim0".to_string(), 7u32);
    let seed = seed_graph(&g, &over);
    assert!(seed.value_shapes.get(&"a.b".to_string()).is_none());
    over.insert("n".to_string(), 9u32);
    let seed = seed_graph(&g, &over);
    assert_eq!(seed.value_shapes.get(&"a.b".to_string()), Some(&vec![7, 9]));
    assert_eq!(seed.const_values.get(&"k".to_string()), Some(&vec![4, 5]));
}

fn decided(branch: GraphProto, outputs: &[&str], mut g: GraphProto) -> GraphProto {
    let mut n = node("If", "if1", &["cond"], outputs);
    n.attribute.push(AttributeProto {
        name: "then_branch".to_string(),
        g: Some(branch),
        ..Default::default()
    });
    g.node.push(n);
    g.initializer.push(i64_init("cond", &[], &[1]));
    let seed = seed_graph(&g, &NameMap::new());
    assert!(inline_decided_ifs(&mut g, &seed.const_values));
    g
}

/// Every name that a node reads is an input, an initializer or an earlier output.
fn assert_defined(g: &GraphProto) {
    let mut known: Vec<&str> = g.input.iter().map(|v| v.name.as_str()).collect();
    known.extend(g.initializer.iter().map(|t| t.name.as_str()));
    for n in &g.node {
        for i in &n.input {
            assert!(i.is_empty() || known.contains(&i.as_str()), "'{i}' read by {n:?}");
        }
        known.extend(n.output.iter().map(|o| o.as_str()));
    }
    for o in &g.output {
        assert!(known.contains(&o.name.as_str()), "{o:?}");
    }
}

#[test]
fn a_branch_output_that_is_an_initializer_is_passed_through() {
    let branch = graph(
        "b",
        vec![],
        vec![f32_output("c", &[2])],
        vec![],
        vec![TensorProto { raw_data: vec![7; 8], ..f32_init("c", &[2]) }],
    );
    let g = decided(
        branch,
        &["y"],
        graph("g", vec![], vec![f32_output("y", &[2])], vec![], vec![]),
    );
    assert_eq!(g.node, vec![node("Identity", "if1::passthrough_y", &["if1::c"], &["y"])]);
    let c = g.initializer.iter().find(|t| t.name == "if1::c").unwrap();
    assert_eq!(c.raw_data, vec![7; 8]);
    assert!(g.initializer.iter().all(|t| t.name != "y" && t.name != "c"));
    assert_defined(&g);
}

#[test]
fn a_capture_that_is_read_and_handed_out_keeps_its_name() {
    let branch = graph(
        "b",
        vec![],
        vec![f32_output("r", &[2]), f32_output("outer", &[2])],
        vec![node("Relu", "relu", &["outer"], &["r"])],
        vec![],
    );
    let g = decided(
        branch,
        &["y", "z"],
        graph(
            "g",
            vec![f32_input("x", &[2])],
            vec![f32_output("y", &[2]), f32_output("z", &[2])],
            vec![node("Add", "add", &["x", "x"], &["outer"])],
            vec![],
        ),
    );
    assert_eq!(
        g.node[1..],
        [
            node("Relu", "if1::relu", &["outer"], &["y"]),
            node("Identity", "if1::passthrough_z", &["outer"], &["z"]),
        ]
    );
    assert_defined(&g);
}

#[test]
fn an_initializer_without_a_name_is_prefixed_too() {
    let clip = |initializers| {
        decided(
            graph(
                "b",
                vec![],
                vec![f32_output("r", &[2])],
                vec![node("Clip", "", &["x", "", "top"], &["r", ""])],
                initializers,
            ),
            &["y"],
            graph(
                "g",
                vec![f32_input("x", &[2]), f32_input("top", &[])],
                vec![f32_output("y", &[2])],
                vec![],
                vec![],
            ),
        )
    };
    let g = clip(vec![f32_init("", &[])]);
    assert_eq!(g.node, vec![node("Clip", "", &["x", "if1::", "top"], &["y", "if1::"])]);
    assert!(g.initializer.iter().any(|t| t.name == "if1::"));
    assert_defined(&g);
    let g = clip(vec![]);
    assert_eq!(g.node, vec![node("Clip", "", &["x", "", "top"], &["y", ""])]);
}

#[test]
fn a_value_handed_out_twice_is_passed_on() {
    let branch = graph(
        "b",
        vec![],
        vec![f32_output("r", &[2]), f32_output("r", &[2])],
        vec![node("Relu", "", &["x"], &["r"]), node("Neg", "", &["r"], &["unused"])],
        vec![],
    );
    let g = decided(
        branch,
        &["y", "z"],
        graph(
            "g",
            vec![f32_input("x", &[2])],
            vec![f32_output("y", &[2]), f32_output("z", &[2])],
            vec![],
            vec![],
        ),
    );
    assert_eq!(
        g.node,
        vec![
            node("Relu", "", &["x"], &["z"]),
            node("Identity", "if1::passthrough_y", &["z"], &["y"]),
        ]
    );
    assert_defined(&g);
}

#[test]
fn bodies_within_a_branch_read_the_renamed_values() {
    // The loop body reads `mid` and `w` of the branch, and `x` of the graph; its
    // own `t` and the inner body's `mid` are not those of the branch.
    let inner = graph(
        "inner",
        vec![f32_input("mid", &[2])],
        vec![f32_output("w", &[2])],
        vec![node("Add", "", &["mid", "t"], &["i"])],
        vec![],
    );
    let mut nested = node("Scan", "nested", &["mid", ""], &["n"]);
    nested.attribute.push(AttributeProto {
        name: "body".to_string(),
        graphs: vec![inner],
        ..Default::default()
    });
    let body = graph(
        "body",
        vec![],
        vec![f32_output("t", &[2])],
        vec![node("Add", "", &["w", "x"], &["t"]), nested],
        vec![],
    );
    let mut scan = node("Loop", "loop", &["mid"], &["out"]);
    scan.attribute.push(AttributeProto {
        name: "body".to_string(),
        g: Some(body),
        ..Default::default()
    });
    let branch = graph(
        "b",
        vec![],
        vec![f32_output("out", &[2])],
        vec![
            node("Add", "", &["x", "w"], &["mid"]),
            node("Neg", "", &["mid"], &["t"]),
            scan,
        ],
        vec![f32_init("w", &[2])],
    );
    let g = decided(
        branch,
        &["y"],
        graph("g", vec![f32_input("x", &[2])], vec![f32_output("y", &[2])], vec![], vec![]),
    );
    assert_defined(&g);
    let scan = g.node.last().unwrap();
    assert_eq!(scan.input, vec!["if1::mid"]);
    let body = scan.attribute[0].g.as_ref().unwrap();
    assert_eq!(body.node[0].input, vec!["if1::w", "x"]);
    assert_eq!(body.node[0].output, vec!["t"]);
    assert_eq!(body.output[0].name, "t");
    assert_eq!(body.node[1].input, vec!["if1::mid", ""]);
    let inner = &body.node[1].attribute[0].graphs[0];
    assert_eq!(inner.node[0].input, vec!["mid", "t"]);
    assert_eq!(inner.output[0].name, "if1::w");
    // The producer of a value that only a body reads stays.
    assert!(g.node.iter().any(|n| n.output.iter().any(|o| o == "if1::mid")));
}

#[test]
fn locations_are_checked_before_files_are_looked_for() {
    let mut t = f32_init("w", &[2]);
    t.external_data =
        vec![StringStringEntryProto { key: "location".to_string(), value: "a/../b".to_string() }];
    let r = external_reference(&t).unwrap();
    assert!(check_location(&t, &r, false).is_err());
    t.external_data[0].value = "b.bin".to_string();
    let r = external_reference(&t).unwrap();
    assert!(check_location(&t, &r, false).is_ok());
    assert_eq!(
        check_location(&t, &r, true).unwrap_err().message(),
        "invalid tensor shape: external tensor 'w' references a non-relative location 'b.bin'"
    );
}

#[test]
fn pinning_again_fails_and_changes_nothing() {
    let mut m = model(
        17,
        graph("g", vec![tensor_input("flag", TYPE_BOOL, &[2]), f32_input("x", &[2])], vec![], vec![], vec![]),
    );
    let p = pins(&[("flag", 1)]);
    pin_graph_inputs(&mut m, &p).unwrap();
    let once = m.graph.as_ref().unwrap().copy();
    assert!(pins_fit(&m, &p));
    assert_eq!(
        pin_graph_inputs(&mut m, &p).unwrap_err().message(),
        "invalid tensor shape: pin-input: 'flag' is not a graph input"
    );
    assert_eq!(m.graph.unwrap(), once);
}
