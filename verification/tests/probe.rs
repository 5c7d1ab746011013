use onnx2webnn::error::OnnxError;
use onnx2webnn::hub::{read_listing, select_exports, HubFile, ListedFile};
use onnx2webnn::names::NameMap;
use onnx2webnn::probe::{
    default_dim, graph_inputs, propose_entries, proposal_fits, try_entry, GraphInput,
    ManifestEntry,
};
use onnx2webnn::protos::{
    DimensionProto, GraphProto, ModelProto, TensorProto, TensorTypeProto, ValueInfoProto,
    TYPE_BOOL, TYPE_FLOAT,
};

fn input(name: &str, dims: &[&str], is_bool: bool) -> GraphInput {
    GraphInput {
        name: name.to_string(),
        free_dims: dims.iter().map(|d| d.to_string()).collect(),
        is_bool,
    }
}

fn overrides(pairs: &[(&str, u32)]) -> NameMap<u32> {
    let mut m = NameMap::new();
    for (k, v) in pairs {
        m.insert(k.to_string(), *v);
    }
    m
}

#[test]
fn merged_decoder_gets_prefill_and_decode_entries() {
    let inputs = vec![
        input("input_ids", &["batch_size", "sequence_length"], false),
        input("attention_mask", &["batch_size", "total_sequence_length"], false),
        input("past_key_values.0.key", &["batch_size", "past_sequence_length"], false),
        input("use_cache_branch", &[], true),
    ];
    let p = propose_entries(
        "x--y/onnx/decoder_model_merged.onnx",
        2 << 30,
        &inputs,
        &NameMap::new(),
        &vec![],
        false,
    );
    assert!(p.unresolved.is_empty());
    assert_eq!(p.entries.len(), 2);
    let prefill = &p.entries[0];
    assert!(prefill.heavy);
    assert_eq!(prefill.pin_inputs, vec![("use_cache_branch".to_string(), 0)]);
    assert_eq!(
        prefill.override_dims,
        vec![
            ("batch_size".to_string(), 1),
            ("sequence_length".to_string(), 128),
            ("total_sequence_length".to_string(), 128),
            ("past_sequence_length".to_string(), 0),
        ]
    );
    let decode = &p.entries[1];
    assert_eq!(decode.pin_inputs, vec![("use_cache_branch".to_string(), 1)]);
    assert_eq!(
        decode.override_dims,
        vec![
            ("batch_size".to_string(), 1),
            ("sequence_length".to_string(), 1),
            ("total_sequence_length".to_string(), 17),
            ("past_sequence_length".to_string(), 16),
        ]
    );
    assert_eq!(
        prefill.to_json_line(),
        r#"{"file": "x--y/onnx/decoder_model_merged.onnx", "heavy": true, "pin_inputs": {"use_cache_branch": 0}, "override_dims": {"batch_size": 1, "sequence_length": 128, "total_sequence_length": 128, "past_sequence_length": 0}}"#
    );
}

#[test]
fn unknown_dims_are_reported_and_overrides_win() {
    assert_eq!(default_dim("encoder_sequence_length / 2"), None);
    let inputs = vec![input("pixel_values", &["s0", "s1", "s2"], false)];
    let p = propose_entries("a--b/onnx/vision.onnx", 10, &inputs, &NameMap::new(), &vec![], false);
    assert_eq!(p.unresolved, vec!["s0", "s1", "s2"]);
    assert!(p.entries[0].override_dims.is_empty());
    let given = overrides(&[("s0", 1), ("s1", 1024), ("s2", 1024)]);
    let p = propose_entries("a--b/onnx/vision.onnx", 10, &inputs, &given, &vec![], false);
    assert!(p.unresolved.is_empty());
    assert_eq!(p.entries[0].override_dims.len(), 3);
    assert!(!p.entries[0].heavy);
}

#[test]
fn the_policy_goes_by_name() {
    assert_eq!(default_dim("Batch"), Some(1));
    assert_eq!(default_dim("past_len"), Some(0));
    assert_eq!(default_dim("decoder_sequence_length"), Some(16));
    assert_eq!(default_dim("total_sequence"), Some(128));
    assert_eq!(default_dim("num_channels"), Some(3));
    assert_eq!(default_dim("WIDTH"), Some(224));
    assert_eq!(default_dim("num_frames"), Some(8));
    assert_eq!(default_dim("feature_size"), Some(80));
    assert_eq!(default_dim("num_samples"), Some(16000));
    assert_eq!(default_dim("num_choices"), Some(2));
    assert_eq!(default_dim("s0"), None);
    assert_eq!(default_dim("batch*2"), None);
}

#[test]
fn a_decode_step_is_added_for_models_with_a_cache() {
    let inputs = vec![input(
        "ids",
        &["sequence_length", "past_len", "encoder_sequence_length", "encoder_sequence_length_out"],
        false,
    )];
    let given = overrides(&[("encoder_sequence_length", 40)]);
    let pins = vec![("p".to_string(), 5i64)];
    let p = propose_entries("f", 0, &inputs, &given, &pins, true);
    assert_eq!(p.entries.len(), 2);
    assert_eq!(p.entries[1].pin_inputs, pins);
    assert_eq!(
        p.entries[1].override_dims,
        vec![
            ("sequence_length".to_string(), 1),
            ("past_len".to_string(), 16),
            ("encoder_sequence_length".to_string(), 40),
            ("encoder_sequence_length_out".to_string(), 40),
        ]
    );
    assert_eq!(propose_entries("f", 0, &inputs, &given, &pins, false).entries.len(), 1);
    let plain = vec![input("x", &["batch"], false)];
    assert_eq!(propose_entries("f", 0, &plain, &given, &pins, true).entries.len(), 1);
}

#[test]
fn files_above_a_gigabyte_are_heavy() {
    let heavy = |size: u64| {
        propose_entries("f", size, &vec![], &NameMap::new(), &vec![], false).entries[0].heavy
    };
    assert!(!heavy(1 << 30));
    assert!(heavy((1 << 30) + 1));
}

#[test]
fn totals_that_do_not_fit_are_noticed() {
    let inputs =
        vec![input("ids", &["sequence_length", "past_len", "total_sequence_length"], false)];
    let given = overrides(&[("sequence_length", u32::MAX), ("past_len", 1)]);
    assert!(!proposal_fits(&inputs, &given, false));
    let given = overrides(&[
        ("sequence_length", u32::MAX),
        ("past_len", 1),
        ("total_sequence_length", 3),
    ]);
    assert!(proposal_fits(&inputs, &given, false));
}

#[test]
fn options_of_an_entry() {
    let e = ManifestEntry {
        file: "f".to_string(),
        heavy: false,
        pin_inputs: vec![("a".to_string(), 1), ("a".to_string(), 2)],
        override_dims: vec![("n".to_string(), 3)],
    };
    let o = e.to_options();
    assert!(o.optimize && o.zero_fill_missing_external_data);
    assert!(!o.experimental_dynamic_inputs);
    assert_eq!(o.pinned_inputs.get(&"a".to_string()), Some(&2));
    assert_eq!(o.free_dim_overrides.get(&"n".to_string()), Some(&3));
}

#[test]
fn lines_are_json() {
    let e = ManifestEntry {
        file: "a\"b\\c\n\u{1}\u{7f}é".to_string(),
        heavy: false,
        pin_inputs: vec![],
        override_dims: vec![],
    };
    assert_eq!(e.to_json_line(), "{\"file\": \"a\\\"b\\\\c\\n\\u0001\u{7f}é\"}");
    let v: serde_json::Value = serde_json::from_str(&e.to_json_line()).unwrap();
    assert_eq!(v["file"].as_str(), Some(e.file.as_str()));
}

#[test]
fn free_dimensions_of_inputs() {
    let info = |name: &str, elem_type: i32, shape: Option<Vec<DimensionProto>>| ValueInfoProto {
        name: name.to_string(),
        tensor_type: Some(TensorTypeProto { elem_type, shape }),
    };
    let m = ModelProto {
        graph: Some(GraphProto {
            input: vec![
                info(
                    "a.b",
                    TYPE_FLOAT,
                    Some(vec![
                        DimensionProto::DimParam("n".to_string()),
                        DimensionProto::DimValue(3),
                        DimensionProto::DimValue(0),
                        DimensionProto::Unknown,
                    ]),
                ),
                info("w", TYPE_FLOAT, None),
                info("use_cache_branch", TYPE_BOOL, None),
            ],
            initializer: vec![TensorProto { name: "w".to_string(), ..Default::default() }],
            ..Default::default()
        }),
        ..Default::default()
    };
    assert_eq!(
        graph_inputs(&m),
        vec![
            input("a.b", &["n", "a_b_dim2", "a_b_dim3"], false),
            input("use_cache_branch", &[], true),
        ]
    );
    assert!(graph_inputs(&ModelProto::default()).is_empty());
}

#[test]
fn listings_keep_exports_sorted_by_path() {
    let body = r#"[
        {"path": "onnx/b.onnx", "size": 3, "lfs": {"size": 900}},
        {"path": "onnx/a.onnx", "size": 4},
        {"path": "onnx/a.onnx_data", "size": 5},
        {"size": 6},
        7,
        {"path": "onnx/B.onnx"}
    ]"#;
    let file = |path: &str, size: u64| HubFile { path: path.to_string(), size };
    assert_eq!(
        read_listing("u", body).unwrap(),
        vec![file("onnx/B.onnx", 0), file("onnx/a.onnx", 4), file("onnx/b.onnx", 900)]
    );
    let err = read_listing("http://x", "{}").unwrap_err();
    assert!(err.starts_with("http://x: unexpected response: "), "{err}");
    let listed = |p: Option<&str>, size: Option<u64>| ListedFile {
        path: p.map(|s| s.to_string()),
        size,
    };
    assert_eq!(
        select_exports(&vec![
            listed(Some("z.onnx"), Some(1)),
            listed(None, Some(2)),
            listed(Some("a.onnx"), None),
            listed(Some(".onnx"), Some(3)),
            listed(Some("onnx"), Some(4)),
        ]),
        vec![file(".onnx", 3), file("a.onnx", 0), file("z.onnx", 1)]
    );
}

#[test]
fn trials_report_the_text_of_an_error() {
    assert_eq!(try_entry(Ok(())), Ok(()));
    assert_eq!(
        try_entry(Err(OnnxError::InvalidShape("x".to_string()))),
        Err("invalid tensor shape: x".to_string())
    );
}
