//! Conversion of a model: checks, and the state from which its nodes are
//! lowered one by one.
//!
//! Shape inference, constant folding and the operators without a handler in
//! this library are the caller's: it reports what they found, and the state
//! says what to do next.
use crate::arith;
use crate::builder;
use crate::builder::{BuilderOp, ConstData, ConstDataV, OnnxBuilder, OpV, list1};
use crate::bytes;
use crate::context;
use crate::context::{ContextV, ConversionContext};
use crate::error;
use crate::error::{ErrorV, OnnxError};
use crate::external;
use crate::external::{Filled, Stop};
use crate::floats;
use crate::lower;
use crate::lower::{ConstsV, InputsV, OverridesV, Payload, Shapes, Values};
use crate::names;
use crate::names::{Duplicate, NameMap};
use crate::options::ConvertOptions;
use crate::overrides;
use crate::pin;
use crate::pin::PinnedModelV;
use crate::protos;
use crate::protos::{
    DimV, DimensionProto, EntryV, GraphProto, GraphV, ModelProto, ModelV, NodeProto, NodeV, OpsetV,
    OperatorSetIdProto, StringStringEntryProto, TensorV, ValueInfoV,
};
use crate::prune;
use crate::registry;
use crate::registry::OpRegistry;
use crate::text;
use crate::types;
use crate::types::{DataType, DimensionV, Dims};
use vstd::prelude::*;

verus! {

pub const MIN_SUPPORTED_OPSET: i64 = 1;

pub const MAX_SUPPORTED_OPSET: i64 = 26;

// ---------------------------------------------------------------------------
// Checks
// ---------------------------------------------------------------------------

pub open spec fn missing_graph() -> ErrorV {
    ErrorV::Protobuf("Missing graph in model"@)
}

/// An import of the standard operators.
pub open spec fn is_standard(domain: Seq<char>) -> bool {
    domain == ""@ || domain == "ai.onnx"@
}

/// The error for the first import of the standard operators whose version is
/// out of range. Other domains are not checked.
pub open spec fn opset_error(v: Seq<OpsetV>) -> Option<ErrorV>
    decreases v.len(),
{
    if v.len() == 0 {
        None
    } else if is_standard(v[0].domain) && !(MIN_SUPPORTED_OPSET <= v[0].version
        <= MAX_SUPPORTED_OPSET) {
        Some(ErrorV::UnsupportedOpset { domain: "ai.onnx"@, version: v[0].version })
    } else {
        opset_error(v.drop_first())
    }
}

/// What is wrong with a model before anything is lowered. Unsupported operators
/// are all reported together.
pub open spec fn model_error(m: ModelV, registry: OpRegistry) -> Option<ErrorV> {
    match m.graph {
        None => Some(missing_graph()),
        Some(g) => match opset_error(m.opset_import) {
            Some(e) => Some(e),
            None => if registry.unsupported_nodes(g.node).len() > 0 {
                Some(ErrorV::UnsupportedOps(registry.unsupported_nodes(g.node)))
            } else {
                None
            },
        },
    }
}

fn check_opsets(v: &Vec<OperatorSetIdProto>) -> (r: Result<(), OnnxError>)
    ensures
        r matches Err(e) ==> opset_error(protos::opsets_v(v@)) == Some(e@),
        r is Ok ==> opset_error(protos::opsets_v(v@)) is None,
{
    let ghost all = protos::opsets_v(v@);
    let mut i: usize = 0;
    assert(all.skip(0) =~= all);
    while i < v.len()
        invariant
            i <= v@.len(),
            all == protos::opsets_v(v@),
            opset_error(all) == opset_error(all.skip(i as int)),
        decreases v@.len() - i,
    {
        assert(all.skip(i as int)[0] == v@[i as int]@);
        assert(all.skip(i as int).drop_first() =~= all.skip(i + 1));
        let standard = text::str_eq(v[i].domain.as_str(), "") || text::str_eq(
            v[i].domain.as_str(),
            "ai.onnx",
        );
        let version: i64 = v[i].version;
        if standard && !(MIN_SUPPORTED_OPSET <= version && version <= MAX_SUPPORTED_OPSET) {
            return Err(
                OnnxError::UnsupportedOpset { domain: String::from_str("ai.onnx"), version },
            );
        }
        i = i + 1;
    }
    Ok(())
}

/// How much there is in a graph.
#[derive(Debug, PartialEq, Eq)]
pub struct ModelSummary {
    pub name: String,
    pub inputs: usize,
    pub outputs: usize,
    pub nodes: usize,
    pub initializers: usize,
}

/// A model that is to be lowered.
pub struct OnnxConverter {
    pub model: ModelProto,
}

impl OnnxConverter {
    /// Create a new converter from an ONNX model.
    pub fn new(model: ModelProto) -> (r: Result<Self, OnnxError>)
        ensures
            r matches Ok(c) && c.model == model,
    {
        Ok(OnnxConverter { model })
    }

    /// The name of the graph, `graph` where it has none, and the number of its
    /// inputs, outputs, nodes and initializers.
    pub fn extract_metadata(&self) -> (r: Result<ModelSummary, OnnxError>)
        ensures
            match self.model@.graph {
                None => r matches Err(e) && e@ == missing_graph(),
                Some(g) => r matches Ok(s) && s.name@ == (if g.name.len() == 0 {
                    "graph"@
                } else {
                    g.name
                }) && s.inputs == g.input.len() && s.outputs == g.output.len() && s.nodes
                    == g.node.len() && s.initializers == g.initializer.len(),
            },
    {
        match &self.model.graph {
            None => Err(OnnxError::ProtobufError(String::from_str("Missing graph in model"))),
            Some(g) => {
                proof {
                    reveal_strlit("");
                    assert(g.name@.len() == 0 ==> g.name@ =~= ""@);
                }
                let name = if text::str_eq(g.name.as_str(), "") {
                    String::from_str("graph")
                } else {
                    g.name.clone()
                };
                Ok(
                    ModelSummary {
                        name,
                        inputs: g.input.len(),
                        outputs: g.output.len(),
                        nodes: g.node.len(),
                        initializers: g.initializer.len(),
                    },
                )
            },
        }
    }

    /// Checks the model before any graph is set up, so that an operator that is
    /// not supported is reported as such and not as a failure of its tensors.
    pub fn check(&self, registry: &OpRegistry) -> (r: Result<(), OnnxError>)
        ensures
            r matches Err(e) ==> model_error(self.model@, *registry) == Some(e@),
            r is Ok ==> model_error(self.model@, *registry) is None,
    {
        let graph = match &self.model.graph {
            None => return Err(
                OnnxError::ProtobufError(String::from_str("Missing graph in model")),
            ),
            Some(g) => g,
        };
        match check_opsets(&self.model.opset_import) {
            Ok(_) => {},
            Err(e) => return Err(e),
        }
        assert(protos::nodes_v(graph.node@) =~= graph@.node);
        let unsupported = registry.collect_unsupported_nodes(&graph.node);
        assert(error::unsupported_v(unsupported@).len() == unsupported@.len());
        if unsupported.len() > 0 {
            return Err(OnnxError::UnsupportedOps(unsupported));
        }
        Ok(())
    }
}

// ---------------------------------------------------------------------------
// Overrides
// ---------------------------------------------------------------------------

/// The overrides with those of the model's metadata added.
pub open spec fn with_metadata(m: Map<Seq<char>, u32>, v: Seq<EntryV>) -> Map<Seq<char>, u32>
    decreases v.len(),
{
    if v.len() == 0 {
        m
    } else {
        let front = with_metadata(m, v.drop_last());
        if text::lower(v.last().key) == "freedimensionoverrides"@ {
            overrides::merged(front, v.last().value)
        } else {
            front
        }
    }
}

/// Adds the overrides of the model's metadata.
pub fn merge_metadata(overrides: &mut NameMap<u32>, v: &Vec<StringStringEntryProto>)
    ensures
        final(overrides)@ == with_metadata(old(overrides)@, protos::entries_v(v@)),
{
    let ghost all = protos::entries_v(v@);
    let ghost start = overrides@;
    let mut i: usize = 0;
    assert(all.take(0) =~= Seq::<EntryV>::empty());
    while i < v.len()
        invariant
            i <= v@.len(),
            all == protos::entries_v(v@),
            overrides@ == with_metadata(start, all.take(i as int)),
        decreases v@.len() - i,
    {
        assert(all[i as int] == v@[i as int]@);
        assert(all.take(i + 1).drop_last() =~= all.take(i as int));
        let key = text::to_lower(v[i].key.as_str());
        if text::str_eq(key.as_str(), "freedimensionoverrides") {
            overrides::merge_json(overrides, v[i].value.as_str());
        }
        i = i + 1;
    }
    assert(all.take(i as int) =~= all);
}

/// The overrides with an upper bound for each symbol of a shape that has none.
pub open spec fn with_bounds(m: Map<Seq<char>, u32>, dims: Seq<DimV>) -> Map<Seq<char>, u32>
    decreases dims.len(),
{
    if dims.len() == 0 {
        m
    } else {
        let front = with_bounds(m, dims.drop_last());
        match dims.last() {
            DimV::Param(p) => if front.contains_key(p) {
                front
            } else {
                front.insert(p, overrides::dynamic_max(p))
            },
            _ => front,
        }
    }
}

/// The overrides with an upper bound for each symbol of the graph inputs.
pub open spec fn with_input_bounds(
    m: Map<Seq<char>, u32>,
    inputs: Seq<ValueInfoV>,
    initializers: Seq<TensorV>,
) -> Map<Seq<char>, u32>
    decreases inputs.len(),
{
    if inputs.len() == 0 {
        m
    } else {
        let front = with_input_bounds(m, inputs.drop_last(), initializers);
        let info = inputs.last();
        if prune::has_tensor(initializers, info.name) {
            front
        } else {
            match info.tensor_type {
                Some(t) => match t.shape {
                    Some(d) => with_bounds(front, d),
                    None => front,
                },
                None => front,
            }
        }
    }
}

fn add_bounds(m: &mut NameMap<u32>, dims: &Vec<DimensionProto>)
    ensures
        final(m)@ == with_bounds(old(m)@, protos::dims_v(dims@)),
{
    let ghost all = protos::dims_v(dims@);
    let ghost start = m@;
    let mut i: usize = 0;
    assert(all.take(0) =~= Seq::<DimV>::empty());
    while i < dims.len()
        invariant
            i <= dims@.len(),
            all == protos::dims_v(dims@),
            m@ == with_bounds(start, all.take(i as int)),
        decreases dims@.len() - i,
    {
        assert(all[i as int] == dims@[i as int]@);
        assert(all.take(i + 1).drop_last() =~= all.take(i as int));
        if let DimensionProto::DimParam(p) = &dims[i] {
            m.insert_new(p.clone(), overrides::dynamic_max_for_dim(p));
        }
        i = i + 1;
    }
    assert(all.take(i as int) =~= all);
}

fn add_input_bounds(m: &mut NameMap<u32>, graph: &GraphProto)
    ensures
        final(m)@ == with_input_bounds(old(m)@, graph@.input, graph@.initializer),
{
    let skipped = lower::tensor_names(&graph.initializer);
    let ghost all = graph@.input;
    let ghost start = m@;
    let mut i: usize = 0;
    assert(all.take(0) =~= Seq::<ValueInfoV>::empty());
    while i < graph.input.len()
        invariant
            i <= graph.input@.len(),
            all == protos::infos_v(graph.input@),
            forall|n: Seq<char>|
                #[trigger] skipped@.contains(n) <==> prune::has_tensor(graph@.initializer, n),
            m@ == with_input_bounds(start, all.take(i as int), graph@.initializer),
        decreases graph.input@.len() - i,
    {
        assert(all[i as int] == graph.input@[i as int]@);
        assert(all.take(i + 1).drop_last() =~= all.take(i as int));
        if !skipped.contains(graph.input[i].name.as_str()) {
            if let Some(t) = &graph.input[i].tensor_type {
                if let Some(d) = &t.shape {
                    add_bounds(m, d);
                }
            }
        }
        i = i + 1;
    }
    assert(all.take(i as int) =~= all);
}

// ---------------------------------------------------------------------------
// Start
// ---------------------------------------------------------------------------

/// What is known while the nodes of a model are lowered.
pub struct Lowering {
    /// Identifiers by name.
    pub names: NameMap<String>,
    pub effective_overrides: NameMap<u32>,
    pub inference_overrides: NameMap<u32>,
    /// Constants, shapes and types by name.
    pub context: ConversionContext,
    pub value_shape_dims: NameMap<Dims>,
    pub const_values: NameMap<Vec<i64>>,
    /// Symbols for which shape inference was tried again.
    pub attempts: Vec<String>,
}

#[verifier::ext_equal]
pub struct LoweringV {
    pub names: Seq<(Seq<char>, Seq<char>)>,
    pub overrides: OverridesV,
    pub context: ContextV,
    pub dims: Map<Seq<char>, Seq<DimensionV>>,
    pub consts: Map<Seq<char>, Seq<i64>>,
    pub attempts: Seq<Seq<char>>,
}

impl View for Lowering {
    type V = LoweringV;

    open spec fn view(&self) -> LoweringV {
        LoweringV {
            names: self.names.entries(),
            overrides: OverridesV {
                effective: self.effective_overrides@,
                inference: self.inference_overrides@,
            },
            context: self.context@,
            dims: self.value_shape_dims@,
            consts: self.const_values@,
            attempts: protos::texts(self.attempts@),
        }
    }
}

/// Steps, and the state from which nodes are lowered or an error.
pub struct StartOutcome {
    pub ops: Seq<OpV>,
    pub result: Result<LoweringV, ErrorV>,
}

/// The state once inputs and constants are declared.
pub open spec fn state_of(
    g: GraphV,
    payloads: Seq<Result<Seq<u8>, Seq<char>>>,
    dynamic: bool,
    s: InputsV,
) -> LoweringV {
    let shapes = lower::graph_shapes(g, s.names, dynamic, s.overrides.inference);
    let consts = lower::node_consts(
        ConstsV {
            consts: lower::tensor_consts(g.initializer, g.initializer.len() as int),
            types: s.types,
        },
        g.node,
    );
    LoweringV {
        names: s.names,
        overrides: OverridesV {
            effective: s.overrides.effective,
            inference: if dynamic {
                with_input_bounds(shapes.inference, g.input, g.initializer)
            } else {
                shapes.inference
            },
        },
        context: ContextV {
            initializers: lower::constants_map(g.initializer, payloads, g.initializer.len() as int),
            value_shapes: shapes.shapes,
            value_types: consts.types,
        },
        dims: shapes.dims,
        consts: consts.consts,
        attempts: seq![],
    }
}

/// Inputs declared, then constants.
pub open spec fn start_outcome(
    g: GraphV,
    metadata: Seq<EntryV>,
    given: Map<Seq<char>, u32>,
    payloads: Seq<Result<Seq<u8>, Seq<char>>>,
    dynamic: bool,
    ops: Seq<OpV>,
) -> StartOutcome {
    let first = InputsV {
        overrides: OverridesV { effective: with_metadata(given, metadata), inference: given },
        names: seq![],
        types: Map::empty(),
    };
    let i = lower::declare_inputs(g.input, 0, g.initializer, dynamic, ops, first);
    match i.result {
        Err(e) => StartOutcome { ops: i.ops, result: Err(e) },
        Ok(s) => {
            let c = lower::declare_constants(g.initializer, payloads, 0, i.ops, s);
            match c.result {
                Err(e) => StartOutcome { ops: c.ops, result: Err(e) },
                Ok(s) => StartOutcome {
                    ops: c.ops,
                    result: Ok(state_of(g, payloads, dynamic, s)),
                },
            }
        },
    }
}

pub open spec fn started(ops: Seq<OpV>, r: Result<Lowering, OnnxError>) -> StartOutcome {
    StartOutcome {
        ops,
        result: match r {
            Ok(l) => Ok(l@),
            Err(e) => Err(e@),
        },
    }
}

impl Lowering {
    /// Declares the inputs and the constants of a graph and collects what its
    /// declarations say about its values. `payloads` has the decoded payload of
    /// each initializer.
    pub fn start(
        graph: &GraphProto,
        metadata: &Vec<StringStringEntryProto>,
        options: &ConvertOptions,
        payloads: &Vec<Payload>,
        b: &mut OnnxBuilder,
    ) -> (r: Result<Lowering, OnnxError>)
        requires
            payloads@.len() == graph.initializer@.len(),
        ensures
            started(final(b)@, r) == start_outcome(
                graph@,
                protos::entries_v(metadata@),
                options@.free_dim_overrides,
                lower::payloads_v(payloads@),
                options@.experimental_dynamic_inputs,
                old(b)@,
            ),
    {
        let dynamic = options.experimental_dynamic_inputs;
        let mut effective = options.free_dim_overrides.copy();
        merge_metadata(&mut effective, metadata);
        let mut values = Values {
            effective,
            inference: options.free_dim_overrides.copy(),
            names: NameMap::new(),
            types: NameMap::new(),
        };
        assert(values@.names =~= Seq::<(Seq<char>, Seq<char>)>::empty());
        match lower::lower_inputs(graph, dynamic, &mut values, b) {
            Ok(_) => {},
            Err(e) => return Err(e),
        }
        match lower::lower_constants(&graph.initializer, payloads, &mut values, b) {
            Ok(_) => {},
            Err(e) => return Err(e),
        }
        let initializers = lower::collect_constants(&graph.initializer, payloads);
        let Values { effective, inference, names, types } = values;
        let mut inference = inference;
        let mut types = types;
        let shapes = lower::collect_shapes(graph, &names, dynamic, &mut inference);
        let consts = lower::collect_consts(graph, &mut types);
        if dynamic {
            add_input_bounds(&mut inference, graph);
        }
        let Shapes { shapes, dims } = shapes;
        let r = Lowering {
            names,
            effective_overrides: effective,
            inference_overrides: inference,
            context: ConversionContext { initializers, value_shapes: shapes, value_types: types },
            value_shape_dims: dims,
            const_values: consts,
            attempts: Vec::new(),
        };
        assert(r@.attempts =~= Seq::<Seq<char>>::empty());
        Ok(r)
    }
}

impl OnnxConverter {
    /// Checks the model and begins its lowering: inputs and constants are
    /// declared, and the result is the state from which nodes are lowered.
    pub fn convert_with_builder(
        &self,
        registry: &OpRegistry,
        options: &ConvertOptions,
        payloads: &Vec<Payload>,
        b: &mut OnnxBuilder,
    ) -> (r: Result<Lowering, OnnxError>)
        requires
            self.model.graph matches Some(g) ==> payloads@.len() == g.initializer@.len(),
        ensures
            match model_error(self.model@, *registry) {
                Some(e) => r matches Err(x) && x@ == e && final(b)@ == old(b)@,
                None => started(final(b)@, r) == start_outcome(
                    self.model@.graph->0,
                    self.model@.metadata_props,
                    options@.free_dim_overrides,
                    lower::payloads_v(payloads@),
                    options@.experimental_dynamic_inputs,
                    old(b)@,
                ),
            },
    {
        match self.check(registry) {
            Ok(_) => {},
            Err(e) => return Err(e),
        }
        match &self.model.graph {
            Some(g) => Lowering::start(g, &self.model.metadata_props, options, payloads, b),
            None => Err(OnnxError::ProtobufError(String::from_str("Missing graph in model"))),
        }
    }
}

// ---------------------------------------------------------------------------
// Before and after folding
// ---------------------------------------------------------------------------

/// The model with missing payloads filled, where that is asked for.
pub open spec fn filled_model(m: ModelV, fill: bool) -> Filled<ModelV> {
    match m.graph {
        Some(g) => if fill {
            let f = external::fill_graph(g);
            Filled { value: ModelV { graph: Some(f.value), ..m }, stop: f.stop }
        } else {
            Filled { value: m, stop: Stop::Done }
        },
        None => Filled { value: m, stop: Stop::Done },
    }
}

/// The model with payloads filled and inputs pinned, or the first error.
pub open spec fn prepared_model(m: ModelV, fill: bool, pins: Seq<(Seq<char>, i64)>) -> PinnedModelV {
    let f = filled_model(m, fill);
    match f.stop {
        Stop::Done => pin::pinned_model(f.value, pins),
        Stop::Failed(e) => PinnedModelV { model: f.value, error: Some(e) },
        Stop::TooLarge => PinnedModelV { model: f.value, error: None },
    }
}

/// Fills missing payloads where the options ask for it, and pins inputs.
pub fn prepare_model(model: &mut ModelProto, options: &ConvertOptions) -> (r: Result<(), OnnxError>)
    requires
        !(filled_model(old(model)@, options@.zero_fill_missing_external_data).stop is TooLarge),
        pin::model_pins_in_range(old(model)@, options.pinned_inputs.entries()),
    ensures
        ({
            let p = prepared_model(
                old(model)@,
                options@.zero_fill_missing_external_data,
                options.pinned_inputs.entries(),
            );
            &&& final(model)@ == p.model
            &&& r is Ok <==> p.error is None
            &&& r matches Err(e) ==> p.error == Some(e@)
        }),
{
    if options.zero_fill_missing_external_data {
        if let Some(g) = model.graph.take() {
            let mut graph: GraphProto = g;
            let filled = external::zero_fill_external_tensors(&mut graph);
            model.graph = Some(graph);
            if let Err(e) = filled {
                return Err(e);
            }
        }
    }
    pin::pin_graph_inputs(model, &options.pinned_inputs)
}

/// Drops what inlining left over, where inputs were pinned: zero-size outputs
/// and inputs that nothing reads.
pub fn prune_pinned_model(model: &mut ModelProto, options: &ConvertOptions)
    ensures
        final(model)@ == (if options.pinned_inputs.entries().len() == 0 {
            old(model)@
        } else {
            prune::on_graph(
                prune::on_graph(old(model)@, |g: GraphV| prune::without_empty_outputs(g)),
                |g: GraphV| prune::without_unused_inputs(g),
            )
        }),
{
    if !options.pinned_inputs.is_empty() {
        prune::prune_empty_graph_outputs(model);
        prune::prune_unused_graph_inputs(model);
    }
}

/// A graph output that is a sequence has no WebNN representation.
pub fn reject_sequence_output(name: &String, is_sequence: bool) -> (r: Result<(), OnnxError>)
    ensures
        r is Err <==> is_sequence,
        r matches Err(e) ==> e@ == error::unsupported(
            "SplitToSequence(sequence graph output)"@,
            name@,
        ),
{
    if is_sequence {
        return Err(
            OnnxError::unsupported_op(
                String::from_str("SplitToSequence(sequence graph output)"),
                name.clone(),
            ),
        );
    }
    Ok(())
}

// ---------------------------------------------------------------------------
// Shape inference
// ---------------------------------------------------------------------------

/// What shape inference over the whole model found.
pub struct Inferred {
    pub value_shapes: NameMap<Vec<i64>>,
    pub value_types: NameMap<DataType>,
    pub const_values: NameMap<Vec<i64>>,
}

/// How shape inference over the whole model ended.
pub enum InferenceEvent {
    Inferred(Inferred),
    /// A symbol has no value.
    DynamicDim(String),
    Failed(String),
}

pub enum InferenceV {
    Inferred {
        shapes: Seq<(Seq<char>, Seq<i64>)>,
        types: Seq<(Seq<char>, DataType)>,
        consts: Seq<(Seq<char>, Seq<i64>)>,
    },
    DynamicDim(Seq<char>),
    Failed(Seq<char>),
}

impl View for InferenceEvent {
    type V = InferenceV;

    open spec fn view(&self) -> InferenceV {
        match self {
            InferenceEvent::Inferred(i) => InferenceV::Inferred {
                shapes: i.value_shapes.entries(),
                types: i.value_types.entries(),
                consts: i.const_values.entries(),
            },
            InferenceEvent::DynamicDim(d) => InferenceV::DynamicDim(d@),
            InferenceEvent::Failed(m) => InferenceV::Failed(m@),
        }
    }
}

/// Entries added in order where a name has no value.
pub open spec fn added<T>(m: Map<Seq<char>, T>, e: Seq<(Seq<char>, T)>) -> Map<Seq<char>, T>
    decreases e.len(),
{
    if e.len() == 0 {
        m
    } else {
        let front = added(m, e.drop_last());
        if front.contains_key(e.last().0) {
            front
        } else {
            front.insert(e.last().0, e.last().1)
        }
    }
}

/// Entries added in order; a name that has a value gets the new one.
pub open spec fn replaced<T>(m: Map<Seq<char>, T>, e: Seq<(Seq<char>, T)>) -> Map<Seq<char>, T>
    decreases e.len(),
{
    if e.len() == 0 {
        m
    } else {
        replaced(m, e.drop_last()).insert(e.last().0, e.last().1)
    }
}

fn add_entries<V: Duplicate>(m: &mut NameMap<V>, e: &NameMap<V>)
    ensures
        final(m)@ == added(old(m)@, e.entries()),
{
    let ghost all = e.entries();
    let ghost start = m@;
    let n: usize = e.len();
    let mut i: usize = 0;
    assert(all.take(0) =~= Seq::<(Seq<char>, V::V)>::empty());
    while i < n
        invariant
            i <= n,
            n == all.len(),
            all == e.entries(),
            m@ == added(start, all.take(i as int)),
        decreases n - i,
    {
        assert(all.take(i + 1).drop_last() =~= all.take(i as int));
        m.insert_new(e.key(i).clone(), e.value(i).duplicate());
        i = i + 1;
    }
    assert(all.take(i as int) =~= all);
}

fn replace_entries<V: Duplicate>(m: &mut NameMap<V>, e: &NameMap<V>)
    ensures
        final(m)@ == replaced(old(m)@, e.entries()),
{
    let ghost all = e.entries();
    let ghost start = m@;
    let n: usize = e.len();
    let mut i: usize = 0;
    assert(all.take(0) =~= Seq::<(Seq<char>, V::V)>::empty());
    while i < n
        invariant
            i <= n,
            n == all.len(),
            all == e.entries(),
            m@ == replaced(start, all.take(i as int)),
        decreases n - i,
    {
        assert(all.take(i + 1).drop_last() =~= all.take(i as int));
        m.insert(e.key(i).clone(), e.value(i).duplicate());
        i = i + 1;
    }
    assert(all.take(i as int) =~= all);
}

/// The state after shape inference, and whether to try again.
pub struct InferenceOutcome {
    pub state: LoweringV,
    pub retry: Result<bool, ErrorV>,
}

/// What inference found is added: known shapes and types stay, constants are
/// corrected. A symbol without a value gets an upper bound, once, where dynamic
/// dimensions are kept; otherwise lowering goes on with what is known.
pub open spec fn after_inference(s: LoweringV, e: InferenceV, dynamic: bool) -> InferenceOutcome {
    match e {
        InferenceV::Inferred { shapes, types, consts } => InferenceOutcome {
            state: LoweringV {
                context: ContextV {
                    value_shapes: added(s.context.value_shapes, shapes),
                    value_types: added(s.context.value_types, types),
                    ..s.context
                },
                consts: replaced(s.consts, consts),
                ..s
            },
            retry: Ok(false),
        },
        InferenceV::DynamicDim(d) => if dynamic && !s.attempts.contains(d) {
            let bound = match overrides::override_of(s.overrides.inference, d) {
                Some(v) => v,
                None => overrides::dynamic_max(d),
            };
            InferenceOutcome {
                state: LoweringV {
                    overrides: OverridesV {
                        inference: s.overrides.inference.insert(d, bound),
                        ..s.overrides
                    },
                    attempts: s.attempts.push(d),
                    ..s
                },
                retry: Ok(true),
            }
        } else {
            InferenceOutcome { state: s, retry: Ok(false) }
        },
        InferenceV::Failed(m) => InferenceOutcome {
            state: s,
            retry: Err(ErrorV::ShapeInference(m)),
        },
    }
}

// ---------------------------------------------------------------------------
// Constant nodes
// ---------------------------------------------------------------------------

/// Operators that lower to logical ones, whose outputs are bytes: their values
/// are not emitted as integers, since conditions must be bytes.
pub open spec fn is_logical(op: Seq<char>) -> bool {
    op == "Equal"@ || op == "Greater"@ || op == "Less"@ || op == "GreaterOrEqual"@ || op
        == "LessOrEqual"@ || op == "Not"@ || op == "And"@ || op == "Or"@ || op == "Xor"@
}

/// ONNX ops that lower to WebNN element-wise logical ops and must emit `uint8`
/// outputs.
pub fn is_element_wise_logical_onnx_op(op_type: &str) -> (r: bool)
    ensures
        r == is_logical(op_type@),
{
    text::str_eq(op_type, "Equal") || text::str_eq(op_type, "Greater") || text::str_eq(
        op_type,
        "Less",
    ) || text::str_eq(op_type, "GreaterOrEqual") || text::str_eq(op_type, "LessOrEqual")
        || text::str_eq(op_type, "Not") || text::str_eq(op_type, "And") || text::str_eq(
        op_type,
        "Or",
    ) || text::str_eq(op_type, "Xor")
}

/// The dimensions of a value, looked up as shapes are.
pub open spec fn dims_for(dims: Map<Seq<char>, Seq<DimensionV>>, name: Seq<char>) -> Option<
    Seq<DimensionV>,
> {
    if dims.contains_key(name) {
        Some(dims[name])
    } else if dims.contains_key(types::sanitized(name)) {
        Some(dims[types::sanitized(name)])
    } else if dims.contains_key(context::without_slashes(name)) {
        Some(dims[context::without_slashes(name)])
    } else {
        None
    }
}

pub open spec fn is_dynamic(dims: Map<Seq<char>, Seq<DimensionV>>, name: Seq<char>) -> bool {
    dims_for(dims, name) matches Some(d) && !lower::all_static(d)
}

/// A node whose outputs are all known integers is emitted as constants, except
/// where an output is dynamic or must keep another type.
pub open spec fn is_constant_node(n: NodeV, s: LoweringV) -> bool {
    &&& n.output.len() > 0
    &&& forall|i: int| 0 <= i < n.output.len() ==> !is_dynamic(s.dims, #[trigger] n.output[i])
    &&& n.op_type != "Cast"@
    &&& n.op_type != "ConstantOfShape"@
    &&& !is_logical(n.op_type)
    &&& forall|i: int| 0 <= i < n.output.len() ==> s.consts.contains_key(#[trigger] n.output[i])
}

/// Steps, and what emitting changes.
pub struct EmitV {
    pub ops: Seq<OpV>,
    pub names: Seq<(Seq<char>, Seq<char>)>,
    pub types: Map<Seq<char>, DataType>,
    pub shapes: Map<Seq<char>, Seq<i64>>,
}

/// An output without axes; where its shape is not known, one element.
pub open spec fn is_scalar(s: LoweringV, name: Seq<char>) -> bool {
    if s.context.value_shapes.contains_key(name) {
        s.context.value_shapes[name].len() == 0
    } else {
        s.consts[name].len() == 1
    }
}

pub open spec fn all_scalar(n: NodeV, s: LoweringV) -> bool {
    forall|i: int| 0 <= i < n.output.len() ==> is_scalar(s, #[trigger] n.output[i])
}

/// A constant under the identifier of a value.
pub open spec fn with_constant(
    e: EmitV,
    name: Seq<char>,
    dtype: DataType,
    shape: Seq<u32>,
    data: ConstDataV,
) -> EmitV {
    EmitV {
        ops: e.ops.push(OpV::Constant { name: types::sanitized(name), dtype, shape, data }),
        names: lower::with_name(e.names, name),
        types: lower::with_type(e.types, name, dtype),
        ..e
    }
}

/// A scalar output as a 64-bit integer.
pub open spec fn with_scalar(e: EmitV, name: Seq<char>, values: Seq<i64>) -> EmitV {
    with_constant(
        e,
        name,
        DataType::Int64,
        if e.shapes.contains_key(name) {
            lower::sizes_u32(e.shapes[name])
        } else {
            seq![]
        },
        ConstDataV::Bytes(bytes::le_bytes(values[0] as int, 8)),
    )
}

pub open spec fn with_scalars(
    e: EmitV,
    outputs: Seq<Seq<char>>,
    consts: Map<Seq<char>, Seq<i64>>,
) -> EmitV
    decreases outputs.len(),
{
    if outputs.len() == 0 {
        e
    } else {
        with_scalar(
            with_scalars(e, outputs.drop_last(), consts),
            outputs.last(),
            consts[outputs.last()],
        )
    }
}

pub open spec fn is_size(d: i64) -> bool {
    0 <= d <= usize::MAX
}

/// The number of elements that a shape declares, where it has no negative size.
pub open spec fn declared_total(shape: Seq<i64>) -> Option<int> {
    if forall|i: int| 0 <= i < shape.len() ==> is_size(#[trigger] shape[i]) {
        Some(arith::product(shape))
    } else {
        None
    }
}

/// The products of sizes up to the first that is none are in range.
pub open spec fn total_in_range(shape: Seq<i64>) -> bool {
    forall|n: int|
        0 <= n <= shape.len() && (forall|i: int| 0 <= i < n ==> is_size(#[trigger] shape[i]))
            ==> #[trigger] arith::product(shape.take(n)) <= usize::MAX
}

/// The type in which integers are emitted: that of the value, where its width
/// is supported, and 64-bit integers otherwise.
pub open spec fn emitted_type(dtype: DataType) -> DataType {
    match dtype {
        DataType::Uint8 => dtype,
        DataType::Int8 => dtype,
        DataType::Int32 => dtype,
        DataType::Float32 => dtype,
        DataType::Float16 => dtype,
        _ => DataType::Int64,
    }
}

/// Integers at the width of a type.
pub open spec fn emitted_data(dtype: DataType, values: Seq<i64>) -> ConstDataV {
    match dtype {
        DataType::Uint8 => ConstDataV::Bytes(bytes::le_all(values, 1)),
        DataType::Int8 => ConstDataV::Bytes(bytes::le_all(values, 1)),
        DataType::Int32 => ConstDataV::Bytes(bytes::le_all(values, 4)),
        DataType::Float32 => ConstDataV::Bytes(floats::f32_all(values)),
        DataType::Float16 => ConstDataV::Floats(floats::int_floats(values)),
        _ => ConstDataV::Bytes(bytes::le_all(values, 8)),
    }
}

/// One output as a constant. Without elements it stands for an absent optional
/// value. Where the shape does not fit the values, the values count.
pub open spec fn with_values(e: EmitV, name: Seq<char>, values: Seq<i64>) -> EmitV {
    if values.len() == 0 {
        EmitV { ops: e.ops.push(OpV::MarkEmptyOptional { name }), ..e }
    } else {
        let flat = seq![values.len() as i64];
        let known = if e.shapes.contains_key(name) {
            e.shapes[name]
        } else {
            flat
        };
        let fits = declared_total(known) == Some(values.len() as int);
        let dtype = if e.types.contains_key(name) {
            e.types[name]
        } else {
            DataType::Int64
        };
        with_constant(
            EmitV {
                shapes: if fits {
                    e.shapes
                } else {
                    e.shapes.insert(name, flat).insert(types::sanitized(name), flat)
                },
                ..e
            },
            name,
            emitted_type(dtype),
            lower::sizes_u32(
                if fits {
                    known
                } else {
                    flat
                },
            ),
            emitted_data(dtype, values),
        )
    }
}

pub open spec fn with_all_values(
    e: EmitV,
    outputs: Seq<Seq<char>>,
    consts: Map<Seq<char>, Seq<i64>>,
) -> EmitV
    decreases outputs.len(),
{
    if outputs.len() == 0 {
        e
    } else {
        with_values(
            with_all_values(e, outputs.drop_last(), consts),
            outputs.last(),
            consts[outputs.last()],
        )
    }
}

/// The outputs of a node emitted as constants; scalars are declared at once and
/// again with the others.
pub open spec fn emitted(n: NodeV, s: LoweringV, ops: Seq<OpV>) -> EmitV {
    let e = EmitV {
        ops,
        names: s.names,
        types: s.context.value_types,
        shapes: s.context.value_shapes,
    };
    let first = if all_scalar(n, s) {
        with_scalars(e, n.output, s.consts)
    } else {
        e
    };
    with_all_values(first, n.output, s.consts)
}

/// The state after constants were emitted.
pub open spec fn after_emit(s: LoweringV, e: EmitV) -> LoweringV {
    LoweringV {
        names: e.names,
        context: ContextV { value_types: e.types, value_shapes: e.shapes, ..s.context },
        ..s
    }
}

/// Scalars have a value, the numbers of values are 64-bit integers, and the
/// declared sizes can be multiplied.
pub open spec fn emit_in_range(n: NodeV, s: LoweringV) -> bool {
    &&& forall|i: int|
        0 <= i < n.output.len() ==> s.consts[#[trigger] n.output[i]].len() <= i64::MAX
    &&& all_scalar(n, s) ==> forall|i: int|
        0 <= i < n.output.len() ==> s.consts[#[trigger] n.output[i]].len() > 0
    &&& forall|i: int|
        0 <= i < n.output.len() && s.consts[#[trigger] n.output[i]].len() > 0
            && s.context.value_shapes.contains_key(n.output[i]) ==> total_in_range(
            s.context.value_shapes[n.output[i]],
        )
}

/// The names and types that a lowered node reports, in order.
pub open spec fn with_output_types(s: LoweringV, e: Seq<(Seq<char>, DataType)>) -> LoweringV
    decreases e.len(),
{
    if e.len() == 0 {
        s
    } else {
        let front = with_output_types(s, e.drop_last());
        let id = types::sanitized(e.last().0);
        LoweringV {
            names: names::upsert(front.names, e.last().0, id),
            context: ContextV {
                value_types: front.context.value_types.insert(id, e.last().1),
                ..front.context
            },
            ..front
        }
    }
}

/// A shape for each of these outputs, under its name and its identifier.
pub open spec fn with_output_shapes(
    m: Map<Seq<char>, Seq<i64>>,
    outputs: Seq<Seq<char>>,
    shape: Seq<i64>,
) -> Map<Seq<char>, Seq<i64>>
    decreases outputs.len(),
{
    if outputs.len() == 0 {
        m
    } else {
        with_output_shapes(m, outputs.drop_last(), shape).insert(outputs.last(), shape).insert(
            types::sanitized(outputs.last()),
            shape,
        )
    }
}

/// What is left to do about a node.
#[derive(Debug, Clone, Copy, PartialEq, Eq, Structural)]
pub enum NodeStep {
    /// Nothing: its outputs were emitted as constants.
    Emitted,
    /// Its handler lowered it; the shape of its outputs can be reported.
    Lowered,
    /// This library has no handler for it.
    Elsewhere,
}

/// The elements of a shape, as far as they can be counted.
fn find_total(shape: &Vec<i64>) -> (r: Option<usize>)
    requires
        total_in_range(shape@),
    ensures
        r matches Some(n) ==> declared_total(shape@) == Some(n as int),
        r is None ==> declared_total(shape@) is None,
{
    let mut n: usize = 1;
    let mut i: usize = 0;
    assert(shape@.take(0) =~= Seq::<i64>::empty());
    while i < shape.len()
        invariant
            i <= shape@.len(),
            total_in_range(shape@),
            n == arith::product(shape@.take(i as int)),
            forall|k: int| 0 <= k < i ==> is_size(#[trigger] shape@[k]),
        decreases shape@.len() - i,
    {
        assert(shape@.take(i + 1).drop_last() =~= shape@.take(i as int));
        let d: i64 = shape[i];
        if d < 0 || d as i128 > usize::MAX as i128 {
            assert(!is_size(shape@[i as int]));
            return None;
        }
        assert(arith::product(shape@.take(i + 1)) <= usize::MAX);
        assert(n * d >= 0) by (nonlinear_arith)
            requires
                n >= 0,
                d >= 0,
        ;
        n = n * (d as usize);
        i = i + 1;
    }
    assert(shape@.take(i as int) =~= shape@);
    Some(n)
}

fn total_fits(shape: &Vec<i64>) -> (r: bool)
    ensures
        r == total_in_range(shape@),
{
    let mut n: usize = 1;
    let mut i: usize = 0;
    assert(shape@.take(0) =~= Seq::<i64>::empty());
    while i < shape.len()
        invariant
            i <= shape@.len(),
            n == arith::product(shape@.take(i as int)),
            forall|k: int| 0 <= k < i ==> is_size(#[trigger] shape@[k]),
            forall|k: int|
                0 <= k <= i ==> #[trigger] arith::product(shape@.take(k)) <= usize::MAX,
        decreases shape@.len() - i,
    {
        assert(shape@.take(i + 1).drop_last() =~= shape@.take(i as int));
        let d: i64 = shape[i];
        if d < 0 || d as i128 > usize::MAX as i128 {
            assert(!is_size(shape@[i as int]));
            return true;
        }
        n = match n.checked_mul(d as usize) {
            Some(p) => p,
            None => {
                assert(forall|k: int| 0 <= k < i + 1 ==> is_size(#[trigger] shape@[k]));
                assert(arith::product(shape@.take(i + 1)) > usize::MAX);
                return false;
            },
        };
        i = i + 1;
    }
    true
}

fn find_data(dtype: DataType, values: &Vec<i64>) -> (r: ConstData)
    ensures
        r@ == emitted_data(dtype, values@),
{
    match dtype {
        DataType::Uint8 => ConstData::Bytes(bytes::to_le_bytes(values, 1)),
        DataType::Int8 => ConstData::Bytes(bytes::to_le_bytes(values, 1)),
        DataType::Int32 => ConstData::Bytes(bytes::to_le_bytes(values, 4)),
        DataType::Float32 => ConstData::Bytes(floats::to_f32_bytes(values)),
        DataType::Float16 => ConstData::Floats(floats::ints_to_floats(values)),
        _ => ConstData::Bytes(bytes::to_le_bytes(values, 8)),
    }
}

fn find_emitted_type(dtype: DataType) -> (r: DataType)
    ensures
        r == emitted_type(dtype),
{
    match dtype {
        DataType::Uint8 => dtype,
        DataType::Int8 => dtype,
        DataType::Int32 => dtype,
        DataType::Float32 => dtype,
        DataType::Float16 => dtype,
        _ => DataType::Int64,
    }
}

pub open spec fn emit_v(l: LoweringV, ops: Seq<OpV>) -> EmitV {
    EmitV {
        ops,
        names: l.names,
        types: l.context.value_types,
        shapes: l.context.value_shapes,
    }
}

impl Lowering {
    /// Takes in how shape inference over the whole model ended. Returns whether
    /// it is to be tried again, with the overrides as they are then.
    pub fn on_inference(&mut self, event: &InferenceEvent, dynamic: bool) -> (r: Result<
        bool,
        OnnxError,
    >)
        ensures
            final(self)@ == after_inference(old(self)@, event@, dynamic).state,
            error::failed(r, |x: bool| x) == after_inference(old(self)@, event@, dynamic).retry,
    {
        match event {
            InferenceEvent::Inferred(i) => {
                add_entries(&mut self.context.value_shapes, &i.value_shapes);
                add_entries(&mut self.context.value_types, &i.value_types);
                replace_entries(&mut self.const_values, &i.const_values);
                Ok(false)
            },
            InferenceEvent::DynamicDim(d) => {
                if !dynamic || self.tried(d) {
                    return Ok(false);
                }
                let bound: u32 = match overrides::resolve_dim_override(
                    d,
                    &self.inference_overrides,
                ) {
                    Some(v) => v,
                    None => overrides::dynamic_max_for_dim(d),
                };
                self.inference_overrides.insert(d.clone(), bound);
                let ghost before = protos::texts(self.attempts@);
                self.attempts.push(d.clone());
                assert(protos::texts(self.attempts@) =~= before.push(d@));
                Ok(true)
            },
            InferenceEvent::Failed(m) => Err(OnnxError::ShapeInference(m.clone())),
        }
    }

    fn tried(&self, d: &String) -> (r: bool)
        ensures
            r == self@.attempts.contains(d@),
    {
        let mut i: usize = 0;
        while i < self.attempts.len()
            invariant
                i <= self.attempts@.len(),
                forall|k: int| 0 <= k < i ==> #[trigger] self@.attempts[k] != d@,
            decreases self.attempts@.len() - i,
        {
            assert(self@.attempts[i as int] == self.attempts@[i as int]@);
            if self.attempts[i] == *d {
                return true;
            }
            i = i + 1;
        }
        false
    }

    fn is_dynamic(&self, name: &String) -> (r: bool)
        ensures
            r == is_dynamic(self@.dims, name@),
    {
        if let Some(d) = self.value_shape_dims.get(name) {
            return !lower::check_all_static(d);
        }
        let id = types::sanitize_identifier(name.as_str());
        if let Some(d) = self.value_shape_dims.get(&id) {
            return !lower::check_all_static(d);
        }
        let trimmed = context::trim_slashes(name);
        match self.value_shape_dims.get(&trimmed) {
            Some(d) => !lower::check_all_static(d),
            None => false,
        }
    }

    /// Whether the outputs of a node are emitted as constants.
    pub fn is_constant_node(&self, node: &NodeProto) -> (r: bool)
        ensures
            r == is_constant_node(node@, self@),
    {
        if node.output.len() == 0 || text::str_eq(node.op_type.as_str(), "Cast") || text::str_eq(
            node.op_type.as_str(),
            "ConstantOfShape",
        ) || is_element_wise_logical_onnx_op(node.op_type.as_str()) {
            return false;
        }
        let ghost outputs = node@.output;
        let mut i: usize = 0;
        while i < node.output.len()
            invariant
                i <= node.output@.len(),
                outputs == protos::texts(node.output@),
                outputs == node@.output,
                forall|k: int| 0 <= k < i ==> !is_dynamic(self@.dims, #[trigger] outputs[k]),
                forall|k: int| 0 <= k < i ==> self@.consts.contains_key(#[trigger] outputs[k]),
            decreases node.output@.len() - i,
        {
            assert(outputs[i as int] == node.output@[i as int]@);
            if self.is_dynamic(&node.output[i]) || !self.const_values.contains_key(
                &node.output[i],
            ) {
                return false;
            }
            i = i + 1;
        }
        true
    }

    fn all_scalar(&self, node: &NodeProto) -> (r: bool)
        requires
            is_constant_node(node@, self@),
        ensures
            r == all_scalar(node@, self@),
    {
        let ghost outputs = node@.output;
        let mut i: usize = 0;
        while i < node.output.len()
            invariant
                i <= node.output@.len(),
                outputs == protos::texts(node.output@),
                outputs == node@.output,
                is_constant_node(node@, self@),
                forall|k: int| 0 <= k < i ==> is_scalar(self@, #[trigger] outputs[k]),
            decreases node.output@.len() - i,
        {
            assert(outputs[i as int] == node.output@[i as int]@);
            let scalar = match self.context.value_shapes.get(&node.output[i]) {
                Some(s) => s.len() == 0,
                None => match self.const_values.get(&node.output[i]) {
                    Some(v) => v.len() == 1,
                    None => false,
                },
            };
            if !scalar {
                return false;
            }
            i = i + 1;
        }
        true
    }

    /// Whether [`Self::emit_constants`] can be called on a constant node.
    pub fn emit_fits(&self, node: &NodeProto) -> (r: bool)
        requires
            is_constant_node(node@, self@),
        ensures
            r == emit_in_range(node@, self@),
    {
        let scalar = self.all_scalar(node);
        let ghost outputs = node@.output;
        let mut i: usize = 0;
        while i < node.output.len()
            invariant
                i <= node.output@.len(),
                outputs == protos::texts(node.output@),
                outputs == node@.output,
                is_constant_node(node@, self@),
                scalar == all_scalar(node@, self@),
                forall|k: int| 0 <= k < i ==> self@.consts[#[trigger] outputs[k]].len() <= i64::MAX,
                forall|k: int|
                    0 <= k < i && scalar ==> self@.consts[#[trigger] outputs[k]].len() > 0,
                forall|k: int|
                    0 <= k < i && self@.consts[#[trigger] outputs[k]].len() > 0
                        && self@.context.value_shapes.contains_key(outputs[k]) ==> total_in_range(
                        self@.context.value_shapes[outputs[k]],
                    ),
            decreases node.output@.len() - i,
        {
            assert(outputs[i as int] == node.output@[i as int]@);
            let filled = match self.const_values.get(&node.output[i]) {
                Some(v) => {
                    if v.len() as u64 > i64::MAX as u64 {
                        return false;
                    }
                    v.len() > 0
                },
                None => false,
            };
            if scalar && !filled {
                return false;
            }
            if filled {
                if let Some(s) = self.context.value_shapes.get(&node.output[i]) {
                    if !total_fits(s) {
                        return false;
                    }
                }
            }
            i = i + 1;
        }
        true
    }

    fn declare(
        &mut self,
        name: &String,
        dtype: DataType,
        shape: Vec<u32>,
        data: ConstData,
        b: &mut OnnxBuilder,
    )
        ensures
            final(self)@ == after_emit(old(self)@, emit_v(final(self)@, final(b)@)),
            emit_v(final(self)@, final(b)@) == with_constant(
                emit_v(old(self)@, old(b)@),
                name@,
                dtype,
                shape@,
                data@,
            ),
    {
        let id = types::sanitize_identifier(name.as_str());
        b.push(BuilderOp::Constant { name: id.clone(), dtype, shape, data });
        self.names.insert(name.clone(), id.clone());
        self.names.insert(id.clone(), id.clone());
        self.context.value_types.insert(name.clone(), dtype);
        self.context.value_types.insert(id, dtype);
    }

    fn emit_scalar(&mut self, name: &String, b: &mut OnnxBuilder)
        requires
            old(self)@.consts.contains_key(name@),
            old(self)@.consts[name@].len() > 0,
        ensures
            final(self)@ == after_emit(old(self)@, emit_v(final(self)@, final(b)@)),
            emit_v(final(self)@, final(b)@) == with_scalar(
                emit_v(old(self)@, old(b)@),
                name@,
                old(self)@.consts[name@],
            ),
    {
        let mut data: Vec<u8> = Vec::new();
        match self.const_values.get(name) {
            Some(v) => {
                bytes::put_i64(&mut data, v[0]);
            },
            None => {},
        }
        assert(data@ =~= bytes::le_bytes(self@.consts[name@][0] as int, 8));
        let shape: Vec<u32> = match self.context.value_shapes.get(name) {
            Some(s) => lower::to_sizes(s),
            None => Vec::new(),
        };
        self.declare(name, DataType::Int64, shape, ConstData::Bytes(data), b);
    }

    fn emit_values(&mut self, name: &String, b: &mut OnnxBuilder)
        requires
            old(self)@.consts.contains_key(name@),
            old(self)@.consts[name@].len() <= i64::MAX,
            old(self)@.consts[name@].len() > 0 && old(self)@.context.value_shapes.contains_key(
                name@,
            ) ==> total_in_range(old(self)@.context.value_shapes[name@]),
        ensures
            final(self)@ == after_emit(old(self)@, emit_v(final(self)@, final(b)@)),
            emit_v(final(self)@, final(b)@) == with_values(
                emit_v(old(self)@, old(b)@),
                name@,
                old(self)@.consts[name@],
            ),
            old(self)@.consts[name@].len() > 0 ==> total_in_range(
                seq![old(self)@.consts[name@].len() as i64],
            ),
    {
        let values: Vec<i64> = match self.const_values.get(name) {
            Some(v) => v.duplicate(),
            None => Vec::new(),
        };
        let len: usize = values.len();
        if len == 0 {
            b.push(BuilderOp::MarkEmptyOptional { name: name.clone() });
            return ;
        }
        let flat: Vec<i64> = list1(len as i64);
        let (shape, fits): (Vec<i64>, bool) = match self.context.value_shapes.get(name) {
            Some(s) => {
                let total = find_total(s);
                (s.duplicate(), total.is_some() && total.unwrap() == len)
            },
            None => (flat.duplicate(), true),
        };
        proof {
            lemma_flat_total(len);
        }
        let shape: Vec<i64> = if fits {
            shape
        } else {
            self.context.value_shapes.insert(name.clone(), flat.duplicate());
            let id = types::sanitize_identifier(name.as_str());
            self.context.value_shapes.insert(id, flat.duplicate());
            flat
        };
        let dtype = match self.context.value_types.get(name) {
            Some(t) => *t,
            None => DataType::Int64,
        };
        let data = find_data(dtype, &values);
        let sizes = lower::to_sizes(&shape);
        self.declare(name, find_emitted_type(dtype), sizes, data, b);
    }

    /// Emits the outputs of a node whose values are known as constants.
    pub fn emit_constants(&mut self, node: &NodeProto, b: &mut OnnxBuilder)
        requires
            is_constant_node(node@, old(self)@),
            emit_in_range(node@, old(self)@),
        ensures
            final(b)@ == emitted(node@, old(self)@, old(b)@).ops,
            final(self)@ == after_emit(
                old(self)@,
                emitted(node@, old(self)@, old(b)@),
            ),
    {
        let ghost s = self@;
        let ghost start = emit_v(s, b@);
        let ghost outputs = node@.output;
        let scalar = self.all_scalar(node);
        if scalar {
            let mut i: usize = 0;
            assert(outputs.take(0) =~= Seq::<Seq<char>>::empty());
            assert(self@ =~= after_emit(s, emit_v(self@, b@)));
            while i < node.output.len()
                invariant
                    i <= node.output@.len(),
                    outputs == protos::texts(node.output@),
                    outputs == node@.output,
                    is_constant_node(node@, s),
                    emit_in_range(node@, s),
                    all_scalar(node@, s),
                    self@ == after_emit(s, emit_v(self@, b@)),
                    self@.context.value_shapes == s.context.value_shapes,
                    emit_v(self@, b@) == with_scalars(start, outputs.take(i as int), s.consts),
                decreases node.output@.len() - i,
            {
                assert(outputs[i as int] == node.output@[i as int]@);
                assert(outputs.take(i + 1).drop_last() =~= outputs.take(i as int));
                self.emit_scalar(&node.output[i], b);
                i = i + 1;
            }
            assert(outputs.take(i as int) =~= outputs);
        }
        let ghost first = emit_v(self@, b@);
        let mut i: usize = 0;
        assert(outputs.take(0) =~= Seq::<Seq<char>>::empty());
        assert(self@ =~= after_emit(s, emit_v(self@, b@)));
        while i < node.output.len()
            invariant
                i <= node.output@.len(),
                outputs == protos::texts(node.output@),
                outputs == node@.output,
                is_constant_node(node@, s),
                emit_in_range(node@, s),
                forall|k: int|
                    0 <= k < outputs.len() && s.consts[#[trigger] outputs[k]].len() > 0
                        && self@.context.value_shapes.contains_key(outputs[k]) ==> total_in_range(
                        self@.context.value_shapes[outputs[k]],
                    ),
                self@ == after_emit(s, emit_v(self@, b@)),
                emit_v(self@, b@) == with_all_values(first, outputs.take(i as int), s.consts),
            decreases node.output@.len() - i,
        {
            assert(outputs[i as int] == node.output@[i as int]@);
            assert(outputs.take(i + 1).drop_last() =~= outputs.take(i as int));
            self.emit_values(&node.output[i], b);
            i = i + 1;
        }
        assert(outputs.take(i as int) =~= outputs);
    }

    /// Notes the types that a lowered node reports for its outputs.
    pub fn note_types(&mut self, output_types: &NameMap<DataType>)
        ensures
            final(self)@ == with_output_types(old(self)@, output_types.entries()),
    {
        let ghost start = self@;
        let ghost all = output_types.entries();
        let n: usize = output_types.len();
        let mut i: usize = 0;
        assert(all.take(0) =~= Seq::<(Seq<char>, DataType)>::empty());
        while i < n
            invariant
                i <= n,
                n == all.len(),
                all == output_types.entries(),
                self@ == with_output_types(start, all.take(i as int)),
            decreases n - i,
        {
            assert(all.take(i + 1).drop_last() =~= all.take(i as int));
            let id = types::sanitize_identifier(output_types.key(i).as_str());
            self.names.insert(output_types.key(i).clone(), id.clone());
            self.context.value_types.insert(id, *output_types.value(i));
            i = i + 1;
        }
        assert(all.take(i as int) =~= all);
    }

    /// Notes the shape of the outputs of a lowered node. It replaces shapes
    /// that were known before.
    pub fn note_shape(&mut self, node: &NodeProto, shape: &Vec<i64>)
        ensures
            final(self)@ == (LoweringV {
                context: ContextV {
                    value_shapes: with_output_shapes(
                        old(self)@.context.value_shapes,
                        node@.output,
                        shape@,
                    ),
                    ..old(self)@.context
                },
                ..old(self)@
            }),
    {
        let ghost start = self@;
        let ghost outputs = node@.output;
        let mut i: usize = 0;
        assert(outputs.take(0) =~= Seq::<Seq<char>>::empty());
        while i < node.output.len()
            invariant
                i <= node.output@.len(),
                outputs == protos::texts(node.output@),
                self@ == (LoweringV {
                    context: ContextV {
                        value_shapes: with_output_shapes(
                            start.context.value_shapes,
                            outputs.take(i as int),
                            shape@,
                        ),
                        ..start.context
                    },
                    ..start
                }),
            decreases node.output@.len() - i,
        {
            assert(outputs[i as int] == node.output@[i as int]@);
            assert(outputs.take(i + 1).drop_last() =~= outputs.take(i as int));
            self.context.value_shapes.insert(node.output[i].clone(), shape.duplicate());
            let id = types::sanitize_identifier(node.output[i].as_str());
            self.context.value_shapes.insert(id, shape.duplicate());
            i = i + 1;
        }
        assert(outputs.take(i as int) =~= outputs);
    }
}

/// The arithmetic of the next step on a node is in range.
pub open spec fn step_in_range(n: NodeV, s: LoweringV) -> bool {
    if is_constant_node(n, s) {
        emit_in_range(n, s)
    } else {
        registry::node_in_range(n, s.context)
    }
}

impl Lowering {
    /// Whether [`Self::lower_node`] can be called on the node.
    pub fn node_fits(&self, node: &NodeProto, registry: &OpRegistry) -> (r: bool)
        ensures
            r == step_in_range(node@, self@),
    {
        if self.is_constant_node(node) {
            self.emit_fits(node)
        } else {
            registry.in_range(node, &self.context)
        }
    }

    /// The next step on a node: its outputs are emitted as constants where their
    /// values are known; otherwise its handler lowers it, where this library has
    /// one.
    pub fn lower_node(&mut self, node: &NodeProto, registry: &OpRegistry, b: &mut OnnxBuilder) -> (r:
        Result<NodeStep, OnnxError>)
        requires
            step_in_range(node@, old(self)@),
        ensures
            r == Ok::<NodeStep, OnnxError>(NodeStep::Emitted) <==> is_constant_node(
                node@,
                old(self)@,
            ),
            is_constant_node(node@, old(self)@) ==> final(b)@ == emitted(
                node@,
                old(self)@,
                old(b)@,
            ).ops && final(self)@ == after_emit(
                old(self)@,
                emitted(node@, old(self)@, old(b)@),
            ),
            !is_constant_node(node@, old(self)@) ==> match registry::lowered_node(
                node@,
                old(self)@.context,
                old(b)@,
            ) {
                None => r == Ok::<NodeStep, OnnxError>(NodeStep::Elsewhere) && final(b)@ == old(b)@
                    && final(self)@ == old(self)@,
                Some(o) => final(b)@ == o.ops && match o.result {
                    Err(e) => r matches Err(x) && x@ == e && final(self)@ == old(self)@,
                    Ok(t) => r == Ok::<NodeStep, OnnxError>(NodeStep::Lowered) && exists|
                        e: Seq<(Seq<char>, DataType)>,
                    |
                        names::map_of(e) == t && final(self)@ == #[trigger] with_output_types(
                            old(self)@,
                            e,
                        ),
                },
            },
    {
        if self.is_constant_node(node) {
            self.emit_constants(node, b);
            return Ok(NodeStep::Emitted);
        }
        match registry.convert_node(node, &self.context, b) {
            None => Ok(NodeStep::Elsewhere),
            Some(Err(e)) => Err(e),
            Some(Ok(c)) => {
                self.note_types(&c.output_types);
                Ok(NodeStep::Lowered)
            },
        }
    }
}

proof fn lemma_flat_total(len: usize)
    requires
        len <= i64::MAX,
    ensures
        declared_total(seq![len as i64]) == Some(len as int),
        total_in_range(seq![len as i64]),
{
    let s = seq![len as i64];
    assert(s.drop_last() =~= Seq::<i64>::empty());
    assert(arith::product(s) == arith::product(s.drop_last()) * len);
    assert(arith::product(s.drop_last()) == 1);
    assert forall|n: int|
        0 <= n <= s.len() && (forall|i: int|
            0 <= i < n ==> is_size(#[trigger] s[i])) implies #[trigger] arith::product(s.take(n))
        <= usize::MAX by {
        if n == 1 {
            assert(s.take(1) =~= s);
        } else {
            assert(s.take(0) =~= Seq::<i64>::empty());
        }
    }
    assert(is_size(s[0]));
}

// ---------------------------------------------------------------------------
// Laws
// ---------------------------------------------------------------------------

/// Models are accepted by version exactly when every import of the standard
/// operators lies in the supported range; other domains do not count.
pub proof fn law_supported_opsets(v: Seq<OpsetV>)
    ensures
        opset_error(v) is None <==> forall|i: int|
            0 <= i < v.len() && is_standard((#[trigger] v[i]).domain) ==> MIN_SUPPORTED_OPSET
                <= v[i].version <= MAX_SUPPORTED_OPSET,
    decreases v.len(),
{
    if v.len() > 0 {
        let rest = v.drop_first();
        law_supported_opsets(rest);
        assert(forall|i: int| 0 <= i < rest.len() ==> #[trigger] rest[i] == v[i + 1]);
        if opset_error(v) is None {
            assert forall|i: int|
                0 <= i < v.len() && is_standard((#[trigger] v[i]).domain) implies MIN_SUPPORTED_OPSET
                <= v[i].version <= MAX_SUPPORTED_OPSET by {
                if i > 0 {
                    assert(rest[i - 1] == v[i]);
                }
            }
        }
    }
}

/// The overrides of a model's metadata never replace those given before.
pub proof fn law_metadata_keeps_given_overrides(
    m: Map<Seq<char>, u32>,
    v: Seq<EntryV>,
    name: Seq<char>,
)
    requires
        m.contains_key(name),
    ensures
        with_metadata(m, v).contains_key(name),
        with_metadata(m, v)[name] == m[name],
    decreases v.len(),
{
    if v.len() > 0 {
        law_metadata_keeps_given_overrides(m, v.drop_last(), name);
        let front = with_metadata(m, v.drop_last());
        overrides::law_merged_overrides_keep_given_values(front, v.last().value, name);
    }
}

/// Shape inference is tried again only for a symbol for which it was not tried
/// before, and only where dynamic dimensions are kept. The symbol has a value
/// from then on, and no symbol is ever tried twice.
pub proof fn law_inference_retries_make_progress(s: LoweringV, e: InferenceV, dynamic: bool)
    requires
        s.attempts.no_duplicates(),
    ensures
        ({
            let o = after_inference(s, e, dynamic);
            &&& o.state.attempts.no_duplicates()
            &&& o.retry == Ok::<bool, ErrorV>(true) <==> dynamic && e is DynamicDim
                && !s.attempts.contains(e->DynamicDim_0)
            &&& o.retry == Ok::<bool, ErrorV>(true) ==> o.state.attempts == s.attempts.push(
                e->DynamicDim_0,
            ) && o.state.overrides.inference.contains_key(e->DynamicDim_0)
            &&& o.retry != Ok::<bool, ErrorV>(true) ==> o.state.attempts == s.attempts
        }),
{
}

/// A constant that is emitted has as many elements as its shape declares: a
/// shape that does not fit the values is replaced by a flat one, and the table
/// of shapes then says the same.
pub proof fn law_emitted_shapes_fit_the_values(e: EmitV, name: Seq<char>, values: Seq<i64>)
    requires
        0 < values.len() <= i64::MAX,
        values.len() <= usize::MAX,
    ensures
        ({
            let r = with_values(e, name, values);
            let shape = if r.shapes.contains_key(name) {
                r.shapes[name]
            } else {
                seq![values.len() as i64]
            };
            &&& declared_total(shape) == Some(values.len() as int)
            &&& r.ops.last() == (OpV::Constant {
                name: types::sanitized(name),
                dtype: r.types[name],
                shape: lower::sizes_u32(shape),
                data: emitted_data(
                    if e.types.contains_key(name) {
                        e.types[name]
                    } else {
                        DataType::Int64
                    },
                    values,
                ),
            })
        }),
{
    let flat = seq![values.len() as i64];
    assert(flat.drop_last() =~= Seq::<i64>::empty());
    assert(arith::product(flat) == arith::product(flat.drop_last()) * values.len());
    assert(arith::product(flat.drop_last()) == 1);
    assert(declared_total(flat) == Some(values.len() as int));
}

/// Inputs and constants are declared by steps that read no operands, so what
/// lowering starts with is a well-formed plan.
pub proof fn law_declarations_continue_the_plan(
    g: GraphV,
    metadata: Seq<EntryV>,
    given: Map<Seq<char>, u32>,
    payloads: Seq<Result<Seq<u8>, Seq<char>>>,
    dynamic: bool,
    ops: Seq<OpV>,
)
    requires
        builder::well_formed(ops),
    ensures
        builder::continues(
            ops,
            start_outcome(g, metadata, given, payloads, dynamic, ops).ops,
        ),
{
    broadcast use builder::group_plans;

    let first = InputsV {
        overrides: OverridesV { effective: with_metadata(given, metadata), inference: given },
        names: seq![],
        types: Map::empty(),
    };
    let i = lower::declare_inputs(g.input, 0, g.initializer, dynamic, ops, first);
    lower::lemma_inputs_continue(g.input, 0, g.initializer, dynamic, ops, first);
    if let Ok(s) = i.result {
        let c = lower::declare_constants(g.initializer, payloads, 0, i.ops, s);
        lower::lemma_constants_continue(g.initializer, payloads, 0, i.ops, s);
        builder::lemma_continues_trans(ops, i.ops, c.ops);
    }
}

proof fn lemma_scalars_continue(
    e: EmitV,
    outputs: Seq<Seq<char>>,
    consts: Map<Seq<char>, Seq<i64>>,
)
    requires
        builder::well_formed(e.ops),
    ensures
        builder::continues(e.ops, with_scalars(e, outputs, consts).ops),
    decreases outputs.len(),
{
    broadcast use builder::group_plans;

    if outputs.len() > 0 {
        lemma_scalars_continue(e, outputs.drop_last(), consts);
    }
}

proof fn lemma_values_continue(
    e: EmitV,
    outputs: Seq<Seq<char>>,
    consts: Map<Seq<char>, Seq<i64>>,
)
    requires
        builder::well_formed(e.ops),
    ensures
        builder::continues(e.ops, with_all_values(e, outputs, consts).ops),
    decreases outputs.len(),
{
    broadcast use builder::group_plans;

    if outputs.len() > 0 {
        lemma_values_continue(e, outputs.drop_last(), consts);
    }
}

/// Emitting the constants of a node continues the plan.
pub proof fn law_emitted_constants_continue_the_plan(n: NodeV, s: LoweringV, ops: Seq<OpV>)
    requires
        builder::well_formed(ops),
    ensures
        builder::continues(ops, emitted(n, s, ops).ops),
{
    broadcast use builder::group_plans;

    let e = EmitV {
        ops,
        names: s.names,
        types: s.context.value_types,
        shapes: s.context.value_shapes,
    };
    let first = if all_scalar(n, s) {
        with_scalars(e, n.output, s.consts)
    } else {
        e
    };
    lemma_scalars_continue(e, n.output, s.consts);
    lemma_values_continue(first, n.output, s.consts);
    builder::lemma_continues_trans(ops, first.ops, with_all_values(first, n.output, s.consts).ops);
}

} // verus!
