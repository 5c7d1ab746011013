//! Lowering of a model: the values around its nodes, and the order in which
//! steps are appended to the plan.
use crate::builder;
use crate::builder::{BuilderOp, ConstData, ConstDataV, OnnxBuilder, OpV};
use crate::context::{InitTensor, InitV};
use crate::error::{ErrorV, OnnxError};
use crate::inline_if;
use crate::names;
use crate::names::{Duplicate, NameMap};
use crate::overrides;
use crate::pin;
use crate::protos;
use crate::protos::{
    AttributeProto, AttributeV, DimV, DimensionProto, GraphProto, GraphV, NodeProto, NodeV, TensorProto, TensorTypeV, TensorV, ValueInfoProto,
    ValueInfoV,
};
use crate::prune;
use crate::tensors;
use crate::text;
use crate::types;
use crate::types::{DataType, Dimension, DimensionV, Dims};
use vstd::hash_set::StringHashSet;
use vstd::prelude::*;

verus! {

// ---------------------------------------------------------------------------
// Inputs
// ---------------------------------------------------------------------------

/// Values for symbols: those that count for declared shapes, and those that
/// count for shape inference.
pub struct OverridesV {
    pub effective: Map<Seq<char>, u32>,
    pub inference: Map<Seq<char>, u32>,
}

pub open spec fn how_to_resolve(symbol: Seq<char>) -> Seq<char> {
    "Provide --override-dim "@ + symbol
        + "=<value> or enable --experimental-dynamic-inputs."@
}

/// One axis of an input and the overrides from then on.
pub struct AxisV {
    pub overrides: OverridesV,
    pub dimension: DimensionV,
}

/// An axis of an input: its size, an override, or a dynamic dimension where
/// those are kept. A batch dimension without a value becomes 1.
pub open spec fn input_axis(
    d: DimV,
    input: Seq<char>,
    axis: int,
    dynamic: bool,
    o: OverridesV,
) -> Result<AxisV, ErrorV> {
    let hint = inline_if::axis_name(input, axis);
    match d {
        DimV::Value(v) => if v > 0 {
            Ok(AxisV { overrides: o, dimension: DimensionV::Static(v as u32) })
        } else if o.effective.contains_key(hint) {
            Ok(AxisV { overrides: o, dimension: DimensionV::Static(o.effective[hint]) })
        } else if dynamic {
            Ok(
                AxisV {
                    overrides: o,
                    dimension: DimensionV::Dynamic {
                        name: hint,
                        max_size: overrides::DEFAULT_MAX_SIZE,
                    },
                },
            )
        } else {
            Err(
                ErrorV::InvalidShape(
                    "Input '"@ + input + "' has non-positive dim value ("@ + text::decimal(v as int)
                        + ") at index "@ + text::decimal(axis) + ". "@ + how_to_resolve(hint),
                ),
            )
        },
        DimV::Param(p) => match overrides::override_of(o.effective, p) {
            Some(v) => Ok(AxisV { overrides: o, dimension: DimensionV::Static(v) }),
            None => if dynamic {
                Ok(
                    AxisV {
                        overrides: o,
                        dimension: DimensionV::Dynamic {
                            name: p,
                            max_size: overrides::dynamic_max(p),
                        },
                    },
                )
            } else {
                match overrides::inference_value(o.inference, p) {
                    Some(v) => Ok(
                        AxisV {
                            overrides: OverridesV {
                                effective: o.effective.insert(p, v),
                                inference: overrides::inference_overrides(o.inference, p),
                            },
                            dimension: DimensionV::Static(v),
                        },
                    ),
                    None => Err(
                        ErrorV::InvalidShape(
                            "Input '"@ + input + "' has unresolved dynamic dimension '"@ + p
                                + "'. "@ + how_to_resolve(p),
                        ),
                    ),
                }
            },
        },
        DimV::Unknown => if dynamic {
            Ok(
                AxisV {
                    overrides: o,
                    dimension: DimensionV::Dynamic {
                        name: hint,
                        max_size: overrides::DEFAULT_MAX_SIZE,
                    },
                },
            )
        } else {
            Err(
                ErrorV::InvalidShape(
                    "Input '"@ + input + "' has unknown dimension at index "@ + text::decimal(axis)
                        + ". "@ + how_to_resolve(hint),
                ),
            )
        },
    }
}

/// The axes of an input and the overrides from then on.
pub struct AxesV {
    pub overrides: OverridesV,
    pub dimensions: Seq<DimensionV>,
}

/// The axes from `from` on, behind those already found.
pub open spec fn input_axes(
    dims: Seq<DimV>,
    input: Seq<char>,
    from: int,
    dynamic: bool,
    a: AxesV,
) -> Result<AxesV, ErrorV>
    decreases dims.len() - from,
{
    if from >= dims.len() {
        Ok(a)
    } else {
        match input_axis(dims[from], input, from, dynamic, a.overrides) {
            Err(e) => Err(e),
            Ok(x) => input_axes(
                dims,
                input,
                from + 1,
                dynamic,
                AxesV { overrides: x.overrides, dimensions: a.dimensions.push(x.dimension) },
            ),
        }
    }
}

fn append_how(m: &mut String, symbol: &String)
    ensures
        final(m)@ == old(m)@ + how_to_resolve(symbol@),
{
    let ghost before = m@;
    m.append("Provide --override-dim ");
    m.append(symbol.as_str());
    m.append("=<value> or enable --experimental-dynamic-inputs.");
    assert(m@ =~= before + how_to_resolve(symbol@));
}

fn resolve_axis(
    d: &DimensionProto,
    input: &String,
    axis: usize,
    dynamic: bool,
    effective: &mut NameMap<u32>,
    inference: &mut NameMap<u32>,
) -> (r: Result<Dimension, OnnxError>)
    ensures
        ({
            let want = input_axis(
                d@,
                input@,
                axis as int,
                dynamic,
                OverridesV { effective: old(effective)@, inference: old(inference)@ },
            );
            match r {
                Err(e) => want == Err::<AxisV, ErrorV>(e@),
                Ok(x) => want == Ok::<AxisV, ErrorV>(
                    AxisV {
                        overrides: OverridesV {
                            effective: final(effective)@,
                            inference: final(inference)@,
                        },
                        dimension: x@,
                    },
                ),
            }
        }),
{
    match d {
        DimensionProto::DimValue(v) => {
            if *v > 0 {
                return Ok(Dimension::Static(*v as u32));
            }
            let hint = inline_if::make_axis_name(input, axis);
            if let Some(n) = effective.get(&hint) {
                return Ok(Dimension::Static(*n));
            }
            if dynamic {
                return Ok(
                    Dimension::Dynamic { name: hint, max_size: overrides::DEFAULT_MAX_SIZE },
                );
            }
            let mut m = String::from_str("Input '");
            m.append(input.as_str());
            m.append("' has non-positive dim value (");
            let t = text::decimal_i64(*v);
            m.append(t.as_str());
            m.append(") at index ");
            let t = text::decimal_usize(axis);
            m.append(t.as_str());
            m.append(". ");
            append_how(&mut m, &hint);
            Err(OnnxError::InvalidShape(m))
        },
        DimensionProto::DimParam(p) => {
            if let Some(v) = overrides::resolve_dim_override(p, effective) {
                return Ok(Dimension::Static(v));
            }
            if dynamic {
                return Ok(
                    Dimension::Dynamic {
                        name: p.clone(),
                        max_size: overrides::dynamic_max_for_dim(p),
                    },
                );
            }
            if let Some(v) = overrides::resolve_dim_for_inference(p, inference) {
                effective.insert_new(p.clone(), v);
                return Ok(Dimension::Static(v));
            }
            let mut m = String::from_str("Input '");
            m.append(input.as_str());
            m.append("' has unresolved dynamic dimension '");
            m.append(p.as_str());
            m.append("'. ");
            append_how(&mut m, p);
            Err(OnnxError::InvalidShape(m))
        },
        DimensionProto::Unknown => {
            let hint = inline_if::make_axis_name(input, axis);
            if dynamic {
                return Ok(
                    Dimension::Dynamic { name: hint, max_size: overrides::DEFAULT_MAX_SIZE },
                );
            }
            let mut m = String::from_str("Input '");
            m.append(input.as_str());
            m.append("' has unknown dimension at index ");
            let t = text::decimal_usize(axis);
            m.append(t.as_str());
            m.append(". ");
            append_how(&mut m, &hint);
            Err(OnnxError::InvalidShape(m))
        },
    }
}

fn resolve_axes(
    dims: &Vec<DimensionProto>,
    input: &String,
    dynamic: bool,
    effective: &mut NameMap<u32>,
    inference: &mut NameMap<u32>,
) -> (r: Result<Dims, OnnxError>)
    ensures
        ({
            let want = input_axes(
                protos::dims_v(dims@),
                input@,
                0,
                dynamic,
                AxesV {
                    overrides: OverridesV {
                        effective: old(effective)@,
                        inference: old(inference)@,
                    },
                    dimensions: seq![],
                },
            );
            match r {
                Err(e) => want == Err::<AxesV, ErrorV>(e@),
                Ok(x) => want == Ok::<AxesV, ErrorV>(
                    AxesV {
                        overrides: OverridesV {
                            effective: final(effective)@,
                            inference: final(inference)@,
                        },
                        dimensions: x@,
                    },
                ),
            }
        }),
{
    let ghost dv = protos::dims_v(dims@);
    let ghost want = input_axes(
        dv,
        input@,
        0,
        dynamic,
        AxesV {
            overrides: OverridesV { effective: effective@, inference: inference@ },
            dimensions: seq![],
        },
    );
    let mut items: Vec<Dimension> = Vec::new();
    let mut i: usize = 0;
    assert(types::dimensions_v(items@) =~= Seq::<DimensionV>::empty());
    while i < dims.len()
        invariant
            i <= dims@.len(),
            dv == protos::dims_v(dims@),
            want == input_axes(
                dv,
                input@,
                0,
                dynamic,
                (AxesV {
                    overrides: OverridesV {
                        effective: old(effective)@,
                        inference: old(inference)@,
                    },
                    dimensions: seq![],
                }),
            ),
            want == input_axes(
                dv,
                input@,
                i as int,
                dynamic,
                (AxesV {
                    overrides: OverridesV { effective: effective@, inference: inference@ },
                    dimensions: types::dimensions_v(items@),
                }),
            ),
        decreases dims@.len() - i,
    {
        assert(dv[i as int] == dims@[i as int]@);
        let ghost before = types::dimensions_v(items@);
        match resolve_axis(&dims[i], input, i, dynamic, effective, inference) {
            Ok(x) => {
                let ghost xv = x@;
                items.push(x);
                assert(types::dimensions_v(items@) =~= before.push(xv));
            },
            Err(e) => return Err(e),
        }
        i = i + 1;
    }
    Ok(Dims { items })
}

/// What is known once inputs are declared.
pub struct InputsV {
    pub overrides: OverridesV,
    pub names: Seq<(Seq<char>, Seq<char>)>,
    pub types: Map<Seq<char>, DataType>,
}

pub struct InputsOutcome {
    pub ops: Seq<OpV>,
    pub result: Result<InputsV, ErrorV>,
}

/// The element type of an input; float32 where it is not declared.
pub open spec fn input_type(t: TensorTypeV) -> Result<DataType, ErrorV> {
    if t.elem_type != 0 {
        types::mapped_type(t.elem_type)
    } else {
        Ok(DataType::Float32)
    }
}

/// The names of a value, as the model and as WebNN has it, lead to its
/// identifier.
pub open spec fn with_name(
    names: Seq<(Seq<char>, Seq<char>)>,
    name: Seq<char>,
) -> Seq<(Seq<char>, Seq<char>)> {
    let id = types::sanitized(name);
    names::upsert(names::upsert(names, name, id), id, id)
}

pub open spec fn with_type(
    m: Map<Seq<char>, DataType>,
    name: Seq<char>,
    t: DataType,
) -> Map<Seq<char>, DataType> {
    m.insert(name, t).insert(types::sanitized(name), t)
}

/// One input declared. Initializers, values that are no tensors, and scalars
/// are passed over.
pub open spec fn declare_input(
    info: ValueInfoV,
    initializers: Seq<TensorV>,
    dynamic: bool,
    ops: Seq<OpV>,
    s: InputsV,
) -> InputsOutcome {
    if prune::has_tensor(initializers, info.name) || info.tensor_type is None {
        InputsOutcome { ops, result: Ok(s) }
    } else {
        let t = info.tensor_type->0;
        match input_type(t) {
            Err(e) => InputsOutcome { ops, result: Err(e) },
            Ok(dtype) => match t.shape {
                None => InputsOutcome {
                    ops,
                    result: Err(
                        ErrorV::InvalidShape(
                            "Input '"@ + info.name + "' is missing shape information"@,
                        ),
                    ),
                },
                Some(dims) => match input_axes(
                    dims,
                    info.name,
                    0,
                    dynamic,
                    AxesV { overrides: s.overrides, dimensions: seq![] },
                ) {
                    Err(e) => InputsOutcome { ops, result: Err(e) },
                    Ok(a) => if a.dimensions.len() == 0 {
                        InputsOutcome {
                            ops,
                            result: Ok(InputsV { overrides: a.overrides, ..s }),
                        }
                    } else {
                        InputsOutcome {
                            ops: ops.push(
                                OpV::Input { name: info.name, dtype, shape: a.dimensions },
                            ),
                            result: Ok(
                                InputsV {
                                    overrides: a.overrides,
                                    names: with_name(s.names, info.name),
                                    types: with_type(s.types, info.name, dtype),
                                },
                            ),
                        }
                    },
                },
            },
        }
    }
}

/// The inputs from `from` on declared in order, up to the first that cannot be.
pub open spec fn declare_inputs(
    inputs: Seq<ValueInfoV>,
    from: int,
    initializers: Seq<TensorV>,
    dynamic: bool,
    ops: Seq<OpV>,
    s: InputsV,
) -> InputsOutcome
    decreases inputs.len() - from,
{
    if from >= inputs.len() {
        InputsOutcome { ops, result: Ok(s) }
    } else {
        let o = declare_input(inputs[from], initializers, dynamic, ops, s);
        match o.result {
            Err(e) => o,
            Ok(n) => declare_inputs(inputs, from + 1, initializers, dynamic, o.ops, n),
        }
    }
}

/// Names, types and overrides while a model is lowered.
pub struct Values {
    pub effective: NameMap<u32>,
    pub inference: NameMap<u32>,
    pub names: NameMap<String>,
    pub types: NameMap<DataType>,
}

impl View for Values {
    type V = InputsV;

    open spec fn view(&self) -> InputsV {
        InputsV {
            overrides: OverridesV { effective: self.effective@, inference: self.inference@ },
            names: self.names.entries(),
            types: self.types@,
        }
    }
}

impl Values {
    /// Records the identifier and the type of a value.
    fn record(&mut self, name: &String, dtype: DataType)
        ensures
            final(self)@ == (InputsV {
                names: with_name(old(self)@.names, name@),
                types: with_type(old(self)@.types, name@, dtype),
                ..old(self)@
            }),
    {
        let id = types::sanitize_identifier(name.as_str());
        self.names.insert(name.clone(), id.clone());
        self.names.insert(id.clone(), id.clone());
        self.types.insert(name.clone(), dtype);
        self.types.insert(id, dtype);
    }
}

pub open spec fn inputs_outcome(
    ops: Seq<OpV>,
    v: InputsV,
    r: Result<(), OnnxError>,
) -> InputsOutcome {
    InputsOutcome {
        ops,
        result: match r {
            Ok(_) => Ok(v),
            Err(e) => Err(e@),
        },
    }
}

/// The names of the initializers of a graph.
pub(crate) fn tensor_names(v: &Vec<TensorProto>) -> (r: StringHashSet)
    ensures
        forall|n: Seq<char>|
            #[trigger] r@.contains(n) <==> prune::has_tensor(protos::tensors_v(v@), n),
{
    let mut set = StringHashSet::new();
    let ghost all = protos::tensors_v(v@);
    let mut i: usize = 0;
    while i < v.len()
        invariant
            i <= v@.len(),
            all == protos::tensors_v(v@),
            forall|n: Seq<char>|
                #[trigger] set@.contains(n) <==> exists|k: int|
                    0 <= k < i && (#[trigger] all[k]).name == n,
        decreases v@.len() - i,
    {
        assert(all[i as int].name == v@[i as int].name@);
        set.insert(v[i].name.clone());
        i = i + 1;
    }
    set
}

fn lower_input(
    info: &ValueInfoProto,
    skipped: &StringHashSet,
    Ghost(initializers): Ghost<Seq<TensorV>>,
    dynamic: bool,
    values: &mut Values,
    b: &mut OnnxBuilder,
) -> (r: Result<(), OnnxError>)
    requires
        forall|n: Seq<char>|
            #[trigger] skipped@.contains(n) <==> prune::has_tensor(initializers, n),
    ensures
        inputs_outcome(final(b)@, final(values)@, r) == declare_input(
            info@,
            initializers,
            dynamic,
            old(b)@,
            old(values)@,
        ),
{
    if skipped.contains(info.name.as_str()) {
        return Ok(());
    }
    let t = match &info.tensor_type {
        Some(t) => t,
        None => return Ok(()),
    };
    let dtype = if t.elem_type != 0 {
        match types::map_onnx_data_type(t.elem_type) {
            Ok(d) => d,
            Err(e) => return Err(e),
        }
    } else {
        DataType::Float32
    };
    let dims = match &t.shape {
        Some(d) => d,
        None => {
            let mut m = String::from_str("Input '");
            m.append(info.name.as_str());
            m.append("' is missing shape information");
            return Err(OnnxError::InvalidShape(m));
        },
    };
    let shape = match resolve_axes(
        dims,
        &info.name,
        dynamic,
        &mut values.effective,
        &mut values.inference,
    ) {
        Ok(s) => s,
        Err(e) => return Err(e),
    };
    if shape.items.len() == 0 {
        return Ok(());
    }
    b.push(BuilderOp::Input { name: info.name.clone(), dtype, shape });
    values.record(&info.name, dtype);
    Ok(())
}

/// Declares the graph inputs that are not initializers.
pub fn lower_inputs(graph: &GraphProto, dynamic: bool, values: &mut Values, b: &mut OnnxBuilder) -> (r:
    Result<(), OnnxError>)
    ensures
        inputs_outcome(final(b)@, final(values)@, r) == declare_inputs(
            graph@.input,
            0,
            graph@.initializer,
            dynamic,
            old(b)@,
            old(values)@,
        ),
{
    let skipped = tensor_names(&graph.initializer);
    let ghost inputs = graph@.input;
    let ghost goal = declare_inputs(inputs, 0, graph@.initializer, dynamic, b@, values@);
    let mut i: usize = 0;
    while i < graph.input.len()
        invariant
            i <= graph.input@.len(),
            inputs == protos::infos_v(graph.input@),
            forall|n: Seq<char>|
                #[trigger] skipped@.contains(n) <==> prune::has_tensor(graph@.initializer, n),
            goal == declare_inputs(
                graph@.input,
                0,
                graph@.initializer,
                dynamic,
                old(b)@,
                old(values)@,
            ),
            goal == declare_inputs(
                inputs,
                i as int,
                graph@.initializer,
                dynamic,
                b@,
                values@,
            ),
        decreases graph.input@.len() - i,
    {
        assert(inputs[i as int] == graph.input@[i as int]@);
        match lower_input(
            &graph.input[i],
            &skipped,
            Ghost(graph@.initializer),
            dynamic,
            values,
            b,
        ) {
            Ok(_) => {},
            Err(e) => return Err(e),
        }
        i = i + 1;
    }
    Ok(())
}

// ---------------------------------------------------------------------------
// Initializers
// ---------------------------------------------------------------------------

/// The payload of an initializer as the graph takes it, or the reason why it
/// could not be decoded.
pub type Payload = Result<Vec<u8>, String>;

pub open spec fn payload_v(p: Payload) -> Result<Seq<u8>, Seq<char>> {
    match p {
        Ok(b) => Ok(b@),
        Err(m) => Err(m@),
    }
}

pub open spec fn payloads_v(v: Seq<Payload>) -> Seq<Result<Seq<u8>, Seq<char>>> {
    Seq::new(v.len(), |i: int| payload_v(v[i]))
}

/// Sizes cut to 32 bits.
pub open spec fn sizes_u32(dims: Seq<i64>) -> Seq<u32> {
    Seq::new(dims.len(), |i: int| dims[i] as u32)
}

pub fn to_sizes(dims: &Vec<i64>) -> (r: Vec<u32>)
    ensures
        r@ == sizes_u32(dims@),
{
    let mut r: Vec<u32> = Vec::new();
    let mut i: usize = 0;
    while i < dims.len()
        invariant
            i <= dims@.len(),
            r@ == sizes_u32(dims@).take(i as int),
        decreases dims@.len() - i,
    {
        r.push(dims[i] as u32);
        i = i + 1;
        assert(r@ =~= sizes_u32(dims@).take(i as int));
    }
    assert(sizes_u32(dims@).take(i as int) =~= sizes_u32(dims@));
    r
}

/// One initializer declared as a constant. Tensors without elements stand for
/// absent optional inputs; tensors without data are passed over.
pub open spec fn declare_constant(
    t: TensorV,
    payload: Result<Seq<u8>, Seq<char>>,
    ops: Seq<OpV>,
    s: InputsV,
) -> InputsOutcome {
    if prune::is_empty_tensor(t) {
        InputsOutcome { ops: ops.push(OpV::MarkEmptyOptional { name: t.name }), result: Ok(s) }
    } else if !tensors::has_data(t) {
        InputsOutcome { ops, result: Ok(s) }
    } else {
        match types::mapped_type(t.data_type) {
            Err(e) => InputsOutcome { ops, result: Err(e) },
            Ok(dtype) => match payload {
                Err(m) => InputsOutcome { ops, result: Err(ErrorV::InvalidShape(m)) },
                Ok(b) => InputsOutcome {
                    ops: ops.push(
                        OpV::Constant {
                            name: t.name,
                            dtype,
                            shape: sizes_u32(t.dims),
                            data: ConstDataV::Bytes(b),
                        },
                    ),
                    result: Ok(
                        InputsV {
                            names: with_name(s.names, t.name),
                            types: with_type(s.types, t.name, dtype),
                            ..s
                        },
                    ),
                },
            },
        }
    }
}

/// The initializers from `from` on declared in order.
pub open spec fn declare_constants(
    v: Seq<TensorV>,
    payloads: Seq<Result<Seq<u8>, Seq<char>>>,
    from: int,
    ops: Seq<OpV>,
    s: InputsV,
) -> InputsOutcome
    decreases v.len() - from,
{
    if from >= v.len() {
        InputsOutcome { ops, result: Ok(s) }
    } else {
        let o = declare_constant(v[from], payloads[from], ops, s);
        match o.result {
            Err(e) => o,
            Ok(n) => declare_constants(v, payloads, from + 1, o.ops, n),
        }
    }
}

fn lower_constant(t: &TensorProto, payload: &Payload, values: &mut Values, b: &mut OnnxBuilder) -> (r:
    Result<(), OnnxError>)
    ensures
        inputs_outcome(final(b)@, final(values)@, r) == declare_constant(
            t@,
            payload_v(*payload),
            old(b)@,
            old(values)@,
        ),
{
    if prune::has_zero(&t.dims) {
        b.push(BuilderOp::MarkEmptyOptional { name: t.name.clone() });
        return Ok(());
    }
    if !tensors::has_payload(t) {
        return Ok(());
    }
    let dtype = match types::map_onnx_data_type(t.data_type) {
        Ok(d) => d,
        Err(e) => return Err(e),
    };
    let shape = to_sizes(&t.dims);
    let bytes: Vec<u8> = match payload {
        Ok(v) => {
            let c = v.clone();
            assert(c@ =~= v@);
            c
        },
        Err(m) => return Err(OnnxError::InvalidShape(m.clone())),
    };
    b.push(
        BuilderOp::Constant { name: t.name.clone(), dtype, shape, data: ConstData::Bytes(bytes) },
    );
    values.record(&t.name, dtype);
    Ok(())
}

/// Declares the initializers as constants.
pub fn lower_constants(
    tensors: &Vec<TensorProto>,
    payloads: &Vec<Payload>,
    values: &mut Values,
    b: &mut OnnxBuilder,
) -> (r: Result<(), OnnxError>)
    requires
        payloads@.len() == tensors@.len(),
    ensures
        inputs_outcome(final(b)@, final(values)@, r) == declare_constants(
            protos::tensors_v(tensors@),
            payloads_v(payloads@),
            0,
            old(b)@,
            old(values)@,
        ),
{
    let ghost tv = protos::tensors_v(tensors@);
    let ghost pv = payloads_v(payloads@);
    let ghost goal = declare_constants(tv, pv, 0, b@, values@);
    let mut i: usize = 0;
    while i < tensors.len()
        invariant
            i <= tensors@.len(),
            payloads@.len() == tensors@.len(),
            tv == protos::tensors_v(tensors@),
            pv == payloads_v(payloads@),
            goal == declare_constants(tv, pv, 0, old(b)@, old(values)@),
            goal == declare_constants(tv, pv, i as int, b@, values@),
        decreases tensors@.len() - i,
    {
        assert(tv[i as int] == tensors@[i as int]@);
        assert(pv[i as int] == payload_v(payloads@[i as int]));
        match lower_constant(&tensors[i], &payloads[i], values, b) {
            Ok(_) => {},
            Err(e) => return Err(e),
        }
        i = i + 1;
    }
    Ok(())
}

/// The constants by name, in order; the last one of a name counts.
pub open spec fn constants_map(
    v: Seq<TensorV>,
    payloads: Seq<Result<Seq<u8>, Seq<char>>>,
    n: int,
) -> Map<Seq<char>, InitV>
    decreases n,
{
    if n <= 0 {
        Map::empty()
    } else {
        let front = constants_map(v, payloads, n - 1);
        let t = v[n - 1];
        if tensors::has_data(t) {
            front.insert(
                t.name,
                InitV { data_type: t.data_type, dims: t.dims, payload: payloads[n - 1] },
            )
        } else {
            front
        }
    }
}

/// The constants by name, for handlers that read them.
pub fn collect_constants(tensors: &Vec<TensorProto>, payloads: &Vec<Payload>) -> (r: NameMap<
    InitTensor,
>)
    requires
        payloads@.len() == tensors@.len(),
    ensures
        r@ == constants_map(
            protos::tensors_v(tensors@),
            payloads_v(payloads@),
            tensors@.len() as int,
        ),
{
    let ghost tv = protos::tensors_v(tensors@);
    let ghost pv = payloads_v(payloads@);
    let mut r: NameMap<InitTensor> = NameMap::new();
    let mut i: usize = 0;
    while i < tensors.len()
        invariant
            i <= tensors@.len(),
            payloads@.len() == tensors@.len(),
            tv == protos::tensors_v(tensors@),
            pv == payloads_v(payloads@),
            r@ == constants_map(tv, pv, i as int),
        decreases tensors@.len() - i,
    {
        let t = &tensors[i];
        assert(tv[i as int] == t@);
        assert(pv[i as int] == payload_v(payloads@[i as int]));
        if tensors::has_payload(t) {
            let dims = t.dims.clone();
            assert(dims@ =~= t.dims@);
            let payload: Payload = match &payloads[i] {
                Ok(v) => {
                    let c = v.clone();
                    assert(c@ =~= v@);
                    Ok(c)
                },
                Err(m) => Err(m.clone()),
            };
            r.insert(
                t.name.clone(),
                InitTensor { data_type: t.data_type, dims, payload },
            );
        }
        i = i + 1;
    }
    r
}

// ---------------------------------------------------------------------------
// Shapes
// ---------------------------------------------------------------------------

/// A shape for inference, where every size is known, and the overrides from
/// then on.
pub struct ShapeV {
    pub shape: Option<Seq<i64>>,
    pub inference: Map<Seq<char>, u32>,
}

/// The shape from `from` on, behind the sizes already found. Where dynamic
/// dimensions are kept, an upper bound stands in for a size; otherwise the
/// first unknown size ends it.
pub open spec fn inference_shape(
    dims: Seq<DimV>,
    from: int,
    dynamic: bool,
    inference: Map<Seq<char>, u32>,
    done: Seq<i64>,
) -> ShapeV
    decreases dims.len() - from,
{
    if from >= dims.len() {
        ShapeV { shape: Some(done), inference }
    } else {
        match dims[from] {
            DimV::Value(v) => if v > 0 {
                inference_shape(dims, from + 1, dynamic, inference, done.push(v))
            } else if dynamic {
                inference_shape(
                    dims,
                    from + 1,
                    dynamic,
                    inference,
                    done.push(overrides::DEFAULT_MAX_SIZE as i64),
                )
            } else {
                ShapeV { shape: None, inference }
            },
            DimV::Param(p) => if dynamic {
                let n = match overrides::override_of(inference, p) {
                    Some(v) => v,
                    None => overrides::dynamic_max(p),
                };
                inference_shape(dims, from + 1, dynamic, inference, done.push(n as i64))
            } else {
                match overrides::inference_value(inference, p) {
                    Some(v) => inference_shape(
                        dims,
                        from + 1,
                        dynamic,
                        overrides::inference_overrides(inference, p),
                        done.push(v as i64),
                    ),
                    None => ShapeV { shape: None, inference },
                }
            },
            DimV::Unknown => if dynamic {
                inference_shape(
                    dims,
                    from + 1,
                    dynamic,
                    inference,
                    done.push(overrides::DEFAULT_MAX_SIZE as i64),
                )
            } else {
                ShapeV { shape: None, inference }
            },
        }
    }
}

fn find_inference_shape(dims: &Vec<DimensionProto>, dynamic: bool, inference: &mut NameMap<u32>) -> (r:
    Option<Vec<i64>>)
    ensures
        inference_shape(protos::dims_v(dims@), 0, dynamic, old(inference)@, seq![]) == (ShapeV {
            shape: match r {
                Some(s) => Some(s@),
                None => None,
            },
            inference: final(inference)@,
        }),
{
    let ghost dv = protos::dims_v(dims@);
    let ghost goal = inference_shape(dv, 0, dynamic, inference@, seq![]);
    let mut out: Vec<i64> = Vec::new();
    let mut i: usize = 0;
    while i < dims.len()
        invariant
            i <= dims@.len(),
            dv == protos::dims_v(dims@),
            goal == inference_shape(dv, 0, dynamic, old(inference)@, seq![]),
            goal == inference_shape(dv, i as int, dynamic, inference@, out@),
        decreases dims@.len() - i,
    {
        assert(dv[i as int] == dims@[i as int]@);
        match &dims[i] {
            DimensionProto::DimValue(v) => {
                if *v > 0 {
                    out.push(*v);
                } else if dynamic {
                    out.push(overrides::DEFAULT_MAX_SIZE as i64);
                } else {
                    return None;
                }
            },
            DimensionProto::DimParam(p) => {
                if dynamic {
                    let n: u32 = match overrides::resolve_dim_override(p, inference) {
                        Some(v) => v,
                        None => overrides::dynamic_max_for_dim(p),
                    };
                    out.push(n as i64);
                } else {
                    match overrides::resolve_dim_for_inference(p, inference) {
                        Some(v) => {
                            out.push(v as i64);
                        },
                        None => return None,
                    }
                }
            },
            DimensionProto::Unknown => {
                if dynamic {
                    out.push(overrides::DEFAULT_MAX_SIZE as i64);
                } else {
                    return None;
                }
            },
        }
        i = i + 1;
    }
    Some(out)
}

/// The dimensions of a declared shape that have a size or a symbol.
pub open spec fn declared_dims(dims: Seq<DimV>, inference: Map<Seq<char>, u32>) -> Seq<DimensionV>
    decreases dims.len(),
{
    if dims.len() == 0 {
        seq![]
    } else {
        let front = declared_dims(dims.drop_last(), inference);
        match dims.last() {
            DimV::Value(v) => if v > 0 {
                front.push(DimensionV::Static(v as u32))
            } else {
                front
            },
            DimV::Param(p) => front.push(overrides::symbol_dimension(inference, p)),
            DimV::Unknown => front,
        }
    }
}

fn find_declared_dims(dims: &Vec<DimensionProto>, inference: &NameMap<u32>) -> (r: Dims)
    ensures
        r@ == declared_dims(protos::dims_v(dims@), inference@),
{
    let ghost dv = protos::dims_v(dims@);
    let mut items: Vec<Dimension> = Vec::new();
    let mut i: usize = 0;
    assert(dv.take(0) =~= Seq::<DimV>::empty());
    assert(types::dimensions_v(items@) =~= Seq::<DimensionV>::empty());
    while i < dims.len()
        invariant
            i <= dims@.len(),
            dv == protos::dims_v(dims@),
            types::dimensions_v(items@) == declared_dims(dv.take(i as int), inference@),
        decreases dims@.len() - i,
    {
        assert(dv[i as int] == dims@[i as int]@);
        assert(dv.take(i + 1).drop_last() =~= dv.take(i as int));
        let ghost before = types::dimensions_v(items@);
        match &dims[i] {
            DimensionProto::DimValue(v) => {
                if *v > 0 {
                    items.push(Dimension::Static(*v as u32));
                    assert(types::dimensions_v(items@) =~= before.push(
                        DimensionV::Static(*v as u32),
                    ));
                }
            },
            DimensionProto::DimParam(p) => {
                let d = overrides::dimension_for_param(p, inference);
                let ghost d_v = d@;
                items.push(d);
                assert(types::dimensions_v(items@) =~= before.push(d_v));
            },
            DimensionProto::Unknown => {},
        }
        i = i + 1;
    }
    assert(dv.take(i as int) =~= dv);
    Dims { items }
}

/// Shapes of values, for inference and with their symbols.
pub struct ShapesV {
    pub inference: Map<Seq<char>, u32>,
    pub shapes: Map<Seq<char>, Seq<i64>>,
    pub dims: Map<Seq<char>, Seq<DimensionV>>,
}

pub struct Shapes {
    pub shapes: NameMap<Vec<i64>>,
    pub dims: NameMap<Dims>,
}

pub open spec fn shapes_v(s: Shapes, inference: Map<Seq<char>, u32>) -> ShapesV {
    ShapesV { inference, shapes: s.shapes@, dims: s.dims@ }
}

/// The position of the first value of a name with a tensor shape.
pub open spec fn declared_shape(inputs: Seq<ValueInfoV>, name: Seq<char>) -> Option<Seq<DimV>> {
    let at = pin::info_pos(inputs, name);
    if at < inputs.len() {
        match inputs[at].tensor_type {
            Some(t) => t.shape,
            None => None,
        }
    } else {
        None
    }
}

/// The shapes of one named input, under its name and its identifier.
pub open spec fn with_input_shape(
    s: ShapesV,
    entry: (Seq<char>, Seq<char>),
    g: GraphV,
    dynamic: bool,
) -> ShapesV {
    if prune::has_tensor(g.initializer, entry.0) {
        s
    } else {
        match declared_shape(g.input, entry.0) {
            None => s,
            Some(d) => {
                let f = inference_shape(d, 0, dynamic, s.inference, seq![]);
                let dims = declared_dims(d, f.inference);
                ShapesV {
                    inference: f.inference,
                    shapes: match f.shape {
                        Some(x) => if x.len() > 0 {
                            s.shapes.insert(entry.0, x).insert(entry.1, x)
                        } else {
                            s.shapes
                        },
                        None => s.shapes,
                    },
                    dims: if dims.len() > 0 {
                        s.dims.insert(entry.0, dims).insert(entry.1, dims)
                    } else {
                        s.dims
                    },
                }
            },
        }
    }
}

pub open spec fn with_input_shapes(
    s: ShapesV,
    entries: Seq<(Seq<char>, Seq<char>)>,
    g: GraphV,
    dynamic: bool,
) -> ShapesV
    decreases entries.len(),
{
    if entries.len() == 0 {
        s
    } else {
        with_input_shape(
            with_input_shapes(s, entries.drop_last(), g, dynamic),
            entries.last(),
            g,
            dynamic,
        )
    }
}

/// The sizes greater than zero.
pub open spec fn positive_dims(v: Seq<i64>) -> Seq<DimensionV>
    decreases v.len(),
{
    if v.len() == 0 {
        seq![]
    } else {
        let front = positive_dims(v.drop_last());
        if v.last() > 0 {
            front.push(DimensionV::Static(v.last() as u32))
        } else {
            front
        }
    }
}

/// The shapes of the initializers added in order.
pub open spec fn with_tensor_shapes(s: ShapesV, v: Seq<TensorV>) -> ShapesV
    decreases v.len(),
{
    if v.len() == 0 {
        s
    } else {
        let front = with_tensor_shapes(s, v.drop_last());
        let t = v.last();
        if !tensors::has_data(t) {
            front
        } else {
            ShapesV {
                shapes: front.shapes.insert(t.name, t.dims),
                dims: if positive_dims(t.dims).len() > 0 {
                    front.dims.insert(t.name, positive_dims(t.dims))
                } else {
                    front.dims
                },
                ..front
            }
        }
    }
}

pub open spec fn all_static(v: Seq<DimensionV>) -> bool {
    forall|i: int| 0 <= i < v.len() ==> #[trigger] v[i] is Static
}

pub open spec fn all_positive(v: Seq<i64>) -> bool {
    forall|i: int| 0 <= i < v.len() ==> #[trigger] v[i] > 0
}

/// The shape of an intermediate value. Dimensions with symbols are kept only
/// where dynamic dimensions are.
pub open spec fn with_info_shape(s: ShapesV, info: ValueInfoV, dynamic: bool) -> ShapesV {
    match info.tensor_type {
        None => s,
        Some(t) => match t.shape {
            None => s,
            Some(d) => {
                let f = inference_shape(d, 0, dynamic, s.inference, seq![]);
                let dims = declared_dims(d, f.inference);
                ShapesV {
                    inference: f.inference,
                    shapes: match f.shape {
                        Some(x) => if x.len() > 0 && all_positive(x) {
                            s.shapes.insert(info.name, x)
                        } else {
                            s.shapes
                        },
                        None => s.shapes,
                    },
                    dims: if dims.len() > 0 && (dynamic || all_static(dims)) {
                        s.dims.insert(info.name, dims)
                    } else {
                        s.dims
                    },
                }
            },
        },
    }
}

pub open spec fn with_info_shapes(s: ShapesV, v: Seq<ValueInfoV>, dynamic: bool) -> ShapesV
    decreases v.len(),
{
    if v.len() == 0 {
        s
    } else {
        with_info_shape(with_info_shapes(s, v.drop_last(), dynamic), v.last(), dynamic)
    }
}

/// The shapes that the declarations of a graph give: of its inputs, its
/// initializers and its intermediate values.
pub open spec fn graph_shapes(
    g: GraphV,
    entries: Seq<(Seq<char>, Seq<char>)>,
    dynamic: bool,
    inference: Map<Seq<char>, u32>,
) -> ShapesV {
    with_info_shapes(
        with_tensor_shapes(
            with_input_shapes(
                ShapesV { inference, shapes: Map::empty(), dims: Map::empty() },
                entries,
                g,
                dynamic,
            ),
            g.initializer,
        ),
        g.value_info,
        dynamic,
    )
}

fn find_positive_dims(v: &Vec<i64>) -> (r: Dims)
    ensures
        r@ == positive_dims(v@),
{
    let mut items: Vec<Dimension> = Vec::new();
    let mut i: usize = 0;
    assert(v@.take(0) =~= Seq::<i64>::empty());
    assert(types::dimensions_v(items@) =~= Seq::<DimensionV>::empty());
    while i < v.len()
        invariant
            i <= v@.len(),
            types::dimensions_v(items@) == positive_dims(v@.take(i as int)),
        decreases v@.len() - i,
    {
        assert(v@.take(i + 1).drop_last() =~= v@.take(i as int));
        let ghost before = types::dimensions_v(items@);
        if v[i] > 0 {
            items.push(Dimension::Static(v[i] as u32));
            assert(types::dimensions_v(items@) =~= before.push(
                DimensionV::Static(v@[i as int] as u32),
            ));
        }
        i = i + 1;
    }
    assert(v@.take(i as int) =~= v@);
    Dims { items }
}

pub(crate) fn check_all_static(d: &Dims) -> (r: bool)
    ensures
        r == all_static(d@),
{
    let mut i: usize = 0;
    while i < d.items.len()
        invariant
            i <= d.items@.len(),
            forall|k: int| 0 <= k < i ==> #[trigger] d@[k] is Static,
        decreases d.items@.len() - i,
    {
        assert(d@[i as int] == d.items@[i as int]@);
        match &d.items[i] {
            Dimension::Static(_) => {},
            Dimension::Dynamic { name: _, max_size: _ } => return false,
        }
        i = i + 1;
    }
    true
}

fn check_all_positive(v: &Vec<i64>) -> (r: bool)
    ensures
        r == all_positive(v@),
{
    let mut i: usize = 0;
    while i < v.len()
        invariant
            i <= v@.len(),
            forall|k: int| 0 <= k < i ==> #[trigger] v@[k] > 0,
        decreases v@.len() - i,
    {
        if v[i] <= 0 {
            return false;
        }
        i = i + 1;
    }
    true
}

fn add_input_shape(
    s: &mut Shapes,
    name: &String,
    id: &String,
    graph: &GraphProto,
    skipped: &StringHashSet,
    dynamic: bool,
    inference: &mut NameMap<u32>,
)
    requires
        forall|n: Seq<char>|
            #[trigger] skipped@.contains(n) <==> prune::has_tensor(graph@.initializer, n),
    ensures
        shapes_v(*final(s), final(inference)@) == with_input_shape(
            shapes_v(*old(s), old(inference)@),
            (name@, id@),
            graph@,
            dynamic,
        ),
{
    if skipped.contains(name.as_str()) {
        return ;
    }
    let at: usize = pin::find_info(&graph.input, name);
    if at == graph.input.len() {
        return ;
    }
    assert(graph@.input[at as int] == graph.input@[at as int]@);
    let d = match &graph.input[at].tensor_type {
        None => return,
        Some(t) => match &t.shape {
            None => return,
            Some(d) => d,
        },
    };
    if let Some(x) = find_inference_shape(d, dynamic, inference) {
        if x.len() > 0 {
            s.shapes.insert(name.clone(), x.duplicate());
            s.shapes.insert(id.clone(), x);
        }
    }
    let dims = find_declared_dims(d, inference);
    assert(dims@.len() == dims.items@.len());
    if dims.items.len() > 0 {
        s.dims.insert(name.clone(), dims.duplicate());
        s.dims.insert(id.clone(), dims);
    }
}

fn add_info_shape(s: &mut Shapes, info: &ValueInfoProto, dynamic: bool, inference: &mut NameMap<u32>)
    ensures
        shapes_v(*final(s), final(inference)@) == with_info_shape(
            shapes_v(*old(s), old(inference)@),
            info@,
            dynamic,
        ),
{
    let d = match &info.tensor_type {
        None => return,
        Some(t) => match &t.shape {
            None => return,
            Some(d) => d,
        },
    };
    if let Some(x) = find_inference_shape(d, dynamic, inference) {
        if x.len() > 0 && check_all_positive(&x) {
            s.shapes.insert(info.name.clone(), x);
        }
    }
    let dims = find_declared_dims(d, inference);
    assert(dims@.len() == dims.items@.len());
    if dims.items.len() > 0 && (dynamic || check_all_static(&dims)) {
        s.dims.insert(info.name.clone(), dims);
    }
}

/// Collects the shapes that the declarations of a graph give. `names` has the
/// declared inputs and their identifiers.
pub fn collect_shapes(
    graph: &GraphProto,
    names: &NameMap<String>,
    dynamic: bool,
    inference: &mut NameMap<u32>,
) -> (r: Shapes)
    ensures
        shapes_v(r, final(inference)@) == graph_shapes(
            graph@,
            names.entries(),
            dynamic,
            old(inference)@,
        ),
{
    let skipped = tensor_names(&graph.initializer);
    let mut s = Shapes { shapes: NameMap::new(), dims: NameMap::new() };
    let ghost empty = shapes_v(s, inference@);
    let ghost entries = names.entries();
    let n: usize = names.len();
    let mut i: usize = 0;
    assert(entries.take(0) =~= Seq::<(Seq<char>, Seq<char>)>::empty());
    while i < n
        invariant
            i <= n,
            n == entries.len(),
            entries == names.entries(),
            forall|m: Seq<char>|
                #[trigger] skipped@.contains(m) <==> prune::has_tensor(graph@.initializer, m),
            shapes_v(s, inference@) == with_input_shapes(
                empty,
                entries.take(i as int),
                graph@,
                dynamic,
            ),
        decreases n - i,
    {
        assert(entries.take(i + 1).drop_last() =~= entries.take(i as int));
        add_input_shape(
            &mut s,
            names.key(i),
            names.value(i),
            graph,
            &skipped,
            dynamic,
            inference,
        );
        i = i + 1;
    }
    assert(entries.take(i as int) =~= entries);
    let ghost mid = shapes_v(s, inference@);
    let ghost tv = graph@.initializer;
    let mut i: usize = 0;
    assert(tv.take(0) =~= Seq::<TensorV>::empty());
    while i < graph.initializer.len()
        invariant
            i <= graph.initializer@.len(),
            tv == protos::tensors_v(graph.initializer@),
            shapes_v(s, inference@) == with_tensor_shapes(mid, tv.take(i as int)),
        decreases graph.initializer@.len() - i,
    {
        let t = &graph.initializer[i];
        assert(tv[i as int] == t@);
        assert(tv.take(i + 1).drop_last() =~= tv.take(i as int));
        if tensors::has_payload(t) {
            s.shapes.insert(t.name.clone(), t.dims.duplicate());
            let dims = find_positive_dims(&t.dims);
            assert(dims@.len() == dims.items@.len());
            if dims.items.len() > 0 {
                s.dims.insert(t.name.clone(), dims);
            }
        }
        i = i + 1;
    }
    assert(tv.take(i as int) =~= tv);
    let ghost late = shapes_v(s, inference@);
    let ghost iv = graph@.value_info;
    let mut i: usize = 0;
    assert(iv.take(0) =~= Seq::<ValueInfoV>::empty());
    while i < graph.value_info.len()
        invariant
            i <= graph.value_info@.len(),
            iv == protos::infos_v(graph.value_info@),
            shapes_v(s, inference@) == with_info_shapes(late, iv.take(i as int), dynamic),
        decreases graph.value_info@.len() - i,
    {
        assert(iv[i as int] == graph.value_info@[i as int]@);
        assert(iv.take(i + 1).drop_last() =~= iv.take(i as int));
        add_info_shape(&mut s, &graph.value_info[i], dynamic, inference);
        i = i + 1;
    }
    assert(iv.take(i as int) =~= iv);
    s
}

// ---------------------------------------------------------------------------
// Constants
// ---------------------------------------------------------------------------

/// Integer constants, and the types they give to values.
pub struct ConstsV {
    pub consts: Map<Seq<char>, Seq<i64>>,
    pub types: Map<Seq<char>, DataType>,
}

/// Some tensor with data has this name.
pub open spec fn has_filled(v: Seq<TensorV>, name: Seq<char>) -> bool {
    exists|i: int| 0 <= i < v.len() && tensors::has_data(#[trigger] v[i]) && v[i].name == name
}

/// The integers of the first `n` initializers; of one name the last counts.
pub open spec fn tensor_consts(v: Seq<TensorV>, n: int) -> Map<Seq<char>, Seq<i64>>
    decreases n,
{
    if n <= 0 {
        Map::empty()
    } else {
        let front = tensor_consts(v, n - 1);
        let t = v[n - 1];
        if tensors::has_data(t) && tensors::is_int_type(t.data_type) && !has_filled(
            v.skip(n),
            t.name,
        ) && tensors::int_payload(t).len() > 0 {
            front.insert(t.name, tensors::int_payload(t))
        } else {
            front
        }
    }
}

/// The tensor of the first attribute `value` that has one.
pub open spec fn value_tensor(a: Seq<AttributeV>) -> Option<TensorV>
    decreases a.len(),
{
    if a.len() == 0 {
        None
    } else if a[0].name == "value"@ && a[0].t is Some {
        a[0].t
    } else {
        value_tensor(a.drop_first())
    }
}

/// The integers of a `Constant` node, where it has some.
pub open spec fn node_ints(n: NodeV) -> Seq<i64> {
    if n.op_type != "Constant"@ {
        seq![]
    } else {
        match value_tensor(n.attribute) {
            Some(t) => if tensors::is_int_type(t.data_type) {
                tensors::int_payload(t)
            } else {
                seq![]
            },
            None => seq![],
        }
    }
}

/// The `Constant` nodes added in order.
pub open spec fn node_consts(c: ConstsV, v: Seq<NodeV>) -> ConstsV
    decreases v.len(),
{
    if v.len() == 0 {
        c
    } else {
        let front = node_consts(c, v.drop_last());
        let n = v.last();
        if n.output.len() > 0 && node_ints(n).len() > 0 {
            ConstsV {
                consts: front.consts.insert(n.output[0], node_ints(n)),
                types: front.types.insert(n.output[0], DataType::Int64),
            }
        } else {
            front
        }
    }
}

fn filled_later(v: &Vec<TensorProto>, from: usize, name: &String) -> (r: bool)
    requires
        from <= v@.len(),
    ensures
        r == has_filled(protos::tensors_v(v@).skip(from as int), name@),
{
    let ghost rest = protos::tensors_v(v@).skip(from as int);
    let mut i: usize = from;
    while i < v.len()
        invariant
            from <= i <= v@.len(),
            rest == protos::tensors_v(v@).skip(from as int),
            forall|k: int|
                0 <= k < i - from ==> !(tensors::has_data(#[trigger] rest[k]) && rest[k].name
                    == name@),
        decreases v@.len() - i,
    {
        assert(rest[i - from] == v@[i as int]@);
        if tensors::has_payload(&v[i]) && v[i].name == *name {
            return true;
        }
        i = i + 1;
    }
    false
}

fn find_value_tensor(a: &Vec<AttributeProto>) -> (r: Option<&TensorProto>)
    ensures
        r matches Some(t) ==> value_tensor(attributes_v(a@)) == Some(t@),
        r is None ==> value_tensor(attributes_v(a@)) is None,
{
    let ghost all = attributes_v(a@);
    let mut i: usize = 0;
    assert(all.skip(0) =~= all);
    while i < a.len()
        invariant
            i <= a@.len(),
            all == attributes_v(a@),
            value_tensor(all) == value_tensor(all.skip(i as int)),
        decreases a@.len() - i,
    {
        assert(all.skip(i as int)[0] == a@[i as int]@);
        assert(all.skip(i as int).drop_first() =~= all.skip(i + 1));
        if text::str_eq(a[i].name.as_str(), "value") {
            if let Some(t) = &a[i].t {
                return Some(t);
            }
        }
        i = i + 1;
    }
    None
}

spec fn attributes_v(v: Seq<AttributeProto>) -> Seq<AttributeV> {
    Seq::new(v.len(), |i: int| protos::attribute_v(v[i]))
}

fn find_node_ints(n: &NodeProto) -> (r: Vec<i64>)
    ensures
        r@ == node_ints(n@),
{
    assert(attributes_v(n.attribute@) =~= n@.attribute);
    if text::str_eq(n.op_type.as_str(), "Constant") {
        if let Some(t) = find_value_tensor(&n.attribute) {
            if t.data_type == protos::TYPE_INT64 || t.data_type == protos::TYPE_INT32 {
                return tensors::read_int_payload(t);
            }
        }
    }
    Vec::new()
}

/// Collects the integers of initializers and of `Constant` nodes. Outputs of
/// such nodes are 64-bit integers from then on.
pub fn collect_consts(graph: &GraphProto, types: &mut NameMap<DataType>) -> (r: NameMap<Vec<i64>>)
    ensures
        (ConstsV { consts: r@, types: final(types)@ }) == node_consts(
            ConstsV {
                consts: tensor_consts(graph@.initializer, graph@.initializer.len() as int),
                types: old(types)@,
            },
            graph@.node,
        ),
{
    let mut r: NameMap<Vec<i64>> = NameMap::new();
    let ghost tv = graph@.initializer;
    let mut i: usize = 0;
    while i < graph.initializer.len()
        invariant
            i <= graph.initializer@.len(),
            tv == protos::tensors_v(graph.initializer@),
            r@ == tensor_consts(tv, i as int),
        decreases graph.initializer@.len() - i,
    {
        let t = &graph.initializer[i];
        assert(tv[i as int] == t@);
        if tensors::has_payload(t) && (t.data_type == protos::TYPE_INT64 || t.data_type
            == protos::TYPE_INT32) && !filled_later(&graph.initializer, i + 1, &t.name) {
            let ints = tensors::read_int_payload(t);
            if ints.len() > 0 {
                r.insert(t.name.clone(), ints);
            }
        }
        i = i + 1;
    }
    let ghost start = ConstsV { consts: r@, types: types@ };
    let ghost nodes = graph@.node;
    let mut i: usize = 0;
    assert(nodes.take(0) =~= Seq::<NodeV>::empty());
    while i < graph.node.len()
        invariant
            i <= graph.node@.len(),
            nodes == graph@.node,
            (ConstsV { consts: r@, types: types@ }) == node_consts(start, nodes.take(i as int)),
        decreases graph.node@.len() - i,
    {
        let n = &graph.node[i];
        assert(nodes[i as int] == n@);
        assert(nodes.take(i + 1).drop_last() =~= nodes.take(i as int));
        let ints = find_node_ints(n);
        if n.output.len() > 0 && ints.len() > 0 {
            assert(n@.output[0] == n.output@[0]@);
            r.insert(n.output[0].clone(), ints);
            types.insert(n.output[0].clone(), DataType::Int64);
        }
        i = i + 1;
    }
    assert(nodes.take(i as int) =~= nodes);
    r
}

// ---------------------------------------------------------------------------
// Laws
// ---------------------------------------------------------------------------

/// Without dynamic inputs every axis of an input has a size; with them every
/// input can be declared, and the values of symbols stay as they are.
pub proof fn law_axes_are_static_or_kept(
    dims: Seq<DimV>,
    input: Seq<char>,
    from: int,
    dynamic: bool,
    a: AxesV,
)
    requires
        0 <= from <= dims.len(),
        a.dimensions.len() == from,
        !dynamic ==> all_static(a.dimensions),
    ensures
        dynamic ==> input_axes(dims, input, from, dynamic, a) is Ok,
        input_axes(dims, input, from, dynamic, a) matches Ok(r) ==> {
            &&& r.dimensions.len() == dims.len()
            &&& r.dimensions.take(from) == a.dimensions
            &&& !dynamic ==> all_static(r.dimensions)
            &&& dynamic ==> r.overrides == a.overrides
        },
    decreases dims.len() - from,
{
    if from < dims.len() {
        if let Ok(x) = input_axis(dims[from], input, from, dynamic, a.overrides) {
            let next = AxesV { overrides: x.overrides, dimensions: a.dimensions.push(x.dimension) };
            assert(!dynamic ==> all_static(next.dimensions));
            law_axes_are_static_or_kept(dims, input, from + 1, dynamic, next);
            if let Ok(r) = input_axes(dims, input, from + 1, dynamic, next) {
                assert(r.dimensions.take(from) =~= a.dimensions) by {
                    assert(r.dimensions.take(from + 1) == next.dimensions);
                    assert forall|i: int| 0 <= i < from implies r.dimensions[i]
                        == a.dimensions[i] by {
                        assert(r.dimensions[i] == r.dimensions.take(from + 1)[i]);
                    }
                }
            }
        }
    } else {
        assert(a.dimensions.take(from) =~= a.dimensions);
    }
}

/// A value given for a symbol, or for an unnamed axis under the name of the
/// input and the axis, decides the size of the axis, with dynamic inputs and
/// without.
pub proof fn law_given_values_decide(
    d: DimV,
    input: Seq<char>,
    axis: int,
    dynamic: bool,
    o: OverridesV,
)
    ensures
        d matches DimV::Param(p) ==> overrides::override_of(o.effective, p) matches Some(v)
            ==> input_axis(d, input, axis, dynamic, o) == Ok::<AxisV, ErrorV>(
            AxisV { overrides: o, dimension: DimensionV::Static(v) },
        ),
        ({
            let name = inline_if::axis_name(input, axis);
            d matches DimV::Value(v) ==> v <= 0 ==> o.effective.contains_key(name) ==> input_axis(
                d,
                input,
                axis,
                dynamic,
                o,
            ) == Ok::<AxisV, ErrorV>(
                AxisV { overrides: o, dimension: DimensionV::Static(o.effective[name]) },
            )
        }),
{
}

/// With dynamic inputs a symbol without a value stays, under its name.
pub proof fn law_unresolved_symbols_are_kept(
    symbol: Seq<char>,
    input: Seq<char>,
    axis: int,
    o: OverridesV,
)
    requires
        overrides::override_of(o.effective, symbol) is None,
    ensures
        input_axis(DimV::Param(symbol), input, axis, true, o) == Ok::<AxisV, ErrorV>(
            AxisV {
                overrides: o,
                dimension: DimensionV::Dynamic {
                    name: symbol,
                    max_size: overrides::dynamic_max(symbol),
                },
            },
        ),
{
}

/// Declaring an axis never changes a value that was given before, and a symbol
/// that was resolved once has the same size wherever it occurs again.
pub proof fn law_symbols_have_one_size(
    d: DimV,
    input: Seq<char>,
    axis: int,
    dynamic: bool,
    o: OverridesV,
    name: Seq<char>,
    other: Seq<char>,
    at: int,
)
    ensures
        input_axis(d, input, axis, dynamic, o) matches Ok(x) ==> {
            &&& o.effective.contains_key(name) ==> x.overrides.effective.contains_key(name)
                && x.overrides.effective[name] == o.effective[name]
            &&& d is Param ==> x.dimension is Static ==> input_axis(
                d,
                other,
                at,
                dynamic,
                x.overrides,
            ) == Ok::<AxisV, ErrorV>(x)
        },
{
}

/// Declaring inputs continues the plan.
pub proof fn lemma_inputs_continue(
    inputs: Seq<ValueInfoV>,
    from: int,
    initializers: Seq<TensorV>,
    dynamic: bool,
    ops: Seq<OpV>,
    s: InputsV,
)
    requires
        builder::well_formed(ops),
    ensures
        builder::continues(
            ops,
            declare_inputs(inputs, from, initializers, dynamic, ops, s).ops,
        ),
    decreases inputs.len() - from,
{
    broadcast use builder::group_plans;

    if from < inputs.len() {
        let o = declare_input(inputs[from], initializers, dynamic, ops, s);
        assert(builder::continues(ops, o.ops));
        if let Ok(n) = o.result {
            lemma_inputs_continue(inputs, from + 1, initializers, dynamic, o.ops, n);
            builder::lemma_continues_trans(
                ops,
                o.ops,
                declare_inputs(inputs, from + 1, initializers, dynamic, o.ops, n).ops,
            );
        }
    }
}

/// Declaring constants continues the plan.
pub proof fn lemma_constants_continue(
    v: Seq<TensorV>,
    payloads: Seq<Result<Seq<u8>, Seq<char>>>,
    from: int,
    ops: Seq<OpV>,
    s: InputsV,
)
    requires
        builder::well_formed(ops),
    ensures
        builder::continues(ops, declare_constants(v, payloads, from, ops, s).ops),
    decreases v.len() - from,
{
    broadcast use builder::group_plans;

    if from < v.len() {
        let o = declare_constant(v[from], payloads[from], ops, s);
        assert(builder::continues(ops, o.ops));
        if let Ok(n) = o.result {
            lemma_constants_continue(v, payloads, from + 1, o.ops, n);
            builder::lemma_continues_trans(
                ops,
                o.ops,
                declare_constants(v, payloads, from + 1, o.ops, n).ops,
            );
        }
    }
}

} // verus!
