//! Proposes manifest entries for the exports of a model repository.
//!
//! The free dimensions of an export are filled from a naming policy
//! (`batch_size` = 1, `sequence_length` = 128, image sizes 224, ...). Merged
//! decoders with a `use_cache_branch` input get one entry per branch. Callers
//! can override any dimension and pin inputs.
use crate::error;
use crate::error::OnnxError;
use crate::inline_if;
use crate::json;
use crate::names;
use crate::names::NameMap;
use crate::options::{ConvertOptions, OptionsV};
use crate::overrides;
use crate::protos;
use crate::protos::{DimV, DimensionProto, ModelProto, ModelV, TensorV, ValueInfoProto, ValueInfoV};
use crate::prune;
use crate::lower;
use crate::text;
use vstd::prelude::*;

verus! {

/// Weight files above this size run one at a time (`"heavy": true`).
pub const HEAVY_BYTES: u64 = 1_073_741_824;

// Default sequence and cache lengths used by the dimension policy.
pub const SEQ_LEN: u32 = 128;

pub const DECODER_SEQ_LEN: u32 = 16;

pub const DECODE_PAST_LEN: u32 = 16;

// ---------------------------------------------------------------------------
// Graph inputs
// ---------------------------------------------------------------------------

/// A graph input with its symbolic dimensions.
#[derive(Debug, PartialEq, Eq)]
pub struct GraphInput {
    pub name: String,
    /// Names of the free dimensions (a symbol, or `<input>_dim<axis>` where
    /// there is none), in axis order.
    pub free_dims: Vec<String>,
    pub is_bool: bool,
}

pub struct GraphInputV {
    pub name: Seq<char>,
    pub free_dims: Seq<Seq<char>>,
    pub is_bool: bool,
}

impl View for GraphInput {
    type V = GraphInputV;

    open spec fn view(&self) -> GraphInputV {
        GraphInputV {
            name: self.name@,
            free_dims: protos::texts(self.free_dims@),
            is_bool: self.is_bool,
        }
    }
}

pub open spec fn inputs_v(v: Seq<GraphInput>) -> Seq<GraphInputV> {
    Seq::new(v.len(), |i: int| v[i]@)
}

/// The names of the axes that have no size.
pub open spec fn free_dims(dims: Seq<DimV>, input: Seq<char>) -> Seq<Seq<char>>
    decreases dims.len(),
{
    if dims.len() == 0 {
        seq![]
    } else {
        let front = free_dims(dims.drop_last(), input);
        let hint = inline_if::axis_name(input, dims.len() - 1);
        match dims.last() {
            DimV::Param(p) => front.push(p),
            DimV::Value(v) => if v > 0 {
                front
            } else {
                front.push(hint)
            },
            DimV::Unknown => front.push(hint),
        }
    }
}

pub open spec fn input_of(info: ValueInfoV) -> GraphInputV {
    GraphInputV {
        name: info.name,
        free_dims: match info.tensor_type {
            Some(t) => match t.shape {
                Some(d) => free_dims(d, info.name),
                None => seq![],
            },
            None => seq![],
        },
        is_bool: info.tensor_type matches Some(t) && t.elem_type == protos::TYPE_BOOL,
    }
}

/// The inputs that are not initializers.
pub open spec fn inputs_of(v: Seq<ValueInfoV>, initializers: Seq<TensorV>) -> Seq<GraphInputV>
    decreases v.len(),
{
    if v.len() == 0 {
        seq![]
    } else {
        let front = inputs_of(v.drop_last(), initializers);
        if prune::has_tensor(initializers, v.last().name) {
            front
        } else {
            front.push(input_of(v.last()))
        }
    }
}

pub open spec fn model_inputs(m: ModelV) -> Seq<GraphInputV> {
    match m.graph {
        Some(g) => inputs_of(g.input, g.initializer),
        None => seq![],
    }
}

fn find_free_dims(dims: &Vec<DimensionProto>, input: &String) -> (r: Vec<String>)
    ensures
        protos::texts(r@) == free_dims(protos::dims_v(dims@), input@),
{
    let ghost all = protos::dims_v(dims@);
    let mut r: Vec<String> = Vec::new();
    let mut i: usize = 0;
    assert(all.take(0) =~= Seq::<DimV>::empty());
    assert(protos::texts(r@) =~= Seq::<Seq<char>>::empty());
    while i < dims.len()
        invariant
            i <= dims@.len(),
            all == protos::dims_v(dims@),
            protos::texts(r@) == free_dims(all.take(i as int), input@),
        decreases dims@.len() - i,
    {
        assert(all[i as int] == dims@[i as int]@);
        assert(all.take(i + 1).drop_last() =~= all.take(i as int));
        let ghost before = protos::texts(r@);
        let name: Option<String> = match &dims[i] {
            DimensionProto::DimParam(p) => Some(p.clone()),
            DimensionProto::DimValue(v) => if *v > 0 {
                None
            } else {
                Some(inline_if::make_axis_name(input, i))
            },
            DimensionProto::Unknown => Some(inline_if::make_axis_name(input, i)),
        };
        if let Some(n) = name {
            let ghost nv = n@;
            r.push(n);
            assert(protos::texts(r@) =~= before.push(nv));
        }
        i = i + 1;
    }
    assert(all.take(i as int) =~= all);
    r
}

fn make_input(info: &ValueInfoProto) -> (r: GraphInput)
    ensures
        r@ == input_of(info@),
{
    let mut dims: Vec<String> = Vec::new();
    let mut is_bool = false;
    assert(protos::texts(dims@) =~= Seq::<Seq<char>>::empty());
    if let Some(t) = &info.tensor_type {
        is_bool = t.elem_type == protos::TYPE_BOOL;
        if let Some(d) = &t.shape {
            dims = find_free_dims(d, &info.name);
        }
    }
    GraphInput { name: info.name.clone(), free_dims: dims, is_bool }
}

/// Graph inputs that are not initializers.
pub fn graph_inputs(model: &ModelProto) -> (r: Vec<GraphInput>)
    ensures
        inputs_v(r@) == model_inputs(model@),
{
    let mut out: Vec<GraphInput> = Vec::new();
    assert(inputs_v(out@) =~= Seq::<GraphInputV>::empty());
    let graph = match &model.graph {
        Some(g) => g,
        None => return out,
    };
    let skipped = lower::tensor_names(&graph.initializer);
    let ghost all = graph@.input;
    let mut i: usize = 0;
    assert(all.take(0) =~= Seq::<ValueInfoV>::empty());
    while i < graph.input.len()
        invariant
            i <= graph.input@.len(),
            all == protos::infos_v(graph.input@),
            forall|n: Seq<char>|
                #[trigger] skipped@.contains(n) <==> prune::has_tensor(graph@.initializer, n),
            inputs_v(out@) == inputs_of(all.take(i as int), graph@.initializer),
        decreases graph.input@.len() - i,
    {
        assert(all[i as int] == graph.input@[i as int]@);
        assert(all.take(i + 1).drop_last() =~= all.take(i as int));
        if !skipped.contains(graph.input[i].name.as_str()) {
            let ghost before = inputs_v(out@);
            let x = make_input(&graph.input[i]);
            let ghost xv = x@;
            out.push(x);
            assert(inputs_v(out@) =~= before.push(xv));
        }
        i = i + 1;
    }
    assert(all.take(i as int) =~= all);
    out
}

// ---------------------------------------------------------------------------
// Policy
// ---------------------------------------------------------------------------

/// A name that is an expression holds white space or an operator.
pub open spec fn is_expression(name: Seq<char>) -> bool {
    exists|i: int|
        0 <= i < name.len() && (text::is_space(#[trigger] name[i]) || name[i] == '/' || name[i]
            == '*' || name[i] == '+' || name[i] == '-')
}

/// The value of a dimension by its name.
pub open spec fn policy(name: Seq<char>) -> Option<u32> {
    let n = text::lower(name);
    if is_expression(n) {
        None
    } else if text::has_part(n, "batch"@) {
        Some(1)
    } else if text::has_part(n, "past"@) {
        Some(0)
    } else if text::has_part(n, "decoder_sequence"@) {
        Some(DECODER_SEQ_LEN)
    } else if text::has_part(n, "sequence_length"@) || text::has_part(n, "total_sequence"@) {
        Some(SEQ_LEN)
    } else if text::has_part(n, "num_channels"@) {
        Some(3)
    } else if text::has_part(n, "height"@) || text::has_part(n, "width"@) {
        Some(224)
    } else if text::has_part(n, "num_frames"@) {
        Some(8)
    } else if text::has_part(n, "feature_size"@) {
        Some(80)
    } else if text::has_part(n, "num_samples"@) {
        Some(16000)
    } else if text::has_part(n, "num_choices"@) {
        Some(2)
    } else {
        None
    }
}

fn check_expression(name: &String) -> (r: bool)
    ensures
        r == is_expression(name@),
{
    let v = text::chars_of(name.as_str());
    let mut i: usize = 0;
    while i < v.len()
        invariant
            i <= v@.len(),
            v@ == name@,
            forall|k: int|
                0 <= k < i ==> !(text::is_space(#[trigger] name@[k]) || name@[k] == '/' || name@[k]
                    == '*' || name@[k] == '+' || name@[k] == '-'),
        decreases v@.len() - i,
    {
        let c: char = v[i];
        if text::char_is_space(c) || c == '/' || c == '*' || c == '+' || c == '-' {
            assert(name@[i as int] == c);
            return true;
        }
        i = i + 1;
    }
    false
}

/// Default value for a free dimension by name, or `None` when the policy has
/// no opinion (such as `s0`, or `encoder_sequence_length / 2`, which is model
/// specific).
pub fn default_dim(name: &str) -> (r: Option<u32>)
    ensures
        r == policy(name@),
{
    let n = text::to_lower(name);
    if check_expression(&n) {
        return None;
    }
    if text::contains_part(n.as_str(), "batch") {
        Some(1)
    } else if text::contains_part(n.as_str(), "past") {
        Some(0)
    } else if text::contains_part(n.as_str(), "decoder_sequence") {
        Some(DECODER_SEQ_LEN)
    } else if text::contains_part(n.as_str(), "sequence_length") || text::contains_part(
        n.as_str(),
        "total_sequence",
    ) {
        Some(SEQ_LEN)
    } else if text::contains_part(n.as_str(), "num_channels") {
        Some(3)
    } else if text::contains_part(n.as_str(), "height") || text::contains_part(
        n.as_str(),
        "width",
    ) {
        Some(224)
    } else if text::contains_part(n.as_str(), "num_frames") {
        Some(8)
    } else if text::contains_part(n.as_str(), "feature_size") {
        Some(80)
    } else if text::contains_part(n.as_str(), "num_samples") {
        Some(16000)
    } else if text::contains_part(n.as_str(), "num_choices") {
        Some(2)
    } else {
        None
    }
}

// ---------------------------------------------------------------------------
// Manifest entries
// ---------------------------------------------------------------------------

/// One line of a manifest.
#[derive(Debug, PartialEq, Eq)]
pub struct ManifestEntry {
    pub file: String,
    pub heavy: bool,
    pub pin_inputs: Vec<(String, i64)>,
    pub override_dims: Vec<(String, u32)>,
}

pub struct ManifestV {
    pub file: Seq<char>,
    pub heavy: bool,
    pub pin_inputs: Seq<(Seq<char>, i64)>,
    pub override_dims: Seq<(Seq<char>, u32)>,
}

pub open spec fn pins_v(v: Seq<(String, i64)>) -> Seq<(Seq<char>, i64)> {
    Seq::new(v.len(), |i: int| (v[i].0@, v[i].1))
}

pub open spec fn dims_v(v: Seq<(String, u32)>) -> Seq<(Seq<char>, u32)> {
    Seq::new(v.len(), |i: int| (v[i].0@, v[i].1))
}

impl View for ManifestEntry {
    type V = ManifestV;

    open spec fn view(&self) -> ManifestV {
        ManifestV {
            file: self.file@,
            heavy: self.heavy,
            pin_inputs: pins_v(self.pin_inputs@),
            override_dims: dims_v(self.override_dims@),
        }
    }
}

pub open spec fn manifests_v(v: Seq<ManifestEntry>) -> Seq<ManifestV> {
    Seq::new(v.len(), |i: int| v[i]@)
}

/// `"name": value` for each pair, separated by commas.
pub open spec fn members(v: Seq<(Seq<char>, int)>) -> Seq<char>
    decreases v.len(),
{
    if v.len() == 0 {
        seq![]
    } else {
        let m = json::quoted(v.last().0) + ": "@ + text::decimal(v.last().1);
        if v.len() == 1 {
            m
        } else {
            members(v.drop_last()) + ", "@ + m
        }
    }
}

pub open spec fn pin_numbers(v: Seq<(Seq<char>, i64)>) -> Seq<(Seq<char>, int)> {
    Seq::new(v.len(), |i: int| (v[i].0, v[i].1 as int))
}

pub open spec fn dim_numbers(v: Seq<(Seq<char>, u32)>) -> Seq<(Seq<char>, int)> {
    Seq::new(v.len(), |i: int| (v[i].0, v[i].1 as int))
}

/// The entry as a JSON object on one line; parts that say nothing are left out.
pub open spec fn json_line(e: ManifestV) -> Seq<char> {
    "{\"file\": "@ + json::quoted(e.file) + (if e.heavy {
        ", \"heavy\": true"@
    } else {
        seq![]
    }) + (if e.pin_inputs.len() > 0 {
        ", \"pin_inputs\": {"@ + members(pin_numbers(e.pin_inputs)) + "}"@
    } else {
        seq![]
    }) + (if e.override_dims.len() > 0 {
        ", \"override_dims\": {"@ + members(dim_numbers(e.override_dims)) + "}"@
    } else {
        seq![]
    }) + "}"@
}

fn append_member(s: &mut String, first: bool, name: &String, number: i64)
    ensures
        final(s)@ == old(s)@ + (if first {
            seq![]
        } else {
            ", "@
        }) + (json::quoted(name@) + ": "@ + text::decimal(number as int)),
{
    let ghost before = s@;
    if !first {
        s.append(", ");
    }
    let q = json::quote(name.as_str());
    s.append(q.as_str());
    s.append(": ");
    let d = text::decimal_i64(number);
    s.append(d.as_str());
    proof {
        let m = json::quoted(name@) + ": "@ + text::decimal(number as int);
        if first {
            assert(s@ =~= before + Seq::<char>::empty() + m);
        } else {
            assert(s@ =~= before + ", "@ + m);
        }
    }
}

fn pins_text(v: &Vec<(String, i64)>) -> (r: String)
    ensures
        r@ == members(pin_numbers(pins_v(v@))),
{
    let ghost all = pin_numbers(pins_v(v@));
    let mut s = String::new();
    let mut i: usize = 0;
    assert(all.take(0) =~= Seq::<(Seq<char>, int)>::empty());
    while i < v.len()
        invariant
            i <= v@.len(),
            all == pin_numbers(pins_v(v@)),
            s@ == members(all.take(i as int)),
        decreases v@.len() - i,
    {
        assert(all.take(i + 1).drop_last() =~= all.take(i as int));
        assert(all[i as int] == (v@[i as int].0@, v@[i as int].1 as int));
        append_member(&mut s, i == 0, &v[i].0, v[i].1);
        i = i + 1;
        assert(s@ =~= members(all.take(i as int)));
    }
    assert(all.take(i as int) =~= all);
    s
}

fn dims_text(v: &Vec<(String, u32)>) -> (r: String)
    ensures
        r@ == members(dim_numbers(dims_v(v@))),
{
    let ghost all = dim_numbers(dims_v(v@));
    let mut s = String::new();
    let mut i: usize = 0;
    assert(all.take(0) =~= Seq::<(Seq<char>, int)>::empty());
    while i < v.len()
        invariant
            i <= v@.len(),
            all == dim_numbers(dims_v(v@)),
            s@ == members(all.take(i as int)),
        decreases v@.len() - i,
    {
        assert(all.take(i + 1).drop_last() =~= all.take(i as int));
        assert(all[i as int] == (v@[i as int].0@, v@[i as int].1 as int));
        append_member(&mut s, i == 0, &v[i].0, v[i].1 as i64);
        i = i + 1;
        assert(s@ =~= members(all.take(i as int)));
    }
    assert(all.take(i as int) =~= all);
    s
}

/// Pairs inserted in order; the last one of a name counts.
pub open spec fn pairs_map<T>(v: Seq<(Seq<char>, T)>) -> Map<Seq<char>, T>
    decreases v.len(),
{
    if v.len() == 0 {
        Map::empty()
    } else {
        pairs_map(v.drop_last()).insert(v.last().0, v.last().1)
    }
}

/// The options of an entry: its overrides and pins, with folding, and with
/// zeros for missing payloads.
pub open spec fn entry_options(e: ManifestV) -> OptionsV {
    OptionsV {
        free_dim_overrides: pairs_map(e.override_dims),
        optimize: true,
        experimental_dynamic_inputs: false,
        pinned_inputs: pairs_map(e.pin_inputs),
        zero_fill_missing_external_data: true,
    }
}

impl ManifestEntry {
    /// The manifest's one-entry-per-line JSON style.
    pub fn to_json_line(&self) -> (r: String)
        ensures
            r@ == json_line(self@),
    {
        let mut s = String::from_str("{\"file\": ");
        let q = json::quote(self.file.as_str());
        s.append(q.as_str());
        let ghost head = s@;
        if self.heavy {
            s.append(", \"heavy\": true");
        }
        let ghost a = if self.heavy {
            ", \"heavy\": true"@
        } else {
            seq![]
        };
        assert(s@ =~= head + a);
        let ghost mid = s@;
        if self.pin_inputs.len() > 0 {
            s.append(", \"pin_inputs\": {");
            let t = pins_text(&self.pin_inputs);
            s.append(t.as_str());
            s.append("}");
        }
        let ghost p = if self@.pin_inputs.len() > 0 {
            ", \"pin_inputs\": {"@ + members(pin_numbers(self@.pin_inputs)) + "}"@
        } else {
            seq![]
        };
        assert(s@ =~= mid + p);
        let ghost late = s@;
        if self.override_dims.len() > 0 {
            s.append(", \"override_dims\": {");
            let t = dims_text(&self.override_dims);
            s.append(t.as_str());
            s.append("}");
        }
        let ghost o = if self@.override_dims.len() > 0 {
            ", \"override_dims\": {"@ + members(dim_numbers(self@.override_dims)) + "}"@
        } else {
            seq![]
        };
        assert(s@ =~= late + o);
        s.append("}");
        s
    }

    /// The options with which the entry is converted.
    pub fn to_options(&self) -> (r: ConvertOptions)
        ensures
            r@ == entry_options(self@),
    {
        let mut dims: NameMap<u32> = NameMap::new();
        let ghost dv = self@.override_dims;
        let mut i: usize = 0;
        assert(dv.take(0) =~= Seq::<(Seq<char>, u32)>::empty());
        while i < self.override_dims.len()
            invariant
                i <= self.override_dims@.len(),
                dv == dims_v(self.override_dims@),
                dims@ == pairs_map(dv.take(i as int)),
            decreases self.override_dims@.len() - i,
        {
            assert(dv.take(i + 1).drop_last() =~= dv.take(i as int));
            dims.insert(self.override_dims[i].0.clone(), self.override_dims[i].1);
            i = i + 1;
        }
        assert(dv.take(i as int) =~= dv);
        let mut pins: NameMap<i64> = NameMap::new();
        let ghost pv = self@.pin_inputs;
        let mut i: usize = 0;
        assert(pv.take(0) =~= Seq::<(Seq<char>, i64)>::empty());
        while i < self.pin_inputs.len()
            invariant
                i <= self.pin_inputs@.len(),
                pv == pins_v(self.pin_inputs@),
                pins@ == pairs_map(pv.take(i as int)),
            decreases self.pin_inputs@.len() - i,
        {
            assert(pv.take(i + 1).drop_last() =~= pv.take(i as int));
            pins.insert(self.pin_inputs[i].0.clone(), self.pin_inputs[i].1);
            i = i + 1;
        }
        assert(pv.take(i as int) =~= pv);
        ConvertOptions {
            free_dim_overrides: dims,
            optimize: true,
            experimental_dynamic_inputs: false,
            pinned_inputs: pins,
            zero_fill_missing_external_data: true,
        }
    }
}

/// What a trial conversion of an entry says: nothing, or the text of its error.
pub fn try_entry(converted: Result<(), OnnxError>) -> (r: Result<(), String>)
    ensures
        r is Ok <==> converted is Ok,
        r matches Err(m) ==> m@ == error::message_text(converted->Err_0@),
{
    match converted {
        Ok(_) => Ok(()),
        Err(e) => Err(e.message()),
    }
}

// ---------------------------------------------------------------------------
// Proposals
// ---------------------------------------------------------------------------

/// A list of names with another, unless it is there.
pub open spec fn with_text(v: Seq<Seq<char>>, name: Seq<char>) -> Seq<Seq<char>> {
    if v.contains(name) {
        v
    } else {
        v.push(name)
    }
}

pub open spec fn with_texts(v: Seq<Seq<char>>, more: Seq<Seq<char>>) -> Seq<Seq<char>>
    decreases more.len(),
{
    if more.len() == 0 {
        v
    } else {
        with_text(with_texts(v, more.drop_last()), more.last())
    }
}

/// The free dimensions of all inputs, each once, in the order in which they
/// first occur.
pub open spec fn dim_names(inputs: Seq<GraphInputV>) -> Seq<Seq<char>>
    decreases inputs.len(),
{
    if inputs.len() == 0 {
        seq![]
    } else {
        with_texts(dim_names(inputs.drop_last()), inputs.last().free_dims)
    }
}

/// The value of a dimension: an override, a value of the decode step, or the
/// policy's.
pub open spec fn proposed(name: Seq<char>, decode: bool, over: Map<Seq<char>, u32>) -> Option<u32> {
    let low = text::lower(name);
    if over.contains_key(name) {
        Some(over[name])
    } else if decode && text::has_part(low, "past"@) {
        Some(DECODE_PAST_LEN)
    } else if decode && text::has_part(low, "sequence_length"@) && !text::has_part(low, "encoder"@)
        && !text::has_part(low, "total"@) {
        Some(1)
    } else {
        policy(name)
    }
}

/// The dimensions that have a value, in order.
pub open spec fn filled_dims(
    names: Seq<Seq<char>>,
    decode: bool,
    over: Map<Seq<char>, u32>,
) -> Seq<(Seq<char>, u32)>
    decreases names.len(),
{
    if names.len() == 0 {
        seq![]
    } else {
        let front = filled_dims(names.drop_last(), decode, over);
        match proposed(names.last(), decode, over) {
            Some(v) => front.push((names.last(), v)),
            None => front,
        }
    }
}

/// The dimensions that have none added to a list.
pub open spec fn with_unfilled(
    v: Seq<Seq<char>>,
    names: Seq<Seq<char>>,
    decode: bool,
    over: Map<Seq<char>, u32>,
) -> Seq<Seq<char>>
    decreases names.len(),
{
    if names.len() == 0 {
        v
    } else {
        let front = with_unfilled(v, names.drop_last(), decode, over);
        match proposed(names.last(), decode, over) {
            Some(_) => front,
            None => with_text(front, names.last()),
        }
    }
}

pub open spec fn is_sequence_name(n: Seq<char>) -> bool {
    n == "sequence_length"@ || n == "decoder_sequence_length"@
}

/// The value of the first dimension whose name passes a test.
pub open spec fn first_dim(v: Seq<(Seq<char>, u32)>, f: spec_fn(Seq<char>) -> bool) -> Option<u32>
    decreases v.len(),
{
    if v.len() == 0 {
        None
    } else if f(v[0].0) {
        Some(v[0].1)
    } else {
        first_dim(v.drop_first(), f)
    }
}

pub open spec fn sequence_dim(v: Seq<(Seq<char>, u32)>) -> Option<u32> {
    first_dim(v, |n: Seq<char>| is_sequence_name(n))
}

pub open spec fn past_dim(v: Seq<(Seq<char>, u32)>) -> Option<u32> {
    first_dim(v, |n: Seq<char>| text::has_part(n, "past"@))
}

pub open spec fn encoder_dim(v: Seq<(Seq<char>, u32)>) -> Option<u32> {
    first_dim(v, |n: Seq<char>| n == "encoder_sequence_length"@)
}

/// A total length that is not overridden.
pub open spec fn is_total(n: Seq<char>, over: Map<Seq<char>, u32>) -> bool {
    text::has_part(n, "total_sequence"@) && !over.contains_key(n)
}

/// A total length is the sum of the sequence and the cache.
pub open spec fn with_totals(
    v: Seq<(Seq<char>, u32)>,
    over: Map<Seq<char>, u32>,
) -> Seq<(Seq<char>, u32)> {
    match (sequence_dim(v), past_dim(v)) {
        (Some(s), Some(p)) => Seq::new(
            v.len(),
            |i: int|
                if is_total(v[i].0, over) {
                    (v[i].0, (s + p) as u32)
                } else {
                    v[i]
                },
        ),
        _ => v,
    }
}

/// The output length of an encoder mirrors its input length.
pub open spec fn with_mirror(
    v: Seq<(Seq<char>, u32)>,
    over: Map<Seq<char>, u32>,
) -> Seq<(Seq<char>, u32)> {
    match encoder_dim(v) {
        Some(e) => Seq::new(
            v.len(),
            |i: int|
                if v[i].0 == "encoder_sequence_length_out"@ && !over.contains_key(v[i].0) {
                    (v[i].0, e)
                } else {
                    v[i]
                },
        ),
        None => v,
    }
}

pub open spec fn built_dims(
    names: Seq<Seq<char>>,
    decode: bool,
    over: Map<Seq<char>, u32>,
) -> Seq<(Seq<char>, u32)> {
    with_mirror(with_totals(filled_dims(names, decode, over), over), over)
}

/// The sum of sequence and cache is a 32-bit number, where it is needed.
pub open spec fn totals_in_range(v: Seq<(Seq<char>, u32)>, over: Map<Seq<char>, u32>) -> bool {
    sequence_dim(v) is Some && past_dim(v) is Some && (exists|i: int|
        0 <= i < v.len() && is_total((#[trigger] v[i]).0, over)) ==> sequence_dim(v)->0 + past_dim(
        v,
    )->0 <= u32::MAX
}

/// Proposed entries plus the free dimensions the policy could not fill.
#[derive(Debug)]
pub struct Proposal {
    pub entries: Vec<ManifestEntry>,
    pub unresolved: Vec<String>,
}

pub struct ProposalV {
    pub entries: Seq<ManifestV>,
    pub unresolved: Seq<Seq<char>>,
}

impl View for Proposal {
    type V = ProposalV;

    open spec fn view(&self) -> ProposalV {
        ProposalV {
            entries: manifests_v(self.entries@),
            unresolved: protos::texts(self.unresolved@),
        }
    }
}

impl Default for Proposal {
    fn default() -> (r: Self)
        ensures
            r@ == (ProposalV { entries: seq![], unresolved: seq![] }),
    {
        let r = Proposal { entries: Vec::new(), unresolved: Vec::new() };
        assert(r@.entries =~= Seq::<ManifestV>::empty());
        assert(r@.unresolved =~= Seq::<Seq<char>>::empty());
        r
    }
}

/// Some input is the switch between the branches of a merged decoder.
pub open spec fn has_gate(inputs: Seq<GraphInputV>) -> bool {
    exists|i: int|
        0 <= i < inputs.len() && (#[trigger] inputs[i]).is_bool && inputs[i].name
            == "use_cache_branch"@
}

pub open spec fn has_cache(names: Seq<Seq<char>>) -> bool {
    exists|i: int|
        0 <= i < names.len() && text::has_part(text::lower(#[trigger] names[i]), "past"@)
}

/// One more entry.
pub open spec fn with_entry(
    p: ProposalV,
    file: Seq<char>,
    size: u64,
    names: Seq<Seq<char>>,
    decode: bool,
    over: Map<Seq<char>, u32>,
    pins: Seq<(Seq<char>, i64)>,
) -> ProposalV {
    ProposalV {
        entries: p.entries.push(
            ManifestV {
                file,
                heavy: size > HEAVY_BYTES,
                pin_inputs: pins,
                override_dims: built_dims(names, decode, over),
            },
        ),
        unresolved: with_unfilled(p.unresolved, names, decode, over),
    }
}

/// A gate yields a prefill entry (branch 0) and a decode entry (branch 1).
/// Without one there is a single entry, and another for the decode step where
/// that is asked for and the model carries a cache.
pub open spec fn proposal(
    file: Seq<char>,
    size: u64,
    inputs: Seq<GraphInputV>,
    over: Map<Seq<char>, u32>,
    pins: Seq<(Seq<char>, i64)>,
    decode_step: bool,
) -> ProposalV {
    let names = dim_names(inputs);
    let none = ProposalV { entries: seq![], unresolved: seq![] };
    if has_gate(inputs) {
        let gate = "use_cache_branch"@;
        with_entry(
            with_entry(none, file, size, names, false, over, pins.push((gate, 0i64))),
            file,
            size,
            names,
            true,
            over,
            pins.push((gate, 1i64)),
        )
    } else {
        let first = with_entry(none, file, size, names, false, over, pins);
        if decode_step && has_cache(names) {
            with_entry(first, file, size, names, true, over, pins)
        } else {
            first
        }
    }
}

/// The sums of every entry that is proposed are in range.
pub open spec fn proposal_in_range(
    inputs: Seq<GraphInputV>,
    over: Map<Seq<char>, u32>,
    decode_step: bool,
) -> bool {
    let names = dim_names(inputs);
    &&& totals_in_range(filled_dims(names, false, over), over)
    &&& has_gate(inputs) || (decode_step && has_cache(names)) ==> totals_in_range(
        filled_dims(names, true, over),
        over,
    )
}

fn add_text(v: &mut Vec<String>, name: &String)
    ensures
        protos::texts(final(v)@) == with_text(protos::texts(old(v)@), name@),
{
    let mut i: usize = 0;
    while i < v.len()
        invariant
            i <= v@.len(),
            v@ == old(v)@,
            forall|k: int| 0 <= k < i ==> #[trigger] protos::texts(v@)[k] != name@,
        decreases v@.len() - i,
    {
        if v[i] == *name {
            assert(protos::texts(v@)[i as int] == name@);
            return ;
        }
        i = i + 1;
    }
    let ghost before = protos::texts(v@);
    v.push(name.clone());
    assert(protos::texts(v@) =~= before.push(name@));
}

fn find_dim_names(inputs: &Vec<GraphInput>) -> (r: Vec<String>)
    ensures
        protos::texts(r@) == dim_names(inputs_v(inputs@)),
{
    let ghost all = inputs_v(inputs@);
    let mut r: Vec<String> = Vec::new();
    let mut i: usize = 0;
    assert(all.take(0) =~= Seq::<GraphInputV>::empty());
    assert(protos::texts(r@) =~= Seq::<Seq<char>>::empty());
    while i < inputs.len()
        invariant
            i <= inputs@.len(),
            all == inputs_v(inputs@),
            protos::texts(r@) == dim_names(all.take(i as int)),
        decreases inputs@.len() - i,
    {
        assert(all[i as int] == inputs@[i as int]@);
        assert(all.take(i + 1).drop_last() =~= all.take(i as int));
        let ghost start = protos::texts(r@);
        let ghost more = all[i as int].free_dims;
        let mut k: usize = 0;
        assert(more.take(0) =~= Seq::<Seq<char>>::empty());
        while k < inputs[i].free_dims.len()
            invariant
                i < inputs@.len(),
                k <= inputs@[i as int].free_dims@.len(),
                more == protos::texts(inputs@[i as int].free_dims@),
                protos::texts(r@) == with_texts(start, more.take(k as int)),
            decreases inputs@[i as int].free_dims@.len() - k,
        {
            assert(more[k as int] == inputs@[i as int].free_dims@[k as int]@);
            assert(more.take(k + 1).drop_last() =~= more.take(k as int));
            add_text(&mut r, &inputs[i].free_dims[k]);
            k = k + 1;
        }
        assert(more.take(k as int) =~= more);
        i = i + 1;
    }
    assert(all.take(i as int) =~= all);
    r
}

fn find_proposed(name: &String, decode: bool, over: &NameMap<u32>) -> (r: Option<u32>)
    ensures
        r == proposed(name@, decode, over@),
{
    if let Some(v) = over.get(name) {
        return Some(*v);
    }
    let low = text::to_lower(name.as_str());
    if decode {
        if text::contains_part(low.as_str(), "past") {
            return Some(DECODE_PAST_LEN);
        }
        if text::contains_part(low.as_str(), "sequence_length") && !text::contains_part(
            low.as_str(),
            "encoder",
        ) && !text::contains_part(low.as_str(), "total") {
            return Some(1);
        }
    }
    default_dim(name.as_str())
}

fn fill_dims(names: &Vec<String>, decode: bool, over: &NameMap<u32>, unresolved: &mut Vec<String>) -> (r:
    Vec<(String, u32)>)
    ensures
        dims_v(r@) == filled_dims(protos::texts(names@), decode, over@),
        protos::texts(final(unresolved)@) == with_unfilled(
            protos::texts(old(unresolved)@),
            protos::texts(names@),
            decode,
            over@,
        ),
{
    let ghost all = protos::texts(names@);
    let ghost start = protos::texts(unresolved@);
    let mut r: Vec<(String, u32)> = Vec::new();
    let mut i: usize = 0;
    assert(all.take(0) =~= Seq::<Seq<char>>::empty());
    assert(dims_v(r@) =~= Seq::<(Seq<char>, u32)>::empty());
    while i < names.len()
        invariant
            i <= names@.len(),
            all == protos::texts(names@),
            dims_v(r@) == filled_dims(all.take(i as int), decode, over@),
            protos::texts(unresolved@) == with_unfilled(
                start,
                all.take(i as int),
                decode,
                over@,
            ),
        decreases names@.len() - i,
    {
        assert(all[i as int] == names@[i as int]@);
        assert(all.take(i + 1).drop_last() =~= all.take(i as int));
        match find_proposed(&names[i], decode, over) {
            Some(v) => {
                let ghost before = dims_v(r@);
                r.push((names[i].clone(), v));
                assert(dims_v(r@) =~= before.push((names@[i as int]@, v)));
            },
            None => {
                add_text(unresolved, &names[i]);
            },
        }
        i = i + 1;
    }
    assert(all.take(i as int) =~= all);
    r
}

fn find_sequence(v: &Vec<(String, u32)>) -> (r: Option<u32>)
    ensures
        r == sequence_dim(dims_v(v@)),
{
    let ghost f = |n: Seq<char>| is_sequence_name(n);
    let ghost all = dims_v(v@);
    let mut i: usize = 0;
    assert(all.skip(0) =~= all);
    while i < v.len()
        invariant
            i <= v@.len(),
            all == dims_v(v@),
            f == (|n: Seq<char>| is_sequence_name(n)),
            first_dim(all, f) == first_dim(all.skip(i as int), f),
        decreases v@.len() - i,
    {
        assert(all.skip(i as int)[0] == (v@[i as int].0@, v@[i as int].1));
        assert(all.skip(i as int).drop_first() =~= all.skip(i + 1));
        if text::str_eq(v[i].0.as_str(), "sequence_length") || text::str_eq(
            v[i].0.as_str(),
            "decoder_sequence_length",
        ) {
            return Some(v[i].1);
        }
        i = i + 1;
    }
    None
}

fn find_past(v: &Vec<(String, u32)>) -> (r: Option<u32>)
    ensures
        r == past_dim(dims_v(v@)),
{
    let ghost f = |n: Seq<char>| text::has_part(n, "past"@);
    let ghost all = dims_v(v@);
    let mut i: usize = 0;
    assert(all.skip(0) =~= all);
    while i < v.len()
        invariant
            i <= v@.len(),
            all == dims_v(v@),
            f == (|n: Seq<char>| text::has_part(n, "past"@)),
            first_dim(all, f) == first_dim(all.skip(i as int), f),
        decreases v@.len() - i,
    {
        assert(all.skip(i as int)[0] == (v@[i as int].0@, v@[i as int].1));
        assert(all.skip(i as int).drop_first() =~= all.skip(i + 1));
        if text::contains_part(v[i].0.as_str(), "past") {
            return Some(v[i].1);
        }
        i = i + 1;
    }
    None
}

fn find_encoder(v: &Vec<(String, u32)>) -> (r: Option<u32>)
    ensures
        r == encoder_dim(dims_v(v@)),
{
    let ghost f = |n: Seq<char>| n == "encoder_sequence_length"@;
    let ghost all = dims_v(v@);
    let mut i: usize = 0;
    assert(all.skip(0) =~= all);
    while i < v.len()
        invariant
            i <= v@.len(),
            all == dims_v(v@),
            f == (|n: Seq<char>| n == "encoder_sequence_length"@),
            first_dim(all, f) == first_dim(all.skip(i as int), f),
        decreases v@.len() - i,
    {
        assert(all.skip(i as int)[0] == (v@[i as int].0@, v@[i as int].1));
        assert(all.skip(i as int).drop_first() =~= all.skip(i + 1));
        if text::str_eq(v[i].0.as_str(), "encoder_sequence_length") {
            return Some(v[i].1);
        }
        i = i + 1;
    }
    None
}

fn check_total(n: &String, over: &NameMap<u32>) -> (r: bool)
    ensures
        r == is_total(n@, over@),
{
    text::contains_part(n.as_str(), "total_sequence") && !over.contains_key(n)
}

fn set_totals(v: Vec<(String, u32)>, over: &NameMap<u32>) -> (r: Vec<(String, u32)>)
    requires
        totals_in_range(dims_v(v@), over@),
    ensures
        dims_v(r@) == with_totals(dims_v(v@), over@),
{
    let (s, p): (u32, u32) = match (find_sequence(&v), find_past(&v)) {
        (Some(s), Some(p)) => (s, p),
        _ => return v,
    };
    let ghost all = dims_v(v@);
    let mut r: Vec<(String, u32)> = Vec::new();
    let mut i: usize = 0;
    while i < v.len()
        invariant
            i <= v@.len(),
            all == dims_v(v@),
            totals_in_range(all, over@),
            sequence_dim(all) == Some(s),
            past_dim(all) == Some(p),
            r@.len() == i,
            forall|k: int| 0 <= k < i ==> #[trigger] dims_v(r@)[k] == with_totals(all, over@)[k],
        decreases v@.len() - i,
    {
        assert(all[i as int] == (v@[i as int].0@, v@[i as int].1));
        let ghost before = r@;
        if check_total(&v[i].0, over) {
            assert(is_total(all[i as int].0, over@));
            r.push((v[i].0.clone(), s + p));
        } else {
            r.push((v[i].0.clone(), v[i].1));
        }
        assert forall|k: int| 0 <= k < i + 1 implies #[trigger] dims_v(r@)[k] == with_totals(
            all,
            over@,
        )[k] by {
            if k < i {
                assert(r@[k] == before[k]);
                assert(dims_v(before)[k] == with_totals(all, over@)[k]);
            }
        }
        i = i + 1;
    }
    assert(dims_v(r@) =~= with_totals(all, over@));
    r
}

fn set_mirror(v: Vec<(String, u32)>, over: &NameMap<u32>) -> (r: Vec<(String, u32)>)
    ensures
        dims_v(r@) == with_mirror(dims_v(v@), over@),
{
    let e: u32 = match find_encoder(&v) {
        Some(e) => e,
        None => return v,
    };
    let ghost all = dims_v(v@);
    let mut r: Vec<(String, u32)> = Vec::new();
    let mut i: usize = 0;
    while i < v.len()
        invariant
            i <= v@.len(),
            all == dims_v(v@),
            encoder_dim(all) == Some(e),
            r@.len() == i,
            forall|k: int| 0 <= k < i ==> #[trigger] dims_v(r@)[k] == with_mirror(all, over@)[k],
        decreases v@.len() - i,
    {
        assert(all[i as int] == (v@[i as int].0@, v@[i as int].1));
        let ghost before = r@;
        if text::str_eq(v[i].0.as_str(), "encoder_sequence_length_out") && !over.contains_key(
            &v[i].0,
        ) {
            r.push((v[i].0.clone(), e));
        } else {
            r.push((v[i].0.clone(), v[i].1));
        }
        assert forall|k: int| 0 <= k < i + 1 implies #[trigger] dims_v(r@)[k] == with_mirror(
            all,
            over@,
        )[k] by {
            if k < i {
                assert(r@[k] == before[k]);
                assert(dims_v(before)[k] == with_mirror(all, over@)[k]);
            }
        }
        i = i + 1;
    }
    assert(dims_v(r@) =~= with_mirror(all, over@));
    r
}

fn check_gate(inputs: &Vec<GraphInput>) -> (r: bool)
    ensures
        r == has_gate(inputs_v(inputs@)),
{
    let ghost all = inputs_v(inputs@);
    let mut i: usize = 0;
    while i < inputs.len()
        invariant
            i <= inputs@.len(),
            all == inputs_v(inputs@),
            forall|k: int|
                0 <= k < i ==> !((#[trigger] all[k]).is_bool && all[k].name
                    == "use_cache_branch"@),
        decreases inputs@.len() - i,
    {
        assert(all[i as int] == inputs@[i as int]@);
        if inputs[i].is_bool && text::str_eq(inputs[i].name.as_str(), "use_cache_branch") {
            return true;
        }
        i = i + 1;
    }
    false
}

fn check_cache(names: &Vec<String>) -> (r: bool)
    ensures
        r == has_cache(protos::texts(names@)),
{
    let ghost all = protos::texts(names@);
    let mut i: usize = 0;
    while i < names.len()
        invariant
            i <= names@.len(),
            all == protos::texts(names@),
            forall|k: int|
                0 <= k < i ==> !text::has_part(text::lower(#[trigger] all[k]), "past"@),
        decreases names@.len() - i,
    {
        assert(all[i as int] == names@[i as int]@);
        let low = text::to_lower(names[i].as_str());
        if text::contains_part(low.as_str(), "past") {
            return true;
        }
        i = i + 1;
    }
    false
}

fn copy_pins(v: &Vec<(String, i64)>) -> (r: Vec<(String, i64)>)
    ensures
        pins_v(r@) == pins_v(v@),
{
    let mut r: Vec<(String, i64)> = Vec::new();
    let mut i: usize = 0;
    while i < v.len()
        invariant
            i <= v@.len(),
            r@.len() == i,
            forall|k: int| 0 <= k < i ==> (#[trigger] r@[k]).0@ == v@[k].0@ && r@[k].1 == v@[k].1,
        decreases v@.len() - i,
    {
        r.push((v[i].0.clone(), v[i].1));
        i = i + 1;
    }
    assert(pins_v(r@) =~= pins_v(v@));
    r
}

fn add_entry(
    p: &mut Proposal,
    file: &str,
    size: u64,
    names: &Vec<String>,
    decode: bool,
    over: &NameMap<u32>,
    pins: Vec<(String, i64)>,
)
    requires
        totals_in_range(filled_dims(protos::texts(names@), decode, over@), over@),
    ensures
        final(p)@ == with_entry(
            old(p)@,
            file@,
            size,
            protos::texts(names@),
            decode,
            over@,
            pins_v(pins@),
        ),
{
    let ghost before = manifests_v(p.entries@);
    let dims = fill_dims(names, decode, over, &mut p.unresolved);
    let dims = set_totals(dims, over);
    let dims = set_mirror(dims, over);
    let e = ManifestEntry {
        file: String::from_str(file),
        heavy: size > HEAVY_BYTES,
        pin_inputs: pins,
        override_dims: dims,
    };
    let ghost ev = e@;
    p.entries.push(e);
    assert(manifests_v(p.entries@) =~= before.push(ev));
}

fn with_gate(pins: &Vec<(String, i64)>, value: i64) -> (r: Vec<(String, i64)>)
    ensures
        pins_v(r@) == pins_v(pins@).push(("use_cache_branch"@, value)),
{
    let mut r = copy_pins(pins);
    let ghost before = pins_v(r@);
    r.push((String::from_str("use_cache_branch"), value));
    assert(pins_v(r@) =~= before.push(("use_cache_branch"@, value)));
    r
}

/// Build manifest entries for one export. `overrides` win over the policy;
/// `pins` are applied to every entry. A `use_cache_branch` input yields a
/// prefill entry (branch 0, no cache) and a decode entry (branch 1, one new
/// token, cache of [`DECODE_PAST_LEN`]); `decode_step` adds the same decode
/// entry for cache-carrying models without that switch.
pub fn propose_entries(
    file: &str,
    size: u64,
    inputs: &Vec<GraphInput>,
    overrides: &NameMap<u32>,
    pins: &Vec<(String, i64)>,
    decode_step: bool,
) -> (r: Proposal)
    requires
        proposal_in_range(inputs_v(inputs@), overrides@, decode_step),
    ensures
        r@ == proposal(
            file@,
            size,
            inputs_v(inputs@),
            overrides@,
            pins_v(pins@),
            decode_step,
        ),
{
    let names = find_dim_names(inputs);
    let mut p = Proposal::default();
    if check_gate(inputs) {
        add_entry(&mut p, file, size, &names, false, overrides, with_gate(pins, 0));
        add_entry(&mut p, file, size, &names, true, overrides, with_gate(pins, 1));
    } else {
        add_entry(&mut p, file, size, &names, false, overrides, copy_pins(pins));
        if decode_step && check_cache(&names) {
            add_entry(&mut p, file, size, &names, true, overrides, copy_pins(pins));
        }
    }
    p
}

fn totals_fit(v: &Vec<(String, u32)>, over: &NameMap<u32>) -> (r: bool)
    ensures
        r == totals_in_range(dims_v(v@), over@),
{
    let (s, p): (u32, u32) = match (find_sequence(v), find_past(v)) {
        (Some(s), Some(p)) => (s, p),
        _ => return true,
    };
    if s as u64 + p as u64 <= u32::MAX as u64 {
        return true;
    }
    let ghost all = dims_v(v@);
    let mut i: usize = 0;
    while i < v.len()
        invariant
            i <= v@.len(),
            all == dims_v(v@),
            sequence_dim(all) == Some(s),
            past_dim(all) == Some(p),
            s + p > u32::MAX,
            forall|k: int| 0 <= k < i ==> !is_total((#[trigger] all[k]).0, over@),
        decreases v@.len() - i,
    {
        assert(all[i as int] == (v@[i as int].0@, v@[i as int].1));
        if check_total(&v[i].0, over) {
            assert(is_total(all[i as int].0, over@));
            return false;
        }
        i = i + 1;
    }
    true
}

/// Whether [`propose_entries`] can be called: the total lengths it computes are
/// in range.
pub fn proposal_fits(inputs: &Vec<GraphInput>, overrides: &NameMap<u32>, decode_step: bool) -> (r:
    bool)
    ensures
        r == proposal_in_range(inputs_v(inputs@), overrides@, decode_step),
{
    let names = find_dim_names(inputs);
    let mut ignored: Vec<String> = Vec::new();
    let prefill = fill_dims(&names, false, overrides, &mut ignored);
    if !totals_fit(&prefill, overrides) {
        return false;
    }
    if check_gate(inputs) || (decode_step && check_cache(&names)) {
        let decode = fill_dims(&names, true, overrides, &mut ignored);
        return totals_fit(&decode, overrides);
    }
    true
}

// ---------------------------------------------------------------------------
// Laws
// ---------------------------------------------------------------------------

/// Some entry of the list has this name.
pub open spec fn is_placed(v: Seq<(Seq<char>, u32)>, name: Seq<char>) -> bool {
    exists|i: int| 0 <= i < v.len() && (#[trigger] v[i]).0 == name
}

proof fn lemma_filled(names: Seq<Seq<char>>, decode: bool, over: Map<Seq<char>, u32>)
    ensures
        ({
            let v = filled_dims(names, decode, over);
            &&& forall|i: int|
                0 <= i < v.len() ==> names.contains((#[trigger] v[i]).0) && proposed(
                    v[i].0,
                    decode,
                    over,
                ) == Some(v[i].1)
            &&& forall|n: Seq<char>| #[trigger]
                names.contains(n) && proposed(n, decode, over) is Some ==> is_placed(v, n)
        }),
    decreases names.len(),
{
    if names.len() > 0 {
        let front = names.drop_last();
        lemma_filled(front, decode, over);
        let before = filled_dims(front, decode, over);
        let v = filled_dims(names, decode, over);
        assert forall|i: int| 0 <= i < v.len() implies names.contains((#[trigger] v[i]).0)
            && proposed(v[i].0, decode, over) == Some(v[i].1) by {
            if i < before.len() {
                assert(v[i] == before[i]);
                let k = choose|k: int| 0 <= k < front.len() && front[k] == before[i].0;
                assert(names[k] == v[i].0);
            } else {
                assert(names[names.len() - 1] == v[i].0);
            }
        }
        assert forall|n: Seq<char>| #[trigger]
            names.contains(n) && proposed(n, decode, over) is Some implies is_placed(v, n) by {
            let k = choose|k: int| 0 <= k < names.len() && names[k] == n;
            if k < front.len() {
                assert(front[k] == n);
                assert(front.contains(n));
                let i = choose|i: int| 0 <= i < before.len() && (#[trigger] before[i]).0 == n;
                assert(v[i] == before[i]);
            } else {
                assert(v[v.len() - 1].0 == n);
            }
        }
    }
}

/// Totals and mirrors change values that are not overridden, and no names.
proof fn lemma_built(names: Seq<Seq<char>>, decode: bool, over: Map<Seq<char>, u32>)
    ensures
        ({
            let v = filled_dims(names, decode, over);
            let b = built_dims(names, decode, over);
            &&& b.len() == v.len()
            &&& forall|i: int| 0 <= i < v.len() ==> (#[trigger] b[i]).0 == v[i].0
            &&& forall|i: int|
                0 <= i < v.len() && over.contains_key(v[i].0) ==> (#[trigger] b[i]) == v[i]
        }),
{
}

proof fn lemma_unfilled(
    v: Seq<Seq<char>>,
    names: Seq<Seq<char>>,
    decode: bool,
    over: Map<Seq<char>, u32>,
)
    ensures
        ({
            let u = with_unfilled(v, names, decode, over);
            &&& forall|n: Seq<char>| #[trigger] v.contains(n) ==> u.contains(n)
            &&& forall|n: Seq<char>| #[trigger]
                names.contains(n) && proposed(n, decode, over) is None ==> u.contains(n)
            &&& forall|n: Seq<char>| #[trigger]
                u.contains(n) ==> v.contains(n) || (names.contains(n) && proposed(
                    n,
                    decode,
                    over,
                ) is None)
        }),
    decreases names.len(),
{
    let u = with_unfilled(v, names, decode, over);
    if names.len() > 0 {
        let front = names.drop_last();
        let last = names.last();
        lemma_unfilled(v, front, decode, over);
        let w = with_unfilled(v, front, decode, over);
        assert(names[names.len() - 1] == last);
        assert forall|n: Seq<char>| #[trigger] u.contains(n) == (w.contains(n) || (n == last
            && proposed(last, decode, over) is None)) by {
            if w.contains(n) {
                let k = choose|k: int| 0 <= k < w.len() && w[k] == n;
                assert(u[k] == n);
            }
            if u.contains(n) {
                let k = choose|k: int| 0 <= k < u.len() && u[k] == n;
                if k < w.len() {
                    assert(w[k] == n);
                }
            }
            if n == last && proposed(last, decode, over) is None && !w.contains(n) {
                assert(u[u.len() - 1] == n);
            }
        }
        assert forall|n: Seq<char>| #[trigger] names.contains(n) == (front.contains(n) || n
            == last) by {
            if names.contains(n) {
                let k = choose|k: int| 0 <= k < names.len() && names[k] == n;
                if k < front.len() {
                    assert(front[k] == n);
                }
            }
            if front.contains(n) {
                let k = choose|k: int| 0 <= k < front.len() && front[k] == n;
                assert(names[k] == n);
            }
        }
    }
}

/// What holds of one entry and the list of unresolved dimensions.
pub open spec fn accounts_for(
    e: ManifestV,
    unresolved: Seq<Seq<char>>,
    over: Map<Seq<char>, u32>,
    name: Seq<char>,
) -> bool {
    &&& is_placed(e.override_dims, name) || unresolved.contains(name)
    &&& over.contains_key(name) ==> e.override_dims.contains((name, over[name]))
}

proof fn lemma_entry_accounts(
    e: ManifestV,
    unresolved: Seq<Seq<char>>,
    names: Seq<Seq<char>>,
    decode: bool,
    over: Map<Seq<char>, u32>,
    name: Seq<char>,
)
    requires
        names.contains(name),
        e.override_dims == built_dims(names, decode, over),
        proposed(name, decode, over) is None ==> unresolved.contains(name),
    ensures
        accounts_for(e, unresolved, over, name),
{
    lemma_filled(names, decode, over);
    lemma_built(names, decode, over);
    let v = filled_dims(names, decode, over);
    let b = built_dims(names, decode, over);
    if proposed(name, decode, over) is Some {
        assert(is_placed(v, name));
        let i = choose|i: int| 0 <= i < v.len() && (#[trigger] v[i]).0 == name;
        assert(b[i].0 == name);
        if over.contains_key(name) {
            assert(b[i] == v[i]);
            assert(b[i] == (name, over[name]));
        }
    }
}

/// Every free dimension of an input has a value in each entry or is reported as
/// unresolved; an overridden one has the override as its value in each entry.
pub proof fn law_every_dimension_is_accounted_for(
    file: Seq<char>,
    size: u64,
    inputs: Seq<GraphInputV>,
    over: Map<Seq<char>, u32>,
    pins: Seq<(Seq<char>, i64)>,
    decode_step: bool,
    name: Seq<char>,
    at: int,
)
    requires
        dim_names(inputs).contains(name),
        0 <= at < proposal(file, size, inputs, over, pins, decode_step).entries.len(),
    ensures
        ({
            let p = proposal(file, size, inputs, over, pins, decode_step);
            accounts_for(p.entries[at], p.unresolved, over, name)
        }),
{
    let names = dim_names(inputs);
    let p = proposal(file, size, inputs, over, pins, decode_step);
    let first = with_unfilled(seq![], names, false, over);
    lemma_unfilled(seq![], names, false, over);
    lemma_unfilled(first, names, true, over);
    if at == 0 {
        assert(p.entries[0].override_dims == built_dims(names, false, over));
        lemma_entry_accounts(p.entries[0], p.unresolved, names, false, over, name);
    } else {
        assert(p.entries[1].override_dims == built_dims(names, true, over));
        lemma_entry_accounts(p.entries[1], p.unresolved, names, true, over, name);
    }
}

/// Only free dimensions for which some entry has no value are reported as
/// unresolved.
pub proof fn law_unresolved_dimensions_have_no_value(
    file: Seq<char>,
    size: u64,
    inputs: Seq<GraphInputV>,
    over: Map<Seq<char>, u32>,
    pins: Seq<(Seq<char>, i64)>,
    decode_step: bool,
    name: Seq<char>,
)
    requires
        proposal(file, size, inputs, over, pins, decode_step).unresolved.contains(name),
    ensures
        dim_names(inputs).contains(name),
        !over.contains_key(name),
        policy(name) is None,
{
    let names = dim_names(inputs);
    let none = Seq::<Seq<char>>::empty();
    let first = with_unfilled(none, names, false, over);
    lemma_unfilled(none, names, false, over);
    lemma_unfilled(first, names, true, over);
    assert(!none.contains(name));
}

/// A merged decoder gets two entries that pin the switch: first the prefill
/// branch, then the decode branch. Without the switch nothing is pinned beyond
/// what was asked for.
pub proof fn law_merged_decoders_get_two_entries(
    file: Seq<char>,
    size: u64,
    inputs: Seq<GraphInputV>,
    over: Map<Seq<char>, u32>,
    pins: Seq<(Seq<char>, i64)>,
    decode_step: bool,
)
    ensures
        ({
            let e = proposal(file, size, inputs, over, pins, decode_step).entries;
            let names = dim_names(inputs);
            &&& has_gate(inputs) ==> {
                &&& e.len() == 2
                &&& e[0].pin_inputs == pins.push(("use_cache_branch"@, 0i64))
                &&& e[0].override_dims == built_dims(names, false, over)
                &&& e[1].pin_inputs == pins.push(("use_cache_branch"@, 1i64))
                &&& e[1].override_dims == built_dims(names, true, over)
            }
            &&& !has_gate(inputs) ==> {
                &&& e.len() == if decode_step && has_cache(names) {
                    2
                } else {
                    1int
                }
                &&& forall|i: int| 0 <= i < e.len() ==> (#[trigger] e[i]).pin_inputs == pins
            }
        }),
{
}

/// A total length that is not overridden is the sum of the sequence length and
/// the cache length of its entry.
pub proof fn law_totals_add_up(
    names: Seq<Seq<char>>,
    decode: bool,
    over: Map<Seq<char>, u32>,
    i: int,
)
    requires
        totals_in_range(filled_dims(names, decode, over), over),
        0 <= i < built_dims(names, decode, over).len(),
        is_total(built_dims(names, decode, over)[i].0, over),
        sequence_dim(filled_dims(names, decode, over)) is Some,
        past_dim(filled_dims(names, decode, over)) is Some,
    ensures
        built_dims(names, decode, over)[i].1 == sequence_dim(
            filled_dims(names, decode, over),
        )->0 + past_dim(filled_dims(names, decode, over))->0,
{
    let v = filled_dims(names, decode, over);
    lemma_built(names, decode, over);
    assert(is_total(v[i].0, over));
    let out = "encoder_sequence_length_out"@;
    reveal_strlit("encoder_sequence_length_out");
    reveal_strlit("total_sequence");
    assert(!text::has_part(out, "total_sequence"@)) by {
        assert forall|k: int| !#[trigger] text::occurs_at(out, "total_sequence"@, k) by {
            if text::occurs_at(out, "total_sequence"@, k) {
                assert(out.subrange(k, k + 14)[0] == out[k]);
                assert(out[k] != 't');
            }
        }
    }
}

} // verus!
