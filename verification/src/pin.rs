//! Graph inputs frozen to constants.
use crate::arith;
use crate::bytes;
use crate::error::{ErrorV, OnnxError};
use crate::floats;
use crate::names;
use crate::names::NameMap;
use crate::protos;
use crate::protos::{
    DimV, DimensionProto, GraphProto, GraphV, ModelProto, ModelV, TensorProto, TensorTypeProto,
    TensorTypeV, ValueInfoProto, ValueInfoV,
};
use crate::text;
use vstd::prelude::*;

verus! {

/// The position of the first value of this name, or the number of values.
pub open spec fn info_pos(v: Seq<ValueInfoV>, name: Seq<char>) -> int
    decreases v.len(),
{
    if v.len() == 0 || v[0].name == name {
        0
    } else {
        1 + info_pos(v.drop_first(), name)
    }
}

pub open spec fn is_static(dims: Seq<DimV>) -> bool {
    forall|i: int| 0 <= i < dims.len() ==> #[trigger] dims[i] is Value
}

/// The sizes of a declared shape; a tensor without one is a scalar.
pub open spec fn static_dims(t: TensorTypeV) -> Seq<i64> {
    match t.shape {
        Some(d) => Seq::new(d.len(), |i: int| d[i]->Value_0),
        None => seq![],
    }
}

pub open spec fn has_static_shape(t: TensorTypeV) -> bool {
    t.shape matches Some(d) ==> is_static(d)
}

/// The number of elements; a tensor has at least one.
pub open spec fn element_total(dims: Seq<i64>) -> int {
    if arith::product(dims) > 1 {
        arith::product(dims)
    } else {
        1
    }
}

/// The bytes of a pinned element, where the element type has them.
pub open spec fn pinned_element(elem_type: i32, value: i64) -> Option<Seq<u8>> {
    if elem_type == protos::TYPE_BOOL {
        Some(
            seq![
                if value != 0 {
                    1u8
                } else {
                    0u8
                },
            ],
        )
    } else if elem_type == protos::TYPE_INT64 {
        Some(bytes::le_bytes(value as int, 8))
    } else if elem_type == protos::TYPE_INT32 {
        Some(bytes::le_bytes(value as int, 4))
    } else if elem_type == protos::TYPE_FLOAT {
        Some(bytes::le_bytes(floats::int_bits(value as int), 4))
    } else {
        None
    }
}

/// `b` written `n` times.
pub open spec fn repeated(b: Seq<u8>, n: int) -> Seq<u8>
    decreases n,
{
    if n <= 0 {
        seq![]
    } else {
        repeated(b, n - 1) + b
    }
}

/// A graph after an attempt to pin, and what went wrong.
pub struct PinV {
    pub graph: GraphV,
    pub error: Option<ErrorV>,
}

/// The graph with the input at `at` taken out.
pub open spec fn without_input(g: GraphV, at: int) -> GraphV {
    GraphV { input: g.input.remove(at), ..g }
}

/// What is wrong with pinning a value.
pub open spec fn pin_error(info: ValueInfoV, name: Seq<char>) -> Option<ErrorV> {
    match info.tensor_type {
        None => Some(ErrorV::InvalidShape("pin-input: '"@ + name + "' is not a tensor input"@)),
        Some(t) => if !has_static_shape(t) {
            Some(
                ErrorV::InvalidShape(
                    "pin-input: '"@ + name
                        + "' has a dynamic dimension; only static shapes can be pinned"@,
                ),
            )
        } else if pinned_element(t.elem_type, 0) is None {
            Some(
                ErrorV::InvalidShape(
                    "pin-input: unsupported element type "@ + text::decimal(t.elem_type as int)
                        + " for '"@ + name + "' (bool, int32, int64, float)"@,
                ),
            )
        } else {
            None
        },
    }
}

/// One input replaced with an initializer of its declared type and shape whose
/// elements all have this value. The input is gone even where pinning fails.
pub open spec fn pin_one(g: GraphV, name: Seq<char>, value: i64) -> PinV {
    let at = info_pos(g.input, name);
    if at >= g.input.len() {
        PinV {
            graph: g,
            error: Some(
                ErrorV::InvalidShape("pin-input: '"@ + name + "' is not a graph input"@),
            ),
        }
    } else {
        let rest = without_input(g, at);
        match pin_error(g.input[at], name) {
            Some(e) => PinV { graph: rest, error: Some(e) },
            None => {
                let t = g.input[at].tensor_type->0;
                let dims = static_dims(t);
                PinV {
                    graph: GraphV {
                        initializer: rest.initializer.push(
                            protos::raw_tensor(
                                name,
                                t.elem_type,
                                dims,
                                repeated(
                                    pinned_element(t.elem_type, value)->0,
                                    element_total(dims),
                                ),
                            ),
                        ),
                        ..rest
                    },
                    error: None,
                }
            },
        }
    }
}

/// Inputs pinned one after the other, up to the first that cannot be.
pub open spec fn pin_all(g: GraphV, pins: Seq<(Seq<char>, i64)>) -> PinV
    decreases pins.len(),
{
    if pins.len() == 0 {
        PinV { graph: g, error: None }
    } else {
        let o = pin_one(g, pins[0].0, pins[0].1);
        if o.error is Some {
            o
        } else {
            pin_all(o.graph, pins.drop_first())
        }
    }
}

/// The model after an attempt to pin, and what went wrong.
pub struct PinnedModelV {
    pub model: ModelV,
    pub error: Option<ErrorV>,
}

pub open spec fn pinned_model(m: ModelV, pins: Seq<(Seq<char>, i64)>) -> PinnedModelV {
    if pins.len() == 0 {
        PinnedModelV { model: m, error: None }
    } else {
        match m.graph {
            None => PinnedModelV {
                model: m,
                error: Some(ErrorV::InvalidShape("model has no graph"@)),
            },
            Some(g) => {
                let o = pin_all(g, pins);
                PinnedModelV { model: ModelV { graph: Some(o.graph), ..m }, error: o.error }
            },
        }
    }
}

/// The number of elements and of bytes of a pinned value can be computed.
pub open spec fn info_in_range(info: ValueInfoV) -> bool {
    info.tensor_type matches Some(t) ==> has_static_shape(t) ==> {
        &&& arith::product_fits(static_dims(t))
        &&& (pinned_element(t.elem_type, 0) matches Some(b) ==> element_total(static_dims(t))
            * b.len() <= isize::MAX)
    }
}

/// Every value that is reached is in range.
pub open spec fn pins_in_range(inputs: Seq<ValueInfoV>, pins: Seq<(Seq<char>, i64)>) -> bool
    decreases pins.len(),
{
    if pins.len() == 0 {
        true
    } else {
        let at = info_pos(inputs, pins[0].0);
        if at >= inputs.len() {
            true
        } else {
            info_in_range(inputs[at]) && (pin_error(inputs[at], pins[0].0) is None
                ==> pins_in_range(inputs.remove(at), pins.drop_first()))
        }
    }
}

pub open spec fn model_pins_in_range(m: ModelV, pins: Seq<(Seq<char>, i64)>) -> bool {
    m.graph matches Some(g) ==> pins_in_range(g.input, pins)
}

proof fn lemma_info_pos(v: Seq<ValueInfoV>, name: Seq<char>, n: int)
    requires
        0 <= n <= v.len(),
        forall|i: int| 0 <= i < n ==> (#[trigger] v[i]).name != name,
        n == v.len() || v[n].name == name,
    ensures
        info_pos(v, name) == n,
    decreases v.len(),
{
    if n > 0 {
        let t = v.drop_first();
        assert forall|i: int| 0 <= i < n - 1 implies (#[trigger] t[i]).name != name by {
            assert(t[i] == v[i + 1]);
        }
        lemma_info_pos(t, name, n - 1);
    }
}

pub(crate) fn find_info(v: &Vec<ValueInfoProto>, name: &String) -> (r: usize)
    ensures
        r == info_pos(protos::infos_v(v@), name@),
        r <= v@.len(),
{
    let mut i: usize = 0;
    while i < v.len()
        invariant
            i <= v@.len(),
            forall|k: int| 0 <= k < i ==> (#[trigger] protos::infos_v(v@)[k]).name != name@,
        decreases v@.len() - i,
    {
        if v[i].name == *name {
            proof {
                lemma_info_pos(protos::infos_v(v@), name@, i as int);
            }
            return i;
        }
        i = i + 1;
    }
    proof {
        lemma_info_pos(protos::infos_v(v@), name@, i as int);
    }
    i
}

/// The sizes of a declared shape, where all are numbers.
fn read_static_dims(t: &TensorTypeProto) -> (r: Option<Vec<i64>>)
    ensures
        r is Some <==> has_static_shape(t@),
        r matches Some(d) ==> d@ == static_dims(t@),
{
    let mut out: Vec<i64> = Vec::new();
    match &t.shape {
        None => {
            assert(out@ =~= static_dims(t@));
            Some(out)
        },
        Some(dims) => {
            let mut i: usize = 0;
            while i < dims.len()
                invariant
                    i <= dims@.len(),
                    t.shape == Some(*dims),
                    out@.len() == i,
                    forall|k: int|
                        0 <= k < i ==> (#[trigger] protos::dims_v(dims@)[k]) == DimV::Value(
                            out@[k],
                        ),
                decreases dims@.len() - i,
            {
                match &dims[i] {
                    DimensionProto::DimValue(v) => {
                        out.push(*v);
                    },
                    _ => {
                        assert(protos::dims_v(dims@)[i as int] !is Value);
                        return None;
                    },
                }
                i = i + 1;
            }
            assert(out@ =~= static_dims(t@));
            Some(out)
        },
    }
}

fn element_bytes(elem_type: i32, value: i64) -> (r: Option<Vec<u8>>)
    ensures
        r matches Some(b) ==> pinned_element(elem_type, value) == Some(b@) && b@.len()
            == pinned_element(elem_type, 0)->0.len(),
        r is Some <==> pinned_element(elem_type, 0) is Some,
{
    proof {
        bytes::lemma_le_len(value as int, 8);
        bytes::lemma_le_len(0, 8);
        bytes::lemma_le_len(value as int, 4);
        bytes::lemma_le_len(0, 4);
        bytes::lemma_le_len(floats::int_bits(value as int), 4);
        bytes::lemma_le_len(floats::int_bits(0), 4);
    }
    let mut out: Vec<u8> = Vec::new();
    if elem_type == protos::TYPE_BOOL {
        out.push(
            if value != 0 {
                1u8
            } else {
                0u8
            },
        );
        assert(pinned_element(elem_type, value)->0 =~= out@);
        Some(out)
    } else if elem_type == protos::TYPE_INT64 {
        bytes::put_i64(&mut out, value);
        assert(pinned_element(elem_type, value)->0 =~= out@);
        Some(out)
    } else if elem_type == protos::TYPE_INT32 {
        bytes::put_low(&mut out, value, 4);
        assert(pinned_element(elem_type, value)->0 =~= out@);
        Some(out)
    } else if elem_type == protos::TYPE_FLOAT {
        let f: u32 = floats::int_to_f32(value);
        bytes::put_u32(&mut out, f);
        assert(pinned_element(elem_type, value)->0 =~= out@);
        Some(out)
    } else {
        None
    }
}

fn repeat(b: &Vec<u8>, n: usize) -> (r: Vec<u8>)
    ensures
        r@ == repeated(b@, n as int),
{
    let mut out: Vec<u8> = Vec::new();
    let mut k: usize = 0;
    while k < n
        invariant
            k <= n,
            out@ == repeated(b@, k as int),
        decreases n - k,
    {
        let ghost before = out@;
        let mut i: usize = 0;
        assert(before =~= before + b@.take(0));
        while i < b.len()
            invariant
                i <= b@.len(),
                out@ == before + b@.take(i as int),
            decreases b@.len() - i,
        {
            out.push(b[i]);
            i = i + 1;
            assert(out@ =~= before + b@.take(i as int));
        }
        assert(b@.take(i as int) =~= b@);
        k = k + 1;
    }
    out
}

fn pin_message(name: &String, rest: &str) -> (r: OnnxError)
    ensures
        r@ == ErrorV::InvalidShape("pin-input: '"@ + name@ + rest@),
{
    let mut m = String::from_str("pin-input: '");
    m.append(name.as_str());
    m.append(rest);
    OnnxError::InvalidShape(m)
}

/// The constant that takes the place of an input.
fn pinned_tensor(info: &ValueInfoProto, name: &String, value: i64) -> (r: Result<
    TensorProto,
    OnnxError,
>)
    requires
        info_in_range(info@),
    ensures
        r matches Err(e) ==> pin_error(info@, name@) == Some(e@),
        r matches Ok(t) ==> pin_error(info@, name@) is None && ({
            let tt = info@.tensor_type->0;
            t@ == protos::raw_tensor(
                name@,
                tt.elem_type,
                static_dims(tt),
                repeated(
                    pinned_element(tt.elem_type, value)->0,
                    element_total(static_dims(tt)),
                ),
            )
        }),
{
    let tt = match &info.tensor_type {
        Some(t) => t,
        None => return Err(pin_message(name, "' is not a tensor input")),
    };
    let dims = match read_static_dims(tt) {
        Some(d) => d,
        None => return Err(
            pin_message(
                name,
                "' has a dynamic dimension; only static shapes can be pinned",
            ),
        ),
    };
    let element = match element_bytes(tt.elem_type, value) {
        Some(b) => b,
        None => {
            let mut m = String::from_str("pin-input: unsupported element type ");
            let d = text::decimal_i64(tt.elem_type as i64);
            m.append(d.as_str());
            m.append(" for '");
            m.append(name.as_str());
            m.append("' (bool, int32, int64, float)");
            return Err(OnnxError::InvalidShape(m));
        },
    };
    let total: i64 = match arith::checked_product(&dims) {
        Some(p) => if p > 1 {
            p
        } else {
            1
        },
        None => 1,
    };
    assert(total <= isize::MAX) by {
        assert(element@.len() >= 1) by {
            bytes::lemma_le_len(value as int, 8);
            bytes::lemma_le_len(value as int, 4);
            bytes::lemma_le_len(floats::int_bits(value as int), 4);
        }
        assert(total <= total * element@.len()) by (nonlinear_arith)
            requires
                total >= 1,
                element@.len() >= 1,
        ;
    }
    Ok(TensorProto::raw(name.clone(), tt.elem_type, dims, repeat(&element, total as usize)))
}

proof fn lemma_remove_view(v: Seq<ValueInfoProto>, at: int)
    requires
        0 <= at < v.len(),
    ensures
        protos::infos_v(v.remove(at)) == protos::infos_v(v).remove(at),
{
    assert(protos::infos_v(v.remove(at)) =~= protos::infos_v(v).remove(at));
}

fn pin_input(graph: &mut GraphProto, name: &String, value: i64) -> (r: Result<(), OnnxError>)
    requires
        ({
            let at = info_pos(old(graph)@.input, name@);
            at < old(graph)@.input.len() ==> info_in_range(old(graph)@.input[at])
        }),
    ensures
        final(graph)@ == pin_one(old(graph)@, name@, value).graph,
        r is Ok <==> pin_one(old(graph)@, name@, value).error is None,
        r matches Err(e) ==> pin_one(old(graph)@, name@, value).error == Some(e@),
{
    let at: usize = find_info(&graph.input, name);
    if at == graph.input.len() {
        return Err(pin_message(name, "' is not a graph input"));
    }
    proof {
        lemma_remove_view(graph.input@, at as int);
    }
    let ghost info_view = graph@.input[at as int];
    let info = graph.input.remove(at);
    assert(info@ == info_view);
    assert(graph@ == without_input(old(graph)@, at as int));
    let ghost before = protos::tensors_v(graph.initializer@);
    match pinned_tensor(&info, name, value) {
        Err(e) => Err(e),
        Ok(t) => {
            let ghost tv = t@;
            graph.initializer.push(t);
            assert(protos::tensors_v(graph.initializer@) =~= before.push(tv));
            Ok(())
        },
    }
}

/// Replace the named graph inputs with constant initializers of the declared
/// type and (static) shape, so that folding and `If` inlining treat them as
/// constants.
pub fn pin_graph_inputs(model: &mut ModelProto, pinned: &NameMap<i64>) -> (r: Result<
    (),
    OnnxError,
>)
    requires
        model_pins_in_range(old(model)@, pinned.entries()),
    ensures
        final(model)@ == pinned_model(old(model)@, pinned.entries()).model,
        r is Ok <==> pinned_model(old(model)@, pinned.entries()).error is None,
        r matches Err(e) ==> pinned_model(old(model)@, pinned.entries()).error == Some(e@),
{
    if pinned.is_empty() {
        return Ok(());
    }
    let mut graph: GraphProto = match model.graph.take() {
        Some(g) => g,
        None => return Err(OnnxError::InvalidShape(String::from_str("model has no graph"))),
    };
    let ghost goal = pin_all(graph@, pinned.entries());
    let ghost all = pinned.entries();
    let mut i: usize = 0;
    let n: usize = pinned.len();
    let mut result: Result<(), OnnxError> = Ok(());
    assert(all.skip(0) =~= all);
    while i < n && result.is_ok()
        invariant
            i <= n,
            n == all.len(),
            all == pinned.entries(),
            result is Ok ==> goal == pin_all(graph@, all.skip(i as int)),
            result is Ok ==> pins_in_range(graph@.input, all.skip(i as int)),
            result matches Err(e) ==> goal == (PinV { graph: graph@, error: Some(e@) }),
        decreases n - i,
    {
        assert(all.skip(i as int).drop_first() =~= all.skip(i + 1));
        assert(all.skip(i as int)[0] == all[i as int]);
        result = pin_input(&mut graph, pinned.key(i), *pinned.value(i));
        i = i + 1;
    }
    model.graph = Some(graph);
    result
}

/// Whether [`pin_graph_inputs`] can be called on the model: the number of
/// elements and bytes of each pinned value is in range.
pub fn pins_fit(model: &ModelProto, pinned: &NameMap<i64>) -> (r: bool)
    ensures
        r == model_pins_in_range(model@, pinned.entries()),
{
    let mut inputs: Vec<ValueInfoProto> = match &model.graph {
        Some(g) => protos::copy_infos(&g.input),
        None => return true,
    };
    let ghost goal = pins_in_range(protos::infos_v(inputs@), pinned.entries());
    let ghost all = pinned.entries();
    let n: usize = pinned.len();
    let mut i: usize = 0;
    assert(all.skip(0) =~= all);
    while i < n
        invariant
            i <= n,
            n == all.len(),
            all == pinned.entries(),
            goal == pins_in_range(protos::infos_v(inputs@), all.skip(i as int)),
            goal == model_pins_in_range(model@, pinned.entries()),
        decreases n - i,
    {
        assert(all.skip(i as int).drop_first() =~= all.skip(i + 1));
        assert(all.skip(i as int)[0] == all[i as int]);
        let at: usize = find_info(&inputs, pinned.key(i));
        if at == inputs.len() {
            return true;
        }
        proof {
            lemma_remove_view(inputs@, at as int);
        }
        let ghost info_view = protos::infos_v(inputs@)[at as int];
        let info = inputs.remove(at);
        assert(info@ == info_view);
        if !info_fits(&info) {
            return false;
        }
        match &info.tensor_type {
            None => return true,
            Some(t) => {
                if read_static_dims(t).is_none() || element_bytes(t.elem_type, 0).is_none() {
                    return true;
                }
            },
        }
        i = i + 1;
    }
    true
}

fn info_fits(info: &ValueInfoProto) -> (r: bool)
    ensures
        r == info_in_range(info@),
{
    let t = match &info.tensor_type {
        Some(t) => t,
        None => return true,
    };
    let dims = match read_static_dims(t) {
        Some(d) => d,
        None => return true,
    };
    let total: i64 = match arith::checked_product(&dims) {
        Some(p) => if p > 1 {
            p
        } else {
            1
        },
        None => return false,
    };
    match element_bytes(t.elem_type, 0) {
        None => true,
        Some(b) => {
            let width: usize = b.len();
            assert(width <= 8) by {
                bytes::lemma_le_len(0, 8);
                bytes::lemma_le_len(0, 4);
                bytes::lemma_le_len(floats::int_bits(0), 4);
            }
            assert(0 <= total * width <= 0x7fff_ffff_ffff_ffff * 8) by (nonlinear_arith)
                requires
                    0 <= total <= 0x7fff_ffff_ffff_ffff,
                    0 <= width <= 8,
            ;
            total as i128 * width as i128 <= isize::MAX as i128
        },
    }
}

// ---------------------------------------------------------------------------
// Laws
// ---------------------------------------------------------------------------

/// No two values have the same name.
pub open spec fn distinct_names(v: Seq<ValueInfoV>) -> bool {
    forall|i: int, j: int| 0 <= i < j < v.len() ==> (#[trigger] v[i]).name != (#[trigger] v[j]).name
}

pub open spec fn is_pinned(pins: Seq<(Seq<char>, i64)>, name: Seq<char>) -> bool {
    exists|i: int| 0 <= i < pins.len() && (#[trigger] pins[i]).0 == name
}

/// The constant that takes the place of a value.
pub open spec fn pinned_constant(info: ValueInfoV, name: Seq<char>, value: i64) -> protos::TensorV {
    let t = info.tensor_type->0;
    protos::raw_tensor(
        name,
        t.elem_type,
        static_dims(t),
        repeated(pinned_element(t.elem_type, value)->0, element_total(static_dims(t))),
    )
}

proof fn lemma_info_pos_range(v: Seq<ValueInfoV>, name: Seq<char>)
    ensures
        0 <= info_pos(v, name) <= v.len(),
        info_pos(v, name) < v.len() ==> v[info_pos(v, name)].name == name,
        forall|i: int| 0 <= i < info_pos(v, name) ==> (#[trigger] v[i]).name != name,
    decreases v.len(),
{
    if v.len() > 0 && v[0].name != name {
        lemma_info_pos_range(v.drop_first(), name);
        let p = info_pos(v, name);
        assert forall|i: int| 0 <= i < p implies (#[trigger] v[i]).name != name by {
            if i > 0 {
                assert(v.drop_first()[i - 1] == v[i]);
            }
        }
    }
}

/// Taking out another value does not change what a name finds.
proof fn lemma_found_after_remove(v: Seq<ValueInfoV>, at: int, name: Seq<char>)
    requires
        0 <= at < v.len(),
        v[at].name != name,
    ensures
        ({
            let w = v.remove(at);
            &&& info_pos(w, name) < w.len() <==> info_pos(v, name) < v.len()
            &&& info_pos(w, name) < w.len() ==> w[info_pos(w, name)] == v[info_pos(v, name)]
        }),
{
    let w = v.remove(at);
    let p = info_pos(v, name);
    lemma_info_pos_range(v, name);
    let q = if p < at {
        p
    } else {
        p - 1
    };
    if p < v.len() {
        assert(p != at);
        assert(w[q] == v[p]);
    }
    assert forall|i: int| 0 <= i < q implies (#[trigger] w[i]).name != name by {
        if i < at {
            assert(w[i] == v[i]);
        } else {
            assert(w[i] == v[i + 1]);
        }
    }
    lemma_info_pos(w, name, q);
}

proof fn lemma_filter_remove(
    v: Seq<ValueInfoV>,
    at: int,
    f: spec_fn(ValueInfoV) -> bool,
    g: spec_fn(ValueInfoV) -> bool,
)
    requires
        0 <= at < v.len(),
        !g(v[at]),
        forall|i: int| 0 <= i < v.len() && i != at ==> f(#[trigger] v[i]) == g(v[i]),
    ensures
        v.remove(at).filter(f) == v.filter(g),
    decreases v.len(),
{
    reveal(Seq::filter);
    let w = v.remove(at);
    if at == v.len() - 1 {
        assert(w =~= v.drop_last());
        lemma_filter_same(v.drop_last(), f, g);
    } else {
        assert(w.drop_last() =~= v.drop_last().remove(at));
        assert(w.last() == v.last());
        lemma_filter_remove(v.drop_last(), at, f, g);
    }
}

proof fn lemma_filter_same(
    v: Seq<ValueInfoV>,
    f: spec_fn(ValueInfoV) -> bool,
    g: spec_fn(ValueInfoV) -> bool,
)
    requires
        forall|i: int| 0 <= i < v.len() ==> f(#[trigger] v[i]) == g(v[i]),
    ensures
        v.filter(f) == v.filter(g),
    decreases v.len(),
{
    reveal(Seq::filter);
    if v.len() > 0 {
        lemma_filter_same(v.drop_last(), f, g);
    }
}

/// What is left of the inputs without one still has distinct names.
proof fn lemma_rest_distinct(input: Seq<ValueInfoV>, at: int)
    requires
        0 <= at < input.len(),
        distinct_names(input),
    ensures
        distinct_names(input.remove(at)),
{
    let w = input.remove(at);
    assert forall|i: int, j: int| 0 <= i < j < w.len() implies (#[trigger] w[i]).name != (
    #[trigger] w[j]).name by {
        let a = if i < at {
            i
        } else {
            i + 1
        };
        let b = if j < at {
            j
        } else {
            j + 1
        };
        assert(w[i] == input[a] && w[j] == input[b]);
    }
}

/// The inputs that stay are those of the rest without the first pinned one.
proof fn lemma_kept_inputs(input: Seq<ValueInfoV>, at: int, pins: Seq<(Seq<char>, i64)>)
    requires
        0 <= at < input.len(),
        pins.len() > 0,
        input[at].name == pins[0].0,
        distinct_names(input),
    ensures
        input.remove(at).filter(|v: ValueInfoV| !is_pinned(pins.drop_first(), v.name))
            == input.filter(|v: ValueInfoV| !is_pinned(pins, v.name)),
{
    let rest = pins.drop_first();
    let keep = |v: ValueInfoV| !is_pinned(pins, v.name);
    let keep_rest = |v: ValueInfoV| !is_pinned(rest, v.name);
    assert forall|i: int| 0 <= i < input.len() && i != at implies keep_rest(#[trigger] input[i])
        == keep(input[i]) by {
        let n = input[i].name;
        assert(n != pins[0].0) by {
            if i < at {
                assert(input[i].name != input[at].name);
            } else {
                assert(input[at].name != input[i].name);
            }
        }
        if is_pinned(pins, n) {
            let k = choose|k: int| 0 <= k < pins.len() && (#[trigger] pins[k]).0 == n;
            assert(rest[k - 1] == pins[k]);
        }
        if is_pinned(rest, n) {
            let k = choose|k: int| 0 <= k < rest.len() && (#[trigger] rest[k]).0 == n;
            assert(rest[k] == pins[k + 1]);
        }
    }
    assert(!keep(input[at])) by {
        assert(pins[0].0 == input[at].name);
    }
    lemma_filter_remove(input, at, keep_rest, keep);
}

/// The constants that pinning adds, in the order of the names.
pub open spec fn pinned_constants(
    input: Seq<ValueInfoV>,
    pins: Seq<(Seq<char>, i64)>,
) -> Seq<protos::TensorV> {
    Seq::new(
        pins.len(),
        |i: int| pinned_constant(input[info_pos(input, pins[i].0)], pins[i].0, pins[i].1),
    )
}

proof fn lemma_added_constants(g: GraphV, pins: Seq<(Seq<char>, i64)>)
    requires
        names::distinct_keys(pins),
        pins.len() > 0,
        pin_all(g, pins).error is None,
    ensures
        ({
            let at = info_pos(g.input, pins[0].0);
            let added = pinned_constants(g.input, pins);
            &&& at < g.input.len()
            &&& added.drop_first() == pinned_constants(g.input.remove(at), pins.drop_first())
        }),
{
    let at = info_pos(g.input, pins[0].0);
    let rest = pins.drop_first();
    let o = pin_one(g, pins[0].0, pins[0].1);
    lemma_info_pos_range(g.input, pins[0].0);
    assert(o.graph.input == g.input.remove(at));
    assert(names::distinct_keys(rest)) by {
        assert forall|i: int, j: int| 0 <= i < j < rest.len() implies (#[trigger] rest[i]).0 != (
        #[trigger] rest[j]).0 by {
            assert(rest[i] == pins[i + 1] && rest[j] == pins[j + 1]);
        }
    }
    let left = pinned_constants(g.input, pins).drop_first();
    let right = pinned_constants(g.input.remove(at), rest);
    assert forall|i: int| 0 <= i < rest.len() implies #[trigger] left[i] == right[i] by {
        assert(rest[i] == pins[i + 1]);
        assert(pins[0].0 != pins[i + 1].0);
        lemma_found_after_remove(g.input, at, pins[i + 1].0);
        lemma_pins_found(o.graph, rest, i);
    }
    assert(left =~= right);
}

/// Pinning moves inputs to the initializers: every pinned input is gone, the
/// others stay in order, a constant of the declared type and shape follows the
/// initializers for each pinned name, and nothing else changes.
pub proof fn law_pinned_inputs_become_initializers(g: GraphV, pins: Seq<(Seq<char>, i64)>)
    requires
        distinct_names(g.input),
        pin_all(g, pins).error is None,
    ensures
        ({
            let r = pin_all(g, pins).graph;
            &&& r.input == g.input.filter(|v: ValueInfoV| !is_pinned(pins, v.name))
            &&& r.initializer == g.initializer + pinned_constants(g.input, pins)
            &&& r.node == g.node
            &&& r.output == g.output
            &&& r.value_info == g.value_info
            &&& r.name == g.name
        }),
    decreases pins.len(),
{
    let added = pinned_constants(g.input, pins);
    if pins.len() == 0 {
        let keep = |v: ValueInfoV| !is_pinned(pins, v.name);
        lemma_filter_same(g.input, keep, |v: ValueInfoV| true);
        lemma_filter_all(g.input);
        assert(g.initializer + added =~= g.initializer);
    } else {
        let rest = pins.drop_first();
        let o = pin_one(g, pins[0].0, pins[0].1);
        let at = info_pos(g.input, pins[0].0);
        lemma_info_pos_range(g.input, pins[0].0);
        assert(o.graph.input == g.input.remove(at));
        lemma_rest_distinct(g.input, at);
        law_pinned_inputs_become_initializers(o.graph, rest);
        lemma_kept_inputs(g.input, at, pins);
        lemma_pins_distinct(g, pins);
        lemma_added_constants(g, pins);
        assert(o.graph.initializer == g.initializer.push(added[0]));
        assert(g.initializer + added =~= g.initializer.push(added[0]) + added.drop_first());
    }
}

proof fn lemma_filter_all(v: Seq<ValueInfoV>)
    ensures
        v.filter(|x: ValueInfoV| true) == v,
    decreases v.len(),
{
    reveal(Seq::filter);
    if v.len() > 0 {
        lemma_filter_all(v.drop_last());
        assert(v.drop_last().push(v.last()) =~= v);
    }
}

/// Where pinning succeeds, every name is found.
proof fn lemma_pins_found(g: GraphV, pins: Seq<(Seq<char>, i64)>, i: int)
    requires
        pin_all(g, pins).error is None,
        names::distinct_keys(pins),
        0 <= i < pins.len(),
    ensures
        info_pos(g.input, pins[i].0) < g.input.len(),
    decreases pins.len(),
{
    let rest = pins.drop_first();
    if i > 0 {
        let o = pin_one(g, pins[0].0, pins[0].1);
        let at = info_pos(g.input, pins[0].0);
        lemma_info_pos_range(g.input, pins[0].0);
        assert(names::distinct_keys(rest)) by {
            assert forall|a: int, b: int| 0 <= a < b < rest.len() implies (#[trigger] rest[a]).0 != (
            #[trigger] rest[b]).0 by {
                assert(rest[a] == pins[a + 1] && rest[b] == pins[b + 1]);
            }
        }
        lemma_pins_found(o.graph, rest, i - 1);
        assert(rest[i - 1] == pins[i]);
        assert(pins[0].0 != pins[i].0);
        lemma_found_after_remove(g.input, at, pins[i].0);
    }
}

/// Where pinning succeeds, no name is pinned twice: the second time, the input
/// would be gone.
proof fn lemma_pins_distinct(g: GraphV, pins: Seq<(Seq<char>, i64)>)
    requires
        distinct_names(g.input),
        pin_all(g, pins).error is None,
    ensures
        names::distinct_keys(pins),
    decreases pins.len(),
{
    if pins.len() > 0 {
        let rest = pins.drop_first();
        let o = pin_one(g, pins[0].0, pins[0].1);
        let at = info_pos(g.input, pins[0].0);
        lemma_info_pos_range(g.input, pins[0].0);
        let w = g.input.remove(at);
        assert(o.graph.input == w);
        lemma_rest_distinct(g.input, at);
        lemma_pins_distinct(o.graph, rest);
        assert forall|i: int, j: int| 0 <= i < j < pins.len() implies (#[trigger] pins[i]).0 != (
        #[trigger] pins[j]).0 by {
            assert(rest[j - 1] == pins[j]);
            if i > 0 {
                assert(rest[i - 1] == pins[i]);
            } else {
                lemma_pins_found(o.graph, rest, j - 1);
                let p = info_pos(w, pins[j].0);
                lemma_info_pos_range(w, pins[j].0);
                let q = if p < at {
                    p
                } else {
                    p + 1
                };
                assert(w[p] == g.input[q]);
                if q < at {
                    assert(g.input[q].name != g.input[at].name);
                } else {
                    assert(g.input[at].name != g.input[q].name);
                }
            }
        }
    }
}

/// An input can be pinned once only: whatever the sizes, pinning again can be
/// tried, fails because the first input is gone, and changes nothing.
pub proof fn law_pinning_again_fails(m: ModelV, pins: Seq<(Seq<char>, i64)>)
    requires
        m.graph matches Some(g) ==> distinct_names(g.input),
        pins.len() > 0,
        pinned_model(m, pins).error is None,
    ensures
        ({
            let r = pinned_model(m, pins).model;
            &&& model_pins_in_range(r, pins)
            &&& pinned_model(r, pins).error == Some(
                ErrorV::InvalidShape("pin-input: '"@ + pins[0].0 + "' is not a graph input"@),
            )
            &&& pinned_model(r, pins).model == r
        }),
{
    let g = m.graph->0;
    law_pinned_inputs_become_initializers(g, pins);
    let r = pin_all(g, pins).graph;
    let keep = |v: ValueInfoV| !is_pinned(pins, v.name);
    lemma_filter_members(g.input, keep);
    let at = info_pos(r.input, pins[0].0);
    lemma_info_pos_range(r.input, pins[0].0);
    if at < r.input.len() {
        assert(keep(r.input[at]));
        assert(pins[0].0 == r.input[at].name);
    }
}

proof fn lemma_filter_members(v: Seq<ValueInfoV>, f: spec_fn(ValueInfoV) -> bool)
    ensures
        forall|i: int| 0 <= i < v.filter(f).len() ==> f(#[trigger] v.filter(f)[i]),
    decreases v.len(),
{
    reveal(Seq::filter);
    if v.len() > 0 {
        lemma_filter_members(v.drop_last(), f);
    }
}

} // verus!
