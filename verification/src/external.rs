//! Tensors whose payload is kept in files beside the model.
use crate::arith;
use crate::error::{ErrorV, OnnxError};
use crate::protos;
use crate::protos::{
    AttributeProto, AttributeV, EntryV, GraphProto, GraphV, NodeProto, NodeV, TensorProto, TensorV,
};
use crate::text;
use vstd::prelude::*;

verus! {

// ---------------------------------------------------------------------------
// Sizes
// ---------------------------------------------------------------------------

/// The bytes of an element, where it has a whole number of them.
pub open spec fn element_width(code: i32) -> Option<int> {
    if code == protos::TYPE_FLOAT || code == protos::TYPE_INT32 || code == protos::TYPE_UINT32 {
        Some(4)
    } else if code == protos::TYPE_FLOAT16 || code == protos::TYPE_BFLOAT16 || code
        == protos::TYPE_INT16 || code == protos::TYPE_UINT16 {
        Some(2)
    } else if code == protos::TYPE_INT64 || code == protos::TYPE_UINT64 || code
        == protos::TYPE_DOUBLE {
        Some(8)
    } else if code == protos::TYPE_INT8 || code == protos::TYPE_UINT8 || code == protos::TYPE_BOOL {
        Some(1)
    } else {
        None
    }
}

/// The sizes are no less than zero, and they and the products of those in front
/// are within the range of sizes.
pub open spec fn countable(dims: Seq<i64>) -> bool {
    &&& forall|i: int| 0 <= i < dims.len() ==> 0 <= #[trigger] dims[i] <= usize::MAX
    &&& forall|n: int| 0 <= n <= dims.len() ==> #[trigger] arith::product(dims.take(n)) <= usize::MAX
}

/// The bytes of a tensor by its sizes and element type. Two 4-bit elements
/// share a byte.
pub open spec fn byte_len(t: TensorV) -> Option<int> {
    let total = arith::product(t.dims);
    if !countable(t.dims) {
        None
    } else if t.data_type == protos::TYPE_UINT4 || t.data_type == protos::TYPE_INT4 {
        Some((total + 1) / 2)
    } else {
        match element_width(t.data_type) {
            Some(w) => if total * w <= usize::MAX {
                Some(total * w)
            } else {
                None
            },
            None => None,
        }
    }
}

fn width_of(code: i32) -> (r: Option<usize>)
    ensures
        r matches Some(w) ==> element_width(code) == Some(w as int),
        r is None ==> element_width(code) is None,
{
    if code == protos::TYPE_FLOAT || code == protos::TYPE_INT32 || code == protos::TYPE_UINT32 {
        Some(4)
    } else if code == protos::TYPE_FLOAT16 || code == protos::TYPE_BFLOAT16 || code
        == protos::TYPE_INT16 || code == protos::TYPE_UINT16 {
        Some(2)
    } else if code == protos::TYPE_INT64 || code == protos::TYPE_UINT64 || code
        == protos::TYPE_DOUBLE {
        Some(8)
    } else if code == protos::TYPE_INT8 || code == protos::TYPE_UINT8 || code == protos::TYPE_BOOL {
        Some(1)
    } else {
        None
    }
}

/// The product of sizes.
fn count(dims: &Vec<i64>) -> (r: Option<usize>)
    ensures
        r matches Some(n) ==> countable(dims@) && n == arith::product(dims@),
        r is None ==> !countable(dims@),
{
    let mut n: usize = 1;
    let mut i: usize = 0;
    assert(dims@.take(0) =~= Seq::<i64>::empty());
    while i < dims.len()
        invariant
            i <= dims@.len(),
            n == arith::product(dims@.take(i as int)),
            forall|k: int| 0 <= k < i ==> 0 <= #[trigger] dims@[k] <= usize::MAX,
            forall|k: int|
                0 <= k <= i ==> #[trigger] arith::product(dims@.take(k)) <= usize::MAX,
        decreases dims@.len() - i,
    {
        assert(dims@.take(i + 1).drop_last() =~= dims@.take(i as int));
        let d: i64 = dims[i];
        if d < 0 || d as i128 > usize::MAX as i128 {
            return None;
        }
        n = match n.checked_mul(d as usize) {
            Some(p) => p,
            None => {
                assert(arith::product(dims@.take(i + 1)) > usize::MAX);
                return None;
            },
        };
        i = i + 1;
    }
    assert(dims@.take(i as int) =~= dims@);
    Some(n)
}

/// Byte size of a tensor from its dims and element type.
pub fn tensor_byte_len(tensor: &TensorProto) -> (r: Option<usize>)
    ensures
        r matches Some(n) ==> byte_len(tensor@) == Some(n as int),
        r is None ==> byte_len(tensor@) is None,
{
    let packed = tensor.data_type == protos::TYPE_UINT4 || tensor.data_type == protos::TYPE_INT4;
    let width: usize = match width_of(tensor.data_type) {
        Some(w) => w,
        None => if packed {
            0
        } else {
            return None;
        },
    };
    let total: usize = match count(&tensor.dims) {
        Some(n) => n,
        None => return None,
    };
    if packed {
        Some(total / 2 + total % 2)
    } else {
        total.checked_mul(width)
    }
}

// ---------------------------------------------------------------------------
// Zero fill
// ---------------------------------------------------------------------------

/// The value of the first entry with this key.
pub open spec fn entry_value(e: Seq<EntryV>, key: Seq<char>) -> Option<Seq<char>>
    decreases e.len(),
{
    if e.len() == 0 {
        None
    } else if e[0].key == key {
        Some(e[0].value)
    } else {
        entry_value(e.drop_first(), key)
    }
}

/// The length that a tensor declares, where it can be read.
pub open spec fn declared_length(t: TensorV) -> Option<int> {
    match entry_value(t.external_data, "length"@) {
        Some(v) => text::number_usize(v),
        None => None,
    }
}

/// The bytes of zeros that stand in for a payload: by sizes and element type,
/// or else a declared length.
pub open spec fn fill_len(t: TensorV, declared: Option<int>) -> Option<int> {
    match byte_len(t) {
        Some(n) => Some(n),
        None => declared,
    }
}

pub open spec fn unsized_error(name: Seq<char>) -> ErrorV {
    ErrorV::InvalidShape(
        "external tensor '"@ + name + "' has no length and an unknown element size"@,
    )
}

pub open spec fn zeros(n: int) -> Seq<u8> {
    Seq::new(n as nat, |i: int| 0u8)
}

/// A tensor that has its payload in place.
pub open spec fn supplied(t: TensorV, payload: Seq<u8>) -> TensorV {
    TensorV { raw_data: payload, data_location: 0, external_data: seq![], ..t }
}

/// How filling ends.
pub enum Stop {
    Done,
    Failed(ErrorV),
    /// A payload would not fit in memory.
    TooLarge,
}

pub struct Filled<T> {
    pub value: T,
    pub stop: Stop,
}

pub open spec fn fill_tensor(t: TensorV) -> Filled<TensorV> {
    if t.data_location != protos::LOCATION_EXTERNAL {
        Filled { value: t, stop: Stop::Done }
    } else {
        match fill_len(t, declared_length(t)) {
            None => Filled { value: t, stop: Stop::Failed(unsized_error(t.name)) },
            Some(n) => if n > isize::MAX {
                Filled { value: t, stop: Stop::TooLarge }
            } else {
                Filled { value: supplied(t, zeros(n)), stop: Stop::Done }
            },
        }
    }
}

/// Tensors filled in order, up to the first that cannot be.
pub open spec fn fill_tensors(v: Seq<TensorV>) -> Filled<Seq<TensorV>>
    decreases v,
{
    if v.len() == 0 {
        Filled { value: v, stop: Stop::Done }
    } else {
        let first = fill_tensor(v[0]);
        if first.stop is Done {
            let rest = fill_tensors(v.drop_first());
            Filled { value: seq![first.value] + rest.value, stop: rest.stop }
        } else {
            Filled { value: seq![first.value] + v.drop_first(), stop: first.stop }
        }
    }
}

/// The initializers of a graph are filled first, then those of the graphs
/// within its nodes.
pub open spec fn fill_graph(g: GraphV) -> Filled<GraphV>
    decreases g,
{
    let t = fill_tensors(g.initializer);
    if t.stop is Done {
        let n = fill_nodes(g.node);
        Filled { value: GraphV { initializer: t.value, node: n.value, ..g }, stop: n.stop }
    } else {
        Filled { value: GraphV { initializer: t.value, ..g }, stop: t.stop }
    }
}

pub open spec fn fill_nodes(v: Seq<NodeV>) -> Filled<Seq<NodeV>>
    decreases v,
{
    if v.len() == 0 {
        Filled { value: v, stop: Stop::Done }
    } else {
        let first = fill_node(v[0]);
        if first.stop is Done {
            let rest = fill_nodes(v.drop_first());
            Filled { value: seq![first.value] + rest.value, stop: rest.stop }
        } else {
            Filled { value: seq![first.value] + v.drop_first(), stop: first.stop }
        }
    }
}

pub open spec fn fill_node(n: NodeV) -> Filled<NodeV>
    decreases n,
{
    let a = fill_attributes(n.attribute);
    Filled { value: NodeV { attribute: a.value, ..n }, stop: a.stop }
}

pub open spec fn fill_attributes(v: Seq<AttributeV>) -> Filled<Seq<AttributeV>>
    decreases v,
{
    if v.len() == 0 {
        Filled { value: v, stop: Stop::Done }
    } else {
        let first = fill_attribute(v[0]);
        if first.stop is Done {
            let rest = fill_attributes(v.drop_first());
            Filled { value: seq![first.value] + rest.value, stop: rest.stop }
        } else {
            Filled { value: seq![first.value] + v.drop_first(), stop: first.stop }
        }
    }
}

pub open spec fn fill_attribute(a: AttributeV) -> Filled<AttributeV>
    decreases a,
{
    match a.g {
        None => {
            let s = fill_graphs(a.graphs);
            Filled { value: AttributeV { graphs: s.value, ..a }, stop: s.stop }
        },
        Some(g) => {
            let f = fill_graph(g);
            if f.stop is Done {
                let s = fill_graphs(a.graphs);
                Filled {
                    value: AttributeV { g: Some(f.value), graphs: s.value, ..a },
                    stop: s.stop,
                }
            } else {
                Filled { value: AttributeV { g: Some(f.value), ..a }, stop: f.stop }
            }
        },
    }
}

pub open spec fn fill_graphs(v: Seq<GraphV>) -> Filled<Seq<GraphV>>
    decreases v,
{
    if v.len() == 0 {
        Filled { value: v, stop: Stop::Done }
    } else {
        let first = fill_graph(v[0]);
        if first.stop is Done {
            let rest = fill_graphs(v.drop_first());
            Filled { value: seq![first.value] + rest.value, stop: rest.stop }
        } else {
            Filled { value: seq![first.value] + v.drop_first(), stop: first.stop }
        }
    }
}

fn find_entry<'a>(e: &'a Vec<protos::StringStringEntryProto>, key: &str) -> (r: Option<&'a String>)
    ensures
        r matches Some(v) ==> entry_value(protos::entries_v(e@), key@) == Some(v@),
        r is None ==> entry_value(protos::entries_v(e@), key@) is None,
{
    let ghost all = protos::entries_v(e@);
    let mut i: usize = 0;
    assert(all.skip(0) =~= all);
    while i < e.len()
        invariant
            i <= e@.len(),
            all == protos::entries_v(e@),
            entry_value(all, key@) == entry_value(all.skip(i as int), key@),
        decreases e@.len() - i,
    {
        assert(all.skip(i as int)[0] == e@[i as int]@);
        assert(all.skip(i as int).drop_first() =~= all.skip(i + 1));
        if text::str_eq(e[i].key.as_str(), key) {
            return Some(&e[i].value);
        }
        i = i + 1;
    }
    None
}

fn read_declared_length(t: &TensorProto) -> (r: Option<usize>)
    ensures
        r matches Some(n) ==> declared_length(t@) == Some(n as int),
        r is None ==> declared_length(t@) is None,
{
    match find_entry(&t.external_data, "length") {
        Some(v) => text::parse_usize(v.as_str()),
        None => None,
    }
}

fn unsized_failure(name: &String) -> (r: OnnxError)
    ensures
        r@ == unsized_error(name@),
{
    let mut m = String::from_str("external tensor '");
    m.append(name.as_str());
    m.append("' has no length and an unknown element size");
    OnnxError::InvalidShape(m)
}

fn zero_bytes(n: usize) -> (r: Vec<u8>)
    ensures
        r@ == zeros(n as int),
{
    let r = vec![0u8; n];
    assert(r@ =~= zeros(n as int));
    r
}

/// Puts a payload in place.
pub fn supply_payload(tensor: &mut TensorProto, payload: Vec<u8>)
    ensures
        final(tensor)@ == supplied(old(tensor)@, payload@),
{
    tensor.raw_data = payload;
    tensor.data_location = 0;
    tensor.external_data = Vec::new();
    assert(tensor@.external_data =~= Seq::<EntryV>::empty());
}

fn zero_fill_tensor(tensor: &mut TensorProto) -> (r: Result<(), OnnxError>)
    requires
        !(fill_tensor(old(tensor)@).stop is TooLarge),
    ensures
        final(tensor)@ == fill_tensor(old(tensor)@).value,
        r is Ok <==> fill_tensor(old(tensor)@).stop is Done,
        r matches Err(e) ==> fill_tensor(old(tensor)@).stop == Stop::Failed(e@),
{
    if tensor.data_location != protos::LOCATION_EXTERNAL {
        return Ok(());
    }
    let declared = read_declared_length(tensor);
    let len: usize = match tensor_byte_len(tensor) {
        Some(n) => n,
        None => match declared {
            Some(n) => n,
            None => return Err(unsized_failure(&tensor.name)),
        },
    };
    supply_payload(tensor, zero_bytes(len));
    Ok(())
}

/// Zero-fill every external tensor (graph and subgraphs) that lacks data, as in
/// a model that is kept without its weights.
pub fn zero_fill_external_tensors(graph: &mut GraphProto) -> (r: Result<(), OnnxError>)
    requires
        !(fill_graph(old(graph)@).stop is TooLarge),
    ensures
        final(graph)@ == fill_graph(old(graph)@).value,
        r is Ok <==> fill_graph(old(graph)@).stop is Done,
        r matches Err(e) ==> fill_graph(old(graph)@).stop == Stop::Failed(e@),
    decreases *old(graph),
{
    let ghost start = graph@;
    let ghost goal = fill_tensors(start.initializer);
    let n: usize = graph.initializer.len();
    let mut i: usize = 0;
    let ghost mut done: Seq<TensorV> = seq![];
    assert(start.initializer.skip(0) =~= start.initializer);
    assert(done + goal.value =~= goal.value);
    while i < n
        invariant
            i <= n,
            n == graph.initializer@.len(),
            n == start.initializer.len(),
            goal == fill_tensors(start.initializer),
            goal.stop == fill_tensors(start.initializer.skip(i as int)).stop,
            goal.value == done + fill_tensors(start.initializer.skip(i as int)).value,
            !(goal.stop is TooLarge),
            done.len() == i,
            protos::tensors_v(graph.initializer@) == done + start.initializer.skip(i as int),
            *graph == (GraphProto { initializer: graph.initializer, ..*old(graph) }),
            start == old(graph)@,
        decreases n - i,
    {
        let ghost rest = start.initializer.skip(i as int);
        let ghost list = graph.initializer@;
        assert(rest.drop_first() =~= start.initializer.skip(i + 1));
        assert(protos::tensors_v(list)[i as int] == rest[0]);
        let r = zero_fill_tensor(&mut graph.initializer[i]);
        proof {
            let first = fill_tensor(rest[0]).value;
            let now = graph.initializer@;
            let want = done + (seq![first] + rest.drop_first());
            assert(now =~= list.update(i as int, now[i as int]));
            assert forall|k: int| 0 <= k < n implies #[trigger] protos::tensors_v(now)[k] == want[k] by {
                assert(protos::tensors_v(list)[k] == (done + rest)[k]);
            }
            assert(protos::tensors_v(graph.initializer@) =~= done + (seq![first]
                + rest.drop_first()));
            assert(done + (seq![first] + rest.drop_first()) =~= done.push(first)
                + rest.drop_first());
            assert(done + (seq![first] + fill_tensors(rest.drop_first()).value) =~= done.push(first)
                + fill_tensors(rest.drop_first()).value);
            done = done.push(first);
        }
        if let Err(e) = r {
            return Err(e);
        }
        i = i + 1;
    }
    assert(graph@.initializer =~= goal.value);
    zero_fill_nodes(graph)
}

fn zero_fill_nodes(graph: &mut GraphProto) -> (r: Result<(), OnnxError>)
    requires
        !(fill_nodes(old(graph)@.node).stop is TooLarge),
    ensures
        final(graph)@ == (GraphV { node: fill_nodes(old(graph)@.node).value, ..old(graph)@ }),
        r is Ok <==> fill_nodes(old(graph)@.node).stop is Done,
        r matches Err(e) ==> fill_nodes(old(graph)@.node).stop == Stop::Failed(e@),
    decreases old(graph).node,
{
    let ghost start = graph@;
    let ghost items = graph.node@;
    let ghost goal = fill_nodes(start.node);
    let n: usize = graph.node.len();
    let mut i: usize = 0;
    let ghost mut done: Seq<NodeV> = seq![];
    assert(start.node.skip(0) =~= start.node);
    assert(done + goal.value =~= goal.value);
    assert(protos::nodes_v(items) =~= start.node);
    while i < n
        invariant
            i <= n,
            n == graph.node@.len(),
            n == items.len(),
            items == old(graph).node@,
            start.node == protos::nodes_v(items),
            goal == fill_nodes(start.node),
            goal.stop == fill_nodes(start.node.skip(i as int)).stop,
            goal.value == done + fill_nodes(start.node.skip(i as int)).value,
            !(goal.stop is TooLarge),
            done.len() == i,
            forall|k: int| i <= k < n ==> #[trigger] graph.node@[k] == items[k],
            protos::nodes_v(graph.node@) == done + start.node.skip(i as int),
            *graph == (GraphProto { node: graph.node, ..*old(graph) }),
            start == old(graph)@,
        decreases n - i,
    {
        let ghost rest = start.node.skip(i as int);
        assert(rest.drop_first() =~= start.node.skip(i + 1));
        let ghost list = graph.node@;
        assert(graph.node@[i as int]@ == rest[0]);
        let r = zero_fill_node(&mut graph.node[i]);
        proof {
            let first = fill_node(rest[0]).value;
            let now = graph.node@;
            let want = done + (seq![first] + rest.drop_first());
            assert(now =~= list.update(i as int, now[i as int]));
            assert forall|k: int| 0 <= k < n implies #[trigger] protos::nodes_v(now)[k] == want[k] by {
                assert(protos::nodes_v(list)[k] == (done + rest)[k]);
            }
            assert(protos::nodes_v(graph.node@) =~= done + (seq![first] + rest.drop_first()));
            assert(done + (seq![first] + rest.drop_first()) =~= done.push(first)
                + rest.drop_first());
            assert(done + (seq![first] + fill_nodes(rest.drop_first()).value) =~= done.push(first)
                + fill_nodes(rest.drop_first()).value);
            done = done.push(first);
        }
        if let Err(e) = r {
            assert(graph@.node =~= protos::nodes_v(graph.node@));
            return Err(e);
        }
        i = i + 1;
    }
    assert(graph@.node =~= goal.value);
    Ok(())
}

fn zero_fill_node(node: &mut NodeProto) -> (r: Result<(), OnnxError>)
    requires
        !(fill_node(old(node)@).stop is TooLarge),
    ensures
        final(node)@ == fill_node(old(node)@).value,
        r is Ok <==> fill_node(old(node)@).stop is Done,
        r matches Err(e) ==> fill_node(old(node)@).stop == Stop::Failed(e@),
    decreases *old(node),
{
    let ghost start = node@;
    let ghost items = node.attribute@;
    let ghost goal = fill_attributes(start.attribute);
    let n: usize = node.attribute.len();
    let mut i: usize = 0;
    let ghost mut done: Seq<AttributeV> = seq![];
    assert(start.attribute.skip(0) =~= start.attribute);
    assert(done + goal.value =~= goal.value);
    assert(attributes_v(items) =~= start.attribute);
    while i < n
        invariant
            i <= n,
            n == node.attribute@.len(),
            n == items.len(),
            items == old(node).attribute@,
            start.attribute == attributes_v(items),
            goal == fill_attributes(start.attribute),
            goal.stop == fill_attributes(start.attribute.skip(i as int)).stop,
            goal.value == done + fill_attributes(start.attribute.skip(i as int)).value,
            !(goal.stop is TooLarge),
            done.len() == i,
            forall|k: int| i <= k < n ==> #[trigger] node.attribute@[k] == items[k],
            attributes_v(node.attribute@) == done + start.attribute.skip(i as int),
            *node == (NodeProto { attribute: node.attribute, ..*old(node) }),
            start == old(node)@,
        decreases n - i,
    {
        let ghost rest = start.attribute.skip(i as int);
        assert(rest.drop_first() =~= start.attribute.skip(i + 1));
        let ghost list = node.attribute@;
        assert(node.attribute@[i as int]@ == rest[0]);
        let r = zero_fill_attribute(&mut node.attribute[i]);
        proof {
            let first = fill_attribute(rest[0]).value;
            let now = node.attribute@;
            let want = done + (seq![first] + rest.drop_first());
            assert(now =~= list.update(i as int, now[i as int]));
            assert forall|k: int| 0 <= k < n implies #[trigger] attributes_v(now)[k] == want[k] by {
                assert(attributes_v(list)[k] == (done + rest)[k]);
            }
            assert(attributes_v(node.attribute@) =~= done + (seq![first] + rest.drop_first()));
            assert(done + (seq![first] + rest.drop_first()) =~= done.push(first)
                + rest.drop_first());
            assert(done + (seq![first] + fill_attributes(rest.drop_first()).value) =~= done.push(
                first,
            ) + fill_attributes(rest.drop_first()).value);
            done = done.push(first);
        }
        if let Err(e) = r {
            assert(node@.attribute =~= attributes_v(node.attribute@));
            return Err(e);
        }
        i = i + 1;
    }
    assert(node@.attribute =~= goal.value);
    Ok(())
}

/// One more graph of a list has been filled.
proof fn lemma_graph_filled(
    list: Seq<GraphProto>,
    filled: GraphProto,
    i: int,
    done: Seq<GraphV>,
    rest: Seq<GraphV>,
)
    requires
        0 <= i < list.len(),
        done.len() == i,
        graphs_v(list) == done + rest,
        protos::graph_v(filled) == fill_graph(rest[0]).value,
    ensures
        graphs_v(list.update(i, filled)) == done.push(protos::graph_v(filled)) + rest.drop_first(),
        done + (seq![protos::graph_v(filled)] + fill_graphs(rest.drop_first()).value)
            == done.push(protos::graph_v(filled)) + fill_graphs(rest.drop_first()).value,
        done + (seq![protos::graph_v(filled)] + rest.drop_first()) == done.push(
            protos::graph_v(filled),
        ) + rest.drop_first(),
{
    let now = list.update(i, filled);
    let want = done.push(protos::graph_v(filled)) + rest.drop_first();
    assert(graphs_v(list).len() == done.len() + rest.len());
    assert forall|k: int| 0 <= k < now.len() implies #[trigger] graphs_v(now)[k] == want[k] by {
        assert(graphs_v(list)[k] == (done + rest)[k]);
    }
    assert(graphs_v(now) =~= want);
    assert(done + (seq![protos::graph_v(filled)] + rest.drop_first()) =~= want);
    assert(done + (seq![protos::graph_v(filled)] + fill_graphs(rest.drop_first()).value)
        =~= done.push(protos::graph_v(filled)) + fill_graphs(rest.drop_first()).value);
}

fn zero_fill_attribute(a: &mut AttributeProto) -> (r: Result<(), OnnxError>)
    requires
        !(fill_attribute(old(a)@).stop is TooLarge),
    ensures
        final(a)@ == fill_attribute(old(a)@).value,
        r is Ok <==> fill_attribute(old(a)@).stop is Done,
        r matches Err(e) ==> fill_attribute(old(a)@).stop == Stop::Failed(e@),
    decreases *old(a),
{
    let ghost start = a@;
    let sub = a.g.take();
    if let Some(g) = sub {
        let mut inner: GraphProto = g;
        let r = zero_fill_external_tensors(&mut inner);
        a.g = Some(inner);
        if let Err(e) = r {
            assert(a@ == fill_attribute(start).value);
            return Err(e);
        }
    }
    let ghost mid = a@;
    let ghost items = a.graphs@;
    let ghost goal = fill_graphs(start.graphs);
    let n: usize = a.graphs.len();
    let mut i: usize = 0;
    let ghost mut done: Seq<GraphV> = seq![];
    assert(start.graphs.skip(0) =~= start.graphs);
    assert(done + goal.value =~= goal.value);
    assert(graphs_v(items) =~= start.graphs);
    let ghost middle = *a;
    while i < n
        invariant
            i <= n,
            n == a.graphs@.len(),
            n == items.len(),
            items == old(a).graphs@,
            start.graphs == graphs_v(items),
            goal == fill_graphs(start.graphs),
            goal.stop == fill_graphs(start.graphs.skip(i as int)).stop,
            goal.value == done + fill_graphs(start.graphs.skip(i as int)).value,
            !(goal.stop is TooLarge),
            done.len() == i,
            forall|k: int| i <= k < n ==> #[trigger] a.graphs@[k] == items[k],
            graphs_v(a.graphs@) == done + start.graphs.skip(i as int),
            *a == (AttributeProto { graphs: a.graphs, ..middle }),
            mid == middle@,
            start == old(a)@,
            fill_attribute(start) == (Filled {
                value: AttributeV { graphs: goal.value, ..mid },
                stop: goal.stop,
            }),
        decreases n - i,
    {
        let ghost rest = start.graphs.skip(i as int);
        assert(rest.drop_first() =~= start.graphs.skip(i + 1));
        let ghost list = a.graphs@;
        assert(a.graphs@[i as int]@ == rest[0]);
        let r = zero_fill_external_tensors(&mut a.graphs[i]);
        proof {
            let first = fill_graph(rest[0]).value;
            assert(a.graphs@ =~= list.update(i as int, a.graphs@[i as int]));
            lemma_graph_filled(list, a.graphs@[i as int], i as int, done, rest);
            done = done.push(first);
        }
        if let Err(e) = r {
            assert(a@.graphs =~= graphs_v(a.graphs@));
            return Err(e);
        }
        i = i + 1;
    }
    assert(a@.graphs =~= goal.value);
    Ok(())
}

spec fn attributes_v(v: Seq<AttributeProto>) -> Seq<AttributeV> {
    Seq::new(v.len(), |i: int| protos::attribute_v(v[i]))
}

spec fn graphs_v(v: Seq<GraphProto>) -> Seq<GraphV> {
    Seq::new(v.len(), |i: int| protos::graph_v(v[i]))
}

/// How filling a graph would end.
#[derive(Debug, Clone, Copy, PartialEq, Eq, Structural)]
pub enum FillStep {
    Done,
    Failed,
    TooLarge,
}

pub open spec fn step_of(stop: Stop) -> FillStep {
    match stop {
        Stop::Done => FillStep::Done,
        Stop::Failed(_) => FillStep::Failed,
        Stop::TooLarge => FillStep::TooLarge,
    }
}

fn tensor_step(t: &TensorProto) -> (r: FillStep)
    ensures
        r == step_of(fill_tensor(t@).stop),
{
    if t.data_location != protos::LOCATION_EXTERNAL {
        return FillStep::Done;
    }
    let len: usize = match tensor_byte_len(t) {
        Some(n) => n,
        None => match read_declared_length(t) {
            Some(n) => n,
            None => return FillStep::Failed,
        },
    };
    if len > isize::MAX as usize {
        FillStep::TooLarge
    } else {
        FillStep::Done
    }
}

/// How [`zero_fill_external_tensors`] would end on a graph; it can be called
/// where this is not [`FillStep::TooLarge`].
pub fn zero_fill_step(graph: &GraphProto) -> (r: FillStep)
    ensures
        r == step_of(fill_graph(graph@).stop),
    decreases graph,
{
    let ghost tensors = graph@.initializer;
    let mut i: usize = 0;
    assert(tensors.skip(0) =~= tensors);
    while i < graph.initializer.len()
        invariant
            i <= graph.initializer@.len(),
            tensors == protos::tensors_v(graph.initializer@),
            fill_tensors(tensors).stop == fill_tensors(tensors.skip(i as int)).stop,
        decreases graph.initializer@.len() - i,
    {
        assert(tensors.skip(i as int)[0] == graph.initializer@[i as int]@);
        assert(tensors.skip(i as int).drop_first() =~= tensors.skip(i + 1));
        let step = tensor_step(&graph.initializer[i]);
        if step != FillStep::Done {
            assert(fill_tensors(tensors).stop == fill_tensor(tensors[i as int]).stop);
            return step;
        }
        i = i + 1;
    }
    let ghost nodes = graph@.node;
    let mut i: usize = 0;
    assert(nodes.skip(0) =~= nodes);
    assert(fill_tensors(tensors).stop is Done);
    while i < graph.node.len()
        invariant
            i <= graph.node@.len(),
            nodes == graph@.node,
            tensors == graph@.initializer,
            fill_tensors(tensors).stop is Done,
            fill_nodes(nodes).stop == fill_nodes(nodes.skip(i as int)).stop,
        decreases graph.node@.len() - i,
    {
        assert(nodes.skip(i as int)[0] == graph.node@[i as int]@);
        assert(nodes.skip(i as int).drop_first() =~= nodes.skip(i + 1));
        let step = node_step(&graph.node[i]);
        if step != FillStep::Done {
            assert(fill_nodes(nodes).stop == fill_node(nodes[i as int]).stop);
            return step;
        }
        i = i + 1;
    }
    FillStep::Done
}

fn node_step(node: &NodeProto) -> (r: FillStep)
    ensures
        r == step_of(fill_node(node@).stop),
    decreases node,
{
    let ghost attributes = node@.attribute;
    let mut i: usize = 0;
    assert(attributes.skip(0) =~= attributes);
    while i < node.attribute.len()
        invariant
            i <= node.attribute@.len(),
            attributes == node@.attribute,
            fill_attributes(attributes).stop == fill_attributes(attributes.skip(i as int)).stop,
        decreases node.attribute@.len() - i,
    {
        assert(attributes.skip(i as int)[0] == node.attribute@[i as int]@);
        assert(attributes.skip(i as int).drop_first() =~= attributes.skip(i + 1));
        let step = attribute_step(&node.attribute[i]);
        if step != FillStep::Done {
            assert(fill_attributes(attributes).stop == fill_attribute(attributes[i as int]).stop);
            return step;
        }
        i = i + 1;
    }
    FillStep::Done
}

fn attribute_step(a: &AttributeProto) -> (r: FillStep)
    ensures
        r == step_of(fill_attribute(a@).stop),
    decreases a,
{
    if let Some(g) = &a.g {
        let step = zero_fill_step(g);
        if step != FillStep::Done {
            return step;
        }
    }
    let ghost graphs = a@.graphs;
    let mut i: usize = 0;
    assert(graphs.skip(0) =~= graphs);
    while i < a.graphs.len()
        invariant
            i <= a.graphs@.len(),
            graphs == a@.graphs,
            a@.g matches Some(g) ==> fill_graph(g).stop is Done,
            fill_graphs(graphs).stop == fill_graphs(graphs.skip(i as int)).stop,
        decreases a.graphs@.len() - i,
    {
        assert(graphs.skip(i as int)[0] == a.graphs@[i as int]@);
        assert(graphs.skip(i as int).drop_first() =~= graphs.skip(i + 1));
        let step = zero_fill_step(&a.graphs[i]);
        if step != FillStep::Done {
            assert(fill_graphs(graphs).stop == fill_graph(graphs[i as int]).stop);
            return step;
        }
        i = i + 1;
    }
    FillStep::Done
}

// ---------------------------------------------------------------------------
// Stripping
// ---------------------------------------------------------------------------

/// A tensor without its payload: the name, sizes and type are left.
pub open spec fn stripped_tensor(t: TensorV) -> TensorV {
    TensorV {
        raw_data: seq![],
        float_data: seq![],
        int32_data: seq![],
        int64_data: seq![],
        double_data: seq![],
        uint64_data: seq![],
        string_data: seq![],
        ..t
    }
}

/// A graph whose initializers have no payload, down to the graphs within.
pub open spec fn stripped_graph(g: GraphV) -> GraphV
    decreases g,
{
    GraphV {
        initializer: Seq::new(g.initializer.len(), |i: int| stripped_tensor(g.initializer[i])),
        node: Seq::new(
            g.node.len(),
            |i: int|
                if 0 <= i < g.node.len() {
                    stripped_node(g.node[i])
                } else {
                    arbitrary()
                },
        ),
        ..g
    }
}

pub open spec fn stripped_node(n: NodeV) -> NodeV
    decreases n,
{
    NodeV {
        attribute: Seq::new(
            n.attribute.len(),
            |i: int|
                if 0 <= i < n.attribute.len() {
                    stripped_attribute(n.attribute[i])
                } else {
                    arbitrary()
                },
        ),
        ..n
    }
}

pub open spec fn stripped_attribute(a: AttributeV) -> AttributeV
    decreases a,
{
    AttributeV {
        g: match a.g {
            Some(g) => Some(stripped_graph(g)),
            None => None,
        },
        graphs: Seq::new(
            a.graphs.len(),
            |i: int|
                if 0 <= i < a.graphs.len() {
                    stripped_graph(a.graphs[i])
                } else {
                    arbitrary()
                },
        ),
        ..a
    }
}

fn strip_tensor(t: &mut TensorProto)
    ensures
        final(t)@ == stripped_tensor(old(t)@),
{
    t.raw_data = Vec::new();
    t.float_data = Vec::new();
    t.int32_data = Vec::new();
    t.int64_data = Vec::new();
    t.double_data = Vec::new();
    t.uint64_data = Vec::new();
    t.string_data = Vec::new();
    assert(t@.string_data =~= Seq::<Seq<u8>>::empty());
}

/// Drop every initializer payload (graph and subgraphs), keeping names, dims
/// and types, once all constants have been copied into the WebNN graph.
pub fn strip_initializer_payloads(graph: &mut GraphProto)
    ensures
        final(graph)@ == stripped_graph(old(graph)@),
    decreases *old(graph),
{
    let ghost start = *graph;
    let n: usize = graph.initializer.len();
    let mut i: usize = 0;
    while i < n
        invariant
            i <= n,
            n == graph.initializer@.len(),
            n == start.initializer@.len(),
            forall|k: int|
                0 <= k < i ==> (#[trigger] graph.initializer@[k])@ == stripped_tensor(
                    start.initializer@[k]@,
                ),
            forall|k: int| i <= k < n ==> #[trigger] graph.initializer@[k] == start.initializer@[k],
            *graph == (GraphProto { initializer: graph.initializer, ..start }),
        decreases n - i,
    {
        let ghost list = graph.initializer@;
        strip_tensor(&mut graph.initializer[i]);
        assert(graph.initializer@ =~= list.update(i as int, graph.initializer@[i as int]));
        i = i + 1;
    }
    assert(graph@.initializer =~= stripped_graph(start@).initializer);
    let m: usize = graph.node.len();
    let ghost middle = *graph;
    let mut i: usize = 0;
    while i < m
        invariant
            i <= m,
            m == graph.node@.len(),
            m == start.node@.len(),
            start == *old(graph),
            middle.node == start.node,
            forall|k: int|
                0 <= k < i ==> (#[trigger] graph.node@[k])@ == stripped_node(start.node@[k]@),
            forall|k: int| i <= k < m ==> #[trigger] graph.node@[k] == start.node@[k],
            *graph == (GraphProto { node: graph.node, ..middle }),
        decreases m - i,
    {
        let ghost list = graph.node@;
        strip_node(&mut graph.node[i]);
        assert(graph.node@ =~= list.update(i as int, graph.node@[i as int]));
        i = i + 1;
    }
    assert(graph@.node =~= stripped_graph(start@).node);
}

fn strip_node(node: &mut NodeProto)
    ensures
        final(node)@ == stripped_node(old(node)@),
    decreases *old(node),
{
    let ghost start = *node;
    let n: usize = node.attribute.len();
    let mut i: usize = 0;
    while i < n
        invariant
            i <= n,
            n == node.attribute@.len(),
            n == start.attribute@.len(),
            start == *old(node),
            forall|k: int|
                0 <= k < i ==> (#[trigger] node.attribute@[k])@ == stripped_attribute(
                    start.attribute@[k]@,
                ),
            forall|k: int| i <= k < n ==> #[trigger] node.attribute@[k] == start.attribute@[k],
            *node == (NodeProto { attribute: node.attribute, ..start }),
        decreases n - i,
    {
        let ghost list = node.attribute@;
        strip_attribute(&mut node.attribute[i]);
        assert(node.attribute@ =~= list.update(i as int, node.attribute@[i as int]));
        i = i + 1;
    }
    assert(node@.attribute =~= stripped_node(start@).attribute);
}

fn strip_attribute(a: &mut AttributeProto)
    ensures
        final(a)@ == stripped_attribute(old(a)@),
    decreases *old(a),
{
    let ghost start = *a;
    let sub = a.g.take();
    if let Some(g) = sub {
        let mut inner: GraphProto = g;
        strip_initializer_payloads(&mut inner);
        a.g = Some(inner);
    }
    let ghost middle = *a;
    let n: usize = a.graphs.len();
    let mut i: usize = 0;
    while i < n
        invariant
            i <= n,
            n == a.graphs@.len(),
            n == start.graphs@.len(),
            start == *old(a),
            middle.graphs == start.graphs,
            forall|k: int|
                0 <= k < i ==> (#[trigger] a.graphs@[k])@ == stripped_graph(start.graphs@[k]@),
            forall|k: int| i <= k < n ==> #[trigger] a.graphs@[k] == start.graphs@[k],
            *a == (AttributeProto { graphs: a.graphs, ..middle }),
        decreases n - i,
    {
        let ghost list = a.graphs@;
        strip_initializer_payloads(&mut a.graphs[i]);
        assert(a.graphs@ =~= list.update(i as int, a.graphs@[i as int]));
        i = i + 1;
    }
    assert(a@.graphs =~= stripped_attribute(start@).graphs);
}

// ---------------------------------------------------------------------------
// Loading
// ---------------------------------------------------------------------------

/// Where the payload of an external tensor is kept.
#[derive(Debug, PartialEq, Eq)]
pub struct ExternalRef {
    pub location: String,
    pub offset: usize,
    pub length: Option<usize>,
}

pub struct RefV {
    pub location: Seq<char>,
    pub offset: int,
    pub length: Option<int>,
}

pub open spec fn size_opt(n: Option<usize>) -> Option<int> {
    match n {
        Some(v) => Some(v as int),
        None => None,
    }
}

impl View for ExternalRef {
    type V = RefV;

    open spec fn view(&self) -> RefV {
        RefV {
            location: self.location@,
            offset: self.offset as int,
            length: size_opt(self.length),
        }
    }
}

/// What the entries up to a point say.
pub struct ScanV {
    pub location: Option<Seq<char>>,
    pub offset: int,
    pub length: Option<int>,
}

pub open spec fn bad_entry(what: Seq<char>, value: Seq<char>, name: Seq<char>) -> ErrorV {
    ErrorV::InvalidShape(
        "invalid external data "@ + what + " '"@ + value + "' for tensor '"@ + name + "'"@,
    )
}

/// The entries read in order; the last one of a key counts, and the first
/// number that cannot be read ends it.
pub open spec fn scan(e: Seq<EntryV>, name: Seq<char>, s: ScanV) -> Result<ScanV, ErrorV>
    decreases e.len(),
{
    if e.len() == 0 {
        Ok(s)
    } else {
        let rest = e.drop_first();
        let value = e[0].value;
        if e[0].key == "location"@ {
            scan(rest, name, ScanV { location: Some(value), ..s })
        } else if e[0].key == "offset"@ {
            match text::number_usize(text::trimmed(value)) {
                Some(n) => scan(rest, name, ScanV { offset: n, ..s }),
                None => Err(bad_entry("offset"@, value, name)),
            }
        } else if e[0].key == "length"@ {
            match text::number_usize(text::trimmed(value)) {
                Some(n) => scan(rest, name, ScanV { length: Some(n), ..s }),
                None => Err(bad_entry("length"@, value, name)),
            }
        } else {
            scan(rest, name, s)
        }
    }
}

/// Where an external tensor says its payload is.
pub open spec fn reference_of(t: TensorV) -> Result<RefV, ErrorV> {
    match scan(t.external_data, t.name, ScanV { location: None, offset: 0, length: None }) {
        Err(e) => Err(e),
        Ok(s) => match s.location {
            None => Err(
                ErrorV::InvalidShape("external tensor '"@ + t.name + "' has no data location"@),
            ),
            Some(location) => Ok(RefV { location, offset: s.offset, length: s.length }),
        },
    }
}

fn bad_number(what: &str, value: &String, name: &String) -> (r: OnnxError)
    ensures
        r@ == bad_entry(what@, value@, name@),
{
    let mut m = String::from_str("invalid external data ");
    m.append(what);
    m.append(" '");
    m.append(value.as_str());
    m.append("' for tensor '");
    m.append(name.as_str());
    m.append("'");
    OnnxError::InvalidShape(m)
}

/// Where an external tensor says its payload is.
pub fn external_reference(tensor: &TensorProto) -> (r: Result<ExternalRef, OnnxError>)
    ensures
        crate::error::failed(r, |x: ExternalRef| x@) == reference_of(tensor@),
{
    let mut location: Option<String> = None;
    let mut offset: usize = 0;
    let mut length: Option<usize> = None;
    let ghost all = tensor@.external_data;
    let mut i: usize = 0;
    assert(all.skip(0) =~= all);
    while i < tensor.external_data.len()
        invariant
            i <= tensor.external_data@.len(),
            all == protos::entries_v(tensor.external_data@),
            scan(all, tensor.name@, (ScanV { location: None, offset: 0, length: None })) == scan(
                all.skip(i as int),
                tensor.name@,
                (ScanV {
                    location: match location {
                        Some(l) => Some(l@),
                        None => None,
                    },
                    offset: offset as int,
                    length: size_opt(length),
                }),
            ),
        decreases tensor.external_data@.len() - i,
    {
        let entry = &tensor.external_data[i];
        assert(all.skip(i as int)[0] == entry@);
        assert(all.skip(i as int).drop_first() =~= all.skip(i + 1));
        proof {
            reveal_strlit("location");
            reveal_strlit("offset");
            reveal_strlit("length");
            assert("location"@.len() != "offset"@.len());
            assert("offset"@[0] != "length"@[0]);
            assert("location"@.len() != "length"@.len());
        }
        if text::str_eq(entry.key.as_str(), "location") {
            location = Some(entry.value.clone());
        } else if text::str_eq(entry.key.as_str(), "offset") {
            let digits = text::trim(entry.value.as_str());
            offset = match text::parse_usize(digits.as_str()) {
                Some(n) => n,
                None => return Err(bad_number("offset", &entry.value, &tensor.name)),
            };
        } else if text::str_eq(entry.key.as_str(), "length") {
            let digits = text::trim(entry.value.as_str());
            length = match text::parse_usize(digits.as_str()) {
                Some(n) => Some(n),
                None => return Err(bad_number("length", &entry.value, &tensor.name)),
            };
        }
        i = i + 1;
    }
    match location {
        Some(location) => Ok(ExternalRef { location, offset, length }),
        None => {
            let mut m = String::from_str("external tensor '");
            m.append(tensor.name.as_str());
            m.append("' has no data location");
            Err(OnnxError::InvalidShape(m))
        },
    }
}

/// What is wrong with the location of a payload.
pub open spec fn location_error(t: TensorV, r: RefV, absolute: bool) -> Option<ErrorV> {
    if absolute || text::has_part(r.location, ".."@) {
        Some(
            ErrorV::InvalidShape(
                "external tensor '"@ + t.name + "' references a non-relative location '"@
                    + r.location + "'"@,
            ),
        )
    } else {
        None
    }
}

/// Rejects a location that is not a relative path inside the model directory,
/// before anything is looked for there.
pub fn check_location(tensor: &TensorProto, reference: &ExternalRef, absolute: bool) -> (r: Result<
    (),
    OnnxError,
>)
    ensures
        r is Ok <==> location_error(tensor@, reference@, absolute) is None,
        r matches Err(e) ==> location_error(tensor@, reference@, absolute) == Some(e@),
{
    if absolute || text::contains_part(reference.location.as_str(), "..") {
        let mut m = String::from_str("external tensor '");
        m.append(tensor.name.as_str());
        m.append("' references a non-relative location '");
        m.append(reference.location.as_str());
        m.append("'");
        return Err(OnnxError::InvalidShape(m));
    }
    Ok(())
}

/// What is done about a tensor whose file was looked for: a payload of zeros,
/// or none because the file is to be read.
pub open spec fn load_choice(
    t: TensorV,
    r: RefV,
    absolute: bool,
    missing: bool,
    zero_fill_missing: bool,
) -> Result<Option<int>, ErrorV> {
    match location_error(t, r, absolute) {
        Some(e) => Err(e),
        None => if zero_fill_missing && missing {
            match fill_len(t, r.length) {
                Some(n) => Ok(Some(n)),
                None => Err(unsized_error(t.name)),
            }
        } else {
            Ok(None)
        },
    }
}

/// Decides what to do about an external tensor once it is known whether its
/// location is an absolute path and whether the file is missing. The location
/// must be a relative path inside the model directory. A missing file is
/// replaced with zeros where that is allowed; dims and element size count
/// before a declared length. The result is the number of zeros, or nothing
/// where the file is to be read.
pub fn choose_load(
    tensor: &TensorProto,
    reference: &ExternalRef,
    absolute: bool,
    missing: bool,
    zero_fill_missing: bool,
) -> (r: Result<Option<usize>, OnnxError>)
    ensures
        crate::error::failed(r, |x: Option<usize>| size_opt(x)) == load_choice(
            tensor@,
            reference@,
            absolute,
            missing,
            zero_fill_missing,
        ),
{
    if let Err(e) = check_location(tensor, reference, absolute) {
        return Err(e);
    }
    if zero_fill_missing && missing {
        return match tensor_byte_len(tensor) {
            Some(n) => Ok(Some(n)),
            None => match reference.length {
                Some(n) => Ok(Some(n)),
                None => Err(unsized_failure(&tensor.name)),
            },
        };
    }
    Ok(None)
}

/// Gives a tensor a payload of zeros.
pub fn zero_fill(tensor: &mut TensorProto, len: usize)
    requires
        len <= isize::MAX,
    ensures
        final(tensor)@ == supplied(old(tensor)@, zeros(len as int)),
{
    supply_payload(tensor, zero_bytes(len));
}

/// What `{:?}` prints for an optional size.
pub open spec fn size_text(n: Option<int>) -> Seq<char> {
    match n {
        Some(v) => "Some("@ + text::decimal(v) + ")"@,
        None => "None"@,
    }
}

/// The part of a file that holds a payload.
pub open spec fn payload_range(r: RefV, name: Seq<char>, file_len: int) -> Result<
    (int, int),
    ErrorV,
> {
    let end = match r.length {
        Some(n) => r.offset + n,
        None => file_len,
    };
    if end > file_len {
        Err(
            ErrorV::InvalidShape(
                "external tensor '"@ + name + "' range "@ + text::decimal(r.offset) + "+"@
                    + size_text(r.length) + " exceeds '"@ + r.location + "' ("@ + text::decimal(
                    file_len,
                ) + " bytes)"@,
            ),
        )
    } else {
        Ok((r.offset, end))
    }
}

/// The part of a file that holds a payload: from the offset, for the length or
/// up to the end of the file. It must lie within the file.
pub fn read_range(reference: &ExternalRef, name: &String, file_len: usize) -> (r: Result<
    (usize, usize),
    OnnxError,
>)
    requires
        reference@.length is None ==> reference@.offset <= file_len,
    ensures
        crate::error::failed(r, |x: (usize, usize)| (x.0 as int, x.1 as int)) == payload_range(
            reference@,
            name@,
            file_len as int,
        ),
        r matches Ok(x) ==> x.0 <= x.1 <= file_len,
{
    let end: Option<usize> = match reference.length {
        Some(n) => reference.offset.checked_add(n),
        None => Some(file_len),
    };
    if let Some(end) = end {
        if end <= file_len {
            return Ok((reference.offset, end));
        }
    }
    let mut m = String::from_str("external tensor '");
    m.append(name.as_str());
    m.append("' range ");
    let d = text::decimal_usize(reference.offset);
    m.append(d.as_str());
    m.append("+");
    match reference.length {
        Some(n) => {
            let ghost before = m@;
            m.append("Some(");
            let d = text::decimal_usize(n);
            m.append(d.as_str());
            m.append(")");
            assert(m@ =~= before + size_text(reference@.length));
        },
        None => {
            m.append("None");
        },
    }
    m.append(" exceeds '");
    m.append(reference.location.as_str());
    m.append("' (");
    let d = text::decimal_usize(file_len);
    m.append(d.as_str());
    m.append(" bytes)");
    Err(OnnxError::InvalidShape(m))
}

/// The error for a file that could not be read.
pub fn read_failure(path: &str, name: &str, reason: &str) -> (r: OnnxError)
    ensures
        r@ == ErrorV::InvalidShape(
            "failed to read external data '"@ + path@ + "' for tensor '"@ + name@ + "': "@
                + reason@,
        ),
{
    let mut m = String::from_str("failed to read external data '");
    m.append(path);
    m.append("' for tensor '");
    m.append(name);
    m.append("': ");
    m.append(reason);
    OnnxError::InvalidShape(m)
}

/// The position of the first external tensor from `from` on.
pub fn next_external(graph: &GraphProto, from: usize) -> (r: Option<usize>)
    ensures
        r matches Some(i) ==> from <= i < graph@.initializer.len()
            && graph@.initializer[i as int].data_location == protos::LOCATION_EXTERNAL && (forall|
            k: int,
        |
            from <= k < i ==> (#[trigger] graph@.initializer[k]).data_location
                != protos::LOCATION_EXTERNAL),
        r is None ==> forall|k: int|
            from <= k < graph@.initializer.len() ==> (
            #[trigger] graph@.initializer[k]).data_location != protos::LOCATION_EXTERNAL,
{
    let mut i: usize = from;
    while i < graph.initializer.len()
        invariant
            from <= i,
            forall|k: int|
                from <= k < i ==> (#[trigger] graph@.initializer[k]).data_location
                    != protos::LOCATION_EXTERNAL,
        decreases graph.initializer@.len() - i,
    {
        if graph.initializer[i].data_location == protos::LOCATION_EXTERNAL {
            return Some(i);
        }
        i = i + 1;
    }
    None
}

// ---------------------------------------------------------------------------
// Laws
// ---------------------------------------------------------------------------

/// No initializer of a graph, nor of a graph within, is external.
pub open spec fn all_inline(g: GraphV) -> bool
    decreases g,
{
    &&& forall|i: int|
        0 <= i < g.initializer.len() ==> (#[trigger] g.initializer[i]).data_location
            != protos::LOCATION_EXTERNAL
    &&& forall|i: int| 0 <= i < g.node.len() ==> node_inline(#[trigger] g.node[i])
}

pub open spec fn node_inline(n: NodeV) -> bool
    decreases n,
{
    forall|i: int| 0 <= i < n.attribute.len() ==> attribute_inline(#[trigger] n.attribute[i])
}

pub open spec fn attribute_inline(a: AttributeV) -> bool
    decreases a,
{
    &&& (a.g matches Some(g) ==> all_inline(g))
    &&& forall|i: int| 0 <= i < a.graphs.len() ==> all_inline(#[trigger] a.graphs[i])
}

proof fn lemma_tensors_inline(v: Seq<TensorV>)
    requires
        fill_tensors(v).stop is Done,
    ensures
        fill_tensors(v).value.len() == v.len(),
        forall|i: int|
            0 <= i < v.len() ==> (#[trigger] fill_tensors(v).value[i]).data_location
                != protos::LOCATION_EXTERNAL,
        forall|i: int|
            0 <= i < v.len() ==> #[trigger] fill_tensors(v).value[i] == fill_tensor(v[i]).value,
        fill_tensors(fill_tensors(v).value) == fill_tensors(v),
    decreases v,
{
    if v.len() > 0 {
        let rest = v.drop_first();
        lemma_tensors_inline(rest);
        let r = fill_tensors(v).value;
        assert(r.drop_first() =~= fill_tensors(rest).value);
        assert forall|i: int| 0 <= i < v.len() implies (#[trigger] r[i]).data_location
            != protos::LOCATION_EXTERNAL && r[i] == fill_tensor(v[i]).value by {
            if i > 0 {
                assert(r[i] == fill_tensors(rest).value[i - 1]);
            }
        }
    }
}

proof fn lemma_graph_inline(g: GraphV)
    requires
        fill_graph(g).stop is Done,
    ensures
        all_inline(fill_graph(g).value),
        fill_graph(fill_graph(g).value) == fill_graph(g),
    decreases g,
{
    lemma_tensors_inline(g.initializer);
    lemma_nodes_inline(g.node);
    let r = fill_graph(g).value;
    assert(r.initializer == fill_tensors(g.initializer).value);
    assert(r.node == fill_nodes(g.node).value);
}

proof fn lemma_nodes_inline(v: Seq<NodeV>)
    requires
        fill_nodes(v).stop is Done,
    ensures
        fill_nodes(v).value.len() == v.len(),
        forall|i: int| 0 <= i < v.len() ==> node_inline(#[trigger] fill_nodes(v).value[i]),
        fill_nodes(fill_nodes(v).value) == fill_nodes(v),
    decreases v,
{
    if v.len() > 0 {
        let rest = v.drop_first();
        lemma_node_inline(v[0]);
        lemma_nodes_inline(rest);
        let r = fill_nodes(v).value;
        assert(r.drop_first() =~= fill_nodes(rest).value);
        assert forall|i: int| 0 <= i < v.len() implies node_inline(#[trigger] r[i]) by {
            if i > 0 {
                assert(r[i] == fill_nodes(rest).value[i - 1]);
            }
        }
    }
}

proof fn lemma_node_inline(n: NodeV)
    requires
        fill_node(n).stop is Done,
    ensures
        node_inline(fill_node(n).value),
        fill_node(fill_node(n).value) == fill_node(n),
    decreases n,
{
    lemma_attributes_inline(n.attribute);
}

proof fn lemma_attributes_inline(v: Seq<AttributeV>)
    requires
        fill_attributes(v).stop is Done,
    ensures
        fill_attributes(v).value.len() == v.len(),
        forall|i: int| 0 <= i < v.len() ==> attribute_inline(#[trigger] fill_attributes(v).value[i]),
        fill_attributes(fill_attributes(v).value) == fill_attributes(v),
    decreases v,
{
    if v.len() > 0 {
        let rest = v.drop_first();
        lemma_attribute_inline(v[0]);
        lemma_attributes_inline(rest);
        let r = fill_attributes(v).value;
        assert(r.drop_first() =~= fill_attributes(rest).value);
        assert forall|i: int| 0 <= i < v.len() implies attribute_inline(#[trigger] r[i]) by {
            if i > 0 {
                assert(r[i] == fill_attributes(rest).value[i - 1]);
            }
        }
    }
}

proof fn lemma_attribute_inline(a: AttributeV)
    requires
        fill_attribute(a).stop is Done,
    ensures
        attribute_inline(fill_attribute(a).value),
        fill_attribute(fill_attribute(a).value) == fill_attribute(a),
    decreases a,
{
    if let Some(g) = a.g {
        lemma_graph_inline(g);
    }
    lemma_graphs_inline(a.graphs);
}

proof fn lemma_graphs_inline(v: Seq<GraphV>)
    requires
        fill_graphs(v).stop is Done,
    ensures
        fill_graphs(v).value.len() == v.len(),
        forall|i: int| 0 <= i < v.len() ==> all_inline(#[trigger] fill_graphs(v).value[i]),
        fill_graphs(fill_graphs(v).value) == fill_graphs(v),
    decreases v,
{
    if v.len() > 0 {
        let rest = v.drop_first();
        lemma_graph_inline(v[0]);
        lemma_graphs_inline(rest);
        let r = fill_graphs(v).value;
        assert(r.drop_first() =~= fill_graphs(rest).value);
        assert forall|i: int| 0 <= i < v.len() implies all_inline(#[trigger] r[i]) by {
            if i > 0 {
                assert(r[i] == fill_graphs(rest).value[i - 1]);
            }
        }
    }
}

/// Where zero fill succeeds, no external tensor is left in the graph or in a
/// graph within, and filling again changes nothing.
pub proof fn law_fill_leaves_nothing_external(g: GraphV)
    requires
        fill_graph(g).stop is Done,
    ensures
        all_inline(fill_graph(g).value),
        fill_graph(fill_graph(g).value) == fill_graph(g),
{
    lemma_graph_inline(g);
}

/// Zero fill gives an external tensor as many zeros as its dims and element
/// type ask for, and leaves tensors that are not external alone. Names, dims
/// and types stay.
pub proof fn law_fill_sizes(g: GraphV, at: int)
    requires
        fill_graph(g).stop is Done,
        0 <= at < g.initializer.len(),
    ensures
        ({
            let t = g.initializer[at];
            let r = fill_graph(g).value.initializer[at];
            &&& fill_graph(g).value.initializer.len() == g.initializer.len()
            &&& r.name == t.name && r.dims == t.dims && r.data_type == t.data_type
            &&& t.data_location != protos::LOCATION_EXTERNAL ==> r == t
            &&& t.data_location == protos::LOCATION_EXTERNAL && byte_len(t) is Some ==> r.raw_data
                == zeros(byte_len(t)->0)
        }),
{
    lemma_tensors_inline(g.initializer);
}

/// Stripping clears the payload of every initializer and keeps its name, dims
/// and type; inputs and outputs, and the operator, inputs and outputs of every
/// node, stay.
pub proof fn law_strip_keeps_descriptions(g: GraphV)
    ensures
        ({
            let r = stripped_graph(g);
            &&& r.initializer.len() == g.initializer.len()
            &&& r.node.len() == g.node.len()
            &&& r.input == g.input && r.output == g.output && r.value_info == g.value_info
            &&& forall|i: int|
                0 <= i < g.initializer.len() ==> {
                    let t = #[trigger] r.initializer[i];
                    &&& t.name == g.initializer[i].name
                    &&& t.dims == g.initializer[i].dims
                    &&& t.data_type == g.initializer[i].data_type
                    &&& t.raw_data.len() == 0 && t.float_data.len() == 0 && t.int32_data.len() == 0
                    &&& t.int64_data.len() == 0 && t.double_data.len() == 0
                    &&& t.uint64_data.len() == 0 && t.string_data.len() == 0
                }
            &&& forall|i: int|
                0 <= i < g.node.len() ==> {
                    let n = #[trigger] r.node[i];
                    &&& n.op_type == g.node[i].op_type && n.name == g.node[i].name
                    &&& n.input == g.node[i].input && n.output == g.node[i].output
                }
        }),
{
}

/// Stripping a stripped graph changes nothing.
pub proof fn law_strip_idempotent(g: GraphV)
    ensures
        stripped_graph(stripped_graph(g)) == stripped_graph(g),
    decreases g,
{
    let r = stripped_graph(g);
    let rr = stripped_graph(r);
    assert forall|i: int| 0 <= i < g.node.len() implies stripped_node(#[trigger] r.node[i])
        == r.node[i] by {
        lemma_strip_node(g.node[i]);
    }
    assert(rr.initializer =~= r.initializer);
    assert(rr.node =~= r.node);
}

proof fn lemma_strip_node(n: NodeV)
    ensures
        stripped_node(stripped_node(n)) == stripped_node(n),
    decreases n,
{
    let r = stripped_node(n);
    assert forall|i: int| 0 <= i < n.attribute.len() implies stripped_attribute(
        #[trigger] r.attribute[i],
    ) == r.attribute[i] by {
        lemma_strip_attribute(n.attribute[i]);
    }
    assert(stripped_node(r).attribute =~= r.attribute);
}

proof fn lemma_strip_attribute(a: AttributeV)
    ensures
        stripped_attribute(stripped_attribute(a)) == stripped_attribute(a),
    decreases a,
{
    let r = stripped_attribute(a);
    if let Some(g) = a.g {
        law_strip_idempotent(g);
    }
    assert forall|i: int| 0 <= i < a.graphs.len() implies stripped_graph(#[trigger] r.graphs[i])
        == r.graphs[i] by {
        law_strip_idempotent(a.graphs[i]);
    }
    assert(stripped_attribute(r).graphs =~= r.graphs);
}

} // verus!
