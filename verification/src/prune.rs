//! Removal of outputs, nodes, initializers and inputs that a graph does not
//! need.
use crate::protos;
use crate::protos::{
    AttributeProto, AttributeV, GraphProto, GraphV, ModelProto, ModelV, NodeProto, NodeV,
    TensorProto, TensorV, ValueInfoProto, ValueInfoV,
};
use crate::text;
use vstd::hash_set::StringHashSet;
use vstd::prelude::*;

verus! {

// ---------------------------------------------------------------------------
// Lists
// ---------------------------------------------------------------------------

/// The list back to front.
pub(crate) fn reversed<T>(v: Vec<T>) -> (r: Vec<T>)
    ensures
        r@ == v@.reverse(),
{
    let mut rest: Vec<T> = v;
    let mut out: Vec<T> = Vec::new();
    let ghost all = v@;
    while rest.len() > 0
        invariant
            rest@ == all.take(rest@.len() as int),
            rest@.len() <= all.len(),
            out@.len() == all.len() - rest@.len(),
            forall|k: int| 0 <= k < out@.len() ==> #[trigger] out@[k] == all[all.len() - 1 - k],
        decreases rest@.len(),
    {
        let ghost n = rest@.len();
        let last = rest.pop().unwrap();
        assert(last == all[n - 1]);
        out.push(last);
        assert(rest@ =~= all.take(rest@.len() as int));
    }
    assert(out@ =~= all.reverse());
    out
}

/// Some value has this name.
pub open spec fn has_info(v: Seq<ValueInfoV>, name: Seq<char>) -> bool {
    exists|i: int| 0 <= i < v.len() && (#[trigger] v[i]).name == name
}

pub open spec fn has_tensor(v: Seq<TensorV>, name: Seq<char>) -> bool {
    exists|i: int| 0 <= i < v.len() && (#[trigger] v[i]).name == name
}

/// Some node has this output.
pub open spec fn has_output(v: Seq<NodeV>, name: Seq<char>) -> bool {
    exists|i: int| 0 <= i < v.len() && (#[trigger] v[i]).output.contains(name)
}

/// Some node has this input.
pub open spec fn has_input(v: Seq<NodeV>, name: Seq<char>) -> bool {
    exists|i: int| 0 <= i < v.len() && (#[trigger] v[i]).input.contains(name)
}

/// Adds the texts of a list to a set.
pub(crate) fn add_texts(set: &mut StringHashSet, v: &Vec<String>)
    ensures
        forall|n: Seq<char>|
            #[trigger] final(set)@.contains(n) <==> old(set)@.contains(n) || protos::texts(
                v@,
            ).contains(n),
{
    let ghost before = set@;
    let mut i: usize = 0;
    while i < v.len()
        invariant
            i <= v@.len(),
            forall|n: Seq<char>|
                #[trigger] set@.contains(n) <==> before.contains(n) || protos::texts(v@).take(
                    i as int,
                ).contains(n),
        decreases v@.len() - i,
    {
        let ghost mid = set@;
        set.insert(v[i].clone());
        i = i + 1;
        proof {
            let t = protos::texts(v@);
            lemma_take_contains(t, i - 1);
            assert(t[i - 1] == v@[i - 1]@);
        }
    }
    assert(protos::texts(v@).take(i as int) =~= protos::texts(v@));
}

proof fn lemma_take_contains(t: Seq<Seq<char>>, i: int)
    requires
        0 <= i < t.len(),
    ensures
        forall|n: Seq<char>|
            #[trigger] t.take(i + 1).contains(n) <==> t.take(i).contains(n) || n == t[i],
{
    assert forall|n: Seq<char>| #[trigger] t.take(i + 1).contains(n) <==> t.take(i).contains(n) || n
        == t[i] by {
        let a = t.take(i);
        let b = t.take(i + 1);
        if b.contains(n) {
            let k = choose|k: int| 0 <= k < b.len() && b[k] == n;
            if k < i {
                assert(a[k] == n);
            }
        }
        if a.contains(n) {
            let k = choose|k: int| 0 <= k < a.len() && a[k] == n;
            assert(b[k] == n);
        }
        assert(b[i] == t[i]);
    }
}

/// Adds the names of a list of values to a set.
pub(crate) fn add_infos(set: &mut StringHashSet, v: &Vec<ValueInfoProto>)
    ensures
        forall|n: Seq<char>|
            #[trigger] final(set)@.contains(n) <==> old(set)@.contains(n) || has_info(
                protos::infos_v(v@),
                n,
            ),
{
    let ghost before = set@;
    let ghost all = protos::infos_v(v@);
    let mut i: usize = 0;
    while i < v.len()
        invariant
            i <= v@.len(),
            all == protos::infos_v(v@),
            forall|n: Seq<char>|
                #[trigger] set@.contains(n) <==> before.contains(n) || exists|k: int|
                    0 <= k < i && (#[trigger] all[k]).name == n,
        decreases v@.len() - i,
    {
        set.insert(v[i].name.clone());
        assert(all[i as int].name == v@[i as int].name@);
        i = i + 1;
    }
}

// ---------------------------------------------------------------------------
// Names that subgraphs read
// ---------------------------------------------------------------------------

/// A graph itself defines a name: an input, an initializer or a node output.
pub open spec fn defines(g: GraphV, name: Seq<char>) -> bool {
    has_info(g.input, name) || has_tensor(g.initializer, name) || has_output(g.node, name)
}

/// A subgraph reads a name from the scopes around it: its nodes or outputs
/// refer to it and it does not define it, or a subgraph within reads it.
pub open spec fn reads_outer(g: GraphV, name: Seq<char>) -> bool
    decreases g,
{
    ||| !defines(g, name) && (name.len() > 0 && has_input(g.node, name) || has_info(
        g.output,
        name,
    ))
    ||| exists|i: int| 0 <= i < g.node.len() && node_captures(#[trigger] g.node[i], name)
}

/// A control-flow body of a node reads a name from the scopes around it.
pub open spec fn node_captures(node: NodeV, name: Seq<char>) -> bool
    decreases node,
{
    exists|i: int|
        0 <= i < node.attribute.len() && attribute_captures(#[trigger] node.attribute[i], name)
}

pub open spec fn attribute_captures(a: AttributeV, name: Seq<char>) -> bool
    decreases a,
{
    ||| (a.g matches Some(g) && reads_outer(g, name))
    ||| exists|i: int| 0 <= i < a.graphs.len() && reads_outer(#[trigger] a.graphs[i], name)
}

/// A node needs a name: it is an input, or a body reads it.
pub open spec fn node_needs(node: NodeV, name: Seq<char>) -> bool {
    name.len() > 0 && node.input.contains(name) || node_captures(node, name)
}

pub(crate) fn local_names(g: &GraphProto) -> (r: StringHashSet)
    ensures
        forall|n: Seq<char>| #[trigger] r@.contains(n) <==> defines(g@, n),
{
    let mut set = StringHashSet::new();
    add_infos(&mut set, &g.input);
    let ghost inputs = set@;
    let ghost tensors = protos::tensors_v(g.initializer@);
    let mut i: usize = 0;
    while i < g.initializer.len()
        invariant
            i <= g.initializer@.len(),
            tensors == protos::tensors_v(g.initializer@),
            forall|n: Seq<char>|
                #[trigger] set@.contains(n) <==> inputs.contains(n) || exists|k: int|
                    0 <= k < i && (#[trigger] tensors[k]).name == n,
        decreases g.initializer@.len() - i,
    {
        set.insert(g.initializer[i].name.clone());
        assert(tensors[i as int].name == g.initializer@[i as int].name@);
        i = i + 1;
    }
    let ghost known = set@;
    let ghost nodes = g@.node;
    let mut i: usize = 0;
    while i < g.node.len()
        invariant
            i <= g.node@.len(),
            nodes == g@.node,
            forall|n: Seq<char>|
                #[trigger] set@.contains(n) <==> known.contains(n) || exists|k: int|
                    0 <= k < i && (#[trigger] nodes[k]).output.contains(n),
        decreases g.node@.len() - i,
    {
        add_texts(&mut set, &g.node[i].output);
        assert(nodes[i as int].output == protos::texts(g.node@[i as int].output@));
        i = i + 1;
    }
    set
}

/// Adds the names of `v` that are not empty, except those in `local`.
fn add_outer(set: &mut StringHashSet, v: &Vec<String>, local: &StringHashSet)
    ensures
        forall|n: Seq<char>|
            #[trigger] final(set)@.contains(n) <==> old(set)@.contains(n) || (n.len() > 0
                && protos::texts(v@).contains(n) && !local@.contains(n)),
{
    let ghost before = set@;
    let mut i: usize = 0;
    while i < v.len()
        invariant
            i <= v@.len(),
            forall|n: Seq<char>|
                #[trigger] set@.contains(n) <==> before.contains(n) || (n.len() > 0
                    && protos::texts(v@).take(i as int).contains(n) && !local@.contains(n)),
        decreases v@.len() - i,
    {
        let empty = text::str_eq(v[i].as_str(), "");
        proof {
            reveal_strlit("");
            let t = protos::texts(v@);
            lemma_take_contains(t, i as int);
            assert(t[i as int] == v@[i as int]@);
            assert(empty <==> v@[i as int]@.len() == 0) by {
                assert(v@[i as int]@.len() == 0 ==> v@[i as int]@ =~= ""@);
            }
        }
        if !empty && !local.contains(v[i].as_str()) {
            set.insert(v[i].clone());
        }
        i = i + 1;
    }
    assert(protos::texts(v@).take(i as int) =~= protos::texts(v@));
}

/// Adds the names that a subgraph reads from the scopes around it.
fn collect_subgraph_captures(g: &GraphProto, needed: &mut StringHashSet)
    ensures
        forall|n: Seq<char>|
            #[trigger] final(needed)@.contains(n) <==> old(needed)@.contains(n) || reads_outer(
                g@,
                n,
            ),
    decreases g,
{
    let local = local_names(g);
    let ghost before = needed@;
    let ghost nodes = g@.node;
    let mut i: usize = 0;
    while i < g.node.len()
        invariant
            i <= g.node@.len(),
            nodes == g@.node,
            forall|n: Seq<char>| #[trigger] local@.contains(n) <==> defines(g@, n),
            forall|n: Seq<char>|
                #[trigger] needed@.contains(n) <==> before.contains(n) || (n.len() > 0 && !defines(
                    g@,
                    n,
                ) && exists|k: int|
                    0 <= k < i && (#[trigger] nodes[k]).input.contains(n)) || exists|k: int|
                    0 <= k < i && node_captures(#[trigger] nodes[k], n),
        decreases g.node@.len() - i,
    {
        assert(nodes[i as int] == g.node@[i as int]@);
        assert(nodes[i as int].input == protos::texts(g.node@[i as int].input@));
        add_outer(needed, &g.node[i].input, &local);
        collect_node_captures(&g.node[i], needed);
        i = i + 1;
    }
    let ghost mid = needed@;
    let ghost outs = g@.output;
    let mut i: usize = 0;
    while i < g.output.len()
        invariant
            i <= g.output@.len(),
            outs == protos::infos_v(g.output@),
            forall|n: Seq<char>| #[trigger] local@.contains(n) <==> defines(g@, n),
            forall|n: Seq<char>|
                #[trigger] needed@.contains(n) <==> mid.contains(n) || (!defines(g@, n)
                    && exists|k: int| 0 <= k < i && (#[trigger] outs[k]).name == n),
        decreases g.output@.len() - i,
    {
        assert(outs[i as int].name == g.output@[i as int].name@);
        if !local.contains(g.output[i].name.as_str()) {
            needed.insert(g.output[i].name.clone());
        }
        i = i + 1;
    }
}

/// Adds the names that the bodies of a node read from the scopes around it.
fn collect_node_captures(node: &NodeProto, needed: &mut StringHashSet)
    ensures
        forall|n: Seq<char>|
            #[trigger] final(needed)@.contains(n) <==> old(needed)@.contains(n) || node_captures(
                node@,
                n,
            ),
    decreases node,
{
    let ghost before = needed@;
    let ghost attributes = node@.attribute;
    let mut i: usize = 0;
    while i < node.attribute.len()
        invariant
            i <= node.attribute@.len(),
            attributes == node@.attribute,
            forall|n: Seq<char>|
                #[trigger] needed@.contains(n) <==> before.contains(n) || exists|k: int|
                    0 <= k < i && attribute_captures(#[trigger] attributes[k], n),
        decreases node.attribute@.len() - i,
    {
        assert(attributes[i as int] == node.attribute@[i as int]@);
        collect_attribute_captures(&node.attribute[i], needed);
        i = i + 1;
    }
}

fn collect_attribute_captures(a: &AttributeProto, needed: &mut StringHashSet)
    ensures
        forall|n: Seq<char>|
            #[trigger] final(needed)@.contains(n) <==> old(needed)@.contains(n)
                || attribute_captures(a@, n),
    decreases a,
{
    if let Some(g) = &a.g {
        collect_subgraph_captures(g, needed);
    }
    let ghost mid = needed@;
    let ghost graphs = a@.graphs;
    let mut i: usize = 0;
    while i < a.graphs.len()
        invariant
            i <= a.graphs@.len(),
            graphs == a@.graphs,
            forall|n: Seq<char>|
                #[trigger] needed@.contains(n) <==> mid.contains(n) || exists|k: int|
                    0 <= k < i && reads_outer(#[trigger] graphs[k], n),
        decreases a.graphs@.len() - i,
    {
        assert(graphs[i as int] == a.graphs@[i as int]@);
        collect_subgraph_captures(&a.graphs[i], needed);
        i = i + 1;
    }
}

// ---------------------------------------------------------------------------
// Dead nodes
// ---------------------------------------------------------------------------

/// A name is needed by the outputs of a graph, or by one of these nodes that is
/// itself live.
pub open spec fn needed_by(nodes: Seq<NodeV>, outputs: Seq<ValueInfoV>, name: Seq<char>) -> bool
    decreases nodes.len(), 1int,
{
    if nodes.len() == 0 {
        has_info(outputs, name)
    } else {
        let rest = nodes.drop_first();
        needed_by(rest, outputs, name) || (is_live(nodes, outputs) && node_needs(nodes[0], name))
    }
}

/// The first of these nodes has an output that the nodes behind it or the graph
/// need.
pub open spec fn is_live(nodes: Seq<NodeV>, outputs: Seq<ValueInfoV>) -> bool
    decreases nodes.len(), 0int,
    when nodes.len() > 0
{
    exists|i: int|
        0 <= i < nodes[0].output.len() && needed_by(
            nodes.drop_first(),
            outputs,
            #[trigger] nodes[0].output[i],
        )
}

/// The live nodes, in order.
pub open spec fn live_nodes(nodes: Seq<NodeV>, outputs: Seq<ValueInfoV>) -> Seq<NodeV>
    decreases nodes.len(),
{
    if nodes.len() == 0 {
        seq![]
    } else if is_live(nodes, outputs) {
        seq![nodes[0]] + live_nodes(nodes.drop_first(), outputs)
    } else {
        live_nodes(nodes.drop_first(), outputs)
    }
}

/// The graph without its dead nodes. Where there are some, the initializers
/// that only they read go too, except those that double as inputs.
pub open spec fn without_dead_nodes(g: GraphV) -> GraphV {
    let live = live_nodes(g.node, g.output);
    if live.len() == g.node.len() {
        g
    } else {
        GraphV {
            node: live,
            initializer: g.initializer.filter(
                |t: TensorV| needed_by(g.node, g.output, t.name) || has_info(g.input, t.name),
            ),
            ..g
        }
    }
}

fn any_in(v: &Vec<String>, set: &StringHashSet) -> (r: bool)
    ensures
        r == exists|i: int|
            0 <= i < v@.len() && set@.contains(#[trigger] protos::texts(v@)[i]),
{
    let mut i: usize = 0;
    while i < v.len()
        invariant
            i <= v@.len(),
            forall|k: int| 0 <= k < i ==> !set@.contains(#[trigger] protos::texts(v@)[k]),
        decreases v@.len() - i,
    {
        assert(protos::texts(v@)[i as int] == v@[i as int]@);
        if set.contains(v[i].as_str()) {
            return true;
        }
        i = i + 1;
    }
    false
}

/// The tensors whose names are in one of two sets.
fn keep_tensors(v: Vec<TensorProto>, a: &StringHashSet, b: &StringHashSet) -> (r: Vec<TensorProto>)
    ensures
        protos::tensors_v(r@) == protos::tensors_v(v@).filter(
            |t: TensorV| a@.contains(t.name) || b@.contains(t.name),
        ),
{
    let ghost items = v@;
    let ghost all = protos::tensors_v(v@);
    let ghost f = |t: TensorV| a@.contains(t.name) || b@.contains(t.name);
    let n: usize = v.len();
    let mut rest = reversed(v);
    let mut out: Vec<TensorProto> = Vec::new();
    let mut k: usize = 0;
    proof {
        reveal(Seq::filter);
        assert(all.take(0) =~= Seq::<TensorV>::empty());
        assert(protos::tensors_v(out@) =~= Seq::<TensorV>::empty());
    }
    while k < n
        invariant
            k <= n,
            n == items.len(),
            all == protos::tensors_v(items),
            f == (|t: TensorV| a@.contains(t.name) || b@.contains(t.name)),
            rest@.len() == n - k,
            forall|j: int| 0 <= j < rest@.len() ==> #[trigger] rest@[j] == items[n - 1 - j],
            protos::tensors_v(out@) == all.take(k as int).filter(f),
        decreases n - k,
    {
        proof {
            reveal(Seq::filter);
            assert(all.take(k + 1).drop_last() =~= all.take(k as int));
        }
        let ghost before = protos::tensors_v(out@);
        let t = rest.pop().unwrap();
        assert(t@ == all[k as int]);
        if a.contains(t.name.as_str()) || b.contains(t.name.as_str()) {
            let ghost tv = t@;
            out.push(t);
            assert(protos::tensors_v(out@) =~= before.push(tv));
        }
        k = k + 1;
    }
    assert(all.take(k as int) =~= all);
    out
}

proof fn lemma_filter_eq<T>(v: Seq<T>, f: spec_fn(T) -> bool, g: spec_fn(T) -> bool)
    requires
        forall|i: int| 0 <= i < v.len() ==> f(#[trigger] v[i]) == g(v[i]),
    ensures
        v.filter(f) == v.filter(g),
    decreases v.len(),
{
    reveal(Seq::filter);
    if v.len() > 0 {
        lemma_filter_eq(v.drop_last(), f, g);
    }
}

/// Drop nodes whose outputs nothing consumes, transitively, such as the
/// condition chain left behind once a constant `If` is inlined. Backends may
/// reject dead ops, and ONNX nodes have no side effects.
pub fn prune_dead_nodes(graph: &mut GraphProto)
    ensures
        final(graph)@ == without_dead_nodes(old(graph)@),
{
    let ghost start = graph@;
    let ghost all = graph@.node;
    let ghost outs = graph@.output;
    let mut needed = StringHashSet::new();
    add_infos(&mut needed, &graph.output);
    let mut rest: Vec<NodeProto> = Vec::new();
    std::mem::swap(&mut rest, &mut graph.node);
    let ghost items = rest@;
    let n: usize = rest.len();
    let mut kept: Vec<NodeProto> = Vec::new();
    assert(all =~= protos::nodes_v(items));
    assert(all.skip(n as int) =~= Seq::<NodeV>::empty());
    assert(protos::nodes_v(kept@.reverse()) =~= Seq::<NodeV>::empty());
    while rest.len() > 0
        invariant
            rest@.len() <= n,
            n == items.len(),
            all == protos::nodes_v(items),
            rest@ == items.take(rest@.len() as int),
            forall|m: Seq<char>|
                #[trigger] needed@.contains(m) <==> needed_by(
                    all.skip(rest@.len() as int),
                    outs,
                    m,
                ),
            protos::nodes_v(kept@.reverse()) == live_nodes(all.skip(rest@.len() as int), outs),
        decreases rest@.len(),
    {
        let ghost k = rest@.len() - 1;
        let ghost tail = all.skip(k);
        let ghost behind = needed@;
        let node = rest.pop().unwrap();
        proof {
            assert(node == items[k]);
            assert(tail[0] == node@);
            assert(tail.drop_first() =~= all.skip(k + 1));
            assert(rest@ =~= items.take(k));
            assert(node@.output == protos::texts(node.output@));
            assert(node@.input == protos::texts(node.input@));
        }
        let live = any_in(&node.output, &needed);
        proof {
            if live {
                let i = choose|i: int|
                    0 <= i < node.output@.len() && behind.contains(
                        #[trigger] protos::texts(node.output@)[i],
                    );
                assert(needed_by(tail.drop_first(), outs, tail[0].output[i]));
            } else {
                assert forall|i: int| 0 <= i < tail[0].output.len() implies !needed_by(
                    tail.drop_first(),
                    outs,
                    #[trigger] tail[0].output[i],
                ) by {
                    assert(!behind.contains(protos::texts(node.output@)[i]));
                }
            }
            assert(live == is_live(tail, outs));
        }
        if live {
            let none = StringHashSet::new();
            add_outer(&mut needed, &node.input, &none);
            collect_node_captures(&node, &mut needed);
            let ghost before = kept@;
            kept.push(node);
            proof {
                assert(kept@.reverse() =~= seq![node] + before.reverse());
                assert(protos::nodes_v(kept@.reverse()) =~= seq![node@] + protos::nodes_v(
                    before.reverse(),
                ));
            }
        }
    }
    proof {
        assert(all.skip(0) =~= all);
    }
    let kept_count: usize = kept.len();
    let nodes = reversed(kept);
    proof {
        assert(protos::nodes_v(nodes@) == live_nodes(all, outs));
    }
    if kept_count == n {
        graph.node = nodes;
        proof {
            lemma_all_live(all, outs);
            assert(graph@.node =~= all);
        }
        return ;
    }
    let mut inputs = StringHashSet::new();
    add_infos(&mut inputs, &graph.input);
    let mut tensors: Vec<TensorProto> = Vec::new();
    std::mem::swap(&mut tensors, &mut graph.initializer);
    proof {
        lemma_filter_eq(
            start.initializer,
            |t: TensorV| needed@.contains(t.name) || inputs@.contains(t.name),
            |t: TensorV| needed_by(all, outs, t.name) || has_info(start.input, t.name),
        );
    }
    graph.initializer = keep_tensors(tensors, &needed, &inputs);
    graph.node = nodes;
    assert(graph@.node =~= live_nodes(all, outs));
}

/// Where as many nodes are live as there are, they are the same nodes.
proof fn lemma_all_live(nodes: Seq<NodeV>, outputs: Seq<ValueInfoV>)
    ensures
        live_nodes(nodes, outputs).len() <= nodes.len(),
        live_nodes(nodes, outputs).len() == nodes.len() ==> live_nodes(nodes, outputs) == nodes,
    decreases nodes.len(),
{
    if nodes.len() > 0 {
        lemma_all_live(nodes.drop_first(), outputs);
        assert(seq![nodes[0]] + nodes.drop_first() =~= nodes);
    }
}

// ---------------------------------------------------------------------------
// Zero-size outputs
// ---------------------------------------------------------------------------

/// A tensor without elements.
pub open spec fn is_empty_tensor(t: TensorV) -> bool {
    t.dims.contains(0)
}

/// A `Constant` node whose value has no elements.
pub open spec fn is_empty_constant(n: NodeV) -> bool {
    n.op_type == "Constant"@ && exists|i: int|
        0 <= i < n.attribute.len() && (#[trigger] n.attribute[i]).name == "value"@ && (
        n.attribute[i].t matches Some(t) && is_empty_tensor(t))
}

/// A name stands for a zero-size constant.
pub open spec fn names_empty(g: GraphV, name: Seq<char>) -> bool {
    ||| exists|i: int|
        0 <= i < g.initializer.len() && is_empty_tensor(#[trigger] g.initializer[i])
            && g.initializer[i].name == name
    ||| exists|i: int|
        0 <= i < g.node.len() && is_empty_constant(#[trigger] g.node[i])
            && g.node[i].output.contains(name)
}

/// A node reads a name, or it is an output.
pub open spec fn consumed(nodes: Seq<NodeV>, outputs: Seq<ValueInfoV>, name: Seq<char>) -> bool {
    has_input(nodes, name) || has_info(outputs, name)
}

/// A node that stays once outputs are gone: `Constant` nodes must be consumed.
pub open spec fn stays(nodes: Seq<NodeV>, outputs: Seq<ValueInfoV>, n: NodeV) -> bool {
    n.op_type != "Constant"@ || exists|i: int|
        0 <= i < n.output.len() && consumed(nodes, outputs, #[trigger] n.output[i])
}

/// The graph without its zero-size outputs and the constants behind them. A
/// graph that would lose every output keeps all else.
pub open spec fn without_empty_outputs(g: GraphV) -> GraphV {
    let outputs = g.output.filter(|o: ValueInfoV| !names_empty(g, o.name));
    if outputs.len() == g.output.len() {
        g
    } else if outputs.len() == 0 {
        GraphV { output: outputs, ..g }
    } else {
        GraphV {
            output: outputs,
            node: g.node.filter(|n: NodeV| stays(g.node, outputs, n)),
            initializer: g.initializer.filter(
                |t: TensorV| !is_empty_tensor(t) || consumed(g.node, outputs, t.name),
            ),
            ..g
        }
    }
}

pub(crate) fn has_zero(v: &Vec<i64>) -> (r: bool)
    ensures
        r == v@.contains(0),
{
    let mut i: usize = 0;
    while i < v.len()
        invariant
            i <= v@.len(),
            forall|k: int| 0 <= k < i ==> #[trigger] v@[k] != 0,
        decreases v@.len() - i,
    {
        if v[i] == 0 {
            return true;
        }
        i = i + 1;
    }
    false
}

fn check_empty_constant(n: &NodeProto) -> (r: bool)
    ensures
        r == is_empty_constant(n@),
{
    if !text::str_eq(n.op_type.as_str(), "Constant") {
        return false;
    }
    let ghost attributes = n@.attribute;
    let mut i: usize = 0;
    while i < n.attribute.len()
        invariant
            i <= n.attribute@.len(),
            attributes == n@.attribute,
            n@.op_type == "Constant"@,
            forall|k: int|
                0 <= k < i ==> !((#[trigger] attributes[k]).name == "value"@ && (
                attributes[k].t matches Some(t) && is_empty_tensor(t))),
        decreases n.attribute@.len() - i,
    {
        assert(attributes[i as int] == n.attribute@[i as int]@);
        if text::str_eq(n.attribute[i].name.as_str(), "value") {
            if let Some(t) = &n.attribute[i].t {
                if has_zero(&t.dims) {
                    return true;
                }
            }
        }
        i = i + 1;
    }
    false
}

/// The names of zero-size constants.
fn empty_names(g: &GraphProto) -> (r: StringHashSet)
    ensures
        forall|n: Seq<char>| #[trigger] r@.contains(n) <==> names_empty(g@, n),
{
    let mut set = StringHashSet::new();
    let ghost tensors = g@.initializer;
    let mut i: usize = 0;
    while i < g.initializer.len()
        invariant
            i <= g.initializer@.len(),
            tensors == protos::tensors_v(g.initializer@),
            forall|n: Seq<char>|
                #[trigger] set@.contains(n) <==> exists|k: int|
                    0 <= k < i && is_empty_tensor(#[trigger] tensors[k]) && tensors[k].name == n,
        decreases g.initializer@.len() - i,
    {
        assert(tensors[i as int] == g.initializer@[i as int]@);
        if has_zero(&g.initializer[i].dims) {
            set.insert(g.initializer[i].name.clone());
        }
        i = i + 1;
    }
    let ghost known = set@;
    let ghost nodes = g@.node;
    let mut i: usize = 0;
    while i < g.node.len()
        invariant
            i <= g.node@.len(),
            nodes == g@.node,
            forall|n: Seq<char>|
                #[trigger] set@.contains(n) <==> known.contains(n) || exists|k: int|
                    0 <= k < i && is_empty_constant(#[trigger] nodes[k])
                        && nodes[k].output.contains(n),
        decreases g.node@.len() - i,
    {
        assert(nodes[i as int] == g.node@[i as int]@);
        assert(nodes[i as int].output == protos::texts(g.node@[i as int].output@));
        if check_empty_constant(&g.node[i]) {
            add_texts(&mut set, &g.node[i].output);
        }
        i = i + 1;
    }
    set
}

/// The names that nodes read and outputs have.
fn consumed_names(nodes: &Vec<NodeProto>, outputs: &Vec<ValueInfoProto>) -> (r: StringHashSet)
    ensures
        forall|n: Seq<char>|
            #[trigger] r@.contains(n) <==> consumed(
                protos::nodes_v(nodes@),
                protos::infos_v(outputs@),
                n,
            ),
{
    let mut set = StringHashSet::new();
    add_infos(&mut set, outputs);
    let ghost known = set@;
    let ghost all = protos::nodes_v(nodes@);
    let mut i: usize = 0;
    while i < nodes.len()
        invariant
            i <= nodes@.len(),
            all == protos::nodes_v(nodes@),
            forall|n: Seq<char>|
                #[trigger] set@.contains(n) <==> known.contains(n) || exists|k: int|
                    0 <= k < i && (#[trigger] all[k]).input.contains(n),
        decreases nodes@.len() - i,
    {
        assert(all[i as int].input == protos::texts(nodes@[i as int].input@));
        add_texts(&mut set, &nodes[i].input);
        i = i + 1;
    }
    set
}

/// The values whose names are in a set, or those whose names are not.
fn keep_infos(v: Vec<ValueInfoProto>, set: &StringHashSet, inside: bool) -> (r: Vec<ValueInfoProto>)
    ensures
        protos::infos_v(r@) == protos::infos_v(v@).filter(
            |x: ValueInfoV| set@.contains(x.name) == inside,
        ),
{
    let ghost items = v@;
    let ghost all = protos::infos_v(v@);
    let ghost f = |x: ValueInfoV| set@.contains(x.name) == inside;
    let n: usize = v.len();
    let mut rest = reversed(v);
    let mut out: Vec<ValueInfoProto> = Vec::new();
    let mut k: usize = 0;
    proof {
        reveal(Seq::filter);
        assert(all.take(0) =~= Seq::<ValueInfoV>::empty());
        assert(protos::infos_v(out@) =~= Seq::<ValueInfoV>::empty());
    }
    while k < n
        invariant
            k <= n,
            n == items.len(),
            all == protos::infos_v(items),
            f == (|x: ValueInfoV| set@.contains(x.name) == inside),
            rest@.len() == n - k,
            forall|j: int| 0 <= j < rest@.len() ==> #[trigger] rest@[j] == items[n - 1 - j],
            protos::infos_v(out@) == all.take(k as int).filter(f),
        decreases n - k,
    {
        proof {
            reveal(Seq::filter);
            assert(all.take(k + 1).drop_last() =~= all.take(k as int));
        }
        let ghost before = protos::infos_v(out@);
        let x = rest.pop().unwrap();
        assert(x@ == all[k as int]);
        if set.contains(x.name.as_str()) == inside {
            let ghost xv = x@;
            out.push(x);
            assert(protos::infos_v(out@) =~= before.push(xv));
        }
        k = k + 1;
    }
    assert(all.take(k as int) =~= all);
    out
}

/// The nodes that are no `Constant`, or have an output in the set.
fn keep_nodes(v: Vec<NodeProto>, used: &StringHashSet) -> (r: Vec<NodeProto>)
    ensures
        protos::nodes_v(r@) == protos::nodes_v(v@).filter(
            |n: NodeV|
                n.op_type != "Constant"@ || exists|i: int|
                    0 <= i < n.output.len() && used@.contains(#[trigger] n.output[i]),
        ),
{
    let ghost items = v@;
    let ghost all = protos::nodes_v(v@);
    let ghost f = |n: NodeV|
        n.op_type != "Constant"@ || exists|i: int|
            0 <= i < n.output.len() && used@.contains(#[trigger] n.output[i]);
    let n: usize = v.len();
    let mut rest = reversed(v);
    let mut out: Vec<NodeProto> = Vec::new();
    let mut k: usize = 0;
    proof {
        reveal(Seq::filter);
        assert(all.take(0) =~= Seq::<NodeV>::empty());
        assert(protos::nodes_v(out@) =~= Seq::<NodeV>::empty());
    }
    while k < n
        invariant
            k <= n,
            n == items.len(),
            all == protos::nodes_v(items),
            f == (|n: NodeV|
                n.op_type != "Constant"@ || exists|i: int|
                    0 <= i < n.output.len() && used@.contains(#[trigger] n.output[i])),
            rest@.len() == n - k,
            forall|j: int| 0 <= j < rest@.len() ==> #[trigger] rest@[j] == items[n - 1 - j],
            protos::nodes_v(out@) == all.take(k as int).filter(f),
        decreases n - k,
    {
        proof {
            reveal(Seq::filter);
            assert(all.take(k + 1).drop_last() =~= all.take(k as int));
        }
        let ghost before = protos::nodes_v(out@);
        let x = rest.pop().unwrap();
        assert(x@ == all[k as int]);
        assert(x@.output == protos::texts(x.output@));
        let keep = !text::str_eq(x.op_type.as_str(), "Constant") || any_in(&x.output, used);
        assert(keep == f(x@));
        if keep {
            let ghost xv = x@;
            out.push(x);
            assert(protos::nodes_v(out@) =~= before.push(xv));
        }
        k = k + 1;
    }
    assert(all.take(k as int) =~= all);
    out
}

/// The tensors that have elements, or whose names are in the set.
fn keep_filled(v: Vec<TensorProto>, used: &StringHashSet) -> (r: Vec<TensorProto>)
    ensures
        protos::tensors_v(r@) == protos::tensors_v(v@).filter(
            |t: TensorV| !is_empty_tensor(t) || used@.contains(t.name),
        ),
{
    let ghost items = v@;
    let ghost all = protos::tensors_v(v@);
    let ghost f = |t: TensorV| !is_empty_tensor(t) || used@.contains(t.name);
    let n: usize = v.len();
    let mut rest = reversed(v);
    let mut out: Vec<TensorProto> = Vec::new();
    let mut k: usize = 0;
    proof {
        reveal(Seq::filter);
        assert(all.take(0) =~= Seq::<TensorV>::empty());
        assert(protos::tensors_v(out@) =~= Seq::<TensorV>::empty());
    }
    while k < n
        invariant
            k <= n,
            n == items.len(),
            all == protos::tensors_v(items),
            f == (|t: TensorV| !is_empty_tensor(t) || used@.contains(t.name)),
            rest@.len() == n - k,
            forall|j: int| 0 <= j < rest@.len() ==> #[trigger] rest@[j] == items[n - 1 - j],
            protos::tensors_v(out@) == all.take(k as int).filter(f),
        decreases n - k,
    {
        proof {
            reveal(Seq::filter);
            assert(all.take(k + 1).drop_last() =~= all.take(k as int));
        }
        let ghost before = protos::tensors_v(out@);
        let t = rest.pop().unwrap();
        assert(t@ == all[k as int]);
        if !has_zero(&t.dims) || used.contains(t.name.as_str()) {
            let ghost tv = t@;
            out.push(t);
            assert(protos::tensors_v(out@) =~= before.push(tv));
        }
        k = k + 1;
    }
    assert(all.take(k as int) =~= all);
    out
}

/// The model with its graph changed.
pub open spec fn on_graph(m: ModelV, f: spec_fn(GraphV) -> GraphV) -> ModelV {
    match m.graph {
        Some(g) => ModelV { graph: Some(f(g)), ..m },
        None => m,
    }
}

/// Drop graph outputs that are zero-size constants (merged decoders return
/// dummy `[0, H, 1, D]` outputs from the cache branch). WebNN cannot represent
/// zero-size tensors, and they carry no data.
pub fn prune_empty_graph_outputs(model: &mut ModelProto)
    ensures
        final(model)@ == on_graph(old(model)@, |g: GraphV| without_empty_outputs(g)),
{
    let mut graph: GraphProto = match model.graph.take() {
        Some(g) => g,
        None => return,
    };
    let ghost start = graph@;
    let empty = empty_names(&graph);
    let mut outputs: Vec<ValueInfoProto> = Vec::new();
    std::mem::swap(&mut outputs, &mut graph.output);
    let before: usize = outputs.len();
    proof {
        lemma_filter_eq(
            start.output,
            |x: ValueInfoV| empty@.contains(x.name) == false,
            |o: ValueInfoV| !names_empty(start, o.name),
        );
        lemma_filter_len(start.output, |o: ValueInfoV| !names_empty(start, o.name));
    }
    graph.output = keep_infos(outputs, &empty, false);
    let ghost kept = graph@.output;
    let after: usize = graph.output.len();
    if after != before && after != 0 {
        let used = consumed_names(&graph.node, &graph.output);
        let mut nodes: Vec<NodeProto> = Vec::new();
        std::mem::swap(&mut nodes, &mut graph.node);
        let mut tensors: Vec<TensorProto> = Vec::new();
        std::mem::swap(&mut tensors, &mut graph.initializer);
        proof {
            assert(protos::nodes_v(nodes@) =~= start.node);
            assert forall|i: int| 0 <= i < start.node.len() implies (#[trigger] start.node[i]).op_type
                != "Constant"@ || (exists|k: int|
                0 <= k < start.node[i].output.len() && used@.contains(
                    #[trigger] start.node[i].output[k],
                )) <==> stays(start.node, kept, start.node[i]) by {
                let x = start.node[i];
                assert forall|k: int| 0 <= k < x.output.len() implies used@.contains(
                    #[trigger] x.output[k],
                ) == consumed(start.node, kept, x.output[k]) by {}
            }
            lemma_filter_eq(
                start.node,
                |n: NodeV|
                    n.op_type != "Constant"@ || exists|i: int|
                        0 <= i < n.output.len() && used@.contains(#[trigger] n.output[i]),
                |n: NodeV| stays(start.node, kept, n),
            );
            lemma_filter_eq(
                start.initializer,
                |t: TensorV| !is_empty_tensor(t) || used@.contains(t.name),
                |t: TensorV| !is_empty_tensor(t) || consumed(start.node, kept, t.name),
            );
        }
        graph.node = keep_nodes(nodes, &used);
        graph.initializer = keep_filled(tensors, &used);
        assert(graph@.node =~= protos::nodes_v(graph.node@));
    }
    model.graph = Some(graph);
}

proof fn lemma_filter_len<T>(v: Seq<T>, f: spec_fn(T) -> bool)
    ensures
        v.filter(f).len() <= v.len(),
        v.filter(f).len() == v.len() ==> v.filter(f) == v,
    decreases v.len(),
{
    reveal(Seq::filter);
    if v.len() > 0 {
        lemma_filter_len(v.drop_last(), f);
        assert(v.drop_last().push(v.last()) =~= v);
    } else {
        assert(v.filter(f) =~= v);
    }
}

// ---------------------------------------------------------------------------
// Unused inputs
// ---------------------------------------------------------------------------

/// The graph without the inputs that no node and no output refers to.
pub open spec fn without_unused_inputs(g: GraphV) -> GraphV {
    GraphV { input: g.input.filter(|x: ValueInfoV| consumed(g.node, g.output, x.name)), ..g }
}

/// Drop graph inputs no node consumes (the KV cache of an inlined branch that
/// has none). Inputs wired straight to a graph output are kept.
pub fn prune_unused_graph_inputs(model: &mut ModelProto)
    ensures
        final(model)@ == on_graph(old(model)@, |g: GraphV| without_unused_inputs(g)),
{
    let mut graph: GraphProto = match model.graph.take() {
        Some(g) => g,
        None => return,
    };
    let ghost start = graph@;
    let used = consumed_names(&graph.node, &graph.output);
    let mut inputs: Vec<ValueInfoProto> = Vec::new();
    std::mem::swap(&mut inputs, &mut graph.input);
    proof {
        assert(protos::nodes_v(graph.node@) =~= start.node);
        lemma_filter_eq(
            start.input,
            |x: ValueInfoV| used@.contains(x.name) == true,
            |x: ValueInfoV| consumed(start.node, start.output, x.name),
        );
    }
    graph.input = keep_infos(inputs, &used, true);
    model.graph = Some(graph);
}

// ---------------------------------------------------------------------------
// Laws
// ---------------------------------------------------------------------------

/// Live nodes alone need what all nodes need.
proof fn lemma_live_need(nodes: Seq<NodeV>, outputs: Seq<ValueInfoV>, name: Seq<char>)
    ensures
        needed_by(live_nodes(nodes, outputs), outputs, name) == needed_by(nodes, outputs, name),
    decreases nodes.len(), 1int,
{
    if nodes.len() > 0 {
        let rest = nodes.drop_first();
        lemma_live_need(rest, outputs, name);
        if is_live(nodes, outputs) {
            let live = live_nodes(nodes, outputs);
            assert(live.drop_first() =~= live_nodes(rest, outputs));
            assert(live[0] == nodes[0]);
            lemma_live_head(nodes, outputs);
        }
    }
}

proof fn lemma_live_head(nodes: Seq<NodeV>, outputs: Seq<ValueInfoV>)
    requires
        nodes.len() > 0,
        is_live(nodes, outputs),
    ensures
        is_live(live_nodes(nodes, outputs), outputs),
    decreases nodes.len(), 0int,
{
    let rest = nodes.drop_first();
    let live = live_nodes(nodes, outputs);
    assert(live.drop_first() =~= live_nodes(rest, outputs));
    assert(live[0] == nodes[0]);
    let i = choose|i: int|
        0 <= i < nodes[0].output.len() && needed_by(rest, outputs, #[trigger] nodes[0].output[i]);
    lemma_live_need(rest, outputs, nodes[0].output[i]);
    assert(needed_by(live.drop_first(), outputs, live[0].output[i]));
}

proof fn lemma_live_again(nodes: Seq<NodeV>, outputs: Seq<ValueInfoV>)
    ensures
        live_nodes(live_nodes(nodes, outputs), outputs) == live_nodes(nodes, outputs),
    decreases nodes.len(),
{
    if nodes.len() > 0 {
        let rest = nodes.drop_first();
        lemma_live_again(rest, outputs);
        if is_live(nodes, outputs) {
            let live = live_nodes(nodes, outputs);
            assert(live.drop_first() =~= live_nodes(rest, outputs));
            lemma_live_head(nodes, outputs);
        }
    }
}

/// A graph without dead nodes has no dead nodes: pruning again changes nothing.
pub proof fn law_dead_pruning_idempotent(g: GraphV)
    ensures
        without_dead_nodes(without_dead_nodes(g)) == without_dead_nodes(g),
{
    lemma_live_again(g.node, g.output);
}

proof fn lemma_needed_before(nodes: Seq<NodeV>, outputs: Seq<ValueInfoV>, at: int, name: Seq<char>)
    requires
        0 <= at <= nodes.len(),
        needed_by(nodes.skip(at), outputs, name),
    ensures
        needed_by(nodes, outputs, name),
    decreases at,
{
    if at > 0 {
        assert(nodes.skip(at - 1).drop_first() =~= nodes.skip(at));
        lemma_needed_before(nodes, outputs, at - 1, name);
    } else {
        assert(nodes.skip(0) =~= nodes);
    }
}

pub proof fn lemma_output_needed(nodes: Seq<NodeV>, outputs: Seq<ValueInfoV>, name: Seq<char>)
    requires
        has_info(outputs, name),
    ensures
        needed_by(nodes, outputs, name),
    decreases nodes.len(),
{
    if nodes.len() > 0 {
        lemma_output_needed(nodes.drop_first(), outputs, name);
    }
}

proof fn lemma_live_contained(nodes: Seq<NodeV>, outputs: Seq<ValueInfoV>, at: int)
    requires
        0 <= at < nodes.len(),
        is_live(nodes.skip(at), outputs),
    ensures
        live_nodes(nodes, outputs).contains(nodes[at]),
    decreases at,
{
    let live = live_nodes(nodes, outputs);
    if at == 0 {
        assert(nodes.skip(0) =~= nodes);
        assert(live[0] == nodes[0]);
    } else {
        let rest = nodes.drop_first();
        assert(rest.skip(at - 1) =~= nodes.skip(at));
        lemma_live_contained(rest, outputs, at - 1);
        let below = live_nodes(rest, outputs);
        let k = choose|k: int| 0 <= k < below.len() && below[k] == rest[at - 1];
        if is_live(nodes, outputs) {
            assert(live[k + 1] == nodes[at]);
        } else {
            assert(live[k] == nodes[at]);
        }
    }
}

/// A node that produces a graph output survives pruning.
pub proof fn law_output_producers_survive(g: GraphV, at: int, name: Seq<char>)
    requires
        0 <= at < g.node.len(),
        g.node[at].output.contains(name),
        has_info(g.output, name),
    ensures
        is_live(g.node.skip(at), g.output),
        without_dead_nodes(g).node.contains(g.node[at]),
{
    let tail = g.node.skip(at);
    lemma_output_needed(tail.drop_first(), g.output, name);
    let k = choose|k: int| 0 <= k < g.node[at].output.len() && g.node[at].output[k] == name;
    assert(tail[0].output[k] == name);
    lemma_live_contained(g.node, g.output, at);
    lemma_all_live(g.node, g.output);
}

/// A node that produces what a later live node needs, as an input or within a
/// control-flow body, survives pruning.
pub proof fn law_needed_producers_survive(g: GraphV, at: int, user: int, name: Seq<char>)
    requires
        0 <= at < user < g.node.len(),
        g.node[at].output.contains(name),
        is_live(g.node.skip(user), g.output),
        node_needs(g.node[user], name),
    ensures
        is_live(g.node.skip(at), g.output),
        without_dead_nodes(g).node.contains(g.node[at]),
{
    let tail = g.node.skip(at);
    let behind = tail.drop_first();
    assert(behind.skip(user - at - 1) =~= g.node.skip(user));
    assert(needed_by(g.node.skip(user), g.output, name));
    lemma_needed_before(behind, g.output, user - at - 1, name);
    let k = choose|k: int| 0 <= k < g.node[at].output.len() && g.node[at].output[k] == name;
    assert(tail[0].output[k] == name);
    lemma_live_contained(g.node, g.output, at);
    lemma_all_live(g.node, g.output);
}

pub proof fn lemma_filter_keeps<T>(v: Seq<T>, f: spec_fn(T) -> bool, at: int)
    requires
        0 <= at < v.len(),
        f(v[at]),
    ensures
        v.filter(f).contains(v[at]),
    decreases v.len(),
{
    reveal(Seq::filter);
    let w = v.filter(f);
    if at == v.len() - 1 {
        assert(w.last() == v[at]);
    } else {
        lemma_filter_keeps(v.drop_last(), f, at);
        let u = v.drop_last().filter(f);
        let k = choose|k: int| 0 <= k < u.len() && u[k] == v[at];
        assert(w[k] == v[at]);
    }
}

proof fn lemma_filter_holds<T>(v: Seq<T>, f: spec_fn(T) -> bool)
    ensures
        forall|i: int| 0 <= i < v.filter(f).len() ==> f(#[trigger] v.filter(f)[i]),
        forall|i: int| 0 <= i < v.filter(f).len() ==> v.contains(#[trigger] v.filter(f)[i]),
    decreases v.len(),
{
    reveal(Seq::filter);
    if v.len() > 0 {
        lemma_filter_holds(v.drop_last(), f);
        let u = v.drop_last().filter(f);
        let w = v.filter(f);
        assert forall|i: int| 0 <= i < w.len() implies v.contains(#[trigger] w[i]) by {
            if i < u.len() {
                assert(w[i] == u[i]);
                let k = choose|k: int| 0 <= k < v.drop_last().len() && v.drop_last()[k] == u[i];
                assert(v[k] == w[i]);
            } else {
                assert(w[i] == v[v.len() - 1]);
            }
        }
        assert forall|i: int| 0 <= i < w.len() implies f(#[trigger] w[i]) by {
            if i < u.len() {
                assert(w[i] == u[i]);
            }
        }
    }
}

proof fn lemma_filter_idempotent<T>(v: Seq<T>, f: spec_fn(T) -> bool)
    requires
        forall|i: int| 0 <= i < v.len() ==> f(#[trigger] v[i]),
    ensures
        v.filter(f) == v,
    decreases v.len(),
{
    reveal(Seq::filter);
    if v.len() > 0 {
        lemma_filter_idempotent(v.drop_last(), f);
        assert(v.drop_last().push(v.last()) =~= v);
    } else {
        assert(v.filter(f) =~= v);
    }
}

/// Pruning dead nodes leaves inputs and outputs as they are, and keeps every
/// initializer that a live node reads, that is an output, or that doubles as an
/// input.
pub proof fn law_dead_pruning_keeps_initializers(g: GraphV, at: int)
    requires
        0 <= at < g.initializer.len(),
        has_info(g.input, g.initializer[at].name) || has_info(g.output, g.initializer[at].name) || (
        exists|k: int|
            0 <= k < g.node.len() && is_live(g.node.skip(k), g.output) && node_needs(
                #[trigger] g.node[k],
                g.initializer[at].name,
            )),
    ensures
        without_dead_nodes(g).initializer.contains(g.initializer[at]),
        without_dead_nodes(g).input == g.input,
        without_dead_nodes(g).output == g.output,
{
    let name = g.initializer[at].name;
    if has_info(g.output, name) {
        lemma_output_needed(g.node, g.output, name);
    } else if !has_info(g.input, name) {
        let k = choose|k: int|
            0 <= k < g.node.len() && is_live(g.node.skip(k), g.output) && node_needs(
                #[trigger] g.node[k],
                name,
            );
        assert(g.node.skip(k)[0] == g.node[k]);
        assert(needed_by(g.node.skip(k), g.output, name));
        lemma_needed_before(g.node, g.output, k, name);
    }
    lemma_filter_keeps(
        g.initializer,
        |t: TensorV| needed_by(g.node, g.output, t.name) || has_info(g.input, t.name),
        at,
    );
    assert(g.initializer.contains(g.initializer[at]));
}

/// The inputs that stay are those that a node or an output refers to, and
/// pruning inputs again changes nothing.
pub proof fn law_input_pruning(g: GraphV)
    ensures
        forall|i: int|
            0 <= i < g.input.len() ==> (without_unused_inputs(g).input.contains(
                #[trigger] g.input[i],
            ) <==> consumed(g.node, g.output, g.input[i].name)),
        without_unused_inputs(without_unused_inputs(g)) == without_unused_inputs(g),
{
    let f = |x: ValueInfoV| consumed(g.node, g.output, x.name);
    let kept = g.input.filter(f);
    lemma_filter_holds(g.input, f);
    lemma_filter_idempotent(kept, f);
    assert forall|i: int| 0 <= i < g.input.len() implies (kept.contains(#[trigger] g.input[i])
        <==> consumed(g.node, g.output, g.input[i].name)) by {
        if f(g.input[i]) {
            lemma_filter_keeps(g.input, f, i);
        }
        if kept.contains(g.input[i]) {
            let k = choose|k: int| 0 <= k < kept.len() && kept[k] == g.input[i];
            assert(f(kept[k]));
        }
    }
}

/// No output that stays is a zero-size constant, and pruning outputs again
/// changes nothing.
pub proof fn law_empty_output_pruning(g: GraphV)
    ensures
        ({
            let r = without_empty_outputs(g);
            &&& forall|i: int|
                0 <= i < r.output.len() ==> !names_empty(r, (#[trigger] r.output[i]).name)
            &&& without_empty_outputs(r) == r
        }),
{
    let r = without_empty_outputs(g);
    let f = |o: ValueInfoV| !names_empty(g, o.name);
    let outputs = g.output.filter(f);
    lemma_filter_holds(g.output, f);
    lemma_filter_len(g.output, f);
    assert(r.output == outputs);
    assert forall|name: Seq<char>| names_empty(r, name) implies names_empty(g, name) by {
        if outputs.len() != g.output.len() && outputs.len() != 0 {
            let fn_ = |n: NodeV| stays(g.node, outputs, n);
            let ft = |t: TensorV| !is_empty_tensor(t) || consumed(g.node, outputs, t.name);
            lemma_filter_holds(g.node, fn_);
            lemma_filter_holds(g.initializer, ft);
            if exists|i: int|
                0 <= i < r.initializer.len() && is_empty_tensor(#[trigger] r.initializer[i])
                    && r.initializer[i].name == name {
                let i = choose|i: int|
                    0 <= i < r.initializer.len() && is_empty_tensor(#[trigger] r.initializer[i])
                        && r.initializer[i].name == name;
                assert(g.initializer.contains(r.initializer[i]));
                let k = choose|k: int|
                    0 <= k < g.initializer.len() && g.initializer[k] == r.initializer[i];
                assert(is_empty_tensor(g.initializer[k]));
            } else {
                let i = choose|i: int|
                    0 <= i < r.node.len() && is_empty_constant(#[trigger] r.node[i])
                        && r.node[i].output.contains(name);
                assert(g.node.contains(r.node[i]));
                let k = choose|k: int| 0 <= k < g.node.len() && g.node[k] == r.node[i];
                assert(is_empty_constant(g.node[k]));
            }
        }
    }
    let h = |o: ValueInfoV| !names_empty(r, o.name);
    assert forall|i: int| 0 <= i < r.output.len() implies h(#[trigger] r.output[i]) by {
        assert(f(outputs[i]));
    }
    lemma_filter_idempotent(r.output, h);
}

} // verus!
