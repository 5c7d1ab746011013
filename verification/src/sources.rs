//! Where the names that nodes read come from.
//!
//! In a graph that is in order, whatever a node reads, as an input or within a
//! control-flow body, is a graph input, an initializer or an output of an
//! earlier node. Pruning and inlining keep that.
use crate::context;
use crate::inline_if;
use crate::protos::{AttributeV, GraphV, NodeV, TensorV, ValueInfoV};
use crate::prune;
use vstd::prelude::*;

verus! {

/// A control-flow body reads a name that no scope within defines.
pub open spec fn is_free(g: GraphV, name: Seq<char>) -> bool
    decreases g,
{
    &&& name.len() > 0
    &&& !prune::defines(g, name)
    &&& {
        ||| prune::has_input(g.node, name)
        ||| prune::has_info(g.output, name)
        ||| exists|i: int| 0 <= i < g.node.len() && node_free(#[trigger] g.node[i], name)
    }
}

/// A body of a node reads a name that no scope within defines.
pub open spec fn node_free(n: NodeV, name: Seq<char>) -> bool
    decreases n,
{
    exists|i: int| 0 <= i < n.attribute.len() && attribute_free(#[trigger] n.attribute[i], name)
}

pub open spec fn attribute_free(a: AttributeV, name: Seq<char>) -> bool
    decreases a,
{
    ||| (a.g matches Some(g) && is_free(g, name))
    ||| exists|i: int| 0 <= i < a.graphs.len() && is_free(#[trigger] a.graphs[i], name)
}

/// A node reads a name: it is an input, or a body takes it from the scopes
/// around it.
pub open spec fn reads(n: NodeV, name: Seq<char>) -> bool {
    name.len() > 0 && (n.input.contains(name) || node_free(n, name))
}

/// Whatever one of these nodes reads is known, or an earlier one produces it.
pub open spec fn in_order(nodes: Seq<NodeV>, known: Set<Seq<char>>) -> bool {
    forall|i: int, name: Seq<char>|
        0 <= i < nodes.len() && #[trigger] reads(nodes[i], name) ==> known.contains(name)
            || prune::has_output(nodes.take(i), name)
}

/// The inputs and initializers of a graph.
pub open spec fn given(g: GraphV) -> Set<Seq<char>> {
    Set::new(|n: Seq<char>| prune::has_info(g.input, n) || prune::has_tensor(g.initializer, n))
}

/// Every name that a node reads is an input, an initializer or an output of an
/// earlier node, and every graph output is one of these too.
pub open spec fn is_complete(g: GraphV) -> bool {
    &&& in_order(g.node, given(g))
    &&& forall|k: int|
        0 <= k < g.output.len() && (#[trigger] g.output[k]).name.len() > 0 ==> given(g).contains(
            g.output[k].name,
        ) || prune::has_output(g.node, g.output[k].name)
}

/// A branch has no inputs, and what its nodes read of one another comes first.
pub open spec fn branch_in_order(b: GraphV) -> bool {
    &&& b.input.len() == 0
    &&& forall|i: int, name: Seq<char>|
        0 <= i < b.node.len() && #[trigger] reads(b.node[i], name) && prune::has_output(
            b.node,
            name,
        ) ==> prune::has_output(b.node.take(i), name)
}

/// The branches that are taken are in order and feed every output of their node.
pub open spec fn branches_fit(nodes: Seq<NodeV>, consts: Map<Seq<char>, Seq<i64>>) -> bool {
    forall|i: int|
        0 <= i < nodes.len() ==> (inline_if::taken_branch(#[trigger] nodes[i], consts) matches Some(
            b,
        ) ==> branch_in_order(b) && nodes[i].output.len() <= b.output.len())
}

// ---------------------------------------------------------------------------
// Lists of nodes
// ---------------------------------------------------------------------------

proof fn lemma_output_at(v: Seq<NodeV>, i: int, name: Seq<char>)
    requires
        0 <= i < v.len(),
        v[i].output.contains(name),
    ensures
        prune::has_output(v, name),
{
}

proof fn lemma_output_join(a: Seq<NodeV>, b: Seq<NodeV>, name: Seq<char>)
    ensures
        prune::has_output(a + b, name) <==> prune::has_output(a, name) || prune::has_output(
            b,
            name,
        ),
{
    let all = a + b;
    if prune::has_output(a, name) {
        let i = choose|i: int| 0 <= i < a.len() && (#[trigger] a[i]).output.contains(name);
        assert(all[i].output.contains(name));
    }
    if prune::has_output(b, name) {
        let i = choose|i: int| 0 <= i < b.len() && (#[trigger] b[i]).output.contains(name);
        assert(all[a.len() + i].output.contains(name));
    }
    if prune::has_output(all, name) {
        let i = choose|i: int| 0 <= i < all.len() && (#[trigger] all[i]).output.contains(name);
        if i < a.len() {
            assert(a[i].output.contains(name));
        } else {
            assert(b[i - a.len()].output.contains(name));
        }
    }
}

proof fn lemma_tensor_join(a: Seq<TensorV>, b: Seq<TensorV>, name: Seq<char>)
    ensures
        prune::has_tensor(a + b, name) <==> prune::has_tensor(a, name) || prune::has_tensor(
            b,
            name,
        ),
{
    let all = a + b;
    if prune::has_tensor(a, name) {
        let i = choose|i: int| 0 <= i < a.len() && (#[trigger] a[i]).name == name;
        assert(all[i].name == name);
    }
    if prune::has_tensor(b, name) {
        let i = choose|i: int| 0 <= i < b.len() && (#[trigger] b[i]).name == name;
        assert(all[a.len() + i].name == name);
    }
    if prune::has_tensor(all, name) {
        let i = choose|i: int| 0 <= i < all.len() && (#[trigger] all[i]).name == name;
        if i < a.len() {
            assert(a[i].name == name);
        } else {
            assert(b[i - a.len()].name == name);
        }
    }
}

/// What is known, and what these nodes produce.
spec fn with_outputs(known: Set<Seq<char>>, nodes: Seq<NodeV>) -> Set<Seq<char>> {
    Set::new(|n: Seq<char>| known.contains(n) || prune::has_output(nodes, n))
}

proof fn lemma_in_order_join(a: Seq<NodeV>, b: Seq<NodeV>, known: Set<Seq<char>>)
    requires
        in_order(a, known),
        in_order(b, with_outputs(known, a)),
    ensures
        in_order(a + b, known),
{
    let all = a + b;
    assert forall|i: int, name: Seq<char>|
        0 <= i < all.len() && #[trigger] reads(all[i], name) implies known.contains(name)
        || prune::has_output(all.take(i), name) by {
        if i < a.len() {
            assert(all[i] == a[i]);
            assert(all.take(i) =~= a.take(i));
        } else {
            let j = i - a.len();
            assert(all[i] == b[j]);
            assert(reads(b[j], name));
            assert(all.take(i) =~= a + b.take(j));
            lemma_output_join(a, b.take(j), name);
        }
    }
}

proof fn lemma_in_order_more(nodes: Seq<NodeV>, known: Set<Seq<char>>, more: Set<Seq<char>>)
    requires
        in_order(nodes, known),
        forall|n: Seq<char>| #[trigger] known.contains(n) ==> more.contains(n),
    ensures
        in_order(nodes, more),
{
}

// ---------------------------------------------------------------------------
// Pruning
// ---------------------------------------------------------------------------

proof fn lemma_free_read(g: GraphV, name: Seq<char>)
    requires
        is_free(g, name),
    ensures
        prune::reads_outer(g, name),
    decreases g,
{
    if !prune::has_input(g.node, name) && !prune::has_info(g.output, name) {
        let i = choose|i: int| 0 <= i < g.node.len() && node_free(#[trigger] g.node[i], name);
        lemma_node_free_needed(g.node[i], name);
    }
}

proof fn lemma_node_free_needed(n: NodeV, name: Seq<char>)
    requires
        node_free(n, name),
    ensures
        prune::node_captures(n, name),
    decreases n,
{
    let i = choose|i: int|
        0 <= i < n.attribute.len() && attribute_free(#[trigger] n.attribute[i], name);
    lemma_attribute_free_needed(n.attribute[i], name);
}

proof fn lemma_attribute_free_needed(a: AttributeV, name: Seq<char>)
    requires
        attribute_free(a, name),
    ensures
        prune::attribute_captures(a, name),
    decreases a,
{
    if a.g is Some && is_free(a.g->0, name) {
        lemma_free_read(a.g->0, name);
    } else {
        let i = choose|i: int| 0 <= i < a.graphs.len() && is_free(#[trigger] a.graphs[i], name);
        lemma_free_read(a.graphs[i], name);
    }
}

/// What a live node reads is needed.
proof fn lemma_live_reads(nodes: Seq<NodeV>, outputs: Seq<ValueInfoV>, p: int, name: Seq<char>)
    requires
        0 <= p < prune::live_nodes(nodes, outputs).len(),
        reads(prune::live_nodes(nodes, outputs)[p], name),
    ensures
        prune::needed_by(nodes, outputs, name),
    decreases nodes.len(),
{
    let live = prune::live_nodes(nodes, outputs);
    if nodes.len() > 0 {
        let rest = nodes.drop_first();
        let below = prune::live_nodes(rest, outputs);
        if prune::is_live(nodes, outputs) {
            if p == 0 {
                assert(live[0] == nodes[0]);
                if node_free(nodes[0], name) {
                    lemma_node_free_needed(nodes[0], name);
                }
            } else {
                assert(live[p] == below[p - 1]);
                lemma_live_reads(rest, outputs, p - 1, name);
            }
        } else {
            lemma_live_reads(rest, outputs, p, name);
        }
    }
}

proof fn lemma_live_in_order(nodes: Seq<NodeV>, outputs: Seq<ValueInfoV>, known: Set<Seq<char>>)
    requires
        in_order(nodes, known),
    ensures
        in_order(prune::live_nodes(nodes, outputs), known),
    decreases nodes.len(),
{
    if nodes.len() > 0 {
        let first = seq![nodes[0]];
        let rest = nodes.drop_first();
        let more = with_outputs(known, first);
        assert(nodes =~= first + rest);
        assert forall|i: int, name: Seq<char>|
            0 <= i < rest.len() && #[trigger] reads(rest[i], name) implies more.contains(name)
            || prune::has_output(rest.take(i), name) by {
            assert(reads(nodes[i + 1], name));
            assert(nodes.take(i + 1) =~= first + rest.take(i));
            lemma_output_join(first, rest.take(i), name);
        }
        lemma_live_in_order(rest, outputs, more);
        let below = prune::live_nodes(rest, outputs);
        if prune::is_live(nodes, outputs) {
            assert forall|i: int, name: Seq<char>|
                0 <= i < first.len() && #[trigger] reads(first[i], name) implies known.contains(
                name,
            ) || prune::has_output(first.take(i), name) by {
                assert(reads(nodes[0], name));
                assert(nodes.take(0) =~= first.take(0));
            }
            lemma_in_order_join(first, below, known);
        } else {
            assert forall|p: int, name: Seq<char>|
                0 <= p < below.len() && #[trigger] reads(below[p], name) implies known.contains(
                name,
            ) || prune::has_output(below.take(p), name) by {
                lemma_live_reads(rest, outputs, p, name);
                if prune::has_output(first, name) {
                    let k = choose|k: int|
                        0 <= k < nodes[0].output.len() && nodes[0].output[k] == name;
                    assert(prune::needed_by(rest, outputs, nodes[0].output[k]));
                }
            }
        }
    }
}

/// Pruning dead nodes leaves a complete graph complete.
pub proof fn law_dead_pruning_keeps_graphs_complete(g: GraphV)
    requires
        is_complete(g),
    ensures
        is_complete(prune::without_dead_nodes(g)),
{
    let r = prune::without_dead_nodes(g);
    let live = prune::live_nodes(g.node, g.output);
    if live.len() != g.node.len() {
        let keep = |t: TensorV|
            prune::needed_by(g.node, g.output, t.name) || prune::has_info(g.input, t.name);
        lemma_live_in_order(g.node, g.output, given(g));
        assert forall|name: Seq<char>|
            prune::needed_by(g.node, g.output, name) && #[trigger] given(g).contains(
                name,
            ) implies given(r).contains(name) by {
            if !prune::has_info(g.input, name) {
                let i = choose|i: int|
                    0 <= i < g.initializer.len() && (#[trigger] g.initializer[i]).name == name;
                prune::lemma_filter_keeps(g.initializer, keep, i);
                let kept = g.initializer.filter(keep);
                let k = choose|k: int| 0 <= k < kept.len() && kept[k] == g.initializer[i];
                assert(r.initializer[k].name == name);
            }
        }
        assert forall|p: int, name: Seq<char>|
            0 <= p < live.len() && #[trigger] reads(live[p], name) implies given(r).contains(name)
            || prune::has_output(live.take(p), name) by {
            lemma_live_reads(g.node, g.output, p, name);
        }
        assert forall|k: int|
            0 <= k < r.output.len() && (#[trigger] r.output[k]).name.len() > 0 implies given(
            r,
        ).contains(r.output[k].name) || prune::has_output(r.node, r.output[k].name) by {
            let name = g.output[k].name;
            assert(prune::has_info(g.output, name));
            prune::lemma_output_needed(g.node, g.output, name);
            if !given(g).contains(name) {
                let i = choose|i: int|
                    0 <= i < g.node.len() && (#[trigger] g.node[i]).output.contains(name);
                prune::law_output_producers_survive(g, i, name);
                let j = choose|j: int| 0 <= j < r.node.len() && r.node[j] == g.node[i];
                lemma_output_at(r.node, j, name);
            }
        }
    }
}

// ---------------------------------------------------------------------------
// Renamed bodies
// ---------------------------------------------------------------------------

proof fn lemma_defines_same(g: GraphV, r: GraphV, name: Seq<char>)
    requires
        r.input == g.input,
        r.initializer == g.initializer,
        r.node.len() == g.node.len(),
        forall|i: int| 0 <= i < g.node.len() ==> (#[trigger] r.node[i]).output == g.node[i].output,
    ensures
        prune::defines(r, name) == prune::defines(g, name),
{
    if prune::has_output(r.node, name) {
        let i = choose|i: int|
            0 <= i < r.node.len() && (#[trigger] r.node[i]).output.contains(name);
        assert(g.node[i].output.contains(name));
    }
    if prune::has_output(g.node, name) {
        let i = choose|i: int|
            0 <= i < g.node.len() && (#[trigger] g.node[i]).output.contains(name);
        assert(r.node[i].output.contains(name));
    }
}

/// A name that a renamed body takes from the scopes around it is the new name
/// of one that the body took from them before.
proof fn lemma_body_free(
    branch: GraphV,
    node: NodeV,
    hidden: Set<Seq<char>>,
    g: GraphV,
    name: Seq<char>,
) -> (m: Seq<char>)
    requires
        is_free(inline_if::renamed_body(branch, node, hidden, g), name),
    ensures
        is_free(g, m),
        name == inline_if::body_name(branch, node, hidden, m),
    decreases g,
{
    let r = inline_if::renamed_body(branch, node, hidden, g);
    let inner = inline_if::within(hidden, g);
    assert forall|i: int| 0 <= i < g.node.len() implies (#[trigger] r.node[i]).output
        == g.node[i].output by {
        assert(r.node[i] == inline_if::renamed_body_node(branch, node, inner, g.node[i]));
    }
    lemma_defines_same(g, r, name);
    let m = if prune::has_input(r.node, name) {
        let i = choose|i: int| 0 <= i < r.node.len() && (#[trigger] r.node[i]).input.contains(name);
        assert(r.node[i] == inline_if::renamed_body_node(branch, node, inner, g.node[i]));
        let j = choose|j: int| 0 <= j < r.node[i].input.len() && r.node[i].input[j] == name;
        let m = g.node[i].input[j];
        assert(g.node[i].input.contains(m));
        m
    } else if prune::has_info(r.output, name) {
        let i = choose|i: int| 0 <= i < r.output.len() && (#[trigger] r.output[i]).name == name;
        assert(g.output[i].name == g.output[i].name);
        g.output[i].name
    } else {
        let i = choose|i: int| 0 <= i < r.node.len() && node_free(#[trigger] r.node[i], name);
        assert(r.node[i] == inline_if::renamed_body_node(branch, node, inner, g.node[i]));
        lemma_body_node_free(branch, node, inner, g.node[i], name)
    };
    assert(name == inline_if::body_name(branch, node, inner, m));
    assert(m.len() > 0);
    if prune::defines(g, m) {
        assert(inner.contains(m));
        assert(name == m);
    }
    assert(inner.contains(m) == hidden.contains(m));
    m
}

proof fn lemma_body_node_free(
    branch: GraphV,
    node: NodeV,
    hidden: Set<Seq<char>>,
    n: NodeV,
    name: Seq<char>,
) -> (m: Seq<char>)
    requires
        node_free(inline_if::renamed_body_node(branch, node, hidden, n), name),
    ensures
        node_free(n, m),
        m.len() > 0,
        name == inline_if::body_name(branch, node, hidden, m),
    decreases n,
{
    let r = inline_if::renamed_body_node(branch, node, hidden, n);
    let i = choose|i: int|
        0 <= i < r.attribute.len() && attribute_free(#[trigger] r.attribute[i], name);
    assert(r.attribute[i] == inline_if::renamed_attribute(branch, node, hidden, n.attribute[i]));
    let m = lemma_body_attribute_free(branch, node, hidden, n.attribute[i], name);
    assert(attribute_free(n.attribute[i], m));
    m
}

proof fn lemma_body_attribute_free(
    branch: GraphV,
    node: NodeV,
    hidden: Set<Seq<char>>,
    a: AttributeV,
    name: Seq<char>,
) -> (m: Seq<char>)
    requires
        attribute_free(inline_if::renamed_attribute(branch, node, hidden, a), name),
    ensures
        attribute_free(a, m),
        m.len() > 0,
        name == inline_if::body_name(branch, node, hidden, m),
    decreases a,
{
    let r = inline_if::renamed_attribute(branch, node, hidden, a);
    if r.g is Some && is_free(r.g->0, name) {
        lemma_body_free(branch, node, hidden, a.g->0, name)
    } else {
        let i = choose|i: int| 0 <= i < r.graphs.len() && is_free(#[trigger] r.graphs[i], name);
        assert(r.graphs[i] == inline_if::renamed_body(branch, node, hidden, a.graphs[i]));
        let m = lemma_body_free(branch, node, hidden, a.graphs[i], name);
        assert(is_free(a.graphs[i], m));
        m
    }
}

/// What a node reads once it is spliced in is the new name of something that it
/// read in the branch, or of an initializer without a name.
proof fn lemma_renamed_reads(branch: GraphV, node: NodeV, n: NodeV, name: Seq<char>) -> (m: Seq<
    char,
>)
    requires
        reads(inline_if::renamed_node(branch, node, n), name),
    ensures
        reads(n, m) || (m.len() == 0 && prune::has_tensor(branch.initializer, m)),
        name == inline_if::renamed(branch, node, m),
{
    let r = inline_if::renamed_node(branch, node, n);
    let none = Set::<Seq<char>>::empty();
    let b = inline_if::renamed_body_node(branch, node, none, n);
    if r.input.contains(name) {
        let j = choose|j: int| 0 <= j < r.input.len() && r.input[j] == name;
        let m = n.input[j];
        assert(n.input.contains(m));
        m
    } else {
        assert(r.attribute == b.attribute);
        let i = choose|i: int|
            0 <= i < r.attribute.len() && attribute_free(#[trigger] r.attribute[i], name);
        assert(attribute_free(b.attribute[i], name));
        assert(node_free(b, name));
        lemma_body_node_free(branch, node, none, n, name)
    }
}

// ---------------------------------------------------------------------------
// Inlining
// ---------------------------------------------------------------------------

proof fn lemma_passthrough_is(branch: GraphV, node: NodeV, n: int, i: int) -> (k: int)
    requires
        0 <= i < inline_if::passthroughs(branch, node, n).len(),
    ensures
        0 <= k < n,
        inline_if::passthroughs(branch, node, n)[i] == inline_if::passthrough(branch, node, k),
    decreases n,
{
    let all = inline_if::passthroughs(branch, node, n);
    let front = inline_if::passthroughs(branch, node, n - 1);
    if i < front.len() {
        assert(all[i] == front[i]);
        lemma_passthrough_is(branch, node, n - 1, i)
    } else {
        n - 1
    }
}

/// The new name of something that is not produced in a branch is known, where
/// captures and the renamed initializers are.
proof fn lemma_known_name(branch: GraphV, node: NodeV, known: Set<Seq<char>>, m: Seq<char>)
    requires
        !inline_if::is_produced(branch, m),
        !prune::has_tensor(branch.initializer, m) ==> known.contains(m),
        forall|n: Seq<char>| #[trigger]
            prune::has_tensor(inline_if::renamed_tensors(branch, node), n) ==> known.contains(n),
    ensures
        known.contains(inline_if::renamed(branch, node, m)),
{
    if prune::has_tensor(branch.initializer, m) {
        let i = choose|i: int|
            0 <= i < branch.initializer.len() && (#[trigger] branch.initializer[i]).name == m;
        let tensors = inline_if::renamed_tensors(branch, node);
        assert(tensors[i].name == inline_if::prefixed(node, m));
        assert(prune::has_tensor(tensors, inline_if::prefixed(node, m)));
    }
}

/// A name that a node of the branch produces is produced under its new name.
proof fn lemma_produced_name(branch: GraphV, node: NodeV, n: int, m: Seq<char>)
    requires
        0 <= n <= branch.node.len(),
        prune::has_output(branch.node.take(n), m),
    ensures
        prune::has_output(
            inline_if::renamed_nodes(branch, node).take(n),
            inline_if::renamed(branch, node, m),
        ),
{
    let front = branch.node.take(n);
    let i = choose|i: int| 0 <= i < front.len() && (#[trigger] front[i]).output.contains(m);
    let j = choose|j: int| 0 <= j < front[i].output.len() && front[i].output[j] == m;
    let out = inline_if::renamed_nodes(branch, node).take(n);
    assert(out[i] == inline_if::renamed_node(branch, node, branch.node[i]));
    assert(out[i].output[j] == inline_if::renamed(branch, node, m));
}

/// The nodes that take the place of an `If` are in order, where the captures of
/// its branch and the renamed initializers are known.
proof fn lemma_spliced_in_order(branch: GraphV, node: NodeV, known: Set<Seq<char>>)
    requires
        branch_in_order(branch),
        forall|n: Seq<char>| #[trigger] is_free(branch, n) ==> known.contains(n),
        forall|n: Seq<char>| #[trigger]
            prune::has_tensor(inline_if::renamed_tensors(branch, node), n) ==> known.contains(n),
    ensures
        in_order(inline_if::spliced_nodes(branch, node), known),
{
    let body = inline_if::renamed_nodes(branch, node);
    assert forall|i: int, name: Seq<char>|
        0 <= i < body.len() && #[trigger] reads(body[i], name) implies known.contains(name)
        || prune::has_output(body.take(i), name) by {
        assert(body[i] == inline_if::renamed_node(branch, node, branch.node[i]));
        let m = lemma_renamed_reads(branch, node, branch.node[i], name);
        if inline_if::is_produced(branch, m) {
            lemma_produced_name(branch, node, i, m);
        } else {
            if !prune::has_tensor(branch.initializer, m) {
                if branch.node[i].input.contains(m) {
                    assert(prune::has_input(branch.node, m));
                }
                assert(is_free(branch, m));
            }
            lemma_known_name(branch, node, known, m);
        }
    }
    let n = inline_if::fed(branch, node);
    let last = inline_if::passthroughs(branch, node, n);
    let more = with_outputs(known, body);
    assert forall|i: int, name: Seq<char>|
        0 <= i < last.len() && #[trigger] reads(last[i], name) implies more.contains(name)
        || prune::has_output(last.take(i), name) by {
        let k = lemma_passthrough_is(branch, node, n, i);
        let m = branch.output[k].name;
        assert(name == inline_if::renamed(branch, node, m));
        if prune::has_output(branch.node, m) {
            assert(branch.node.take(branch.node.len() as int) =~= branch.node);
            lemma_produced_name(branch, node, branch.node.len() as int, m);
            assert(body.take(branch.node.len() as int) =~= body);
        } else {
            if !prune::has_tensor(branch.initializer, m) {
                assert(prune::has_info(branch.output, m));
                assert(is_free(branch, m));
            }
            lemma_known_name(branch, node, known, m);
        }
    }
    lemma_in_order_join(body, last, known);
}

proof fn lemma_first_attr(a: Seq<AttributeV>, name: Seq<char>) -> (i: int)
    requires
        context::first_attr(a, name) is Some,
    ensures
        0 <= i < a.len(),
        context::first_attr(a, name) == Some(a[i]),
    decreases a.len(),
{
    if a[0].name == name {
        0
    } else {
        1 + lemma_first_attr(a.drop_first(), name)
    }
}

/// What a taken branch captures, its node reads.
proof fn lemma_branch_captures(node: NodeV, consts: Map<Seq<char>, Seq<i64>>, name: Seq<char>)
    requires
        inline_if::taken_branch(node, consts) matches Some(b) && is_free(b, name),
    ensures
        reads(node, name),
{
    let c = inline_if::condition(node, consts)->0;
    let i = lemma_first_attr(
        node.attribute,
        if c != 0 {
            "then_branch"@
        } else {
            "else_branch"@
        },
    );
    assert(attribute_free(node.attribute[i], name));
}

/// The first `n` nodes inlined are in order and produce what these nodes
/// produced.
proof fn lemma_inlined_in_order(g: GraphV, consts: Map<Seq<char>, Seq<i64>>, n: int)
    requires
        in_order(g.node, given(g)),
        branches_fit(g.node, consts),
        0 <= n <= g.node.len(),
    ensures
        ({
            let nodes = inline_if::inlined_nodes(g.node.take(n), consts);
            let tensors = inline_if::inlined_tensors(g.node.take(n), consts);
            &&& in_order(
                nodes,
                given(GraphV { initializer: g.initializer + tensors, ..g }),
            )
            &&& forall|name: Seq<char>|
                name.len() > 0 && #[trigger] prune::has_output(g.node.take(n), name)
                    ==> prune::has_output(nodes, name)
        }),
    decreases n,
{
    let part = g.node.take(n);
    let nodes = inline_if::inlined_nodes(part, consts);
    let tensors = inline_if::inlined_tensors(part, consts);
    let known = given(GraphV { initializer: g.initializer + tensors, ..g });
    if n > 0 {
        let x = g.node[n - 1];
        let before = g.node.take(n - 1);
        assert(part.drop_last() =~= before);
        assert(part =~= before + seq![x]);
        lemma_inlined_in_order(g, consts, n - 1);
        let front = inline_if::inlined_nodes(before, consts);
        let early = inline_if::inlined_tensors(before, consts);
        let first = given(GraphV { initializer: g.initializer + early, ..g });
        let own = match inline_if::taken_branch(x, consts) {
            Some(b) => inline_if::spliced_nodes(b, x),
            None => seq![x],
        };
        assert(nodes =~= front + own);
        assert forall|name: Seq<char>| #[trigger] first.contains(name) implies known.contains(
            name,
        ) by {
            if prune::has_tensor(g.initializer + early, name) {
                match inline_if::taken_branch(x, consts) {
                    Some(b) => {
                        let added = inline_if::renamed_tensors(b, x);
                        assert(g.initializer + tensors =~= g.initializer + early + added);
                        lemma_tensor_join(g.initializer + early, added, name);
                    },
                    None => {},
                }
            }
        }
        lemma_in_order_more(front, first, known);
        let more = with_outputs(known, front);
        // What the node itself reads is known by then.
        assert forall|name: Seq<char>| #[trigger] reads(x, name) implies more.contains(name) by {
            assert(reads(g.node[n - 1], name));
            if prune::has_tensor(g.initializer, name) {
                lemma_tensor_join(g.initializer, tensors, name);
            }
        }
        match inline_if::taken_branch(x, consts) {
            Some(b) => {
                assert(inline_if::taken_branch(g.node[n - 1], consts) == Some(b));
                assert forall|name: Seq<char>| #[trigger] is_free(b, name) implies more.contains(
                    name,
                ) by {
                    lemma_branch_captures(x, consts, name);
                }
                assert forall|name: Seq<char>| #[trigger]
                    prune::has_tensor(
                        inline_if::renamed_tensors(b, x),
                        name,
                    ) implies more.contains(name) by {
                    let added = inline_if::renamed_tensors(b, x);
                    assert(g.initializer + tensors =~= g.initializer + early + added);
                    lemma_tensor_join(g.initializer + early, added, name);
                }
                lemma_spliced_in_order(b, x, more);
            },
            None => {
                assert forall|i: int, name: Seq<char>|
                    0 <= i < own.len() && #[trigger] reads(own[i], name) implies more.contains(
                    name,
                ) || prune::has_output(own.take(i), name) by {
                    assert(own[i] == x);
                }
            },
        }
        lemma_in_order_join(front, own, known);
        assert forall|name: Seq<char>|
            name.len() > 0 && #[trigger] prune::has_output(part, name) implies prune::has_output(
            nodes,
            name,
        ) by {
            lemma_output_join(before, seq![x], name);
            lemma_output_join(front, own, name);
            if !prune::has_output(before, name) {
                let k = choose|k: int| 0 <= k < x.output.len() && x.output[k] == name;
                match inline_if::taken_branch(x, consts) {
                    Some(b) => {
                        assert(inline_if::taken_branch(g.node[n - 1], consts) == Some(b));
                        inline_if::law_if_outputs_are_produced(b, x, k);
                    },
                    None => {},
                }
            }
        }
    }
}

/// Inlining leaves a complete graph complete: once branches are in place and
/// dead nodes are gone, every name that a node reads, also within a control-flow
/// body, is still a graph input, an initializer or an output of an earlier node.
pub proof fn law_inlining_keeps_graphs_complete(g: GraphV, consts: Map<Seq<char>, Seq<i64>>)
    requires
        is_complete(g),
        branches_fit(g.node, consts),
    ensures
        is_complete(inline_if::inlined_graph(g, consts)),
{
    if inline_if::some_taken(g.node, consts) {
        let n = g.node.len() as int;
        let tensors = inline_if::inlined_tensors(g.node, consts);
        let r = GraphV {
            node: inline_if::inlined_nodes(g.node, consts),
            initializer: g.initializer + tensors,
            ..g
        };
        assert(g.node.take(n) =~= g.node);
        lemma_inlined_in_order(g, consts, n);
        assert(given(r) =~= given(GraphV { initializer: g.initializer + tensors, ..g }));
        assert forall|k: int|
            0 <= k < r.output.len() && (#[trigger] r.output[k]).name.len() > 0 implies given(
            r,
        ).contains(r.output[k].name) || prune::has_output(r.node, r.output[k].name) by {
            let name = g.output[k].name;
            if prune::has_tensor(g.initializer, name) {
                lemma_tensor_join(g.initializer, tensors, name);
            }
        }
        law_dead_pruning_keeps_graphs_complete(r);
    }
}

} // verus!
