//! Inlining of `If` nodes whose condition is known.
//!
//! The chosen branch's nodes and initializers are spliced into the outer graph
//! with internal names prefixed, also where control-flow bodies within read
//! them; names captured from the outer scope stay. A condition that depends on
//! run-time values leaves the node in place.
use crate::context;
use crate::lower;
use crate::names::NameMap;
use crate::pin;
use crate::protos;
use crate::protos::{
    AttributeProto, AttributeV, DimV, DimensionProto, GraphProto, GraphV, ModelProto, ModelV,
    NodeProto, NodeV, TensorProto, TensorV, ValueInfoProto, ValueInfoV,
};
use crate::prune;
use crate::tensors;
use crate::text;
use crate::types;
use vstd::hash_set::StringHashSet;
use vstd::prelude::*;

verus! {

// ---------------------------------------------------------------------------
// Renaming
// ---------------------------------------------------------------------------

/// The number of branch outputs that feed an output of the `If`.
pub open spec fn fed(branch: GraphV, node: NodeV) -> int {
    if branch.output.len() <= node.output.len() {
        branch.output.len() as int
    } else {
        node.output.len() as int
    }
}

/// The `If` output that the last of the first `n` branch outputs of this name
/// feeds. An `If` output without a name takes nothing.
pub open spec fn fed_output(branch: GraphV, node: NodeV, n: int, name: Seq<char>) -> Option<
    Seq<char>,
>
    decreases n,
{
    if n <= 0 {
        None
    } else if branch.output[n - 1].name == name && node.output[n - 1].len() > 0 {
        Some(node.output[n - 1])
    } else {
        fed_output(branch, node, n - 1, name)
    }
}

/// What stands in front of the names of an inlined branch.
pub open spec fn splice_prefix(node: NodeV) -> Seq<char> {
    if node.name.len() == 0 {
        (if node.output.len() > 0 {
            node.output[0]
        } else {
            seq![]
        }) + "_if"@
    } else {
        node.name
    }
}

pub open spec fn prefixed(node: NodeV, name: Seq<char>) -> Seq<char> {
    splice_prefix(node) + "::"@ + name
}

/// A node of the branch produces a name.
pub open spec fn is_produced(branch: GraphV, name: Seq<char>) -> bool {
    name.len() > 0 && prune::has_output(branch.node, name)
}

/// A branch defines a name by an initializer, which may be without a name, or by
/// a node output.
pub open spec fn is_internal(branch: GraphV, name: Seq<char>) -> bool {
    prune::has_tensor(branch.initializer, name) || is_produced(branch, name)
}

/// What a name of the branch is called in the outer graph. A name that a node
/// produces and the branch hands out is that of the `If` output it feeds; other
/// internal names are prefixed; captures stay.
pub open spec fn renamed(branch: GraphV, node: NodeV, name: Seq<char>) -> Seq<char> {
    if !is_internal(branch, name) {
        name
    } else {
        match fed_output(branch, node, fed(branch, node), name) {
            Some(n) => if is_produced(branch, name) {
                n
            } else {
                prefixed(node, name)
            },
            None => prefixed(node, name),
        }
    }
}

pub open spec fn renamed_all(branch: GraphV, node: NodeV, v: Seq<Seq<char>>) -> Seq<Seq<char>> {
    Seq::new(v.len(), |i: int| renamed(branch, node, v[i]))
}

/// The names that are hidden within a control-flow body: those of the scopes
/// around it and those that it defines itself.
pub open spec fn within(hidden: Set<Seq<char>>, g: GraphV) -> Set<Seq<char>> {
    Set::new(|n: Seq<char>| hidden.contains(n) || prune::defines(g, n))
}

/// What a name that a body refers to is called: a hidden name is the body's own,
/// and an input that is left out stays so.
pub open spec fn body_name(
    branch: GraphV,
    node: NodeV,
    hidden: Set<Seq<char>>,
    name: Seq<char>,
) -> Seq<char> {
    if name.len() == 0 || hidden.contains(name) {
        name
    } else {
        renamed(branch, node, name)
    }
}

/// A control-flow body with the names that it takes from the branch renamed.
pub open spec fn renamed_body(
    branch: GraphV,
    node: NodeV,
    hidden: Set<Seq<char>>,
    g: GraphV,
) -> GraphV
    decreases g,
{
    let inner = within(hidden, g);
    GraphV {
        node: Seq::new(
            g.node.len(),
            |i: int|
                if 0 <= i < g.node.len() {
                    renamed_body_node(branch, node, inner, g.node[i])
                } else {
                    arbitrary()
                },
        ),
        output: Seq::new(
            g.output.len(),
            |i: int|
                ValueInfoV {
                    name: body_name(branch, node, inner, g.output[i].name),
                    ..g.output[i]
                },
        ),
        ..g
    }
}

pub open spec fn renamed_body_node(
    branch: GraphV,
    node: NodeV,
    hidden: Set<Seq<char>>,
    n: NodeV,
) -> NodeV
    decreases n,
{
    NodeV {
        input: Seq::new(n.input.len(), |i: int| body_name(branch, node, hidden, n.input[i])),
        attribute: Seq::new(
            n.attribute.len(),
            |i: int|
                if 0 <= i < n.attribute.len() {
                    renamed_attribute(branch, node, hidden, n.attribute[i])
                } else {
                    arbitrary()
                },
        ),
        ..n
    }
}

pub open spec fn renamed_attribute(
    branch: GraphV,
    node: NodeV,
    hidden: Set<Seq<char>>,
    a: AttributeV,
) -> AttributeV
    decreases a,
{
    AttributeV {
        g: match a.g {
            Some(g) => Some(renamed_body(branch, node, hidden, g)),
            None => None,
        },
        graphs: Seq::new(
            a.graphs.len(),
            |i: int|
                if 0 <= i < a.graphs.len() {
                    renamed_body(branch, node, hidden, a.graphs[i])
                } else {
                    arbitrary()
                },
        ),
        ..a
    }
}

/// A node of the branch as it stands in the outer graph. Bodies within it read
/// the renamed values.
pub open spec fn renamed_node(branch: GraphV, node: NodeV, n: NodeV) -> NodeV {
    NodeV {
        name: if n.name.len() > 0 {
            prefixed(node, n.name)
        } else {
            n.name
        },
        input: renamed_all(branch, node, n.input),
        output: renamed_all(branch, node, n.output),
        ..renamed_body_node(branch, node, Set::empty(), n)
    }
}

pub open spec fn renamed_nodes(branch: GraphV, node: NodeV) -> Seq<NodeV> {
    Seq::new(branch.node.len(), |i: int| renamed_node(branch, node, branch.node[i]))
}

pub open spec fn renamed_tensors(branch: GraphV, node: NodeV) -> Seq<TensorV> {
    Seq::new(
        branch.initializer.len(),
        |i: int|
            TensorV {
                name: prefixed(node, branch.initializer[i].name),
                ..branch.initializer[i]
            },
    )
}

/// What a passthrough to an `If` output reads: the branch output under its new
/// name.
pub open spec fn passthrough_source(branch: GraphV, node: NodeV, k: int) -> Seq<char> {
    renamed(branch, node, branch.output[k].name)
}

pub open spec fn passthrough(branch: GraphV, node: NodeV, k: int) -> NodeV {
    NodeV {
        op_type: "Identity"@,
        domain: seq![],
        name: splice_prefix(node) + "::passthrough_"@ + node.output[k],
        input: seq![passthrough_source(branch, node, k)],
        output: seq![node.output[k]],
        attribute: seq![],
    }
}

/// A passthrough for each of the first `n` outputs that no node of the branch
/// produces.
pub open spec fn passthroughs(branch: GraphV, node: NodeV, n: int) -> Seq<NodeV>
    decreases n,
{
    if n <= 0 {
        seq![]
    } else {
        let front = passthroughs(branch, node, n - 1);
        if prune::has_output(renamed_nodes(branch, node), node.output[n - 1]) {
            front
        } else {
            front.push(passthrough(branch, node, n - 1))
        }
    }
}

/// The nodes that take the place of an `If`.
pub open spec fn spliced_nodes(branch: GraphV, node: NodeV) -> Seq<NodeV> {
    renamed_nodes(branch, node) + passthroughs(branch, node, fed(branch, node))
}

// ---------------------------------------------------------------------------
// One round
// ---------------------------------------------------------------------------

/// The condition of an `If`, where it is known.
pub open spec fn condition(node: NodeV, consts: Map<Seq<char>, Seq<i64>>) -> Option<i64> {
    if node.input.len() > 0 && consts.contains_key(node.input[0]) && consts[node.input[0]].len()
        > 0 {
        Some(consts[node.input[0]][0])
    } else {
        None
    }
}

/// The branch that is taken, where that is known and the branch is there.
pub open spec fn taken_branch(node: NodeV, consts: Map<Seq<char>, Seq<i64>>) -> Option<GraphV> {
    if node.op_type != "If"@ {
        None
    } else {
        match condition(node, consts) {
            None => None,
            Some(c) => match context::first_attr(
                node.attribute,
                if c != 0 {
                    "then_branch"@
                } else {
                    "else_branch"@
                },
            ) {
                Some(a) => a.g,
                None => None,
            },
        }
    }
}

/// The nodes with every decided `If` inlined.
pub open spec fn inlined_nodes(nodes: Seq<NodeV>, consts: Map<Seq<char>, Seq<i64>>) -> Seq<NodeV>
    decreases nodes.len(),
{
    if nodes.len() == 0 {
        seq![]
    } else {
        let front = inlined_nodes(nodes.drop_last(), consts);
        match taken_branch(nodes.last(), consts) {
            Some(branch) => front + spliced_nodes(branch, nodes.last()),
            None => front.push(nodes.last()),
        }
    }
}

/// The initializers that come with the inlined branches.
pub open spec fn inlined_tensors(nodes: Seq<NodeV>, consts: Map<Seq<char>, Seq<i64>>) -> Seq<TensorV>
    decreases nodes.len(),
{
    if nodes.len() == 0 {
        seq![]
    } else {
        let front = inlined_tensors(nodes.drop_last(), consts);
        match taken_branch(nodes.last(), consts) {
            Some(branch) => front + renamed_tensors(branch, nodes.last()),
            None => front,
        }
    }
}

/// Some `If` is decided.
pub open spec fn some_taken(nodes: Seq<NodeV>, consts: Map<Seq<char>, Seq<i64>>) -> bool {
    exists|i: int| 0 <= i < nodes.len() && taken_branch(#[trigger] nodes[i], consts) is Some
}

/// The graph after one round: branches in place, dead nodes gone.
pub open spec fn inlined_graph(g: GraphV, consts: Map<Seq<char>, Seq<i64>>) -> GraphV {
    if some_taken(g.node, consts) {
        prune::without_dead_nodes(
            GraphV {
                node: inlined_nodes(g.node, consts),
                initializer: g.initializer + inlined_tensors(g.node, consts),
                ..g
            },
        )
    } else {
        g
    }
}

// ---------------------------------------------------------------------------
// Execution
// ---------------------------------------------------------------------------

fn find_prefix(node: &NodeProto) -> (r: String)
    ensures
        r@ == splice_prefix(node@),
{
    proof {
        reveal_strlit("");
    }
    if text::str_eq(node.name.as_str(), "") {
        assert(node@.name.len() == 0);
        let mut s = if node.output.len() > 0 {
            node.output[0].clone()
        } else {
            String::new()
        };
        s.append("_if");
        s
    } else {
        assert(node@.name.len() != 0) by {
            assert(node@.name.len() == 0 ==> node@.name =~= ""@);
        }
        node.name.clone()
    }
}

fn with_prefix(prefix: &String, name: &String) -> (r: String)
    ensures
        r@ == prefix@ + "::"@ + name@,
{
    let mut s = prefix.clone();
    s.append("::");
    s.append(name.as_str());
    s
}

/// The names that the nodes of a branch produce.
fn produced_names(branch: &GraphProto) -> (r: StringHashSet)
    ensures
        forall|n: Seq<char>| #[trigger] r@.contains(n) <==> prune::has_output(branch@.node, n),
{
    let mut set = StringHashSet::new();
    let ghost nodes = branch@.node;
    let mut i: usize = 0;
    while i < branch.node.len()
        invariant
            i <= branch.node@.len(),
            nodes == branch@.node,
            forall|n: Seq<char>|
                #[trigger] set@.contains(n) <==> exists|k: int|
                    0 <= k < i && (#[trigger] nodes[k]).output.contains(n),
        decreases branch.node@.len() - i,
    {
        assert(nodes[i as int].output == protos::texts(branch.node@[i as int].output@));
        prune::add_texts(&mut set, &branch.node[i].output);
        i = i + 1;
    }
    set
}

/// The names hidden in any of these scopes.
spec fn hidden_in(scopes: Seq<StringHashSet>) -> Set<Seq<char>> {
    Set::new(|n: Seq<char>| exists|k: int| 0 <= k < scopes.len() && (#[trigger] scopes[k])@.contains(n))
}

proof fn lemma_hidden_push(scopes: Seq<StringHashSet>, s: StringHashSet, g: GraphV)
    requires
        forall|n: Seq<char>| #[trigger] s@.contains(n) <==> prune::defines(g, n),
    ensures
        hidden_in(scopes.push(s)) == within(hidden_in(scopes), g),
{
    let all = scopes.push(s);
    assert forall|n: Seq<char>| #[trigger] hidden_in(all).contains(n) <==> within(
        hidden_in(scopes),
        g,
    ).contains(n) by {
        if hidden_in(scopes).contains(n) {
            let k = choose|k: int| 0 <= k < scopes.len() && (#[trigger] scopes[k])@.contains(n);
            assert(all[k]@.contains(n));
        }
        if prune::defines(g, n) {
            assert(all[scopes.len() as int]@.contains(n));
        }
        if hidden_in(all).contains(n) {
            let k = choose|k: int| 0 <= k < all.len() && (#[trigger] all[k])@.contains(n);
            if k < scopes.len() {
                assert(scopes[k]@.contains(n));
            }
        }
    }
    assert(hidden_in(all) =~= within(hidden_in(scopes), g));
}

fn is_hidden(scopes: &Vec<StringHashSet>, name: &String) -> (r: bool)
    ensures
        r == hidden_in(scopes@).contains(name@),
{
    let mut i: usize = 0;
    while i < scopes.len()
        invariant
            i <= scopes@.len(),
            forall|k: int| 0 <= k < i ==> !(#[trigger] scopes@[k])@.contains(name@),
        decreases scopes@.len() - i,
    {
        if scopes[i].contains(name.as_str()) {
            return true;
        }
        i = i + 1;
    }
    false
}

/// An `If` that is being inlined.
struct Splice<'a> {
    branch: &'a GraphProto,
    node: &'a NodeProto,
    prefix: String,
    constants: StringHashSet,
    produced: StringHashSet,
}

impl<'a> Splice<'a> {
    spec fn wf(&self) -> bool {
        &&& self.prefix@ == splice_prefix(self.node@)
        &&& forall|n: Seq<char>| #[trigger]
            self.constants@.contains(n) <==> prune::has_tensor(self.branch@.initializer, n)
        &&& forall|n: Seq<char>| #[trigger]
            self.produced@.contains(n) <==> prune::has_output(self.branch@.node, n)
    }

    fn new(branch: &'a GraphProto, node: &'a NodeProto) -> (r: Self)
        ensures
            r.wf(),
            r.branch == branch,
            r.node == node,
    {
        assert(branch@.initializer =~= protos::tensors_v(branch.initializer@));
        Splice {
            branch,
            node,
            prefix: find_prefix(node),
            constants: lower::tensor_names(&branch.initializer),
            produced: produced_names(branch),
        }
    }

    fn fed(&self) -> (r: usize)
        ensures
            r == fed(self.branch@, self.node@),
            r <= self.branch.output@.len(),
            r <= self.node.output@.len(),
    {
        if self.branch.output.len() <= self.node.output.len() {
            self.branch.output.len()
        } else {
            self.node.output.len()
        }
    }

    /// The `If` output that a branch output of this name feeds.
    fn find_fed(&self, name: &String) -> (r: Option<&String>)
        ensures
            r matches Some(n) ==> fed_output(
                self.branch@,
                self.node@,
                fed(self.branch@, self.node@),
                name@,
            ) == Some(n@),
            r is None ==> fed_output(
                self.branch@,
                self.node@,
                fed(self.branch@, self.node@),
                name@,
            ) is None,
    {
        let n: usize = self.fed();
        let mut k: usize = n;
        while k > 0
            invariant
                k <= n,
                n <= self.branch.output@.len(),
                n <= self.node.output@.len(),
                n == fed(self.branch@, self.node@),
                fed_output(self.branch@, self.node@, n as int, name@) == fed_output(
                    self.branch@,
                    self.node@,
                    k as int,
                    name@,
                ),
            decreases k,
        {
            assert(self.branch@.output[k - 1].name == self.branch.output@[k - 1].name@);
            assert(self.node@.output[k - 1] == self.node.output@[k - 1]@);
            if self.branch.output[k - 1].name == *name && !self.node.output[k
                - 1].as_str().is_empty() {
                return Some(&self.node.output[k - 1]);
            }
            k = k - 1;
        }
        None
    }

    fn renamed(&self, name: &String) -> (r: String)
        requires
            self.wf(),
        ensures
            r@ == renamed(self.branch@, self.node@, name@),
    {
        if !name.as_str().is_empty() && self.produced.contains(name.as_str()) {
            return match self.find_fed(name) {
                Some(n) => n.clone(),
                None => with_prefix(&self.prefix, name),
            };
        }
        if self.constants.contains(name.as_str()) {
            return with_prefix(&self.prefix, name);
        }
        name.clone()
    }

    fn body_name(&self, scopes: &Vec<StringHashSet>, name: &String) -> (r: String)
        requires
            self.wf(),
        ensures
            r@ == body_name(self.branch@, self.node@, hidden_in(scopes@), name@),
    {
        if name.as_str().is_empty() || is_hidden(scopes, name) {
            name.clone()
        } else {
            self.renamed(name)
        }
    }

    /// A control-flow body with the names that it takes from the branch renamed.
    fn renamed_body(&self, g: &GraphProto, scopes: &mut Vec<StringHashSet>) -> (r: GraphProto)
        requires
            self.wf(),
        ensures
            r@ == renamed_body(self.branch@, self.node@, hidden_in(old(scopes)@), g@),
            final(scopes)@ == old(scopes)@,
        decreases g,
    {
        let ghost outer = hidden_in(scopes@);
        let ghost want = renamed_body(self.branch@, self.node@, outer, g@);
        let ghost start = scopes@;
        let local = prune::local_names(g);
        proof {
            lemma_hidden_push(scopes@, local, g@);
        }
        scopes.push(local);
        let ghost deep = scopes@;
        let mut r = g.copy();
        let ghost copied = r@;
        let mut nodes: Vec<NodeProto> = Vec::new();
        let mut i: usize = 0;
        while i < g.node.len()
            invariant
                i <= g.node@.len(),
                self.wf(),
                scopes@ == deep,
                hidden_in(deep) == within(outer, g@),
                nodes@.len() == i,
                forall|k: int|
                    0 <= k < i ==> (#[trigger] nodes@[k])@ == renamed_body_node(
                        self.branch@,
                        self.node@,
                        hidden_in(deep),
                        g.node@[k]@,
                    ),
            decreases g.node@.len() - i,
        {
            let n = self.renamed_body_node(&g.node[i], scopes);
            nodes.push(n);
            i = i + 1;
        }
        let mut outputs: Vec<ValueInfoProto> = Vec::new();
        let mut i: usize = 0;
        while i < g.output.len()
            invariant
                i <= g.output@.len(),
                self.wf(),
                scopes@ == deep,
                outputs@.len() == i,
                forall|k: int|
                    0 <= k < i ==> (#[trigger] outputs@[k])@ == (ValueInfoV {
                        name: body_name(
                            self.branch@,
                            self.node@,
                            hidden_in(deep),
                            g.output@[k]@.name,
                        ),
                        ..g.output@[k]@
                    }),
            decreases g.output@.len() - i,
        {
            let mut o = g.output[i].copy();
            o.name = self.body_name(scopes, &g.output[i].name);
            outputs.push(o);
            i = i + 1;
        }
        r.node = nodes;
        r.output = outputs;
        scopes.pop();
        proof {
            assert(scopes@ =~= start);
            assert(r@.node =~= want.node);
            assert(r@.output =~= want.output);
        }
        r
    }

    fn renamed_body_node(&self, n: &NodeProto, scopes: &mut Vec<StringHashSet>) -> (r: NodeProto)
        requires
            self.wf(),
        ensures
            r@ == renamed_body_node(self.branch@, self.node@, hidden_in(old(scopes)@), n@),
            final(scopes)@ == old(scopes)@,
        decreases n,
    {
        let ghost start = scopes@;
        let ghost want = renamed_body_node(self.branch@, self.node@, hidden_in(start), n@);
        let mut attributes: Vec<AttributeProto> = Vec::new();
        let mut i: usize = 0;
        while i < n.attribute.len()
            invariant
                i <= n.attribute@.len(),
                self.wf(),
                scopes@ == start,
                attributes@.len() == i,
                forall|k: int|
                    0 <= k < i ==> (#[trigger] attributes@[k])@ == renamed_attribute(
                        self.branch@,
                        self.node@,
                        hidden_in(start),
                        n.attribute@[k]@,
                    ),
            decreases n.attribute@.len() - i,
        {
            let a = self.renamed_attribute(&n.attribute[i], scopes);
            attributes.push(a);
            i = i + 1;
        }
        let mut inputs: Vec<String> = Vec::new();
        let mut i: usize = 0;
        while i < n.input.len()
            invariant
                i <= n.input@.len(),
                self.wf(),
                scopes@ == start,
                inputs@.len() == i,
                forall|k: int|
                    0 <= k < i ==> (#[trigger] inputs@[k])@ == body_name(
                        self.branch@,
                        self.node@,
                        hidden_in(start),
                        n.input@[k]@,
                    ),
            decreases n.input@.len() - i,
        {
            inputs.push(self.body_name(scopes, &n.input[i]));
            i = i + 1;
        }
        let mut r = n.copy();
        r.attribute = attributes;
        r.input = inputs;
        proof {
            assert(r@.attribute =~= want.attribute);
            assert(r@.input =~= want.input);
        }
        r
    }

    fn renamed_attribute(&self, a: &AttributeProto, scopes: &mut Vec<StringHashSet>) -> (r:
        AttributeProto)
        requires
            self.wf(),
        ensures
            r@ == renamed_attribute(self.branch@, self.node@, hidden_in(old(scopes)@), a@),
            final(scopes)@ == old(scopes)@,
        decreases a,
    {
        let ghost start = scopes@;
        let ghost want = renamed_attribute(self.branch@, self.node@, hidden_in(start), a@);
        let mut graphs: Vec<GraphProto> = Vec::new();
        let mut i: usize = 0;
        while i < a.graphs.len()
            invariant
                i <= a.graphs@.len(),
                self.wf(),
                scopes@ == start,
                graphs@.len() == i,
                forall|k: int|
                    0 <= k < i ==> (#[trigger] graphs@[k])@ == renamed_body(
                        self.branch@,
                        self.node@,
                        hidden_in(start),
                        a.graphs@[k]@,
                    ),
            decreases a.graphs@.len() - i,
        {
            let g = self.renamed_body(&a.graphs[i], scopes);
            graphs.push(g);
            i = i + 1;
        }
        let body = match &a.g {
            Some(g) => Some(self.renamed_body(g, scopes)),
            None => None,
        };
        let mut r = a.copy();
        r.g = body;
        r.graphs = graphs;
        assert(r@.graphs =~= want.graphs);
        r
    }

    fn renamed_all(&self, v: &Vec<String>) -> (r: Vec<String>)
        requires
            self.wf(),
        ensures
            protos::texts(r@) == renamed_all(self.branch@, self.node@, protos::texts(v@)),
    {
        let mut r: Vec<String> = Vec::new();
        let mut i: usize = 0;
        while i < v.len()
            invariant
                i <= v@.len(),
                self.wf(),
                r@.len() == i,
                forall|k: int|
                    0 <= k < i ==> (#[trigger] r@[k])@ == renamed(
                        self.branch@,
                        self.node@,
                        v@[k]@,
                    ),
            decreases v@.len() - i,
        {
            r.push(self.renamed(&v[i]));
            i = i + 1;
        }
        assert(protos::texts(r@) =~= renamed_all(self.branch@, self.node@, protos::texts(v@)));
        r
    }

    fn renamed_node(&self, n: &NodeProto) -> (r: NodeProto)
        requires
            self.wf(),
        ensures
            r@ == renamed_node(self.branch@, self.node@, n@),
    {
        let mut scopes: Vec<StringHashSet> = Vec::new();
        assert(hidden_in(scopes@) =~= Set::<Seq<char>>::empty());
        let mut r = self.renamed_body_node(n, &mut scopes);
        if !n.name.as_str().is_empty() {
            r.name = with_prefix(&self.prefix, &n.name);
        }
        r.input = self.renamed_all(&n.input);
        r.output = self.renamed_all(&n.output);
        r
    }

    /// Appends the renamed initializers of the branch.
    fn add_tensors(&self, tensors: &mut Vec<TensorProto>)
        requires
            self.wf(),
        ensures
            protos::tensors_v(final(tensors)@) == protos::tensors_v(old(tensors)@)
                + renamed_tensors(self.branch@, self.node@),
    {
        let ghost start = protos::tensors_v(tensors@);
        let ghost want = renamed_tensors(self.branch@, self.node@);
        let mut i: usize = 0;
        assert(start + want.take(0) =~= start);
        while i < self.branch.initializer.len()
            invariant
                i <= self.branch.initializer@.len(),
                self.wf(),
                want == renamed_tensors(self.branch@, self.node@),
                protos::tensors_v(tensors@) == start + want.take(i as int),
            decreases self.branch.initializer@.len() - i,
        {
            let ghost before = protos::tensors_v(tensors@);
            let mut t = self.branch.initializer[i].copy();
            t.name = with_prefix(&self.prefix, &self.branch.initializer[i].name);
            let ghost tv = t@;
            assert(tv == want[i as int]);
            tensors.push(t);
            i = i + 1;
            proof {
                assert(protos::tensors_v(tensors@) =~= before.push(tv));
                assert(before.push(tv) =~= start + want.take(i as int));
            }
        }
        assert(want.take(i as int) =~= want);
    }

    /// Appends the renamed nodes of the branch and the passthroughs.
    fn add_nodes(&self, nodes: &mut Vec<NodeProto>)
        requires
            self.wf(),
        ensures
            protos::nodes_v(final(nodes)@) == protos::nodes_v(old(nodes)@) + spliced_nodes(
                self.branch@,
                self.node@,
            ),
    {
        let ghost start = protos::nodes_v(nodes@);
        let ghost want = renamed_nodes(self.branch@, self.node@);
        let mut produced = StringHashSet::new();
        let mut i: usize = 0;
        assert(start + want.take(0) =~= start);
        while i < self.branch.node.len()
            invariant
                i <= self.branch.node@.len(),
                self.wf(),
                want == renamed_nodes(self.branch@, self.node@),
                protos::nodes_v(nodes@) == start + want.take(i as int),
                forall|n: Seq<char>|
                    #[trigger] produced@.contains(n) <==> exists|k: int|
                        0 <= k < i && (#[trigger] want[k]).output.contains(n),
            decreases self.branch.node@.len() - i,
        {
            let ghost before = protos::nodes_v(nodes@);
            assert(self.branch@.node[i as int] == self.branch.node@[i as int]@);
            let n = self.renamed_node(&self.branch.node[i]);
            let ghost nv = n@;
            assert(nv == want[i as int]);
            assert(nv.output == protos::texts(n.output@));
            prune::add_texts(&mut produced, &n.output);
            nodes.push(n);
            i = i + 1;
            proof {
                assert(protos::nodes_v(nodes@) =~= before.push(nv));
                assert(before.push(nv) =~= start + want.take(i as int));
            }
        }
        assert(want.take(i as int) =~= want);
        let ghost mid = protos::nodes_v(nodes@);
        let n: usize = self.fed();
        let mut k: usize = 0;
        assert(mid + passthroughs(self.branch@, self.node@, 0) =~= mid);
        while k < n
            invariant
                k <= n,
                n == fed(self.branch@, self.node@),
                n <= self.branch.output@.len(),
                n <= self.node.output@.len(),
                self.wf(),
                want == renamed_nodes(self.branch@, self.node@),
                forall|m: Seq<char>|
                    #[trigger] produced@.contains(m) <==> prune::has_output(want, m),
                protos::nodes_v(nodes@) == mid + passthroughs(self.branch@, self.node@, k as int),
            decreases n - k,
        {
            let ghost before = protos::nodes_v(nodes@);
            assert(self.node@.output[k as int] == self.node.output@[k as int]@);
            if !produced.contains(self.node.output[k].as_str()) {
                let p = self.make_passthrough(k);
                let ghost pv = p@;
                nodes.push(p);
                proof {
                    assert(protos::nodes_v(nodes@) =~= before.push(pv));
                    assert(before.push(pv) =~= mid + passthroughs(
                        self.branch@,
                        self.node@,
                        k + 1,
                    ));
                }
            }
            k = k + 1;
        }
        assert(start + want + passthroughs(self.branch@, self.node@, n as int) =~= start
            + spliced_nodes(self.branch@, self.node@));
    }

    fn make_passthrough(&self, k: usize) -> (r: NodeProto)
        requires
            self.wf(),
            k < self.branch.output@.len(),
            k < self.node.output@.len(),
        ensures
            r@ == passthrough(self.branch@, self.node@, k as int),
    {
        let branch_out = &self.branch.output[k].name;
        let if_out = &self.node.output[k];
        assert(self.branch@.output[k as int].name == branch_out@);
        assert(self.node@.output[k as int] == if_out@);
        let source: String = self.renamed(branch_out);
        let mut name = self.prefix.clone();
        name.append("::passthrough_");
        name.append(if_out.as_str());
        let mut input: Vec<String> = Vec::new();
        input.push(source);
        let mut output: Vec<String> = Vec::new();
        output.push(if_out.clone());
        let r = NodeProto {
            op_type: String::from_str("Identity"),
            domain: String::new(),
            name,
            input,
            output,
            attribute: Vec::new(),
        };
        proof {
            let want = passthrough(self.branch@, self.node@, k as int);
            assert(r@.input =~= want.input);
            assert(r@.output =~= want.output);
            assert(r@.attribute =~= want.attribute);
            assert(r@.domain =~= want.domain);
        }
        r
    }
}

fn find_branch<'a>(node: &'a NodeProto, consts: &NameMap<Vec<i64>>) -> (r: Option<&'a GraphProto>)
    ensures
        r matches Some(g) ==> taken_branch(node@, consts@) == Some(g@),
        r is None ==> taken_branch(node@, consts@) is None,
{
    if !text::str_eq(node.op_type.as_str(), "If") || node.input.len() == 0 {
        return None;
    }
    assert(node@.input[0] == node.input@[0]@);
    let cond: i64 = match consts.get(&node.input[0]) {
        Some(v) => if v.len() > 0 {
            v[0]
        } else {
            return None;
        },
        None => return None,
    };
    let attr = if cond != 0 {
        node.find_attr("then_branch")
    } else {
        node.find_attr("else_branch")
    };
    match attr {
        Some(a) => match &a.g {
            Some(g) => Some(g),
            None => None,
        },
        None => None,
    }
}

/// Inline every `If` whose condition is among the known constants. Returns
/// whether there was one; the dead condition chain is dropped then.
pub fn inline_decided_ifs(graph: &mut GraphProto, consts: &NameMap<Vec<i64>>) -> (r: bool)
    ensures
        r == some_taken(old(graph)@.node, consts@),
        final(graph)@ == inlined_graph(old(graph)@, consts@),
{
    let ghost all = graph@.node;
    let ghost start = graph@;
    let mut nodes: Vec<NodeProto> = Vec::new();
    let mut tensors: Vec<TensorProto> = Vec::new();
    let mut changed: bool = false;
    let mut i: usize = 0;
    proof {
        assert(all.take(0) =~= Seq::<NodeV>::empty());
        assert(protos::nodes_v(nodes@) =~= Seq::<NodeV>::empty());
        assert(protos::tensors_v(tensors@) =~= Seq::<TensorV>::empty());
    }
    while i < graph.node.len()
        invariant
            i <= graph.node@.len(),
            all == graph@.node,
            protos::nodes_v(nodes@) == inlined_nodes(all.take(i as int), consts@),
            protos::tensors_v(tensors@) == inlined_tensors(all.take(i as int), consts@),
            changed == (exists|k: int|
                0 <= k < i && taken_branch(#[trigger] all[k], consts@) is Some),
        decreases graph.node@.len() - i,
    {
        let node = &graph.node[i];
        proof {
            assert(all[i as int] == node@);
            assert(all.take(i + 1).drop_last() =~= all.take(i as int));
        }
        match find_branch(node, consts) {
            Some(branch) => {
                let splice = Splice::new(branch, node);
                splice.add_tensors(&mut tensors);
                splice.add_nodes(&mut nodes);
                changed = true;
            },
            None => {
                let ghost before = protos::nodes_v(nodes@);
                let c = node.copy();
                let ghost cv = c@;
                nodes.push(c);
                assert(protos::nodes_v(nodes@) =~= before.push(cv));
            },
        }
        i = i + 1;
    }
    assert(all.take(i as int) =~= all);
    if !changed {
        return false;
    }
    let ghost old_tensors = graph@.initializer;
    let ghost new_tensors = protos::tensors_v(tensors@);
    graph.node = nodes;
    graph.initializer.append(&mut tensors);
    proof {
        assert(graph@.initializer =~= old_tensors + new_tensors);
        assert(graph@.node =~= inlined_nodes(all, consts@));
    }
    prune::prune_dead_nodes(graph);
    true
}

// ---------------------------------------------------------------------------
// Seeds
// ---------------------------------------------------------------------------

/// Shapes and constants that are known before folding.
pub struct IfSeed {
    pub value_shapes: NameMap<Vec<i64>>,
    pub const_values: NameMap<Vec<i64>>,
}

pub struct SeedV {
    pub shapes: Map<Seq<char>, Seq<i64>>,
    pub consts: Map<Seq<char>, Seq<i64>>,
}

impl View for IfSeed {
    type V = SeedV;

    open spec fn view(&self) -> SeedV {
        SeedV { shapes: self.value_shapes@, consts: self.const_values@ }
    }
}

/// The name under which an axis without a symbol can be overridden.
pub open spec fn axis_name(input: Seq<char>, axis: int) -> Seq<char> {
    types::sanitized(input) + "_dim"@ + text::decimal(axis)
}

/// The size of an axis, by its declaration or an override.
pub open spec fn known_size(
    d: DimV,
    input: Seq<char>,
    axis: int,
    overrides: Map<Seq<char>, u32>,
) -> Option<i64> {
    match d {
        DimV::Value(v) => if v > 0 {
            Some(v)
        } else if overrides.contains_key(axis_name(input, axis)) {
            Some(overrides[axis_name(input, axis)] as i64)
        } else {
            None
        },
        DimV::Param(p) => if overrides.contains_key(p) {
            Some(overrides[p] as i64)
        } else {
            None
        },
        DimV::Unknown => None,
    }
}

/// The shape of an input, where every size is known.
pub open spec fn known_shape(info: ValueInfoV, overrides: Map<Seq<char>, u32>) -> Option<Seq<i64>> {
    match info.tensor_type {
        None => None,
        Some(t) => match t.shape {
            None => None,
            Some(d) => if forall|i: int|
                0 <= i < d.len() ==> known_size(#[trigger] d[i], info.name, i, overrides) is Some {
                Some(Seq::new(d.len(), |i: int| known_size(d[i], info.name, i, overrides)->0))
            } else {
                None
            },
        },
    }
}

/// The shapes of the inputs in order; the last one of a name counts.
pub open spec fn seed_inputs(v: Seq<ValueInfoV>, overrides: Map<Seq<char>, u32>) -> Map<
    Seq<char>,
    Seq<i64>,
>
    decreases v.len(),
{
    if v.len() == 0 {
        Map::empty()
    } else {
        let front = seed_inputs(v.drop_last(), overrides);
        match known_shape(v.last(), overrides) {
            Some(s) => front.insert(v.last().name, s),
            None => front,
        }
    }
}

/// The first `n` initializers added; of one name the last counts.
pub open spec fn seed_tensors(s: SeedV, v: Seq<TensorV>, n: int) -> SeedV
    decreases n,
{
    if n <= 0 {
        s
    } else {
        let front = seed_tensors(s, v, n - 1);
        let t = v[n - 1];
        if prune::has_tensor(v.skip(n), t.name) {
            front
        } else {
            let ints = tensors::condition_payload(t);
            SeedV {
                shapes: front.shapes.insert(t.name, t.dims),
                consts: if ints.len() > 0 {
                    front.consts.insert(t.name, ints)
                } else {
                    front.consts
                },
            }
        }
    }
}

/// The tensor of a `Constant` node.
pub open spec fn constant_tensor(n: NodeV) -> Option<TensorV> {
    match context::first_attr(n.attribute, "value"@) {
        Some(a) => a.t,
        None => None,
    }
}

/// The `Constant` nodes added in order.
pub open spec fn seed_constants(s: SeedV, v: Seq<NodeV>) -> SeedV
    decreases v.len(),
{
    if v.len() == 0 {
        s
    } else {
        let front = seed_constants(s, v.drop_last());
        let n = v.last();
        if n.op_type == "Constant"@ && n.output.len() > 0 && (constant_tensor(n) matches Some(t)
            && tensors::condition_payload(t).len() > 0) {
            let t = constant_tensor(n)->0;
            SeedV {
                shapes: front.shapes.insert(n.output[0], t.dims),
                consts: front.consts.insert(n.output[0], tensors::condition_payload(t)),
            }
        } else {
            front
        }
    }
}

pub open spec fn graph_seed(g: GraphV, overrides: Map<Seq<char>, u32>) -> SeedV {
    seed_constants(
        seed_tensors(
            SeedV { shapes: seed_inputs(g.input, overrides), consts: Map::empty() },
            g.initializer,
            g.initializer.len() as int,
        ),
        g.node,
    )
}

pub(crate) fn make_axis_name(input: &String, axis: usize) -> (r: String)
    ensures
        r@ == axis_name(input@, axis as int),
{
    let mut s = types::sanitize_identifier(input.as_str());
    s.append("_dim");
    let d = text::decimal_usize(axis);
    s.append(d.as_str());
    s
}

fn find_size(d: &DimensionProto, input: &String, axis: usize, overrides: &NameMap<u32>) -> (r:
    Option<i64>)
    ensures
        r == known_size(d@, input@, axis as int, overrides@),
{
    match d {
        DimensionProto::DimValue(v) => if *v > 0 {
            Some(*v)
        } else {
            let name = make_axis_name(input, axis);
            match overrides.get(&name) {
                Some(n) => Some(*n as i64),
                None => None,
            }
        },
        DimensionProto::DimParam(p) => match overrides.get(p) {
            Some(n) => Some(*n as i64),
            None => None,
        },
        DimensionProto::Unknown => None,
    }
}

fn find_shape(info: &ValueInfoProto, overrides: &NameMap<u32>) -> (r: Option<Vec<i64>>)
    ensures
        r matches Some(s) ==> known_shape(info@, overrides@) == Some(s@),
        r is None ==> known_shape(info@, overrides@) is None,
{
    let dims = match &info.tensor_type {
        None => return None,
        Some(t) => match &t.shape {
            None => return None,
            Some(d) => d,
        },
    };
    let ghost dv = protos::dims_v(dims@);
    let mut out: Vec<i64> = Vec::new();
    let mut i: usize = 0;
    while i < dims.len()
        invariant
            i <= dims@.len(),
            dv == protos::dims_v(dims@),
            info@.tensor_type is Some,
            info@.tensor_type->0.shape == Some(dv),
            out@.len() == i,
            forall|k: int|
                0 <= k < i ==> known_size(#[trigger] dv[k], info@.name, k, overrides@) == Some(
                    out@[k],
                ),
        decreases dims@.len() - i,
    {
        assert(dv[i as int] == dims@[i as int]@);
        match find_size(&dims[i], &info.name, i, overrides) {
            Some(n) => {
                out.push(n);
            },
            None => return None,
        }
        i = i + 1;
    }
    assert(out@ =~= known_shape(info@, overrides@)->0);
    Some(out)
}

/// Whether a tensor from `from` on has this name.
fn named_later(v: &Vec<TensorProto>, from: usize, name: &String) -> (r: bool)
    requires
        from <= v@.len(),
    ensures
        r == prune::has_tensor(protos::tensors_v(v@).skip(from as int), name@),
{
    let ghost rest = protos::tensors_v(v@).skip(from as int);
    let mut i: usize = from;
    while i < v.len()
        invariant
            from <= i <= v@.len(),
            rest == protos::tensors_v(v@).skip(from as int),
            forall|k: int| 0 <= k < i - from ==> (#[trigger] rest[k]).name != name@,
        decreases v@.len() - i,
    {
        assert(rest[i - from].name == v@[i as int].name@);
        if v[i].name == *name {
            return true;
        }
        i = i + 1;
    }
    false
}

/// What is known of a graph's values before its constants are folded: shapes of
/// inputs whose sizes are declared or overridden, and shapes and integers of
/// constants.
pub fn seed_graph(graph: &GraphProto, overrides: &NameMap<u32>) -> (r: IfSeed)
    ensures
        r@ == graph_seed(graph@, overrides@),
{
    let mut shapes: NameMap<Vec<i64>> = NameMap::new();
    let ghost inputs = graph@.input;
    let mut i: usize = 0;
    assert(inputs.take(0) =~= Seq::<ValueInfoV>::empty());
    while i < graph.input.len()
        invariant
            i <= graph.input@.len(),
            inputs == protos::infos_v(graph.input@),
            shapes@ == seed_inputs(inputs.take(i as int), overrides@),
        decreases graph.input@.len() - i,
    {
        assert(inputs.take(i + 1).drop_last() =~= inputs.take(i as int));
        assert(inputs[i as int] == graph.input@[i as int]@);
        if let Some(s) = find_shape(&graph.input[i], overrides) {
            shapes.insert(graph.input[i].name.clone(), s);
        }
        i = i + 1;
    }
    assert(inputs.take(i as int) =~= inputs);
    let mut seed = IfSeed { value_shapes: shapes, const_values: NameMap::new() };
    let ghost start = seed@;
    let ghost tv = graph@.initializer;
    let mut i: usize = 0;
    while i < graph.initializer.len()
        invariant
            i <= graph.initializer@.len(),
            tv == protos::tensors_v(graph.initializer@),
            seed@ == seed_tensors(start, tv, i as int),
        decreases graph.initializer@.len() - i,
    {
        let t = &graph.initializer[i];
        assert(tv[i as int] == t@);
        if !named_later(&graph.initializer, i + 1, &t.name) {
            let dims = t.dims.clone();
            assert(dims@ =~= t.dims@);
            seed.value_shapes.insert(t.name.clone(), dims);
            let ints = tensors::read_int_tensor(t);
            if ints.len() > 0 {
                seed.const_values.insert(t.name.clone(), ints);
            }
        }
        i = i + 1;
    }
    let ghost mid = seed@;
    let ghost nodes = graph@.node;
    let mut i: usize = 0;
    assert(nodes.take(0) =~= Seq::<NodeV>::empty());
    while i < graph.node.len()
        invariant
            i <= graph.node@.len(),
            nodes == graph@.node,
            seed@ == seed_constants(mid, nodes.take(i as int)),
        decreases graph.node@.len() - i,
    {
        let n = &graph.node[i];
        assert(nodes[i as int] == n@);
        assert(nodes.take(i + 1).drop_last() =~= nodes.take(i as int));
        if text::str_eq(n.op_type.as_str(), "Constant") && n.output.len() > 0 {
            assert(n@.output[0] == n.output@[0]@);
            if let Some(a) = n.find_attr("value") {
                if let Some(t) = &a.t {
                    let ints = tensors::read_int_tensor(t);
                    if ints.len() > 0 {
                        let dims = t.dims.clone();
                        assert(dims@ =~= t.dims@);
                        seed.value_shapes.insert(n.output[0].clone(), dims);
                        seed.const_values.insert(n.output[0].clone(), ints);
                    }
                }
            }
        }
        i = i + 1;
    }
    assert(nodes.take(i as int) =~= nodes);
    seed
}

/// At most this many rounds of inlining are made; a branch may hold further
/// `If` nodes.
pub const MAX_ROUNDS: usize = 4;

pub open spec fn has_if(m: ModelV) -> bool {
    m.graph matches Some(g) && exists|i: int|
        0 <= i < g.node.len() && (#[trigger] g.node[i]).op_type == "If"@
}

/// Whether another round of inlining is due.
pub fn round_due(model: &ModelProto, round: usize) -> (r: bool)
    ensures
        r == (round < MAX_ROUNDS && has_if(model@)),
{
    if round >= MAX_ROUNDS {
        return false;
    }
    let graph = match &model.graph {
        Some(g) => g,
        None => return false,
    };
    let ghost nodes = graph@.node;
    let mut i: usize = 0;
    while i < graph.node.len()
        invariant
            i <= graph.node@.len(),
            nodes == graph@.node,
            round < MAX_ROUNDS,
            model@.graph == Some(graph@),
            forall|k: int| 0 <= k < i ==> (#[trigger] nodes[k]).op_type != "If"@,
        decreases graph.node@.len() - i,
    {
        assert(nodes[i as int] == graph.node@[i as int]@);
        if text::str_eq(graph.node[i].op_type.as_str(), "If") {
            assert(model@.graph->0.node[i as int].op_type == "If"@);
            return true;
        }
        i = i + 1;
    }
    false
}

// ---------------------------------------------------------------------------
// Laws
// ---------------------------------------------------------------------------

/// Names that a branch takes from the outer scope stay as they are; the names
/// it defines get the prefix, except that those which its nodes produce and it
/// hands out take the names of the `If` outputs they feed.
pub proof fn law_renaming(branch: GraphV, node: NodeV, name: Seq<char>)
    ensures
        !is_internal(branch, name) ==> renamed(branch, node, name) == name,
        is_internal(branch, name) && (!is_produced(branch, name) || !prune::has_info(
            branch.output,
            name,
        )) ==> renamed(branch, node, name) == splice_prefix(node) + "::"@ + name,
        forall|k: int|
            is_produced(branch, name) && 0 <= k < fed(branch, node) && (
            #[trigger] branch.output[k]).name == name && node.output[k].len() > 0 && (forall|j: int|
                k < j < fed(branch, node) ==> (#[trigger] branch.output[j]).name != name)
                ==> renamed(branch, node, name) == node.output[k],
{
    lemma_fed_output(branch, node, fed(branch, node), name);
    assert forall|k: int|
        is_produced(branch, name) && 0 <= k < fed(branch, node) && (
        #[trigger] branch.output[k]).name == name && node.output[k].len() > 0 && (forall|j: int|
            k < j < fed(branch, node) ==> (#[trigger] branch.output[j]).name != name) implies renamed(
        branch,
        node,
        name,
    ) == node.output[k] by {
        lemma_fed_last(branch, node, fed(branch, node), k, name);
    }
}

proof fn lemma_fed_output(branch: GraphV, node: NodeV, n: int, name: Seq<char>)
    requires
        n <= branch.output.len(),
    ensures
        fed_output(branch, node, n, name) is Some ==> prune::has_info(branch.output, name),
    decreases n,
{
    if n > 0 {
        if branch.output[n - 1].name == name {
            assert(prune::has_info(branch.output, name));
        } else {
            lemma_fed_output(branch, node, n - 1, name);
        }
    }
}

proof fn lemma_fed_last(branch: GraphV, node: NodeV, n: int, k: int, name: Seq<char>)
    requires
        0 <= k < n <= branch.output.len(),
        branch.output[k].name == name,
        node.output[k].len() > 0,
        forall|j: int| k < j < n ==> (#[trigger] branch.output[j]).name != name,
    ensures
        fed_output(branch, node, n, name) == Some(node.output[k]),
    decreases n,
{
    if k < n - 1 {
        assert(branch.output[n - 1].name != name);
        lemma_fed_last(branch, node, n - 1, k, name);
    }
}

proof fn lemma_passthrough_there(branch: GraphV, node: NodeV, n: int, k: int)
    requires
        0 <= k < n,
        !prune::has_output(renamed_nodes(branch, node), node.output[k]),
    ensures
        passthroughs(branch, node, n).contains(passthrough(branch, node, k)),
    decreases n,
{
    let all = passthroughs(branch, node, n);
    if k == n - 1 {
        assert(all.last() == passthrough(branch, node, k));
    } else {
        lemma_passthrough_there(branch, node, n - 1, k);
        let front = passthroughs(branch, node, n - 1);
        let i = choose|i: int| 0 <= i < front.len() && front[i] == passthrough(branch, node, k);
        assert(all[i] == passthrough(branch, node, k));
    }
}

/// Every output of an inlined `If` that the branch feeds has a producer among
/// the nodes that take its place.
pub proof fn law_if_outputs_are_produced(branch: GraphV, node: NodeV, k: int)
    requires
        0 <= k < fed(branch, node),
    ensures
        prune::has_output(spliced_nodes(branch, node), node.output[k]),
{
    let nodes = renamed_nodes(branch, node);
    let all = spliced_nodes(branch, node);
    let o = node.output[k];
    if prune::has_output(nodes, o) {
        let i = choose|i: int| 0 <= i < nodes.len() && (#[trigger] nodes[i]).output.contains(o);
        assert(all[i] == nodes[i]);
    } else {
        let n = fed(branch, node);
        lemma_passthrough_there(branch, node, n, k);
        let p = passthroughs(branch, node, n);
        let i = choose|i: int| 0 <= i < p.len() && p[i] == passthrough(branch, node, k);
        assert(all[nodes.len() + i] == p[i]);
        assert(p[i].output[0] == o);
    }
}

/// A branch output that is a capture is passed through from the outer name, and
/// one that is an initializer of the branch from the name under which the
/// initializer is spliced in.
pub proof fn law_outputs_pass_through(branch: GraphV, node: NodeV, k: int)
    requires
        0 <= k < fed(branch, node),
        !is_produced(branch, branch.output[k].name),
    ensures
        !is_internal(branch, branch.output[k].name) ==> passthrough_source(branch, node, k)
            == branch.output[k].name,
        is_internal(branch, branch.output[k].name) ==> passthrough_source(branch, node, k)
            == prefixed(node, branch.output[k].name) && prune::has_tensor(
            renamed_tensors(branch, node),
            passthrough_source(branch, node, k),
        ),
{
    let name = branch.output[k].name;
    if is_internal(branch, name) {
        let i = choose|i: int|
            0 <= i < branch.initializer.len() && (#[trigger] branch.initializer[i]).name == name;
        assert(renamed_tensors(branch, node)[i].name == prefixed(node, name));
    }
}

proof fn lemma_undecided_kept(nodes: Seq<NodeV>, consts: Map<Seq<char>, Seq<i64>>, at: int)
    requires
        0 <= at < nodes.len(),
        taken_branch(nodes[at], consts) is None,
    ensures
        inlined_nodes(nodes, consts).contains(nodes[at]),
    decreases nodes.len(),
{
    let all = inlined_nodes(nodes, consts);
    if at == nodes.len() - 1 {
        assert(all.last() == nodes[at]);
    } else {
        lemma_undecided_kept(nodes.drop_last(), consts, at);
        let front = inlined_nodes(nodes.drop_last(), consts);
        let i = choose|i: int| 0 <= i < front.len() && front[i] == nodes[at];
        assert(all[i] == nodes[at]);
    }
}

/// Nodes that are no decided `If` are still there once branches are in place,
/// and without a decided `If` the graph does not change.
pub proof fn law_undecided_nodes_stay(g: GraphV, consts: Map<Seq<char>, Seq<i64>>)
    ensures
        forall|i: int|
            0 <= i < g.node.len() && taken_branch(#[trigger] g.node[i], consts) is None
                ==> inlined_nodes(g.node, consts).contains(g.node[i]),
        !some_taken(g.node, consts) ==> inlined_graph(g, consts) == g,
{
    assert forall|i: int|
        0 <= i < g.node.len() && taken_branch(
            #[trigger] g.node[i],
            consts,
        ) is None implies inlined_nodes(g.node, consts).contains(g.node[i]) by {
        lemma_undecided_kept(g.node, consts, i);
    }
}

proof fn lemma_seed_constants_keep(s: SeedV, v: Seq<NodeV>, name: Seq<char>)
    requires
        !prune::has_output(v, name),
    ensures
        seed_constants(s, v).consts.contains_key(name) <==> s.consts.contains_key(name),
        s.consts.contains_key(name) ==> seed_constants(s, v).consts[name] == s.consts[name],
    decreases v.len(),
{
    if v.len() > 0 {
        assert forall|i: int| 0 <= i < v.drop_last().len() implies !(
        #[trigger] v.drop_last()[i]).output.contains(name) by {
            assert(v.drop_last()[i] == v[i]);
        }
        lemma_seed_constants_keep(s, v.drop_last(), name);
        let n = v.last();
        assert(v[v.len() - 1] == n);
        if n.output.len() > 0 {
            assert(n.output.contains(n.output[0]));
        }
    }
}

/// An `If` whose condition is a pinned boolean input is decided by the pinned
/// value: `then_branch` where it is not zero and `else_branch` otherwise.
pub proof fn law_pinned_condition_decides(
    g: GraphV,
    name: Seq<char>,
    value: i64,
    overrides: Map<Seq<char>, u32>,
    node: NodeV,
)
    requires
        pin::pin_one(g, name, value).error is None,
        g.input[pin::info_pos(g.input, name)].tensor_type->0.elem_type == protos::TYPE_BOOL,
        !prune::has_output(g.node, name),
        node.op_type == "If"@,
        node.input.len() > 0,
        node.input[0] == name,
    ensures
        ({
            let pinned = pin::pin_one(g, name, value).graph;
            let consts = graph_seed(pinned, overrides).consts;
            &&& condition(node, consts) == Some(
                if value != 0 {
                    1i64
                } else {
                    0i64
                },
            )
            &&& taken_branch(node, consts) == (match context::first_attr(
                node.attribute,
                if value != 0 {
                    "then_branch"@
                } else {
                    "else_branch"@
                },
            ) {
                Some(a) => a.g,
                None => None,
            })
        }),
{
    let pinned = pin::pin_one(g, name, value).graph;
    let start = SeedV { shapes: seed_inputs(pinned.input, overrides), consts: Map::empty() };
    let v = pinned.initializer;
    let n = v.len() as int;
    let t = v[n - 1];
    let info = g.input[pin::info_pos(g.input, name)];
    let total = pin::element_total(pin::static_dims(info.tensor_type->0));
    let element = pin::pinned_element(protos::TYPE_BOOL, value)->0;
    assert(t.raw_data == pin::repeated(element, total));
    lemma_repeated_first(element, total);
    assert(!prune::has_tensor(v.skip(n), name));
    let mid = seed_tensors(start, v, n);
    let bit = if value != 0 {
        1i64
    } else {
        0i64
    };
    assert(tensors::condition_payload(t)[0] == bit);
    assert(mid.consts.contains_key(name) && mid.consts[name] == tensors::condition_payload(t));
    lemma_seed_constants_keep(mid, pinned.node, name);
}

proof fn lemma_repeated_first(b: Seq<u8>, n: int)
    requires
        n >= 1,
        b.len() == 1,
    ensures
        pin::repeated(b, n).len() == n,
        pin::repeated(b, n)[0] == b[0],
    decreases n,
{
    if n > 1 {
        lemma_repeated_first(b, n - 1);
    } else {
        assert(pin::repeated(b, 0).len() == 0);
    }
}

} // verus!
