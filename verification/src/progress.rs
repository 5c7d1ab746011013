//! The order of the work on a model whose inputs and constants are declared:
//! shape inference until it settles, one propagation of what is known, then the
//! nodes one after the other.
//!
//! Part of that work is the caller's. [`Progress::due`] says what comes next; the
//! caller does it and reports the outcome.
use crate::builder;
use crate::builder::{OnnxBuilder, OpV};
use crate::context::ContextV;
use crate::convert;
use crate::convert::{InferenceEvent, Lowering, LoweringV, NodeStep};
use crate::error::{ErrorV, OnnxError};
use crate::names;
use crate::names::NameMap;
use crate::plans;
use crate::protos::{NodeProto, NodeV};
use crate::registry;
use crate::registry::OpRegistry;
use crate::types::{DataType, Dims};
use vstd::prelude::*;

verus! {

/// What is due. Nodes are named by their position.
#[derive(Debug, Clone, Copy, PartialEq, Eq, Structural)]
pub enum Work {
    /// Infer shapes over the whole model.
    Infer,
    /// Propagate shapes and fold constants over the graph.
    Propagate,
    /// Take the next step on a node.
    Node(usize),
    /// Lower a node that this library has no handler for.
    Lower(usize),
    /// Tell the shape of a lowered node's outputs.
    Shape(usize),
    Finished,
}

/// How a piece of work ended.
#[derive(Debug, Clone, Copy, PartialEq, Eq, Structural)]
pub enum Outcome {
    /// Inference is to be tried again.
    Again,
    Done,
    /// What is left to do about a node.
    Step(NodeStep),
}

pub open spec fn node_work(at: int, count: int) -> Work {
    if at < count {
        Work::Node(at as usize)
    } else {
        Work::Finished
    }
}

/// What is due after a piece of work, in a graph of `count` nodes.
pub open spec fn next_work(w: Work, o: Outcome, count: int) -> Work {
    match w {
        Work::Infer => if o is Again {
            Work::Infer
        } else {
            Work::Propagate
        },
        Work::Propagate => node_work(0, count),
        Work::Node(i) => match o {
            Outcome::Step(NodeStep::Lowered) => Work::Shape(i),
            Outcome::Step(NodeStep::Elsewhere) => Work::Lower(i),
            _ => node_work(i + 1, count),
        },
        Work::Lower(i) => Work::Shape(i),
        Work::Shape(i) => node_work(i + 1, count),
        Work::Finished => Work::Finished,
    }
}

/// The node that a piece of work is about is one of the graph.
pub open spec fn is_due(w: Work, count: int) -> bool {
    match w {
        Work::Node(i) => i < count,
        Work::Lower(i) => i < count,
        Work::Shape(i) => i < count,
        _ => true,
    }
}

/// What propagation knows about the values of a graph when it is done.
pub struct Propagated {
    pub value_shapes: NameMap<Vec<i64>>,
    pub value_types: NameMap<DataType>,
    pub const_values: NameMap<Vec<i64>>,
    pub value_shape_dims: NameMap<Dims>,
}

/// The state with what propagation knows.
pub open spec fn after_propagation(s: LoweringV, p: Propagated) -> LoweringV {
    LoweringV {
        context: ContextV {
            value_shapes: p.value_shapes@,
            value_types: p.value_types@,
            ..s.context
        },
        dims: p.value_shape_dims@,
        consts: p.const_values@,
        ..s
    }
}

/// The state of a lowering and the work that is due.
pub struct Progress {
    pub lowering: Lowering,
    pub due: Work,
    /// The number of nodes of the graph.
    pub count: usize,
}

impl Progress {
    pub open spec fn wf(&self) -> bool {
        is_due(self.due, self.count as int)
    }

    /// Work on a graph with `count` nodes starts with shape inference.
    pub fn new(lowering: Lowering, count: usize) -> (r: Self)
        ensures
            r.lowering == lowering,
            r.due == Work::Infer,
            r.count == count,
            r.wf(),
    {
        Progress { lowering, due: Work::Infer, count }
    }

    fn go_to_node(&mut self, at: usize)
        ensures
            final(self).lowering == old(self).lowering,
            final(self).count == old(self).count,
            final(self).due == node_work(at as int, old(self).count as int),
    {
        if at < self.count {
            self.due = Work::Node(at);
        } else {
            self.due = Work::Finished;
        }
    }

    /// Takes in how shape inference over the whole model ended.
    pub fn on_inference(&mut self, event: &InferenceEvent, dynamic: bool) -> (r: Result<
        (),
        OnnxError,
    >)
        requires
            old(self).due == Work::Infer,
        ensures
            ({
                let o = convert::after_inference(old(self).lowering@, event@, dynamic);
                &&& final(self).lowering@ == o.state
                &&& final(self).count == old(self).count
                &&& final(self).wf()
                &&& match o.retry {
                    Err(e) => r matches Err(x) && x@ == e && final(self).due == Work::Infer,
                    Ok(again) => r is Ok && final(self).due == next_work(
                        Work::Infer,
                        if again {
                            Outcome::Again
                        } else {
                            Outcome::Done
                        },
                        old(self).count as int,
                    ),
                }
            }),
    {
        match self.lowering.on_inference(event, dynamic) {
            Ok(again) => {
                if !again {
                    self.due = Work::Propagate;
                }
                Ok(())
            },
            Err(e) => Err(e),
        }
    }

    /// Takes in what propagation knows about the values of the graph.
    pub fn on_propagated(&mut self, p: Propagated)
        requires
            old(self).due == Work::Propagate,
        ensures
            final(self).lowering@ == after_propagation(old(self).lowering@, p),
            final(self).count == old(self).count,
            final(self).wf(),
            final(self).due == next_work(Work::Propagate, Outcome::Done, old(self).count as int),
    {
        let Propagated { value_shapes, value_types, const_values, value_shape_dims } = p;
        self.lowering.context.value_shapes = value_shapes;
        self.lowering.context.value_types = value_types;
        self.lowering.const_values = const_values;
        self.lowering.value_shape_dims = value_shape_dims;
        self.go_to_node(0);
    }

    /// Whether [`Self::on_node`] can be called on the nodes of the graph.
    pub fn node_fits(&self, nodes: &Vec<NodeProto>, registry: &OpRegistry) -> (r: bool)
        ensures
            r == (self.due matches Work::Node(i) && i < nodes@.len() && convert::step_in_range(
                nodes@[i as int]@,
                self.lowering@,
            )),
    {
        match self.due {
            Work::Node(i) => i < nodes.len() && self.lowering.node_fits(&nodes[i], registry),
            _ => false,
        }
    }

    /// Takes the next step on the node that is due. After an error the same
    /// node stays due.
    pub fn on_node(&mut self, nodes: &Vec<NodeProto>, registry: &OpRegistry, b: &mut OnnxBuilder) -> (r:
        Result<(), OnnxError>)
        requires
            old(self).due is Node,
            old(self).count == nodes@.len(),
            old(self).wf(),
            convert::step_in_range(nodes@[old(self).due->Node_0 as int]@, old(self).lowering@),
        ensures
            final(self).count == old(self).count,
            final(self).wf(),
            node_taken(
                nodes@[old(self).due->Node_0 as int]@,
                old(self).lowering@,
                old(b)@,
                final(self).lowering@,
                final(b)@,
                match r {
                    Ok(_) => Ok(()),
                    Err(e) => Err(e@),
                },
            ),
            final(self).due == (if r is Ok {
                next_work(
                    old(self).due,
                    Outcome::Step(
                        step_on(nodes@[old(self).due->Node_0 as int]@, old(self).lowering@),
                    ),
                    old(self).count as int,
                )
            } else {
                old(self).due
            }),
    {
        let at: usize = match self.due {
            Work::Node(i) => i,
            _ => 0,
        };
        match self.lowering.lower_node(&nodes[at], registry, b) {
            Ok(NodeStep::Emitted) => {
                self.go_to_node(at + 1);
                Ok(())
            },
            Ok(NodeStep::Lowered) => {
                self.due = Work::Shape(at);
                Ok(())
            },
            Ok(NodeStep::Elsewhere) => {
                self.due = Work::Lower(at);
                Ok(())
            },
            Err(e) => Err(e),
        }
    }

    /// Takes in the types of the outputs of a node that the caller lowered.
    pub fn on_lowered(&mut self, output_types: &NameMap<DataType>)
        requires
            old(self).due is Lower,
            old(self).wf(),
        ensures
            final(self).lowering@ == convert::with_output_types(
                old(self).lowering@,
                output_types.entries(),
            ),
            final(self).count == old(self).count,
            final(self).wf(),
            final(self).due == next_work(old(self).due, Outcome::Done, old(self).count as int),
    {
        let at: usize = match self.due {
            Work::Lower(i) => i,
            _ => 0,
        };
        self.lowering.note_types(output_types);
        self.due = Work::Shape(at);
    }

    /// Takes in the shape of the outputs of a lowered node, where it can be
    /// told.
    pub fn on_shape(&mut self, nodes: &Vec<NodeProto>, shape: Option<&Vec<i64>>)
        requires
            old(self).due is Shape,
            old(self).count == nodes@.len(),
            old(self).wf(),
        ensures
            final(self).lowering@ == (match shape {
                Some(s) => with_shape(
                    old(self).lowering@,
                    nodes@[old(self).due->Shape_0 as int]@,
                    s@,
                ),
                None => old(self).lowering@,
            }),
            final(self).count == old(self).count,
            final(self).wf(),
            final(self).due == next_work(old(self).due, Outcome::Done, old(self).count as int),
    {
        let at: usize = match self.due {
            Work::Shape(i) => i,
            _ => 0,
        };
        if let Some(s) = shape {
            self.lowering.note_shape(&nodes[at], s);
        }
        self.go_to_node(at + 1);
    }
}

/// The state with a shape for the outputs of a node.
pub open spec fn with_shape(s: LoweringV, node: NodeV, shape: Seq<i64>) -> LoweringV {
    LoweringV {
        context: ContextV {
            value_shapes: convert::with_output_shapes(
                s.context.value_shapes,
                node.output,
                shape,
            ),
            ..s.context
        },
        ..s
    }
}

/// The step that a node takes where it does not fail.
pub open spec fn step_on(node: NodeV, s: LoweringV) -> NodeStep {
    if convert::is_constant_node(node, s) {
        NodeStep::Emitted
    } else if registry::handler_of(node.op_type) is Some {
        NodeStep::Lowered
    } else {
        NodeStep::Elsewhere
    }
}

/// The step on a node leads from one state and plan to others: constants are
/// emitted, or its handler lowers it and reports types in some order, or nothing
/// is done.
pub open spec fn node_taken(
    node: NodeV,
    s: LoweringV,
    steps: Seq<OpV>,
    after: LoweringV,
    more: Seq<OpV>,
    r: Result<(), ErrorV>,
) -> bool {
    if convert::is_constant_node(node, s) {
        &&& r is Ok
        &&& more == convert::emitted(node, s, steps).ops
        &&& after == convert::after_emit(s, convert::emitted(node, s, steps))
    } else {
        match registry::lowered_node(node, s.context, steps) {
            None => r is Ok && more == steps && after == s,
            Some(o) => more == o.ops && match o.result {
                Err(e) => r == Err::<(), ErrorV>(e) && after == s,
                Ok(t) => r is Ok && exists|e: Seq<(Seq<char>, DataType)>|
                    names::map_of(e) == t && after == #[trigger] convert::with_output_types(s, e),
            },
        }
    }
}

// ---------------------------------------------------------------------------
// Laws
// ---------------------------------------------------------------------------

/// How many pieces of work are left at most, repeated inference aside.
pub open spec fn remaining(w: Work, count: int) -> int {
    match w {
        Work::Infer => 3 * count + 2,
        Work::Propagate => 3 * count + 1,
        Work::Node(i) => 3 * (count - i),
        Work::Lower(i) => 3 * (count - i) - 1,
        Work::Shape(i) => 3 * (count - i) - 2,
        Work::Finished => 0,
    }
}

/// Work ends: every piece but a repeated inference brings the end closer, and
/// no piece of work is due that is not about the graph.
pub proof fn law_work_ends(w: Work, o: Outcome, count: int)
    requires
        0 <= count <= usize::MAX,
        is_due(w, count),
        w != Work::Finished,
        !(w == Work::Infer && o == Outcome::Again),
    ensures
        is_due(next_work(w, o, count), count),
        0 <= remaining(next_work(w, o, count), count) < remaining(w, count),
{
}

/// Nodes are worked on in order and none is passed over: work on a node is
/// followed by work on the same node or on the next one, and a node that was
/// lowered is asked for its shape before that.
pub proof fn law_nodes_are_taken_in_order(w: Work, o: Outcome, count: int)
    requires
        0 <= count <= usize::MAX,
        is_due(w, count),
        w is Node || w is Lower || w is Shape,
    ensures
        ({
            let i = match w {
                Work::Node(i) => i,
                Work::Lower(i) => i,
                Work::Shape(i) => i,
                _ => 0,
            };
            let n = next_work(w, o, count);
            &&& n == Work::Lower(i) || n == Work::Shape(i) || n == node_work(i + 1, count)
            &&& n == node_work(i + 1, count) ==> w is Shape || (w is Node && o != Outcome::Step(
                NodeStep::Lowered,
            ) && o != Outcome::Step(NodeStep::Elsewhere))
        }),
{
}

/// A step on a node only adds to a well-formed plan, and what it adds reads only
/// operands that earlier steps produce.
pub proof fn law_steps_on_nodes_continue_the_plan(
    node: NodeV,
    s: LoweringV,
    steps: Seq<OpV>,
    after: LoweringV,
    more: Seq<OpV>,
    r: Result<(), ErrorV>,
)
    requires
        builder::well_formed(steps),
        node_taken(node, s, steps, after, more, r),
    ensures
        builder::continues(steps, more),
{
    broadcast use builder::group_plans;

    if convert::is_constant_node(node, s) {
        convert::law_emitted_constants_continue_the_plan(node, s, steps);
    } else if registry::handler_of(node.op_type) is Some {
        plans::law_lowered_nodes_continue_the_plan(node, s.context, steps);
    }
}

} // verus!
