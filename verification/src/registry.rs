//! Which operators can be lowered, and by which handler.
use crate::builder::{OnnxBuilder, OpV};
use crate::context::{ContextV, ConversionContext};
use crate::error;
use crate::error::{OnnxError, UnsupportedOpEntry, UnsupportedV};
use crate::ops;
use crate::ops::attention::AttentionHandler;
use crate::ops::einsum::EinsumHandler;
use crate::ops::matmul::MatMulHandler;
use crate::ops::moe::MoeHandler;
use crate::ops::rnn::RnnHandler;
use crate::ops::{attention, einsum, matmul, moe, rnn};
use crate::ops::{ConversionResult, NodeOutcome};
use crate::protos;
use crate::protos::{NodeProto, NodeV};
use vstd::prelude::*;

verus! {

/// The handlers of this library.
#[derive(Debug, Clone, Copy, PartialEq, Eq, Structural)]
pub enum Handler {
    Attention,
    Einsum,
    MatMul,
    Moe,
    Rnn,
}

/// The handler for an operator.
pub open spec fn handler_of(op: Seq<char>) -> Option<Handler> {
    if op == "GroupQueryAttention"@ {
        Some(Handler::Attention)
    } else if op == "Einsum"@ {
        Some(Handler::Einsum)
    } else if op == "MatMul"@ || op == "Gemm"@ || op == "MatMulNBits"@ || op == "MatMulInteger"@
        || op == "MatMulBnb4"@ {
        Some(Handler::MatMul)
    } else if op == "MoE"@ || op == "QMoE"@ {
        Some(Handler::Moe)
    } else if op == "GRU"@ || op == "LSTM"@ || op == "RotaryEmbedding"@ {
        Some(Handler::Rnn)
    } else {
        None
    }
}

/// The operators that can be lowered: those of this library's handlers and
/// those that the builder's owner lowers itself.
pub struct OpRegistry {
    others: Vec<String>,
}

impl OpRegistry {
    /// The operators that are lowered elsewhere.
    pub closed spec fn others(&self) -> Seq<Seq<char>> {
        protos::texts(self.others@)
    }

    pub open spec fn supported(&self, op: Seq<char>) -> bool {
        handler_of(op) is Some || self.others().contains(op)
    }

    /// A registry that also knows the operators in `others`.
    pub fn new(others: Vec<String>) -> (r: Self)
        ensures
            r.others() == protos::texts(others@),
    {
        OpRegistry { others }
    }

    /// The handler of this library for an operator.
    pub fn find_handler(&self, op_type: &str) -> (r: Option<Handler>)
        ensures
            r == handler_of(op_type@),
    {
        if (AttentionHandler {  }).supports(op_type) {
            Some(Handler::Attention)
        } else if (EinsumHandler {  }).supports(op_type) {
            Some(Handler::Einsum)
        } else if (MatMulHandler {  }).supports(op_type) {
            Some(Handler::MatMul)
        } else if (MoeHandler {  }).supports(op_type) {
            Some(Handler::Moe)
        } else if (RnnHandler {  }).supports(op_type) {
            Some(Handler::Rnn)
        } else {
            None
        }
    }

    /// Whether an operator can be lowered.
    pub fn is_supported(&self, op_type: &String) -> (r: bool)
        ensures
            r == self.supported(op_type@),
    {
        if self.find_handler(op_type.as_str()).is_some() {
            return true;
        }
        let mut i: usize = 0;
        while i < self.others.len()
            invariant
                i <= self.others@.len(),
                handler_of(op_type@) is None,
                forall|k: int| 0 <= k < i ==> #[trigger] self.others()[k] != op_type@,
            decreases self.others@.len() - i,
        {
            assert(self.others()[i as int] == self.others@[i as int]@);
            if self.others[i] == *op_type {
                return true;
            }
            i = i + 1;
        }
        false
    }

    /// The nodes that cannot be lowered, in order.
    pub open spec fn unsupported_nodes(&self, nodes: Seq<NodeV>) -> Seq<UnsupportedV>
        decreases nodes.len(),
    {
        if nodes.len() == 0 {
            seq![]
        } else {
            let front = self.unsupported_nodes(nodes.drop_last());
            if self.supported(nodes.last().op_type) {
                front
            } else {
                front.push(
                    UnsupportedV { op: nodes.last().op_type, node: nodes.last().display_name() },
                )
            }
        }
    }

    /// Every node that cannot be lowered.
    pub fn collect_unsupported_nodes(&self, nodes: &Vec<NodeProto>) -> (r: Vec<UnsupportedOpEntry>)
        ensures
            error::unsupported_v(r@) == self.unsupported_nodes(protos::nodes_v(nodes@)),
    {
        let ghost all = protos::nodes_v(nodes@);
        let mut out: Vec<UnsupportedOpEntry> = Vec::new();
        let mut i: usize = 0;
        assert(all.take(0) =~= Seq::<NodeV>::empty());
        assert(error::unsupported_v(out@) =~= Seq::<UnsupportedV>::empty());
        while i < nodes.len()
            invariant
                i <= nodes@.len(),
                all == protos::nodes_v(nodes@),
                error::unsupported_v(out@) == self.unsupported_nodes(all.take(i as int)),
            decreases nodes@.len() - i,
        {
            assert(all.take(i + 1).drop_last() =~= all.take(i as int));
            assert(all[i as int] == nodes@[i as int]@);
            if !self.is_supported(&nodes[i].op_type) {
                let ghost before = error::unsupported_v(out@);
                let e = UnsupportedOpEntry {
                    op: nodes[i].op_type.clone(),
                    node: nodes[i].display_name(),
                };
                let ghost ev = e@;
                out.push(e);
                assert(error::unsupported_v(out@) =~= before.push(ev));
            }
            i = i + 1;
        }
        assert(all.take(i as int) =~= all);
        out
    }

    /// Whether [`Self::convert_node`] can be called on the node.
    pub fn in_range(&self, node: &NodeProto, context: &ConversionContext) -> (r: bool)
        ensures
            r == node_in_range(node@, context@),
    {
        match self.find_handler(node.op_type.as_str()) {
            Some(Handler::Attention) => (AttentionHandler {  }).in_range(node, context),
            Some(Handler::Einsum) => (EinsumHandler {  }).in_range(node, context),
            Some(Handler::MatMul) => (MatMulHandler {  }).in_range(node, context),
            Some(Handler::Moe) => (MoeHandler {  }).in_range(node, context),
            Some(Handler::Rnn) => (RnnHandler {  }).in_range(node),
            None => true,
        }
    }

    /// Lower a node with its handler; nothing is done where this library has
    /// none for it.
    pub fn convert_node(
        &self,
        node: &NodeProto,
        context: &ConversionContext,
        b: &mut OnnxBuilder,
    ) -> (r: Option<Result<ConversionResult, OnnxError>>)
        requires
            node_in_range(node@, context@),
        ensures
            r is None <==> handler_of(node@.op_type) is None,
            r is None ==> final(b)@ == old(b)@,
            r matches Some(c) ==> lowered_node(node@, context@, old(b)@) == Some(
                ops::node_outcome(final(b)@, c),
            ),
    {
        match self.find_handler(node.op_type.as_str()) {
            Some(Handler::Attention) => Some((AttentionHandler {  }).convert(node, context, b)),
            Some(Handler::Einsum) => Some((EinsumHandler {  }).convert(node, context, b)),
            Some(Handler::MatMul) => Some((MatMulHandler {  }).convert(node, context, b)),
            Some(Handler::Moe) => Some((MoeHandler {  }).convert(node, context, b)),
            Some(Handler::Rnn) => Some((RnnHandler {  }).convert(node, context, b)),
            None => None,
        }
    }
}

/// The lowering of a node by its handler.
pub open spec fn lowered_node(node: NodeV, ctx: ContextV, steps: Seq<OpV>) -> Option<NodeOutcome> {
    match handler_of(node.op_type) {
        Some(Handler::Attention) => Some(
            attention::gqa_outcome(node, node.display_name(), ctx, steps),
        ),
        Some(Handler::Einsum) => Some(
            einsum::einsum_outcome(node, node.display_name(), ctx, steps),
        ),
        Some(Handler::MatMul) => Some(matmul::handler_outcome(node, ctx, steps)),
        Some(Handler::Moe) => Some(moe::moe_outcome(node, node.display_name(), ctx, steps)),
        Some(Handler::Rnn) => Some(rnn::rnn_outcome(node, ctx, steps)),
        None => None,
    }
}

/// The arithmetic of a node's lowering is in range.
pub open spec fn node_in_range(node: NodeV, ctx: ContextV) -> bool {
    match handler_of(node.op_type) {
        Some(Handler::Attention) => attention::gqa_in_range(node, node.display_name(), ctx),
        Some(Handler::Einsum) => einsum::einsum_in_range(node, node.display_name(), ctx),
        Some(Handler::MatMul) => matmul::handler_in_range(node, ctx),
        Some(Handler::Moe) => moe::moe_in_range(node, node.display_name(), ctx),
        Some(Handler::Rnn) => rnn::rnn_in_range(node),
        None => true,
    }
}

// ---------------------------------------------------------------------------
// Laws
// ---------------------------------------------------------------------------

/// The list of unsupported nodes is empty exactly when every node can be
/// lowered, and an unsupported node is always in it.
pub proof fn law_unsupported_nodes_are_all_reported(registry: OpRegistry, nodes: Seq<NodeV>)
    ensures
        registry.unsupported_nodes(nodes).len() == 0 <==> forall|i: int|
            0 <= i < nodes.len() ==> registry.supported((#[trigger] nodes[i]).op_type),
        forall|i: int|
            0 <= i < nodes.len() && !registry.supported((#[trigger] nodes[i]).op_type)
                ==> registry.unsupported_nodes(nodes).contains(
                (UnsupportedV { op: nodes[i].op_type, node: nodes[i].display_name() }),
            ),
    decreases nodes.len(),
{
    if nodes.len() > 0 {
        let front = nodes.drop_last();
        law_unsupported_nodes_are_all_reported(registry, front);
        let before = registry.unsupported_nodes(front);
        let all = registry.unsupported_nodes(nodes);
        assert forall|i: int|
            0 <= i < nodes.len() && !registry.supported(
                (#[trigger] nodes[i]).op_type,
            ) implies all.contains(
            UnsupportedV { op: nodes[i].op_type, node: nodes[i].display_name() },
        ) by {
            let entry = UnsupportedV { op: nodes[i].op_type, node: nodes[i].display_name() };
            if i < front.len() {
                assert(front[i] == nodes[i]);
                assert(before.contains(entry));
                let k = choose|k: int| 0 <= k < before.len() && before[k] == entry;
                assert(all[k] == entry);
            } else {
                assert(all[all.len() - 1] == entry);
            }
        }
        assert(forall|i: int| 0 <= i < front.len() ==> #[trigger] front[i] == nodes[i]);
        if all.len() == 0 {
            assert(before.len() == 0);
            assert forall|i: int| 0 <= i < nodes.len() implies registry.supported(
                (#[trigger] nodes[i]).op_type,
            ) by {
                if i < front.len() {
                    assert(registry.supported(front[i].op_type));
                }
            }
        }
        if forall|i: int| 0 <= i < nodes.len() ==> registry.supported((#[trigger] nodes[i]).op_type) {
            assert forall|i: int| 0 <= i < front.len() implies registry.supported(
                (#[trigger] front[i]).op_type,
            ) by {
                assert(registry.supported(nodes[i].op_type));
            }
            assert(registry.supported(nodes[nodes.len() - 1].op_type));
        }
    }
}

} // verus!
