//! Depth-first traversal of the source tree, driving visitor callbacks.
//!
//! A `Visitor` bundles the callbacks invoked on entering and leaving a node;
//! dispatch on the node kind happens inside the callbacks, over the closed
//! set of `Node` variants. Each callback receives the current node, its
//! parent (if any, as a non-owning reference) and exclusive access to a
//! shared accumulation context; every externally observable effect of a
//! traversal is a mutation of that context.
//!
//! `spec_traverse_node` folds a visitor's effects over the walk order:
//! enter the node, walk its children left to right, leave the node.
//! `traverser` is proved to leave the context at exactly that fold.

use vstd::prelude::*;

use crate::ast::{Node, NodeView, node_view, nodes_view};

verus! {

/// The model of the optional parent reference handed to a callback.
pub open spec fn parent_view(p: Option<&Node>) -> Option<NodeView> {
    match p {
        Some(n) => Some(node_view(*n)),
        None => None,
    }
}

/// The pair of callbacks a traversal runs on every node, together with
/// their effect on the model of the accumulation context.
///
/// `on_enter` runs before the node's children are traversed, `on_exit`
/// after; each promises to leave the context at what its spec-level
/// counterpart says. A callback that ignores a node kind leaves the
/// context's model unchanged for it.
pub trait Visitor<C: View>: Sized {
    /// What `on_enter` does to the model of the context.
    spec fn enter_spec(&self, node: NodeView, parent: Option<NodeView>, ctx: C::V) -> C::V;

    /// What `on_exit` does to the model of the context.
    spec fn exit_spec(&self, node: NodeView, parent: Option<NodeView>, ctx: C::V) -> C::V;

    /// Runs on a node before its children are traversed.
    fn on_enter(&self, node: &Node, parent: Option<&Node>, context: &mut C)
        ensures
            final(context)@ == self.enter_spec(
                node_view(*node),
                parent_view(parent),
                old(context)@,
            ),
    ;

    /// Runs on a node after all its children are traversed.
    fn on_exit(&self, node: &Node, parent: Option<&Node>, context: &mut C)
        ensures
            final(context)@ == self.exit_spec(
                node_view(*node),
                parent_view(parent),
                old(context)@,
            ),
    ;
}

/// The context after traversing one node under the given visitor: enter,
/// then the children in order, then exit.
pub open spec fn spec_traverse_node<C: View, V: Visitor<C>>(
    vis: V,
    node: NodeView,
    parent: Option<NodeView>,
    ctx: C::V,
) -> C::V
    decreases node, 1int,
{
    let entered = vis.enter_spec(node, parent, ctx);
    let walked = match node {
        NodeView::Program { body } => spec_traverse_seq(vis, body, Some(node), entered),
        NodeView::CallExpression { params, .. } => spec_traverse_seq(
            vis,
            params,
            Some(node),
            entered,
        ),
        _ => entered,
    };
    vis.exit_spec(node, parent, walked)
}

/// The context after traversing a sequence of sibling nodes left to right.
pub open spec fn spec_traverse_seq<C: View, V: Visitor<C>>(
    vis: V,
    nodes: Seq<NodeView>,
    parent: Option<NodeView>,
    ctx: C::V,
) -> C::V
    decreases nodes, 0int,
{
    if nodes.len() == 0 {
        ctx
    } else {
        spec_traverse_seq(
            vis,
            nodes.drop_first(),
            parent,
            spec_traverse_node(vis, nodes.first(), parent, ctx),
        )
    }
}

/// Walks the tree depth-first, invoking the visitor's callbacks on every
/// node: enter before the children, exit after them, the children of the
/// program root and of each call in order. The context ends at exactly the
/// fold that `spec_traverse_node` describes.
pub fn traverser<C: View, V: Visitor<C>>(ast: Node, context: &mut C, visitors: &V)
    ensures
        final(context)@ == spec_traverse_node(
            *visitors,
            node_view(ast),
            None::<NodeView>,
            old(context)@,
        ),
{
    traverse_node(&ast, None, context, visitors);
}

fn traverse_node<C: View, V: Visitor<C>>(
    node: &Node,
    parent: Option<&Node>,
    context: &mut C,
    visitors: &V,
)
    ensures
        final(context)@ == spec_traverse_node(
            *visitors,
            node_view(*node),
            parent_view(parent),
            old(context)@,
        ),
    decreases *node, 1int,
{
    visitors.on_enter(node, parent, context);
    match node {
        Node::Program { body } => {
            traverse_nodes(body, Some(node), context, visitors);
        },
        Node::CallExpression { params, .. } => {
            traverse_nodes(params, Some(node), context, visitors);
        },
        _ => {},
    }
    visitors.on_exit(node, parent, context);
}

#[verifier::loop_isolation(false)]
fn traverse_nodes<C: View, V: Visitor<C>>(
    nodes: &Vec<Node>,
    parent: Option<&Node>,
    context: &mut C,
    visitors: &V,
)
    ensures
        final(context)@ == spec_traverse_seq(
            *visitors,
            nodes_view(nodes@),
            parent_view(parent),
            old(context)@,
        ),
    decreases *nodes, 0int,
{
    let ghost nv = nodes_view(nodes@);
    let ghost p = parent_view(parent);
    let ghost c0 = context@;
    proof {
        crate::ast::lemma_nodes_view_index(nodes@);
        assert(nv.skip(0) =~= nv);
    }
    let mut i: usize = 0;
    while i < nodes.len()
        invariant
            i <= nodes@.len(),
            spec_traverse_seq(*visitors, nv, p, c0) == spec_traverse_seq(
                *visitors,
                nv.skip(i as int),
                p,
                context@,
            ),
        decreases nodes@.len() - i,
    {
        traverse_node(&nodes[i], parent, context, visitors);
        proof {
            assert(nv.skip(i as int).first() == node_view(nodes@[i as int]));
            assert(nv.skip(i as int).drop_first() =~= nv.skip(i + 1));
        }
        i = i + 1;
    }
    proof {
        assert(nv.skip(nodes@.len() as int) =~= Seq::<NodeView>::empty());
    }
}

} // verus!
