//! AST-to-AST transformation: builds the target tree while the traverser
//! walks the source tree.
//!
//! The accumulation context is a stack of frames. Entering a call opens a
//! fresh frame; literals are appended to the top frame; leaving a call pops
//! its frame as the finished argument list and appends the finished call to
//! the frame below — wrapped in an expression statement when the call is a
//! direct child of the program (or stands alone), and bare when it is an
//! argument of another call. So nested calls nest in the output instead of
//! being flattened into one shared list.
//!
//! `spec_transform` describes the result directly by recursion over the
//! source tree; `transformer` is proved to return exactly that, by a lemma
//! connecting the traversal fold of the visitor to the direct recursion.

use vstd::prelude::*;

use crate::ast::{
    Node, NodeView, TransformedNode, TransformedNodeView, form_wf, node_view, source_wf,
    tnode_view, tnodes_view,
};
use crate::traverse::{Visitor, parent_view, spec_traverse_node, spec_traverse_seq, traverser};

verus! {

/// The accumulation context of the transformation: a stack of frames, each
/// frame the list of finished target nodes of one enclosing call (the
/// bottom frame holds the finished top-level statements).
pub struct TransformContext {
    pub frames: Vec<Vec<TransformedNode>>,
}

/// The model of the frame stack, frame by frame.
pub open spec fn frames_view(fs: Seq<Vec<TransformedNode>>) -> Seq<Seq<TransformedNodeView>> {
    fs.map(|i: int, f: Vec<TransformedNode>| tnodes_view(f@))
}

impl View for TransformContext {
    type V = Seq<Seq<TransformedNodeView>>;

    open spec fn view(&self) -> Seq<Seq<TransformedNodeView>> {
        frames_view(self.frames@)
    }
}

/// Appends a finished target node to the top frame; without an open frame
/// there is nothing to append to and the stack is left unchanged.
pub open spec fn push_top(
    ctx: Seq<Seq<TransformedNodeView>>,
    t: TransformedNodeView,
) -> Seq<Seq<TransformedNodeView>> {
    if ctx.len() == 0 {
        ctx
    } else {
        ctx.update(ctx.len() - 1, ctx.last().push(t))
    }
}

/// Whether the parent of the current node is a call expression.
pub open spec fn parent_is_call(parent: Option<NodeView>) -> bool {
    parent matches Some(NodeView::CallExpression { .. })
}

/// The finished target node for a call: its callee is the call's name as
/// an identifier; it is wrapped in an expression statement unless it is an
/// argument of another call.
pub open spec fn finish_call(
    name: Seq<char>,
    args: Seq<TransformedNodeView>,
    in_call: bool,
) -> TransformedNodeView {
    let call = TransformedNodeView::CallExpression {
        callee: Box::new(TransformedNodeView::Identifier(name)),
        arguments: args,
    };
    if in_call {
        call
    } else {
        TransformedNodeView::ExpressionStatement { expression: Box::new(call) }
    }
}

/// The visitor set of the transformation: enter hooks for the two literal
/// kinds and for calls, an exit hook for calls, and no-ops for the program
/// root.
pub struct TransformVisitor;

fn parent_call(p: Option<&Node>) -> (b: bool)
    ensures
        b == parent_is_call(parent_view(p)),
{
    match p {
        Some(Node::CallExpression { .. }) => true,
        _ => false,
    }
}

/// Pushing a node onto a vector extends its model by the node's model.
proof fn lemma_tnodes_view_push(ns: Seq<TransformedNode>, n: TransformedNode)
    ensures
        tnodes_view(ns.push(n)) == tnodes_view(ns).push(tnode_view(n)),
{
    assert(ns.push(n).drop_last() =~= ns);
    assert(ns.push(n).last() == n);
}

impl Visitor<TransformContext> for TransformVisitor {
    open spec fn enter_spec(
        &self,
        node: NodeView,
        parent: Option<NodeView>,
        ctx: Seq<Seq<TransformedNodeView>>,
    ) -> Seq<Seq<TransformedNodeView>> {
        match node {
            NodeView::NumberLiteral(v) => push_top(ctx, TransformedNodeView::NumberLiteral(v)),
            NodeView::StringLiteral(v) => push_top(ctx, TransformedNodeView::StringLiteral(v)),
            NodeView::CallExpression { .. } => ctx.push(Seq::empty()),
            NodeView::Program { .. } => ctx,
        }
    }

    open spec fn exit_spec(
        &self,
        node: NodeView,
        parent: Option<NodeView>,
        ctx: Seq<Seq<TransformedNodeView>>,
    ) -> Seq<Seq<TransformedNodeView>> {
        match node {
            NodeView::CallExpression { name, params } => {
                if ctx.len() >= 2 {
                    push_top(
                        ctx.drop_last(),
                        finish_call(name, ctx.last(), parent_is_call(parent)),
                    )
                } else {
                    ctx
                }
            },
            _ => ctx,
        }
    }

    /// On a literal, appends its target twin to the top frame; on a call,
    /// opens a fresh frame for the call's arguments.
    fn on_enter(&self, node: &Node, parent: Option<&Node>, context: &mut TransformContext) {
        match node {
            Node::NumberLiteral(v) => {
                let t = TransformedNode::NumberLiteral(v.clone());
                push_top_frame(context, t);
            },
            Node::StringLiteral(v) => {
                let t = TransformedNode::StringLiteral(v.clone());
                push_top_frame(context, t);
            },
            Node::CallExpression { .. } => {
                let fresh: Vec<TransformedNode> = Vec::new();
                proof {
                    lemma_frames_view_push(context.frames@, fresh);
                }
                context.frames.push(fresh);
            },
            Node::Program { .. } => {},
        }
    }

    /// On leaving a call, pops its argument frame, finishes the call node
    /// and appends it to the frame below.
    fn on_exit(&self, node: &Node, parent: Option<&Node>, context: &mut TransformContext) {
        match node {
            Node::CallExpression { name, .. } => {
                if context.frames.len() >= 2 {
                    let ghost fs0 = context.frames@;
                    let args = match context.frames.pop() {
                        Some(a) => a,
                        None => unreached(),
                    };
                    let ghost argsv = tnodes_view(args@);
                    let callee = Box::new(TransformedNode::Identifier(name.clone()));
                    proof {
                        assert(tnode_view(*callee) == TransformedNodeView::Identifier(name@));
                    }
                    let call = TransformedNode::CallExpression { callee, arguments: args };
                    let ghost callv = tnode_view(call);
                    proof {
                        assert(callv == (TransformedNodeView::CallExpression {
                            callee: Box::new(TransformedNodeView::Identifier(name@)),
                            arguments: argsv,
                        }));
                    }
                    let wrapped = if parent_call(parent) {
                        call
                    } else {
                        TransformedNode::ExpressionStatement { expression: Box::new(call) }
                    };
                    proof {
                        assert(tnode_view(wrapped) == finish_call(
                            name@,
                            argsv,
                            parent_is_call(parent_view(parent)),
                        ));
                        lemma_frames_view_drop_last(fs0);
                    }
                    push_top_frame(context, wrapped);
                }
            },
            _ => {},
        }
    }
}

/// Pushing a frame onto the stack extends its model by the frame's model.
proof fn lemma_frames_view_push(fs: Seq<Vec<TransformedNode>>, f: Vec<TransformedNode>)
    ensures
        frames_view(fs.push(f)) == frames_view(fs).push(tnodes_view(f@)),
{
    assert(frames_view(fs.push(f)) =~= frames_view(fs).push(tnodes_view(f@)));
}

/// Dropping the top frame drops the last element of the model.
proof fn lemma_frames_view_drop_last(fs: Seq<Vec<TransformedNode>>)
    requires
        fs.len() > 0,
    ensures
        frames_view(fs.drop_last()) == frames_view(fs).drop_last(),
        frames_view(fs).last() == tnodes_view(fs.last()@),
{
    assert(frames_view(fs.drop_last()) =~= frames_view(fs).drop_last());
}

/// Appends a finished target node to the top frame of the stack, the
/// executable twin of `push_top`.
fn push_top_frame(context: &mut TransformContext, t: TransformedNode)
    ensures
        final(context)@ == push_top(old(context)@, tnode_view(t)),
{
    let ghost fs0 = context.frames@;
    match context.frames.pop() {
        Some(mut top) => {
            proof {
                lemma_frames_view_drop_last(fs0);
                lemma_tnodes_view_push(top@, t);
            }
            top.push(t);
            context.frames.push(top);
            proof {
                lemma_frames_view_push(fs0.drop_last(), top);
                assert(frames_view(fs0).drop_last().push(frames_view(fs0).last().push(tnode_view(t)))
                    =~= push_top(frames_view(fs0), tnode_view(t)));
            }
        },
        None => {
            proof {
                assert(frames_view(fs0).len() == 0);
            }
        },
    }
}

/// The target node of one well-formed form: literals keep their text, a
/// call keeps its name as the callee identifier and transforms its
/// parameters into its arguments, wrapped when it is not itself an
/// argument.
pub open spec fn spec_transform_form(n: NodeView, in_call: bool) -> TransformedNodeView
    decreases n,
{
    match n {
        NodeView::NumberLiteral(v) => TransformedNodeView::NumberLiteral(v),
        NodeView::StringLiteral(v) => TransformedNodeView::StringLiteral(v),
        NodeView::CallExpression { name, params } => finish_call(
            name,
            spec_transform_forms(params, true),
            in_call,
        ),
        // not a form: the program root stands only at the root
        NodeView::Program { .. } => TransformedNodeView::NumberLiteral(Seq::empty()),
    }
}

/// The target nodes of a sequence of sibling forms, in order.
pub open spec fn spec_transform_forms(ns: Seq<NodeView>, in_call: bool) -> Seq<TransformedNodeView>
    decreases ns,
{
    if ns.len() == 0 {
        Seq::empty()
    } else {
        seq![spec_transform_form(ns.first(), in_call)] + spec_transform_forms(
            ns.drop_first(),
            in_call,
        )
    }
}

/// The body of the transformed program: the transformed top-level forms,
/// each wrapped as a statement where it is a call.
pub open spec fn spec_transform_body(n: NodeView) -> Seq<TransformedNodeView> {
    match n {
        NodeView::Program { body } => spec_transform_forms(body, false),
        _ => seq![spec_transform_form(n, false)],
    }
}

/// The transformed program for a well-formed source tree.
pub open spec fn spec_transform(n: NodeView) -> TransformedNodeView {
    TransformedNodeView::Program { body: spec_transform_body(n) }
}

/// Traversing one well-formed form under the transform visitor appends the
/// form's target node to the top frame and touches nothing else.
proof fn lemma_traverse_form(
    node: NodeView,
    parent: Option<NodeView>,
    ctx: Seq<Seq<TransformedNodeView>>,
)
    requires
        form_wf(node),
        ctx.len() >= 1,
    ensures
        spec_traverse_node(TransformVisitor, node, parent, ctx) == push_top(
            ctx,
            spec_transform_form(node, parent_is_call(parent)),
        ),
    decreases node, 1int,
{
    match node {
        NodeView::CallExpression { name, params } => {
            let entered = ctx.push(Seq::empty());
            lemma_traverse_forms(params, node, entered);
            let walked = entered.update(
                entered.len() - 1,
                entered.last() + spec_transform_forms(params, true),
            );
            assert(Seq::empty() + spec_transform_forms(params, true) =~= spec_transform_forms(
                params,
                true,
            ));
            assert(walked =~= ctx.push(spec_transform_forms(params, true)));
            assert(walked.drop_last() =~= ctx);
        },
        _ => {},
    }
}

/// Traversing a sequence of well-formed sibling forms appends their target
/// nodes to the top frame, in order.
proof fn lemma_traverse_forms(
    ns: Seq<NodeView>,
    parent_node: NodeView,
    ctx: Seq<Seq<TransformedNodeView>>,
)
    requires
        ctx.len() >= 1,
        forall|i: int| 0 <= i < ns.len() ==> form_wf(#[trigger] ns[i]),
    ensures
        spec_traverse_seq(TransformVisitor, ns, Some(parent_node), ctx) == ctx.update(
            ctx.len() - 1,
            ctx.last() + spec_transform_forms(ns, parent_is_call(Some(parent_node))),
        ),
    decreases ns, 0int,
{
    let ic = parent_is_call(Some(parent_node));
    if ns.len() == 0 {
        assert(ctx.last() + spec_transform_forms(ns, ic) =~= ctx.last());
        assert(ctx.update(ctx.len() - 1, ctx.last()) =~= ctx);
    } else {
        let f = spec_transform_form(ns.first(), ic);
        lemma_traverse_form(ns.first(), Some(parent_node), ctx);
        let c1 = push_top(ctx, f);
        lemma_traverse_forms(ns.drop_first(), parent_node, c1);
        assert(c1.last() == ctx.last().push(f));
        assert(ctx.last().push(f) + spec_transform_forms(ns.drop_first(), ic) =~= ctx.last()
            + spec_transform_forms(ns, ic));
        assert(c1.update(c1.len() - 1, c1.last() + spec_transform_forms(ns.drop_first(), ic))
            =~= ctx.update(ctx.len() - 1, ctx.last() + spec_transform_forms(ns, ic)));
    }
}

/// Traversing a whole well-formed source tree from a single empty frame
/// leaves exactly the transformed program body in that frame.
proof fn lemma_traverse_is_transform(n: NodeView)
    requires
        source_wf(n),
    ensures
        spec_traverse_node(
            TransformVisitor,
            n,
            None::<NodeView>,
            seq![Seq::<TransformedNodeView>::empty()],
        ) == seq![spec_transform_body(n)],
{
    let c0 = seq![Seq::<TransformedNodeView>::empty()];
    match n {
        NodeView::Program { body } => {
            lemma_traverse_forms(body, n, c0);
            assert(Seq::<TransformedNodeView>::empty() + spec_transform_forms(body, false)
                =~= spec_transform_forms(body, false));
            assert(c0.update(0, spec_transform_forms(body, false)) =~= seq![
                spec_transform_forms(body, false),
            ]);
        },
        _ => {
            lemma_traverse_form(n, None, c0);
            assert(Seq::<TransformedNodeView>::empty().push(spec_transform_form(n, false))
                =~= seq![spec_transform_form(n, false)]);
            assert(c0.update(0, Seq::<TransformedNodeView>::empty().push(spec_transform_form(n, false)))
                =~= seq![seq![spec_transform_form(n, false)]]);
        },
    }
}

/// Rewrites a well-formed source tree into the target tree: the program
/// whose body holds each top-level form transformed, literals kept
/// verbatim, every call's parameters nested as its arguments, and every
/// top-level call wrapped in an expression statement. The result is
/// exactly `spec_transform` of the source tree.
pub fn transformer(ast: Node) -> (r: TransformedNode)
    requires
        source_wf(node_view(ast)),
    ensures
        tnode_view(r) == spec_transform(node_view(ast)),
{
    let visitors = TransformVisitor;
    let mut context = TransformContext { frames: Vec::new() };
    let first_frame: Vec<TransformedNode> = Vec::new();
    context.frames.push(first_frame);
    proof {
        assert(context@ =~= seq![Seq::<TransformedNodeView>::empty()]);
    }
    traverser(ast, &mut context, &visitors);
    proof {
        assert(visitors == TransformVisitor);
        lemma_traverse_is_transform(node_view(ast));
        assert(context@ == seq![spec_transform_body(node_view(ast))]);
        assert(context.frames@.len() == 1);
        lemma_frames_view_drop_last(context.frames@);
    }
    let ghost fs_end = context.frames@;
    let body = match context.frames.pop() {
        Some(b) => b,
        None => unreached(),
    };
    proof {
        assert(body == fs_end.last());
        assert(tnodes_view(body@) == frames_view(fs_end).last());
        assert(tnodes_view(body@) == spec_transform_body(node_view(ast)));
    }
    TransformedNode::Program { body }
}

/// `spec_transform_forms` maps the form sequence element by element.
pub broadcast proof fn lemma_transform_forms_index(ns: Seq<NodeView>, in_call: bool)
    ensures
        (#[trigger] spec_transform_forms(ns, in_call)).len() == ns.len(),
        forall|i: int|
            0 <= i < ns.len() ==> spec_transform_forms(ns, in_call)[i] == spec_transform_form(
                ns[i],
                in_call,
            ),
    decreases ns,
{
    if ns.len() > 0 {
        lemma_transform_forms_index(ns.drop_first(), in_call);
    }
}

/// Law: a call that is a direct child of the program is wrapped in an
/// expression statement holding exactly the bare call node; a call that is
/// an argument of another call stays a bare call node.
pub proof fn lemma_call_wrapping(n: NodeView)
    requires
        n matches NodeView::CallExpression { .. },
    ensures
        spec_transform_form(n, false) matches TransformedNodeView::ExpressionStatement {
            expression,
        } && *expression == spec_transform_form(n, true),
        spec_transform_form(n, true) matches TransformedNodeView::CallExpression { .. },
{
}

/// Law: statement `i` of the transformed program is an expression
/// statement exactly when top-level form `i` of the source program is a
/// call expression, and then it wraps that call's bare transform.
pub proof fn lemma_top_level_wrapping(body: Seq<NodeView>, i: int)
    requires
        0 <= i < body.len(),
    ensures
        spec_transform_body(NodeView::Program { body }).len() == body.len(),
        (body[i] matches NodeView::CallExpression { .. }) <==> (spec_transform_body(
            NodeView::Program { body },
        )[i] matches TransformedNodeView::ExpressionStatement { .. }),
        body[i] matches NodeView::CallExpression { .. } ==> spec_transform_body(
            NodeView::Program { body },
        )[i] == spec_transform_form(body[i], false),
{
    broadcast use lemma_transform_forms_index;

    if body[i] matches NodeView::CallExpression { .. } {
        lemma_call_wrapping(body[i]);
    }
}

/// Law: argument `i` of a transformed call is never an expression
/// statement; where the source parameter is itself a call, it stays a bare
/// call node.
pub proof fn lemma_nested_call_not_wrapped(params: Seq<NodeView>, i: int)
    requires
        0 <= i < params.len(),
        form_wf(params[i]),
    ensures
        spec_transform_forms(params, true).len() == params.len(),
        !(spec_transform_forms(params, true)[i]
            matches TransformedNodeView::ExpressionStatement { .. }),
        params[i] matches NodeView::CallExpression { .. } ==> spec_transform_forms(params, true)[i]
            matches TransformedNodeView::CallExpression { .. },
{
    broadcast use lemma_transform_forms_index;

}

/// The literal leaves below a source node, left to right, each as the
/// target node the transformation owes it.
pub open spec fn source_literals(n: NodeView) -> Seq<TransformedNodeView>
    decreases n,
{
    match n {
        NodeView::NumberLiteral(v) => seq![TransformedNodeView::NumberLiteral(v)],
        NodeView::StringLiteral(v) => seq![TransformedNodeView::StringLiteral(v)],
        NodeView::CallExpression { params, .. } => source_literals_seq(params),
        NodeView::Program { body } => source_literals_seq(body),
    }
}

/// The literal leaves below a sequence of sibling source nodes.
pub open spec fn source_literals_seq(ns: Seq<NodeView>) -> Seq<TransformedNodeView>
    decreases ns,
{
    if ns.len() == 0 {
        Seq::empty()
    } else {
        source_literals(ns.first()) + source_literals_seq(ns.drop_first())
    }
}

/// The literal leaves of a target tree, left to right.
pub open spec fn target_literals(t: TransformedNodeView) -> Seq<TransformedNodeView>
    decreases t,
{
    match t {
        TransformedNodeView::NumberLiteral(v) => seq![TransformedNodeView::NumberLiteral(v)],
        TransformedNodeView::StringLiteral(v) => seq![TransformedNodeView::StringLiteral(v)],
        TransformedNodeView::Identifier(_) => Seq::empty(),
        TransformedNodeView::ExpressionStatement { expression } => target_literals(*expression),
        TransformedNodeView::CallExpression { callee, arguments } => target_literals(*callee)
            + target_literals_seq(arguments),
        TransformedNodeView::Program { body } => target_literals_seq(body),
    }
}

/// The literal leaves below a sequence of sibling target nodes.
pub open spec fn target_literals_seq(ts: Seq<TransformedNodeView>) -> Seq<TransformedNodeView>
    decreases ts,
{
    if ts.len() == 0 {
        Seq::empty()
    } else {
        target_literals(ts.first()) + target_literals_seq(ts.drop_first())
    }
}

proof fn lemma_form_literals(n: NodeView, in_call: bool)
    requires
        form_wf(n),
    ensures
        target_literals(spec_transform_form(n, in_call)) == source_literals(n),
    decreases n, 1int,
{
    match n {
        NodeView::CallExpression { name, params } => {
            lemma_forms_literals(params, true);
            let forms = spec_transform_forms(params, true);
            let call = (TransformedNodeView::CallExpression {
                callee: Box::new(TransformedNodeView::Identifier(name)),
                arguments: forms,
            });
            assert(target_literals(TransformedNodeView::Identifier(name))
                =~= Seq::<TransformedNodeView>::empty());
            assert(target_literals(call) =~= target_literals_seq(forms));
            assert(source_literals(n) == source_literals_seq(params));
            if !in_call {
                assert(spec_transform_form(n, in_call)
                    == (TransformedNodeView::ExpressionStatement { expression: Box::new(call) }));
                assert(target_literals(spec_transform_form(n, in_call)) == target_literals(call));
            }
        },
        _ => {},
    }
}

proof fn lemma_forms_literals(ns: Seq<NodeView>, in_call: bool)
    requires
        forall|i: int| 0 <= i < ns.len() ==> form_wf(#[trigger] ns[i]),
    ensures
        target_literals_seq(spec_transform_forms(ns, in_call)) == source_literals_seq(ns),
    decreases ns, 0int,
{
    if ns.len() > 0 {
        let f = spec_transform_form(ns.first(), in_call);
        let rest = spec_transform_forms(ns.drop_first(), in_call);
        lemma_form_literals(ns.first(), in_call);
        lemma_forms_literals(ns.drop_first(), in_call);
        assert((seq![f] + rest).first() == f);
        assert((seq![f] + rest).drop_first() =~= rest);
    }
}

/// Law: the transformation keeps every number and string literal verbatim —
/// the literal leaves of the target tree are, in order and in text, exactly
/// the literal leaves of the source tree.
pub proof fn lemma_literals_preserved(n: NodeView)
    requires
        source_wf(n),
    ensures
        target_literals(spec_transform(n)) == source_literals(n),
{
    match n {
        NodeView::Program { body } => {
            lemma_forms_literals(body, false);
            assert(spec_transform_body(n) == spec_transform_forms(body, false));
            assert(target_literals(spec_transform(n)) == target_literals_seq(
                spec_transform_forms(body, false),
            ));
            assert(source_literals(n) == source_literals_seq(body));
        },
        _ => {
            lemma_form_literals(n, false);
            assert(spec_transform_body(n) == seq![spec_transform_form(n, false)]);
            let f = spec_transform_form(n, false);
            assert((seq![f]).first() == f);
            assert((seq![f]).drop_first() =~= Seq::<TransformedNodeView>::empty());
            assert(target_literals_seq(Seq::<TransformedNodeView>::empty())
                == Seq::<TransformedNodeView>::empty());
            assert(target_literals_seq(seq![f]) == target_literals(f)
                + Seq::<TransformedNodeView>::empty());
            assert(target_literals(f) + Seq::<TransformedNodeView>::empty() =~= target_literals(f));
            assert(target_literals(spec_transform(n)) == target_literals_seq(seq![f]));
        },
    }
}

} // verus!
