//! The vocabulary shared by the pipeline stages: tokens, the source tree
//! built by the parser, and the target tree built by the transformer,
//! together with the mathematical models that contracts are stated over.
//!
//! Each executable type holding `String` or `Vec` fields has a ghost mirror
//! (`TokenView`, `NodeView`, `TransformedNodeView`) whose text is a
//! `Seq<char>` and whose children are a `Seq`, so that contracts compare
//! values by content rather than by allocation.

use vstd::prelude::*;

verus! {

/// A lexical unit produced by the tokenizer.
#[derive(Debug, PartialEq, Clone)]
pub enum Token {
    Number(String),
    String(String),
    Name(String),
    ParenOpening,
    ParenClosing,
}

/// The mathematical model of a `Token`: its text as a sequence of characters.
pub enum TokenView {
    Number(Seq<char>),
    StringLit(Seq<char>),
    Name(Seq<char>),
    ParenOpening,
    ParenClosing,
}

/// The model of a token: the same shape with the lexeme text as `Seq<char>`.
pub open spec fn token_view(t: Token) -> TokenView {
    match t {
        Token::Number(s) => TokenView::Number(s@),
        Token::String(s) => TokenView::StringLit(s@),
        Token::Name(s) => TokenView::Name(s@),
        Token::ParenOpening => TokenView::ParenOpening,
        Token::ParenClosing => TokenView::ParenClosing,
    }
}

/// The model of a token sequence, element by element.
pub open spec fn tokens_view(ts: Seq<Token>) -> Seq<TokenView> {
    ts.map(|i: int, t: Token| token_view(t))
}

/// The kind of a source-tree node, used to key visitor dispatch.
#[derive(Debug, PartialEq, Eq, Hash, Structural)]
pub enum NodeType {
    Program,
    CallExpression,
    StringLiteral,
    NumberLiteral,
}

/// A node of the source tree built by the parser: the program root, a call
/// expression, or a literal leaf.
#[derive(Debug, PartialEq)]
pub enum Node {
    Program { body: Vec<Node> },
    CallExpression { name: String, params: Vec<Node> },
    StringLiteral(String),
    NumberLiteral(String),
}

/// The mathematical model of a source-tree node.
pub enum NodeView {
    Program { body: Seq<NodeView> },
    CallExpression { name: Seq<char>, params: Seq<NodeView> },
    StringLiteral(Seq<char>),
    NumberLiteral(Seq<char>),
}

/// The model of a source-tree node: text as `Seq<char>`, children as `Seq`.
pub open spec fn node_view(n: Node) -> NodeView
    decreases n,
{
    match n {
        Node::Program { body } => NodeView::Program { body: nodes_view(body@) },
        Node::CallExpression { name, params } => NodeView::CallExpression {
            name: name@,
            params: nodes_view(params@),
        },
        Node::StringLiteral(s) => NodeView::StringLiteral(s@),
        Node::NumberLiteral(s) => NodeView::NumberLiteral(s@),
    }
}

/// The model of a sequence of source-tree nodes, element by element.
pub open spec fn nodes_view(ns: Seq<Node>) -> Seq<NodeView>
    decreases ns,
{
    if ns.len() == 0 {
        Seq::empty()
    } else {
        nodes_view(ns.drop_last()).push(node_view(ns.last()))
    }
}

/// `nodes_view` maps the sequence element by element.
pub broadcast proof fn lemma_nodes_view_index(ns: Seq<Node>)
    ensures
        (#[trigger] nodes_view(ns)).len() == ns.len(),
        forall|i: int| 0 <= i < ns.len() ==> nodes_view(ns)[i] == node_view(ns[i]),
    decreases ns,
{
    if ns.len() > 0 {
        lemma_nodes_view_index(ns.drop_last());
    }
}

/// A form as it may stand in a program body or an argument list: a literal
/// or a call; the program root appears nowhere below itself.
pub open spec fn form_wf(n: NodeView) -> bool
    decreases n,
{
    match n {
        NodeView::Program { .. } => false,
        NodeView::CallExpression { params, .. } => forall|i: int|
            0 <= i < params.len() ==> form_wf(#[trigger] params[i]),
        NodeView::StringLiteral(_) => true,
        NodeView::NumberLiteral(_) => true,
    }
}

/// A source tree as the parser builds it: the program root over well-formed
/// forms — or a single form standing alone.
pub open spec fn source_wf(n: NodeView) -> bool {
    match n {
        NodeView::Program { body } => forall|i: int|
            0 <= i < body.len() ==> form_wf(#[trigger] body[i]),
        _ => form_wf(n),
    }
}

/// The kind of each source node, as a spec-level function of its model.
pub open spec fn node_type_of(n: NodeView) -> NodeType {
    match n {
        NodeView::Program { .. } => NodeType::Program,
        NodeView::CallExpression { .. } => NodeType::CallExpression,
        NodeView::StringLiteral(_) => NodeType::StringLiteral,
        NodeView::NumberLiteral(_) => NodeType::NumberLiteral,
    }
}

impl Clone for Node {
    /// A deep copy with the same model as the tree it copies.
    fn clone(&self) -> (r: Node)
        ensures
            node_view(r) == node_view(*self),
        decreases *self,
    {
        match self {
            Node::Program { body } => Node::Program { body: clone_nodes(body) },
            Node::CallExpression { name, params } => Node::CallExpression {
                name: name.clone(),
                params: clone_nodes(params),
            },
            Node::StringLiteral(s) => Node::StringLiteral(s.clone()),
            Node::NumberLiteral(s) => Node::NumberLiteral(s.clone()),
        }
    }
}

/// A deep copy of a sequence of source-tree nodes, model for model.
fn clone_nodes(v: &Vec<Node>) -> (r: Vec<Node>)
    ensures
        nodes_view(r@) == nodes_view(v@),
    decreases *v,
{
    let mut r: Vec<Node> = Vec::new();
    let mut i: usize = 0;
    while i < v.len()
        invariant
            i <= v.len(),
            nodes_view(r@) == nodes_view(v@.take(i as int)),
        decreases v.len() - i,
    {
        proof {
            broadcast use lemma_nodes_view_index;

            assert(v@.take(i as int) == v@.take(i + 1 as int).drop_last());
            assert(v@.take(i + 1 as int).last() == v@[i as int]);
        }
        r.push(v[i].clone());
        i = i + 1;
    }
    proof {
        assert(v@.take(v@.len() as int) == v@);
    }
    r
}

impl Node {
    /// The kind of this node, the key under which visitors are registered.
    pub fn get_type(&self) -> (t: NodeType)
        ensures
            t == node_type_of(node_view(*self)),
    {
        match *self {
            Node::Program { .. } => NodeType::Program,
            Node::CallExpression { .. } => NodeType::CallExpression,
            Node::StringLiteral(_) => NodeType::StringLiteral,
            Node::NumberLiteral(_) => NodeType::NumberLiteral,
        }
    }
}

/// A node of the target tree built by the transformer: statements are
/// distinguished from expressions, and a call carries an explicit callee.
#[derive(Debug, PartialEq)]
pub enum TransformedNode {
    Program { body: Vec<TransformedNode> },
    ExpressionStatement { expression: Box<TransformedNode> },
    CallExpression { callee: Box<TransformedNode>, arguments: Vec<TransformedNode> },
    Identifier(String),
    StringLiteral(String),
    NumberLiteral(String),
}

/// The mathematical model of a target-tree node.
pub enum TransformedNodeView {
    Program { body: Seq<TransformedNodeView> },
    ExpressionStatement { expression: Box<TransformedNodeView> },
    CallExpression { callee: Box<TransformedNodeView>, arguments: Seq<TransformedNodeView> },
    Identifier(Seq<char>),
    StringLiteral(Seq<char>),
    NumberLiteral(Seq<char>),
}

/// The model of a target-tree node: text as `Seq<char>`, children as `Seq`.
pub open spec fn tnode_view(n: TransformedNode) -> TransformedNodeView
    decreases n,
{
    match n {
        TransformedNode::Program { body } => TransformedNodeView::Program {
            body: tnodes_view(body@),
        },
        TransformedNode::ExpressionStatement { expression } => {
            TransformedNodeView::ExpressionStatement {
                expression: Box::new(tnode_view(*expression)),
            }
        },
        TransformedNode::CallExpression { callee, arguments } => {
            TransformedNodeView::CallExpression {
                callee: Box::new(tnode_view(*callee)),
                arguments: tnodes_view(arguments@),
            }
        },
        TransformedNode::Identifier(s) => TransformedNodeView::Identifier(s@),
        TransformedNode::StringLiteral(s) => TransformedNodeView::StringLiteral(s@),
        TransformedNode::NumberLiteral(s) => TransformedNodeView::NumberLiteral(s@),
    }
}

/// The model of a sequence of target-tree nodes, element by element.
pub open spec fn tnodes_view(ns: Seq<TransformedNode>) -> Seq<TransformedNodeView>
    decreases ns,
{
    if ns.len() == 0 {
        Seq::empty()
    } else {
        tnodes_view(ns.drop_last()).push(tnode_view(ns.last()))
    }
}

} // verus!

