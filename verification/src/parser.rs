//! Recursive-descent parsing: consumes the token sequence and builds the
//! source tree.
//!
//! A number or string token becomes a literal leaf. An opening paren must be
//! followed by a name; the following forms, up to the closing paren, become
//! the parameters of a call expression. A call whose closing paren is missing
//! at the end of the input is accepted and closed silently, as is the top
//! level. A closing paren or a name where a form should start is an error.
//!
//! `spec_walk`, `spec_walk_params` and `spec_parse_body` are the
//! mathematical description of this grammar; `parser` is proved to return
//! exactly what `spec_parse` says, success and failure alike.

use vstd::prelude::*;

use crate::ast::{
    Node, NodeView, Token, TokenView, form_wf, node_view, nodes_view, source_wf, token_view,
    tokens_view,
};

verus! {

/// Failure of the parse.
#[derive(Debug, PartialEq)]
pub enum ParseError {
    /// An opening paren was followed by something other than a name.
    ExpectedNameAfterParen,
    /// An opening paren was the last token of the input.
    UnexpectedEndOfInput,
    /// This token stood where a form should start.
    UnexpectedToken(Token),
}

/// The mathematical model of a `ParseError`.
pub enum ParseErrorView {
    ExpectedNameAfterParen,
    UnexpectedEndOfInput,
    UnexpectedToken(TokenView),
}

/// The model of a parse error, with the offending token as its model.
pub open spec fn parse_error_view(e: ParseError) -> ParseErrorView {
    match e {
        ParseError::ExpectedNameAfterParen => ParseErrorView::ExpectedNameAfterParen,
        ParseError::UnexpectedEndOfInput => ParseErrorView::UnexpectedEndOfInput,
        ParseError::UnexpectedToken(t) => ParseErrorView::UnexpectedToken(token_view(t)),
    }
}

/// The outcome of parsing one form at position `i` of the token sequence:
/// the form's tree and the position just after it, or the error the grammar
/// gives for what stands there.
pub open spec fn spec_walk(ts: Seq<TokenView>, i: int) -> Result<(NodeView, int), ParseErrorView>
    decreases ts.len() - i, 0int,
{
    if !(0 <= i < ts.len()) {
        Err(ParseErrorView::UnexpectedEndOfInput)
    } else {
        match ts[i] {
            TokenView::Number(v) => Ok((NodeView::NumberLiteral(v), i + 1)),
            TokenView::StringLit(v) => Ok((NodeView::StringLiteral(v), i + 1)),
            TokenView::ParenOpening => {
                if i + 1 >= ts.len() {
                    Err(ParseErrorView::UnexpectedEndOfInput)
                } else {
                    match ts[i + 1] {
                        TokenView::Name(name) => {
                            match spec_walk_params(ts, i + 2) {
                                Ok((params, j)) => Ok(
                                    (NodeView::CallExpression { name, params }, j),
                                ),
                                Err(e) => Err(e),
                            }
                        },
                        _ => Err(ParseErrorView::ExpectedNameAfterParen),
                    }
                }
            },
            _ => Err(ParseErrorView::UnexpectedToken(ts[i])),
        }
    }
}

/// The outcome of parsing the parameters of a call from position `i` on:
/// the forms up to (and consuming) the closing paren, or up to the end of
/// the input when the closing paren is missing.
pub open spec fn spec_walk_params(ts: Seq<TokenView>, i: int) -> Result<
    (Seq<NodeView>, int),
    ParseErrorView,
>
    decreases ts.len() - i, 1int,
{
    if i >= ts.len() {
        Ok((Seq::empty(), i))
    } else if (ts[i] matches TokenView::ParenClosing) {
        Ok((Seq::empty(), i + 1))
    } else {
        match spec_walk(ts, i) {
            Ok((n, j)) => {
                if i < j && j <= ts.len() {
                    match spec_walk_params(ts, j) {
                        Ok((rest, k)) => Ok((seq![n] + rest, k)),
                        Err(e) => Err(e),
                    }
                } else {
                    // a parsed form always moves forward
                    Err(ParseErrorView::UnexpectedEndOfInput)
                }
            },
            Err(e) => Err(e),
        }
    }
}

/// The outcome of parsing the top-level forms from position `i` to the end
/// of the token sequence.
pub open spec fn spec_parse_body(ts: Seq<TokenView>, i: int) -> Result<
    Seq<NodeView>,
    ParseErrorView,
>
    decreases ts.len() - i, 2int,
{
    if i >= ts.len() {
        Ok(Seq::empty())
    } else {
        match spec_walk(ts, i) {
            Ok((n, j)) => {
                if i < j && j <= ts.len() {
                    match spec_parse_body(ts, j) {
                        Ok(rest) => Ok(seq![n] + rest),
                        Err(e) => Err(e),
                    }
                } else {
                    // a parsed form always moves forward
                    Err(ParseErrorView::UnexpectedEndOfInput)
                }
            },
            Err(e) => Err(e),
        }
    }
}

/// The outcome of the whole parse: the program whose body is every
/// top-level form in order, or the first error.
pub open spec fn spec_parse(ts: Seq<TokenView>) -> Result<NodeView, ParseErrorView> {
    match spec_parse_body(ts, 0) {
        Ok(body) => Ok(NodeView::Program { body }),
        Err(e) => Err(e),
    }
}

/// A parsed form stands strictly between its start and the end of the input.
pub broadcast proof fn lemma_spec_walk_advances(ts: Seq<TokenView>, i: int)
    ensures
        #[trigger] spec_walk(ts, i) matches Ok((n, j)) ==> i < j <= ts.len(),
    decreases ts.len() - i, 0int,
{
    if 0 <= i < ts.len() && (ts[i] matches TokenView::ParenOpening) && i + 1 < ts.len() && (ts[i
        + 1] matches TokenView::Name(_)) {
        lemma_spec_walk_params_advances(ts, i + 2);
    }
}

/// Parsed parameters end no earlier than they start and within the input.
pub broadcast proof fn lemma_spec_walk_params_advances(ts: Seq<TokenView>, i: int)
    ensures
        #[trigger] spec_walk_params(ts, i) matches Ok((ns, j)) ==> i <= j && (i <= ts.len()
            ==> j <= ts.len()),
    decreases ts.len() - i, 1int,
{
    if i >= ts.len() {
    } else if (ts[i] matches TokenView::ParenClosing) {
    } else {
        lemma_spec_walk_advances(ts, i);
        match spec_walk(ts, i) {
            Ok((n, j)) => {
                if i < j && j <= ts.len() {
                    lemma_spec_walk_params_advances(ts, j);
                }
            },
            Err(_) => {},
        }
    }
}

/// Puts already parsed parameter forms in front of the outcome of parsing
/// the remaining ones.
pub open spec fn params_prepend(
    ns: Seq<NodeView>,
    rest: Result<(Seq<NodeView>, int), ParseErrorView>,
) -> Result<(Seq<NodeView>, int), ParseErrorView> {
    match rest {
        Ok((more, k)) => Ok((ns + more, k)),
        Err(e) => Err(e),
    }
}

/// Puts already parsed top-level forms in front of the outcome of parsing
/// the remaining ones.
pub open spec fn body_prepend(
    ns: Seq<NodeView>,
    rest: Result<Seq<NodeView>, ParseErrorView>,
) -> Result<Seq<NodeView>, ParseErrorView> {
    match rest {
        Ok(more) => Ok(ns + more),
        Err(e) => Err(e),
    }
}

fn closing_at(tokens: &Vec<Token>, i: usize) -> (b: bool)
    requires
        i < tokens@.len(),
    ensures
        b == (tokens_view(tokens@)[i as int] matches TokenView::ParenClosing),
{
    match &tokens[i] {
        Token::ParenClosing => true,
        _ => false,
    }
}

/// Parses one form starting at `pos`, returning the node it builds and the
/// position just after it: exactly what `spec_walk` says.
#[verifier::loop_isolation(false)]
fn walk(tokens: &Vec<Token>, pos: usize) -> (r: Result<(Node, usize), ParseError>)
    requires
        pos < tokens@.len(),
    ensures
        match r {
            Ok(p) => spec_walk(tokens_view(tokens@), pos as int) == Ok::<
                (NodeView, int),
                ParseErrorView,
            >((node_view(p.0), p.1 as int)) && pos < p.1 <= tokens@.len(),
            Err(e) => spec_walk(tokens_view(tokens@), pos as int) == Err::<
                (NodeView, int),
                ParseErrorView,
            >(parse_error_view(e)),
        },
    decreases tokens@.len() - pos,
{
    let ghost ts = tokens_view(tokens@);
    let n_tokens = tokens.len();
    match &tokens[pos] {
        Token::Number(v) => Ok((Node::NumberLiteral(v.clone()), pos + 1)),
        Token::String(v) => Ok((Node::StringLiteral(v.clone()), pos + 1)),
        Token::ParenOpening => {
            if pos + 1 >= n_tokens {
                Err(ParseError::UnexpectedEndOfInput)
            } else {
                match &tokens[pos + 1] {
                    Token::Name(name) => {
                        let name = name.clone();
                        let mut params: Vec<Node> = Vec::new();
                        let mut cur: usize = pos + 2;
                        while cur < tokens.len() && !closing_at(tokens, cur)
                            invariant
                                ts == tokens_view(tokens@),
                                pos + 2 <= cur <= tokens@.len(),
                                spec_walk_params(ts, pos + 2 as int) == params_prepend(
                                    nodes_view(params@),
                                    spec_walk_params(ts, cur as int),
                                ),
                            decreases tokens@.len() - cur,
                        {
                            match walk(tokens, cur) {
                                Ok((node, j)) => {
                                    proof {
                                        lemma_params_step(ts, cur as int, node_view(node), j as int, nodes_view(params@));
                                        lemma_nodes_view_push(params@, node);
                                    }
                                    params.push(node);
                                    cur = j;
                                },
                                Err(e) => {
                                    proof {
                                        assert(spec_walk_params(ts, pos + 2) == Err::<
                                            (Seq<NodeView>, int),
                                            ParseErrorView,
                                        >(parse_error_view(e)));
                                    }
                                    return Err(e);
                                },
                            }
                        }
                        let end: usize = if cur < tokens.len() {
                            cur + 1
                        } else {
                            cur
                        };
                        proof {
                            assert(spec_walk_params(ts, cur as int) == Ok::<
                                (Seq<NodeView>, int),
                                ParseErrorView,
                            >((Seq::empty(), end as int)));
                            assert(nodes_view(params@) + Seq::<NodeView>::empty() =~= nodes_view(
                                params@,
                            ));
                        }
                        Ok((Node::CallExpression { name, params }, end))
                    },
                    _ => Err(ParseError::ExpectedNameAfterParen),
                }
            }
        },
        Token::ParenClosing => Err(ParseError::UnexpectedToken(Token::ParenClosing)),
        Token::Name(v) => Err(ParseError::UnexpectedToken(Token::Name(v.clone()))),
    }
}

/// One step of the parameter loop: moving one parsed form from the pending
/// side of the relation to the finished side keeps the relation.
proof fn lemma_params_step(ts: Seq<TokenView>, cur: int, nv: NodeView, j: int, done: Seq<NodeView>)
    requires
        cur < ts.len(),
        !(ts[cur] matches TokenView::ParenClosing),
        spec_walk(ts, cur) == Ok::<(NodeView, int), ParseErrorView>((nv, j)),
        cur < j <= ts.len(),
    ensures
        params_prepend(done, spec_walk_params(ts, cur)) == params_prepend(
            done.push(nv),
            spec_walk_params(ts, j),
        ),
{
    match spec_walk_params(ts, j) {
        Ok((rest, k)) => {
            assert(done + (seq![nv] + rest) =~= done.push(nv) + rest);
        },
        Err(_) => {},
    }
}

/// Pushing a node onto a vector extends its model by the node's model.
proof fn lemma_nodes_view_push(ns: Seq<Node>, n: Node)
    ensures
        nodes_view(ns.push(n)) == nodes_view(ns).push(node_view(n)),
{
    assert(ns.push(n).drop_last() =~= ns);
    assert(ns.push(n).last() == n);
}

/// Parses the token sequence into a program whose body is every top-level
/// form in order. The outcome, success and failure alike, is exactly
/// `spec_parse` of the tokens.
pub fn parser(tokens: Vec<Token>) -> (r: Result<Node, ParseError>)
    ensures
        match r {
            Ok(n) => spec_parse(tokens_view(tokens@)) == Ok::<NodeView, ParseErrorView>(
                node_view(n),
            ) && source_wf(node_view(n)),
            Err(e) => spec_parse(tokens_view(tokens@)) == Err::<NodeView, ParseErrorView>(
                parse_error_view(e),
            ),
        },
{
    let ghost ts = tokens_view(tokens@);
    let mut body: Vec<Node> = Vec::new();
    let mut i: usize = 0;
    while i < tokens.len()
        invariant
            ts == tokens_view(tokens@),
            i <= tokens@.len(),
            spec_parse_body(ts, 0) == body_prepend(nodes_view(body@), spec_parse_body(ts, i as int)),
        decreases tokens@.len() - i,
    {
        match walk(&tokens, i) {
            Ok((n, j)) => {
                proof {
                    lemma_body_step(ts, i as int, node_view(n), j as int, nodes_view(body@));
                    lemma_nodes_view_push(body@, n);
                }
                body.push(n);
                i = j;
            },
            Err(e) => {
                return Err(e);
            },
        }
    }
    proof {
        assert(spec_parse_body(ts, i as int) == Ok::<Seq<NodeView>, ParseErrorView>(Seq::empty()));
        assert(nodes_view(body@) + Seq::<NodeView>::empty() =~= nodes_view(body@));
        lemma_spec_parse_wf(ts);
    }
    Ok(Node::Program { body })
}

/// Every form the grammar accepts is well-formed: a literal or a call, with
/// no program root below the top level.
pub broadcast proof fn lemma_spec_walk_wf(ts: Seq<TokenView>, i: int)
    ensures
        #[trigger] spec_walk(ts, i) matches Ok((n, j)) ==> form_wf(n),
    decreases ts.len() - i, 0int,
{
    if 0 <= i < ts.len() && (ts[i] matches TokenView::ParenOpening) && i + 1 < ts.len() && (ts[i
        + 1] matches TokenView::Name(_)) {
        lemma_spec_walk_params_wf(ts, i + 2);
    }
}

/// Every parameter list the grammar accepts holds well-formed forms only.
pub broadcast proof fn lemma_spec_walk_params_wf(ts: Seq<TokenView>, i: int)
    ensures
        #[trigger] spec_walk_params(ts, i) matches Ok((ns, j)) ==> forall|k: int|
            0 <= k < ns.len() ==> form_wf(#[trigger] ns[k]),
    decreases ts.len() - i, 1int,
{
    if i >= ts.len() {
    } else if (ts[i] matches TokenView::ParenClosing) {
    } else {
        lemma_spec_walk_wf(ts, i);
        match spec_walk(ts, i) {
            Ok((n, j)) => {
                if i < j && j <= ts.len() {
                    lemma_spec_walk_params_wf(ts, j);
                    match spec_walk_params(ts, j) {
                        Ok((rest, k)) => {
                            assert(forall|m: int|
                                0 <= m < rest.len() ==> (seq![n] + rest)[m + 1] == #[trigger] rest[m]);
                        },
                        Err(_) => {},
                    }
                }
            },
            Err(_) => {},
        }
    }
}

/// Law: the tree of a successful parse is well formed — the program root
/// stands only at the root, and everything below it is a literal or a call.
pub proof fn lemma_spec_parse_wf(ts: Seq<TokenView>)
    ensures
        spec_parse(ts) matches Ok(n) ==> source_wf(n),
{
    lemma_spec_parse_body_wf(ts, 0);
}

proof fn lemma_spec_parse_body_wf(ts: Seq<TokenView>, i: int)
    ensures
        spec_parse_body(ts, i) matches Ok(ns) ==> forall|k: int|
            0 <= k < ns.len() ==> form_wf(#[trigger] ns[k]),
    decreases ts.len() - i, 2int,
{
    if i >= ts.len() {
    } else {
        lemma_spec_walk_wf(ts, i);
        match spec_walk(ts, i) {
            Ok((n, j)) => {
                if i < j && j <= ts.len() {
                    lemma_spec_parse_body_wf(ts, j);
                    match spec_parse_body(ts, j) {
                        Ok(rest) => {
                            assert(forall|m: int|
                                0 <= m < rest.len() ==> (seq![n] + rest)[m + 1] == #[trigger] rest[m]);
                        },
                        Err(_) => {},
                    }
                }
            },
            Err(_) => {},
        }
    }
}

/// How many nodes a source tree holds when flattened: every literal and
/// every call, the program root itself not counted.
pub open spec fn flat_count(n: NodeView) -> nat
    decreases n,
{
    match n {
        NodeView::Program { body } => flat_count_seq(body),
        NodeView::CallExpression { params, .. } => 1 + flat_count_seq(params),
        NodeView::StringLiteral(_) => 1,
        NodeView::NumberLiteral(_) => 1,
    }
}

/// The flattened node count of a sequence of sibling forms.
pub open spec fn flat_count_seq(ns: Seq<NodeView>) -> nat
    decreases ns,
{
    if ns.len() == 0 {
        0
    } else {
        flat_count(ns.first()) + flat_count_seq(ns.drop_first())
    }
}

/// Whether a token starts a form: a literal starts a leaf, an opening
/// paren starts a call.
pub open spec fn starts_form(t: TokenView) -> bool {
    match t {
        TokenView::Number(_) => true,
        TokenView::StringLit(_) => true,
        TokenView::ParenOpening => true,
        _ => false,
    }
}

/// How many form-starting tokens stand in positions `i` up to `j`.
pub open spec fn form_start_count(ts: Seq<TokenView>, i: int, j: int) -> nat
    decreases j - i,
{
    if i >= j {
        0
    } else {
        (if starts_form(ts[i]) {
            1nat
        } else {
            0nat
        }) + form_start_count(ts, i + 1, j)
    }
}

/// Counting form starts splits at any position between the bounds.
proof fn lemma_form_start_count_split(ts: Seq<TokenView>, i: int, j: int, k: int)
    requires
        i <= j <= k,
    ensures
        form_start_count(ts, i, k) == form_start_count(ts, i, j) + form_start_count(ts, j, k),
    decreases j - i,
{
    if i < j {
        lemma_form_start_count_split(ts, i + 1, j, k);
    }
}

/// One parsed form holds exactly one flattened node per form-starting
/// token it consumed.
proof fn lemma_walk_count(ts: Seq<TokenView>, i: int)
    ensures
        spec_walk(ts, i) matches Ok((n, j)) ==> flat_count(n) == form_start_count(ts, i, j),
    decreases ts.len() - i, 0int,
{
    broadcast use lemma_spec_walk_advances, lemma_spec_walk_params_advances;

    if 0 <= i < ts.len() {
        match ts[i] {
            TokenView::Number(_) => {
                assert(form_start_count(ts, i + 1, i + 1) == 0);
            },
            TokenView::StringLit(_) => {
                assert(form_start_count(ts, i + 1, i + 1) == 0);
            },
            TokenView::ParenOpening => {
                if i + 1 < ts.len() && (ts[i + 1] matches TokenView::Name(_)) {
                    lemma_walk_params_count(ts, i + 2);
                    match spec_walk_params(ts, i + 2) {
                        Ok((params, j)) => {
                            lemma_form_start_count_split(ts, i + 1, i + 2, j);
                            assert(form_start_count(ts, i + 2, i + 2) == 0);
                            assert(form_start_count(ts, i + 1, i + 2) == 0);
                            assert(form_start_count(ts, i, j) == 1 + form_start_count(
                                ts,
                                i + 2,
                                j,
                            ));
                        },
                        Err(_) => {},
                    }
                }
            },
            _ => {},
        }
    }
}

/// A parsed parameter list holds exactly one flattened node per
/// form-starting token it consumed (a closing paren starts none).
proof fn lemma_walk_params_count(ts: Seq<TokenView>, i: int)
    ensures
        spec_walk_params(ts, i) matches Ok((ns, j)) ==> flat_count_seq(ns) == form_start_count(
            ts,
            i,
            j,
        ),
    decreases ts.len() - i, 1int,
{
    broadcast use lemma_spec_walk_advances, lemma_spec_walk_params_advances;

    if i >= ts.len() {
    } else if (ts[i] matches TokenView::ParenClosing) {
        assert(form_start_count(ts, i + 1, i + 1) == 0);
        assert(form_start_count(ts, i, i + 1) == 0);
    } else {
        lemma_walk_count(ts, i);
        match spec_walk(ts, i) {
            Ok((n, j)) => {
                if i < j && j <= ts.len() {
                    lemma_walk_params_count(ts, j);
                    match spec_walk_params(ts, j) {
                        Ok((rest, k)) => {
                            lemma_form_start_count_split(ts, i, j, k);
                            assert((seq![n] + rest).first() == n);
                            assert((seq![n] + rest).drop_first() =~= rest);
                        },
                        Err(_) => {},
                    }
                }
            },
            Err(_) => {},
        }
    }
}

proof fn lemma_parse_body_count(ts: Seq<TokenView>, i: int)
    ensures
        spec_parse_body(ts, i) matches Ok(ns) ==> flat_count_seq(ns) == form_start_count(
            ts,
            i,
            ts.len() as int,
        ),
    decreases ts.len() - i, 2int,
{
    broadcast use lemma_spec_walk_advances;

    if i >= ts.len() {
    } else {
        lemma_walk_count(ts, i);
        match spec_walk(ts, i) {
            Ok((n, j)) => {
                if i < j && j <= ts.len() {
                    lemma_parse_body_count(ts, j);
                    match spec_parse_body(ts, j) {
                        Ok(rest) => {
                            lemma_form_start_count_split(ts, i, j, ts.len() as int);
                            assert((seq![n] + rest).first() == n);
                            assert((seq![n] + rest).drop_first() =~= rest);
                        },
                        Err(_) => {},
                    }
                }
            },
            Err(_) => {},
        }
    }
}

/// Law: a successful parse yields a program whose flattened node count is
/// the number of form-starting tokens — one node per literal token and one
/// per opening paren, whatever the nesting. For a program text this is the
/// number of its literal and call forms.
pub proof fn lemma_parse_node_count(ts: Seq<TokenView>)
    ensures
        spec_parse(ts) matches Ok(n) ==> flat_count(n) == form_start_count(
            ts,
            0,
            ts.len() as int,
        ),
{
    lemma_parse_body_count(ts, 0);
}

/// One step of the top-level loop: moving one parsed form from the pending
/// side of the relation to the finished side keeps the relation.
proof fn lemma_body_step(ts: Seq<TokenView>, i: int, nv: NodeView, j: int, done: Seq<NodeView>)
    requires
        0 <= i < ts.len(),
        spec_walk(ts, i) == Ok::<(NodeView, int), ParseErrorView>((nv, j)),
        i < j <= ts.len(),
    ensures
        body_prepend(done, spec_parse_body(ts, i)) == body_prepend(
            done.push(nv),
            spec_parse_body(ts, j),
        ),
{
    match spec_parse_body(ts, j) {
        Ok(rest) => {
            assert(done + (seq![nv] + rest) =~= done.push(nv) + rest);
        },
        Err(_) => {},
    }
}

} // verus!
