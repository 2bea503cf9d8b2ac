//! Lexical analysis: a single left-to-right scan that turns the input text
//! into a flat sequence of tokens.
//!
//! The scanner skips whitespace, emits a paren token for `(` and `)`, takes
//! the maximal run of ASCII digits as a number, the maximal run of ASCII
//! lowercase letters as a name, and everything between a `"` and the next
//! `"` (or the end of the input, which is accepted without error) as a
//! string literal. Any other character stops the scan with an error.
//!
//! `spec_lex` is the mathematical description of this scan; `tokenizer`
//! is proved to return exactly what `spec_lex` says, success and failure
//! alike.

use vstd::prelude::*;
use vstd::string::StrSliceExecFns;

use crate::ast::{Token, TokenView, token_view, tokens_view};

verus! {

/// Failure of the lexical scan.
#[derive(Debug, PartialEq, Eq, Structural, Clone, Copy)]
pub enum LexError {
    /// The scan met a character that starts no token.
    UnrecognizedCharacter(char),
}

/// An ASCII digit, the characters a number token is made of.
pub open spec fn is_digit_char(c: char) -> bool {
    0x30 <= c as u32 && c as u32 <= 0x39
}

/// An ASCII lowercase letter, the characters a name token is made of.
pub open spec fn is_name_char(c: char) -> bool {
    0x61 <= c as u32 && c as u32 <= 0x7a
}

/// A Unicode whitespace character (the White_Space code points).
pub open spec fn is_whitespace_char(c: char) -> bool {
    let u = c as u32;
    u == 0x09 || u == 0x0a || u == 0x0b || u == 0x0c || u == 0x0d || u == 0x20 || u == 0x85
        || u == 0xa0 || u == 0x1680 || (0x2000 <= u && u <= 0x200a) || u == 0x2028 || u == 0x2029
        || u == 0x202f || u == 0x205f || u == 0x3000
}

fn char_is_digit(c: char) -> (b: bool)
    ensures
        b == is_digit_char(c),
{
    let u = c as u32;
    0x30 <= u && u <= 0x39
}

fn char_is_name(c: char) -> (b: bool)
    ensures
        b == is_name_char(c),
{
    let u = c as u32;
    0x61 <= u && u <= 0x7a
}

fn char_is_whitespace(c: char) -> (b: bool)
    ensures
        b == is_whitespace_char(c),
{
    let u = c as u32;
    u == 0x09 || u == 0x0a || u == 0x0b || u == 0x0c || u == 0x0d || u == 0x20 || u == 0x85
        || u == 0xa0 || u == 0x1680 || (0x2000 <= u && u <= 0x200a) || u == 0x2028 || u == 0x2029
        || u == 0x202f || u == 0x205f || u == 0x3000
}

/// Where the maximal run of ASCII digits starting at `i` ends.
pub open spec fn digit_run_end(s: Seq<char>, i: int) -> int
    decreases s.len() - i,
{
    if i < s.len() && is_digit_char(s[i]) {
        digit_run_end(s, i + 1)
    } else {
        i
    }
}

/// Where the maximal run of ASCII lowercase letters starting at `i` ends.
pub open spec fn name_run_end(s: Seq<char>, i: int) -> int
    decreases s.len() - i,
{
    if i < s.len() && is_name_char(s[i]) {
        name_run_end(s, i + 1)
    } else {
        i
    }
}

/// Where the body of a string literal starting at `i` ends: the position of
/// the next `"`, or the end of the input.
pub open spec fn string_body_end(s: Seq<char>, i: int) -> int
    decreases s.len() - i,
{
    if i < s.len() && s[i] != '"' {
        string_body_end(s, i + 1)
    } else {
        i
    }
}

/// What `digit_run_end` returns: the end of the maximal digit run.
pub broadcast proof fn lemma_digit_run_end(s: Seq<char>, i: int)
    ensures
        i <= #[trigger] digit_run_end(s, i),
        i <= s.len() ==> digit_run_end(s, i) <= s.len(),
        forall|k: int| i <= k < digit_run_end(s, i) ==> is_digit_char(s[k]),
        i <= digit_run_end(s, i) < s.len() ==> !is_digit_char(s[digit_run_end(s, i)]),
    decreases s.len() - i,
{
    if i < s.len() && is_digit_char(s[i]) {
        lemma_digit_run_end(s, i + 1);
    }
}

/// What `name_run_end` returns: the end of the maximal letter run.
pub broadcast proof fn lemma_name_run_end(s: Seq<char>, i: int)
    ensures
        i <= #[trigger] name_run_end(s, i),
        i <= s.len() ==> name_run_end(s, i) <= s.len(),
        forall|k: int| i <= k < name_run_end(s, i) ==> is_name_char(s[k]),
        i <= name_run_end(s, i) < s.len() ==> !is_name_char(s[name_run_end(s, i)]),
    decreases s.len() - i,
{
    if i < s.len() && is_name_char(s[i]) {
        lemma_name_run_end(s, i + 1);
    }
}

/// What `string_body_end` returns: the position of the closing quote, or
/// the end of the input when there is none.
pub broadcast proof fn lemma_string_body_end(s: Seq<char>, i: int)
    ensures
        i <= #[trigger] string_body_end(s, i),
        i <= s.len() ==> string_body_end(s, i) <= s.len(),
        forall|k: int| i <= k < string_body_end(s, i) ==> s[k] != '"',
        i <= string_body_end(s, i) < s.len() ==> s[string_body_end(s, i)] == '"',
    decreases s.len() - i,
{
    if i < s.len() && s[i] != '"' {
        lemma_string_body_end(s, i + 1);
    }
}

/// Puts a token in front of the outcome of lexing the rest of the input.
pub open spec fn lex_cons(
    t: TokenView,
    rest: Result<Seq<TokenView>, LexError>,
) -> Result<Seq<TokenView>, LexError> {
    match rest {
        Ok(ts) => Ok(seq![t] + ts),
        Err(e) => Err(e),
    }
}

/// The outcome of scanning the input from position `i` on: the tokens that
/// the scan emits, or the first unrecognized character it stops at.
pub open spec fn spec_lex(s: Seq<char>, i: int) -> Result<Seq<TokenView>, LexError>
    decreases s.len() - i,
{
    if i >= s.len() {
        Ok(Seq::empty())
    } else {
        let c = s[i];
        if is_whitespace_char(c) {
            spec_lex(s, i + 1)
        } else if c == '(' {
            lex_cons(TokenView::ParenOpening, spec_lex(s, i + 1))
        } else if c == ')' {
            lex_cons(TokenView::ParenClosing, spec_lex(s, i + 1))
        } else if is_digit_char(c) {
            let j = digit_run_end(s, i);
            if i < j && j <= s.len() {
                lex_cons(TokenView::Number(s.subrange(i, j)), spec_lex(s, j))
            } else {
                // a run that starts at a digit is never empty
                Ok(Seq::empty())
            }
        } else if is_name_char(c) {
            let j = name_run_end(s, i);
            if i < j && j <= s.len() {
                lex_cons(TokenView::Name(s.subrange(i, j)), spec_lex(s, j))
            } else {
                // a run that starts at a letter is never empty
                Ok(Seq::empty())
            }
        } else if c == '"' {
            let j = string_body_end(s, i + 1);
            let next = if j < s.len() {
                j + 1
            } else {
                j
            };
            if i + 1 <= j && j <= s.len() {
                lex_cons(TokenView::StringLit(s.subrange(i + 1, j)), spec_lex(s, next))
            } else {
                // the body starts right after the quote
                Ok(Seq::empty())
            }
        } else {
            Err(LexError::UnrecognizedCharacter(c))
        }
    }
}

/// Puts already emitted tokens in front of the outcome of the remaining scan.
pub open spec fn lex_prepend(
    ts: Seq<TokenView>,
    rest: Result<Seq<TokenView>, LexError>,
) -> Result<Seq<TokenView>, LexError> {
    match rest {
        Ok(more) => Ok(ts + more),
        Err(e) => Err(e),
    }
}

fn digit_at(s: &str, j: usize) -> (b: bool)
    requires
        j < s@.len(),
    ensures
        b == is_digit_char(s@[j as int]),
{
    let c = s.get_char(j);
    char_is_digit(c)
}

fn name_at(s: &str, j: usize) -> (b: bool)
    requires
        j < s@.len(),
    ensures
        b == is_name_char(s@[j as int]),
{
    let c = s.get_char(j);
    char_is_name(c)
}

fn quote_at(s: &str, j: usize) -> (b: bool)
    requires
        j < s@.len(),
    ensures
        b == (s@[j as int] == '"'),
{
    let c = s.get_char(j);
    c == '"'
}

/// Converts the input text into the sequence of its tokens, in order, or
/// reports the first character that starts no token. The outcome, success
/// and failure alike, is exactly `spec_lex` of the input.
pub fn tokenizer(input: &str) -> (r: Result<Vec<Token>, LexError>)
    ensures
        match r {
            Ok(tokens) => spec_lex(input@, 0) == Ok::<Seq<TokenView>, LexError>(
                tokens_view(tokens@),
            ),
            Err(e) => spec_lex(input@, 0) == Err::<Seq<TokenView>, LexError>(e),
        },
{
    broadcast use lemma_digit_run_end, lemma_name_run_end, lemma_string_body_end;

    let ghost s = input@;
    let n = input.unicode_len();
    let mut tokens: Vec<Token> = Vec::new();
    let mut i: usize = 0;
    while i < n
        invariant
            n == s.len(),
            s == input@,
            i <= n,
            spec_lex(s, 0) == lex_prepend(tokens_view(tokens@), spec_lex(s, i as int)),
        decreases n - i,
    {
        let c = input.get_char(i);
        if char_is_whitespace(c) {
            i = i + 1;
        } else if c == '(' {
            push_token(&mut tokens, Token::ParenOpening, Ghost(s), Ghost(i as int), Ghost(i as int + 1));
            i = i + 1;
        } else if c == ')' {
            push_token(&mut tokens, Token::ParenClosing, Ghost(s), Ghost(i as int), Ghost(i as int + 1));
            i = i + 1;
        } else if char_is_digit(c) {
            let mut j: usize = i + 1;
            while j < n && digit_at(input, j)
                invariant
                    n == s.len(),
                    s == input@,
                    i < j <= n,
                    forall|k: int| i <= k < j ==> is_digit_char(s[k]),
                decreases n - j,
            {
                j = j + 1;
            }
            proof {
                lemma_run_is_exact(s, i as int, j as int);
            }
            let text = input.substring_char(i, j);
            push_token(
                &mut tokens,
                Token::Number(text.to_owned()),
                Ghost(s),
                Ghost(i as int),
                Ghost(j as int),
            );
            i = j;
        } else if char_is_name(c) {
            let mut j: usize = i + 1;
            while j < n && name_at(input, j)
                invariant
                    n == s.len(),
                    s == input@,
                    i < j <= n,
                    forall|k: int| i <= k < j ==> is_name_char(s[k]),
                decreases n - j,
            {
                j = j + 1;
            }
            proof {
                lemma_run_is_exact(s, i as int, j as int);
            }
            let text = input.substring_char(i, j);
            push_token(
                &mut tokens,
                Token::Name(text.to_owned()),
                Ghost(s),
                Ghost(i as int),
                Ghost(j as int),
            );
            i = j;
        } else if c == '"' {
            let mut j: usize = i + 1;
            while j < n && !quote_at(input, j)
                invariant
                    n == s.len(),
                    s == input@,
                    i < j <= n,
                    forall|k: int| i + 1 <= k < j ==> s[k] != '"',
                decreases n - j,
            {
                j = j + 1;
            }
            proof {
                lemma_string_body_is_exact(s, i + 1, j as int);
            }
            let body = input.substring_char(i + 1, j);
            let next = if j < n {
                j + 1
            } else {
                j
            };
            push_token(
                &mut tokens,
                Token::String(body.to_owned()),
                Ghost(s),
                Ghost(i as int),
                Ghost(next as int),
            );
            i = next;
        } else {
            proof {
                assert(spec_lex(s, i as int) == Err::<Seq<TokenView>, LexError>(
                    LexError::UnrecognizedCharacter(c),
                ));
            }
            return Err(LexError::UnrecognizedCharacter(c));
        }
    }
    proof {
        assert(spec_lex(s, i as int) == Ok::<Seq<TokenView>, LexError>(Seq::empty()));
        assert(tokens_view(tokens@) + Seq::<TokenView>::empty() =~= tokens_view(tokens@));
    }
    Ok(tokens)
}

/// Appends a freshly scanned token and carries the scan relation from the
/// old position to the new one.
fn push_token(
    tokens: &mut Vec<Token>,
    t: Token,
    Ghost(s): Ghost<Seq<char>>,
    Ghost(i): Ghost<int>,
    Ghost(next): Ghost<int>,
)
    requires
        spec_lex(s, 0) == lex_prepend(tokens_view(old(tokens)@), spec_lex(s, i)),
        spec_lex(s, i) == lex_cons(token_view(t), spec_lex(s, next)),
    ensures
        final(tokens)@ == old(tokens)@.push(t),
        spec_lex(s, 0) == lex_prepend(tokens_view(final(tokens)@), spec_lex(s, next)),
{
    proof {
        let ts = tokens_view(tokens@);
        let tv = token_view(t);
        assert(tokens_view(tokens@.push(t)) =~= ts.push(tv));
        match spec_lex(s, next) {
            Ok(more) => {
                assert(ts + (seq![tv] + more) =~= ts.push(tv) + more);
            },
            Err(_) => {},
        }
    }
    tokens.push(t);
}

/// A scan that stopped at `j` with only digits before it ends the maximal
/// digit run (and the same for letter runs, by symmetry of the definitions).
proof fn lemma_run_is_exact(s: Seq<char>, i: int, j: int)
    requires
        0 <= i <= j <= s.len(),
        forall|k: int| i <= k < j ==> is_digit_char(s[k]) || is_name_char(s[k]),
    ensures
        (forall|k: int| i <= k < j ==> is_digit_char(s[k])) && (j < s.len() ==> !is_digit_char(
            s[j],
        )) ==> digit_run_end(s, i) == j,
        (forall|k: int| i <= k < j ==> is_name_char(s[k])) && (j < s.len() ==> !is_name_char(s[j]))
            ==> name_run_end(s, i) == j,
    decreases j - i,
{
    if i < j {
        lemma_run_is_exact(s, i + 1, j);
    }
}

/// A scan that stopped at `j` with no quote before it ends the string body.
proof fn lemma_string_body_is_exact(s: Seq<char>, i: int, j: int)
    requires
        0 <= i <= j <= s.len(),
        forall|k: int| i <= k < j ==> s[k] != '"',
        j < s.len() ==> s[j] == '"',
    ensures
        string_body_end(s, i) == j,
    decreases j - i,
{
    if i < j {
        lemma_string_body_is_exact(s, i + 1, j);
    }
}

/// A character that the scanner always accepts: one that starts a token or
/// is skipped as whitespace.
pub open spec fn plain_char(c: char) -> bool {
    is_whitespace_char(c) || c == '(' || c == ')' || is_digit_char(c) || is_name_char(c) || c
        == '"'
}

/// Law: on an input made only of digits, lowercase letters, quotes, parens
/// and whitespace, the scan never fails.
pub proof fn lemma_lex_total_on_plain_input(s: Seq<char>)
    requires
        forall|k: int| 0 <= k < s.len() ==> plain_char(s[k]),
    ensures
        spec_lex(s, 0) is Ok,
{
    lemma_lex_total_from(s, 0);
}

proof fn lemma_lex_total_from(s: Seq<char>, i: int)
    requires
        0 <= i,
        forall|k: int| 0 <= k < s.len() ==> plain_char(s[k]),
    ensures
        spec_lex(s, i) is Ok,
    decreases s.len() - i,
{
    broadcast use lemma_digit_run_end, lemma_name_run_end, lemma_string_body_end;

    if i >= s.len() {
    } else {
        let c = s[i];
        if is_whitespace_char(c) || c == '(' || c == ')' {
            lemma_lex_total_from(s, i + 1);
        } else if is_digit_char(c) {
            lemma_lex_total_from(s, digit_run_end(s, i));
        } else if is_name_char(c) {
            lemma_lex_total_from(s, name_run_end(s, i));
        } else if c == '"' {
            let j = string_body_end(s, i + 1);
            let next = if j < s.len() {
                j + 1
            } else {
                j
            };
            lemma_lex_total_from(s, next);
        }
    }
}

/// Law: when the scan fails, the character it reports is one that no token
/// can start, so inputs of token characters alone are never rejected.
pub proof fn lemma_lex_error_is_foreign(s: Seq<char>)
    ensures
        spec_lex(s, 0) matches Err(LexError::UnrecognizedCharacter(c)) ==> !plain_char(c),
{
    lemma_lex_error_is_foreign_from(s, 0);
}

proof fn lemma_lex_error_is_foreign_from(s: Seq<char>, i: int)
    ensures
        spec_lex(s, i) matches Err(LexError::UnrecognizedCharacter(c)) ==> !plain_char(c),
    decreases s.len() - i,
{
    broadcast use lemma_digit_run_end, lemma_name_run_end, lemma_string_body_end;

    if i >= s.len() {
    } else {
        let c = s[i];
        if is_whitespace_char(c) || c == '(' || c == ')' {
            lemma_lex_error_is_foreign_from(s, i + 1);
        } else if is_digit_char(c) {
            lemma_lex_error_is_foreign_from(s, digit_run_end(s, i));
        } else if is_name_char(c) {
            lemma_lex_error_is_foreign_from(s, name_run_end(s, i));
        } else if c == '"' {
            let j = string_body_end(s, i + 1);
            let next = if j < s.len() {
                j + 1
            } else {
                j
            };
            lemma_lex_error_is_foreign_from(s, next);
        }
    }
}

} // verus!

