//! The token-tree model that the parser and the rewriter work on.
//!
//! [`Token`] is the executable tree; [`TokenSpec`] is its mathematical
//! counterpart, over which every contract of this crate is stated.

use vstd::prelude::*;

verus! {

/// The bracket kind of a delimited group.
#[derive(Clone, Copy, Debug, PartialEq, Eq, Structural)]
pub enum Delimiter {
    /// `( ... )`
    Parenthesis,
    /// `{ ... }`
    Brace,
    /// `[ ... ]`
    Bracket,
    /// A group without visible brackets.
    Invisible,
}

/// Whether a punctuation character is glued to the punctuation that follows it.
#[derive(Clone, Copy, Debug, PartialEq, Eq, Structural)]
pub enum Spacing {
    /// Followed by something other than punctuation.
    Alone,
    /// Immediately followed by another punctuation character.
    Joint,
}

/// Mathematical model of one token tree.
pub enum TokenSpec {
    /// A delimited group and the token trees inside it.
    Group(Delimiter, Seq<TokenSpec>),
    /// An identifier, by its text.
    Ident(Seq<char>),
    /// A single punctuation character.
    Punct(char, Spacing),
    /// A literal, by its source text (quotes and suffix included).
    Literal(Seq<char>),
}

/// One token tree.
#[derive(Debug, PartialEq, Eq)]
pub enum Token {
    /// A delimited group and the token trees inside it.
    Group(Delimiter, Vec<Token>),
    /// An identifier, by its text.
    Ident(String),
    /// A single punctuation character.
    Punct(char, Spacing),
    /// A literal, by its source text (quotes and suffix included).
    Literal(String),
}

/// The model of a sequence of token trees, element by element.
pub open spec fn tokens_spec(ts: Seq<Token>) -> Seq<TokenSpec>
    decreases ts,
{
    Seq::new(
        ts.len(),
        |i: int|
            if 0 <= i < ts.len() {
                token_spec(ts[i])
            } else {
                TokenSpec::Ident(Seq::empty())
            },
    )
}

/// The model of one token tree.
pub open spec fn token_spec(t: Token) -> TokenSpec
    decreases t,
{
    match t {
        Token::Group(d, inner) => TokenSpec::Group(d, tokens_spec(inner@)),
        Token::Ident(text) => TokenSpec::Ident(text@),
        Token::Punct(c, spacing) => TokenSpec::Punct(c, spacing),
        Token::Literal(text) => TokenSpec::Literal(text@),
    }
}

impl View for Token {
    type V = TokenSpec;

    open spec fn view(&self) -> TokenSpec {
        token_spec(*self)
    }
}

/// `tokens_spec` of a vector with one more element.
pub proof fn lemma_tokens_spec_push(ts: Seq<Token>, t: Token)
    ensures
        tokens_spec(ts.push(t)) == tokens_spec(ts).push(token_spec(t)),
{
    assert(tokens_spec(ts.push(t)) =~= tokens_spec(ts).push(token_spec(t)));
}

/// Compares two delimiters.
pub fn delimiter_eq(a: Delimiter, b: Delimiter) -> (r: bool)
    ensures
        r == (a == b),
{
    match (a, b) {
        (Delimiter::Parenthesis, Delimiter::Parenthesis) => true,
        (Delimiter::Brace, Delimiter::Brace) => true,
        (Delimiter::Bracket, Delimiter::Bracket) => true,
        (Delimiter::Invisible, Delimiter::Invisible) => true,
        _ => false,
    }
}

/// Compares two spacings.
pub fn spacing_eq(a: Spacing, b: Spacing) -> (r: bool)
    ensures
        r == (a == b),
{
    match (a, b) {
        (Spacing::Alone, Spacing::Alone) => true,
        (Spacing::Joint, Spacing::Joint) => true,
        _ => false,
    }
}

/// Structural equality of two token trees: same kind, same text, same
/// spacing, and for groups the same delimiter and equal contents.
pub fn token_eq(a: &Token, b: &Token) -> (r: bool)
    ensures
        r == (a@ == b@),
    decreases *a,
{
    match a {
        Token::Group(da, ia) => match b {
            Token::Group(db, ib) => delimiter_eq(*da, *db) && tokens_eq(ia, ib),
            _ => false,
        },
        Token::Ident(ta) => match b {
            Token::Ident(tb) => *ta == *tb,
            _ => false,
        },
        Token::Punct(ca, sa) => match b {
            Token::Punct(cb, sb) => *ca == *cb && spacing_eq(*sa, *sb),
            _ => false,
        },
        Token::Literal(ta) => match b {
            Token::Literal(tb) => *ta == *tb,
            _ => false,
        },
    }
}

/// Structural equality of two token sequences.
pub fn tokens_eq(a: &Vec<Token>, b: &Vec<Token>) -> (r: bool)
    ensures
        r == (tokens_spec(a@) == tokens_spec(b@)),
    decreases *a,
{
    if a.len() != b.len() {
        return false;
    }
    let mut i: usize = 0;
    while i < a.len()
        invariant
            i <= a.len(),
            a.len() == b.len(),
            forall|j: int| 0 <= j < i ==> token_spec(a@[j]) == token_spec(b@[j]),
        decreases a.len() - i,
    {
        if !token_eq(&a[i], &b[i]) {
            assert(tokens_spec(a@)[i as int] != tokens_spec(b@)[i as int]);
            return false;
        }
        i += 1;
    }
    assert(tokens_spec(a@) =~= tokens_spec(b@));
    true
}

/// A copy of a token tree.
pub fn clone_token(t: &Token) -> (r: Token)
    ensures
        r@ == t@,
    decreases *t,
{
    match t {
        Token::Group(d, inner) => Token::Group(*d, clone_tokens(inner)),
        Token::Ident(text) => Token::Ident(text.clone()),
        Token::Punct(c, spacing) => Token::Punct(*c, *spacing),
        Token::Literal(text) => Token::Literal(text.clone()),
    }
}

/// A copy of a token sequence.
pub fn clone_tokens(ts: &Vec<Token>) -> (r: Vec<Token>)
    ensures
        tokens_spec(r@) == tokens_spec(ts@),
    decreases *ts,
{
    let mut out: Vec<Token> = Vec::new();
    let mut i: usize = 0;
    while i < ts.len()
        invariant
            i <= ts.len(),
            out.len() == i,
            forall|j: int| 0 <= j < i ==> token_spec(out@[j]) == token_spec(ts@[j]),
        decreases ts.len() - i,
    {
        out.push(clone_token(&ts[i]));
        i += 1;
    }
    assert(tokens_spec(out@) =~= tokens_spec(ts@));
    out
}

impl Clone for Token {
    fn clone(&self) -> (r: Self)
        ensures
            r@ == self@,
    {
        clone_token(self)
    }
}

} // verus!
