//! The bridge to `proc_macro2`: lexing source text, walking a token stream,
//! and rendering a stream back to text.
//!
//! `proc_macro2` does the lexing and the rendering, with its own lexer and
//! printer: the crate asks for it without the feature `proc-macro`, under
//! which it would leave both to a compiler. The values that it gives back
//! are opaque to the verifier, so this module names what a stream holds
//! ([`stream_tokens`]) and what the crate's functions return ([`lexed`],
//! [`stream_text`], [`string_literal_text`]), and reads streams through a few
//! small wrappers whose contracts are stated over those names and are taken on
//! trust. Everything else in the crate is proved from these contracts.

use crate::token::{token_spec, tokens_spec, Delimiter, Spacing, Token, TokenSpec};
use proc_macro2::{LexError, TokenStream, TokenTree};
use vstd::prelude::*;

verus! {

/// `proc_macro2::TokenStream`, carried as an opaque value.
#[verifier::external_type_specification]
#[verifier::external_body]
pub struct ExTokenStream(TokenStream);

/// `proc_macro2::TokenTree`, carried as an opaque value.
#[verifier::external_type_specification]
#[verifier::external_body]
pub struct ExTokenTree(TokenTree);

/// `proc_macro2::LexError`, carried as an opaque value.
#[verifier::external_type_specification]
#[verifier::external_body]
pub struct ExLexError(LexError);

/// The token trees that a stream holds, in order.
pub uninterp spec fn stream_tokens(ts: TokenStream) -> Seq<TokenSpec>;

/// The token tree that a `TokenTree` value stands for.
pub uninterp spec fn tree_token(tt: TokenTree) -> TokenSpec;

/// What `TokenStream::from_str` makes of a source text: the token trees, or
/// `None` where the text does not lex.
pub uninterp spec fn lexed(source: Seq<char>) -> Option<Seq<TokenSpec>>;

/// What `TokenStream`'s `Display` prints for a stream that holds the given
/// token trees.
pub uninterp spec fn stream_text(tokens: Seq<TokenSpec>) -> Seq<char>;

/// The source text of the string literal that `Literal::string` builds for a
/// value: the value quoted and escaped.
pub uninterp spec fn string_literal_text(value: Seq<char>) -> Seq<char>;

/// Whether a character stands in a string literal as it is: a printable
/// ASCII character other than the double quote and the backslash.
pub open spec fn plain_char(c: char) -> bool {
    0x20 <= (c as u32) <= 0x7e && c != '"' && c != '\\'
}

/// Whether every character of a value stands in a string literal as it is.
pub open spec fn plain(value: Seq<char>) -> bool {
    forall|i: int| 0 <= i < value.len() ==> plain_char(#[trigger] value[i])
}

/// A value between two double quotes.
pub open spec fn quoted(value: Seq<char>) -> Seq<char> {
    seq!['"'] + value + seq!['"']
}

/// The source text of the string literal with a given value: a plain value
/// between double quotes, and for any other value what `Literal::string`
/// makes of it.
pub open spec fn string_literal_repr(value: Seq<char>) -> Seq<char> {
    if plain(value) {
        quoted(value)
    } else {
        string_literal_text(value)
    }
}

/// One token tree, read one level deep: a group still holds its contents as a
/// stream.
pub(crate) enum Node {
    Group(Delimiter, TokenStream),
    Ident(String),
    Punct(char, Spacing),
    Literal(String),
}

/// The token tree that a node stands for.
pub(crate) open spec fn node_spec(n: Node) -> TokenSpec {
    match n {
        Node::Group(d, inner) => TokenSpec::Group(d, stream_tokens(inner)),
        Node::Ident(text) => TokenSpec::Ident(text@),
        Node::Punct(c, spacing) => TokenSpec::Punct(c, spacing),
        Node::Literal(text) => TokenSpec::Literal(text@),
    }
}

/// `TokenStream::from_str`: lexes a source text. The result is the stream
/// whose token trees are `lexed` of the text, or the lexer's error where the
/// text does not lex. The crate asks for `proc_macro2` without its feature
/// `proc-macro`, so the lexer is always the one that `proc_macro2` brings
/// along, never a compiler's: it answers every text, with a stream or with
/// an error, and the same text always in the same way.
#[verifier::external_body]
pub(crate) fn lex(source: &str) -> (r: Result<TokenStream, LexError>)
    ensures
        match r {
            Ok(ts) => lexed(source@) == Some(stream_tokens(ts)),
            Err(_) => lexed(source@) is None,
        },
{
    <TokenStream as std::str::FromStr>::from_str(source)
}

/// `TokenStream::into_iter`, collected: the token trees of a stream, one
/// value for each tree that the stream holds, in the stream's order.
#[verifier::external_body]
pub(crate) fn stream_trees(ts: &TokenStream) -> (r: Vec<TokenTree>)
    ensures
        r@.len() == stream_tokens(*ts).len(),
        forall|i: int| 0 <= i < r@.len() ==> tree_token(#[trigger] r@[i]) == stream_tokens(*ts)[i],
{
    ts.clone().into_iter().collect()
}

/// Reads one `TokenTree`: its variant, and by `Group::delimiter`,
/// `Group::stream`, `Punct::as_char`, `Punct::spacing` and the `Display` of
/// `Ident` and `Literal` what the variant holds.
#[verifier::external_body]
pub(crate) fn tree_node(tt: &TokenTree) -> (r: Node)
    ensures
        node_spec(r) == tree_token(*tt),
{
    match tt {
        TokenTree::Group(g) => match g.delimiter() {
            proc_macro2::Delimiter::Parenthesis => Node::Group(Delimiter::Parenthesis, g.stream()),
            proc_macro2::Delimiter::Brace => Node::Group(Delimiter::Brace, g.stream()),
            proc_macro2::Delimiter::Bracket => Node::Group(Delimiter::Bracket, g.stream()),
            proc_macro2::Delimiter::None => Node::Group(Delimiter::Invisible, g.stream()),
        },
        TokenTree::Ident(i) => Node::Ident(i.to_string()),
        TokenTree::Punct(p) => match p.spacing() {
            proc_macro2::Spacing::Alone => Node::Punct(p.as_char(), Spacing::Alone),
            proc_macro2::Spacing::Joint => Node::Punct(p.as_char(), Spacing::Joint),
        },
        TokenTree::Literal(l) => Node::Literal(l.to_string()),
    }
}

/// `TokenStream`'s `Display`: the text of a stream, which is `stream_text` of
/// the token trees that the stream holds.
#[verifier::external_body]
pub(crate) fn render(ts: &TokenStream) -> (r: String)
    ensures
        r@ == stream_text(stream_tokens(*ts)),
{
    ts.to_string()
}

/// `Literal::string`, then the literal's `Display`: the source text of a
/// string literal with the given value. `Literal::string` puts the value
/// between double quotes and escapes its characters; a printable ASCII
/// character other than the double quote and the backslash it leaves as it
/// is, so a value of such characters alone stands between the quotes
/// unchanged.
#[verifier::external_body]
pub(crate) fn string_literal(value: &str) -> (r: String)
    ensures
        r@ == string_literal_text(value@),
        plain(value@) ==> r@ == quoted(value@),
{
    proc_macro2::Literal::string(value).to_string()
}

/// The token trees of a stream, as a tree of this crate.
pub fn convert(ts: &TokenStream) -> (r: Vec<Token>)
    ensures
        tokens_spec(r@) == stream_tokens(*ts),
    decreases stream_tokens(*ts),
{
    let trees = stream_trees(ts);
    let mut out: Vec<Token> = Vec::new();
    let mut i: usize = 0;
    while i < trees.len()
        invariant
            i <= trees.len(),
            out.len() == i,
            trees@.len() == stream_tokens(*ts).len(),
            forall|j: int|
                0 <= j < trees@.len() ==> tree_token(#[trigger] trees@[j]) == stream_tokens(
                    *ts,
                )[j],
            forall|j: int| 0 <= j < i ==> token_spec(#[trigger] out@[j]) == stream_tokens(*ts)[j],
        decreases trees.len() - i,
    {
        let token = match tree_node(&trees[i]) {
            Node::Group(d, inner) => {
                proof {
                    let all = stream_tokens(*ts);
                    assert(all[i as int] == TokenSpec::Group(d, stream_tokens(inner)));
                    assert(decreases_to!(all => all[i as int]));
                    assert(decreases_to!(all[i as int] => all[i as int]->Group_1));
                }
                Token::Group(d, convert(&inner))
            },
            Node::Ident(text) => Token::Ident(text),
            Node::Punct(c, spacing) => Token::Punct(c, spacing),
            Node::Literal(text) => Token::Literal(text),
        };
        out.push(token);
        i += 1;
    }
    assert(tokens_spec(out@) =~= stream_tokens(*ts));
    out
}

/// Lexes a source text into token trees; `None` where the text does not lex.
pub fn tokenize(source: &str) -> (r: Option<Vec<Token>>)
    ensures
        match r {
            Some(tokens) => lexed(source@) == Some(tokens_spec(tokens@)),
            None => lexed(source@) is None,
        },
{
    match lex(source) {
        Ok(ts) => Some(convert(&ts)),
        Err(_) => None,
    }
}

} // verus!
