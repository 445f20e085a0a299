//! What a substitution macro does to its input: a bracket-aware rewriting
//! that replaces key tokens by their concatenated identifiers.
//!
//! [`rewritten`] states the rewriting as a function on token sequences;
//! [`SubstitutionMacro::expand`] computes it in one pass over the input, with
//! one level of recursion for each level of brackets.
//!
//! The rewriting is defined for every input. It is what the generated macro
//! computes where the input holds at least one token; the generated macro
//! does not finish on an empty input.

use crate::piece::mashed;
use crate::table::{concats_spec, Concat, ConcatSpec, SubstitutionMacro};
use crate::token::{clone_token, token_eq, token_spec, tokens_spec, Delimiter, Token, TokenSpec};
use vstd::prelude::*;

verus! {

/// Whether the non-empty token sequence `key` stands at the start of `input`.
pub open spec fn key_at_start(input: Seq<TokenSpec>, key: Seq<TokenSpec>) -> bool {
    &&& 0 < key.len() <= input.len()
    &&& input.subrange(0, key.len() as int) == key
}

/// The first pattern, from index `from` on, whose key tokens stand at the
/// start of `input`.
pub open spec fn first_match(patterns: Seq<ConcatSpec>, input: Seq<TokenSpec>, from: int) -> Option<
    int,
>
    decreases patterns.len() - from,
{
    if from < 0 || from >= patterns.len() {
        None
    } else if key_at_start(input, patterns[from].tag.tokens) {
        Some(from)
    } else {
        first_match(patterns, input, from + 1)
    }
}

/// What `first_match` finds is a pattern whose key stands at the start, and
/// no pattern before it (from `from` on) does.
pub proof fn lemma_first_match(patterns: Seq<ConcatSpec>, input: Seq<TokenSpec>, from: int)
    requires
        0 <= from,
    ensures
        match first_match(patterns, input, from) {
            Some(i) => {
                &&& from <= i < patterns.len()
                &&& key_at_start(input, patterns[i].tag.tokens)
                &&& forall|j: int| from <= j < i ==> !key_at_start(input, patterns[j].tag.tokens)
            },
            None => forall|j: int|
                from <= j < patterns.len() ==> !key_at_start(input, patterns[j].tag.tokens),
        },
    decreases patterns.len() - from,
{
    if from < patterns.len() && !key_at_start(input, patterns[from].tag.tokens) {
        lemma_first_match(patterns, input, from + 1);
    }
}

/// Whether the rewriting goes into groups of this kind. It goes into
/// parentheses, brackets and braces; a group without visible brackets is one
/// token to it.
pub open spec fn descends(d: Delimiter) -> bool {
    d != Delimiter::Invisible
}

/// The input rewritten by the patterns.
///
/// Reading from the left:
/// - a group with visible brackets is rewritten inside and keeps its kind;
/// - otherwise, where the key tokens of a pattern stand at the start of what
///   is left, they are replaced by one identifier, the concatenation of that
///   pattern's pieces; of several such patterns the first registered wins;
/// - otherwise the first token is passed on unchanged.
///
/// An empty key stands nowhere.
pub open spec fn rewritten(patterns: Seq<ConcatSpec>, input: Seq<TokenSpec>) -> Seq<TokenSpec>
    decreases input,
{
    if input.len() == 0 {
        Seq::empty()
    } else {
        match input[0] {
            TokenSpec::Group(d, inner) if descends(d) => seq![
                TokenSpec::Group(d, rewritten(patterns, inner)),
            ] + rewritten(patterns, input.subrange(1, input.len() as int)),
            _ => match first_match(patterns, input, 0) {
                Some(i) => {
                    proof {
                        lemma_first_match(patterns, input, 0);
                    }
                    seq![TokenSpec::Ident(mashed(patterns[i].pieces))] + rewritten(
                        patterns,
                        input.subrange(patterns[i].tag.tokens.len() as int, input.len() as int),
                    )
                },
                None => seq![input[0]] + rewritten(
                    patterns,
                    input.subrange(1, input.len() as int),
                ),
            },
        }
    }
}

/// Whether some pattern has no key tokens at all.
pub open spec fn has_empty_key(patterns: Seq<ConcatSpec>) -> bool {
    exists|i: int| 0 <= i < patterns.len() && (#[trigger] patterns[i]).tag.tokens.len() == 0
}

/// What is left of `input` from position `pos` on.
pub open spec fn rest_from(input: Seq<TokenSpec>, pos: int) -> Seq<TokenSpec> {
    input.subrange(pos, input.len() as int)
}

/// Whether `key` stands in `input` at position `pos`.
fn key_matches(input: &Vec<Token>, pos: usize, key: &Vec<Token>) -> (r: bool)
    requires
        pos <= input.len(),
    ensures
        r == key_at_start(rest_from(tokens_spec(input@), pos as int), tokens_spec(key@)),
{
    let ghost rest = rest_from(tokens_spec(input@), pos as int);
    if key.len() == 0 || key.len() > input.len() - pos {
        return false;
    }
    let mut i: usize = 0;
    while i < key.len()
        invariant
            i <= key.len(),
            pos + key.len() <= input.len(),
            rest == rest_from(tokens_spec(input@), pos as int),
            forall|j: int| 0 <= j < i ==> token_spec(input@[pos + j]) == token_spec(key@[j]),
        decreases key.len() - i,
    {
        if !token_eq(&input[pos + i], &key[i]) {
            assert(rest.subrange(0, key.len() as int)[i as int] == token_spec(
                input@[pos + i],
            ));
            assert(tokens_spec(key@)[i as int] == token_spec(key@[i as int]));
            return false;
        }
        i += 1;
    }
    assert(rest.subrange(0, key.len() as int) =~= tokens_spec(key@));
    true
}

/// The first pattern whose key stands in `input` at position `pos`.
fn find_match(patterns: &Vec<Concat>, input: &Vec<Token>, pos: usize) -> (r: Option<usize>)
    requires
        pos <= input.len(),
    ensures
        match r {
            Some(i) => first_match(
                concats_spec(patterns@),
                rest_from(tokens_spec(input@), pos as int),
                0,
            ) == Some(i as int) && i < patterns.len(),
            None => first_match(
                concats_spec(patterns@),
                rest_from(tokens_spec(input@), pos as int),
                0,
            ) is None,
        },
{
    let ghost specs = concats_spec(patterns@);
    let ghost rest = rest_from(tokens_spec(input@), pos as int);
    let mut i: usize = 0;
    while i < patterns.len()
        invariant
            i <= patterns.len(),
            pos <= input.len(),
            specs == concats_spec(patterns@),
            rest == rest_from(tokens_spec(input@), pos as int),
            first_match(specs, rest, 0) == first_match(specs, rest, i as int),
        decreases patterns.len() - i,
    {
        assert(specs[i as int].tag.tokens == tokens_spec(patterns@[i as int].tag.tokens@));
        if key_matches(input, pos, &patterns[i].tag.tokens) {
            return Some(i);
        }
        i += 1;
    }
    None
}

/// Rewrites `input` by the patterns; `idents` holds the concatenated
/// identifier of each pattern.
fn rewrite_tokens(patterns: &Vec<Concat>, idents: &Vec<String>, input: &Vec<Token>) -> (r: Vec<
    Token,
>)
    requires
        idents.len() == patterns.len(),
        forall|i: int|
            0 <= i < patterns.len() ==> (#[trigger] idents@[i])@ == mashed(
                concats_spec(patterns@)[i].pieces,
            ),
    ensures
        tokens_spec(r@) == rewritten(concats_spec(patterns@), tokens_spec(input@)),
    decreases *input,
{
    let ghost specs = concats_spec(patterns@);
    let ghost all = tokens_spec(input@);
    let mut out: Vec<Token> = Vec::new();
    let mut pos: usize = 0;
    proof {
        assert(rest_from(all, 0) =~= all);
        assert(tokens_spec(out@) + rewritten(specs, all) =~= rewritten(specs, all));
    }
    while pos < input.len()
        invariant
            pos <= input.len(),
            specs == concats_spec(patterns@),
            all == tokens_spec(input@),
            idents.len() == patterns.len(),
            forall|i: int|
                0 <= i < patterns.len() ==> (#[trigger] idents@[i])@ == mashed(specs[i].pieces),
            rewritten(specs, all) == tokens_spec(out@) + rewritten(specs, rest_from(all, pos as int)),
        decreases input.len() - pos,
    {
        let ghost rest = rest_from(all, pos as int);
        let ghost before = tokens_spec(out@);
        proof {
            assert(rest[0] == token_spec(input@[pos as int]));
            assert(rest.subrange(1, rest.len() as int) =~= rest_from(all, pos + 1));
        }
        let mut step: usize = 1;
        let token = match &input[pos] {
            Token::Group(d, inner) if visible(*d) => {
                proof {
                    assert(decreases_to!(*input => input@));
                    assert(decreases_to!(input@ => input@[pos as int]));
                    assert(decreases_to!(input@[pos as int] => *inner));
                }
                Token::Group(*d, rewrite_tokens(patterns, idents, inner))
            },
            other => match find_match(patterns, input, pos) {
                Some(i) => {
                    proof {
                        lemma_first_match(specs, rest, 0);
                        assert(specs[i as int].tag.tokens == tokens_spec(
                            patterns@[i as int].tag.tokens@,
                        ));
                        assert(rest.subrange(
                            patterns@[i as int].tag.tokens@.len() as int,
                            rest.len() as int,
                        ) =~= rest_from(all, pos + patterns@[i as int].tag.tokens@.len()));
                    }
                    step = patterns[i].tag.tokens.len();
                    Token::Ident(idents[i].clone())
                },
                None => clone_token(other),
            },
        };
        proof {
            crate::token::lemma_tokens_spec_push(out@, token);
            assert(before.push(token_spec(token)) + rewritten(specs, rest_from(all, pos + step))
                =~= before + (seq![token_spec(token)] + rewritten(
                specs,
                rest_from(all, pos + step),
            )));
        }
        out.push(token);
        pos += step;
    }
    proof {
        assert(rest_from(all, pos as int) =~= Seq::<TokenSpec>::empty());
        assert(tokens_spec(out@) + Seq::<TokenSpec>::empty() =~= tokens_spec(out@));
    }
    out
}

/// Whether the rewriting goes into groups of this kind.
fn visible(d: Delimiter) -> (r: bool)
    ensures
        r == descends(d),
{
    match d {
        Delimiter::Invisible => false,
        _ => true,
    }
}

impl SubstitutionMacro {
    /// Whether some pattern has no key tokens.
    pub fn any_empty_key(&self) -> (r: bool)
        ensures
            r == has_empty_key(self@.patterns),
    {
        let mut i: usize = 0;
        while i < self.patterns.len()
            invariant
                i <= self.patterns.len(),
                forall|j: int| 0 <= j < i ==> (#[trigger] self@.patterns[j]).tag.tokens.len() != 0,
            decreases self.patterns.len() - i,
        {
            assert(self@.patterns[i as int].tag.tokens == tokens_spec(
                self.patterns@[i as int].tag.tokens@,
            ));
            if self.patterns[i].tag.tokens.len() == 0 {
                return true;
            }
            i += 1;
        }
        false
    }

    /// Applies the substitution macro to its input.
    ///
    /// The result is the input with every occurrence of a pattern's key
    /// tokens, at any depth of brackets, replaced by one identifier token,
    /// the concatenation of that pattern's pieces, and with everything else,
    /// the nesting included, as it was. Where the keys of several patterns
    /// stand at one place, the pattern registered first is taken.
    ///
    /// A macro that has a pattern without key tokens never finishes an
    /// expansion; for such a macro the result is `None`.
    ///
    /// This is what the generated macro makes of an input of at least one
    /// token. The generated macro finishes on a frame that holds a token, so
    /// on an empty input it does not finish; here the empty input gives the
    /// empty output.
    pub fn expand(&self, input: &Vec<Token>) -> (r: Option<Vec<Token>>)
        ensures
            match r {
                Some(out) => !has_empty_key(self@.patterns) && tokens_spec(out@) == rewritten(
                    self@.patterns,
                    tokens_spec(input@),
                ),
                None => has_empty_key(self@.patterns),
            },
    {
        if self.any_empty_key() {
            return None;
        }
        let mut idents: Vec<String> = Vec::new();
        let mut i: usize = 0;
        while i < self.patterns.len()
            invariant
                i <= self.patterns.len(),
                idents.len() == i,
                forall|j: int|
                    0 <= j < i ==> (#[trigger] idents@[j])@ == mashed(self@.patterns[j].pieces),
            decreases self.patterns.len() - i,
        {
            idents.push(self.patterns[i].mashup());
            i += 1;
        }
        Some(rewrite_tokens(&self.patterns, &idents, input))
    }
}

} // verus!
