//! The mapping parser: from a flat token stream to the mapping table.
//!
//! A mapping is a run of records, each of the form
//! `#[attr]* name[key tokens] = piece* ;`. The grammar is stated by
//! [`parse_records`] and [`parse_pieces`]; [`parse`] implements it.

use crate::env::{resolved, Environment, VariableSpec};
use crate::error::{Error, ErrorSpec};
use crate::fragment::{captured, fragments_spec, Fragment, FragmentSpec};
use crate::piece::{identified, identify, pieces_spec, IdentPiece, PieceSpec};
use crate::stream::{
    lex, lexed, stream_tokens, stream_trees, string_literal, string_literal_repr, tree_node,
    tree_token, Node,
};
use crate::table::{table_of, Concat, EntrySpec, Input, RecordSpec};
use crate::text::{from_chars, to_chars};
use crate::token::{Delimiter, TokenSpec};
use proc_macro2::{TokenStream, TokenTree};
use vstd::prelude::*;

verus! {

/// The identifier that starts an environment lookup.
pub open spec fn env_keyword() -> Seq<char> {
    seq!['e', 'n', 'v']
}

/// An identifier's text without the prefix `r#` of a raw identifier.
pub open spec fn unraw(text: Seq<char>) -> Seq<char> {
    if text.len() >= 2 && text[0] == 'r' && text[1] == '#' {
        text.skip(2)
    } else {
        text
    }
}

/// Whether a token is the punctuation character `c`, whatever its spacing.
pub open spec fn is_punct(t: TokenSpec, c: char) -> bool {
    match t {
        TokenSpec::Punct(p, _) => p == c,
        _ => false,
    }
}

/// The contents of the bracket group at `at`, if one stands there.
pub open spec fn bracketed(ts: Seq<TokenSpec>, at: int) -> Option<Seq<TokenSpec>> {
    if 0 <= at < ts.len() {
        match ts[at] {
            TokenSpec::Group(Delimiter::Bracket, inner) => Some(inner),
            _ => None,
        }
    } else {
        None
    }
}

/// Whether a literal's source text is that of a string literal: it begins
/// with a double quote.
pub open spec fn is_string_literal(text: Seq<char>) -> bool {
    text.len() > 0 && text[0] == '"'
}

/// The literal that names the variable of an environment lookup: the one
/// token of the parenthesized group at `at`, which must be a string literal.
/// `None` where no parenthesized group stands there, or where it holds
/// anything but a single string literal.
pub open spec fn env_target(ts: Seq<TokenSpec>, at: int) -> Option<Seq<char>> {
    if 0 <= at < ts.len() {
        match ts[at] {
            TokenSpec::Group(Delimiter::Parenthesis, inner) => if inner.len() == 1 {
                match inner[0] {
                    TokenSpec::Literal(text) => if is_string_literal(text) {
                        Some(text)
                    } else {
                        None
                    },
                    _ => None,
                }
            } else {
                None
            },
            _ => None,
        }
    } else {
        None
    }
}

/// A result of `parse_pieces` with more pieces in front of it.
pub open spec fn after_pieces(
    front: Seq<PieceSpec>,
    rest: Result<(Seq<PieceSpec>, int), ErrorSpec>,
) -> Result<(Seq<PieceSpec>, int), ErrorSpec> {
    match rest {
        Ok((pieces, next)) => Ok((front + pieces, next)),
        Err(e) => Err(e),
    }
}

/// The pieces of a record, read from position `pos` up to the semicolon that
/// closes the record, and the position after that semicolon.
///
/// - `;` closes the record.
/// - `_` and `'` are the underscore and the quote piece; any other
///   punctuation is refused with `UnexpectedOp`.
/// - A literal is a literal piece.
/// - The identifier `env`, where `!` follows it, starts an environment
///   lookup: a parenthesized group must follow that holds a single string
///   literal and nothing else (`UnexpectedInput` at the place of that group
///   otherwise). The literal, identified, names the variable. Its value
///   becomes a string-literal piece; where the variable is not set the
///   pieces are refused with `UnresolvedEnv`.
/// - Any other identifier is an identifier piece, without the prefix of a raw
///   identifier.
/// - A group is refused with `UnexpectedInput` at its place.
/// - The end of the input is refused with `UnterminatedRecord`.
pub open spec fn parse_pieces(ts: Seq<TokenSpec>, pos: int, env: Seq<VariableSpec>) -> Result<
    (Seq<PieceSpec>, int),
    ErrorSpec,
>
    decreases ts.len() - pos,
{
    if pos < 0 || pos >= ts.len() {
        Err(ErrorSpec::UnterminatedRecord)
    } else {
        match ts[pos] {
            TokenSpec::Punct(c, _) => if c == ';' {
                Ok((Seq::empty(), pos + 1))
            } else if c == '_' {
                after_pieces(seq![PieceSpec::Underscore], parse_pieces(ts, pos + 1, env))
            } else if c == '\'' {
                after_pieces(seq![PieceSpec::Quote], parse_pieces(ts, pos + 1, env))
            } else {
                Err(ErrorSpec::UnexpectedOp(c))
            },
            TokenSpec::Literal(text) => after_pieces(
                seq![PieceSpec::Literal(text)],
                parse_pieces(ts, pos + 1, env),
            ),
            TokenSpec::Group(_, _) => Err(ErrorSpec::UnexpectedInput(pos)),
            TokenSpec::Ident(text) => if text == env_keyword() && pos + 1 < ts.len() && is_punct(
                ts[pos + 1],
                '!',
            ) {
                match env_target(ts, pos + 2) {
                    None => Err(ErrorSpec::UnexpectedInput(pos + 2)),
                    Some(variable) => match resolved(env, identified(variable)) {
                        None => Err(ErrorSpec::UnresolvedEnv(variable)),
                        Some(value) => after_pieces(
                            seq![PieceSpec::Literal(string_literal_repr(value))],
                            parse_pieces(ts, pos + 3, env),
                        ),
                    },
                }
            } else {
                after_pieces(seq![PieceSpec::Ident(unraw(text))], parse_pieces(ts, pos + 1, env))
            },
        }
    }
}

/// Where `parse_pieces` succeeds, it ends behind at least one token and
/// inside the input.
pub proof fn lemma_pieces_advance(ts: Seq<TokenSpec>, pos: int, env: Seq<VariableSpec>)
    ensures
        match parse_pieces(ts, pos, env) {
            Ok((_, next)) => pos < next <= ts.len(),
            Err(_) => true,
        },
    decreases ts.len() - pos,
{
    if 0 <= pos < ts.len() {
        lemma_pieces_advance(ts, pos + 1, env);
        if pos + 3 <= ts.len() {
            lemma_pieces_advance(ts, pos + 3, env);
        }
    }
}

/// A result of `parse_records` with more records in front of it.
pub open spec fn after_records(
    front: Seq<RecordSpec>,
    rest: Result<Seq<RecordSpec>, ErrorSpec>,
) -> Result<Seq<RecordSpec>, ErrorSpec> {
    match rest {
        Ok(records) => Ok(front + records),
        Err(e) => Err(e),
    }
}

/// The records of a mapping, read from position `pos` to the end of the
/// input. `pending` holds the attributes that were read and not yet attached.
///
/// - `#` must be followed by a bracket group: one more pending attribute.
/// - An identifier starts a record: it is the macro's name; a bracket group
///   (the key tokens) and `=` must follow, then the pieces up to `;`. The
///   record takes all pending attributes.
/// - Anything else, and whatever stands in the place of a token that must
///   follow, is refused with `UnexpectedInput` at its place.
/// - At the end of the input the mapping is complete; attributes that are
///   still pending are dropped.
pub open spec fn parse_records(
    ts: Seq<TokenSpec>,
    pos: int,
    pending: Seq<FragmentSpec>,
    env: Seq<VariableSpec>,
) -> Result<Seq<RecordSpec>, ErrorSpec>
    decreases ts.len() - pos,
{
    if pos < 0 || pos >= ts.len() {
        Ok(Seq::empty())
    } else {
        match ts[pos] {
            TokenSpec::Punct(c, _) => if c != '#' {
                Err(ErrorSpec::UnexpectedInput(pos))
            } else {
                match bracketed(ts, pos + 1) {
                    Some(attr) => parse_records(ts, pos + 2, pending.push(captured(attr)), env),
                    None => Err(ErrorSpec::UnexpectedInput(pos + 1)),
                }
            },
            TokenSpec::Ident(name) => match bracketed(ts, pos + 1) {
                Some(tag) => if pos + 2 < ts.len() && is_punct(ts[pos + 2], '=') {
                    match parse_pieces(ts, pos + 3, env) {
                        Ok((pieces, next)) => {
                            proof {
                                lemma_pieces_advance(ts, pos + 3, env);
                            }
                            after_records(
                                seq![
                                    RecordSpec {
                                        attrs: pending,
                                        name,
                                        tag: captured(tag),
                                        pieces,
                                    },
                                ],
                                parse_records(ts, next, Seq::empty(), env),
                            )
                        },
                        Err(e) => Err(e),
                    }
                } else {
                    Err(ErrorSpec::UnexpectedInput(pos + 2))
                },
                None => Err(ErrorSpec::UnexpectedInput(pos + 1)),
            },
            _ => Err(ErrorSpec::UnexpectedInput(pos)),
        }
    }
}

/// The mapping table that a token sequence stands for, or the reason why it
/// stands for none.
pub open spec fn parsed(ts: Seq<TokenSpec>, env: Seq<VariableSpec>) -> Result<
    Seq<EntrySpec>,
    ErrorSpec,
> {
    match parse_records(ts, 0, Seq::empty(), env) {
        Ok(records) => Ok(table_of(records)),
        Err(e) => Err(e),
    }
}

/// The token trees that a sequence of `TokenTree` values stands for.
pub(crate) open spec fn trees_spec(trees: Seq<TokenTree>) -> Seq<TokenSpec> {
    Seq::new(trees.len(), |i: int| tree_token(trees[i]))
}

/// The token trees of a stream, with their model.
pub(crate) fn read_trees(ts: &TokenStream) -> (r: Vec<TokenTree>)
    ensures
        trees_spec(r@) == stream_tokens(*ts),
{
    let trees = stream_trees(ts);
    assert(trees_spec(trees@) =~= stream_tokens(*ts));
    trees
}

/// Whether a text is the keyword `env`.
fn is_env_keyword(text: &Vec<char>) -> (r: bool)
    ensures
        r == (text@ == env_keyword()),
{
    let r = text.len() == 3 && text[0] == 'e' && text[1] == 'n' && text[2] == 'v';
    proof {
        if r {
            assert(text@ =~= env_keyword());
        }
    }
    r
}

/// An identifier's text without the prefix of a raw identifier.
fn strip_raw(text: &Vec<char>) -> (r: String)
    ensures
        r@ == unraw(text@),
{
    if text.len() >= 2 && text[0] == 'r' && text[1] == '#' {
        let mut bare: Vec<char> = Vec::new();
        let mut i: usize = 2;
        while i < text.len()
            invariant
                2 <= i <= text.len(),
                bare@ == text@.subrange(2, i as int),
            decreases text.len() - i,
        {
            bare.push(text[i]);
            i += 1;
        }
        assert(text@.subrange(2, text.len() as int) =~= text@.skip(2));
        from_chars(&bare)
    } else {
        from_chars(text)
    }
}

/// Whether the punctuation character `c` stands at `at`.
fn punct_at(trees: &Vec<TokenTree>, at: usize, c: char) -> (r: bool)
    ensures
        r == (at < trees.len() && is_punct(trees_spec(trees@)[at as int], c)),
{
    if at >= trees.len() {
        return false;
    }
    match tree_node(&trees[at]) {
        Node::Punct(p, _) => p == c,
        _ => false,
    }
}

/// The contents of the bracket group at `at`, captured.
fn bracket_at(trees: &Vec<TokenTree>, at: usize) -> (r: Option<Fragment>)
    ensures
        match r {
            Some(f) => bracketed(trees_spec(trees@), at as int) matches Some(inner) && f@
                == captured(inner),
            None => bracketed(trees_spec(trees@), at as int) is None,
        },
{
    if at >= trees.len() {
        return None;
    }
    match tree_node(&trees[at]) {
        Node::Group(d, inner) => match d {
            Delimiter::Bracket => Some(Fragment::capture(&inner)),
            _ => None,
        },
        _ => None,
    }
}

/// The string literal that names the variable of the environment lookup
/// whose parenthesized group should stand at `at`.
fn env_target_at(trees: &Vec<TokenTree>, at: usize) -> (r: Option<String>)
    ensures
        match r {
            Some(text) => env_target(trees_spec(trees@), at as int) == Some(text@),
            None => env_target(trees_spec(trees@), at as int) is None,
        },
{
    if at >= trees.len() {
        return None;
    }
    match tree_node(&trees[at]) {
        Node::Group(d, inner) => match d {
            Delimiter::Parenthesis => {
                let inside = read_trees(&inner);
                if inside.len() != 1 {
                    return None;
                }
                match tree_node(&inside[0]) {
                    Node::Literal(text) => {
                        let chars = to_chars(text.as_str());
                        if chars.len() > 0 && chars[0] == '"' {
                            Some(text)
                        } else {
                            None
                        }
                    },
                    _ => None,
                }
            },
            _ => None,
        },
        _ => None,
    }
}

/// `after_pieces` twice is `after_pieces` of the joined fronts.
proof fn lemma_after_pieces(
    front: Seq<PieceSpec>,
    piece: PieceSpec,
    rest: Result<(Seq<PieceSpec>, int), ErrorSpec>,
)
    ensures
        after_pieces(front, after_pieces(seq![piece], rest)) == after_pieces(
            front.push(piece),
            rest,
        ),
{
    match rest {
        Ok((pieces, next)) => {
            assert(front + (seq![piece] + pieces) =~= front.push(piece) + pieces);
        },
        Err(_) => {},
    }
}

/// Reads the pieces of a record from `start` up to its closing semicolon.
fn read_pieces(trees: &Vec<TokenTree>, start: usize, env: &Environment) -> (r: Result<
    (Vec<IdentPiece>, usize),
    Error,
>)
    ensures
        match parse_pieces(trees_spec(trees@), start as int, env@) {
            Ok((pieces, next)) => r matches Ok((ps, n)) && pieces_spec(ps@) == pieces && n == next
                && start < n <= trees.len(),
            Err(e) => r matches Err(x) && x@ == e,
        },
{
    let ghost ts = trees_spec(trees@);
    let mut pieces: Vec<IdentPiece> = Vec::new();
    let mut pos: usize = start;
    proof {
        assert(pieces_spec(pieces@) =~= Seq::<PieceSpec>::empty());
        match parse_pieces(ts, start as int, env@) {
            Ok((ps, next)) => {
                assert(Seq::<PieceSpec>::empty() + ps =~= ps);
            },
            Err(_) => {},
        }
    }
    while pos < trees.len()
        invariant
            start <= pos,
            ts == trees_spec(trees@),
            parse_pieces(ts, start as int, env@) == after_pieces(
                pieces_spec(pieces@),
                parse_pieces(ts, pos as int, env@),
            ),
        decreases trees.len() - pos,
    {
        let ghost done = pieces_spec(pieces@);
        proof {
            lemma_pieces_advance(ts, pos as int, env@);
            assert(ts[pos as int] == tree_token(trees@[pos as int]));
        }
        let piece = match tree_node(&trees[pos]) {
            Node::Punct(c, _) => {
                if c == ';' {
                    assert(done + Seq::<PieceSpec>::empty() =~= done);
                    return Ok((pieces, pos + 1));
                } else if c == '_' {
                    IdentPiece::Underscore
                } else if c == '\'' {
                    IdentPiece::Quote
                } else {
                    return Err(Error::UnexpectedOp(c));
                }
            },
            Node::Literal(text) => IdentPiece::Literal(text),
            Node::Group(_, _) => {
                return Err(Error::UnexpectedInput(pos));
            },
            Node::Ident(text) => {
                let chars = to_chars(text.as_str());
                if is_env_keyword(&chars) && punct_at(trees, pos + 1, '!') {
                    match env_target_at(trees, pos + 2) {
                        None => {
                            return Err(Error::UnexpectedInput(pos + 2));
                        },
                        Some(variable) => {
                            let name = identify(variable.as_str());
                            match env.resolve(name.as_str()) {
                                None => {
                                    return Err(Error::UnresolvedEnv(variable));
                                },
                                Some(value) => {
                                    let literal = string_literal(value.as_str());
                                    proof {
                                        lemma_after_pieces(
                                            done,
                                            PieceSpec::Literal(literal@),
                                            parse_pieces(ts, pos + 3, env@),
                                        );
                                        lemma_pieces_advance(ts, pos + 3, env@);
                                    }
                                    pieces.push(IdentPiece::Literal(literal));
                                    assert(pieces_spec(pieces@) =~= done.push(
                                        PieceSpec::Literal(literal@),
                                    ));
                                    pos += 3;
                                    continue ;
                                },
                            }
                        },
                    }
                } else {
                    IdentPiece::Ident(strip_raw(&chars))
                }
            },
        };
        proof {
            lemma_after_pieces(done, piece@, parse_pieces(ts, pos + 1, env@));
        }
        pieces.push(piece);
        assert(pieces_spec(pieces@) =~= done.push(piece@));
        pos += 1;
    }
    Err(Error::UnterminatedRecord)
}

/// `after_records` twice is `after_records` of the joined fronts.
proof fn lemma_after_records(
    front: Seq<RecordSpec>,
    record: RecordSpec,
    rest: Result<Seq<RecordSpec>, ErrorSpec>,
)
    ensures
        after_records(front, after_records(seq![record], rest)) == after_records(
            front.push(record),
            rest,
        ),
{
    match rest {
        Ok(records) => {
            assert(front + (seq![record] + records) =~= front.push(record) + records);
        },
        Err(_) => {},
    }
}

/// Reads a mapping from a token stream into the mapping table.
///
/// The result is the table that the stream's tokens stand for by the grammar
/// of [`parsed`], or the first violation of that grammar, met reading from
/// the left. Environment lookups are answered from `env`.
pub fn parse(tts: &TokenStream, env: &Environment) -> (r: Result<Input, Error>)
    ensures
        match parsed(stream_tokens(*tts), env@) {
            Ok(table) => r matches Ok(input) && input@ == table && input.wf(),
            Err(e) => r matches Err(x) && x@ == e,
        },
{
    let trees = read_trees(tts);
    let ghost ts = stream_tokens(*tts);
    let mut input = Input::new();
    let mut pending: Vec<Fragment> = Vec::new();
    let mut pos: usize = 0;
    let ghost mut done: Seq<RecordSpec> = Seq::empty();
    proof {
        assert(fragments_spec(pending@) =~= Seq::<FragmentSpec>::empty());
        match parse_records(ts, 0, Seq::empty(), env@) {
            Ok(records) => {
                assert(Seq::<RecordSpec>::empty() + records =~= records);
            },
            Err(_) => {},
        }
    }
    while pos < trees.len()
        invariant
            ts == trees_spec(trees@),
            ts == stream_tokens(*tts),
            input.wf(),
            input@ == table_of(done),
            parse_records(ts, 0, Seq::empty(), env@) == after_records(
                done,
                parse_records(ts, pos as int, fragments_spec(pending@), env@),
            ),
        decreases trees.len() - pos,
    {
        assert(ts[pos as int] == tree_token(trees@[pos as int]));
        match tree_node(&trees[pos]) {
            Node::Punct(c, _) => {
                if c != '#' {
                    return Err(Error::UnexpectedInput(pos));
                }
                match bracket_at(&trees, pos + 1) {
                    Some(attr) => {
                        let ghost before = fragments_spec(pending@);
                        pending.push(attr);
                        assert(fragments_spec(pending@) =~= before.push(attr@));
                        pos += 2;
                    },
                    None => {
                        return Err(Error::UnexpectedInput(pos + 1));
                    },
                }
            },
            Node::Ident(name) => {
                match bracket_at(&trees, pos + 1) {
                    Some(tag) => {
                        if !punct_at(&trees, pos + 2, '=') {
                            return Err(Error::UnexpectedInput(pos + 2));
                        }
                        match read_pieces(&trees, pos + 3, env) {
                            Ok((pieces, next)) => {
                                let ghost record = RecordSpec {
                                    attrs: fragments_spec(pending@),
                                    name: name@,
                                    tag: tag@,
                                    pieces: pieces_spec(pieces@),
                                };
                                proof {
                                    lemma_after_records(
                                        done,
                                        record,
                                        parse_records(ts, next as int, Seq::empty(), env@),
                                    );
                                    assert(done.push(record).drop_last() =~= done);
                                }
                                input.record(name, pending, Concat { tag, pieces });
                                pending = Vec::new();
                                assert(fragments_spec(pending@) =~= Seq::<FragmentSpec>::empty());
                                proof {
                                    done = done.push(record);
                                }
                                pos = next;
                            },
                            Err(e) => {
                                return Err(e);
                            },
                        }
                    },
                    None => {
                        return Err(Error::UnexpectedInput(pos + 1));
                    },
                }
            },
            _ => {
                return Err(Error::UnexpectedInput(pos));
            },
        }
    }
    proof {
        assert(done + Seq::<RecordSpec>::empty() =~= done);
    }
    Ok(input)
}

/// The mapping table that a source text stands for: the text must lex, and
/// its tokens must be a mapping.
pub open spec fn parsed_source(source: Seq<char>, env: Seq<VariableSpec>) -> Result<
    Seq<EntrySpec>,
    ErrorSpec,
> {
    match lexed(source) {
        None => Err(ErrorSpec::Lex),
        Some(tokens) => parsed(tokens, env),
    }
}

/// Reads a mapping from its source text: lexes the text, then parses the
/// tokens. Fails with `Error::Lex` where the text does not lex.
pub fn parse_str(source: &str, env: &Environment) -> (r: Result<Input, Error>)
    ensures
        match parsed_source(source@, env@) {
            Ok(table) => r matches Ok(input) && input@ == table && input.wf(),
            Err(e) => r matches Err(x) && x@ == e,
        },
{
    match lex(source) {
        Err(_) => Err(Error::Lex),
        Ok(tts) => parse(&tts, env),
    }
}

/// An environment lookup of a variable that is not set refuses the pieces
/// it stands in, with an error that holds the literal naming the variable.
pub proof fn lemma_unset_variable_is_refused(
    ts: Seq<TokenSpec>,
    pos: int,
    env: Seq<VariableSpec>,
    variable: Seq<char>,
)
    requires
        0 <= pos,
        pos + 1 < ts.len(),
        ts[pos] == TokenSpec::Ident(env_keyword()),
        is_punct(ts[pos + 1], '!'),
        env_target(ts, pos + 2) == Some(variable),
        resolved(env, identified(variable)) is None,
    ensures
        parse_pieces(ts, pos, env) == Err::<(Seq<PieceSpec>, int), ErrorSpec>(
            ErrorSpec::UnresolvedEnv(variable),
        ),
{
}

/// An error among the pieces of a record refuses the whole mapping from that
/// record on: no table is produced.
pub proof fn lemma_piece_error_is_final(
    ts: Seq<TokenSpec>,
    pos: int,
    pending: Seq<FragmentSpec>,
    env: Seq<VariableSpec>,
    e: ErrorSpec,
)
    requires
        0 <= pos,
        pos + 2 < ts.len(),
        ts[pos] is Ident,
        bracketed(ts, pos + 1) is Some,
        is_punct(ts[pos + 2], '='),
        parse_pieces(ts, pos + 3, env) == Err::<(Seq<PieceSpec>, int), ErrorSpec>(e),
    ensures
        parse_records(ts, pos, pending, env) == Err::<Seq<RecordSpec>, ErrorSpec>(e),
{
}

/// The position behind the piece that stands at `pos`, where a well-formed
/// piece stands there: an underscore, a quote, a literal, an identifier, or
/// an environment lookup of a variable that is set. `None` for the closing
/// semicolon, for the end of the input and for whatever is refused.
pub open spec fn piece_end(ts: Seq<TokenSpec>, pos: int, env: Seq<VariableSpec>) -> Option<int> {
    if pos < 0 || pos >= ts.len() {
        None
    } else {
        match ts[pos] {
            TokenSpec::Punct(c, _) => if c == '_' || c == '\'' {
                Some(pos + 1)
            } else {
                None
            },
            TokenSpec::Literal(_) => Some(pos + 1),
            TokenSpec::Group(_, _) => None,
            TokenSpec::Ident(text) => if text == env_keyword() && pos + 1 < ts.len() && is_punct(
                ts[pos + 1],
                '!',
            ) {
                match env_target(ts, pos + 2) {
                    None => None,
                    Some(variable) => match resolved(env, identified(variable)) {
                        None => None,
                        Some(_) => Some(pos + 3),
                    },
                }
            } else {
                Some(pos + 1)
            },
        }
    }
}

/// Whether only well-formed pieces stand from `from` up to `to`, so that
/// reading the pieces from `from` gets to `to`.
pub open spec fn pieces_lead_to(
    ts: Seq<TokenSpec>,
    from: int,
    to: int,
    env: Seq<VariableSpec>,
) -> bool
    decreases to - from,
{
    from == to || (from < to && match piece_end(ts, from, env) {
        Some(next) => from < next <= to && pieces_lead_to(ts, next, to, env),
        None => false,
    })
}

/// What refuses the pieces at a place that the reading gets to refuses the
/// pieces from where the reading began.
pub proof fn lemma_piece_error_is_met(
    ts: Seq<TokenSpec>,
    from: int,
    to: int,
    env: Seq<VariableSpec>,
    e: ErrorSpec,
)
    requires
        pieces_lead_to(ts, from, to, env),
        parse_pieces(ts, to, env) == Err::<(Seq<PieceSpec>, int), ErrorSpec>(e),
    ensures
        parse_pieces(ts, from, env) == Err::<(Seq<PieceSpec>, int), ErrorSpec>(e),
    decreases to - from,
{
    if from != to {
        let next = piece_end(ts, from, env)->0;
        lemma_piece_error_is_met(ts, next, to, env, e);
    }
}

/// The position behind the attribute or the record that stands at `pos`,
/// where a well-formed one stands there.
pub open spec fn record_end(ts: Seq<TokenSpec>, pos: int, env: Seq<VariableSpec>) -> Option<int> {
    if pos < 0 || pos >= ts.len() {
        None
    } else {
        match ts[pos] {
            TokenSpec::Punct(c, _) => if c == '#' && bracketed(ts, pos + 1) is Some {
                Some(pos + 2)
            } else {
                None
            },
            TokenSpec::Ident(_) => if bracketed(ts, pos + 1) is Some && pos + 2 < ts.len()
                && is_punct(ts[pos + 2], '=') {
                match parse_pieces(ts, pos + 3, env) {
                    Ok((_, next)) => Some(next),
                    Err(_) => None,
                }
            } else {
                None
            },
            _ => None,
        }
    }
}

/// Whether only well-formed attributes and records stand from `from` up to
/// `to`, so that reading the mapping from `from` gets to `to`.
pub open spec fn records_lead_to(
    ts: Seq<TokenSpec>,
    from: int,
    to: int,
    env: Seq<VariableSpec>,
) -> bool
    decreases to - from,
{
    from == to || (from < to && match record_end(ts, from, env) {
        Some(next) => from < next <= to && records_lead_to(ts, next, to, env),
        None => false,
    })
}

/// What refuses the mapping at a place that the reading gets to, whatever
/// attributes are pending there, refuses it from where the reading began.
pub proof fn lemma_record_error_is_met(
    ts: Seq<TokenSpec>,
    from: int,
    to: int,
    pending: Seq<FragmentSpec>,
    env: Seq<VariableSpec>,
    e: ErrorSpec,
)
    requires
        records_lead_to(ts, from, to, env),
        forall|p: Seq<FragmentSpec>|
            #[trigger] parse_records(ts, to, p, env) == Err::<Seq<RecordSpec>, ErrorSpec>(e),
    ensures
        parse_records(ts, from, pending, env) == Err::<Seq<RecordSpec>, ErrorSpec>(e),
    decreases to - from,
{
    if from != to {
        let next = record_end(ts, from, env)->0;
        match ts[from] {
            TokenSpec::Punct(_, _) => {
                let attr = bracketed(ts, from + 1)->0;
                lemma_record_error_is_met(ts, next, to, pending.push(captured(attr)), env, e);
            },
            _ => {
                lemma_record_error_is_met(ts, next, to, Seq::empty(), env, e);
            },
        }
    }
}

/// An environment lookup of a variable that is not set refuses the whole
/// mapping, in whichever record it stands and whatever stands behind it: no
/// table is produced, and the error holds the literal that names the
/// variable.
///
/// `record` is where the record with the lookup begins and `at` is where
/// the lookup stands among its pieces. Before them stands nothing that is
/// refused itself: only well-formed attributes and records before the
/// record, and only well-formed pieces before the lookup.
pub proof fn lemma_unset_variable_refuses_the_mapping(
    ts: Seq<TokenSpec>,
    record: int,
    at: int,
    env: Seq<VariableSpec>,
    variable: Seq<char>,
)
    requires
        records_lead_to(ts, 0, record, env),
        0 <= record,
        record + 2 < ts.len(),
        ts[record] is Ident,
        bracketed(ts, record + 1) is Some,
        is_punct(ts[record + 2], '='),
        pieces_lead_to(ts, record + 3, at, env),
        at + 1 < ts.len(),
        ts[at] == TokenSpec::Ident(env_keyword()),
        is_punct(ts[at + 1], '!'),
        env_target(ts, at + 2) == Some(variable),
        resolved(env, identified(variable)) is None,
    ensures
        parsed(ts, env) == Err::<Seq<EntrySpec>, ErrorSpec>(ErrorSpec::UnresolvedEnv(variable)),
{
    let e = ErrorSpec::UnresolvedEnv(variable);
    lemma_unset_variable_is_refused(ts, at, env, variable);
    lemma_piece_error_is_met(ts, record + 3, at, env, e);
    assert forall|p: Seq<FragmentSpec>| #[trigger]
        parse_records(ts, record, p, env) == Err::<Seq<RecordSpec>, ErrorSpec>(e) by {
        lemma_piece_error_is_final(ts, record, p, env, e);
    }
    lemma_record_error_is_met(ts, 0, record, Seq::empty(), env, e);
}

} // verus!
