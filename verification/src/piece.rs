//! Ident pieces and their concatenation into one identifier.

use crate::stream::{plain, quoted};
use crate::text::{
    append_chars, from_chars, lemma_leading, lemma_trailing, lemma_trimmed_is_bare, map_char,
    mapped, to_chars, trim, trimmed,
};
use vstd::prelude::*;

verus! {

/// One fragment of a concatenated identifier.
#[derive(Clone, Debug, PartialEq, Eq)]
pub enum IdentPiece {
    /// A plain identifier, joined as it is.
    Ident(String),
    /// An underscore.
    Underscore,
    /// A quote character, which starts a lifetime name.
    Quote,
    /// A literal, by its source text. It is joined in its identified form.
    Literal(String),
}

/// Mathematical model of an [`IdentPiece`].
pub enum PieceSpec {
    Ident(Seq<char>),
    Underscore,
    Quote,
    Literal(Seq<char>),
}

impl View for IdentPiece {
    type V = PieceSpec;

    open spec fn view(&self) -> PieceSpec {
        match *self {
            IdentPiece::Ident(text) => PieceSpec::Ident(text@),
            IdentPiece::Underscore => PieceSpec::Underscore,
            IdentPiece::Quote => PieceSpec::Quote,
            IdentPiece::Literal(text) => PieceSpec::Literal(text@),
        }
    }
}

/// The models of a sequence of pieces.
pub open spec fn pieces_spec(ps: Seq<IdentPiece>) -> Seq<PieceSpec> {
    ps.map_values(|p: IdentPiece| p@)
}

/// A literal's source text made fit for an identifier.
///
/// A text that starts with a double or a single quote (a string or a
/// character literal) loses every such quote at its start and at its end, and
/// each hyphen in it becomes an underscore. Any other text stays as it is.
pub open spec fn identified(literal: Seq<char>) -> Seq<char> {
    if literal.len() > 0 && (literal[0] == '"' || literal[0] == '\'') {
        mapped(trimmed(literal, literal[0]), '-', '_')
    } else {
        literal
    }
}

/// The text that a piece contributes to the identifier.
pub open spec fn piece_text(p: PieceSpec) -> Seq<char> {
    match p {
        PieceSpec::Ident(text) => text,
        PieceSpec::Underscore => seq!['_'],
        PieceSpec::Quote => seq!['\''],
        PieceSpec::Literal(text) => identified(text),
    }
}

/// The identifier that the pieces form: their texts joined in order.
pub open spec fn mashed(pieces: Seq<PieceSpec>) -> Seq<char>
    decreases pieces.len(),
{
    if pieces.len() == 0 {
        Seq::empty()
    } else {
        mashed(pieces.drop_last()) + piece_text(pieces.last())
    }
}

/// Makes a literal's source text fit for an identifier.
pub fn identify(literal: &str) -> (r: String)
    ensures
        r@ == identified(literal@),
{
    let chars = to_chars(literal);
    if chars.len() > 0 && (chars[0] == '"' || chars[0] == '\'') {
        let inner = trim(&chars, chars[0]);
        let fitted = map_char(&inner, '-', '_');
        from_chars(&fitted)
    } else {
        from_chars(&chars)
    }
}

/// Joins the pieces into one identifier.
pub fn mashup_pieces(pieces: &Vec<IdentPiece>) -> (r: String)
    ensures
        r@ == mashed(pieces_spec(pieces@)),
{
    let mut out: Vec<char> = Vec::new();
    let mut i: usize = 0;
    while i < pieces.len()
        invariant
            i <= pieces.len(),
            out@ == mashed(pieces_spec(pieces@).take(i as int)),
        decreases pieces.len() - i,
    {
        let ghost before = pieces_spec(pieces@).take(i as int);
        let ghost after = pieces_spec(pieces@).take(i + 1);
        proof {
            assert(after.drop_last() =~= before);
            assert(after.last() == pieces@[i as int]@);
        }
        match &pieces[i] {
            IdentPiece::Ident(text) => {
                let chars = to_chars(text.as_str());
                append_chars(&mut out, &chars);
            },
            IdentPiece::Underscore => {
                out.push('_');
                assert(out@ =~= mashed(before) + seq!['_']);
            },
            IdentPiece::Quote => {
                out.push('\'');
                assert(out@ =~= mashed(before) + seq!['\'']);
            },
            IdentPiece::Literal(text) => {
                let fitted = identify(text.as_str());
                let chars = to_chars(fitted.as_str());
                append_chars(&mut out, &chars);
            },
        }
        i += 1;
    }
    assert(pieces_spec(pieces@).take(pieces.len() as int) =~= pieces_spec(pieces@));
    from_chars(&out)
}

/// The identifier of two runs of pieces, one after the other, is the
/// identifier of the first followed by that of the second: pieces contribute
/// in order, and none changes what another contributes.
pub proof fn lemma_mashed_concat(front: Seq<PieceSpec>, back: Seq<PieceSpec>)
    ensures
        mashed(front + back) == mashed(front) + mashed(back),
    decreases back.len(),
{
    if back.len() == 0 {
        assert(front + back =~= front);
        assert(mashed(front) + mashed(back) =~= mashed(front));
    } else {
        lemma_mashed_concat(front, back.drop_last());
        assert((front + back).drop_last() =~= front + back.drop_last());
        assert((front + back).last() == back.last());
        assert(mashed(front) + (mashed(back.drop_last()) + piece_text(back.last())) =~= (mashed(
            front,
        ) + mashed(back.drop_last())) + piece_text(back.last()));
    }
}

/// A string or character literal, identified, holds no hyphen, and neither
/// starts nor ends with the quote that it was written in.
pub proof fn lemma_identified_is_bare(literal: Seq<char>)
    requires
        literal.len() > 0,
        literal[0] == '"' || literal[0] == '\'',
    ensures
        forall|i: int| 0 <= i < identified(literal).len() ==> identified(literal)[i] != '-',
        identified(literal).len() > 0 ==> identified(literal)[0] != literal[0] && identified(
            literal,
        ).last() != literal[0],
{
    lemma_trimmed_is_bare(literal, literal[0]);
}

/// A value between double quotes, identified, is the value again, with its
/// hyphens turned into underscores. This holds of every value that holds no
/// double quote itself.
pub proof fn lemma_quoted_value_is_identified(value: Seq<char>)
    requires
        forall|i: int| 0 <= i < value.len() ==> value[i] != '"',
    ensures
        identified(quoted(value)) == mapped(value, '-', '_'),
{
    let text = quoted(value);
    assert(text.len() == value.len() + 2);
    assert(text[0] == '"');
    assert(text[text.len() - 1] == '"');
    if value.len() == 0 {
        lemma_leading(text, '"', 2);
        assert(mapped(Seq::<char>::empty(), '-', '_') =~= mapped(value, '-', '_'));
    } else {
        assert(text[1] == value[0]);
        assert(text[text.len() - 2] == value[value.len() - 1]);
        lemma_leading(text, '"', 1);
        lemma_trailing(text, '"', 1);
        assert(text.subrange(1, text.len() - 1) =~= value);
    }
}

/// The string literal of a plain value joins an identifier as the value
/// itself, with its hyphens turned into underscores: so an environment
/// variable `mashup` behind the identifier `Lib` gives `Libmashup`.
pub proof fn lemma_plain_value_joins_as_itself(value: Seq<char>)
    requires
        plain(value),
    ensures
        piece_text(PieceSpec::Literal(crate::stream::string_literal_repr(value))) == mapped(
            value,
            '-',
            '_',
        ),
{
    lemma_quoted_value_is_identified(value);
}

/// A literal that is neither a string nor a character literal, such as an
/// integer, goes into the identifier as it is written.
pub proof fn lemma_plain_literal_joins_as_written(text: Seq<char>)
    requires
        text.len() == 0 || (text[0] != '"' && text[0] != '\''),
    ensures
        piece_text(PieceSpec::Literal(text)) == text,
{
}

/// An underscore piece goes into the identifier as the character `_`,
/// between what stands before it and what stands after it.
pub proof fn lemma_underscore_joins_literally(front: Seq<PieceSpec>, back: Seq<PieceSpec>)
    ensures
        mashed(front.push(PieceSpec::Underscore) + back) == mashed(front) + seq!['_'] + mashed(
            back,
        ),
{
    lemma_mashed_concat(front.push(PieceSpec::Underscore), back);
    assert(front.push(PieceSpec::Underscore).drop_last() =~= front);
}

/// A quote piece goes into the identifier as the character `'`, so that a
/// quote followed by identifiers forms a lifetime name.
pub proof fn lemma_quote_joins_literally(front: Seq<PieceSpec>, back: Seq<PieceSpec>)
    ensures
        mashed(front.push(PieceSpec::Quote) + back) == mashed(front) + seq!['\''] + mashed(back),
{
    lemma_mashed_concat(front.push(PieceSpec::Quote), back);
    assert(front.push(PieceSpec::Quote).drop_last() =~= front);
}

} // verus!
