//! What can go wrong while a mapping is read.

use crate::text::{append_chars, append_str, decimal, decimal_text, from_chars};
use vstd::prelude::*;

verus! {

/// Why a mapping was refused. Every error is final: nothing is produced.
#[derive(Clone, Debug, PartialEq, Eq)]
pub enum Error {
    /// The source text does not lex into tokens.
    Lex,
    /// A token stands where the grammar of a mapping has no place for it.
    /// Holds the index of that token among the tokens of the mapping, or the
    /// number of tokens where the mapping ends although a token is due.
    UnexpectedInput(usize),
    /// Among the pieces stands a punctuation character other than an
    /// underscore, a quote or the closing semicolon.
    UnexpectedOp(char),
    /// The input ends inside a record, before its closing semicolon.
    UnterminatedRecord,
    /// An environment lookup names a variable that is not set. Holds the
    /// literal that names the variable, as it was written.
    UnresolvedEnv(String),
}

/// Mathematical model of an [`Error`].
pub enum ErrorSpec {
    Lex,
    UnexpectedInput(int),
    UnexpectedOp(char),
    UnterminatedRecord,
    UnresolvedEnv(Seq<char>),
}

impl View for Error {
    type V = ErrorSpec;

    open spec fn view(&self) -> ErrorSpec {
        match *self {
            Error::Lex => ErrorSpec::Lex,
            Error::UnexpectedInput(at) => ErrorSpec::UnexpectedInput(at as int),
            Error::UnexpectedOp(c) => ErrorSpec::UnexpectedOp(c),
            Error::UnterminatedRecord => ErrorSpec::UnterminatedRecord,
            Error::UnresolvedEnv(literal) => ErrorSpec::UnresolvedEnv(literal@),
        }
    }
}

/// The message of an error. It names what was found out of place: the place
/// of an unexpected token, the unexpected character, or the literal that
/// names the variable that is not set.
pub open spec fn message_text(e: ErrorSpec) -> Seq<char> {
    match e {
        ErrorSpec::Lex => "mashup input does not lex"@,
        ErrorSpec::UnexpectedInput(at) => "unexpected mashup input at token "@ + decimal_text(
            at as nat,
        ),
        ErrorSpec::UnexpectedOp(c) => "unexpected op '"@ + seq![c] + "'"@,
        ErrorSpec::UnterminatedRecord => "unterminated mashup record"@,
        ErrorSpec::UnresolvedEnv(literal) => "unresolvable mashup env var "@ + literal,
    }
}

impl Error {
    /// The message that tells of this error.
    pub fn message(&self) -> (r: String)
        ensures
            r@ == message_text(self@),
    {
        let mut out: Vec<char> = Vec::new();
        match self {
            Error::Lex => {
                append_str(&mut out, "mashup input does not lex");
            },
            Error::UnexpectedInput(at) => {
                append_str(&mut out, "unexpected mashup input at token ");
                let number = decimal(*at);
                append_chars(&mut out, &number);
            },
            Error::UnexpectedOp(c) => {
                append_str(&mut out, "unexpected op '");
                out.push(*c);
                append_str(&mut out, "'");
            },
            Error::UnterminatedRecord => {
                append_str(&mut out, "unterminated mashup record");
            },
            Error::UnresolvedEnv(literal) => {
                append_str(&mut out, "unresolvable mashup env var ");
                append_str(&mut out, literal.as_str());
            },
        }
        from_chars(&out)
    }
}

/// The message of an unset variable ends with the literal that names the
/// variable.
pub proof fn lemma_message_names_the_variable(literal: Seq<char>)
    ensures
        message_text(ErrorSpec::UnresolvedEnv(literal)).len() >= literal.len(),
        message_text(ErrorSpec::UnresolvedEnv(literal)).subrange(
            message_text(ErrorSpec::UnresolvedEnv(literal)).len() - literal.len(),
            message_text(ErrorSpec::UnresolvedEnv(literal)).len() as int,
        ) == literal,
{
    let text = message_text(ErrorSpec::UnresolvedEnv(literal));
    assert(text.subrange(text.len() - literal.len(), text.len() as int) =~= literal);
}

} // verus!
