//! Concatenated identifiers: a mapping from key tokens to ident pieces, the
//! substitution macro generated from it, and the rewriting that the macro
//! performs.
//!
//! A mapping such as `m["method"] = a b c;` is lexed by `proc_macro2`, read by
//! [`parse::parse`] into the mapping table, and turned by
//! [`generate::make_macro`] into the text of a macro `m!` that replaces the
//! key tokens `"method"` by the identifier `abc` wherever they occur in its
//! input. What that macro does to an input of at least one token is
//! [`table::SubstitutionMacro::expand`]; on an empty input the generated
//! macro does not finish, where `expand` gives the empty sequence.

pub mod env;
pub mod error;
pub mod fragment;
pub mod frames;
pub mod generate;
pub mod laws;
pub mod parse;
pub mod piece;
pub mod rewrite;
pub mod stream;
pub mod table;
pub mod text;
pub mod token;

use crate::env::{Environment, VariableSpec};
use crate::error::{Error, ErrorSpec};
use crate::generate::{macro_text, make_macro};
use crate::parse::{parse_str, parsed_source};
use crate::table::{EntrySpec, Input};
use crate::text::{append_chars, from_chars, to_chars};
use vstd::prelude::*;

verus! {

/// The definitions of all macros of a table, one after the other in the
/// table's order.
pub open spec fn definitions_text(table: Seq<EntrySpec>) -> Seq<char>
    decreases table.len(),
{
    if table.len() == 0 {
        Seq::empty()
    } else {
        definitions_text(table.drop_last()) + macro_text(table.last().name, table.last().body)
    }
}

/// What a mapping, given as source text, expands to: the definitions of its
/// macros, or the reason why there are none.
pub open spec fn mashup_text(source: Seq<char>, env: Seq<VariableSpec>) -> Result<
    Seq<char>,
    ErrorSpec,
> {
    match parsed_source(source, env) {
        Ok(table) => Ok(definitions_text(table)),
        Err(e) => Err(e),
    }
}

/// Writes the definitions of all macros of a mapping table.
pub fn make_macros(input: &Input) -> (r: String)
    ensures
        r@ == definitions_text(input@),
{
    let mut out: Vec<char> = Vec::new();
    let mut i: usize = 0;
    while i < input.len()
        invariant
            i <= input@.len(),
            out@ == definitions_text(input@.take(i as int)),
        decreases input@.len() - i,
    {
        proof {
            let next = input@.take(i + 1);
            assert(next.drop_last() =~= input@.take(i as int));
            assert(next.last() == input@[i as int]);
        }
        match input.entry(i) {
            Some(entry) => {
                let definition = make_macro(entry.name.as_str(), &entry.body);
                let chars = to_chars(definition.as_str());
                append_chars(&mut out, &chars);
            },
            None => {},
        }
        i += 1;
    }
    assert(input@.take(input@.len() as int) =~= input@);
    from_chars(&out)
}

/// Expands a mapping: lexes the source text, reads the mapping, and writes
/// the definition of every substitution macro that it names.
///
/// Fails with `Error::Lex` where the text does not lex, and with the parser's
/// error where the tokens are no mapping. Environment lookups are answered
/// from `env`.
pub fn mashup_macro_impl(s: &str, env: &Environment) -> (r: Result<String, Error>)
    ensures
        match mashup_text(s@, env@) {
            Ok(text) => r matches Ok(out) && out@ == text,
            Err(e) => r matches Err(x) && x@ == e,
        },
{
    match parse_str(s, env) {
        Ok(input) => Ok(make_macros(&input)),
        Err(e) => Err(e),
    }
}

} // verus!
