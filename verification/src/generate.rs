//! The rewrite-macro generator: the text of the substitution macro for one
//! entry of the mapping table.
//!
//! The generated macro is a token muncher. It carries the concatenated
//! identifiers of all patterns and a stack of output frames through its
//! recursion; it opens a frame at each bracket, closes it at a marker that it
//! puts behind the bracket's contents, replaces key tokens where it meets
//! them, and passes every other token on. Each rule names the slots of all
//! patterns, so the rules of a macro with `n` patterns all have arity `n`.
//!
//! What the rules compute is stated by [`crate::rewrite::rewritten`];
//! [`crate::frames`] takes the rules as steps on a state and proves that
//! running them yields it. That the compiler, expanding the generated text,
//! takes just these steps is the design of the text and is not proved: here
//! the text itself is pinned down, character by character.
//!
//! The rule that finishes asks for a frame of at least one token, and the
//! rule that starts takes any input. So on an empty input the macro starts
//! over on its own state and does not finish.

use crate::fragment::FragmentSpec;
use crate::piece::mashed;
use crate::table::{ConcatSpec, MacroSpec, SubstitutionMacro};
use crate::text::{
    append_chars, append_str, decimal, decimal_text, from_chars, substitute, substituted,
    to_chars,
};
use vstd::prelude::*;

verus! {

/// Stands for the macro's own name in the templates.
pub const NAME_MARK: &'static str = "__mashup_replace";

/// Stands for the key tokens of a pattern.
pub const PATTERN_MARK: &'static str = "__mashup_pattern";

/// Stands for the list of identifiers that the macro carries along.
pub const ALL_MARK: &'static str = "__mashup_all";

/// Stands for the identifier of the pattern at hand.
pub const CURRENT_MARK: &'static str = "__mashup_current";

/// Stands for the list of identifiers handed on to the next step.
pub const CONTINUE_MARK: &'static str = "__mashup_continue";

/// The rules that open and close the three kinds of brackets.
pub const BRACKET_RULES: &'static str = "
        // Open parenthesis.
        (@($($v:tt)*) ($($stack:tt)*) ($($first:tt)*) $($rest:tt)*) => {
            __mashup_replace! {
                @($($v)*) (() $($stack)*) $($first)* __mashup_close_paren $($rest)*
            }
        };

        // Open square bracket.
        (@($($v:tt)*) ($($stack:tt)*) [$($first:tt)*] $($rest:tt)*) => {
            __mashup_replace! {
                @($($v)*) (() $($stack)*) $($first)* __mashup_close_bracket $($rest)*
            }
        };

        // Open curly brace.
        (@($($v:tt)*) ($($stack:tt)*) {$($first:tt)*} $($rest:tt)*) => {
            __mashup_replace! {
                @($($v)*) (() $($stack)*) $($first)* __mashup_close_brace $($rest)*
            }
        };

        // Close parenthesis.
        (@($($v:tt)*) (($($close:tt)*) ($($top:tt)*) $($stack:tt)*) __mashup_close_paren $($rest:tt)*) => {
            __mashup_replace! {
                @($($v)*) (($($top)* ($($close)*)) $($stack)*) $($rest)*
            }
        };

        // Close square bracket.
        (@($($v:tt)*) (($($close:tt)*) ($($top:tt)*) $($stack:tt)*) __mashup_close_bracket $($rest:tt)*) => {
            __mashup_replace! {
                @($($v)*) (($($top)* [$($close)*]) $($stack)*) $($rest)*
            }
        };

        // Close curly brace.
        (@($($v:tt)*) (($($close:tt)*) ($($top:tt)*) $($stack:tt)*) __mashup_close_brace $($rest:tt)*) => {
            __mashup_replace! {
                @($($v)*) (($($top)* {$($close)*}) $($stack)*) $($rest)*
            }
        };
        ";

/// The rule that replaces the key tokens of one pattern.
pub const PATTERN_RULE: &'static str = "
            // Replace target tokens with concatenated ident.
            (@(__mashup_all) (($($top:tt)*) $($stack:tt)*) __mashup_pattern $($rest:tt)*) => {
                __mashup_replace! {
                    @(__mashup_continue) (($($top)* __mashup_current) $($stack)*) $($rest)*
                }
            };
            ";

/// The rules that pass a token on, finish, and start.
pub const CLOSING_RULES: &'static str = "
        // Munch a token that is not one of the targets.
        (@($($v:tt)*) (($($top:tt)*) $($stack:tt)*) $first:tt $($rest:tt)*) => {
            __mashup_replace! {
                @($($v)*) (($($top)* $first) $($stack)*) $($rest)*
            }
        };

        // Done.
        (@($($v:tt)*) (($($top:tt)+))) => {
            $($top)+
        };

        // Launch.
        ($($tt:tt)*) => {
            __mashup_replace! {
                @(__mashup_all) (()) $($tt)*
            }
        }
        ";

/// The attributes, each written as `#[...]`.
pub open spec fn attrs_text(attrs: Seq<FragmentSpec>) -> Seq<char>
    decreases attrs.len(),
{
    if attrs.len() == 0 {
        Seq::empty()
    } else {
        attrs_text(attrs.drop_last()) + "#["@ + attrs.last().text + "]"@
    }
}

/// The slots for the first `n` identifiers as a macro pattern binds them:
/// ` $v0:tt $v1:tt ...`.
pub open spec fn slots_text(n: nat) -> Seq<char>
    decreases n,
{
    if n == 0 {
        Seq::empty()
    } else {
        slots_text((n - 1) as nat) + " $v"@ + decimal_text((n - 1) as nat) + ":tt"@
    }
}

/// The concatenated identifiers of the patterns, each behind a space.
pub open spec fn idents_text(patterns: Seq<ConcatSpec>) -> Seq<char>
    decreases patterns.len(),
{
    if patterns.len() == 0 {
        Seq::empty()
    } else {
        idents_text(patterns.drop_last()) + " "@ + mashed(patterns.last().pieces)
    }
}

/// The rule for pattern `i` of `n`: the pattern template with, in this
/// order, the macro's name, the key tokens' text, the slots, the slot of this
/// pattern and the slots without their fragment specifiers put in.
pub open spec fn pattern_rule_text(name: Seq<char>, tag: Seq<char>, i: nat, n: nat) -> Seq<char> {
    let slots = slots_text(n);
    let named = substituted(PATTERN_RULE@, NAME_MARK@, name);
    let keyed = substituted(named, PATTERN_MARK@, tag);
    let bound = substituted(keyed, ALL_MARK@, slots);
    let chosen = substituted(bound, CURRENT_MARK@, "$v"@ + decimal_text(i));
    substituted(chosen, CONTINUE_MARK@, substituted(slots, ":tt"@, Seq::empty()))
}

/// The rules for the first `upto` patterns, in order.
pub open spec fn pattern_rules_text(name: Seq<char>, patterns: Seq<ConcatSpec>, upto: nat) -> Seq<
    char,
>
    decreases upto,
{
    if upto == 0 || upto > patterns.len() {
        Seq::empty()
    } else {
        pattern_rules_text(name, patterns, (upto - 1) as nat) + pattern_rule_text(
            name,
            patterns[upto - 1].tag.text,
            (upto - 1) as nat,
            patterns.len(),
        )
    }
}

/// All rules of the macro: the bracket rules, one rule for each pattern in
/// the order of registration, and the closing rules, which start the macro
/// with the concatenated identifiers of all patterns.
pub open spec fn rules_text(name: Seq<char>, patterns: Seq<ConcatSpec>) -> Seq<char> {
    substituted(BRACKET_RULES@, NAME_MARK@, name) + pattern_rules_text(
        name,
        patterns,
        patterns.len(),
    ) + substituted(
        substituted(CLOSING_RULES@, NAME_MARK@, name),
        ALL_MARK@,
        idents_text(patterns),
    )
}

/// The definition of the substitution macro `name`: its attributes, then
/// `macro_rules!` with its rules.
pub open spec fn macro_text(name: Seq<char>, m: MacroSpec) -> Seq<char> {
    attrs_text(m.attrs) + " macro_rules! "@ + name + " { "@ + rules_text(name, m.patterns)
        + " }"@
}

/// Writes the attributes.
fn attrs_chars(m: &SubstitutionMacro) -> (r: Vec<char>)
    ensures
        r@ == attrs_text(m@.attrs),
{
    let mut out: Vec<char> = Vec::new();
    let mut i: usize = 0;
    while i < m.attrs.len()
        invariant
            i <= m.attrs.len(),
            out@ == attrs_text(m@.attrs.take(i as int)),
        decreases m.attrs.len() - i,
    {
        proof {
            let next = m@.attrs.take(i + 1);
            assert(next.drop_last() =~= m@.attrs.take(i as int));
            assert(next.last().text == m.attrs@[i as int].text@);
        }
        append_str(&mut out, "#[");
        append_str(&mut out, m.attrs[i].text.as_str());
        append_str(&mut out, "]");
        i += 1;
    }
    assert(m@.attrs.take(m.attrs.len() as int) =~= m@.attrs);
    out
}

/// Writes the slots for `n` identifiers.
fn slots_chars(n: usize) -> (r: Vec<char>)
    ensures
        r@ == slots_text(n as nat),
{
    let mut out: Vec<char> = Vec::new();
    let mut j: usize = 0;
    while j < n
        invariant
            j <= n,
            out@ == slots_text(j as nat),
        decreases n - j,
    {
        append_str(&mut out, " $v");
        let number = decimal(j);
        append_chars(&mut out, &number);
        append_str(&mut out, ":tt");
        j += 1;
    }
    out
}

/// Writes the concatenated identifiers of all patterns.
fn idents_chars(m: &SubstitutionMacro) -> (r: Vec<char>)
    ensures
        r@ == idents_text(m@.patterns),
{
    let mut out: Vec<char> = Vec::new();
    let mut i: usize = 0;
    while i < m.patterns.len()
        invariant
            i <= m.patterns.len(),
            out@ == idents_text(m@.patterns.take(i as int)),
        decreases m.patterns.len() - i,
    {
        proof {
            let next = m@.patterns.take(i + 1);
            assert(next.drop_last() =~= m@.patterns.take(i as int));
            assert(next.last().pieces == m.patterns@[i as int]@.pieces);
        }
        append_str(&mut out, " ");
        let ident = m.patterns[i].mashup();
        append_str(&mut out, ident.as_str());
        i += 1;
    }
    assert(m@.patterns.take(m.patterns.len() as int) =~= m@.patterns);
    out
}

/// Writes the rule for pattern `i`, given the slots of all patterns.
fn pattern_rule_chars(name: &Vec<char>, tag: &str, i: usize, slots: &Vec<char>) -> (r: Vec<char>)
    ensures
        forall|n: nat|
            slots@ == slots_text(n) ==> r@ == #[trigger] pattern_rule_text(
                name@,
                tag@,
                i as nat,
                n,
            ),
{
    let named = substitute(&to_chars(PATTERN_RULE), &to_chars(NAME_MARK), name);
    let keyed = substitute(&named, &to_chars(PATTERN_MARK), &to_chars(tag));
    let bound = substitute(&keyed, &to_chars(ALL_MARK), slots);
    let mut slot = to_chars("$v");
    let number = decimal(i);
    append_chars(&mut slot, &number);
    let chosen = substitute(&bound, &to_chars(CURRENT_MARK), &slot);
    let nothing: Vec<char> = Vec::new();
    let bare = substitute(slots, &to_chars(":tt"), &nothing);
    assert(nothing@ =~= Seq::<char>::empty());
    substitute(&chosen, &to_chars(CONTINUE_MARK), &bare)
}

/// Writes the definition of the substitution macro called `name`.
///
/// The result is the macro's attributes, each as `#[...]`, then
/// `macro_rules!`, the name, and in braces the rules: those for the three
/// kinds of brackets, one for each pattern in the order of registration, and
/// the closing ones. Generation cannot fail.
pub fn make_macro(name: &str, substitution_macro: &SubstitutionMacro) -> (r: String)
    ensures
        r@ == macro_text(name@, substitution_macro@),
{
    let name_chars = to_chars(name);
    let n = substitution_macro.patterns.len();
    let slots = slots_chars(n);

    let mut rules = substitute(&to_chars(BRACKET_RULES), &to_chars(NAME_MARK), &name_chars);
    let ghost bracket_rules = rules@;
    let mut i: usize = 0;
    proof {
        assert(rules@ + Seq::<char>::empty() =~= rules@);
    }
    while i < n
        invariant
            i <= n,
            n == substitution_macro.patterns.len(),
            name_chars@ == name@,
            slots@ == slots_text(n as nat),
            rules@ == bracket_rules + pattern_rules_text(
                name@,
                substitution_macro@.patterns,
                i as nat,
            ),
        decreases n - i,
    {
        let rule = pattern_rule_chars(
            &name_chars,
            substitution_macro.patterns[i].tag.text.as_str(),
            i,
            &slots,
        );
        proof {
            assert(substitution_macro@.patterns[i as int].tag.text
                == substitution_macro.patterns@[i as int].tag.text@);
            assert(rule@ == pattern_rule_text(
                name@,
                substitution_macro@.patterns[i as int].tag.text,
                i as nat,
                n as nat,
            ));
            assert(bracket_rules + (pattern_rules_text(
                name@,
                substitution_macro@.patterns,
                i as nat,
            ) + rule@) =~= rules@ + rule@);
        }
        append_chars(&mut rules, &rule);
        i += 1;
    }
    let named = substitute(&to_chars(CLOSING_RULES), &to_chars(NAME_MARK), &name_chars);
    let idents = idents_chars(substitution_macro);
    let closing = substitute(&named, &to_chars(ALL_MARK), &idents);
    append_chars(&mut rules, &closing);

    let mut out = attrs_chars(substitution_macro);
    append_str(&mut out, " macro_rules! ");
    append_chars(&mut out, &name_chars);
    append_str(&mut out, " { ");
    append_chars(&mut out, &rules);
    append_str(&mut out, " }");
    from_chars(&out)
}

} // verus!
