//! How the generated macro works: a family of rules that carries a stack of
//! output frames through a flat input, and the proof that this computes the
//! rewriting.
//!
//! The macro cannot recurse into a bracketed group. Instead, when it meets
//! one, it opens a fresh frame, puts the group's contents back in front of
//! the remaining input, and puts a close marker behind them. When it meets
//! the marker, it closes the frame: it wraps what the frame has gathered in
//! the group's brackets and appends it to the frame below. So one flat family
//! of rules serves every depth of nesting.
//!
//! Here the rules are a step function on a state, and
//! [`lemma_rules_compute_the_rewriting`] shows that running them on an input
//! ends with a single frame that holds [`rewritten`] of that input.
//!
//! The macro's last rule hands out a frame that holds at least one token.
//! By [`crate::laws::lemma_rewriting_is_empty_of_empty_alone`] that is so for
//! every input of at least one token; on an empty input the generated macro
//! does not finish, where the model ends with an empty frame.
//!
//! The model takes a close marker to be different from every token of the
//! input. The concatenated identifiers, which the macro hands from step to
//! step as a list of slots, one for each pattern, are taken from the patterns
//! where they are needed.

use crate::piece::mashed;
use crate::rewrite::{descends, first_match, lemma_first_match, rewritten};
use crate::table::ConcatSpec;
use crate::token::{Delimiter, TokenSpec};
use vstd::prelude::*;

verus! {

/// One item of the remaining input: a token that the input held, or a
/// close marker that the rules have put in.
pub enum Item {
    Token(TokenSpec),
    Close(Delimiter),
}

/// The state that the macro hands from step to step.
pub struct State {
    /// The frames that are open, the innermost first. Each holds the output
    /// gathered so far at its depth.
    pub frames: Seq<Seq<TokenSpec>>,
    /// What is left of the input.
    pub input: Seq<Item>,
}

/// Tokens as items of the input.
pub open spec fn items(tokens: Seq<TokenSpec>) -> Seq<Item> {
    Seq::new(tokens.len(), |k: int| Item::Token(tokens[k]))
}

/// The tokens at the start of the remaining input, up to the first close
/// marker. Only these can take part in a match.
pub open spec fn tokens_ahead(input: Seq<Item>) -> Seq<TokenSpec>
    decreases input.len(),
{
    if input.len() == 0 {
        Seq::empty()
    } else {
        match input[0] {
            Item::Token(t) => seq![t] + tokens_ahead(input.subrange(1, input.len() as int)),
            Item::Close(_) => Seq::empty(),
        }
    }
}

/// The state with a token appended to the innermost frame and `n` items of
/// the input consumed.
pub open spec fn emit(s: State, t: TokenSpec, n: int) -> State {
    State {
        frames: s.frames.update(0, s.frames[0].push(t)),
        input: s.input.subrange(n, s.input.len() as int),
    }
}

/// One step of the macro, for a state with input left and a frame open.
///
/// - Open bracket: a fresh frame is pushed; the group's contents, then a
///   close marker of the group's kind, take the group's place in the input.
/// - Close marker: the innermost frame is popped, wrapped in brackets of the
///   marker's kind, and appended to the frame below.
/// - Key tokens of a pattern at the start of the input: they are consumed,
///   and the pattern's identifier is appended to the innermost frame. The
///   patterns are tried in the order of their registration.
/// - Any other token is appended to the innermost frame as it is.
pub open spec fn step(patterns: Seq<ConcatSpec>, s: State) -> State
    recommends
        s.input.len() > 0,
        s.frames.len() > 0,
        s.input[0] is Close ==> s.frames.len() > 1,
{
    let rest = s.input.subrange(1, s.input.len() as int);
    match s.input[0] {
        Item::Token(TokenSpec::Group(d, inner)) if descends(d) => State {
            frames: seq![Seq::empty()] + s.frames,
            input: items(inner) + seq![Item::Close(d)] + rest,
        },
        Item::Close(d) => State {
            frames: seq![s.frames[1].push(TokenSpec::Group(d, s.frames[0]))] + s.frames.subrange(
                2,
                s.frames.len() as int,
            ),
            input: rest,
        },
        Item::Token(t) => match first_match(patterns, tokens_ahead(s.input), 0) {
            Some(i) => emit(
                s,
                TokenSpec::Ident(mashed(patterns[i].pieces)),
                patterns[i].tag.tokens.len() as int,
            ),
            None => emit(s, t, 1),
        },
    }
}

/// A measure of the work that a token stands for: one step for a plain
/// token, and for a group one step to open it, one to close it, and the work
/// of its contents.
pub open spec fn token_work(t: TokenSpec) -> nat
    decreases t,
{
    match t {
        TokenSpec::Group(_, inner) => 2 + tokens_work(inner),
        _ => 1,
    }
}

/// The work that a token sequence stands for.
pub open spec fn tokens_work(tokens: Seq<TokenSpec>) -> nat
    decreases tokens,
{
    if tokens.len() == 0 {
        0
    } else {
        token_work(tokens[0]) + tokens_work(tokens.subrange(1, tokens.len() as int))
    }
}

/// The work that is left in the remaining input.
pub open spec fn work(input: Seq<Item>) -> nat
    decreases input.len(),
{
    if input.len() == 0 {
        0
    } else {
        let rest = work(input.subrange(1, input.len() as int));
        match input[0] {
            Item::Token(t) => token_work(t) + rest,
            Item::Close(_) => 1 + rest,
        }
    }
}

/// The work of two runs of items is the sum of their works.
pub proof fn lemma_work_adds(a: Seq<Item>, b: Seq<Item>)
    ensures
        work(a + b) == work(a) + work(b),
    decreases a.len(),
{
    if a.len() == 0 {
        assert(a + b =~= b);
    } else {
        assert((a + b)[0] == a[0]);
        assert((a + b).subrange(1, (a + b).len() as int) =~= a.subrange(1, a.len() as int) + b);
        lemma_work_adds(a.subrange(1, a.len() as int), b);
    }
}

/// The work of tokens taken as items is the work of the tokens.
pub proof fn lemma_work_of_items(tokens: Seq<TokenSpec>)
    ensures
        work(items(tokens)) == tokens_work(tokens),
    decreases tokens.len(),
{
    if tokens.len() > 0 {
        let tail = tokens.subrange(1, tokens.len() as int);
        assert(items(tokens)[0] == Item::Token(tokens[0]));
        assert(items(tokens).subrange(1, items(tokens).len() as int) =~= items(tail));
        lemma_work_of_items(tail);
    }
}

/// Dropping items from the front leaves less work, by at least one for each
/// item dropped.
pub proof fn lemma_work_of_rest(input: Seq<Item>, n: int)
    requires
        0 <= n <= input.len(),
    ensures
        work(input.subrange(n, input.len() as int)) + n <= work(input),
    decreases n,
{
    if n == 0 {
        assert(input.subrange(0, input.len() as int) =~= input);
    } else {
        let rest = input.subrange(1, input.len() as int);
        lemma_work_of_rest(rest, n - 1);
        assert(rest.subrange(n - 1, rest.len() as int) =~= input.subrange(
            n,
            input.len() as int,
        ));
    }
}

/// The tokens ahead are tokens of the input: there are no more of them than
/// items.
pub proof fn lemma_tokens_ahead_len(input: Seq<Item>)
    ensures
        tokens_ahead(input).len() <= input.len(),
    decreases input.len(),
{
    if input.len() > 0 {
        lemma_tokens_ahead_len(input.subrange(1, input.len() as int));
    }
}

/// Every step leaves less work than it found.
pub proof fn lemma_step_works(patterns: Seq<ConcatSpec>, s: State)
    requires
        s.input.len() > 0,
    ensures
        work(step(patterns, s).input) < work(s.input),
{
    let rest = s.input.subrange(1, s.input.len() as int);
    match s.input[0] {
        Item::Token(TokenSpec::Group(d, inner)) if descends(d) => {
            lemma_work_adds(items(inner) + seq![Item::Close(d)], rest);
            lemma_work_adds(items(inner), seq![Item::Close(d)]);
            lemma_work_of_items(inner);
            assert(seq![Item::Close(d)].subrange(1, 1) =~= Seq::<Item>::empty());
            assert(work(Seq::<Item>::empty()) == 0);
            assert(work(seq![Item::Close(d)]) == 1);
        },
        Item::Close(d) => {},
        Item::Token(t) => {
            lemma_first_match(patterns, tokens_ahead(s.input), 0);
            lemma_tokens_ahead_len(s.input);
            match first_match(patterns, tokens_ahead(s.input), 0) {
                Some(i) => {
                    lemma_work_of_rest(s.input, patterns[i].tag.tokens.len() as int);
                },
                None => {},
            }
        },
    }
}

/// The frames with which the macro ends: the steps are taken one after the
/// other until no input is left.
pub open spec fn run(patterns: Seq<ConcatSpec>, s: State) -> Seq<Seq<TokenSpec>>
    decreases work(s.input),
{
    if s.input.len() == 0 {
        s.frames
    } else {
        proof {
            lemma_step_works(patterns, s);
        }
        run(patterns, step(patterns, s))
    }
}

/// Whether a match made in front of `behind` cannot reach into it: nothing
/// is behind, or a close marker is first.
pub open spec fn closed_off(behind: Seq<Item>) -> bool {
    behind.len() == 0 || behind[0] is Close
}

/// In front of a close marker or of the end, the tokens ahead are the
/// tokens that stand there.
pub proof fn lemma_tokens_ahead_of_items(tokens: Seq<TokenSpec>, behind: Seq<Item>)
    requires
        closed_off(behind),
    ensures
        tokens_ahead(items(tokens) + behind) == tokens,
    decreases tokens.len(),
{
    let input = items(tokens) + behind;
    if tokens.len() == 0 {
        assert(input =~= behind);
        assert(tokens =~= Seq::<TokenSpec>::empty());
    } else {
        let tail = tokens.subrange(1, tokens.len() as int);
        assert(input[0] == Item::Token(tokens[0]));
        assert(input.subrange(1, input.len() as int) =~= items(tail) + behind);
        lemma_tokens_ahead_of_items(tail, behind);
        assert(seq![tokens[0]] + tail =~= tokens);
    }
}

/// Running the rules over a stretch of tokens appends the rewriting of that
/// stretch to the innermost frame, touches no other frame, and goes on with
/// what stands behind the stretch.
pub proof fn lemma_rules_rewrite_a_stretch(
    patterns: Seq<ConcatSpec>,
    frames: Seq<Seq<TokenSpec>>,
    tokens: Seq<TokenSpec>,
    behind: Seq<Item>,
)
    requires
        frames.len() > 0,
        closed_off(behind),
    ensures
        run(patterns, State { frames, input: items(tokens) + behind }) == run(
            patterns,
            State { frames: frames.update(0, frames[0] + rewritten(patterns, tokens)), input: behind },
        ),
    decreases tokens,
{
    let s = State { frames, input: items(tokens) + behind };
    if tokens.len() == 0 {
        assert(s.input =~= behind);
        assert(frames[0] + rewritten(patterns, tokens) =~= frames[0]);
        assert(frames.update(0, frames[0]) =~= frames);
    } else {
        let tail = tokens.subrange(1, tokens.len() as int);
        assert(s.input[0] == Item::Token(tokens[0]));
        assert(s.input.subrange(1, s.input.len() as int) =~= items(tail) + behind);
        lemma_tokens_ahead_of_items(tokens, behind);
        match tokens[0] {
            TokenSpec::Group(d, inner) if descends(d) => {
                // Open the group, rewrite its contents into the fresh frame,
                // close it, and go on behind it.
                let opened = step(patterns, s);
                let after_group = seq![Item::Close(d)] + (items(tail) + behind);
                assert(opened.input =~= items(inner) + after_group);
                lemma_rules_rewrite_a_stretch(patterns, opened.frames, inner, after_group);
                let filled = State {
                    frames: opened.frames.update(
                        0,
                        opened.frames[0] + rewritten(patterns, inner),
                    ),
                    input: after_group,
                };
                assert(opened.frames[0] + rewritten(patterns, inner) =~= rewritten(
                    patterns,
                    inner,
                ));
                let closed = step(patterns, filled);
                let group = TokenSpec::Group(d, rewritten(patterns, inner));
                assert(after_group.subrange(1, after_group.len() as int) =~= items(tail)
                    + behind);
                assert(closed.frames =~= frames.update(0, frames[0].push(group)));
                assert(closed.input == items(tail) + behind);
                lemma_rules_rewrite_a_stretch(patterns, closed.frames, tail, behind);
                assert(frames[0].push(group) + rewritten(patterns, tail) =~= frames[0]
                    + rewritten(patterns, tokens));
                assert(closed.frames.update(
                    0,
                    closed.frames[0] + rewritten(patterns, tail),
                ) =~= frames.update(0, frames[0] + rewritten(patterns, tokens)));
            },
            _ => {
                lemma_first_match(patterns, tokens, 0);
                match first_match(patterns, tokens, 0) {
                    Some(i) => {
                        let n = patterns[i].tag.tokens.len() as int;
                        let ident = TokenSpec::Ident(mashed(patterns[i].pieces));
                        let left = tokens.subrange(n, tokens.len() as int);
                        let next = step(patterns, s);
                        assert(next.input =~= items(left) + behind);
                        lemma_rules_rewrite_a_stretch(patterns, next.frames, left, behind);
                        assert(frames[0].push(ident) + rewritten(patterns, left) =~= frames[0]
                            + rewritten(patterns, tokens));
                        assert(next.frames.update(
                            0,
                            next.frames[0] + rewritten(patterns, left),
                        ) =~= frames.update(0, frames[0] + rewritten(patterns, tokens)));
                    },
                    None => {
                        let next = step(patterns, s);
                        assert(next.input =~= items(tail) + behind);
                        lemma_rules_rewrite_a_stretch(patterns, next.frames, tail, behind);
                        assert(frames[0].push(tokens[0]) + rewritten(patterns, tail)
                            =~= frames[0] + rewritten(patterns, tokens));
                        assert(next.frames.update(
                            0,
                            next.frames[0] + rewritten(patterns, tail),
                        ) =~= frames.update(0, frames[0] + rewritten(patterns, tokens)));
                    },
                }
            },
        }
    }
}

/// Started on an input with one empty frame, the rules end with one frame,
/// and that frame holds the rewriting of the input: brackets are reopened
/// where they were, key tokens are replaced, and every other token is where
/// it was. For an input of at least one token that frame is not empty, which
/// is what the macro's last rule asks of it.
pub proof fn lemma_rules_compute_the_rewriting(patterns: Seq<ConcatSpec>, input: Seq<TokenSpec>)
    ensures
        run(patterns, State { frames: seq![Seq::empty()], input: items(input) }) == seq![
            rewritten(patterns, input),
        ],
        input.len() > 0 ==> rewritten(patterns, input).len() > 0,
{
    crate::laws::lemma_rewriting_is_empty_of_empty_alone(patterns, input);
    let start = seq![Seq::<TokenSpec>::empty()];
    assert(items(input) + Seq::<Item>::empty() =~= items(input));
    lemma_rules_rewrite_a_stretch(patterns, start, input, Seq::empty());
    assert(start[0] + rewritten(patterns, input) =~= rewritten(patterns, input));
    assert(start.update(0, rewritten(patterns, input)) =~= seq![rewritten(patterns, input)]);
}

} // verus!
