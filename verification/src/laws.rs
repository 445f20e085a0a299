//! What holds of the rewriting, for every macro and every input.

use crate::piece::{mashed, PieceSpec};
use crate::rewrite::{descends, first_match, key_at_start, lemma_first_match, rewritten};
use crate::table::{lemma_two_records_of_one_name, lookup, table_of, ConcatSpec, RecordSpec};
use crate::token::{Delimiter, TokenSpec};
use vstd::prelude::*;

verus! {

/// Whether a token is a group that the rewriting goes into.
pub open spec fn is_nest(t: TokenSpec) -> bool {
    match t {
        TokenSpec::Group(d, _) => descends(d),
        _ => false,
    }
}

/// Whether no token of the sequence is a bracketed group.
pub open spec fn flat(tokens: Seq<TokenSpec>) -> bool {
    forall|k: int| 0 <= k < tokens.len() ==> !is_nest(#[trigger] tokens[k])
}

/// The one pattern that matches at the start, with none before it, is what
/// `first_match` finds.
pub proof fn lemma_first_match_is(
    patterns: Seq<ConcatSpec>,
    input: Seq<TokenSpec>,
    from: int,
    i: int,
)
    requires
        0 <= from <= i < patterns.len(),
        key_at_start(input, patterns[i].tag.tokens),
        forall|j: int| from <= j < i ==> !key_at_start(input, patterns[j].tag.tokens),
    ensures
        first_match(patterns, input, from) == Some(i),
    decreases i - from,
{
    if from < i {
        lemma_first_match_is(patterns, input, from + 1, i);
    }
}

/// Key tokens at the start of the input are replaced by the concatenated
/// identifier of their pattern, and the rewriting goes on behind them.
///
/// This holds of pattern `i` where its key is not empty, does not begin with
/// a bracketed group (the rewriting would go into the group instead), and no
/// pattern registered before it has its key at the same place.
pub proof fn lemma_key_is_replaced(patterns: Seq<ConcatSpec>, i: int, rest: Seq<TokenSpec>)
    requires
        0 <= i < patterns.len(),
        patterns[i].tag.tokens.len() > 0,
        !is_nest(patterns[i].tag.tokens[0]),
        forall|j: int|
            0 <= j < i ==> !key_at_start(patterns[i].tag.tokens + rest, patterns[j].tag.tokens),
    ensures
        rewritten(patterns, patterns[i].tag.tokens + rest) == seq![
            TokenSpec::Ident(mashed(patterns[i].pieces)),
        ] + rewritten(patterns, rest),
{
    let key = patterns[i].tag.tokens;
    let input = key + rest;
    assert(input.subrange(0, key.len() as int) =~= key);
    assert(input.subrange(key.len() as int, input.len() as int) =~= rest);
    assert(input[0] == key[0]);
    lemma_first_match_is(patterns, input, 0, i);
}

/// A token at which no key starts, and which is no bracketed group, is
/// passed on unchanged.
pub proof fn lemma_token_passes(patterns: Seq<ConcatSpec>, input: Seq<TokenSpec>)
    requires
        input.len() > 0,
        !is_nest(input[0]),
        forall|j: int| 0 <= j < patterns.len() ==> !key_at_start(input, patterns[j].tag.tokens),
    ensures
        rewritten(patterns, input) == seq![input[0]] + rewritten(
            patterns,
            input.subrange(1, input.len() as int),
        ),
{
    lemma_first_match(patterns, input, 0);
}

/// The rewriting gives no tokens for the empty input alone: every token of
/// the input leaves a token, or is part of a key that leaves one.
pub proof fn lemma_rewriting_is_empty_of_empty_alone(
    patterns: Seq<ConcatSpec>,
    input: Seq<TokenSpec>,
)
    ensures
        rewritten(patterns, input).len() == 0 <==> input.len() == 0,
{
}

/// Whether no key starts at a token of `front`, where `rest` stands behind
/// `front`. Bracketed groups in `front` are not looked into.
pub open spec fn no_key_starts_in(
    patterns: Seq<ConcatSpec>,
    front: Seq<TokenSpec>,
    rest: Seq<TokenSpec>,
) -> bool {
    forall|p: int|
        0 <= p < front.len() ==> is_nest(front[p]) || first_match(
            patterns,
            #[trigger] (front + rest).subrange(p, (front + rest).len() as int),
            0,
        ) is None
}

/// A key that stands at the start of a token sequence stands at the start of
/// every sequence that begins with it.
pub proof fn lemma_key_at_start_of_longer(
    input: Seq<TokenSpec>,
    more: Seq<TokenSpec>,
    key: Seq<TokenSpec>,
)
    requires
        key_at_start(input, key),
    ensures
        key_at_start(input + more, key),
{
    assert((input + more).subrange(0, key.len() as int) =~= input.subrange(0, key.len() as int));
}

/// The rewriting of two runs of tokens, one after the other, is the
/// rewriting of the first followed by that of the second, where no key
/// starts in the first run outside its bracketed groups: what stands behind
/// a run does not change how the run is rewritten.
pub proof fn lemma_rewriting_splits(
    patterns: Seq<ConcatSpec>,
    front: Seq<TokenSpec>,
    rest: Seq<TokenSpec>,
)
    requires
        no_key_starts_in(patterns, front, rest),
    ensures
        rewritten(patterns, front + rest) == rewritten(patterns, front) + rewritten(
            patterns,
            rest,
        ),
    decreases front.len(),
{
    let input = front + rest;
    if front.len() == 0 {
        assert(input =~= rest);
        assert(rewritten(patterns, front) + rewritten(patterns, rest) =~= rewritten(
            patterns,
            rest,
        ));
    } else {
        let tail = front.subrange(1, front.len() as int);
        assert(input[0] == front[0]);
        assert(input.subrange(1, input.len() as int) =~= tail + rest);
        assert forall|p: int| 0 <= p < tail.len() implies is_nest(tail[p]) || first_match(
            patterns,
            #[trigger] (tail + rest).subrange(p, (tail + rest).len() as int),
            0,
        ) is None by {
            assert(tail[p] == front[p + 1]);
            assert((tail + rest).subrange(p, (tail + rest).len() as int) =~= input.subrange(
                p + 1,
                input.len() as int,
            ));
        }
        lemma_rewriting_splits(patterns, tail, rest);
        if !is_nest(front[0]) {
            assert(input.subrange(0, input.len() as int) =~= input);
            lemma_first_match(patterns, input, 0);
            lemma_first_match(patterns, front, 0);
            match first_match(patterns, front, 0) {
                Some(i) => {
                    lemma_key_at_start_of_longer(front, rest, patterns[i].tag.tokens);
                },
                None => {},
            }
        }
        let head = rewritten(patterns, front)[0];
        assert(seq![head] + (rewritten(patterns, tail) + rewritten(patterns, rest)) =~= (seq![
            head,
        ] + rewritten(patterns, tail)) + rewritten(patterns, rest));
    }
}

/// An occurrence of a key is replaced by the concatenated identifier of its
/// pattern; what stands before it is rewritten on its own, and the rewriting
/// goes on behind it.
///
/// `front` is what stands before the occurrence, with no key starting in it
/// outside its bracketed groups. The key is that of pattern `i`, under the
/// conditions of [`lemma_key_is_replaced`].
pub proof fn lemma_occurrence_is_replaced(
    patterns: Seq<ConcatSpec>,
    i: int,
    front: Seq<TokenSpec>,
    rest: Seq<TokenSpec>,
)
    requires
        0 <= i < patterns.len(),
        patterns[i].tag.tokens.len() > 0,
        !is_nest(patterns[i].tag.tokens[0]),
        forall|j: int|
            0 <= j < i ==> !key_at_start(patterns[i].tag.tokens + rest, patterns[j].tag.tokens),
        no_key_starts_in(patterns, front, patterns[i].tag.tokens + rest),
    ensures
        rewritten(patterns, front + (patterns[i].tag.tokens + rest)) == rewritten(
            patterns,
            front,
        ) + (seq![TokenSpec::Ident(mashed(patterns[i].pieces))] + rewritten(patterns, rest)),
{
    lemma_rewriting_splits(patterns, front, patterns[i].tag.tokens + rest);
    lemma_key_is_replaced(patterns, i, rest);
}

/// A bracketed group keeps its kind and is rewritten inside, whatever stands
/// in it and behind it.
pub proof fn lemma_group_is_rewritten_inside(
    patterns: Seq<ConcatSpec>,
    d: Delimiter,
    inner: Seq<TokenSpec>,
    rest: Seq<TokenSpec>,
)
    requires
        descends(d),
    ensures
        rewritten(patterns, seq![TokenSpec::Group(d, inner)] + rest) == seq![
            TokenSpec::Group(d, rewritten(patterns, inner)),
        ] + rewritten(patterns, rest),
{
    let input = seq![TokenSpec::Group(d, inner)] + rest;
    assert(input[0] == TokenSpec::Group(d, inner));
    assert(input.subrange(1, input.len() as int) =~= rest);
}

/// Which pattern matches depends on the key tokens alone, not on the pieces.
pub proof fn lemma_first_match_ignores_pieces(
    patterns: Seq<ConcatSpec>,
    j: int,
    pieces: Seq<PieceSpec>,
    input: Seq<TokenSpec>,
    from: int,
)
    requires
        0 <= j < patterns.len(),
        0 <= from,
    ensures
        first_match(
            patterns.update(j, ConcatSpec { tag: patterns[j].tag, pieces }),
            input,
            from,
        ) == first_match(patterns, input, from),
    decreases patterns.len() - from,
{
    if from < patterns.len() {
        lemma_first_match_ignores_pieces(patterns, j, pieces, input, from + 1);
    }
}

/// Of two patterns with the same key tokens only the one registered first is
/// ever substituted: whatever pieces the later one has, the rewriting is the
/// same.
pub proof fn lemma_later_duplicate_is_dead(
    patterns: Seq<ConcatSpec>,
    i: int,
    j: int,
    pieces: Seq<PieceSpec>,
    input: Seq<TokenSpec>,
)
    requires
        0 <= i < j < patterns.len(),
        patterns[i].tag.tokens == patterns[j].tag.tokens,
    ensures
        rewritten(patterns.update(j, ConcatSpec { tag: patterns[j].tag, pieces }), input)
            == rewritten(patterns, input),
    decreases input,
{
    let other = patterns.update(j, ConcatSpec { tag: patterns[j].tag, pieces });
    if input.len() > 0 {
        let tail = input.subrange(1, input.len() as int);
        lemma_first_match_ignores_pieces(patterns, j, pieces, input, 0);
        lemma_first_match(patterns, input, 0);
        match input[0] {
            TokenSpec::Group(d, inner) if descends(d) => {
                lemma_later_duplicate_is_dead(patterns, i, j, pieces, inner);
                lemma_later_duplicate_is_dead(patterns, i, j, pieces, tail);
            },
            _ => match first_match(patterns, input, 0) {
                Some(k) => {
                    assert(k != j);
                    lemma_later_duplicate_is_dead(
                        patterns,
                        i,
                        j,
                        pieces,
                        input.subrange(patterns[k].tag.tokens.len() as int, input.len() as int),
                    );
                },
                None => {
                    lemma_later_duplicate_is_dead(patterns, i, j, pieces, tail);
                },
            },
        }
    }
}

/// The later of two patterns with the same key tokens never matches.
pub proof fn lemma_later_duplicate_never_matches(
    patterns: Seq<ConcatSpec>,
    i: int,
    j: int,
    input: Seq<TokenSpec>,
)
    requires
        0 <= i < j < patterns.len(),
        patterns[i].tag.tokens == patterns[j].tag.tokens,
    ensures
        first_match(patterns, input, 0) != Some(j),
{
    lemma_first_match(patterns, input, 0);
}

/// An index of `patterns` as it stands once pattern `j` is taken out.
pub open spec fn without(j: int, found: Option<int>) -> Option<int> {
    match found {
        Some(k) => if k < j {
            Some(k)
        } else {
            Some(k - 1)
        },
        None => None,
    }
}

/// Behind the pattern that is taken out, matching goes on one index lower.
pub proof fn lemma_first_match_behind_removed(
    patterns: Seq<ConcatSpec>,
    j: int,
    input: Seq<TokenSpec>,
    from: int,
)
    requires
        0 <= j < patterns.len(),
        j <= from,
    ensures
        first_match(patterns.remove(j), input, from) == without(
            j,
            first_match(patterns, input, from + 1),
        ),
    decreases patterns.len() - from,
{
    lemma_first_match(patterns, input, from + 1);
    if from < patterns.len() - 1 {
        assert(patterns.remove(j)[from] == patterns[from + 1]);
        lemma_first_match_behind_removed(patterns, j, input, from + 1);
    }
}

/// Taking out a pattern that is not the one found leaves what is found,
/// at its new index.
pub proof fn lemma_first_match_without(
    patterns: Seq<ConcatSpec>,
    j: int,
    input: Seq<TokenSpec>,
    from: int,
)
    requires
        0 <= from <= j < patterns.len(),
        first_match(patterns, input, from) != Some(j),
    ensures
        first_match(patterns.remove(j), input, from) == without(
            j,
            first_match(patterns, input, from),
        ),
    decreases j - from,
{
    lemma_first_match(patterns, input, from);
    if from == j {
        lemma_first_match_behind_removed(patterns, j, input, j);
    } else {
        assert(patterns.remove(j)[from] == patterns[from]);
        if !key_at_start(input, patterns[from].tag.tokens) {
            lemma_first_match_without(patterns, j, input, from + 1);
        }
    }
}

/// Of two patterns with the same key tokens the later one can be taken out:
/// the rewriting is the same without it.
pub proof fn lemma_later_duplicate_can_be_dropped(
    patterns: Seq<ConcatSpec>,
    i: int,
    j: int,
    input: Seq<TokenSpec>,
)
    requires
        0 <= i < j < patterns.len(),
        patterns[i].tag.tokens == patterns[j].tag.tokens,
    ensures
        rewritten(patterns.remove(j), input) == rewritten(patterns, input),
    decreases input,
{
    let fewer = patterns.remove(j);
    if input.len() > 0 {
        let tail = input.subrange(1, input.len() as int);
        lemma_first_match(patterns, input, 0);
        lemma_first_match_without(patterns, j, input, 0);
        match input[0] {
            TokenSpec::Group(d, inner) if descends(d) => {
                lemma_later_duplicate_can_be_dropped(patterns, i, j, inner);
                lemma_later_duplicate_can_be_dropped(patterns, i, j, tail);
            },
            _ => match first_match(patterns, input, 0) {
                Some(k) => {
                    let k2 = if k < j {
                        k
                    } else {
                        k - 1
                    };
                    assert(fewer[k2] == patterns[k]);
                    lemma_later_duplicate_can_be_dropped(
                        patterns,
                        i,
                        j,
                        input.subrange(patterns[k].tag.tokens.len() as int, input.len() as int),
                    );
                },
                None => {
                    lemma_later_duplicate_can_be_dropped(patterns, i, j, tail);
                },
            },
        }
    }
}

/// Given two records of one name with the same key tokens, whatever their
/// pieces, the macro they make rewrites as the first record's pattern alone
/// does: only the mapping registered first is ever substituted.
pub proof fn lemma_only_the_first_record_is_substituted(
    first: RecordSpec,
    second: RecordSpec,
    input: Seq<TokenSpec>,
)
    requires
        first.name == second.name,
        first.tag.tokens == second.tag.tokens,
    ensures
        lookup(table_of(seq![first, second]), first.name) is Some,
        rewritten(lookup(table_of(seq![first, second]), first.name)->0.patterns, input)
            == rewritten(seq![ConcatSpec { tag: first.tag, pieces: first.pieces }], input),
{
    lemma_two_records_of_one_name(first, second);
    let table = table_of(seq![first, second]);
    assert(table.drop_last() =~= Seq::empty());
    let patterns = seq![
        ConcatSpec { tag: first.tag, pieces: first.pieces },
        ConcatSpec { tag: second.tag, pieces: second.pieces },
    ];
    assert(lookup(table, first.name) == Some(table[0].body));
    lemma_later_duplicate_can_be_dropped(patterns, 0, 1, input);
    assert(patterns.remove(1) =~= seq![ConcatSpec { tag: first.tag, pieces: first.pieces }]);
}

/// The nesting of a token sequence: its bracketed groups, each with its kind
/// and the nesting inside it, and nothing else.
pub struct Nest {
    pub delimiter: Delimiter,
    pub inside: Seq<Nest>,
}

/// The nesting of a token sequence.
pub open spec fn nesting(tokens: Seq<TokenSpec>) -> Seq<Nest>
    decreases tokens,
{
    if tokens.len() == 0 {
        Seq::empty()
    } else {
        let rest = nesting(tokens.subrange(1, tokens.len() as int));
        match tokens[0] {
            TokenSpec::Group(d, inner) if descends(d) => seq![
                Nest { delimiter: d, inside: nesting(inner) },
            ] + rest,
            _ => rest,
        }
    }
}

/// Tokens that are no bracketed groups add nothing to the nesting.
pub proof fn lemma_nesting_skips_flat(tokens: Seq<TokenSpec>, n: int)
    requires
        0 <= n <= tokens.len(),
        flat(tokens.subrange(0, n)),
    ensures
        nesting(tokens) == nesting(tokens.subrange(n, tokens.len() as int)),
    decreases n,
{
    if n == 0 {
        assert(tokens.subrange(0, tokens.len() as int) =~= tokens);
    } else {
        let tail = tokens.subrange(1, tokens.len() as int);
        assert(tokens.subrange(0, n)[0] == tokens[0]);
        assert forall|k: int| 0 <= k < n - 1 implies !is_nest(
            #[trigger] tail.subrange(0, n - 1)[k],
        ) by {
            assert(tail.subrange(0, n - 1)[k] == tokens.subrange(0, n)[k + 1]);
        }
        lemma_nesting_skips_flat(tail, n - 1);
        assert(tail.subrange(n - 1, tail.len() as int) =~= tokens.subrange(
            n,
            tokens.len() as int,
        ));
    }
}

/// Whether every key that the rewriting replaces in the input is free of
/// bracketed groups.
pub open spec fn replaces_flat_keys(patterns: Seq<ConcatSpec>, input: Seq<TokenSpec>) -> bool
    decreases input,
{
    if input.len() == 0 {
        true
    } else {
        match input[0] {
            TokenSpec::Group(d, inner) if descends(d) => {
                &&& replaces_flat_keys(patterns, inner)
                &&& replaces_flat_keys(patterns, input.subrange(1, input.len() as int))
            },
            _ => match first_match(patterns, input, 0) {
                Some(i) => {
                    proof {
                        lemma_first_match(patterns, input, 0);
                    }
                    &&& flat(patterns[i].tag.tokens)
                    &&& replaces_flat_keys(
                        patterns,
                        input.subrange(patterns[i].tag.tokens.len() as int, input.len() as int),
                    )
                },
                None => replaces_flat_keys(patterns, input.subrange(1, input.len() as int)),
            },
        }
    }
}

/// Where no key holds a bracketed group, every key that is replaced is free
/// of them.
pub proof fn lemma_flat_keys_are_replaced_flat(patterns: Seq<ConcatSpec>, input: Seq<TokenSpec>)
    requires
        forall|j: int| 0 <= j < patterns.len() ==> flat(#[trigger] patterns[j].tag.tokens),
    ensures
        replaces_flat_keys(patterns, input),
    decreases input,
{
    if input.len() > 0 {
        let tail = input.subrange(1, input.len() as int);
        lemma_first_match(patterns, input, 0);
        match input[0] {
            TokenSpec::Group(d, inner) if descends(d) => {
                lemma_flat_keys_are_replaced_flat(patterns, inner);
                lemma_flat_keys_are_replaced_flat(patterns, tail);
            },
            _ => match first_match(patterns, input, 0) {
                Some(i) => {
                    lemma_flat_keys_are_replaced_flat(
                        patterns,
                        input.subrange(patterns[i].tag.tokens.len() as int, input.len() as int),
                    );
                },
                None => {
                    lemma_flat_keys_are_replaced_flat(patterns, tail);
                },
            },
        }
    }
}

/// The rewriting keeps the nesting of its input exactly: the same brackets,
/// of the same kinds, in the same places.
///
/// This holds where no key that is replaced holds a bracketed group (such a
/// key, when it is replaced, takes its group with it).
pub proof fn lemma_nesting_is_preserved(patterns: Seq<ConcatSpec>, input: Seq<TokenSpec>)
    requires
        replaces_flat_keys(patterns, input),
    ensures
        nesting(rewritten(patterns, input)) == nesting(input),
    decreases input,
{
    if input.len() > 0 {
        let tail = input.subrange(1, input.len() as int);
        let out = rewritten(patterns, input);
        match input[0] {
            TokenSpec::Group(d, inner) if descends(d) => {
                lemma_nesting_is_preserved(patterns, inner);
                lemma_nesting_is_preserved(patterns, tail);
                assert(out.subrange(1, out.len() as int) =~= rewritten(patterns, tail));
            },
            _ => {
                lemma_first_match(patterns, input, 0);
                match first_match(patterns, input, 0) {
                    Some(i) => {
                        let n = patterns[i].tag.tokens.len() as int;
                        let behind = input.subrange(n, input.len() as int);
                        lemma_nesting_is_preserved(patterns, behind);
                        assert(out.subrange(1, out.len() as int) =~= rewritten(patterns, behind));
                        lemma_nesting_skips_flat(input, n);
                    },
                    None => {
                        lemma_nesting_is_preserved(patterns, tail);
                        assert(out.subrange(1, out.len() as int) =~= rewritten(patterns, tail));
                    },
                }
            },
        }
    }
}

/// Whether no key of the patterns stands anywhere in the input, at any depth
/// of brackets.
pub open spec fn key_free(patterns: Seq<ConcatSpec>, input: Seq<TokenSpec>) -> bool
    decreases input,
{
    if input.len() == 0 {
        true
    } else {
        &&& match input[0] {
            TokenSpec::Group(d, inner) if descends(d) => key_free(patterns, inner),
            _ => first_match(patterns, input, 0) is None,
        }
        &&& key_free(patterns, input.subrange(1, input.len() as int))
    }
}

/// An input in which no key stands comes out as it went in.
pub proof fn lemma_key_free_is_unchanged(patterns: Seq<ConcatSpec>, input: Seq<TokenSpec>)
    requires
        key_free(patterns, input),
    ensures
        rewritten(patterns, input) == input,
    decreases input,
{
    if input.len() > 0 {
        let tail = input.subrange(1, input.len() as int);
        lemma_key_free_is_unchanged(patterns, tail);
        match input[0] {
            TokenSpec::Group(d, inner) if descends(d) => {
                lemma_key_free_is_unchanged(patterns, inner);
            },
            _ => {},
        }
        assert(seq![input[0]] + tail =~= input);
    } else {
        assert(input =~= Seq::<TokenSpec>::empty());
    }
}

/// Whether every key is a single token (or empty, and so stands nowhere).
pub open spec fn single_token_keys(patterns: Seq<ConcatSpec>) -> bool {
    forall|j: int| 0 <= j < patterns.len() ==> (#[trigger] patterns[j]).tag.tokens.len() <= 1
}

/// What becomes of one token that is no bracketed group, where every key is
/// a single token: the identifier of the first pattern whose key it is, or
/// the token itself.
pub open spec fn replaced_token(patterns: Seq<ConcatSpec>, t: TokenSpec) -> TokenSpec {
    match first_match(patterns, seq![t], 0) {
        Some(i) => TokenSpec::Ident(mashed(patterns[i].pieces)),
        None => t,
    }
}

/// The input with each token replaced on its own, at every depth.
pub open spec fn replaced_tokenwise(patterns: Seq<ConcatSpec>, input: Seq<TokenSpec>) -> Seq<
    TokenSpec,
>
    decreases input,
{
    Seq::new(
        input.len(),
        |k: int|
            if 0 <= k < input.len() {
                match input[k] {
                    TokenSpec::Group(d, inner) if descends(d) => TokenSpec::Group(
                        d,
                        replaced_tokenwise(patterns, inner),
                    ),
                    t => replaced_token(patterns, t),
                }
            } else {
                TokenSpec::Ident(Seq::empty())
            },
    )
}

/// Where every key is a single token, which pattern matches depends on the
/// first token of the input alone.
pub proof fn lemma_single_token_match(
    patterns: Seq<ConcatSpec>,
    input: Seq<TokenSpec>,
    from: int,
)
    requires
        single_token_keys(patterns),
        input.len() > 0,
        0 <= from,
    ensures
        first_match(patterns, input, from) == first_match(patterns, seq![input[0]], from),
    decreases patterns.len() - from,
{
    if from < patterns.len() {
        let key = patterns[from].tag.tokens;
        if key.len() == 1 {
            assert(input.subrange(0, 1) =~= seq![input[0]]);
            assert(seq![input[0]].subrange(0, 1) =~= seq![input[0]]);
        }
        lemma_single_token_match(patterns, input, from + 1);
    }
}

/// Where every key is a single token, the rewriting replaces each occurrence
/// of a key, at every depth of brackets, and changes nothing else: it is the
/// token-by-token replacement.
pub proof fn lemma_single_tokens_are_replaced_everywhere(
    patterns: Seq<ConcatSpec>,
    input: Seq<TokenSpec>,
)
    requires
        single_token_keys(patterns),
    ensures
        rewritten(patterns, input) == replaced_tokenwise(patterns, input),
    decreases input,
{
    if input.len() > 0 {
        let tail = input.subrange(1, input.len() as int);
        lemma_single_tokens_are_replaced_everywhere(patterns, tail);
        lemma_single_token_match(patterns, input, 0);
        lemma_first_match(patterns, input, 0);
        match input[0] {
            TokenSpec::Group(d, inner) if descends(d) => {
                lemma_single_tokens_are_replaced_everywhere(patterns, inner);
            },
            _ => {},
        }
        let head = replaced_tokenwise(patterns, input)[0];
        assert(replaced_tokenwise(patterns, input) =~= seq![head] + replaced_tokenwise(
            patterns,
            tail,
        ));
    } else {
        assert(replaced_tokenwise(patterns, input) =~= Seq::<TokenSpec>::empty());
    }
}

} // verus!
