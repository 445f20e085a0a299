//! Character-level helpers: strings as sequences of characters, placeholder
//! substitution, trimming, and decimal numerals.

use vstd::prelude::*;

verus! {

/// `String::push` of the standard library: appends one character to the end
/// of the string. Nothing is proved here; the contract restates the
/// documented behaviour.
#[verifier::external_body]
fn push_char(s: &mut String, c: char)
    ensures
        final(s)@ == old(s)@.push(c),
{
    s.push(c)
}

/// The characters of a string, in order.
pub fn to_chars(s: &str) -> (v: Vec<char>)
    ensures
        v@ == s@,
{
    let mut v: Vec<char> = Vec::new();
    for c in it: s.chars()
        invariant
            v@ == it.seq().take(it.index() as int),
            it.seq() == s@,
    {
        v.push(c);
    }
    v
}

/// The string made of the given characters, in order.
pub fn from_chars(v: &Vec<char>) -> (s: String)
    ensures
        s@ == v@,
{
    let mut s = String::new();
    let mut i: usize = 0;
    while i < v.len()
        invariant
            i <= v.len(),
            s@ == v@.take(i as int),
        decreases v.len() - i,
    {
        push_char(&mut s, v[i]);
        i += 1;
    }
    s
}

/// Appends the characters of `extra` to `out`.
pub fn append_chars(out: &mut Vec<char>, extra: &Vec<char>)
    ensures
        final(out)@ == old(out)@ + extra@,
{
    let mut i: usize = 0;
    while i < extra.len()
        invariant
            i <= extra.len(),
            out@ == old(out)@ + extra@.take(i as int),
        decreases extra.len() - i,
    {
        out.push(extra[i]);
        i += 1;
    }
}

/// Appends the characters of a string slice to `out`.
pub fn append_str(out: &mut Vec<char>, s: &str)
    ensures
        final(out)@ == old(out)@ + s@,
{
    let chars = to_chars(s);
    append_chars(out, &chars);
}

/// Whether `pattern` stands in `text` at position `at`.
pub open spec fn occurs_at(text: Seq<char>, pattern: Seq<char>, at: int) -> bool {
    &&& 0 <= at
    &&& at + pattern.len() <= text.len()
    &&& text.subrange(at, at + pattern.len()) == pattern
}

/// Whether `pattern` stands in `text` at position `at`.
pub fn matches_at(text: &Vec<char>, pattern: &Vec<char>, at: usize) -> (r: bool)
    ensures
        r == occurs_at(text@, pattern@, at as int),
{
    if at > text.len() || pattern.len() > text.len() - at {
        return false;
    }
    let mut i: usize = 0;
    while i < pattern.len()
        invariant
            i <= pattern.len(),
            at + pattern.len() <= text.len(),
            forall|j: int| 0 <= j < i ==> text@[at + j] == pattern@[j],
        decreases pattern.len() - i,
    {
        if text[at + i] != pattern[i] {
            assert(text@.subrange(at as int, at + pattern.len())[i as int] != pattern@[i as int]);
            return false;
        }
        i += 1;
    }
    assert(text@.subrange(at as int, at + pattern.len()) =~= pattern@);
    true
}

/// `text` with every occurrence of `placeholder` replaced by `value`.
///
/// Occurrences are found scanning from the left and do not overlap; what was
/// put in is not scanned again. An empty placeholder occurs nowhere.
pub open spec fn substituted(text: Seq<char>, placeholder: Seq<char>, value: Seq<char>) -> Seq<
    char,
>
    decreases text.len(),
{
    if placeholder.len() == 0 || text.len() < placeholder.len() {
        text
    } else if occurs_at(text, placeholder, 0) {
        value + substituted(text.skip(placeholder.len() as int), placeholder, value)
    } else {
        seq![text[0]] + substituted(text.skip(1), placeholder, value)
    }
}

/// Replaces every occurrence of `placeholder` in `text` by `value`.
pub fn substitute(text: &Vec<char>, placeholder: &Vec<char>, value: &Vec<char>) -> (r: Vec<char>)
    ensures
        r@ == substituted(text@, placeholder@, value@),
{
    if placeholder.len() == 0 {
        let mut same: Vec<char> = Vec::new();
        append_chars(&mut same, text);
        return same;
    }
    let mut out: Vec<char> = Vec::new();
    let mut pos: usize = 0;
    proof {
        assert(text@.skip(0) =~= text@);
        assert(out@ + text@ =~= text@);
        assert(out@ + substituted(text@, placeholder@, value@) =~= substituted(
            text@,
            placeholder@,
            value@,
        ));
    }
    while pos < text.len()
        invariant
            pos <= text.len(),
            placeholder.len() > 0,
            substituted(text@, placeholder@, value@) == out@ + substituted(
                text@.skip(pos as int),
                placeholder@,
                value@,
            ),
        decreases text.len() - pos,
    {
        let ghost rest = text@.skip(pos as int);
        let ghost before = out@;
        if matches_at(text, placeholder, pos) {
            proof {
                assert(rest.subrange(0, placeholder.len() as int) =~= text@.subrange(
                    pos as int,
                    pos + placeholder.len(),
                ));
                assert(rest.skip(placeholder.len() as int) =~= text@.skip(
                    pos + placeholder.len(),
                ));
            }
            append_chars(&mut out, value);
            pos += placeholder.len();
            proof {
                assert(out@ + substituted(text@.skip(pos as int), placeholder@, value@) =~= before
                    + (value@ + substituted(text@.skip(pos as int), placeholder@, value@)));
            }
        } else {
            proof {
                if rest.len() >= placeholder.len() {
                    assert(rest.subrange(0, placeholder.len() as int) =~= text@.subrange(
                        pos as int,
                        pos + placeholder.len(),
                    ));
                }
                assert(rest.skip(1) =~= text@.skip(pos + 1));
            }
            if text.len() - pos < placeholder.len() {
                // Too short for another occurrence: the rest stays as it is.
                let mut i: usize = pos;
                while i < text.len()
                    invariant
                        pos <= i <= text.len(),
                        out@ == before + text@.subrange(pos as int, i as int),
                    decreases text.len() - i,
                {
                    out.push(text[i]);
                    i += 1;
                }
                proof {
                    assert(text@.subrange(pos as int, text.len() as int) =~= rest);
                    assert(text@.skip(text.len() as int) =~= Seq::<char>::empty());
                    assert(out@ + substituted(
                        text@.skip(text.len() as int),
                        placeholder@,
                        value@,
                    ) =~= before + rest);
                }
                pos = text.len();
            } else {
                out.push(text[pos]);
                pos += 1;
                proof {
                    assert(out@ + substituted(text@.skip(pos as int), placeholder@, value@)
                        =~= before + (seq![rest[0]] + substituted(
                        text@.skip(pos as int),
                        placeholder@,
                        value@,
                    )));
                }
            }
        }
    }
    proof {
        assert(text@.skip(pos as int) =~= Seq::<char>::empty());
        assert(out@ + Seq::<char>::empty() =~= out@);
    }
    out
}

/// How many characters at the start of `text` equal `c`.
pub open spec fn leading(text: Seq<char>, c: char) -> nat
    decreases text.len(),
{
    if text.len() > 0 && text[0] == c {
        1 + leading(text.skip(1), c)
    } else {
        0
    }
}

/// How many characters at the end of `text` equal `c`.
pub open spec fn trailing(text: Seq<char>, c: char) -> nat
    decreases text.len(),
{
    if text.len() > 0 && text.last() == c {
        1 + trailing(text.drop_last(), c)
    } else {
        0
    }
}

/// `text` without the run of `c` at its start and the run of `c` at its end.
/// A text made of `c` alone becomes empty.
pub open spec fn trimmed(text: Seq<char>, c: char) -> Seq<char> {
    if leading(text, c) == text.len() {
        Seq::empty()
    } else {
        text.subrange(leading(text, c) as int, text.len() - trailing(text, c))
    }
}

/// `leading` counts a run: everything before it equals `c`, and the run ends
/// at the end of the text or at another character.
pub proof fn lemma_leading(text: Seq<char>, c: char, n: int)
    requires
        0 <= n <= text.len(),
        forall|j: int| 0 <= j < n ==> text[j] == c,
        n == text.len() || text[n] != c,
    ensures
        leading(text, c) == n,
    decreases n,
{
    if n > 0 {
        let rest = text.skip(1);
        assert forall|j: int| 0 <= j < n - 1 implies rest[j] == c by {
            assert(rest[j] == text[j + 1]);
        }
        lemma_leading(rest, c, n - 1);
    }
}

/// `trailing` counts a run, as `leading` does from the other end.
pub proof fn lemma_trailing(text: Seq<char>, c: char, n: int)
    requires
        0 <= n <= text.len(),
        forall|j: int| text.len() - n <= j < text.len() ==> text[j] == c,
        n == text.len() || text[text.len() - n - 1] != c,
    ensures
        trailing(text, c) == n,
    decreases n,
{
    if n > 0 {
        let rest = text.drop_last();
        assert forall|j: int| rest.len() - (n - 1) <= j < rest.len() implies rest[j] == c by {
            assert(rest[j] == text[j]);
        }
        lemma_trailing(rest, c, n - 1);
    }
}

/// What `leading` counts is a run of `c` that ends at the end of the text or
/// at another character.
pub proof fn lemma_leading_run(text: Seq<char>, c: char)
    ensures
        leading(text, c) <= text.len(),
        forall|j: int| 0 <= j < leading(text, c) ==> text[j] == c,
        leading(text, c) == text.len() || text[leading(text, c) as int] != c,
    decreases text.len(),
{
    if text.len() > 0 && text[0] == c {
        let rest = text.skip(1);
        lemma_leading_run(rest, c);
        assert forall|j: int| 0 <= j < leading(text, c) implies text[j] == c by {
            if j > 0 {
                assert(rest[j - 1] == text[j]);
            }
        }
        if leading(text, c) != text.len() {
            assert(rest[leading(rest, c) as int] == text[leading(text, c) as int]);
        }
    }
}

/// What `trailing` counts is a run of `c` that begins at the start of the
/// text or behind another character.
pub proof fn lemma_trailing_run(text: Seq<char>, c: char)
    ensures
        trailing(text, c) <= text.len(),
        forall|j: int| text.len() - trailing(text, c) <= j < text.len() ==> text[j] == c,
        trailing(text, c) == text.len() || text[text.len() - trailing(text, c) - 1] != c,
    decreases text.len(),
{
    if text.len() > 0 && text.last() == c {
        let rest = text.drop_last();
        lemma_trailing_run(rest, c);
        assert forall|j: int|
            text.len() - trailing(text, c) <= j < text.len() implies text[j] == c by {
            if j < text.len() - 1 {
                assert(rest[j] == text[j]);
            }
        }
        if trailing(text, c) != text.len() {
            assert(rest[rest.len() - trailing(rest, c) - 1] == text[text.len() - trailing(
                text,
                c,
            ) - 1]);
        }
    }
}

/// What is left after trimming neither starts nor ends with `c`. Where the
/// text is not made of `c` alone, the two runs that are removed do not meet.
pub proof fn lemma_trimmed_is_bare(text: Seq<char>, c: char)
    ensures
        trimmed(text, c).len() > 0 ==> trimmed(text, c)[0] != c && trimmed(text, c).last() != c,
        leading(text, c) < text.len() ==> leading(text, c) + trailing(text, c) < text.len(),
{
    lemma_leading_run(text, c);
    lemma_trailing_run(text, c);
    let l = leading(text, c) as int;
    let t = trailing(text, c) as int;
    if l < text.len() {
        if text.len() - t <= l {
            assert(text[l] == c);
        }
    }
}

/// Removes the run of `c` at the start of `text` and the run at its end.
pub fn trim(text: &Vec<char>, c: char) -> (r: Vec<char>)
    ensures
        r@ == trimmed(text@, c),
{
    let mut start: usize = 0;
    while start < text.len() && text[start] == c
        invariant
            start <= text.len(),
            forall|j: int| 0 <= j < start ==> text@[j] == c,
        decreases text.len() - start,
    {
        start += 1;
    }
    proof {
        lemma_leading(text@, c, start as int);
    }
    let mut out: Vec<char> = Vec::new();
    if start == text.len() {
        return out;
    }
    let mut end: usize = text.len();
    while end > start && text[end - 1] == c
        invariant
            start <= end <= text.len(),
            start < text.len(),
            text@[start as int] != c,
            forall|j: int| end <= j < text.len() ==> text@[j] == c,
        decreases end,
    {
        end -= 1;
    }
    proof {
        lemma_trailing(text@, c, text.len() - end);
    }
    let mut i: usize = start;
    while i < end
        invariant
            start <= i <= end <= text.len(),
            out@ == text@.subrange(start as int, i as int),
        decreases end - i,
    {
        out.push(text[i]);
        i += 1;
    }
    out
}

/// `text` with every `from` turned into `to`, character by character.
pub open spec fn mapped(text: Seq<char>, from: char, to: char) -> Seq<char> {
    Seq::new(
        text.len(),
        |i: int|
            if text[i] == from {
                to
            } else {
                text[i]
            },
    )
}

/// Turns every `from` in `text` into `to`.
pub fn map_char(text: &Vec<char>, from: char, to: char) -> (r: Vec<char>)
    ensures
        r@ == mapped(text@, from, to),
{
    let mut out: Vec<char> = Vec::new();
    let mut i: usize = 0;
    while i < text.len()
        invariant
            i <= text.len(),
            out@ == mapped(text@, from, to).take(i as int),
        decreases text.len() - i,
    {
        let c = text[i];
        out.push(if c == from { to } else { c });
        i += 1;
        assert(out@ =~= mapped(text@, from, to).take(i as int));
    }
    assert(mapped(text@, from, to).take(text.len() as int) =~= mapped(text@, from, to));
    out
}

/// The character of a decimal digit.
pub open spec fn digit_char(d: nat) -> char {
    if d == 0 {
        '0'
    } else if d == 1 {
        '1'
    } else if d == 2 {
        '2'
    } else if d == 3 {
        '3'
    } else if d == 4 {
        '4'
    } else if d == 5 {
        '5'
    } else if d == 6 {
        '6'
    } else if d == 7 {
        '7'
    } else if d == 8 {
        '8'
    } else {
        '9'
    }
}

/// The decimal numeral of `n`, without leading zeros.
pub open spec fn decimal_text(n: nat) -> Seq<char>
    decreases n,
{
    if n < 10 {
        seq![digit_char(n)]
    } else {
        decimal_text(n / 10).push(digit_char(n % 10))
    }
}

/// The character of a decimal digit.
fn digit(d: usize) -> (c: char)
    requires
        d < 10,
    ensures
        c == digit_char(d as nat),
{
    if d == 0 {
        '0'
    } else if d == 1 {
        '1'
    } else if d == 2 {
        '2'
    } else if d == 3 {
        '3'
    } else if d == 4 {
        '4'
    } else if d == 5 {
        '5'
    } else if d == 6 {
        '6'
    } else if d == 7 {
        '7'
    } else if d == 8 {
        '8'
    } else {
        '9'
    }
}

/// The decimal numeral of `n`.
pub fn decimal(n: usize) -> (r: Vec<char>)
    ensures
        r@ == decimal_text(n as nat),
    decreases n,
{
    if n < 10 {
        let mut out: Vec<char> = Vec::new();
        out.push(digit(n));
        out
    } else {
        let mut out = decimal(n / 10);
        out.push(digit(n % 10));
        out
    }
}

} // verus!
