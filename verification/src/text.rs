//! Text primitives: strings are modelled as sequences of characters, and the
//! executable functions work on `Vec<char>` between two conversions.

use vstd::prelude::*;

verus! {

/// `String::push` appends exactly one character to the end of the string.
pub assume_specification[ String::push ](s: &mut String, c: char)
    ensures
        final(s)@ == old(s)@.push(c),
;

/// The characters of a string slice, in order.
pub fn chars_of(s: &str) -> (r: Vec<char>)
    ensures
        r@ == s@,
{
    let mut out: Vec<char> = Vec::new();
    for c in it: s.chars()
        invariant
            it.seq() == s@,
            out@ == it.seq().take(it.index()),
    {
        out.push(c);
    }
    out
}

/// The string made of the given characters, in order.
pub fn string_of(v: &Vec<char>) -> (r: String)
    ensures
        r@ == v@,
{
    let mut out = String::new();
    let mut i: usize = 0;
    while i < v.len()
        invariant
            i <= v.len(),
            out@ == v@.take(i as int),
        decreases v.len() - i,
    {
        out.push(v[i]);
        i += 1;
    }
    out
}

/// Appends the characters of `tail` to `out`.
pub fn extend_chars(out: &mut Vec<char>, tail: &Vec<char>)
    ensures
        final(out)@ == old(out)@ + tail@,
{
    let mut i: usize = 0;
    while i < tail.len()
        invariant
            i <= tail.len(),
            out@ == old(out)@ + tail@.take(i as int),
        decreases tail.len() - i,
    {
        out.push(tail[i]);
        i += 1;
    }
}

/// Whether two character vectors hold the same text.
pub fn same_chars(a: &Vec<char>, b: &Vec<char>) -> (r: bool)
    ensures
        r == (a@ == b@),
{
    if a.len() != b.len() {
        return false;
    }
    let mut i: usize = 0;
    while i < a.len()
        invariant
            i <= a.len(),
            a.len() == b.len(),
            forall|j: int| 0 <= j < i ==> a@[j] == b@[j],
        decreases a.len() - i,
    {
        if a[i] != b[i] {
            return false;
        }
        i += 1;
    }
    assert(a@ =~= b@);
    true
}

/// `s` ends with `pattern`.
pub open spec fn ends_with(s: Seq<char>, pattern: Seq<char>) -> bool {
    pattern.len() <= s.len() && s.subrange(s.len() - pattern.len(), s.len() as int) == pattern
}

/// Decides [`ends_with`] on character vectors.
pub fn chars_end_with(s: &Vec<char>, pattern: &Vec<char>) -> (r: bool)
    ensures
        r == ends_with(s@, pattern@),
{
    if pattern.len() > s.len() {
        return false;
    }
    let off: usize = s.len() - pattern.len();
    let mut i: usize = 0;
    while i < pattern.len()
        invariant
            i <= pattern.len(),
            off + pattern.len() == s.len(),
            forall|j: int| 0 <= j < i ==> s@[off + j] == pattern@[j],
        decreases pattern.len() - i,
    {
        if s[off + i] != pattern[i] {
            assert(s@.subrange(off as int, s.len() as int)[i as int] == s@[off + i]);
            return false;
        }
        i += 1;
    }
    assert(s@.subrange(off as int, s.len() as int) =~= pattern@);
    true
}

/// Of two endings of one text the shorter is an ending of the longer.
pub proof fn lemma_endings_nest(s: Seq<char>, a: Seq<char>, b: Seq<char>)
    requires
        ends_with(s, a),
        ends_with(s, b),
        a.len() <= b.len(),
    ensures
        ends_with(b, a),
{
    let off = s.len() - b.len();
    assert forall|i: int| 0 <= i < a.len() implies b.subrange(
        b.len() - a.len(),
        b.len() as int,
    )[i] == a[i] by {
        assert(s.subrange(s.len() - b.len(), s.len() as int)[b.len() - a.len() + i] == s[off
            + b.len() - a.len() + i]);
        assert(s.subrange(s.len() - a.len(), s.len() as int)[i] == s[s.len() - a.len() + i]);
    }
    assert(b.subrange(b.len() - a.len(), b.len() as int) =~= a);
}

/// Where one text with a tail ends with another text with the same tail,
/// the one ends with the other.
pub proof fn lemma_ending_without_tail(a: Seq<char>, b: Seq<char>, tail: Seq<char>)
    requires
        ends_with(b + tail, a + tail),
    ensures
        ends_with(b, a),
{
    let long = b + tail;
    let short = a + tail;
    assert forall|i: int| 0 <= i < a.len() implies b.subrange(
        b.len() - a.len(),
        b.len() as int,
    )[i] == a[i] by {
        assert(long.subrange(long.len() - short.len(), long.len() as int)[i] == long[long.len()
            - short.len() + i]);
        assert(short[i] == a[i]);
        assert(long[b.len() - a.len() + i] == b[b.len() - a.len() + i]);
    }
    assert(b.subrange(b.len() - a.len(), b.len() as int) =~= a);
}

/// A text that ends with `head + tail` ends with `tail`.
pub proof fn lemma_ending_of_ending(s: Seq<char>, head: Seq<char>, tail: Seq<char>)
    requires
        ends_with(s, head + tail),
    ensures
        ends_with(s, tail),
{
    let whole = head + tail;
    assert forall|i: int| 0 <= i < tail.len() implies s.subrange(
        s.len() - tail.len(),
        s.len() as int,
    )[i] == tail[i] by {
        assert(s.subrange(s.len() - whole.len(), s.len() as int)[head.len() + i] == s[s.len()
            - whole.len() + head.len() + i]);
        assert(whole[head.len() + i] == tail[i]);
    }
    assert(s.subrange(s.len() - tail.len(), s.len() as int) =~= tail);
}

/// `s` without its trailing run of the character `c`.
pub open spec fn trim_end_char(s: Seq<char>, c: char) -> Seq<char>
    decreases s.len(),
{
    if s.len() > 0 && s.last() == c {
        trim_end_char(s.drop_last(), c)
    } else {
        s
    }
}

/// `s` without the repetitions of `pattern` that it ends with. An empty
/// pattern removes nothing.
pub open spec fn trim_end_seq(s: Seq<char>, pattern: Seq<char>) -> Seq<char>
    decreases s.len(),
{
    if pattern.len() > 0 && ends_with(s, pattern) {
        trim_end_seq(s.take(s.len() - pattern.len()), pattern)
    } else {
        s
    }
}

/// Shortens `s` to [`trim_end_char`] of itself.
pub fn trim_end_char_in_place(s: &mut Vec<char>, c: char)
    ensures
        final(s)@ == trim_end_char(old(s)@, c),
{
    let mut n: usize = s.len();
    assert(s@.take(n as int) =~= s@);
    while n > 0 && s[n - 1] == c
        invariant
            n <= s.len(),
            s@ == old(s)@,
            trim_end_char(old(s)@, c) == trim_end_char(s@.take(n as int), c),
        decreases n,
    {
        assert(s@.take(n as int).drop_last() =~= s@.take(n - 1));
        n -= 1;
    }
    s.truncate(n);
    assert(s@ =~= old(s)@.take(n as int));
}

/// Shortens `s` to [`trim_end_seq`] of itself.
pub fn trim_end_seq_in_place(s: &mut Vec<char>, pattern: &Vec<char>)
    ensures
        final(s)@ == trim_end_seq(old(s)@, pattern@),
{
    if pattern.len() == 0 {
        return ;
    }
    loop
        invariant
            pattern.len() > 0,
            trim_end_seq(old(s)@, pattern@) == trim_end_seq(s@, pattern@),
        ensures
            s@ == trim_end_seq(old(s)@, pattern@),
        decreases s.len(),
    {
        if !chars_end_with(s, pattern) {
            break ;
        }
        let n: usize = s.len() - pattern.len();
        s.truncate(n);
    }
}

/// The characters of `s` that satisfy `keep`, in order.
pub open spec fn retain(s: Seq<char>, keep: spec_fn(char) -> bool) -> Seq<char> {
    s.filter(keep)
}

/// Every character of `s` satisfies `keep`.
pub open spec fn all_chars(s: Seq<char>, keep: spec_fn(char) -> bool) -> bool {
    forall|i: int| 0 <= i < s.len() ==> keep(#[trigger] s[i])
}

/// Filtering leaves only characters that pass the filter.
pub proof fn lemma_retain_all(s: Seq<char>, keep: spec_fn(char) -> bool)
    ensures
        all_chars(retain(s, keep), keep),
{
    assert forall|i: int| 0 <= i < retain(s, keep).len() implies keep(
        #[trigger] retain(s, keep)[i],
    ) by {
        s.lemma_filter_pred(keep, i);
    }
}

/// Filtering a text whose characters all pass the filter changes nothing.
pub proof fn lemma_retain_fixed(s: Seq<char>, keep: spec_fn(char) -> bool)
    requires
        all_chars(s, keep),
    ensures
        retain(s, keep) == s,
    decreases s.len(),
{
    reveal(Seq::filter);
    if s.len() > 0 {
        assert(keep(s[s.len() - 1]));
        assert(all_chars(s.drop_last(), keep)) by {
            assert forall|i: int| 0 <= i < s.drop_last().len() implies keep(
                #[trigger] s.drop_last()[i],
            ) by {
                assert(s.drop_last()[i] == s[i]);
            }
        }
        lemma_retain_fixed(s.drop_last(), keep);
        assert(s.drop_last().push(s.last()) =~= s);
    }
}

/// The position of the first `c` in `s`, or the length of `s` where it has none.
pub open spec fn first_position(s: Seq<char>, c: char) -> int
    decreases s.len(),
{
    if s.len() == 0 {
        0
    } else if s[0] == c {
        0
    } else {
        1 + first_position(s.skip(1), c)
    }
}

/// What [`first_position`] returns is the least index that holds `c`.
pub proof fn lemma_first_position(s: Seq<char>, c: char)
    ensures
        0 <= first_position(s, c) <= s.len(),
        forall|i: int| 0 <= i < first_position(s, c) ==> s[i] != c,
        first_position(s, c) < s.len() ==> s[first_position(s, c)] == c,
    decreases s.len(),
{
    if s.len() > 0 && s[0] != c {
        lemma_first_position(s.skip(1), c);
        assert forall|i: int| 0 <= i < first_position(s, c) implies s[i] != c by {
            if i > 0 {
                assert(s.skip(1)[i - 1] == s[i]);
            }
        }
    }
}

/// Any index before which no `c` occurs, and which holds `c` or ends the text,
/// is the first position of `c`.
pub proof fn lemma_first_position_unique(s: Seq<char>, c: char, n: int)
    requires
        0 <= n <= s.len(),
        forall|i: int| 0 <= i < n ==> s[i] != c,
        n < s.len() ==> s[n] == c,
    ensures
        first_position(s, c) == n,
{
    lemma_first_position(s, c);
    let p = first_position(s, c);
    if p < n {
        assert(s[p] != c);
    } else if n < p {
        assert(s[n] != c);
    }
}

/// Computes [`first_position`].
pub fn find_char(s: &Vec<char>, c: char) -> (n: usize)
    ensures
        n == first_position(s@, c),
{
    let mut n: usize = 0;
    while n < s.len() && s[n] != c
        invariant
            n <= s.len(),
            forall|i: int| 0 <= i < n ==> s@[i] != c,
        decreases s.len() - n,
    {
        n += 1;
    }
    proof {
        lemma_first_position_unique(s@, c, n as int);
    }
    n
}

/// The test for being the character `c`.
pub open spec fn is_char(c: char) -> spec_fn(char) -> bool {
    |x: char| x == c
}

/// How many times `c` occurs in `s`.
pub open spec fn occurrences(s: Seq<char>, c: char) -> nat {
    s.filter(is_char(c)).len()
}

/// Computes [`occurrences`].
pub fn count_char(s: &Vec<char>, c: char) -> (n: usize)
    ensures
        n == occurrences(s@, c),
{
    let mut n: usize = 0;
    let mut i: usize = 0;
    let ghost pred = is_char(c);
    proof {
        reveal(Seq::filter);
        assert(s@.take(0).filter(pred) =~= Seq::<char>::empty());
    }
    while i < s.len()
        invariant
            i <= s.len(),
            n <= i,
            pred == is_char(c),
            n == s@.take(i as int).filter(pred).len(),
        decreases s.len() - i,
    {
        proof {
            assert(s@.take(i + 1) =~= s@.take(i as int).push(s@[i as int]));
            s@.take(i as int).lemma_filter_push(s@[i as int], pred);
        }
        if s[i] == c {
            n += 1;
        }
        i += 1;
    }
    assert(s@.take(s.len() as int) =~= s@);
    n
}

/// A copy of the part of `s` from `from` up to `to`.
pub fn copy_range(s: &Vec<char>, from: usize, to: usize) -> (r: Vec<char>)
    requires
        from <= to <= s.len(),
    ensures
        r@ == s@.subrange(from as int, to as int),
{
    let mut out: Vec<char> = Vec::new();
    let mut i: usize = from;
    while i < to
        invariant
            from <= i <= to <= s.len(),
            out@ == s@.subrange(from as int, i as int),
        decreases to - i,
    {
        out.push(s[i]);
        assert(s@.subrange(from as int, i + 1) =~= s@.subrange(from as int, i as int).push(
            s@[i as int],
        ));
        i += 1;
    }
    out
}

/// `c` is white space: a character with the Unicode property `White_Space`.
pub open spec fn is_whitespace(c: char) -> bool {
    ||| '\u{9}' <= c <= '\u{d}'
    ||| c == ' '
    ||| c == '\u{85}'
    ||| c == '\u{a0}'
    ||| c == '\u{1680}'
    ||| '\u{2000}' <= c <= '\u{200a}'
    ||| c == '\u{2028}'
    ||| c == '\u{2029}'
    ||| c == '\u{202f}'
    ||| c == '\u{205f}'
    ||| c == '\u{3000}'
}

/// Decides [`is_whitespace`].
pub fn char_is_whitespace(c: char) -> (r: bool)
    ensures
        r == is_whitespace(c),
{
    ('\u{9}' <= c && c <= '\u{d}') || c == ' ' || c == '\u{85}' || c == '\u{a0}' || c
        == '\u{1680}' || ('\u{2000}' <= c && c <= '\u{200a}') || c == '\u{2028}' || c
        == '\u{2029}' || c == '\u{202f}' || c == '\u{205f}' || c == '\u{3000}'
}

/// `s` without the white space that it begins with.
pub open spec fn trim_start(s: Seq<char>) -> Seq<char>
    decreases s.len(),
{
    if s.len() > 0 && is_whitespace(s[0]) {
        trim_start(s.skip(1))
    } else {
        s
    }
}

/// `s` without the white space that it ends with.
pub open spec fn trim_end(s: Seq<char>) -> Seq<char>
    decreases s.len(),
{
    if s.len() > 0 && is_whitespace(s.last()) {
        trim_end(s.drop_last())
    } else {
        s
    }
}

/// `s` without the white space at its two ends.
pub open spec fn trim(s: Seq<char>) -> Seq<char> {
    trim_end(trim_start(s))
}

/// Computes [`trim`].
pub fn trim_chars(s: &Vec<char>) -> (r: Vec<char>)
    ensures
        r@ == trim(s@),
{
    let mut a: usize = 0;
    assert(s@.skip(0) =~= s@);
    while a < s.len() && char_is_whitespace(s[a])
        invariant
            a <= s.len(),
            trim_start(s@) == trim_start(s@.skip(a as int)),
        decreases s.len() - a,
    {
        assert(s@.skip(a as int).skip(1) =~= s@.skip(a + 1));
        a += 1;
    }
    let mut b: usize = s.len();
    let ghost rest = s@.skip(a as int);
    assert(rest == trim_start(s@));
    assert(rest.take(b - a) =~= rest);
    while b > a && char_is_whitespace(s[b - 1])
        invariant
            a <= b <= s.len(),
            rest == s@.skip(a as int),
            trim_end(rest) == trim_end(rest.take(b - a)),
        decreases b,
    {
        assert(rest.take(b - a).drop_last() =~= rest.take(b - a - 1));
        b -= 1;
    }
    assert(rest.take(b - a) =~= s@.subrange(a as int, b as int));
    copy_range(s, a, b)
}

} // verus!
