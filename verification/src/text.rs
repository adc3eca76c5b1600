//! Character-level text operations: cutting a text at a separator, finding a
//! pattern in it, taking it apart into whitespace-delimited words and
//! deleting characters from it.
//!
//! Every operation is specified over the sequence of characters that a string
//! stands for, and the executable functions are proved against those
//! specifications.

use vstd::prelude::*;

verus! {

// ---------------------------------------------------------------------------
// Cutting at a separator
// ---------------------------------------------------------------------------

/// The number of characters of `s` that stand before the first `c`; the
/// length of `s` when `c` does not occur in it.
pub open spec fn find(s: Seq<char>, c: char) -> nat
    decreases s.len(),
{
    if s.len() == 0 || s[0] == c {
        0
    } else {
        1 + find(s.drop_first(), c)
    }
}

/// `find(s, c)` is the least position that holds `c`, or the length of `s`.
pub proof fn lemma_find(s: Seq<char>, c: char)
    ensures
        find(s, c) <= s.len(),
        forall|i: int| 0 <= i < find(s, c) ==> s[i] != c,
        find(s, c) < s.len() ==> s[find(s, c) as int] == c,
    decreases s.len(),
{
    if s.len() == 0 || s[0] == c {
    } else {
        let t = s.drop_first();
        lemma_find(t, c);
        assert forall|i: int| 0 <= i < find(s, c) implies s[i] != c by {
            if i > 0 {
                assert(s[i] == t[i - 1]);
            }
        }
        if find(s, c) < s.len() {
            assert(s[find(s, c) as int] == t[find(t, c) as int]);
        }
    }
}

/// A position that holds the first `c` of `s`, or the length of `s` when
/// there is none, is `find(s, c)`.
pub proof fn lemma_find_is(s: Seq<char>, c: char, n: int)
    requires
        0 <= n <= s.len(),
        forall|i: int| 0 <= i < n ==> s[i] != c,
        n < s.len() ==> s[n] == c,
    ensures
        find(s, c) == n,
{
    lemma_find(s, c);
    let m = find(s, c) as int;
    if m < n {
        assert(s[m] == c);
    } else if n < m {
        assert(s[n] == c);
    }
}

/// The segments of `s` between the occurrences of `sep`, in order. A text
/// without `sep` is its own single segment; so is the empty text.
pub open spec fn segments(s: Seq<char>, sep: char) -> Seq<Seq<char>>
    decreases s.len(),
{
    let n = find(s, sep) as int;
    if n >= s.len() {
        seq![s]
    } else {
        seq![s.take(n)] + segments(s.skip(n + 1), sep)
    }
}

/// A text without the separator is one segment.
pub proof fn lemma_segments_whole(s: Seq<char>, sep: char)
    requires
        !s.contains(sep),
    ensures
        segments(s, sep) == seq![s],
{
    lemma_find(s, sep);
    if find(s, sep) < s.len() {
        assert(s.contains(s[find(s, sep) as int]));
    }
}

/// The first segment of a text is what stands before its first separator.
pub proof fn lemma_segments_first(s: Seq<char>, sep: char)
    ensures
        segments(s, sep).len() >= 1,
        segments(s, sep)[0] == s.take(find(s, sep) as int),
{
    lemma_find(s, sep);
    if find(s, sep) >= s.len() {
        assert(s.take(s.len() as int) =~= s);
    }
}

/// Putting a separator-free text and a separator before a text puts one
/// segment before its segments.
pub proof fn lemma_segments_cons(head: Seq<char>, sep: char, tail: Seq<char>)
    requires
        !head.contains(sep),
    ensures
        segments(head + seq![sep] + tail, sep) == seq![head] + segments(tail, sep),
{
    let s = head + seq![sep] + tail;
    let n = head.len() as int;
    assert forall|i: int| 0 <= i < n implies s[i] != sep by {
        assert(s[i] == head[i]);
        assert(head.contains(head[i]));
    }
    assert(s[n] == sep);
    lemma_find_is(s, sep, n);
    assert(s.take(n) =~= head);
    assert(s.skip(n + 1) =~= tail);
}

/// Every text has a segment, and no segment holds the separator.
pub proof fn law_segments_free(s: Seq<char>, sep: char)
    ensures
        segments(s, sep).len() >= 1,
        forall|k: int| 0 <= k < segments(s, sep).len() ==> !(#[trigger] segments(s, sep)[k]).contains(sep),
    decreases s.len(),
{
    lemma_find(s, sep);
    let n = find(s, sep) as int;
    if n >= s.len() {
        assert forall|i: int| 0 <= i < s.len() implies s[i] != sep by {}
    } else {
        let rest = segments(s.skip(n + 1), sep);
        law_segments_free(s.skip(n + 1), sep);
        assert forall|k: int| 0 <= k < segments(s, sep).len() implies !(#[trigger] segments(
            s,
            sep,
        )[k]).contains(sep) by {
            if k == 0 {
                assert(segments(s, sep)[0] == s.take(n));
                assert forall|i: int| 0 <= i < s.take(n).len() implies s.take(n)[i] != sep by {
                    assert(s.take(n)[i] == s[i]);
                }
            } else {
                assert(segments(s, sep)[k] == rest[k - 1]);
            }
        }
    }
}

/// The segments of two texts joined by a separator are the segments of the
/// first followed by the segments of the second.
pub proof fn lemma_segments_join(a: Seq<char>, sep: char, b: Seq<char>)
    ensures
        segments(a + seq![sep] + b, sep) == segments(a, sep) + segments(b, sep),
    decreases a.len(),
{
    lemma_find(a, sep);
    let n = find(a, sep) as int;
    let s = a + seq![sep] + b;
    if n >= a.len() {
        assert forall|i: int| 0 <= i < a.len() implies a[i] != sep by {}
        lemma_segments_cons(a, sep, b);
    } else {
        let head = a.take(n);
        let tail = a.skip(n + 1);
        assert forall|i: int| 0 <= i < n implies s[i] != sep by {
            assert(s[i] == a[i]);
        }
        assert(s[n] == a[n]);
        lemma_find_is(s, sep, n);
        assert(s.take(n) =~= head);
        assert(s.skip(n + 1) =~= tail + seq![sep] + b);
        lemma_segments_join(tail, sep, b);
        assert(segments(s, sep) =~= segments(a, sep) + segments(b, sep));
    }
}

// ---------------------------------------------------------------------------
// Finding a pattern
// ---------------------------------------------------------------------------

/// `pat` stands in `s` at position `at`.
pub open spec fn occurs_at(pat: Seq<char>, s: Seq<char>, at: int) -> bool {
    &&& 0 <= at
    &&& at + pat.len() <= s.len()
    &&& s.subrange(at, at + pat.len()) == pat
}

/// `pat` stands somewhere in `s`. The empty pattern stands in every text.
pub open spec fn occurs(pat: Seq<char>, s: Seq<char>) -> bool {
    exists|at: int| occurs_at(pat, s, at)
}

// ---------------------------------------------------------------------------
// Words
// ---------------------------------------------------------------------------

/// Whether `c` is white space: the characters with the Unicode property
/// `White_Space`.
pub open spec fn is_white(c: char) -> bool {
    ||| c == ' '
    ||| '\u{9}' <= c <= '\u{d}'
    ||| c == '\u{85}'
    ||| c == '\u{a0}'
    ||| c == '\u{1680}'
    ||| '\u{2000}' <= c <= '\u{200a}'
    ||| c == '\u{2028}'
    ||| c == '\u{2029}'
    ||| c == '\u{202f}'
    ||| c == '\u{205f}'
    ||| c == '\u{3000}'
}

/// The number of characters of `s` that stand before its first white space;
/// the length of `s` when it holds none.
pub open spec fn word_len(s: Seq<char>) -> nat
    decreases s.len(),
{
    if s.len() == 0 || is_white(s[0]) {
        0
    } else {
        1 + word_len(s.drop_first())
    }
}

/// `word_len(s)` is the least position that holds white space, or the length
/// of `s`.
pub proof fn lemma_word_len(s: Seq<char>)
    ensures
        word_len(s) <= s.len(),
        forall|i: int| 0 <= i < word_len(s) ==> !is_white(s[i]),
        word_len(s) < s.len() ==> is_white(s[word_len(s) as int]),
    decreases s.len(),
{
    if s.len() == 0 || is_white(s[0]) {
    } else {
        let t = s.drop_first();
        lemma_word_len(t);
        assert forall|i: int| 0 <= i < word_len(s) implies !is_white(s[i]) by {
            if i > 0 {
                assert(s[i] == t[i - 1]);
            }
        }
        if word_len(s) < s.len() {
            assert(s[word_len(s) as int] == t[word_len(t) as int]);
        }
    }
}

/// A position that holds the first white space of `s`, or the length of `s`
/// when there is none, is `word_len(s)`.
pub proof fn lemma_word_len_is(s: Seq<char>, n: int)
    requires
        0 <= n <= s.len(),
        forall|i: int| 0 <= i < n ==> !is_white(s[i]),
        n < s.len() ==> is_white(s[n]),
    ensures
        word_len(s) == n,
{
    lemma_word_len(s);
    let m = word_len(s) as int;
    if m < n {
        assert(is_white(s[m]));
    } else if n < m {
        assert(is_white(s[n]));
    }
}

/// The words of `s`: its maximal runs of characters that are not white
/// space, in order. White space separates words and belongs to none.
pub open spec fn words(s: Seq<char>) -> Seq<Seq<char>>
    decreases s.len(),
{
    if s.len() == 0 {
        Seq::empty()
    } else if is_white(s[0]) {
        words(s.drop_first())
    } else {
        let n = word_len(s) as int;
        proof {
            lemma_word_len(s);
        }
        seq![s.take(n)] + words(s.skip(n))
    }
}

// ---------------------------------------------------------------------------
// Deleting characters
// ---------------------------------------------------------------------------

/// `s` without the occurrences of `a` and of `b`.
pub open spec fn without(s: Seq<char>, a: char, b: char) -> Seq<char>
    decreases s.len(),
{
    if s.len() == 0 {
        Seq::empty()
    } else if s.last() == a || s.last() == b {
        without(s.drop_last(), a, b)
    } else {
        without(s.drop_last(), a, b).push(s.last())
    }
}

// ---------------------------------------------------------------------------
// Executable functions
// ---------------------------------------------------------------------------

/// The characters of `s`.
pub fn chars_of(s: &str) -> (cs: Vec<char>)
    ensures
        cs@ == s@,
{
    let mut cs: Vec<char> = Vec::new();
    for c in it: s.chars()
        invariant
            cs@ == it.seq().take(it.index() as int),
            it.seq() == s@,
    {
        cs.push(c);
    }
    cs
}

/// The part of `s` from character `from` up to character `to`, as a string of
/// its own.
pub fn part(s: &str, from: usize, to: usize) -> (r: String)
    requires
        from <= to <= s@.len(),
    ensures
        r@ == s@.subrange(from as int, to as int),
{
    s.substring_char(from, to).to_owned()
}

/// The position of the first `c` in `cs` at or after `from`; the length of
/// `cs` when there is none.
fn find_from(cs: &Vec<char>, from: usize, c: char) -> (at: usize)
    requires
        from <= cs.len(),
    ensures
        from <= at <= cs.len(),
        at == from + find(cs@.skip(from as int), c),
{
    let mut at: usize = from;
    while at < cs.len() && cs[at] != c
        invariant
            from <= at <= cs.len(),
            forall|i: int| from <= i < at ==> cs@[i] != c,
        decreases cs.len() - at,
    {
        at += 1;
    }
    proof {
        lemma_find_is(cs@.skip(from as int), c, at - from);
    }
    at
}

/// Whether `a` and `b` hold the same characters.
pub fn same(a: &str, b: &str) -> (r: bool)
    ensures
        r == (a@ == b@),
{
    let x = chars_of(a);
    let y = chars_of(b);
    if x.len() != y.len() {
        return false;
    }
    let mut at: usize = 0;
    while at < x.len()
        invariant
            x@ == a@,
            y@ == b@,
            x.len() == y.len(),
            at <= x.len(),
            forall|i: int| 0 <= i < at ==> x@[i] == y@[i],
        decreases x.len() - at,
    {
        if x[at] != y[at] {
            return false;
        }
        at += 1;
    }
    assert(x@ =~= y@);
    true
}

/// What stands in `s` before its first `c`; all of `s` when it holds none.
pub fn before<'a>(s: &'a str, c: char) -> (r: &'a str)
    ensures
        r@ == s@.take(find(s@, c) as int),
{
    let cs = chars_of(s);
    let to = find_from(&cs, 0, c);
    assert(cs@.skip(0) =~= cs@);
    s.substring_char(0, to)
}

/// Cuts `s` at every `sep`.
pub fn split(s: &str, sep: char) -> (parts: Vec<String>)
    ensures
        parts.deep_view() == segments(s@, sep),
{
    let cs = chars_of(s);
    let n = cs.len();
    let mut parts: Vec<String> = Vec::new();
    let mut from: usize = 0;
    let mut to: usize = find_from(&cs, 0, sep);
    assert(cs@.skip(0) =~= cs@);
    while to < n
        invariant
            cs@ == s@,
            n == cs.len(),
            from <= to <= n,
            to == from + find(cs@.skip(from as int), sep),
            segments(s@, sep) == parts.deep_view() + segments(cs@.skip(from as int), sep),
        decreases n - to,
    {
        let piece = part(s, from, to);
        proof {
            let rest = cs@.skip(from as int);
            let k = find(rest, sep) as int;
            assert(rest.take(k) =~= piece@);
            assert(rest.skip(k + 1) =~= cs@.skip(to + 1));
            assert(parts.deep_view().push(piece@) + segments(cs@.skip(to + 1), sep)
                =~= parts.deep_view() + segments(rest, sep));
        }
        let ghost before = parts.deep_view();
        parts.push(piece);
        assert(parts.deep_view() =~= before.push(piece@));
        from = to + 1;
        to = find_from(&cs, from, sep);
    }
    let piece = part(s, from, n);
    proof {
        assert(cs@.skip(from as int) =~= piece@);
    }
    let ghost before = parts.deep_view();
    parts.push(piece);
    assert(parts.deep_view() =~= before.push(piece@));
    parts
}

/// Whether `pat` stands in `cs` at position `at`.
fn matches_at(cs: &Vec<char>, pat: &Vec<char>, at: usize) -> (b: bool)
    requires
        at + pat.len() <= cs.len(),
    ensures
        b == occurs_at(pat@, cs@, at as int),
{
    let mut k: usize = 0;
    while k < pat.len()
        invariant
            k <= pat.len(),
            at + pat.len() <= cs.len(),
            forall|i: int| 0 <= i < k ==> cs@[at + i] == pat@[i],
        decreases pat.len() - k,
    {
        if cs[at + k] != pat[k] {
            proof {
                let w = cs@.subrange(at as int, at + pat.len());
                assert(w[k as int] != pat@[k as int]);
            }
            return false;
        }
        k += 1;
    }
    assert(cs@.subrange(at as int, at + pat.len()) =~= pat@);
    true
}

/// Whether `pat` stands somewhere in `s`.
pub fn contains(s: &str, pat: &str) -> (b: bool)
    ensures
        b == occurs(pat@, s@),
{
    let cs = chars_of(s);
    let ps = chars_of(pat);
    if ps.len() > cs.len() {
        return false;
    }
    let last: usize = cs.len() - ps.len();
    let mut at: usize = 0;
    while at < last
        invariant
            cs@ == s@,
            ps@ == pat@,
            last == cs.len() - ps.len(),
            at <= last,
            forall|i: int| 0 <= i < at ==> !occurs_at(pat@, s@, i),
        decreases last - at,
    {
        if matches_at(&cs, &ps, at) {
            return true;
        }
        at += 1;
    }
    matches_at(&cs, &ps, last)
}

/// Whether `c` is white space.
pub fn is_whitespace(c: char) -> (b: bool)
    ensures
        b == is_white(c),
{
    c == ' ' || ('\u{9}' <= c && c <= '\u{d}') || c == '\u{85}' || c == '\u{a0}' || c == '\u{1680}'
        || ('\u{2000}' <= c && c <= '\u{200a}') || c == '\u{2028}' || c == '\u{2029}' || c
        == '\u{202f}' || c == '\u{205f}' || c == '\u{3000}'
}

/// The position of the first white space in `cs` at or after `from`; the
/// length of `cs` when there is none.
fn word_end(cs: &Vec<char>, from: usize) -> (at: usize)
    requires
        from <= cs.len(),
    ensures
        from <= at <= cs.len(),
        at == from + word_len(cs@.skip(from as int)),
{
    let mut at: usize = from;
    while at < cs.len() && !is_whitespace(cs[at])
        invariant
            from <= at <= cs.len(),
            forall|i: int| from <= i < at ==> !is_white(cs@[i]),
        decreases cs.len() - at,
    {
        at += 1;
    }
    proof {
        lemma_word_len_is(cs@.skip(from as int), at - from);
    }
    at
}

/// Takes `s` apart into its words.
pub fn split_words(s: &str) -> (found: Vec<String>)
    ensures
        found.deep_view() == words(s@),
{
    let cs = chars_of(s);
    let n = cs.len();
    let mut found: Vec<String> = Vec::new();
    let mut at: usize = 0;
    assert(cs@.skip(0) =~= cs@);
    while at < n
        invariant
            cs@ == s@,
            n == cs.len(),
            at <= n,
            words(s@) == found.deep_view() + words(cs@.skip(at as int)),
        decreases n - at,
    {
        let ghost rest = cs@.skip(at as int);
        if is_whitespace(cs[at]) {
            assert(rest.drop_first() =~= cs@.skip(at + 1));
            at += 1;
        } else {
            let end = word_end(&cs, at);
            let word = part(s, at, end);
            proof {
                let k = word_len(rest) as int;
                assert(rest.take(k) =~= word@);
                assert(rest.skip(k) =~= cs@.skip(end as int));
                assert(found.deep_view().push(word@) + words(cs@.skip(end as int))
                    =~= found.deep_view() + words(rest));
            }
            let ghost before = found.deep_view();
            found.push(word);
            assert(found.deep_view() =~= before.push(word@));
            at = end;
        }
    }
    assert(found.deep_view() + words(cs@.skip(at as int)) =~= found.deep_view());
    found
}

/// Deletes every `a` and every `b` from `s`.
pub fn strip(s: &str, a: char, b: char) -> (r: String)
    ensures
        r@ == without(s@, a, b),
{
    let cs = chars_of(s);
    let n = cs.len();
    let mut r = String::new();
    let mut at: usize = 0;
    assert(s@.take(0) =~= Seq::<char>::empty());
    while at < n
        invariant
            cs@ == s@,
            n == cs.len(),
            at <= n,
            r@ == without(s@.take(at as int), a, b),
        decreases n - at,
    {
        proof {
            assert(s@.take(at + 1).drop_last() =~= s@.take(at as int));
        }
        if cs[at] != a && cs[at] != b {
            let one = part(s, at, at + 1);
            assert(one@ =~= seq![s@[at as int]]);
            r = r.concat(one.as_str());
            assert(r@ =~= without(s@.take(at as int), a, b).push(s@[at as int]));
        }
        at += 1;
    }
    assert(s@.take(n as int) =~= s@);
    r
}

} // verus!
