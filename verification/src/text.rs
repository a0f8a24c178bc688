//! Text on sequences of `char`: whitespace, trimming, prefixes, search and
//! decimal numbers. Strings are read into `Vec<char>` once and written back
//! once, so every scan here is linear in the text.

use vstd::prelude::*;
use vstd::utf8::encode_utf8;

verus! {

/// The characters with the Unicode `White_Space` property, the set that
/// `char::is_whitespace` and `str::split_whitespace` use.
pub open spec fn is_ws(c: char) -> bool {
    ||| ('\u{9}' <= c && c <= '\u{d}')
    ||| c == ' '
    ||| c == '\u{85}'
    ||| c == '\u{a0}'
    ||| c == '\u{1680}'
    ||| ('\u{2000}' <= c && c <= '\u{200a}')
    ||| c == '\u{2028}'
    ||| c == '\u{2029}'
    ||| c == '\u{202f}'
    ||| c == '\u{205f}'
    ||| c == '\u{3000}'
}

pub fn is_whitespace(c: char) -> (b: bool)
    ensures
        b == is_ws(c),
{
    ('\u{9}' <= c && c <= '\u{d}') || c == ' ' || c == '\u{85}' || c == '\u{a0}' || c
        == '\u{1680}' || ('\u{2000}' <= c && c <= '\u{200a}') || c == '\u{2028}' || c
        == '\u{2029}' || c == '\u{202f}' || c == '\u{205f}' || c == '\u{3000}'
}

/// The characters of `s`, in order.
#[verifier::external_body]
pub(crate) fn chars_of(s: &str) -> (v: Vec<char>)
    ensures
        v@ == s@,
{
    s.chars().collect()
}

/// The string made of the characters of `v`, in order.
#[verifier::external_body]
pub(crate) fn string_of(v: &[char]) -> (s: String)
    ensures
        s@ == v@,
{
    v.iter().collect()
}


/// Appends the characters of `s` to `out`.
pub fn push_all(out: &mut Vec<char>, s: &[char])
    ensures
        final(out)@ == old(out)@ + s@,
{
    let mut i: usize = 0;
    while i < s.len()
        invariant
            i <= s.len(),
            out@ == old(out)@ + s@.take(i as int),
        decreases s.len() - i,
    {
        out.push(s[i]);
        i += 1;
        assert(s@.take(i as int) == s@.take(i - 1).push(s@[i - 1]));
    }
    assert(s@.take(s.len() as int) == s@);
}

/// A copy of `s[from..to]`.
pub fn copy_range(s: &[char], from: usize, to: usize) -> (r: Vec<char>)
    requires
        from <= to <= s.len(),
    ensures
        r@ == s@.subrange(from as int, to as int),
{
    let mut r: Vec<char> = Vec::new();
    push_all(&mut r, &s[from..to]);
    r
}

/// Whether `a` and `b` hold the same characters.
pub fn same(a: &[char], b: &[char]) -> (r: bool)
    ensures
        r == (a@ == b@),
{
    if a.len() != b.len() {
        return false;
    }
    let mut i: usize = 0;
    while i < a.len()
        invariant
            a.len() == b.len(),
            i <= a.len(),
            forall|j: int| 0 <= j < i ==> a@[j] == b@[j],
        decreases a.len() - i,
    {
        if a[i] != b[i] {
            return false;
        }
        i += 1;
    }
    assert(a@ == b@);
    true
}

/// Whether the strings `a` and `b` are equal.
pub fn eq_str(a: &str, b: &str) -> (r: bool)
    ensures
        r == (a@ == b@),
{
    same(&chars_of(a), &chars_of(b))
}

// ---------------------------------------------------------------------------
// Words

/// The words of `s` as `str::split_whitespace` yields them: the maximal runs
/// of characters that are not whitespace, in order.
pub open spec fn words(s: Seq<char>) -> Seq<Seq<char>>
    decreases s.len(),
{
    if s.len() == 0 {
        seq![]
    } else {
        let w = words(s.drop_last());
        let c = s.last();
        if is_ws(c) {
            w
        } else if s.len() >= 2 && !is_ws(s[s.len() - 2]) {
            w.update(w.len() - 1, w.last().push(c))
        } else {
            w.push(seq![c])
        }
    }
}

/// The pieces of `parts` with `sep` between each two of them.
pub open spec fn join(parts: Seq<Seq<char>>, sep: Seq<char>) -> Seq<char>
    decreases parts.len(),
{
    if parts.len() == 0 {
        seq![]
    } else if parts.len() == 1 {
        parts[0]
    } else {
        join(parts.drop_last(), sep) + sep + parts.last()
    }
}

/// The words of `s` joined by single spaces.
pub open spec fn collapse_ws(s: Seq<char>) -> Seq<char> {
    join(words(s), seq![' '])
}

pub proof fn lemma_words_nonempty(s: Seq<char>)
    requires
        s.len() > 0,
        !is_ws(s.last()),
    ensures
        words(s).len() > 0,
    decreases s.len(),
{
    if s.len() >= 2 && !is_ws(s[s.len() - 2]) {
        lemma_words_nonempty(s.drop_last());
    }
}

pub proof fn lemma_join_push(parts: Seq<Seq<char>>, sep: Seq<char>, x: Seq<char>)
    ensures
        join(parts.push(x), sep) == if parts.len() == 0 {
            x
        } else {
            join(parts, sep) + sep + x
        },
{
    assert(parts.push(x).drop_last() == parts);
}

pub proof fn lemma_join_extend_last(parts: Seq<Seq<char>>, sep: Seq<char>, c: char)
    requires
        parts.len() > 0,
    ensures
        join(parts.update(parts.len() - 1, parts.last().push(c)), sep) == join(parts, sep).push(c),
{
    let q = parts.update(parts.len() - 1, parts.last().push(c));
    if parts.len() > 1 {
        assert(q.drop_last() == parts.drop_last());
    }
}

/// Text as `collapse_ws` leaves it: its only whitespace is single spaces,
/// with none at either end.
pub open spec fn tidy(r: Seq<char>) -> bool {
    &&& forall|i: int| 0 <= i < r.len() && is_ws(#[trigger] r[i]) ==> r[i] == ' '
    &&& r.len() > 0 ==> !is_ws(r[0]) && !is_ws(r.last())
    &&& forall|i: int| 0 <= i < r.len() - 1 ==> !(is_ws(#[trigger] r[i]) && is_ws(r[i + 1]))
}

/// Each word is a non-empty run of characters that are not whitespace.
pub open spec fn solid(w: Seq<char>) -> bool {
    w.len() > 0 && forall|j: int| 0 <= j < w.len() ==> !is_ws(#[trigger] w[j])
}

proof fn lemma_words_shape(s: Seq<char>)
    ensures
        forall|k: int| 0 <= k < words(s).len() ==> solid(#[trigger] words(s)[k]),
        words(s).len() == 0 <==> forall|i: int| 0 <= i < s.len() ==> is_ws(#[trigger] s[i]),
    decreases s.len(),
{
    if s.len() > 0 {
        let t = s.drop_last();
        let c = s.last();
        lemma_words_shape(t);
        let w = words(t);
        assert forall|i: int| 0 <= i < t.len() implies t[i] == s[i] by {}
        if is_ws(c) {
            if forall|i: int| 0 <= i < t.len() ==> is_ws(#[trigger] t[i]) {
                assert forall|i: int| 0 <= i < s.len() implies is_ws(#[trigger] s[i]) by {
                    if i < t.len() {
                        assert(t[i] == s[i]);
                    }
                }
            }
        } else {
            assert(!is_ws(s[s.len() - 1]));
            if s.len() >= 2 && !is_ws(s[s.len() - 2]) {
                lemma_words_nonempty(t);
                let u = w.update(w.len() - 1, w.last().push(c));
                assert forall|k: int| 0 <= k < u.len() implies solid(#[trigger] u[k]) by {
                    if k == w.len() - 1 {
                        let x = w.last().push(c);
                        assert(solid(w[k]));
                        assert forall|j: int| 0 <= j < x.len() implies !is_ws(#[trigger] x[j]) by {
                            if j < w.last().len() {
                                assert(x[j] == w[k][j]);
                            }
                        }
                    }
                }
            } else {
                let u = w.push(seq![c]);
                assert forall|k: int| 0 <= k < u.len() implies solid(#[trigger] u[k]) by {
                    if k < w.len() {
                        assert(u[k] == w[k]);
                    }
                }
            }
        }
    }
}

proof fn lemma_join_tidy(parts: Seq<Seq<char>>)
    requires
        forall|k: int| 0 <= k < parts.len() ==> solid(#[trigger] parts[k]),
    ensures
        tidy(join(parts, seq![' '])),
        join(parts, seq![' ']).len() == 0 <==> parts.len() == 0,
    decreases parts.len(),
{
    if parts.len() == 1 {
        assert(solid(parts[0]));
    } else if parts.len() >= 2 {
        let d = parts.drop_last();
        assert forall|k: int| 0 <= k < d.len() implies solid(#[trigger] d[k]) by {
            assert(d[k] == parts[k]);
        }
        lemma_join_tidy(d);
        let j = join(d, seq![' ']);
        let w = parts.last();
        assert(solid(parts[parts.len() - 1]));
        let r = join(parts, seq![' ']);
        assert(r == j + seq![' '] + w);
        let n = j.len();
        assert forall|i: int| 0 <= i < r.len() && is_ws(#[trigger] r[i]) implies r[i] == ' ' by {
            if i < n {
                assert(r[i] == j[i]);
            } else if i > n {
                assert(r[i] == w[i - n - 1]);
            }
        }
        assert(r[0] == j[0]);
        assert(r.last() == w.last());
        assert(!is_ws(w[w.len() - 1]));
        assert forall|i: int| 0 <= i < r.len() - 1 implies !(is_ws(#[trigger] r[i]) && is_ws(
            r[i + 1],
        )) by {
            if i + 1 < n {
                assert(r[i] == j[i] && r[i + 1] == j[i + 1]);
            } else if i + 1 == n {
                assert(r[i] == j[n - 1]);
            } else if i == n {
                assert(r[i + 1] == w[0]);
            } else {
                assert(r[i] == w[i - n - 1]);
            }
        }
    }
}

/// Text with no whitespace but single spaces and none at its start.
pub open spec fn spaced(s: Seq<char>) -> bool {
    &&& forall|i: int| 0 <= i < s.len() && is_ws(#[trigger] s[i]) ==> s[i] == ' '
    &&& s.len() > 0 ==> !is_ws(s[0])
    &&& forall|i: int| 0 <= i < s.len() - 1 ==> !(is_ws(#[trigger] s[i]) && is_ws(s[i + 1]))
}

proof fn lemma_collapse_spaced(s: Seq<char>)
    requires
        spaced(s),
    ensures
        join(words(s), seq![' ']) == if s.len() > 0 && is_ws(s.last()) {
            s.drop_last()
        } else {
            s
        },
    decreases s.len(),
{
    if s.len() > 0 {
        let t = s.drop_last();
        let c = s.last();
        assert forall|i: int| 0 <= i < t.len() implies t[i] == s[i] by {}
        assert(spaced(t)) by {
            assert forall|i: int| 0 <= i < t.len() - 1 implies !(is_ws(#[trigger] t[i]) && is_ws(
                t[i + 1],
            )) by {
                assert(t[i] == s[i] && t[i + 1] == s[i + 1]);
            }
            assert forall|i: int| 0 <= i < t.len() && is_ws(#[trigger] t[i]) implies t[i] == ' ' by {
                assert(t[i] == s[i]);
            }
        }
        lemma_collapse_spaced(t);
        if is_ws(c) {
            if t.len() > 0 {
                assert(!is_ws(t.last())) by {
                    assert(t.last() == s[s.len() - 2]);
                    assert(s[s.len() - 1] == c);
                }
            }
        } else if s.len() >= 2 && !is_ws(s[s.len() - 2]) {
            assert(t.last() == s[s.len() - 2]);
            lemma_words_nonempty(t);
            lemma_join_extend_last(words(t), seq![' '], c);
            assert(t.push(c) == s);
        } else if s.len() == 1 {
            assert(words(t).len() == 0);
            assert(join(words(s), seq![' ']) == seq![c]);
            assert(seq![c] == s);
        } else {
            let u = t.drop_last();
            assert(is_ws(t.last())) by {
                assert(t.last() == s[s.len() - 2]);
            }
            assert(t.last() == ' ') by {
                assert(s[s.len() - 2] == ' ');
            }
            assert(u.len() > 0) by {
                assert(!is_ws(s[0]));
            }
            assert(u.last() == s[s.len() - 3]);
            assert(!is_ws(u.last())) by {
                assert(!(is_ws(s[s.len() - 3]) && is_ws(s[s.len() - 2])));
            }
            assert(words(t) == words(u));
            lemma_words_nonempty(u);
            lemma_join_push(words(t), seq![' '], seq![c]);
            assert(u + seq![' '] + seq![c] == s);
        }
    }
}

/// Collapsing whitespace leaves single spaces between words and none at
/// either end, gives nothing exactly for text that is all whitespace, and
/// changes nothing the second time.
pub proof fn law_collapse_ws(s: Seq<char>)
    ensures
        tidy(collapse_ws(s)),
        collapse_ws(s).len() == 0 <==> forall|i: int| 0 <= i < s.len() ==> is_ws(#[trigger] s[i]),
        collapse_ws(collapse_ws(s)) == collapse_ws(s),
{
    lemma_words_shape(s);
    lemma_join_tidy(words(s));
    let r = collapse_ws(s);
    assert(spaced(r));
    lemma_collapse_spaced(r);
}

/// `s` with runs of whitespace collapsed to one space and none at either
/// end.
pub fn collapse_whitespace(s: &[char]) -> (r: Vec<char>)
    ensures
        r@ == collapse_ws(s@),
{
    let mut out: Vec<char> = Vec::new();
    let mut i: usize = 0;
    while i < s.len()
        invariant
            i <= s.len(),
            out@ == join(words(s@.take(i as int)), seq![' ']),
            (out@.len() == 0) == (words(s@.take(i as int)).len() == 0),
        decreases s.len() - i,
    {
        let c = s[i];
        let ghost pre = s@.take(i as int);
        let ghost cur = s@.take(i + 1);
        assert(cur.drop_last() == pre);
        assert(cur.last() == c);
        if !is_whitespace(c) {
            if i > 0 && !is_whitespace(s[i - 1]) {
                proof {
                    assert(cur[cur.len() - 2] == s@[i - 1]);
                    assert(pre.last() == s@[i - 1]);
                    lemma_words_nonempty(pre);
                    lemma_join_extend_last(words(pre), seq![' '], c);
                }
                out.push(c);
            } else {
                proof {
                    if i > 0 {
                        assert(cur[cur.len() - 2] == s@[i - 1]);
                    }
                    lemma_join_push(words(pre), seq![' '], seq![c]);
                }
                if out.len() > 0 {
                    out.push(' ');
                }
                out.push(c);
            }
        }
        i += 1;
    }
    assert(s@.take(s.len() as int) == s@);
    out
}

// ---------------------------------------------------------------------------
// Prefixes, suffixes, search

pub open spec fn has_prefix(s: Seq<char>, p: Seq<char>) -> bool {
    p.len() <= s.len() && s.take(p.len() as int) == p
}

pub open spec fn has_suffix(s: Seq<char>, p: Seq<char>) -> bool {
    p.len() <= s.len() && s.skip(s.len() - p.len()) == p
}

/// `p` occurs in `s` starting at index `i`.
pub open spec fn occurs_at(s: Seq<char>, p: Seq<char>, i: int) -> bool {
    0 <= i && i + p.len() <= s.len() && s.subrange(i, i + p.len()) == p
}

pub open spec fn has_infix(s: Seq<char>, p: Seq<char>) -> bool {
    exists|i: int| #[trigger] occurs_at(s, p, i)
}

/// The index of the first occurrence of `p` in `s`, as `str::find` gives it.
pub open spec fn first_occurrence(s: Seq<char>, p: Seq<char>) -> Option<int>
    decreases s.len(),
{
    if s.len() < p.len() {
        None
    } else if s.take(p.len() as int) == p {
        Some(0)
    } else if s.len() == 0 {
        None
    } else {
        match first_occurrence(s.drop_first(), p) {
            Some(i) => Some(i + 1),
            None => None,
        }
    }
}

pub fn starts_with(s: &[char], p: &[char]) -> (b: bool)
    ensures
        b == has_prefix(s@, p@),
{
    if p.len() > s.len() {
        return false;
    }
    let mut i: usize = 0;
    while i < p.len()
        invariant
            p.len() <= s.len(),
            i <= p.len(),
            forall|j: int| 0 <= j < i ==> s@[j] == p@[j],
        decreases p.len() - i,
    {
        if s[i] != p[i] {
            assert(s@.take(p.len() as int)[i as int] != p@[i as int]);
            return false;
        }
        i += 1;
    }
    assert(s@.take(p.len() as int) == p@);
    true
}

pub fn ends_with(s: &[char], p: &[char]) -> (b: bool)
    ensures
        b == has_suffix(s@, p@),
{
    if p.len() > s.len() {
        return false;
    }
    let off = s.len() - p.len();
    let mut i: usize = 0;
    while i < p.len()
        invariant
            off + p.len() == s.len(),
            i <= p.len(),
            forall|j: int| 0 <= j < i ==> s@[off + j] == p@[j],
        decreases p.len() - i,
    {
        if s[off + i] != p[i] {
            assert(s@.skip(off as int)[i as int] != p@[i as int]);
            return false;
        }
        i += 1;
    }
    assert(s@.skip(off as int) == p@);
    true
}

/// Whether `p` occurs in `s` at index `at`.
pub fn matches_at(s: &[char], p: &[char], at: usize) -> (b: bool)
    ensures
        b == occurs_at(s@, p@, at as int),
{
    if at > s.len() || p.len() > s.len() - at {
        return false;
    }
    let mut i: usize = 0;
    while i < p.len()
        invariant
            at + p.len() <= s.len(),
            i <= p.len(),
            forall|j: int| 0 <= j < i ==> s@[at + j] == p@[j],
        decreases p.len() - i,
    {
        if s[at + i] != p[i] {
            assert(s@.subrange(at as int, at + p.len())[i as int] != p@[i as int]);
            return false;
        }
        i += 1;
    }
    assert(s@.subrange(at as int, at + p.len()) == p@);
    true
}

pub proof fn lemma_first_occurrence(s: Seq<char>, p: Seq<char>)
    ensures
        match first_occurrence(s, p) {
            Some(i) => occurs_at(s, p, i) && forall|j: int| 0 <= j < i ==> !occurs_at(s, p, j),
            None => forall|j: int| !occurs_at(s, p, j),
        },
    decreases s.len(),
{
    if s.len() < p.len() {
    } else if s.take(p.len() as int) == p {
        assert(s.subrange(0, p.len() as int) == s.take(p.len() as int));
    } else if s.len() == 0 {
        assert(p.len() == 0);
        assert(s.take(0) == p);
    } else {
        lemma_first_occurrence(s.drop_first(), p);
        let t = s.drop_first();
        assert forall|j: int| #[trigger] occurs_at(s, p, j) <==> (j == 0 && occurs_at(s, p, 0)) || (j >= 1
            && occurs_at(t, p, j - 1)) by {
            if j >= 1 && j + p.len() <= s.len() {
                assert(s.subrange(j, j + p.len()) == t.subrange(j - 1, j - 1 + p.len()));
            }
        }
        assert(!occurs_at(s, p, 0)) by {
            assert(s.subrange(0, p.len() as int) == s.take(p.len() as int));
        }
    }
}

/// The first index at or after `from` where `p` occurs in `s`.
pub fn find_from(s: &[char], p: &[char], from: usize) -> (r: Option<usize>)
    requires
        from <= s.len(),
    ensures
        match r {
            Some(i) => from <= i && occurs_at(s@, p@, i as int) && forall|j: int|
                from <= j < i ==> !occurs_at(s@, p@, j),
            None => forall|j: int| from <= j ==> !occurs_at(s@, p@, j),
        },
{
    let mut i = from;
    while i < s.len()
        invariant
            from <= i <= s.len(),
            forall|j: int| from <= j < i ==> !occurs_at(s@, p@, j),
        decreases s.len() - i,
    {
        if matches_at(s, p, i) {
            return Some(i);
        }
        i += 1;
    }
    if matches_at(s, p, i) {
        return Some(i);
    }
    None
}

/// The index of the first occurrence of `p` in `s`.
pub fn find(s: &[char], p: &[char]) -> (r: Option<usize>)
    ensures
        r matches Some(i) ==> first_occurrence(s@, p@) == Some(i as int),
        r is None ==> first_occurrence(s@, p@) is None,
{
    proof {
        lemma_first_occurrence(s@, p@);
    }
    find_from(s, p, 0)
}

pub fn contains(s: &[char], p: &[char]) -> (b: bool)
    ensures
        b == has_infix(s@, p@),
{
    let r = find_from(s, p, 0);
    match r {
        Some(i) => true,
        None => {
            assert forall|j: int| !occurs_at(s@, p@, j) by {}
            false
        },
    }
}


// ---------------------------------------------------------------------------
// Trimming

/// The sets of characters that the trimming functions strip.
#[derive(Debug)]
pub enum CharClass {
    /// Unicode whitespace.
    Space,
    /// One character.
    Only(char),
    /// '.' and ' '.
    DotOrSpace,
}

pub open spec fn in_class(k: CharClass, c: char) -> bool {
    match k {
        CharClass::Space => is_ws(c),
        CharClass::Only(x) => c == x,
        CharClass::DotOrSpace => c == '.' || c == ' ',
    }
}

pub fn is_in(k: &CharClass, c: char) -> (b: bool)
    ensures
        b == in_class(*k, c),
{
    match k {
        CharClass::Space => is_whitespace(c),
        CharClass::Only(x) => c == *x,
        CharClass::DotOrSpace => c == '.' || c == ' ',
    }
}

/// `s` without the characters of `k` at its start.
pub open spec fn strip_start(s: Seq<char>, k: CharClass) -> Seq<char>
    decreases s.len(),
{
    if s.len() > 0 && in_class(k, s[0]) {
        strip_start(s.drop_first(), k)
    } else {
        s
    }
}

/// `s` without the characters of `k` at its end.
pub open spec fn strip_end(s: Seq<char>, k: CharClass) -> Seq<char>
    decreases s.len(),
{
    if s.len() > 0 && in_class(k, s.last()) {
        strip_end(s.drop_last(), k)
    } else {
        s
    }
}

/// `s` without the characters of `k` at either end.
pub open spec fn strip_both(s: Seq<char>, k: CharClass) -> Seq<char> {
    strip_end(strip_start(s, k), k)
}

/// `s` without whitespace at either end, as `str::trim` gives it.
pub open spec fn trim_ws(s: Seq<char>) -> Seq<char> {
    strip_both(s, CharClass::Space)
}

/// Where `strip_start` cuts: `s` from the first character not in `k`.
pub proof fn lemma_strip_start_at(s: Seq<char>, k: CharClass) -> (i: int)
    ensures
        0 <= i <= s.len(),
        strip_start(s, k) == s.skip(i),
        i < s.len() ==> !in_class(k, s[i]),
    decreases s.len(),
{
    if s.len() > 0 && in_class(k, s[0]) {
        let t = s.drop_first();
        let j = lemma_strip_start_at(t, k);
        assert(t.skip(j) == s.skip(j + 1));
        if j + 1 < s.len() {
            assert(t[j] == s[j + 1]);
        }
        j + 1
    } else {
        assert(s.skip(0) == s);
        0
    }
}

/// Where `strip_end` cuts: `s` up to after the last character not in `k`.
pub proof fn lemma_strip_end_at(s: Seq<char>, k: CharClass) -> (j: int)
    ensures
        0 <= j <= s.len(),
        strip_end(s, k) == s.take(j),
        j > 0 ==> !in_class(k, s[j - 1]),
    decreases s.len(),
{
    if s.len() > 0 && in_class(k, s.last()) {
        let t = s.drop_last();
        let j = lemma_strip_end_at(t, k);
        assert(t.take(j) == s.take(j));
        if j > 0 {
            assert(t[j - 1] == s[j - 1]);
        }
        j
    } else {
        assert(s.take(s.len() as int) == s);
        s.len() as int
    }
}

proof fn lemma_strip_start_skip(s: Seq<char>, k: CharClass, i: int)
    requires
        0 <= i <= s.len(),
        forall|j: int| 0 <= j < i ==> in_class(k, #[trigger] s[j]),
    ensures
        strip_start(s, k) == strip_start(s.skip(i), k),
    decreases i,
{
    if i == 0 {
        assert(s.skip(0) == s);
    } else {
        assert(in_class(k, s[0]));
        let t = s.drop_first();
        assert forall|j: int| 0 <= j < i - 1 implies in_class(k, #[trigger] t[j]) by {
            assert(t[j] == s[j + 1]);
        }
        lemma_strip_start_skip(t, k, i - 1);
        assert(t.skip(i - 1) == s.skip(i));
    }
}

proof fn lemma_strip_end_take(s: Seq<char>, k: CharClass, i: int)
    requires
        0 <= i <= s.len(),
        forall|j: int| i <= j < s.len() ==> in_class(k, #[trigger] s[j]),
    ensures
        strip_end(s, k) == strip_end(s.take(i), k),
    decreases s.len() - i,
{
    if i == s.len() {
        assert(s.take(i) == s);
    } else {
        assert(in_class(k, s.last()));
        let t = s.drop_last();
        lemma_strip_end_take(t, k, i);
        assert(t.take(i) == s.take(i));
    }
}

/// The index of the first character of `s` outside `k`, or `s.len()`.
fn leading_in(s: &[char], k: &CharClass) -> (i: usize)
    ensures
        i <= s.len(),
        strip_start(s@, *k) == s@.skip(i as int),
{
    let mut i: usize = 0;
    while i < s.len() && is_in(k, s[i])
        invariant
            i <= s.len(),
            forall|j: int| 0 <= j < i ==> in_class(*k, #[trigger] s@[j]),
        decreases s.len() - i,
    {
        i += 1;
    }
    proof {
        lemma_strip_start_skip(s@, *k, i as int);
    }
    i
}

/// The length of `s[from..]` without the characters of `k` at its end.
fn trailing_in(s: &[char], from: usize, k: &CharClass) -> (e: usize)
    requires
        from <= s.len(),
    ensures
        from <= e <= s.len(),
        strip_end(s@.skip(from as int), *k) == s@.subrange(from as int, e as int),
{
    let mut e: usize = s.len();
    let ghost t = s@.skip(from as int);
    while e > from && is_in(k, s[e - 1])
        invariant
            from <= e <= s.len(),
            t == s@.skip(from as int),
            forall|j: int| e - from <= j < t.len() ==> in_class(*k, #[trigger] t[j]),
        decreases e,
    {
        assert(t[e - 1 - from] == s@[e - 1]);
        e -= 1;
    }
    proof {
        lemma_strip_end_take(t, *k, e - from);
        assert(t.take(e - from) == s@.subrange(from as int, e as int));
    }
    e
}

pub fn trim_start(s: &[char], k: &CharClass) -> (r: Vec<char>)
    ensures
        r@ == strip_start(s@, *k),
{
    let i = leading_in(s, k);
    copy_range(s, i, s.len())
}

pub fn trim_end(s: &[char], k: &CharClass) -> (r: Vec<char>)
    ensures
        r@ == strip_end(s@, *k),
{
    let e = trailing_in(s, 0, k);
    assert(s@.skip(0) == s@);
    copy_range(s, 0, e)
}

pub fn trim(s: &[char], k: &CharClass) -> (r: Vec<char>)
    ensures
        r@ == strip_both(s@, *k),
{
    let i = leading_in(s, k);
    let e = trailing_in(s, i, k);
    copy_range(s, i, e)
}

/// `s` with `p` taken off its start as often as it is there, as
/// `str::trim_start_matches` with a string pattern does.
pub open spec fn strip_prefix_repeated(s: Seq<char>, p: Seq<char>) -> Seq<char>
    decreases s.len(),
{
    if p.len() > 0 && has_prefix(s, p) {
        strip_prefix_repeated(s.skip(p.len() as int), p)
    } else {
        s
    }
}

pub fn trim_start_matches(s: &[char], p: &[char]) -> (r: Vec<char>)
    ensures
        r@ == strip_prefix_repeated(s@, p@),
{
    let mut i: usize = 0;
    if p.len() == 0 {
        return copy_range(s, 0, s.len());
    }
    assert(s@.skip(0) == s@);
    while i <= s.len() && p.len() <= s.len() - i && matches_at(s, p, i)
        invariant
            i <= s.len(),
            p.len() > 0,
            strip_prefix_repeated(s@, p@) == strip_prefix_repeated(s@.skip(i as int), p@),
        decreases s.len() - i,
    {
        let ghost t = s@.skip(i as int);
        assert(t.take(p.len() as int) == s@.subrange(i as int, i + p.len()));
        assert(t.skip(p.len() as int) == s@.skip(i + p.len()));
        i += p.len();
    }
    proof {
        let t = s@.skip(i as int);
        if has_prefix(t, p@) {
            assert(t.take(p.len() as int) == s@.subrange(i as int, i + p.len()));
        }
    }
    copy_range(s, i, s.len())
}

// ---------------------------------------------------------------------------
// Replacing

/// `s` with every occurrence of `from`, left to right and not overlapping,
/// replaced by `to`, as `str::replace` does.
pub open spec fn replace_all(s: Seq<char>, from: Seq<char>, to: Seq<char>) -> Seq<char>
    decreases s.len(),
{
    if from.len() == 0 {
        s
    } else {
        match first_occurrence(s, from) {
            None => s,
            Some(i) => {
                proof {
                    lemma_first_occurrence(s, from);
                }
                s.take(i) + to + replace_all(s.skip(i + from.len()), from, to)
            },
        }
    }
}

pub fn replace(s: &[char], from: &[char], to: &[char]) -> (r: Vec<char>)
    requires
        from.len() > 0,
    ensures
        r@ == replace_all(s@, from@, to@),
{
    let mut out: Vec<char> = Vec::new();
    let mut i: usize = 0;
    assert(s@.skip(0) == s@);
    loop
        invariant
            i <= s.len(),
            from.len() > 0,
            replace_all(s@, from@, to@) == out@ + replace_all(s@.skip(i as int), from@, to@),
        decreases s.len() - i,
    {
        let ghost t = s@.skip(i as int);
        proof {
            lemma_first_occurrence(t, from@);
        }
        match find_from(s, from, i) {
            None => {
                proof {
                    assert forall|j: int| !occurs_at(t, from@, j) by {
                        if 0 <= j && j + from.len() <= t.len() {
                            assert(t.subrange(j, j + from.len()) == s@.subrange(i + j, i + j
                                + from.len()));
                            assert(!occurs_at(s@, from@, i + j));
                        }
                    }
                }
                let rest = copy_range(s, i, s.len());
                push_all(&mut out, &rest);
                return out;
            },
            Some(k) => {
                proof {
                    let d = k - i;
                    assert(t.subrange(d, d + from.len()) == s@.subrange(k as int, k + from.len()));
                    assert forall|j: int| 0 <= j < d implies !occurs_at(t, from@, j) by {
                        if j + from.len() <= t.len() {
                            assert(t.subrange(j, j + from.len()) == s@.subrange(i + j, i + j
                                + from.len()));
                            assert(!occurs_at(s@, from@, i + j));
                        }
                    }
                    assert(occurs_at(t, from@, d));
                    match first_occurrence(t, from@) {
                        Some(f) => {
                            if f < d {
                                assert(!occurs_at(t, from@, f));
                            } else if f > d {
                                assert(!occurs_at(t, from@, d));
                            }
                        },
                        None => {
                            assert(!occurs_at(t, from@, d));
                        },
                    }
                    assert(first_occurrence(t, from@) == Some(d));
                    assert(t.take(d) == s@.subrange(i as int, k as int));
                    assert(t.skip(d + from.len()) == s@.skip(k + from.len()));
                }
                let piece = copy_range(s, i, k);
                push_all(&mut out, &piece);
                push_all(&mut out, to);
                i = k + from.len();
            },
        }
    }
}

// ---------------------------------------------------------------------------
// Numbers

pub open spec fn digit(d: nat) -> char {
    if d == 0 {
        '0'
    } else if d == 1 {
        '1'
    } else if d == 2 {
        '2'
    } else if d == 3 {
        '3'
    } else if d == 4 {
        '4'
    } else if d == 5 {
        '5'
    } else if d == 6 {
        '6'
    } else if d == 7 {
        '7'
    } else if d == 8 {
        '8'
    } else {
        '9'
    }
}

/// The decimal digits of `n`, without leading zeros.
pub open spec fn decimal(n: nat) -> Seq<char>
    decreases n,
{
    if n < 10 {
        seq![digit(n)]
    } else {
        decimal(n / 10).push(digit(n % 10))
    }
}

/// The decimal digits of `n` read back as a number give `n`.
pub proof fn lemma_decimal_digits(n: nat)
    ensures
        decimal(n).len() > 0,
        all_digits(decimal(n)),
        digits_value(decimal(n)) == n,
    decreases n,
{
    if n >= 10 {
        lemma_decimal_digits(n / 10);
        let s = decimal(n / 10);
        let t = s.push(digit(n % 10));
        assert(t.drop_last() == s);
        assert forall|i: int| 0 <= i < t.len() implies is_digit(#[trigger] t[i]) by {
            if i < s.len() {
                assert(t[i] == s[i]);
            }
        }
        let d = n % 10;
        assert(digit(d) as int - '0' as int == d);
        assert((n / 10) * 10 + d == n);
        assert(decimal(n) == t);
        assert(t.last() == digit(d));
        assert(digits_value(t) == digits_value(s) * 10 + (digit(d) as int - '0' as int));
        assert(digits_value(s) == n / 10);
        assert(digits_value(t) == n);
    } else {
        let t = seq![digit(n)];
        assert(t.drop_last() == Seq::<char>::empty());
        assert(digit(n) as int - '0' as int == n);
        assert(digits_value(Seq::<char>::empty()) == 0);
        assert(decimal(n) == t);
        assert(digits_value(t) == n);
        assert(is_digit(t[0]));
    }
}

fn digit_char(d: u64) -> (c: char)
    requires
        d < 10,
    ensures
        c == digit(d as nat),
{
    if d == 0 {
        '0'
    } else if d == 1 {
        '1'
    } else if d == 2 {
        '2'
    } else if d == 3 {
        '3'
    } else if d == 4 {
        '4'
    } else if d == 5 {
        '5'
    } else if d == 6 {
        '6'
    } else if d == 7 {
        '7'
    } else if d == 8 {
        '8'
    } else {
        '9'
    }
}

/// `n` written in decimal, as `format!("{n}")` writes it.
pub fn decimal_of(n: u64) -> (r: Vec<char>)
    ensures
        r@ == decimal(n as nat),
    decreases n,
{
    if n < 10 {
        let mut v: Vec<char> = Vec::new();
        v.push(digit_char(n));
        v
    } else {
        let mut v = decimal_of(n / 10);
        v.push(digit_char(n % 10));
        v
    }
}

// ---------------------------------------------------------------------------
// Case mapping and URL encoding (outside code)

/// What `str::to_lowercase` returns for a string with the characters `s`.
pub uninterp spec fn lowercase(s: Seq<char>) -> Seq<char>;

/// What `str::to_uppercase` returns for a string with the characters `s`.
pub uninterp spec fn uppercase(s: Seq<char>) -> Seq<char>;

/// Calls `str::to_lowercase` (Unicode lowercase mapping); its result is
/// named by `lowercase`.
#[verifier::external_body]
pub(crate) fn to_lowercase(s: &[char]) -> (r: Vec<char>)
    ensures
        r@ == lowercase(s@),
{
    s.iter().collect::<String>().to_lowercase().chars().collect()
}

/// Calls `str::to_uppercase` (Unicode uppercase mapping); its result is
/// named by `uppercase`.
#[verifier::external_body]
pub(crate) fn to_uppercase(s: &[char]) -> (r: Vec<char>)
    ensures
        r@ == uppercase(s@),
{
    s.iter().collect::<String>().to_uppercase().chars().collect()
}

pub open spec fn hex_upper(d: nat) -> char {
    if d < 10 {
        digit(d)
    } else if d == 10 {
        'A'
    } else if d == 11 {
        'B'
    } else if d == 12 {
        'C'
    } else if d == 13 {
        'D'
    } else if d == 14 {
        'E'
    } else {
        'F'
    }
}

/// Bytes that `application/x-www-form-urlencoded` leaves as they are.
pub open spec fn form_unreserved(b: u8) -> bool {
    b == 0x2a || b == 0x2d || b == 0x2e || b == 0x5f || (0x30 <= b <= 0x39) || (0x41 <= b
        <= 0x5a) || (0x61 <= b <= 0x7a)
}

pub open spec fn form_byte(b: u8) -> Seq<char> {
    if form_unreserved(b) {
        seq![b as char]
    } else if b == 0x20 {
        seq!['+']
    } else {
        seq!['%', hex_upper((b / 16) as nat), hex_upper((b % 16) as nat)]
    }
}

/// The `application/x-www-form-urlencoded` serialization of `bytes`.
pub open spec fn form_encoded(bytes: Seq<u8>) -> Seq<char>
    decreases bytes.len(),
{
    if bytes.len() == 0 {
        seq![]
    } else {
        form_encoded(bytes.drop_last()) + form_byte(bytes.last())
    }
}

/// Calls `form_urlencoded::byte_serialize` on the UTF-8 bytes of `s`. Its
/// source keeps `*-._`, ASCII digits and letters, writes a space as `+` and
/// every other byte as `%` and two upper-case hex digits.
#[verifier::external_body]
pub(crate) fn form_urlencode(s: &[char]) -> (r: Vec<char>)
    ensures
        r@ == form_encoded(encode_utf8(s@)),
{
    let s: String = s.iter().collect();
    form_urlencoded::byte_serialize(s.as_bytes()).collect::<String>().chars().collect()
}

// ---------------------------------------------------------------------------
// Parsing numbers

pub open spec fn is_digit(c: char) -> bool {
    '0' <= c && c <= '9'
}

pub open spec fn all_digits(s: Seq<char>) -> bool {
    forall|i: int| 0 <= i < s.len() ==> is_digit(#[trigger] s[i])
}

/// The number that the decimal digits `s` write.
pub open spec fn digits_value(s: Seq<char>) -> nat
    decreases s.len(),
{
    if s.len() == 0 {
        0
    } else {
        digits_value(s.drop_last()) * 10 + ((s.last() as int - '0' as int) as nat)
    }
}

/// What `str::parse::<u64>` gives: an optional `+`, then one or more ASCII
/// digits and nothing else, of a value that fits.
pub open spec fn parsed_u64(s: Seq<char>) -> Option<u64> {
    let d = if s.len() > 0 && s[0] == '+' {
        s.drop_first()
    } else {
        s
    };
    if d.len() > 0 && all_digits(d) && digits_value(d) <= u64::MAX {
        Some(digits_value(d) as u64)
    } else {
        None
    }
}

proof fn lemma_digits_value_prefix(s: Seq<char>, i: int)
    requires
        0 <= i <= s.len(),
        all_digits(s),
    ensures
        digits_value(s.take(i)) <= digits_value(s),
    decreases s.len() - i,
{
    if i < s.len() {
        lemma_digits_value_prefix(s, i + 1);
        assert(s.take(i + 1).drop_last() == s.take(i));
        assert(is_digit(s[i]));
    } else {
        assert(s.take(i) == s);
    }
}

pub fn parse_u64(s: &[char]) -> (r: Option<u64>)
    ensures
        r == parsed_u64(s@),
{
    let start: usize = if s.len() > 0 && s[0] == '+' {
        1
    } else {
        0
    };
    let ghost d = if s@.len() > 0 && s@[0] == '+' {
        s@.drop_first()
    } else {
        s@
    };
    assert(d == s@.skip(start as int));
    if start == s.len() {
        return None;
    }
    let mut v: u64 = 0;
    let mut i: usize = start;
    while i < s.len()
        invariant
            start <= i <= s.len(),
            d == s@.skip(start as int),
            d == (if s@.len() > 0 && s@[0] == '+' {
                s@.drop_first()
            } else {
                s@
            }),
            all_digits(d.take(i - start)),
            v as nat == digits_value(d.take(i - start)),
        decreases s.len() - i,
    {
        let c = s[i];
        assert(d.take(i + 1 - start).drop_last() == d.take(i - start));
        assert(d[i - start] == c);
        if !('0' <= c && c <= '9') {
            assert(!all_digits(d)) by {
                assert(!is_digit(d[i - start]));
            }
            return None;
        }
        let dv: u64 = (c as u32 - '0' as u32) as u64;
        assert(dv == (c as int - '0' as int));
        if v > (u64::MAX - dv) / 10 {
            proof {
                assert(d.take(i + 1 - start).last() == c);
                assert(digits_value(d.take(i + 1 - start)) > u64::MAX) by (nonlinear_arith)
                    requires
                        v > (u64::MAX - dv) / 10,
                        digits_value(d.take(i + 1 - start)) == v * 10 + dv,
                        dv < 10,
                ;
                if all_digits(d) {
                    lemma_digits_value_prefix(d, i + 1 - start);
                }
            }
            return None;
        }
        v = v * 10 + dv;
        i += 1;
    }
    assert(d.take(i - start) == d);
    Some(v)
}

} // verus!
