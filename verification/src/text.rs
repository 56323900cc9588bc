//! Text as sequences of characters: the character classes and the few
//! sequence operations the log grammar is written in.
//!
//! Every operation has a mathematical definition over `Seq<char>` and an
//! executable counterpart over `&[char]` that is proved to compute it.

use vstd::prelude::*;
use vstd::slice::slice_subrange;

verus! {

/// White space in the Unicode sense (the `White_Space` property).
pub open spec fn is_space(c: char) -> bool {
    let u = c as u32;
    (0x09 <= u <= 0x0D) || u == 0x20 || u == 0x85 || u == 0xA0 || u == 0x1680 || (0x2000 <= u
        <= 0x200A) || u == 0x2028 || u == 0x2029 || u == 0x202F || u == 0x205F || u == 0x3000
}

/// A line terminator of the entry stream: line feed or bare carriage return.
pub open spec fn is_terminator(c: char) -> bool {
    c == '\n' || c == '\r'
}

/// An ASCII decimal digit.
pub open spec fn is_digit(c: char) -> bool {
    '0' <= c <= '9'
}

/// The number a decimal digit stands for.
pub open spec fn digit_value(c: char) -> nat {
    (c as u32 - '0' as u32) as nat
}

/// An ASCII letter.
pub open spec fn is_ascii_letter(c: char) -> bool {
    ('a' <= c <= 'z') || ('A' <= c <= 'Z')
}

/// `c` with an ASCII capital replaced by its small letter.
pub open spec fn ascii_lower(c: char) -> char {
    if 'A' <= c <= 'Z' {
        ((c as u32 + 32) as u8) as char
    } else {
        c
    }
}

/// Equality of two texts up to the case of ASCII letters.
pub open spec fn eq_ignore_case(a: Seq<char>, b: Seq<char>) -> bool {
    &&& a.len() == b.len()
    &&& forall|i: int| 0 <= i < a.len() ==> ascii_lower(#[trigger] a[i]) == ascii_lower(b[i])
}

/// The least index at or after `from` whose character satisfies `p`, or the
/// length of `s` when there is none.
pub open spec fn first_from(s: Seq<char>, p: spec_fn(char) -> bool, from: int) -> int
    decreases s.len() - from,
{
    if 0 <= from < s.len() && !p(s[from]) {
        first_from(s, p, from + 1)
    } else {
        from
    }
}

/// The least index whose character satisfies `p`, or the length of `s`.
pub open spec fn first_index(s: Seq<char>, p: spec_fn(char) -> bool) -> int {
    first_from(s, p, 0)
}

/// What `first_from` returns lies between `from` and the end, nothing before
/// it satisfies `p`, and the character there does.
pub proof fn lemma_first_from(s: Seq<char>, p: spec_fn(char) -> bool, from: int)
    requires
        0 <= from <= s.len(),
    ensures
        from <= first_from(s, p, from) <= s.len(),
        forall|i: int| from <= i < first_from(s, p, from) ==> !p(#[trigger] s[i]),
        first_from(s, p, from) < s.len() ==> p(s[first_from(s, p, from)]),
    decreases s.len() - from,
{
    if from < s.len() && !p(s[from]) {
        lemma_first_from(s, p, from + 1);
    }
}

/// An index with the three properties of `lemma_first_from` is the one
/// `first_from` returns.
pub proof fn lemma_first_from_is(s: Seq<char>, p: spec_fn(char) -> bool, from: int, k: int)
    requires
        0 <= from <= k <= s.len(),
        forall|i: int| from <= i < k ==> !p(#[trigger] s[i]),
        k < s.len() ==> p(s[k]),
    ensures
        first_from(s, p, from) == k,
    decreases k - from,
{
    if from < k {
        lemma_first_from_is(s, p, from + 1, k);
    }
}

/// The length of `s` without its trailing white space.
pub open spec fn trim_end_len(s: Seq<char>) -> int
    decreases s.len(),
{
    if s.len() > 0 && is_space(s.last()) {
        trim_end_len(s.drop_last())
    } else {
        s.len() as int
    }
}

/// `s` without leading white space.
pub open spec fn trim_start(s: Seq<char>) -> Seq<char> {
    s.skip(first_index(s, |c: char| !is_space(c)))
}

/// `s` without trailing white space.
pub open spec fn trim_end(s: Seq<char>) -> Seq<char> {
    s.take(trim_end_len(s))
}

/// `s` without leading and trailing white space.
pub open spec fn trim(s: Seq<char>) -> Seq<char> {
    trim_end(trim_start(s))
}

/// `trim_end_len` is a position in `s`; all after it is white space and the
/// character before it is not.
pub proof fn lemma_trim_end_len(s: Seq<char>)
    ensures
        0 <= trim_end_len(s) <= s.len(),
        forall|i: int| trim_end_len(s) <= i < s.len() ==> is_space(#[trigger] s[i]),
        trim_end_len(s) > 0 ==> !is_space(s[trim_end_len(s) - 1]),
    decreases s.len(),
{
    if s.len() > 0 && is_space(s.last()) {
        let t = s.drop_last();
        lemma_trim_end_len(t);
        assert forall|i: int| trim_end_len(s) <= i < s.len() implies is_space(#[trigger] s[i]) by {
            if i < t.len() {
                assert(s[i] == t[i]);
            }
        }
        if trim_end_len(s) > 0 {
            assert(s[trim_end_len(s) - 1] == t[trim_end_len(s) - 1]);
        }
    }
}

/// A position with the properties of `lemma_trim_end_len` is `trim_end_len`.
pub proof fn lemma_trim_end_len_is(s: Seq<char>, k: int)
    requires
        0 <= k <= s.len(),
        forall|i: int| k <= i < s.len() ==> is_space(#[trigger] s[i]),
        k > 0 ==> !is_space(s[k - 1]),
    ensures
        trim_end_len(s) == k,
    decreases s.len(),
{
    if s.len() > 0 && is_space(s.last()) {
        assert(k < s.len()) by {
            if k == s.len() {
                assert(!is_space(s[k - 1]));
            }
        }
        let t = s.drop_last();
        assert forall|i: int| k <= i < t.len() implies is_space(#[trigger] t[i]) by {
            assert(t[i] == s[i]);
        }
        if k > 0 {
            assert(t[k - 1] == s[k - 1]);
        }
        lemma_trim_end_len_is(t, k);
    } else {
        if k < s.len() {
            assert(is_space(s[s.len() - 1]));
        }
    }
}

/// Where `s` without its leading white space begins.
pub open spec fn trim_lo(s: Seq<char>) -> int {
    first_index(s, |c: char| !is_space(c))
}

/// Where `s` without its trailing white space ends.
pub open spec fn trim_hi(s: Seq<char>) -> int {
    trim_lo(s) + trim_end_len(s.skip(trim_lo(s)))
}

/// `trim` cuts a range out of `s`: all before and all behind it is white
/// space, and what is left begins and ends with a character that is none.
pub proof fn lemma_trim(s: Seq<char>)
    ensures
        0 <= trim_lo(s) <= trim_hi(s) <= s.len(),
        trim(s) == s.subrange(trim_lo(s), trim_hi(s)),
        trim(s).len() == trim_hi(s) - trim_lo(s),
        forall|i: int| 0 <= i < trim_lo(s) ==> is_space(#[trigger] s[i]),
        forall|i: int| trim_hi(s) <= i < s.len() ==> is_space(#[trigger] s[i]),
        trim(s).len() > 0 ==> !is_space(trim(s)[0]) && !is_space(trim(s).last()),
{
    let p = |c: char| !is_space(c);
    lemma_first_from(s, p, 0);
    let lo = trim_lo(s);
    let t = s.skip(lo);
    lemma_trim_end_len(t);
    let n = trim_end_len(t);
    assert(t.take(n) =~= s.subrange(lo, lo + n));
    assert forall|i: int| lo + n <= i < s.len() implies is_space(#[trigger] s[i]) by {
        assert(t[i - lo] == s[i]);
    }
    if n > 0 {
        assert(t[n - 1] == s[lo + n - 1]);
        assert(t[0] == s[lo]);
        assert(!is_space(s[lo]));
    }
}

/// A range of `s` with the properties that `lemma_trim` states is `trim(s)`.
pub proof fn lemma_trim_is(s: Seq<char>, lo: int, hi: int)
    requires
        0 <= lo <= hi <= s.len(),
        forall|i: int| 0 <= i < lo ==> is_space(#[trigger] s[i]),
        forall|i: int| hi <= i < s.len() ==> is_space(#[trigger] s[i]),
        lo < hi ==> !is_space(s[lo]) && !is_space(s[hi - 1]),
        lo == hi ==> lo == s.len(),
    ensures
        trim(s) == s.subrange(lo, hi),
{
    let p = |c: char| !is_space(c);
    lemma_first_from_is(s, p, 0, lo);
    let t = s.skip(lo);
    assert forall|i: int| hi - lo <= i < t.len() implies is_space(#[trigger] t[i]) by {
        assert(t[i] == s[i + lo]);
    }
    if hi > lo {
        assert(t[hi - lo - 1] == s[hi - 1]);
    }
    lemma_trim_end_len_is(t, hi - lo);
    assert(t.take(hi - lo) =~= s.subrange(lo, hi));
}

/// Text that neither begins nor ends with white space is its own `trim`.
pub proof fn lemma_trim_of_trimmed(s: Seq<char>)
    requires
        s.len() > 0 ==> !is_space(s[0]) && !is_space(s.last()),
    ensures
        trim(s) == s,
{
    lemma_trim_is(s, 0, s.len() as int);
    assert(s.subrange(0, s.len() as int) =~= s);
}

/// Trimming twice is trimming once.
pub proof fn lemma_trim_idempotent(s: Seq<char>)
    ensures
        trim(trim(s)) == trim(s),
{
    lemma_trim(s);
    lemma_trim_of_trimmed(trim(s));
}

/// White space added around a text does not change its `trim`.
pub proof fn lemma_trim_ignores_margin(before: Seq<char>, s: Seq<char>, after: Seq<char>)
    requires
        forall|i: int| 0 <= i < before.len() ==> is_space(#[trigger] before[i]),
        forall|i: int| 0 <= i < after.len() ==> is_space(#[trigger] after[i]),
    ensures
        trim(before + s + after) == trim(s),
{
    lemma_trim(s);
    let w = before + s + after;
    let lo = trim_lo(s);
    let hi = trim_hi(s);
    let b = before.len() as int;
    if lo < hi {
        assert forall|i: int| 0 <= i < b + lo implies is_space(#[trigger] w[i]) by {
            if i < b {
                assert(w[i] == before[i]);
            } else {
                assert(w[i] == s[i - b]);
            }
        }
        assert forall|i: int| b + hi <= i < w.len() implies is_space(#[trigger] w[i]) by {
            if i < b + s.len() {
                assert(w[i] == s[i - b]);
            } else {
                assert(w[i] == after[i - b - s.len()]);
            }
        }
        assert(w[b + lo] == s[lo]);
        assert(w[b + hi - 1] == s[hi - 1]);
        assert(trim(s)[0] == s[lo]);
        assert(trim(s).last() == s[hi - 1]);
        lemma_trim_is(w, b + lo, b + hi);
        assert(w.subrange(b + lo, b + hi) =~= s.subrange(lo, hi));
    } else {
        assert(lo == s.len()) by {
            if lo < s.len() {
                lemma_first_from(s, |c: char| !is_space(c), 0);
                assert(!is_space(s[lo]));
                assert(is_space(s[lo]));
            }
        }
        assert forall|i: int| 0 <= i < w.len() implies is_space(#[trigger] w[i]) by {
            if i < b {
                assert(w[i] == before[i]);
            } else if i < b + s.len() {
                assert(w[i] == s[i - b]);
            } else {
                assert(w[i] == after[i - b - s.len()]);
            }
        }
        lemma_trim_is(w, w.len() as int, w.len() as int);
        assert(w.subrange(w.len() as int, w.len() as int) =~= s.subrange(lo, hi));
    }
}

/// The first line terminator of `s` is a position of `s` (or its length),
/// nothing before it is a terminator, and the character there is one.
pub proof fn lemma_first_terminator(s: Seq<char>)
    ensures
        0 <= first_terminator(s) <= s.len(),
        forall|i: int| 0 <= i < first_terminator(s) ==> !is_terminator(#[trigger] s[i]),
        first_terminator(s) < s.len() ==> is_terminator(s[first_terminator(s)]),
{
    lemma_first_from(s, |x: char| is_terminator(x), 0);
}

/// A position with the properties of `lemma_first_terminator` is the first
/// terminator.
pub proof fn lemma_first_terminator_is(s: Seq<char>, k: int)
    requires
        0 <= k <= s.len(),
        forall|i: int| 0 <= i < k ==> !is_terminator(#[trigger] s[i]),
        k < s.len() ==> is_terminator(s[k]),
    ensures
        first_terminator(s) == k,
{
    lemma_first_from_is(s, |x: char| is_terminator(x), 0, k);
}

/// A line that is complete in `s` is the same line in `s + more`.
pub proof fn lemma_first_terminator_extend(s: Seq<char>, more: Seq<char>)
    requires
        first_terminator(s) < s.len(),
    ensures
        first_terminator(s + more) == first_terminator(s),
        (s + more).take(first_terminator(s)) == s.take(first_terminator(s)),
        (s + more).take(first_terminator(s) + 1) == s.take(first_terminator(s) + 1),
        (s + more).skip(first_terminator(s) + 1) == s.skip(first_terminator(s) + 1) + more,
{
    lemma_first_terminator(s);
    let k = first_terminator(s);
    let t = s + more;
    assert forall|i: int| 0 <= i < k implies !is_terminator(#[trigger] t[i]) by {
        assert(t[i] == s[i]);
    }
    assert(t[k] == s[k]);
    lemma_first_terminator_is(t, k);
    assert(t.take(k) =~= s.take(k));
    assert(t.take(k + 1) =~= s.take(k + 1));
    assert(t.skip(k + 1) =~= s.skip(k + 1) + more);
}

/// Whether `c` is white space.
pub fn is_whitespace(c: char) -> (b: bool)
    ensures
        b == is_space(c),
{
    let u: u32 = c as u32;
    (0x09 <= u && u <= 0x0D) || u == 0x20 || u == 0x85 || u == 0xA0 || u == 0x1680 || (0x2000 <= u
        && u <= 0x200A) || u == 0x2028 || u == 0x2029 || u == 0x202F || u == 0x205F || u
        == 0x3000
}

/// Whether `c` ends a line of the entry stream.
pub fn is_line_terminator(c: char) -> (b: bool)
    ensures
        b == is_terminator(c),
{
    c == '\n' || c == '\r'
}

/// Whether `c` is an ASCII decimal digit.
pub fn is_decimal_digit(c: char) -> (b: bool)
    ensures
        b == is_digit(c),
{
    let u: u32 = c as u32;
    0x30 <= u && u <= 0x39
}

/// `c` with an ASCII capital replaced by its small letter.
pub fn to_ascii_lower(c: char) -> (r: char)
    ensures
        r == ascii_lower(c),
{
    let u: u32 = c as u32;
    if 0x41 <= u && u <= 0x5A {
        ((u + 32) as u8) as char
    } else {
        c
    }
}

/// Whether two texts are equal up to the case of ASCII letters.
pub fn equals_ignore_case(a: &[char], b: &[char]) -> (r: bool)
    ensures
        r == eq_ignore_case(a@, b@),
{
    if a.len() != b.len() {
        return false;
    }
    let mut i: usize = 0;
    while i < a.len()
        invariant
            a.len() == b.len(),
            i <= a.len(),
            forall|j: int| 0 <= j < i ==> ascii_lower(#[trigger] a@[j]) == ascii_lower(b@[j]),
        decreases a.len() - i,
    {
        if to_ascii_lower(a[i]) != to_ascii_lower(b[i]) {
            return false;
        }
        i += 1;
    }
    true
}

/// The positions that bound `s` without its surrounding white space.
pub fn trim_bounds(s: &[char]) -> (r: (usize, usize))
    ensures
        r.0 <= r.1 <= s.len(),
        s@.subrange(r.0 as int, r.1 as int) == trim(s@),
{
    let mut lo: usize = 0;
    while lo < s.len() && is_whitespace(s[lo])
        invariant
            lo <= s.len(),
            forall|j: int| 0 <= j < lo ==> is_space(#[trigger] s@[j]),
        decreases s.len() - lo,
    {
        lo += 1;
    }
    let mut hi: usize = s.len();
    while hi > lo && is_whitespace(s[hi - 1])
        invariant
            lo <= hi <= s.len(),
            forall|j: int| hi <= j < s.len() ==> is_space(#[trigger] s@[j]),
        decreases hi,
    {
        hi -= 1;
    }
    proof {
        let p = |c: char| !is_space(c);
        lemma_first_from_is(s@, p, 0, lo as int);
        let t = trim_start(s@);
        assert(t == s@.skip(lo as int));
        assert(forall|i: int| hi - lo <= i < t.len() ==> is_space(#[trigger] t[i])) by {
            assert forall|i: int| hi - lo <= i < t.len() implies is_space(#[trigger] t[i]) by {
                assert(t[i] == s@[i + lo]);
            }
        }
        if hi > lo {
            assert(t[hi - lo - 1] == s@[hi - 1]);
        }
        lemma_trim_end_len_is(t, hi - lo);
        assert(t.take(hi - lo) =~= s@.subrange(lo as int, hi as int));
    }
    (lo, hi)
}

/// A copy of the characters of `s` from `lo` up to `hi`.
pub fn copy_range(s: &[char], lo: usize, hi: usize) -> (v: Vec<char>)
    requires
        lo <= hi <= s.len(),
    ensures
        v@ == s@.subrange(lo as int, hi as int),
{
    let mut v: Vec<char> = Vec::new();
    let mut i: usize = lo;
    while i < hi
        invariant
            lo <= i <= hi <= s.len(),
            v@ == s@.subrange(lo as int, i as int),
        decreases hi - i,
    {
        v.push(s[i]);
        i += 1;
    }
    v
}

/// `s` without its surrounding white space.
pub fn trimmed(s: &[char]) -> (v: Vec<char>)
    ensures
        v@ == trim(s@),
{
    let (lo, hi) = trim_bounds(s);
    copy_range(s, lo, hi)
}

/// The least index at or after `from` that holds `c`, or the length of `s`
/// when there is none.
pub open spec fn index_of_from(s: Seq<char>, c: char, from: int) -> int
    decreases s.len() - from,
{
    if 0 <= from < s.len() && s[from] != c {
        index_of_from(s, c, from + 1)
    } else {
        from
    }
}

/// The index of the first `c` in `s`, or the length of `s` when it has none.
pub open spec fn index_of(s: Seq<char>, c: char) -> int {
    index_of_from(s, c, 0)
}

/// What `index_of_from` returns lies between `from` and the end, no `c`
/// stands before it, and one stands there.
pub proof fn lemma_index_of_from(s: Seq<char>, c: char, from: int)
    requires
        0 <= from <= s.len(),
    ensures
        from <= index_of_from(s, c, from) <= s.len(),
        forall|i: int| from <= i < index_of_from(s, c, from) ==> #[trigger] s[i] != c,
        index_of_from(s, c, from) < s.len() ==> s[index_of_from(s, c, from)] == c,
    decreases s.len() - from,
{
    if from < s.len() && s[from] != c {
        lemma_index_of_from(s, c, from + 1);
    }
}

/// An index with the three properties of `lemma_index_of_from` is the one
/// `index_of_from` returns.
pub proof fn lemma_index_of_from_is(s: Seq<char>, c: char, from: int, k: int)
    requires
        0 <= from <= k <= s.len(),
        forall|i: int| from <= i < k ==> #[trigger] s[i] != c,
        k < s.len() ==> s[k] == c,
    ensures
        index_of_from(s, c, from) == k,
    decreases k - from,
{
    if from < k {
        lemma_index_of_from_is(s, c, from + 1, k);
    }
}

/// The index of the first line terminator in `s`, or the length of `s`.
pub open spec fn first_terminator(s: Seq<char>) -> int {
    first_index(s, |x: char| is_terminator(x))
}

/// Whether `pat` stands in `s` at index `i`.
pub open spec fn occurs_at(s: Seq<char>, pat: Seq<char>, i: int) -> bool {
    &&& 0 <= i
    &&& i + pat.len() <= s.len()
    &&& s.subrange(i, i + pat.len()) == pat
}

/// The least index at or after `from` where `pat` stands in `s`, if any.
pub open spec fn find_from(s: Seq<char>, pat: Seq<char>, from: int) -> Option<int>
    decreases s.len() + 1 - from,
{
    if from < 0 || from + pat.len() > s.len() {
        None
    } else if occurs_at(s, pat, from) {
        Some(from)
    } else {
        find_from(s, pat, from + 1)
    }
}

/// The index of the first occurrence of `pat` in `s`, if any.
pub open spec fn find(s: Seq<char>, pat: Seq<char>) -> Option<int> {
    find_from(s, pat, 0)
}

/// Whether `pat` occurs in `s`.
pub open spec fn contains(s: Seq<char>, pat: Seq<char>) -> bool {
    find(s, pat) is Some
}

/// Whether `s` begins with `pat`.
pub open spec fn starts_with(s: Seq<char>, pat: Seq<char>) -> bool {
    occurs_at(s, pat, 0)
}

/// Whether every character of `s` is `c`.
pub open spec fn all_are(s: Seq<char>, c: char) -> bool {
    forall|i: int| 0 <= i < s.len() ==> #[trigger] s[i] == c
}

/// Whether every character of `s` is a decimal digit.
pub open spec fn all_digits(s: Seq<char>) -> bool {
    forall|i: int| 0 <= i < s.len() ==> is_digit(#[trigger] s[i])
}

/// The number that the decimal digits `s` write, most significant first.
pub open spec fn decimal_value(s: Seq<char>) -> nat
    decreases s.len(),
{
    if s.len() == 0 {
        0
    } else {
        10 * decimal_value(s.drop_last()) + digit_value(s.last())
    }
}

/// The first occurrence at or after `from` is what `find_from` returns.
pub proof fn lemma_find_from_is(s: Seq<char>, pat: Seq<char>, from: int, k: int)
    requires
        0 <= from <= k,
        occurs_at(s, pat, k),
        forall|i: int| from <= i < k ==> !occurs_at(s, pat, i),
    ensures
        find_from(s, pat, from) == Some(k),
    decreases k - from,
{
    if from < k {
        lemma_find_from_is(s, pat, from + 1, k);
    }
}

/// Where nothing occurs at or after `from`, `find_from` returns nothing.
pub proof fn lemma_find_from_none(s: Seq<char>, pat: Seq<char>, from: int)
    requires
        0 <= from,
        forall|i: int| from <= i ==> !occurs_at(s, pat, i),
    ensures
        find_from(s, pat, from) is None,
    decreases s.len() + 1 - from,
{
    if from + pat.len() <= s.len() {
        lemma_find_from_none(s, pat, from + 1);
    }
}

/// The index of the first `c` at or after `from`, or the length of `s`.
pub fn find_char_from(s: &[char], c: char, from: usize) -> (k: usize)
    requires
        from <= s.len(),
    ensures
        k == index_of_from(s@, c, from as int),
        from <= k <= s.len(),
        k < s.len() ==> s@[k as int] == c,
        forall|j: int| from <= j < k ==> #[trigger] s@[j] != c,
{
    let mut k: usize = from;
    while k < s.len() && s[k] != c
        invariant
            from <= k <= s.len(),
            forall|j: int| from <= j < k ==> #[trigger] s@[j] != c,
        decreases s.len() - k,
    {
        k += 1;
    }
    proof {
        lemma_index_of_from_is(s@, c, from as int, k as int);
    }
    k
}

/// The index of the first line terminator in `s`, or the length of `s`.
pub fn find_terminator(s: &[char]) -> (k: usize)
    ensures
        k == first_terminator(s@),
        k <= s.len(),
        k < s.len() ==> is_terminator(s@[k as int]),
        forall|j: int| 0 <= j < k ==> !is_terminator(#[trigger] s@[j]),
{
    let mut k: usize = 0;
    while k < s.len() && !is_line_terminator(s[k])
        invariant
            k <= s.len(),
            forall|j: int| 0 <= j < k ==> !is_terminator(#[trigger] s@[j]),
        decreases s.len() - k,
    {
        k += 1;
    }
    proof {
        lemma_first_from_is(s@, |x: char| is_terminator(x), 0, k as int);
    }
    k
}

/// Whether `pat` stands in `s` at index `i`.
pub fn matches_at(s: &[char], pat: &[char], i: usize) -> (r: bool)
    ensures
        r == occurs_at(s@, pat@, i as int),
{
    if pat.len() > s.len() || i > s.len() - pat.len() {
        return false;
    }
    let mut j: usize = 0;
    while j < pat.len()
        invariant
            j <= pat.len(),
            i + pat.len() <= s.len(),
            forall|k: int| 0 <= k < j ==> s@[i + k] == #[trigger] pat@[k],
        decreases pat.len() - j,
    {
        if s[i + j] != pat[j] {
            proof {
                assert(s@.subrange(i as int, i + pat.len())[j as int] == s@[i + j]);
            }
            return false;
        }
        j += 1;
    }
    proof {
        assert(s@.subrange(i as int, i + pat.len()) =~= pat@);
    }
    true
}

/// The index of the first occurrence of `pat` in `s`, if any.
pub fn find_text(s: &[char], pat: &[char]) -> (r: Option<usize>)
    ensures
        match r {
            Some(k) => find(s@, pat@) == Some(k as int) && k + pat.len() <= s.len(),
            None => find(s@, pat@) is None,
        },
{
    let mut i: usize = 0;
    loop
        invariant
            i <= s.len(),
            forall|j: int| 0 <= j < i ==> !occurs_at(s@, pat@, j),
        decreases s.len() - i,
    {
        if matches_at(s, pat, i) {
            proof {
                lemma_find_from_is(s@, pat@, 0, i as int);
            }
            return Some(i);
        }
        if i >= s.len() {
            proof {
                lemma_find_from_none(s@, pat@, 0);
            }
            return None;
        }
        i += 1;
    }
}

/// Whether every character of `s` is `c`.
pub fn all_chars_are(s: &[char], c: char) -> (r: bool)
    ensures
        r == all_are(s@, c),
{
    let mut i: usize = 0;
    while i < s.len()
        invariant
            i <= s.len(),
            forall|j: int| 0 <= j < i ==> #[trigger] s@[j] == c,
        decreases s.len() - i,
    {
        if s[i] != c {
            return false;
        }
        i += 1;
    }
    true
}

/// The white-space-separated words of `s` from index `i` on, in order.
pub open spec fn tokens_from(s: Seq<char>, i: int) -> Seq<Seq<char>>
    decreases s.len() - i,
{
    if i < 0 || i >= s.len() {
        Seq::empty()
    } else {
        let e = first_from(s, |c: char| is_space(c), i);
        if i < e <= s.len() {
            seq![s.subrange(i, e)] + tokens_from(s, e)
        } else {
            tokens_from(s, i + 1)
        }
    }
}

/// The white-space-separated words of `s`, in order.
pub open spec fn tokens(s: Seq<char>) -> Seq<Seq<char>> {
    tokens_from(s, 0)
}

/// The tab-separated fields of `s` from index `i` on, each without its
/// surrounding white space, the empty ones left out.
pub open spec fn tab_fields_from(s: Seq<char>, i: int) -> Seq<Seq<char>>
    decreases s.len() - i,
{
    if i < 0 || i > s.len() {
        Seq::empty()
    } else {
        let k = index_of_from(s, '\t', i);
        let field = trim(s.subrange(i, k));
        let head = if field.len() > 0 {
            seq![field]
        } else {
            Seq::empty()
        };
        if i <= k < s.len() {
            head + tab_fields_from(s, k + 1)
        } else {
            head
        }
    }
}

/// The tab-separated fields of `s`, each without its surrounding white
/// space, the empty ones left out.
pub open spec fn tab_fields(s: Seq<char>) -> Seq<Seq<char>> {
    tab_fields_from(s, 0)
}

/// Whether the rows of `v` are the texts `t`, one for one.
pub open spec fn rows_are(v: Seq<Vec<char>>, t: Seq<Seq<char>>) -> bool {
    &&& v.len() == t.len()
    &&& forall|i: int| 0 <= i < v.len() ==> (#[trigger] v[i])@ == t[i]
}

/// The white-space-separated words of `s`, in order.
pub fn split_tokens(s: &[char]) -> (r: Vec<Vec<char>>)
    ensures
        rows_are(r@, tokens(s@)),
{
    let mut r: Vec<Vec<char>> = Vec::new();
    let ghost mut done: Seq<Seq<char>> = Seq::empty();
    let mut i: usize = 0;
    while i < s.len()
        invariant
            i <= s.len(),
            rows_are(r@, done),
            tokens(s@) == done + tokens_from(s@, i as int),
        decreases s.len() - i,
    {
        let mut e: usize = i;
        while e < s.len() && !is_whitespace(s[e])
            invariant
                i <= e <= s.len(),
                forall|j: int| i <= j < e ==> !is_space(#[trigger] s@[j]),
            decreases s.len() - e,
        {
            e += 1;
        }
        proof {
            lemma_first_from_is(s@, |c: char| is_space(c), i as int, e as int);
        }
        if e > i {
            let word = copy_range(s, i, e);
            proof {
                assert(done + (seq![s@.subrange(i as int, e as int)] + tokens_from(s@, e as int))
                    =~= done.push(word@) + tokens_from(s@, e as int));
                done = done.push(word@);
            }
            r.push(word);
            i = e;
        } else {
            i += 1;
        }
    }
    proof {
        assert(done + tokens_from(s@, i as int) =~= done);
    }
    r
}

/// The tab-separated fields of `s`, each without its surrounding white
/// space, the empty ones left out.
pub fn split_tab_fields(s: &[char]) -> (r: Vec<Vec<char>>)
    ensures
        rows_are(r@, tab_fields(s@)),
{
    let mut r: Vec<Vec<char>> = Vec::new();
    let ghost mut done: Seq<Seq<char>> = Seq::empty();
    let mut i: usize = 0;
    loop
        invariant
            i <= s.len(),
            rows_are(r@, done),
            tab_fields(s@) == done + tab_fields_from(s@, i as int),
        decreases s.len() - i,
    {
        let k = find_char_from(s, '\t', i);
        let field = trimmed(slice_subrange(s, i, k));
        let ghost before = done;
        let ghost head = if field@.len() > 0 {
            seq![field@]
        } else {
            Seq::empty()
        };
        if field.len() > 0 {
            proof {
                done = done.push(field@);
            }
            r.push(field);
        }
        proof {
            assert(done =~= before + head);
        }
        if k >= s.len() {
            return r;
        }
        proof {
            assert(before + (head + tab_fields_from(s@, k + 1)) =~= done + tab_fields_from(
                s@,
                k + 1,
            ));
        }
        i = k + 1;
    }
}

/// Appends one character to a string.
///
/// Trusted: stands for `String::push`, which adds `c` at the end and leaves
/// the characters before it unchanged.
#[verifier::external_body]
pub(crate) fn push_char(s: &mut String, c: char)
    ensures
        final(s)@ == old(s)@.push(c),
{
    s.push(c)
}

/// The characters of `s`, in order.
pub fn chars_of(s: &str) -> (v: Vec<char>)
    ensures
        v@ == s@,
{
    let mut v: Vec<char> = Vec::new();
    for c in it: s.chars()
        invariant
            v@ == it.seq().take(it.index()),
            it.seq() == s@,
    {
        v.push(c);
    }
    v
}

/// The string made of the characters `cs`, in order.
pub fn string_of(cs: &[char]) -> (s: String)
    ensures
        s@ == cs@,
{
    let mut s = String::new();
    let mut i: usize = 0;
    while i < cs.len()
        invariant
            i <= cs.len(),
            s@ == cs@.take(i as int),
        decreases cs.len() - i,
    {
        push_char(&mut s, cs[i]);
        i += 1;
    }
    s
}

} // verus!
