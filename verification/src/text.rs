//! Character-level text primitives shared by the request parser, the
//! workspace listing and the reply builders.
//!
//! Every scan here has a recursive spec function that says what the scan
//! computes, written the way the corresponding `str` method of std is
//! documented (`split_whitespace`, `trim`, `lines`, `eq_ignore_ascii_case`).
use vstd::prelude::*;

verus! {

/// Unicode `White_Space`, the property that `char::is_whitespace` tests.
pub open spec fn is_whitespace(c: char) -> bool {
    ||| ('\t' <= c && c <= '\r')
    ||| c == ' '
    ||| c == '\u{85}'
    ||| c == '\u{a0}'
    ||| c == '\u{1680}'
    ||| ('\u{2000}' <= c && c <= '\u{200a}')
    ||| c == '\u{2028}'
    ||| c == '\u{2029}'
    ||| c == '\u{202f}'
    ||| c == '\u{205f}'
    ||| c == '\u{3000}'
}

/// Index of the first `c` at or after `from`, or the length when there is none.
pub open spec fn find_char(s: Seq<char>, c: char, from: int) -> int
    decreases s.len() - from,
{
    if from >= s.len() {
        s.len() as int
    } else if s[from] == c {
        from
    } else {
        find_char(s, c, from + 1)
    }
}

/// Index of the last `c` before `end`, or `-1` when there is none.
pub open spec fn last_index(s: Seq<char>, c: char, end: int) -> int
    decreases end,
{
    if end <= 0 {
        -1
    } else if s[end - 1] == c {
        end - 1
    } else {
        last_index(s, c, end - 1)
    }
}

/// Index of the first non-whitespace character at or after `from`, or the length.
pub open spec fn skip_whitespace(s: Seq<char>, from: int) -> int
    decreases s.len() - from,
{
    if from >= s.len() {
        s.len() as int
    } else if is_whitespace(s[from]) {
        skip_whitespace(s, from + 1)
    } else {
        from
    }
}

/// Index of the first whitespace character at or after `from`, or the length.
pub open spec fn word_end(s: Seq<char>, from: int) -> int
    decreases s.len() - from,
{
    if from >= s.len() {
        s.len() as int
    } else if is_whitespace(s[from]) {
        from
    } else {
        word_end(s, from + 1)
    }
}

/// The end of `s.subrange(lo, hi)` once trailing whitespace is removed.
pub open spec fn trim_end_index(s: Seq<char>, lo: int, hi: int) -> int
    decreases hi - lo,
{
    if hi <= lo {
        lo
    } else if is_whitespace(s[hi - 1]) {
        trim_end_index(s, lo, hi - 1)
    } else {
        hi
    }
}

/// `str::trim`: leading and trailing whitespace removed.
pub open spec fn trim(s: Seq<char>) -> Seq<char> {
    let lo = skip_whitespace(s, 0);
    s.subrange(lo, trim_end_index(s, lo, s.len() as int))
}

pub proof fn lemma_find_char_bounds(s: Seq<char>, c: char, from: int)
    requires
        0 <= from,
    ensures
        from <= s.len() ==> from <= find_char(s, c, from) <= s.len(),
        from > s.len() ==> find_char(s, c, from) == s.len(),
        find_char(s, c, from) < s.len() ==> s[find_char(s, c, from)] == c,
        forall|k: int| from <= k < find_char(s, c, from) ==> s[k] != c,
    decreases s.len() - from,
{
    if from < s.len() && s[from] != c {
        lemma_find_char_bounds(s, c, from + 1);
    }
}

pub proof fn lemma_skip_whitespace_bounds(s: Seq<char>, from: int)
    requires
        0 <= from <= s.len(),
    ensures
        from <= skip_whitespace(s, from) <= s.len(),
        skip_whitespace(s, from) < s.len() ==> !is_whitespace(s[skip_whitespace(s, from)]),
    decreases s.len() - from,
{
    if from < s.len() && is_whitespace(s[from]) {
        lemma_skip_whitespace_bounds(s, from + 1);
    }
}

pub proof fn lemma_word_end_bounds(s: Seq<char>, from: int)
    requires
        0 <= from <= s.len(),
    ensures
        from <= word_end(s, from) <= s.len(),
    decreases s.len() - from,
{
    if from < s.len() && !is_whitespace(s[from]) {
        lemma_word_end_bounds(s, from + 1);
    }
}

pub proof fn lemma_trim_end_bounds(s: Seq<char>, lo: int, hi: int)
    requires
        0 <= lo <= hi <= s.len(),
    ensures
        lo <= trim_end_index(s, lo, hi) <= hi,
    decreases hi - lo,
{
    if hi > lo && is_whitespace(s[hi - 1]) {
        lemma_trim_end_bounds(s, lo, hi - 1);
    }
}

pub proof fn lemma_last_index_bounds(s: Seq<char>, c: char, end: int)
    requires
        end <= s.len(),
    ensures
        -1 <= last_index(s, c, end) < if end > 0 {
            end
        } else {
            0
        },
    decreases end,
{
    if end > 0 && s[end - 1] != c {
        lemma_last_index_bounds(s, c, end - 1);
    }
}

/// Characters other than `c` at the end do not move `last_index`.
pub proof fn lemma_last_index_skip(s: Seq<char>, c: char, from: int, end: int)
    requires
        0 <= from <= end <= s.len(),
        forall|k: int| from <= k < end ==> s[k] != c,
    ensures
        last_index(s, c, end) == last_index(s, c, from),
    decreases end - from,
{
    if end > from {
        lemma_last_index_skip(s, c, from, end - 1);
    }
}

pub proof fn lemma_skip_whitespace_over(s: Seq<char>, from: int, to: int)
    requires
        0 <= from <= to <= s.len(),
        forall|k: int| from <= k < to ==> is_whitespace(#[trigger] s[k]),
    ensures
        skip_whitespace(s, from) == skip_whitespace(s, to),
    decreases to - from,
{
    if from < to {
        lemma_skip_whitespace_over(s, from + 1, to);
    }
}

pub proof fn lemma_word_end_over(s: Seq<char>, from: int, to: int)
    requires
        0 <= from <= to <= s.len(),
        forall|k: int| from <= k < to ==> !is_whitespace(#[trigger] s[k]),
        to == s.len() || is_whitespace(s[to]),
    ensures
        word_end(s, from) == to,
    decreases to - from,
{
    if from < to {
        lemma_word_end_over(s, from + 1, to);
    }
}

proof fn lemma_trim_end_over(s: Seq<char>, lo: int, mid: int, hi: int)
    requires
        0 <= lo <= mid <= hi <= s.len(),
        forall|k: int| mid <= k < hi ==> is_whitespace(#[trigger] s[k]),
    ensures
        trim_end_index(s, lo, hi) == trim_end_index(s, lo, mid),
    decreases hi - mid,
{
    if hi > mid {
        lemma_trim_end_over(s, lo, mid, hi - 1);
    }
}

/// Trimming removes exactly the whitespace around a text: with only
/// whitespace before and after it, and a text that neither starts nor ends
/// with whitespace in between, what is left is that text.
pub proof fn trim_removes_surrounding_whitespace(before: Seq<char>, core: Seq<char>, after: Seq<char>)
    requires
        forall|k: int| 0 <= k < before.len() ==> is_whitespace(#[trigger] before[k]),
        forall|k: int| 0 <= k < after.len() ==> is_whitespace(#[trigger] after[k]),
        core.len() > 0 ==> !is_whitespace(core[0]) && !is_whitespace(core.last()),
    ensures
        trim(before + core + after) == core,
{
    let s = before + core + after;
    let b = before.len() as int;
    let c = core.len() as int;
    let n = s.len() as int;
    assert forall|k: int| 0 <= k < b implies is_whitespace(#[trigger] s[k]) by {
        assert(s[k] == before[k]);
    }
    assert forall|k: int| b + c <= k < n implies is_whitespace(#[trigger] s[k]) by {
        assert(s[k] == after[k - b - c]);
    }
    lemma_skip_whitespace_over(s, 0, b);
    if c > 0 {
        assert(s[b] == core[0]);
        assert(skip_whitespace(s, b) == b);
        lemma_trim_end_over(s, b, b + c, n);
        assert(s[b + c - 1] == core.last());
        assert(trim_end_index(s, b, b + c) == b + c);
        assert(s.subrange(b, b + c) =~= core);
    } else {
        lemma_skip_whitespace_over(s, b, n);
        assert(skip_whitespace(s, n) == n);
        assert(trim_end_index(s, n, n) == n);
        assert(s.subrange(n, n) =~= core);
    }
}

/// `char::is_whitespace`.
pub fn char_is_whitespace(c: char) -> (res: bool)
    ensures
        res == is_whitespace(c),
{
    ('\t' <= c && c <= '\r') || c == ' ' || c == '\u{85}' || c == '\u{a0}' || c == '\u{1680}'
        || ('\u{2000}' <= c && c <= '\u{200a}') || c == '\u{2028}' || c == '\u{2029}' || c
        == '\u{202f}' || c == '\u{205f}' || c == '\u{3000}'
}

/// The characters of `text`, in order.
pub fn chars_of(text: &str) -> (res: Vec<char>)
    ensures
        res@ == text@,
{
    let mut out: Vec<char> = Vec::new();
    for c in it: text.chars()
        invariant
            out@ == it.seq().take(it.index() as int),
    {
        out.push(c);
    }
    out
}

/// Appends one character to a `String` (`String::push`).
#[verifier::external_body]
pub(crate) fn push_char(text: &mut String, c: char)
    ensures
        final(text)@ == old(text)@.push(c),
{
    text.push(c);
}

/// Appends every character of `tail` to `text`.
pub fn push_chars(text: &mut String, tail: &[char])
    ensures
        final(text)@ == old(text)@ + tail@,
{
    let ghost start = text@;
    let mut i: usize = 0;
    while i < tail.len()
        invariant
            i <= tail.len(),
            text@ == start + tail@.take(i as int),
        decreases tail.len() - i,
    {
        push_char(text, tail[i]);
        i = i + 1;
        assert(tail@.take(i as int) == tail@.take(i - 1).push(tail@[i - 1]));
    }
    assert(tail@.take(i as int) == tail@);
}

/// A `String` holding exactly the characters of `chars`.
pub fn string_from_chars(chars: &[char]) -> (res: String)
    ensures
        res@ == chars@,
{
    let mut out = String::new();
    push_chars(&mut out, chars);
    out
}

/// `str::find` for one character, starting at `from`.
pub fn find_char_from(s: &[char], c: char, from: usize) -> (res: usize)
    requires
        from <= s.len(),
    ensures
        res == find_char(s@, c, from as int),
        from <= res <= s.len(),
{
    proof {
        lemma_find_char_bounds(s@, c, from as int);
    }
    let mut i = from;
    while i < s.len() && s[i] != c
        invariant
            from <= i <= s.len(),
            find_char(s@, c, i as int) == find_char(s@, c, from as int),
        decreases s.len() - i,
    {
        i = i + 1;
    }
    i
}

/// `str::rfind` for one character, before `end`: the index plus one, or
/// zero when there is none.
pub fn last_index_before(s: &[char], c: char, end: usize) -> (res: usize)
    requires
        end <= s.len(),
    ensures
        res == last_index(s@, c, end as int) + 1,
        res <= end,
{
    proof {
        lemma_last_index_bounds(s@, c, end as int);
    }
    let mut j = end;
    while j > 0 && s[j - 1] != c
        invariant
            j <= end <= s.len(),
            last_index(s@, c, j as int) == last_index(s@, c, end as int),
        decreases j,
    {
        j = j - 1;
    }
    j
}

/// First non-whitespace index at or after `from`.
pub fn skip_whitespace_from(s: &[char], from: usize) -> (res: usize)
    requires
        from <= s.len(),
    ensures
        res == skip_whitespace(s@, from as int),
        from <= res <= s.len(),
{
    proof {
        lemma_skip_whitespace_bounds(s@, from as int);
    }
    let mut i = from;
    while i < s.len() && char_is_whitespace(s[i])
        invariant
            from <= i <= s.len(),
            skip_whitespace(s@, i as int) == skip_whitespace(s@, from as int),
        decreases s.len() - i,
    {
        i = i + 1;
    }
    i
}

/// First whitespace index at or after `from`.
pub fn word_end_from(s: &[char], from: usize) -> (res: usize)
    requires
        from <= s.len(),
    ensures
        res == word_end(s@, from as int),
        from <= res <= s.len(),
{
    proof {
        lemma_word_end_bounds(s@, from as int);
    }
    let mut i = from;
    while i < s.len() && !char_is_whitespace(s[i])
        invariant
            from <= i <= s.len(),
            word_end(s@, i as int) == word_end(s@, from as int),
        decreases s.len() - i,
    {
        i = i + 1;
    }
    i
}

/// End of `s[lo..hi]` without its trailing whitespace.
pub fn trim_end_from(s: &[char], lo: usize, hi: usize) -> (res: usize)
    requires
        lo <= hi <= s.len(),
    ensures
        res == trim_end_index(s@, lo as int, hi as int),
        lo <= res <= hi,
{
    proof {
        lemma_trim_end_bounds(s@, lo as int, hi as int);
    }
    let mut j = hi;
    while j > lo && char_is_whitespace(s[j - 1])
        invariant
            lo <= j <= hi <= s.len(),
            trim_end_index(s@, lo as int, j as int) == trim_end_index(s@, lo as int, hi as int),
        decreases j - lo,
    {
        j = j - 1;
    }
    j
}

/// A copy of `s[lo..hi]`.
pub fn copy_range(s: &[char], lo: usize, hi: usize) -> (res: Vec<char>)
    requires
        lo <= hi <= s.len(),
    ensures
        res@ == s@.subrange(lo as int, hi as int),
{
    let mut out: Vec<char> = Vec::new();
    let mut i = lo;
    while i < hi
        invariant
            lo <= i <= hi <= s.len(),
            out@ == s@.subrange(lo as int, i as int),
        decreases hi - i,
    {
        out.push(s[i]);
        i = i + 1;
    }
    out
}

/// Whether `a` and `b` hold the same characters.
pub fn chars_equal(a: &[char], b: &[char]) -> (res: bool)
    ensures
        res == (a@ == b@),
{
    if a.len() != b.len() {
        return false;
    }
    let mut i: usize = 0;
    while i < a.len()
        invariant
            a.len() == b.len(),
            i <= a.len(),
            forall|k: int| 0 <= k < i ==> a@[k] == b@[k],
        decreases a.len() - i,
    {
        if a[i] != b[i] {
            return false;
        }
        i = i + 1;
    }
    assert(a@ =~= b@);
    true
}

/// `str::trim` on a whole character sequence.
pub fn trimmed(s: &[char]) -> (res: Vec<char>)
    ensures
        res@ == trim(s@),
{
    let lo = skip_whitespace_from(s, 0);
    let hi = trim_end_from(s, lo, s.len());
    copy_range(s, lo, hi)
}

} // verus!
