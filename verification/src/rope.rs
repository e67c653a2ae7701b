//! The text store: ropey's [`Rope`], seen through the characters it holds, and the
//! line structure that ropey gives those characters.
//!
//! Ropey (with its default `unicode_lines` feature) starts a new line after each line
//! break: LF, VT, FF, CR, NEL, LINE SEPARATOR, PARAGRAPH SEPARATOR, with CR LF counted
//! as one break; a break belongs to the line it ends. "Hello\nworld\n" has the three
//! lines "Hello\n", "world\n" and "".
use vstd::prelude::*;

use ropey::Rope;

verus! {

#[verifier::external_type_specification]
#[verifier::external_body]
pub struct ExRope(Rope);

/// The characters held by a rope.
pub uninterp spec fn rope_chars(r: Rope) -> Seq<char>;

/// Whether `c` is one of the characters that end a line.
pub open spec fn is_line_break(c: char) -> bool {
    c == '\n' || c == '\u{0B}' || c == '\u{0C}' || c == '\r' || c == '\u{85}' || c == '\u{2028}'
        || c == '\u{2029}'
}

/// Whether a new line starts at position `i` of `s`: just after a break, where a CR
/// followed by LF is no break of its own.
pub open spec fn begins_line(s: Seq<char>, i: int) -> bool {
    &&& 0 < i <= s.len()
    &&& is_line_break(s[i - 1])
    &&& !(s[i - 1] == '\r' && i < s.len() && s[i] == '\n')
}

/// The positions up to `n` at which lines start, in increasing order.
pub open spec fn starts_upto(s: Seq<char>, n: int) -> Seq<int>
    decreases n,
{
    if n <= 0 {
        seq![0int]
    } else if begins_line(s, n) {
        starts_upto(s, n - 1).push(n)
    } else {
        starts_upto(s, n - 1)
    }
}

/// The positions at which the lines of `s` start.
pub open spec fn line_starts(s: Seq<char>) -> Seq<int> {
    starts_upto(s, s.len() as int)
}

/// The number of lines of `s` (at least one).
pub open spec fn line_count(s: Seq<char>) -> nat {
    line_starts(s).len()
}

/// The position at which line `i` starts; one past the last line, the end of `s`.
pub open spec fn line_start(s: Seq<char>, i: int) -> int {
    if 0 <= i < line_count(s) {
        line_starts(s)[i]
    } else {
        s.len() as int
    }
}

/// The position at which line `i` ends (just after its break, if it has one).
pub open spec fn line_end(s: Seq<char>, i: int) -> int {
    if 0 <= i && i + 1 < line_count(s) {
        line_starts(s)[i + 1]
    } else {
        s.len() as int
    }
}

/// The characters of line `i`, its break included.
pub open spec fn raw_line(s: Seq<char>, i: int) -> Seq<char> {
    s.subrange(line_start(s, i), line_end(s, i))
}

/// The shape of `starts_upto`: it starts at 0, increases strictly and stays within `n`.
pub proof fn lemma_starts_upto(s: Seq<char>, n: int)
    requires
        0 <= n <= s.len(),
    ensures
        starts_upto(s, n).len() >= 1,
        starts_upto(s, n)[0] == 0,
        forall|a: int, b: int|
            0 <= a < b < starts_upto(s, n).len() ==> #[trigger] starts_upto(s, n)[a] < #[trigger] starts_upto(s, n)[b],
        forall|a: int| 0 <= a < starts_upto(s, n).len() ==> 0 <= #[trigger] starts_upto(s, n)[a] <= n,
        starts_upto(s, n).len() <= n + 1,
    decreases n,
{
    if n > 0 {
        lemma_starts_upto(s, n - 1);
    }
}

/// The line structure of `s`: lines start at increasing positions from 0, and line
/// `i` starts at or after position `i`.
pub proof fn lemma_lines(s: Seq<char>)
    ensures
        line_count(s) >= 1,
        line_count(s) <= s.len() + 1,
        line_start(s, 0) == 0,
        forall|i: int| 0 <= i ==> 0 <= #[trigger] line_start(s, i) <= s.len(),
        forall|i: int| 0 <= i ==> #[trigger] line_start(s, i) <= line_end(s, i) <= s.len(),
        forall|i: int| 0 <= i < line_count(s) ==> #[trigger] line_start(s, i) >= i,
        forall|i: int| 0 <= i < line_count(s) ==> #[trigger] line_end(s, i) == line_start(s, i + 1),
        forall|i: int, j: int| 0 <= i <= j ==> #[trigger] line_start(s, i) <= #[trigger] line_start(s, j),
{
    let st = line_starts(s);
    lemma_starts_upto(s, s.len() as int);
    assert forall|i: int| 0 <= i < line_count(s) implies #[trigger] line_start(s, i) >= i by {
        lemma_start_at_least_index(st, i);
    }
    assert forall|i: int, j: int| 0 <= i <= j implies #[trigger] line_start(s, i) <= #[trigger] line_start(s, j) by {
        if i < j && j < line_count(s) {
            assert(st[i] < st[j]);
        }
    }
    assert forall|i: int| 0 <= i implies #[trigger] line_start(s, i) <= line_end(s, i) <= s.len() by {
        if i + 1 < line_count(s) {
            assert(st[i] < st[i + 1]);
        }
    }
}

/// In a strictly increasing sequence of naturals starting at 0, entry `i` is at least `i`.
proof fn lemma_start_at_least_index(st: Seq<int>, i: int)
    requires
        0 <= i < st.len(),
        st[0] == 0,
        forall|a: int, b: int| 0 <= a < b < st.len() ==> #[trigger] st[a] < #[trigger] st[b],
    ensures
        st[i] >= i,
    decreases i,
{
    if i > 0 {
        lemma_start_at_least_index(st, i - 1);
        assert(st[i - 1] < st[i]);
    }
}

/// Up to `m`, the line starts are those up to `n` that lie at or before `m`: a prefix,
/// the rest lying beyond `m`.
proof fn lemma_starts_upto_prefix(s: Seq<char>, m: int, n: int)
    requires
        0 <= m <= n <= s.len(),
    ensures
        starts_upto(s, m).len() <= starts_upto(s, n).len(),
        forall|a: int| 0 <= a < starts_upto(s, m).len() ==> #[trigger] starts_upto(s, n)[a] == starts_upto(s, m)[a],
        forall|a: int| starts_upto(s, m).len() <= a < starts_upto(s, n).len() ==> #[trigger] starts_upto(s, n)[a] > m,
    decreases n - m,
{
    if n > m {
        lemma_starts_upto_prefix(s, m, n - 1);
        let p = starts_upto(s, n - 1);
        if begins_line(s, n) {
            assert(starts_upto(s, n) == p.push(n));
        } else {
            assert(starts_upto(s, n) == p);
        }
    }
}

/// Whether inserting at `idx` would split a CR from the LF after it.
pub open spec fn splits_crlf(s: Seq<char>, idx: int) -> bool {
    0 < idx < s.len() && s[idx - 1] == '\r' && s[idx] == '\n'
}

/// Before the insertion point, inserting a character that is no line break (and does
/// not split a CR from its LF) leaves the line starts alone.
proof fn lemma_starts_upto_insert(s: Seq<char>, idx: int, c: char, n: int)
    requires
        0 <= n <= idx <= s.len(),
        !is_line_break(c),
        !splits_crlf(s, idx),
    ensures
        starts_upto(s.insert(idx, c), n) == starts_upto(s, n),
    decreases n,
{
    if n > 0 {
        lemma_starts_upto_insert(s, idx, c, n - 1);
        let t = s.insert(idx, c);
        assert(t[n - 1] == s[n - 1]);
        if n < idx {
            assert(t[n] == s[n]);
        }
        assert(begins_line(t, n) == begins_line(s, n));
    }
}

/// Inserting a character that is no line break, at or after the start of line `l` and
/// without splitting a CR from its LF, keeps line `l` where it starts.
pub proof fn lemma_insert_keeps_line_start(s: Seq<char>, idx: int, c: char, l: int)
    requires
        0 <= l < line_count(s),
        line_start(s, l) <= idx <= s.len(),
        !is_line_break(c),
        !splits_crlf(s, idx),
    ensures
        l < line_count(s.insert(idx, c)),
        line_start(s.insert(idx, c), l) == line_start(s, l),
{
    lemma_lines(s);
    let t = s.insert(idx, c);
    lemma_starts_upto_prefix(s, idx, s.len() as int);
    lemma_starts_upto_insert(s, idx, c, idx);
    lemma_starts_upto_prefix(t, idx, t.len() as int);
    let p = starts_upto(s, idx);
    if l >= p.len() {
        assert(starts_upto(s, s.len() as int)[l] > idx);
    }
    assert(starts_upto(t, idx) == p);
}

/// ropey's `Rope::new`: an empty rope.
#[verifier::external_body]
pub(crate) fn rope_new() -> (r: Rope)
    ensures
        rope_chars(r) == Seq::<char>::empty(),
{
    Rope::new()
}

/// ropey's `Rope::from_str`: a rope holding the characters of `text`.
#[verifier::external_body]
pub(crate) fn rope_from_str(text: &str) -> (r: Rope)
    ensures
        rope_chars(r) == text@,
{
    Rope::from_str(text)
}

/// ropey's `Rope::len_chars`: the number of characters.
#[verifier::external_body]
pub(crate) fn rope_len_chars(r: &Rope) -> (n: usize)
    ensures
        n == rope_chars(*r).len(),
{
    r.len_chars()
}

/// ropey's `Rope::len_lines`: the number of lines (line breaks plus one).
#[verifier::external_body]
pub(crate) fn rope_len_lines(r: &Rope) -> (n: usize)
    ensures
        n == line_count(rope_chars(*r)),
{
    r.len_lines()
}

/// ropey's `Rope::line_to_char`: the character index at which line `line` starts;
/// one past the last line gives the number of characters. (It panics beyond that.)
#[verifier::external_body]
pub(crate) fn rope_line_to_char(r: &Rope, line: usize) -> (i: usize)
    requires
        line <= line_count(rope_chars(*r)),
    ensures
        i == line_start(rope_chars(*r), line as int),
{
    r.line_to_char(line)
}

/// ropey's `Rope::get_line`, turned into a `String`: the characters of line `line`,
/// its break included, or `None` past the last line.
#[verifier::external_body]
pub(crate) fn rope_line(r: &Rope, line: usize) -> (l: Option<String>)
    ensures
        match l {
            Some(t) => line < line_count(rope_chars(*r)) && t@ == raw_line(rope_chars(*r), line as int),
            None => line >= line_count(rope_chars(*r)),
        },
{
    match r.get_line(line) {
        Some(slice) => Some(slice.to_string()),
        None => None,
    }
}

/// ropey's `Rope::insert_char`: `c` is inserted before character `at`. (It panics for
/// `at` past the end.)
#[verifier::external_body]
pub(crate) fn rope_insert_char(r: &mut Rope, at: usize, c: char)
    requires
        at <= rope_chars(*old(r)).len(),
    ensures
        rope_chars(*final(r)) == rope_chars(*old(r)).insert(at as int, c),
{
    r.insert_char(at, c)
}

/// ropey's `Rope::remove` of the character range `start..end`. (It panics where
/// `start > end` or `end` is past the end.)
#[verifier::external_body]
pub(crate) fn rope_remove(r: &mut Rope, start: usize, end: usize)
    requires
        start <= end <= rope_chars(*old(r)).len(),
    ensures
        rope_chars(*final(r)) == rope_chars(*old(r)).subrange(0, start as int) + rope_chars(
            *old(r),
        ).subrange(end as int, rope_chars(*old(r)).len() as int),
{
    r.remove(start..end)
}

/// ropey's `Display for Rope`: the characters as a `String`.
#[verifier::external_body]
pub(crate) fn rope_to_string(r: &Rope) -> (s: String)
    ensures
        s@ == rope_chars(*r),
{
    r.to_string()
}

/// ropey's `Clone for Rope`: a rope holding the same characters.
#[verifier::external_body]
pub(crate) fn rope_clone(r: &Rope) -> (c: Rope)
    ensures
        rope_chars(c) == rope_chars(*r),
{
    r.clone()
}

} // verus!
