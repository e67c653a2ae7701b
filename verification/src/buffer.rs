//! A text buffer backed by a [`Rope`], with a cursor expressed as (line, column in
//! grapheme clusters) and an undo history of whole edits.
//!
//! The column counts grapheme clusters, so a cursor next to a flag emoji or a
//! combining accent advances by what a reader would call one character, not by one
//! UTF-8 byte or one scalar value.
use vstd::prelude::*;

use ropey::Rope;

use crate::rope::{
    is_line_break, lemma_insert_keeps_line_start, lemma_lines, splits_crlf, line_count, line_end, line_start, raw_line, rope_chars, rope_clone,
    rope_from_str, rope_insert_char, rope_len_chars, rope_len_lines, rope_line,
    rope_line_to_char, rope_new, rope_remove, rope_to_string,
};
use crate::text::{chars_of, string_of};
use crate::unicode::{extended_graphemes, graphemes_of, lemma_flatten_take_at_least, lemma_flatten_take_len};

verus! {

/// A cursor position: a line index and a column counted in grapheme clusters.
#[derive(Debug, Clone, Copy, Default, PartialEq, Eq, Structural)]
pub struct Cursor {
    pub line: usize,
    pub col: usize,
}

/// The text and cursor before an edit, kept for undo.
#[derive(Debug)]
struct Snapshot {
    rope: Rope,
    cursor: Cursor,
}

/// A text buffer: the characters, the file path they belong to, whether they changed
/// since the last save, the cursor, and the undo and redo histories.
#[derive(Debug)]
pub struct Buffer {
    rope: Rope,
    path: String,
    dirty: bool,
    cursor: Cursor,
    undo: Vec<Snapshot>,
    redo: Vec<Snapshot>,
}

/// What a [`Buffer`] holds, as values of the specification.
pub struct BufferView {
    pub text: Seq<char>,
    pub path: Seq<char>,
    pub dirty: bool,
    pub cursor: Cursor,
    /// Earlier states, the most recent last.
    pub undo: Seq<(Seq<char>, Cursor)>,
    /// Undone states, the most recently undone last.
    pub redo: Seq<(Seq<char>, Cursor)>,
}

spec fn snapshot_view(s: Snapshot) -> (Seq<char>, Cursor) {
    (rope_chars(s.rope), s.cursor)
}

impl View for Buffer {
    type V = BufferView;

    closed spec fn view(&self) -> BufferView {
        BufferView {
            text: rope_chars(self.rope),
            path: self.path@,
            dirty: self.dirty,
            cursor: self.cursor,
            undo: self.undo@.map_values(|s: Snapshot| snapshot_view(s)),
            redo: self.redo@.map_values(|s: Snapshot| snapshot_view(s)),
        }
    }
}

/// `t` without the line feeds at its end.
pub open spec fn trim_newlines(t: Seq<char>) -> Seq<char>
    decreases t.len(),
{
    if t.len() > 0 && t.last() == '\n' {
        trim_newlines(t.drop_last())
    } else {
        t
    }
}

/// Line `i` of `s` as the buffer shows it: without its trailing line feed; empty past
/// the last line.
pub open spec fn line_text(s: Seq<char>, i: int) -> Seq<char> {
    if 0 <= i < line_count(s) {
        trim_newlines(raw_line(s, i))
    } else {
        Seq::<char>::empty()
    }
}

/// The grapheme clusters of line `i`.
pub open spec fn line_graphemes(s: Seq<char>, i: int) -> Seq<Seq<char>> {
    extended_graphemes(line_text(s, i))
}

/// The number of grapheme clusters of line `i`.
pub open spec fn grapheme_count(s: Seq<char>, i: int) -> nat {
    line_graphemes(s, i).len()
}

/// The smaller of two integers.
pub open spec fn min(a: int, b: int) -> int {
    if a <= b {
        a
    } else {
        b
    }
}

/// The number of characters in the first `col` clusters of line `line` (all of them
/// where the line has fewer).
pub open spec fn col_offset(s: Seq<char>, line: int, col: int) -> int {
    line_graphemes(s, line).take(min(col, grapheme_count(s, line) as int)).flatten().len() as int
}

/// The character index of the position (`line`, `col`): the start of the line (the
/// end of the text past the last line) plus the characters of the first `col`
/// clusters of the line.
pub open spec fn char_index(s: Seq<char>, line: int, col: int) -> int {
    line_start(s, min(line, line_count(s) as int)) + col_offset(s, line, col)
}

/// The characters of `s` without the range `start..end`.
pub open spec fn without(s: Seq<char>, start: int, end: int) -> Seq<char> {
    s.subrange(0, start) + s.subrange(end, s.len() as int)
}

/// The state after an edit of `v` that leaves `text` and `cursor`: changed since the
/// save, the former state pushed on the undo history, nothing left to redo.
pub open spec fn edited(v: BufferView, text: Seq<char>, cursor: Cursor) -> BufferView {
    BufferView {
        text,
        path: v.path,
        dirty: true,
        cursor,
        undo: v.undo.push((v.text, v.cursor)),
        redo: Seq::empty(),
    }
}

/// The state of `v` with the cursor moved to `cursor`.
pub open spec fn moved(v: BufferView, cursor: Cursor) -> BufferView {
    BufferView { cursor, ..v }
}

/// How many characters a forward delete at (`line`, `col`) removes: the cluster under
/// the cursor, or the one character (a line break) after the end of the line.
pub open spec fn forward_extent(s: Seq<char>, line: int, col: int) -> int {
    if col < grapheme_count(s, line) {
        line_graphemes(s, line)[col].len() as int
    } else {
        1
    }
}

/// Where a backspace at `c` moves the cursor: one cluster left, or from the start of a
/// line to the end of the line above.
pub open spec fn backspace_target(s: Seq<char>, c: Cursor) -> Cursor {
    if c.col > 0 {
        Cursor { line: c.line, col: (c.col - 1) as usize }
    } else {
        Cursor { line: (c.line - 1) as usize, col: grapheme_count(s, c.line - 1) as usize }
    }
}

/// Whether a cluster is blank: it starts with a space or a tab.
pub open spec fn is_blank(g: Seq<char>) -> bool {
    g.len() > 0 && (g[0] == ' ' || g[0] == '\t')
}

/// The first position from `i` on that is not inside a word.
pub open spec fn skip_word(gs: Seq<Seq<char>>, i: int) -> int
    decreases gs.len() - i,
{
    if 0 <= i < gs.len() && !is_blank(gs[i]) {
        skip_word(gs, i + 1)
    } else {
        i
    }
}

/// The first position from `i` on that is not blank.
pub open spec fn skip_blank(gs: Seq<Seq<char>>, i: int) -> int
    decreases gs.len() - i,
{
    if 0 <= i < gs.len() && is_blank(gs[i]) {
        skip_blank(gs, i + 1)
    } else {
        i
    }
}

/// Going left from `i`, the first position not preceded by a blank.
pub open spec fn back_blank(gs: Seq<Seq<char>>, i: int) -> int
    decreases i,
{
    if 0 < i <= gs.len() && is_blank(gs[i - 1]) {
        back_blank(gs, i - 1)
    } else {
        i
    }
}

/// Going left from `i`, the start of the word that ends there.
pub open spec fn back_word(gs: Seq<Seq<char>>, i: int) -> int
    decreases i,
{
    if 0 < i <= gs.len() && !is_blank(gs[i - 1]) {
        back_word(gs, i - 1)
    } else {
        i
    }
}

/// Where a word-forward motion from `c` lands: past the rest of the current word and
/// the blanks after it; from the end of a line, the start of the next line.
pub open spec fn word_forward_target(s: Seq<char>, c: Cursor) -> Cursor {
    let gs = line_graphemes(s, c.line as int);
    let i = skip_blank(gs, skip_word(gs, min(c.col as int, gs.len() as int)));
    if i == gs.len() && c.line + 1 < line_count(s) {
        Cursor { line: (c.line + 1) as usize, col: 0 }
    } else {
        Cursor { line: c.line, col: i as usize }
    }
}

/// Where a word-back motion from `c` lands: back over blanks, then to the start of the
/// word before them; from the start of a line, the end of the line above.
pub open spec fn word_back_target(s: Seq<char>, c: Cursor) -> Cursor {
    let gs = line_graphemes(s, c.line as int);
    let i = min(c.col as int, gs.len() as int);
    if i == 0 {
        if c.line > 0 {
            Cursor { line: (c.line - 1) as usize, col: grapheme_count(s, c.line - 1) as usize }
        } else {
            c
        }
    } else {
        Cursor { line: c.line, col: back_word(gs, back_blank(gs, i)) as usize }
    }
}

/// The state after undoing in `v`: the most recent earlier state comes back, and the
/// current one is kept for redo.
pub open spec fn undone(v: BufferView) -> BufferView {
    BufferView {
        text: v.undo.last().0,
        path: v.path,
        dirty: true,
        cursor: v.undo.last().1,
        undo: v.undo.drop_last(),
        redo: v.redo.push((v.text, v.cursor)),
    }
}

/// The state after redoing in `v`: the most recently undone state comes back, and the
/// current one goes back on the undo history.
pub open spec fn redone(v: BufferView) -> BufferView {
    BufferView {
        text: v.redo.last().0,
        path: v.path,
        dirty: true,
        cursor: v.redo.last().1,
        undo: v.undo.push((v.text, v.cursor)),
        redo: v.redo.drop_last(),
    }
}

/// The state after inserting `c` at the cursor: the character goes in at the cursor's
/// index and the cursor moves past it, to the start of the next line for a line feed.
pub open spec fn after_insert_char(v: BufferView, c: char) -> BufferView {
    edited(
        v,
        v.text.insert(char_index(v.text, v.cursor.line as int, v.cursor.col as int), c),
        if c == '\n' {
            Cursor { line: (v.cursor.line + 1) as usize, col: 0 }
        } else {
            Cursor { line: v.cursor.line, col: (v.cursor.col + 1) as usize }
        },
    )
}

/// The state after a backspace: at the start of the text nothing changes; otherwise
/// the characters between the backspace target and the cursor go, and the cursor
/// moves to the target.
pub open spec fn after_backspace(v: BufferView) -> BufferView {
    if v.cursor.line == 0 && v.cursor.col == 0 {
        v
    } else {
        let t = backspace_target(v.text, v.cursor);
        edited(
            v,
            without(
                v.text,
                char_index(v.text, t.line as int, t.col as int),
                char_index(v.text, v.cursor.line as int, v.cursor.col as int),
            ),
            t,
        )
    }
}

/// The state after a forward delete: at the end of the text nothing changes;
/// otherwise the cluster under the cursor (or the line break after the line's end)
/// goes, and the cursor stays.
pub open spec fn after_delete_forward(v: BufferView) -> BufferView {
    let start = char_index(v.text, v.cursor.line as int, v.cursor.col as int);
    if start >= v.text.len() {
        v
    } else {
        edited(
            v,
            without(
                v.text,
                start,
                min(start + forward_extent(v.text, v.cursor.line as int, v.cursor.col as int), v.text.len() as int),
            ),
            v.cursor,
        )
    }
}

/// The state after moving left: one cluster left, or from the start of a line to the
/// end of the line above.
pub open spec fn after_move_left(v: BufferView) -> BufferView {
    moved(
        v,
        if v.cursor.col > 0 {
            Cursor { line: v.cursor.line, col: (v.cursor.col - 1) as usize }
        } else if v.cursor.line > 0 {
            Cursor { line: (v.cursor.line - 1) as usize, col: grapheme_count(v.text, v.cursor.line - 1) as usize }
        } else {
            v.cursor
        },
    )
}

/// The state after moving right: one cluster right, or from the end of a line to the
/// start of the next one.
pub open spec fn after_move_right(v: BufferView) -> BufferView {
    moved(
        v,
        if v.cursor.col < grapheme_count(v.text, v.cursor.line as int) {
            Cursor { line: v.cursor.line, col: (v.cursor.col + 1) as usize }
        } else if v.cursor.line + 1 < line_count(v.text) {
            Cursor { line: (v.cursor.line + 1) as usize, col: 0 }
        } else {
            v.cursor
        },
    )
}

/// The state after moving up: the line above, the column clamped to its length; on
/// the first line, its start.
pub open spec fn after_move_up(v: BufferView) -> BufferView {
    moved(
        v,
        if v.cursor.line == 0 {
            Cursor { line: 0, col: 0 }
        } else {
            Cursor {
                line: (v.cursor.line - 1) as usize,
                col: min(v.cursor.col as int, grapheme_count(v.text, v.cursor.line - 1) as int) as usize,
            }
        },
    )
}

/// The state after moving down: the line below, the column clamped to its length; on
/// the last line, its end.
pub open spec fn after_move_down(v: BufferView) -> BufferView {
    moved(
        v,
        if v.cursor.line + 1 >= line_count(v.text) {
            Cursor { line: v.cursor.line, col: grapheme_count(v.text, v.cursor.line as int) as usize }
        } else {
            Cursor {
                line: (v.cursor.line + 1) as usize,
                col: min(v.cursor.col as int, grapheme_count(v.text, v.cursor.line + 1) as int) as usize,
            }
        },
    )
}

/// The state after moving to the start of the line.
pub open spec fn after_move_home(v: BufferView) -> BufferView {
    moved(v, Cursor { line: v.cursor.line, col: 0 })
}

/// The state after moving to the end of the line.
pub open spec fn after_move_end(v: BufferView) -> BufferView {
    moved(v, Cursor { line: v.cursor.line, col: grapheme_count(v.text, v.cursor.line as int) as usize })
}

/// The state after moving to the end of the last line.
pub open spec fn after_move_buffer_end(v: BufferView) -> BufferView {
    moved(
        v,
        Cursor {
            line: (line_count(v.text) - 1) as usize,
            col: grapheme_count(v.text, line_count(v.text) - 1) as usize,
        },
    )
}

/// The state after deleting the cursor's line (see [`Buffer::delete_line`]).
pub open spec fn after_delete_line(v: BufferView) -> BufferView {
    let l = v.cursor.line as int;
    let start = line_start(v.text, l);
    let end = line_end(v.text, l);
    let t = without(v.text, start, end);
    if l < line_count(v.text) && start < end {
        edited(v, t, Cursor { line: min(l, line_count(t) - 1) as usize, col: 0 })
    } else {
        v
    }
}

/// Whether `c` lies inside the text `s`: on one of its lines, at most at that line's end.
pub open spec fn cursor_inside(s: Seq<char>, c: Cursor) -> bool {
    c.line < line_count(s) && c.col <= grapheme_count(s, c.line as int)
}

proof fn lemma_skip_word_within(gs: Seq<Seq<char>>, i: int)
    requires
        0 <= i <= gs.len(),
    ensures
        i <= skip_word(gs, i) <= gs.len(),
    decreases gs.len() - i,
{
    if i < gs.len() && !is_blank(gs[i]) {
        lemma_skip_word_within(gs, i + 1);
    }
}

proof fn lemma_skip_blank_within(gs: Seq<Seq<char>>, i: int)
    requires
        0 <= i <= gs.len(),
    ensures
        i <= skip_blank(gs, i) <= gs.len(),
    decreases gs.len() - i,
{
    if i < gs.len() && is_blank(gs[i]) {
        lemma_skip_blank_within(gs, i + 1);
    }
}

proof fn lemma_back_blank_within(gs: Seq<Seq<char>>, i: int)
    requires
        0 <= i <= gs.len(),
    ensures
        0 <= back_blank(gs, i) <= i,
    decreases i,
{
    if 0 < i && is_blank(gs[i - 1]) {
        lemma_back_blank_within(gs, i - 1);
    }
}

proof fn lemma_back_word_within(gs: Seq<Seq<char>>, i: int)
    requires
        0 <= i <= gs.len(),
    ensures
        0 <= back_word(gs, i) <= i,
    decreases i,
{
    if 0 < i && !is_blank(gs[i - 1]) {
        lemma_back_word_within(gs, i - 1);
    }
}

/// Every cursor motion keeps a cursor that lies inside the text inside it: on an
/// existing line, at most at that line's last grapheme cluster. (A buffer holds at
/// most `usize::MAX` characters.) Moving up or down onto
/// a shorter line clamps the column to that line's length, and keeps it where it
/// fits.
pub proof fn lemma_motions_stay_inside(v: BufferView)
    requires
        cursor_inside(v.text, v.cursor),
        v.text.len() <= usize::MAX,
    ensures
        cursor_inside(v.text, after_move_left(v).cursor),
        cursor_inside(v.text, after_move_right(v).cursor),
        cursor_inside(v.text, after_move_up(v).cursor),
        cursor_inside(v.text, after_move_down(v).cursor),
        cursor_inside(v.text, after_move_home(v).cursor),
        cursor_inside(v.text, after_move_end(v).cursor),
        cursor_inside(v.text, moved(v, Cursor { line: 0, col: 0 }).cursor),
        cursor_inside(v.text, after_move_buffer_end(v).cursor),
        cursor_inside(v.text, word_forward_target(v.text, v.cursor)),
        cursor_inside(v.text, word_back_target(v.text, v.cursor)),
        v.cursor.line > 0 ==> after_move_up(v).cursor.line == v.cursor.line - 1,
        v.cursor.line > 0 ==> after_move_up(v).cursor.col <= grapheme_count(v.text, v.cursor.line - 1),
        v.cursor.line > 0 && v.cursor.col <= grapheme_count(v.text, v.cursor.line - 1) ==> after_move_up(
            v,
        ).cursor.col == v.cursor.col,
        v.cursor.line + 1 < line_count(v.text) ==> after_move_down(v).cursor.line == v.cursor.line + 1,
        v.cursor.line + 1 < line_count(v.text) && v.cursor.col <= grapheme_count(v.text, v.cursor.line + 1)
            ==> after_move_down(v).cursor.col == v.cursor.col,
        v.cursor.line + 1 < line_count(v.text) ==> after_move_down(v).cursor.col <= grapheme_count(
            v.text,
            v.cursor.line + 1,
        ),
{
    let s = v.text;
    assert(1 <= line_count(s) <= s.len() + 1) by {
        lemma_lines(s);
    }
    assert(cursor_inside(s, word_forward_target(s, v.cursor))) by {
        let gs = line_graphemes(s, v.cursor.line as int);
        let start = min(v.cursor.col as int, gs.len() as int);
        lemma_skip_word_within(gs, start);
        lemma_skip_blank_within(gs, skip_word(gs, start));
    }
    assert(cursor_inside(s, word_back_target(s, v.cursor))) by {
        let gs = line_graphemes(s, v.cursor.line as int);
        let start = min(v.cursor.col as int, gs.len() as int);
        lemma_back_blank_within(gs, start);
        lemma_back_word_within(gs, back_blank(gs, start));
    }
}


/// Trimming line feeds keeps a prefix of the text.
proof fn lemma_trim_newlines_prefix(t: Seq<char>)
    ensures
        trim_newlines(t).len() <= t.len(),
        trim_newlines(t) == t.take(trim_newlines(t).len() as int),
    decreases t.len(),
{
    if t.len() > 0 && t.last() == '\n' {
        lemma_trim_newlines_prefix(t.drop_last());
        assert(t.drop_last().take(trim_newlines(t).len() as int) =~= t.take(trim_newlines(t).len() as int));
    } else {
        assert(t.take(t.len() as int) =~= t);
    }
}

/// The characters of the first `k` clusters begin the characters of them all.
proof fn lemma_flatten_take_prefix(gs: Seq<Seq<char>>, k: int)
    requires
        0 <= k <= gs.len(),
    ensures
        gs.take(k).flatten().len() <= gs.flatten().len(),
        gs.flatten().take(gs.take(k).flatten().len() as int) == gs.take(k).flatten(),
    decreases gs.len(),
{
    if k == gs.len() {
        assert(gs.take(k) =~= gs);
        assert(gs.flatten().take(gs.flatten().len() as int) =~= gs.flatten());
    } else {
        let d = gs.drop_last();
        lemma_flatten_take_prefix(d, k);
        assert(d.take(k) =~= gs.take(k));
        assert(d.push(gs.last()) =~= gs);
        d.lemma_flatten_push(gs.last());
        assert(gs.flatten().take(gs.take(k).flatten().len() as int) =~= d.flatten().take(
            gs.take(k).flatten().len() as int,
        ));
    }
}

/// A forward delete inside a line removes exactly the grapheme cluster under the
/// cursor: the characters it takes out are that cluster, the rest of the text closes
/// up around the gap, and the cursor stays. (This rests on the line's clusters
/// spelling the line, as segmentation does.)
#[verifier::spinoff_prover]
pub proof fn lemma_delete_forward_removes_cluster(v: BufferView)
    requires
        v.cursor.line < line_count(v.text),
        v.cursor.col < grapheme_count(v.text, v.cursor.line as int),
        line_graphemes(v.text, v.cursor.line as int).flatten() == line_text(v.text, v.cursor.line as int),
    ensures
        v.text.subrange(
            char_index(v.text, v.cursor.line as int, v.cursor.col as int),
            char_index(v.text, v.cursor.line as int, v.cursor.col as int) + line_graphemes(
                v.text,
                v.cursor.line as int,
            )[v.cursor.col as int].len(),
        ) == line_graphemes(v.text, v.cursor.line as int)[v.cursor.col as int],
        after_delete_forward(v).text == v.text.subrange(
            0,
            char_index(v.text, v.cursor.line as int, v.cursor.col as int),
        ) + v.text.subrange(
            char_index(v.text, v.cursor.line as int, v.cursor.col as int) + line_graphemes(
                v.text,
                v.cursor.line as int,
            )[v.cursor.col as int].len(),
            v.text.len() as int,
        ),
        after_delete_forward(v).cursor == v.cursor,
{
    let s = v.text;
    let l = v.cursor.line as int;
    let col = v.cursor.col as int;
    let gs = line_graphemes(s, l);
    let g = gs[col];
    let lt = line_text(s, l);
    let ls = line_start(s, l);
    lemma_lines(s);
    lemma_line_text_fits(s, l);
    lemma_trim_newlines_prefix(raw_line(s, l));
    assert(lt == s.subrange(ls, ls + lt.len()));
    let p = gs.take(col).flatten();
    assert(gs.take(col + 1) =~= gs.take(col).push(g));
    gs.take(col).lemma_flatten_push(g);
    lemma_flatten_take_prefix(gs, col + 1);
    let q = gs.take(col + 1).flatten();
    assert(q == p + g);
    assert(lt.take(q.len() as int) == q);
    assert(lt.subrange(p.len() as int, (p.len() + g.len()) as int) =~= g) by {
        assert forall|i: int| 0 <= i < g.len() implies lt[p.len() + i] == g[i] by {
            assert(q[p.len() + i] == g[i]);
            assert(lt.take(q.len() as int)[p.len() + i] == lt[p.len() + i]);
        }
    }
    let start = char_index(s, l, col);
    assert(start == ls + p.len());
    assert(s.subrange(start, start + g.len()) =~= g) by {
        assert forall|i: int| 0 <= i < g.len() implies s[start + i] == g[i] by {
            assert(lt[p.len() + i] == s[ls + p.len() + i]);
        }
    }
    assert(forward_extent(s, l, col) == g.len());
}

/// Undoing an edit brings back the text and cursor from before it, with the earlier
/// history as it was, and keeps the edit for redo.
pub proof fn lemma_undo_reverts_edit(v: BufferView, text: Seq<char>, cursor: Cursor)
    ensures
        edited(v, text, cursor).undo.len() > 0,
        undone(edited(v, text, cursor)).text == v.text,
        undone(edited(v, text, cursor)).cursor == v.cursor,
        undone(edited(v, text, cursor)).undo == v.undo,
        undone(edited(v, text, cursor)).path == v.path,
        undone(edited(v, text, cursor)).redo == seq![(text, cursor)],
{
    assert(v.undo.push((v.text, v.cursor)).drop_last() =~= v.undo);
    assert(Seq::<(Seq<char>, Cursor)>::empty().push((text, cursor)) =~= seq![(text, cursor)]);
}

/// Redoing right after an undo restores the state from before the undo (marked as
/// changed since the save).
pub proof fn lemma_redo_reverts_undo(v: BufferView)
    requires
        v.undo.len() > 0,
    ensures
        undone(v).redo.len() > 0,
        redone(undone(v)) == (BufferView { dirty: true, ..v }),
{
    assert(v.undo.drop_last().push(v.undo.last()) =~= v.undo);
    assert(v.redo.push((v.text, v.cursor)).drop_last() =~= v.redo);
}

/// Undoing right after a redo restores the state from before the redo (marked as
/// changed since the save).
pub proof fn lemma_undo_reverts_redo(v: BufferView)
    requires
        v.redo.len() > 0,
    ensures
        redone(v).undo.len() > 0,
        undone(redone(v)) == (BufferView { dirty: true, ..v }),
{
    assert(v.redo.drop_last().push(v.redo.last()) =~= v.redo);
    assert(v.undo.push((v.text, v.cursor)).drop_last() =~= v.undo);
}

/// A backspace right after inserting a character takes exactly that character away
/// again: the text and the cursor are back as they were. This holds where the
/// character stands as a grapheme cluster of its own in the line it joins, with the
/// cursor inside the text; a line break, a character that merges with the cluster
/// before it (such as a combining accent), or one put between a CR and its LF changes
/// more than one cluster and is left out.
#[verifier::spinoff_prover]
#[verifier::rlimit(40)]
pub proof fn lemma_backspace_undoes_insert(v: BufferView, c: char)
    requires
        v.cursor.line < line_count(v.text),
        v.cursor.col <= grapheme_count(v.text, v.cursor.line as int),
        v.cursor.col < usize::MAX,
        char_index(v.text, v.cursor.line as int, v.cursor.col as int) <= v.text.len(),
        !is_line_break(c),
        !splits_crlf(v.text, char_index(v.text, v.cursor.line as int, v.cursor.col as int)),
        line_graphemes(after_insert_char(v, c).text, v.cursor.line as int) == line_graphemes(
            v.text,
            v.cursor.line as int,
        ).take(v.cursor.col as int) + seq![seq![c]] + line_graphemes(v.text, v.cursor.line as int).skip(
            v.cursor.col as int,
        ),
    ensures
        after_backspace(after_insert_char(v, c)).text == v.text,
        after_backspace(after_insert_char(v, c)).cursor == v.cursor,
{
    let s = v.text;
    let l = v.cursor.line as int;
    let col = v.cursor.col as int;
    let idx = char_index(s, l, col);
    let t = s.insert(idx, c);
    let gs = line_graphemes(s, l);
    let gt = line_graphemes(t, l);
    lemma_lines(s);
    assert(line_start(s, l) <= idx);
    lemma_insert_keeps_line_start(s, idx, c, l);
    assert(gt.len() == gs.len() + 1);
    assert(gt.take(col) =~= gs.take(col));
    assert(gt.take(col + 1) =~= gs.take(col).push(seq![c]));
    gs.take(col).lemma_flatten_push(seq![c]);
    assert(char_index(t, l, col) == idx);
    assert(char_index(t, l, col + 1) == idx + 1);
    let w = after_insert_char(v, c);
    assert(w.text == t);
    assert(w.cursor == Cursor { line: v.cursor.line, col: (v.cursor.col + 1) as usize });
    assert(backspace_target(t, w.cursor) == v.cursor);
    assert(without(t, idx, idx + 1) =~= s);
}

/// Trimming line feeds never lengthens.
proof fn lemma_trim_newlines_len(t: Seq<char>)
    ensures
        trim_newlines(t).len() <= t.len(),
    decreases t.len(),
{
    if t.len() > 0 && t.last() == '\n' {
        lemma_trim_newlines_len(t.drop_last());
    }
}

/// A line's text fits between the line's start and its end.
proof fn lemma_line_text_fits(s: Seq<char>, i: int)
    requires
        0 <= i,
    ensures
        i < line_count(s) ==> line_start(s, i) + line_text(s, i).len() <= line_end(s, i),
        line_start(s, min(i, line_count(s) as int)) + line_text(s, i).len() <= s.len(),
{
    lemma_lines(s);
    if i < line_count(s) {
        lemma_trim_newlines_len(raw_line(s, i));
    } else {
        assert(line_start(s, line_count(s) as int) == s.len());
    }
}

/// `t` with its trailing line feeds removed.
fn trim_newlines_of(t: &str) -> (r: String)
    ensures
        r@ == trim_newlines(t@),
{
    let v = chars_of(t);
    let mut k = v.len();
    assert(v@.take(k as int) == v@);
    while k > 0 && v[k - 1] == '\n'
        invariant
            k <= v@.len(),
            v@ == t@,
            trim_newlines(v@) == trim_newlines(v@.take(k as int)),
        decreases k,
    {
        assert(v@.take(k as int).drop_last() == v@.take(k - 1));
        k = k - 1;
    }
    string_of(&v[0..k])
}

impl Buffer {
    /// A buffer for the file at `path` holding `contents` (empty where the file does
    /// not exist yet), cursor at the start, unchanged, with no history.
    pub fn open(path: String, contents: Option<&str>) -> (b: Buffer)
        ensures
            b@.text == (match contents {
                Some(t) => t@,
                None => Seq::<char>::empty(),
            }),
            b@.path == path@,
            !b@.dirty,
            b@.cursor == (Cursor { line: 0, col: 0 }),
            b@.undo.len() == 0,
            b@.redo.len() == 0,
    {
        let rope = match contents {
            Some(t) => rope_from_str(t),
            None => rope_new(),
        };
        Buffer { rope, path, dirty: false, cursor: Cursor { line: 0, col: 0 }, undo: Vec::new(), redo: Vec::new() }
    }

    /// The path of the file the buffer belongs to.
    pub fn path(&self) -> (p: &str)
        ensures
            p@ == self@.path,
    {
        self.path.as_str()
    }

    /// Whether the text changed since it was opened or last saved.
    pub fn is_dirty(&self) -> (d: bool)
        ensures
            d == self@.dirty,
    {
        self.dirty
    }

    /// The cursor.
    pub fn cursor(&self) -> (c: Cursor)
        ensures
            c == self@.cursor,
    {
        self.cursor
    }

    /// The whole text, as it is written out on save.
    pub fn text(&self) -> (s: String)
        ensures
            s@ == self@.text,
    {
        rope_to_string(&self.rope)
    }

    /// Record that the text was written out: the buffer is no longer dirty.
    pub fn mark_saved(&mut self)
        ensures
            final(self)@ == (BufferView { dirty: false, ..old(self)@ }),
    {
        self.dirty = false;
    }

    /// The number of characters of the text.
    pub fn len_chars(&self) -> (n: usize)
        ensures
            n == self@.text.len(),
    {
        rope_len_chars(&self.rope)
    }

    /// The number of lines (at least one).
    pub fn line_count(&self) -> (n: usize)
        ensures
            n == line_count(self@.text),
            n >= 1,
    {
        proof {
            lemma_lines(rope_chars(self.rope));
        }
        let n = rope_len_lines(&self.rope);
        if n > 1 {
            n
        } else {
            1
        }
    }

    /// Line `line` without its trailing line feed; empty past the last line.
    pub fn line(&self, line: usize) -> (s: String)
        ensures
            s@ == line_text(self@.text, line as int),
    {
        match rope_line(&self.rope, line) {
            Some(t) => trim_newlines_of(t.as_str()),
            None => String::new(),
        }
    }

    /// The number of grapheme clusters of line `line`.
    fn line_grapheme_count(&self, line: usize) -> (n: usize)
        ensures
            n == grapheme_count(self@.text, line as int),
            n <= line_text(self@.text, line as int).len(),
    {
        let text = self.line(line);
        let gs = graphemes_of(text.as_str());
        proof {
            let gv = gs@.map_values(|g: String| g@);
            assert forall|i: int| 0 <= i < gv.len() implies (#[trigger] gv[i]).len() > 0 by {
                assert(gv[i] == gs@[i]@);
            }
            lemma_flatten_take_at_least(gv, gv.len() as int);
            assert(gv.take(gv.len() as int) == gv);
        }
        gs.len()
    }

    /// The character index of the cursor.
    fn cursor_char_idx(&self) -> (i: usize)
        ensures
            i == char_index(self@.text, self@.cursor.line as int, self@.cursor.col as int),
            i <= self@.text.len(),
    {
        self.line_col_to_char_idx(self.cursor.line, self.cursor.col)
    }

    /// The character index of the position (`line`, `col`), see [`char_index`].
    fn line_col_to_char_idx(&self, line: usize, col: usize) -> (i: usize)
        ensures
            i == char_index(self@.text, line as int, col as int),
            i <= self@.text.len(),
            0 <= col_offset(self@.text, line as int, col as int) <= line_text(self@.text, line as int).len(),
            col >= grapheme_count(self@.text, line as int) ==> col_offset(self@.text, line as int, col as int)
                == line_text(self@.text, line as int).len(),
            col <= grapheme_count(self@.text, line as int) ==> col_offset(self@.text, line as int, col as int) >= col,
    {
        let ghost s = rope_chars(self.rope);
        let _len = rope_len_chars(&self.rope);
        let count = rope_len_lines(&self.rope);
        let l = if line < count {
            line
        } else {
            count
        };
        let start = rope_line_to_char(&self.rope, l);
        let text = self.line(line);
        let gs = graphemes_of(text.as_str());
        let ghost gv = gs@.map_values(|g: String| g@);
        let n = if col < gs.len() {
            col
        } else {
            gs.len()
        };
        proof {
            lemma_line_text_fits(s, line as int);
            assert forall|i: int| 0 <= i < gv.len() implies (#[trigger] gv[i]).len() > 0 by {
                assert(gv[i] == gs@[i]@);
            }
            lemma_flatten_take_len(gv, n as int);
            lemma_flatten_take_at_least(gv, n as int);
            assert(gv.take(gv.len() as int) == gv);
        }
        let mut off: usize = 0;
        let mut k: usize = 0;
        assert(gv.take(0) =~= Seq::<Seq<char>>::empty());
        while k < n
            invariant
                n <= gs@.len(),
                gv == gs@.map_values(|g: String| g@),
                gv.flatten() == text@,
                text@.len() <= s.len(),
                s.len() <= usize::MAX,
                k <= n,
                off == gv.take(k as int).flatten().len(),
            decreases n - k,
        {
            proof {
                assert(gv.take(k + 1) == gv.take(k as int).push(gv[k as int]));
                gv.take(k as int).lemma_flatten_push(gv[k as int]);
                lemma_flatten_take_len(gv, k + 1);
            }
            let g = gs[k].as_str().unicode_len();
            off = off + g;
            k = k + 1;
        }
        start + off
    }

    /// Keep the current text and cursor for undo; a new edit leaves nothing to redo.
    fn record_undo(&mut self)
        ensures
            final(self)@ == (BufferView {
                undo: old(self)@.undo.push((old(self)@.text, old(self)@.cursor)),
                redo: Seq::empty(),
                ..old(self)@
            }),
    {
        let snap = Snapshot { rope: rope_clone(&self.rope), cursor: self.cursor };
        let ghost before = self.undo@;
        self.undo.push(snap);
        self.redo = Vec::new();
        assert(self.undo@.map_values(|s: Snapshot| snapshot_view(s)) =~= before.map_values(
            |s: Snapshot| snapshot_view(s),
        ).push(snapshot_view(snap)));
        assert(self.redo@.map_values(|s: Snapshot| snapshot_view(s)) =~= Seq::<(Seq<char>, Cursor)>::empty());
    }

    /// Insert `c` at the cursor and move past it; a line feed moves the cursor to the
    /// start of the next line. (The cursor's coordinates must have room to grow.)
    pub fn insert_char(&mut self, c: char)
        requires
            old(self)@.cursor.line < usize::MAX,
            old(self)@.cursor.col < usize::MAX,
        ensures
            final(self)@ == after_insert_char(old(self)@, c),
    {
        let idx = self.cursor_char_idx();
        self.record_undo();
        rope_insert_char(&mut self.rope, idx, c);
        self.dirty = true;
        if c == '\n' {
            self.cursor.line = self.cursor.line + 1;
            self.cursor.col = 0;
        } else {
            self.cursor.col = self.cursor.col + 1;
        }
    }

    /// Insert a line break at the cursor.
    pub fn insert_newline(&mut self)
        requires
            old(self)@.cursor.line < usize::MAX,
            old(self)@.cursor.col < usize::MAX,
        ensures
            final(self)@ == after_insert_char(old(self)@, '\n'),
    {
        self.insert_char('\n');
    }

    /// Delete the cluster before the cursor, or at the start of a line the line break
    /// before it (joining the two lines); nothing happens at the start of the text.
    pub fn backspace(&mut self)
        ensures
            final(self)@ == after_backspace(old(self)@),
    {
        if self.cursor.col == 0 && self.cursor.line == 0 {
            return;
        }
        let ghost s = rope_chars(self.rope);
        let line = self.cursor.line;
        let col = self.cursor.col;
        let end = self.cursor_char_idx();
        let (prev_line, prev_col) = if col > 0 {
            (line, col - 1)
        } else {
            let prev_line = line - 1;
            (prev_line, self.line_grapheme_count(prev_line))
        };
        let start = self.line_col_to_char_idx(prev_line, prev_col);
        proof {
            lemma_lines(s);
            let gs = line_graphemes(s, line as int);
            let g = grapheme_count(s, line as int) as int;
            if col > 0 {
                let a = min(col - 1, g);
                let b = min(col as int, g);
                lemma_flatten_take_len(gs.take(b), a);
                assert(gs.take(b).take(a) == gs.take(a));
            } else {
                assert(gs.take(0) =~= Seq::<Seq<char>>::empty());
                lemma_line_text_fits(s, prev_line as int);
            }
        }
        self.record_undo();
        rope_remove(&mut self.rope, start, end);
        self.cursor.line = prev_line;
        self.cursor.col = prev_col;
        self.dirty = true;
    }

    /// Delete the cluster under the cursor; at the end of a line, the line break after
    /// it. Nothing happens at the end of the text.
    pub fn delete_forward(&mut self)
        ensures
            final(self)@ == after_delete_forward(old(self)@),
    {
        let ghost s = rope_chars(self.rope);
        let len = rope_len_chars(&self.rope);
        let start = self.cursor_char_idx();
        if start >= len {
            return;
        }
        let text = self.line(self.cursor.line);
        let gs = graphemes_of(text.as_str());
        let ghost gv = gs@.map_values(|g: String| g@);
        let col = self.cursor.col;
        let k: usize = if col < gs.len() {
            gs[col].as_str().unicode_len()
        } else {
            1
        };
        proof {
            let line = self.cursor.line as int;
            lemma_line_text_fits(s, line);
            if col < gs.len() {
                assert(gv[col as int] == gs@[col as int]@);
                assert(gv.take(col + 1) == gv.take(col as int).push(gv[col as int]));
                gv.take(col as int).lemma_flatten_push(gv[col as int]);
                lemma_flatten_take_len(gv, col + 1);
                assert(gv.take(gv.len() as int) == gv);
            }
        }
        let end = if start + k < len {
            start + k
        } else {
            len
        };
        self.record_undo();
        rope_remove(&mut self.rope, start, end);
        self.dirty = true;
    }

    /// Move one cluster left, or from the start of a line to the end of the line above.
    pub fn move_left(&mut self)
        ensures
            final(self)@ == after_move_left(old(self)@),
    {
        if self.cursor.col > 0 {
            self.cursor.col = self.cursor.col - 1;
        } else if self.cursor.line > 0 {
            self.cursor.line = self.cursor.line - 1;
            self.cursor.col = self.line_grapheme_count(self.cursor.line);
        }
    }

    /// Move one cluster right, or from the end of a line to the start of the next one;
    /// nothing happens at the end of the last line.
    pub fn move_right(&mut self)
        ensures
            final(self)@ == after_move_right(old(self)@),
    {
        let line_len = self.line_grapheme_count(self.cursor.line);
        if self.cursor.col < line_len {
            self.cursor.col = self.cursor.col + 1;
        } else if self.cursor.line < self.line_count() - 1 {
            self.cursor.line = self.cursor.line + 1;
            self.cursor.col = 0;
        }
    }

    /// Move one line up, keeping the column where the line above is long enough and
    /// clamping it to the line's length where it is not; on the first line, move to
    /// its start.
    pub fn move_up(&mut self)
        ensures
            final(self)@ == after_move_up(old(self)@),
    {
        if self.cursor.line == 0 {
            self.cursor.col = 0;
            return;
        }
        self.cursor.line = self.cursor.line - 1;
        let n = self.line_grapheme_count(self.cursor.line);
        if n < self.cursor.col {
            self.cursor.col = n;
        }
    }

    /// Move one line down, keeping the column where the line below is long enough and
    /// clamping it to the line's length where it is not; on the last line, move to its
    /// end.
    pub fn move_down(&mut self)
        ensures
            final(self)@ == after_move_down(old(self)@),
    {
        if self.cursor.line >= self.line_count() - 1 {
            self.cursor.col = self.line_grapheme_count(self.cursor.line);
            return;
        }
        self.cursor.line = self.cursor.line + 1;
        let n = self.line_grapheme_count(self.cursor.line);
        if n < self.cursor.col {
            self.cursor.col = n;
        }
    }

    /// Move to the start of the line.
    pub fn move_home(&mut self)
        ensures
            final(self)@ == after_move_home(old(self)@),
    {
        self.cursor.col = 0;
    }

    /// Move to the end of the line.
    pub fn move_end(&mut self)
        ensures
            final(self)@ == after_move_end(old(self)@),
            final(self)@.cursor.col <= old(self)@.text.len(),
    {
        let n = self.line_grapheme_count(self.cursor.line);
        proof {
            lemma_line_text_fits(rope_chars(self.rope), self.cursor.line as int);
            lemma_lines(rope_chars(self.rope));
        }
        self.cursor.col = n;
    }

    /// Move to the start of the line (the `cursor.line_start` command).
    pub fn move_line_start(&mut self)
        ensures
            final(self)@ == after_move_home(old(self)@),
    {
        self.move_home();
    }

    /// Move to the end of the line (the `cursor.line_end` command).
    pub fn move_line_end(&mut self)
        ensures
            final(self)@ == after_move_end(old(self)@),
            final(self)@.cursor.col <= old(self)@.text.len(),
    {
        self.move_end();
    }

    /// Move to the start of the text.
    pub fn move_buffer_start(&mut self)
        ensures
            final(self)@ == moved(old(self)@, Cursor { line: 0, col: 0 }),
    {
        self.cursor = Cursor { line: 0, col: 0 };
    }

    /// Move to the end of the last line.
    pub fn move_buffer_end(&mut self)
        ensures
            final(self)@ == after_move_buffer_end(old(self)@),
    {
        let last = self.line_count() - 1;
        let col = self.line_grapheme_count(last);
        self.cursor = Cursor { line: last, col };
    }

    /// Delete the cluster under the cursor (the `edit.delete_forward` command).
    pub fn delete_char_forward(&mut self)
        ensures
            final(self)@ == after_delete_forward(old(self)@),
    {
        self.delete_forward();
    }

    /// The clusters of line `line`, each with whether it is blank.
    fn line_blanks(&self, line: usize) -> (r: Vec<bool>)
        ensures
            r@.len() == grapheme_count(self@.text, line as int),
            forall|i: int| 0 <= i < r@.len() ==> r@[i] == is_blank(#[trigger] line_graphemes(self@.text, line as int)[i]),
    {
        let text = self.line(line);
        let gs = graphemes_of(text.as_str());
        let ghost gv = gs@.map_values(|g: String| g@);
        let mut r: Vec<bool> = Vec::new();
        let mut i: usize = 0;
        while i < gs.len()
            invariant
                i <= gs@.len(),
                gv == gs@.map_values(|g: String| g@),
                r@.len() == i,
                forall|j: int| 0 <= j < i ==> r@[j] == is_blank(#[trigger] gv[j]),
            decreases gs@.len() - i,
        {
            let g = gs[i].as_str();
            assert(gv[i as int] == g@);
            let blank = if g.unicode_len() > 0 {
                let c = g.get_char(0);
                c == ' ' || c == '\t'
            } else {
                false
            };
            r.push(blank);
            i = i + 1;
        }
        r
    }

    /// Move forward to the start of the next word: past the rest of the current word
    /// and the blanks after it; from the end of a line, to the start of the next line.
    pub fn move_word_forward(&mut self)
        ensures
            final(self)@ == moved(old(self)@, word_forward_target(old(self)@.text, old(self)@.cursor)),
    {
        let ghost s = rope_chars(self.rope);
        let ghost gs = line_graphemes(s, self.cursor.line as int);
        let blanks = self.line_blanks(self.cursor.line);
        let n = blanks.len();
        let i0 = if self.cursor.col < n {
            self.cursor.col
        } else {
            n
        };
        let mut i = i0;
        while i < n && !blanks[i]
            invariant
                n == gs.len(),
                n == blanks@.len(),
                i0 <= i <= n,
                forall|j: int| 0 <= j < n ==> blanks@[j] == is_blank(#[trigger] gs[j]),
                skip_word(gs, i0 as int) == skip_word(gs, i as int),
            decreases n - i,
        {
            i = i + 1;
        }
        let i1 = i;
        while i < n && blanks[i]
            invariant
                n == gs.len(),
                n == blanks@.len(),
                i1 <= i <= n,
                forall|j: int| 0 <= j < n ==> blanks@[j] == is_blank(#[trigger] gs[j]),
                skip_blank(gs, i1 as int) == skip_blank(gs, i as int),
            decreases n - i,
        {
            i = i + 1;
        }
        if i == n && self.cursor.line < self.line_count() - 1 {
            self.cursor = Cursor { line: self.cursor.line + 1, col: 0 };
        } else {
            self.cursor = Cursor { line: self.cursor.line, col: i };
        }
    }

    /// Move back to the start of the previous word: back over blanks, then to the start
    /// of the word before them; from the start of a line, to the end of the line above.
    pub fn move_word_back(&mut self)
        ensures
            final(self)@ == moved(old(self)@, word_back_target(old(self)@.text, old(self)@.cursor)),
    {
        let ghost s = rope_chars(self.rope);
        let ghost gs = line_graphemes(s, self.cursor.line as int);
        let blanks = self.line_blanks(self.cursor.line);
        let n = blanks.len();
        let i0 = if self.cursor.col < n {
            self.cursor.col
        } else {
            n
        };
        if i0 == 0 {
            if self.cursor.line > 0 {
                let line = self.cursor.line - 1;
                let col = self.line_grapheme_count(line);
                self.cursor = Cursor { line, col };
            }
            return;
        }
        let mut i = i0;
        while i > 0 && blanks[i - 1]
            invariant
                n == gs.len(),
                n == blanks@.len(),
                i <= i0 <= n,
                forall|j: int| 0 <= j < n ==> blanks@[j] == is_blank(#[trigger] gs[j]),
                back_blank(gs, i0 as int) == back_blank(gs, i as int),
            decreases i,
        {
            i = i - 1;
        }
        let i1 = i;
        while i > 0 && !blanks[i - 1]
            invariant
                n == gs.len(),
                n == blanks@.len(),
                i <= i1 <= n,
                forall|j: int| 0 <= j < n ==> blanks@[j] == is_blank(#[trigger] gs[j]),
                back_word(gs, i1 as int) == back_word(gs, i as int),
            decreases i,
        {
            i = i - 1;
        }
        self.cursor = Cursor { line: self.cursor.line, col: i };
    }

    /// Delete the cursor's line with its line break and move to the start of the line
    /// that takes its place (the new last line where it was the last). Nothing happens
    /// on a line that holds no characters at all or past the last line.
    pub fn delete_line(&mut self)
        ensures
            final(self)@ == after_delete_line(old(self)@),
    {
        let ghost s = rope_chars(self.rope);
        proof {
            lemma_lines(s);
        }
        let count = rope_len_lines(&self.rope);
        let l = self.cursor.line;
        if l >= count {
            return;
        }
        let start = rope_line_to_char(&self.rope, l);
        let end = rope_line_to_char(&self.rope, l + 1);
        if start >= end {
            return;
        }
        self.record_undo();
        rope_remove(&mut self.rope, start, end);
        proof {
            lemma_lines(rope_chars(self.rope));
        }
        let new_count = rope_len_lines(&self.rope);
        let line = if l < new_count {
            l
        } else {
            new_count - 1
        };
        self.cursor = Cursor { line, col: 0 };
        self.dirty = true;
    }

    /// Undo the most recent edit: the text and cursor before it come back. Returns
    /// whether there was anything to undo.
    pub fn undo(&mut self) -> (done: bool)
        ensures
            done == (old(self)@.undo.len() > 0),
            done ==> final(self)@ == undone(old(self)@),
            !done ==> final(self)@ == old(self)@,
    {
        match self.undo.pop() {
            None => false,
            Some(snap) => {
                let ghost rest = self.undo@;
                let current = Snapshot { rope: rope_clone(&self.rope), cursor: self.cursor };
                let ghost redo_before = self.redo@;
                self.redo.push(current);
                self.rope = snap.rope;
                self.cursor = snap.cursor;
                self.dirty = true;
                proof {
                    assert(old(self).undo@ == rest.push(snap));
                    assert(old(self).undo@.map_values(|s: Snapshot| snapshot_view(s)).drop_last() =~= rest.map_values(
                        |s: Snapshot| snapshot_view(s),
                    ));
                    assert(self.redo@.map_values(|s: Snapshot| snapshot_view(s)) =~= redo_before.map_values(
                        |s: Snapshot| snapshot_view(s),
                    ).push(snapshot_view(current)));
                }
                true
            },
        }
    }

    /// Redo the most recently undone edit. Returns whether there was anything to redo.
    pub fn redo(&mut self) -> (done: bool)
        ensures
            done == (old(self)@.redo.len() > 0),
            done ==> final(self)@ == redone(old(self)@),
            !done ==> final(self)@ == old(self)@,
    {
        match self.redo.pop() {
            None => false,
            Some(snap) => {
                let ghost rest = self.redo@;
                let current = Snapshot { rope: rope_clone(&self.rope), cursor: self.cursor };
                let ghost undo_before = self.undo@;
                self.undo.push(current);
                self.rope = snap.rope;
                self.cursor = snap.cursor;
                self.dirty = true;
                proof {
                    assert(old(self).redo@ == rest.push(snap));
                    assert(old(self).redo@.map_values(|s: Snapshot| snapshot_view(s)).drop_last() =~= rest.map_values(
                        |s: Snapshot| snapshot_view(s),
                    ));
                    assert(self.undo@.map_values(|s: Snapshot| snapshot_view(s)) =~= undo_before.map_values(
                        |s: Snapshot| snapshot_view(s),
                    ).push(snapshot_view(current)));
                }
                true
            },
        }
    }
}

} // verus!
