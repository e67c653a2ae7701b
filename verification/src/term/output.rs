//! Cell-diff renderer.
//!
//! Two grids of [`RenderCell`]: a `back` grid that the application paints each frame,
//! and a `front` grid that mirrors what the terminal has been told. A flush diffs
//! `back` against `front` and emits only the cursor moves, SGR style changes and UTF-8
//! characters that bring `front` in line with `back`.
use vstd::prelude::*;

use crate::term::size::Size;
use crate::text::chars_of;
use crate::unicode::{char_columns, char_width};

verus! {

/// A terminal colour.
#[derive(Debug, Clone, Copy, PartialEq, Eq, Structural)]
pub enum Color {
    Reset,
    Indexed(u8),
    Rgb(u8, u8, u8),
}

/// One character cell: the character and how it is drawn.
#[derive(Debug, Clone, Copy, PartialEq, Eq, Structural)]
pub struct RenderCell {
    pub ch: char,
    pub fg: Color,
    pub bg: Color,
    pub bold: bool,
    pub reverse: bool,
}

/// A blank cell: a space with the terminal's default colours.
pub open spec fn blank_cell() -> RenderCell {
    RenderCell { ch: ' ', fg: Color::Reset, bg: Color::Reset, bold: false, reverse: false }
}

impl Default for RenderCell {
    fn default() -> (c: RenderCell)
        ensures
            c == blank_cell(),
    {
        RenderCell { ch: ' ', fg: Color::Reset, bg: Color::Reset, bold: false, reverse: false }
    }
}

/// How a cell is drawn, without its character.
#[derive(Debug, Clone, Copy, PartialEq, Eq, Structural)]
pub struct Style {
    pub fg: Color,
    pub bg: Color,
    pub bold: bool,
    pub reverse: bool,
}

/// The style a terminal starts from: default colours, neither bold nor reversed.
pub open spec fn plain_style() -> Style {
    Style { fg: Color::Reset, bg: Color::Reset, bold: false, reverse: false }
}

/// The style of a cell.
pub open spec fn style_of(c: RenderCell) -> Style {
    Style { fg: c.fg, bg: c.bg, bold: c.bold, reverse: c.reverse }
}

impl Style {
    /// The style of a cell.
    pub fn from(c: RenderCell) -> (s: Style)
        ensures
            s == style_of(c),
    {
        Style { fg: c.fg, bg: c.bg, bold: c.bold, reverse: c.reverse }
    }
}

/// The ASCII decimal digits of `n`, without leading zeros.
pub open spec fn decimal(n: nat) -> Seq<u8>
    decreases n,
{
    if n < 10 {
        seq![(48 + n) as u8]
    } else {
        decimal(n / 10).push((48 + n % 10) as u8)
    }
}

/// The escape sequence that moves the cursor to (`row`, `col`), counted from zero; the
/// terminal counts from one.
pub open spec fn move_bytes(row: u16, col: u16) -> Seq<u8> {
    seq![0x1bu8, 0x5bu8] + decimal((row + 1) as nat) + seq![0x3bu8] + decimal((col + 1) as nat) + seq![0x48u8]
}

/// The SGR parameters that select colour `c` as foreground (`ground` 38) or background
/// (`ground` 48): nothing for the default, `;38;5;n` for a palette index, `;38;2;r;g;b`
/// for a true colour.
pub open spec fn color_bytes(c: Color, ground: nat) -> Seq<u8> {
    match c {
        Color::Reset => Seq::empty(),
        Color::Indexed(n) => seq![0x3bu8] + decimal(ground) + seq![0x3bu8, 0x35u8, 0x3bu8] + decimal(n as nat),
        Color::Rgb(r, g, b) => seq![0x3bu8] + decimal(ground) + seq![0x3bu8, 0x32u8, 0x3bu8] + decimal(r as nat)
            + seq![0x3bu8] + decimal(g as nat) + seq![0x3bu8] + decimal(b as nat),
    }
}

/// The SGR escape sequence that resets the style and then selects `s`.
pub open spec fn sgr_bytes(s: Style) -> Seq<u8> {
    seq![0x1bu8, 0x5bu8, 0x30u8] + (if s.bold {
        seq![0x3bu8, 0x31u8]
    } else {
        Seq::empty()
    }) + (if s.reverse {
        seq![0x3bu8, 0x37u8]
    } else {
        Seq::empty()
    }) + color_bytes(s.fg, 38) + color_bytes(s.bg, 48) + seq![0x6du8]
}

/// Append `bytes` to `out`.
fn push_all(out: &mut Vec<u8>, bytes: &[u8])
    ensures
        final(out)@ == old(out)@ + bytes@,
{
    let mut i: usize = 0;
    while i < bytes.len()
        invariant
            i <= bytes@.len(),
            out@ == old(out)@ + bytes@.take(i as int),
        decreases bytes@.len() - i,
    {
        out.push(bytes[i]);
        assert(bytes@.take(i + 1) == bytes@.take(i as int).push(bytes@[i as int]));
        i = i + 1;
    }
    assert(bytes@.take(bytes@.len() as int) == bytes@);
}

/// Append the decimal digits of `n`.
pub fn push_decimal(out: &mut Vec<u8>, n: u32)
    ensures
        final(out)@ == old(out)@ + decimal(n as nat),
    decreases n,
{
    if n >= 10 {
        push_decimal(out, n / 10);
    }
    out.push(48 + (n % 10) as u8);
    assert(final(out)@ =~= old(out)@ + decimal(n as nat));
}

/// Append the escape sequence that moves the cursor to (`row`, `col`). (The
/// one-based coordinates must fit in a `u16`.)
pub fn write_move(out: &mut Vec<u8>, row: u16, col: u16)
    requires
        row < u16::MAX,
        col < u16::MAX,
    ensures
        final(out)@ == old(out)@ + move_bytes(row, col),
{
    push_all(out, &[0x1b, 0x5b]);
    push_decimal(out, (row + 1) as u32);
    out.push(0x3b);
    push_decimal(out, (col + 1) as u32);
    out.push(0x48);
    assert(final(out)@ =~= old(out)@ + move_bytes(row, col));
}

/// Append the SGR parameters of a colour (see [`color_bytes`]).
fn write_color(out: &mut Vec<u8>, c: Color, ground: u32)
    requires
        ground == 38 || ground == 48,
    ensures
        final(out)@ == old(out)@ + color_bytes(c, ground as nat),
{
    match c {
        Color::Reset => {
            assert(old(out)@ + color_bytes(c, ground as nat) =~= old(out)@);
        },
        Color::Indexed(n) => {
            out.push(0x3b);
            push_decimal(out, ground);
            push_all(out, &[0x3b, 0x35, 0x3b]);
            push_decimal(out, n as u32);
            assert(final(out)@ =~= old(out)@ + color_bytes(c, ground as nat));
        },
        Color::Rgb(r, g, b) => {
            out.push(0x3b);
            push_decimal(out, ground);
            push_all(out, &[0x3b, 0x32, 0x3b]);
            push_decimal(out, r as u32);
            out.push(0x3b);
            push_decimal(out, g as u32);
            out.push(0x3b);
            push_decimal(out, b as u32);
            assert(final(out)@ =~= old(out)@ + color_bytes(c, ground as nat));
        },
    }
}

/// Append the SGR escape sequence that resets the style and selects `s`.
pub fn write_sgr(out: &mut Vec<u8>, s: Style)
    ensures
        final(out)@ == old(out)@ + sgr_bytes(s),
{
    push_all(out, &[0x1b, 0x5b, 0x30]);
    let ghost o1 = out@;
    if s.bold {
        push_all(out, &[0x3b, 0x31]);
    }
    let ghost o2 = out@;
    if s.reverse {
        push_all(out, &[0x3b, 0x37]);
    }
    let ghost o3 = out@;
    write_color(out, s.fg, 38);
    write_color(out, s.bg, 48);
    out.push(0x6d);
    proof {
        if !s.bold {
            assert(o2 =~= o1 + Seq::<u8>::empty());
        }
        if !s.reverse {
            assert(o3 =~= o2 + Seq::<u8>::empty());
        }
    }
    assert(final(out)@ =~= old(out)@ + sgr_bytes(s));
}

/// Append the UTF-8 encoding of `c`.
pub fn push_utf8(out: &mut Vec<u8>, c: char)
    ensures
        final(out)@ == old(out)@ + vstd::utf8::encode_scalar(c as u32),
{
    let v = c as u32;
    proof {
        vstd::utf8::char_is_scalar(c);
    }
    if v <= 0x7f {
        out.push((v & 0x7f) as u8);
    } else if v <= 0x7ff {
        out.push(0xc0 | ((v >> 6) & 0x1f) as u8);
        out.push(0x80 | (v & 0x3f) as u8);
    } else if v <= 0xffff {
        out.push(0xe0 | ((v >> 12) & 0x0f) as u8);
        out.push(0x80 | ((v >> 6) & 0x3f) as u8);
        out.push(0x80 | (v & 0x3f) as u8);
    } else {
        out.push(0xf0 | ((v >> 18) & 0x07) as u8);
        out.push(0x80 | ((v >> 12) & 0x3f) as u8);
        out.push(0x80 | ((v >> 6) & 0x3f) as u8);
        out.push(0x80 | (v & 0x3f) as u8);
    }
    assert(final(out)@ =~= old(out)@ + vstd::utf8::encode_scalar(c as u32));
}

/// The escape sequence that hides the cursor.
pub open spec fn hide_cursor_bytes() -> Seq<u8> {
    seq![0x1bu8, 0x5bu8, 0x3fu8, 0x32u8, 0x35u8, 0x6cu8]
}

/// The escape sequence that shows the cursor.
pub open spec fn show_cursor_bytes() -> Seq<u8> {
    seq![0x1bu8, 0x5bu8, 0x3fu8, 0x32u8, 0x35u8, 0x68u8]
}

/// The escape sequence that resets the style.
pub open spec fn reset_style_bytes() -> Seq<u8> {
    seq![0x1bu8, 0x5bu8, 0x30u8, 0x6du8]
}

/// The cell-renderer's state, as values of the specification.
pub struct RendererView {
    pub size: Size,
    pub front: Seq<RenderCell>,
    pub back: Seq<RenderCell>,
    pub cursor: (u16, u16),
}

/// Where the diff stands: the bytes so far, the style the terminal is in, and the last
/// cell written.
pub struct DiffState {
    pub out: Seq<u8>,
    pub active: Style,
    pub last: Option<(u16, u16)>,
}

/// The column left of `x`, wrapping below zero as `u16::wrapping_sub` does.
pub open spec fn prev_col(x: u16) -> u16 {
    if x == 0 {
        u16::MAX
    } else {
        (x - 1) as u16
    }
}

/// The diff after looking at the cell (`y`, `x`): an unchanged cell adds nothing; a
/// changed one adds a cursor move unless it directly follows the last cell written, a
/// style change if its style differs from the active one, and its character.
pub open spec fn diff_step(st: DiffState, front: Seq<RenderCell>, back: Seq<RenderCell>, cols: int, y: int, x: int) -> DiffState {
    let b = back[y * cols + x];
    if b == front[y * cols + x] {
        st
    } else {
        let moved = if st.last != Some((y as u16, prev_col(x as u16))) {
            st.out + move_bytes(y as u16, x as u16)
        } else {
            st.out
        };
        let next = style_of(b);
        let styled = if next != st.active {
            moved + sgr_bytes(next)
        } else {
            moved
        };
        DiffState {
            out: styled + vstd::utf8::encode_scalar(b.ch as u32),
            active: next,
            last: Some((y as u16, x as u16)),
        }
    }
}

/// The diff over the cells before (`y`, `x`) in row-major order.
pub open spec fn diff_cells(front: Seq<RenderCell>, back: Seq<RenderCell>, cols: int, y: int, x: int) -> DiffState
    decreases y, x,
{
    if y <= 0 && x <= 0 {
        DiffState { out: hide_cursor_bytes(), active: plain_style(), last: None }
    } else if x <= 0 {
        diff_cells(front, back, cols, y - 1, cols)
    } else {
        diff_step(diff_cells(front, back, cols, y, x - 1), front, back, cols, y, x - 1)
    }
}

/// The bytes a flush of `v` writes: the cursor hidden, the diff of every cell, the
/// style reset, and the cursor placed and shown where it lies on the screen.
pub open spec fn frame_bytes(v: RendererView) -> Seq<u8> {
    let cols = v.size.cols as int;
    let rows = v.size.rows as int;
    diff_cells(v.front, v.back, cols, rows, 0).out + reset_style_bytes() + (if v.cursor.0 < v.size.cols
        && v.cursor.1 < v.size.rows {
        move_bytes(v.cursor.1, v.cursor.0) + show_cursor_bytes()
    } else {
        Seq::empty()
    })
}

/// The back grid after painting `cell` at (`x`, `y`); nothing changes off the screen.
pub open spec fn painted(back: Seq<RenderCell>, size: Size, x: u16, y: u16, cell: RenderCell) -> Seq<RenderCell> {
    if x >= size.cols || y >= size.rows {
        back
    } else {
        back.update(y as int * size.cols as int + x as int, cell)
    }
}

/// The cell `put_str` paints for `ch`.
pub open spec fn text_cell(ch: char, fg: Color, bg: Color, bold: bool) -> RenderCell {
    RenderCell { ch, fg, bg, bold, reverse: false }
}

/// The width in columns that `put_str` gives a character: 0 for a control character.
pub open spec fn cell_width(ch: char) -> u16 {
    (match char_columns(ch) {
        Some(w) => w,
        None => 0,
    }) as u16
}

/// Painting the characters `cs` from column `col` of row `y`: zero-width characters are
/// skipped, painting stops at the right edge, and each character advances the column
/// by its width. The painted grid and the column reached.
pub open spec fn painted_str(
    back: Seq<RenderCell>,
    size: Size,
    col: u16,
    y: u16,
    cs: Seq<char>,
    fg: Color,
    bg: Color,
    bold: bool,
) -> (Seq<RenderCell>, u16)
    decreases cs.len(),
{
    if cs.len() == 0 {
        (back, col)
    } else if cell_width(cs[0]) == 0 {
        painted_str(back, size, col, y, cs.drop_first(), fg, bg, bold)
    } else if col >= size.cols {
        (back, col)
    } else {
        painted_str(
            painted(back, size, col, y, text_cell(cs[0], fg, bg, bold)),
            size,
            if col + cell_width(cs[0]) > u16::MAX {
                u16::MAX
            } else {
                (col + cell_width(cs[0])) as u16
            },
            y,
            cs.drop_first(),
            fg,
            bg,
            bold,
        )
    }
}

/// Where nothing changed, the diff writes no cell: it stays at its start.
proof fn lemma_diff_unchanged(cells: Seq<RenderCell>, cols: int, y: int, x: int)
    requires
        0 <= y,
        0 <= x <= cols,
    ensures
        diff_cells(cells, cells, cols, y, x) == (DiffState {
            out: hide_cursor_bytes(),
            active: plain_style(),
            last: None,
        }),
    decreases y, x,
{
    if y <= 0 && x <= 0 {
    } else if x <= 0 {
        lemma_diff_unchanged(cells, cols, y - 1, cols);
    } else {
        lemma_diff_unchanged(cells, cols, y, x - 1);
    }
}

/// A flush right after a flush, with nothing painted in between, writes no character
/// cell: only the cursor hiding, the style reset and the cursor placement.
pub proof fn lemma_second_flush_writes_no_cells(v: RendererView)
    requires
        v.front == v.back,
    ensures
        frame_bytes(v) == hide_cursor_bytes() + reset_style_bytes() + (if v.cursor.0 < v.size.cols
            && v.cursor.1 < v.size.rows {
            move_bytes(v.cursor.1, v.cursor.0) + show_cursor_bytes()
        } else {
            Seq::empty()
        }),
{
    lemma_diff_unchanged(v.front, v.size.cols as int, v.size.rows as int, 0);
}

/// What a flush tells the terminal, one instruction at a time.
pub enum TermOp {
    /// Hide the cursor.
    Hide,
    /// Show the cursor.
    Show,
    /// Move the cursor to (row, column).
    Move(u16, u16),
    /// Reset the pen and select a style.
    Pen(Style),
    /// Reset the pen to the plain style.
    Reset,
    /// Write a character with the pen at the cursor, and advance the cursor one column.
    Put(char),
}

/// The bytes of one instruction.
pub open spec fn op_bytes(op: TermOp) -> Seq<u8> {
    match op {
        TermOp::Hide => hide_cursor_bytes(),
        TermOp::Show => show_cursor_bytes(),
        TermOp::Move(row, col) => move_bytes(row, col),
        TermOp::Pen(s) => sgr_bytes(s),
        TermOp::Reset => reset_style_bytes(),
        TermOp::Put(c) => vstd::utf8::encode_scalar(c as u32),
    }
}

/// The bytes of a sequence of instructions, in order.
pub open spec fn ops_bytes(ops: Seq<TermOp>) -> Seq<u8>
    decreases ops.len(),
{
    if ops.len() == 0 {
        Seq::empty()
    } else {
        ops_bytes(ops.drop_last()) + op_bytes(ops.last())
    }
}

/// A terminal as a flush sees it: where the cursor is, the pen it writes with, and the
/// cells of a screen `cols` wide, row after row.
pub struct TermState {
    pub cursor: (int, int),
    pub pen: Style,
    pub screen: Seq<RenderCell>,
}

/// The cell that writing `ch` with the pen `pen` leaves.
pub open spec fn pen_cell(ch: char, pen: Style) -> RenderCell {
    RenderCell { ch, fg: pen.fg, bg: pen.bg, bold: pen.bold, reverse: pen.reverse }
}

/// The terminal after one instruction; a character written off the screen is lost.
pub open spec fn term_step(st: TermState, cols: int, rows: int, op: TermOp) -> TermState {
    match op {
        TermOp::Move(row, col) => TermState { cursor: (row as int, col as int), ..st },
        TermOp::Pen(s) => TermState { pen: s, ..st },
        TermOp::Reset => TermState { pen: plain_style(), ..st },
        TermOp::Put(c) => TermState {
            cursor: (st.cursor.0, st.cursor.1 + 1),
            screen: if 0 <= st.cursor.0 < rows && 0 <= st.cursor.1 < cols {
                st.screen.update(st.cursor.0 * cols + st.cursor.1, pen_cell(c, st.pen))
            } else {
                st.screen
            },
            ..st
        },
        _ => st,
    }
}

/// The terminal after the instructions `ops`, in order.
pub open spec fn replay(ops: Seq<TermOp>, st: TermState, cols: int, rows: int) -> TermState
    decreases ops.len(),
{
    if ops.len() == 0 {
        st
    } else {
        term_step(replay(ops.drop_last(), st, cols, rows), cols, rows, ops.last())
    }
}

/// The instructions of the diff over the cells before (`y`, `x`), in the order
/// [`diff_cells`] writes their bytes.
spec fn diff_ops(front: Seq<RenderCell>, back: Seq<RenderCell>, cols: int, y: int, x: int) -> Seq<TermOp>
    decreases y, x,
{
    if y <= 0 && x <= 0 {
        seq![TermOp::Hide]
    } else if x <= 0 {
        diff_ops(front, back, cols, y - 1, cols)
    } else {
        let ops = diff_ops(front, back, cols, y, x - 1);
        let st = diff_cells(front, back, cols, y, x - 1);
        let cy = y;
        let cx = x - 1;
        let b = back[cy * cols + cx];
        if b == front[cy * cols + cx] {
            ops
        } else {
            let o1 = if st.last != Some((cy as u16, prev_col(cx as u16))) {
                ops.push(TermOp::Move(cy as u16, cx as u16))
            } else {
                ops
            };
            let o2 = if style_of(b) != st.active {
                o1.push(TermOp::Pen(style_of(b)))
            } else {
                o1
            };
            o2.push(TermOp::Put(b.ch))
        }
    }
}

proof fn lemma_ops_push(ops: Seq<TermOp>, op: TermOp, st: TermState, cols: int, rows: int)
    ensures
        ops_bytes(ops.push(op)) == ops_bytes(ops) + op_bytes(op),
        replay(ops.push(op), st, cols, rows) == term_step(replay(ops, st, cols, rows), cols, rows, op),
{
    assert(ops.push(op).drop_last() =~= ops);
}

/// The screen with the cells before index `k` taken from `back`, the rest from `front`.
spec fn screen_upto(front: Seq<RenderCell>, back: Seq<RenderCell>, k: int) -> Seq<RenderCell> {
    Seq::new(front.len(), |i: int| if i < k { back[i] } else { front[i] })
}

/// What replaying the diff's instructions up to (`y`, `x`) establishes: they spell the
/// diff's bytes, and on a terminal that showed `front` with the plain pen they put the
/// back cells before (`y`, `x`) on the screen, leave the pen in the diff's active style
/// and the cursor just right of the last cell written.
spec fn diff_ops_inv(front: Seq<RenderCell>, back: Seq<RenderCell>, cols: int, rows: int, y: int, x: int, c0: (int, int)) -> bool {
    let ops = diff_ops(front, back, cols, y, x);
    let st = diff_cells(front, back, cols, y, x);
    let r = replay(ops, TermState { cursor: c0, pen: plain_style(), screen: front }, cols, rows);
    &&& ops_bytes(ops) == st.out
    &&& r.screen == screen_upto(front, back, y * cols + x)
    &&& r.pen == st.active
    &&& match st.last {
        Some((ly, lx)) => lx < cols && r.cursor == (ly as int, lx + 1),
        None => true,
    }
}

/// One cell of the diff keeps [`diff_ops_inv`].
#[verifier::spinoff_prover]
proof fn lemma_diff_ops_step(front: Seq<RenderCell>, back: Seq<RenderCell>, cols: int, rows: int, y: int, x: int, c0: (int, int))
    requires
        0 < cols <= u16::MAX,
        rows <= u16::MAX,
        front.len() == cols * rows,
        back.len() == cols * rows,
        0 <= y < rows,
        1 <= x <= cols,
        diff_ops_inv(front, back, cols, rows, y, x - 1, c0),
    ensures
        diff_ops_inv(front, back, cols, rows, y, x, c0),
{
    let init = TermState { cursor: c0, pen: plain_style(), screen: front };
    let ops = diff_ops(front, back, cols, y, x - 1);
    let st = diff_cells(front, back, cols, y, x - 1);
    let cy = y;
    let cx = x - 1;
    assert(0 <= cy * cols + cx < cols * rows) by (nonlinear_arith)
        requires
            0 <= cy < rows,
            0 <= cx < cols,
    ;
    let idx = cy * cols + cx;
    let b = back[idx];
    if b == front[idx] {
        assert(screen_upto(front, back, idx) =~= screen_upto(front, back, idx + 1));
    } else {
        let moved = st.last != Some((cy as u16, prev_col(cx as u16)));
        let o1 = if moved {
            ops.push(TermOp::Move(cy as u16, cx as u16))
        } else {
            ops
        };
        if moved {
            lemma_ops_push(ops, TermOp::Move(cy as u16, cx as u16), init, cols, rows);
        } else {
            assert(cx > 0);
        }
        let r1 = replay(o1, init, cols, rows);
        assert(r1.cursor == (cy, cx));
        let o2 = if style_of(b) != st.active {
            o1.push(TermOp::Pen(style_of(b)))
        } else {
            o1
        };
        if style_of(b) != st.active {
            lemma_ops_push(o1, TermOp::Pen(style_of(b)), init, cols, rows);
        }
        let r2 = replay(o2, init, cols, rows);
        assert(r2.pen == style_of(b));
        assert(r2.cursor == (cy, cx));
        lemma_ops_push(o2, TermOp::Put(b.ch), init, cols, rows);
        assert(pen_cell(b.ch, style_of(b)) == b);
        assert(r2.screen.update(idx, b) =~= screen_upto(front, back, idx + 1));
    }
}

/// The diff's instructions keep [`diff_ops_inv`] from its start to (`y`, `x`).
proof fn lemma_diff_ops(front: Seq<RenderCell>, back: Seq<RenderCell>, cols: int, rows: int, y: int, x: int, c0: (int, int))
    requires
        0 <= cols <= u16::MAX,
        0 <= rows <= u16::MAX,
        front.len() == cols * rows,
        back.len() == cols * rows,
        0 <= y < rows || (y == rows && x == 0),
        0 <= x <= cols,
    ensures
        diff_ops_inv(front, back, cols, rows, y, x, c0),
    decreases y, x,
{
    let init = TermState { cursor: c0, pen: plain_style(), screen: front };
    if y <= 0 && x <= 0 {
        let ops = seq![TermOp::Hide];
        assert(ops.drop_last() =~= Seq::<TermOp>::empty());
        assert(ops.last() == TermOp::Hide);
        assert(ops_bytes(Seq::<TermOp>::empty()) == Seq::<u8>::empty());
        assert(ops_bytes(ops) =~= hide_cursor_bytes());
        assert(replay(Seq::<TermOp>::empty(), init, cols, rows) == init);
        assert(replay(ops, init, cols, rows) == init);
        assert(y == 0 && x == 0);
        assert(y * cols + x == 0) by (nonlinear_arith)
            requires
                y == 0,
                x == 0,
        ;
        assert(screen_upto(front, back, 0) =~= front);
    } else if x <= 0 {
        lemma_diff_ops(front, back, cols, rows, y - 1, cols, c0);
        assert((y - 1) * cols + cols == y * cols + x) by (nonlinear_arith)
            requires
                x == 0,
        ;
    } else {
        lemma_diff_ops(front, back, cols, rows, y, x - 1, c0);
        lemma_diff_ops_step(front, back, cols, rows, y, x, c0);
    }
}

/// A flush puts every cell where it belongs: its bytes are the instructions of a
/// terminal run, and replaying them on a terminal that shows the front grid with the
/// plain pen (as the last flush left it), whatever the cursor's position, leaves the
/// back grid on the screen, with the cursor where it is to be shown when that lies on
/// the screen. A cell that does not directly follow the last one written is reached by
/// a cursor move to its own row and column.
#[verifier::rlimit(40)]
pub proof fn lemma_flush_reproduces_back_grid(v: RendererView, cursor: (int, int)) -> (ops: Seq<TermOp>)
    requires
        v.front.len() == v.size.cols as int * v.size.rows as int,
        v.back.len() == v.size.cols as int * v.size.rows as int,
    ensures
        ops_bytes(ops) == frame_bytes(v),
        replay(ops, TermState { cursor, pen: plain_style(), screen: v.front }, v.size.cols as int, v.size.rows as int).screen
            == v.back,
        v.cursor.0 < v.size.cols && v.cursor.1 < v.size.rows ==> replay(
            ops,
            TermState { cursor, pen: plain_style(), screen: v.front },
            v.size.cols as int,
            v.size.rows as int,
        ).cursor == (v.cursor.1 as int, v.cursor.0 as int),
{
    let cols = v.size.cols as int;
    let rows = v.size.rows as int;
    let init = TermState { cursor, pen: plain_style(), screen: v.front };
    {
        lemma_diff_ops(v.front, v.back, cols, rows, rows, 0, cursor);
        let d = diff_ops(v.front, v.back, cols, rows, 0);
        assert(rows * cols + 0 == cols * rows) by (nonlinear_arith);
        assert(screen_upto(v.front, v.back, rows * cols) =~= v.back);
        let o1 = d.push(TermOp::Reset);
        lemma_ops_push(d, TermOp::Reset, init, cols, rows);
        if v.cursor.0 < v.size.cols && v.cursor.1 < v.size.rows {
            let o2 = o1.push(TermOp::Move(v.cursor.1, v.cursor.0));
            lemma_ops_push(o1, TermOp::Move(v.cursor.1, v.cursor.0), init, cols, rows);
            let o3 = o2.push(TermOp::Show);
            lemma_ops_push(o2, TermOp::Show, init, cols, rows);
            assert(ops_bytes(o3) =~= frame_bytes(v));
            o3
        } else {
            assert(ops_bytes(o1) =~= frame_bytes(v));
            o1
        }
    }
}

/// The index of cell (`x`, `y`) lies within a grid of `cols` by `rows`.
proof fn lemma_cell_index(x: int, y: int, cols: int, rows: int)
    requires
        0 <= x < cols,
        0 <= y < rows,
    ensures
        0 <= y * cols + x < rows * cols,
        y * cols + cols == (y + 1) * cols,
{
    assert(y * cols + x < rows * cols) by (nonlinear_arith)
        requires
            0 <= x < cols,
            0 <= y < rows,
    ;
    assert(0 <= y * cols) by (nonlinear_arith)
        requires
            0 <= x < cols,
            0 <= y < rows,
    ;
    assert(y * cols + cols == (y + 1) * cols) by (nonlinear_arith);
}

/// A grid of 16-bit dimensions has fewer than 2^32 cells.
proof fn lemma_grid_small(cols: u16, rows: u16)
    ensures
        cols as int * rows as int <= 0xfffe0001,
        rows as int * cols as int == cols as int * rows as int,
{
    assert(rows as int * cols as int == cols as int * rows as int) by (nonlinear_arith);
    assert(cols as int * rows as int <= 0xffff * 0xffff) by (nonlinear_arith)
        requires
            cols <= 0xffff,
            rows <= 0xffff,
    ;
}

/// A grid of `n` blank cells.
fn blank_cells(n: usize) -> (v: Vec<RenderCell>)
    ensures
        v@ == Seq::new(n as nat, |_i: int| blank_cell()),
{
    let mut v: Vec<RenderCell> = Vec::new();
    let mut i: usize = 0;
    while i < n
        invariant
            i <= n,
            v@ == Seq::new(i as nat, |_i: int| blank_cell()),
        decreases n - i,
    {
        v.push(RenderCell::default());
        i = i + 1;
        assert(v@ =~= Seq::new(i as nat, |_i: int| blank_cell()));
    }
    v
}

/// The cell-diff renderer: the grid painted this frame, the grid the terminal shows,
/// and where the cursor should be displayed, as (column, row).
#[derive(Debug)]
pub struct Renderer {
    size: Size,
    front: Vec<RenderCell>,
    back: Vec<RenderCell>,
    cursor: (u16, u16),
}

impl Renderer {
    #[verifier::type_invariant]
    spec fn grids_fit(self) -> bool {
        &&& self.front@.len() == self.size.cols as int * self.size.rows as int
        &&& self.back@.len() == self.size.cols as int * self.size.rows as int
    }
}

impl View for Renderer {
    type V = RendererView;

    closed spec fn view(&self) -> RendererView {
        RendererView { size: self.size, front: self.front@, back: self.back@, cursor: self.cursor }
    }
}

impl Renderer {
    /// A renderer for a terminal of `size`, with both grids blank and the cursor at
    /// the top left.
    pub fn new(size: Size) -> (r: Renderer)
        ensures
            r@.size == size,
            r@.front == Seq::new(size.cols as nat * size.rows as nat, |_i: int| blank_cell()),
            r@.back == Seq::new(size.cols as nat * size.rows as nat, |_i: int| blank_cell()),
            r@.cursor == (0u16, 0u16),
    {
        proof {
            lemma_grid_small(size.cols, size.rows);
        }
        let cells = size.cols as usize * size.rows as usize;
        Renderer { size, front: blank_cells(cells), back: blank_cells(cells), cursor: (0, 0) }
    }

    /// The terminal size the grids are for.
    pub fn size(&self) -> (s: Size)
        ensures
            s == self@.size,
    {
        self.size
    }

    /// Adapt to a new terminal size: both grids become blank grids of that size.
    /// Returns whether the size changed, in which case the caller clears the screen
    /// so that the next flush repaints everything.
    pub fn resize(&mut self, size: Size) -> (changed: bool)
        ensures
            changed == (size != old(self)@.size),
            !changed ==> final(self)@ == old(self)@,
            changed ==> final(self)@ == (RendererView {
                size,
                front: Seq::new(size.cols as nat * size.rows as nat, |_i: int| blank_cell()),
                back: Seq::new(size.cols as nat * size.rows as nat, |_i: int| blank_cell()),
                cursor: old(self)@.cursor,
            }),
    {
        if size == self.size {
            return false;
        }
        proof {
            lemma_grid_small(size.cols, size.rows);
        }
        let cells = size.cols as usize * size.rows as usize;
        *self = Renderer { size, front: blank_cells(cells), back: blank_cells(cells), cursor: self.cursor };
        true
    }

    /// Blank the back grid.
    pub fn clear_back(&mut self)
        ensures
            final(self)@ == (RendererView {
                back: Seq::new(old(self)@.back.len(), |_i: int| blank_cell()),
                ..old(self)@
            }),
    {
        proof {
            use_type_invariant(&*self);
        }
        let n = self.back.len();
        let mut i: usize = 0;
        while i < n
            invariant
                n == self.back@.len(),
                i <= n,
                self.size == old(self).size,
                self.front@ == old(self).front@,
                self.cursor == old(self).cursor,
                self.back@.len() == old(self).back@.len(),
                forall|j: int| 0 <= j < i ==> self.back@[j] == blank_cell(),
                forall|j: int| i <= j < n ==> self.back@[j] == old(self).back@[j],
                self.front@.len() == self.size.cols as int * self.size.rows as int,
                self.back@.len() == self.size.cols as int * self.size.rows as int,
            decreases n - i,
        {
            self.back[i] = RenderCell::default();
            i = i + 1;
        }
        assert(self.back@ =~= Seq::new(old(self)@.back.len(), |_i: int| blank_cell()));
    }

    /// Paint `cell` at column `x` of row `y` of the back grid; off the screen nothing
    /// happens.
    pub fn put(&mut self, x: u16, y: u16, cell: RenderCell)
        ensures
            final(self)@ == (RendererView { back: painted(old(self)@.back, old(self)@.size, x, y, cell), ..old(self)@ }),
    {
        proof {
            use_type_invariant(&*self);
        }
        if x >= self.size.cols || y >= self.size.rows {
            return;
        }
        proof {
            lemma_cell_index(x as int, y as int, self.size.cols as int, self.size.rows as int);
            lemma_grid_small(self.size.cols, self.size.rows);
            assert(y as int * self.size.cols as int + x as int <= 0xfffe0001);
            assert(usize::MAX >= 0xffffffff);
        }
        let idx = (y as usize) * (self.size.cols as usize) + (x as usize);
        self.back[idx] = cell;
    }

    /// Paint the characters of `s` from column `x` of row `y` with the given colours:
    /// zero-width and control characters are skipped, painting stops at the right
    /// edge, and each character advances by its display width (saturating). Returns
    /// the column reached.
    pub fn put_str(&mut self, x: u16, y: u16, s: &str, fg: Color, bg: Color, bold: bool) -> (end: u16)
        ensures
            (final(self)@.back, end) == painted_str(old(self)@.back, old(self)@.size, x, y, s@, fg, bg, bold),
            final(self)@.size == old(self)@.size,
            final(self)@.front == old(self)@.front,
            final(self)@.cursor == old(self)@.cursor,
    {
        let cs = chars_of(s);
        let mut col = x;
        let mut i: usize = 0;
        let mut stopped = false;
        assert(cs@.skip(0) == cs@);
        while i < cs.len() && !stopped
            invariant
                cs@ == s@,
                i <= cs@.len(),
                self@.size == old(self)@.size,
                self@.front == old(self)@.front,
                self@.cursor == old(self)@.cursor,
                painted_str(old(self)@.back, old(self)@.size, x, y, s@, fg, bg, bold) == painted_str(
                    self@.back,
                    self@.size,
                    col,
                    y,
                    cs@.skip(i as int),
                    fg,
                    bg,
                    bold,
                ),
                stopped ==> painted_str(self@.back, self@.size, col, y, cs@.skip(i as int), fg, bg, bold) == (
                self@.back, col),
            decreases cs@.len() - i, if stopped { 0int } else { 1int },
        {
            let ch = cs[i];
            let w = match char_width(ch) {
                Some(w) => w,
                None => 0,
            } as u16;
            assert(cs@.skip(i as int)[0] == ch);
            assert(cs@.skip(i as int).drop_first() == cs@.skip(i + 1));
            if w == 0 {
                i = i + 1;
            } else if col >= self.size.cols {
                stopped = true;
            } else {
                self.put(col, y, RenderCell { ch, fg, bg, bold, reverse: false });
                col = col.saturating_add(w);
                i = i + 1;
            }
        }
        if !stopped {
            assert(cs@.skip(i as int) =~= Seq::<char>::empty());
        }
        col
    }

    /// Set where the cursor is displayed after the next flush, as (column, row).
    pub fn set_cursor(&mut self, x: u16, y: u16)
        ensures
            final(self)@ == (RendererView { cursor: (x, y), ..old(self)@ }),
    {
        proof {
            use_type_invariant(&*self);
        }
        self.cursor = (x, y);
    }
}

impl Renderer {
    /// The bytes that bring the terminal from `front` to `back` (see [`frame_bytes`]),
    /// after which `front` mirrors `back`. Writing them out is the caller's part.
    pub fn flush_bytes(&mut self) -> (out: Vec<u8>)
        ensures
            out@ == frame_bytes(old(self)@),
            final(self)@ == (RendererView { front: old(self)@.back, ..old(self)@ }),
    {
        proof {
            use_type_invariant(&*self);
            lemma_grid_small(self.size.cols, self.size.rows);
        }
        let ghost front0 = self.front@;
        let ghost back = self.back@;
        let cols = self.size.cols;
        let rows = self.size.rows;
        let mut out: Vec<u8> = Vec::new();
        push_all(&mut out, &[0x1b, 0x5b, 0x3f, 0x32, 0x35, 0x6c]);
        let mut active = Style { fg: Color::Reset, bg: Color::Reset, bold: false, reverse: false };
        let mut last_pos: Option<(u16, u16)> = None;
        assert(out@ =~= hide_cursor_bytes());
        let mut y: u16 = 0;
        while y < rows
            invariant
                cols == self.size.cols,
                rows == self.size.rows,
                self.size == old(self).size,
                self.cursor == old(self).cursor,
                self.back@ == back,
                back == old(self).back@,
                front0 == old(self).front@,
                front0.len() == cols as int * rows as int,
                back.len() == cols as int * rows as int,
                self.front@.len() == cols as int * rows as int,
                cols as int * rows as int <= 0xfffe0001,
                y <= rows,
                forall|j: int| 0 <= j < y as int * cols as int ==> self.front@[j] == back[j],
                forall|j: int| y as int * cols as int <= j < front0.len() ==> self.front@[j] == front0[j],
                ({
                    let st = diff_cells(front0, back, cols as int, y as int, 0);
                    out@ == st.out && active == st.active && last_pos == st.last
                }),
            decreases rows - y,
        {
            let mut x: u16 = 0;
            while x < cols
                invariant
                    cols == self.size.cols,
                    rows == self.size.rows,
                    self.size == old(self).size,
                    self.cursor == old(self).cursor,
                    self.back@ == back,
                    front0.len() == cols as int * rows as int,
                    back.len() == cols as int * rows as int,
                    self.front@.len() == cols as int * rows as int,
                    cols as int * rows as int <= 0xfffe0001,
                    y < rows,
                    x <= cols,
                    forall|j: int| 0 <= j < y as int * cols as int + x as int ==> self.front@[j] == back[j],
                    forall|j: int| y as int * cols as int + x as int <= j < front0.len() ==> self.front@[j] == front0[j],
                    ({
                        let st = diff_cells(front0, back, cols as int, y as int, x as int);
                        out@ == st.out && active == st.active && last_pos == st.last
                    }),
                decreases cols - x,
            {
                proof {
                    lemma_cell_index(x as int, y as int, cols as int, rows as int);
                    lemma_grid_small(cols, rows);
                    assert(usize::MAX >= 0xffffffff);
                }
                let idx = (y as usize) * (cols as usize) + (x as usize);
                let cell = self.back[idx];
                let ghost st = diff_cells(front0, back, cols as int, y as int, x as int);
                assert(diff_cells(front0, back, cols as int, y as int, x + 1) == diff_step(st, front0, back, cols as int, y as int, x as int));
                if cell != self.front[idx] {
                    let prev = x.wrapping_sub(1);
                    if last_pos != Some((y, prev)) {
                        write_move(&mut out, y, x);
                    }
                    let next = Style::from(cell);
                    if next != active {
                        write_sgr(&mut out, next);
                        active = next;
                    }
                    push_utf8(&mut out, cell.ch);
                    self.front[idx] = cell;
                    last_pos = Some((y, x));
                }
                x = x + 1;
            }
            proof {
                assert(y as int * cols as int + cols as int == (y + 1) as int * cols as int) by (nonlinear_arith);
                assert(diff_cells(front0, back, cols as int, y + 1, 0) == diff_cells(front0, back, cols as int, y as int, cols as int));
            }
            y = y + 1;
        }
        let ghost body = out@;
        push_all(&mut out, &[0x1b, 0x5b, 0x30, 0x6d]);
        let (cx, cy) = self.cursor;
        let ghost before_cursor = out@;
        if cx < cols && cy < rows {
            write_move(&mut out, cy, cx);
            push_all(&mut out, &[0x1b, 0x5b, 0x3f, 0x32, 0x35, 0x68]);
        }
        proof {
            assert(self.front@ =~= back);
            if !(cx < cols && cy < rows) {
                assert(out@ =~= before_cursor + Seq::<u8>::empty());
            }
            assert(out@ =~= frame_bytes(old(self)@));
        }
        out
    }
}

} // verus!
