//! The editor's state and its decisions: what a key press does (keymap dispatch,
//! chord accumulation, the insert-mode fallthrough), what the named commands do, when
//! a pending chord prefix expires, and what a frame shows. The loop that reads keys,
//! sleeps, writes files and flushes frames to the terminal belongs to the caller.
use vstd::prelude::*;

use crate::buffer::{
    after_backspace, after_delete_forward, after_delete_line, after_insert_char, after_move_buffer_end,
    after_move_down, after_move_end, after_move_home, after_move_left, after_move_right, after_move_up,
    line_text, moved, redone, undone, word_back_target, word_forward_target, Buffer, BufferView, Cursor,
};
use crate::command::{
    lemma_builtin_names_1, lemma_builtin_names_2, lemma_builtin_names_3, lemma_builtin_names_4, with_builtin_commands,
    Command, Registry,
};
use crate::config::{keymap_model, Config, ConfigModel, Theme};
use crate::keymap::{has_bound_extension, strictly_extends, KeyChord, Lookup};
use crate::mode::Mode;
use crate::rope::line_count;
use crate::term::input::{Key, KeyMod};
use crate::term::output::{blank_cell, painted, painted_str, RenderCell, Renderer, RendererView};
use crate::term::size::Size;
use crate::text::{chars_of, str_eq, string_of, string_push};

verus! {

/// What the caller has to do after a key was handled.
#[derive(Debug, Clone, Copy, PartialEq, Eq, Structural)]
pub enum Action {
    /// Nothing: draw the next frame.
    Continue,
    /// Write the buffer's text to its path, then report back with
    /// [`Editor::finish_save`].
    Save,
    /// Write the buffer's text to its path, report back with [`Editor::finish_save`],
    /// and quit if the write succeeded.
    SaveAndQuit,
}

/// What a key resolved to in the current mode's keymap.
enum Outcome {
    Run(String),
    Wait,
    Fallback,
}

/// The editor: one buffer, the mode, the message shown under the status line, the
/// command line, whether to quit, the configuration, the command registry, and the
/// chords typed since the last command was resolved.
#[derive(Debug)]
pub struct Editor {
    buffer: Buffer,
    mode: Mode,
    status: String,
    cmdline: String,
    quit: bool,
    config: Config,
    registry: Registry,
    pending: Vec<KeyChord>,
}

/// What an [`Editor`] holds, as values of the specification.
pub struct EditorView {
    pub buffer: BufferView,
    pub mode: Mode,
    pub status: Seq<char>,
    pub cmdline: Seq<char>,
    pub quit: bool,
    pub config: ConfigModel,
    pub registry: Map<Seq<char>, Command>,
    pub pending: Seq<KeyChord>,
}

impl View for Editor {
    type V = EditorView;

    closed spec fn view(&self) -> EditorView {
        EditorView {
            buffer: self.buffer@,
            mode: self.mode,
            status: self.status@,
            cmdline: self.cmdline@,
            quit: self.quit,
            config: self.config.model(),
            registry: self.registry@,
            pending: self.pending@,
        }
    }
}

/// Whether the cursor and the text leave room for one more character: the cursor's
/// coordinates and the text's length are below `usize::MAX`.
pub open spec fn has_room(v: EditorView) -> bool {
    &&& v.buffer.cursor.line < usize::MAX
    &&& v.buffer.cursor.col < usize::MAX
    &&& v.buffer.text.len() < usize::MAX
}

/// The message with which the editor starts.
pub open spec fn welcome() -> Seq<char> {
    "-- NORMAL --   :q to quit  :w to save"@
}

/// `v` with the buffer `b`.
pub open spec fn with_buffer(v: EditorView, b: BufferView) -> EditorView {
    EditorView { buffer: b, ..v }
}

/// `v` with the buffer `b` and the mode `m`.
pub open spec fn with_buffer_mode(v: EditorView, b: BufferView, m: Mode) -> EditorView {
    EditorView { buffer: b, mode: m, ..v }
}

/// What running `cmd` does to `v`, and what the caller has to do after it.
pub open spec fn command_effect(v: EditorView, cmd: Command) -> (EditorView, Action) {
    let b = v.buffer;
    match cmd {
        Command::CursorLeft => (with_buffer(v, after_move_left(b)), Action::Continue),
        Command::CursorRight => (with_buffer(v, after_move_right(b)), Action::Continue),
        Command::CursorUp => (with_buffer(v, after_move_up(b)), Action::Continue),
        Command::CursorDown => (with_buffer(v, after_move_down(b)), Action::Continue),
        Command::CursorLineStart => (with_buffer(v, after_move_home(b)), Action::Continue),
        Command::CursorLineEnd => (with_buffer(v, after_move_end(b)), Action::Continue),
        Command::CursorWordForward => (with_buffer(v, moved(b, word_forward_target(b.text, b.cursor))), Action::Continue),
        Command::CursorWordBack => (with_buffer(v, moved(b, word_back_target(b.text, b.cursor))), Action::Continue),
        Command::BufferGotoStart => (with_buffer(v, moved(b, Cursor { line: 0, col: 0 })), Action::Continue),
        Command::BufferGotoEnd => (with_buffer(v, after_move_buffer_end(b)), Action::Continue),
        Command::EditBackspace => (with_buffer(v, after_backspace(b)), Action::Continue),
        Command::EditDeleteForward => (with_buffer(v, after_delete_forward(b)), Action::Continue),
        Command::EditDeleteLine => (with_buffer(v, after_delete_line(b)), Action::Continue),
        Command::EditNewline => (with_buffer(v, after_insert_char(b, '\n')), Action::Continue),
        Command::EditUndo => if b.undo.len() > 0 {
            (with_buffer(v, undone(b)), Action::Continue)
        } else {
            (EditorView { status: "nothing to undo"@, ..v }, Action::Continue)
        },
        Command::EditRedo => if b.redo.len() > 0 {
            (with_buffer(v, redone(b)), Action::Continue)
        } else {
            (EditorView { status: "nothing to redo"@, ..v }, Action::Continue)
        },
        Command::ModeNormal => (EditorView { mode: Mode::Normal, ..v }, Action::Continue),
        Command::ModeInsert => (EditorView { mode: Mode::Insert, ..v }, Action::Continue),
        Command::ModeInsertAfter => (with_buffer_mode(v, after_move_right(b), Mode::Insert), Action::Continue),
        Command::ModeInsertLineStart => (with_buffer_mode(v, after_move_home(b), Mode::Insert), Action::Continue),
        Command::ModeInsertLineEnd => (with_buffer_mode(v, after_move_end(b), Mode::Insert), Action::Continue),
        Command::ModeOpenBelow => (
            with_buffer_mode(v, after_insert_char(after_move_end(b), '\n'), Mode::Insert),
            Action::Continue,
        ),
        Command::ModeCommand => (EditorView { mode: Mode::Command, cmdline: Seq::empty(), ..v }, Action::Continue),
        Command::BufferSave => (v, Action::Save),
        Command::EditorQuit => (EditorView { quit: true, ..v }, Action::Continue),
    }
}

/// Whether a character typed with `mods` counts as typed text: no modifier, or shift
/// alone.
pub open spec fn plain_or_shift(mods: KeyMod) -> bool {
    mods.bits == 0 || mods.bits == 1
}

/// What a key that no binding takes does to the buffer in insert mode: a character
/// typed as text is inserted, Enter inserts a line break and Backspace deletes
/// backwards; any other key changes nothing.
pub open spec fn typed_edit(b: BufferView, key: Key, mods: KeyMod) -> BufferView {
    match key {
        Key::Char(c) => if plain_or_shift(mods) {
            after_insert_char(b, c)
        } else {
            b
        },
        Key::Enter => after_insert_char(b, '\n'),
        Key::Backspace => after_backspace(b),
        _ => b,
    }
}

/// The message with which `:q` refuses to quit a changed buffer.
pub open spec fn unsaved_message() -> Seq<char> {
    "unsaved changes (add ! to override)"@
}

/// What running the command line `line` does to `v` (already back in normal mode):
/// `w` saves, `q` quits unless the buffer changed since the last save, `q!` quits,
/// `wq` and `x` save and then quit, an empty line does nothing, and anything else is
/// reported as no editor command.
pub open spec fn command_line_effect(v: EditorView, line: Seq<char>) -> (EditorView, Action) {
    if line == "w"@ {
        (v, Action::Save)
    } else if line == "q"@ {
        if v.buffer.dirty {
            (EditorView { status: unsaved_message(), ..v }, Action::Continue)
        } else {
            (EditorView { quit: true, ..v }, Action::Continue)
        }
    } else if line == "q!"@ {
        (EditorView { quit: true, ..v }, Action::Continue)
    } else if line == "wq"@ || line == "x"@ {
        (v, Action::SaveAndQuit)
    } else if line.len() == 0 {
        (v, Action::Continue)
    } else {
        (EditorView { status: "not an editor command: "@ + line, ..v }, Action::Continue)
    }
}

/// What a key that no binding takes does: in insert mode it edits the buffer (see
/// [`typed_edit`]); in command mode a character typed as text goes on the command
/// line, Backspace takes the last one off, and Enter runs the line (see
/// [`command_line_effect`]) after returning to normal mode with an empty line; in
/// normal mode, and for any other key, nothing happens.
pub open spec fn fallback_effect(v: EditorView, key: Key, mods: KeyMod) -> (EditorView, Action) {
    match v.mode {
        Mode::Insert => (with_buffer(v, typed_edit(v.buffer, key, mods)), Action::Continue),
        Mode::Command => match key {
            Key::Char(c) => if plain_or_shift(mods) {
                (EditorView { cmdline: v.cmdline.push(c), ..v }, Action::Continue)
            } else {
                (v, Action::Continue)
            },
            Key::Backspace => if v.cmdline.len() > 0 {
                (EditorView { cmdline: v.cmdline.drop_last(), ..v }, Action::Continue)
            } else {
                (v, Action::Continue)
            },
            Key::Enter => command_line_effect(
                EditorView { mode: Mode::Normal, cmdline: Seq::empty(), ..v },
                v.cmdline,
            ),
            _ => (v, Action::Continue),
        },
        Mode::Normal => (v, Action::Continue),
    }
}

/// What pressing `key` with `mods` does to `v`. The chord joins the pending ones and
/// the sequence is looked up in the current mode's keymap: a bound sequence runs its
/// command (or reports an unknown name) and clears the pending chords; a prefix of a
/// bound sequence waits for more; anything else clears the pending chords and falls
/// through to [`fallback_effect`].
pub open spec fn key_effect(v: EditorView, key: Key, mods: KeyMod) -> (EditorView, Action) {
    let typed = v.pending.push(KeyChord { key, mods });
    let km = keymap_model(v.config, v.mode);
    let cleared = EditorView { pending: Seq::empty(), ..v };
    if km.contains_key(typed) {
        let name = km[typed];
        if v.registry.contains_key(name) {
            command_effect(cleared, v.registry[name])
        } else {
            (EditorView { status: "unknown command: "@ + name, ..cleared }, Action::Continue)
        }
    } else if has_bound_extension(km, typed) {
        (EditorView { pending: typed, ..v }, Action::Continue)
    } else {
        fallback_effect(cleared, key, mods)
    }
}

/// The digits of `n` in decimal.
pub open spec fn decimal_chars(n: nat) -> Seq<char>
    decreases n,
{
    if n < 10 {
        seq![(48 + n) as char]
    } else {
        decimal_chars(n / 10).push((48 + n % 10) as char)
    }
}

/// The label of a mode on the status line.
pub open spec fn mode_label(m: Mode) -> Seq<char> {
    match m {
        Mode::Normal => " NORMAL "@,
        Mode::Insert => " INSERT "@,
        Mode::Command => " COMMAND "@,
    }
}

/// The status line: mode, path, a dot when changed, and the 1-based cursor position.
pub open spec fn status_text(v: EditorView) -> Seq<char> {
    mode_label(v.mode) + v.buffer.path + (if v.buffer.dirty {
        " ●"@
    } else {
        Seq::<char>::empty()
    }) + "   "@ + decimal_chars(v.buffer.cursor.line as nat + 1) + ":"@ + decimal_chars(
        v.buffer.cursor.col as nat + 1,
    )
}

/// The bottom line: the command line in command mode, the message otherwise.
pub open spec fn message_text(v: EditorView) -> Seq<char> {
    if v.mode == Mode::Command {
        seq![':'] + v.cmdline
    } else {
        v.status
    }
}

/// The first line shown when `rows` text rows must show line `line`.
pub open spec fn scroll_top(line: usize, rows: u16) -> int {
    if line > rows - 1 {
        line - (rows - 1)
    } else {
        0
    }
}

/// The grid after painting the first `k` text rows with the lines from `top` on; rows
/// past the last line stay as they are.
pub open spec fn text_rows_painted(back: Seq<RenderCell>, size: Size, text: Seq<char>, theme: Theme, top: int, k: int) -> Seq<RenderCell>
    decreases k,
{
    if k <= 0 {
        back
    } else {
        let prev = text_rows_painted(back, size, text, theme, top, k - 1);
        if top + (k - 1) < line_count(text) {
            painted_str(prev, size, 0, (k - 1) as u16, line_text(text, top + (k - 1)), theme.foreground, theme.background, false).0
        } else {
            prev
        }
    }
}

/// The grid after painting `cell` into the first `k` columns of row `y`.
pub open spec fn row_filled(back: Seq<RenderCell>, size: Size, y: u16, cell: RenderCell, k: int) -> Seq<RenderCell>
    decreases k,
{
    if k <= 0 {
        back
    } else {
        painted(row_filled(back, size, y, cell, k - 1), size, (k - 1) as u16, y, cell)
    }
}

/// `n`, saturated to `u16`.
pub open spec fn saturated_u16(n: int) -> u16 {
    if n > u16::MAX {
        u16::MAX
    } else {
        n as u16
    }
}

/// The smaller of two `u16`s.
pub open spec fn min_u16(a: u16, b: u16) -> u16 {
    if a <= b {
        a
    } else {
        b
    }
}

/// The renderer after drawing `v` into `r`: the back grid is blanked; on a screen of at
/// least three rows and one column, the text rows show the lines scrolled so that the
/// cursor's line is visible, the second-to-last row is the status line (filled with
/// the status colours, then [`status_text`] in bold), the last row shows
/// [`message_text`], and the cursor is placed at its screen position, clamped to the
/// text area.
pub open spec fn drawn(r: RendererView, v: EditorView) -> RendererView {
    let size = r.size;
    let blank = Seq::new(r.back.len(), |_i: int| blank_cell());
    if size.rows < 3 || size.cols < 1 {
        RendererView { back: blank, ..r }
    } else {
        let theme = v.config.theme;
        let rows = (size.rows - 2) as u16;
        let top = scroll_top(v.buffer.cursor.line, rows);
        let with_text = text_rows_painted(blank, size, v.buffer.text, theme, top, rows as int);
        let status_cell = RenderCell { ch: ' ', fg: theme.status_fg, bg: theme.status_bg, bold: false, reverse: false };
        let with_bar = row_filled(with_text, size, rows, status_cell, size.cols as int);
        let with_status = painted_str(with_bar, size, 0, rows, status_text(v), theme.status_fg, theme.status_bg, true).0;
        let with_message = painted_str(
            with_status,
            size,
            0,
            (size.rows - 1) as u16,
            message_text(v),
            theme.cmdline_fg,
            theme.cmdline_bg,
            false,
        ).0;
        let x = min_u16(saturated_u16(v.buffer.cursor.col as int), (size.cols - 1) as u16);
        let y = min_u16(saturated_u16(v.buffer.cursor.line - top), (rows - 1) as u16);
        RendererView { back: with_message, cursor: (x, y), ..r }
    }
}

/// In insert mode, a character typed alone that no binding of insert mode takes (and
/// that starts no bound sequence) is inserted at the cursor; nothing stays pending.
pub proof fn lemma_unbound_char_is_typed(v: EditorView, c: char)
    requires
        v.mode == Mode::Insert,
        v.pending.len() == 0,
        !v.config.insert.contains_key(seq![KeyChord { key: Key::Char(c), mods: KeyMod { bits: 0 } }]),
        !has_bound_extension(v.config.insert, seq![KeyChord { key: Key::Char(c), mods: KeyMod { bits: 0 } }]),
    ensures
        key_effect(v, Key::Char(c), KeyMod { bits: 0 }).0 == (EditorView {
            buffer: after_insert_char(v.buffer, c),
            pending: Seq::empty(),
            ..v
        }),
        key_effect(v, Key::Char(c), KeyMod { bits: 0 }).1 == Action::Continue,
{
    assert(v.pending.push(KeyChord { key: Key::Char(c), mods: KeyMod { bits: 0 } }) =~= seq![
        KeyChord { key: Key::Char(c), mods: KeyMod { bits: 0 } },
    ]);
}

/// A command's sequence typed chord by chord in a keymap where only that sequence
/// starts with its first chord: the first chord waits, the second runs the command.
pub proof fn lemma_two_chord_sequence(v: EditorView, k1: KeyChord, k2: KeyChord)
    requires
        v.pending.len() == 0,
        keymap_model(v.config, v.mode).contains_key(seq![k1, k2]),
        !keymap_model(v.config, v.mode).contains_key(seq![k1]),
    ensures
        key_effect(v, k1.key, k1.mods).0 == (EditorView { pending: seq![k1], ..v }),
        key_effect(v, k1.key, k1.mods).1 == Action::Continue,
        key_effect(key_effect(v, k1.key, k1.mods).0, k2.key, k2.mods) == (if v.registry.contains_key(
            keymap_model(v.config, v.mode)[seq![k1, k2]],
        ) {
            command_effect(v, v.registry[keymap_model(v.config, v.mode)[seq![k1, k2]]])
        } else {
            (
                EditorView { status: "unknown command: "@ + keymap_model(v.config, v.mode)[seq![k1, k2]], ..v },
                Action::Continue,
            )
        }),
{
    let km = keymap_model(v.config, v.mode);
    assert(v.pending.push(k1) =~= seq![k1]);
    assert(seq![k1].push(k2) =~= seq![k1, k2]);
    assert(seq![k1, k2].subrange(0, 1) =~= seq![k1]);
    assert(km.contains_key(seq![k1, k2]) && strictly_extends(seq![k1, k2], seq![k1]));
    assert(has_bound_extension(km, seq![k1]));
    let w = key_effect(v, k1.key, k1.mods).0;
    assert(w == EditorView { pending: seq![k1], ..v });
    assert((EditorView { pending: Seq::empty(), ..w }) == v) by {
        assert(v.pending =~= Seq::<KeyChord>::empty());
    }
}

/// `:q` followed by Enter refuses to quit while the buffer has unsaved changes, and
/// says so; on an unchanged buffer it quits. (Enter is taken as typed, not bound in
/// command mode.)
pub proof fn lemma_quit_refused_when_dirty(v: EditorView)
    requires
        v.mode == Mode::Command,
        v.cmdline == "q"@,
        v.pending.len() == 0,
        !v.config.command.contains_key(seq![KeyChord { key: Key::Enter, mods: KeyMod { bits: 0 } }]),
        !has_bound_extension(v.config.command, seq![KeyChord { key: Key::Enter, mods: KeyMod { bits: 0 } }]),
    ensures
        v.buffer.dirty ==> key_effect(v, Key::Enter, KeyMod { bits: 0 }).0 == (EditorView {
            mode: Mode::Normal,
            cmdline: Seq::empty(),
            status: unsaved_message(),
            ..v
        }),
        !v.buffer.dirty ==> key_effect(v, Key::Enter, KeyMod { bits: 0 }).0 == (EditorView {
            mode: Mode::Normal,
            cmdline: Seq::empty(),
            quit: true,
            ..v
        }),
        key_effect(v, Key::Enter, KeyMod { bits: 0 }).1 == Action::Continue,
{
    assert(v.pending.push(KeyChord { key: Key::Enter, mods: KeyMod { bits: 0 } }) =~= seq![
        KeyChord { key: Key::Enter, mods: KeyMod { bits: 0 } },
    ]);
    assert(v.pending =~= Seq::<KeyChord>::empty());
    reveal_strlit("q");
    reveal_strlit("w");
    assert("q"@ != "w"@) by {
        assert("q"@[0] != "w"@[0]);
    }
    let back = EditorView { mode: Mode::Normal, cmdline: Seq::empty(), ..v };
    assert(key_effect(v, Key::Enter, KeyMod { bits: 0 }) == command_line_effect(back, "q"@));
}

/// A bound key runs its command at once, even where longer sequences start with it:
/// a single key never waits for a timeout.
pub proof fn lemma_bound_key_runs_at_once(v: EditorView, k: KeyChord)
    requires
        v.pending.len() == 0,
        keymap_model(v.config, v.mode).contains_key(seq![k]),
        v.registry.contains_key(keymap_model(v.config, v.mode)[seq![k]]),
    ensures
        key_effect(v, k.key, k.mods) == command_effect(v, v.registry[keymap_model(v.config, v.mode)[seq![k]]]),
{
    assert(v.pending.push(k) =~= seq![k]);
    assert((EditorView { pending: Seq::empty(), ..v }) == v) by {
        assert(v.pending =~= Seq::<KeyChord>::empty());
    }
}

/// Each built-in command name does what it names: run from the registry that
/// [`Registry::with_builtins`] builds, `cursor.line_end` moves to the end of the line,
/// `edit.undo` undoes (or says there is nothing to undo), `mode.open_below` opens a
/// line below and enters insert mode, and so on for every name.
pub proof fn lemma_builtin_commands_do_what_they_name(v: EditorView)
    ensures
        command_effect(v, with_builtin_commands(Map::empty())["cursor.left"@]) == (with_buffer(v, after_move_left(v.buffer)), Action::Continue),
        command_effect(v, with_builtin_commands(Map::empty())["cursor.right"@]) == (with_buffer(v, after_move_right(v.buffer)), Action::Continue),
        command_effect(v, with_builtin_commands(Map::empty())["cursor.up"@]) == (with_buffer(v, after_move_up(v.buffer)), Action::Continue),
        command_effect(v, with_builtin_commands(Map::empty())["cursor.down"@]) == (with_buffer(v, after_move_down(v.buffer)), Action::Continue),
        command_effect(v, with_builtin_commands(Map::empty())["cursor.line_start"@]) == (with_buffer(v, after_move_home(v.buffer)), Action::Continue),
        command_effect(v, with_builtin_commands(Map::empty())["cursor.line_end"@]) == (with_buffer(v, after_move_end(v.buffer)), Action::Continue),
        command_effect(v, with_builtin_commands(Map::empty())["cursor.word_forward"@]) == (with_buffer(v, moved(v.buffer, word_forward_target(v.buffer.text, v.buffer.cursor))), Action::Continue),
        command_effect(v, with_builtin_commands(Map::empty())["cursor.word_back"@]) == (with_buffer(v, moved(v.buffer, word_back_target(v.buffer.text, v.buffer.cursor))), Action::Continue),
        command_effect(v, with_builtin_commands(Map::empty())["buffer.goto_start"@]) == (with_buffer(v, moved(v.buffer, Cursor { line: 0, col: 0 })), Action::Continue),
        command_effect(v, with_builtin_commands(Map::empty())["buffer.goto_end"@]) == (with_buffer(v, after_move_buffer_end(v.buffer)), Action::Continue),
        command_effect(v, with_builtin_commands(Map::empty())["edit.backspace"@]) == (with_buffer(v, after_backspace(v.buffer)), Action::Continue),
        command_effect(v, with_builtin_commands(Map::empty())["edit.delete_forward"@]) == (with_buffer(v, after_delete_forward(v.buffer)), Action::Continue),
        command_effect(v, with_builtin_commands(Map::empty())["edit.delete_line"@]) == (with_buffer(v, after_delete_line(v.buffer)), Action::Continue),
        command_effect(v, with_builtin_commands(Map::empty())["edit.newline"@]) == (with_buffer(v, after_insert_char(v.buffer, '\n')), Action::Continue),
        command_effect(v, with_builtin_commands(Map::empty())["edit.undo"@]) == (if v.buffer.undo.len() > 0 {
            (with_buffer(v, undone(v.buffer)), Action::Continue)
        } else {
            (EditorView { status: "nothing to undo"@, ..v }, Action::Continue)
        }),
        command_effect(v, with_builtin_commands(Map::empty())["edit.redo"@]) == (if v.buffer.redo.len() > 0 {
            (with_buffer(v, redone(v.buffer)), Action::Continue)
        } else {
            (EditorView { status: "nothing to redo"@, ..v }, Action::Continue)
        }),
        command_effect(v, with_builtin_commands(Map::empty())["mode.normal"@]) == (EditorView { mode: Mode::Normal, ..v }, Action::Continue),
        command_effect(v, with_builtin_commands(Map::empty())["mode.insert"@]) == (EditorView { mode: Mode::Insert, ..v }, Action::Continue),
        command_effect(v, with_builtin_commands(Map::empty())["mode.insert_after"@]) == (with_buffer_mode(v, after_move_right(v.buffer), Mode::Insert), Action::Continue),
        command_effect(v, with_builtin_commands(Map::empty())["mode.insert_line_start"@]) == (with_buffer_mode(v, after_move_home(v.buffer), Mode::Insert), Action::Continue),
        command_effect(v, with_builtin_commands(Map::empty())["mode.insert_line_end"@]) == (with_buffer_mode(v, after_move_end(v.buffer), Mode::Insert), Action::Continue),
        command_effect(v, with_builtin_commands(Map::empty())["mode.open_below"@]) == (with_buffer_mode(v, after_insert_char(after_move_end(v.buffer), '\n'), Mode::Insert), Action::Continue),
        command_effect(v, with_builtin_commands(Map::empty())["mode.command"@]) == (EditorView { mode: Mode::Command, cmdline: Seq::empty(), ..v }, Action::Continue),
        command_effect(v, with_builtin_commands(Map::empty())["buffer.save"@]) == (v, Action::Save),
        command_effect(v, with_builtin_commands(Map::empty())["editor.quit"@]) == (EditorView { quit: true, ..v }, Action::Continue),
{
    lemma_builtin_names_1(Map::empty());
    lemma_builtin_names_2(Map::empty());
    lemma_builtin_names_3(Map::empty());
    lemma_builtin_names_4(Map::empty());
}

/// Append the characters of `s`.
fn push_str(out: &mut Vec<char>, s: &str)
    ensures
        final(out)@ == old(out)@ + s@,
{
    let cs = chars_of(s);
    let mut i: usize = 0;
    while i < cs.len()
        invariant
            cs@ == s@,
            i <= cs@.len(),
            out@ == old(out)@ + cs@.take(i as int),
        decreases cs@.len() - i,
    {
        out.push(cs[i]);
        i = i + 1;
        assert(out@ =~= old(out)@ + cs@.take(i as int));
    }
    assert(cs@.take(cs@.len() as int) =~= cs@);
}

/// `a` followed by `b`.
fn concat(a: &str, b: &str) -> (s: String)
    ensures
        s@ == a@ + b@,
{
    let mut v: Vec<char> = Vec::new();
    push_str(&mut v, a);
    push_str(&mut v, b);
    assert(v@ =~= a@ + b@);
    string_of(&v)
}

/// Append the decimal digits of `n`.
fn push_decimal_chars(out: &mut Vec<char>, n: u128)
    ensures
        final(out)@ == old(out)@ + decimal_chars(n as nat),
    decreases n,
{
    if n >= 10 {
        push_decimal_chars(out, n / 10);
    }
    let d = (n % 10) as u8;
    let c = (48u8 + d) as char;
    out.push(c);
    proof {
        if n >= 10 {
            assert(decimal_chars(n as nat) == decimal_chars((n / 10) as nat).push(c));
        } else {
            assert(decimal_chars(n as nat) == seq![c]);
        }
    }
    assert(out@ =~= old(out)@ + decimal_chars(n as nat));
}

/// The status-line label of a mode.
fn mode_label_str(m: Mode) -> (s: &'static str)
    ensures
        s@ == mode_label(m),
{
    match m {
        Mode::Normal => " NORMAL ",
        Mode::Insert => " INSERT ",
        Mode::Command => " COMMAND ",
    }
}

impl Editor {
    /// An editor on `buffer` with `config`: normal mode, the welcome message, the
    /// built-in commands, nothing pending.
    pub fn new(buffer: Buffer, config: Config) -> (e: Editor)
        ensures
            e@.buffer == buffer@,
            e@.mode == Mode::Normal,
            e@.status == welcome(),
            e@.cmdline == Seq::<char>::empty(),
            !e@.quit,
            e@.config == config.model(),
            e@.registry == with_builtin_commands(Map::empty()),
            e@.pending == Seq::<KeyChord>::empty(),
    {
        Editor {
            buffer,
            mode: Mode::Normal,
            status: String::from_str("-- NORMAL --   :q to quit  :w to save"),
            cmdline: String::new(),
            quit: false,
            config,
            registry: Registry::with_builtins(),
            pending: Vec::new(),
        }
    }

    /// Whether the cursor and the text leave room for one more character (see
    /// [`has_room`]); [`Editor::handle_key`] asks for it.
    pub fn has_room(&self) -> (b: bool)
        ensures
            b == has_room(self@),
    {
        let c = self.buffer.cursor();
        c.line < usize::MAX && c.col < usize::MAX && self.buffer.len_chars() < usize::MAX
    }

    /// Run a command (see [`command_effect`]).
    fn run_command(&mut self, cmd: Command) -> (a: Action)
        requires
            has_room(old(self)@),
        ensures
            (final(self)@, a) == command_effect(old(self)@, cmd),
    {
        match cmd {
            Command::CursorLeft => self.buffer.move_left(),
            Command::CursorRight => self.buffer.move_right(),
            Command::CursorUp => self.buffer.move_up(),
            Command::CursorDown => self.buffer.move_down(),
            Command::CursorLineStart => self.buffer.move_line_start(),
            Command::CursorLineEnd => self.buffer.move_line_end(),
            Command::CursorWordForward => self.buffer.move_word_forward(),
            Command::CursorWordBack => self.buffer.move_word_back(),
            Command::BufferGotoStart => self.buffer.move_buffer_start(),
            Command::BufferGotoEnd => self.buffer.move_buffer_end(),
            Command::EditBackspace => self.buffer.backspace(),
            Command::EditDeleteForward => self.buffer.delete_char_forward(),
            Command::EditDeleteLine => self.buffer.delete_line(),
            Command::EditNewline => self.buffer.insert_newline(),
            Command::EditUndo => {
                if !self.buffer.undo() {
                    self.status = String::from_str("nothing to undo");
                }
            },
            Command::EditRedo => {
                if !self.buffer.redo() {
                    self.status = String::from_str("nothing to redo");
                }
            },
            Command::ModeNormal => self.mode = Mode::Normal,
            Command::ModeInsert => self.mode = Mode::Insert,
            Command::ModeInsertAfter => {
                self.buffer.move_right();
                self.mode = Mode::Insert;
            },
            Command::ModeInsertLineStart => {
                self.buffer.move_line_start();
                self.mode = Mode::Insert;
            },
            Command::ModeInsertLineEnd => {
                self.buffer.move_line_end();
                self.mode = Mode::Insert;
            },
            Command::ModeOpenBelow => {
                self.buffer.move_line_end();
                self.buffer.insert_newline();
                self.mode = Mode::Insert;
            },
            Command::ModeCommand => {
                self.mode = Mode::Command;
                self.cmdline = String::new();
            },
            Command::BufferSave => {
                return Action::Save;
            },
            Command::EditorQuit => self.quit = true,
        }
        Action::Continue
    }

    /// Handle one key press (see [`key_effect`]). The caller performs the returned
    /// action.
    pub fn handle_key(&mut self, key: Key, mods: KeyMod) -> (a: Action)
        requires
            has_room(old(self)@),
        ensures
            (final(self)@, a) == key_effect(old(self)@, key, mods),
    {
        let chord = KeyChord::from_event(key, mods);
        self.pending.push(chord);
        let outcome = match self.config.keymaps.get(self.mode).lookup(self.pending.as_slice()) {
            Lookup::Command(name) => Outcome::Run(name.to_owned()),
            Lookup::Pending => Outcome::Wait,
            Lookup::NoMatch => Outcome::Fallback,
        };
        match outcome {
            Outcome::Run(name) => {
                self.pending = Vec::new();
                match self.registry.get(name.as_str()) {
                    Some(cmd) => self.run_command(cmd),
                    None => {
                        self.status = concat("unknown command: ", name.as_str());
                        Action::Continue
                    },
                }
            },
            Outcome::Wait => Action::Continue,
            Outcome::Fallback => {
                self.pending = Vec::new();
                self.fallback(key, mods)
            },
        }
    }

    /// Handle a key that no binding takes (see [`fallback_effect`]).
    fn fallback(&mut self, key: Key, mods: KeyMod) -> (a: Action)
        requires
            has_room(old(self)@),
        ensures
            (final(self)@, a) == fallback_effect(old(self)@, key, mods),
    {
        let plain = mods.is_empty() || mods == KeyMod::shift();
        match self.mode {
            Mode::Insert => {
                match key {
                    Key::Char(c) => {
                        if plain {
                            self.buffer.insert_char(c);
                        }
                    },
                    Key::Enter => self.buffer.insert_newline(),
                    Key::Backspace => self.buffer.backspace(),
                    _ => {},
                }
                Action::Continue
            },
            Mode::Command => match key {
                Key::Char(c) => {
                    if plain {
                        string_push(&mut self.cmdline, c);
                    }
                    Action::Continue
                },
                Key::Backspace => {
                    let cs = chars_of(self.cmdline.as_str());
                    if cs.len() > 0 {
                        self.cmdline = string_of(&cs[0..cs.len() - 1]);
                        assert(cs@.subrange(0, cs@.len() - 1) =~= cs@.drop_last());
                    }
                    Action::Continue
                },
                Key::Enter => {
                    let mut line = String::new();
                    std::mem::swap(&mut line, &mut self.cmdline);
                    self.mode = Mode::Normal;
                    self.run_command_line(line.as_str())
                },
                _ => Action::Continue,
            },
            Mode::Normal => Action::Continue,
        }
    }

    /// Run a command line (see [`command_line_effect`]).
    fn run_command_line(&mut self, line: &str) -> (a: Action)
        ensures
            (final(self)@, a) == command_line_effect(old(self)@, line@),
    {
        if str_eq(line, "w") {
            Action::Save
        } else if str_eq(line, "q") {
            if self.buffer.is_dirty() {
                self.status = String::from_str("unsaved changes (add ! to override)");
            } else {
                self.quit = true;
            }
            Action::Continue
        } else if str_eq(line, "q!") {
            self.quit = true;
            Action::Continue
        } else if str_eq(line, "wq") || str_eq(line, "x") {
            Action::SaveAndQuit
        } else if line.unicode_len() == 0 {
            Action::Continue
        } else {
            self.status = concat("not an editor command: ", line);
            Action::Continue
        }
    }

    /// Report how writing the buffer out went, after [`Action::Save`] or
    /// [`Action::SaveAndQuit`] (`then_quit`): on success the buffer is no longer dirty,
    /// the message says where it was saved, and the editor quits if asked to; on
    /// failure the message carries the error's text and the editor stays.
    pub fn finish_save(&mut self, result: Result<(), String>, then_quit: bool)
        ensures
            match result {
                Ok(()) => final(self)@ == (EditorView {
                    buffer: BufferView { dirty: false, ..old(self)@.buffer },
                    status: "saved "@ + old(self)@.buffer.path,
                    quit: old(self)@.quit || then_quit,
                    ..old(self)@
                }),
                Err(e) => final(self)@ == (EditorView { status: "save failed: "@ + e@, ..old(self)@ }),
            },
    {
        match result {
            Ok(()) => {
                self.buffer.mark_saved();
                self.status = concat("saved ", self.buffer.path());
                if then_quit {
                    self.quit = true;
                }
            },
            Err(e) => {
                self.status = concat("save failed: ", e.as_str());
            },
        }
    }

    /// Drop the pending chords when the user paused mid-sequence: `idle_ns`
    /// nanoseconds since the last key, more than the configured chord timeout.
    pub fn expire_chord(&mut self, idle_ns: u128)
        ensures
            final(self)@ == if old(self)@.pending.len() > 0 && idle_ns > old(self)@.config.behavior.chord_timeout_ms
                * 1_000_000 {
                EditorView { pending: Seq::empty(), ..old(self)@ }
            } else {
                old(self)@
            },
    {
        let timeout_ns = (self.config.behavior.chord_timeout_ms as u128) * 1_000_000;
        if !self.pending.is_empty() && idle_ns > timeout_ns {
            self.pending = Vec::new();
        }
    }

    /// The buffer.
    pub fn buffer(&self) -> (b: &Buffer)
        ensures
            b@ == self@.buffer,
    {
        &self.buffer
    }

    /// The mode.
    pub fn mode(&self) -> (m: Mode)
        ensures
            m == self@.mode,
    {
        self.mode
    }

    /// Show `message` under the status line (as the configuration's warning is shown
    /// at start-up).
    pub fn set_status(&mut self, message: String)
        ensures
            final(self)@ == (EditorView { status: message@, ..old(self)@ }),
    {
        self.status = message;
    }

    /// The message shown under the status line.
    pub fn status(&self) -> (s: &str)
        ensures
            s@ == self@.status,
    {
        self.status.as_str()
    }

    /// Whether the editor was asked to quit.
    pub fn should_quit(&self) -> (q: bool)
        ensures
            q == self@.quit,
    {
        self.quit
    }

    /// The configuration.
    pub fn config(&self) -> (c: &Config)
        ensures
            c.model() == self@.config,
    {
        &self.config
    }

    /// Whether chords of an unfinished sequence are pending.
    pub fn has_pending(&self) -> (p: bool)
        ensures
            p == (self@.pending.len() > 0),
    {
        !self.pending.is_empty()
    }

    /// Paint the frame into the renderer's back grid (see [`drawn`]); flushing it to
    /// the terminal is the caller's part.
    pub fn draw(&self, r: &mut Renderer)
        ensures
            final(r)@ == drawn(old(r)@, self@),
    {
        r.clear_back();
        let size = r.size();
        if size.rows < 3 || size.cols < 1 {
            return;
        }
        let ghost blank = r@.back;
        let text_rows: u16 = size.rows - 2;
        let text_cols: u16 = size.cols;
        let theme = self.config.theme;
        let lines = self.buffer.line_count();
        let cursor = self.buffer.cursor();
        let scroll_y: usize = if cursor.line > (text_rows - 1) as usize {
            cursor.line - (text_rows - 1) as usize
        } else {
            0
        };
        let mut screen_row: u16 = 0;
        while screen_row < text_rows
            invariant
                screen_row <= text_rows,
                text_rows == size.rows - 2,
                lines == line_count(self@.buffer.text),
                scroll_y == scroll_top(cursor.line, text_rows),
                theme == self@.config.theme,
                r@.size == size,
                r@.front == old(r)@.front,
                r@.cursor == old(r)@.cursor,
                r@.back == text_rows_painted(blank, size, self@.buffer.text, theme, scroll_y as int, screen_row as int),
            decreases text_rows - screen_row,
        {
            if scroll_y < lines && (screen_row as usize) < lines - scroll_y {
                let line = self.buffer.line(scroll_y + screen_row as usize);
                r.put_str(0, screen_row, line.as_str(), theme.foreground, theme.background, false);
            }
            screen_row = screen_row + 1;
        }
        let status_y: u16 = size.rows - 2;
        let bar = RenderCell { ch: ' ', fg: theme.status_fg, bg: theme.status_bg, bold: false, reverse: false };
        let ghost with_text = r@.back;
        let mut x: u16 = 0;
        while x < size.cols
            invariant
                x <= size.cols,
                r@.size == size,
                r@.front == old(r)@.front,
                r@.cursor == old(r)@.cursor,
                r@.back == row_filled(with_text, size, status_y, bar, x as int),
            decreases size.cols - x,
        {
            r.put(x, status_y, bar);
            x = x + 1;
        }
        let mut line: Vec<char> = Vec::new();
        push_str(&mut line, mode_label_str(self.mode));
        push_str(&mut line, self.buffer.path());
        if self.buffer.is_dirty() {
            push_str(&mut line, " ●");
        }
        push_str(&mut line, "   ");
        push_decimal_chars(&mut line, cursor.line as u128 + 1);
        push_str(&mut line, ":");
        push_decimal_chars(&mut line, cursor.col as u128 + 1);
        proof {
            assert(line@ =~= status_text(self@));
        }
        let status_line = string_of(&line);
        r.put_str(0, status_y, status_line.as_str(), theme.status_fg, theme.status_bg, true);
        let msg_y: u16 = size.rows - 1;
        let msg = if self.mode == Mode::Command {
            concat(":", self.cmdline.as_str())
        } else {
            self.status.clone()
        };
        proof {
            reveal_strlit(":");
            if self.mode == Mode::Command {
                assert(msg@ =~= message_text(self@));
            }
        }
        r.put_str(0, msg_y, msg.as_str(), theme.cmdline_fg, theme.cmdline_bg, false);
        let col16: u16 = if cursor.col > 65535 {
            65535
        } else {
            cursor.col as u16
        };
        let rel = cursor.line - scroll_y;
        let row16: u16 = if rel > 65535 {
            65535
        } else {
            rel as u16
        };
        let screen_x = if col16 < text_cols - 1 {
            col16
        } else {
            text_cols - 1
        };
        let screen_y = if row16 < text_rows - 1 {
            row16
        } else {
            text_rows - 1
        };
        r.set_cursor(screen_x, screen_y);
    }
}

} // verus!
