//! Named command registry.
//!
//! Every editing action (cursor motions, mode changes, buffer operations, quitting) is
//! a named command registered here. Keybinds dispatch to commands by name; the rest of
//! the editor never wires keys to logic directly.
use vstd::prelude::*;

use crate::text::str_eq;

verus! {

/// The built-in commands.
#[derive(Debug, Clone, Copy, PartialEq, Eq, Structural)]
pub enum Command {
    CursorLeft,
    CursorRight,
    CursorUp,
    CursorDown,
    CursorLineStart,
    CursorLineEnd,
    CursorWordForward,
    CursorWordBack,
    BufferGotoStart,
    BufferGotoEnd,
    EditBackspace,
    EditDeleteForward,
    EditDeleteLine,
    EditNewline,
    EditUndo,
    EditRedo,
    ModeNormal,
    ModeInsert,
    ModeInsertAfter,
    ModeInsertLineStart,
    ModeInsertLineEnd,
    ModeOpenBelow,
    ModeCommand,
    BufferSave,
    EditorQuit,
}

/// The registry: command names to commands.
#[derive(Debug)]
pub struct Registry {
    by_name: Vec<(String, Command)>,
}

/// The index of the first of the first `n` entries named `name`.
spec fn find_name(es: Seq<(String, Command)>, name: Seq<char>, n: int) -> Option<int>
    decreases n,
{
    if n <= 0 {
        None
    } else {
        match find_name(es, name, n - 1) {
            Some(i) => Some(i),
            None => if es[n - 1].0@ == name {
                Some(n - 1)
            } else {
                None
            },
        }
    }
}

proof fn lemma_find_name(es: Seq<(String, Command)>, name: Seq<char>, n: int)
    requires
        0 <= n <= es.len(),
    ensures
        find_name(es, name, n) matches Some(i) ==> 0 <= i < n && es[i].0@ == name,
        find_name(es, name, n) is None ==> forall|j: int| 0 <= j < n ==> es[j].0@ != name,
    decreases n,
{
    if n > 0 {
        lemma_find_name(es, name, n - 1);
    }
}

/// A name found among the first `m` entries is found at the same index among more.
proof fn lemma_find_name_grow(es: Seq<(String, Command)>, name: Seq<char>, m: int, n: int)
    requires
        0 <= m <= n,
        find_name(es, name, m) is Some,
    ensures
        find_name(es, name, n) == find_name(es, name, m),
    decreases n - m,
{
    if n > m {
        lemma_find_name_grow(es, name, m, n - 1);
    }
}

/// `find_name` only looks at the names.
proof fn lemma_find_name_same_names(es: Seq<(String, Command)>, ds: Seq<(String, Command)>, name: Seq<char>, n: int)
    requires
        0 <= n <= es.len(),
        n <= ds.len(),
        forall|j: int| 0 <= j < n ==> es[j].0@ == ds[j].0@,
    ensures
        find_name(es, name, n) == find_name(ds, name, n),
    decreases n,
{
    if n > 0 {
        lemma_find_name_same_names(es, ds, name, n - 1);
    }
}

/// The command of the first entry named `name`.
spec fn command_named(es: Seq<(String, Command)>, name: Seq<char>) -> Option<Command> {
    match find_name(es, name, es.len() as int) {
        Some(i) => Some(es[i].1),
        None => None,
    }
}

impl View for Registry {
    type V = Map<Seq<char>, Command>;

    closed spec fn view(&self) -> Map<Seq<char>, Command> {
        Map::new(
            |n: Seq<char>| command_named(self.by_name@, n) is Some,
            |n: Seq<char>| command_named(self.by_name@, n)->0,
        )
    }
}

/// `m` with the built-in commands registered under their names, in this order.
pub open spec fn with_builtin_commands(m: Map<Seq<char>, Command>) -> Map<Seq<char>, Command> {
    m.insert("cursor.left"@, Command::CursorLeft)
        .insert("cursor.right"@, Command::CursorRight)
        .insert("cursor.up"@, Command::CursorUp)
        .insert("cursor.down"@, Command::CursorDown)
        .insert("cursor.line_start"@, Command::CursorLineStart)
        .insert("cursor.line_end"@, Command::CursorLineEnd)
        .insert("cursor.word_forward"@, Command::CursorWordForward)
        .insert("cursor.word_back"@, Command::CursorWordBack)
        .insert("buffer.goto_start"@, Command::BufferGotoStart)
        .insert("buffer.goto_end"@, Command::BufferGotoEnd)
        .insert("edit.backspace"@, Command::EditBackspace)
        .insert("edit.delete_forward"@, Command::EditDeleteForward)
        .insert("edit.delete_line"@, Command::EditDeleteLine)
        .insert("edit.newline"@, Command::EditNewline)
        .insert("edit.undo"@, Command::EditUndo)
        .insert("edit.redo"@, Command::EditRedo)
        .insert("mode.normal"@, Command::ModeNormal)
        .insert("mode.insert"@, Command::ModeInsert)
        .insert("mode.insert_after"@, Command::ModeInsertAfter)
        .insert("mode.insert_line_start"@, Command::ModeInsertLineStart)
        .insert("mode.insert_line_end"@, Command::ModeInsertLineEnd)
        .insert("mode.open_below"@, Command::ModeOpenBelow)
        .insert("mode.command"@, Command::ModeCommand)
        .insert("buffer.save"@, Command::BufferSave)
        .insert("editor.quit"@, Command::EditorQuit)
}

/// The lengths of the built-in command names, alphabetically.
proof fn lemma_builtin_name_lengths()
    ensures
        "buffer.goto_end"@.len() == 15,
        "buffer.goto_start"@.len() == 17,
        "buffer.save"@.len() == 11,
        "cursor.down"@.len() == 11,
        "cursor.left"@.len() == 11,
        "cursor.line_end"@.len() == 15,
        "cursor.line_start"@.len() == 17,
        "cursor.right"@.len() == 12,
        "cursor.up"@.len() == 9,
        "cursor.word_back"@.len() == 16,
        "cursor.word_forward"@.len() == 19,
        "edit.backspace"@.len() == 14,
        "edit.delete_forward"@.len() == 19,
        "edit.delete_line"@.len() == 16,
        "edit.newline"@.len() == 12,
        "edit.redo"@.len() == 9,
        "edit.undo"@.len() == 9,
        "editor.quit"@.len() == 11,
        "mode.command"@.len() == 12,
        "mode.insert"@.len() == 11,
        "mode.insert_after"@.len() == 17,
        "mode.insert_line_end"@.len() == 20,
        "mode.insert_line_start"@.len() == 22,
        "mode.normal"@.len() == 11,
        "mode.open_below"@.len() == 15,
{
    reveal_strlit("buffer.goto_end");
    reveal_strlit("buffer.goto_start");
    reveal_strlit("buffer.save");
    reveal_strlit("cursor.down");
    reveal_strlit("cursor.left");
    reveal_strlit("cursor.line_end");
    reveal_strlit("cursor.line_start");
    reveal_strlit("cursor.right");
    reveal_strlit("cursor.up");
    reveal_strlit("cursor.word_back");
    reveal_strlit("cursor.word_forward");
    reveal_strlit("edit.backspace");
    reveal_strlit("edit.delete_forward");
    reveal_strlit("edit.delete_line");
    reveal_strlit("edit.newline");
    reveal_strlit("edit.redo");
    reveal_strlit("edit.undo");
    reveal_strlit("editor.quit");
    reveal_strlit("mode.command");
    reveal_strlit("mode.insert");
    reveal_strlit("mode.insert_after");
    reveal_strlit("mode.insert_line_end");
    reveal_strlit("mode.insert_line_start");
    reveal_strlit("mode.normal");
    reveal_strlit("mode.open_below");
}

/// Each built-in command name is registered to the command it names; part 1 of
/// the table (see [`with_builtin_commands`]).
#[verifier::rlimit(50)]
pub proof fn lemma_builtin_names_1(m: Map<Seq<char>, Command>)
    ensures
        with_builtin_commands(m).contains_key("cursor.left"@) && with_builtin_commands(m)["cursor.left"@] == Command::CursorLeft,
        with_builtin_commands(m).contains_key("cursor.right"@) && with_builtin_commands(m)["cursor.right"@] == Command::CursorRight,
        with_builtin_commands(m).contains_key("cursor.up"@) && with_builtin_commands(m)["cursor.up"@] == Command::CursorUp,
        with_builtin_commands(m).contains_key("cursor.down"@) && with_builtin_commands(m)["cursor.down"@] == Command::CursorDown,
        with_builtin_commands(m).contains_key("cursor.line_start"@) && with_builtin_commands(m)["cursor.line_start"@] == Command::CursorLineStart,
        with_builtin_commands(m).contains_key("cursor.line_end"@) && with_builtin_commands(m)["cursor.line_end"@] == Command::CursorLineEnd,
{
    lemma_builtin_name_lengths();
    reveal_strlit("buffer.goto_end");
    reveal_strlit("buffer.goto_start");
    reveal_strlit("buffer.save");
    reveal_strlit("cursor.down");
    reveal_strlit("cursor.left");
    reveal_strlit("cursor.line_end");
    reveal_strlit("cursor.line_start");
    reveal_strlit("cursor.right");
    reveal_strlit("cursor.up");
    reveal_strlit("edit.newline");
    reveal_strlit("edit.redo");
    reveal_strlit("edit.undo");
    reveal_strlit("editor.quit");
    reveal_strlit("mode.command");
    reveal_strlit("mode.insert");
    reveal_strlit("mode.insert_after");
    reveal_strlit("mode.normal");
    reveal_strlit("mode.open_below");
    assert(with_builtin_commands(m).contains_key("cursor.left"@) && with_builtin_commands(m)["cursor.left"@] == Command::CursorLeft) by {
        assert("cursor.left"@[7] != "cursor.down"@[7]);
        assert("cursor.left"@[0] != "mode.normal"@[0]);
        assert("cursor.left"@[0] != "mode.insert"@[0]);
        assert("cursor.left"@[0] != "buffer.save"@[0]);
        assert("cursor.left"@[0] != "editor.quit"@[0]);
    }
    assert(with_builtin_commands(m).contains_key("cursor.right"@) && with_builtin_commands(m)["cursor.right"@] == Command::CursorRight) by {
        assert("cursor.right"@[0] != "edit.newline"@[0]);
        assert("cursor.right"@[0] != "mode.command"@[0]);
    }
    assert(with_builtin_commands(m).contains_key("cursor.up"@) && with_builtin_commands(m)["cursor.up"@] == Command::CursorUp) by {
        assert("cursor.up"@[0] != "edit.undo"@[0]);
        assert("cursor.up"@[0] != "edit.redo"@[0]);
    }
    assert(with_builtin_commands(m).contains_key("cursor.down"@) && with_builtin_commands(m)["cursor.down"@] == Command::CursorDown) by {
        assert("cursor.down"@[0] != "mode.normal"@[0]);
        assert("cursor.down"@[0] != "mode.insert"@[0]);
        assert("cursor.down"@[0] != "buffer.save"@[0]);
        assert("cursor.down"@[0] != "editor.quit"@[0]);
    }
    assert(with_builtin_commands(m).contains_key("cursor.line_start"@) && with_builtin_commands(m)["cursor.line_start"@] == Command::CursorLineStart) by {
        assert("cursor.line_start"@[0] != "buffer.goto_start"@[0]);
        assert("cursor.line_start"@[0] != "mode.insert_after"@[0]);
    }
    assert(with_builtin_commands(m).contains_key("cursor.line_end"@) && with_builtin_commands(m)["cursor.line_end"@] == Command::CursorLineEnd) by {
        assert("cursor.line_end"@[0] != "buffer.goto_end"@[0]);
        assert("cursor.line_end"@[0] != "mode.open_below"@[0]);
    }
}

/// Each built-in command name is registered to the command it names; part 2 of
/// the table (see [`with_builtin_commands`]).
#[verifier::rlimit(50)]
pub proof fn lemma_builtin_names_2(m: Map<Seq<char>, Command>)
    ensures
        with_builtin_commands(m).contains_key("cursor.word_forward"@) && with_builtin_commands(m)["cursor.word_forward"@] == Command::CursorWordForward,
        with_builtin_commands(m).contains_key("cursor.word_back"@) && with_builtin_commands(m)["cursor.word_back"@] == Command::CursorWordBack,
        with_builtin_commands(m).contains_key("buffer.goto_start"@) && with_builtin_commands(m)["buffer.goto_start"@] == Command::BufferGotoStart,
        with_builtin_commands(m).contains_key("buffer.goto_end"@) && with_builtin_commands(m)["buffer.goto_end"@] == Command::BufferGotoEnd,
        with_builtin_commands(m).contains_key("edit.backspace"@) && with_builtin_commands(m)["edit.backspace"@] == Command::EditBackspace,
        with_builtin_commands(m).contains_key("edit.delete_forward"@) && with_builtin_commands(m)["edit.delete_forward"@] == Command::EditDeleteForward,
{
    lemma_builtin_name_lengths();
    reveal_strlit("buffer.goto_end");
    reveal_strlit("buffer.goto_start");
    reveal_strlit("cursor.word_back");
    reveal_strlit("cursor.word_forward");
    reveal_strlit("edit.delete_forward");
    reveal_strlit("edit.delete_line");
    reveal_strlit("mode.insert_after");
    reveal_strlit("mode.open_below");
    assert(with_builtin_commands(m).contains_key("cursor.word_forward"@) && with_builtin_commands(m)["cursor.word_forward"@] == Command::CursorWordForward) by {
        assert("cursor.word_forward"@[0] != "edit.delete_forward"@[0]);
    }
    assert(with_builtin_commands(m).contains_key("cursor.word_back"@) && with_builtin_commands(m)["cursor.word_back"@] == Command::CursorWordBack) by {
        assert("cursor.word_back"@[0] != "edit.delete_line"@[0]);
    }
    assert(with_builtin_commands(m).contains_key("buffer.goto_start"@) && with_builtin_commands(m)["buffer.goto_start"@] == Command::BufferGotoStart) by {
        assert("buffer.goto_start"@[0] != "mode.insert_after"@[0]);
    }
    assert(with_builtin_commands(m).contains_key("buffer.goto_end"@) && with_builtin_commands(m)["buffer.goto_end"@] == Command::BufferGotoEnd) by {
        assert("buffer.goto_end"@[0] != "mode.open_below"@[0]);
    }
    assert(with_builtin_commands(m).contains_key("edit.backspace"@) && with_builtin_commands(m)["edit.backspace"@] == Command::EditBackspace) by {
    }
    assert(with_builtin_commands(m).contains_key("edit.delete_forward"@) && with_builtin_commands(m)["edit.delete_forward"@] == Command::EditDeleteForward) by {
    }
}

/// Each built-in command name is registered to the command it names; part 3 of
/// the table (see [`with_builtin_commands`]).
#[verifier::rlimit(50)]
pub proof fn lemma_builtin_names_3(m: Map<Seq<char>, Command>)
    ensures
        with_builtin_commands(m).contains_key("edit.delete_line"@) && with_builtin_commands(m)["edit.delete_line"@] == Command::EditDeleteLine,
        with_builtin_commands(m).contains_key("edit.newline"@) && with_builtin_commands(m)["edit.newline"@] == Command::EditNewline,
        with_builtin_commands(m).contains_key("edit.undo"@) && with_builtin_commands(m)["edit.undo"@] == Command::EditUndo,
        with_builtin_commands(m).contains_key("edit.redo"@) && with_builtin_commands(m)["edit.redo"@] == Command::EditRedo,
        with_builtin_commands(m).contains_key("mode.normal"@) && with_builtin_commands(m)["mode.normal"@] == Command::ModeNormal,
        with_builtin_commands(m).contains_key("mode.insert"@) && with_builtin_commands(m)["mode.insert"@] == Command::ModeInsert,
{
    lemma_builtin_name_lengths();
    reveal_strlit("buffer.save");
    reveal_strlit("edit.newline");
    reveal_strlit("edit.redo");
    reveal_strlit("edit.undo");
    reveal_strlit("editor.quit");
    reveal_strlit("mode.command");
    reveal_strlit("mode.insert");
    reveal_strlit("mode.normal");
    assert(with_builtin_commands(m).contains_key("edit.delete_line"@) && with_builtin_commands(m)["edit.delete_line"@] == Command::EditDeleteLine) by {
    }
    assert(with_builtin_commands(m).contains_key("edit.newline"@) && with_builtin_commands(m)["edit.newline"@] == Command::EditNewline) by {
        assert("edit.newline"@[0] != "mode.command"@[0]);
    }
    assert(with_builtin_commands(m).contains_key("edit.undo"@) && with_builtin_commands(m)["edit.undo"@] == Command::EditUndo) by {
        assert("edit.undo"@[5] != "edit.redo"@[5]);
    }
    assert(with_builtin_commands(m).contains_key("edit.redo"@) && with_builtin_commands(m)["edit.redo"@] == Command::EditRedo) by {
    }
    assert(with_builtin_commands(m).contains_key("mode.normal"@) && with_builtin_commands(m)["mode.normal"@] == Command::ModeNormal) by {
        assert("mode.normal"@[5] != "mode.insert"@[5]);
        assert("mode.normal"@[0] != "buffer.save"@[0]);
        assert("mode.normal"@[0] != "editor.quit"@[0]);
    }
    assert(with_builtin_commands(m).contains_key("mode.insert"@) && with_builtin_commands(m)["mode.insert"@] == Command::ModeInsert) by {
        assert("mode.insert"@[0] != "buffer.save"@[0]);
        assert("mode.insert"@[0] != "editor.quit"@[0]);
    }
}

/// Each built-in command name is registered to the command it names; part 4 of
/// the table (see [`with_builtin_commands`]).
#[verifier::rlimit(50)]
pub proof fn lemma_builtin_names_4(m: Map<Seq<char>, Command>)
    ensures
        with_builtin_commands(m).contains_key("mode.insert_after"@) && with_builtin_commands(m)["mode.insert_after"@] == Command::ModeInsertAfter,
        with_builtin_commands(m).contains_key("mode.insert_line_start"@) && with_builtin_commands(m)["mode.insert_line_start"@] == Command::ModeInsertLineStart,
        with_builtin_commands(m).contains_key("mode.insert_line_end"@) && with_builtin_commands(m)["mode.insert_line_end"@] == Command::ModeInsertLineEnd,
        with_builtin_commands(m).contains_key("mode.open_below"@) && with_builtin_commands(m)["mode.open_below"@] == Command::ModeOpenBelow,
        with_builtin_commands(m).contains_key("mode.command"@) && with_builtin_commands(m)["mode.command"@] == Command::ModeCommand,
        with_builtin_commands(m).contains_key("buffer.save"@) && with_builtin_commands(m)["buffer.save"@] == Command::BufferSave,
        with_builtin_commands(m).contains_key("editor.quit"@) && with_builtin_commands(m)["editor.quit"@] == Command::EditorQuit,
{
    lemma_builtin_name_lengths();
    reveal_strlit("buffer.save");
    reveal_strlit("editor.quit");
    assert(with_builtin_commands(m).contains_key("mode.insert_after"@) && with_builtin_commands(m)["mode.insert_after"@] == Command::ModeInsertAfter) by {
    }
    assert(with_builtin_commands(m).contains_key("mode.insert_line_start"@) && with_builtin_commands(m)["mode.insert_line_start"@] == Command::ModeInsertLineStart) by {
    }
    assert(with_builtin_commands(m).contains_key("mode.insert_line_end"@) && with_builtin_commands(m)["mode.insert_line_end"@] == Command::ModeInsertLineEnd) by {
    }
    assert(with_builtin_commands(m).contains_key("mode.open_below"@) && with_builtin_commands(m)["mode.open_below"@] == Command::ModeOpenBelow) by {
    }
    assert(with_builtin_commands(m).contains_key("mode.command"@) && with_builtin_commands(m)["mode.command"@] == Command::ModeCommand) by {
    }
    assert(with_builtin_commands(m).contains_key("buffer.save"@) && with_builtin_commands(m)["buffer.save"@] == Command::BufferSave) by {
        assert("buffer.save"@[0] != "editor.quit"@[0]);
    }
    assert(with_builtin_commands(m).contains_key("editor.quit"@) && with_builtin_commands(m)["editor.quit"@] == Command::EditorQuit) by {
    }
}

impl Registry {
    /// A registry with nothing registered.
    pub fn new() -> (r: Registry)
        ensures
            r@ == Map::<Seq<char>, Command>::empty(),
    {
        let r = Registry { by_name: Vec::new() };
        assert(r@ =~= Map::<Seq<char>, Command>::empty());
        r
    }

    /// A registry holding the built-in commands.
    pub fn with_builtins() -> (r: Registry)
        ensures
            r@ == with_builtin_commands(Map::empty()),
    {
        let mut r = Registry::new();
        r.register_builtins();
        r
    }

    /// The command registered under `name`, if any.
    pub fn get(&self, name: &str) -> (c: Option<Command>)
        ensures
            c == (if self@.contains_key(name@) {
                Some(self@[name@])
            } else {
                None
            }),
    {
        let mut i: usize = 0;
        while i < self.by_name.len()
            invariant
                i <= self.by_name@.len(),
                find_name(self.by_name@, name@, i as int) is None,
            decreases self.by_name@.len() - i,
        {
            if str_eq(self.by_name[i].0.as_str(), name) {
                proof {
                    lemma_find_name_grow(self.by_name@, name@, i + 1, self.by_name@.len() as int);
                }
                return Some(self.by_name[i].1);
            }
            i = i + 1;
        }
        None
    }

    /// Register `cmd` under `name`, replacing what was registered there.
    fn put(&mut self, name: &str, cmd: Command)
        ensures
            final(self)@ == old(self)@.insert(name@, cmd),
    {
        let ghost es = self.by_name@;
        let mut i: usize = 0;
        while i < self.by_name.len()
            invariant
                es == self.by_name@,
                es == old(self).by_name@,
                i <= es.len(),
                find_name(es, name@, i as int) is None,
            decreases es.len() - i,
        {
            if str_eq(self.by_name[i].0.as_str(), name) {
                proof {
                    lemma_find_name_grow(es, name@, i + 1, es.len() as int);
                }
                let key = self.by_name[i].0.clone();
                self.by_name.set(i, (key, cmd));
                proof {
                    let fs = self.by_name@;
                    assert forall|n: Seq<char>| #[trigger] command_named(fs, n) == if n == name@ {
                        Some(cmd)
                    } else {
                        command_named(es, n)
                    } by {
                        lemma_find_name_same_names(fs, es, n, es.len() as int);
                        lemma_find_name(es, n, es.len() as int);
                    }
                    assert(self@ =~= old(self)@.insert(name@, cmd));
                }
                return;
            }
            i = i + 1;
        }
        self.by_name.push((name.to_owned(), cmd));
        proof {
            let fs = self.by_name@;
            assert forall|n: Seq<char>| #[trigger] command_named(fs, n) == if n == name@ {
                Some(cmd)
            } else {
                command_named(es, n)
            } by {
                lemma_find_name_same_names(fs, es, n, es.len() as int);
                lemma_find_name(es, n, es.len() as int);
            }
            assert(self@ =~= old(self)@.insert(name@, cmd));
        }
    }

    /// Register every built-in command under its name.
    fn register_builtins(&mut self)
        ensures
            final(self)@ == with_builtin_commands(old(self)@),
    {
        // motions
        self.put("cursor.left", Command::CursorLeft);
        self.put("cursor.right", Command::CursorRight);
        self.put("cursor.up", Command::CursorUp);
        self.put("cursor.down", Command::CursorDown);
        self.put("cursor.line_start", Command::CursorLineStart);
        self.put("cursor.line_end", Command::CursorLineEnd);
        self.put("cursor.word_forward", Command::CursorWordForward);
        self.put("cursor.word_back", Command::CursorWordBack);
        self.put("buffer.goto_start", Command::BufferGotoStart);
        self.put("buffer.goto_end", Command::BufferGotoEnd);
        // editing (in any mode; typing comes in through the mode's fallback)
        self.put("edit.backspace", Command::EditBackspace);
        self.put("edit.delete_forward", Command::EditDeleteForward);
        self.put("edit.delete_line", Command::EditDeleteLine);
        self.put("edit.newline", Command::EditNewline);
        self.put("edit.undo", Command::EditUndo);
        self.put("edit.redo", Command::EditRedo);
        // mode changes
        self.put("mode.normal", Command::ModeNormal);
        self.put("mode.insert", Command::ModeInsert);
        self.put("mode.insert_after", Command::ModeInsertAfter);
        self.put("mode.insert_line_start", Command::ModeInsertLineStart);
        self.put("mode.insert_line_end", Command::ModeInsertLineEnd);
        self.put("mode.open_below", Command::ModeOpenBelow);
        self.put("mode.command", Command::ModeCommand);
        // file and lifecycle
        self.put("buffer.save", Command::BufferSave);
        self.put("editor.quit", Command::EditorQuit);
    }
}

} // verus!
