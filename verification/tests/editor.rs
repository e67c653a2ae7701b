use nib::buffer::{Buffer, Cursor};
use nib::command::{Command, Registry};
use nib::config::Config;
use nib::editor::{Action, Editor};
use nib::mode::Mode;
use nib::term::input::{Key, KeyMod};
use nib::term::output::Renderer;
use nib::term::size::Size;

fn editor(text: &str) -> Editor {
    let cfg = Config::builtin().unwrap();
    Editor::new(Buffer::open(String::from("notes.txt"), Some(text)), cfg)
}

fn press(e: &mut Editor, key: Key) -> Action {
    assert!(e.has_room());
    e.handle_key(key, KeyMod::empty())
}

fn type_str(e: &mut Editor, s: &str) {
    for c in s.chars() {
        press(e, Key::Char(c));
    }
}

#[test]
fn starts_in_normal_mode_with_welcome() {
    let e = editor("");
    assert_eq!(e.mode(), Mode::Normal);
    assert_eq!(e.status(), "-- NORMAL --   :q to quit  :w to save");
    assert!(!e.should_quit());
    assert!(!e.has_pending());
}

#[test]
fn insert_mode_types_unbound_characters() {
    let mut e = editor("");
    press(&mut e, Key::Char('i'));
    assert_eq!(e.mode(), Mode::Insert);
    type_str(&mut e, "hi");
    e.handle_key(Key::Char('Y'), KeyMod::shift());
    e.handle_key(Key::Char('z'), KeyMod::ctrl());
    assert_eq!(e.buffer().text(), "hiY");
    press(&mut e, Key::Enter);
    press(&mut e, Key::Char('x'));
    press(&mut e, Key::Backspace);
    assert_eq!(e.buffer().text(), "hiY\n");
    press(&mut e, Key::Escape);
    assert_eq!(e.mode(), Mode::Normal);
}

#[test]
fn normal_mode_drops_unbound_keys() {
    let mut e = editor("abc");
    press(&mut e, Key::Char('Q'));
    assert_eq!(e.buffer().text(), "abc");
    assert!(!e.has_pending());
}

#[test]
fn chord_sequence_waits_then_runs() {
    let mut e = editor("one\ntwo");
    press(&mut e, Key::Char('j'));
    press(&mut e, Key::Char('l'));
    assert_eq!(e.buffer().cursor(), Cursor { line: 1, col: 1 });
    press(&mut e, Key::Char('g'));
    assert!(e.has_pending());
    assert_eq!(e.buffer().cursor(), Cursor { line: 1, col: 1 });
    press(&mut e, Key::Char('g'));
    assert!(!e.has_pending());
    assert_eq!(e.buffer().cursor(), Cursor { line: 0, col: 0 });
}

#[test]
fn broken_chord_sequence_is_dropped() {
    let mut e = editor("one\ntwo");
    press(&mut e, Key::Char('g'));
    press(&mut e, Key::Char('z'));
    assert!(!e.has_pending());
    assert_eq!(e.buffer().cursor(), Cursor { line: 0, col: 0 });
}

#[test]
fn delete_line_and_undo_redo_through_keys() {
    let mut e = editor("one\ntwo");
    press(&mut e, Key::Char('d'));
    press(&mut e, Key::Char('d'));
    assert_eq!(e.buffer().text(), "two");
    press(&mut e, Key::Char('u'));
    assert_eq!(e.buffer().text(), "one\ntwo");
    e.handle_key(Key::Char('r'), KeyMod::ctrl());
    assert_eq!(e.buffer().text(), "two");
    e.handle_key(Key::Char('r'), KeyMod::ctrl());
    assert_eq!(e.status(), "nothing to redo");
}

#[test]
fn undo_with_no_history_reports_it() {
    let mut e = editor("x");
    press(&mut e, Key::Char('u'));
    assert_eq!(e.status(), "nothing to undo");
}

#[test]
fn open_below_and_insert_variants() {
    let mut e = editor("ab\ncd");
    press(&mut e, Key::Char('o'));
    assert_eq!(e.mode(), Mode::Insert);
    assert_eq!(e.buffer().text(), "ab\n\ncd");
    assert_eq!(e.buffer().cursor(), Cursor { line: 1, col: 0 });
    press(&mut e, Key::Escape);
    press(&mut e, Key::Char('k'));
    press(&mut e, Key::Char('A'));
    assert_eq!(e.buffer().cursor(), Cursor { line: 0, col: 2 });
    press(&mut e, Key::Escape);
    press(&mut e, Key::Char('I'));
    assert_eq!(e.buffer().cursor(), Cursor { line: 0, col: 0 });
    press(&mut e, Key::Escape);
    press(&mut e, Key::Char('a'));
    assert_eq!(e.buffer().cursor(), Cursor { line: 0, col: 1 });
    assert_eq!(e.mode(), Mode::Insert);
}

#[test]
fn save_is_requested_and_reported() {
    let mut e = editor("x");
    press(&mut e, Key::Char('i'));
    press(&mut e, Key::Char('y'));
    assert!(e.buffer().is_dirty());
    assert_eq!(e.handle_key(Key::Char('s'), KeyMod::ctrl()), Action::Save);
    e.finish_save(Ok(()), false);
    assert!(!e.buffer().is_dirty());
    assert_eq!(e.status(), "saved notes.txt");
    assert!(!e.should_quit());
    e.finish_save(Err(String::from("disk full")), true);
    assert_eq!(e.status(), "save failed: disk full");
    assert!(!e.should_quit());
    e.finish_save(Ok(()), true);
    assert!(e.should_quit());
}

#[test]
fn quit_and_command_mode() {
    let mut e = editor("");
    press(&mut e, Key::Char(':'));
    assert_eq!(e.mode(), Mode::Command);
    press(&mut e, Key::Escape);
    assert_eq!(e.mode(), Mode::Normal);
    assert!(!e.should_quit());
    press(&mut e, Key::Escape);
    assert!(e.should_quit());
}

#[test]
fn unknown_command_name_is_reported() {
    let mut cfg = Config::builtin().unwrap();
    cfg.apply_kdl("keymap \"normal\" {\n    z \"does.not_exist\"\n}\n", "test.kdl").unwrap();
    let mut e = Editor::new(Buffer::open(String::from("f"), None), cfg);
    press(&mut e, Key::Char('z'));
    assert_eq!(e.status(), "unknown command: does.not_exist");
    assert!(!e.has_pending());
}

#[test]
fn pending_chord_expires_after_timeout() {
    let mut e = editor("");
    press(&mut e, Key::Char('g'));
    e.expire_chord(500_000_000);
    assert!(e.has_pending());
    e.expire_chord(500_000_001);
    assert!(!e.has_pending());
}

#[test]
fn draw_paints_text_status_and_message() {
    let mut e = editor("hello\nworld");
    press(&mut e, Key::Char('j'));
    let mut r = Renderer::new(Size { cols: 30, rows: 4 });
    e.draw(&mut r);
    let out = String::from_utf8(r.flush_bytes()).unwrap();
    assert!(out.contains("hello"));
    assert!(out.contains("world"));
    assert!(out.contains(" NORMAL notes.txt   2:1"));
    assert!(out.contains("quit"));
    // Cursor on row 2, column 1 of the text area.
    assert!(out.ends_with("\x1b[2;1H\x1b[?25h"));
}

#[test]
fn draw_shows_dirty_marker_and_command_line() {
    let mut e = editor("");
    press(&mut e, Key::Char('i'));
    press(&mut e, Key::Char('x'));
    press(&mut e, Key::Escape);
    press(&mut e, Key::Char(':'));
    let mut r = Renderer::new(Size { cols: 40, rows: 3 });
    e.draw(&mut r);
    let out = String::from_utf8(r.flush_bytes()).unwrap();
    assert!(out.contains(" COMMAND notes.txt ●   1:2"));
    assert!(out.contains(":"));
}

#[test]
fn draw_on_tiny_screen_only_blanks() {
    let e = editor("text");
    let mut r = Renderer::new(Size { cols: 10, rows: 2 });
    e.draw(&mut r);
    let out = r.flush_bytes();
    assert_eq!(out, b"\x1b[?25l\x1b[0m\x1b[1;1H\x1b[?25h".to_vec());
}

#[test]
fn draw_scrolls_to_cursor() {
    let mut e = editor("l0\nl1\nl2\nl3\nl4");
    for _ in 0..4 {
        press(&mut e, Key::Char('j'));
    }
    let mut r = Renderer::new(Size { cols: 20, rows: 4 });
    e.draw(&mut r);
    let out = String::from_utf8(r.flush_bytes()).unwrap();
    assert!(!out.contains("l2"));
    assert!(out.contains("l3"));
    assert!(out.contains("l4"));
    assert!(out.ends_with("\x1b[2;1H\x1b[?25h"));
}

#[test]
fn registry_knows_builtins() {
    let r = Registry::with_builtins();
    assert_eq!(r.get("cursor.left"), Some(Command::CursorLeft));
    assert_eq!(r.get("editor.quit"), Some(Command::EditorQuit));
    assert_eq!(r.get("mode.open_below"), Some(Command::ModeOpenBelow));
    assert_eq!(r.get("nope"), None);
    assert_eq!(Registry::new().get("cursor.left"), None);
}

fn command_line(e: &mut Editor, line: &str) -> Action {
    press(e, Key::Char(':'));
    assert_eq!(e.mode(), Mode::Command);
    type_str(e, line);
    press(e, Key::Enter)
}

#[test]
fn command_line_write_and_quit() {
    let mut e = editor("x");
    assert_eq!(command_line(&mut e, "w"), Action::Save);
    assert_eq!(e.mode(), Mode::Normal);
    assert_eq!(command_line(&mut e, "wq"), Action::SaveAndQuit);
    assert_eq!(command_line(&mut e, "x"), Action::SaveAndQuit);
    assert_eq!(command_line(&mut e, "q"), Action::Continue);
    assert!(e.should_quit());
}

#[test]
fn command_line_q_refuses_dirty_buffer() {
    let mut e = editor("x");
    press(&mut e, Key::Char('i'));
    press(&mut e, Key::Char('y'));
    press(&mut e, Key::Escape);
    command_line(&mut e, "q");
    assert!(!e.should_quit());
    assert_eq!(e.status(), "unsaved changes (add ! to override)");
    command_line(&mut e, "q!");
    assert!(e.should_quit());
}

#[test]
fn command_line_editing_and_unknown_command() {
    let mut e = editor("");
    press(&mut e, Key::Char(':'));
    type_str(&mut e, "wz");
    press(&mut e, Key::Backspace);
    e.handle_key(Key::Char('Q'), KeyMod::shift());
    assert_eq!(press(&mut e, Key::Enter), Action::Continue);
    assert_eq!(e.status(), "not an editor command: wQ");
    assert!(!e.should_quit());
    assert_eq!(command_line(&mut e, ""), Action::Continue);
    assert_eq!(e.mode(), Mode::Normal);
}

#[test]
fn command_line_is_shown_and_cleared() {
    let mut e = editor("");
    press(&mut e, Key::Char(':'));
    type_str(&mut e, "wq");
    let mut r = Renderer::new(Size { cols: 20, rows: 3 });
    e.draw(&mut r);
    let out = String::from_utf8(r.flush_bytes()).unwrap();
    assert!(out.contains(":wq"));
    press(&mut e, Key::Escape);
    press(&mut e, Key::Char(':'));
    press(&mut e, Key::Enter);
    assert!(!e.should_quit());
}

#[test]
fn single_key_binding_runs_before_longer_chord() {
    let mut cfg = Config::builtin().unwrap();
    cfg.apply_kdl("keymap \"normal\" {\n    g \"cursor.down\"\n}\n", "test.kdl").unwrap();
    let mut e = Editor::new(Buffer::open(String::from("f"), Some("a\nb")), cfg);
    press(&mut e, Key::Char('g'));
    assert!(!e.has_pending());
    assert_eq!(e.buffer().cursor(), Cursor { line: 1, col: 0 });
}

#[test]
fn status_message_can_be_set() {
    let mut e = editor("");
    e.set_status(String::from("config: bad"));
    assert_eq!(e.status(), "config: bad");
    assert_eq!(e.mode(), Mode::Normal);
}
