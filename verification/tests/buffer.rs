use nib::buffer::{Buffer, Cursor};
use nib::unicode::display_col;

fn buf(text: &str) -> Buffer {
    Buffer::open(String::from("/tmp/test"), Some(text))
}

#[test]
fn insert_and_backspace_roundtrip() {
    let mut b = buf("");
    for c in "hello".chars() {
        b.insert_char(c);
    }
    assert_eq!(b.text(), "hello");
    b.backspace();
    b.backspace();
    assert_eq!(b.text(), "hel");
    assert_eq!(b.cursor().col, 3);
}

#[test]
fn newline_moves_cursor_to_next_line() {
    let mut b = buf("");
    b.insert_char('a');
    b.insert_newline();
    b.insert_char('b');
    assert_eq!(b.text(), "a\nb");
    assert_eq!(b.cursor().line, 1);
    assert_eq!(b.cursor().col, 1);
}

#[test]
fn arrow_movement_clamps_to_line_length() {
    let mut b = buf("longline\nshort");
    b.move_end();
    b.move_down();
    assert_eq!(b.cursor().line, 1);
    assert_eq!(b.cursor().col, 5);
}

#[test]
fn backspace_across_line_boundary() {
    let mut b = buf("ab\ncd");
    b.move_down();
    b.backspace();
    assert_eq!(b.text(), "abcd");
    assert_eq!(b.cursor().line, 0);
    assert_eq!(b.cursor().col, 2);
}

#[test]
fn grapheme_cursor_treats_flag_emoji_as_one_step() {
    // "🇹🇷" is two scalar values (regional indicators) forming one grapheme.
    let mut b = buf("🇹🇷x");
    b.move_right();
    assert_eq!(b.cursor().col, 1);
    b.move_right();
    assert_eq!(b.cursor().col, 2);
}

#[test]
fn open_without_contents_is_empty_and_clean() {
    let b = Buffer::open(String::from("new.txt"), None);
    assert_eq!(b.text(), "");
    assert_eq!(b.path(), "new.txt");
    assert!(!b.is_dirty());
    assert_eq!(b.cursor(), Cursor { line: 0, col: 0 });
    assert_eq!(b.line_count(), 1);
    assert_eq!(b.len_chars(), 0);
}

#[test]
fn edits_mark_dirty_until_saved() {
    let mut b = buf("x");
    b.insert_char('y');
    assert!(b.is_dirty());
    b.mark_saved();
    assert!(!b.is_dirty());
    assert_eq!(b.text(), "yx");
}

#[test]
fn undo_restores_text_and_cursor_then_redo_reapplies() {
    let mut b = buf("ab");
    b.move_right();
    b.insert_char('X');
    assert_eq!(b.text(), "aXb");
    assert_eq!(b.cursor().col, 2);
    assert!(b.undo());
    assert_eq!(b.text(), "ab");
    assert_eq!(b.cursor(), Cursor { line: 0, col: 1 });
    assert!(b.redo());
    assert_eq!(b.text(), "aXb");
    assert_eq!(b.cursor(), Cursor { line: 0, col: 2 });
    assert!(!b.redo());
}

#[test]
fn undo_on_fresh_buffer_reports_nothing() {
    let mut b = buf("abc");
    assert!(!b.undo());
    assert!(!b.redo());
    assert_eq!(b.text(), "abc");
}

#[test]
fn new_edit_clears_redo() {
    let mut b = buf("");
    b.insert_char('a');
    assert!(b.undo());
    b.insert_char('b');
    assert!(!b.redo());
    assert_eq!(b.text(), "b");
}

#[test]
fn backspace_at_start_does_nothing() {
    let mut b = buf("abc");
    b.backspace();
    assert_eq!(b.text(), "abc");
    assert!(!b.is_dirty());
    assert!(!b.undo());
}

#[test]
fn backspace_removes_whole_flag_cluster() {
    let mut b = buf("🇹🇷x");
    b.move_right();
    b.backspace();
    assert_eq!(b.text(), "x");
    assert_eq!(b.cursor().col, 0);
}

#[test]
fn delete_forward_removes_cluster_or_line_break() {
    let mut b = buf("ab\ncd");
    b.delete_forward();
    assert_eq!(b.text(), "b\ncd");
    b.move_end();
    b.delete_char_forward();
    assert_eq!(b.text(), "bcd");
    assert_eq!(b.cursor(), Cursor { line: 0, col: 1 });
    b.move_buffer_end();
    b.delete_forward();
    assert_eq!(b.text(), "bcd");
}

#[test]
fn move_left_wraps_to_end_of_previous_line() {
    let mut b = buf("abc\nd");
    b.move_down();
    b.move_home();
    b.move_left();
    assert_eq!(b.cursor(), Cursor { line: 0, col: 3 });
    b.move_buffer_start();
    b.move_left();
    assert_eq!(b.cursor(), Cursor { line: 0, col: 0 });
}

#[test]
fn move_right_wraps_to_next_line_start() {
    let mut b = buf("ab\ncd");
    b.move_line_end();
    b.move_right();
    assert_eq!(b.cursor(), Cursor { line: 1, col: 0 });
    b.move_line_end();
    b.move_right();
    assert_eq!(b.cursor(), Cursor { line: 1, col: 2 });
}

#[test]
fn move_up_on_first_line_goes_to_its_start() {
    let mut b = buf("hello");
    b.move_end();
    b.move_up();
    assert_eq!(b.cursor(), Cursor { line: 0, col: 0 });
}

#[test]
fn move_down_on_last_line_goes_to_its_end() {
    let mut b = buf("hi\nthere");
    b.move_down();
    b.move_down();
    assert_eq!(b.cursor(), Cursor { line: 1, col: 5 });
}

#[test]
fn buffer_start_and_end() {
    let mut b = buf("one\ntwo\nthree");
    b.move_buffer_end();
    assert_eq!(b.cursor(), Cursor { line: 2, col: 5 });
    b.move_buffer_start();
    assert_eq!(b.cursor(), Cursor { line: 0, col: 0 });
    b.move_line_start();
    assert_eq!(b.cursor(), Cursor { line: 0, col: 0 });
}

#[test]
fn word_motions() {
    let mut b = buf("foo  bar baz\nnext");
    b.move_word_forward();
    assert_eq!(b.cursor().col, 5);
    b.move_word_forward();
    assert_eq!(b.cursor().col, 9);
    b.move_word_forward();
    assert_eq!(b.cursor(), Cursor { line: 1, col: 0 });
    b.move_word_back();
    assert_eq!(b.cursor(), Cursor { line: 0, col: 12 });
    b.move_word_back();
    assert_eq!(b.cursor().col, 9);
    b.move_word_back();
    assert_eq!(b.cursor().col, 5);
}

#[test]
fn delete_line_removes_line_and_break() {
    let mut b = buf("one\ntwo\nthree");
    b.move_down();
    b.delete_line();
    assert_eq!(b.text(), "one\nthree");
    assert_eq!(b.cursor(), Cursor { line: 1, col: 0 });
    b.delete_line();
    assert_eq!(b.text(), "one\n");
    assert_eq!(b.cursor(), Cursor { line: 1, col: 0 });
    assert!(b.undo());
    assert_eq!(b.text(), "one\nthree");
}

#[test]
fn delete_line_on_empty_last_line_does_nothing() {
    let mut b = buf("a\n");
    b.move_down();
    assert_eq!(b.cursor().line, 1);
    b.delete_line();
    assert_eq!(b.text(), "a\n");
    assert!(!b.is_dirty());
}

#[test]
fn lines_drop_their_line_feed() {
    let b = buf("ab\ncd\n");
    assert_eq!(b.line_count(), 3);
    assert_eq!(b.line(0), "ab");
    assert_eq!(b.line(1), "cd");
    assert_eq!(b.line(2), "");
    assert_eq!(b.line(7), "");
}

#[test]
fn crlf_counts_as_one_line_break() {
    let b = buf("a\r\nb");
    assert_eq!(b.line_count(), 2);
    assert_eq!(b.line(1), "b");
}

#[test]
fn combining_mark_joins_previous_cluster() {
    let mut b = buf("e\u{301}x");
    b.move_right();
    assert_eq!(b.cursor().col, 1);
    b.insert_char('!');
    assert_eq!(b.text(), "e\u{301}!x");
}

#[test]
fn display_col_sums_cluster_widths() {
    assert_eq!(display_col("a界b", 2), 3);
    assert_eq!(display_col("a界b", 10), 4);
    assert_eq!(display_col("🇹🇷x", 1), 2);
    assert_eq!(display_col("", 3), 0);
}

#[test]
fn word_forward_over_repeated_words() {
    let mut b = buf("foo foo foo");
    b.move_word_forward();
    assert_eq!(b.cursor().col, 4);
    b.move_word_forward();
    assert_eq!(b.cursor().col, 8);
    b.move_word_back();
    assert_eq!(b.cursor().col, 4);
}

#[test]
fn backspace_after_insert_restores_text_and_cursor() {
    let mut b = buf("abc\ndef");
    b.move_down();
    b.move_right();
    let before = (b.text(), b.cursor());
    b.insert_char('x');
    assert_eq!(b.text(), "abc\ndxef");
    b.backspace();
    assert_eq!((b.text(), b.cursor()), before);
}

#[test]
fn combining_mark_insert_is_not_undone_by_backspace() {
    // The accent merges with the 'e' into one cluster; the cursor's column now lies
    // past the line's last cluster, and a backspace from there removes nothing.
    let mut b = buf("e");
    b.move_right();
    b.insert_char('\u{301}');
    assert_eq!(b.text(), "e\u{301}");
    assert_eq!(b.cursor().col, 2);
    b.backspace();
    assert_eq!(b.text(), "e\u{301}");
    assert_eq!(b.cursor().col, 1);
}
