use nib::term::output::{push_decimal, push_utf8, write_move, write_sgr, Color, RenderCell, Renderer, Style};
use nib::term::size::Size;

fn cell(ch: char) -> RenderCell {
    RenderCell { ch, fg: Color::Reset, bg: Color::Reset, bold: false, reverse: false }
}

#[test]
fn write_move_is_one_based() {
    let mut out = Vec::new();
    write_move(&mut out, 0, 0);
    assert_eq!(out, b"\x1b[1;1H");
    out.clear();
    write_move(&mut out, 9, 41);
    assert_eq!(out, b"\x1b[10;42H");
}

#[test]
fn write_sgr_resets_then_sets() {
    let mut out = Vec::new();
    write_sgr(&mut out, Style { fg: Color::Reset, bg: Color::Reset, bold: false, reverse: false });
    assert_eq!(out, b"\x1b[0m");
    out.clear();
    write_sgr(&mut out, Style { fg: Color::Indexed(3), bg: Color::Rgb(1, 2, 3), bold: true, reverse: true });
    assert_eq!(out, b"\x1b[0;1;7;38;5;3;48;2;1;2;3m");
}

#[test]
fn decimal_and_utf8_encoding() {
    let mut out = Vec::new();
    push_decimal(&mut out, 0);
    push_decimal(&mut out, 4096);
    assert_eq!(out, b"04096");
    let mut u = Vec::new();
    push_utf8(&mut u, 'é');
    push_utf8(&mut u, '界');
    push_utf8(&mut u, '🇹');
    assert_eq!(u, "é界🇹".as_bytes());
}

#[test]
fn new_renderer_is_blank() {
    let r = Renderer::new(Size { cols: 3, rows: 2 });
    assert_eq!(r.size(), Size { cols: 3, rows: 2 });
}

#[test]
fn first_flush_writes_only_changed_cells() {
    let mut r = Renderer::new(Size { cols: 4, rows: 2 });
    r.put(1, 0, cell('a'));
    r.put(2, 0, cell('b'));
    r.put(0, 1, RenderCell { ch: 'c', fg: Color::Indexed(1), bg: Color::Reset, bold: false, reverse: false });
    r.set_cursor(3, 1);
    let out = r.flush_bytes();
    let expected = b"\x1b[?25l\x1b[1;2Hab\x1b[2;1H\x1b[0;38;5;1mc\x1b[0m\x1b[2;4H\x1b[?25h".to_vec();
    assert_eq!(out, expected);
}

#[test]
fn second_flush_writes_no_cells() {
    let mut r = Renderer::new(Size { cols: 4, rows: 2 });
    r.put_str(0, 0, "hi", Color::Reset, Color::Reset, false);
    let _ = r.flush_bytes();
    let out = r.flush_bytes();
    assert_eq!(out, b"\x1b[?25l\x1b[0m\x1b[1;1H\x1b[?25h".to_vec());
}

#[test]
fn repainting_same_frame_writes_no_cells() {
    let mut r = Renderer::new(Size { cols: 5, rows: 1 });
    r.put_str(0, 0, "abc", Color::Reset, Color::Reset, false);
    let _ = r.flush_bytes();
    r.clear_back();
    r.put_str(0, 0, "abc", Color::Reset, Color::Reset, false);
    let out = r.flush_bytes();
    assert_eq!(out, b"\x1b[?25l\x1b[0m\x1b[1;1H\x1b[?25h".to_vec());
    r.clear_back();
    let out = r.flush_bytes();
    assert_eq!(out, b"\x1b[?25l\x1b[1;1H   \x1b[0m\x1b[1;1H\x1b[?25h".to_vec());
}

#[test]
fn cursor_off_screen_stays_hidden() {
    let mut r = Renderer::new(Size { cols: 2, rows: 2 });
    r.set_cursor(5, 0);
    let out = r.flush_bytes();
    assert_eq!(out, b"\x1b[?25l\x1b[0m".to_vec());
}

#[test]
fn put_off_screen_is_ignored() {
    let mut r = Renderer::new(Size { cols: 2, rows: 1 });
    r.put(2, 0, cell('x'));
    r.put(0, 1, cell('y'));
    let out = r.flush_bytes();
    assert_eq!(out, b"\x1b[?25l\x1b[0m\x1b[1;1H\x1b[?25h".to_vec());
}

#[test]
fn put_str_skips_control_chars_and_stops_at_edge() {
    let mut r = Renderer::new(Size { cols: 4, rows: 1 });
    let end = r.put_str(0, 0, "a\u{7}b界cd", Color::Reset, Color::Reset, false);
    assert_eq!(end, 4);
    let out = r.flush_bytes();
    assert_eq!(out, "\x1b[?25l\x1b[1;1Hab界\x1b[0m\x1b[1;1H\x1b[?25h".as_bytes().to_vec());
}

#[test]
fn put_str_returns_column_reached() {
    let mut r = Renderer::new(Size { cols: 10, rows: 1 });
    assert_eq!(r.put_str(2, 0, "界x", Color::Reset, Color::Reset, true), 5);
    assert_eq!(r.put_str(0, 3, "abc", Color::Reset, Color::Reset, false), 3);
}

#[test]
fn resize_reports_change_and_blanks() {
    let mut r = Renderer::new(Size { cols: 2, rows: 1 });
    assert!(!r.resize(Size { cols: 2, rows: 1 }));
    r.put(0, 0, cell('x'));
    let _ = r.flush_bytes();
    assert!(r.resize(Size { cols: 3, rows: 1 }));
    assert_eq!(r.size(), Size { cols: 3, rows: 1 });
    let out = r.flush_bytes();
    assert_eq!(out, b"\x1b[?25l\x1b[0m\x1b[1;1H\x1b[?25h".to_vec());
}

#[test]
fn style_from_cell() {
    let c = RenderCell { ch: 'z', fg: Color::Indexed(2), bg: Color::Rgb(9, 9, 9), bold: true, reverse: false };
    assert_eq!(Style::from(c), Style { fg: Color::Indexed(2), bg: Color::Rgb(9, 9, 9), bold: true, reverse: false });
    assert_eq!(RenderCell::default(), cell(' '));
}
