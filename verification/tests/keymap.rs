use nib::keymap::{ChordError, KeyChord, KeyMap, Lookup};
use nib::term::input::{Key, KeyMod};

#[test]
fn parse_single_char() {
    let k = KeyChord::parse("h").unwrap();
    assert_eq!(k.key, Key::Char('h'));
    assert!(k.mods.is_empty());
}

#[test]
fn parse_ctrl_chord() {
    let k = KeyChord::parse("<C-x>").unwrap();
    assert_eq!(k.key, Key::Char('x'));
    assert_eq!(k.mods, KeyMod::ctrl());
}

#[test]
fn parse_named_key() {
    assert_eq!(KeyChord::parse("<Esc>").unwrap().key, Key::Escape);
    assert_eq!(KeyChord::parse("<F5>").unwrap().key, Key::Function(5));
    assert_eq!(KeyChord::parse("<Space>").unwrap().key, Key::Char(' '));
}

#[test]
fn trie_lookup_chord_sequence() {
    let mut km = KeyMap::default();
    let g = KeyChord::parse("g").unwrap();
    let e = KeyChord::parse("e").unwrap();
    km.bind(&[g, g], "buffer.goto_start");
    km.bind(&[g, e], "buffer.goto_end");

    assert!(matches!(km.lookup(&[g]), Lookup::Pending));
    assert!(matches!(km.lookup(&[g, g]), Lookup::Command("buffer.goto_start")));
    assert!(matches!(km.lookup(&[g, e]), Lookup::Command("buffer.goto_end")));
    assert!(matches!(km.lookup(&[e]), Lookup::NoMatch));
}

#[test]
fn parse_modifier_combinations() {
    let k = KeyChord::parse("<C-S-Tab>").unwrap();
    assert_eq!(k.key, Key::Tab);
    assert_eq!(k.mods, KeyMod::ctrl().union(KeyMod::shift()));
    let m = KeyChord::parse("<M-a>").unwrap();
    assert_eq!(m.key, Key::Char('a'));
    assert_eq!(m.mods, KeyMod::alt());
    assert_eq!(KeyChord::parse("<A-a>").unwrap().mods, KeyMod::alt());
}

#[test]
fn parse_key_name_aliases() {
    assert_eq!(KeyChord::parse("<Escape>").unwrap().key, Key::Escape);
    assert_eq!(KeyChord::parse("<CR>").unwrap().key, Key::Enter);
    assert_eq!(KeyChord::parse("<Return>").unwrap().key, Key::Enter);
    assert_eq!(KeyChord::parse("<BS>").unwrap().key, Key::Backspace);
    assert_eq!(KeyChord::parse("<Del>").unwrap().key, Key::Delete);
    assert_eq!(KeyChord::parse("<PgUp>").unwrap().key, Key::PageUp);
    assert_eq!(KeyChord::parse("<PgDn>").unwrap().key, Key::PageDown);
    assert_eq!(KeyChord::parse("<BackTab>").unwrap().key, Key::BackTab);
    assert_eq!(KeyChord::parse("<Insert>").unwrap().key, Key::Insert);
    assert_eq!(KeyChord::parse("<x>").unwrap().key, Key::Char('x'));
    assert_eq!(KeyChord::parse("<F12>").unwrap().key, Key::Function(12));
    assert_eq!(KeyChord::parse(">").unwrap().key, Key::Char('>'));
}

#[test]
fn parse_errors() {
    assert!(matches!(KeyChord::parse("ab"), Err(ChordError::Invalid)));
    assert!(matches!(KeyChord::parse("<"), Err(ChordError::Invalid)));
    assert!(matches!(KeyChord::parse("<C-x"), Err(ChordError::Invalid)));
    assert!(matches!(KeyChord::parse("<a-b>"), Err(ChordError::MultipleKeys)));
    assert!(matches!(KeyChord::parse("<C-S>"), Err(ChordError::NoKey)));
    match KeyChord::parse("<F999>") {
        Err(ChordError::BadFunctionKey(name)) => assert_eq!(name, "F999"),
        other => panic!("unexpected {other:?}"),
    }
    match KeyChord::parse("<Fx>") {
        Err(ChordError::BadFunctionKey(name)) => assert_eq!(name, "Fx"),
        other => panic!("unexpected {other:?}"),
    }
    match KeyChord::parse("<Foo-bar>") {
        Err(ChordError::MultipleKeys) => {},
        other => panic!("unexpected {other:?}"),
    }
    match KeyChord::parse("<Nope>") {
        Err(ChordError::UnknownKey(name)) => assert_eq!(name, "Nope"),
        other => panic!("unexpected {other:?}"),
    }
    match KeyChord::parse("<>") {
        Err(ChordError::UnknownKey(name)) => assert_eq!(name, ""),
        other => panic!("unexpected {other:?}"),
    }
}

#[test]
fn bind_last_writer_wins() {
    let mut km = KeyMap::new();
    let x = KeyChord::parse("x").unwrap();
    km.bind(&[x], "edit.delete_forward");
    km.bind(&[x], "editor.quit");
    assert!(matches!(km.lookup(&[x]), Lookup::Command("editor.quit")));
}

#[test]
fn bound_prefix_resolves_eagerly() {
    let mut km = KeyMap::new();
    let d = KeyChord::parse("d").unwrap();
    km.bind(&[d], "edit.delete_forward");
    km.bind(&[d, d], "edit.delete_line");
    assert!(matches!(km.lookup(&[d]), Lookup::Command("edit.delete_forward")));
    assert!(matches!(km.lookup(&[d, d]), Lookup::Command("edit.delete_line")));
    assert!(matches!(km.lookup(&[d, d, d]), Lookup::NoMatch));
}

#[test]
fn empty_keymap_matches_nothing() {
    let km = KeyMap::new();
    let a = KeyChord::from_event(Key::Char('a'), KeyMod::empty());
    assert!(matches!(km.lookup(&[a]), Lookup::NoMatch));
    assert!(matches!(km.lookup(&[]), Lookup::NoMatch));
}

#[test]
fn from_event_keeps_key_and_mods() {
    let c = KeyChord::from_event(Key::Up, KeyMod::shift());
    assert_eq!(c, KeyChord { key: Key::Up, mods: KeyMod::shift() });
}
