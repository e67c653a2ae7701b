use nib::config::{parse_color, ColorError, Config, ConfigError};
use nib::keymap::{ChordError, KeyChord, Lookup};
use nib::mode::Mode;
use nib::term::output::Color;

fn chord(s: &str) -> KeyChord {
    KeyChord::parse(s).unwrap()
}

fn command_of(cfg: &Config, mode: Mode, keys: &[&str]) -> Option<String> {
    let chords: Vec<KeyChord> = keys.iter().map(|k| chord(k)).collect();
    match cfg.keymaps.get(mode).lookup(&chords) {
        Lookup::Command(c) => Some(c.to_string()),
        _ => None,
    }
}

#[test]
fn parse_color_forms() {
    assert_eq!(parse_color("#1e1e2e"), Ok(Color::Rgb(0x1e, 0x1e, 0x2e)));
    assert_eq!(parse_color("#FFffFF"), Ok(Color::Rgb(255, 255, 255)));
    assert_eq!(parse_color("idx:7"), Ok(Color::Indexed(7)));
    assert_eq!(parse_color("idx:255"), Ok(Color::Indexed(255)));
    assert_eq!(parse_color("reset"), Ok(Color::Reset));
}

#[test]
fn parse_color_errors() {
    assert_eq!(parse_color("#12345"), Err(ColorError::HexLength));
    assert_eq!(parse_color("#1234567"), Err(ColorError::HexLength));
    assert_eq!(parse_color("#zz0000"), Err(ColorError::HexComponent(0)));
    assert_eq!(parse_color("#00zz00"), Err(ColorError::HexComponent(1)));
    assert_eq!(parse_color("#0000zz"), Err(ColorError::HexComponent(2)));
    assert_eq!(parse_color("#-10000"), Err(ColorError::HexComponent(0)));
    // A colour's pairs are hexadecimal digits only: no sign.
    assert_eq!(parse_color("#+10000"), Err(ColorError::HexComponent(0)));
    assert_eq!(parse_color("#+1+2+3"), Err(ColorError::HexComponent(0)));
    assert_eq!(parse_color("#00+100"), Err(ColorError::HexComponent(1)));
    assert_eq!(parse_color("#aBcDeF"), Ok(Color::Rgb(0xab, 0xcd, 0xef)));
    // An index, read as std reads a u8, may carry a plus sign.
    assert_eq!(parse_color("idx:+7"), Ok(Color::Indexed(7)));
    assert_eq!(parse_color("idx:256"), Err(ColorError::Index));
    assert_eq!(parse_color("idx:"), Err(ColorError::Index));
    assert_eq!(parse_color("red"), Err(ColorError::Unknown));
    assert_eq!(parse_color(""), Err(ColorError::Unknown));
}

#[test]
fn parse_color_multibyte_hex_is_refused_not_a_panic() {
    // Six bytes after '#', but the slice 0..2 cuts 'é' apart.
    assert_eq!(parse_color("#aé000"), Err(ColorError::HexComponent(0)));
    assert_eq!(parse_color("#a€bc"), Err(ColorError::HexComponent(0)));
}

#[test]
fn builtin_config_has_default_bindings() {
    let cfg = Config::builtin().unwrap();
    assert_eq!(cfg.behavior.tab_width, 4);
    assert_eq!(cfg.behavior.chord_timeout_ms, 500);
    assert!(!cfg.behavior.line_numbers);
    assert_eq!(cfg.theme.background, Color::Reset);
    assert_eq!(command_of(&cfg, Mode::Normal, &["h"]).as_deref(), Some("cursor.left"));
    assert_eq!(command_of(&cfg, Mode::Normal, &["g", "g"]).as_deref(), Some("buffer.goto_start"));
    assert_eq!(command_of(&cfg, Mode::Normal, &["g", "e"]).as_deref(), Some("buffer.goto_end"));
    assert_eq!(command_of(&cfg, Mode::Normal, &["d", "d"]).as_deref(), Some("edit.delete_line"));
    assert_eq!(command_of(&cfg, Mode::Normal, &["<C-s>"]).as_deref(), Some("buffer.save"));
    assert_eq!(command_of(&cfg, Mode::Insert, &["<Esc>"]).as_deref(), Some("mode.normal"));
    assert_eq!(command_of(&cfg, Mode::Command, &["<Esc>"]).as_deref(), Some("mode.normal"));
    assert!(matches!(cfg.keymaps.get(Mode::Normal).lookup(&[chord("g")]), Lookup::Pending));
    assert!(matches!(cfg.keymaps.get(Mode::Insert).lookup(&[chord("q")]), Lookup::NoMatch));
}

#[test]
fn user_config_layers_on_top_of_defaults() {
    let user = "behavior {\n    tab_width 2\n    line_numbers #true\n    chord_timeout_ms 700\n}\n\ntheme {\n    background \"#1e1e2e\"\n    status_bg \"#cba6f7\"\n}\n\nkeymap \"normal\" {\n    n \"cursor.down\"\n    e \"cursor.up\"\n    \"<Space>\" {\n        w \"buffer.save\"\n        q \"editor.quit\"\n    }\n}\n";
    let (cfg, warning) = Config::load_layered(Some((user, "nib.kdl"))).unwrap();
    assert!(warning.is_none());
    assert_eq!(cfg.behavior.tab_width, 2);
    assert!(cfg.behavior.line_numbers);
    assert_eq!(cfg.behavior.chord_timeout_ms, 700);
    assert_eq!(cfg.theme.background, Color::Rgb(0x1e, 0x1e, 0x2e));
    assert_eq!(cfg.theme.status_bg, Color::Rgb(0xcb, 0xa6, 0xf7));
    assert_eq!(cfg.theme.foreground, Color::Reset);
    assert_eq!(command_of(&cfg, Mode::Normal, &["n"]).as_deref(), Some("cursor.down"));
    assert_eq!(command_of(&cfg, Mode::Normal, &["<Space>", "q"]).as_deref(), Some("editor.quit"));
    // Bindings the user did not redeclare survive.
    assert_eq!(command_of(&cfg, Mode::Normal, &["h"]).as_deref(), Some("cursor.left"));
}

#[test]
fn user_binding_overrides_default() {
    let user = "keymap \"normal\" {\n    x \"editor.quit\"\n}\n";
    let (cfg, warning) = Config::load_layered(Some((user, "nib.kdl"))).unwrap();
    assert!(warning.is_none());
    assert_eq!(command_of(&cfg, Mode::Normal, &["x"]).as_deref(), Some("editor.quit"));
}

#[test]
fn no_user_config_gives_builtin() {
    let (cfg, warning) = Config::load_layered(None).unwrap();
    assert!(warning.is_none());
    assert_eq!(command_of(&cfg, Mode::Normal, &["u"]).as_deref(), Some("edit.undo"));
}

#[test]
fn broken_user_config_soft_fails_to_defaults() {
    // The behavior node applies before the theme node is refused; none of it stays.
    let user = "behavior {\n    tab_width 8\n}\ntheme {\n    foreground \"nope\"\n}\n";
    let (cfg, warning) = Config::load_layered(Some((user, "nib.kdl"))).unwrap();
    assert_eq!(cfg.behavior.tab_width, 4);
    match warning {
        Some(ConfigError::BadColor(key, ColorError::Unknown)) => assert_eq!(key, "foreground"),
        other => panic!("unexpected {other:?}"),
    }
}

fn refusal(text: &str) -> ConfigError {
    let mut cfg = Config::default();
    cfg.apply_kdl(text, "test.kdl").unwrap_err()
}

#[test]
fn config_error_variants() {
    assert!(matches!(refusal("theme {"), ConfigError::Parse { .. }));
    match refusal("colours {\n}\n") {
        ConfigError::UnknownTopLevel { source, name } => {
            assert_eq!(source, "test.kdl");
            assert_eq!(name, "colours");
        },
        other => panic!("unexpected {other:?}"),
    }
    assert!(matches!(refusal("theme {\n    foreground 3\n}\n"), ConfigError::MissingString(n) if n == "foreground"));
    assert!(matches!(refusal("theme {\n    border \"reset\"\n}\n"), ConfigError::UnknownThemeKey(n) if n == "border"));
    assert!(matches!(refusal("behavior {\n    tab_width \"wide\"\n}\n"), ConfigError::MissingInt(n) if n == "tab_width"));
    assert!(matches!(refusal("behavior {\n    line_numbers 1\n}\n"), ConfigError::MissingBool(n) if n == "line_numbers"));
    assert!(matches!(refusal("behavior {\n    tab_width 70000\n}\n"), ConfigError::TabWidthOutOfRange));
    assert!(matches!(refusal("behavior {\n    tab_width -1\n}\n"), ConfigError::TabWidthOutOfRange));
    assert!(matches!(refusal("behavior {\n    chord_timeout_ms 65536\n}\n"), ConfigError::ChordTimeoutOutOfRange));
    assert!(matches!(refusal("behavior {\n    wrap #true\n}\n"), ConfigError::UnknownBehaviorKey(n) if n == "wrap"));
    assert!(matches!(refusal("keymap \"visual\" {\n}\n"), ConfigError::UnknownMode(n) if n == "visual"));
    assert!(matches!(refusal("keymap {\n}\n"), ConfigError::MissingString(n) if n == "keymap"));
    assert!(matches!(
        refusal("keymap \"normal\" {\n    \"<Nope>\" \"editor.quit\"\n}\n"),
        ConfigError::BadChord(n, ChordError::UnknownKey(_)) if n == "<Nope>"
    ));
    assert!(matches!(
        refusal("keymap \"normal\" {\n    x\n}\n"),
        ConfigError::LeafWithoutCommand(n) if n == "x"
    ));
}

#[test]
fn refusal_keeps_nodes_applied_before_it() {
    let mut cfg = Config::default();
    let r = cfg.apply_kdl("behavior {\n    tab_width 3\n}\nbogus\n", "test.kdl");
    assert!(r.is_err());
    assert_eq!(cfg.behavior.tab_width, 3);
}

#[test]
fn theme_and_behavior_without_block_change_nothing() {
    let mut cfg = Config::default();
    cfg.apply_kdl("theme\nbehavior\n", "test.kdl").unwrap();
    assert_eq!(cfg.behavior.tab_width, 4);
    assert_eq!(cfg.theme.foreground, Color::Reset);
}

#[test]
fn unmentioned_behavior_knobs_keep_defaults() {
    let user = "behavior {\n    tab_width 2\n}\n";
    let (cfg, warning) = Config::load_layered(Some((user, "nib.kdl"))).unwrap();
    assert!(warning.is_none());
    assert_eq!(cfg.behavior.tab_width, 2);
    assert!(!cfg.behavior.line_numbers);
    assert_eq!(cfg.behavior.chord_timeout_ms, 500);
    assert_eq!(cfg.theme.status_bg, Color::Reset);
    assert_eq!(command_of(&cfg, Mode::Insert, &["<Esc>"]).as_deref(), Some("mode.normal"));
}
