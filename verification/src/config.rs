//! KDL-backed configuration.
//!
//! The compiled-in [`DEFAULT_CONFIG`] is always applied first; a user's `nib.kdl` is
//! then applied *on top of* it, later definitions overriding earlier ones. An
//! unconfigured launch does the right thing, and a user config only declares what
//! differs. A broken user config is soft-failed: the editor starts with the defaults
//! and the error is handed back to be shown.
use vstd::prelude::*;

use crate::keymap::{chord_of, ChordError, ChordFault, KeyChord, KeyMap};
use crate::mode::Mode;
use crate::term::output::Color;
use crate::text::{chars_of, parse_u8, parse_u8_radix, str_eq};

verus! {

/// A value of a KDL entry, as far as the configuration reads it.
#[derive(Debug)]
pub enum EntryValue {
    Str(String),
    Int(i128),
    Bool(bool),
    /// A float or `#null`: never read.
    Other,
}

/// A node of a KDL document: its name, the values of its entries (arguments and
/// properties, in order), and its child block if it has one.
#[derive(Debug)]
pub struct ConfigNode {
    pub name: String,
    pub entries: Vec<EntryValue>,
    pub children: Option<Vec<ConfigNode>>,
}

#[verifier::external_type_specification]
#[verifier::external_body]
pub struct ExKdlNode(kdl::KdlNode);

/// What the kdl crate makes of a text: the document's nodes, or the text of its
/// parse error.
pub uninterp spec fn kdl_document(text: Seq<char>) -> Result<Seq<ConfigNode>, Seq<char>>;

/// kdl's `KdlDocument::parse` (KDL v2), with the document's nodes carried over into
/// [`ConfigNode`]s and an error into its display text.
#[verifier::external_body]
fn parse_kdl(text: &str) -> (r: Result<Vec<ConfigNode>, String>)
    ensures
        match r {
            Ok(nodes) => kdl_document(text@) == Ok::<Seq<ConfigNode>, Seq<char>>(nodes@),
            Err(m) => kdl_document(text@) == Err::<Seq<ConfigNode>, Seq<char>>(m@),
        },
{
    match text.parse::<kdl::KdlDocument>() {
        Ok(doc) => Ok(plain_nodes(doc.nodes())),
        Err(e) => Err(e.to_string()),
    }
}

/// The nodes of a parsed kdl document as [`ConfigNode`]s, one for one; part of
/// [`parse_kdl`], whose contract covers it.
#[verifier::external_body]
fn plain_nodes(nodes: &[kdl::KdlNode]) -> Vec<ConfigNode> {
    let mut out = Vec::new();
    for node in nodes {
        let mut entries = Vec::new();
        for e in node.entries() {
            entries.push(match e.value() {
                kdl::KdlValue::String(s) => EntryValue::Str(s.clone()),
                kdl::KdlValue::Integer(i) => EntryValue::Int(*i),
                kdl::KdlValue::Bool(b) => EntryValue::Bool(*b),
                _ => EntryValue::Other,
            });
        }
        let children = node.children().map(|d| plain_nodes(d.nodes()));
        out.push(ConfigNode { name: node.name().value().to_string(), entries, children });
    }
    out
}

/// Why a colour's text was refused.
#[derive(Debug, Clone, Copy, PartialEq, Eq, Structural)]
pub enum ColorError {
    /// `#` followed by other than six bytes.
    HexLength,
    /// The red (0), green (1) or blue (2) pair is no hexadecimal byte.
    HexComponent(u8),
    /// `idx:` followed by no `u8`.
    Index,
    /// None of `#RRGGBB`, `idx:<n>`, `reset`.
    Unknown,
}

/// The value of an ASCII hexadecimal digit (`0-9`, `a-f`, `A-F`), if the byte is one.
pub open spec fn hex_digit(x: u8) -> Option<u8> {
    if 0x30 <= x <= 0x39 {
        Some((x - 0x30) as u8)
    } else if 0x61 <= x <= 0x66 {
        Some((x - 0x61 + 10) as u8)
    } else if 0x41 <= x <= 0x46 {
        Some((x - 0x41 + 10) as u8)
    } else {
        None
    }
}

/// The byte written by the pair of hexadecimal digits at positions 2k and 2k+1 of a
/// `#RRGGBB` colour's digits `b`; a pair that is not two ASCII hexadecimal digits is
/// refused.
pub open spec fn hex_component(b: Seq<u8>, k: int) -> Result<u8, ColorError> {
    match (hex_digit(b[2 * k]), hex_digit(b[2 * k + 1])) {
        (Some(hi), Some(lo)) => Ok((hi * 16 + lo) as u8),
        _ => Err(ColorError::HexComponent(k as u8)),
    }
}

/// The colour a config value names: `#RRGGBB` (six ASCII hexadecimal digits after
/// `#`, read as three bytes), `idx:<n>` (a palette index), or `reset`.
pub open spec fn color_of(s: Seq<char>) -> Result<Color, ColorError> {
    let e = vstd::utf8::encode_utf8(s);
    if s.len() > 0 && s[0] == '#' {
        let b = e.drop_first();
        if b.len() != 6 {
            Err(ColorError::HexLength)
        } else {
            match hex_component(b, 0) {
                Err(x) => Err(x),
                Ok(r) => match hex_component(b, 1) {
                    Err(x) => Err(x),
                    Ok(g) => match hex_component(b, 2) {
                        Err(x) => Err(x),
                        Ok(bl) => Ok(Color::Rgb(r, g, bl)),
                    },
                },
            }
        }
    } else if s.len() >= 4 && s.take(4) == seq!['i', 'd', 'x', ':'] {
        match parse_u8_radix(s.skip(4), 10) {
            Some(n) => Ok(Color::Indexed(n)),
            None => Err(ColorError::Index),
        }
    } else if s == "reset"@ {
        Ok(Color::Reset)
    } else {
        Err(ColorError::Unknown)
    }
}

/// The value of one ASCII hexadecimal digit (see [`hex_digit`]).
fn read_hex_digit(x: u8) -> (r: Option<u8>)
    ensures
        r == hex_digit(x),
{
    if 0x30 <= x && x <= 0x39 {
        Some(x - 0x30)
    } else if 0x61 <= x && x <= 0x66 {
        Some(x - 0x61 + 10)
    } else if 0x41 <= x && x <= 0x46 {
        Some(x - 0x41 + 10)
    } else {
        None
    }
}

/// Read one component of a `#RRGGBB` colour (see [`hex_component`]).
fn read_hex_component(b: &[u8], k: usize) -> (r: Result<u8, ColorError>)
    requires
        b@.len() == 6,
        k < 3,
    ensures
        r == hex_component(b@, k as int),
{
    match (read_hex_digit(b[2 * k]), read_hex_digit(b[2 * k + 1])) {
        (Some(hi), Some(lo)) => Ok(hi * 16 + lo),
        _ => Err(ColorError::HexComponent(k as u8)),
    }
}

/// Parse a colour from its config text (see [`color_of`]).
pub fn parse_color(s: &str) -> (r: Result<Color, ColorError>)
    ensures
        r == color_of(s@),
{
    let cs = chars_of(s);
    if cs.len() > 0 && cs[0] == '#' {
        let all = s.as_bytes();
        proof {
            assert(s@ == seq![s@[0]] + s@.drop_first());
            assert(vstd::utf8::encode_utf8(s@) == vstd::utf8::encode_scalar(s@[0] as u32)
                + vstd::utf8::encode_utf8(s@.drop_first()));
            assert(0x23u32 & 0x7fu32 == 0x23u32) by (bit_vector);
            assert(s@[0] as u32 == 0x23u32);
            assert(vstd::utf8::encode_scalar(s@[0] as u32) =~= seq![0x23u8]);
        }
        let b = &all[1..all.len()];
        assert(b@ == vstd::utf8::encode_utf8(s@).drop_first());
        if b.len() != 6 {
            return Err(ColorError::HexLength);
        }
        let r = match read_hex_component(b, 0) {
            Ok(v) => v,
            Err(e) => return Err(e),
        };
        let g = match read_hex_component(b, 1) {
            Ok(v) => v,
            Err(e) => return Err(e),
        };
        let bl = match read_hex_component(b, 2) {
            Ok(v) => v,
            Err(e) => return Err(e),
        };
        return Ok(Color::Rgb(r, g, bl));
    }
    if cs.len() >= 4 && cs[0] == 'i' && cs[1] == 'd' && cs[2] == 'x' && cs[3] == ':' {
        assert(cs@.take(4) =~= seq!['i', 'd', 'x', ':']);
        let rest = &cs[4..cs.len()];
        assert(rest@ == s@.skip(4));
        return match parse_u8(rest, 10) {
            Some(n) => Ok(Color::Indexed(n)),
            None => Err(ColorError::Index),
        };
    }
    proof {
        if cs@.len() >= 4 && cs@.take(4) == seq!['i', 'd', 'x', ':'] {
            assert(cs@[0] == cs@.take(4)[0]);
            assert(cs@[1] == cs@.take(4)[1]);
            assert(cs@[2] == cs@.take(4)[2]);
            assert(cs@[3] == cs@.take(4)[3]);
        }
    }
    if str_eq(s, "reset") {
        return Ok(Color::Reset);
    }
    Err(ColorError::Unknown)
}

/// The colours of the text area, the status line and the command line.
#[derive(Debug, Clone, Copy, PartialEq, Eq, Structural)]
pub struct Theme {
    pub foreground: Color,
    pub background: Color,
    pub status_fg: Color,
    pub status_bg: Color,
    pub cmdline_fg: Color,
    pub cmdline_bg: Color,
}

/// Behaviour knobs.
#[derive(Debug, Clone, Copy, PartialEq, Eq, Structural)]
pub struct Behavior {
    pub tab_width: u16,
    pub line_numbers: bool,
    pub chord_timeout_ms: u16,
}

/// The theme before any configuration: every colour the terminal's default.
pub open spec fn default_theme() -> Theme {
    Theme {
        foreground: Color::Reset,
        background: Color::Reset,
        status_fg: Color::Reset,
        status_bg: Color::Reset,
        cmdline_fg: Color::Reset,
        cmdline_bg: Color::Reset,
    }
}

/// The behaviour before any configuration: tabs of 4, no line numbers, chords time
/// out after 500 ms.
pub open spec fn default_behavior() -> Behavior {
    Behavior { tab_width: 4, line_numbers: false, chord_timeout_ms: 500 }
}

impl Default for Theme {
    fn default() -> (t: Theme)
        ensures
            t == default_theme(),
    {
        Theme {
            foreground: Color::Reset,
            background: Color::Reset,
            status_fg: Color::Reset,
            status_bg: Color::Reset,
            cmdline_fg: Color::Reset,
            cmdline_bg: Color::Reset,
        }
    }
}

impl Default for Behavior {
    fn default() -> (b: Behavior)
        ensures
            b == default_behavior(),
    {
        Behavior { tab_width: 4, line_numbers: false, chord_timeout_ms: 500 }
    }
}

/// One keymap per mode.
#[derive(Debug)]
pub struct ModeKeymaps {
    pub normal: KeyMap,
    pub insert: KeyMap,
    pub command: KeyMap,
}

impl ModeKeymaps {
    /// The keymap of `mode`.
    pub fn get(&self, mode: Mode) -> (km: &KeyMap)
        ensures
            km@ == match mode {
                Mode::Normal => self.normal@,
                Mode::Insert => self.insert@,
                Mode::Command => self.command@,
            },
    {
        match mode {
            Mode::Normal => &self.normal,
            Mode::Insert => &self.insert,
            Mode::Command => &self.command,
        }
    }
}

/// The whole configuration.
#[derive(Debug)]
pub struct Config {
    pub theme: Theme,
    pub behavior: Behavior,
    /// One keymap per mode; a mode nobody configured has an empty keymap.
    pub keymaps: ModeKeymaps,
}

/// A configuration as values of the specification.
pub struct ConfigModel {
    pub theme: Theme,
    pub behavior: Behavior,
    pub normal: Map<Seq<KeyChord>, Seq<char>>,
    pub insert: Map<Seq<KeyChord>, Seq<char>>,
    pub command: Map<Seq<KeyChord>, Seq<char>>,
}

impl Config {
    /// The configuration as a value of the specification.
    pub open spec fn model(&self) -> ConfigModel {
        ConfigModel {
            theme: self.theme,
            behavior: self.behavior,
            normal: self.keymaps.normal@,
            insert: self.keymaps.insert@,
            command: self.keymaps.command@,
        }
    }
}

/// The configuration before anything is applied.
pub open spec fn default_model() -> ConfigModel {
    ConfigModel {
        theme: default_theme(),
        behavior: default_behavior(),
        normal: Map::empty(),
        insert: Map::empty(),
        command: Map::empty(),
    }
}

/// The bindings of `mode` in `m`.
pub open spec fn keymap_model(m: ConfigModel, mode: Mode) -> Map<Seq<KeyChord>, Seq<char>> {
    match mode {
        Mode::Normal => m.normal,
        Mode::Insert => m.insert,
        Mode::Command => m.command,
    }
}

/// `m` with the bindings of `mode` replaced by `km`.
pub open spec fn with_keymap(m: ConfigModel, mode: Mode, km: Map<Seq<KeyChord>, Seq<char>>) -> ConfigModel {
    match mode {
        Mode::Normal => ConfigModel { normal: km, ..m },
        Mode::Insert => ConfigModel { insert: km, ..m },
        Mode::Command => ConfigModel { command: km, ..m },
    }
}

/// Why a configuration text was refused, as a value of the specification.
pub enum ConfigFault {
    /// The text is no KDL document: the source's name and the parser's message.
    Parse(Seq<char>, Seq<char>),
    /// A top-level node other than `theme`, `behavior`, `keymap`: the source and the name.
    UnknownTopLevel(Seq<char>, Seq<char>),
    /// The named node has no string argument.
    MissingString(Seq<char>),
    /// The named theme key holds no colour.
    BadColor(Seq<char>, ColorError),
    UnknownThemeKey(Seq<char>),
    /// The named node has no integer argument.
    MissingInt(Seq<char>),
    /// The named node has no boolean argument.
    MissingBool(Seq<char>),
    TabWidthOutOfRange,
    ChordTimeoutOutOfRange,
    UnknownBehaviorKey(Seq<char>),
    /// A keymap for a mode that does not exist.
    UnknownMode(Seq<char>),
    /// A keymap node whose name is no chord.
    BadChord(Seq<char>, ChordFault),
    /// A keymap node with neither a child block nor a command.
    LeafWithoutCommand(Seq<char>),
}

/// Why a configuration text was refused.
#[derive(Debug)]
pub enum ConfigError {
    Parse { source: String, message: String },
    UnknownTopLevel { source: String, name: String },
    MissingString(String),
    BadColor(String, ColorError),
    UnknownThemeKey(String),
    MissingInt(String),
    MissingBool(String),
    TabWidthOutOfRange,
    ChordTimeoutOutOfRange,
    UnknownBehaviorKey(String),
    UnknownMode(String),
    BadChord(String, ChordError),
    LeafWithoutCommand(String),
}

impl View for ConfigError {
    type V = ConfigFault;

    open spec fn view(&self) -> ConfigFault {
        match self {
            ConfigError::Parse { source, message } => ConfigFault::Parse(source@, message@),
            ConfigError::UnknownTopLevel { source, name } => ConfigFault::UnknownTopLevel(source@, name@),
            ConfigError::MissingString(n) => ConfigFault::MissingString(n@),
            ConfigError::BadColor(n, e) => ConfigFault::BadColor(n@, *e),
            ConfigError::UnknownThemeKey(n) => ConfigFault::UnknownThemeKey(n@),
            ConfigError::MissingInt(n) => ConfigFault::MissingInt(n@),
            ConfigError::MissingBool(n) => ConfigFault::MissingBool(n@),
            ConfigError::TabWidthOutOfRange => ConfigFault::TabWidthOutOfRange,
            ConfigError::ChordTimeoutOutOfRange => ConfigFault::ChordTimeoutOutOfRange,
            ConfigError::UnknownBehaviorKey(n) => ConfigFault::UnknownBehaviorKey(n@),
            ConfigError::UnknownMode(n) => ConfigFault::UnknownMode(n@),
            ConfigError::BadChord(n, e) => ConfigFault::BadChord(n@, e@),
            ConfigError::LeafWithoutCommand(n) => ConfigFault::LeafWithoutCommand(n@),
        }
    }
}

/// The first string among the entry values.
pub open spec fn first_string(es: Seq<EntryValue>) -> Option<Seq<char>>
    decreases es.len(),
{
    if es.len() == 0 {
        None
    } else {
        match es[0] {
            EntryValue::Str(s) => Some(s@),
            _ => first_string(es.drop_first()),
        }
    }
}

/// The first integer among the entry values.
pub open spec fn first_int(es: Seq<EntryValue>) -> Option<i128>
    decreases es.len(),
{
    if es.len() == 0 {
        None
    } else {
        match es[0] {
            EntryValue::Int(i) => Some(i),
            _ => first_int(es.drop_first()),
        }
    }
}

/// The first boolean among the entry values.
pub open spec fn first_bool(es: Seq<EntryValue>) -> Option<bool>
    decreases es.len(),
{
    if es.len() == 0 {
        None
    } else {
        match es[0] {
            EntryValue::Bool(b) => Some(b),
            _ => first_bool(es.drop_first()),
        }
    }
}

/// The theme after applying the keys `cs` in order, and the first fault met (the
/// theme is then as the keys before it left it).
pub open spec fn theme_fold(t: Theme, cs: Seq<ConfigNode>) -> (Theme, Option<ConfigFault>)
    decreases cs.len(),
{
    if cs.len() == 0 {
        (t, None)
    } else {
        let c = cs[0];
        let key = c.name@;
        match first_string(c.entries@) {
            None => (t, Some(ConfigFault::MissingString(key))),
            Some(v) => match color_of(v) {
                Err(e) => (t, Some(ConfigFault::BadColor(key, e))),
                Ok(col) => if key == "foreground"@ {
                    theme_fold(Theme { foreground: col, ..t }, cs.drop_first())
                } else if key == "background"@ {
                    theme_fold(Theme { background: col, ..t }, cs.drop_first())
                } else if key == "status_fg"@ {
                    theme_fold(Theme { status_fg: col, ..t }, cs.drop_first())
                } else if key == "status_bg"@ {
                    theme_fold(Theme { status_bg: col, ..t }, cs.drop_first())
                } else if key == "cmdline_fg"@ {
                    theme_fold(Theme { cmdline_fg: col, ..t }, cs.drop_first())
                } else if key == "cmdline_bg"@ {
                    theme_fold(Theme { cmdline_bg: col, ..t }, cs.drop_first())
                } else {
                    (t, Some(ConfigFault::UnknownThemeKey(key)))
                },
            },
        }
    }
}

/// The behaviour after applying the keys `cs` in order, and the first fault met.
pub open spec fn behavior_fold(b: Behavior, cs: Seq<ConfigNode>) -> (Behavior, Option<ConfigFault>)
    decreases cs.len(),
{
    if cs.len() == 0 {
        (b, None)
    } else {
        let c = cs[0];
        let key = c.name@;
        if key == "tab_width"@ {
            match first_int(c.entries@) {
                None => (b, Some(ConfigFault::MissingInt(key))),
                Some(n) => if 0 <= n <= u16::MAX {
                    behavior_fold(Behavior { tab_width: n as u16, ..b }, cs.drop_first())
                } else {
                    (b, Some(ConfigFault::TabWidthOutOfRange))
                },
            }
        } else if key == "line_numbers"@ {
            match first_bool(c.entries@) {
                None => (b, Some(ConfigFault::MissingBool(key))),
                Some(v) => behavior_fold(Behavior { line_numbers: v, ..b }, cs.drop_first()),
            }
        } else if key == "chord_timeout_ms"@ {
            match first_int(c.entries@) {
                None => (b, Some(ConfigFault::MissingInt(key))),
                Some(n) => if 0 <= n <= u16::MAX {
                    behavior_fold(Behavior { chord_timeout_ms: n as u16, ..b }, cs.drop_first())
                } else {
                    (b, Some(ConfigFault::ChordTimeoutOutOfRange))
                },
            }
        } else {
            (b, Some(ConfigFault::UnknownBehaviorKey(key)))
        }
    }
}

/// The bindings after walking the keymap block `nodes` below the chord sequence
/// `prefix`: each node's name is a chord; a node with a child block continues the
/// sequence into it, a node without one binds the sequence to its first string.
/// The first fault met stops the walk, the bindings made before it staying.
pub open spec fn walk_fold(
    m: Map<Seq<KeyChord>, Seq<char>>,
    prefix: Seq<KeyChord>,
    nodes: Seq<ConfigNode>,
) -> (Map<Seq<KeyChord>, Seq<char>>, Option<ConfigFault>)
    decreases nodes,
{
    if nodes.len() == 0 {
        (m, None)
    } else {
        let node = nodes[0];
        match chord_of(node.name@) {
            Err(e) => (m, Some(ConfigFault::BadChord(node.name@, e))),
            Ok(c) => {
                let p = prefix.push(c);
                let inner = match node.children {
                    Some(ch) => {
                        proof {
                            assert(decreases_to!(nodes => nodes[0]));
                        }
                        walk_fold(m, p, ch@)
                    },
                    None => match first_string(node.entries@) {
                        Some(cmd) => (m.insert(p, cmd), None),
                        None => (m, Some(ConfigFault::LeafWithoutCommand(node.name@))),
                    },
                };
                match inner.1 {
                    Some(f) => (inner.0, Some(f)),
                    None => walk_fold(inner.0, prefix, nodes.drop_first()),
                }
            },
        }
    }
}

/// The configuration after applying the top-level node `node` of a document from
/// `source`, and the fault met, if any.
pub open spec fn node_effect(m: ConfigModel, node: ConfigNode, source: Seq<char>) -> (ConfigModel, Option<ConfigFault>) {
    let name = node.name@;
    if name == "theme"@ {
        match node.children {
            None => (m, None),
            Some(ch) => {
                let r = theme_fold(m.theme, ch@);
                (ConfigModel { theme: r.0, ..m }, r.1)
            },
        }
    } else if name == "behavior"@ {
        match node.children {
            None => (m, None),
            Some(ch) => {
                let r = behavior_fold(m.behavior, ch@);
                (ConfigModel { behavior: r.0, ..m }, r.1)
            },
        }
    } else if name == "keymap"@ {
        match first_string(node.entries@) {
            None => (m, Some(ConfigFault::MissingString(name))),
            Some(mode_name) => match Mode::named(mode_name) {
                None => (m, Some(ConfigFault::UnknownMode(mode_name))),
                Some(mode) => match node.children {
                    None => (m, None),
                    Some(ch) => {
                        let r = walk_fold(keymap_model(m, mode), Seq::empty(), ch@);
                        (with_keymap(m, mode, r.0), r.1)
                    },
                },
            },
        }
    } else {
        (m, Some(ConfigFault::UnknownTopLevel(source, name)))
    }
}

/// The configuration after applying the top-level nodes in order, and the first fault.
pub open spec fn doc_fold(m: ConfigModel, nodes: Seq<ConfigNode>, source: Seq<char>) -> (ConfigModel, Option<ConfigFault>)
    decreases nodes.len(),
{
    if nodes.len() == 0 {
        (m, None)
    } else {
        let r = node_effect(m, nodes[0], source);
        match r.1 {
            Some(f) => (r.0, Some(f)),
            None => doc_fold(r.0, nodes.drop_first(), source),
        }
    }
}

/// Whether one of the nodes `cs` is named `key`.
pub open spec fn child_named(cs: Seq<ConfigNode>, key: Seq<char>) -> bool
    decreases cs.len(),
{
    cs.len() > 0 && (cs[0].name@ == key || child_named(cs.drop_first(), key))
}

/// Whether a top-level `section` node among `nodes` has a child block with a node
/// named `key`.
pub open spec fn section_mentions(nodes: Seq<ConfigNode>, section: Seq<char>, key: Seq<char>) -> bool
    decreases nodes.len(),
{
    nodes.len() > 0 && ((nodes[0].name@ == section && match nodes[0].children {
        Some(ch) => child_named(ch@, key),
        None => false,
    }) || section_mentions(nodes.drop_first(), section, key))
}

/// The colour that the theme key `key` names in `t`, if it is a theme key.
pub open spec fn theme_value(t: Theme, key: Seq<char>) -> Option<Color> {
    if key == "foreground"@ {
        Some(t.foreground)
    } else if key == "background"@ {
        Some(t.background)
    } else if key == "status_fg"@ {
        Some(t.status_fg)
    } else if key == "status_bg"@ {
        Some(t.status_bg)
    } else if key == "cmdline_fg"@ {
        Some(t.cmdline_fg)
    } else if key == "cmdline_bg"@ {
        Some(t.cmdline_bg)
    } else {
        None
    }
}

/// Whether the keymap block `nodes` below `prefix` holds a node that could bind the
/// chord sequence `p`: a leaf whose chords spell `p`.
pub open spec fn walk_may_bind(prefix: Seq<KeyChord>, nodes: Seq<ConfigNode>, p: Seq<KeyChord>) -> bool
    decreases nodes,
{
    if nodes.len() == 0 {
        false
    } else {
        let node = nodes[0];
        let here = match chord_of(node.name@) {
            Err(_) => false,
            Ok(c) => match node.children {
                Some(ch) => {
                    proof {
                        assert(decreases_to!(nodes => nodes[0]));
                    }
                    walk_may_bind(prefix.push(c), ch@, p)
                },
                None => prefix.push(c) == p,
            },
        };
        here || walk_may_bind(prefix, nodes.drop_first(), p)
    }
}

/// Whether a top-level keymap node among `nodes` for `mode` could bind `p`.
pub open spec fn doc_may_bind(nodes: Seq<ConfigNode>, mode: Mode, p: Seq<KeyChord>) -> bool
    decreases nodes.len(),
{
    nodes.len() > 0 && ((nodes[0].name@ == "keymap"@ && match first_string(nodes[0].entries@) {
        Some(name) => Mode::named(name) == Some(mode) && match nodes[0].children {
            Some(ch) => walk_may_bind(Seq::empty(), ch@, p),
            None => false,
        },
        None => false,
    }) || doc_may_bind(nodes.drop_first(), mode, p))
}

/// `a` and `b` bind `p` alike.
pub open spec fn same_binding(a: Map<Seq<KeyChord>, Seq<char>>, b: Map<Seq<KeyChord>, Seq<char>>, p: Seq<KeyChord>) -> bool {
    a.contains_key(p) == b.contains_key(p) && (a.contains_key(p) ==> a[p] == b[p])
}

proof fn lemma_theme_fold_keeps(t: Theme, cs: Seq<ConfigNode>, key: Seq<char>)
    requires
        !child_named(cs, key),
    ensures
        theme_value(theme_fold(t, cs).0, key) == theme_value(t, key),
    decreases cs.len(),
{
    if cs.len() > 0 {
        let c = cs[0];
        match first_string(c.entries@) {
            None => {},
            Some(v) => match color_of(v) {
                Err(_) => {},
                Ok(col) => {
                    let name = c.name@;
                    if name == "foreground"@ {
                        lemma_theme_fold_keeps(Theme { foreground: col, ..t }, cs.drop_first(), key);
                    } else if name == "background"@ {
                        lemma_theme_fold_keeps(Theme { background: col, ..t }, cs.drop_first(), key);
                    } else if name == "status_fg"@ {
                        lemma_theme_fold_keeps(Theme { status_fg: col, ..t }, cs.drop_first(), key);
                    } else if name == "status_bg"@ {
                        lemma_theme_fold_keeps(Theme { status_bg: col, ..t }, cs.drop_first(), key);
                    } else if name == "cmdline_fg"@ {
                        lemma_theme_fold_keeps(Theme { cmdline_fg: col, ..t }, cs.drop_first(), key);
                    } else if name == "cmdline_bg"@ {
                        lemma_theme_fold_keeps(Theme { cmdline_bg: col, ..t }, cs.drop_first(), key);
                    }
                },
            },
        }
    }
}

proof fn lemma_behavior_fold_keeps(b: Behavior, cs: Seq<ConfigNode>, key: Seq<char>)
    requires
        !child_named(cs, key),
    ensures
        key == "tab_width"@ ==> behavior_fold(b, cs).0.tab_width == b.tab_width,
        key == "line_numbers"@ ==> behavior_fold(b, cs).0.line_numbers == b.line_numbers,
        key == "chord_timeout_ms"@ ==> behavior_fold(b, cs).0.chord_timeout_ms == b.chord_timeout_ms,
    decreases cs.len(),
{
    if cs.len() > 0 {
        let c = cs[0];
        let name = c.name@;
        if name == "tab_width"@ {
            match first_int(c.entries@) {
                None => {},
                Some(n) => if 0 <= n <= u16::MAX {
                    lemma_behavior_fold_keeps(Behavior { tab_width: n as u16, ..b }, cs.drop_first(), key);
                },
            }
        } else if name == "line_numbers"@ {
            match first_bool(c.entries@) {
                None => {},
                Some(v) => lemma_behavior_fold_keeps(Behavior { line_numbers: v, ..b }, cs.drop_first(), key),
            }
        } else if name == "chord_timeout_ms"@ {
            match first_int(c.entries@) {
                None => {},
                Some(n) => if 0 <= n <= u16::MAX {
                    lemma_behavior_fold_keeps(Behavior { chord_timeout_ms: n as u16, ..b }, cs.drop_first(), key);
                },
            }
        }
    }
}

proof fn lemma_walk_fold_keeps(m: Map<Seq<KeyChord>, Seq<char>>, prefix: Seq<KeyChord>, nodes: Seq<ConfigNode>, p: Seq<KeyChord>)
    requires
        !walk_may_bind(prefix, nodes, p),
    ensures
        same_binding(walk_fold(m, prefix, nodes).0, m, p),
    decreases nodes,
{
    if nodes.len() > 0 {
        let node = nodes[0];
        match chord_of(node.name@) {
            Err(_) => {},
            Ok(c) => {
                let q = prefix.push(c);
                let inner = match node.children {
                    Some(ch) => {
                        assert(decreases_to!(nodes => nodes[0]));
                        lemma_walk_fold_keeps(m, q, ch@, p);
                        walk_fold(m, q, ch@)
                    },
                    None => match first_string(node.entries@) {
                        Some(cmd) => (m.insert(q, cmd), None),
                        None => (m, Some(ConfigFault::LeafWithoutCommand(node.name@))),
                    },
                };
                assert(same_binding(inner.0, m, p));
                if inner.1 is None {
                    lemma_walk_fold_keeps(inner.0, prefix, nodes.drop_first(), p);
                }
            },
        }
    }
}

/// What a user's configuration does not mention keeps the value it had: the layering
/// of a document over the built-in configuration (or any configuration `m`) changes a
/// theme colour only where a `theme` block names its key, a behaviour knob only where
/// a `behavior` block names it, and the binding of a chord sequence only where a
/// `keymap` block for that mode has a leaf spelling it. (Applying stops at the first
/// refused node, so this holds whether or not the document is refused.)
pub proof fn lemma_unmentioned_settings_keep(m: ConfigModel, nodes: Seq<ConfigNode>, source: Seq<char>)
    ensures
        forall|key: Seq<char>|
            !section_mentions(nodes, "theme"@, key) ==> #[trigger] theme_value(doc_fold(m, nodes, source).0.theme, key)
                == theme_value(m.theme, key),
        !section_mentions(nodes, "behavior"@, "tab_width"@) ==> doc_fold(m, nodes, source).0.behavior.tab_width
            == m.behavior.tab_width,
        !section_mentions(nodes, "behavior"@, "line_numbers"@) ==> doc_fold(m, nodes, source).0.behavior.line_numbers
            == m.behavior.line_numbers,
        !section_mentions(nodes, "behavior"@, "chord_timeout_ms"@)
            ==> doc_fold(m, nodes, source).0.behavior.chord_timeout_ms == m.behavior.chord_timeout_ms,
        forall|mode: Mode, p: Seq<KeyChord>|
            !doc_may_bind(nodes, mode, p) ==> #[trigger] same_binding(
                keymap_model(doc_fold(m, nodes, source).0, mode),
                keymap_model(m, mode),
                p,
            ),
    decreases nodes.len(),
{
    if nodes.len() > 0 {
        let node = nodes[0];
        let r = node_effect(m, node, source);
        lemma_unmentioned_settings_keep(r.0, nodes.drop_first(), source);
        let name = node.name@;
        assert forall|key: Seq<char>| !section_mentions(nodes, "theme"@, key) implies #[trigger] theme_value(
            r.0.theme,
            key,
        ) == theme_value(m.theme, key) by {
            if name == "theme"@ {
                if let Some(ch) = node.children {
                    lemma_theme_fold_keeps(m.theme, ch@, key);
                }
            }
        }
        if name == "behavior"@ && name != "theme"@ {
            if let Some(ch) = node.children {
                if !child_named(ch@, "tab_width"@) {
                    lemma_behavior_fold_keeps(m.behavior, ch@, "tab_width"@);
                }
                if !child_named(ch@, "line_numbers"@) {
                    lemma_behavior_fold_keeps(m.behavior, ch@, "line_numbers"@);
                }
                if !child_named(ch@, "chord_timeout_ms"@) {
                    lemma_behavior_fold_keeps(m.behavior, ch@, "chord_timeout_ms"@);
                }
            }
        }
        assert forall|mode: Mode, p: Seq<KeyChord>| !doc_may_bind(nodes, mode, p) implies #[trigger] same_binding(
            keymap_model(r.0, mode),
            keymap_model(m, mode),
            p,
        ) by {
            if name == "keymap"@ && name != "theme"@ && name != "behavior"@ {
                if let Some(mode_name) = first_string(node.entries@) {
                    if let Some(md) = Mode::named(mode_name) {
                        if let Some(ch) = node.children {
                            if md == mode {
                                lemma_walk_fold_keeps(keymap_model(m, md), Seq::empty(), ch@, p);
                            }
                        }
                    }
                }
            }
        }
        assert forall|mode: Mode, p: Seq<KeyChord>| !doc_may_bind(nodes, mode, p) implies #[trigger] same_binding(
            keymap_model(doc_fold(m, nodes, source).0, mode),
            keymap_model(m, mode),
            p,
        ) by {
            assert(same_binding(keymap_model(r.0, mode), keymap_model(m, mode), p));
            if r.1 is None {
                assert(!doc_may_bind(nodes.drop_first(), mode, p));
                assert(same_binding(
                    keymap_model(doc_fold(r.0, nodes.drop_first(), source).0, mode),
                    keymap_model(r.0, mode),
                    p,
                ));
            }
        }
    }
}

/// The configuration after applying the text `text` from `source`, and the fault that
/// stopped it, if any: a text that is no KDL changes nothing.
pub open spec fn applied(m: ConfigModel, text: Seq<char>, source: Seq<char>) -> (ConfigModel, Option<ConfigFault>) {
    match kdl_document(text) {
        Err(msg) => (m, Some(ConfigFault::Parse(source, msg))),
        Ok(nodes) => doc_fold(m, nodes, source),
    }
}

/// The built-in configuration, applied before any user configuration.
pub const DEFAULT_CONFIG: &'static str = "behavior {\n    tab_width 4\n    line_numbers #false\n    chord_timeout_ms 500\n}\n\ntheme {\n    foreground \"reset\"\n    background \"reset\"\n    status_fg \"reset\"\n    status_bg \"reset\"\n    cmdline_fg \"reset\"\n    cmdline_bg \"reset\"\n}\n\nkeymap \"normal\" {\n    \"h\" \"cursor.left\"\n    \"j\" \"cursor.down\"\n    \"k\" \"cursor.up\"\n    \"l\" \"cursor.right\"\n    \"<Left>\" \"cursor.left\"\n    \"<Down>\" \"cursor.down\"\n    \"<Up>\" \"cursor.up\"\n    \"<Right>\" \"cursor.right\"\n    \"w\" \"cursor.word_forward\"\n    \"b\" \"cursor.word_back\"\n    \"0\" \"cursor.line_start\"\n    \"$\" \"cursor.line_end\"\n    \"<Home>\" \"cursor.line_start\"\n    \"<End>\" \"cursor.line_end\"\n    \"g\" {\n        \"g\" \"buffer.goto_start\"\n        \"e\" \"buffer.goto_end\"\n    }\n    \"G\" \"buffer.goto_end\"\n    \"i\" \"mode.insert\"\n    \"a\" \"mode.insert_after\"\n    \"I\" \"mode.insert_line_start\"\n    \"A\" \"mode.insert_line_end\"\n    \"o\" \"mode.open_below\"\n    \":\" \"mode.command\"\n    \"x\" \"edit.delete_forward\"\n    \"<Del>\" \"edit.delete_forward\"\n    \"d\" {\n        \"d\" \"edit.delete_line\"\n    }\n    \"u\" \"edit.undo\"\n    \"<C-r>\" \"edit.redo\"\n    \"<C-s>\" \"buffer.save\"\n    \"<C-q>\" \"editor.quit\"\n    \"<Esc>\" \"editor.quit\"\n}\n\nkeymap \"insert\" {\n    \"<Esc>\" \"mode.normal\"\n    \"<BS>\" \"edit.backspace\"\n    \"<Del>\" \"edit.delete_forward\"\n    \"<Enter>\" \"edit.newline\"\n    \"<C-s>\" \"buffer.save\"\n    \"<Left>\" \"cursor.left\"\n    \"<Down>\" \"cursor.down\"\n    \"<Up>\" \"cursor.up\"\n    \"<Right>\" \"cursor.right\"\n    \"<Home>\" \"cursor.line_start\"\n    \"<End>\" \"cursor.line_end\"\n}\n\nkeymap \"command\" {\n    \"<Esc>\" \"mode.normal\"\n}\n";

/// The name under which the built-in configuration is reported.
pub const DEFAULT_SOURCE: &'static str = "nib.default.kdl";

/// Whether a result reports exactly the fault `f` (and success where there is none).
pub open spec fn reports(r: Result<(), ConfigError>, f: Option<ConfigFault>) -> bool {
    match r {
        Ok(_) => f is None,
        Err(e) => f == Some(e@),
    }
}

/// The first string argument of a node, if any.
fn first_string_opt(node: &ConfigNode) -> (r: Option<&str>)
    ensures
        match r {
            Some(s) => first_string(node.entries@) == Some(s@),
            None => first_string(node.entries@) is None,
        },
{
    let ghost es = node.entries@;
    let mut i: usize = 0;
    assert(es.skip(0) == es);
    while i < node.entries.len()
        invariant
            es == node.entries@,
            i <= es.len(),
            first_string(es) == first_string(es.skip(i as int)),
        decreases es.len() - i,
    {
        assert(es.skip(i as int)[0] == es[i as int]);
        assert(es.skip(i as int).drop_first() == es.skip(i + 1));
        match &node.entries[i] {
            EntryValue::Str(s) => {
                return Some(s.as_str());
            },
            _ => {},
        }
        i = i + 1;
    }
    assert(es.skip(i as int) =~= Seq::<EntryValue>::empty());
    None
}

/// The first string argument of a node, which it must have.
fn first_string_of(node: &ConfigNode) -> (r: Result<&str, ConfigError>)
    ensures
        match r {
            Ok(s) => first_string(node.entries@) == Some(s@),
            Err(e) => first_string(node.entries@) is None && e@ == ConfigFault::MissingString(node.name@),
        },
{
    match first_string_opt(node) {
        Some(s) => Ok(s),
        None => Err(ConfigError::MissingString(node.name.clone())),
    }
}

/// The first integer argument of a node, which it must have.
fn first_int_of(node: &ConfigNode) -> (r: Result<i128, ConfigError>)
    ensures
        match r {
            Ok(n) => first_int(node.entries@) == Some(n),
            Err(e) => first_int(node.entries@) is None && e@ == ConfigFault::MissingInt(node.name@),
        },
{
    let ghost es = node.entries@;
    let mut i: usize = 0;
    assert(es.skip(0) == es);
    while i < node.entries.len()
        invariant
            es == node.entries@,
            i <= es.len(),
            first_int(es) == first_int(es.skip(i as int)),
        decreases es.len() - i,
    {
        assert(es.skip(i as int)[0] == es[i as int]);
        assert(es.skip(i as int).drop_first() == es.skip(i + 1));
        match &node.entries[i] {
            EntryValue::Int(n) => {
                return Ok(*n);
            },
            _ => {},
        }
        i = i + 1;
    }
    assert(es.skip(i as int) =~= Seq::<EntryValue>::empty());
    Err(ConfigError::MissingInt(node.name.clone()))
}

/// The first boolean argument of a node, which it must have.
fn first_bool_of(node: &ConfigNode) -> (r: Result<bool, ConfigError>)
    ensures
        match r {
            Ok(b) => first_bool(node.entries@) == Some(b),
            Err(e) => first_bool(node.entries@) is None && e@ == ConfigFault::MissingBool(node.name@),
        },
{
    let ghost es = node.entries@;
    let mut i: usize = 0;
    assert(es.skip(0) == es);
    while i < node.entries.len()
        invariant
            es == node.entries@,
            i <= es.len(),
            first_bool(es) == first_bool(es.skip(i as int)),
        decreases es.len() - i,
    {
        assert(es.skip(i as int)[0] == es[i as int]);
        assert(es.skip(i as int).drop_first() == es.skip(i + 1));
        match &node.entries[i] {
            EntryValue::Bool(b) => {
                return Ok(*b);
            },
            _ => {},
        }
        i = i + 1;
    }
    assert(es.skip(i as int) =~= Seq::<EntryValue>::empty());
    Err(ConfigError::MissingBool(node.name.clone()))
}

/// Walk a keymap block below the chord sequence `prefix`, binding into `km` (see
/// [`walk_fold`]). On success `prefix` is as it was.
fn walk_keymap_block(km: &mut KeyMap, prefix: &mut Vec<KeyChord>, block: &Vec<ConfigNode>) -> (r: Result<(), ConfigError>)
    ensures
        final(km)@ == walk_fold(old(km)@, old(prefix)@, block@).0,
        reports(r, walk_fold(old(km)@, old(prefix)@, block@).1),
        r is Ok ==> final(prefix)@ == old(prefix)@,
    decreases block@,
{
    let ghost p0 = prefix@;
    let ghost nodes = block@;
    let mut i: usize = 0;
    assert(nodes.skip(0) == nodes);
    while i < block.len()
        invariant
            nodes == block@,
            prefix@ == p0,
            p0 == old(prefix)@,
            i <= nodes.len(),
            walk_fold(old(km)@, p0, nodes) == walk_fold(km@, p0, nodes.skip(i as int)),
        decreases nodes.len() - i,
    {
        let node = &block[i];
        let ghost rest = nodes.skip(i as int);
        assert(rest[0] == *node);
        assert(rest.drop_first() == nodes.skip(i + 1));
        let chord = match KeyChord::parse(node.name.as_str()) {
            Ok(c) => c,
            Err(e) => {
                let name = node.name.clone();
                assert(walk_fold(km@, p0, rest) == (km@, Some(ConfigFault::BadChord(node.name@, e@))));
                return Err(ConfigError::BadChord(name, e));
            },
        };
        prefix.push(chord);
        let ghost p = prefix@;
        assert(p == p0.push(chord));
        match &node.children {
            Some(children) => {
                proof {
                    assert(decreases_to!(block@ => block@[i as int]));
                }
                match walk_keymap_block(km, prefix, children) {
                    Ok(()) => {},
                    Err(e) => {
                        return Err(e);
                    },
                }
            },
            None => match first_string_opt(node) {
                Some(cmd) => {
                    km.bind(prefix.as_slice(), cmd);
                },
                None => {
                    return Err(ConfigError::LeafWithoutCommand(node.name.clone()));
                },
            },
        }
        prefix.pop();
        assert(prefix@ =~= p0);
        i = i + 1;
    }
    assert(nodes.skip(i as int) =~= Seq::<ConfigNode>::empty());
    Ok(())
}

impl Default for Config {
    fn default() -> (c: Config)
        ensures
            c.model() == default_model(),
    {
        Config {
            theme: Theme::default(),
            behavior: Behavior::default(),
            keymaps: ModeKeymaps { normal: KeyMap::new(), insert: KeyMap::new(), command: KeyMap::new() },
        }
    }
}

impl Config {
    /// Apply a `theme` block.
    fn apply_theme(&mut self, node: &ConfigNode) -> (r: Result<(), ConfigError>)
        ensures
            match node.children {
                None => final(self).model() == old(self).model() && r is Ok,
                Some(ch) => final(self).model() == (ConfigModel {
                    theme: theme_fold(old(self).theme, ch@).0,
                    ..old(self).model()
                }) && reports(r, theme_fold(old(self).theme, ch@).1),
            },
    {
        let children = match &node.children {
            Some(c) => c,
            None => {
                return Ok(());
            },
        };
        let ghost cs = children@;
        let mut i: usize = 0;
        assert(cs.skip(0) == cs);
        while i < children.len()
            invariant
                cs == children@,
                node.children == Some(*children),
                i <= cs.len(),
                self.behavior == old(self).behavior,
                self.keymaps == old(self).keymaps,
                theme_fold(old(self).theme, cs) == theme_fold(self.theme, cs.skip(i as int)),
            decreases cs.len() - i,
        {
            let child = &children[i];
            let ghost rest = cs.skip(i as int);
            assert(rest[0] == *child);
            assert(rest.drop_first() == cs.skip(i + 1));
            let value = first_string_of(child)?;
            let color = match parse_color(value) {
                Ok(c) => c,
                Err(e) => {
                    return Err(ConfigError::BadColor(child.name.clone(), e));
                },
            };
            let key = child.name.as_str();
            if str_eq(key, "foreground") {
                self.theme.foreground = color;
            } else if str_eq(key, "background") {
                self.theme.background = color;
            } else if str_eq(key, "status_fg") {
                self.theme.status_fg = color;
            } else if str_eq(key, "status_bg") {
                self.theme.status_bg = color;
            } else if str_eq(key, "cmdline_fg") {
                self.theme.cmdline_fg = color;
            } else if str_eq(key, "cmdline_bg") {
                self.theme.cmdline_bg = color;
            } else {
                return Err(ConfigError::UnknownThemeKey(child.name.clone()));
            }
            i = i + 1;
        }
        assert(cs.skip(i as int) =~= Seq::<ConfigNode>::empty());
        Ok(())
    }

    /// Apply a `behavior` block.
    fn apply_behavior(&mut self, node: &ConfigNode) -> (r: Result<(), ConfigError>)
        ensures
            match node.children {
                None => final(self).model() == old(self).model() && r is Ok,
                Some(ch) => final(self).model() == (ConfigModel {
                    behavior: behavior_fold(old(self).behavior, ch@).0,
                    ..old(self).model()
                }) && reports(r, behavior_fold(old(self).behavior, ch@).1),
            },
    {
        let children = match &node.children {
            Some(c) => c,
            None => {
                return Ok(());
            },
        };
        let ghost cs = children@;
        let mut i: usize = 0;
        assert(cs.skip(0) == cs);
        while i < children.len()
            invariant
                cs == children@,
                node.children == Some(*children),
                i <= cs.len(),
                self.theme == old(self).theme,
                self.keymaps == old(self).keymaps,
                behavior_fold(old(self).behavior, cs) == behavior_fold(self.behavior, cs.skip(i as int)),
            decreases cs.len() - i,
        {
            let child = &children[i];
            let ghost rest = cs.skip(i as int);
            assert(rest[0] == *child);
            assert(rest.drop_first() == cs.skip(i + 1));
            let key = child.name.as_str();
            if str_eq(key, "tab_width") {
                let n = first_int_of(child)?;
                if 0 <= n && n <= 0xffff {
                    self.behavior.tab_width = n as u16;
                } else {
                    return Err(ConfigError::TabWidthOutOfRange);
                }
            } else if str_eq(key, "line_numbers") {
                self.behavior.line_numbers = first_bool_of(child)?;
            } else if str_eq(key, "chord_timeout_ms") {
                let n = first_int_of(child)?;
                if 0 <= n && n <= 0xffff {
                    self.behavior.chord_timeout_ms = n as u16;
                } else {
                    return Err(ConfigError::ChordTimeoutOutOfRange);
                }
            } else {
                return Err(ConfigError::UnknownBehaviorKey(child.name.clone()));
            }
            i = i + 1;
        }
        assert(cs.skip(i as int) =~= Seq::<ConfigNode>::empty());
        Ok(())
    }

    /// Apply a `keymap "<mode>"` block to the keymap of that mode.
    fn apply_keymap(&mut self, node: &ConfigNode) -> (r: Result<(), ConfigError>)
        requires
            node.name@ == "keymap"@,
        ensures
            ({
                let e = node_effect(old(self).model(), *node, Seq::empty());
                final(self).model() == e.0 && reports(r, e.1)
            }),
    {
        proof {
            reveal_strlit("keymap");
            reveal_strlit("theme");
            reveal_strlit("behavior");
            assert("keymap"@[0] != "theme"@[0]);
            assert("keymap"@[0] != "behavior"@[0]);
        }
        let mode_name = first_string_of(node)?;
        let mode = match Mode::from_str(mode_name) {
            Ok(m) => m,
            Err(_) => {
                return Err(ConfigError::UnknownMode(mode_name.to_owned()));
            },
        };
        match &node.children {
            None => Ok(()),
            Some(children) => {
                let mut prefix: Vec<KeyChord> = Vec::new();
                match mode {
                    Mode::Normal => walk_keymap_block(&mut self.keymaps.normal, &mut prefix, children),
                    Mode::Insert => walk_keymap_block(&mut self.keymaps.insert, &mut prefix, children),
                    Mode::Command => walk_keymap_block(&mut self.keymaps.command, &mut prefix, children),
                }
            },
        }
    }

    /// Apply the configuration text `text`, read from `source`, on top of this
    /// configuration (see [`applied`]). A text that is no KDL document changes nothing;
    /// otherwise the top-level nodes apply in order until one is refused, the ones
    /// before it staying applied.
    pub fn apply_kdl(&mut self, text: &str, source: &str) -> (r: Result<(), ConfigError>)
        ensures
            final(self).model() == applied(old(self).model(), text@, source@).0,
            reports(r, applied(old(self).model(), text@, source@).1),
    {
        let nodes = match parse_kdl(text) {
            Ok(n) => n,
            Err(message) => {
                return Err(ConfigError::Parse { source: source.to_owned(), message });
            },
        };
        let ghost ns = nodes@;
        let mut i: usize = 0;
        assert(ns.skip(0) == ns);
        while i < nodes.len()
            invariant
                ns == nodes@,
                kdl_document(text@) == Ok::<Seq<ConfigNode>, Seq<char>>(ns),
                i <= ns.len(),
                doc_fold(old(self).model(), ns, source@) == doc_fold(self.model(), ns.skip(i as int), source@),
            decreases ns.len() - i,
        {
            let node = &nodes[i];
            let ghost rest = ns.skip(i as int);
            assert(rest[0] == *node);
            assert(rest.drop_first() == ns.skip(i + 1));
            let name = node.name.as_str();
            let ghost before = self.model();
            if str_eq(name, "theme") {
                self.apply_theme(node)?;
            } else if str_eq(name, "behavior") {
                self.apply_behavior(node)?;
            } else if str_eq(name, "keymap") {
                self.apply_keymap(node)?;
            } else {
                return Err(ConfigError::UnknownTopLevel { source: source.to_owned(), name: node.name.clone() });
            }
            i = i + 1;
        }
        assert(ns.skip(i as int) =~= Seq::<ConfigNode>::empty());
        Ok(())
    }
}

/// The configuration built into the editor: the defaults with [`DEFAULT_CONFIG`]
/// applied, and the fault if that text is refused.
pub open spec fn builtin_model() -> (ConfigModel, Option<ConfigFault>) {
    applied(default_model(), DEFAULT_CONFIG@, DEFAULT_SOURCE@)
}

impl Config {
    /// The built-in configuration: the defaults with [`DEFAULT_CONFIG`] applied. An
    /// error here is a fault of the build, not of the user.
    pub fn builtin() -> (r: Result<Config, ConfigError>)
        ensures
            match r {
                Ok(c) => builtin_model().1 is None && c.model() == builtin_model().0,
                Err(e) => builtin_model().1 == Some(e@),
            },
    {
        let mut cfg = Config::default();
        match cfg.apply_kdl(DEFAULT_CONFIG, DEFAULT_SOURCE) {
            Ok(()) => Ok(cfg),
            Err(e) => Err(e),
        }
    }

    /// The built-in configuration with a user's configuration text (and its source's
    /// name) layered on top. The user text is applied to a fresh copy, so that a
    /// refusal halfway through leaves nothing half-applied: a refused user text gives
    /// the built-in configuration and the error to report. `Err` only where the
    /// built-in text itself is refused.
    pub fn load_layered(user: Option<(&str, &str)>) -> (r: Result<(Config, Option<ConfigError>), ConfigError>)
        ensures
            match r {
                Err(e) => builtin_model().1 == Some(e@),
                Ok((c, warning)) => builtin_model().1 is None && match user {
                    None => c.model() == builtin_model().0 && warning is None,
                    Some((text, source)) => {
                        let staged = applied(builtin_model().0, text@, source@);
                        match staged.1 {
                            None => c.model() == staged.0 && warning is None,
                            Some(f) => c.model() == builtin_model().0 && (warning matches Some(w) && w@ == f),
                        }
                    },
                },
            },
    {
        let cfg = Config::builtin()?;
        match user {
            None => Ok((cfg, None)),
            Some((text, source)) => {
                let mut staged = Config::builtin()?;
                match staged.apply_kdl(text, source) {
                    Ok(()) => Ok((staged, None)),
                    Err(e) => Ok((cfg, Some(e))),
                }
            },
        }
    }
}

} // verus!
