//! Key events: the typed [`Key`] and [`KeyMod`] values, and the decoding of the
//! control bytes, CSI and SS3 sequences that a terminal parser hands over.
use vstd::prelude::*;

verus! {

/// A key, as the editor sees it.
#[derive(Debug, Clone, Copy, PartialEq, Eq, Hash, Structural)]
pub enum Key {
    Char(char),
    Enter,
    Tab,
    BackTab,
    Backspace,
    Delete,
    Escape,
    Up,
    Down,
    Left,
    Right,
    Home,
    End,
    PageUp,
    PageDown,
    Insert,
    Function(u8),
    PasteStart,
    PasteEnd,
}

/// Bit set of held modifier keys: shift is bit 0, alt bit 1, ctrl bit 2.
#[derive(Debug, Clone, Copy, PartialEq, Eq, Hash, Structural)]
pub struct KeyMod {
    pub bits: u8,
}

impl KeyMod {
    /// Shift alone.
    pub fn shift() -> (m: KeyMod)
        ensures
            m.bits == 1,
    {
        KeyMod { bits: 1 }
    }

    /// Alt (meta) alone.
    pub fn alt() -> (m: KeyMod)
        ensures
            m.bits == 2,
    {
        KeyMod { bits: 2 }
    }

    /// Ctrl alone.
    pub fn ctrl() -> (m: KeyMod)
        ensures
            m.bits == 4,
    {
        KeyMod { bits: 4 }
    }

    /// No modifier held.
    pub fn empty() -> (m: KeyMod)
        ensures
            m.bits == 0,
    {
        KeyMod { bits: 0 }
    }

    /// Whether no modifier is held.
    pub fn is_empty(self) -> (b: bool)
        ensures
            b == (self.bits == 0),
    {
        self.bits == 0
    }

    /// The modifiers held in either set.
    pub fn union(self, other: KeyMod) -> (m: KeyMod)
        ensures
            m.bits == self.bits | other.bits,
    {
        KeyMod { bits: self.bits | other.bits }
    }

    /// Whether every modifier of `other` is held in `self`.
    pub fn contains(self, other: KeyMod) -> (b: bool)
        ensures
            b == (self.bits & other.bits == other.bits),
    {
        self.bits & other.bits == other.bits
    }
}

/// The modifier bits that an xterm CSI modifier parameter `raw` (`1;5` style: one plus
/// the bit set) stands for; bits above ctrl are dropped.
pub open spec fn csi_modifier_bits(raw: u32) -> u8 {
    (if raw == 0 { 0u32 } else { (raw - 1) as u32 }) as u8 & 7u8
}

/// Decode the `1;5` style of CSI modifier parameter (xterm convention).
pub fn decode_csi_modifier(raw: u32) -> (m: KeyMod)
    ensures
        m.bits == csi_modifier_bits(raw),
{
    let bits: u8 = raw.saturating_sub(1) as u8;
    let mut m = KeyMod::empty();
    if bits & 0b001 != 0 {
        m = m.union(KeyMod::shift());
    }
    let ghost m1 = m.bits;
    if bits & 0b010 != 0 {
        m = m.union(KeyMod::alt());
    }
    let ghost m2 = m.bits;
    if bits & 0b100 != 0 {
        m = m.union(KeyMod::ctrl());
    }
    let ghost m3 = m.bits;
    assert(m3 == bits & 7u8) by (bit_vector)
        requires
            m1 == (if bits & 1u8 != 0 { 0u8 | 1u8 } else { 0u8 }),
            m2 == (if bits & 2u8 != 0 { m1 | 2u8 } else { m1 }),
            m3 == (if bits & 4u8 != 0 { m2 | 4u8 } else { m2 }),
    ;
    m
}

/// The key and modifiers that a C0 control byte (or any other byte that the parser
/// executes rather than prints) stands for.
pub open spec fn c0_key(byte: u8) -> (Key, KeyMod) {
    if byte == 0x0d || byte == 0x0a {
        (Key::Enter, KeyMod { bits: 0 })
    } else if byte == 0x09 {
        (Key::Tab, KeyMod { bits: 0 })
    } else if byte == 0x7f || byte == 0x08 {
        (Key::Backspace, KeyMod { bits: 0 })
    } else if byte == 0x1b {
        (Key::Escape, KeyMod { bits: 0 })
    } else if 0x01 <= byte <= 0x1a {
        (Key::Char(((byte + 0x60) as u8) as char), KeyMod { bits: 4 })
    } else {
        (Key::Char(byte as char), KeyMod { bits: 0 })
    }
}

/// Translate a raw control byte (C0) into a [`Key`] and modifier set: Ctrl plus a
/// letter arrives as 0x01..=0x1A and comes back as that lower-case letter with ctrl.
pub fn from_c0(byte: u8) -> (r: (Key, KeyMod))
    ensures
        r == c0_key(byte),
{
    match byte {
        0x0d | 0x0a => (Key::Enter, KeyMod::empty()),
        0x09 => (Key::Tab, KeyMod::empty()),
        0x7f | 0x08 => (Key::Backspace, KeyMod::empty()),
        0x1b => (Key::Escape, KeyMod::empty()),
        0x01..=0x1a => (Key::Char((byte + 0x60) as char), KeyMod::ctrl()),
        other => (Key::Char(other as char), KeyMod::empty()),
    }
}

/// The key that a CSI sequence with final byte `action` and first parameter `first`
/// stands for, if any (arrows, Home/End, BackTab, the `~` family of editing and
/// function keys, bracketed-paste markers).
pub open spec fn csi_key(first: Option<u16>, action: char) -> Option<Key> {
    if action == 'A' {
        Some(Key::Up)
    } else if action == 'B' {
        Some(Key::Down)
    } else if action == 'C' {
        Some(Key::Right)
    } else if action == 'D' {
        Some(Key::Left)
    } else if action == 'H' {
        Some(Key::Home)
    } else if action == 'F' {
        Some(Key::End)
    } else if action == 'Z' {
        Some(Key::BackTab)
    } else if action == '~' {
        match first {
            Some(n) => tilde_key(n),
            None => None,
        }
    } else {
        None
    }
}

/// The key of a `CSI n ~` sequence.
pub open spec fn tilde_key(n: u16) -> Option<Key> {
    if n == 1 || n == 7 {
        Some(Key::Home)
    } else if n == 2 {
        Some(Key::Insert)
    } else if n == 3 {
        Some(Key::Delete)
    } else if n == 4 || n == 8 {
        Some(Key::End)
    } else if n == 5 {
        Some(Key::PageUp)
    } else if n == 6 {
        Some(Key::PageDown)
    } else if 11 <= n <= 15 {
        Some(Key::Function((n - 10) as u8))
    } else if 17 <= n <= 21 {
        Some(Key::Function((n - 11) as u8))
    } else if 23 <= n <= 24 {
        Some(Key::Function((n - 12) as u8))
    } else if n == 200 {
        Some(Key::PasteStart)
    } else if n == 201 {
        Some(Key::PasteEnd)
    } else {
        None
    }
}

/// The key of an escape sequence `ESC byte` whose byte names a cursor or function key
/// directly (arrows, Home/End, F1..F4).
pub open spec fn esc_key(byte: u8) -> Option<Key> {
    if byte == 0x41 {
        Some(Key::Up)
    } else if byte == 0x42 {
        Some(Key::Down)
    } else if byte == 0x43 {
        Some(Key::Right)
    } else if byte == 0x44 {
        Some(Key::Left)
    } else if byte == 0x48 {
        Some(Key::Home)
    } else if byte == 0x46 {
        Some(Key::End)
    } else if 0x50 <= byte <= 0x53 {
        Some(Key::Function((byte - 0x4f) as u8))
    } else {
        None
    }
}

/// Whether a read from the terminal holds the escape byte and nothing else: a bare Esc
/// key press, which the caller hands over as [`Key::Escape`] instead of leaving the
/// parser waiting for the rest of an escape sequence that never comes.
pub fn lone_escape(read: &[u8]) -> (b: bool)
    ensures
        b == (read@ == seq![0x1bu8]),
{
    let b = read.len() == 1 && read[0] == 0x1b;
    proof {
        if read@.len() == 1 && read@[0] == 0x1b {
            assert(read@ =~= seq![0x1bu8]);
        }
    }
    b
}

/// The key that the final character of an SS3 sequence (`ESC O` and one character)
/// stands for: the arrows, Home and End, and F1..F4.
pub open spec fn ss3_key(c: char) -> Option<Key> {
    if c == 'A' {
        Some(Key::Up)
    } else if c == 'B' {
        Some(Key::Down)
    } else if c == 'C' {
        Some(Key::Right)
    } else if c == 'D' {
        Some(Key::Left)
    } else if c == 'H' {
        Some(Key::Home)
    } else if c == 'F' {
        Some(Key::End)
    } else if c == 'P' {
        Some(Key::Function(1))
    } else if c == 'Q' {
        Some(Key::Function(2))
    } else if c == 'R' {
        Some(Key::Function(3))
    } else if c == 'S' {
        Some(Key::Function(4))
    } else {
        None
    }
}

/// The key of an SS3 final character (see [`ss3_key`]).
fn ss3_key_of(c: char) -> (k: Option<Key>)
    ensures
        k == ss3_key(c),
{
    match c {
        'A' => Some(Key::Up),
        'B' => Some(Key::Down),
        'C' => Some(Key::Right),
        'D' => Some(Key::Left),
        'H' => Some(Key::Home),
        'F' => Some(Key::End),
        'P' => Some(Key::Function(1)),
        'Q' => Some(Key::Function(2)),
        'R' => Some(Key::Function(3)),
        'S' => Some(Key::Function(4)),
        _ => None,
    }
}

/// Collects the key events that a terminal parser reports, in arrival order.
///
/// A terminal sends the arrows, Home, End and F1..F4 in application mode as SS3
/// sequences: `ESC O` followed by one character. The parser reports `ESC O` as an
/// escape sequence of its own and the character after it as printed text, so the sink
/// remembers in `ss3` that `ESC O` was the last thing reported.
#[derive(Debug)]
pub struct EventSink {
    pub events: Vec<(Key, KeyMod)>,
    pub ss3: bool,
}

impl EventSink {
    /// A sink holding no events.
    pub fn new() -> (s: EventSink)
        ensures
            s.events@ == Seq::<(Key, KeyMod)>::empty(),
            !s.ss3,
    {
        EventSink { events: Vec::new(), ss3: false }
    }

    /// A printable character arrived. Right after `ESC O`, a final character of an
    /// SS3 sequence is its key (see [`ss3_key`]); any other character is that
    /// character. Either way with no modifier.
    pub fn print(&mut self, c: char)
        ensures
            final(self).events@ == old(self).events@.push(
                (
                    if old(self).ss3 && ss3_key(c) is Some {
                        ss3_key(c)->0
                    } else {
                        Key::Char(c)
                    },
                    KeyMod { bits: 0 },
                ),
            ),
            !final(self).ss3,
    {
        let key = if self.ss3 {
            match ss3_key_of(c) {
                Some(k) => k,
                None => Key::Char(c),
            }
        } else {
            Key::Char(c)
        };
        self.ss3 = false;
        self.events.push((key, KeyMod::empty()));
    }

    /// A control byte arrived: it is decoded by [`from_c0`].
    pub fn execute(&mut self, byte: u8)
        ensures
            final(self).events@ == old(self).events@.push(c0_key(byte)),
            !final(self).ss3,
    {
        self.ss3 = false;
        self.events.push(from_c0(byte));
    }

    /// A CSI sequence arrived, with its first two parameters' first values and its
    /// final character. A recognized key is recorded with the modifiers of the second
    /// parameter (1, meaning none, where it is absent); anything else is dropped.
    pub fn csi_dispatch(&mut self, first: Option<u16>, second: Option<u16>, action: char)
        ensures
            match csi_key(first, action) {
                Some(k) => final(self).events@ == old(self).events@.push(
                    (
                        k,
                        KeyMod {
                            bits: csi_modifier_bits(
                                match second {
                                    Some(p) => p as u32,
                                    None => 1u32,
                                },
                            ),
                        },
                    ),
                ),
                None => final(self).events@ == old(self).events@,
            },
            !final(self).ss3,
    {
        self.ss3 = false;
        let raw: u32 = match second {
            Some(p) => p as u32,
            None => 1u32,
        };
        let modifier = decode_csi_modifier(raw);
        let key: Option<Key> = match action {
            'A' => Some(Key::Up),
            'B' => Some(Key::Down),
            'C' => Some(Key::Right),
            'D' => Some(Key::Left),
            'H' => Some(Key::Home),
            'F' => Some(Key::End),
            'Z' => Some(Key::BackTab),
            '~' => match first {
                Some(1) | Some(7) => Some(Key::Home),
                Some(2) => Some(Key::Insert),
                Some(3) => Some(Key::Delete),
                Some(4) | Some(8) => Some(Key::End),
                Some(5) => Some(Key::PageUp),
                Some(6) => Some(Key::PageDown),
                Some(11) => Some(Key::Function(1)),
                Some(12) => Some(Key::Function(2)),
                Some(13) => Some(Key::Function(3)),
                Some(14) => Some(Key::Function(4)),
                Some(15) => Some(Key::Function(5)),
                Some(n) if 17 <= n && n <= 21 => Some(Key::Function(n as u8 - 11)),
                Some(n) if 23 <= n && n <= 24 => Some(Key::Function(n as u8 - 12)),
                Some(200) => Some(Key::PasteStart),
                Some(201) => Some(Key::PasteEnd),
                _ => None,
            },
            _ => None,
        };
        if let Some(k) = key {
            self.events.push((k, modifier));
        }
    }

    /// An escape sequence `ESC byte` arrived. `ESC O` opens an SS3 sequence, whose
    /// key comes with the next printed character; otherwise a recognized key is
    /// recorded with no modifier.
    pub fn esc_dispatch(&mut self, byte: u8)
        ensures
            final(self).ss3 == (byte == 0x4f),
            byte == 0x4f ==> final(self).events@ == old(self).events@,
            byte != 0x4f ==> match esc_key(byte) {
                Some(k) => final(self).events@ == old(self).events@.push((k, KeyMod { bits: 0 })),
                None => final(self).events@ == old(self).events@,
            },
    {
        if byte == 0x4f {
            self.ss3 = true;
            return;
        }
        self.ss3 = false;
        let key: Option<Key> = match byte {
            0x41 => Some(Key::Up),
            0x42 => Some(Key::Down),
            0x43 => Some(Key::Right),
            0x44 => Some(Key::Left),
            0x48 => Some(Key::Home),
            0x46 => Some(Key::End),
            0x50 => Some(Key::Function(1)),
            0x51 => Some(Key::Function(2)),
            0x52 => Some(Key::Function(3)),
            0x53 => Some(Key::Function(4)),
            _ => None,
        };
        if let Some(k) = key {
            self.events.push((k, KeyMod::empty()));
        }
    }

    /// Hand out the events collected so far, leaving the sink empty. An SS3 sequence
    /// under way stays under way: the rest of it may come with the next read.
    pub fn take_events(&mut self) -> (evs: Vec<(Key, KeyMod)>)
        ensures
            evs@ == old(self).events@,
            final(self).events@ == Seq::<(Key, KeyMod)>::empty(),
            final(self).ss3 == old(self).ss3,
    {
        let mut out: Vec<(Key, KeyMod)> = Vec::new();
        std::mem::swap(&mut out, &mut self.events);
        out
    }
}

} // verus!
