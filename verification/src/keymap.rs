//! Keymap: from a sequence of [`Key`] + [`KeyMod`] events to a named command.
//!
//! Each mode owns an independent trie. A node holds an optional command and its
//! children by chord; chord sequences like `gg`, `ge` or `<Space>ff` need no special
//! casing.
//!
//! The string form read by [`KeyChord::parse`] is what users write in their config:
//! `h`, `<Esc>`, `<C-x>`, `<C-S-Tab>`, `<Space>`, `<F5>`.
use vstd::prelude::*;

use crate::term::input::{Key, KeyMod};
use crate::text::{chars_eq_str, chars_of, parse_u8, parse_u8_radix, split_chars, split_on, string_of};

verus! {

/// One key press together with the modifiers held.
#[derive(Debug, Clone, Copy, PartialEq, Eq, Hash, Structural)]
pub struct KeyChord {
    pub key: Key,
    pub mods: KeyMod,
}

/// Why a chord's text was refused, as a value of the specification.
pub enum ChordFault {
    /// Neither a single character nor a `<...>` form.
    Invalid,
    /// More than one key name between the angle brackets.
    MultipleKeys,
    /// Only modifiers between the angle brackets.
    NoKey,
    /// An `F` name whose number is no `u8`.
    BadFunctionKey(Seq<char>),
    /// A key name that names no key.
    UnknownKey(Seq<char>),
}

/// Why a chord's text was refused.
#[derive(Debug, Clone)]
pub enum ChordError {
    Invalid,
    MultipleKeys,
    NoKey,
    BadFunctionKey(String),
    UnknownKey(String),
}

impl View for ChordError {
    type V = ChordFault;

    open spec fn view(&self) -> ChordFault {
        match self {
            ChordError::Invalid => ChordFault::Invalid,
            ChordError::MultipleKeys => ChordFault::MultipleKeys,
            ChordError::NoKey => ChordFault::NoKey,
            ChordError::BadFunctionKey(s) => ChordFault::BadFunctionKey(s@),
            ChordError::UnknownKey(s) => ChordFault::UnknownKey(s@),
        }
    }
}

/// The modifier bit that a part between dashes names (`C`, `S`, `A` or `M`), or 0.
pub open spec fn modifier_bit(p: Seq<char>) -> u8 {
    if p == seq!['C'] {
        4
    } else if p == seq!['S'] {
        1
    } else if p == seq!['A'] || p == seq!['M'] {
        2
    } else {
        0
    }
}

/// The modifiers and the key name that the dash-separated parts of a chord hold, in
/// order; `None` when two parts are key names.
pub open spec fn fold_parts(parts: Seq<Seq<char>>) -> Option<(u8, Option<Seq<char>>)>
    decreases parts.len(),
{
    if parts.len() == 0 {
        Some((0u8, None))
    } else {
        match fold_parts(parts.drop_last()) {
            None => None,
            Some((m, last)) => {
                let p = parts.last();
                if modifier_bit(p) != 0 {
                    Some((m | modifier_bit(p), last))
                } else if last is Some {
                    None
                } else {
                    Some((m, Some(p)))
                }
            },
        }
    }
}

/// Once two key names have been seen, no further part makes the chord valid.
proof fn lemma_fold_parts_stays_refused(parts: Seq<Seq<char>>, n: int)
    requires
        0 <= n <= parts.len(),
        fold_parts(parts.take(n)) is None,
    ensures
        fold_parts(parts) is None,
    decreases parts.len(),
{
    if n == parts.len() {
        assert(parts.take(n) == parts);
    } else {
        assert(parts.drop_last().take(n) == parts.take(n));
        lemma_fold_parts_stays_refused(parts.drop_last(), n);
    }
}

/// The key that a key name between angle brackets stands for.
pub open spec fn named_key(name: Seq<char>) -> Result<Key, ChordFault> {
    if name == "Esc"@ || name == "Escape"@ {
        Ok(Key::Escape)
    } else if name == "Enter"@ || name == "CR"@ || name == "Return"@ {
        Ok(Key::Enter)
    } else if name == "Tab"@ {
        Ok(Key::Tab)
    } else if name == "BackTab"@ {
        Ok(Key::BackTab)
    } else if name == "BS"@ || name == "Backspace"@ {
        Ok(Key::Backspace)
    } else if name == "Del"@ || name == "Delete"@ {
        Ok(Key::Delete)
    } else if name == "Up"@ {
        Ok(Key::Up)
    } else if name == "Down"@ {
        Ok(Key::Down)
    } else if name == "Left"@ {
        Ok(Key::Left)
    } else if name == "Right"@ {
        Ok(Key::Right)
    } else if name == "Home"@ {
        Ok(Key::Home)
    } else if name == "End"@ {
        Ok(Key::End)
    } else if name == "PageUp"@ || name == "PgUp"@ {
        Ok(Key::PageUp)
    } else if name == "PageDown"@ || name == "PgDn"@ {
        Ok(Key::PageDown)
    } else if name == "Space"@ {
        Ok(Key::Char(' '))
    } else if name == "Insert"@ {
        Ok(Key::Insert)
    } else if name.len() > 0 && name[0] == 'F' {
        match parse_u8_radix(name.drop_first(), 10) {
            Some(n) => Ok(Key::Function(n)),
            None => Err(ChordFault::BadFunctionKey(name)),
        }
    } else if name.len() == 1 {
        Ok(Key::Char(name[0]))
    } else {
        Err(ChordFault::UnknownKey(name))
    }
}

/// The chord that the text `s` stands for: a bare character other than `<` is that
/// character with no modifier; otherwise `<`, dash-separated modifiers (`C`, `S`,
/// `A`/`M`, in any order) and exactly one key name, then `>`.
pub open spec fn chord_of(s: Seq<char>) -> Result<KeyChord, ChordFault> {
    if s.len() == 1 && s[0] != '<' {
        Ok(KeyChord { key: Key::Char(s[0]), mods: KeyMod { bits: 0 } })
    } else if !(s.len() >= 2 && s[0] == '<' && s.last() == '>') {
        Err(ChordFault::Invalid)
    } else {
        match fold_parts(split_on(s.subrange(1, s.len() - 1), '-')) {
            None => Err(ChordFault::MultipleKeys),
            Some((_, None)) => Err(ChordFault::NoKey),
            Some((m, Some(name))) => match named_key(name) {
                Ok(k) => Ok(KeyChord { key: k, mods: KeyMod { bits: m } }),
                Err(e) => Err(e),
            },
        }
    }
}

/// `name` between angle brackets.
pub open spec fn angled(name: Seq<char>) -> Seq<char> {
    seq!['<'] + name + seq!['>']
}

/// Splitting text that holds no separator gives the text itself.
proof fn lemma_split_on_without_sep(s: Seq<char>, sep: char)
    requires
        !s.contains(sep),
    ensures
        split_on(s, sep) == seq![s],
    decreases s.len(),
{
    if s.len() > 0 {
        assert(!s.drop_last().contains(sep)) by {
            if s.drop_last().contains(sep) {
                let i = choose|i: int| 0 <= i < s.drop_last().len() && s.drop_last()[i] == sep;
                assert(s[i] == sep);
            }
        }
        lemma_split_on_without_sep(s.drop_last(), sep);
        assert(s.last() != sep) by {
            assert(s[s.len() - 1] == s.last());
        }
        assert(s.drop_last().push(s.last()) =~= s);
    } else {
        assert(s =~= Seq::<char>::empty());
    }
}

/// A key name that holds no dash and is no modifier, between angle brackets, is the
/// chord of that key with no modifier held (or the name's fault).
pub proof fn lemma_chord_of_plain_name(name: Seq<char>)
    requires
        !name.contains('-'),
        modifier_bit(name) == 0,
    ensures
        chord_of(angled(name)) == match named_key(name) {
            Ok(k) => Ok::<KeyChord, ChordFault>(KeyChord { key: k, mods: KeyMod { bits: 0 } }),
            Err(e) => Err::<KeyChord, ChordFault>(e),
        },
{
    let s = angled(name);
    assert(s.subrange(1, s.len() - 1) =~= name);
    lemma_split_on_without_sep(name, '-');
    let parts = seq![name];
    assert(parts.drop_last() =~= Seq::<Seq<char>>::empty());
    assert(parts.last() == name);
    assert(fold_parts(Seq::<Seq<char>>::empty()) == Some((0u8, None::<Seq<char>>)));
    assert(fold_parts(parts) == Some((0u8, Some(name))));
    assert(s[0] == '<');
    assert(s.last() == '>');
}

/// Key names of the chord syntax, each with no modifier held: `<Esc>` and `<Escape>` stand for Escape; `<Enter>`, `<CR>` and `<Return>` for Enter.
#[verifier::rlimit(50)]
pub proof fn lemma_key_names_escape_enter()
    ensures
        chord_of(angled("Esc"@)) == Ok::<KeyChord, ChordFault>(KeyChord { key: Key::Escape, mods: KeyMod { bits: 0 } }),
        chord_of(angled("Escape"@)) == Ok::<KeyChord, ChordFault>(KeyChord { key: Key::Escape, mods: KeyMod { bits: 0 } }),
        chord_of(angled("Enter"@)) == Ok::<KeyChord, ChordFault>(KeyChord { key: Key::Enter, mods: KeyMod { bits: 0 } }),
        chord_of(angled("CR"@)) == Ok::<KeyChord, ChordFault>(KeyChord { key: Key::Enter, mods: KeyMod { bits: 0 } }),
        chord_of(angled("Return"@)) == Ok::<KeyChord, ChordFault>(KeyChord { key: Key::Enter, mods: KeyMod { bits: 0 } }),
{
    assert(chord_of(angled("Esc"@)) == Ok::<KeyChord, ChordFault>(KeyChord { key: Key::Escape, mods: KeyMod { bits: 0 } })) by {
        reveal_strlit("Esc");
        lemma_chord_of_plain_name("Esc"@);
    }
    assert(chord_of(angled("Escape"@)) == Ok::<KeyChord, ChordFault>(KeyChord { key: Key::Escape, mods: KeyMod { bits: 0 } })) by {
        reveal_strlit("Esc");
        reveal_strlit("Escape");
        lemma_chord_of_plain_name("Escape"@);
    }
    assert(chord_of(angled("Enter"@)) == Ok::<KeyChord, ChordFault>(KeyChord { key: Key::Enter, mods: KeyMod { bits: 0 } })) by {
        reveal_strlit("Esc");
        reveal_strlit("Escape");
        reveal_strlit("Enter");
        lemma_chord_of_plain_name("Enter"@);
    }
    assert(chord_of(angled("CR"@)) == Ok::<KeyChord, ChordFault>(KeyChord { key: Key::Enter, mods: KeyMod { bits: 0 } })) by {
        reveal_strlit("Esc");
        reveal_strlit("Escape");
        reveal_strlit("Enter");
        reveal_strlit("CR");
        lemma_chord_of_plain_name("CR"@);
    }
    assert(chord_of(angled("Return"@)) == Ok::<KeyChord, ChordFault>(KeyChord { key: Key::Enter, mods: KeyMod { bits: 0 } })) by {
        reveal_strlit("Esc");
        reveal_strlit("Escape");
        reveal_strlit("Enter");
        reveal_strlit("CR");
        reveal_strlit("Return");
        lemma_chord_of_plain_name("Return"@);
    }
}

/// Key names of the chord syntax, each with no modifier held: `<Tab>` and `<BackTab>` stand for their keys; `<BS>` and `<Backspace>` for Backspace; `<Del>` and `<Delete>` for Delete.
#[verifier::rlimit(50)]
pub proof fn lemma_key_names_tab_backspace_delete()
    ensures
        chord_of(angled("Tab"@)) == Ok::<KeyChord, ChordFault>(KeyChord { key: Key::Tab, mods: KeyMod { bits: 0 } }),
        chord_of(angled("BackTab"@)) == Ok::<KeyChord, ChordFault>(KeyChord { key: Key::BackTab, mods: KeyMod { bits: 0 } }),
        chord_of(angled("BS"@)) == Ok::<KeyChord, ChordFault>(KeyChord { key: Key::Backspace, mods: KeyMod { bits: 0 } }),
        chord_of(angled("Backspace"@)) == Ok::<KeyChord, ChordFault>(KeyChord { key: Key::Backspace, mods: KeyMod { bits: 0 } }),
        chord_of(angled("Del"@)) == Ok::<KeyChord, ChordFault>(KeyChord { key: Key::Delete, mods: KeyMod { bits: 0 } }),
        chord_of(angled("Delete"@)) == Ok::<KeyChord, ChordFault>(KeyChord { key: Key::Delete, mods: KeyMod { bits: 0 } }),
{
    assert(chord_of(angled("Tab"@)) == Ok::<KeyChord, ChordFault>(KeyChord { key: Key::Tab, mods: KeyMod { bits: 0 } })) by {
        reveal_strlit("Esc");
        reveal_strlit("Escape");
        reveal_strlit("Enter");
        reveal_strlit("CR");
        reveal_strlit("Return");
        reveal_strlit("Tab");
        lemma_chord_of_plain_name("Tab"@);
    }
    assert(chord_of(angled("BackTab"@)) == Ok::<KeyChord, ChordFault>(KeyChord { key: Key::BackTab, mods: KeyMod { bits: 0 } })) by {
        reveal_strlit("Esc");
        reveal_strlit("Escape");
        reveal_strlit("Enter");
        reveal_strlit("CR");
        reveal_strlit("Return");
        reveal_strlit("Tab");
        reveal_strlit("BackTab");
        lemma_chord_of_plain_name("BackTab"@);
    }
    assert(chord_of(angled("BS"@)) == Ok::<KeyChord, ChordFault>(KeyChord { key: Key::Backspace, mods: KeyMod { bits: 0 } })) by {
        reveal_strlit("Esc");
        reveal_strlit("Escape");
        reveal_strlit("Enter");
        reveal_strlit("CR");
        reveal_strlit("Return");
        reveal_strlit("Tab");
        reveal_strlit("BackTab");
        reveal_strlit("BS");
        lemma_chord_of_plain_name("BS"@);
    }
    assert(chord_of(angled("Backspace"@)) == Ok::<KeyChord, ChordFault>(KeyChord { key: Key::Backspace, mods: KeyMod { bits: 0 } })) by {
        reveal_strlit("Esc");
        reveal_strlit("Escape");
        reveal_strlit("Enter");
        reveal_strlit("CR");
        reveal_strlit("Return");
        reveal_strlit("Tab");
        reveal_strlit("BackTab");
        reveal_strlit("BS");
        reveal_strlit("Backspace");
        lemma_chord_of_plain_name("Backspace"@);
    }
    assert(chord_of(angled("Del"@)) == Ok::<KeyChord, ChordFault>(KeyChord { key: Key::Delete, mods: KeyMod { bits: 0 } })) by {
        reveal_strlit("Esc");
        reveal_strlit("Escape");
        reveal_strlit("Enter");
        reveal_strlit("CR");
        reveal_strlit("Return");
        reveal_strlit("Tab");
        reveal_strlit("BackTab");
        reveal_strlit("BS");
        reveal_strlit("Backspace");
        reveal_strlit("Del");
        lemma_chord_of_plain_name("Del"@);
    }
    assert(chord_of(angled("Delete"@)) == Ok::<KeyChord, ChordFault>(KeyChord { key: Key::Delete, mods: KeyMod { bits: 0 } })) by {
        reveal_strlit("Esc");
        reveal_strlit("Escape");
        reveal_strlit("Enter");
        reveal_strlit("CR");
        reveal_strlit("Return");
        reveal_strlit("Tab");
        reveal_strlit("BackTab");
        reveal_strlit("BS");
        reveal_strlit("Backspace");
        reveal_strlit("Del");
        reveal_strlit("Delete");
        lemma_chord_of_plain_name("Delete"@);
    }
}

/// Key names of the chord syntax, each with no modifier held: `<Up>`, `<Down>`, `<Left>`, `<Right>`, `<Home>` and `<End>` stand for their keys.
#[verifier::rlimit(50)]
pub proof fn lemma_key_names_arrows_home_end()
    ensures
        chord_of(angled("Up"@)) == Ok::<KeyChord, ChordFault>(KeyChord { key: Key::Up, mods: KeyMod { bits: 0 } }),
        chord_of(angled("Down"@)) == Ok::<KeyChord, ChordFault>(KeyChord { key: Key::Down, mods: KeyMod { bits: 0 } }),
        chord_of(angled("Left"@)) == Ok::<KeyChord, ChordFault>(KeyChord { key: Key::Left, mods: KeyMod { bits: 0 } }),
        chord_of(angled("Right"@)) == Ok::<KeyChord, ChordFault>(KeyChord { key: Key::Right, mods: KeyMod { bits: 0 } }),
        chord_of(angled("Home"@)) == Ok::<KeyChord, ChordFault>(KeyChord { key: Key::Home, mods: KeyMod { bits: 0 } }),
        chord_of(angled("End"@)) == Ok::<KeyChord, ChordFault>(KeyChord { key: Key::End, mods: KeyMod { bits: 0 } }),
{
    assert(chord_of(angled("Up"@)) == Ok::<KeyChord, ChordFault>(KeyChord { key: Key::Up, mods: KeyMod { bits: 0 } })) by {
        reveal_strlit("Esc");
        reveal_strlit("Escape");
        reveal_strlit("Enter");
        reveal_strlit("CR");
        reveal_strlit("Return");
        reveal_strlit("Tab");
        reveal_strlit("BackTab");
        reveal_strlit("BS");
        reveal_strlit("Backspace");
        reveal_strlit("Del");
        reveal_strlit("Delete");
        reveal_strlit("Up");
        lemma_chord_of_plain_name("Up"@);
    }
    assert(chord_of(angled("Down"@)) == Ok::<KeyChord, ChordFault>(KeyChord { key: Key::Down, mods: KeyMod { bits: 0 } })) by {
        reveal_strlit("Esc");
        reveal_strlit("Escape");
        reveal_strlit("Enter");
        reveal_strlit("CR");
        reveal_strlit("Return");
        reveal_strlit("Tab");
        reveal_strlit("BackTab");
        reveal_strlit("BS");
        reveal_strlit("Backspace");
        reveal_strlit("Del");
        reveal_strlit("Delete");
        reveal_strlit("Up");
        reveal_strlit("Down");
        lemma_chord_of_plain_name("Down"@);
    }
    assert(chord_of(angled("Left"@)) == Ok::<KeyChord, ChordFault>(KeyChord { key: Key::Left, mods: KeyMod { bits: 0 } })) by {
        reveal_strlit("Esc");
        reveal_strlit("Escape");
        reveal_strlit("Enter");
        reveal_strlit("CR");
        reveal_strlit("Return");
        reveal_strlit("Tab");
        reveal_strlit("BackTab");
        reveal_strlit("BS");
        reveal_strlit("Backspace");
        reveal_strlit("Del");
        reveal_strlit("Delete");
        reveal_strlit("Up");
        reveal_strlit("Down");
        reveal_strlit("Left");
        lemma_chord_of_plain_name("Left"@);
    }
    assert(chord_of(angled("Right"@)) == Ok::<KeyChord, ChordFault>(KeyChord { key: Key::Right, mods: KeyMod { bits: 0 } })) by {
        reveal_strlit("Esc");
        reveal_strlit("Escape");
        reveal_strlit("Enter");
        reveal_strlit("CR");
        reveal_strlit("Return");
        reveal_strlit("Tab");
        reveal_strlit("BackTab");
        reveal_strlit("BS");
        reveal_strlit("Backspace");
        reveal_strlit("Del");
        reveal_strlit("Delete");
        reveal_strlit("Up");
        reveal_strlit("Down");
        reveal_strlit("Left");
        reveal_strlit("Right");
        lemma_chord_of_plain_name("Right"@);
    }
    assert(chord_of(angled("Home"@)) == Ok::<KeyChord, ChordFault>(KeyChord { key: Key::Home, mods: KeyMod { bits: 0 } })) by {
        reveal_strlit("Esc");
        reveal_strlit("Escape");
        reveal_strlit("Enter");
        reveal_strlit("CR");
        reveal_strlit("Return");
        reveal_strlit("Tab");
        reveal_strlit("BackTab");
        reveal_strlit("BS");
        reveal_strlit("Backspace");
        reveal_strlit("Del");
        reveal_strlit("Delete");
        reveal_strlit("Up");
        reveal_strlit("Down");
        reveal_strlit("Left");
        reveal_strlit("Right");
        reveal_strlit("Home");
        lemma_chord_of_plain_name("Home"@);
    }
    assert(chord_of(angled("End"@)) == Ok::<KeyChord, ChordFault>(KeyChord { key: Key::End, mods: KeyMod { bits: 0 } })) by {
        reveal_strlit("Esc");
        reveal_strlit("Escape");
        reveal_strlit("Enter");
        reveal_strlit("CR");
        reveal_strlit("Return");
        reveal_strlit("Tab");
        reveal_strlit("BackTab");
        reveal_strlit("BS");
        reveal_strlit("Backspace");
        reveal_strlit("Del");
        reveal_strlit("Delete");
        reveal_strlit("Up");
        reveal_strlit("Down");
        reveal_strlit("Left");
        reveal_strlit("Right");
        reveal_strlit("Home");
        reveal_strlit("End");
        lemma_chord_of_plain_name("End"@);
    }
}

/// Key names of the chord syntax, each with no modifier held: `<PageUp>`/`<PgUp>` and `<PageDown>`/`<PgDn>` stand for the page keys, `<Space>` for a space, `<Insert>` for Insert.
#[verifier::rlimit(50)]
pub proof fn lemma_key_names_pages_space_insert()
    ensures
        chord_of(angled("PageUp"@)) == Ok::<KeyChord, ChordFault>(KeyChord { key: Key::PageUp, mods: KeyMod { bits: 0 } }),
        chord_of(angled("PgUp"@)) == Ok::<KeyChord, ChordFault>(KeyChord { key: Key::PageUp, mods: KeyMod { bits: 0 } }),
        chord_of(angled("PageDown"@)) == Ok::<KeyChord, ChordFault>(KeyChord { key: Key::PageDown, mods: KeyMod { bits: 0 } }),
        chord_of(angled("PgDn"@)) == Ok::<KeyChord, ChordFault>(KeyChord { key: Key::PageDown, mods: KeyMod { bits: 0 } }),
        chord_of(angled("Space"@)) == Ok::<KeyChord, ChordFault>(KeyChord { key: Key::Char(' '), mods: KeyMod { bits: 0 } }),
        chord_of(angled("Insert"@)) == Ok::<KeyChord, ChordFault>(KeyChord { key: Key::Insert, mods: KeyMod { bits: 0 } }),
{
    assert(chord_of(angled("PageUp"@)) == Ok::<KeyChord, ChordFault>(KeyChord { key: Key::PageUp, mods: KeyMod { bits: 0 } })) by {
        reveal_strlit("Esc");
        reveal_strlit("Escape");
        reveal_strlit("Enter");
        reveal_strlit("CR");
        reveal_strlit("Return");
        reveal_strlit("Tab");
        reveal_strlit("BackTab");
        reveal_strlit("BS");
        reveal_strlit("Backspace");
        reveal_strlit("Del");
        reveal_strlit("Delete");
        reveal_strlit("Up");
        reveal_strlit("Down");
        reveal_strlit("Left");
        reveal_strlit("Right");
        reveal_strlit("Home");
        reveal_strlit("End");
        reveal_strlit("PageUp");
        lemma_chord_of_plain_name("PageUp"@);
    }
    assert(chord_of(angled("PgUp"@)) == Ok::<KeyChord, ChordFault>(KeyChord { key: Key::PageUp, mods: KeyMod { bits: 0 } })) by {
        reveal_strlit("Esc");
        reveal_strlit("Escape");
        reveal_strlit("Enter");
        reveal_strlit("CR");
        reveal_strlit("Return");
        reveal_strlit("Tab");
        reveal_strlit("BackTab");
        reveal_strlit("BS");
        reveal_strlit("Backspace");
        reveal_strlit("Del");
        reveal_strlit("Delete");
        reveal_strlit("Up");
        reveal_strlit("Down");
        reveal_strlit("Left");
        reveal_strlit("Right");
        reveal_strlit("Home");
        reveal_strlit("End");
        reveal_strlit("PageUp");
        reveal_strlit("PgUp");
        lemma_chord_of_plain_name("PgUp"@);
    }
    assert(chord_of(angled("PageDown"@)) == Ok::<KeyChord, ChordFault>(KeyChord { key: Key::PageDown, mods: KeyMod { bits: 0 } })) by {
        reveal_strlit("Esc");
        reveal_strlit("Escape");
        reveal_strlit("Enter");
        reveal_strlit("CR");
        reveal_strlit("Return");
        reveal_strlit("Tab");
        reveal_strlit("BackTab");
        reveal_strlit("BS");
        reveal_strlit("Backspace");
        reveal_strlit("Del");
        reveal_strlit("Delete");
        reveal_strlit("Up");
        reveal_strlit("Down");
        reveal_strlit("Left");
        reveal_strlit("Right");
        reveal_strlit("Home");
        reveal_strlit("End");
        reveal_strlit("PageUp");
        reveal_strlit("PgUp");
        reveal_strlit("PageDown");
        lemma_chord_of_plain_name("PageDown"@);
    }
    assert(chord_of(angled("PgDn"@)) == Ok::<KeyChord, ChordFault>(KeyChord { key: Key::PageDown, mods: KeyMod { bits: 0 } })) by {
        reveal_strlit("Esc");
        reveal_strlit("Escape");
        reveal_strlit("Enter");
        reveal_strlit("CR");
        reveal_strlit("Return");
        reveal_strlit("Tab");
        reveal_strlit("BackTab");
        reveal_strlit("BS");
        reveal_strlit("Backspace");
        reveal_strlit("Del");
        reveal_strlit("Delete");
        reveal_strlit("Up");
        reveal_strlit("Down");
        reveal_strlit("Left");
        reveal_strlit("Right");
        reveal_strlit("Home");
        reveal_strlit("End");
        reveal_strlit("PageUp");
        reveal_strlit("PgUp");
        reveal_strlit("PageDown");
        reveal_strlit("PgDn");
        lemma_chord_of_plain_name("PgDn"@);
    }
    assert(chord_of(angled("Space"@)) == Ok::<KeyChord, ChordFault>(KeyChord { key: Key::Char(' '), mods: KeyMod { bits: 0 } })) by {
        reveal_strlit("Esc");
        reveal_strlit("Escape");
        reveal_strlit("Enter");
        reveal_strlit("CR");
        reveal_strlit("Return");
        reveal_strlit("Tab");
        reveal_strlit("BackTab");
        reveal_strlit("BS");
        reveal_strlit("Backspace");
        reveal_strlit("Del");
        reveal_strlit("Delete");
        reveal_strlit("Up");
        reveal_strlit("Down");
        reveal_strlit("Left");
        reveal_strlit("Right");
        reveal_strlit("Home");
        reveal_strlit("End");
        reveal_strlit("PageUp");
        reveal_strlit("PgUp");
        reveal_strlit("PageDown");
        reveal_strlit("PgDn");
        reveal_strlit("Space");
        lemma_chord_of_plain_name("Space"@);
    }
    assert(chord_of(angled("Insert"@)) == Ok::<KeyChord, ChordFault>(KeyChord { key: Key::Insert, mods: KeyMod { bits: 0 } })) by {
        reveal_strlit("Esc");
        reveal_strlit("Escape");
        reveal_strlit("Enter");
        reveal_strlit("CR");
        reveal_strlit("Return");
        reveal_strlit("Tab");
        reveal_strlit("BackTab");
        reveal_strlit("BS");
        reveal_strlit("Backspace");
        reveal_strlit("Del");
        reveal_strlit("Delete");
        reveal_strlit("Up");
        reveal_strlit("Down");
        reveal_strlit("Left");
        reveal_strlit("Right");
        reveal_strlit("Home");
        reveal_strlit("End");
        reveal_strlit("PageUp");
        reveal_strlit("PgUp");
        reveal_strlit("PageDown");
        reveal_strlit("PgDn");
        reveal_strlit("Space");
        reveal_strlit("Insert");
        lemma_chord_of_plain_name("Insert"@);
    }
}

/// The key a key name stands for (see [`named_key`]).
fn key_from_name(name: &[char]) -> (r: Result<Key, ChordError>)
    ensures
        match r {
            Ok(k) => named_key(name@) == Ok::<Key, ChordFault>(k),
            Err(e) => named_key(name@) == Err::<Key, ChordFault>(e@),
        },
{
    if chars_eq_str(name, "Esc") || chars_eq_str(name, "Escape") {
        Ok(Key::Escape)
    } else if chars_eq_str(name, "Enter") || chars_eq_str(name, "CR") || chars_eq_str(name, "Return") {
        Ok(Key::Enter)
    } else if chars_eq_str(name, "Tab") {
        Ok(Key::Tab)
    } else if chars_eq_str(name, "BackTab") {
        Ok(Key::BackTab)
    } else if chars_eq_str(name, "BS") || chars_eq_str(name, "Backspace") {
        Ok(Key::Backspace)
    } else if chars_eq_str(name, "Del") || chars_eq_str(name, "Delete") {
        Ok(Key::Delete)
    } else if chars_eq_str(name, "Up") {
        Ok(Key::Up)
    } else if chars_eq_str(name, "Down") {
        Ok(Key::Down)
    } else if chars_eq_str(name, "Left") {
        Ok(Key::Left)
    } else if chars_eq_str(name, "Right") {
        Ok(Key::Right)
    } else if chars_eq_str(name, "Home") {
        Ok(Key::Home)
    } else if chars_eq_str(name, "End") {
        Ok(Key::End)
    } else if chars_eq_str(name, "PageUp") || chars_eq_str(name, "PgUp") {
        Ok(Key::PageUp)
    } else if chars_eq_str(name, "PageDown") || chars_eq_str(name, "PgDn") {
        Ok(Key::PageDown)
    } else if chars_eq_str(name, "Space") {
        Ok(Key::Char(' '))
    } else if chars_eq_str(name, "Insert") {
        Ok(Key::Insert)
    } else if name.len() > 0 && name[0] == 'F' {
        let digits = &name[1..name.len()];
        assert(digits@ == name@.drop_first());
        match parse_u8(digits, 10) {
            Some(n) => Ok(Key::Function(n)),
            None => Err(ChordError::BadFunctionKey(string_of(name))),
        }
    } else if name.len() == 1 {
        Ok(Key::Char(name[0]))
    } else {
        Err(ChordError::UnknownKey(string_of(name)))
    }
}

impl KeyChord {
    /// The chord of a key event.
    pub fn from_event(key: Key, mods: KeyMod) -> (c: KeyChord)
        ensures
            c == (KeyChord { key, mods }),
    {
        KeyChord { key, mods }
    }

    /// Parse a single chord like `<C-x>`, `h` or `<Esc>` from its config text.
    pub fn parse(s: &str) -> (r: Result<KeyChord, ChordError>)
        ensures
            match r {
                Ok(c) => chord_of(s@) == Ok::<KeyChord, ChordFault>(c),
                Err(e) => chord_of(s@) == Err::<KeyChord, ChordFault>(e@),
            },
    {
        let cs = chars_of(s);
        if cs.len() == 1 && cs[0] != '<' {
            return Ok(KeyChord { key: Key::Char(cs[0]), mods: KeyMod::empty() });
        }
        if !(cs.len() >= 2 && cs[0] == '<' && cs[cs.len() - 1] == '>') {
            return Err(ChordError::Invalid);
        }
        let inner = &cs[1..cs.len() - 1];
        let parts = split_chars(inner, '-');
        let ghost pv = split_on(inner@, '-');
        let mut mods: u8 = 0;
        let mut last: Option<usize> = None;
        let mut i: usize = 0;
        assert(pv.take(0) =~= Seq::<Seq<char>>::empty());
        while i < parts.len()
            invariant
                cs@ == s@,
                cs@.len() >= 2 && cs@[0] == '<' && cs@.last() == '>',
                inner@ == cs@.subrange(1, cs@.len() - 1),
                pv == split_on(inner@, '-'),
                i <= parts@.len(),
                parts@.len() == pv.len(),
                forall|k: int| 0 <= k < parts@.len() ==> #[trigger] parts@[k]@ == pv[k],
                match last {
                    Some(j) => j < i,
                    None => true,
                },
                fold_parts(pv.take(i as int)) == Some(
                    (
                        mods,
                        match last {
                            Some(j) => Some(pv[j as int]),
                            None => None::<Seq<char>>,
                        },
                    ),
                ),
            decreases parts@.len() - i,
        {
            let p = &parts[i];
            proof {
                assert(pv.take(i + 1).drop_last() == pv.take(i as int));
                assert(pv.take(i + 1).last() == p@);
            }
            let is_c = p.len() == 1 && p[0] == 'C';
            let is_s = p.len() == 1 && p[0] == 'S';
            let is_a = p.len() == 1 && (p[0] == 'A' || p[0] == 'M');
            proof {
                if p@.len() == 1 {
                    if p@[0] == 'C' {
                        assert(p@ =~= seq!['C']);
                    }
                    if p@[0] == 'S' {
                        assert(p@ =~= seq!['S']);
                    }
                    if p@[0] == 'A' {
                        assert(p@ =~= seq!['A']);
                    }
                    if p@[0] == 'M' {
                        assert(p@ =~= seq!['M']);
                    }
                }
            }
            if is_c {
                mods = mods | 4;
            } else if is_s {
                mods = mods | 1;
            } else if is_a {
                mods = mods | 2;
            } else {
                if last.is_some() {
                    proof {
                        assert(modifier_bit(p@) == 0);
                        assert(fold_parts(pv.take(i + 1)) is None);
                        lemma_fold_parts_stays_refused(pv, i + 1);
                    }
                    return Err(ChordError::MultipleKeys);
                }
                last = Some(i);
            }
            i = i + 1;
        }
        assert(pv.take(pv.len() as int) == pv);
        match last {
            None => Err(ChordError::NoKey),
            Some(j) => match key_from_name(&parts[j]) {
                Ok(k) => Ok(KeyChord { key: k, mods: KeyMod { bits: mods } }),
                Err(e) => Err(e),
            },
        }
    }
}

/// A node of the keymap trie: an optional command, and one child per chord that
/// continues a bound sequence.
#[derive(Debug)]
pub struct TrieNode {
    children: Vec<(KeyChord, TrieNode)>,
    command: Option<String>,
}

/// The index of the first of the first `n` children whose chord is `k`.
spec fn find_in(cs: Seq<(KeyChord, TrieNode)>, k: KeyChord, n: int) -> Option<int>
    decreases n,
{
    if n <= 0 {
        None
    } else {
        match find_in(cs, k, n - 1) {
            Some(i) => Some(i),
            None => if cs[n - 1].0 == k {
                Some(n - 1)
            } else {
                None
            },
        }
    }
}

/// The child of `node` reached by the chord `k`.
spec fn child_of(node: TrieNode, k: KeyChord) -> Option<TrieNode> {
    match find_in(node.children@, k, node.children@.len() as int) {
        Some(i) => Some(node.children@[i].1),
        None => None,
    }
}

/// The node reached from `node` by following the chords of `path`.
spec fn node_at(node: TrieNode, path: Seq<KeyChord>) -> Option<TrieNode>
    decreases path.len(),
{
    if path.len() == 0 {
        Some(node)
    } else {
        match child_of(node, path[0]) {
            Some(c) => node_at(c, path.drop_first()),
            None => None,
        }
    }
}

/// No two children of `node` share a chord.
spec fn distinct_keys(node: TrieNode) -> bool {
    forall|i: int, j: int|
        0 <= i < j < node.children@.len() ==> #[trigger] node.children@[i].0
            != #[trigger] node.children@[j].0
}

/// Well-formedness of a trie rooted at `root`: every node has distinct child chords,
/// and every node below the root holds a command or has children.
spec fn trie_wf(root: TrieNode) -> bool {
    forall|p: Seq<KeyChord>| #![trigger node_at(root, p)] node_ok(node_at(root, p), p.len() as int)
}

/// A node found at depth `depth` is well-formed on its own.
spec fn node_ok(o: Option<TrieNode>, depth: int) -> bool {
    match o {
        Some(n) => distinct_keys(n) && (depth > 0 ==> (n.command is Some || n.children@.len() > 0)),
        None => true,
    }
}

/// The command bound to the chord sequence `p` in the trie rooted at `root`.
spec fn bound_at(root: TrieNode, p: Seq<KeyChord>) -> Option<Seq<char>> {
    match node_at(root, p) {
        Some(n) => match n.command {
            Some(c) => Some(c@),
            None => None,
        },
        None => None,
    }
}

/// `q` continues `p` with at least one more chord.
pub open spec fn strictly_extends(q: Seq<KeyChord>, p: Seq<KeyChord>) -> bool {
    q.len() > p.len() && q.subrange(0, p.len() as int) == p
}

/// Some sequence bound in `m` continues `p`.
pub open spec fn has_bound_extension(m: Map<Seq<KeyChord>, Seq<char>>, p: Seq<KeyChord>) -> bool {
    exists|q: Seq<KeyChord>| m.contains_key(q) && strictly_extends(q, p)
}

proof fn lemma_find_in(cs: Seq<(KeyChord, TrieNode)>, k: KeyChord, n: int)
    requires
        0 <= n <= cs.len(),
    ensures
        find_in(cs, k, n) matches Some(i) ==> 0 <= i < n && cs[i].0 == k && (forall|j: int|
            0 <= j < i ==> cs[j].0 != k),
        find_in(cs, k, n) is None ==> forall|j: int| 0 <= j < n ==> cs[j].0 != k,
    decreases n,
{
    if n > 0 {
        lemma_find_in(cs, k, n - 1);
    }
}

/// A chord found among the first `m` children is found at the same index among more.
proof fn lemma_find_in_grow(cs: Seq<(KeyChord, TrieNode)>, k: KeyChord, m: int, n: int)
    requires
        0 <= m <= n,
        find_in(cs, k, m) is Some,
    ensures
        find_in(cs, k, n) == find_in(cs, k, m),
    decreases n - m,
{
    if n > m {
        lemma_find_in_grow(cs, k, m, n - 1);
    }
}

/// `find_in` only looks at the chords.
proof fn lemma_find_in_same_keys(
    cs: Seq<(KeyChord, TrieNode)>,
    ds: Seq<(KeyChord, TrieNode)>,
    k: KeyChord,
    n: int,
)
    requires
        0 <= n <= cs.len(),
        n <= ds.len(),
        forall|j: int| 0 <= j < n ==> cs[j].0 == ds[j].0,
    ensures
        find_in(cs, k, n) == find_in(ds, k, n),
    decreases n,
{
    if n > 0 {
        lemma_find_in_same_keys(cs, ds, k, n - 1);
    }
}

/// With distinct chords, the child found for the chord of child `i` is child `i`.
proof fn lemma_find_distinct(node: TrieNode, i: int)
    requires
        distinct_keys(node),
        0 <= i < node.children@.len(),
    ensures
        child_of(node, node.children@[i].0) == Some(node.children@[i].1),
        find_in(node.children@, node.children@[i].0, node.children@.len() as int) == Some(i),
{
    let cs = node.children@;
    lemma_find_in(cs, cs[i].0, cs.len() as int);
    match find_in(cs, cs[i].0, cs.len() as int) {
        Some(j) => {
            if j < i {
                assert(cs[j].0 != cs[i].0);
            } else if j > i {
                assert(cs[i].0 != cs[j].0);
            }
        },
        None => {
            assert(cs[i].0 != cs[i].0);
        },
    }
}

/// Following a one-chord path and then `q`.
proof fn lemma_node_at_cons(node: TrieNode, k: KeyChord, q: Seq<KeyChord>)
    ensures
        node_at(node, seq![k] + q) == match child_of(node, k) {
            Some(c) => node_at(c, q),
            None => None,
        },
{
    let p = seq![k] + q;
    assert(p[0] == k);
    assert(p.drop_first() =~= q);
}

/// Following `p` and then `q` is following `p + q`.
proof fn lemma_node_at_append(node: TrieNode, p: Seq<KeyChord>, q: Seq<KeyChord>)
    ensures
        node_at(node, p + q) == match node_at(node, p) {
            Some(m) => node_at(m, q),
            None => None,
        },
    decreases p.len(),
{
    if p.len() == 0 {
        assert(p + q =~= q);
    } else {
        let k = p[0];
        let r = p.drop_first();
        assert(p =~= seq![k] + r);
        assert(p + q =~= seq![k] + (r + q));
        lemma_node_at_cons(node, k, r + q);
        lemma_node_at_cons(node, k, r);
        match child_of(node, k) {
            Some(c) => {
                lemma_node_at_append(c, r, q);
            },
            None => {},
        }
    }
}

/// A child of a well-formed trie roots a well-formed trie.
proof fn lemma_wf_child(node: TrieNode, k: KeyChord)
    requires
        trie_wf(node),
        child_of(node, k) is Some,
    ensures
        trie_wf(child_of(node, k)->0),
        child_of(node, k)->0.command is Some || child_of(node, k)->0.children@.len() > 0,
{
    let c = child_of(node, k)->0;
    lemma_node_at_cons(node, k, Seq::<KeyChord>::empty());
    assert(seq![k] + Seq::<KeyChord>::empty() =~= seq![k]);
    assert(node_at(node, seq![k]) == Some(c));
    assert forall|p: Seq<KeyChord>| #![trigger node_at(c, p)] node_ok(node_at(c, p), p.len() as int) by {
        lemma_node_at_cons(node, k, p);
        assert(node_at(node, seq![k] + p) == node_at(c, p));
        assert(node_ok(node_at(node, seq![k] + p), (seq![k] + p).len() as int));
    }
}

/// The node reached by a path in a well-formed trie roots a well-formed trie.
proof fn lemma_wf_descend(node: TrieNode, p: Seq<KeyChord>)
    requires
        trie_wf(node),
        node_at(node, p) is Some,
    ensures
        trie_wf(node_at(node, p)->0),
{
    let m = node_at(node, p)->0;
    assert forall|q: Seq<KeyChord>| #![trigger node_at(m, q)] node_ok(node_at(m, q), q.len() as int) by {
        lemma_node_at_append(node, p, q);
        assert(node_at(node, p + q) == node_at(m, q));
        assert(node_ok(node_at(node, p + q), (p + q).len() as int));
    }
}

/// A well-formed trie with children binds some non-empty sequence.
proof fn lemma_children_bind_something(node: TrieNode)
    requires
        trie_wf(node),
        node.children@.len() > 0,
    ensures
        exists|r: Seq<KeyChord>| r.len() > 0 && (#[trigger] bound_at(node, r)) is Some,
    decreases node,
{
    assert(node_at(node, Seq::<KeyChord>::empty()) == Some(node));
    let k = node.children@[0].0;
    let c = node.children@[0].1;
    lemma_find_distinct(node, 0);
    lemma_wf_child(node, k);
    lemma_node_at_cons(node, k, Seq::<KeyChord>::empty());
    assert(seq![k] + Seq::<KeyChord>::empty() =~= seq![k]);
    if c.command is Some {
        assert(bound_at(node, seq![k]) is Some);
    } else {
        assert(decreases_to!(node => node.children));
        assert(decreases_to!(node.children => node.children@));
        assert(decreases_to!(node.children@ => node.children@[0]));
        assert(decreases_to!(node.children@[0] => c));
        lemma_children_bind_something(c);
        let r = choose|r: Seq<KeyChord>| r.len() > 0 && (#[trigger] bound_at(c, r)) is Some;
        lemma_node_at_cons(node, k, r);
        assert(bound_at(node, seq![k] + r) is Some);
    }
}

impl TrieNode {
    /// A node with no command and no children.
    fn new() -> (n: TrieNode)
        ensures
            n.children@.len() == 0,
            n.command is None,
            trie_wf(n),
            forall|q: Seq<KeyChord>| #![trigger bound_at(n, q)] bound_at(n, q) is None,
    {
        let n = TrieNode { children: Vec::new(), command: None };
        assert forall|q: Seq<KeyChord>| #![trigger node_at(n, q)]
            node_ok(node_at(n, q), q.len() as int) && (q.len() > 0 ==> node_at(n, q) is None) by {
            if q.len() > 0 {
                lemma_find_in(n.children@, q[0], 0);
            }
        }
        assert forall|q: Seq<KeyChord>| #![trigger bound_at(n, q)] bound_at(n, q) is None by {
            assert(node_ok(node_at(n, q), q.len() as int));
        }
        n
    }
}

/// The index of the child of `children` whose chord is `k`.
fn find_child(children: &Vec<(KeyChord, TrieNode)>, k: KeyChord) -> (r: Option<usize>)
    ensures
        match r {
            Some(i) => find_in(children@, k, children@.len() as int) == Some(i as int),
            None => find_in(children@, k, children@.len() as int) is None,
        },
{
    let mut i: usize = 0;
    while i < children.len()
        invariant
            i <= children@.len(),
            find_in(children@, k, i as int) is None,
        decreases children@.len() - i,
    {
        if children[i].0 == k {
            proof {
                lemma_find_in_grow(children@, k, i + 1, children@.len() as int);
            }
            return Some(i);
        }
        i = i + 1;
    }
    None
}

/// Bind `command` to the chords `chords[i..]` below `node`, creating the nodes on the
/// way; an earlier binding of the same sequence is replaced.
fn bind_node(node: &mut TrieNode, chords: &[KeyChord], i: usize, command: &str)
    requires
        i <= chords@.len(),
        trie_wf(*old(node)),
    ensures
        trie_wf(*final(node)),
        final(node).command is Some || final(node).children@.len() > 0,
        forall|q: Seq<KeyChord>| #![trigger bound_at(*final(node), q)]
            bound_at(*final(node), q) == if q == chords@.skip(i as int) {
                Some(command@)
            } else {
                bound_at(*old(node), q)
            },
    decreases chords@.len() - i,
{
    let ghost old_node = *node;
    if i == chords.len() {
        node.command = Some(command.to_owned());
        let ghost fresh = *node;
        assert(fresh.children@ == old_node.children@);
        assert forall|q: Seq<KeyChord>| #![trigger node_at(fresh, q)]
            node_at(fresh, q) == if q.len() == 0 { Some(fresh) } else { node_at(old_node, q) } by {
            if q.len() > 0 {
                lemma_find_in_same_keys(fresh.children@, old_node.children@, q[0], fresh.children@.len() as int);
            }
        }
        assert(chords@.skip(i as int) =~= Seq::<KeyChord>::empty());
        assert(fresh.command is Some && fresh.command->0@ == command@);
        assert forall|q: Seq<KeyChord>| #![trigger node_at(fresh, q)] node_ok(node_at(fresh, q), q.len() as int) by {
            assert(node_ok(node_at(old_node, q), q.len() as int));
        }
        assert forall|q: Seq<KeyChord>| #![trigger bound_at(fresh, q)]
            bound_at(fresh, q) == if q == chords@.skip(i as int) { Some(command@) } else { bound_at(old_node, q) } by {
            assert(node_at(fresh, q) == if q.len() == 0 { Some(fresh) } else { node_at(old_node, q) });
            if q.len() == 0 {
                assert(q =~= chords@.skip(i as int));
            } else {
                assert(q.len() != chords@.skip(i as int).len());
            }
        }
        return;
    }
    let k = chords[i];
    proof {
        assert(node_ok(node_at(old_node, Seq::<KeyChord>::empty()), 0));
    }
    let found = find_child(&node.children, k);
    let idx: usize = match found {
        Some(j) => j,
        None => {
            let empty = TrieNode::new();
            node.children.push((k, empty));
            node.children.len() - 1
        },
    };
    let ghost grown = *node;
    proof {
        lemma_find_in(old_node.children@, k, old_node.children@.len() as int);
        assert forall|x: KeyChord| x != k implies #[trigger] find_in(grown.children@, x, grown.children@.len() as int)
            == find_in(old_node.children@, x, old_node.children@.len() as int) by {
            lemma_find_in_same_keys(grown.children@, old_node.children@, x, old_node.children@.len() as int);
        }
        assert(find_in(grown.children@, k, grown.children@.len() as int) == Some(idx as int)) by {
            if found is None {
                lemma_find_in_same_keys(grown.children@, old_node.children@, k, old_node.children@.len() as int);
            }
        }
        assert(distinct_keys(grown)) by {
            if found is None {
                assert forall|a: int, b: int| 0 <= a < b < grown.children@.len() implies
                    #[trigger] grown.children@[a].0 != #[trigger] grown.children@[b].0 by {
                    if b < old_node.children@.len() {
                        assert(grown.children@[a] == old_node.children@[a]);
                        assert(grown.children@[b] == old_node.children@[b]);
                    } else {
                        assert(grown.children@[a] == old_node.children@[a]);
                    }
                }
            }
        }
    }
    let (key, mut child) = node.children.remove(idx);
    let ghost old_child = child;
    proof {
        assert(child_of(grown, k) == Some(old_child));
        if found is Some {
            assert(child_of(old_node, k) == Some(old_child));
            lemma_wf_child(old_node, k);
        }
    }
    bind_node(&mut child, chords, i + 1, command);
    node.children.insert(idx, (key, child));
    let ghost fresh = *node;
    proof {
        assert(fresh.children@ == grown.children@.update(idx as int, (k, child)));
        assert forall|x: KeyChord| #[trigger] find_in(fresh.children@, x, fresh.children@.len() as int)
            == find_in(grown.children@, x, grown.children@.len() as int) by {
            lemma_find_in_same_keys(fresh.children@, grown.children@, x, grown.children@.len() as int);
        }
        assert(chords@.skip(i as int) =~= seq![k] + chords@.skip(i + 1));
        // The paths below `fresh`: the empty one, those through `k`, and the others.
        assert forall|q: Seq<KeyChord>| #![trigger node_at(fresh, q)] node_ok(node_at(fresh, q), q.len() as int)
            && bound_at(fresh, q) == (if q == chords@.skip(i as int) { Some(command@) } else { bound_at(old_node, q) }) by {
            if q.len() == 0 {
                assert(distinct_keys(fresh)) by {
                    assert forall|a: int, b: int| 0 <= a < b < fresh.children@.len() implies
                        #[trigger] fresh.children@[a].0 != #[trigger] fresh.children@[b].0 by {
                        assert(fresh.children@[a].0 == grown.children@[a].0);
                        assert(fresh.children@[b].0 == grown.children@[b].0);
                    }
                }
                assert(fresh.command == old_node.command);
                assert(q != chords@.skip(i as int));
            } else {
                let x = q[0];
                let r = q.drop_first();
                assert(q =~= seq![x] + r);
                lemma_node_at_cons(fresh, x, r);
                lemma_node_at_cons(old_node, x, r);
                if x == k {
                    assert(child_of(fresh, k) == Some(child));
                    assert(node_at(fresh, q) == node_at(child, r));
                    assert(node_ok(node_at(child, r), r.len() as int));
                    if r.len() == 0 {
                        assert(node_at(child, r) == Some(child));
                    }
                    assert(bound_at(fresh, q) == bound_at(child, r));
                    assert(chords@.skip(i as int).drop_first() =~= chords@.skip(i + 1));
                    assert(q.drop_first() == r);
                    if r == chords@.skip(i + 1) {
                        assert(q =~= chords@.skip(i as int));
                    }
                    assert((q == chords@.skip(i as int)) == (r == chords@.skip(i + 1)));
                    if found is Some {
                        assert(child_of(old_node, k) == Some(old_child));
                        assert(bound_at(old_node, q) == bound_at(old_child, r));
                    } else {
                        assert(child_of(old_node, k) is None);
                        assert(bound_at(old_node, q) is None);
                    }
                } else {
                    assert(q != chords@.skip(i as int));
                    match find_in(old_node.children@, x, old_node.children@.len() as int) {
                        Some(j) => {
                            lemma_find_in(old_node.children@, x, old_node.children@.len() as int);
                            assert(j != idx);
                            assert(fresh.children@[j] == old_node.children@[j]);
                            assert(child_of(fresh, x) == child_of(old_node, x));
                        },
                        None => {
                            assert(child_of(fresh, x) is None);
                        },
                    }
                    assert(node_at(fresh, q) == node_at(old_node, q));
                    assert(node_ok(node_at(old_node, q), q.len() as int));
                }
            }
        }
        assert(fresh.children@.len() > 0);
    }
}

/// What a (partial) chord sequence resolves to.
#[derive(Debug)]
pub enum Lookup<'a> {
    /// The sequence is bound to this command.
    Command(&'a str),
    /// The sequence is a proper prefix of a bound sequence: keep accumulating.
    Pending,
    /// Nothing is bound from here on.
    NoMatch,
}

/// The per-mode keymap: a trie of chord sequences to command names.
#[derive(Debug)]
pub struct KeyMap {
    root: TrieNode,
}

impl KeyMap {
    #[verifier::type_invariant]
    spec fn well_formed(self) -> bool {
        trie_wf(self.root)
    }
}

impl View for KeyMap {
    type V = Map<Seq<KeyChord>, Seq<char>>;

    /// The bound chord sequences and their commands.
    closed spec fn view(&self) -> Map<Seq<KeyChord>, Seq<char>> {
        Map::new(|p: Seq<KeyChord>| bound_at(self.root, p) is Some, |p: Seq<KeyChord>| bound_at(self.root, p)->0)
    }
}

impl KeyMap {
    /// A keymap with nothing bound.
    pub fn new() -> (km: KeyMap)
        ensures
            km@ == Map::<Seq<KeyChord>, Seq<char>>::empty(),
    {
        let km = KeyMap { root: TrieNode::new() };
        assert(km@ =~= Map::<Seq<KeyChord>, Seq<char>>::empty());
        km
    }

    /// Bind `command` to the chord sequence `chords`. The last writer wins: a config can
    /// override a built-in binding by binding the same sequence again.
    pub fn bind(&mut self, chords: &[KeyChord], command: &str)
        ensures
            final(self)@ == old(self)@.insert(chords@, command@),
    {
        proof {
            use_type_invariant(&*self);
        }
        let ghost before = self.root;
        let mut root = TrieNode::new();
        std::mem::swap(&mut root, &mut self.root);
        assert(chords@.skip(0) == chords@);
        bind_node(&mut root, chords, 0, command);
        let ghost after = root;
        self.root = root;
        proof {
            assert(self.root == after);
            assert(self@ =~= old(self)@.insert(chords@, command@)) by {
                assert forall|q: Seq<KeyChord>| #![trigger bound_at(after, q)]
                    bound_at(after, q) == if q == chords@ { Some(command@) } else { bound_at(before, q) } by {
                    assert(bound_at(after, q) == if q == chords@.skip(0) { Some(command@) } else { bound_at(before, q) });
                }
            }
        }
    }

    /// Look up a partial chord sequence: the slice holds what has been typed since the
    /// last command was resolved. A bound sequence resolves to its command at once, even
    /// where longer sequences continue it.
    pub fn lookup(&self, chords: &[KeyChord]) -> (r: Lookup<'_>)
        ensures
            r matches Lookup::Command(c) ==> self@.contains_key(chords@) && c@ == self@[chords@],
            r is Pending ==> !self@.contains_key(chords@) && has_bound_extension(self@, chords@),
            r is NoMatch ==> !self@.contains_key(chords@) && !has_bound_extension(self@, chords@),
    {
        proof {
            use_type_invariant(self);
        }
        let ghost root = self.root;
        let mut node = &self.root;
        let mut i: usize = 0;
        assert(chords@.take(0) =~= Seq::<KeyChord>::empty());
        while i < chords.len()
            invariant
                root == self.root,
                trie_wf(root),
                i <= chords@.len(),
                node_at(root, chords@.take(i as int)) == Some(*node),
            decreases chords@.len() - i,
        {
            let k = chords[i];
            proof {
                lemma_node_at_append(root, chords@.take(i as int), seq![k]);
                assert(chords@.take(i as int) + seq![k] =~= chords@.take(i + 1));
                lemma_node_at_cons(*node, k, Seq::<KeyChord>::empty());
                assert(seq![k] + Seq::<KeyChord>::empty() =~= seq![k]);
            }
            proof {
                lemma_find_in(node.children@, k, node.children@.len() as int);
            }
            match find_child(&node.children, k) {
                Some(j) => {
                    node = &node.children[j].1;
                },
                None => {
                    proof {
                        assert(node_at(root, chords@.take(i + 1)) is None);
                        lemma_no_node_no_binding(root, chords@, i + 1);
                    }
                    return Lookup::NoMatch;
                },
            }
            i = i + 1;
        }
        assert(chords@.take(chords@.len() as int) == chords@);
        let ghost n = *node;
        match &node.command {
            Some(c) => {
                proof {
                    assert(bound_at(root, chords@) == Some(c@));
                    assert(self@.dom().contains(chords@));
                    assert(self@[chords@] == c@);
                }
                let name = c.as_str();
                let r = Lookup::Command(name);
                assert(match r {
                    Lookup::Command(c) => self@.contains_key(chords@) && c@ == self@[chords@],
                    _ => false,
                });
                r
            },
            None => {
                if node.children.len() == 0 {
                    proof {
                        assert forall|q: Seq<KeyChord>| strictly_extends(q, chords@) implies #[trigger] bound_at(root, q) is None by {
                            let rest = q.subrange(chords@.len() as int, q.len() as int);
                            assert(q =~= chords@ + rest);
                            lemma_node_at_append(root, chords@, rest);
                            lemma_node_at_cons(n, rest[0], rest.drop_first());
                            assert(rest =~= seq![rest[0]] + rest.drop_first());
                            lemma_find_in(n.children@, rest[0], 0);
                        }
                    }
                    Lookup::NoMatch
                } else {
                    proof {
                        lemma_wf_descend(root, chords@);
                        lemma_children_bind_something(n);
                        let r = choose|r: Seq<KeyChord>| r.len() > 0 && (#[trigger] bound_at(n, r)) is Some;
                        lemma_node_at_append(root, chords@, r);
                        let q = chords@ + r;
                        assert(q.subrange(0, chords@.len() as int) =~= chords@);
                        assert(bound_at(root, q) is Some);
                        assert(self@.contains_key(q));
                        assert(strictly_extends(q, chords@));
                        assert(has_bound_extension(self@, chords@));
                        assert(bound_at(root, chords@) is None);
                        assert(!self@.contains_key(chords@));
                    }
                    Lookup::Pending
                }
            },
        }
    }
}

/// Looking up what was just bound gives it back: after binding `p` to `c`, `p` is
/// bound to `c`, and every other sequence keeps what it had (last writer wins).
pub proof fn lemma_bind_then_lookup(m: Map<Seq<KeyChord>, Seq<char>>, p: Seq<KeyChord>, c: Seq<char>)
    ensures
        m.insert(p, c).contains_key(p),
        m.insert(p, c)[p] == c,
        forall|q: Seq<KeyChord>|
            q != p ==> (#[trigger] m.insert(p, c).contains_key(q) == m.contains_key(q) && (m.contains_key(q)
                ==> m.insert(p, c)[q] == m[q])),
{
}

/// Every proper prefix of a bound sequence has a bound continuation: where it is not
/// bound itself, looking it up is pending.
pub proof fn lemma_prefix_of_bound_is_pending(m: Map<Seq<KeyChord>, Seq<char>>, p: Seq<KeyChord>, k: int)
    requires
        m.contains_key(p),
        0 <= k < p.len(),
    ensures
        has_bound_extension(m, p.take(k)),
{
    assert(p.subrange(0, k) =~= p.take(k));
    assert(strictly_extends(p, p.take(k)));
}

/// Where no node is reached by a prefix of `p`, neither `p` nor anything continuing
/// it is bound.
proof fn lemma_no_node_no_binding(root: TrieNode, p: Seq<KeyChord>, n: int)
    requires
        0 <= n <= p.len(),
        node_at(root, p.take(n)) is None,
    ensures
        bound_at(root, p) is None,
        forall|q: Seq<KeyChord>| strictly_extends(q, p) ==> #[trigger] bound_at(root, q) is None,
{
    assert(p =~= p.take(n) + p.skip(n));
    lemma_node_at_append(root, p.take(n), p.skip(n));
    assert forall|q: Seq<KeyChord>| strictly_extends(q, p) implies #[trigger] bound_at(root, q) is None by {
        assert(q =~= p.take(n) + q.skip(n));
        lemma_node_at_append(root, p.take(n), q.skip(n));
    }
}

impl Default for KeyMap {
    fn default() -> (km: KeyMap)
        ensures
            km@ == Map::<Seq<KeyChord>, Seq<char>>::empty(),
    {
        KeyMap::new()
    }
}

} // verus!
