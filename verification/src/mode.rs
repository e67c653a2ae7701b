//! The editor's modes.
use vstd::prelude::*;

use crate::text::str_eq;

verus! {

/// The three editing modes.
#[derive(Debug, Clone, Copy, PartialEq, Eq, Hash, Structural)]
pub enum Mode {
    Normal,
    Insert,
    Command,
}

/// A mode name that is none of `normal`, `insert`, `command`.
#[derive(Debug, Clone)]
pub struct UnknownMode(pub String);

impl Mode {
    /// The configuration name of a mode.
    pub open spec fn name(self) -> Seq<char> {
        match self {
            Mode::Normal => "normal"@,
            Mode::Insert => "insert"@,
            Mode::Command => "command"@,
        }
    }

    /// The configuration name of the mode.
    pub fn as_str(self) -> (s: &'static str)
        ensures
            s@ == self.name(),
    {
        match self {
            Mode::Normal => "normal",
            Mode::Insert => "insert",
            Mode::Command => "command",
        }
    }

    /// The mode whose configuration name is `s`, if any.
    pub open spec fn named(s: Seq<char>) -> Option<Mode> {
        if s == "normal"@ {
            Some(Mode::Normal)
        } else if s == "insert"@ {
            Some(Mode::Insert)
        } else if s == "command"@ {
            Some(Mode::Command)
        } else {
            None
        }
    }

    /// Parse a mode from its configuration name; any other text is an [`UnknownMode`]
    /// carrying that text.
    pub fn from_str(s: &str) -> (res: Result<Mode, UnknownMode>)
        ensures
            match res {
                Ok(m) => Mode::named(s@) == Some(m),
                Err(e) => e.0@ == s@ && Mode::named(s@) is None,
            },
    {
        if str_eq(s, "normal") {
            Ok(Mode::Normal)
        } else if str_eq(s, "insert") {
            Ok(Mode::Insert)
        } else if str_eq(s, "command") {
            Ok(Mode::Command)
        } else {
            Err(UnknownMode(s.to_owned()))
        }
    }
}

/// The three mode names are pairwise distinct.
pub proof fn lemma_mode_names_distinct()
    ensures
        "normal"@ != "insert"@,
        "normal"@ != "command"@,
        "insert"@ != "command"@,
{
    reveal_strlit("normal");
    reveal_strlit("insert");
    reveal_strlit("command");
    assert("normal"@[0] != "insert"@[0]);
    assert("normal"@[0] != "command"@[0]);
    assert("insert"@[0] != "command"@[0]);
}

/// Reading back the name of a mode gives that mode: `from_str(m.as_str())` is `Ok(m)`.
pub proof fn lemma_mode_name_roundtrip(m: Mode)
    ensures
        Mode::named(m.name()) == Some(m),
{
    lemma_mode_names_distinct();
}

} // verus!
