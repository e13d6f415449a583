//! Severity levels of log entries: their badges, colours and how level names
//! are read.
use vstd::prelude::*;
use crate::text::{str_eq, to_uppercase, uppercase_of};

verus! {

/// The severity of a log entry.
#[derive(Debug, Clone, Copy, PartialEq, Eq, Structural)]
pub enum Level {
    Error,
    Warning,
    Info,
    Debug,
    Unknown,
}

/// A colour given by its red, green and blue parts.
#[derive(Debug, Clone, Copy, PartialEq, Eq, Structural)]
pub struct Rgb {
    pub r: u8,
    pub g: u8,
    pub b: u8,
}

/// The three-letter badge shown for a level.
pub open spec fn badge_of(l: Level) -> Seq<char> {
    match l {
        Level::Error => "ERR"@,
        Level::Warning => "WRN"@,
        Level::Info => "INF"@,
        Level::Debug => "DBG"@,
        Level::Unknown => "LOG"@,
    }
}

/// The colour shown for a level, as red, green and blue.
pub open spec fn color_of(l: Level) -> (u8, u8, u8) {
    match l {
        Level::Error => (220, 80, 80),
        Level::Warning => (255, 160, 80),
        Level::Info => (90, 140, 220),
        Level::Debug => (110, 110, 135),
        Level::Unknown => (110, 110, 135),
    }
}

/// The level that an upper-case level name stands for.
pub open spec fn level_of_word(w: Seq<char>) -> Level {
    if w == "ERROR"@ || w == "CRITICAL"@ || w == "ALERT"@ || w == "EMERGENCY"@ {
        Level::Error
    } else if w == "WARNING"@ || w == "WARN"@ {
        Level::Warning
    } else if w == "INFO"@ || w == "NOTICE"@ {
        Level::Info
    } else if w == "DEBUG"@ {
        Level::Debug
    } else {
        Level::Unknown
    }
}

/// The level that a level name in any case stands for.
pub open spec fn level_from_name(s: Seq<char>) -> Level {
    level_of_word(uppercase_of(s))
}

impl Level {
    /// The three-letter badge shown for this level.
    pub fn badge(&self) -> (r: &'static str)
        ensures
            r@ == badge_of(*self),
    {
        match self {
            Level::Error => "ERR",
            Level::Warning => "WRN",
            Level::Info => "INF",
            Level::Debug => "DBG",
            Level::Unknown => "LOG",
        }
    }

    /// The colour shown for this level.
    pub fn color(&self) -> (r: Rgb)
        ensures
            (r.r, r.g, r.b) == color_of(*self),
    {
        match self {
            Level::Error => Rgb { r: 220, g: 80, b: 80 },
            Level::Warning => Rgb { r: 255, g: 160, b: 80 },
            Level::Info => Rgb { r: 90, g: 140, b: 220 },
            Level::Debug => Rgb { r: 110, g: 110, b: 135 },
            Level::Unknown => Rgb { r: 110, g: 110, b: 135 },
        }
    }

    /// The level that an already upper-cased level name stands for.
    pub fn from_upper(w: &str) -> (r: Level)
        ensures
            r == level_of_word(w@),
    {
        if str_eq(w, "ERROR") || str_eq(w, "CRITICAL") || str_eq(w, "ALERT") || str_eq(
            w,
            "EMERGENCY",
        ) {
            Level::Error
        } else if str_eq(w, "WARNING") || str_eq(w, "WARN") {
            Level::Warning
        } else if str_eq(w, "INFO") || str_eq(w, "NOTICE") {
            Level::Info
        } else if str_eq(w, "DEBUG") {
            Level::Debug
        } else {
            Level::Unknown
        }
    }

    /// The level that a level name stands for, in any letter case.
    pub fn from_str(s: &str) -> (r: Level)
        ensures
            r == level_from_name(s@),
    {
        let u = to_uppercase(s);
        Level::from_upper(u.as_str())
    }
}

/// Each PSR-3 level name, in capitals, stands for a fixed level: ERROR,
/// CRITICAL, ALERT and EMERGENCY for an error; WARNING and WARN for a
/// warning; INFO and NOTICE for information; DEBUG for debugging output.
/// Any other word is of unknown level.
pub proof fn lemma_level_words(w: Seq<char>)
    ensures
        w == "ERROR"@ ==> level_of_word(w) == Level::Error,
        w == "CRITICAL"@ ==> level_of_word(w) == Level::Error,
        w == "ALERT"@ ==> level_of_word(w) == Level::Error,
        w == "EMERGENCY"@ ==> level_of_word(w) == Level::Error,
        w == "WARNING"@ ==> level_of_word(w) == Level::Warning,
        w == "WARN"@ ==> level_of_word(w) == Level::Warning,
        w == "INFO"@ ==> level_of_word(w) == Level::Info,
        w == "NOTICE"@ ==> level_of_word(w) == Level::Info,
        w == "DEBUG"@ ==> level_of_word(w) == Level::Debug,
        w != "ERROR"@ && w != "CRITICAL"@ && w != "ALERT"@ && w != "EMERGENCY"@ && w
            != "WARNING"@ && w != "WARN"@ && w != "INFO"@ && w != "NOTICE"@ && w != "DEBUG"@
            ==> level_of_word(w) == Level::Unknown,
{
    reveal_strlit("ERROR");
    reveal_strlit("CRITICAL");
    reveal_strlit("ALERT");
    reveal_strlit("EMERGENCY");
    reveal_strlit("WARNING");
    reveal_strlit("WARN");
    reveal_strlit("INFO");
    reveal_strlit("NOTICE");
    reveal_strlit("DEBUG");
    assert("ERROR"@.len() == 5 && "CRITICAL"@.len() == 8 && "ALERT"@.len() == 5
        && "EMERGENCY"@.len() == 9);
    assert("WARNING"@.len() == 7 && "WARN"@.len() == 4 && "INFO"@.len() == 4 && "NOTICE"@.len()
        == 6 && "DEBUG"@.len() == 5);
    assert("ERROR"@[0] == 'E' && "ALERT"@[0] == 'A' && "DEBUG"@[0] == 'D');
    assert("WARN"@[0] == 'W' && "INFO"@[0] == 'I');
}

/// A level name in any letter case stands for the level of its capitals:
/// whatever upper-cases to ALERT (or ERROR, CRITICAL, EMERGENCY) is an error,
/// to WARNING or WARN a warning, to INFO or NOTICE information, to DEBUG
/// debugging output.
pub proof fn lemma_level_names(s: Seq<char>)
    ensures
        uppercase_of(s) == "ERROR"@ || uppercase_of(s) == "CRITICAL"@ || uppercase_of(s)
            == "ALERT"@ || uppercase_of(s) == "EMERGENCY"@ ==> level_from_name(s) == Level::Error,
        uppercase_of(s) == "WARNING"@ || uppercase_of(s) == "WARN"@ ==> level_from_name(s)
            == Level::Warning,
        uppercase_of(s) == "INFO"@ || uppercase_of(s) == "NOTICE"@ ==> level_from_name(s)
            == Level::Info,
        uppercase_of(s) == "DEBUG"@ ==> level_from_name(s) == Level::Debug,
{
    lemma_level_words(uppercase_of(s));
}

} // verus!
