//! Log levels and the threshold below which messages are dropped. Writing the
//! lines out is left to the caller.

use vstd::prelude::*;
use crate::text::push_str;

verus! {

#[derive(Clone, Copy, Debug, PartialEq, Eq)]
pub enum LogLevel {
    Debug,
    Info,
    Warning,
    Error,
}

impl LogLevel {
    /// The level's place in the order `Debug < Info < Warning < Error`.
    pub open spec fn rank(self) -> nat {
        match self {
            LogLevel::Debug => 0,
            LogLevel::Info => 1,
            LogLevel::Warning => 2,
            LogLevel::Error => 3,
        }
    }

    pub open spec fn spec_name(self) -> Seq<char> {
        match self {
            LogLevel::Debug => "DEBUG"@,
            LogLevel::Info => "INFO"@,
            LogLevel::Warning => "WARNING"@,
            LogLevel::Error => "ERROR"@,
        }
    }

    /// The level's name, in capitals.
    pub fn name(&self) -> (r: &'static str)
        ensures
            r@ == self.spec_name(),
    {
        match self {
            LogLevel::Debug => "DEBUG",
            LogLevel::Info => "INFO",
            LogLevel::Warning => "WARNING",
            LogLevel::Error => "ERROR",
        }
    }

    /// The level's name, as a `String`.
    pub fn to_string(&self) -> (r: String)
        ensures
            r@ == self.spec_name(),
    {
        String::from_str(self.name())
    }

    pub fn rank_of(&self) -> (r: u8)
        ensures
            r as nat == self.rank(),
    {
        match self {
            LogLevel::Debug => 0,
            LogLevel::Info => 1,
            LogLevel::Warning => 2,
            LogLevel::Error => 3,
        }
    }

    /// Reads a level from its name, in any case.
    pub fn try_from(value: &str) -> (r: Result<LogLevel, String>)
        ensures
            match r {
                Ok(level) => names_level(value@, level),
                Err(msg) => (forall|l: LogLevel| !names_level(value@, l)) && msg@
                    == "Expected one of DEBUG, INFO, WARNING, or ERROR, but got \""@ + value@
                    + "\" instead"@,
            },
    {
        if spells_upper(value, "DEBUG") {
            Ok(LogLevel::Debug)
        } else if spells_upper(value, "INFO") {
            Ok(LogLevel::Info)
        } else if spells_upper(value, "WARNING") {
            Ok(LogLevel::Warning)
        } else if spells_upper(value, "ERROR") {
            Ok(LogLevel::Error)
        } else {
            proof {
                assert forall|l: LogLevel| !names_level(value@, l) by {
                    match l {
                        LogLevel::Debug => {},
                        LogLevel::Info => {},
                        LogLevel::Warning => {},
                        LogLevel::Error => {},
                    }
                }
            }
            let mut msg = String::from_str("Expected one of DEBUG, INFO, WARNING, or ERROR, but got \"");
            push_str(&mut msg, value);
            push_str(&mut msg, "\" instead");
            Err(msg)
        }
    }
}

/// `c` is the capital `upper`, in either case.
pub open spec fn matches_upper(upper: char, c: char) -> bool {
    c == upper || ('a' <= c && c <= 'z' && c as u32 == upper as u32 + 32)
}

/// `v` spells the capitalised `name`, ignoring ASCII case.
pub open spec fn spells_name(name: Seq<char>, v: Seq<char>) -> bool {
    v.len() == name.len() && forall|i: int| 0 <= i < v.len() ==> matches_upper(name[i], #[trigger] v[i])
}

pub open spec fn names_level(v: Seq<char>, level: LogLevel) -> bool {
    spells_name(level.spec_name(), v)
}

fn spells_upper(value: &str, name: &str) -> (r: bool)
    ensures
        r == spells_name(name@, value@),
{
    let n = name.unicode_len();
    if value.unicode_len() != n {
        return false;
    }
    let mut i: usize = 0;
    while i < n
        invariant
            i <= n == name@.len() == value@.len(),
            forall|j: int| 0 <= j < i ==> matches_upper(name@[j], #[trigger] value@[j]),
        decreases n - i,
    {
        let u = name.get_char(i);
        let c = value.get_char(i);
        if !(c == u || ('a' <= c && c <= 'z' && c as u32 == u as u32 + 32)) {
            return false;
        }
        i = i + 1;
    }
    true
}

/// Where log lines go is the caller's concern: the logger only keeps the level
/// below which lines are dropped.
pub struct Logger {
    pub threshold: LogLevel,
}

impl Logger {
    pub fn default() -> (r: Logger)
        ensures
            r.threshold == LogLevel::Debug,
    {
        Logger { threshold: LogLevel::Debug }
    }

    /// Whether a line at `level` is written.
    pub fn should_log(&self, level: LogLevel) -> (r: bool)
        ensures
            r == (level.rank() >= self.threshold.rank()),
    {
        level.rank_of() >= self.threshold.rank_of()
    }

    /// The line written for `text` at `level`: `LEVEL: text` and a newline.
    pub fn format_line(level: LogLevel, text: &str) -> (r: String)
        ensures
            r@ == level.spec_name() + ": "@ + text@ + "\n"@,
    {
        let mut line = level.to_string();
        push_str(&mut line, ": ");
        push_str(&mut line, text);
        push_str(&mut line, "\n");
        line
    }
}

/// Sets the level below which lines are dropped.
pub fn set_threshold(logger: &mut Logger, threshold: LogLevel)
    ensures
        final(logger).threshold == threshold,
{
    logger.threshold = threshold;
}

} // verus!
