//! Logging settings: the level and the output format, named as on the
//! command line.

use vstd::prelude::*;

use crate::roller::str_eq;

verus! {

/// How much to log.
#[derive(Clone, Copy, Debug, PartialEq, Eq, Structural)]
pub enum LogLevel {
    Trace,
    Debug,
    Info,
    Warn,
    Error,
}

/// How log lines are written.
#[derive(Clone, Copy, Debug, PartialEq, Eq, Structural)]
pub enum LogFormat {
    Text,
    Json,
}

/// The level that a name stands for: `trace`, `debug`, `info`, `warn` or
/// `error`.
pub open spec fn log_level_named(name: Seq<char>) -> Option<LogLevel> {
    if name == seq!['t', 'r', 'a', 'c', 'e'] {
        Some(LogLevel::Trace)
    } else if name == seq!['d', 'e', 'b', 'u', 'g'] {
        Some(LogLevel::Debug)
    } else if name == seq!['i', 'n', 'f', 'o'] {
        Some(LogLevel::Info)
    } else if name == seq!['w', 'a', 'r', 'n'] {
        Some(LogLevel::Warn)
    } else if name == seq!['e', 'r', 'r', 'o', 'r'] {
        Some(LogLevel::Error)
    } else {
        None
    }
}

/// The message for a name that stands for no level.
pub open spec fn invalid_level_message(name: Seq<char>) -> Seq<char> {
    "Invalid log level '"@ + name + "': expected one of trace, debug, info, warn, error"@
}

/// The message for a name that stands for no format.
pub open spec fn invalid_format_message(name: Seq<char>) -> Seq<char> {
    "Invalid log format '"@ + name + "': expected one of text, json"@
}

/// The format that a name stands for: `text` or `json`.
pub open spec fn log_format_named(name: Seq<char>) -> Option<LogFormat> {
    if name == seq!['t', 'e', 'x', 't'] {
        Some(LogFormat::Text)
    } else if name == seq!['j', 's', 'o', 'n'] {
        Some(LogFormat::Json)
    } else {
        None
    }
}

impl LogLevel {
    /// Reads a level name; `Err` carries a message that names the input.
    pub fn parse_name(name: &str) -> (r: Result<LogLevel, String>)
        ensures
            match log_level_named(name@) {
                Some(l) => r == Ok::<LogLevel, String>(l),
                None => r matches Err(m) && m@ == invalid_level_message(name@),
            },
    {
        proof {
            reveal_strlit("trace");
            reveal_strlit("debug");
            reveal_strlit("info");
            reveal_strlit("warn");
            reveal_strlit("error");
            assert("trace"@ =~= seq!['t', 'r', 'a', 'c', 'e']);
            assert("debug"@ =~= seq!['d', 'e', 'b', 'u', 'g']);
            assert("info"@ =~= seq!['i', 'n', 'f', 'o']);
            assert("warn"@ =~= seq!['w', 'a', 'r', 'n']);
            assert("error"@ =~= seq!['e', 'r', 'r', 'o', 'r']);
        }
        if str_eq(name, "trace") {
            Ok(LogLevel::Trace)
        } else if str_eq(name, "debug") {
            Ok(LogLevel::Debug)
        } else if str_eq(name, "info") {
            Ok(LogLevel::Info)
        } else if str_eq(name, "warn") {
            Ok(LogLevel::Warn)
        } else if str_eq(name, "error") {
            Ok(LogLevel::Error)
        } else {
            let mut msg = "Invalid log level '".to_owned();
            msg.append(name);
            msg.append("': expected one of trace, debug, info, warn, error");
            Err(msg)
        }
    }
}

impl LogFormat {
    /// Reads a format name; `Err` carries a message that names the input.
    pub fn parse_name(name: &str) -> (r: Result<LogFormat, String>)
        ensures
            match log_format_named(name@) {
                Some(f) => r == Ok::<LogFormat, String>(f),
                None => r matches Err(m) && m@ == invalid_format_message(name@),
            },
    {
        proof {
            reveal_strlit("text");
            reveal_strlit("json");
            assert("text"@ =~= seq!['t', 'e', 'x', 't']);
            assert("json"@ =~= seq!['j', 's', 'o', 'n']);
        }
        if str_eq(name, "text") {
            Ok(LogFormat::Text)
        } else if str_eq(name, "json") {
            Ok(LogFormat::Json)
        } else {
            let mut msg = "Invalid log format '".to_owned();
            msg.append(name);
            msg.append("': expected one of text, json");
            Err(msg)
        }
    }
}

} // verus!
