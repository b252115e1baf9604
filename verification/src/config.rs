//! Configuration: the command line and the configuration file, merged into
//! the settings a run uses.  Reading the file and parsing the command line
//! happen around the library; this module decides what the settings are.

use vstd::prelude::*;

use crate::logging::{
    invalid_format_message, invalid_level_message, log_format_named, log_level_named, LogFormat,
    LogLevel,
};

verus! {

/// What went wrong while loading the configuration.
pub enum ConfigError {
    /// The configuration file at `path` could not be read.
    FileRead { path: String, message: String },
    /// The configuration file at `path` is not valid TOML for the settings.
    Parse { path: String, message: String },
    /// A setting holds a value that is not allowed.
    Validation(String),
}

/// The subcommand given on the command line.
pub enum CliCommand {
    /// Stamp the upcoming section as a new version and start a fresh one.
    Roll { version: String },
    /// Succeed only if the upcoming section has changes.
    ReadyToRoll,
    /// Succeed only if entries were added relative to the git ref `base`,
    /// under the upcoming section or the sub-headings `under` lead to.
    CheckAdditions { base: String, under: Vec<String> },
    /// Insert an item with `body` under the sub-heading `heading`.
    InsertItem { heading: String, body: String },
}

/// The command line, as given.
pub struct CliRaw {
    pub log_level: Option<String>,
    pub log_format: Option<String>,
    /// Path to the configuration file.
    pub config: Option<String>,
    /// The changelog to process.
    pub input_file: Option<String>,
    /// Write the result back to the input file rather than to stdout.
    pub in_place: bool,
    /// Name of the heading that accumulates unreleased changes.
    pub upcoming_heading: Option<String>,
    pub command: CliCommand,
}

/// The configuration file, as read.
pub struct ConfigFileRaw {
    pub log_level: Option<String>,
    pub log_format: Option<String>,
    pub input_file: Option<String>,
    pub upcoming_heading: Option<String>,
}

/// The settings of a run.
pub struct Config {
    pub log_level: LogLevel,
    pub log_format: LogFormat,
    pub input_file: String,
    pub in_place: bool,
    pub upcoming_heading: String,
    pub command: CliCommand,
}

impl ConfigFileRaw {
    /// A configuration file that sets nothing.
    pub fn empty() -> (r: ConfigFileRaw)
        ensures
            r.log_level is None,
            r.log_format is None,
            r.input_file is None,
            r.upcoming_heading is None,
    {
        ConfigFileRaw { log_level: None, log_format: None, input_file: None, upcoming_heading: None }
    }
}

/// The first of the command-line value, the file value and the default.
pub open spec fn pick(cli: Option<String>, file: Option<String>, default: Seq<char>) -> Seq<char> {
    match cli {
        Some(v) => v@,
        None => match file {
            Some(v) => v@,
            None => default,
        },
    }
}

/// The default log level.
pub open spec fn default_log_level() -> Seq<char> {
    seq!['i', 'n', 'f', 'o']
}

/// The default log format.
pub open spec fn default_log_format() -> Seq<char> {
    seq!['t', 'e', 'x', 't']
}

/// The default changelog.
pub open spec fn default_input_file() -> Seq<char> {
    seq!['C', 'H', 'A', 'N', 'G', 'E', 'L', 'O', 'G', '.', 'o', 'r', 'g']
}

/// The default name of the upcoming heading.
pub open spec fn default_upcoming_heading() -> Seq<char> {
    seq!['U', 'p', 'c', 'o', 'm', 'i', 'n', 'g']
}

fn pick_exec(cli: Option<String>, file: Option<String>, default: &str) -> (r: String)
    ensures
        r@ == pick(cli, file, default@),
{
    match cli {
        Some(v) => v,
        None => match file {
            Some(v) => v,
            None => default.to_owned(),
        },
    }
}

impl Config {
    /// Merges the command line with the configuration file: each setting
    /// comes from the command line, else from the file, else from its
    /// default (`info`, `text`, `CHANGELOG.org`, `Upcoming`).  A log level
    /// or format that names nothing is a validation error.
    pub fn from_cli_and_file(cli: CliRaw, file: ConfigFileRaw) -> (r: Result<Config, ConfigError>)
        ensures
            ({
                let level = log_level_named(
                    pick(cli.log_level, file.log_level, default_log_level()),
                );
                let format = log_format_named(
                    pick(cli.log_format, file.log_format, default_log_format()),
                );
                match r {
                    Ok(c) => {
                        &&& level == Some(c.log_level)
                        &&& format == Some(c.log_format)
                        &&& c.input_file@ == pick(
                            cli.input_file,
                            file.input_file,
                            default_input_file(),
                        )
                        &&& c.upcoming_heading@ == pick(
                            cli.upcoming_heading,
                            file.upcoming_heading,
                            default_upcoming_heading(),
                        )
                        &&& c.in_place == cli.in_place
                        &&& c.command == cli.command
                    },
                    Err(e) => match level {
                        None => e matches ConfigError::Validation(m) && m@ == invalid_level_message(
                            pick(cli.log_level, file.log_level, default_log_level()),
                        ),
                        Some(_) => format is None && (e matches ConfigError::Validation(m) && m@
                            == invalid_format_message(
                            pick(cli.log_format, file.log_format, default_log_format()),
                        )),
                    },
                }
            }),
    {
        proof {
            reveal_strlit("info");
            reveal_strlit("text");
            reveal_strlit("CHANGELOG.org");
            reveal_strlit("Upcoming");
            assert("info"@ =~= default_log_level());
            assert("text"@ =~= default_log_format());
            assert("CHANGELOG.org"@ =~= default_input_file());
            assert("Upcoming"@ =~= default_upcoming_heading());
        }
        let level_name = pick_exec(cli.log_level, file.log_level, "info");
        let log_level = match LogLevel::parse_name(level_name.as_str()) {
            Ok(l) => l,
            Err(msg) => {
                return Err(ConfigError::Validation(msg));
            },
        };
        let format_name = pick_exec(cli.log_format, file.log_format, "text");
        let log_format = match LogFormat::parse_name(format_name.as_str()) {
            Ok(f) => f,
            Err(msg) => {
                return Err(ConfigError::Validation(msg));
            },
        };
        let input_file = pick_exec(cli.input_file, file.input_file, "CHANGELOG.org");
        let upcoming_heading = pick_exec(cli.upcoming_heading, file.upcoming_heading, "Upcoming");
        Ok(
            Config {
                log_level,
                log_format,
                input_file,
                in_place: cli.in_place,
                upcoming_heading,
                command: cli.command,
            },
        )
    }
}

} // verus!
