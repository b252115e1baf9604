//! Rolling Org-mode changelogs: locating the "upcoming" section, deciding
//! whether it is ready to be released, stamping it with a version, inserting
//! numbered items, and diffing visible content between two revisions.

pub mod text;
pub mod org_syntax;
pub mod outline;
pub mod roller;
pub mod logging;
pub mod config;
pub mod operation;
pub mod cli;
pub mod congruence;
pub mod laws;

pub use logging::{LogFormat, LogLevel};
pub use roller::{has_section_additions, insert_item, is_ready_to_roll, roll, RollError};
pub use text::bullet_number;
