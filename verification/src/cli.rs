//! Subcommands of the command-line front end.

use vstd::prelude::*;

verus! {

/// A subcommand: stamp the upcoming section with a version.
pub enum Subcommand {
    AddVersion(String),
}

} // verus!
