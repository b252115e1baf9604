//! The operations the library performs on a changelog: `ready_to_roll`,
//! `check_additions`, `roll` and `insert_item`.  Each takes the text that
//! was read and returns an outcome callers can match on; reading and
//! writing files and running git happen around them.

use vstd::prelude::*;

use crate::roller::{
    self, additions_on_texts, bytes_view, inserted_on_text, path_view, ready_on_text,
    rolled_on_text, RollError,
};
use crate::text::utf8;

verus! {

/// Failures around the operations: I/O problems, git invocation problems,
/// encoding problems.  Recoverable conditions, such as a missing heading,
/// are outcomes instead.
pub enum OperationError {
    /// The changelog at `path` could not be read.
    ReadChangelog { path: String, message: String },
    /// The changelog at `path` could not be written.
    WriteChangelog { path: String, message: String },
    /// git could not be run.
    GitRun(String),
    /// `git show <git_ref>:<path>` failed.
    GitShow { git_ref: String, path: String, stderr: String },
    /// git's output is not valid UTF-8.
    GitOutputEncoding(String),
}

/// Result of a `ready-to-roll` check.
pub enum ReadyToRollOutcome {
    /// The section has at least one populated subsection.
    Ready,
    /// The section exists but all its subsections are empty.
    NoChanges,
    /// No heading matched the segment `heading` of the path.
    HeadingNotFound { heading: String },
}

/// Result of a `check-additions` diff.
pub enum CheckAdditionsOutcome {
    HasAdditions,
    NoAdditions,
}

/// Result of a changelog-mutating operation (`roll`, `insert-item`).
pub enum MutationOutcome {
    /// The updated changelog was written back to the input file.
    WrittenInPlace,
    /// The updated changelog, for the caller to use.
    Content(String),
    /// No heading matched the segment `heading` of the path.
    HeadingNotFound { heading: String },
}

/// What a mutating operation leaves to do: the text to write back to the
/// input file, if any, and the outcome to report once it is written.
pub struct Delivery {
    pub write_back: Option<String>,
    pub outcome: MutationOutcome,
}

/// The readiness answer an outcome stands for.
pub open spec fn ready_view(o: ReadyToRollOutcome) -> Result<bool, Seq<char>> {
    match o {
        ReadyToRollOutcome::Ready => Ok(true),
        ReadyToRollOutcome::NoChanges => Ok(false),
        ReadyToRollOutcome::HeadingNotFound { heading } => Err(heading@),
    }
}

/// How the result of a mutation is delivered.
pub open spec fn delivery_view(d: Delivery) -> Result<Seq<u8>, Seq<char>> {
    match (d.write_back, d.outcome) {
        (Some(text), MutationOutcome::WrittenInPlace) => Ok(utf8(text@)),
        (None, MutationOutcome::Content(text)) => Ok(utf8(text@)),
        (None, MutationOutcome::HeadingNotFound { heading }) => Err(heading@),
        _ => Err(Seq::empty()),
    }
}

/// Whether a delivery is shaped as `in_place` asks: a write-back exactly
/// when the result is written in place.
pub open spec fn delivered_as(d: Delivery, in_place: bool) -> bool {
    match d.outcome {
        MutationOutcome::WrittenInPlace => in_place && d.write_back is Some,
        MutationOutcome::Content(_) => !in_place && d.write_back is None,
        MutationOutcome::HeadingNotFound { .. } => d.write_back is None,
    }
}

/// The path to a section: the upcoming heading, then the sub-headings to
/// drill into.
pub fn section_path(upcoming_heading: &str, under: &[String]) -> (p: Vec<String>)
    ensures
        path_view(p@) == seq![upcoming_heading@] + path_view(under@),
{
    let mut p: Vec<String> = Vec::new();
    p.push(upcoming_heading.to_owned());
    assert(path_view(p@) =~= seq![upcoming_heading@] + path_view(under@.take(0)));
    let mut i: usize = 0;
    while i < under.len()
        invariant
            i <= under.len(),
            path_view(p@) == seq![upcoming_heading@] + path_view(under@.take(i as int)),
        decreases under.len() - i,
    {
        let ghost prev = p@;
        p.push(under[i].clone());
        assert(path_view(p@) =~= path_view(prev).push(under@[i as int]@));
        assert(path_view(under@.take(i + 1)) =~= path_view(under@.take(i as int)).push(
            under@[i as int]@,
        ));
        assert(path_view(p@) =~= seq![upcoming_heading@] + path_view(under@.take(i + 1)));
        i = i + 1;
    }
    assert(under@.take(i as int) =~= under@);
    p
}

/// Decides whether the mutated changelog goes back to the input file or to
/// the caller.
pub fn deliver(content: String, in_place: bool) -> (d: Delivery)
    ensures
        delivery_view(d) == Ok::<Seq<u8>, Seq<char>>(utf8(content@)),
        delivered_as(d, in_place),
{
    if in_place {
        Delivery { write_back: Some(content), outcome: MutationOutcome::WrittenInPlace }
    } else {
        Delivery { write_back: None, outcome: MutationOutcome::Content(content) }
    }
}

/// Reports whether the section at `path` of the changelog `content` is
/// ready to be stamped with a version.  A missing heading is an outcome.
pub fn ready_to_roll(content: &str, path: &[String]) -> (r: ReadyToRollOutcome)
    ensures
        ready_on_text(content@, path_view(path@), ready_view(r)),
{
    match roller::is_ready_to_roll(content, path) {
        Ok(true) => ReadyToRollOutcome::Ready,
        Ok(false) => ReadyToRollOutcome::NoChanges,
        Err(RollError::HeadingNotFound { heading }) => ReadyToRollOutcome::HeadingNotFound {
            heading,
        },
    }
}

/// Reports whether `head_content` added visible entries under the section
/// at `path` relative to `base_content`.
pub fn check_additions(head_content: &str, base_content: &str, path: &[String]) -> (r:
    CheckAdditionsOutcome)
    ensures
        additions_on_texts(base_content@, head_content@, path_view(path@), r is HasAdditions),
{
    if roller::has_section_additions(base_content, head_content, path) {
        CheckAdditionsOutcome::HasAdditions
    } else {
        CheckAdditionsOutcome::NoAdditions
    }
}

fn deliver_result(r: Result<String, RollError>, in_place: bool) -> (d: Delivery)
    ensures
        delivery_view(d) == bytes_view(r),
        delivered_as(d, in_place),
{
    match r {
        Ok(text) => deliver(text, in_place),
        Err(RollError::HeadingNotFound { heading }) => Delivery {
            write_back: None,
            outcome: MutationOutcome::HeadingNotFound { heading },
        },
    }
}

/// Rolls the changelog `content` forward by stamping the section at `path`
/// as `version`, delivered in place or as content.
pub fn roll(content: String, version: &str, path: &[String], in_place: bool) -> (d: Delivery)
    ensures
        rolled_on_text(content@, version@, path_view(path@), delivery_view(d)),
        delivered_as(d, in_place),
{
    let r = roller::roll(content, version, path);
    deliver_result(r, in_place)
}

/// Inserts an item with `body` under `item_heading` (found or created)
/// inside the section at `parent_path` of the changelog `content`,
/// delivered in place or as content.
pub fn insert_item(
    content: String,
    parent_path: &[String],
    item_heading: &str,
    body: &str,
    in_place: bool,
) -> (d: Delivery)
    ensures
        inserted_on_text(
            content@,
            path_view(parent_path@),
            item_heading@,
            body@,
            delivery_view(d),
        ),
        delivered_as(d, in_place),
{
    let r = roller::insert_item(content, parent_path, item_heading, body);
    deliver_result(r, in_place)
}

} // verus!
