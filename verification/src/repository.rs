//! Where runs are kept: one state file per run under `runs/<run-id>/`, and
//! a `last-run` pointer to the most recently started run.
use vstd::prelude::*;

use crate::paths::{join, joined};
use crate::schema::name_is_valid;
use crate::text::{decimal, decimal_string, hex16, hex_digits, owned, str_eq};

verus! {

/// Whether a run ID is one safe path component: nonempty, not `.` or `..`,
/// and without `/`.
pub open spec fn run_id_ok(id: Seq<char>) -> bool {
    name_is_valid(id)
}

/// Why a run could not be found.
pub enum RepositoryError {
    /// No run was started yet.
    NoLastRun,
    /// The run ID is not one safe path component.
    InvalidRunId(String),
    /// No run has that ID.
    UnknownRun(String),
}

/// The run a selector names: `last` is the run the pointer names (if one
/// was started), anything else is a run ID that must be one safe path
/// component.
pub open spec fn selected_run(selector: Seq<char>, last: Option<Seq<char>>) -> Option<Seq<char>> {
    if selector == "last"@ {
        match last {
            Some(id) => if run_id_ok(id) {
                Some(id)
            } else {
                None
            },
            None => None,
        }
    } else if run_id_ok(selector) {
        Some(selector)
    } else {
        None
    }
}

/// The run a selector names, given the run ID the `last-run` pointer holds.
pub fn resolve_run(selector: &str, last: Option<&str>) -> (r: Result<String, RepositoryError>)
    ensures
        match selected_run(selector@, opt(last)) {
            Some(id) => r matches Ok(s) && s@ == id,
            None => r is Err,
        },
        r matches Err(RepositoryError::NoLastRun) <==> (selector@ == "last"@ && last is None),
{
    if str_eq(selector, "last") {
        match last {
            Some(id) => match crate::schema::validate_name(id) {
                Ok(()) => Ok(owned(id)),
                Err(_) => Err(RepositoryError::InvalidRunId(owned(id))),
            },
            None => Err(RepositoryError::NoLastRun),
        }
    } else {
        match crate::schema::validate_name(selector) {
            Ok(()) => Ok(owned(selector)),
            Err(_) => Err(RepositoryError::InvalidRunId(owned(selector))),
        }
    }
}

pub open spec fn opt(s: Option<&str>) -> Option<Seq<char>> {
    match s {
        Some(s) => Some(s@),
        None => None,
    }
}

/// The run ID a `last-run` pointer file holds: its text without one
/// trailing newline.
pub open spec fn pointer_id(text: Seq<char>) -> Seq<char> {
    if text.len() > 0 && text.last() == '\n' {
        text.drop_last()
    } else {
        text
    }
}

/// The run ID a `last-run` pointer file holds.
pub fn read_pointer(text: &str) -> (r: String)
    ensures
        r@ == pointer_id(text@),
{
    let n = text.unicode_len();
    if n > 0 && text.get_char(n - 1) == '\n' {
        crate::text::slice_chars(text, 0, n - 1)
    } else {
        owned(text)
    }
}

/// The text of a `last-run` pointer file naming `run_id`.
pub fn pointer_text(run_id: &str) -> (r: String)
    ensures
        r@ == run_id@ + "\n"@,
{
    let mut r = owned(run_id);
    r.append("\n");
    r
}

/// The directory of a run: `runs/<run-id>` in the state directory.
pub fn run_directory(state_directory: &str, run_id: &str) -> (r: String)
    ensures
        r@ == joined(joined(state_directory@, "runs"@), run_id@),
{
    let runs = join(state_directory, "runs");
    join(runs.as_str(), run_id)
}

/// The state file of a run.
pub fn run_state_path(state_directory: &str, run_id: &str) -> (r: String)
    ensures
        r@ == joined(joined(joined(state_directory@, "runs"@), run_id@), "state.json"@),
{
    let directory = run_directory(state_directory, run_id);
    join(directory.as_str(), "state.json")
}

/// The `last-run` pointer file of a state directory.
pub fn last_run_path(state_directory: &str) -> (r: String)
    ensures
        r@ == joined(state_directory@, "last-run"@),
{
    join(state_directory, "last-run")
}

/// A run ID: `run-<process>-<milliseconds>-<sequence>`.
pub open spec fn run_id_text(process: u32, milliseconds: u64, sequence: u64) -> Seq<char> {
    "run-"@ + decimal(process as nat) + "-"@ + decimal(milliseconds as nat) + "-"@ + decimal(
        sequence as nat,
    )
}

/// A run ID from the process ID, the start time and a per-process sequence
/// number.
pub fn run_identifier(process: u32, milliseconds: u64, sequence: u64) -> (r: String)
    ensures
        r@ == run_id_text(process, milliseconds, sequence),
{
    let mut r = owned("run-");
    r.append(decimal_string(process as u64).as_str());
    r.append("-");
    r.append(decimal_string(milliseconds).as_str());
    r.append("-");
    r.append(decimal_string(sequence).as_str());
    r
}

/// The hash the standard library's default hasher
/// (`std::collections::hash_map::DefaultHasher::new`, fed by `str`'s
/// `Hash`) gives for a text.  Its algorithm is unspecified and may change
/// between Rust releases; every hasher made by `new` computes the same one.
pub uninterp spec fn default_hash(input: Seq<char>) -> u64;

/// The default hasher's hash of `input`: a fresh `DefaultHasher::new()`,
/// fed `input` through `str`'s `Hash`, then `finish`.  The contract claims
/// only that the result is [`default_hash`] of the text.
#[verifier::external_body]
fn hash_text(input: &str) -> (h: u64)
    ensures
        h == default_hash(input@),
{
    let mut hasher = std::collections::hash_map::DefaultHasher::new();
    std::hash::Hash::hash(input, &mut hasher);
    std::hash::Hasher::finish(&hasher)
}

/// The fingerprint text of a hash: `stub-hash-` and sixteen lower-case
/// hexadecimal digits.
pub open spec fn fingerprint_text(h: u64) -> Seq<char> {
    "stub-hash-"@ + hex_digits(h as nat, 16)
}

/// The fingerprint text of a hash.
pub fn fingerprint_of_hash(h: u64) -> (r: String)
    ensures
        r@ == fingerprint_text(h),
{
    let mut r = owned("stub-hash-");
    r.append(hex16(h).as_str());
    r
}

/// A fingerprint of the loaded configuration text: the default hash of
/// the exact text, written as [`fingerprint_text`].
pub fn fingerprint(input: &str) -> (r: String)
    ensures
        r@ == fingerprint_text(default_hash(input@)),
{
    let h = hash_text(input);
    fingerprint_of_hash(h)
}

} // verus!
