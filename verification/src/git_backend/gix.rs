//! Sync through the second backend: errors are classified by their
//! message alone.
use vstd::prelude::*;

use crate::git_backend::{contains_exec, names_network_failure_exec};
use crate::git_backend;
use crate::text;

verus! {

/// A checked-out repository: where it is and the commit checked out.
pub struct SyncResult {
    pub repo_dir: String,
    pub commit: String,
}

/// Why a sync failed.
#[derive(Debug)]
pub enum GitSyncError {
    Network(String),
    RepoNotFound(String),
    RefNotFound(String),
    CheckoutFailed(String, String),
    CacheCorrupted(String),
    Other(String),
}

/// The message of a sync error.
pub open spec fn sync_error_message(e: GitSyncError) -> Seq<char> {
    match e {
        GitSyncError::Network(m) => "network failure while accessing repository: "@ + m@,
        GitSyncError::RepoNotFound(m) => "repository not found or inaccessible: "@ + m@,
        GitSyncError::RefNotFound(m) => "requested ref not found: "@ + m@,
        GitSyncError::CheckoutFailed(r, m) => "checkout failed for ref "@ + r@ + ": "@ + m@,
        GitSyncError::CacheCorrupted(m) => "local repository cache is corrupted: "@ + m@,
        GitSyncError::Other(m) => "git operation failed: "@ + m@,
    }
}

fn concat2(a: &str, b: &str) -> (out: String)
    ensures
        out@ == a@ + b@,
{
    let mut s = text::owned(a);
    text::string_push_str(&mut s, b);
    s
}

impl GitSyncError {
    /// The message that describes this error.
    pub fn message(&self) -> (out: String)
        ensures
            out@ == sync_error_message(*self),
    {
        match self {
            GitSyncError::Network(m) => concat2(
                "network failure while accessing repository: ",
                m.as_str(),
            ),
            GitSyncError::RepoNotFound(m) => concat2(
                "repository not found or inaccessible: ",
                m.as_str(),
            ),
            GitSyncError::RefNotFound(m) => concat2("requested ref not found: ", m.as_str()),
            GitSyncError::CheckoutFailed(r, m) => {
                let mut s = concat2("checkout failed for ref ", r.as_str());
                text::string_push_str(&mut s, ": ");
                text::string_push_str(&mut s, m.as_str());
                s
            },
            GitSyncError::CacheCorrupted(m) => concat2(
                "local repository cache is corrupted: ",
                m.as_str(),
            ),
            GitSyncError::Other(m) => concat2("git operation failed: ", m.as_str()),
        }
    }
}

/// The kind of report `classify` chooses.
pub enum GitErrorKind {
    Network,
    RepoNotFound,
    Other,
}

/// How an error is reported from its message alone: a missing repository
/// when it says `not found`; a network error when it names one; any other
/// failure otherwise.
pub open spec fn classify_kind(msg: Seq<char>) -> GitErrorKind {
    if git_backend::contains_text(msg, "not found"@) || git_backend::contains_text(
        msg,
        "Repository not found"@,
    ) {
        GitErrorKind::RepoNotFound
    } else if git_backend::names_network_failure(msg) {
        GitErrorKind::Network
    } else {
        GitErrorKind::Other
    }
}

/// Reports a git error from its message (kept in the report).
pub fn classify(msg: String) -> (e: GitSyncError)
    ensures
        match classify_kind(msg@) {
            GitErrorKind::Network => e matches GitSyncError::Network(m) && m == msg,
            GitErrorKind::RepoNotFound => e matches GitSyncError::RepoNotFound(m) && m == msg,
            GitErrorKind::Other => e matches GitSyncError::Other(m) && m == msg,
        },
{
    if contains_exec(msg.as_str(), "not found") || contains_exec(msg.as_str(), "Repository not found") {
        GitSyncError::RepoNotFound(msg)
    } else if names_network_failure_exec(msg.as_str()) {
        GitSyncError::Network(msg)
    } else {
        GitSyncError::Other(msg)
    }
}

} // verus!
