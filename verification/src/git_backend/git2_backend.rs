//! Sync through libgit2: errors are classified by their class and code,
//! then by their message.
use vstd::prelude::*;

use crate::git_backend::{contains_exec, names_network_failure_exec};
use crate::git_backend;
use crate::text;

verus! {

/// A checked-out repository: where it is and the commit checked out.
pub struct SyncResult {
    pub repo_dir: String,
    pub commit: String,
}

/// Why a sync failed.
#[derive(Debug)]
pub enum GitSyncError {
    Network(String),
    RepoNotFound(String),
    RefNotFound(String),
    CheckoutFailed(String, String),
    CacheCorrupted(String),
    Other(String),
}

/// The message of a sync error.
pub open spec fn sync_error_message(e: GitSyncError) -> Seq<char> {
    match e {
        GitSyncError::Network(m) => "network failure while accessing repository: "@ + m@,
        GitSyncError::RepoNotFound(m) => "repository not found or inaccessible: "@ + m@,
        GitSyncError::RefNotFound(m) => "requested ref not found: "@ + m@,
        GitSyncError::CheckoutFailed(r, m) => "checkout failed for ref "@ + r@ + ": "@ + m@,
        GitSyncError::CacheCorrupted(m) => "local repository cache is corrupted: "@ + m@,
        GitSyncError::Other(m) => "git operation failed: "@ + m@,
    }
}

fn concat2(a: &str, b: &str) -> (out: String)
    ensures
        out@ == a@ + b@,
{
    let mut s = text::owned(a);
    text::string_push_str(&mut s, b);
    s
}

impl GitSyncError {
    /// The message that describes this error.
    pub fn message(&self) -> (out: String)
        ensures
            out@ == sync_error_message(*self),
    {
        match self {
            GitSyncError::Network(m) => concat2(
                "network failure while accessing repository: ",
                m.as_str(),
            ),
            GitSyncError::RepoNotFound(m) => concat2(
                "repository not found or inaccessible: ",
                m.as_str(),
            ),
            GitSyncError::RefNotFound(m) => concat2("requested ref not found: ", m.as_str()),
            GitSyncError::CheckoutFailed(r, m) => {
                let mut s = concat2("checkout failed for ref ", r.as_str());
                text::string_push_str(&mut s, ": ");
                text::string_push_str(&mut s, m.as_str());
                s
            },
            GitSyncError::CacheCorrupted(m) => concat2(
                "local repository cache is corrupted: ",
                m.as_str(),
            ),
            GitSyncError::Other(m) => concat2("git operation failed: ", m.as_str()),
        }
    }
}

/// The codes of libgit2 errors that the classification looks at.
#[derive(Clone, Copy)]
pub enum GitErrorCode {
    NotFound,
    Certificate,
    Auth,
    Other,
}

/// The kind of report `classify` chooses.
pub enum GitErrorKind {
    Network,
    RepoNotFound,
    Other,
}

/// How a libgit2 error is reported: a network error when its class is
/// `Net` or its code `Certificate` or `Auth`; a missing repository when its
/// code is `NotFound` and its message says `not found`; a network error
/// when its message names one; any other failure otherwise.
pub open spec fn classify_kind(net_class: bool, code: GitErrorCode, msg: Seq<char>) -> GitErrorKind {
    if net_class || code is Certificate || code is Auth {
        GitErrorKind::Network
    } else if code is NotFound && (git_backend::contains_text(msg, "Repository not found"@)
        || git_backend::contains_text(msg, "not found"@)) {
        GitErrorKind::RepoNotFound
    } else if git_backend::names_network_failure(msg) {
        GitErrorKind::Network
    } else {
        GitErrorKind::Other
    }
}

/// Reports a libgit2 error: `net_class` says whether its class is `Net`,
/// `code` is its code, `msg` its message (kept in the report).
pub fn classify(net_class: bool, code: GitErrorCode, msg: String) -> (e: GitSyncError)
    ensures
        match classify_kind(net_class, code, msg@) {
            GitErrorKind::Network => e matches GitSyncError::Network(m) && m == msg,
            GitErrorKind::RepoNotFound => e matches GitSyncError::RepoNotFound(m) && m == msg,
            GitErrorKind::Other => e matches GitSyncError::Other(m) && m == msg,
        },
{
    let is_cert_or_auth = match code {
        GitErrorCode::Certificate => true,
        GitErrorCode::Auth => true,
        _ => false,
    };
    let is_not_found = match code {
        GitErrorCode::NotFound => true,
        _ => false,
    };
    if net_class || is_cert_or_auth {
        GitSyncError::Network(msg)
    } else if is_not_found && (contains_exec(msg.as_str(), "Repository not found") || contains_exec(
        msg.as_str(),
        "not found",
    )) {
        GitSyncError::RepoNotFound(msg)
    } else if names_network_failure_exec(msg.as_str()) {
        GitSyncError::Network(msg)
    } else {
        GitSyncError::Other(msg)
    }
}

} // verus!
