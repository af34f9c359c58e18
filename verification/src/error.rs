//! The errors of this library, and the messages that describe them.
use vstd::prelude::*;

use crate::text;

verus! {

/// Why an operation of this library failed.
#[derive(Debug)]
pub enum SkillError {
    /// An install target that is not one of the known targets.
    InvalidTarget(String),
    /// `SKILL.md` does not open with a `---` frontmatter block.
    MissingFrontmatter,
    /// The frontmatter has no nonempty `name`.
    MissingName,
    /// The directory to install holds no `SKILL.md`.
    MissingSkillMd,
    /// A request was refused with status 429: the request, the
    /// `Retry-After` header if any, and a preview of the answer.
    RateLimited(String, Option<String>, String),
    /// A request failed: the request, the HTTP status, and a preview of the answer.
    HttpStatus(String, String, String),
    /// A download that is not a ZIP archive: its content type and a preview.
    NotZip(String, String),
    /// The security scan of a skill blocked it, with this status.
    BlockedByScan(String),
    /// The store has no skill with that slug.
    SkillNotFound,
    /// A store entry without its numeric id.
    MissingId,
    /// No version was given and the store names none.
    NoVersion,
    /// No `SKILL.md` in a downloaded archive.
    SkillMdNotInArchive,
    /// Several directories of a downloaded archive hold a `SKILL.md`.
    MultipleSkillMd,
    /// An installed GitHub skill whose record has no repository address.
    MissingGitHubUrl(String),
    /// `config get` of a key that is not a setting.
    UnknownConfigKey(String),
    /// The user declined to install.
    Aborted,
    /// After installing, this directory holds no `SKILL.md`.
    InstallVerification(String),
    /// A search answer without `data.list`.
    MissingDataList,
}

/// The content type as error messages show it.
pub open spec fn shown_content_type(ct: Seq<char>) -> Seq<char> {
    if ct.len() == 0 {
        "<missing>"@
    } else {
        ct
    }
}

/// The message of an error.
pub open spec fn error_message(e: SkillError) -> Seq<char> {
    match e {
        SkillError::InvalidTarget(t) => "invalid target '"@ + t@
            + "', allowed targets: codex, qoder, qoderwork, kiro, workbuddy"@,
        SkillError::MissingFrontmatter => "SKILL.md must contain frontmatter"@,
        SkillError::MissingName => "frontmatter name is required"@,
        SkillError::MissingSkillMd => "missing SKILL.md in source directory"@,
        SkillError::RateLimited(ctx, retry, preview) => match retry {
            Some(r) => ctx@ + " failed with rate limit 429; retry after "@ + r@ + "s; response: "@
                + preview@,
            None => ctx@ + " failed with rate limit 429; response: "@ + preview@,
        },
        SkillError::HttpStatus(ctx, status, preview) => ctx@ + " failed with HTTP "@ + status@
            + "; response: "@ + preview@,
        SkillError::NotZip(ct, preview) => "clawhub download did not return a ZIP archive; content-type: "@
            + shown_content_type(ct@) + "; response preview: "@ + preview@,
        SkillError::BlockedByScan(status) => "blocked by security scan: "@ + status@,
        SkillError::SkillNotFound => "not found"@,
        SkillError::MissingId => "missing id"@,
        SkillError::NoVersion => "no version"@,
        SkillError::SkillMdNotInArchive => "SKILL.md not found in downloaded archive"@,
        SkillError::MultipleSkillMd => "multiple SKILL.md candidates found in downloaded archive"@,
        SkillError::MissingGitHubUrl(name) => "missing source.url for GitHub skill "@ + name@,
        SkillError::UnknownConfigKey(key) => "unknown config key: "@ + key@,
        SkillError::Aborted => "aborted"@,
        SkillError::InstallVerification(path) => "install verification failed: SKILL.md missing in "@
            + path@,
        SkillError::MissingDataList => "missing data.list"@,
    }
}

/// `a` followed by `b`, in a new string.
fn concat2(a: &str, b: &str) -> (out: String)
    ensures
        out@ == a@ + b@,
{
    let mut s = text::owned(a);
    text::string_push_str(&mut s, b);
    s
}

impl SkillError {
    /// The message that describes this error.
    pub fn message(&self) -> (out: String)
        ensures
            out@ == error_message(*self),
    {
        match self {
            SkillError::InvalidTarget(t) => {
                let mut s = concat2("invalid target '", t.as_str());
                text::string_push_str(
                    &mut s,
                    "', allowed targets: codex, qoder, qoderwork, kiro, workbuddy",
                );
                s
            },
            SkillError::MissingFrontmatter => text::owned("SKILL.md must contain frontmatter"),
            SkillError::MissingName => text::owned("frontmatter name is required"),
            SkillError::MissingSkillMd => text::owned("missing SKILL.md in source directory"),
            SkillError::RateLimited(ctx, retry, preview) => {
                let mut s = concat2(ctx.as_str(), " failed with rate limit 429; ");
                match retry {
                    Some(r) => {
                        text::string_push_str(&mut s, "retry after ");
                        text::string_push_str(&mut s, r.as_str());
                        text::string_push_str(&mut s, "s; ");
                    },
                    None => {},
                }
                text::string_push_str(&mut s, "response: ");
                text::string_push_str(&mut s, preview.as_str());
                proof {
                    reveal_strlit(" failed with rate limit 429; ");
                    reveal_strlit(" failed with rate limit 429; retry after ");
                    reveal_strlit("retry after ");
                    reveal_strlit("s; ");
                    reveal_strlit("s; response: ");
                    reveal_strlit("response: ");
                    reveal_strlit(" failed with rate limit 429; response: ");
                    assert(s@ =~= error_message(*self));
                }
                s
            },
            SkillError::HttpStatus(ctx, status, preview) => {
                let mut s = concat2(ctx.as_str(), " failed with HTTP ");
                text::string_push_str(&mut s, status.as_str());
                text::string_push_str(&mut s, "; response: ");
                text::string_push_str(&mut s, preview.as_str());
                s
            },
            SkillError::NotZip(ct, preview) => {
                let mut s = text::owned(
                    "clawhub download did not return a ZIP archive; content-type: ",
                );
                if ct.as_str().is_empty() {
                    text::string_push_str(&mut s, "<missing>");
                } else {
                    text::string_push_str(&mut s, ct.as_str());
                }
                text::string_push_str(&mut s, "; response preview: ");
                text::string_push_str(&mut s, preview.as_str());
                s
            },
            SkillError::BlockedByScan(status) => concat2(
                "blocked by security scan: ",
                status.as_str(),
            ),
            SkillError::SkillNotFound => text::owned("not found"),
            SkillError::MissingId => text::owned("missing id"),
            SkillError::NoVersion => text::owned("no version"),
            SkillError::SkillMdNotInArchive => text::owned(
                "SKILL.md not found in downloaded archive",
            ),
            SkillError::MultipleSkillMd => text::owned(
                "multiple SKILL.md candidates found in downloaded archive",
            ),
            SkillError::MissingGitHubUrl(name) => concat2(
                "missing source.url for GitHub skill ",
                name.as_str(),
            ),
            SkillError::UnknownConfigKey(key) => concat2("unknown config key: ", key.as_str()),
            SkillError::Aborted => text::owned("aborted"),
            SkillError::InstallVerification(path) => concat2(
                "install verification failed: SKILL.md missing in ",
                path.as_str(),
            ),
            SkillError::MissingDataList => text::owned("missing data.list"),
        }
    }
}

} // verus!
