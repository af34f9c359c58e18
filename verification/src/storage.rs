//! Where installed skills live inside a target directory, and how their
//! records are read back.
use vstd::prelude::*;

use crate::config::join_path;
use crate::config::join_path_exec;
use crate::json;
use crate::json::JsonValue;
use crate::text;

verus! {

/// The skills of one install target, kept under `base`.
pub struct SkillStorage {
    pub base: String,
}

/// The record kept beside an installed skill.
pub struct InstalledSkill {
    pub name: String,
    pub version: String,
    pub target: Option<String>,
    pub source: JsonValue,
}

impl SkillStorage {
    /// The skills kept under `base`.
    pub fn new(base: String) -> (s: SkillStorage)
        ensures
            s.base == base,
    {
        SkillStorage { base }
    }

    /// The directory of skill `n`.
    pub fn skill_path(&self, n: &str) -> (out: String)
        ensures
            out@ == join_path(self.base@, n@),
    {
        join_path_exec(self.base.as_str(), n)
    }

    /// The files whose presence means skill `n` is installed:
    /// `SKILL.md`, then `skill.md`, in its directory.
    pub fn manifest_paths(&self, n: &str) -> (out: Vec<String>)
        ensures
            text::string_views(out@) == seq![
                join_path(join_path(self.base@, n@), "SKILL.md"@),
                join_path(join_path(self.base@, n@), "skill.md"@),
            ],
    {
        let p = self.skill_path(n);
        let v = vec![join_path_exec(p.as_str(), "SKILL.md"), join_path_exec(p.as_str(), "skill.md")];
        assert(text::string_views(v@) =~= seq![
            join_path(join_path(self.base@, n@), "SKILL.md"@),
            join_path(join_path(self.base@, n@), "skill.md"@),
        ]);
        v
    }

    /// The directory that holds the record of skill `n`.
    pub fn info_dir(&self, n: &str) -> (out: String)
        ensures
            out@ == join_path(join_path(self.base@, n@), ".skillhub"@),
    {
        let p = self.skill_path(n);
        join_path_exec(p.as_str(), ".skillhub")
    }

    /// The record file of skill `n`.
    pub fn info_path(&self, n: &str) -> (out: String)
        ensures
            out@ == join_path(join_path(self.base@, n@), ".skillhub/info.json"@),
    {
        let p = self.skill_path(n);
        join_path_exec(p.as_str(), ".skillhub/info.json")
    }
}

// ---------------------------------------------------------------------------
// Listing installed skills
// ---------------------------------------------------------------------------

/// The source a record names: its `type` when a string, else the record
/// itself when a string; trimmed; `legacy` when that leaves nothing.
pub open spec fn spec_source_label(source: JsonValue) -> Seq<char> {
    let raw = json::or_else(
        json::get_str(source, "type"@),
        json::json_as_str(Some(source)),
    );
    match raw {
        Some(t) if text::trim(t).len() > 0 => text::trim(t),
        _ => "legacy"@,
    }
}

/// The source an installed skill's record names (see `spec_source_label`).
pub fn source_label(source: &JsonValue) -> (out: String)
    ensures
        out@ == spec_source_label(*source),
{
    let raw = match json::get_str_exec(source, "type") {
        Some(t) => Some(t),
        None => json::as_str(Some(source)),
    };
    match raw {
        Some(t) => {
            let tt = text::trim_chars(&text::chars_of(t));
            if tt.len() > 0 {
                text::string_from(&tt)
            } else {
                text::owned("legacy")
            }
        },
        None => text::owned("legacy"),
    }
}

/// The description a record names (empty when it has none).
pub fn source_description(source: &JsonValue) -> (out: String)
    ensures
        out@ == (match json::get_str(*source, "description"@) {
            Some(d) => d,
            None => Seq::empty(),
        }),
{
    match json::get_str_exec(source, "description") {
        Some(d) => text::owned(d),
        None => String::new(),
    }
}

/// A description as the tables show it: longer than 80 characters, it is
/// cut to 77 followed by `...`.
pub open spec fn spec_clip_description(d: Seq<char>) -> Seq<char> {
    if d.len() > 80 {
        d.take(77) + "..."@
    } else {
        d
    }
}

/// A description as the tables show it (see `spec_clip_description`).
pub fn clip_description(d: &str) -> (out: String)
    ensures
        out@ == spec_clip_description(d@),
{
    let c = text::chars_of(d);
    if c.len() > 80 {
        let mut s = text::string_from(&text::copy_range(&c, 0, 77));
        text::string_push_str(&mut s, "...");
        proof {
            assert(c@.subrange(0, 77) =~= c@.take(77));
        }
        s
    } else {
        text::owned(d)
    }
}

} // verus!
