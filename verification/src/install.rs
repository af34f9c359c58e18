//! The decisions of `install`: which source and version to ask for, which
//! directory of a download is the skill, and what is recorded about it.
use vstd::prelude::*;

use crate::error::SkillError;
use crate::json;
use crate::json::JsonValue;
use crate::sources::github::GitHubSource;
use crate::sources::RemoteSkill;
use crate::text;
use crate::text::CharClass;

verus! {

/// What `parse_skill_identifier` finds in `[source:]slug[@version]`.
pub open spec fn spec_parse_skill_identifier(v: Seq<char>) -> (
    Option<Seq<char>>,
    Seq<char>,
    Option<Seq<char>>,
) {
    let (s, ver) = match text::split_once(v, CharClass::Exactly('@')) {
        Some((a, b)) => (a, Some(b)),
        None => (v, None),
    };
    match text::split_once(s, CharClass::Exactly(':')) {
        Some((src, slug)) => (Some(src), slug, ver),
        None => (None, s, ver),
    }
}

/// Splits `[source:]slug[@version]`: the version follows the first `@`,
/// and the source precedes the first `:` before it.
pub fn parse_skill_identifier(v: &str) -> (out: (Option<String>, String, Option<String>))
    ensures
        (text::opt_view(out.0), out.1@, text::opt_view(out.2)) == spec_parse_skill_identifier(v@),
{
    let c = text::chars_of(v);
    let (s, ver) = match text::split_once_chars(&c, CharClass::Exactly('@')) {
        Some((a, b)) => (a, Some(text::string_from(&b))),
        None => (c, None),
    };
    match text::split_once_chars(&s, CharClass::Exactly(':')) {
        Some((src, slug)) => (Some(text::string_from(&src)), text::string_from(&slug), ver),
        None => (None, text::string_from(&s), ver),
    }
}

/// An identifier is its parts put back together: the source and `:` (when
/// there is a source), the slug, and `@` with the version (when there is a
/// version). The source holds no `:` or `@`, the slug no `@`, and with no
/// source the slug holds no `:` either: the version follows the first `@`,
/// and the source is what precedes the first `:` before it.
pub proof fn lemma_identifier_parts(v: Seq<char>)
    ensures
        ({
            let (src, slug, ver) = spec_parse_skill_identifier(v);
            &&& v == (match src {
                Some(s) => s + seq![':'],
                None => Seq::<char>::empty(),
            }) + slug + (match ver {
                Some(w) => seq!['@'] + w,
                None => Seq::<char>::empty(),
            })
            &&& !slug.contains('@')
            &&& src matches Some(s) ==> !s.contains(':') && !s.contains('@')
            &&& src is None ==> !slug.contains(':')
        }),
{
    text::lemma_split_once_exactly(v, '@');
    let s = match text::split_once(v, CharClass::Exactly('@')) {
        Some((a, b)) => a,
        None => v,
    };
    text::lemma_split_once_exactly(s, ':');
    let (src, slug, ver) = spec_parse_skill_identifier(v);
    match text::split_once(s, CharClass::Exactly(':')) {
        Some((a, b)) => {
            assert(!b.contains('@')) by {
                if b.contains('@') {
                    let k = choose|k: int| 0 <= k < b.len() && b[k] == '@';
                    assert(s[a.len() + 1 + k] == '@');
                }
            }
            assert(!a.contains('@')) by {
                if a.contains('@') {
                    let k = choose|k: int| 0 <= k < a.len() && a[k] == '@';
                    assert(s[k] == '@');
                }
            }
        },
        None => {},
    }
    match ver {
        Some(w) => {
            assert(v =~= (match src {
                Some(x) => x + seq![':'],
                None => Seq::<char>::empty(),
            }) + slug + (seq!['@'] + w));
        },
        None => {
            assert(v =~= (match src {
                Some(x) => x + seq![':'],
                None => Seq::<char>::empty(),
            }) + slug + Seq::<char>::empty());
        },
    }
}

/// `source:slug` names the source and the slug, and `source:slug@version`
/// the version too, whenever source and slug hold no `:` or `@`; a bare
/// `slug` (or `slug@version`) names no source.
pub proof fn lemma_identifier_forms(s: Seq<char>, t: Seq<char>, w: Seq<char>)
    requires
        !s.contains(':'),
        !s.contains('@'),
        !t.contains(':'),
        !t.contains('@'),
    ensures
        spec_parse_skill_identifier(s + seq![':'] + t) == (Some(s), t, None::<Seq<char>>),
        spec_parse_skill_identifier(s + seq![':'] + t + seq!['@'] + w) == (Some(s), t, Some(w)),
        spec_parse_skill_identifier(t) == (None::<Seq<char>>, t, None::<Seq<char>>),
        spec_parse_skill_identifier(t + seq!['@'] + w) == (None::<Seq<char>>, t, Some(w)),
{
    let st = s + seq![':'] + t;
    assert(!st.contains('@')) by {
        if st.contains('@') {
            let k = choose|k: int| 0 <= k < st.len() && st[k] == '@';
            if k < s.len() {
                assert(s[k] == '@');
            } else if k > s.len() {
                assert(t[k - s.len() - 1] == '@');
            }
        }
    }
    text::lemma_split_once_none(st, '@');
    text::lemma_split_once_at(s, ':', t);
    text::lemma_split_once_at(st, '@', w);
    text::lemma_split_once_none(t, '@');
    text::lemma_split_once_none(t, ':');
    text::lemma_split_once_at(t, '@', w);
}

/// A registry install: the source to ask, the slug, and the version asked
/// for (if any).
pub struct RegistryRequest {
    pub source: String,
    pub slug: String,
    pub version: Option<String>,
}

/// Reads an install request for a store skill: the source named in the
/// identifier wins over `default_source`, and the `--version` option over
/// the version in the identifier.
pub fn registry_request(skill: &str, default_source: &str, version: Option<String>) -> (out:
    RegistryRequest)
    ensures
        ({
            let (src, slug, ver) = spec_parse_skill_identifier(skill@);
            &&& out.source@ == (match src {
                Some(s) => s,
                None => default_source@,
            })
            &&& out.slug@ == slug
            &&& text::opt_view(out.version) == (match version {
                Some(v) => Some(v@),
                None => ver,
            })
        }),
{
    let (src, slug, ver) = parse_skill_identifier(skill);
    let source = match src {
        Some(s) => s,
        None => text::owned(default_source),
    };
    let version = match version {
        Some(v) => Some(v),
        None => ver,
    };
    RegistryRequest { source, slug, version }
}

/// Whether a source name means the ClawHub source (any other is the
/// Kingdee store).
pub fn uses_clawhub(source: &str) -> (b: bool)
    ensures
        b == (source@ == "clawhub"@),
{
    text::chars_eq(&text::chars_of(source), &text::chars_of("clawhub"))
}

/// The version to download: the one asked for, else the one the source
/// names, else `latest`.
pub fn install_version(requested: Option<String>, resolved: Option<String>) -> (out: String)
    ensures
        out@ == (match (requested, resolved) {
            (Some(v), _) => v@,
            (None, Some(v)) => v@,
            (None, None) => "latest"@,
        }),
{
    match requested {
        Some(v) => v,
        None => match resolved {
            Some(v) => v,
            None => text::owned("latest"),
        },
    }
}

/// A GitHub skill is installed from the `--ref` given (`HEAD` when none)
/// and from the `--subdir` given.
pub fn prepare_github(gh: GitHubSource, ref_name: Option<String>, subdir: Option<String>) -> (out:
    GitHubSource)
    ensures
        out.owner == gh.owner,
        out.repo == gh.repo,
        out.url == gh.url,
        out.git_ref@ == (match ref_name {
            Some(r) => r@,
            None => "HEAD"@,
        }),
        out.subdir == subdir,
{
    GitHubSource {
        owner: gh.owner,
        repo: gh.repo,
        url: gh.url,
        git_ref: match ref_name {
            Some(r) => r,
            None => text::owned("HEAD"),
        },
        subdir,
    }
}

/// A target is (re)installed unless the skill is already there and
/// `--force` is not given.
pub fn should_install(already_installed: bool, force: bool) -> (b: bool)
    ensures
        b == (!already_installed || force),
{
    !already_installed || force
}

/// Whether the answer to the install prompt is yes (`y`, any case,
/// surrounding white space ignored).
pub fn confirmed(answer: &str) -> (b: bool)
    ensures
        b == (text::unicode_lowercase(text::trim(answer@)) == "y"@),
{
    let t = text::string_from(&text::trim_chars(&text::chars_of(answer)));
    let low = text::str_to_lowercase(t.as_str());
    text::chars_eq(&text::chars_of(low.as_str()), &text::chars_of("y"))
}

// ---------------------------------------------------------------------------
// Finding the skill in a downloaded archive
// ---------------------------------------------------------------------------

/// The directory of an unpacked archive that holds the skill: the root
/// when it has a `SKILL.md`; else its only top-level directory when that
/// has one; else the one directory that the `SKILL.md` files found are in.
pub open spec fn spec_choose_skill_root(
    root: Seq<char>,
    root_has_skill: bool,
    top_dirs: Seq<(Seq<char>, bool)>,
    candidates: Seq<Seq<char>>,
) -> Result<Seq<char>, SkillError> {
    if root_has_skill {
        Ok(root)
    } else if top_dirs.len() == 1 && top_dirs[0].1 {
        Ok(top_dirs[0].0)
    } else if candidates.len() == 0 {
        Err(SkillError::SkillMdNotInArchive)
    } else if forall|i: int| 0 <= i < candidates.len() ==> #[trigger] candidates[i] == candidates[0] {
        Ok(candidates[0])
    } else {
        Err(SkillError::MultipleSkillMd)
    }
}

/// Where the root has no `SKILL.md` and there is not exactly one
/// top-level directory, the top-level directories play no part: the
/// choice rests on the `SKILL.md` files found alone. Two different
/// directories holding one is the multiple-candidates error, and whatever
/// is chosen is the root, the only top-level directory, or a candidate.
pub proof fn lemma_skill_root_choice(
    root: Seq<char>,
    root_has_skill: bool,
    top_dirs: Seq<(Seq<char>, bool)>,
    candidates: Seq<Seq<char>>,
    i: int,
    j: int,
)
    ensures
        !root_has_skill && top_dirs.len() != 1 ==> spec_choose_skill_root(
            root,
            false,
            top_dirs,
            candidates,
        ) == spec_choose_skill_root(root, false, Seq::empty(), candidates),
        !root_has_skill && !(top_dirs.len() == 1 && top_dirs[0].1) && 0 <= i < candidates.len()
            && 0 <= j < candidates.len() && candidates[i] != candidates[j]
            ==> spec_choose_skill_root(root, root_has_skill, top_dirs, candidates)
            == Err::<Seq<char>, SkillError>(SkillError::MultipleSkillMd),
        spec_choose_skill_root(root, root_has_skill, top_dirs, candidates) matches Ok(p) ==> (
        root_has_skill && p == root) || (top_dirs.len() == 1 && p == top_dirs[0].0)
            || candidates.contains(p),
{
    if !root_has_skill && !(top_dirs.len() == 1 && top_dirs[0].1) && 0 <= i < candidates.len() && 0
        <= j < candidates.len() && candidates[i] != candidates[j] {
        if candidates[i] == candidates[0] {
            assert(candidates[j] != candidates[0]);
        }
    }
    if candidates.len() > 0 {
        assert(candidates.contains(candidates[0])) by {
            assert(candidates[0] == candidates[0]);
        }
    }
}

/// The texts of directories with their `SKILL.md` flag.
pub open spec fn dirs_view(d: Seq<(String, bool)>) -> Seq<(Seq<char>, bool)> {
    d.map_values(|p: (String, bool)| (p.0@, p.1))
}

/// Picks the skill directory of an unpacked archive (see
/// `spec_choose_skill_root`). `top_dirs` are the top-level directories,
/// each with whether it holds a `SKILL.md`; `candidates` are the
/// directories of every `SKILL.md` in the archive.
pub fn choose_skill_root(
    root: String,
    root_has_skill: bool,
    top_dirs: Vec<(String, bool)>,
    candidates: Vec<String>,
) -> (r: Result<String, SkillError>)
    ensures
        match spec_choose_skill_root(
            root@,
            root_has_skill,
            dirs_view(top_dirs@),
            text::string_views(candidates@),
        ) {
            Ok(p) => r matches Ok(q) && q@ == p,
            Err(e) => r matches Err(e2) && e2 == e,
        },
{
    if root_has_skill {
        return Ok(root);
    }
    if top_dirs.len() == 1 && top_dirs[0].1 {
        assert(dirs_view(top_dirs@)[0] == (top_dirs@[0].0@, top_dirs@[0].1));
        let mut top_dirs = top_dirs;
        let (p, _) = top_dirs.pop().unwrap();
        return Ok(p);
    }
    if candidates.len() == 0 {
        return Err(SkillError::SkillMdNotInArchive);
    }
    let ghost tv = dirs_view(top_dirs@);
    assert(tv.len() == top_dirs@.len());
    assert(tv.len() == 1 ==> tv[0].1 == top_dirs@[0].1);
    let ghost cs = text::string_views(candidates@);
    let first = text::chars_of(candidates[0].as_str());
    let mut i: usize = 1;
    while i < candidates.len()
        invariant
            1 <= i <= candidates.len(),
            cs == text::string_views(candidates@),
            first@ == cs[0],
            forall|j: int| 0 <= j < i ==> #[trigger] cs[j] == cs[0],
            !root_has_skill,
            !(tv.len() == 1 && tv[0].1),
            tv == dirs_view(top_dirs@),
        decreases candidates.len() - i,
    {
        let c = text::chars_of(candidates[i].as_str());
        if !text::chars_eq(&c, &first) {
            assert(cs[i as int] != cs[0]);
            return Err(SkillError::MultipleSkillMd);
        }
        i = i + 1;
    }
    let mut candidates = candidates;
    let p = candidates.swap_remove(0);
    Ok(p)
}

// ---------------------------------------------------------------------------
// What is recorded about an installed skill
// ---------------------------------------------------------------------------

/// The keys of an object's members, in order.
pub open spec fn keys(v: JsonValue) -> Seq<Seq<char>> {
    match v {
        JsonValue::Object(f) => f@.map_values(|p: (String, JsonValue)| p.0@),
        _ => seq![],
    }
}

/// `v` is a string with text `t`.
pub open spec fn is_str(v: Option<JsonValue>, t: Seq<char>) -> bool {
    v matches Some(JsonValue::Str(s)) && s@ == t
}

/// `v` is a string with text `t`, or `null` when there is no text.
pub open spec fn is_opt_str(v: Option<JsonValue>, t: Option<Seq<char>>) -> bool {
    match t {
        Some(x) => is_str(v, x),
        None => v == Some(JsonValue::Null),
    }
}

/// A member of an object.
fn member(key: &str, v: JsonValue) -> (out: (String, JsonValue))
    ensures
        out.0@ == key@,
        out.1 == v,
{
    (text::owned(key), v)
}

/// `src` is the source record of a skill installed from `gh` at `commit`:
/// where it came from (owner, repository, its address, the ref and the
/// subdirectory), the commit, the description, and the git backend.
pub open spec fn github_source_record(
    src: JsonValue,
    gh: GitHubSource,
    commit: Seq<char>,
    description: Option<Seq<char>>,
) -> bool {
    &&& keys(src) == seq![
        "type"@,
        "description"@,
        "owner"@,
        "repo"@,
        "url"@,
        "ref"@,
        "subdir"@,
        "commit"@,
        "backend"@,
    ]
    &&& is_str(json::json_get(src, "type"@), "github"@)
    &&& is_opt_str(json::json_get(src, "description"@), description)
    &&& is_str(json::json_get(src, "owner"@), gh.owner@)
    &&& is_str(json::json_get(src, "repo"@), gh.repo@)
    &&& is_str(json::json_get(src, "url"@), gh.url@)
    &&& is_str(json::json_get(src, "ref"@), gh.git_ref@)
    &&& is_opt_str(json::json_get(src, "subdir"@), text::opt_view(gh.subdir))
    &&& is_str(json::json_get(src, "commit"@), commit)
    &&& is_str(json::json_get(src, "backend"@), "gix"@)
}

/// The record of a skill installed from GitHub: its name, the commit as
/// its version, its name as slug, and where it came from.
pub fn github_install_record(
    install_name: &str,
    commit: &str,
    description: Option<String>,
    gh: &GitHubSource,
) -> (out: JsonValue)
    ensures
        keys(out) == seq!["name"@, "version"@, "slug"@, "source"@],
        is_str(json::json_get(out, "name"@), install_name@),
        is_str(json::json_get(out, "version"@), commit@),
        is_str(json::json_get(out, "slug"@), install_name@),
        json::json_get(out, "source"@) matches Some(src) && github_source_record(
            src,
            *gh,
            commit@,
            text::opt_view(description),
        ),
{
    let subdir = match &gh.subdir {
        Some(d) => Some(d.clone()),
        None => None,
    };
    let src = vec![
        member("type", json::string("github")),
        member("description", json::opt_string(description)),
        member("owner", json::string(gh.owner.as_str())),
        member("repo", json::string(gh.repo.as_str())),
        member("url", json::string(gh.url.as_str())),
        member("ref", json::string(gh.git_ref.as_str())),
        member("subdir", json::opt_string(subdir)),
        member("commit", json::string(commit)),
        member("backend", json::string("gix")),
    ];
    let ghost sf = src@;
    let out = vec![
        member("name", json::string(install_name)),
        member("version", json::string(commit)),
        member("slug", json::string(install_name)),
        member("source", JsonValue::Object(src)),
    ];
    proof {
        reveal_strlit("name");
        reveal_strlit("version");
        reveal_strlit("slug");
        reveal_strlit("source");
        reveal_strlit("type");
        reveal_strlit("description");
        reveal_strlit("owner");
        reveal_strlit("repo");
        reveal_strlit("url");
        reveal_strlit("ref");
        reveal_strlit("subdir");
        reveal_strlit("commit");
        reveal_strlit("backend");
        assert(out@.map_values(|p: (String, JsonValue)| p.0@) =~= seq![
            "name"@,
            "version"@,
            "slug"@,
            "source"@,
        ]);
        assert(sf.map_values(|p: (String, JsonValue)| p.0@) =~= seq![
            "type"@,
            "description"@,
            "owner"@,
            "repo"@,
            "url"@,
            "ref"@,
            "subdir"@,
            "commit"@,
            "backend"@,
        ]);
        lemma_key_facts();
        reveal_with_fuel(json::field_lookup, 10);
    }
    JsonValue::Object(out)
}

/// The record of a skill installed from a store: where it came from, its
/// name, version and slug, and its address in the store.
pub fn registry_install_record(source_type: &str, resolved: &RemoteSkill, version: &str, slug: &str)
    -> (out: JsonValue)
    ensures
        keys(out) == seq!["source"@, "name"@, "version"@, "slug"@, "canonical_url"@],
        json::json_get(out, "source"@) matches Some(src) && keys(src) == seq![
            "type"@,
            "description"@,
        ] && is_str(json::json_get(src, "type"@), source_type@) && is_opt_str(
            json::json_get(src, "description"@),
            text::opt_view(resolved.description),
        ),
        is_str(json::json_get(out, "name"@), resolved.name@),
        is_str(json::json_get(out, "version"@), version@),
        is_str(json::json_get(out, "slug"@), slug@),
        is_opt_str(json::json_get(out, "canonical_url"@), text::opt_view(resolved.canonical_url)),
{
    let src = vec![
        member("type", json::string(source_type)),
        member("description", json::opt_string(resolved.description.clone())),
    ];
    let ghost sf = src@;
    let out = vec![
        member("source", JsonValue::Object(src)),
        member("name", json::string(resolved.name.as_str())),
        member("version", json::string(version)),
        member("slug", json::string(slug)),
        member("canonical_url", json::opt_string(resolved.canonical_url.clone())),
    ];
    proof {
        reveal_strlit("name");
        reveal_strlit("version");
        reveal_strlit("slug");
        reveal_strlit("source");
        reveal_strlit("type");
        reveal_strlit("description");
        reveal_strlit("canonical_url");
        assert(out@.map_values(|p: (String, JsonValue)| p.0@) =~= seq![
            "source"@,
            "name"@,
            "version"@,
            "slug"@,
            "canonical_url"@,
        ]);
        assert(sf.map_values(|p: (String, JsonValue)| p.0@) =~= seq!["type"@, "description"@]);
        lemma_key_facts();
        reveal_with_fuel(json::field_lookup, 7);
    }
    JsonValue::Object(out)
}

/// The record keys differ from one another.
proof fn lemma_key_facts()
    ensures
        "name"@.len() == 4,
        "version"@.len() == 7,
        "slug"@.len() == 4,
        "source"@.len() == 6,
        "type"@.len() == 4,
        "description"@.len() == 11,
        "owner"@.len() == 5,
        "repo"@.len() == 4,
        "url"@.len() == 3,
        "ref"@.len() == 3,
        "subdir"@.len() == 6,
        "commit"@.len() == 6,
        "backend"@.len() == 7,
        "canonical_url"@.len() == 13,
        "name"@ != "slug"@,
        "type"@ != "repo"@,
        "source"@ != "commit"@,
        "url"@ != "ref"@,
        "subdir"@ != "commit"@,
{
    reveal_strlit("name");
    reveal_strlit("version");
    reveal_strlit("slug");
    reveal_strlit("source");
    reveal_strlit("type");
    reveal_strlit("description");
    reveal_strlit("owner");
    reveal_strlit("repo");
    reveal_strlit("url");
    reveal_strlit("ref");
    reveal_strlit("subdir");
    reveal_strlit("commit");
    reveal_strlit("backend");
    reveal_strlit("canonical_url");
    assert("name"@[0] != "slug"@[0]);
    assert("type"@[0] != "repo"@[0]);
    assert("source"@[0] != "commit"@[0]);
    assert("url"@[0] != "ref"@[0]);
    assert("subdir"@[0] != "commit"@[0]);
}

} // verus!
