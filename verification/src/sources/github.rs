//! GitHub skill sources: parsing `gh:owner/repo@ref` style identifiers and
//! naming the cache directory of a checkout.
use vstd::prelude::*;

use crate::error::SkillError;
use crate::json;
use crate::json::JsonValue;
use crate::text;
use crate::text::CharClass;

verus! {

/// A skill that lives in a GitHub repository.
pub struct GitHubSource {
    pub owner: String,
    pub repo: String,
    pub url: String,
    /// The branch, tag or commit to check out (`HEAD` when none is given).
    pub git_ref: String,
    pub subdir: Option<String>,
}

/// A character allowed in an owner or repository name, and kept by the
/// cache-key sanitizer.
pub open spec fn is_safe_char(c: char) -> bool {
    text::is_ascii_alnum(c) || c == '.' || c == '-' || c == '_'
}

/// An owner or repository name that cannot leave its directory: once
/// trimmed it is nonempty, not `.` or `..`, and made of safe characters only.
pub open spec fn is_safe_segment(value: Seq<char>) -> bool {
    let t = text::trim(value);
    &&& t.len() > 0
    &&& t != "."@
    &&& t != ".."@
    &&& forall|i: int| 0 <= i < t.len() ==> is_safe_char(#[trigger] t[i])
}

/// Every unsafe character replaced by `_`.
pub open spec fn replace_unsafe(value: Seq<char>) -> Seq<char> {
    value.map_values(|c: char| if is_safe_char(c) { c } else { '_' })
}

/// The sanitized form of one cache-key segment.
pub open spec fn sanitize_segment(value: Seq<char>) -> Seq<char> {
    let s = replace_unsafe(value);
    if s.len() == 0 || s == "."@ || s == ".."@ {
        "_"@
    } else {
        s
    }
}

/// The cache key of a checkout: `owner/repo/ref`, each part sanitized.
pub open spec fn spec_cache_key(owner: Seq<char>, repo: Seq<char>, r: Seq<char>) -> Seq<char> {
    sanitize_segment(owner) + "/"@ + sanitize_segment(repo) + "/"@ + sanitize_segment(r)
}

/// The text after one of the accepted prefixes, tried in order.
pub open spec fn github_path(input: Seq<char>) -> Option<Seq<char>> {
    if text::starts_with(input, "gh:"@) {
        Some(input.skip(3))
    } else if text::starts_with(input, "github:"@) {
        Some(input.skip(7))
    } else if text::starts_with(input, "https://github.com/"@) {
        Some(input.skip(19))
    } else {
        None
    }
}

/// What `parse` finds in an identifier: owner, repository and ref.
pub open spec fn spec_parse(input: Seq<char>) -> Option<(Seq<char>, Seq<char>, Seq<char>)> {
    match github_path(input) {
        None => None,
        Some(path) => {
            let pieces = text::split(path, CharClass::Exactly('/'));
            if pieces.len() < 2 {
                None
            } else {
                let owner = pieces[0];
                let repo_full = text::strip_suffix_all(pieces[1], ".git"@);
                let (repo, r) = match text::split_once(repo_full, CharClass::Exactly('@')) {
                    Some((a, b)) => (a, b),
                    None => (repo_full, "HEAD"@),
                };
                if is_safe_segment(owner) && is_safe_segment(repo) {
                    Some((owner, repo, r))
                } else {
                    None
                }
            }
        },
    }
}

/// The web address of a repository.
pub open spec fn repo_url(owner: Seq<char>, repo: Seq<char>) -> Seq<char> {
    "https://github.com/"@ + owner + "/"@ + repo
}

/// Parses `gh:owner/repo[@ref]`, `github:owner/repo[@ref]` or
/// `https://github.com/owner/repo[.git][@ref]`. Returns `None` for any other
/// text, and when the owner or repository is not a safe name.
pub fn parse(input: &str) -> (out: Option<GitHubSource>)
    ensures
        match spec_parse(input@) {
            None => out is None,
            Some((owner, repo, r)) => out matches Some(g) && g.owner@ == owner && g.repo@ == repo
                && g.git_ref@ == r && g.url@ == repo_url(owner, repo) && g.subdir is None,
        },
{
    let s = text::chars_of(input);
    let path = match text::strip_prefix_chars(&s, &text::chars_of("gh:")) {
        Some(p) => p,
        None => match text::strip_prefix_chars(&s, &text::chars_of("github:")) {
            Some(p) => p,
            None => match text::strip_prefix_chars(&s, &text::chars_of("https://github.com/")) {
                Some(p) => p,
                None => {
                    return None;
                },
            },
        },
    };
    proof {
        reveal_strlit("gh:");
        reveal_strlit("github:");
        reveal_strlit("https://github.com/");
    }
    let pieces = text::split_chars(&path, CharClass::Exactly('/'));
    if pieces.len() < 2 {
        return None;
    }
    assert(pieces@[0]@ == text::views(pieces@)[0]);
    assert(pieces@[1]@ == text::views(pieces@)[1]);
    let owner = &pieces[0];
    let repo_full = text::strip_suffix_all_chars(&pieces[1], &text::chars_of(".git"));
    let (repo, r) = match text::split_once_chars(&repo_full, CharClass::Exactly('@')) {
        Some((a, b)) => (a, b),
        None => (repo_full, text::chars_of("HEAD")),
    };
    if !is_safe_repo_segment_chars(owner) || !is_safe_repo_segment_chars(&repo) {
        return None;
    }
    let mut url = text::owned("https://github.com/");
    text::push_chars(&mut url, owner);
    text::string_push(&mut url, '/');
    text::push_chars(&mut url, &repo);
    proof {
        reveal_strlit("/");
        assert("/"@ =~= seq!['/']);
    }
    Some(
        GitHubSource {
            owner: text::string_from(owner),
            repo: text::string_from(&repo),
            url,
            git_ref: text::string_from(&r),
            subdir: None,
        },
    )
}

/// The cache key of a checkout: `owner/repo/ref`, each part sanitized so
/// that the key stays inside the cache directory.
pub fn cache_key(owner: &str, repo: &str, r: &str) -> (out: String)
    ensures
        out@ == spec_cache_key(owner@, repo@, r@),
{
    let mut out = String::new();
    text::push_chars(&mut out, &sanitize_cache_segment(&text::chars_of(owner)));
    text::string_push(&mut out, '/');
    text::push_chars(&mut out, &sanitize_cache_segment(&text::chars_of(repo)));
    text::string_push(&mut out, '/');
    text::push_chars(&mut out, &sanitize_cache_segment(&text::chars_of(r)));
    proof {
        reveal_strlit("/");
        assert(out@ =~= spec_cache_key(owner@, repo@, r@));
    }
    out
}

/// Whether `value` is a safe owner or repository name.
fn is_safe_repo_segment_chars(value: &Vec<char>) -> (b: bool)
    ensures
        b == is_safe_segment(value@),
{
    let t = text::trim_chars(value);
    if t.len() == 0 {
        return false;
    }
    proof {
        reveal_strlit(".");
        reveal_strlit("..");
    }
    if text::chars_eq(&t, &text::chars_of(".")) || text::chars_eq(&t, &text::chars_of("..")) {
        return false;
    }
    let mut i: usize = 0;
    while i < t.len()
        invariant
            i <= t.len(),
            t@ == text::trim(value@),
            forall|k: int| 0 <= k < i ==> is_safe_char(#[trigger] t@[k]),
        decreases t.len() - i,
    {
        if !is_safe_char_exec(t[i]) {
            assert(!is_safe_char(t@[i as int]));
            return false;
        }
        i = i + 1;
    }
    true
}

/// Whether `value` is a safe owner or repository name.
pub fn is_safe_repo_segment(value: &str) -> (b: bool)
    ensures
        b == is_safe_segment(value@),
{
    is_safe_repo_segment_chars(&text::chars_of(value))
}

fn is_safe_char_exec(c: char) -> (b: bool)
    ensures
        b == is_safe_char(c),
{
    text::char_is_ascii_alnum(c) || c == '.' || c == '-' || c == '_'
}

/// One cache-key segment: unsafe characters become `_`, and an empty, `.`
/// or `..` result becomes `_`.
pub fn sanitize_cache_segment(value: &Vec<char>) -> (out: Vec<char>)
    ensures
        out@ == sanitize_segment(value@),
{
    let mut s: Vec<char> = Vec::new();
    let mut i: usize = 0;
    while i < value.len()
        invariant
            i <= value.len(),
            s@ == replace_unsafe(value@.take(i as int)),
        decreases value.len() - i,
    {
        let c = value[i];
        if is_safe_char_exec(c) {
            s.push(c);
        } else {
            s.push('_');
        }
        assert(replace_unsafe(value@.take(i + 1)) =~= replace_unsafe(value@.take(i as int)).push(
            if is_safe_char(c) {
                c
            } else {
                '_'
            },
        ));
        i = i + 1;
    }
    assert(value@.take(value.len() as int) =~= value@);
    proof {
        reveal_strlit(".");
        reveal_strlit("..");
        reveal_strlit("_");
    }
    if s.len() == 0 || text::chars_eq(&s, &text::chars_of(".")) || text::chars_eq(&s, &text::chars_of("..")) {
        text::chars_of("_")
    } else {
        s
    }
}

/// A skill directory must hold a `SKILL.md`; `has_skill_md` says whether the
/// directory to install holds one.
pub fn validate_skill_root(has_skill_md: bool) -> (r: Result<(), SkillError>)
    ensures
        has_skill_md <==> r is Ok,
        r matches Err(e) ==> e == SkillError::MissingSkillMd,
{
    if !has_skill_md {
        return Err(SkillError::MissingSkillMd);
    }
    Ok(())
}

/// The GitHub API address of a repository.
pub fn repo_api_url(owner: &str, repo: &str) -> (out: String)
    ensures
        out@ == "https://api.github.com/repos/"@ + owner@ + "/"@ + repo@,
{
    let mut s = text::owned("https://api.github.com/repos/");
    text::string_push_str(&mut s, owner);
    text::string_push_str(&mut s, "/");
    text::string_push_str(&mut s, repo);
    s
}

/// The description in a repository's API record, when it is a string.
pub fn repo_description_of(v: &JsonValue) -> (out: Option<String>)
    ensures
        text::opt_view(out) == json::get_str(*v, "description"@),
{
    match json::get_str_exec(v, "description") {
        Some(d) => Some(text::owned(d)),
        None => None,
    }
}

// ---------------------------------------------------------------------------
// Laws
// ---------------------------------------------------------------------------

/// A sanitized segment is never empty, `.` or `..`, and holds only safe
/// characters (so never a `/`).
pub proof fn lemma_sanitized_segment_is_safe(value: Seq<char>)
    ensures
        sanitize_segment(value).len() > 0,
        sanitize_segment(value) != "."@,
        sanitize_segment(value) != ".."@,
        forall|i: int|
            0 <= i < sanitize_segment(value).len() ==> is_safe_char(
                #[trigger] sanitize_segment(value)[i],
            ),
{
    reveal_strlit("_");
    reveal_strlit(".");
    reveal_strlit("..");
    assert(is_safe_char('_'));
    assert("_"@[0] != "."@[0]);
    assert("_"@.len() != ".."@.len());
}

/// Sanitizing a sanitized segment changes nothing.
pub proof fn lemma_sanitize_idempotent(value: Seq<char>)
    ensures
        sanitize_segment(sanitize_segment(value)) == sanitize_segment(value),
{
    let s = sanitize_segment(value);
    lemma_sanitized_segment_is_safe(value);
    assert(replace_unsafe(s) =~= s);
}

/// A cache key splits at `/` into exactly its three sanitized parts, so it
/// names a directory three levels below the cache root.
pub proof fn lemma_cache_key_segments(owner: Seq<char>, repo: Seq<char>, r: Seq<char>)
    ensures
        text::split(spec_cache_key(owner, repo, r), CharClass::Exactly('/')) == seq![
            sanitize_segment(owner),
            sanitize_segment(repo),
            sanitize_segment(r),
        ],
{
    reveal_strlit("/");
    let cls = CharClass::Exactly('/');
    let a = sanitize_segment(owner);
    let b = sanitize_segment(repo);
    let c = sanitize_segment(r);
    lemma_sanitized_segment_is_safe(owner);
    lemma_sanitized_segment_is_safe(repo);
    lemma_sanitized_segment_is_safe(r);
    let key = spec_cache_key(owner, repo, r);
    assert(key =~= a + seq!['/'] + (b + seq!['/'] + c));
    assert(!a.contains('/')) by {
        if a.contains('/') {
            let k = choose|k: int| 0 <= k < a.len() && a[k] == '/';
            assert(is_safe_char(a[k]));
        }
    }
    assert(!b.contains('/')) by {
        if b.contains('/') {
            let k = choose|k: int| 0 <= k < b.len() && b[k] == '/';
            assert(is_safe_char(b[k]));
        }
    }
    text::lemma_split_cons(a, '/', b + seq!['/'] + c);
    text::lemma_split_cons(b, '/', c);
    assert forall|k: int| 0 <= k < c.len() implies !text::in_class(cls, #[trigger] c[k]) by {
        assert(is_safe_char(c[k]));
    }
    text::lemma_first_in_none(c, cls);
    assert(text::split(c, cls) == seq![c]);
    assert(seq![a] + (seq![b] + seq![c]) =~= seq![a, b, c]);
}


/// A name made of safe characters is its own trimmed form.
proof fn lemma_safe_name_trimmed(v: Seq<char>)
    requires
        v.len() > 0,
        forall|i: int| 0 <= i < v.len() ==> is_safe_char(#[trigger] v[i]),
    ensures
        text::trim(v) == v,
{
    assert(is_safe_char(v[0]));
    assert(is_safe_char(v[v.len() - 1]));
    assert(text::strip_start(v, CharClass::Whitespace) == v);
    assert(text::strip_end(v, CharClass::Whitespace) == v);
}

/// The address `parse` gives a repository parses back to the same owner
/// and repository, at `HEAD`, for names made of safe characters other than
/// `.` and `..`, the repository not ending in `.git`.
pub proof fn lemma_parse_repo_url(owner: Seq<char>, repo: Seq<char>)
    requires
        owner.len() > 0,
        repo.len() > 0,
        owner != "."@,
        owner != ".."@,
        repo != "."@,
        repo != ".."@,
        forall|i: int| 0 <= i < owner.len() ==> is_safe_char(#[trigger] owner[i]),
        forall|i: int| 0 <= i < repo.len() ==> is_safe_char(#[trigger] repo[i]),
        !text::ends_with(repo, ".git"@),
    ensures
        spec_parse(repo_url(owner, repo)) == Some((owner, repo, "HEAD"@)),
{
    reveal_strlit("gh:");
    reveal_strlit("github:");
    reveal_strlit("https://github.com/");
    reveal_strlit("/");
    reveal_strlit(".git");
    let pre = "https://github.com/"@;
    let u = repo_url(owner, repo);
    assert(u.take(19) =~= pre);
    assert(u.take(3)[0] == 'h');
    assert(!text::starts_with(u, "gh:"@));
    assert(u.take(7)[0] == 'h');
    assert(!text::starts_with(u, "github:"@));
    assert(text::starts_with(u, pre));
    let path = u.skip(19);
    assert(path =~= owner + seq!['/'] + repo);
    assert(github_path(u) == Some(path));
    let slash = CharClass::Exactly('/');
    assert forall|k: int| 0 <= k < owner.len() implies !text::in_class(slash, #[trigger] owner[k]) by {
        assert(is_safe_char(owner[k]));
    }
    assert forall|k: int| 0 <= k < repo.len() implies !text::in_class(slash, #[trigger] repo[k]) by {
        assert(is_safe_char(repo[k]));
    }
    text::lemma_split_cons_class(owner, '/', repo, slash);
    text::lemma_first_in_none(repo, slash);
    assert(text::split(repo, slash) == seq![repo]);
    let pieces = text::split(path, slash);
    assert(pieces =~= seq![owner, repo]);
    assert(text::strip_suffix_all(repo, ".git"@) == repo);
    let at = CharClass::Exactly('@');
    assert forall|k: int| 0 <= k < repo.len() implies !text::in_class(at, #[trigger] repo[k]) by {
        assert(is_safe_char(repo[k]));
    }
    text::lemma_first_in_none(repo, at);
    assert(text::split_once(repo, at) is None);
    lemma_safe_name_trimmed(owner);
    lemma_safe_name_trimmed(repo);
    assert(is_safe_segment(owner));
    assert(is_safe_segment(repo));
}

/// The three accepted prefixes name a repository the same way: the same
/// path after `gh:`, `github:` or `https://github.com/` parses to the same
/// owner, repository and ref.
pub proof fn lemma_prefixes_interchangeable(p: Seq<char>)
    ensures
        spec_parse("github:"@ + p) == spec_parse("gh:"@ + p),
        spec_parse("https://github.com/"@ + p) == spec_parse("gh:"@ + p),
        github_path("gh:"@ + p) == Some(p),
        github_path("github:"@ + p) == Some(p),
        github_path("https://github.com/"@ + p) == Some(p),
{
    reveal_strlit("gh:");
    reveal_strlit("github:");
    reveal_strlit("https://github.com/");
    let a = "gh:"@ + p;
    let b = "github:"@ + p;
    let c = "https://github.com/"@ + p;
    assert(a.take(3) =~= "gh:"@);
    assert(a.skip(3) =~= p);
    assert(b.take(3)[1] != "gh:"@[1]);
    assert(!text::starts_with(b, "gh:"@));
    assert(b.take(7) =~= "github:"@);
    assert(b.skip(7) =~= p);
    assert(c.take(3)[0] != "gh:"@[0]);
    assert(!text::starts_with(c, "gh:"@));
    assert(c.take(7)[0] != "github:"@[0]);
    assert(!text::starts_with(c, "github:"@));
    assert(c.take(19) =~= "https://github.com/"@);
    assert(c.skip(19) =~= p);
}

/// `gh:owner/repo@ref` names that owner, repository and ref, for names
/// made of safe characters other than `.` and `..`, a ref without `/`, and
/// `repo@ref` not ending in `.git`.
pub proof fn lemma_parse_with_ref(owner: Seq<char>, repo: Seq<char>, r: Seq<char>)
    requires
        owner.len() > 0,
        repo.len() > 0,
        owner != "."@,
        owner != ".."@,
        repo != "."@,
        repo != ".."@,
        forall|i: int| 0 <= i < owner.len() ==> is_safe_char(#[trigger] owner[i]),
        forall|i: int| 0 <= i < repo.len() ==> is_safe_char(#[trigger] repo[i]),
        !r.contains('/'),
        !text::ends_with(repo + seq!['@'] + r, ".git"@),
    ensures
        spec_parse("gh:"@ + (owner + seq!['/'] + repo + seq!['@'] + r)) == Some((owner, repo, r)),
{
    let path = owner + seq!['/'] + repo + seq!['@'] + r;
    lemma_prefixes_interchangeable(path);
    let tail = repo + seq!['@'] + r;
    assert(path =~= owner + seq!['/'] + tail);
    let slash = CharClass::Exactly('/');
    assert forall|k: int| 0 <= k < owner.len() implies !text::in_class(slash, #[trigger] owner[k]) by {
        assert(is_safe_char(owner[k]));
    }
    assert forall|k: int| 0 <= k < tail.len() implies !text::in_class(slash, #[trigger] tail[k]) by {
        if k < repo.len() {
            assert(is_safe_char(repo[k]));
        } else if k > repo.len() {
            assert(tail[k] == r[k - repo.len() - 1]);
            if r[k - repo.len() - 1] == '/' {
                assert(r.contains('/'));
            }
        }
    }
    text::lemma_split_cons_class(owner, '/', tail, slash);
    text::lemma_first_in_none(tail, slash);
    assert(text::split(tail, slash) == seq![tail]);
    assert(text::split(path, slash) =~= seq![owner, tail]);
    assert(text::strip_suffix_all(tail, ".git"@) == tail);
    assert(!repo.contains('@')) by {
        if repo.contains('@') {
            let k = choose|k: int| 0 <= k < repo.len() && repo[k] == '@';
            assert(is_safe_char(repo[k]));
        }
    }
    text::lemma_split_once_at(repo, '@', r);
    lemma_safe_name_trimmed(owner);
    lemma_safe_name_trimmed(repo);
}

} // verus!
