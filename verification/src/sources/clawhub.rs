//! The ClawHub skill source: the requests it is sent, and how its answers
//! are read.
use vstd::prelude::*;

use crate::error::SkillError;
use crate::json;
use crate::json::JsonValue;
use crate::number;
use crate::sources::{RemoteSkill, RemoteSkillVersion};
use crate::text;
use crate::text::CharClass;

verus! {

// ---------------------------------------------------------------------------
// Addresses and parameters
// ---------------------------------------------------------------------------

/// The address of the ClawHub service: the given one, or
/// `https://clawhub.ai`, without trailing `/`.
pub fn normalize_base(base: Option<String>) -> (out: String)
    ensures
        out@ == text::strip_end(
            match base {
                Some(b) => b@,
                None => "https://clawhub.ai"@,
            },
            CharClass::Exactly('/'),
        ),
{
    let b = match base {
        Some(b) => b,
        None => text::owned("https://clawhub.ai"),
    };
    let c = text::chars_of(b.as_str());
    let mut j = c.len();
    assert(c@.take(j as int) =~= c@);
    while j > 0 && c[j - 1] == '/'
        invariant
            j <= c.len(),
            text::strip_end(c@, CharClass::Exactly('/')) == text::strip_end(
                c@.take(j as int),
                CharClass::Exactly('/'),
            ),
        decreases j,
    {
        assert(c@.take(j as int).drop_last() =~= c@.take(j - 1));
        j = j - 1;
    }
    let out = text::copy_range(&c, 0, j);
    assert(out@ =~= c@.take(j as int));
    text::string_from(&out)
}

/// The query of a download: the slug, then `version` when a version other
/// than `latest` is asked for (trimmed, any case), else `tag=latest`.
pub open spec fn spec_download_params(slug: Seq<char>, version: Option<Seq<char>>) -> Seq<
    (Seq<char>, Seq<char>),
> {
    let second = match version {
        Some(v) if text::trim(v).len() > 0 && !text::eq_ignore_ascii_case(
            text::trim(v),
            "latest"@,
        ) => ("version"@, text::trim(v)),
        _ => ("tag"@, "latest"@),
    };
    seq![("slug"@, slug), second]
}

/// The texts of a list of query parameters.
pub open spec fn params_view(p: Seq<(&str, String)>) -> Seq<(Seq<char>, Seq<char>)> {
    p.map_values(|kv: (&str, String)| (kv.0@, kv.1@))
}

/// The query parameters of a download request.
pub fn download_params(slug: &str, version: Option<&str>) -> (out: Vec<(&'static str, String)>)
    ensures
        params_view(out@) == spec_download_params(
            slug@,
            match version {
                Some(v) => Some(v@),
                None => None,
            },
        ),
{
    let mut params: Vec<(&'static str, String)> = Vec::new();
    params.push(("slug", text::owned(slug)));
    let mut pushed = false;
    match version {
        Some(v) => {
            let t = text::trim_chars(&text::chars_of(v));
            let latest = text::chars_of("latest");
            if t.len() > 0 && !text::eq_ignore_ascii_case_chars(&t, &latest) {
                params.push(("version", text::string_from(&t)));
                pushed = true;
            }
        },
        None => {},
    }
    if !pushed {
        params.push(("tag", text::owned("latest")));
    }
    assert(params_view(params@) =~= spec_download_params(
        slug@,
        match version {
            Some(v) => Some(v@),
            None => None,
        },
    ));
    params
}

/// The query parameters of a search: the keyword (empty when none), the
/// page size, the page, and `nonSuspiciousOnly=true`.
pub fn search_params(keyword: Option<String>, limit: u32, page: u32) -> (out: Vec<
    (&'static str, String),
>)
    ensures
        params_view(out@) == seq![
            ("q"@, match keyword {
                Some(k) => k@,
                None => Seq::<char>::empty(),
            }),
            ("limit"@, number::decimal(limit as nat)),
            ("page"@, number::decimal(page as nat)),
            ("nonSuspiciousOnly"@, "true"@),
        ],
{
    let q = match keyword {
        Some(k) => k,
        None => String::new(),
    };
    let out = vec![
        ("q", q),
        ("limit", number::u64_to_decimal(limit as u64)),
        ("page", number::u64_to_decimal(page as u64)),
        ("nonSuspiciousOnly", text::owned("true")),
    ];
    assert(params_view(out@) =~= seq![
        ("q"@, match keyword {
            Some(k) => k@,
            None => Seq::<char>::empty(),
        }),
        ("limit"@, number::decimal(limit as nat)),
        ("page"@, number::decimal(page as nat)),
        ("nonSuspiciousOnly"@, "true"@),
    ]);
    out
}

/// `base` followed by `path`.
pub fn url(base: &str, path: &str) -> (out: String)
    ensures
        out@ == base@ + path@,
{
    let mut s = text::owned(base);
    text::string_push_str(&mut s, path);
    s
}

/// The path of a skill's record: `/api/v1/skills/<slug>`.
pub fn skill_path(slug: &str) -> (out: String)
    ensures
        out@ == "/api/v1/skills/"@ + slug@,
{
    url("/api/v1/skills/", slug)
}

/// The path of a skill's version list: `/api/v1/skills/<slug>/versions`.
pub fn versions_path(slug: &str) -> (out: String)
    ensures
        out@ == "/api/v1/skills/"@ + slug@ + "/versions"@,
{
    let mut s = skill_path(slug);
    text::string_push_str(&mut s, "/versions");
    s
}

/// The address of a security check of a skill:
/// `<base>/api/v1/skills/<slug>/<check>`.
pub fn check_url(base: &str, slug: &str, check: &str) -> (out: String)
    ensures
        out@ == base@ + "/api/v1/skills/"@ + slug@ + "/"@ + check@,
{
    let mut s = url(base, "/api/v1/skills/");
    text::string_push_str(&mut s, slug);
    text::string_push_str(&mut s, "/");
    text::string_push_str(&mut s, check);
    s
}

/// The security checks asked before an install, in order.
pub fn security_checks() -> (out: Vec<&'static str>)
    ensures
        out@.len() == 2,
        out@[0]@ == "scan"@,
        out@[1]@ == "verify"@,
{
    vec!["scan", "verify"]
}

// ---------------------------------------------------------------------------
// Reading answers
// ---------------------------------------------------------------------------

/// The version of a skill record: `version` (or, when absent, `tag`) if it
/// is a string; else `latestVersion` if it is a string; else the `version`
/// of `latestVersion`; else the `version` of `latest`.
pub open spec fn spec_extract_version(v: JsonValue) -> Option<Seq<char>> {
    let direct = json::json_as_str(json::or_else(json::json_get(v, "version"@), json::json_get(v, "tag"@)));
    let nested_latest_version = match json::json_get(v, "latestVersion"@) {
        Some(x) => json::get_str(x, "version"@),
        None => None,
    };
    let nested_latest = match json::json_get(v, "latest"@) {
        Some(x) => json::get_str(x, "version"@),
        None => None,
    };
    json::or_else(
        direct,
        json::or_else(
            json::get_str(v, "latestVersion"@),
            json::or_else(nested_latest_version, nested_latest),
        ),
    )
}

/// The member `key` of `v`, else the member `alt`.
fn get_either<'a>(v: &'a JsonValue, key: &str, alt: &str) -> (r: Option<&'a JsonValue>)
    ensures
        json::opt_deref(r) == json::or_else(json::json_get(*v, key@), json::json_get(*v, alt@)),
{
    match json::get(v, key) {
        Some(x) => Some(x),
        None => json::get(v, alt),
    }
}

/// The `version` member of member `key`, when it is a string.
fn nested_version<'a>(v: &'a JsonValue, key: &str) -> (r: Option<&'a str>)
    ensures
        match r {
            Some(s) => (match json::json_get(*v, key@) {
                Some(x) => json::get_str(x, "version"@),
                None => None,
            }) == Some(s@),
            None => (match json::json_get(*v, key@) {
                Some(x) => json::get_str(x, "version"@),
                None => None,
            }) is None,
        },
{
    match json::get(v, key) {
        Some(x) => json::get_str_exec(x, "version"),
        None => None,
    }
}

/// The version of a skill record (see `spec_extract_version`).
pub fn extract_version(v: &JsonValue) -> (r: Option<String>)
    ensures
        text::opt_view(r) == spec_extract_version(*v),
{
    if let Some(s) = json::as_str(get_either(v, "version", "tag")) {
        return Some(text::owned(s));
    }
    if let Some(s) = json::get_str_exec(v, "latestVersion") {
        return Some(text::owned(s));
    }
    if let Some(s) = nested_version(v, "latestVersion") {
        return Some(text::owned(s));
    }
    if let Some(s) = nested_version(v, "latest") {
        return Some(text::owned(s));
    }
    None
}

/// A text, or `default` when there is none.
pub open spec fn text_or(t: Option<Seq<char>>, default: Seq<char>) -> Seq<char> {
    match t {
        Some(x) => x,
        None => default,
    }
}

/// The slug of a skill record (empty when it has none).
pub open spec fn record_slug(v: JsonValue) -> Seq<char> {
    text_or(json::get_str(v, "slug"@), Seq::empty())
}

/// `out` is what a ClawHub skill record `v` reads as. Its name is `name`
/// (or, when absent, `displayName`) when that is a string, else the slug;
/// its description is `description` (or `summary`) when a string; its
/// address is `<base>/skills/<slug>`; the record itself is kept as `meta`.
pub open spec fn mapped_skill(base: Seq<char>, v: JsonValue, out: RemoteSkill) -> bool {
    &&& out.slug@ == record_slug(v)
    &&& out.name@ == text_or(
        json::json_as_str(json::or_else(json::json_get(v, "name"@), json::json_get(v, "displayName"@))),
        record_slug(v),
    )
    &&& text::opt_view(out.version) == spec_extract_version(v)
    &&& text::opt_view(out.canonical_url) == Some(base + "/skills/"@ + record_slug(v))
    &&& out.source@ == "clawhub"@
    &&& text::opt_view(out.description) == json::json_as_str(
        json::or_else(json::json_get(v, "description"@), json::json_get(v, "summary"@)),
    )
    &&& out.meta == v
}

/// What a mapped skill takes from its record: the `slug` member when a
/// string; the `name` member when a string; the `description` member when
/// a string, else (with no `description` member) the `summary` member when
/// a string; and the address `<base>/skills/<slug>`.
pub proof fn lemma_mapped_skill_fields(base: Seq<char>, v: JsonValue, out: RemoteSkill)
    requires
        mapped_skill(base, v, out),
    ensures
        json::json_get(v, "slug"@) matches Some(JsonValue::Str(x)) ==> out.slug@ == x@,
        json::json_get(v, "name"@) matches Some(JsonValue::Str(x)) ==> out.name@ == x@,
        json::json_get(v, "name"@) is None ==> (json::json_get(v, "displayName"@) matches Some(
            JsonValue::Str(x),
        ) ==> out.name@ == x@),
        json::json_as_str(json::or_else(json::json_get(v, "name"@), json::json_get(v, "displayName"@)))
            is None ==> out.name@ == out.slug@,
        json::json_get(v, "version"@) matches Some(JsonValue::Str(x)) ==> text::opt_view(
            out.version,
        ) == Some(x@),
        out.source@ == "clawhub"@,
        json::json_get(v, "description"@) matches Some(JsonValue::Str(x)) ==> text::opt_view(
            out.description,
        ) == Some(x@),
        json::json_get(v, "description"@) is None ==> text::opt_view(out.description)
            == json::json_as_str(json::json_get(v, "summary"@)),
        text::opt_view(out.canonical_url) == Some(base + "/skills/"@ + out.slug@),
        out.meta == v,
{
}

/// Reads a ClawHub skill record (see `mapped_skill`).
pub fn map_skill(base: &str, v: JsonValue) -> (out: RemoteSkill)
    ensures
        mapped_skill(base@, v, out),
{
    let slug = match json::get_str_exec(&v, "slug") {
        Some(s) => text::owned(s),
        None => String::new(),
    };
    let name = match json::as_str(get_either(&v, "name", "displayName")) {
        Some(s) => text::owned(s),
        None => slug.clone(),
    };
    let version = extract_version(&v);
    let mut link = url(base, "/skills/");
    text::string_push_str(&mut link, slug.as_str());
    let description = match json::as_str(get_either(&v, "description", "summary")) {
        Some(s) => Some(text::owned(s)),
        None => None,
    };
    RemoteSkill {
        name,
        slug,
        version,
        canonical_url: Some(link),
        source: text::owned("clawhub"),
        description,
        meta: v,
    }
}

/// The records of a list answer: the array under `data`, else the answer
/// itself when it is an array, else none.
pub open spec fn spec_response_items(v: JsonValue) -> Seq<JsonValue> {
    match json::json_get(v, "data"@) {
        Some(JsonValue::Array(items)) => items@,
        _ => match v {
            JsonValue::Array(items) => items@,
            _ => seq![],
        },
    }
}

/// The records of a list answer (see `spec_response_items`).
pub fn response_items(v: JsonValue) -> (out: Vec<JsonValue>)
    ensures
        out@ == spec_response_items(v),
{
    let ghost v0 = v;
    match v {
        JsonValue::Object(fields) => {
            let mut fields = fields;
            let mut i: usize = 0;
            let k = text::chars_of("data");
            assert(fields@.skip(0) =~= fields@);
            while i < fields.len()
                invariant
                    i <= fields.len(),
                    k@ == "data"@,
                    v0 == JsonValue::Object(fields),
                    v0 == v,
                    json::json_get(v0, "data"@) == json::field_lookup(fields@.skip(i as int), "data"@),
                decreases fields.len() - i,
            {
                let ghost rest = fields@.skip(i as int);
                assert(rest[0] == fields@[i as int]);
                let name = text::chars_of(fields[i].0.as_str());
                if text::chars_eq(&name, &k) {
                    let ghost found = fields@[i as int];
                    assert(found.0@ == "data"@);
                    assert(json::field_lookup(rest, "data"@) == Some(found.1));
                    let (_, val) = fields.swap_remove(i);
                    assert(val == found.1);
                    return match val {
                        JsonValue::Array(items) => items,
                        _ => Vec::new(),
                    };
                }
                assert(rest.drop_first() =~= fields@.skip(i + 1));
                i = i + 1;
            }
            Vec::new()
        },
        JsonValue::Array(items) => items,
        _ => Vec::new(),
    }
}

/// The record of a single answer: the value under `data`, else the answer.
pub fn response_data(v: JsonValue) -> (out: JsonValue)
    ensures
        out == json::or_else(json::json_get(v, "data"@), Some(v))->Some_0,
{
    let ghost v0 = v;
    match v {
        JsonValue::Object(fields) => {
            let mut fields = fields;
            let mut i: usize = 0;
            let k = text::chars_of("data");
            assert(fields@.skip(0) =~= fields@);
            while i < fields.len()
                invariant
                    i <= fields.len(),
                    k@ == "data"@,
                    v0 == JsonValue::Object(fields),
                    v0 == v,
                    json::json_get(v0, "data"@) == json::field_lookup(fields@.skip(i as int), "data"@),
                decreases fields.len() - i,
            {
                let ghost rest = fields@.skip(i as int);
                assert(rest[0] == fields@[i as int]);
                let name = text::chars_of(fields[i].0.as_str());
                if text::chars_eq(&name, &k) {
                    let ghost found = fields@[i as int];
                    assert(found.0@ == "data"@);
                    assert(json::field_lookup(rest, "data"@) == Some(found.1));
                    let (_, val) = fields.swap_remove(i);
                    assert(val == found.1);
                    return val;
                }
                assert(rest.drop_first() =~= fields@.skip(i + 1));
                i = i + 1;
            }
            JsonValue::Object(fields)
        },
        other => other,
    }
}

/// Reads every record of a list answer, in order.
pub fn map_skills(base: &str, items: Vec<JsonValue>) -> (out: Vec<RemoteSkill>)
    ensures
        out@.len() == items@.len(),
        forall|i: int| 0 <= i < out@.len() ==> mapped_skill(base@, items@[i], #[trigger] out@[i]),
{
    let ghost all = items@;
    let mut items = items;
    let mut rest: Vec<JsonValue> = Vec::new();
    assert(all =~= items@ + rest@.reverse());
    while items.len() > 0
        invariant
            all == items@ + rest@.reverse(),
        decreases items.len(),
    {
        let ghost before_items = items@;
        let ghost before_rest = rest@;
        let x = items.pop().unwrap();
        rest.push(x);
        assert(rest@.reverse() =~= seq![x] + before_rest.reverse());
        assert(before_items =~= items@.push(x));
        assert(all =~= items@ + rest@.reverse());
    }
    let mut out: Vec<RemoteSkill> = Vec::new();
    let mut k: usize = 0;
    assert(all.skip(0) =~= all);
    assert(all.len() == rest@.len());
    let n = rest.len();
    assert(all.len() == n);
    while rest.len() > 0
        invariant
            k == out@.len(),
            k + rest@.len() == all.len(),
            all.len() <= usize::MAX,
            rest@.reverse() == all.skip(k as int),
            forall|i: int| 0 <= i < k ==> mapped_skill(base@, all[i], #[trigger] out@[i]),
        decreases rest.len(),
    {
        let ghost before_rest = rest@;
        let x = rest.pop().unwrap();
        assert(before_rest.reverse()[0] == x);
        assert(x == all[k as int]);
        assert(rest@.reverse() =~= before_rest.reverse().drop_first());
        assert(all.skip(k as int).drop_first() =~= all.skip(k + 1));
        out.push(map_skill(base, x));
        k = k + 1;
    }
    out
}

/// The versions named by a list of version records, in order; records
/// without a version are skipped.
pub fn versions_of(items: &Vec<JsonValue>) -> (out: Vec<RemoteSkillVersion>)
    ensures
        out@.map_values(|v: RemoteSkillVersion| v.version@) == versions_spec(items@),
{
    let mut out: Vec<RemoteSkillVersion> = Vec::new();
    let mut i: usize = 0;
    assert(items@.take(0) =~= Seq::<JsonValue>::empty());
    assert(out@.map_values(|v: RemoteSkillVersion| v.version@) =~= Seq::<Seq<char>>::empty());
    while i < items.len()
        invariant
            i <= items.len(),
            out@.map_values(|v: RemoteSkillVersion| v.version@) == versions_spec(
                items@.take(i as int),
            ),
        decreases items.len() - i,
    {
        assert(items@.take(i + 1).drop_last() =~= items@.take(i as int));
        let ghost before = out@.map_values(|v: RemoteSkillVersion| v.version@);
        match extract_version(&items[i]) {
            Some(version) => {
                out.push(RemoteSkillVersion { version });
                assert(out@.map_values(|v: RemoteSkillVersion| v.version@) =~= before.push(
                    spec_extract_version(items@[i as int])->Some_0,
                ));
            },
            None => {},
        }
        i = i + 1;
    }
    assert(items@.take(i as int) =~= items@);
    out
}

/// The versions named by version records, in order.
pub open spec fn versions_spec(items: Seq<JsonValue>) -> Seq<Seq<char>>
    decreases items.len(),
{
    if items.len() == 0 {
        seq![]
    } else {
        match spec_extract_version(items.last()) {
            Some(v) => versions_spec(items.drop_last()).push(v),
            None => versions_spec(items.drop_last()),
        }
    }
}


// ---------------------------------------------------------------------------
// Checking answers
// ---------------------------------------------------------------------------

/// The four bytes that open a ZIP archive (local file, end of central
/// directory, or spanning marker).
pub open spec fn zip_magic(b: Seq<u8>) -> bool {
    b.len() >= 4 && b[0] == 0x50 && b[1] == 0x4b && ((b[2] == 3 && b[3] == 4) || (b[2] == 5
        && b[3] == 6) || (b[2] == 7 && b[3] == 8))
}

/// Whether a download starts like a ZIP archive.
pub fn looks_like_zip(bytes: &[u8]) -> (b: bool)
    ensures
        b == zip_magic(bytes@),
{
    if bytes.len() < 4 {
        return false;
    }
    bytes[0] == 0x50 && bytes[1] == 0x4b && ((bytes[2] == 3 && bytes[3] == 4) || (bytes[2] == 5
        && bytes[3] == 6) || (bytes[2] == 7 && bytes[3] == 8))
}

/// The number of bytes of the UTF-8 encoding of a character.
pub open spec fn char_width(c: char) -> nat {
    let u = c as u32;
    if u < 0x80 {
        1
    } else if u < 0x800 {
        2
    } else if u < 0x10000 {
        3
    } else {
        4
    }
}

/// The number of bytes of the UTF-8 encoding of a text (`str::len`).
pub open spec fn utf8_len(s: Seq<char>) -> nat
    decreases s.len(),
{
    if s.len() == 0 {
        0
    } else {
        utf8_len(s.drop_last()) + char_width(s.last())
    }
}

/// Line breaks made spaces, then trimmed.
pub open spec fn one_line(t: Seq<char>) -> Seq<char> {
    text::trim(t.map_values(|c: char| if c == '\r' || c == '\n' { ' ' } else { c }))
}

/// `max_len` bytes of the one-line text end on a character boundary, or
/// the text is no longer than that (else cutting it would panic).
pub open spec fn preview_fits(t: Seq<char>, max_len: nat) -> bool {
    let o = one_line(t);
    utf8_len(o) <= max_len || exists|k: int| 0 <= k <= o.len() && utf8_len(o.take(k)) == max_len
}

/// A preview of a response text: on one line and trimmed, cut to
/// `max_len` bytes followed by `...` when longer, and
/// `<non-text response>` when nothing is left.
pub open spec fn spec_preview_text(t: Seq<char>, max_len: nat) -> Seq<char> {
    let o = one_line(t);
    if o.len() == 0 {
        "<non-text response>"@
    } else if utf8_len(o) > max_len {
        let k = choose|k: int| 0 <= k <= o.len() && utf8_len(o.take(k)) == max_len;
        o.take(k) + "..."@
    } else {
        o
    }
}

proof fn lemma_utf8_len_take_step(s: Seq<char>, k: int)
    requires
        0 <= k < s.len(),
    ensures
        utf8_len(s.take(k + 1)) == utf8_len(s.take(k)) + char_width(s[k]),
{
    assert(s.take(k + 1).drop_last() =~= s.take(k));
}

/// `utf8_len` of prefixes grows strictly with their length.
proof fn lemma_utf8_len_take_mono(s: Seq<char>, a: int, b: int)
    requires
        0 <= a < b <= s.len(),
    ensures
        utf8_len(s.take(a)) < utf8_len(s.take(b)),
    decreases b - a,
{
    lemma_utf8_len_take_step(s, b - 1);
    if a < b - 1 {
        lemma_utf8_len_take_mono(s, a, b - 1);
    }
}

fn char_width_exec(c: char) -> (w: u64)
    ensures
        w == char_width(c),
        1 <= w <= 4,
{
    let u = c as u32;
    if u < 0x80 {
        1
    } else if u < 0x800 {
        2
    } else if u < 0x10000 {
        3
    } else {
        4
    }
}

/// `one_line(t)` as a vector.
fn one_line_chars(t: &Vec<char>) -> (out: Vec<char>)
    ensures
        out@ == one_line(t@),
{
    let mut m: Vec<char> = Vec::new();
    let mut i: usize = 0;
    while i < t.len()
        invariant
            i <= t.len(),
            m@ == t@.take(i as int).map_values(
                |c: char| if c == '\r' || c == '\n' { ' ' } else { c },
            ),
        decreases t.len() - i,
    {
        let c = t[i];
        let d = if c == '\r' || c == '\n' {
            ' '
        } else {
            c
        };
        m.push(d);
        assert(t@.take(i + 1).map_values(|c: char| if c == '\r' || c == '\n' { ' ' } else { c })
            =~= t@.take(i as int).map_values(
            |c: char| if c == '\r' || c == '\n' { ' ' } else { c },
        ).push(d));
        i = i + 1;
    }
    assert(t@.take(i as int) =~= t@);
    text::trim_chars(&m)
}

/// A preview of a response text (see `spec_preview_text`).
pub fn preview_text(t: &str, max_len: usize) -> (out: String)
    requires
        preview_fits(t@, max_len as nat),
    ensures
        out@ == spec_preview_text(t@, max_len as nat),
{
    let o = one_line_chars(&text::chars_of(t));
    if o.len() == 0 {
        return text::owned("<non-text response>");
    }
    let mut acc: u128 = 0;
    let mut i: usize = 0;
    assert(o@.take(0) =~= Seq::<char>::empty());
    while i < o.len() && acc < (max_len as u128)
        invariant
            i <= o.len(),
            acc == utf8_len(o@.take(i as int)),
            i > 0 ==> utf8_len(o@.take(i - 1)) < max_len,
            acc <= max_len + 4,
        decreases o.len() - i,
    {
        let w = char_width_exec(o[i]);
        proof {
            lemma_utf8_len_take_step(o@, i as int);
        }
        acc = acc + (w as u128);
        i = i + 1;
    }
    if i == o.len() && acc <= (max_len as u128) {
        assert(o@.take(i as int) =~= o@);
        return text::string_from(&o);
    }
    // The text is longer than `max_len` bytes.
    proof {
        if i < o.len() {
            lemma_utf8_len_take_mono(o@, i as int, o@.len() as int);
        }
        assert(o@.take(o@.len() as int) =~= o@);
        if i == o.len() {
            assert(utf8_len(o@) > max_len);
        } else {
            assert(utf8_len(o@) > max_len);
        }
        let k = choose|k: int| 0 <= k <= o@.len() && utf8_len(o@.take(k)) == max_len;
        if k < i {
            lemma_utf8_len_take_mono(o@, k, i as int);
            if k < i - 1 {
                lemma_utf8_len_take_mono(o@, k, i - 1);
            }
        } else if k > i {
            lemma_utf8_len_take_mono(o@, i as int, k);
        }
        assert(k == i);
    }
    let mut out = text::string_from(&text::copy_range(&o, 0, i));
    text::string_push_str(&mut out, "...");
    proof {
        assert(o@.subrange(0, i as int) =~= o@.take(i as int));
    }
    out
}

/// Whether a preview of `t` can be cut at `max_len` bytes (see
/// `preview_fits`): the one-line text is no longer than that, or that many
/// bytes end on a character boundary.
pub fn fits_preview(t: &str, max_len: usize) -> (b: bool)
    ensures
        b == preview_fits(t@, max_len as nat),
{
    let o = one_line_chars(&text::chars_of(t));
    let mut acc: u128 = 0;
    let mut i: usize = 0;
    assert(o@.take(0) =~= Seq::<char>::empty());
    while i < o.len() && acc < (max_len as u128)
        invariant
            i <= o.len(),
            acc == utf8_len(o@.take(i as int)),
            i > 0 ==> utf8_len(o@.take(i - 1)) < max_len,
            acc <= max_len + 4,
        decreases o.len() - i,
    {
        let w = char_width_exec(o[i]);
        proof {
            lemma_utf8_len_take_step(o@, i as int);
        }
        acc = acc + (w as u128);
        i = i + 1;
    }
    assert(o@.take(o@.len() as int) =~= o@);
    if acc == (max_len as u128) {
        return true;
    }
    if i == o.len() && acc < (max_len as u128) {
        return true;
    }
    // `acc` passed `max_len` inside the text: no prefix has exactly
    // `max_len` bytes, and the whole text has more.
    proof {
        if i < o.len() {
            lemma_utf8_len_take_mono(o@, i as int, o@.len() as int);
        }
        assert forall|k: int| 0 <= k <= o@.len() implies utf8_len(o@.take(k)) != max_len by {
            if k < i - 1 {
                lemma_utf8_len_take_mono(o@, k, i - 1);
            } else if k > i {
                lemma_utf8_len_take_mono(o@, i as int, k);
            }
        }
    }
    false
}

/// Names what `String::from_utf8_lossy` returns: the text of the bytes,
/// with each invalid sequence replaced by U+FFFD.
pub uninterp spec fn utf8_lossy(b: Seq<u8>) -> Seq<char>;

/// `String::from_utf8_lossy`. Its result is named; the one fact stated is
/// the documented one that valid UTF-8 is decoded unchanged.
#[verifier::external_body]
fn lossy_utf8(b: &[u8]) -> (out: String)
    ensures
        out@ == utf8_lossy(b@),
        vstd::utf8::valid_utf8(b@) ==> out@ == vstd::utf8::decode_utf8(b@),
{
    String::from_utf8_lossy(b).into_owned()
}

/// The text a preview of `bytes` is made from: at most `max_len` bytes,
/// decoded.
pub open spec fn preview_source(bytes: Seq<u8>, max_len: nat) -> Seq<char> {
    utf8_lossy(
        bytes.take(
            if bytes.len() < max_len {
                bytes.len() as int
            } else {
                max_len as int
            },
        ),
    )
}

/// A preview of a response body: `<empty response>` when there is none,
/// else a preview of the text of its first `max_len` bytes.
pub open spec fn spec_preview_bytes(bytes: Seq<u8>, max_len: nat) -> Seq<char> {
    if bytes.len() == 0 {
        "<empty response>"@
    } else {
        spec_preview_text(preview_source(bytes, max_len), max_len)
    }
}

/// A preview of a response body (see `spec_preview_bytes`).
pub fn preview_bytes(bytes: &[u8], max_len: usize) -> (out: String)
    requires
        bytes@.len() > 0 ==> preview_fits(preview_source(bytes@, max_len as nat), max_len as nat),
    ensures
        out@ == spec_preview_bytes(bytes@, max_len as nat),
{
    if bytes.len() == 0 {
        return text::owned("<empty response>");
    }
    let take = if bytes.len() < max_len {
        bytes.len()
    } else {
        max_len
    };
    let head = vstd::slice::slice_subrange(bytes, 0, take);
    assert(head@ =~= bytes@.take(take as int));
    let t = lossy_utf8(head);
    preview_text(t.as_str(), max_len)
}

/// A preview of a response body, or `None` where cutting it at `max_len`
/// bytes would split a character.
pub fn try_preview_bytes(bytes: &[u8], max_len: usize) -> (out: Option<String>)
    ensures
        out is None <==> (bytes@.len() > 0 && !preview_fits(
            preview_source(bytes@, max_len as nat),
            max_len as nat,
        )),
        out matches Some(s) ==> s@ == spec_preview_bytes(bytes@, max_len as nat),
{
    if bytes.len() == 0 {
        return Some(preview_bytes(bytes, max_len));
    }
    let take = if bytes.len() < max_len {
        bytes.len()
    } else {
        max_len
    };
    let head = vstd::slice::slice_subrange(bytes, 0, take);
    assert(head@ =~= bytes@.take(take as int));
    let t = lossy_utf8(head);
    if !fits_preview(t.as_str(), max_len) {
        return None;
    }
    Some(preview_bytes(bytes, max_len))
}

/// Whether an HTTP status is a success (200 to 299).
pub fn is_success_status(status: u16) -> (b: bool)
    ensures
        b == (200 <= status <= 299),
{
    200 <= status && status <= 299
}

/// The error for a failed request: status 429 is a rate limit, with the
/// `Retry-After` header when there is one; any other status is reported
/// with its text. Both carry a 500-byte preview of the answer.
pub fn http_failure(
    context: &str,
    status: u16,
    status_text: String,
    retry_after: Option<String>,
    body: &str,
) -> (e: SkillError)
    requires
        preview_fits(body@, 500),
    ensures
        status == 429 ==> (e matches SkillError::RateLimited(c, r, p) && c@ == context@
            && text::opt_view(r) == text::opt_view(retry_after) && p@ == spec_preview_text(
            body@,
            500,
        )),
        status != 429 ==> (e matches SkillError::HttpStatus(c, st, p) && c@ == context@ && st@
            == status_text@ && p@ == spec_preview_text(body@, 500)),
{
    let preview = preview_text(body, 500);
    if status == 429 {
        SkillError::RateLimited(text::owned(context), retry_after, preview)
    } else {
        SkillError::HttpStatus(text::owned(context), status_text, preview)
    }
}

/// Accepts a download only when it is a ZIP archive; otherwise the error
/// names the content type and previews the first 500 bytes.
pub fn check_download(content_type: &str, bytes: &[u8]) -> (r: Result<(), SkillError>)
    requires
        !zip_magic(bytes@) && bytes@.len() > 0 ==> preview_fits(preview_source(bytes@, 500), 500),
    ensures
        r is Ok <==> zip_magic(bytes@),
        r matches Err(e) ==> e matches SkillError::NotZip(ct, p) && ct@ == content_type@ && p@
            == spec_preview_bytes(bytes@, 500),
{
    if !looks_like_zip(bytes) {
        return Err(SkillError::NotZip(text::owned(content_type), preview_bytes(bytes, 500)));
    }
    Ok(())
}

/// `check_download`, or `None` where the preview of a download that is not
/// a ZIP archive cannot be cut at 500 bytes without splitting a character.
pub fn try_check_download(content_type: &str, bytes: &[u8]) -> (out: Option<Result<(), SkillError>>)
    ensures
        out is None <==> (!zip_magic(bytes@) && bytes@.len() > 0 && !preview_fits(
            preview_source(bytes@, 500),
            500,
        )),
        out matches Some(r) ==> (r is Ok <==> zip_magic(bytes@)),
        out matches Some(Err(e)) ==> e matches SkillError::NotZip(ct, p) && ct@ == content_type@
            && p@ == spec_preview_bytes(bytes@, 500),
{
    if !looks_like_zip(bytes) {
        match try_preview_bytes(bytes, 500) {
            None => {
                return None;
            },
            Some(_) => {},
        }
    }
    Some(check_download(content_type, bytes))
}

/// The status a security check answers with (empty when none).
pub fn scan_status(v: &JsonValue) -> (out: String)
    ensures
        out@ == text_or(json::get_str(*v, "status"@), Seq::empty()),
{
    match json::get_str_exec(v, "status") {
        Some(s) => text::owned(s),
        None => String::new(),
    }
}

/// A security check blocks the install when its status is `malicious` or
/// `malware-blocked`, in any ASCII case.
pub open spec fn blocks_install(status: Seq<char>) -> bool {
    text::eq_ignore_ascii_case(status, "malicious"@) || text::eq_ignore_ascii_case(
        status,
        "malware-blocked"@,
    )
}

/// Refuses an install whose security check found it malicious.
pub fn check_scan_status(status: &str) -> (r: Result<(), SkillError>)
    ensures
        r is Ok <==> !blocks_install(status@),
        r matches Err(e) ==> e matches SkillError::BlockedByScan(s) && s@ == status@,
{
    let s = text::chars_of(status);
    if text::eq_ignore_ascii_case_chars(&s, &text::chars_of("malicious"))
        || text::eq_ignore_ascii_case_chars(&s, &text::chars_of("malware-blocked")) {
        return Err(SkillError::BlockedByScan(text::owned(status)));
    }
    Ok(())
}

} // verus!
