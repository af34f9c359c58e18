//! The Kingdee skill store as a skill source: how its list entries become
//! skill records, and what a download asks for.
use vstd::prelude::*;

use crate::api::SkillInfo;
use crate::error::SkillError;
use crate::json;
use crate::json::JsonValue;
use crate::number;
use crate::sources::{RemoteSkill, RemoteSkillVersion};
use crate::text;

verus! {

/// Where an installed skill came from in the Kingdee store.
pub struct KingdeeSource {
    pub id: i64,
    pub version: String,
}

/// A store entry as a skill record: named and found by its name, at its
/// current version (else its version), with its id kept as `meta.id`.
pub fn remote_from_info(info: SkillInfo) -> (out: RemoteSkill)
    ensures
        out.name == info.name,
        out.slug == info.name,
        out.version == (match info.current_version {
            Some(v) => Some(v),
            None => info.version,
        }),
        out.canonical_url is None,
        out.source@ == "kingdee"@,
        out.description == info.description,
        json::json_get(out.meta, "id"@) matches Some(JsonValue::Number(t)) && t@
            == number::signed_decimal(info.id as int),
{
    let id_text = number::i64_to_decimal(info.id);
    let meta = JsonValue::Object(vec![(text::owned("id"), JsonValue::Number(id_text))]);
    proof {
        reveal_strlit("id");
    }
    RemoteSkill {
        name: info.name.clone(),
        slug: info.name,
        version: match info.current_version {
            Some(v) => Some(v),
            None => info.version,
        },
        canonical_url: None,
        source: text::owned("kingdee"),
        description: info.description,
        meta,
    }
}

/// The first record whose slug is `slug`.
pub fn find_by_slug(list: Vec<RemoteSkill>, slug: &str) -> (r: Result<RemoteSkill, SkillError>)
    ensures
        match r {
            Ok(s) => exists|i: int|
                0 <= i < list@.len() && list@[i] == s && s.slug@ == slug@ && forall|j: int|
                    0 <= j < i ==> (#[trigger] list@[j]).slug@ != slug@,
            Err(e) => e is SkillNotFound && forall|j: int|
                0 <= j < list@.len() ==> (#[trigger] list@[j]).slug@ != slug@,
        },
{
    let ghost all = list@;
    let target = text::chars_of(slug);
    let mut items = list;
    let mut i: usize = 0;
    while i < items.len()
        invariant
            i <= list.len(),
            items@ == all,
            all == list@,
            target@ == slug@,
            forall|j: int| 0 <= j < i ==> (#[trigger] all[j]).slug@ != slug@,
        decreases items.len() - i,
    {
        let s = text::chars_of(items[i].slug.as_str());
        if text::chars_eq(&s, &target) {
            let ghost k = i as int;
            let found = items.swap_remove(i);
            assert(found == all[k]);
            assert(found.slug@ == slug@);
            assert(forall|j: int| 0 <= j < k ==> (#[trigger] all[j]).slug@ != slug@);
            assert(exists|i: int|
                0 <= i < all.len() && all[i] == found && found.slug@ == slug@ && forall|j: int|
                    0 <= j < i ==> (#[trigger] all[j]).slug@ != slug@);
            return Ok(found);
        }
        i = i + 1;
    }
    Err(SkillError::SkillNotFound)
}

/// The versions the store lists for a skill: its one version, if any.
pub fn versions_of(one: RemoteSkill) -> (out: Vec<RemoteSkillVersion>)
    ensures
        match one.version {
            Some(v) => out@.len() == 1 && out@[0].version == v,
            None => out@.len() == 0,
        },
{
    match one.version {
        Some(v) => vec![RemoteSkillVersion { version: v }],
        None => Vec::new(),
    }
}

/// The id of a record: its `meta.id`, when that is an integer that fits
/// an `i64`.
pub open spec fn spec_meta_id(meta: JsonValue) -> Option<i64> {
    match json::json_get(meta, "id"@) {
        Some(JsonValue::Number(t)) => number::spec_parse_i64(t@),
        _ => None,
    }
}

/// What a download asks the store for: the record's id, and the version
/// requested or else the record's version.
pub fn download_request(one: &RemoteSkill, version: Option<&str>) -> (r: Result<(i64, String), SkillError>)
    ensures
        match spec_meta_id(one.meta) {
            None => r matches Err(e) && e is MissingId,
            Some(id) => match (version, one.version) {
                (Some(v), _) => r matches Ok((i, s)) && i == id && s@ == v@,
                (None, Some(v)) => r matches Ok((i, s)) && i == id && s@ == v@,
                (None, None) => r matches Err(e) && e is NoVersion,
            },
        },
{
    let id = match json::get(&one.meta, "id") {
        Some(JsonValue::Number(t)) => number::parse_i64(&text::chars_of(t.as_str())),
        _ => None,
    };
    let id = match id {
        Some(i) => i,
        None => {
            return Err(SkillError::MissingId);
        },
    };
    let ver = match version {
        Some(v) => text::owned(v),
        None => match &one.version {
            Some(v) => v.clone(),
            None => {
                return Err(SkillError::NoVersion);
            },
        },
    };
    Ok((id, ver))
}

} // verus!
