use skillmux::error::SkillError;
use skillmux::json::JsonValue;
use skillmux::sources::clawhub::{
    check_download, check_scan_status, download_params, extract_version, fits_preview,
    http_failure, looks_like_zip, map_skill, map_skills, normalize_base, preview_bytes,
    preview_text, response_data, response_items, search_params, try_check_download,
    try_preview_bytes, versions_of,
};

fn s(x: &str) -> JsonValue {
    JsonValue::Str(x.to_string())
}

fn obj(fields: Vec<(&str, JsonValue)>) -> JsonValue {
    JsonValue::Object(fields.into_iter().map(|(k, v)| (k.to_string(), v)).collect())
}

#[test]
fn latest_uses_tag_not_version() {
    let params = download_params("resume-assistant", Some("latest"));

    assert_eq!(
        params,
        vec![
            ("slug", "resume-assistant".to_string()),
            ("tag", "latest".to_string())
        ]
    );
}

#[test]
fn none_uses_latest_tag() {
    let params = download_params("resume-assistant", None);

    assert_eq!(
        params,
        vec![
            ("slug", "resume-assistant".to_string()),
            ("tag", "latest".to_string())
        ]
    );
}

#[test]
fn semver_uses_version() {
    let params = download_params("resume-assistant", Some("1.2.3"));

    assert_eq!(
        params,
        vec![
            ("slug", "resume-assistant".to_string()),
            ("version", "1.2.3".to_string())
        ]
    );
}

#[test]
fn zip_magic_is_detected() {
    assert!(looks_like_zip(b"PK\x03\x04abc"));
    assert!(looks_like_zip(b"PK\x05\x06abc"));
    assert!(looks_like_zip(b"PK\x07\x08abc"));
    assert!(!looks_like_zip(b"not a zip"));
}

#[test]
fn version_is_trimmed_and_latest_matches_any_case() {
    assert_eq!(
        download_params("a", Some(" 2.0 ")),
        vec![("slug", "a".to_string()), ("version", "2.0".to_string())]
    );
    assert_eq!(
        download_params("a", Some("LaTeSt")),
        vec![("slug", "a".to_string()), ("tag", "latest".to_string())]
    );
    assert_eq!(
        download_params("a", Some("   ")),
        vec![("slug", "a".to_string()), ("tag", "latest".to_string())]
    );
}

#[test]
fn short_input_is_not_zip() {
    assert!(!looks_like_zip(b"PK\x03"));
    assert!(!looks_like_zip(b""));
}

#[test]
fn base_loses_trailing_slashes() {
    assert_eq!(normalize_base(None), "https://clawhub.ai");
    assert_eq!(normalize_base(Some("http://h//".to_string())), "http://h");
}

#[test]
fn search_query() {
    assert_eq!(
        search_params(Some("pdf".into()), 20, 3),
        vec![
            ("q", "pdf".to_string()),
            ("limit", "20".to_string()),
            ("page", "3".to_string()),
            ("nonSuspiciousOnly", "true".to_string())
        ]
    );
    assert_eq!(search_params(None, 5, 1)[0], ("q", String::new()));
}

#[test]
fn versions_are_found_in_order_of_preference() {
    assert_eq!(extract_version(&obj(vec![("version", s("1")), ("tag", s("t"))])).as_deref(), Some("1"));
    assert_eq!(extract_version(&obj(vec![("tag", s("t"))])).as_deref(), Some("t"));
    assert_eq!(extract_version(&obj(vec![("latestVersion", s("2"))])).as_deref(), Some("2"));
    assert_eq!(
        extract_version(&obj(vec![("latestVersion", obj(vec![("version", s("3"))]))])).as_deref(),
        Some("3")
    );
    assert_eq!(
        extract_version(&obj(vec![("latest", obj(vec![("version", s("4"))]))])).as_deref(),
        Some("4")
    );
    // A version that is not a string hides the tag.
    assert_eq!(
        extract_version(&obj(vec![
            ("version", JsonValue::Number("5".into())),
            ("tag", s("t")),
            ("latestVersion", s("6"))
        ]))
        .as_deref(),
        Some("6")
    );
    assert_eq!(extract_version(&JsonValue::Null), None);
}

#[test]
fn skill_records_are_read() {
    let v = obj(vec![
        ("slug", s("pdf")),
        ("displayName", s("PDF tools")),
        ("summary", s("Works on PDFs")),
        ("version", s("1.0.0")),
    ]);
    let r = map_skill("https://clawhub.ai", v);
    assert_eq!(r.slug, "pdf");
    assert_eq!(r.name, "PDF tools");
    assert_eq!(r.version.as_deref(), Some("1.0.0"));
    assert_eq!(r.canonical_url.as_deref(), Some("https://clawhub.ai/skills/pdf"));
    assert_eq!(r.source, "clawhub");
    assert_eq!(r.description.as_deref(), Some("Works on PDFs"));
    let bare = map_skill("b", obj(vec![("slug", s("x"))]));
    assert_eq!(bare.name, "x");
    assert_eq!(bare.description, None);
}

#[test]
fn list_answers_are_read() {
    let v = obj(vec![(
        "data",
        JsonValue::Array(vec![
            obj(vec![("slug", s("a")), ("displayName", s("A")), ("summary", s("about a"))]),
            obj(vec![("slug", s("b")), ("version", s("2.0"))]),
        ]),
    )]);
    let items = response_items(v);
    assert_eq!(items.len(), 2);
    let skills = map_skills("h", items);
    assert_eq!(skills[0].slug, "a");
    assert_eq!(skills[0].name, "A");
    assert_eq!(skills[0].description.as_deref(), Some("about a"));
    assert_eq!(skills[0].canonical_url.as_deref(), Some("h/skills/a"));
    assert_eq!(skills[1].slug, "b");
    assert_eq!(skills[1].name, "b");
    assert_eq!(skills[1].version.as_deref(), Some("2.0"));
    assert_eq!(skills[1].description, None);
    assert_eq!(skills[1].source, "clawhub");
    let items = response_items(JsonValue::Array(vec![JsonValue::Null]));
    assert_eq!(items.len(), 1);
    assert_eq!(response_items(obj(vec![("data", s("x"))])).len(), 0);
    let d = response_data(obj(vec![("data", obj(vec![("slug", s("z"))]))]));
    assert_eq!(map_skill("h", d).slug, "z");
    let vs = versions_of(&vec![obj(vec![("version", s("1"))]), JsonValue::Null, obj(vec![("tag", s("2"))])]);
    let names: Vec<String> = vs.into_iter().map(|v| v.version).collect();
    assert_eq!(names, vec!["1".to_string(), "2".to_string()]);
}

#[test]
fn previews() {
    assert_eq!(preview_text("  a\r\nb  ", 500), "a  b");
    assert_eq!(preview_text(" \n ", 500), "<non-text response>");
    assert_eq!(preview_text("abcdef", 3), "abc...");
    assert_eq!(preview_text("héllo", 3), "hé...");
    assert_eq!(preview_bytes(b"", 10), "<empty response>");
    assert_eq!(preview_bytes(b"hello world", 5), "hello");
}

#[test]
fn failures_are_reported() {
    let e = http_failure("clawhub api", 429, "429 Too Many Requests".into(), Some("7".into()), "slow down");
    assert_eq!(e.message(), "clawhub api failed with rate limit 429; retry after 7s; response: slow down");
    let e = http_failure("clawhub api", 429, "429 Too Many Requests".into(), None, "");
    assert_eq!(e.message(), "clawhub api failed with rate limit 429; response: <non-text response>");
    let e = http_failure("clawhub download", 404, "404 Not Found".into(), None, "nope");
    assert_eq!(e.message(), "clawhub download failed with HTTP 404 Not Found; response: nope");
    let e = check_download("", b"<html>").expect_err("not zip");
    assert_eq!(
        e.message(),
        "clawhub download did not return a ZIP archive; content-type: <missing>; response preview: <html>"
    );
    assert!(check_download("application/zip", b"PK\x03\x04").is_ok());
}

#[test]
fn security_scan_blocks_malicious() {
    assert!(check_scan_status("clean").is_ok());
    assert!(check_scan_status("").is_ok());
    let e = check_scan_status("MALICIOUS").expect_err("blocked");
    assert!(matches!(e, SkillError::BlockedByScan(ref st) if st == "MALICIOUS"));
    assert_eq!(e.message(), "blocked by security scan: MALICIOUS");
    assert!(check_scan_status("Malware-Blocked").is_err());
}

#[test]
fn preview_cut_points() {
    // "é" takes two bytes: a cut after two bytes of "héllo" splits it.
    assert!(fits_preview("héllo", 3));
    assert!(!fits_preview("héllo", 2));
    assert!(fits_preview("hé", 10));
    assert!(fits_preview("\n héllo", 1));
    assert_eq!(try_preview_bytes("héllo".as_bytes(), 3), Some("hé".to_string()));
    assert_eq!(try_preview_bytes("héllo".as_bytes(), 2), None);
    assert_eq!(try_preview_bytes(b"", 2), Some("<empty response>".to_string()));
    let zip = [0x50u8, 0x4b, 3, 4, 0xc3];
    assert!(matches!(try_check_download("application/zip", &zip), Some(Ok(()))));
    assert!(matches!(
        try_check_download("text/html", b"<html>"),
        Some(Err(SkillError::NotZip(_, p))) if p == "<html>"
    ));
}
