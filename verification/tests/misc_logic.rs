use skillmux::api::{data_list, decode_token, download_params, normalize_api_base, search_params, SkillInfo};
use skillmux::git_backend::{contains_exec, is_head, ref_candidates};
use skillmux::git_backend::git2_backend::{self, GitErrorCode};
use skillmux::git_backend::gix;
use skillmux::json::JsonValue;
use skillmux::number::{i64_to_decimal, parse_i64, parse_u64, u64_to_decimal};
use skillmux::sources::kingdee::{download_request, find_by_slug, remote_from_info, versions_of};

#[test]
fn numbers() {
    let c = |s: &str| s.chars().collect::<Vec<char>>();
    assert_eq!(u64_to_decimal(0), "0");
    assert_eq!(u64_to_decimal(u64::MAX), u64::MAX.to_string());
    assert_eq!(i64_to_decimal(i64::MIN), i64::MIN.to_string());
    assert_eq!(i64_to_decimal(-5), "-5");
    assert_eq!(parse_u64(&c("+12")), Some(12));
    assert_eq!(parse_u64(&c("+")), None);
    assert_eq!(parse_u64(&c("-1")), None);
    assert_eq!(parse_u64(&c("")), None);
    assert_eq!(parse_i64(&c("-9223372036854775808")), Some(i64::MIN));
    assert_eq!(parse_i64(&c("9223372036854775808")), None);
    assert_eq!(parse_i64(&c("1.0")), None);
}

#[test]
fn git_refs_and_errors() {
    assert!(is_head("HEAD"));
    assert!(!is_head("head"));
    assert_eq!(
        ref_candidates("v1"),
        vec!["v1", "refs/heads/v1", "refs/tags/v1", "refs/remotes/origin/v1"]
    );
    assert!(contains_exec("abc", "bc"));
    assert!(contains_exec("abc", ""));
    assert!(!contains_exec("ab", "abc"));
    let e = git2_backend::classify(false, GitErrorCode::NotFound, "repository not found".into());
    assert!(matches!(e, git2_backend::GitSyncError::RepoNotFound(_)));
    let e = git2_backend::classify(true, GitErrorCode::Other, "x".into());
    assert!(matches!(e, git2_backend::GitSyncError::Network(_)));
    let e = git2_backend::classify(false, GitErrorCode::Other, "operation timed out".into());
    assert!(matches!(e, git2_backend::GitSyncError::Network(_)));
    let e = git2_backend::classify(false, GitErrorCode::Other, "object not found".into());
    assert!(matches!(e, git2_backend::GitSyncError::Other(_)));
    assert_eq!(e.message(), "git operation failed: object not found");
    let e = gix::classify("object not found".into());
    assert!(matches!(e, gix::GitSyncError::RepoNotFound(_)));
    let e = gix::classify("TLS handshake".into());
    assert_eq!(e.message(), "network failure while accessing repository: TLS handshake");
}

#[test]
fn store_api() {
    assert_eq!(normalize_api_base("https://x/api/"), "https://x/api");
    let key = 0x5Au8;
    let data: Vec<u8> = "tok".bytes().map(|b| b ^ key).collect();
    assert_eq!(decode_token(&data, key), "tok");
    assert_eq!(decode_token(&[0xFFu8 ^ key], key), "");
    assert_eq!(
        search_params(Some("pdf".into()), 1, 20),
        vec![("page", "1".to_string()), ("pageSize", "20".to_string()), ("keyword", "pdf".to_string())]
    );
    assert_eq!(
        download_params(-3, "1.0", "t"),
        vec![("id", "-3".to_string()), ("version", "1.0".to_string()), ("token", "t".to_string())]
    );
    let v = JsonValue::Object(vec![(
        "data".into(),
        JsonValue::Object(vec![("list".into(), JsonValue::Array(vec![]))]),
    )]);
    assert!(matches!(data_list(&v), Ok(JsonValue::Array(_))));
    let e = data_list(&JsonValue::Null).err().unwrap();
    assert_eq!(e.message(), "missing data.list");
}

#[test]
fn store_records() {
    let info = SkillInfo {
        id: 42,
        name: "pdf".into(),
        display_name: None,
        description: Some("d".into()),
        current_version: None,
        version: Some("1.0".into()),
    };
    let r = remote_from_info(info);
    assert_eq!(r.slug, "pdf");
    assert_eq!(r.version.as_deref(), Some("1.0"));
    assert_eq!(download_request(&r, None).unwrap(), (42, "1.0".to_string()));
    assert_eq!(download_request(&r, Some("2.0")).unwrap(), (42, "2.0".to_string()));
    let found = find_by_slug(vec![r], "pdf").unwrap();
    assert_eq!(found.name, "pdf");
    let vs = versions_of(found);
    assert_eq!(vs.len(), 1);
    assert!(find_by_slug(vec![], "pdf").is_err());
}
