use skillmux::sources::github::{cache_key, parse, repo_api_url, validate_skill_root};

#[test]
fn parse_supports_prefix_and_ref() {
    let s = parse("gh:owner/repo@main").expect("parsed");
    assert_eq!(s.owner, "owner");
    assert_eq!(s.repo, "repo");
    assert_eq!(s.git_ref, "main");

    let s2 = parse("github:owner/repo").expect("parsed");
    assert_eq!(s2.git_ref, "HEAD");
}

#[test]
fn parse_rejects_unsafe_owner_or_repo() {
    assert!(parse("gh:../repo").is_none());
    assert!(parse("gh:owner/..").is_none());
}

#[test]
fn cache_key_sanitizes_ref() {
    assert_eq!(cache_key("owner", "repo", "feature/x"), "owner/repo/feature_x");
    assert_eq!(cache_key("owner", "repo", "..\\x"), "owner/repo/.._x");
}

#[test]
fn parse_urls_and_git_suffix() {
    let s = parse("https://github.com/o/r.git.git/extra").expect("parsed");
    assert_eq!(s.repo, "r");
    assert_eq!(s.url, "https://github.com/o/r");
    assert_eq!(s.subdir, None);
    assert!(parse("gh:owner").is_none());
    assert!(parse("gitlab:o/r").is_none());
    assert!(parse("gh:o/r@").map(|g| g.git_ref.is_empty()).unwrap_or(false));
    assert!(parse("gh:o w/r").is_none());
}

#[test]
fn cache_key_never_escapes() {
    assert_eq!(cache_key("", ".", ".."), "_/_/_");
    assert_eq!(cache_key("a/b", "c", "d"), "a_b/c/d");
}

#[test]
fn skill_root_must_have_manifest() {
    assert!(validate_skill_root(true).is_ok());
    let e = validate_skill_root(false).expect_err("missing");
    assert_eq!(e.message(), "missing SKILL.md in source directory");
    assert_eq!(repo_api_url("o", "r"), "https://api.github.com/repos/o/r");
}

#[test]
fn recorded_url_parses_back() {
    let s = parse("gh:some-owner/my_repo.v2@v1.0").expect("parsed");
    assert_eq!(s.url, "https://github.com/some-owner/my_repo.v2");
    let back = parse(&s.url).expect("parsed");
    assert_eq!(back.owner, "some-owner");
    assert_eq!(back.repo, "my_repo.v2");
    assert_eq!(back.git_ref, "HEAD");
    assert_eq!(back.url, s.url);
}
