use skillmux::error::SkillError;
use skillmux::install::{
    choose_skill_root, confirmed, github_install_record, install_version, parse_skill_identifier,
    prepare_github, registry_install_record, registry_request, should_install, uses_clawhub,
};
use skillmux::json::{get_str_exec, JsonValue};
use skillmux::sources::github::parse;
use skillmux::sources::RemoteSkill;

#[test]
fn identifiers_split_source_slug_and_version() {
    assert_eq!(
        parse_skill_identifier("clawhub:pdf@1.2"),
        (Some("clawhub".to_string()), "pdf".to_string(), Some("1.2".to_string()))
    );
    assert_eq!(parse_skill_identifier("pdf"), (None, "pdf".to_string(), None));
    assert_eq!(
        parse_skill_identifier("a@b:c"),
        (None, "a".to_string(), Some("b:c".to_string()))
    );
}

#[test]
fn requests_prefer_explicit_values() {
    let r = registry_request("clawhub:pdf@1", "kingdee", None);
    assert_eq!((r.source.as_str(), r.slug.as_str(), r.version.as_deref()), ("clawhub", "pdf", Some("1")));
    let r = registry_request("pdf@1", "kingdee", Some("2".into()));
    assert_eq!((r.source.as_str(), r.version.as_deref()), ("kingdee", Some("2")));
    assert!(uses_clawhub("clawhub"));
    assert!(!uses_clawhub("kingdee"));
    assert_eq!(install_version(None, None), "latest");
    assert_eq!(install_version(None, Some("3".into())), "3");
    assert_eq!(install_version(Some("1".into()), Some("3".into())), "1");
    assert!(should_install(false, false));
    assert!(!should_install(true, false));
    assert!(should_install(true, true));
    assert!(confirmed(" Y\n"));
    assert!(!confirmed("yes"));
}

#[test]
fn github_ref_comes_from_option() {
    let g = parse("gh:o/r@dev").unwrap();
    let g = prepare_github(g, None, Some("sub".into()));
    assert_eq!(g.git_ref, "HEAD");
    assert_eq!(g.subdir.as_deref(), Some("sub"));
}

#[test]
fn skill_root_in_archive() {
    // The layout of a GitHub archive: one top-level directory holding SKILL.md.
    let r = choose_skill_root("/x".into(), false, vec![("/x/demo-main".into(), true)], vec!["/x/demo-main".into()]);
    assert_eq!(r.unwrap(), "/x/demo-main");
    assert_eq!(choose_skill_root("/x".into(), true, vec![], vec![]).unwrap(), "/x");
    let r = choose_skill_root("/x".into(), false, vec![], vec!["/x/a/b".into(), "/x/a/b".into()]);
    assert_eq!(r.unwrap(), "/x/a/b");
    let e = choose_skill_root("/x".into(), false, vec![("/x/a".into(), false)], vec![]).unwrap_err();
    assert!(matches!(e, SkillError::SkillMdNotInArchive));
    let e = choose_skill_root("/x".into(), false, vec![], vec!["/x/a".into(), "/x/b".into()]).unwrap_err();
    assert!(matches!(e, SkillError::MultipleSkillMd));
}

#[test]
fn records_of_installs() {
    let gh = prepare_github(parse("gh:o/r").unwrap(), Some("v1".into()), Some("skills/demo".into()));
    let rec = github_install_record("demo", "abc123", Some("d".into()), &gh);
    assert_eq!(get_str_exec(&rec, "name"), Some("demo"));
    assert_eq!(get_str_exec(&rec, "version"), Some("abc123"));
    match &rec {
        JsonValue::Object(f) => {
            let keys: Vec<&str> = f.iter().map(|(k, _)| k.as_str()).collect();
            assert_eq!(keys, vec!["name", "version", "slug", "source"]);
            let src = &f[3].1;
            assert_eq!(get_str_exec(src, "type"), Some("github"));
            assert_eq!(get_str_exec(src, "commit"), Some("abc123"));
            assert_eq!(get_str_exec(src, "owner"), Some("o"));
            assert_eq!(get_str_exec(src, "repo"), Some("r"));
            assert_eq!(get_str_exec(src, "url"), Some("https://github.com/o/r"));
            assert_eq!(get_str_exec(src, "ref"), Some("v1"));
            assert_eq!(get_str_exec(src, "subdir"), Some("skills/demo"));
            assert_eq!(get_str_exec(src, "backend"), Some("gix"));
            assert_eq!(get_str_exec(src, "description"), Some("d"));
        }
        _ => panic!("object expected"),
    }
    let resolved = RemoteSkill {
        name: "PDF".into(),
        slug: "pdf".into(),
        version: None,
        canonical_url: None,
        source: "clawhub".into(),
        description: None,
        meta: JsonValue::Null,
    };
    let rec = registry_install_record("clawhub", &resolved, "latest", "pdf");
    assert_eq!(get_str_exec(&rec, "slug"), Some("pdf"));
    assert_eq!(get_str_exec(&rec, "version"), Some("latest"));
    match &rec {
        JsonValue::Object(f) => assert!(matches!(f[4].1, JsonValue::Null)),
        _ => panic!("object expected"),
    }
}
