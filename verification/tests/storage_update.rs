use skillmux::install::{github_install_record, prepare_github, registry_install_record};
use skillmux::sources::github::parse;
use skillmux::json::{get, JsonValue};
use skillmux::sources::RemoteSkill;
use skillmux::storage::{clip_description, source_description, source_label, SkillStorage};
use skillmux::update::{selected, sort_unique_by_name, update_step};

fn obj(fields: Vec<(&str, JsonValue)>) -> JsonValue {
    JsonValue::Object(fields.into_iter().map(|(k, v)| (k.to_string(), v)).collect())
}

#[test]
fn skill_paths() {
    let s = SkillStorage::new("/h/.codex/skills".into());
    assert_eq!(s.skill_path("pdf"), "/h/.codex/skills/pdf");
    assert_eq!(
        s.manifest_paths("pdf"),
        vec!["/h/.codex/skills/pdf/SKILL.md".to_string(), "/h/.codex/skills/pdf/skill.md".to_string()]
    );
    assert_eq!(s.info_path("pdf"), "/h/.codex/skills/pdf/.skillhub/info.json");
    assert_eq!(s.info_dir("pdf"), "/h/.codex/skills/pdf/.skillhub");
}

#[test]
fn list_labels() {
    assert_eq!(source_label(&obj(vec![("type", JsonValue::Str(" github ".into()))])), "github");
    assert_eq!(source_label(&JsonValue::Str("kingdee".into())), "kingdee");
    assert_eq!(source_label(&obj(vec![("type", JsonValue::Str("  ".into()))])), "legacy");
    assert_eq!(source_label(&JsonValue::Null), "legacy");
    assert_eq!(source_description(&obj(vec![("description", JsonValue::Str("d".into()))])), "d");
    assert_eq!(source_description(&JsonValue::Null), "");
    let long = "x".repeat(81);
    assert_eq!(clip_description(&long), format!("{}...", "x".repeat(77)));
    let exact = "y".repeat(80);
    assert_eq!(clip_description(&exact), exact);
}

#[test]
fn update_selection_and_order() {
    assert!(selected(true, &None, "a"));
    assert!(selected(false, &Some("a".into()), "a"));
    assert!(!selected(false, &Some("a".into()), "b"));
    let es = vec![
        ("b".to_string(), JsonValue::Str("first b".into())),
        ("a".to_string(), JsonValue::Null),
        ("b".to_string(), JsonValue::Str("second b".into())),
        ("ab".to_string(), JsonValue::Null),
    ];
    let out = sort_unique_by_name(es);
    let names: Vec<&str> = out.iter().map(|(n, _)| n.as_str()).collect();
    assert_eq!(names, vec!["a", "ab", "b"]);
    assert!(matches!(&out[2].1, JsonValue::Str(s) if s == "first b"));
}

#[test]
fn update_steps() {
    let gh = obj(vec![
        ("type", JsonValue::Str("github".into())),
        ("url", JsonValue::Str("https://github.com/o/r".into())),
        ("ref", JsonValue::Str("v1".into())),
    ]);
    let st = update_step("demo", &gh, None).unwrap();
    assert_eq!(st.skill, "https://github.com/o/r");
    assert_eq!(st.ref_name.as_deref(), Some("v1"));
    assert_eq!(st.as_name.as_deref(), Some("demo"));
    let st = update_step("demo", &gh, Some("main".into())).unwrap();
    assert_eq!(st.ref_name.as_deref(), Some("main"));
    let no_url = obj(vec![("type", JsonValue::Str("github".into()))]);
    let e = update_step("demo", &no_url, None).err().unwrap();
    assert_eq!(e.message(), "missing source.url for GitHub skill demo");
    let st = update_step("pdf", &JsonValue::Null, None).unwrap();
    assert_eq!(st.skill, "pdf");
    assert_eq!(st.as_name, None);
}

#[test]
fn update_reads_the_install_records() {
    let resolved = RemoteSkill {
        name: "PDF".into(),
        slug: "pdf".into(),
        version: Some("1.0.0".into()),
        canonical_url: None,
        source: "kingdee".into(),
        description: Some("pdf tools".into()),
        meta: JsonValue::Null,
    };
    let rec = registry_install_record("kingdee", &resolved, "1.0.0", "pdf");
    let src = get(&rec, "source").unwrap();
    let st = update_step("pdf", src, Some("v2".into())).unwrap();
    assert_eq!(st.skill, "pdf");
    assert_eq!(st.ref_name.as_deref(), Some("v2"));
    assert_eq!(st.subdir, None);
    assert_eq!(st.as_name, None);

    // A GitHub skill is updated from the address, ref and subdirectory
    // its record keeps, under its own name; a `--ref` given wins.
    let gh = prepare_github(parse("gh:o/r").unwrap(), Some("v1".into()), Some("sub".into()));
    let rec = github_install_record("demo", "abc123", None, &gh);
    let src = get(&rec, "source").unwrap();
    let st = update_step("demo", src, None).unwrap();
    assert_eq!(st.skill, "https://github.com/o/r");
    assert_eq!(st.ref_name.as_deref(), Some("v1"));
    assert_eq!(st.subdir.as_deref(), Some("sub"));
    assert_eq!(st.as_name.as_deref(), Some("demo"));
    let st = update_step("demo", src, Some("main".into())).unwrap();
    assert_eq!(st.ref_name.as_deref(), Some("main"));
    let gh = prepare_github(parse("gh:o/r").unwrap(), None, None);
    let rec = github_install_record("demo", "abc123", None, &gh);
    let st = update_step("demo", get(&rec, "source").unwrap(), None).unwrap();
    assert_eq!(st.ref_name.as_deref(), Some("HEAD"));
    assert_eq!(st.subdir, None);
}
