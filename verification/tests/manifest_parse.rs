use skillmux::error::SkillError;
use skillmux::manifest::{normalize_markdown, parse_skill_md};

#[test]
fn parse_lf_frontmatter() {
    let content = "---\nname: demo\ndescription: test skill\n---\n# Demo\n";
    let manifest = parse_skill_md(content).expect("parse");

    assert_eq!(manifest.name, "demo");
    assert_eq!(manifest.description.as_deref(), Some("test skill"));
}

#[test]
fn parse_crlf_frontmatter() {
    let content = "---\r\nname: demo\r\ndescription: test skill\r\n---\r\n# Demo\r\n";
    let manifest = parse_skill_md(content).expect("parse");

    assert_eq!(manifest.name, "demo");
    assert_eq!(manifest.description.as_deref(), Some("test skill"));
}

#[test]
fn parse_bom_frontmatter() {
    let content = "\u{feff}---\nname: demo\n---\n# Demo\n";
    let manifest = parse_skill_md(content).expect("parse");

    assert_eq!(manifest.name, "demo");
    assert_eq!(manifest.description, None);
}

#[test]
fn parse_quoted_values() {
    let content = "---\nname: \"demo\"\ndescription: 'test skill'\n---\n";
    let manifest = parse_skill_md(content).expect("parse");

    assert_eq!(manifest.name, "demo");
    assert_eq!(manifest.description.as_deref(), Some("test skill"));
}

#[test]
fn reject_missing_frontmatter() {
    let content = "# Demo\n";
    let err = parse_skill_md(content).expect_err("should fail");

    assert!(err.message().contains("frontmatter"));
}

#[test]
fn reject_missing_name() {
    let content = "---\ndescription: test skill\n---\n";
    let err = parse_skill_md(content).expect_err("should fail");

    assert!(err.message().contains("name"));
}

#[test]
fn last_nonempty_value_wins_and_comments_are_skipped() {
    let content = "---\n# name: hidden\nname: first\nname:\n  name :  second  \nother: x\n---\nname: body\n";
    let m = parse_skill_md(content).expect("parse");
    assert_eq!(m.name, "second");
    assert_eq!(m.description, None);
}

#[test]
fn unclosed_frontmatter_is_missing() {
    let err = parse_skill_md("---\nname: demo\n").expect_err("unclosed");
    assert!(matches!(err, SkillError::MissingFrontmatter));
    let err = parse_skill_md("---").expect_err("no newline");
    assert!(matches!(err, SkillError::MissingFrontmatter));
    let err = parse_skill_md("").expect_err("empty");
    assert!(matches!(err, SkillError::MissingFrontmatter));
}

#[test]
fn fence_lines_may_be_padded_and_cr_only_endings_work() {
    let m = parse_skill_md("  ---  \rname: a:b\r --- \r").expect("parse");
    assert_eq!(m.name, "a:b");
    let m = parse_skill_md("\u{feff}\u{feff}---\n---\n").expect_err("no name");
    assert!(matches!(m, SkillError::MissingName));
}

#[test]
fn mixed_quotes_are_stripped_in_order() {
    let m = parse_skill_md("---\nname: '\"x\"'\n---\n").expect("parse");
    assert_eq!(m.name, "\"x\"");
    let m = parse_skill_md("---\nname: \"'x'\"\n---\n").expect("parse");
    assert_eq!(m.name, "x");
}

#[test]
fn text_after_the_closing_fence_is_not_read() {
    let fm = "---\nname: a\ndescription: first\n---\n";
    let with_body = format!("{fm}name: b\ndescription: later\n---\nname: c\n");
    let m1 = parse_skill_md(fm).unwrap();
    let m2 = parse_skill_md(&with_body).unwrap();
    assert_eq!(m1.name, "a");
    assert_eq!(m2.name, "a");
    assert_eq!(m2.description.as_deref(), Some("first"));
}

#[test]
fn normalizing_twice_changes_nothing() {
    let chars: Vec<char> = "\u{feff}a\r\nb\rc".chars().collect();
    let once = normalize_markdown(&chars);
    assert_eq!(once.iter().collect::<String>(), "a\nb\nc");
    assert_eq!(normalize_markdown(&once), once);
}
