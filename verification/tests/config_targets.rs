use skillmux::config::{
    config_path, install_check_path, join_path_exec, parse_targets, parse_targets_args,
    secret_status, target_skill_dir, Config,
};
use skillmux::error::SkillError;

#[test]
fn parse_targets_comma() {
    let v = parse_targets("qoderwork,codex").expect("parse ok");
    assert_eq!(v, vec!["qoderwork".to_string(), "codex".to_string()]);
}

#[test]
fn parse_targets_space_and_mixed_whitespace() {
    let v = parse_targets_args(&["qoderwork codex,\tkiro".to_string()]).expect("parse ok");
    assert_eq!(
        v,
        vec![
            "qoderwork".to_string(),
            "codex".to_string(),
            "kiro".to_string()
        ]
    );
}

#[test]
fn parse_targets_invalid() {
    let err = parse_targets("codex,badone").expect_err("must fail");
    assert!(err.message().contains("allowed targets"));
}

#[test]
fn parse_targets_dedups_lowercases_and_skips_empty() {
    let v = parse_targets(" CODEX,,codex\nKiro  qoder ").expect("parse ok");
    assert_eq!(
        v,
        vec!["codex".to_string(), "kiro".to_string(), "qoder".to_string()]
    );
    assert_eq!(parse_targets("").expect("empty ok"), Vec::<String>::new());
}

#[test]
fn parse_targets_error_names_first_bad_target() {
    match parse_targets("codex,Nope,other") {
        Err(SkillError::InvalidTarget(t)) => assert_eq!(t, "nope"),
        _ => panic!("expected an invalid target"),
    }
    let err = parse_targets("x").expect_err("must fail");
    assert_eq!(
        err.message(),
        "invalid target 'x', allowed targets: codex, qoder, qoderwork, kiro, workbuddy"
    );
}

#[test]
fn parse_targets_args_reads_all_values_in_order() {
    let v = parse_targets_args(&["kiro".to_string(), "codex,kiro".to_string()]).expect("ok");
    assert_eq!(v, vec!["kiro".to_string(), "codex".to_string()]);
}

fn sample() -> Config {
    Config::new_default("/tmp/cfg.yaml".to_string())
}

#[test]
fn default_config_values() {
    let c = sample();
    assert_eq!(c.get("api.endpoint").as_deref(), Some("https://skills.kingdee.com/api"));
    assert_eq!(c.get("api.timeout").as_deref(), Some("30"));
    assert_eq!(c.get("api.token"), None);
    assert_eq!(c.get("source.default").as_deref(), Some(""));
    assert_eq!(
        c.get("install.targets").as_deref(),
        Some("codex,qoder,qoderwork,kiro,workbuddy")
    );
    assert_eq!(c.get("nope"), None);
}

#[test]
fn set_then_get_round_trips() {
    let mut c = sample();
    c.set("api.endpoint", "http://x/api").unwrap();
    assert_eq!(c.get("api.endpoint").as_deref(), Some("http://x/api"));
    c.set("api.timeout", "45").unwrap();
    assert_eq!(c.get("api.timeout").as_deref(), Some("45"));
    c.set("api.timeout", "+7").unwrap();
    assert_eq!(c.get("api.timeout").as_deref(), Some("7"));
    c.set("api.timeout", "abc").unwrap();
    assert_eq!(c.get("api.timeout").as_deref(), Some("30"));
    c.set("api.timeout", "18446744073709551616").unwrap();
    assert_eq!(c.get("api.timeout").as_deref(), Some("30"));
    c.set("api.timeout", "18446744073709551615").unwrap();
    assert_eq!(c.get("api.timeout").as_deref(), Some("18446744073709551615"));
    c.set("api.token", "secret").unwrap();
    assert_eq!(c.get("api.token").as_deref(), Some("secret"));
    c.set("source.default", "clawhub").unwrap();
    assert_eq!(c.get("source.default").as_deref(), Some("clawhub"));
    c.set("install.targets", "kiro codex").unwrap();
    assert_eq!(c.get("install.targets").as_deref(), Some("kiro,codex"));
    c.set("unknown.key", "v").unwrap();
    assert_eq!(c.get("source.default").as_deref(), Some("clawhub"));
}

#[test]
fn set_invalid_targets_changes_nothing() {
    let mut c = sample();
    let err = c.set("install.targets", "codex,bad").expect_err("must fail");
    assert!(matches!(err, SkillError::InvalidTarget(ref t) if t == "bad"));
    assert_eq!(
        c.get("install.targets").as_deref(),
        Some("codex,qoder,qoderwork,kiro,workbuddy")
    );
}

#[test]
fn get_required_reports_unknown_key() {
    let c = sample();
    let err = c.get_required("api.nope").expect_err("unknown");
    assert_eq!(err.message(), "unknown config key: api.nope");
    assert_eq!(c.get_required("api.timeout").unwrap(), "30");
}

#[test]
fn resolve_token_precedence() {
    let mut c = sample();
    let b = || "builtin".to_string();
    assert_eq!(c.resolve_token(None, None, b()), "builtin");
    c.set("api.token", "cfg").unwrap();
    assert_eq!(c.resolve_token(None, None, b()), "cfg");
    assert_eq!(c.resolve_token(None, Some("env".into()), b()), "env");
    assert_eq!(c.resolve_token(Some("cli".into()), Some("env".into()), b()), "cli");
}

#[test]
fn add_and_remove_targets() {
    let mut c = sample();
    c.set("install.targets", "codex").unwrap();
    let added = c.add_targets(vec!["kiro".into(), "codex".into(), "kiro".into()]);
    assert_eq!(added, vec!["kiro".to_string()]);
    assert_eq!(c.install.targets, vec!["codex".to_string(), "kiro".to_string()]);
    let removed = c.remove_targets(&vec!["codex".to_string(), "qoder".to_string()]);
    assert_eq!(removed, vec!["codex".to_string()]);
    assert_eq!(c.install.targets, vec!["kiro".to_string()]);
    assert!(c.is_selected("kiro"));
    assert!(!c.is_selected("codex"));
}

#[test]
fn secret_status_shows_set_only_for_text() {
    assert_eq!(secret_status(Some(" t ")), "<set>");
    assert_eq!(secret_status(Some("  ")), "");
    assert_eq!(secret_status(None), "");
}

#[test]
fn paths_of_targets() {
    assert_eq!(config_path(None, "/home/u"), "/home/u/.config/skillhub/config.yaml");
    assert_eq!(config_path(Some("/etc/c.yaml"), "/home/u"), "/etc/c.yaml");
    assert_eq!(target_skill_dir("/home/u", "codex"), "/home/u/.codex/skills");
    assert_eq!(target_skill_dir("/home/u/", "kiro"), "/home/u/.kiro/skills");
    assert_eq!(install_check_path("/home/u", "qoder"), "/home/u/.qoder");
    assert_eq!(install_check_path("/home/u", "workbuddy"), "/home/u/.workbuddy/skills");
    assert_eq!(install_check_path("/home/u", "other"), "/home/u");
    assert_eq!(join_path_exec("/a", "/b"), "/b");
    assert_eq!(join_path_exec("", "b"), "b");
}

#[test]
fn parsing_values_is_parsing_them_joined() {
    let vals = vec!["codex qoder".to_string(), "KIRO,codex".to_string()];
    assert_eq!(parse_targets_args(&vals).unwrap(), parse_targets(&vals.join(",")).unwrap());
    assert_eq!(parse_targets_args(&vals).unwrap(), vec!["codex", "qoder", "kiro"]);
    let bad = vec!["codex".to_string(), "nope".to_string()];
    assert_eq!(
        parse_targets_args(&bad).unwrap_err().message(),
        parse_targets(&bad.join(",")).unwrap_err().message()
    );
    assert!(parse_targets_args(&[]).unwrap().is_empty());
    assert!(parse_targets("").unwrap().is_empty());
}
