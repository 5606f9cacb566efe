use ckbackup::config::{format_diagnostic, parse_config_toml, Check, Config, Create, General, Post, TomlError};
use ckbackup::config::toml_diagnostics;

fn sample_config(post: Option<Post>) -> Config {
    Config {
        general: General { repo: "ssh://host/repo".to_string(), env: None },
        init: None,
        create: Create { sources: vec!["C:\\data".to_string()], volume_shadow_copy: None, args: None },
        purge: None,
        check: Some(Check { args: None }),
        post,
    }
}

#[test]
fn diagnostic_line_format() {
    assert_eq!(
        format_diagnostic("config.toml", (3, 7), (3, 12), "expected `=`"),
        "config.toml:3:7-3:12 error: expected `=`"
    );
    assert_eq!(format_diagnostic("c", (0, 0), (10, 105), "x"), "c:0:0-10:105 error: x");
}

#[test]
fn valid_config_text_parses() {
    let text = "[general]\nrepo = \"r\"\n\n[create]\nsources = [\"C:\\\\data\"]\n";
    let table = parse_config_toml("config.toml", text).unwrap();
    assert!(table.contains_key("general"));
    assert!(table.contains_key("create"));
}

#[test]
fn rejected_config_text_gives_diagnostics() {
    let text = "[general]\nrepo = \n";
    let lines = parse_config_toml("config.toml", text).unwrap_err();
    assert!(!lines.is_empty());
    for l in &lines {
        assert!(l.starts_with("config.toml:1:"));
        assert!(l.contains(" error: "));
    }
}

#[test]
fn diagnostics_use_line_and_column_of_the_span() {
    let text = "a = 1\nb = \n";
    let errors = vec![TomlError { lo: 8, hi: 9, desc: "bad".to_string() }];
    assert_eq!(toml_diagnostics("f", text, &errors), vec!["f:1:2-1:3 error: bad".to_string()]);
}

#[test]
fn sleep_after_backup_only_when_asked() {
    assert!(!sample_config(None).sleep_after_backup());
    assert!(!sample_config(Some(Post { sleep: None })).sleep_after_backup());
    assert!(!sample_config(Some(Post { sleep: Some(false) })).sleep_after_backup());
    assert!(sample_config(Some(Post { sleep: Some(true) })).sleep_after_backup());
}

#[test]
fn default_config_is_empty() {
    let c = Config::default();
    assert_eq!(c.general.repo, "");
    assert!(c.general.env.is_none());
    assert!(c.init.is_none() && c.purge.is_none() && c.check.is_none() && c.post.is_none());
    assert!(c.create.sources.is_empty());
    assert!(c.create.volume_shadow_copy.is_none() && c.create.args.is_none());
    assert!(!c.sleep_after_backup());
}

#[test]
fn diagnostics_count_lines_as_str_lines_does() {
    let text = "a = 1\r\nb = \r\n";
    let errors = vec![
        TomlError { lo: 9, hi: 40, desc: "bad".to_string() },
        TomlError { lo: 0, hi: 5, desc: "x".to_string() },
    ];
    assert_eq!(
        toml_diagnostics("f", text, &errors),
        vec!["f:1:3-2:0 error: bad".to_string(), "f:0:0-0:5 error: x".to_string()]
    );
}
