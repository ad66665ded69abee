use mdlint::config::{Config, ConfigValue};
use mdlint::rules::md047::MD047;
use mdlint::types::{LintError, RuleParams, Token};

#[test]
fn test_md047_valid_with_newline() {
    let lines = vec!["# Heading\n", "Content\n"];
    let config = Config::new();
    let params = RuleParams::test(&lines, &config);
    assert_eq!(MD047.lint(&params).len(), 0);
}

#[test]
fn test_md047_missing_newline() {
    let lines = vec!["# Heading\n", "Content"];
    let config = Config::new();
    let params = RuleParams::test(&lines, &config);
    let errors = MD047.lint(&params);
    assert_eq!(errors.len(), 1);
    assert_eq!(errors[0].line_number, 2);
    assert!(errors[0].fix_info.is_some());
}

#[test]
fn test_md047_empty_file() {
    let lines: Vec<&str> = vec![];
    let config = Config::new();
    let params = RuleParams::test(&lines, &config);
    assert_eq!(MD047.lint(&params).len(), 0);
}

#[test]
fn test_md047_fix_info_appends_newline() {
    let lines = vec!["Content"];
    let config = Config::new();
    let params = RuleParams::test(&lines, &config);
    let errors = MD047.lint(&params);
    assert_eq!(errors.len(), 1);
    let fix = errors[0].fix_info.as_ref().expect("fix_info");
    assert_eq!(fix.line_number, Some(1));
    assert_eq!(fix.edit_column, Some(8)); // after "Content" (len 7), 1-based
    assert_eq!(fix.insert_text, Some("\n".to_string()));
    assert_eq!(fix.delete_count, None);
}

#[test]
fn test_md047_single_line_with_newline() {
    let lines = vec!["Only line\n"];
    let config = Config::new();
    let params = RuleParams::test(&lines, &config);
    assert_eq!(MD047.lint(&params).len(), 0);
}

#[test]
fn test_md047_single_line_without_newline() {
    let lines = vec!["Only line"];
    let config = Config::new();
    let params = RuleParams::test(&lines, &config);
    assert_eq!(MD047.lint(&params).len(), 1);
}

#[test]
fn test_md047_crlf_ending_valid() {
    let lines = vec!["Content\r\n"];
    let config = Config::new();
    let params = RuleParams::test(&lines, &config);
    assert_eq!(MD047.lint(&params).len(), 0);
}

