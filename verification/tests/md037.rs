use mdlint::config::{Config, ConfigValue};
use mdlint::rules::md037::MD037;
use mdlint::types::{LintError, RuleParams, Token};

fn make_params<'a>(
    lines: &'a [&'a str],
    tokens: &'a [Token],
    config: &'a Config,
) -> RuleParams<'a> {
    RuleParams {
        name: "test.md",
        version: "0.1.0",
        lines,
        front_matter_lines: &[],
        tokens,
        config,
        workspace_headings: None,
    }
}

#[test]
fn test_md037_no_spaces() {
    let lines: Vec<String> = "This is *emphasis* text\n"
        .lines()
        .map(|l| l.to_string())
        .collect();
    let lines: Vec<&str> = lines.iter().map(|l| l.as_str()).collect();
    let tokens = vec![];
    let config = Config::new();
    let params = make_params(&lines, &tokens, &config);
    let rule = MD037;
    let errors = rule.lint(&params);
    assert_eq!(errors.len(), 0);
}

#[test]
fn test_md037_with_spaces() {
    let lines: Vec<String> = "This is * emphasis * text\n"
        .lines()
        .map(|l| l.to_string())
        .collect();
    let lines: Vec<&str> = lines.iter().map(|l| l.as_str()).collect();
    let tokens = vec![];
    let config = Config::new();
    let params = make_params(&lines, &tokens, &config);
    let rule = MD037;
    let errors = rule.lint(&params);
    assert_eq!(errors.len(), 1);
}

#[test]
fn test_md037_fix_info_asterisk() {
    // "This is * emphasis * text"
    //          ^-----------^ match at byte offset 8, length 12
    let lines: Vec<&str> = vec!["This is * emphasis * text"];
    let tokens = vec![];
    let config = Config::new();
    let params = make_params(&lines, &tokens, &config);
    let rule = MD037;
    let errors = rule.lint(&params);
    assert_eq!(errors.len(), 1);
    let fix = errors[0]
        .fix_info
        .as_ref()
        .expect("fix_info should be present");
    assert_eq!(fix.line_number, None);
    // match starts at byte offset 8 => 1-based column 9
    assert_eq!(fix.edit_column, Some(9));
    // "* emphasis *" is 12 chars
    assert_eq!(fix.delete_count, Some(12));
    assert_eq!(fix.insert_text, Some("*emphasis*".to_string()));
}

#[test]
fn test_md037_fix_info_underscore() {
    // "Some _ text _ here"
    //       ^-------^ match at byte offset 5, length 8
    let lines: Vec<&str> = vec!["Some _ text _ here"];
    let tokens = vec![];
    let config = Config::new();
    let params = make_params(&lines, &tokens, &config);
    let rule = MD037;
    let errors = rule.lint(&params);
    assert_eq!(errors.len(), 1);
    let fix = errors[0]
        .fix_info
        .as_ref()
        .expect("fix_info should be present");
    assert_eq!(fix.line_number, None);
    assert_eq!(fix.edit_column, Some(6));
    assert_eq!(fix.delete_count, Some(8));
    assert_eq!(fix.insert_text, Some("_text_".to_string()));
}

#[test]
fn test_md037_fix_info_no_error_no_fix() {
    let lines: Vec<&str> = vec!["This is *emphasis* text"];
    let tokens = vec![];
    let config = Config::new();
    let params = make_params(&lines, &tokens, &config);
    let rule = MD037;
    let errors = rule.lint(&params);
    assert_eq!(errors.len(), 0);
}

