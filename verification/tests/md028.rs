use mdlint::config::{Config, ConfigValue};
use mdlint::rules::md028::MD028;
use mdlint::types::{LintError, RuleParams, Token};

#[test]
fn test_md028_no_blank_in_quote() {
    let lines: Vec<&str> = "> line 1\n> line 2\n".lines().collect();
    let tokens = vec![];
    let config = Config::new();
    let params = RuleParams::test_with_tokens(&lines, &tokens, &config);
    let rule = MD028;
    let errors = rule.lint(&params);
    assert_eq!(errors.len(), 0);
}

#[test]
fn test_md028_blank_in_quote() {
    let lines: Vec<&str> = "> line 1\n\n> line 2\n".lines().collect();
    let tokens = vec![];
    let config = Config::new();
    let params = RuleParams::test_with_tokens(&lines, &tokens, &config);
    let rule = MD028;
    let errors = rule.lint(&params);
    assert_eq!(errors.len(), 1);
    assert_eq!(errors[0].line_number, 2);
}

#[test]
fn test_md028_not_blockquote() {
    let lines: Vec<&str> = "normal text\n\nmore text\n".lines().collect();
    let tokens = vec![];
    let config = Config::new();
    let params = RuleParams::test_with_tokens(&lines, &tokens, &config);
    let rule = MD028;
    let errors = rule.lint(&params);
    assert_eq!(errors.len(), 0);
}

#[test]
fn test_md028_fix_blank_line() {
    let lines: Vec<&str> = "> line 1\n\n> line 2\n".lines().collect();
    let tokens = vec![];
    let config = Config::new();
    let params = RuleParams::test_with_tokens(&lines, &tokens, &config);
    let rule = MD028;
    let errors = rule.lint(&params);
    assert_eq!(errors.len(), 1);
    let fix = errors[0].fix_info.as_ref().unwrap();
    assert_eq!(fix.line_number, Some(2));
    assert_eq!(fix.edit_column, Some(1));
    assert_eq!(fix.delete_count, Some(-1)); // Delete entire line
    assert_eq!(fix.insert_text, None);
}

#[test]
fn test_md028_fix_multiple_blank_lines() {
    let lines: Vec<&str> = vec!["> line 1\n", "\n", "\n", "> line 2\n"];
    let tokens = vec![];
    let config = Config::new();
    let params = RuleParams::test_with_tokens(&lines, &tokens, &config);
    let rule = MD028;
    let errors = rule.lint(&params);
    // Only the last blank line before the next blockquote is reported
    assert_eq!(errors.len(), 1);
    assert_eq!(errors[0].line_number, 3);
}

#[test]
fn test_md028_fix_whitespace_line() {
    let lines: Vec<&str> = vec!["> line 1\n", "   \n", "> line 2\n"];
    let tokens = vec![];
    let config = Config::new();
    let params = RuleParams::test_with_tokens(&lines, &tokens, &config);
    let rule = MD028;
    let errors = rule.lint(&params);
    assert_eq!(errors.len(), 1);
    let fix = errors[0].fix_info.as_ref().unwrap();
    assert_eq!(fix.delete_count, Some(-1));
}

