use mdlint::config::{Config, ConfigValue};
use mdlint::rules::md020::MD020;
use mdlint::types::{LintError, RuleParams, Token};

fn make_params<'a>(
    lines: &'a [&'a str],
    tokens: &'a [Token],
    config: &'a Config,
) -> RuleParams<'a> {
    RuleParams {
        name: "test.md",
        version: "0.1.0",
        lines,
        front_matter_lines: &[],
        tokens,
        config,
        workspace_headings: None,
    }
}

#[test]
fn test_md020_valid_closed_atx() {
    let lines: Vec<&str> = "# Heading #\n".lines().collect();
    let tokens = vec![];
    let config = Config::new();
    let params = make_params(&lines, &tokens, &config);
    let rule = MD020;
    let errors = rule.lint(&params);
    assert_eq!(errors.len(), 0);
}

#[test]
fn test_md020_missing_start_space() {
    let lines: Vec<&str> = "#Heading #\n".lines().collect();
    let tokens = vec![];
    let config = Config::new();
    let params = make_params(&lines, &tokens, &config);
    let rule = MD020;
    let errors = rule.lint(&params);
    assert_eq!(errors.len(), 1);
}

#[test]
fn test_md020_not_closed_atx() {
    let lines: Vec<&str> = "# Heading\n".lines().collect();
    let tokens = vec![];
    let config = Config::new();
    let params = make_params(&lines, &tokens, &config);
    let rule = MD020;
    let errors = rule.lint(&params);
    assert_eq!(errors.len(), 0);
}

#[test]
fn test_md020_fix_missing_start_space() {
    let lines: Vec<&str> = "#Heading #\n".lines().collect();
    let tokens = vec![];
    let config = Config::new();
    let params = make_params(&lines, &tokens, &config);
    let rule = MD020;
    let errors = rule.lint(&params);
    assert_eq!(errors.len(), 1);
    let fix = errors[0].fix_info.as_ref().unwrap();
    assert_eq!(fix.edit_column, Some(2)); // After first #
    assert_eq!(fix.delete_count, None);
    assert_eq!(fix.insert_text, Some(" ".to_string()));
}

#[test]
fn test_md020_fix_missing_end_space() {
    let lines: Vec<&str> = "# Heading#\n".lines().collect();
    let tokens = vec![];
    let config = Config::new();
    let params = make_params(&lines, &tokens, &config);
    let rule = MD020;
    let errors = rule.lint(&params);
    assert_eq!(errors.len(), 1);
    let fix = errors[0].fix_info.as_ref().unwrap();
    assert_eq!(fix.edit_column, Some(10)); // Before closing #
    assert_eq!(fix.delete_count, None);
    assert_eq!(fix.insert_text, Some(" ".to_string()));
}

#[test]
fn test_md020_fix_both_missing() {
    let lines: Vec<&str> = "#Heading#\n".lines().collect();
    let tokens = vec![];
    let config = Config::new();
    let params = make_params(&lines, &tokens, &config);
    let rule = MD020;
    let errors = rule.lint(&params);
    assert_eq!(errors.len(), 2); // Both start and end errors
    // First error: missing start space
    let fix1 = errors[0].fix_info.as_ref().unwrap();
    assert_eq!(fix1.edit_column, Some(2));
    assert_eq!(fix1.insert_text, Some(" ".to_string()));
    // Second error: missing end space
    let fix2 = errors[1].fix_info.as_ref().unwrap();
    assert_eq!(fix2.edit_column, Some(9));
    assert_eq!(fix2.insert_text, Some(" ".to_string()));
}

