use mdlint::config::{Config, ConfigValue};
use mdlint::rules::md023::MD023;
use mdlint::types::{LintError, RuleParams, Token};

fn make_params<'a>(
    lines: &'a [&'a str],
    tokens: &'a [Token],
    config: &'a Config,
) -> RuleParams<'a> {
    RuleParams {
        name: "test.md",
        version: "0.1.0",
        lines,
        front_matter_lines: &[],
        tokens,
        config,
        workspace_headings: None,
    }
}

#[test]
fn test_md023_no_indent() {
    let lines: Vec<String> = "# Heading\n".lines().map(|l| l.to_string()).collect();
    let lines: Vec<&str> = lines.iter().map(|l| l.as_str()).collect();
    let tokens = vec![];
    let config = Config::new();
    let params = make_params(&lines, &tokens, &config);
    let rule = MD023;
    let errors = rule.lint(&params);
    assert_eq!(errors.len(), 0);
}

#[test]
fn test_md023_space_indent() {
    let lines: Vec<String> = "  # Heading\n".lines().map(|l| l.to_string()).collect();
    let lines: Vec<&str> = lines.iter().map(|l| l.as_str()).collect();
    let tokens = vec![];
    let config = Config::new();
    let params = make_params(&lines, &tokens, &config);
    let rule = MD023;
    let errors = rule.lint(&params);
    assert_eq!(errors.len(), 1);
}

#[test]
fn test_md023_tab_indent() {
    let lines: Vec<String> = "\t# Heading\n".lines().map(|l| l.to_string()).collect();
    let lines: Vec<&str> = lines.iter().map(|l| l.as_str()).collect();
    let tokens = vec![];
    let config = Config::new();
    let params = make_params(&lines, &tokens, &config);
    let rule = MD023;
    let errors = rule.lint(&params);
    assert_eq!(errors.len(), 1);
}

#[test]
fn test_md023_fix_info_spaces() {
    let lines: Vec<String> = "  # Heading\n".lines().map(|l| l.to_string()).collect();
    let lines: Vec<&str> = lines.iter().map(|l| l.as_str()).collect();
    let tokens = vec![];
    let config = Config::new();
    let params = make_params(&lines, &tokens, &config);
    let rule = MD023;
    let errors = rule.lint(&params);
    assert_eq!(errors.len(), 1);

    let fix = errors[0]
        .fix_info
        .as_ref()
        .expect("fix_info should be present");
    assert_eq!(fix.line_number, None);
    assert_eq!(fix.edit_column, Some(1));
    assert_eq!(fix.delete_count, Some(2)); // 2 leading spaces
    assert_eq!(fix.insert_text, None);
}

#[test]
fn test_md023_fix_info_tab() {
    let lines: Vec<String> = "\t# Heading\n".lines().map(|l| l.to_string()).collect();
    let lines: Vec<&str> = lines.iter().map(|l| l.as_str()).collect();
    let tokens = vec![];
    let config = Config::new();
    let params = make_params(&lines, &tokens, &config);
    let rule = MD023;
    let errors = rule.lint(&params);
    assert_eq!(errors.len(), 1);

    let fix = errors[0]
        .fix_info
        .as_ref()
        .expect("fix_info should be present");
    assert_eq!(fix.line_number, None);
    assert_eq!(fix.edit_column, Some(1));
    assert_eq!(fix.delete_count, Some(1)); // 1 leading tab
    assert_eq!(fix.insert_text, None);
}

#[test]
fn test_md023_fix_info_mixed_indent() {
    let lines: Vec<String> = " \t  # Heading\n".lines().map(|l| l.to_string()).collect();
    let lines: Vec<&str> = lines.iter().map(|l| l.as_str()).collect();
    let tokens = vec![];
    let config = Config::new();
    let params = make_params(&lines, &tokens, &config);
    let rule = MD023;
    let errors = rule.lint(&params);
    assert_eq!(errors.len(), 1);

    let fix = errors[0]
        .fix_info
        .as_ref()
        .expect("fix_info should be present");
    assert_eq!(fix.line_number, None);
    assert_eq!(fix.edit_column, Some(1));
    assert_eq!(fix.delete_count, Some(4)); // 4 leading whitespace chars
    assert_eq!(fix.insert_text, None);
}

