use mdlint::config::{Config, ConfigValue};
use mdlint::rules::md055::MD055;
use mdlint::types::{LintError, RuleParams, Token};

fn make_params<'a>(
    lines: &'a [&'a str],
    tokens: &'a [Token],
    config: &'a Config,
) -> RuleParams<'a> {
    RuleParams {
        name: "test.md",
        version: "0.1.0",
        lines,
        front_matter_lines: &[],
        tokens,
        config,
        workspace_headings: None,
    }
}

#[test]
fn test_md055_consistent_leading_and_trailing_pipes() {
    let rule = MD055;
    let lines: Vec<&str> = vec![
        "| Header 1 | Header 2 |\n",
        "| -------- | -------- |\n",
        "| Cell 1   | Cell 2   |\n",
    ];
    let tokens = vec![];
    let config = Config::new();
    let params = make_params(&lines, &tokens, &config);
    let errors = rule.lint(&params);
    assert_eq!(errors.len(), 0);
}

#[test]
fn test_md055_no_leading_or_trailing_pipes() {
    let rule = MD055;
    let lines: Vec<&str> = vec![
        "Header 1 | Header 2\n",
        "-------- | --------\n",
        "Cell 1   | Cell 2\n",
    ];
    let tokens = vec![];
    let config = Config::new();
    let params = make_params(&lines, &tokens, &config);
    let errors = rule.lint(&params);
    assert_eq!(errors.len(), 0);
}

#[test]
fn test_md055_inconsistent_pipe_style() {
    let rule = MD055;
    let lines: Vec<&str> = vec!["| Header 1 | Header 2\n"];
    let tokens = vec![];
    let config = Config::new();
    let params = make_params(&lines, &tokens, &config);
    let errors = rule.lint(&params);
    assert_eq!(errors.len(), 1);
}

#[test]
fn test_md055_trailing_only_pipe() {
    let rule = MD055;
    let lines: Vec<&str> = vec!["Header 1 | Header 2 |\n"];
    let tokens = vec![];
    let config = Config::new();
    let params = make_params(&lines, &tokens, &config);
    let errors = rule.lint(&params);
    assert_eq!(errors.len(), 1);
}

#[test]
fn test_md055_fix_missing_trailing_pipe() {
    let rule = MD055;
    let lines: Vec<&str> = vec!["| Header 1 | Header 2\n"];
    let tokens = vec![];
    let config = Config::new();
    let params = make_params(&lines, &tokens, &config);
    let errors = rule.lint(&params);

    assert_eq!(errors.len(), 1);
    assert!(errors[0].fix_info.is_some());

    let fix = errors[0].fix_info.as_ref().unwrap();
    assert_eq!(fix.line_number, None);
    assert_eq!(fix.edit_column, Some(22)); // After "| Header 1 | Header 2" (21 chars + 1)
    assert_eq!(fix.delete_count, None);
    assert_eq!(fix.insert_text, Some(" |".to_string()));
}

#[test]
fn test_md055_fix_missing_leading_pipe() {
    let rule = MD055;
    let lines: Vec<&str> = vec!["Header 1 | Header 2 |\n"];
    let tokens = vec![];
    let config = Config::new();
    let params = make_params(&lines, &tokens, &config);
    let errors = rule.lint(&params);

    assert_eq!(errors.len(), 1);
    assert!(errors[0].fix_info.is_some());

    let fix = errors[0].fix_info.as_ref().unwrap();
    assert_eq!(fix.line_number, None);
    assert_eq!(fix.edit_column, Some(1)); // At start
    assert_eq!(fix.delete_count, None);
    assert_eq!(fix.insert_text, Some("| ".to_string()));
}

#[test]
fn test_md055_fix_indented_table() {
    let rule = MD055;
    let lines: Vec<&str> = vec!["  | Header 1 | Header 2\n"];
    let tokens = vec![];
    let config = Config::new();
    let params = make_params(&lines, &tokens, &config);
    let errors = rule.lint(&params);

    assert_eq!(errors.len(), 1);
    assert!(errors[0].fix_info.is_some());

    let fix = errors[0].fix_info.as_ref().unwrap();
    assert_eq!(fix.edit_column, Some(24)); // After "  | Header 1 | Header 2" (23 chars + 1)
    assert_eq!(fix.insert_text, Some(" |".to_string()));
}

