use mdlint::config::{Config, ConfigValue};
use mdlint::rules::md044::MD044;
use mdlint::types::{LintError, RuleParams, Token};

fn make_params<'a>(
    lines: &'a [&'a str],
    config: &'a Config,
) -> RuleParams<'a> {
    RuleParams {
        name: "test.md",
        version: "0.1.0",
        lines,
        front_matter_lines: &[],
        tokens: &[],
        config,
        workspace_headings: None,
    }
}

#[test]
fn test_md044_default_names() {
    let rule = MD044;
    let lines = vec!["I love javascript and github.\n"];
    let config = Config::new();
    let params = make_params(&lines, &config);
    let errors = rule.lint(&params);
    assert_eq!(errors.len(), 2);
}

#[test]
fn test_md044_correct_names() {
    let rule = MD044;
    let lines = vec!["I love JavaScript and GitHub.\n"];
    let config = Config::new();
    let params = make_params(&lines, &config);
    let errors = rule.lint(&params);
    assert_eq!(errors.len(), 0);
}

#[test]
fn test_md044_config_names() {
    let rule = MD044;
    let lines = vec!["Use rust for everything.\n"];
    let mut config = Config::new();
    config.insert("names".to_string(), ConfigValue::Array(vec![Some("Rust".to_string())]));
    let params = make_params(&lines, &config);
    let errors = rule.lint(&params);
    assert_eq!(errors.len(), 1);
}

#[test]
fn test_md044_code_block_excluded() {
    let rule = MD044;
    let lines = vec![
        "```\n",
        "javascript code\n",
        "```\n",
    ];
    let config = Config::new();
    let params = make_params(&lines, &config);
    let errors = rule.lint(&params);
    assert_eq!(errors.len(), 0); // code blocks excluded by default
}

#[test]
fn test_md044_code_block_included() {
    let rule = MD044;
    let lines = vec![
        "```\n",
        "javascript code\n",
        "```\n",
    ];
    let mut config = Config::new();
    config.insert("code_blocks".to_string(), ConfigValue::Bool(true));
    let params = make_params(&lines, &config);
    let errors = rule.lint(&params);
    assert_eq!(errors.len(), 1); // code blocks checked when configured
}

#[test]
fn test_md044_fix_info_single_occurrence() {
    let rule = MD044;
    let lines = vec!["I love javascript.\n"];
    let config = Config::new();
    let params = make_params(&lines, &config);
    let errors = rule.lint(&params);
    assert_eq!(errors.len(), 1);

    let fix = errors[0].fix_info.as_ref().expect("should have fix_info");
    assert_eq!(fix.line_number, None);
    // "I love javascript" -> "javascript" starts at index 7, 1-based = 8
    assert_eq!(fix.edit_column, Some(8));
    assert_eq!(fix.delete_count, Some(10)); // "JavaScript".len() == 10
    assert_eq!(fix.insert_text, Some("JavaScript".to_string()));
}

#[test]
fn test_md044_fix_info_multiple_occurrences() {
    let rule = MD044;
    let lines = vec!["javascript and javascript are great.\n"];
    let config = Config::new();
    let params = make_params(&lines, &config);
    let errors = rule.lint(&params);
    assert_eq!(errors.len(), 2);

    let fix0 = errors[0].fix_info.as_ref().expect("first fix_info");
    assert_eq!(fix0.edit_column, Some(1)); // starts at position 0, 1-based = 1
    assert_eq!(fix0.delete_count, Some(10));
    assert_eq!(fix0.insert_text, Some("JavaScript".to_string()));

    let fix1 = errors[1].fix_info.as_ref().expect("second fix_info");
    assert_eq!(fix1.edit_column, Some(16)); // "javascript and " = 15 chars, 1-based = 16
    assert_eq!(fix1.delete_count, Some(10));
    assert_eq!(fix1.insert_text, Some("JavaScript".to_string()));
}

#[test]
fn test_md044_fix_info_mixed_correct_and_incorrect() {
    let rule = MD044;
    let lines = vec!["JavaScript and javascript here.\n"];
    let config = Config::new();
    let params = make_params(&lines, &config);
    let errors = rule.lint(&params);
    // Only the second occurrence is wrong
    assert_eq!(errors.len(), 1);

    let fix = errors[0].fix_info.as_ref().expect("should have fix_info");
    // "JavaScript and javascript" -> second "javascript" starts at index 15, 1-based = 16
    assert_eq!(fix.edit_column, Some(16));
    assert_eq!(fix.delete_count, Some(10));
    assert_eq!(fix.insert_text, Some("JavaScript".to_string()));
}

#[test]
fn test_md044_fix_info_custom_name() {
    let rule = MD044;
    let lines = vec!["Use rust for everything.\n"];
    let mut config = Config::new();
    config.insert("names".to_string(), ConfigValue::Array(vec![Some("Rust".to_string())]));
    let params = make_params(&lines, &config);
    let errors = rule.lint(&params);
    assert_eq!(errors.len(), 1);

    let fix = errors[0].fix_info.as_ref().expect("should have fix_info");
    // "Use rust" -> "rust" at index 4, 1-based = 5
    assert_eq!(fix.edit_column, Some(5));
    assert_eq!(fix.delete_count, Some(4)); // "Rust".len() == 4
    assert_eq!(fix.insert_text, Some("Rust".to_string()));
}

#[test]
fn test_md044_fix_info_error_detail_shows_actual() {
    let rule = MD044;
    let lines = vec!["I use Github daily.\n"];
    let config = Config::new();
    let params = make_params(&lines, &config);
    let errors = rule.lint(&params);
    assert_eq!(errors.len(), 1);
    assert_eq!(
        errors[0].error_detail.as_deref(),
        Some("Expected: GitHub; Actual: Github")
    );
}


#[test]
fn md044_checked_entry_refuses_empty_name() {
    let lines = vec!["Use rust.\n"];
    let mut config = Config::new();
    config.insert("names".to_string(), ConfigValue::Array(vec![Some(String::new())]));
    let params = make_params(&lines, &config);
    assert!(MD044.lint_checked(&params).is_none());
    let mut config = Config::new();
    config.insert("names".to_string(), ConfigValue::Array(vec![Some("Rust".to_string())]));
    let params = make_params(&lines, &config);
    assert_eq!(MD044.lint_checked(&params).map(|e| e.len()), Some(1));
}
