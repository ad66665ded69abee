use mdlint::config::{Config, ConfigValue};
use mdlint::rules::md007::MD007;
use mdlint::types::{LintError, RuleParams, Token};

fn make_params<'a>(
    lines: &'a [&'a str],
    config: &'a Config,
) -> RuleParams<'a> {
    RuleParams {
        name: "test.md",
        version: "0.1.0",
        lines,
        front_matter_lines: &[],
        tokens: &[],
        config,
        workspace_headings: None,
    }
}

#[test]
fn test_md007_correct_indentation() {
    let lines: Vec<&str> = vec![
        "* Item 1\n",
        "  * Nested item\n",
        "    * Deep nested\n",
    ];
    let config = Config::new();
    let params = make_params(&lines, &config);

    let rule = MD007;
    let errors = rule.lint(&params);
    assert_eq!(errors.len(), 0);
}

#[test]
fn test_md007_wrong_indentation() {
    let lines: Vec<&str> = vec![
        "* Item 1\n",
        "   * Nested item\n", // 3 spaces, should be 2 or 4
    ];
    let config = Config::new();
    let params = make_params(&lines, &config);

    let rule = MD007;
    let errors = rule.lint(&params);
    assert_eq!(errors.len(), 1);
    assert_eq!(errors[0].line_number, 2);
    assert_eq!(
        errors[0].error_detail,
        Some("Expected: 2; Actual: 3".to_string())
    );
}

#[test]
fn test_md007_custom_indent() {
    let lines: Vec<&str> = vec![
        "* Item 1\n",
        "    * Nested item\n", // 4 spaces, correct for indent=4
    ];
    let mut config = Config::new();
    config.insert("indent".to_string(), ConfigValue::UInt(4));
    let params = make_params(&lines, &config);

    let rule = MD007;
    let errors = rule.lint(&params);
    assert_eq!(errors.len(), 0);
}

#[test]
fn test_md007_top_level_no_error() {
    let lines: Vec<&str> = vec![
        "* Item 1\n",
        "* Item 2\n",
        "- Item 3\n",
    ];
    let config = Config::new();
    let params = make_params(&lines, &config);

    let rule = MD007;
    let errors = rule.lint(&params);
    assert_eq!(errors.len(), 0);
}

#[test]
fn test_md007_in_code_block_ignored() {
    let lines: Vec<&str> = vec![
        "```\n",
        "   * not a list\n",
        "```\n",
    ];
    let config = Config::new();
    let params = make_params(&lines, &config);

    let rule = MD007;
    let errors = rule.lint(&params);
    assert_eq!(errors.len(), 0);
}


#[test]
fn md007_checked_entry_refuses_zero_step_with_indented_item() {
    let lines: Vec<&str> = vec!["* Item 1\n", "  * Nested\n"];
    let mut config = Config::new();
    config.insert("indent".to_string(), ConfigValue::UInt(0));
    let params = make_params(&lines, &config);
    assert!(MD007.lint_checked(&params).is_none());

    let flat: Vec<&str> = vec!["* Item 1\n", "* Item 2\n"];
    let params = make_params(&flat, &config);
    assert_eq!(MD007.lint_checked(&params).map(|e| e.len()), Some(0));

    let lines: Vec<&str> = vec!["* Item 1\n", "   * Nested\n"];
    let config = Config::new();
    let params = make_params(&lines, &config);
    let errors = MD007.lint_checked(&params).unwrap();
    assert_eq!(errors.len(), 1);
    assert_eq!(errors[0].line_number, 2);
}
