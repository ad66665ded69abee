use mdlint::config::{Config, ConfigValue};
use mdlint::rules::md014::MD014;
use mdlint::types::{LintError, RuleParams, Token};

#[test]
fn test_md014_no_dollar_signs() {
    let lines = vec![
        "```bash\n",
        "echo hello\n",
        "```\n",
    ];

    let params = RuleParams {
        name: "test.md",
        version: "0.1.0",
        lines: &lines,
        front_matter_lines: &[],
        tokens: &[],
        config: &Config::new(),
        workspace_headings: None,
    };

    let rule = MD014;
    let errors = rule.lint(&params);
    assert_eq!(errors.len(), 0);
}

#[test]
fn test_md014_with_dollar_signs() {
    let lines = vec![
        "```bash\n",
        "$ echo hello\n",
        "```\n",
    ];

    let params = RuleParams {
        name: "test.md",
        version: "0.1.0",
        lines: &lines,
        front_matter_lines: &[],
        tokens: &[],
        config: &Config::new(),
        workspace_headings: None,
    };

    let rule = MD014;
    let errors = rule.lint(&params);
    assert_eq!(errors.len(), 1);
}

#[test]
fn test_md014_fix_dollar_with_space() {
    let lines = vec![
        "```bash\n",
        "$ echo hello\n",
        "```\n",
    ];

    let params = RuleParams {
        name: "test.md",
        version: "0.1.0",
        lines: &lines,
        front_matter_lines: &[],
        tokens: &[],
        config: &Config::new(),
        workspace_headings: None,
    };

    let rule = MD014;
    let errors = rule.lint(&params);
    assert_eq!(errors.len(), 1);
    let fix = errors[0].fix_info.as_ref().unwrap();
    assert_eq!(fix.edit_column, Some(1));
    assert_eq!(fix.delete_count, Some(2)); // "$ "
    assert_eq!(fix.insert_text, None);
}

#[test]
fn test_md014_fix_dollar_without_space() {
    let lines = vec![
        "```bash\n",
        "$echo hello\n",
        "```\n",
    ];

    let params = RuleParams {
        name: "test.md",
        version: "0.1.0",
        lines: &lines,
        front_matter_lines: &[],
        tokens: &[],
        config: &Config::new(),
        workspace_headings: None,
    };

    let rule = MD014;
    let errors = rule.lint(&params);
    assert_eq!(errors.len(), 1);
    let fix = errors[0].fix_info.as_ref().unwrap();
    assert_eq!(fix.edit_column, Some(1));
    assert_eq!(fix.delete_count, Some(1)); // "$"
    assert_eq!(fix.insert_text, None);
}

#[test]
fn test_md014_fix_indented_dollar() {
    let lines = vec![
        "```bash\n",
        "  $ echo hello\n",
        "```\n",
    ];

    let params = RuleParams {
        name: "test.md",
        version: "0.1.0",
        lines: &lines,
        front_matter_lines: &[],
        tokens: &[],
        config: &Config::new(),
        workspace_headings: None,
    };

    let rule = MD014;
    let errors = rule.lint(&params);
    assert_eq!(errors.len(), 1);
    let fix = errors[0].fix_info.as_ref().unwrap();
    assert_eq!(fix.edit_column, Some(3)); // After "  "
    assert_eq!(fix.delete_count, Some(2)); // "$ "
    assert_eq!(fix.insert_text, None);
}

