use mdlint::config::{Config, ConfigValue};
use mdlint::rules::md040::MD040;
use mdlint::types::{LintError, RuleParams, Token};

#[test]
fn test_md040_with_language() {
    let lines = vec!["```rust\n", "let x = 5;\n", "```\n"];

    let params = RuleParams {
        name: "test.md",
        version: "0.1.0",
        lines: &lines,
        front_matter_lines: &[],
        tokens: &[],
        config: &Config::new(),
        workspace_headings: None,
    };

    let rule = MD040;
    let errors = rule.lint(&params);
    assert_eq!(errors.len(), 0);
}

#[test]
fn test_md040_no_language() {
    let lines = vec!["```\n", "code\n", "```\n"];

    let params = RuleParams {
        name: "test.md",
        version: "0.1.0",
        lines: &lines,
        front_matter_lines: &[],
        tokens: &[],
        config: &Config::new(),
        workspace_headings: None,
    };

    let rule = MD040;
    let errors = rule.lint(&params);
    assert_eq!(errors.len(), 1); // Only the opening fence without language
    assert_eq!(errors[0].line_number, 1);
}

#[test]
fn test_md040_fix_info() {
    let lines = vec!["```\n", "code here\n", "```\n"];

    let params = RuleParams {
        name: "test.md",
        version: "0.1.0",
        lines: &lines,
        front_matter_lines: &[],
        tokens: &[],
        config: &Config::new(),
        workspace_headings: None,
    };

    let rule = MD040;
    let errors = rule.lint(&params);
    assert_eq!(errors.len(), 1);

    let fix = errors[0].fix_info.as_ref().expect("Should have fix_info");
    assert_eq!(fix.line_number, Some(1));
    assert_eq!(fix.edit_column, Some(4)); // After ```
    assert_eq!(fix.delete_count, None);
    assert_eq!(fix.insert_text, Some("text".to_string()));
}

#[test]
fn test_md040_custom_default_language() {
    let lines = vec!["~~~\n", "code here\n", "~~~\n"];

    let mut config = Config::new();
    config.insert(
        "default_language".to_string(),
        ConfigValue::Str("plaintext".to_string()),
    );

    let params = RuleParams {
        name: "test.md",
        version: "0.1.0",
        lines: &lines,
        front_matter_lines: &[],
        tokens: &[],
        config: &config,
        workspace_headings: None,
    };

    let rule = MD040;
    let errors = rule.lint(&params);
    assert_eq!(errors.len(), 1);

    let fix = errors[0].fix_info.as_ref().expect("Should have fix_info");
    assert_eq!(fix.insert_text, Some("plaintext".to_string()));
}

