use mdlint::config::{Config, ConfigValue};
use mdlint::rules::md034::MD034;
use mdlint::types::{LintError, RuleParams, Token};

#[test]
fn test_md034_with_markdown_link() {
    let lines = vec!["[link](https://example.com)\n"];

    let params = RuleParams {
        name: "test.md",
        version: "0.1.0",
        lines: &lines,
        front_matter_lines: &[],
        tokens: &[],
        config: &Config::new(),
        workspace_headings: None,
    };

    let rule = MD034;
    let errors = rule.lint(&params);
    assert_eq!(errors.len(), 0);
}

#[test]
fn test_md034_bare_url() {
    let lines = vec!["Visit https://example.com for more\n"];

    let params = RuleParams {
        name: "test.md",
        version: "0.1.0",
        lines: &lines,
        front_matter_lines: &[],
        tokens: &[],
        config: &Config::new(),
        workspace_headings: None,
    };

    let rule = MD034;
    let errors = rule.lint(&params);
    assert_eq!(errors.len(), 1);
}

#[test]
fn test_md034_fix_info() {
    let lines = vec!["Visit https://example.com for more\n"];

    let params = RuleParams {
        name: "test.md",
        version: "0.1.0",
        lines: &lines,
        front_matter_lines: &[],
        tokens: &[],
        config: &Config::new(),
        workspace_headings: None,
    };

    let rule = MD034;
    let errors = rule.lint(&params);
    assert_eq!(errors.len(), 1);

    let fix = errors[0]
        .fix_info
        .as_ref()
        .expect("fix_info should be present");
    assert_eq!(fix.line_number, None);
    // "Visit https://example.com for more" -> URL starts at column 7 (1-based)
    assert_eq!(fix.edit_column, Some(7));
    // "https://example.com" is 19 chars
    assert_eq!(fix.delete_count, Some(19));
    assert_eq!(fix.insert_text, Some("<https://example.com>".to_string()));
}

#[test]
fn test_md034_fix_info_at_start() {
    let lines = vec!["http://test.org/path\n"];

    let params = RuleParams {
        name: "test.md",
        version: "0.1.0",
        lines: &lines,
        front_matter_lines: &[],
        tokens: &[],
        config: &Config::new(),
        workspace_headings: None,
    };

    let rule = MD034;
    let errors = rule.lint(&params);
    assert_eq!(errors.len(), 1);

    let fix = errors[0]
        .fix_info
        .as_ref()
        .expect("fix_info should be present");
    assert_eq!(fix.line_number, None);
    assert_eq!(fix.edit_column, Some(1));
    assert_eq!(fix.delete_count, Some(20)); // "http://test.org/path" is 20 chars
    assert_eq!(fix.insert_text, Some("<http://test.org/path>".to_string()));
}

