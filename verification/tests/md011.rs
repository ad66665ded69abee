use mdlint::config::{Config, ConfigValue};
use mdlint::rules::md011::MD011;
use mdlint::types::{LintError, RuleParams, Token};

#[test]
fn test_md011_correct_syntax() {
    let lines = vec!["[text](link)\n"];

    let params = RuleParams {
        name: "test.md",
        version: "0.1.0",
        lines: &lines,
        front_matter_lines: &[],
        tokens: &[],
        config: &Config::new(),
        workspace_headings: None,
    };

    let rule = MD011;
    let errors = rule.lint(&params);
    assert_eq!(errors.len(), 0);
}

#[test]
fn test_md011_reversed_syntax() {
    let lines = vec!["(text)[link]\n"];

    let params = RuleParams {
        name: "test.md",
        version: "0.1.0",
        lines: &lines,
        front_matter_lines: &[],
        tokens: &[],
        config: &Config::new(),
        workspace_headings: None,
    };

    let rule = MD011;
    let errors = rule.lint(&params);
    assert_eq!(errors.len(), 1);
}

#[test]
fn test_md011_fix_info() {
    let lines = vec!["(text)[link]\n"];

    let params = RuleParams {
        name: "test.md",
        version: "0.1.0",
        lines: &lines,
        front_matter_lines: &[],
        tokens: &[],
        config: &Config::new(),
        workspace_headings: None,
    };

    let rule = MD011;
    let errors = rule.lint(&params);
    assert_eq!(errors.len(), 1);

    let fix = errors[0]
        .fix_info
        .as_ref()
        .expect("fix_info should be present");
    assert_eq!(fix.line_number, None);
    assert_eq!(fix.edit_column, Some(1));
    assert_eq!(fix.delete_count, Some(12)); // "(text)[link]" is 12 chars
    assert_eq!(fix.insert_text, Some("[text](link)".to_string()));
}

#[test]
fn test_md011_fix_info_with_offset() {
    let lines = vec!["See (hello)[world] for details\n"];

    let params = RuleParams {
        name: "test.md",
        version: "0.1.0",
        lines: &lines,
        front_matter_lines: &[],
        tokens: &[],
        config: &Config::new(),
        workspace_headings: None,
    };

    let rule = MD011;
    let errors = rule.lint(&params);
    assert_eq!(errors.len(), 1);

    let fix = errors[0]
        .fix_info
        .as_ref()
        .expect("fix_info should be present");
    assert_eq!(fix.line_number, None);
    assert_eq!(fix.edit_column, Some(5)); // "(hello)" starts at column 5 (1-based)
    assert_eq!(fix.delete_count, Some(14)); // "(hello)[world]" is 14 chars
    assert_eq!(fix.insert_text, Some("[hello](world)".to_string()));
}

