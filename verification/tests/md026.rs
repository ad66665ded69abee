use mdlint::config::{Config, ConfigValue};
use mdlint::rules::md026::MD026;
use mdlint::types::{LintError, RuleParams, Token};

#[test]
fn test_md026_no_punctuation() {
    let lines = vec!["# Heading\n"];

    let params = RuleParams {
        name: "test.md",
        version: "0.1.0",
        lines: &lines,
        front_matter_lines: &[],
        tokens: &[],
        config: &Config::new(),
        workspace_headings: None,
    };

    let rule = MD026;
    let errors = rule.lint(&params);
    assert_eq!(errors.len(), 0);
}

#[test]
fn test_md026_with_punctuation() {
    let lines = vec!["# Heading!\n", "## Question?\n"];

    let params = RuleParams {
        name: "test.md",
        version: "0.1.0",
        lines: &lines,
        front_matter_lines: &[],
        tokens: &[],
        config: &Config::new(),
        workspace_headings: None,
    };

    let rule = MD026;
    let errors = rule.lint(&params);
    assert_eq!(errors.len(), 2);
}

#[test]
fn test_md026_fix_info_exclamation() {
    let lines = vec!["# Heading!\n"];

    let params = RuleParams {
        name: "test.md",
        version: "0.1.0",
        lines: &lines,
        front_matter_lines: &[],
        tokens: &[],
        config: &Config::new(),
        workspace_headings: None,
    };

    let rule = MD026;
    let errors = rule.lint(&params);
    assert_eq!(errors.len(), 1);

    let fix = errors[0]
        .fix_info
        .as_ref()
        .expect("fix_info should be present");
    assert_eq!(fix.line_number, None);
    // "# Heading!" -> '!' is at column 10 (1-based)
    assert_eq!(fix.edit_column, Some(10));
    assert_eq!(fix.delete_count, Some(1));
    assert_eq!(fix.insert_text, None);
}

#[test]
fn test_md026_fix_info_question() {
    let lines = vec!["## Question?\n"];

    let params = RuleParams {
        name: "test.md",
        version: "0.1.0",
        lines: &lines,
        front_matter_lines: &[],
        tokens: &[],
        config: &Config::new(),
        workspace_headings: None,
    };

    let rule = MD026;
    let errors = rule.lint(&params);
    assert_eq!(errors.len(), 1);

    let fix = errors[0]
        .fix_info
        .as_ref()
        .expect("fix_info should be present");
    assert_eq!(fix.line_number, None);
    // "## Question?" -> '?' is at column 12 (1-based)
    assert_eq!(fix.edit_column, Some(12));
    assert_eq!(fix.delete_count, Some(1));
    assert_eq!(fix.insert_text, None);
}

#[test]
fn test_md026_fix_info_closed_atx() {
    let lines = vec!["# Heading! ##\n"];

    let params = RuleParams {
        name: "test.md",
        version: "0.1.0",
        lines: &lines,
        front_matter_lines: &[],
        tokens: &[],
        config: &Config::new(),
        workspace_headings: None,
    };

    let rule = MD026;
    let errors = rule.lint(&params);
    assert_eq!(errors.len(), 1);

    let fix = errors[0]
        .fix_info
        .as_ref()
        .expect("fix_info should be present");
    assert_eq!(fix.line_number, None);
    // "# Heading! ##" -> content after stripping trailing '##' and space is "Heading!"
    // '!' is at column 10 (1-based) in the original line
    assert_eq!(fix.edit_column, Some(10));
    assert_eq!(fix.delete_count, Some(1));
    assert_eq!(fix.insert_text, None);
}

