use mdlint::config::{Config, ConfigValue};
use mdlint::rules::kmd007::KMD007;
use mdlint::types::{LintError, RuleParams, Token};

fn lint(content: &str) -> Vec<LintError> {
    let lines: Vec<&str> = content.split_inclusive('\n').collect();
    let rule = KMD007;
    rule.lint(&RuleParams {
        name: "test.md",
        version: "0",
        lines: &lines,
        front_matter_lines: &[],
        tokens: &[],
        config: &Config::new(),
        workspace_headings: None,
    })
}

#[test]
fn test_kmd007_matched_math_block_ok() {
    let errors = lint("# H\n\n$$\nx = 1\n$$\n");
    assert!(errors.is_empty(), "matched $$ should not fire");
}

#[test]
fn test_kmd007_unclosed_math_block() {
    let errors = lint("# H\n\n$$\nx = 1\n");
    assert!(
        errors.iter().any(|e| e.rule_names[0] == "KMD007"),
        "should fire on unclosed math block"
    );
}

#[test]
fn test_kmd007_multiple_math_blocks_ok() {
    let errors = lint("# H\n\n$$\na\n$$\n\nText\n\n$$\nb\n$$\n");
    assert!(errors.is_empty(), "two matched blocks should not fire");
}

#[test]
fn test_kmd007_inside_code_block_ignored() {
    let errors = lint("# H\n\n```\n$$\nmath\n```\n");
    assert!(errors.is_empty(), "should not fire inside code blocks");
}

#[test]
fn test_kmd007_no_math_ok() {
    let errors = lint("# H\n\nPlain paragraph.\n");
    assert!(errors.is_empty(), "no math should not fire");
}

