use mdlint::config::{Config, ConfigValue};
use mdlint::rules::kmd011::KMD011;
use mdlint::types::{LintError, RuleParams, Token};

fn lint(content: &str) -> Vec<LintError> {
    let lines: Vec<&str> = content.split_inclusive('\n').collect();
    let rule = KMD011;
    rule.lint(&RuleParams {
        name: "test.md",
        version: "0",
        lines: &lines,
        front_matter_lines: &[],
        tokens: &[],
        config: &Config::new(),
        workspace_headings: None,
    })
}

#[test]
fn test_kmd011_balanced_ok() {
    let errors = lint("# H\n\nSolve $x = 1$ and done.\n");
    assert!(errors.is_empty(), "balanced inline math should not fire");
}

#[test]
fn test_kmd011_unbalanced() {
    let errors = lint("# H\n\nSolve $x = 1 and done.\n");
    assert!(
        errors
            .iter()
            .any(|e| e.rule_names.first() == Some(&"KMD011")),
        "odd number of $ should fire"
    );
}

#[test]
fn test_kmd011_no_math_ok() {
    let errors = lint("# H\n\nPlain paragraph.\n");
    assert!(errors.is_empty(), "no $ should not fire");
}

#[test]
fn test_kmd011_escaped_dollar_not_counted() {
    let errors = lint("# H\n\nPrice is \\$5 today.\n");
    assert!(
        errors.is_empty(),
        "escaped \\$ should not be counted as delimiter"
    );
}

#[test]
fn test_kmd011_dollar_in_code_span_ignored() {
    let errors = lint("# H\n\nUse `$var` in shell.\n");
    assert!(
        errors.is_empty(),
        "$ inside backtick code span should be ignored"
    );
}

#[test]
fn test_kmd011_dollar_in_code_block_ignored() {
    let errors = lint("# H\n\n```\n$var = 1\n```\n");
    assert!(errors.is_empty(), "$ inside code block should be ignored");
}

#[test]
fn test_kmd011_block_math_fence_skipped() {
    // $$ on its own line is a block-math fence (KMD007), not inline math
    let errors = lint("# H\n\n$$\nx = 1\n$$\n");
    assert!(
        errors.is_empty(),
        "standalone $$ lines should not be counted"
    );
}

#[test]
fn test_kmd011_double_dollar_inline_ok() {
    // $$ used inline (two $, even count)
    let errors = lint("# H\n\nThe expression $$x$$ is inline.\n");
    assert!(
        errors.is_empty(),
        "even number of $ in $$ inline should not fire"
    );
}

#[test]
fn test_kmd011_multiple_spans_ok() {
    let errors = lint("# H\n\nBoth $a$ and $b$ are variables.\n");
    assert!(errors.is_empty(), "multiple balanced spans should not fire");
}

#[test]
fn test_kmd011_error_line_number() {
    let errors = lint("# H\n\nLine with $unclosed.\n");
    assert_eq!(errors[0].line_number, 3, "error should point to line 3");
}


#[test]
fn kmd011_unmatched_backtick_is_plain_text() {
    assert_eq!(mdlint::rules::kmd011::count_dollars("`$x"), 1);
    assert_eq!(mdlint::rules::kmd011::count_dollars("``a $y$ `b"), 2);
    assert_eq!(mdlint::rules::kmd011::count_dollars("`$a$` $b"), 1);
    assert_eq!(lint("Price `$5 today\n").len(), 1);
}
