use mdlint::config::{Config, ConfigValue};
use mdlint::rules::kmd008::KMD008;
use mdlint::types::{LintError, RuleParams, Token};

fn lint(content: &str) -> Vec<LintError> {
    let lines: Vec<&str> = content.split_inclusive('\n').collect();
    let rule = KMD008;
    rule.lint(&RuleParams {
        name: "test.md",
        version: "0",
        lines: &lines,
        front_matter_lines: &[],
        tokens: &[],
        config: &Config::new(),
        workspace_headings: None,
    })
}

#[test]
fn test_kmd008_matched_comment_ok() {
    let errors = lint("# H\n\n{::comment}\nsome text\n{:/comment}\n");
    assert!(errors.is_empty(), "matched comment block should not fire");
}

#[test]
fn test_kmd008_unclosed_extension() {
    let errors = lint("# H\n\n{::comment}\nsome text\n");
    assert!(
        errors.iter().any(|e| e.rule_names[0] == "KMD008"),
        "should fire on unclosed block extension"
    );
}

#[test]
fn test_kmd008_unexpected_close() {
    let errors = lint("# H\n\n{:/comment}\n");
    assert!(
        errors.iter().any(|e| e.rule_names[0] == "KMD008"),
        "should fire on close tag with no opener"
    );
}

#[test]
fn test_kmd008_mismatched_tags() {
    let errors = lint("# H\n\n{::comment}\ntext\n{:/nomarkdown}\n");
    assert!(
        errors.iter().any(|e| e.rule_names[0] == "KMD008"),
        "should fire on mismatched open/close names"
    );
}

#[test]
fn test_kmd008_self_closing_ok() {
    let errors = lint("# H\n\n{::options auto_ids=\"false\" /}\n\nText\n");
    assert!(errors.is_empty(), "self-closing extension should not fire");
}

#[test]
fn test_kmd008_nomarkdown_ok() {
    let errors = lint("# H\n\n{::nomarkdown}\n<b>raw html</b>\n{:/nomarkdown}\n");
    assert!(
        errors.is_empty(),
        "matched nomarkdown block should not fire"
    );
}

#[test]
fn test_kmd008_inside_code_block_ignored() {
    let errors = lint("# H\n\n```\n{::comment}\ntext\n```\n");
    assert!(errors.is_empty(), "should not fire inside code blocks");
}

