use mdlint::config::{Config, ConfigValue};
use mdlint::rules::kmd006::KMD006;
use mdlint::types::{LintError, RuleParams, Token};

fn lint(content: &str) -> Vec<LintError> {
    let lines: Vec<&str> = content.split_inclusive('\n').collect();
    let rule = KMD006;
    rule.lint(&RuleParams {
        name: "test.md",
        version: "0",
        lines: &lines,
        front_matter_lines: &[],
        tokens: &[],
        config: &Config::new(),
        workspace_headings: None,
    })
}

#[test]
fn test_kmd006_valid_id() {
    let errors = lint("# H\n\n{: #my-id}\n");
    assert!(errors.is_empty(), "valid IAL with ID should not fire");
}

#[test]
fn test_kmd006_valid_class() {
    let errors = lint("# H\n\n{: .highlight}\n");
    assert!(errors.is_empty(), "valid IAL with class should not fire");
}

#[test]
fn test_kmd006_valid_combined() {
    let errors = lint("# H\n\n{: #intro .section}\n");
    assert!(
        errors.is_empty(),
        "valid IAL with id and class should not fire"
    );
}

#[test]
fn test_kmd006_valid_key_value() {
    let errors = lint("# H\n\n{: data-x=\"foo\"}\n");
    assert!(
        errors.is_empty(),
        "valid IAL with key=value should not fire"
    );
}

#[test]
fn test_kmd006_malformed_ial() {
    let errors = lint("# H\n\n{: bad!!syntax}\n");
    assert!(
        errors.iter().any(|e| e.rule_names[0] == "KMD006"),
        "should fire on malformed IAL"
    );
}

#[test]
fn test_kmd006_unclosed_ial() {
    let errors = lint("# H\n\n{: #id\n");
    assert!(
        errors.iter().any(|e| e.rule_names[0] == "KMD006"),
        "should fire on unclosed IAL"
    );
}

#[test]
fn test_kmd006_in_code_block_ignored() {
    let errors = lint("# H\n\n```\n{: bad!!stuff}\n```\n");
    assert!(errors.is_empty(), "should not fire inside code blocks");
}

