use mdlint::config::{Config, ConfigValue};
use mdlint::rules::kmd010::KMD010;
use mdlint::types::{LintError, RuleParams, Token};

fn lint(content: &str) -> Vec<LintError> {
    let lines: Vec<&str> = content.split_inclusive('\n').collect();
    let rule = KMD010;
    rule.lint(&RuleParams {
        name: "test.md",
        version: "0",
        lines: &lines,
        front_matter_lines: &[],
        tokens: &[],
        config: &Config::new(),
        workspace_headings: None,
    })
}

#[test]
fn test_kmd010_valid_class_inline() {
    let errors = lint("# H\n\n*text*{: .highlight}\n");
    assert!(
        errors.is_empty(),
        "valid inline IAL with class should not fire"
    );
}

#[test]
fn test_kmd010_valid_id_inline() {
    let errors = lint("# H\n\n`code`{: #my-id}\n");
    assert!(
        errors.is_empty(),
        "valid inline IAL with id should not fire"
    );
}

#[test]
fn test_kmd010_malformed_inline_ial() {
    let errors = lint("# H\n\n*text*{: bad!!syntax}\n");
    assert!(
        errors
            .iter()
            .any(|e| e.rule_names.first() == Some(&"KMD010")),
        "should fire on malformed inline IAL"
    );
}

#[test]
fn test_kmd010_block_ial_not_flagged() {
    // Block-level IAL (whole line) is handled by KMD006, not this rule
    let errors = lint("# H\n\n{: #my-id}\n");
    assert!(
        errors.is_empty(),
        "block-level IAL should not be flagged by KMD010"
    );
}

#[test]
fn test_kmd010_inside_code_block_ignored() {
    let errors = lint("# H\n\n```\n*text*{: bad!!}\n```\n");
    assert!(errors.is_empty(), "should not fire inside code blocks");
}

#[test]
fn test_kmd010_key_value_inline() {
    let errors = lint("# H\n\n[link](url){: data-x=\"foo\"}\n");
    assert!(
        errors.is_empty(),
        "inline IAL with key=value should not fire"
    );
}

