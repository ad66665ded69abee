use mdlint::config::{Config, ConfigValue};
use mdlint::rules::kmd009::KMD009;
use mdlint::types::{LintError, RuleParams, Token};
use mdlint::fix::apply_fixes;

fn lint(content: &str) -> Vec<LintError> {
    let lines: Vec<&str> = content.split_inclusive('\n').collect();
    let rule = KMD009;
    rule.lint(&RuleParams {
        name: "test.md",
        version: "0",
        lines: &lines,
        front_matter_lines: &[],
        tokens: &[],
        config: &Config::new(),
        workspace_headings: None,
    })
}

#[test]
fn test_kmd009_ald_referenced_ok() {
    let errors = lint("# H\n\n{:myref: .highlight}\n\nA paragraph\n{:myref}\n");
    assert!(errors.is_empty(), "referenced ALD should not fire");
}

#[test]
fn test_kmd009_ald_unused() {
    let errors = lint("# H\n\n{:myref: .highlight}\n\nA paragraph.\n");
    assert!(
        errors.iter().any(|e| e.rule_names.first() == Some(&"KMD009")),
        "should fire when ALD is never referenced"
    );
}

#[test]
fn test_kmd009_no_ald_ok() {
    let errors = lint("# H\n\nPlain paragraph.\n");
    assert!(errors.is_empty(), "no ALDs should not fire");
}

#[test]
fn test_kmd009_ial_not_confused_with_ald() {
    // Regular IAL starting with #, ., or space should not be treated as ALD
    let errors = lint("# H\n\n{: #my-id .class}\n\nText\n");
    assert!(
        errors.is_empty(),
        "regular IAL should not be treated as ALD"
    );
}

#[test]
fn test_kmd009_inside_code_block_ignored() {
    let errors = lint("# H\n\n```\n{:myref: .class}\n```\n");
    assert!(errors.is_empty(), "should not fire inside code blocks");
}

#[test]
fn test_kmd009_fix_info_present() {
    let errors = lint("# H\n\n{:myref: .highlight}\n\nA paragraph.\n");
    let err = errors.iter().find(|e| e.rule_names.first() == Some(&"KMD009")).unwrap();
    assert!(err.fix_info.is_some(), "KMD009 error should have fix_info");
    let fix = err.fix_info.as_ref().unwrap();
    assert_eq!(fix.delete_count, Some(-1));
    assert!(fix.insert_text.is_none());
}

#[test]
fn test_kmd009_fix_round_trip() {
    let content = "# H\n\n{:myref: .highlight}\n\nA paragraph.\n";
    let errors = lint(content);
    assert!(!errors.is_empty(), "should have KMD009 errors before fix");
    let fixed = apply_fixes(content, &errors);
    let errors2 = lint(&fixed);
    assert!(
        errors2.iter().all(|e| e.rule_names.first() != Some(&"KMD009")),
        "after fix, no KMD009 errors; fixed:\n{fixed}"
    );
}

