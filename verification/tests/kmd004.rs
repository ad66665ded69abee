use mdlint::config::{Config, ConfigValue};
use mdlint::rules::kmd004::KMD004;
use mdlint::types::{LintError, RuleParams, Token};
use mdlint::fix::apply_fixes;

fn lint(content: &str) -> Vec<LintError> {
    let lines: Vec<&str> = content.split_inclusive('\n').collect();
    let rule = KMD004;
    rule.lint(&RuleParams {
        name: "test.md",
        version: "0",
        lines: &lines,
        front_matter_lines: &[],
        tokens: &[],
        config: &Config::new(),
        workspace_headings: None,
    })
}

#[test]
fn test_kmd004_abbr_used_ok() {
    let errors = lint("# H\n\nHTML is great.\n\n*[HTML]: HyperText Markup Language\n");
    assert!(
        errors.is_empty(),
        "should not fire when abbreviation is used"
    );
}

#[test]
fn test_kmd004_abbr_unused() {
    let errors = lint("# H\n\nSome text.\n\n*[HTML]: HyperText Markup Language\n");
    assert!(
        errors
            .iter()
            .any(|e| e.rule_names.first() == Some(&"KMD004")),
        "should fire when abbreviation is never used"
    );
}

#[test]
fn test_kmd004_no_abbr_ok() {
    let errors = lint("# H\n\nPlain paragraph.\n");
    assert!(errors.is_empty(), "should not fire when no abbreviations");
}

#[test]
fn test_kmd004_fix_info_present() {
    let errors = lint("# H\n\nSome text.\n\n*[HTML]: HyperText Markup Language\n");
    let err = errors
        .iter()
        .find(|e| e.rule_names.first() == Some(&"KMD004"))
        .unwrap();
    assert!(err.fix_info.is_some(), "KMD004 error should have fix_info");
    let fix = err.fix_info.as_ref().unwrap();
    assert_eq!(fix.delete_count, Some(-1));
    assert!(fix.insert_text.is_none());
}

#[test]
fn test_kmd004_fix_round_trip() {
    let content = "# H\n\nSome text.\n\n*[HTML]: HyperText Markup Language\n";
    let errors = lint(content);
    assert!(!errors.is_empty(), "should have KMD004 errors before fix");
    let fixed = apply_fixes(content, &errors);
    let errors2 = lint(&fixed);
    assert!(
        errors2
            .iter()
            .all(|e| e.rule_names.first() != Some(&"KMD004")),
        "after fix, no KMD004 errors; fixed:\n{fixed}"
    );
}

