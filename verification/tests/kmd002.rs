use mdlint::config::{Config, ConfigValue};
use mdlint::rules::kmd002::KMD002;
use mdlint::types::{LintError, RuleParams, Token};
use mdlint::fix::apply_fixes;

fn lint(content: &str) -> Vec<LintError> {
    let lines: Vec<&str> = content.split_inclusive('\n').collect();
    let rule = KMD002;
    rule.lint(&RuleParams {
        name: "test.md",
        version: "0",
        lines: &lines,
        front_matter_lines: &[],
        tokens: &[],
        config: &Config::new(),
        workspace_headings: None,
    })
}

#[test]
fn test_kmd002_ref_defined_ok() {
    let errors = lint("# H\n\nText[^1] here.\n\n[^1]: The note.\n");
    assert!(errors.is_empty(), "should not fire when ref has definition");
}

#[test]
fn test_kmd002_ref_undefined() {
    let errors = lint("# H\n\nText[^1] here.\n");
    assert!(
        errors.iter().any(|e| e.rule_names.first() == Some(&"KMD002")),
        "should fire when footnote ref is undefined"
    );
}

#[test]
fn test_kmd002_no_footnotes_ok() {
    let errors = lint("# H\n\nPlain paragraph.\n");
    assert!(errors.is_empty(), "should not fire when no footnotes");
}

#[test]
fn test_kmd002_ref_in_code_block_ignored() {
    let errors = lint("# H\n\n```\n[^1] inside code\n```\n");
    assert!(errors.is_empty(), "should not fire for refs in code blocks");
}

#[test]
fn test_kmd002_fix_info_present() {
    let errors = lint("# H\n\nText[^1] here.\n");
    let err = errors.iter().find(|e| e.rule_names.first() == Some(&"KMD002")).unwrap();
    assert!(err.fix_info.is_some(), "KMD002 error should have fix_info");
    let fix = err.fix_info.as_ref().unwrap();
    assert_eq!(fix.insert_text.as_deref(), Some("\n[^1]: "));
    assert!(fix.delete_count.is_none());
}

#[test]
fn test_kmd002_fix_round_trip() {
    let content = "# H\n\nText[^1] here.\n";
    let errors = lint(content);
    assert!(!errors.is_empty(), "should have KMD002 errors before fix");
    let fixed = apply_fixes(content, &errors);
    let errors2 = lint(&fixed);
    assert!(
        errors2.iter().all(|e| e.rule_names.first() != Some(&"KMD002")),
        "after fix, no KMD002 errors; fixed:\n{fixed}"
    );
}

