use mdlint::config::{Config, ConfigValue};
use mdlint::rules::kmd001::KMD001;
use mdlint::types::{LintError, RuleParams, Token};
use mdlint::fix::apply_fixes;

fn lint(content: &str) -> Vec<LintError> {
    let lines: Vec<&str> = content.split_inclusive('\n').collect();
    let rule = KMD001;
    rule.lint(&RuleParams {
        name: "test.md",
        version: "0",
        lines: &lines,
        front_matter_lines: &[],
        tokens: &[],
        config: &Config::new(),
        workspace_headings: None,
    })
}

#[test]
fn test_kmd001_term_with_definition_ok() {
    let errors = lint("# H\n\nterm\n: definition\n");
    assert!(
        errors.is_empty(),
        "should not fire when term has definition"
    );
}

#[test]
fn test_kmd001_term_no_definition() {
    let errors = lint("# H\n\nterm without def\n\nother paragraph\n: orphan def\n");
    assert!(
        errors
            .iter()
            .any(|e| e.rule_names.first() == Some(&"KMD001")),
        "should fire when DL term has no definition"
    );
}

#[test]
fn test_kmd001_no_dl_no_error() {
    // No `: ` lines at all → should not fire (no DL in document)
    let errors = lint("# H\n\nPlain paragraph.\n");
    assert!(errors.is_empty(), "should not fire when no DL in document");
}

#[test]
fn test_kmd001_in_code_block_ignored() {
    let errors = lint("# H\n\n```\nterm\n: def inside code\n```\n");
    assert!(errors.is_empty(), "should not fire inside code blocks");
}

#[test]
fn test_kmd001_fix_info_present() {
    let errors = lint("# H\n\nterm without def\n\nother paragraph\n: orphan def\n");
    let err = errors
        .iter()
        .find(|e| e.rule_names.first() == Some(&"KMD001"))
        .unwrap();
    assert!(err.fix_info.is_some(), "KMD001 error should have fix_info");
    let fix = err.fix_info.as_ref().unwrap();
    assert_eq!(fix.insert_text.as_deref(), Some("\n: "));
    assert!(fix.delete_count.is_none());
}

#[test]
fn test_kmd001_fix_round_trip() {
    let content = "# H\n\nterm without def\n\nother paragraph\n: orphan def\n";
    let errors = lint(content);
    assert!(!errors.is_empty(), "should have KMD001 errors before fix");
    let fixed = apply_fixes(content, &errors);
    let errors2 = lint(&fixed);
    assert!(
        errors2
            .iter()
            .all(|e| e.rule_names.first() != Some(&"KMD001")),
        "after fix, no KMD001 errors; fixed:\n{fixed}"
    );
}

