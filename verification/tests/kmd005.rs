use mdlint::config::{Config, ConfigValue};
use mdlint::rules::kmd005::KMD005;
use mdlint::types::{LintError, RuleParams, Token};
use mdlint::rules::kmd005::{kramdown_slug};
use mdlint::fix::apply_fixes;

fn lint(content: &str) -> Vec<LintError> {
    let lines: Vec<&str> = content.split_inclusive('\n').collect();
    let rule = KMD005;
    rule.lint(&RuleParams {
        name: "test.md",
        version: "0",
        lines: &lines,
        front_matter_lines: &[],
        tokens: &[],
        config: &Config::new(),
        workspace_headings: None,
    })
}

#[test]
fn test_kmd005_unique_headings_ok() {
    let errors = lint("# Intro\n\n## Setup\n\n## Usage\n");
    assert!(errors.is_empty(), "unique headings should not fire");
}

#[test]
fn test_kmd005_duplicate_auto_slug() {
    let errors = lint("# Setup\n\n## Setup\n");
    assert!(
        errors
            .iter()
            .any(|e| e.rule_names.first() == Some(&"KMD005")),
        "should fire when two headings produce the same auto-slug"
    );
}

#[test]
fn test_kmd005_explicit_id_duplicate() {
    let errors = lint("# Title {#intro}\n\n## Other {#intro}\n");
    assert!(
        errors
            .iter()
            .any(|e| e.rule_names.first() == Some(&"KMD005")),
        "should fire when two headings share an explicit ID"
    );
}

#[test]
fn test_kmd005_kramdown_slug_generation() {
    assert_eq!(kramdown_slug("Hello World"), "hello-world");
    assert_eq!(kramdown_slug("Setup & Config!"), "setup-config");
    assert_eq!(kramdown_slug("  Leading spaces  "), "leading-spaces");
}

#[test]
fn test_kmd005_setext_duplicate() {
    let errors = lint("Title\n=====\n\nTitle\n=====\n");
    assert!(
        errors
            .iter()
            .any(|e| e.rule_names.first() == Some(&"KMD005")),
        "should fire on duplicate setext headings"
    );
}

#[test]
fn test_kmd005_setext_atx_collision() {
    // ATX # Title and setext Title\n----- produce the same slug
    let errors = lint("# Title\n\nTitle\n-----\n");
    assert!(
        errors
            .iter()
            .any(|e| e.rule_names.first() == Some(&"KMD005")),
        "should fire when setext and ATX heading share the same slug"
    );
}

#[test]
fn test_kmd005_setext_thematic_break_ok() {
    // A bare --- with no preceding content line is a thematic break, not a heading
    let errors = lint("# Intro\n\n---\n\nParagraph\n");
    assert!(
        errors.is_empty(),
        "bare --- after blank line should not be treated as setext heading"
    );
}

#[test]
fn test_kmd005_fix_info_present() {
    let errors = lint("# Setup\n\n## Setup\n");
    let err = errors
        .iter()
        .find(|e| e.rule_names.first() == Some(&"KMD005"))
        .unwrap();
    assert!(
        err.fix_info.is_some(),
        "duplicate heading should have fix_info"
    );
    let fix = err.fix_info.as_ref().unwrap();
    // Should insert " {#setup-2}" at the end of the heading line
    assert_eq!(fix.insert_text.as_deref(), Some(" {#setup-2}"));
    assert!(fix.delete_count.is_none());
}

#[test]
fn test_kmd005_fix_round_trip() {
    let content = "# Setup\n\n## Setup\n";
    let errors = lint(content);
    let fixed = apply_fixes(content, &errors);
    // After fix, re-linting should produce no KMD005 errors
    let errors2 = lint(&fixed);
    assert!(
        errors2
            .iter()
            .all(|e| e.rule_names.first() != Some(&"KMD005")),
        "after fix, no KMD005 errors expected; got: {errors2:?}"
    );
}

#[test]
fn test_kmd005_fix_triple_duplicate() {
    let content = "# Intro\n\n## Intro\n\n### Intro\n";
    let errors = lint(content);
    assert_eq!(errors.len(), 2, "two duplicate errors expected");
    // Check suffixes
    let texts: Vec<_> = errors
        .iter()
        .filter_map(|e| e.fix_info.as_ref())
        .filter_map(|f| f.insert_text.as_deref())
        .collect();
    assert!(texts.contains(&" {#intro-2}"), "second gets -2");
    assert!(texts.contains(&" {#intro-3}"), "third gets -3");
    let fixed = apply_fixes(content, &errors);
    let errors2 = lint(&fixed);
    assert!(
        errors2
            .iter()
            .all(|e| e.rule_names.first() != Some(&"KMD005")),
        "after fix, no KMD005 errors; got: {errors2:?}"
    );
}

