use mdlint::config::{Config, ConfigValue};
use mdlint::rules::md018::MD018;
use mdlint::types::{LintError, RuleParams, Token};

#[test]
fn test_md018_with_space() {
    let lines = vec!["# Heading\n", "## Heading 2\n"];

    let params = RuleParams {
        name: "test.md",
        version: "0.1.0",
        lines: &lines,
        front_matter_lines: &[],
        tokens: &[],
        config: &Config::new(),
        workspace_headings: None,
    };

    let rule = MD018;
    let errors = rule.lint(&params);
    assert_eq!(errors.len(), 0);
}

#[test]
fn test_md018_no_space() {
    let lines = vec!["#Heading\n", "##Heading 2\n"];

    let params = RuleParams {
        name: "test.md",
        version: "0.1.0",
        lines: &lines,
        front_matter_lines: &[],
        tokens: &[],
        config: &Config::new(),
        workspace_headings: None,
    };

    let rule = MD018;
    let errors = rule.lint(&params);
    assert_eq!(errors.len(), 2);
    assert!(errors[0].fix_info.is_some());
}

