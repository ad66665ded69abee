use mdlint::config::{Config, ConfigValue};
use mdlint::rules::md027::MD027;
use mdlint::types::{LintError, RuleParams, Token};

#[test]
fn test_md027_single_space() {
    let lines = vec!["> Blockquote\n"];

    let params = RuleParams {
        name: "test.md",
        version: "0.1.0",
        lines: &lines,
        front_matter_lines: &[],
        tokens: &[],
        config: &Config::new(),
        workspace_headings: None,
    };

    let rule = MD027;
    let errors = rule.lint(&params);
    assert_eq!(errors.len(), 0);
}

#[test]
fn test_md027_multiple_spaces() {
    let lines = vec![">  Blockquote\n"];

    let params = RuleParams {
        name: "test.md",
        version: "0.1.0",
        lines: &lines,
        front_matter_lines: &[],
        tokens: &[],
        config: &Config::new(),
        workspace_headings: None,
    };

    let rule = MD027;
    let errors = rule.lint(&params);
    assert_eq!(errors.len(), 1);
}

