use mdlint::config::{Config, ConfigValue};
use mdlint::rules::md019::MD019;
use mdlint::types::{LintError, RuleParams, Token};

fn make_params<'a>(
    lines: &'a [&'a str],
    tokens: &'a [Token],
    config: &'a Config,
) -> RuleParams<'a> {
    RuleParams {
        name: "test.md",
        version: "0.1.0",
        lines,
        front_matter_lines: &[],
        tokens,
        config,
        workspace_headings: None,
    }
}

#[test]
fn test_md019_single_space() {
    let lines: Vec<&str> = "# Heading\n".lines().collect();
    let tokens = vec![];
    let config = Config::new();
    let params = make_params(&lines, &tokens, &config);
    let rule = MD019;
    let errors = rule.lint(&params);
    assert_eq!(errors.len(), 0);
}

#[test]
fn test_md019_multiple_spaces() {
    let lines: Vec<&str> = "#  Heading\n".lines().collect();
    let tokens = vec![];
    let config = Config::new();
    let params = make_params(&lines, &tokens, &config);
    let rule = MD019;
    let errors = rule.lint(&params);
    assert_eq!(errors.len(), 1);
    assert_eq!(errors[0].line_number, 1);
}

#[test]
fn test_md019_many_spaces_h2() {
    let lines: Vec<&str> = "##   Heading 2\n".lines().collect();
    let tokens = vec![];
    let config = Config::new();
    let params = make_params(&lines, &tokens, &config);
    let rule = MD019;
    let errors = rule.lint(&params);
    assert_eq!(errors.len(), 1);
}

