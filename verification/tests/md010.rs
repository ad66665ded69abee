use mdlint::config::{Config, ConfigValue};
use mdlint::rules::md010::MD010;
use mdlint::types::{LintError, RuleParams, Token};

#[test]
fn test_md010_no_tabs() {
    let lines = vec![
        "# Heading\n",
        "    Indented with spaces\n",
    ];

    let params = RuleParams {
        name: "test.md",
        version: "0.1.0",
        lines: &lines,
        front_matter_lines: &[],
        tokens: &[],
        config: &Config::new(),
        workspace_headings: None,
    };

    let rule = MD010;
    let errors = rule.lint(&params);
    assert_eq!(errors.len(), 0);
}

#[test]
fn test_md010_with_tabs() {
    let lines = vec![
        "\tTabbed line\n",
        "Normal\tline with tab\n",
    ];

    let params = RuleParams {
        name: "test.md",
        version: "0.1.0",
        lines: &lines,
        front_matter_lines: &[],
        tokens: &[],
        config: &Config::new(),
        workspace_headings: None,
    };

    let rule = MD010;
    let errors = rule.lint(&params);

    assert_eq!(errors.len(), 2);
    assert_eq!(errors[0].line_number, 1);
    assert_eq!(errors[1].line_number, 2);
    assert!(errors[0].fix_info.is_some());
}

