use mdlint::config::{Config, ConfigValue};
use mdlint::rules::md042::MD042;
use mdlint::types::{LintError, RuleParams, Token};

#[test]
fn test_md042_empty_inline_link() {
    let lines = vec!["[text]()\n"];

    let params = RuleParams {
        name: "test.md",
        version: "0.1.0",
        lines: &lines,
        front_matter_lines: &[],
        tokens: &[],
        config: &Config::new(),
        workspace_headings: None,
    };

    let rule = MD042;
    let errors = rule.lint(&params);
    assert_eq!(errors.len(), 1);
    assert_eq!(errors[0].line_number, 1);
}

#[test]
fn test_md042_empty_with_angle_brackets() {
    let lines = vec!["[text](<>)\n"];

    let params = RuleParams {
        name: "test.md",
        version: "0.1.0",
        lines: &lines,
        front_matter_lines: &[],
        tokens: &[],
        config: &Config::new(),
        workspace_headings: None,
    };

    let rule = MD042;
    let errors = rule.lint(&params);
    assert_eq!(errors.len(), 1);
}

#[test]
fn test_md042_fragment_only() {
    let lines = vec!["[text](#)\n"];

    let params = RuleParams {
        name: "test.md",
        version: "0.1.0",
        lines: &lines,
        front_matter_lines: &[],
        tokens: &[],
        config: &Config::new(),
        workspace_headings: None,
    };

    let rule = MD042;
    let errors = rule.lint(&params);
    assert_eq!(errors.len(), 1);
}

#[test]
fn test_md042_fragment_with_title() {
    let lines = vec!["[text](# \"title\")\n"];

    let params = RuleParams {
        name: "test.md",
        version: "0.1.0",
        lines: &lines,
        front_matter_lines: &[],
        tokens: &[],
        config: &Config::new(),
        workspace_headings: None,
    };

    let rule = MD042;
    let errors = rule.lint(&params);
    assert_eq!(errors.len(), 1);
}

#[test]
fn test_md042_valid_link() {
    let lines = vec!["[text](https://example.com)\n"];

    let params = RuleParams {
        name: "test.md",
        version: "0.1.0",
        lines: &lines,
        front_matter_lines: &[],
        tokens: &[],
        config: &Config::new(),
        workspace_headings: None,
    };

    let rule = MD042;
    let errors = rule.lint(&params);
    assert_eq!(errors.len(), 0);
}

#[test]
fn test_md042_valid_fragment() {
    let lines = vec!["[text](#section)\n"];

    let params = RuleParams {
        name: "test.md",
        version: "0.1.0",
        lines: &lines,
        front_matter_lines: &[],
        tokens: &[],
        config: &Config::new(),
        workspace_headings: None,
    };

    let rule = MD042;
    let errors = rule.lint(&params);
    assert_eq!(errors.len(), 0);
}

#[test]
fn test_md042_reference_link_with_empty_definition() {
    let lines = vec!["[text][frag]\n", "\n", "[frag]: #\n"];

    let params = RuleParams {
        name: "test.md",
        version: "0.1.0",
        lines: &lines,
        front_matter_lines: &[],
        tokens: &[],
        config: &Config::new(),
        workspace_headings: None,
    };

    let rule = MD042;
    let errors = rule.lint(&params);
    assert_eq!(errors.len(), 1);
    assert_eq!(errors[0].line_number, 1);
}

#[test]
fn test_md042_reference_link_shorthand() {
    let lines = vec!["[frag][]\n", "\n", "[frag]: #\n"];

    let params = RuleParams {
        name: "test.md",
        version: "0.1.0",
        lines: &lines,
        front_matter_lines: &[],
        tokens: &[],
        config: &Config::new(),
        workspace_headings: None,
    };

    let rule = MD042;
    let errors = rule.lint(&params);
    assert_eq!(errors.len(), 1);
}

#[test]
fn test_md042_reference_link_implicit() {
    let lines = vec!["[frag]\n", "\n", "[frag]: #\n"];

    let params = RuleParams {
        name: "test.md",
        version: "0.1.0",
        lines: &lines,
        front_matter_lines: &[],
        tokens: &[],
        config: &Config::new(),
        workspace_headings: None,
    };

    let rule = MD042;
    let errors = rule.lint(&params);
    assert_eq!(errors.len(), 1);
}

#[test]
fn test_md042_reference_link_with_valid_definition() {
    let lines = vec!["[text][ref]\n", "\n", "[ref]: https://example.com\n"];

    let params = RuleParams {
        name: "test.md",
        version: "0.1.0",
        lines: &lines,
        front_matter_lines: &[],
        tokens: &[],
        config: &Config::new(),
        workspace_headings: None,
    };

    let rule = MD042;
    let errors = rule.lint(&params);
    assert_eq!(errors.len(), 0);
}

#[test]
fn test_md042_multiple_empty_links_on_same_line() {
    let lines = vec!["[text1](link-1) [text2]() [text3](link-3)\n"];

    let params = RuleParams {
        name: "test.md",
        version: "0.1.0",
        lines: &lines,
        front_matter_lines: &[],
        tokens: &[],
        config: &Config::new(),
        workspace_headings: None,
    };

    let rule = MD042;
    let errors = rule.lint(&params);
    assert_eq!(errors.len(), 1);
    assert!(
        errors[0]
            .error_context
            .as_ref()
            .unwrap()
            .contains("[text2]()")
    );
}

#[test]
fn test_md042_fix_empty_inline_link() {
    let lines = vec!["[text]()\n"];

    let params = RuleParams {
        name: "test.md",
        version: "0.1.0",
        lines: &lines,
        front_matter_lines: &[],
        tokens: &[],
        config: &Config::new(),
        workspace_headings: None,
    };

    let rule = MD042;
    let errors = rule.lint(&params);
    assert_eq!(errors.len(), 1);
    let fix = errors[0].fix_info.as_ref().unwrap();
    assert_eq!(fix.edit_column, Some(8)); // After "("
    assert_eq!(fix.delete_count, Some(0)); // Empty URL
    assert_eq!(fix.insert_text, Some("#link".to_string()));
}

#[test]
fn test_md042_fix_fragment_only() {
    let lines = vec!["[text](#)\n"];

    let params = RuleParams {
        name: "test.md",
        version: "0.1.0",
        lines: &lines,
        front_matter_lines: &[],
        tokens: &[],
        config: &Config::new(),
        workspace_headings: None,
    };

    let rule = MD042;
    let errors = rule.lint(&params);
    assert_eq!(errors.len(), 1);
    let fix = errors[0].fix_info.as_ref().unwrap();
    assert_eq!(fix.edit_column, Some(8)); // After "("
    assert_eq!(fix.delete_count, Some(1)); // Delete "#"
    assert_eq!(fix.insert_text, Some("#link".to_string()));
}

#[test]
fn test_md042_no_fix_reference_link() {
    let lines = vec!["[text][frag]\n", "\n", "[frag]: #\n"];

    let params = RuleParams {
        name: "test.md",
        version: "0.1.0",
        lines: &lines,
        front_matter_lines: &[],
        tokens: &[],
        config: &Config::new(),
        workspace_headings: None,
    };

    let rule = MD042;
    let errors = rule.lint(&params);
    assert_eq!(errors.len(), 1);
    // Reference links should not have fix_info
    assert!(errors[0].fix_info.is_none());
}

