use mdlint::config::{Config, ConfigValue};
use mdlint::rules::md041::MD041;
use mdlint::types::{LintError, RuleParams, Token};

#[test]
fn test_md041_starts_with_heading() {
    let tokens = vec![Token {
        token_type: "heading".to_string(),
        start_line: 1,
        start_column: 1,
        end_line: 1,
        end_column: 10,
        text: "# Heading".to_string(),
        children: vec![],
        parent: None,
        metadata: Vec::new(),
    }];

    let lines = vec!["# Heading\n"];

    let params = RuleParams {
        name: "test.md",
        version: "0.1.0",
        lines: &lines,
        front_matter_lines: &[],
        tokens: &tokens,
        config: &Config::new(),
        workspace_headings: None,
    };

    let rule = MD041;
    let errors = rule.lint(&params);
    assert_eq!(errors.len(), 0);
}

#[test]
fn test_md041_no_heading() {
    let tokens = vec![];
    let lines = vec!["Just some text\n"];

    let params = RuleParams {
        name: "test.md",
        version: "0.1.0",
        lines: &lines,
        front_matter_lines: &[],
        tokens: &tokens,
        config: &Config::new(),
        workspace_headings: None,
    };

    let rule = MD041;
    let errors = rule.lint(&params);
    assert_eq!(errors.len(), 1);
}

#[test]
fn test_md041_heading_not_first() {
    let tokens = vec![Token {
        token_type: "heading".to_string(),
        start_line: 3,
        start_column: 1,
        end_line: 3,
        end_column: 10,
        text: "# Heading".to_string(),
        children: vec![],
        parent: None,
        metadata: Vec::new(),
    }];

    let lines = vec!["Some text\n", "\n", "# Heading\n"];

    let params = RuleParams {
        name: "test.md",
        version: "0.1.0",
        lines: &lines,
        front_matter_lines: &[],
        tokens: &tokens,
        config: &Config::new(),
        workspace_headings: None,
    };

    let rule = MD041;
    let errors = rule.lint(&params);
    assert_eq!(errors.len(), 1);
}

#[test]
fn test_md041_fix_info_no_heading() {
    let tokens = vec![];
    let lines = vec!["Just some text\n"];

    let params = RuleParams {
        name: "test.md",
        version: "0.1.0",
        lines: &lines,
        front_matter_lines: &[],
        tokens: &tokens,
        config: &Config::new(),
        workspace_headings: None,
    };

    let rule = MD041;
    let errors = rule.lint(&params);
    assert_eq!(errors.len(), 1);
    assert!(errors[0].fix_info.is_some());
    let fix = errors[0].fix_info.as_ref().unwrap();
    assert_eq!(fix.line_number, Some(1));
    assert_eq!(fix.insert_text, Some("# Title\n\n".to_string()));
}

#[test]
fn test_md041_fix_info_heading_not_first() {
    let tokens = vec![Token {
        token_type: "heading".to_string(),
        start_line: 3,
        start_column: 1,
        end_line: 3,
        end_column: 10,
        text: "# Heading".to_string(),
        children: vec![],
        parent: None,
        metadata: Vec::new(),
    }];

    let lines = vec!["Some text\n", "\n", "# Heading\n"];

    let params = RuleParams {
        name: "test.md",
        version: "0.1.0",
        lines: &lines,
        front_matter_lines: &[],
        tokens: &tokens,
        config: &Config::new(),
        workspace_headings: None,
    };

    let rule = MD041;
    let errors = rule.lint(&params);
    assert_eq!(errors.len(), 1);
    assert!(errors[0].fix_info.is_some());
}

