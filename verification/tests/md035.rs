use mdlint::config::{Config, ConfigValue};
use mdlint::rules::md035::MD035;
use mdlint::types::{LintError, RuleParams, Token};

#[test]
fn test_md035_consistent_style() {
    let tokens = vec![
        Token {
            token_type: "thematicBreak".to_string(),
            start_line: 1,
            start_column: 1,
            end_line: 1,
            end_column: 4,
            text: "---".to_string(),
            children: vec![],
            parent: None,
            metadata: Vec::new(),
        },
        Token {
            token_type: "thematicBreak".to_string(),
            start_line: 3,
            start_column: 1,
            end_line: 3,
            end_column: 4,
            text: "---".to_string(),
            children: vec![],
            parent: None,
            metadata: Vec::new(),
        },
    ];

    let lines = vec!["---\n", "\n", "---\n"];

    let params = RuleParams {
        name: "test.md",
        version: "0.1.0",
        lines: &lines,
        front_matter_lines: &[],
        tokens: &tokens,
        config: &Config::new(),
        workspace_headings: None,
    };

    let rule = MD035;
    let errors = rule.lint(&params);
    assert_eq!(errors.len(), 0);
}

#[test]
fn test_md035_inconsistent_style() {
    let tokens = vec![
        Token {
            token_type: "thematicBreak".to_string(),
            start_line: 1,
            start_column: 1,
            end_line: 1,
            end_column: 4,
            text: "---".to_string(),
            children: vec![],
            parent: None,
            metadata: Vec::new(),
        },
        Token {
            token_type: "thematicBreak".to_string(),
            start_line: 3,
            start_column: 1,
            end_line: 3,
            end_column: 4,
            text: "***".to_string(),
            children: vec![],
            parent: None,
            metadata: Vec::new(),
        },
    ];

    let lines = vec!["---\n", "\n", "***\n"];

    let params = RuleParams {
        name: "test.md",
        version: "0.1.0",
        lines: &lines,
        front_matter_lines: &[],
        tokens: &tokens,
        config: &Config::new(),
        workspace_headings: None,
    };

    let rule = MD035;
    let errors = rule.lint(&params);
    assert_eq!(errors.len(), 1);
    assert_eq!(errors[0].line_number, 3);
    assert_eq!(
        errors[0].error_detail,
        Some("Expected: ---; Actual: ***".to_string())
    );
}

#[test]
fn test_md035_specific_style() {
    let tokens = vec![
        Token {
            token_type: "thematicBreak".to_string(),
            start_line: 1,
            start_column: 1,
            end_line: 1,
            end_column: 4,
            text: "---".to_string(),
            children: vec![],
            parent: None,
            metadata: Vec::new(),
        },
        Token {
            token_type: "thematicBreak".to_string(),
            start_line: 3,
            start_column: 1,
            end_line: 3,
            end_column: 4,
            text: "***".to_string(),
            children: vec![],
            parent: None,
            metadata: Vec::new(),
        },
    ];

    let lines = vec!["---\n", "\n", "***\n"];

    let mut config = Config::new();
    config.insert(
        "style".to_string(),
        ConfigValue::Str("***".to_string()),
    );

    let params = RuleParams {
        name: "test.md",
        version: "0.1.0",
        lines: &lines,
        front_matter_lines: &[],
        tokens: &tokens,
        config: &config,
        workspace_headings: None,
    };

    let rule = MD035;
    let errors = rule.lint(&params);
    assert_eq!(errors.len(), 1);
    assert_eq!(errors[0].line_number, 1);
    assert_eq!(
        errors[0].error_detail,
        Some("Expected: ***; Actual: ---".to_string())
    );
}

#[test]
fn test_md035_multiple_inconsistencies() {
    let tokens = vec![
        Token {
            token_type: "thematicBreak".to_string(),
            start_line: 1,
            start_column: 1,
            end_line: 1,
            end_column: 4,
            text: "---".to_string(),
            children: vec![],
            parent: None,
            metadata: Vec::new(),
        },
        Token {
            token_type: "thematicBreak".to_string(),
            start_line: 3,
            start_column: 1,
            end_line: 3,
            end_column: 4,
            text: "***".to_string(),
            children: vec![],
            parent: None,
            metadata: Vec::new(),
        },
        Token {
            token_type: "thematicBreak".to_string(),
            start_line: 5,
            start_column: 1,
            end_line: 5,
            end_column: 6,
            text: "* * *".to_string(),
            children: vec![],
            parent: None,
            metadata: Vec::new(),
        },
    ];

    let lines = vec![
        "---\n",
        "\n",
        "***\n",
        "\n",
        "* * *\n",
    ];

    let params = RuleParams {
        name: "test.md",
        version: "0.1.0",
        lines: &lines,
        front_matter_lines: &[],
        tokens: &tokens,
        config: &Config::new(),
        workspace_headings: None,
    };

    let rule = MD035;
    let errors = rule.lint(&params);
    assert_eq!(errors.len(), 2);
    assert_eq!(errors[0].line_number, 3);
    assert_eq!(errors[1].line_number, 5);
}

#[test]
fn test_md035_no_horizontal_rules() {
    let tokens = vec![];
    let lines = vec!["# Heading\n", "Some text\n"];

    let params = RuleParams {
        name: "test.md",
        version: "0.1.0",
        lines: &lines,
        front_matter_lines: &[],
        tokens: &tokens,
        config: &Config::new(),
        workspace_headings: None,
    };

    let rule = MD035;
    let errors = rule.lint(&params);
    assert_eq!(errors.len(), 0);
}

#[test]
fn test_md035_fix_info() {
    let tokens = vec![
        Token {
            token_type: "thematicBreak".to_string(),
            start_line: 1,
            start_column: 1,
            end_line: 1,
            end_column: 4,
            text: "---".to_string(),
            children: vec![],
            parent: None,
            metadata: Vec::new(),
        },
        Token {
            token_type: "thematicBreak".to_string(),
            start_line: 3,
            start_column: 1,
            end_line: 3,
            end_column: 4,
            text: "***".to_string(),
            children: vec![],
            parent: None,
            metadata: Vec::new(),
        },
    ];

    let lines = vec!["---\n", "\n", "***\n"];

    let params = RuleParams {
        name: "test.md",
        version: "0.1.0",
        lines: &lines,
        front_matter_lines: &[],
        tokens: &tokens,
        config: &Config::new(),
        workspace_headings: None,
    };

    let rule = MD035;
    let errors = rule.lint(&params);
    assert_eq!(errors.len(), 1);

    let fix = errors[0].fix_info.as_ref().expect("Should have fix_info");
    assert_eq!(fix.line_number, Some(3));
    assert_eq!(fix.edit_column, Some(1));
    assert_eq!(fix.delete_count, Some(3));
    assert_eq!(fix.insert_text, Some("---".to_string()));
}

