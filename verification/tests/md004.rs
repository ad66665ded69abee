use mdlint::config::{Config, ConfigValue};
use mdlint::rules::md004::MD004;
use mdlint::types::{LintError, RuleParams, Token};
use mdlint::rules::md004::{get_list_marker};

fn create_list_item_token(line: usize) -> Token {
    Token {
        token_type: "listItem".to_string(),
        start_line: line,
        start_column: 1,
        end_line: line,
        end_column: 10,
        text: String::new(),
        children: vec![],
        parent: None,
        metadata: Vec::new(),
    }
}

#[test]
fn test_md004_consistent_asterisk() {
    let tokens = vec![
        create_list_item_token(1),
        create_list_item_token(2),
        create_list_item_token(3),
    ];

    let lines = vec![
        "* Item 1\n",
        "* Item 2\n",
        "* Item 3\n",
    ];

    let params = RuleParams {
        name: "test.md",
        version: "0.1.0",
        lines: &lines,
        front_matter_lines: &[],
        tokens: &tokens,
        config: &Config::new(),
        workspace_headings: None,
    };

    let rule = MD004;
    let errors = rule.lint(&params);
    assert_eq!(errors.len(), 0);
}

#[test]
fn test_md004_consistent_dash() {
    let tokens = vec![
        create_list_item_token(1),
        create_list_item_token(2),
        create_list_item_token(3),
    ];

    let lines = vec![
        "- Item 1\n",
        "- Item 2\n",
        "- Item 3\n",
    ];

    let params = RuleParams {
        name: "test.md",
        version: "0.1.0",
        lines: &lines,
        front_matter_lines: &[],
        tokens: &tokens,
        config: &Config::new(),
        workspace_headings: None,
    };

    let rule = MD004;
    let errors = rule.lint(&params);
    assert_eq!(errors.len(), 0);
}

#[test]
fn test_md004_inconsistent_markers() {
    let tokens = vec![
        create_list_item_token(1),
        create_list_item_token(2),
        create_list_item_token(3),
    ];

    let lines = vec![
        "* Item 1\n",
        "- Item 2\n",
        "+ Item 3\n",
    ];

    let params = RuleParams {
        name: "test.md",
        version: "0.1.0",
        lines: &lines,
        front_matter_lines: &[],
        tokens: &tokens,
        config: &Config::new(),
        workspace_headings: None,
    };

    let rule = MD004;
    let errors = rule.lint(&params);
    // First item sets the style, so items 2 and 3 should error
    assert_eq!(errors.len(), 2);
    assert_eq!(errors[0].line_number, 2);
    assert_eq!(errors[1].line_number, 3);
}

#[test]
fn test_md004_style_dash() {
    let mut config = Config::new();
    config.insert(
        "style".to_string(),
        ConfigValue::Str("dash".to_string()),
    );

    let tokens = vec![create_list_item_token(1), create_list_item_token(2)];

    let lines = vec!["* Item 1\n", "- Item 2\n"];

    let params = RuleParams {
        name: "test.md",
        version: "0.1.0",
        lines: &lines,
        front_matter_lines: &[],
        tokens: &tokens,
        config: &config,
        workspace_headings: None,
    };

    let rule = MD004;
    let errors = rule.lint(&params);
    // Item 1 should error (asterisk instead of dash)
    assert_eq!(errors.len(), 1);
    assert_eq!(errors[0].line_number, 1);
    assert!(errors[0].error_detail.as_ref().unwrap().contains("dash"));
}

#[test]
fn test_md004_style_asterisk() {
    let mut config = Config::new();
    config.insert(
        "style".to_string(),
        ConfigValue::Str("asterisk".to_string()),
    );

    let tokens = vec![create_list_item_token(1), create_list_item_token(2)];

    let lines = vec!["- Item 1\n", "- Item 2\n"];

    let params = RuleParams {
        name: "test.md",
        version: "0.1.0",
        lines: &lines,
        front_matter_lines: &[],
        tokens: &tokens,
        config: &config,
        workspace_headings: None,
    };

    let rule = MD004;
    let errors = rule.lint(&params);
    // Both items should error
    assert_eq!(errors.len(), 2);
}

#[test]
fn test_md004_style_plus() {
    let mut config = Config::new();
    config.insert(
        "style".to_string(),
        ConfigValue::Str("plus".to_string()),
    );

    let tokens = vec![create_list_item_token(1), create_list_item_token(2)];

    let lines = vec!["+ Item 1\n", "+ Item 2\n"];

    let params = RuleParams {
        name: "test.md",
        version: "0.1.0",
        lines: &lines,
        front_matter_lines: &[],
        tokens: &tokens,
        config: &config,
        workspace_headings: None,
    };

    let rule = MD004;
    let errors = rule.lint(&params);
    assert_eq!(errors.len(), 0);
}

#[test]
fn test_get_list_marker() {
    assert_eq!(get_list_marker("* Item"), Some('*'));
    assert_eq!(get_list_marker("- Item"), Some('-'));
    assert_eq!(get_list_marker("+ Item"), Some('+'));
    assert_eq!(get_list_marker("  * Indented"), Some('*'));
    assert_eq!(get_list_marker("Not a list"), None);
    assert_eq!(get_list_marker("1. Ordered list"), None);
}

