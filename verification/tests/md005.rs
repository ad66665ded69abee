use mdlint::config::{Config, ConfigValue};
use mdlint::rules::md005::MD005;
use mdlint::types::{LintError, RuleParams, Token};

fn create_list_token(
    token_type: &str,
    start_line: usize,
    start_column: usize,
    children: Vec<usize>,
) -> Token {
    Token {
        token_type: token_type.to_string(),
        start_line,
        start_column,
        end_line: start_line,
        end_column: start_column + 10,
        text: String::new(),
        children,
        parent: None,
        metadata: Vec::new(),
    }
}

fn create_list_item_prefix(
    start_line: usize,
    start_column: usize,
    end_column: usize,
    text: &str,
    parent: usize,
) -> Token {
    Token {
        token_type: "listItemPrefix".to_string(),
        start_line,
        start_column,
        end_line: start_line,
        end_column,
        text: text.to_string(),
        children: vec![],
        parent: Some(parent),
        metadata: Vec::new(),
    }
}

#[test]
fn test_md005_unordered_list_consistent() {
    let tokens = vec![
        create_list_token("listUnordered", 1, 1, vec![1, 2, 3]),
        create_list_item_prefix(1, 1, 3, "- ", 0),
        create_list_item_prefix(2, 1, 3, "- ", 0),
        create_list_item_prefix(3, 1, 3, "- ", 0),
    ];

    let lines = vec!["- Item 1\n", "- Item 2\n", "- Item 3\n"];

    let params = RuleParams {
        name: "test.md",
        version: "0.1.0",
        lines: &lines,
        front_matter_lines: &[],
        tokens: &tokens,
        config: &Config::new(),
        workspace_headings: None,
    };

    let rule = MD005;
    let errors = rule.lint(&params);
    assert_eq!(errors.len(), 0);
}

#[test]
fn test_md005_unordered_list_inconsistent() {
    let tokens = vec![
        create_list_token("listUnordered", 1, 1, vec![1, 2, 3]),
        create_list_item_prefix(1, 1, 3, "- ", 0),
        create_list_item_prefix(2, 2, 4, "- ", 0), // Indented incorrectly
        create_list_item_prefix(3, 1, 3, "- ", 0),
    ];

    let lines = vec![
        "- Item 1\n",
        " - Item 2\n", // Extra space
        "- Item 3\n",
    ];

    let params = RuleParams {
        name: "test.md",
        version: "0.1.0",
        lines: &lines,
        front_matter_lines: &[],
        tokens: &tokens,
        config: &Config::new(),
        workspace_headings: None,
    };

    let rule = MD005;
    let errors = rule.lint(&params);
    assert_eq!(errors.len(), 1);
    assert_eq!(errors[0].line_number, 2);
    assert!(errors[0].error_detail.is_some());
    assert!(
        errors[0]
            .error_detail
            .as_ref()
            .unwrap()
            .contains("Expected: 0; Actual: 1")
    );
}

#[test]
fn test_md005_ordered_list_consistent() {
    let tokens = vec![
        create_list_token("listOrdered", 1, 1, vec![1, 2, 3]),
        create_list_item_prefix(1, 1, 4, "1. ", 0),
        create_list_item_prefix(2, 1, 4, "2. ", 0),
        create_list_item_prefix(3, 1, 4, "3. ", 0),
    ];

    let lines = vec!["1. Item 1\n", "2. Item 2\n", "3. Item 3\n"];

    let params = RuleParams {
        name: "test.md",
        version: "0.1.0",
        lines: &lines,
        front_matter_lines: &[],
        tokens: &tokens,
        config: &Config::new(),
        workspace_headings: None,
    };

    let rule = MD005;
    let errors = rule.lint(&params);
    assert_eq!(errors.len(), 0);
}

#[test]
fn test_md005_ordered_list_right_aligned() {
    let tokens = vec![
        create_list_token("listOrdered", 1, 2, vec![1, 2, 3, 4]),
        create_list_item_prefix(1, 2, 5, " 1. ", 0),
        create_list_item_prefix(2, 2, 5, " 2. ", 0),
        create_list_item_prefix(3, 2, 5, " 9. ", 0),
        create_list_item_prefix(4, 1, 5, "10. ", 0), // Right-aligned with above
    ];

    let lines = vec![
        " 1. Item 1\n",
        " 2. Item 2\n",
        " 9. Item 9\n",
        "10. Item 10\n",
    ];

    let params = RuleParams {
        name: "test.md",
        version: "0.1.0",
        lines: &lines,
        front_matter_lines: &[],
        tokens: &tokens,
        config: &Config::new(),
        workspace_headings: None,
    };

    let rule = MD005;
    let errors = rule.lint(&params);
    assert_eq!(errors.len(), 0);
}

#[test]
fn test_md005_ordered_list_inconsistent() {
    let tokens = vec![
        create_list_token("listOrdered", 1, 3, vec![1, 2, 3]),
        create_list_item_prefix(1, 3, 6, "1. ", 0),
        create_list_item_prefix(2, 2, 5, "2. ", 0), // Wrong indent
        create_list_item_prefix(3, 3, 6, "3. ", 0),
    ];

    let lines = vec![
        "  1. Item 1\n",
        " 2. Item 2\n", // Less indented
        "  3. Item 3\n",
    ];

    let params = RuleParams {
        name: "test.md",
        version: "0.1.0",
        lines: &lines,
        front_matter_lines: &[],
        tokens: &tokens,
        config: &Config::new(),
        workspace_headings: None,
    };

    let rule = MD005;
    let errors = rule.lint(&params);
    assert_eq!(errors.len(), 1);
    assert_eq!(errors[0].line_number, 2);
    assert!(errors[0].fix_info.is_some());
}

#[test]
fn test_md005_empty_list() {
    let tokens = vec![create_list_token("listUnordered", 1, 1, vec![])];

    let lines = vec![""];

    let params = RuleParams {
        name: "test.md",
        version: "0.1.0",
        lines: &lines,
        front_matter_lines: &[],
        tokens: &tokens,
        config: &Config::new(),
        workspace_headings: None,
    };

    let rule = MD005;
    let errors = rule.lint(&params);
    assert_eq!(errors.len(), 0);
}

#[test]
fn test_md005_ordered_list_with_fix_info() {
    let tokens = vec![
        create_list_token("listOrdered", 1, 3, vec![1, 2]),
        create_list_item_prefix(1, 3, 6, "1. ", 0),
        create_list_item_prefix(2, 2, 5, "2. ", 0), // One space less
    ];

    let lines = vec!["  1. Item 1\n", " 2. Item 2\n"];

    let params = RuleParams {
        name: "test.md",
        version: "0.1.0",
        lines: &lines,
        front_matter_lines: &[],
        tokens: &tokens,
        config: &Config::new(),
        workspace_headings: None,
    };

    let rule = MD005;
    let errors = rule.lint(&params);
    assert_eq!(errors.len(), 1);

    let fix_info = errors[0].fix_info.as_ref().unwrap();
    assert_eq!(fix_info.edit_column, Some(2)); // Min of actual and expected + 1
    assert_eq!(fix_info.delete_count, Some(0));
    assert_eq!(fix_info.insert_text, Some(" ".to_string())); // Insert one space
}

