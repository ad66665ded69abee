use mdlint::config::{Config, ConfigValue};
use mdlint::rules::md030::MD030;
use mdlint::types::{LintError, RuleParams, Token};

fn create_list_token(
    token_type: &str,
    start_line: usize,
    end_line: usize,
    children: Vec<usize>,
) -> Token {
    Token {
        token_type: token_type.to_string(),
        start_line,
        start_column: 1,
        end_line,
        end_column: 1,
        text: String::new(),
        children,
        parent: None,
        metadata: Vec::new(),
    }
}

fn create_list_item_token(
    start_line: usize,
    end_line: usize,
    children: Vec<usize>,
    parent: Option<usize>,
) -> Token {
    Token {
        token_type: "listItem".to_string(),
        start_line,
        start_column: 1,
        end_line,
        end_column: 1,
        text: String::new(),
        children,
        parent,
        metadata: Vec::new(),
    }
}

fn create_list_item_prefix_token(
    line: usize,
    start_col: usize,
    end_col: usize,
    children: Vec<usize>,
    parent: Option<usize>,
) -> Token {
    Token {
        token_type: "listItemPrefix".to_string(),
        start_line: line,
        start_column: start_col,
        end_line: line,
        end_column: end_col,
        text: String::new(),
        children,
        parent,
        metadata: Vec::new(),
    }
}

fn create_whitespace_token(
    line: usize,
    start_col: usize,
    end_col: usize,
    parent: Option<usize>,
) -> Token {
    Token {
        token_type: "listItemPrefixWhitespace".to_string(),
        start_line: line,
        start_column: start_col,
        end_line: line,
        end_column: end_col,
        text: String::new(),
        children: vec![],
        parent,
        metadata: Vec::new(),
    }
}

#[test]
fn test_md030_single_space_correct() {
    // - Item (1 space after marker)
    let tokens = vec![
        create_list_token("listUnordered", 1, 1, vec![1]), // 0: list
        create_list_item_token(1, 1, vec![2], Some(0)),    // 1: listItem
        create_list_item_prefix_token(1, 1, 3, vec![3], Some(1)), // 2: listItemPrefix "- "
        create_whitespace_token(1, 2, 3, Some(2)),         // 3: whitespace (1 space)
    ];

    let lines = vec!["- Item\n"];

    let params = RuleParams {
        name: "test.md",
        version: "0.1.0",
        lines: &lines,
        front_matter_lines: &[],
        tokens: &tokens,
        config: &Config::new(),
        workspace_headings: None,
    };

    let rule = MD030;
    let errors = rule.lint(&params);
    assert_eq!(errors.len(), 0);
}

#[test]
fn test_md030_two_spaces_violation() {
    // -  Item (2 spaces after marker, expected 1)
    let tokens = vec![
        create_list_token("listUnordered", 1, 1, vec![1]), // 0: list
        create_list_item_token(1, 1, vec![2], Some(0)),    // 1: listItem
        create_list_item_prefix_token(1, 1, 4, vec![3], Some(1)), // 2: listItemPrefix "-  "
        create_whitespace_token(1, 2, 4, Some(2)),         // 3: whitespace (2 spaces)
    ];

    let lines = vec!["-  Item\n"];

    let params = RuleParams {
        name: "test.md",
        version: "0.1.0",
        lines: &lines,
        front_matter_lines: &[],
        tokens: &tokens,
        config: &Config::new(),
        workspace_headings: None,
    };

    let rule = MD030;
    let errors = rule.lint(&params);
    assert_eq!(errors.len(), 1);
    assert_eq!(errors[0].line_number, 1);
    assert!(
        errors[0]
            .error_detail
            .as_ref()
            .unwrap()
            .contains("Expected: 1; Actual: 2")
    );
}

#[test]
fn test_md030_ordered_list_single_space() {
    // 1. Item (1 space after marker)
    let tokens = vec![
        create_list_token("listOrdered", 1, 1, vec![1]), // 0: list
        create_list_item_token(1, 1, vec![2], Some(0)),  // 1: listItem
        create_list_item_prefix_token(1, 1, 4, vec![3], Some(1)), // 2: listItemPrefix "1. "
        create_whitespace_token(1, 3, 4, Some(2)),       // 3: whitespace (1 space)
    ];

    let lines = vec!["1. Item\n"];

    let params = RuleParams {
        name: "test.md",
        version: "0.1.0",
        lines: &lines,
        front_matter_lines: &[],
        tokens: &tokens,
        config: &Config::new(),
        workspace_headings: None,
    };

    let rule = MD030;
    let errors = rule.lint(&params);
    assert_eq!(errors.len(), 0);
}

#[test]
fn test_md030_ordered_list_two_spaces_violation() {
    // 1.  Item (2 spaces after marker, expected 1)
    let tokens = vec![
        create_list_token("listOrdered", 1, 1, vec![1]), // 0: list
        create_list_item_token(1, 1, vec![2], Some(0)),  // 1: listItem
        create_list_item_prefix_token(1, 1, 5, vec![3], Some(1)), // 2: listItemPrefix "1.  "
        create_whitespace_token(1, 3, 5, Some(2)),       // 3: whitespace (2 spaces)
    ];

    let lines = vec!["1.  Item\n"];

    let params = RuleParams {
        name: "test.md",
        version: "0.1.0",
        lines: &lines,
        front_matter_lines: &[],
        tokens: &tokens,
        config: &Config::new(),
        workspace_headings: None,
    };

    let rule = MD030;
    let errors = rule.lint(&params);
    assert_eq!(errors.len(), 1);
    assert_eq!(errors[0].line_number, 1);
    assert!(
        errors[0]
            .error_detail
            .as_ref()
            .unwrap()
            .contains("Expected: 1; Actual: 2")
    );
}

#[test]
fn test_md030_multi_line_config() {
    // Multi-line list with ul_multi = 3
    let tokens = vec![
        create_list_token("listUnordered", 1, 3, vec![1, 4]), // 0: list
        create_list_item_token(1, 2, vec![2], Some(0)),       // 1: listItem
        create_list_item_prefix_token(1, 1, 5, vec![3], Some(1)), // 2: listItemPrefix "-   "
        create_whitespace_token(1, 2, 5, Some(2)),            // 3: whitespace (3 spaces)
        create_list_item_token(3, 3, vec![5], Some(0)),       // 4: listItem
        create_list_item_prefix_token(3, 1, 5, vec![6], Some(4)), // 5: listItemPrefix "-   "
        create_whitespace_token(3, 2, 5, Some(5)),            // 6: whitespace (3 spaces)
    ];

    let lines = vec![
        "-   Item 1\n",
        "    Paragraph 2\n",
        "-   Item 2\n",
    ];

    let mut config = Config::new();
    config.insert("ul_multi".to_string(), ConfigValue::UInt(3));

    let params = RuleParams {
        name: "test.md",
        version: "0.1.0",
        lines: &lines,
        front_matter_lines: &[],
        tokens: &tokens,
        config: &config,
        workspace_headings: None,
    };

    let rule = MD030;
    let errors = rule.lint(&params);
    // Should not error since it's multi-line and we configured ul_multi to 3
    assert_eq!(errors.len(), 0);
}

