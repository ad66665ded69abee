use mdlint::config::{Config, ConfigValue};
use mdlint::rules::md032::MD032;
use mdlint::types::{LintError, RuleParams, Token};
use mdlint::rules::md032::{is_blank_line};

fn create_list_token(
    token_type: &str,
    start_line: usize,
    end_line: usize,
    children: Vec<usize>,
) -> Token {
    Token {
        token_type: token_type.to_string(),
        start_line,
        start_column: 1,
        end_line,
        end_column: 10,
        text: String::new(),
        children,
        parent: None,
        metadata: Vec::new(),
    }
}

fn create_list_item_token(
    start_line: usize,
    end_line: usize,
    children: Vec<usize>,
    parent: usize,
) -> Token {
    Token {
        token_type: "listItem".to_string(),
        start_line,
        start_column: 1,
        end_line,
        end_column: 10,
        text: String::new(),
        children,
        parent: Some(parent),
        metadata: Vec::new(),
    }
}

#[test]
fn test_is_blank_line() {
    assert!(is_blank_line(""));
    assert!(is_blank_line("   "));
    assert!(is_blank_line("\t\t"));
    assert!(is_blank_line("<!-- comment -->"));
    assert!(!is_blank_line("text"));
    assert!(!is_blank_line("  text  "));
}

#[test]
fn test_md032_valid_blank_lines() {
    let lines = vec![
        "# Heading\n",
        "\n",
        "- Item 1\n",
        "- Item 2\n",
        "\n",
        "Paragraph\n",
    ];

    let tokens = vec![
        create_list_token("listUnordered", 3, 4, vec![1, 2]),
        create_list_item_token(3, 3, vec![], 0),
        create_list_item_token(4, 4, vec![], 0),
    ];

    let params = RuleParams {
        name: "test.md",
        version: "0.1.0",
        lines: &lines,
        front_matter_lines: &[],
        tokens: &tokens,
        config: &Config::new(),
        workspace_headings: None,
    };

    let rule = MD032;
    let errors = rule.lint(&params);
    assert_eq!(errors.len(), 0);
}

#[test]
fn test_md032_missing_blank_before() {
    let lines = vec!["# Heading\n", "- Item 1\n", "- Item 2\n", "\n"];

    let tokens = vec![
        create_list_token("listUnordered", 2, 3, vec![1, 2]),
        create_list_item_token(2, 2, vec![], 0),
        create_list_item_token(3, 3, vec![], 0),
    ];

    let params = RuleParams {
        name: "test.md",
        version: "0.1.0",
        lines: &lines,
        front_matter_lines: &[],
        tokens: &tokens,
        config: &Config::new(),
        workspace_headings: None,
    };

    let rule = MD032;
    let errors = rule.lint(&params);
    assert_eq!(errors.len(), 1);
    assert_eq!(errors[0].line_number, 2);
}

#[test]
fn test_md032_missing_blank_after() {
    let lines = vec!["\n", "- Item 1\n", "- Item 2\n", "Paragraph\n"];

    let tokens = vec![
        create_list_token("listUnordered", 2, 3, vec![1, 2]),
        create_list_item_token(2, 2, vec![], 0),
        create_list_item_token(3, 3, vec![], 0),
    ];

    let params = RuleParams {
        name: "test.md",
        version: "0.1.0",
        lines: &lines,
        front_matter_lines: &[],
        tokens: &tokens,
        config: &Config::new(),
        workspace_headings: None,
    };

    let rule = MD032;
    let errors = rule.lint(&params);
    assert_eq!(errors.len(), 1);
    assert_eq!(errors[0].line_number, 3);
}

#[test]
fn test_md032_ordered_list() {
    let lines = vec!["Paragraph\n", "1. Item 1\n", "2. Item 2\n", "More text\n"];

    let tokens = vec![
        create_list_token("listOrdered", 2, 3, vec![1, 2]),
        create_list_item_token(2, 2, vec![], 0),
        create_list_item_token(3, 3, vec![], 0),
    ];

    let params = RuleParams {
        name: "test.md",
        version: "0.1.0",
        lines: &lines,
        front_matter_lines: &[],
        tokens: &tokens,
        config: &Config::new(),
        workspace_headings: None,
    };

    let rule = MD032;
    let errors = rule.lint(&params);
    // Should find errors for missing blanks before and after
    assert_eq!(errors.len(), 2);
}

#[test]
fn test_md032_at_start_of_file() {
    let lines = vec!["- Item 1\n", "- Item 2\n", "\n"];

    let tokens = vec![
        create_list_token("listUnordered", 1, 2, vec![1, 2]),
        create_list_item_token(1, 1, vec![], 0),
        create_list_item_token(2, 2, vec![], 0),
    ];

    let params = RuleParams {
        name: "test.md",
        version: "0.1.0",
        lines: &lines,
        front_matter_lines: &[],
        tokens: &tokens,
        config: &Config::new(),
        workspace_headings: None,
    };

    let rule = MD032;
    let errors = rule.lint(&params);
    // No error for missing blank before when at start of file
    assert_eq!(errors.len(), 0);
}

#[test]
fn test_md032_at_end_of_file() {
    let lines = vec!["\n", "- Item 1\n", "- Item 2\n"];

    let tokens = vec![
        create_list_token("listUnordered", 2, 3, vec![1, 2]),
        create_list_item_token(2, 2, vec![], 0),
        create_list_item_token(3, 3, vec![], 0),
    ];

    let params = RuleParams {
        name: "test.md",
        version: "0.1.0",
        lines: &lines,
        front_matter_lines: &[],
        tokens: &tokens,
        config: &Config::new(),
        workspace_headings: None,
    };

    let rule = MD032;
    let errors = rule.lint(&params);
    // No error for missing blank after when at end of file
    assert_eq!(errors.len(), 0);
}


#[test]
fn md032_nested_list_not_checked_on_its_own() {
    let lines = vec!["- a\n", "  - b\n", "\n"];
    let tokens = vec![
        create_list_token("listUnordered", 1, 2, vec![1]),
        create_list_item_token(1, 2, vec![2], 0),
        Token {
            token_type: "listUnordered".to_string(),
            start_line: 2,
            start_column: 3,
            end_line: 2,
            end_column: 10,
            text: String::new(),
            children: vec![3],
            parent: Some(1),
            metadata: Vec::new(),
        },
        create_list_item_token(2, 2, vec![], 2),
    ];
    let config = Config::new();
    let params = RuleParams {
        name: "test.md",
        version: "0.1.0",
        lines: &lines,
        front_matter_lines: &[],
        tokens: &tokens,
        config: &config,
        workspace_headings: None,
    };
    let errors = MD032.lint(&params);
    assert!(errors.is_empty());
}
