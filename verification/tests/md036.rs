use mdlint::config::{Config, ConfigValue};
use mdlint::rules::md036::MD036;
use mdlint::types::{LintError, RuleParams, Token};

fn create_token(
    token_type: &str,
    start_line: usize,
    text: &str,
    children: Vec<usize>,
    parent: Option<usize>,
) -> Token {
    Token {
        token_type: token_type.to_string(),
        start_line,
        start_column: 1,
        end_line: start_line,
        end_column: text.len(),
        text: text.to_string(),
        children,
        parent,
        metadata: Vec::new(),
    }
}

#[test]
fn test_md036_emphasis_as_heading() {
    // Create a simple token structure:
    // content (0) -> paragraph (1) -> emphasis (2) -> emphasisText (3) -> data (4)
    let mut tokens = vec![
        create_token("content", 1, "", vec![1], None),
        create_token("paragraph", 1, "", vec![2], Some(0)),
        create_token("emphasis", 1, "", vec![3], Some(1)),
        create_token("emphasisText", 1, "Heading", vec![4], Some(2)),
        create_token("data", 1, "Heading", vec![], Some(3)),
    ];
    // Set proper column positions for emphasis token
    tokens[2].start_column = 1;
    tokens[2].end_column = 10;

    let lines = vec!["_Heading_\n"];

    let params = RuleParams {
        name: "test.md",
        version: "0.1.0",
        lines: &lines,
        front_matter_lines: &[],
        tokens: &tokens,
        config: &Config::new(),
        workspace_headings: None,
    };

    let rule = MD036;
    let errors = rule.lint(&params);
    assert_eq!(errors.len(), 1);
    assert_eq!(errors[0].line_number, 1);
    assert_eq!(errors[0].error_context, Some("Heading".to_string()));
}

#[test]
fn test_md036_strong_as_heading() {
    // Create a simple token structure:
    // content (0) -> paragraph (1) -> strong (2) -> strongText (3) -> data (4)
    let mut tokens = vec![
        create_token("content", 1, "", vec![1], None),
        create_token("paragraph", 1, "", vec![2], Some(0)),
        create_token("strong", 1, "", vec![3], Some(1)),
        create_token("strongText", 1, "Heading", vec![4], Some(2)),
        create_token("data", 1, "Heading", vec![], Some(3)),
    ];
    // Set proper column positions for strong token
    tokens[2].start_column = 1;
    tokens[2].end_column = 13;

    let lines = vec!["**Heading**\n"];

    let params = RuleParams {
        name: "test.md",
        version: "0.1.0",
        lines: &lines,
        front_matter_lines: &[],
        tokens: &tokens,
        config: &Config::new(),
        workspace_headings: None,
    };

    let rule = MD036;
    let errors = rule.lint(&params);
    assert_eq!(errors.len(), 1);
    assert_eq!(errors[0].line_number, 1);
}

#[test]
fn test_md036_with_punctuation() {
    // Emphasis with punctuation should NOT trigger
    let tokens = vec![
        create_token("content", 1, "", vec![1], None),
        create_token("paragraph", 1, "", vec![2], Some(0)),
        create_token("emphasis", 1, "", vec![3], Some(1)),
        create_token("emphasisText", 1, "Not a heading.", vec![4], Some(2)),
        create_token("data", 1, "Not a heading.", vec![], Some(3)),
    ];

    let lines = vec!["_Not a heading._\n"];

    let params = RuleParams {
        name: "test.md",
        version: "0.1.0",
        lines: &lines,
        front_matter_lines: &[],
        tokens: &tokens,
        config: &Config::new(),
        workspace_headings: None,
    };

    let rule = MD036;
    let errors = rule.lint(&params);
    assert_eq!(errors.len(), 0);
}

#[test]
fn test_md036_normal_text() {
    // Regular paragraph should not trigger
    let tokens = vec![
        create_token("content", 1, "", vec![1], None),
        create_token("paragraph", 1, "", vec![2], Some(0)),
        create_token("data", 1, "Normal text", vec![], Some(1)),
    ];

    let lines = vec!["Normal text\n"];

    let params = RuleParams {
        name: "test.md",
        version: "0.1.0",
        lines: &lines,
        front_matter_lines: &[],
        tokens: &tokens,
        config: &Config::new(),
        workspace_headings: None,
    };

    let rule = MD036;
    let errors = rule.lint(&params);
    assert_eq!(errors.len(), 0);
}

#[test]
fn test_md036_fix_emphasis_to_heading() {
    // Create token structure with proper parent relationships
    // emphasis (2) is parent of emphasisText (3)
    let mut tokens = vec![
        create_token("content", 1, "", vec![1], None),
        create_token("paragraph", 1, "", vec![2], Some(0)),
        create_token("emphasis", 1, "", vec![3], Some(1)),
        create_token("emphasisText", 1, "Heading", vec![4], Some(2)),
        create_token("data", 1, "Heading", vec![], Some(3)),
    ];
    // Set proper column positions for emphasis token (includes markers)
    tokens[2].start_column = 1;
    tokens[2].end_column = 10; // "_Heading_" = 9 chars + 1 for end position

    let lines = vec!["_Heading_\n"];

    let params = RuleParams {
        name: "test.md",
        version: "0.1.0",
        lines: &lines,
        front_matter_lines: &[],
        tokens: &tokens,
        config: &Config::new(),
        workspace_headings: None,
    };

    let rule = MD036;
    let errors = rule.lint(&params);
    assert_eq!(errors.len(), 1);
    let fix = errors[0].fix_info.as_ref().unwrap();
    assert_eq!(fix.edit_column, Some(1));
    assert_eq!(fix.delete_count, Some(9)); // Full length
    assert_eq!(fix.insert_text, Some("## Heading".to_string()));
}

#[test]
fn test_md036_fix_strong_to_heading() {
    // Create token structure with proper parent relationships
    let mut tokens = vec![
        create_token("content", 1, "", vec![1], None),
        create_token("paragraph", 1, "", vec![2], Some(0)),
        create_token("strong", 1, "", vec![3], Some(1)),
        create_token("strongText", 1, "Heading", vec![4], Some(2)),
        create_token("data", 1, "Heading", vec![], Some(3)),
    ];
    // Set proper column positions for strong token (includes markers)
    tokens[2].start_column = 1;
    tokens[2].end_column = 13; // "**Heading**" = 11 chars + 1 for end position

    let lines = vec!["**Heading**\n"];

    let params = RuleParams {
        name: "test.md",
        version: "0.1.0",
        lines: &lines,
        front_matter_lines: &[],
        tokens: &tokens,
        config: &Config::new(),
        workspace_headings: None,
    };

    let rule = MD036;
    let errors = rule.lint(&params);
    assert_eq!(errors.len(), 1);
    let fix = errors[0].fix_info.as_ref().unwrap();
    assert_eq!(fix.edit_column, Some(1));
    assert_eq!(fix.delete_count, Some(12)); // Full length
    assert_eq!(fix.insert_text, Some("## Heading".to_string()));
}


#[test]
fn md036_checked_entry_refuses_backward_span() {
    let mut tokens = vec![
        create_token("content", 1, "", vec![1], None),
        create_token("paragraph", 1, "", vec![2], Some(0)),
        create_token("emphasis", 1, "", vec![3], Some(1)),
        create_token("emphasisText", 1, "Heading", vec![4], Some(2)),
        create_token("data", 1, "Heading", vec![], Some(3)),
    ];
    tokens[2].start_column = 10;
    tokens[2].end_column = 1;
    let lines = vec!["_Heading_\n"];
    let config = Config::new();
    let params = RuleParams {
        name: "test.md",
        version: "0.1.0",
        lines: &lines,
        front_matter_lines: &[],
        tokens: &tokens,
        config: &config,
        workspace_headings: None,
    };
    assert!(MD036.lint_checked(&params).is_none());

    tokens[2].start_column = 1;
    tokens[2].end_column = 10;
    let params = RuleParams {
        name: "test.md",
        version: "0.1.0",
        lines: &lines,
        front_matter_lines: &[],
        tokens: &tokens,
        config: &config,
        workspace_headings: None,
    };
    let errors = MD036.lint_checked(&params).unwrap();
    assert_eq!(errors.len(), 1);
    let fix = errors[0].fix_info.as_ref().unwrap();
    assert_eq!(fix.delete_count, Some(9));
}
