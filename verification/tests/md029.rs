use mdlint::config::{Config, ConfigValue};
use mdlint::rules::md029::MD029;
use mdlint::types::{LintError, RuleParams, Token};
use mdlint::rules::md029::{get_ordered_list_value};

fn create_list_item_token(line: usize, parent: Option<usize>) -> Token {
    Token {
        token_type: "listItem".to_string(),
        start_line: line,
        start_column: 1,
        end_line: line,
        end_column: 10,
        text: String::new(),
        children: vec![],
        parent,
        metadata: Vec::new(),
    }
}

fn create_list_token(line: usize, children: Vec<usize>) -> Token {
    Token {
        token_type: "list".to_string(),
        start_line: line,
        start_column: 1,
        end_line: line + 2,
        end_column: 1,
        text: String::new(),
        children,
        parent: None,
        metadata: Vec::new(),
    }
}

#[test]
fn test_md029_consistent_one() {
    let lines = vec![
        "1. Item 1\n",
        "1. Item 2\n",
        "1. Item 3\n",
    ];

    let tokens = vec![
        create_list_token(1, vec![1, 2, 3]),
        create_list_item_token(1, Some(0)),
        create_list_item_token(2, Some(0)),
        create_list_item_token(3, Some(0)),
    ];

    let params = RuleParams {
        name: "test.md",
        version: "0.1.0",
        lines: &lines,
        front_matter_lines: &[],
        tokens: &tokens,
        config: &Config::new(),
        workspace_headings: None,
    };

    let rule = MD029;
    let errors = rule.lint(&params);
    assert_eq!(errors.len(), 0);
}

#[test]
fn test_md029_consistent_ordered() {
    let lines = vec![
        "1. Item 1\n",
        "2. Item 2\n",
        "3. Item 3\n",
    ];

    let tokens = vec![
        create_list_token(1, vec![1, 2, 3]),
        create_list_item_token(1, Some(0)),
        create_list_item_token(2, Some(0)),
        create_list_item_token(3, Some(0)),
    ];

    let params = RuleParams {
        name: "test.md",
        version: "0.1.0",
        lines: &lines,
        front_matter_lines: &[],
        tokens: &tokens,
        config: &Config::new(),
        workspace_headings: None,
    };

    let rule = MD029;
    let errors = rule.lint(&params);
    assert_eq!(errors.len(), 0);
}

#[test]
fn test_md029_inconsistent_mixed() {
    let lines = vec![
        "1. Item 1\n",
        "1. Item 2\n",
        "2. Item 3\n", // Should be 1
    ];

    let tokens = vec![
        create_list_token(1, vec![1, 2, 3]),
        create_list_item_token(1, Some(0)),
        create_list_item_token(2, Some(0)),
        create_list_item_token(3, Some(0)),
    ];

    let params = RuleParams {
        name: "test.md",
        version: "0.1.0",
        lines: &lines,
        front_matter_lines: &[],
        tokens: &tokens,
        config: &Config::new(),
        workspace_headings: None,
    };

    let rule = MD029;
    let errors = rule.lint(&params);
    assert_eq!(errors.len(), 1);
    assert_eq!(errors[0].line_number, 3);
    assert!(
        errors[0]
            .error_detail
            .as_ref()
            .unwrap()
            .contains("Expected: 1")
    );
}

#[test]
fn test_md029_style_ordered() {
    let lines = vec![
        "1. Item 1\n",
        "1. Item 2\n", // Should be 2
        "1. Item 3\n", // Should be 3
    ];

    let mut config = Config::new();
    config.insert("style".to_string(), ConfigValue::Str("ordered".to_string()));

    let tokens = vec![
        create_list_token(1, vec![1, 2, 3]),
        create_list_item_token(1, Some(0)),
        create_list_item_token(2, Some(0)),
        create_list_item_token(3, Some(0)),
    ];

    let params = RuleParams {
        name: "test.md",
        version: "0.1.0",
        lines: &lines,
        front_matter_lines: &[],
        tokens: &tokens,
        config: &config,
        workspace_headings: None,
    };

    let rule = MD029;
    let errors = rule.lint(&params);
    assert_eq!(errors.len(), 2);
    assert_eq!(errors[0].line_number, 2);
    assert_eq!(errors[1].line_number, 3);
}

#[test]
fn test_md029_style_one() {
    let lines = vec![
        "1. Item 1\n",
        "2. Item 2\n", // Should be 1
        "3. Item 3\n", // Should be 1
    ];

    let mut config = Config::new();
    config.insert("style".to_string(), ConfigValue::Str("one".to_string()));

    let tokens = vec![
        create_list_token(1, vec![1, 2, 3]),
        create_list_item_token(1, Some(0)),
        create_list_item_token(2, Some(0)),
        create_list_item_token(3, Some(0)),
    ];

    let params = RuleParams {
        name: "test.md",
        version: "0.1.0",
        lines: &lines,
        front_matter_lines: &[],
        tokens: &tokens,
        config: &config,
        workspace_headings: None,
    };

    let rule = MD029;
    let errors = rule.lint(&params);
    assert_eq!(errors.len(), 2);
    assert_eq!(errors[0].line_number, 2);
    assert_eq!(errors[1].line_number, 3);
}

#[test]
fn test_md029_style_zero() {
    let lines = vec![
        "0. Item 1\n",
        "0. Item 2\n",
        "0. Item 3\n",
    ];

    let mut config = Config::new();
    config.insert("style".to_string(), ConfigValue::Str("zero".to_string()));

    let tokens = vec![
        create_list_token(1, vec![1, 2, 3]),
        create_list_item_token(1, Some(0)),
        create_list_item_token(2, Some(0)),
        create_list_item_token(3, Some(0)),
    ];

    let params = RuleParams {
        name: "test.md",
        version: "0.1.0",
        lines: &lines,
        front_matter_lines: &[],
        tokens: &tokens,
        config: &config,
        workspace_headings: None,
    };

    let rule = MD029;
    let errors = rule.lint(&params);
    assert_eq!(errors.len(), 0);
}

#[test]
fn test_md029_auto_detect_zero_increment() {
    let lines = vec![
        "0. Item 1\n",
        "1. Item 2\n",
        "2. Item 3\n",
    ];

    let tokens = vec![
        create_list_token(1, vec![1, 2, 3]),
        create_list_item_token(1, Some(0)),
        create_list_item_token(2, Some(0)),
        create_list_item_token(3, Some(0)),
    ];

    let params = RuleParams {
        name: "test.md",
        version: "0.1.0",
        lines: &lines,
        front_matter_lines: &[],
        tokens: &tokens,
        config: &Config::new(),
        workspace_headings: None,
    };

    let rule = MD029;
    let errors = rule.lint(&params);
    // Should auto-detect as ordered starting from 0
    assert_eq!(errors.len(), 0);
}

#[test]
fn test_get_ordered_list_value() {
    assert_eq!(get_ordered_list_value("1. Item"), Some((1, 1, 1)));
    assert_eq!(get_ordered_list_value("2. Item"), Some((2, 1, 1)));
    assert_eq!(get_ordered_list_value("10. Item"), Some((10, 1, 2)));
    assert_eq!(get_ordered_list_value("  3. Item"), Some((3, 3, 1)));
    assert_eq!(get_ordered_list_value("0. Item"), Some((0, 1, 1)));
    assert_eq!(get_ordered_list_value("- Item"), None);
    assert_eq!(get_ordered_list_value("Not a list"), None);
}


#[test]
fn md029_period_must_end_the_marker() {
    assert_eq!(get_ordered_list_value("1.5 apples"), None);
    assert_eq!(get_ordered_list_value("1.item"), None);
    assert_eq!(get_ordered_list_value("3."), Some((3, 1, 1)));
    assert_eq!(get_ordered_list_value("  12.\titem\n"), Some((12, 3, 2)));
}
