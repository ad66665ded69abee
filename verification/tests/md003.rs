use mdlint::config::{Config, ConfigValue};
use mdlint::rules::md003::MD003;
use mdlint::types::{LintError, RuleParams, Token};
use mdlint::rules::md003::{get_heading_style, get_heading_level, HeadingStyle};

fn create_heading_token(start_line: usize, end_line: usize) -> Token {
    Token {
        token_type: "heading".to_string(),
        start_line,
        start_column: 1,
        end_line,
        end_column: 10,
        text: String::new(),
        children: vec![],
        parent: None,
        metadata: Vec::new(),
    }
}

#[test]
fn test_md003_consistent_all_atx() {
    let tokens = vec![
        create_heading_token(1, 1),
        create_heading_token(3, 3),
        create_heading_token(5, 5),
    ];

    let lines = vec![
        "# Heading 1\n",
        "\n",
        "## Heading 2\n",
        "\n",
        "### Heading 3\n",
    ];

    let mut config = Config::new();
    config.insert("style".to_string(), ConfigValue::Str("consistent".to_string()));

    let params = RuleParams {
        name: "test.md",
        version: "0.1.0",
        lines: &lines,
        front_matter_lines: &[],
        tokens: &tokens,
        config: &config,
        workspace_headings: None,
    };

    let rule = MD003;
    let errors = rule.lint(&params);
    assert_eq!(errors.len(), 0);
}

#[test]
fn test_md003_consistent_mixed_styles() {
    let tokens = vec![create_heading_token(1, 1), create_heading_token(3, 4)];

    let lines = vec!["# Heading 1\n", "\n", "Heading 2\n", "---------\n"];

    let mut config = Config::new();
    config.insert("style".to_string(), ConfigValue::Str("consistent".to_string()));

    let params = RuleParams {
        name: "test.md",
        version: "0.1.0",
        lines: &lines,
        front_matter_lines: &[],
        tokens: &tokens,
        config: &config,
        workspace_headings: None,
    };

    let rule = MD003;
    let all_errors = rule.lint(&params);
    // 2 errors: style mismatch + underline deletion helper
    assert_eq!(all_errors.len(), 2);
    // First error: the style violation on the setext heading
    assert_eq!(all_errors[0].line_number, 3);
    assert!(all_errors[0].error_detail.as_ref().unwrap().contains("atx"));
    assert!(
        all_errors[0]
            .error_detail
            .as_ref()
            .unwrap()
            .contains("setext")
    );
    // Second error: underline deletion helper
    assert_eq!(all_errors[1].line_number, 4);
    assert!(
        all_errors[1]
            .error_detail
            .as_ref()
            .unwrap()
            .contains("underline")
    );
}

#[test]
fn test_md003_atx_style() {
    let tokens = vec![create_heading_token(1, 1), create_heading_token(3, 4)];

    let lines = vec!["# Heading 1\n", "\n", "Heading 2\n", "---------\n"];

    let mut config = Config::new();
    config.insert("style".to_string(), ConfigValue::Str("atx".to_string()));

    let params = RuleParams {
        name: "test.md",
        version: "0.1.0",
        lines: &lines,
        front_matter_lines: &[],
        tokens: &tokens,
        config: &config,
        workspace_headings: None,
    };

    let rule = MD003;
    let all_errors = rule.lint(&params);
    // Filter out fix-only helper errors (setext underline deletion)
    let errors: Vec<_> = all_errors.iter().filter(|e| !e.fix_only).collect();
    assert_eq!(errors.len(), 1);
    assert_eq!(errors[0].line_number, 3);
}

#[test]
fn test_md003_setext_style() {
    let tokens = vec![create_heading_token(1, 2), create_heading_token(4, 4)];

    let lines = vec!["Heading 1\n", "=========\n", "\n", "# Heading 2\n"];

    let mut config = Config::new();
    config.insert("style".to_string(), ConfigValue::Str("setext".to_string()));

    let params = RuleParams {
        name: "test.md",
        version: "0.1.0",
        lines: &lines,
        front_matter_lines: &[],
        tokens: &tokens,
        config: &config,
        workspace_headings: None,
    };

    let rule = MD003;
    let errors = rule.lint(&params);
    assert_eq!(errors.len(), 1);
    assert_eq!(errors[0].line_number, 4);
}

#[test]
fn test_md003_atx_closed_style() {
    let tokens = vec![create_heading_token(1, 1), create_heading_token(3, 3)];

    let lines = vec!["# Heading 1 #\n", "\n", "## Heading 2\n"];

    let mut config = Config::new();
    config.insert("style".to_string(), ConfigValue::Str("atx_closed".to_string()));

    let params = RuleParams {
        name: "test.md",
        version: "0.1.0",
        lines: &lines,
        front_matter_lines: &[],
        tokens: &tokens,
        config: &config,
        workspace_headings: None,
    };

    let rule = MD003;
    let all_errors = rule.lint(&params);
    // Filter out fix-only helper errors (setext underline deletion)
    let errors: Vec<_> = all_errors.iter().filter(|e| !e.fix_only).collect();
    assert_eq!(errors.len(), 1);
    assert_eq!(errors[0].line_number, 3);
}

#[test]
fn test_md003_setext_with_atx() {
    let tokens = vec![
        create_heading_token(1, 2),
        create_heading_token(4, 5),
        create_heading_token(7, 7),
    ];

    let lines = vec![
        "Heading 1\n",
        "=========\n",
        "\n",
        "Heading 2\n",
        "---------\n",
        "\n",
        "### Heading 3\n",
    ];

    let mut config = Config::new();
    config.insert(
        "style".to_string(),
        ConfigValue::Str("setext_with_atx".to_string()),
    );

    let params = RuleParams {
        name: "test.md",
        version: "0.1.0",
        lines: &lines,
        front_matter_lines: &[],
        tokens: &tokens,
        config: &config,
        workspace_headings: None,
    };

    let rule = MD003;
    let errors = rule.lint(&params);
    assert_eq!(errors.len(), 0);
}

#[test]
fn test_md003_setext_with_atx_closed() {
    let tokens = vec![create_heading_token(1, 2), create_heading_token(4, 4)];

    let lines = vec!["Heading 1\n", "=========\n", "\n", "### Heading 3 ###\n"];

    let mut config = Config::new();
    config.insert(
        "style".to_string(),
        ConfigValue::Str("setext_with_atx_closed".to_string()),
    );

    let params = RuleParams {
        name: "test.md",
        version: "0.1.0",
        lines: &lines,
        front_matter_lines: &[],
        tokens: &tokens,
        config: &config,
        workspace_headings: None,
    };

    let rule = MD003;
    let errors = rule.lint(&params);
    assert_eq!(errors.len(), 0);
}

#[test]
fn test_get_heading_style_atx() {
    let lines = vec!["# Heading\n"];
    assert_eq!(get_heading_style(&lines, 1, 1), HeadingStyle::Atx);
}

#[test]
fn test_get_heading_style_atx_closed() {
    let lines = vec!["# Heading #\n"];
    assert_eq!(get_heading_style(&lines, 1, 1), HeadingStyle::AtxClosed);
}

#[test]
fn test_get_heading_style_setext() {
    let lines = vec!["Heading\n", "=======\n"];
    assert_eq!(get_heading_style(&lines, 1, 2), HeadingStyle::Setext);
}

#[test]
fn test_get_heading_level_atx() {
    let lines = vec!["# H1\n", "## H2\n", "### H3\n"];
    assert_eq!(get_heading_level(&lines, 1, 1), 1);
    assert_eq!(get_heading_level(&lines, 2, 2), 2);
    assert_eq!(get_heading_level(&lines, 3, 3), 3);
}

#[test]
fn test_get_heading_level_setext() {
    let lines = vec!["Heading 1\n", "=========\n", "Heading 2\n", "---------\n"];
    assert_eq!(get_heading_level(&lines, 1, 2), 1);
    assert_eq!(get_heading_level(&lines, 3, 4), 2);
}

