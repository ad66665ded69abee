use mdlint::config::{Config, ConfigValue};
use mdlint::rules::md001::MD001;
use mdlint::types::{LintError, RuleParams, Token};

fn create_heading(line: usize, level: usize, setext: bool) -> Token {
    let mut metadata: Vec<(String, String)> = Vec::new();
    metadata.push(("level".to_string(), level.to_string()));
    metadata.push(("setext".to_string(), setext.to_string()));

    Token {
        token_type: "heading".to_string(),
        start_line: line,
        start_column: 1,
        end_line: if setext { line + 1 } else { line },
        end_column: 20,
        text: format!("Heading {}", level),
        children: vec![],
        parent: None,
        metadata,
    }
}

#[test]
fn test_md001_valid_increment() {
    let tokens = vec![
        create_heading(1, 1, false),
        create_heading(2, 2, false),
        create_heading(3, 3, false),
    ];

    let lines = vec!["# Heading 1\n", "## Heading 2\n", "### Heading 3\n"];

    let params = RuleParams {
        name: "test.md",
        version: "0.1.0",
        lines: &lines,
        front_matter_lines: &[],
        tokens: &tokens,
        config: &Config::new(),
        workspace_headings: None,
    };

    let rule = MD001;
    let errors = rule.lint(&params);
    assert_eq!(errors.len(), 0);
}

#[test]
fn test_md001_skip_level() {
    let tokens = vec![
        create_heading(1, 1, false),
        create_heading(2, 3, false), // Skip from h1 to h3
    ];

    let lines = vec!["# Heading 1\n", "### Heading 3\n"];

    let params = RuleParams {
        name: "test.md",
        version: "0.1.0",
        lines: &lines,
        front_matter_lines: &[],
        tokens: &tokens,
        config: &Config::new(),
        workspace_headings: None,
    };

    let rule = MD001;
    let errors = rule.lint(&params);

    assert_eq!(errors.len(), 1);
    assert_eq!(errors[0].line_number, 2);
    assert_eq!(
        errors[0].error_detail,
        Some("Expected: h2; Actual: h3".to_string())
    );
}

#[test]
fn test_md001_decrease_is_ok() {
    let tokens = vec![
        create_heading(1, 1, false),
        create_heading(2, 2, false),
        create_heading(3, 3, false),
        create_heading(4, 1, false), // Back to h1 is ok
    ];

    let lines = vec![
        "# Heading 1\n",
        "## Heading 2\n",
        "### Heading 3\n",
        "# Heading 1 again\n",
    ];

    let params = RuleParams {
        name: "test.md",
        version: "0.1.0",
        lines: &lines,
        front_matter_lines: &[],
        tokens: &tokens,
        config: &Config::new(),
        workspace_headings: None,
    };

    let rule = MD001;
    let errors = rule.lint(&params);
    assert_eq!(errors.len(), 0);
}

#[test]
fn test_md001_with_front_matter_title() {
    let tokens = vec![
        create_heading(4, 2, false), // h2 after front matter title is ok
    ];

    let lines = vec![
        "---\n",
        "title: Document Title\n",
        "---\n",
        "## Heading 2\n",
    ];

    let front_matter = vec!["title: Document Title\n"];

    let params = RuleParams {
        name: "test.md",
        version: "0.1.0",
        lines: &lines,
        front_matter_lines: &front_matter,
        tokens: &tokens,
        config: &Config::new(),
        workspace_headings: None,
    };

    let rule = MD001;
    let errors = rule.lint(&params);
    assert_eq!(errors.len(), 0);
}

#[test]
fn test_md001_setext_headings() {
    let tokens = vec![create_heading(1, 1, true), create_heading(4, 2, true)];

    let lines = vec![
        "Heading 1\n",
        "=========\n",
        "\n",
        "Heading 2\n",
        "---------\n",
    ];

    let params = RuleParams {
        name: "test.md",
        version: "0.1.0",
        lines: &lines,
        front_matter_lines: &[],
        tokens: &tokens,
        config: &Config::new(),
        workspace_headings: None,
    };

    let rule = MD001;
    let errors = rule.lint(&params);
    assert_eq!(errors.len(), 0);
}

#[test]
fn test_md001_multiple_skips() {
    let tokens = vec![
        create_heading(1, 1, false),
        create_heading(2, 4, false), // Skip from h1 to h4
        create_heading(3, 6, false), // Skip from h4 to h6
    ];

    let lines = vec!["# Heading 1\n", "#### Heading 4\n", "###### Heading 6\n"];

    let params = RuleParams {
        name: "test.md",
        version: "0.1.0",
        lines: &lines,
        front_matter_lines: &[],
        tokens: &tokens,
        config: &Config::new(),
        workspace_headings: None,
    };

    let rule = MD001;
    let errors = rule.lint(&params);

    assert_eq!(errors.len(), 2);
    assert_eq!(errors[0].line_number, 2);
    assert_eq!(errors[1].line_number, 3);
}

#[test]
fn test_md001_fix_info_atx() {
    let tokens = vec![
        create_heading(1, 1, false),
        create_heading(2, 3, false), // Skip from h1 to h3
    ];

    let lines = vec!["# Heading 1\n", "### Heading 3\n"];

    let params = RuleParams {
        name: "test.md",
        version: "0.1.0",
        lines: &lines,
        front_matter_lines: &[],
        tokens: &tokens,
        config: &Config::new(),
        workspace_headings: None,
    };

    let rule = MD001;
    let errors = rule.lint(&params);

    assert_eq!(errors.len(), 1);
    assert!(errors[0].fix_info.is_some());
    let fix = errors[0].fix_info.as_ref().unwrap();
    assert_eq!(fix.line_number, Some(2));
    assert_eq!(fix.edit_column, Some(1));
    assert_eq!(fix.insert_text, Some("## ".to_string()));
}

#[test]
fn test_md001_fix_info_setext() {
    let tokens = vec![
        create_heading(1, 1, false),
        create_heading(2, 2, true), // Setext h2 after h1 is ok, no error
    ];

    let lines = vec!["# Heading 1\n", "Heading 2\n", "---------\n"];

    let params = RuleParams {
        name: "test.md",
        version: "0.1.0",
        lines: &lines,
        front_matter_lines: &[],
        tokens: &tokens,
        config: &Config::new(),
        workspace_headings: None,
    };

    let rule = MD001;
    let errors = rule.lint(&params);
    assert_eq!(errors.len(), 0);
}


#[test]
fn md001_checked_entry_refuses_line_zero() {
    let tokens = vec![create_heading(1, 1, false), create_heading(0, 3, false)];
    let lines = vec!["# Heading 1\n", "### Heading 3\n"];
    let config = Config::new();
    let params = RuleParams {
        name: "test.md",
        version: "0.1.0",
        lines: &lines,
        front_matter_lines: &[],
        tokens: &tokens,
        config: &config,
        workspace_headings: None,
    };
    assert!(MD001.lint_checked(&params).is_none());
    let tokens = vec![create_heading(1, 1, false), create_heading(2, 3, false)];
    let params = RuleParams {
        name: "test.md",
        version: "0.1.0",
        lines: &lines,
        front_matter_lines: &[],
        tokens: &tokens,
        config: &config,
        workspace_headings: None,
    };
    let errors = MD001.lint_checked(&params).unwrap();
    assert_eq!(errors.len(), 1);
    assert_eq!(errors[0].line_number, 2);
}
