use mdlint::config::{Config, ConfigValue};
use mdlint::rules::md024::MD024;
use mdlint::types::{LintError, RuleParams, Token};

fn make_heading(line: usize, text: &str, level: u8) -> Token {
    let mut t = Token::new("heading");
    t.start_line = line;
    t.end_line = line;
    t.text = text.to_string();
    t.metadata.push(("level".to_string(), level.to_string()));
    t
}

#[test]
fn test_md024_no_duplicates() {
    let tokens = vec![
        make_heading(1, "Introduction", 1),
        make_heading(3, "Details", 2),
        make_heading(5, "Conclusion", 2),
    ];
    let lines = vec![
        "# Introduction\n",
        "\n",
        "## Details\n",
        "\n",
        "## Conclusion\n",
    ];
    let params = RuleParams {
        name: "test.md",
        version: "0.1.0",
        lines: &lines,
        front_matter_lines: &[],
        tokens: &tokens,
        config: &Config::new(),
        workspace_headings: None,
    };

    let errors = MD024.lint(&params);
    assert_eq!(errors.len(), 0, "Unique headings should have no errors");
}

#[test]
fn test_md024_duplicate_headings() {
    let tokens = vec![
        make_heading(1, "Setup", 2),
        make_heading(3, "Usage", 2),
        make_heading(5, "Setup", 2),
    ];
    let lines = vec!["## Setup\n", "\n", "## Usage\n", "\n", "## Setup\n"];
    let params = RuleParams {
        name: "test.md",
        version: "0.1.0",
        lines: &lines,
        front_matter_lines: &[],
        tokens: &tokens,
        config: &Config::new(),
        workspace_headings: None,
    };

    let errors = MD024.lint(&params);
    assert_eq!(errors.len(), 1);
    assert_eq!(errors[0].line_number, 5);
    assert_eq!(errors[0].error_context, Some("Setup".to_string()));
}

#[test]
fn test_md024_multiple_duplicates() {
    let tokens = vec![
        make_heading(1, "FAQ", 2),
        make_heading(3, "FAQ", 2),
        make_heading(5, "FAQ", 2),
    ];
    let lines = vec!["## FAQ\n", "\n", "## FAQ\n", "\n", "## FAQ\n"];
    let params = RuleParams {
        name: "test.md",
        version: "0.1.0",
        lines: &lines,
        front_matter_lines: &[],
        tokens: &tokens,
        config: &Config::new(),
        workspace_headings: None,
    };

    let errors = MD024.lint(&params);
    assert_eq!(errors.len(), 2, "Second and third occurrence should error");
}

#[test]
fn test_md024_different_levels_same_text() {
    let tokens = vec![
        make_heading(1, "Overview", 1),
        make_heading(3, "Overview", 2),
    ];
    let lines = vec!["# Overview\n", "\n", "## Overview\n"];
    let params = RuleParams {
        name: "test.md",
        version: "0.1.0",
        lines: &lines,
        front_matter_lines: &[],
        tokens: &tokens,
        config: &Config::new(),
        workspace_headings: None,
    };

    let errors = MD024.lint(&params);
    assert_eq!(
        errors.len(),
        1,
        "Same text at different levels is still a duplicate"
    );
}

#[test]
fn test_md024_fix_info() {
    let tokens = vec![make_heading(1, "Title", 1), make_heading(3, "Title", 2)];
    let lines = vec!["# Title\n", "\n", "## Title\n"];
    let params = RuleParams {
        name: "test.md",
        version: "0.1.0",
        lines: &lines,
        front_matter_lines: &[],
        tokens: &tokens,
        config: &Config::new(),
        workspace_headings: None,
    };

    let errors = MD024.lint(&params);
    assert_eq!(errors.len(), 1);
    let fix = errors[0].fix_info.as_ref().unwrap();
    assert_eq!(fix.insert_text, Some(" (2)".to_string()));
    assert_eq!(fix.delete_count, None);
}

#[test]
fn test_md024_fix_multiple_duplicates() {
    let tokens = vec![
        make_heading(1, "FAQ", 2),
        make_heading(3, "FAQ", 2),
        make_heading(5, "FAQ", 2),
    ];
    let lines = vec!["## FAQ\n", "\n", "## FAQ\n", "\n", "## FAQ\n"];
    let params = RuleParams {
        name: "test.md",
        version: "0.1.0",
        lines: &lines,
        front_matter_lines: &[],
        tokens: &tokens,
        config: &Config::new(),
        workspace_headings: None,
    };

    let errors = MD024.lint(&params);
    assert_eq!(errors.len(), 2);
    // Second occurrence
    assert_eq!(
        errors[0].fix_info.as_ref().unwrap().insert_text,
        Some(" (2)".to_string())
    );
    // Third occurrence
    assert_eq!(
        errors[1].fix_info.as_ref().unwrap().insert_text,
        Some(" (3)".to_string())
    );
}

#[test]
fn test_md024_fix_column_calculation() {
    let tokens = vec![make_heading(1, "Setup", 2), make_heading(3, "Setup", 2)];
    let lines = vec!["## Setup\n", "\n", "## Setup\n"];
    let params = RuleParams {
        name: "test.md",
        version: "0.1.0",
        lines: &lines,
        front_matter_lines: &[],
        tokens: &tokens,
        config: &Config::new(),
        workspace_headings: None,
    };

    let errors = MD024.lint(&params);
    assert_eq!(errors.len(), 1);
    let fix = errors[0].fix_info.as_ref().unwrap();
    // "## Setup" -> position after "Setup" is column 9 (1-based)
    assert_eq!(fix.edit_column, Some(9));
}

