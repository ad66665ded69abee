use mdlint::config::{Config, ConfigValue};
use mdlint::rules::md022::MD022;
use mdlint::types::{LintError, RuleParams, Token};

fn make_heading(line: usize, level: u8) -> Token {
    let mut t = Token::new("heading");
    t.start_line = line;
    t.end_line = line;
    t.text = format!("Heading {}", level);
    t.metadata.push(("level".to_string(), level.to_string()));
    t
}

#[test]
fn test_md022_no_error_with_blank_lines() {
    let lines = vec![
        "# Title\n",
        "\n",
        "Some text\n",
        "\n",
        "## Section\n",
        "\n",
        "More text\n",
    ];
    let tokens = vec![make_heading(1, 1), make_heading(5, 2)];
    let params = RuleParams {
        name: "test.md",
        version: "0.1.0",
        lines: &lines,
        front_matter_lines: &[],
        tokens: &tokens,
        config: &Config::new(),
        workspace_headings: None,
    };

    let errors = MD022.lint(&params);
    assert_eq!(
        errors.len(),
        0,
        "Properly spaced headings should have no errors"
    );
}

#[test]
fn test_md022_missing_blank_before_heading() {
    let lines = vec![
        "# Title\n",
        "Some text\n",
        "## Section\n",
    ];
    let tokens = vec![make_heading(1, 1), make_heading(3, 2)];
    let params = RuleParams {
        name: "test.md",
        version: "0.1.0",
        lines: &lines,
        front_matter_lines: &[],
        tokens: &tokens,
        config: &Config::new(),
        workspace_headings: None,
    };

    let errors = MD022.lint(&params);
    let before_errors: Vec<_> = errors
        .iter()
        .filter(|e| e.error_detail.as_deref() == Some("Expected blank line before heading"))
        .collect();
    assert_eq!(before_errors.len(), 1);
    assert_eq!(before_errors[0].line_number, 3);
}

#[test]
fn test_md022_missing_blank_after_heading() {
    let lines = vec!["# Title\n", "Some text\n"];
    let tokens = vec![make_heading(1, 1)];
    let params = RuleParams {
        name: "test.md",
        version: "0.1.0",
        lines: &lines,
        front_matter_lines: &[],
        tokens: &tokens,
        config: &Config::new(),
        workspace_headings: None,
    };

    let errors = MD022.lint(&params);
    let after_errors: Vec<_> = errors
        .iter()
        .filter(|e| e.error_detail.as_deref() == Some("Expected blank line after heading"))
        .collect();
    assert_eq!(after_errors.len(), 1);
    assert_eq!(after_errors[0].line_number, 1);
}

#[test]
fn test_md022_fix_info_inserts_blank_before() {
    let lines = vec![
        "# Title\n",
        "Some text\n",
        "## Section\n",
    ];
    let tokens = vec![make_heading(1, 1), make_heading(3, 2)];
    let params = RuleParams {
        name: "test.md",
        version: "0.1.0",
        lines: &lines,
        front_matter_lines: &[],
        tokens: &tokens,
        config: &Config::new(),
        workspace_headings: None,
    };

    let errors = MD022.lint(&params);
    let before_error = errors
        .iter()
        .find(|e| e.error_detail.as_deref() == Some("Expected blank line before heading"))
        .expect("Should have a before-heading error");

    let fix = before_error
        .fix_info
        .as_ref()
        .expect("Should have fix_info");
    assert_eq!(fix.edit_column, Some(1));
    assert_eq!(fix.insert_text, Some("\n".to_string()));
}

#[test]
fn test_md022_heading_at_start_of_file() {
    // First heading at line 1 should not complain about missing blank before
    let lines = vec![
        "# Title\n",
        "\n",
        "Content\n",
    ];
    let tokens = vec![make_heading(1, 1)];
    let params = RuleParams {
        name: "test.md",
        version: "0.1.0",
        lines: &lines,
        front_matter_lines: &[],
        tokens: &tokens,
        config: &Config::new(),
        workspace_headings: None,
    };

    let errors = MD022.lint(&params);
    assert_eq!(
        errors.len(),
        0,
        "Heading at start of file with blank after should be fine"
    );
}

#[test]
fn test_md022_fix_info_inserts_blank_after() {
    let lines = vec!["# Title\n", "Some text\n"];
    let tokens = vec![make_heading(1, 1)];
    let params = RuleParams {
        name: "test.md",
        version: "0.1.0",
        lines: &lines,
        front_matter_lines: &[],
        tokens: &tokens,
        config: &Config::new(),
        workspace_headings: None,
    };

    let errors = MD022.lint(&params);
    let after_error = errors
        .iter()
        .find(|e| e.error_detail.as_deref() == Some("Expected blank line after heading"))
        .expect("Should have an after-heading error");

    let fix = after_error.fix_info.as_ref().expect("Should have fix_info");
    assert_eq!(fix.line_number, Some(2));
    assert_eq!(fix.edit_column, Some(1));
    assert_eq!(fix.insert_text, Some("\n".to_string()));
}

