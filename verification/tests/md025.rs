use mdlint::config::{Config, ConfigValue};
use mdlint::rules::md025::MD025;
use mdlint::types::{LintError, RuleParams, Token};

fn make_heading(line: usize, text: &str, level: u8) -> Token {
    let mut t = Token::new("heading");
    t.start_line = line;
    t.end_line = line;
    t.text = text.to_string();
    t.metadata.push(("level".to_string(), level.to_string()));
    t
}

#[test]
fn test_md025_single_h1() {
    let tokens = vec![make_heading(1, "Title", 1), make_heading(3, "Section", 2)];
    let lines = vec![
        "# Title\n",
        "\n",
        "## Section\n",
    ];
    let params = RuleParams {
        name: "test.md",
        version: "0.1.0",
        lines: &lines,
        front_matter_lines: &[],
        tokens: &tokens,
        config: &Config::new(),
        workspace_headings: None,
    };

    let errors = MD025.lint(&params);
    assert_eq!(errors.len(), 0, "Single H1 should not trigger MD025");
}

#[test]
fn test_md025_multiple_h1() {
    let tokens = vec![
        make_heading(1, "Title", 1),
        make_heading(3, "Another Title", 1),
    ];
    let lines = vec![
        "# Title\n",
        "\n",
        "# Another Title\n",
    ];
    let params = RuleParams {
        name: "test.md",
        version: "0.1.0",
        lines: &lines,
        front_matter_lines: &[],
        tokens: &tokens,
        config: &Config::new(),
        workspace_headings: None,
    };

    let errors = MD025.lint(&params);
    assert_eq!(errors.len(), 1);
    assert_eq!(errors[0].line_number, 3);
    assert_eq!(errors[0].error_context, Some("Another Title".to_string()));
}

#[test]
fn test_md025_three_h1() {
    let tokens = vec![
        make_heading(1, "First", 1),
        make_heading(3, "Second", 1),
        make_heading(5, "Third", 1),
    ];
    let lines = vec![
        "# First\n",
        "\n",
        "# Second\n",
        "\n",
        "# Third\n",
    ];
    let params = RuleParams {
        name: "test.md",
        version: "0.1.0",
        lines: &lines,
        front_matter_lines: &[],
        tokens: &tokens,
        config: &Config::new(),
        workspace_headings: None,
    };

    let errors = MD025.lint(&params);
    assert_eq!(errors.len(), 2, "Second and third H1 should both error");
}

#[test]
fn test_md025_no_h1() {
    let tokens = vec![
        make_heading(1, "Section", 2),
        make_heading(3, "Subsection", 3),
    ];
    let lines = vec![
        "## Section\n",
        "\n",
        "### Subsection\n",
    ];
    let params = RuleParams {
        name: "test.md",
        version: "0.1.0",
        lines: &lines,
        front_matter_lines: &[],
        tokens: &tokens,
        config: &Config::new(),
        workspace_headings: None,
    };

    let errors = MD025.lint(&params);
    assert_eq!(errors.len(), 0, "No H1 headings should not trigger MD025");
}

#[test]
fn test_md025_no_fix_info() {
    let tokens = vec![make_heading(1, "Title", 1), make_heading(3, "Second", 1)];
    let lines = vec![
        "# Title\n",
        "\n",
        "# Second\n",
    ];
    let params = RuleParams {
        name: "test.md",
        version: "0.1.0",
        lines: &lines,
        front_matter_lines: &[],
        tokens: &tokens,
        config: &Config::new(),
        workspace_headings: None,
    };

    let errors = MD025.lint(&params);
    assert!(
        errors[0].fix_info.is_some(),
        "MD025 should have fix_info to convert H1 to H2"
    );
}


#[test]
fn md025_checked_entry_refuses_line_zero() {
    let tokens = vec![make_heading(1, "Title", 1), make_heading(0, "Again", 1)];
    let lines = vec!["# Title\n", "# Again\n"];
    let config = Config::new();
    let params = RuleParams {
        name: "test.md",
        version: "0.1.0",
        lines: &lines,
        front_matter_lines: &[],
        tokens: &tokens,
        config: &config,
        workspace_headings: None,
    };
    assert!(MD025.lint_checked(&params).is_none());
    let tokens = vec![make_heading(1, "Title", 1), make_heading(2, "Again", 1)];
    let params = RuleParams {
        name: "test.md",
        version: "0.1.0",
        lines: &lines,
        front_matter_lines: &[],
        tokens: &tokens,
        config: &config,
        workspace_headings: None,
    };
    assert_eq!(MD025.lint_checked(&params).map(|e| e.len()), Some(1));
}
