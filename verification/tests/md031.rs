use mdlint::config::{Config, ConfigValue};
use mdlint::rules::md031::MD031;
use mdlint::types::{LintError, RuleParams, Token};

#[test]
fn test_md031_valid_blank_lines() {
    let lines = vec![
        "# Heading\n",
        "\n",
        "```rust\n",
        "let x = 5;\n",
        "```\n",
        "\n",
        "More text\n",
    ];

    let params = RuleParams {
        name: "test.md",
        version: "0.1.0",
        lines: &lines,
        front_matter_lines: &[],
        tokens: &[],
        config: &Config::new(),
        workspace_headings: None,
    };

    let rule = MD031;
    let errors = rule.lint(&params);
    assert_eq!(errors.len(), 0);
}

#[test]
fn test_md031_missing_blank_before() {
    let lines = vec!["# Heading\n", "```rust\n", "let x = 5;\n", "```\n", "\n"];

    let params = RuleParams {
        name: "test.md",
        version: "0.1.0",
        lines: &lines,
        front_matter_lines: &[],
        tokens: &[],
        config: &Config::new(),
        workspace_headings: None,
    };

    let rule = MD031;
    let errors = rule.lint(&params);
    assert_eq!(errors.len(), 1);
    assert_eq!(errors[0].line_number, 2); // Opening fence line
}

#[test]
fn test_md031_missing_blank_after() {
    let lines = vec![
        "# Heading\n",
        "\n",
        "```rust\n",
        "let x = 5;\n",
        "```\n",
        "More text\n",
    ];

    let params = RuleParams {
        name: "test.md",
        version: "0.1.0",
        lines: &lines,
        front_matter_lines: &[],
        tokens: &[],
        config: &Config::new(),
        workspace_headings: None,
    };

    let rule = MD031;
    let errors = rule.lint(&params);
    assert_eq!(errors.len(), 1);
    assert_eq!(errors[0].line_number, 5); // Closing fence line
}

#[test]
fn test_md031_missing_both_blanks() {
    let lines = vec![
        "# Heading\n",
        "```rust\n",
        "let x = 5;\n",
        "```\n",
        "More text\n",
    ];

    let params = RuleParams {
        name: "test.md",
        version: "0.1.0",
        lines: &lines,
        front_matter_lines: &[],
        tokens: &[],
        config: &Config::new(),
        workspace_headings: None,
    };

    let rule = MD031;
    let errors = rule.lint(&params);
    assert_eq!(errors.len(), 2);
    assert_eq!(errors[0].line_number, 2); // Opening fence
    assert_eq!(errors[1].line_number, 4); // Closing fence
}

#[test]
fn test_md031_tilde_fences() {
    let lines = vec!["Text\n", "~~~\n", "code\n", "~~~\n", "Text\n"];

    let params = RuleParams {
        name: "test.md",
        version: "0.1.0",
        lines: &lines,
        front_matter_lines: &[],
        tokens: &[],
        config: &Config::new(),
        workspace_headings: None,
    };

    let rule = MD031;
    let errors = rule.lint(&params);
    assert_eq!(errors.len(), 2); // Missing blank before and after
}

#[test]
fn test_md031_start_of_file() {
    let lines = vec!["```rust\n", "let x = 5;\n", "```\n", "\n"];

    let params = RuleParams {
        name: "test.md",
        version: "0.1.0",
        lines: &lines,
        front_matter_lines: &[],
        tokens: &[],
        config: &Config::new(),
        workspace_headings: None,
    };

    let rule = MD031;
    let errors = rule.lint(&params);
    // No error for missing blank before when at start of file
    assert_eq!(errors.len(), 0);
}

#[test]
fn test_md031_end_of_file() {
    let lines = vec!["\n", "```rust\n", "let x = 5;\n", "```\n"];

    let params = RuleParams {
        name: "test.md",
        version: "0.1.0",
        lines: &lines,
        front_matter_lines: &[],
        tokens: &[],
        config: &Config::new(),
        workspace_headings: None,
    };

    let rule = MD031;
    let errors = rule.lint(&params);
    // No error for missing blank after when at end of file
    assert_eq!(errors.len(), 0);
}

