use mdlint::config::{Config, ConfigValue};
use mdlint::rules::md048::MD048;
use mdlint::types::{LintError, RuleParams, Token};

fn make_params<'a>(
    lines: &'a [&'a str],
    tokens: &'a [Token],
    config: &'a Config,
) -> RuleParams<'a> {
    RuleParams {
        name: "test.md",
        version: "0.1.0",
        lines,
        front_matter_lines: &[],
        tokens,
        config,
        workspace_headings: None,
    }
}

#[test]
fn test_md048_consistent_backticks() {
    let rule = MD048;
    let lines: Vec<&str> = vec![
        "```\n",
        "code block 1\n",
        "```\n",
        "\n",
        "```\n",
        "code block 2\n",
        "```\n",
    ];
    let tokens = vec![];
    let config = Config::new();
    let params = make_params(&lines, &tokens, &config);
    let errors = rule.lint(&params);
    assert_eq!(errors.len(), 0);
}

#[test]
fn test_md048_consistent_tildes() {
    let rule = MD048;
    let lines: Vec<&str> = vec![
        "~~~\n",
        "code block 1\n",
        "~~~\n",
        "\n",
        "~~~\n",
        "code block 2\n",
        "~~~\n",
    ];
    let tokens = vec![];
    let config = Config::new();
    let params = make_params(&lines, &tokens, &config);
    let errors = rule.lint(&params);
    assert_eq!(errors.len(), 0);
}

#[test]
fn test_md048_mixed_styles() {
    let rule = MD048;
    let lines: Vec<&str> = vec![
        "```\n",
        "code block 1\n",
        "```\n",
        "\n",
        "~~~\n",
        "code block 2\n",
        "~~~\n",
    ];
    let tokens = vec![];
    let config = Config::new();
    let params = make_params(&lines, &tokens, &config);
    let errors = rule.lint(&params);
    // Should report 2 errors - both tilde fences need to be converted to backticks
    assert_eq!(errors.len(), 2);
    assert_eq!(errors[0].line_number, 5);
    assert_eq!(errors[1].line_number, 7);
}

#[test]
fn test_md048_fix_info() {
    let rule = MD048;
    let lines: Vec<&str> = vec![
        "```rust\n",
        "let x = 5;\n",
        "```\n",
        "\n",
        "~~~python\n",
        "y = 10\n",
        "~~~\n",
    ];
    let tokens = vec![];
    let config = Config::new();
    let params = make_params(&lines, &tokens, &config);
    let errors = rule.lint(&params);
    assert_eq!(errors.len(), 2);

    // Check first tilde fence fix_info
    let fix1 = errors[0].fix_info.as_ref().expect("Should have fix_info");
    assert_eq!(fix1.line_number, Some(5));
    assert_eq!(fix1.edit_column, Some(1));
    assert_eq!(fix1.delete_count, Some(3));
    assert_eq!(fix1.insert_text, Some("```".to_string()));

    // Check second tilde fence fix_info
    let fix2 = errors[1].fix_info.as_ref().expect("Should have fix_info");
    assert_eq!(fix2.line_number, Some(7));
    assert_eq!(fix2.edit_column, Some(1));
    assert_eq!(fix2.delete_count, Some(3));
    assert_eq!(fix2.insert_text, Some("```".to_string()));
}

