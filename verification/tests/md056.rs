use mdlint::config::{Config, ConfigValue};
use mdlint::rules::md056::MD056;
use mdlint::types::{LintError, RuleParams, Token};

fn make_params<'a>(
    lines: &'a [&'a str],
    tokens: &'a [Token],
    config: &'a Config,
) -> RuleParams<'a> {
    RuleParams {
        name: "test.md",
        version: "0.1.0",
        lines,
        front_matter_lines: &[],
        tokens,
        config,
        workspace_headings: None,
    }
}

#[test]
fn test_md056_consistent_column_count() {
    let rule = MD056;
    let lines: Vec<&str> = vec![
        "| Header 1 | Header 2 |\n",
        "| -------- | -------- |\n",
        "| Cell 1   | Cell 2   |\n",
    ];
    let tokens = vec![];
    let config = Config::new();
    let params = make_params(&lines, &tokens, &config);
    let errors = rule.lint(&params);
    assert_eq!(errors.len(), 0);
}

#[test]
fn test_md056_inconsistent_column_count() {
    let rule = MD056;
    let lines: Vec<&str> = vec![
        "| Header 1 | Header 2 |\n",
        "| -------- | -------- |\n",
        "| Cell 1   | Cell 2   | Cell 3 |\n",
    ];
    let tokens = vec![];
    let config = Config::new();
    let params = make_params(&lines, &tokens, &config);
    let errors = rule.lint(&params);
    assert_eq!(errors.len(), 1);
}

#[test]
fn test_md056_single_row_table() {
    let rule = MD056;
    let lines: Vec<&str> = vec!["| Header 1 | Header 2 |\n"];
    let tokens = vec![];
    let config = Config::new();
    let params = make_params(&lines, &tokens, &config);
    let errors = rule.lint(&params);
    assert_eq!(errors.len(), 0);
}

#[test]
fn test_md056_separate_tables_reset() {
    let rule = MD056;
    let lines: Vec<&str> = vec![
        "| A | B |\n",
        "| - | - |\n",
        "\n",
        "Some text\n",
        "\n",
        "| A | B | C |\n",
        "| - | - | - |\n",
    ];
    let tokens = vec![];
    let config = Config::new();
    let params = make_params(&lines, &tokens, &config);
    let errors = rule.lint(&params);
    assert_eq!(errors.len(), 0);
}

