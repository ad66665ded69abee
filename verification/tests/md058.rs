use mdlint::config::{Config, ConfigValue};
use mdlint::rules::md058::MD058;
use mdlint::types::{LintError, RuleParams, Token};

fn make_params<'a>(
    lines: &'a [&'a str],
    tokens: &'a [Token],
    config: &'a Config,
) -> RuleParams<'a> {
    RuleParams {
        name: "test.md",
        version: "0.1.0",
        lines,
        front_matter_lines: &[],
        tokens,
        config,
        workspace_headings: None,
    }
}

#[test]
fn test_md058_table_with_blank_lines() {
    let rule = MD058;
    let lines: Vec<&str> = vec![
        "Some text\n",
        "\n",
        "| Header 1 | Header 2 |\n",
        "| -------- | -------- |\n",
        "| Cell 1   | Cell 2   |\n",
        "\n",
        "More text\n",
    ];
    let tokens = vec![];
    let config = Config::new();
    let params = make_params(&lines, &tokens, &config);
    let errors = rule.lint(&params);
    assert_eq!(errors.len(), 0);
}

#[test]
fn test_md058_table_without_blank_line_before() {
    let rule = MD058;
    let lines: Vec<&str> = vec![
        "Some text\n",
        "| Header 1 | Header 2 |\n",
        "| -------- | -------- |\n",
        "| Cell 1   | Cell 2   |\n",
        "\n",
    ];
    let tokens = vec![];
    let config = Config::new();
    let params = make_params(&lines, &tokens, &config);
    let errors = rule.lint(&params);
    assert_eq!(errors.len(), 1);
    assert_eq!(
        errors[0].error_detail,
        Some("Expected blank line before table".to_string())
    );
}

#[test]
fn test_md058_table_without_blank_line_after() {
    let rule = MD058;
    let lines: Vec<&str> = vec![
        "\n",
        "| Header 1 | Header 2 |\n",
        "| -------- | -------- |\n",
        "| Cell 1   | Cell 2   |\n",
        "More text\n",
    ];
    let tokens = vec![];
    let config = Config::new();
    let params = make_params(&lines, &tokens, &config);
    let errors = rule.lint(&params);
    assert_eq!(errors.len(), 1);
    assert_eq!(
        errors[0].error_detail,
        Some("Expected blank line after table".to_string())
    );
}

#[test]
fn test_md058_table_at_start_of_file() {
    let rule = MD058;
    let lines: Vec<&str> = vec![
        "| Header 1 | Header 2 |\n",
        "| -------- | -------- |\n",
        "\n",
    ];
    let tokens = vec![];
    let config = Config::new();
    let params = make_params(&lines, &tokens, &config);
    let errors = rule.lint(&params);
    assert_eq!(errors.len(), 0);
}

#[test]
fn test_md058_fix_info_before() {
    let rule = MD058;
    let lines: Vec<&str> = vec![
        "# Heading\n",
        "| Header |\n",
        "| ------ |\n",
        "\n",
    ];
    let tokens = vec![];
    let config = Config::new();
    let params = make_params(&lines, &tokens, &config);
    let errors = rule.lint(&params);
    assert_eq!(errors.len(), 1);

    let fix = errors[0].fix_info.as_ref().expect("Should have fix_info");
    assert_eq!(fix.line_number, Some(2));
    assert_eq!(fix.edit_column, Some(1));
    assert_eq!(fix.delete_count, None);
    assert_eq!(fix.insert_text, Some("\n".to_string()));
}

#[test]
fn test_md058_fix_info_after() {
    let rule = MD058;
    let lines: Vec<&str> = vec![
        "\n",
        "| Header |\n",
        "| ------ |\n",
        "Text here\n",
    ];
    let tokens = vec![];
    let config = Config::new();
    let params = make_params(&lines, &tokens, &config);
    let errors = rule.lint(&params);
    assert_eq!(errors.len(), 1);

    let fix = errors[0].fix_info.as_ref().expect("Should have fix_info");
    assert_eq!(fix.line_number, Some(4));
    assert_eq!(fix.edit_column, Some(1));
    assert_eq!(fix.delete_count, None);
    assert_eq!(fix.insert_text, Some("\n".to_string()));
}

