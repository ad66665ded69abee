use mdlint::config::{Config, ConfigValue};
use mdlint::rules::md052::MD052;
use mdlint::types::{LintError, RuleParams, Token};
use mdlint::fix::apply_fixes;

fn make_params<'a>(
    lines: &'a [&'a str],
    config: &'a Config,
) -> RuleParams<'a> {
    RuleParams {
        name: "test.md",
        version: "0.1.0",
        lines,
        front_matter_lines: &[],
        tokens: &[],
        config,
        workspace_headings: None,
    }
}

#[test]
fn test_md052_valid_references() {
    let lines: Vec<&str> = vec![
        "This has a [link][foo] reference.\n",
        "\n",
        "[foo]: https://example.com\n",
    ];
    let config = Config::new();
    let params = make_params(&lines, &config);

    let rule = MD052;
    let errors = rule.lint(&params);
    assert_eq!(errors.len(), 0);
}

#[test]
fn test_md052_undefined_reference() {
    let lines: Vec<&str> = vec![
        "This has a [link][bar] reference.\n",
        "\n",
        "[foo]: https://example.com\n",
    ];
    let config = Config::new();
    let params = make_params(&lines, &config);

    let rule = MD052;
    let errors = rule.lint(&params);
    assert_eq!(errors.len(), 1);
    assert_eq!(errors[0].line_number, 1);
}

#[test]
fn test_md052_case_insensitive() {
    let lines: Vec<&str> = vec![
        "This has a [link][foo] reference.\n",
        "\n",
        "[Foo]: https://example.com\n",
    ];
    let config = Config::new();
    let params = make_params(&lines, &config);

    let rule = MD052;
    let errors = rule.lint(&params);
    assert_eq!(errors.len(), 0);
}

#[test]
fn test_md052_fix_full_reference() {
    let lines: Vec<&str> = vec![
        "This has a [link][bar] reference.\n",
        "\n",
        "[foo]: https://example.com\n",
    ];
    let config = Config::new();
    let params = make_params(&lines, &config);

    let rule = MD052;
    let errors = rule.lint(&params);
    assert_eq!(errors.len(), 1);
    assert_eq!(errors[0].line_number, 1);

    let fix_info = errors[0].fix_info.as_ref().unwrap();
    assert_eq!(fix_info.line_number, Some(3));
    assert!(
        fix_info
            .insert_text
            .as_ref()
            .unwrap()
            .contains("[bar]: #link")
    );
}

#[test]
fn test_md052_fix_collapsed_reference() {
    let lines: Vec<&str> = vec![
        "This has a [link][] reference.\n",
        "\n",
        "[foo]: https://example.com\n",
    ];
    let config = Config::new();
    let params = make_params(&lines, &config);

    let rule = MD052;
    let errors = rule.lint(&params);
    assert_eq!(errors.len(), 1);
    assert_eq!(errors[0].line_number, 1);

    let fix_info = errors[0].fix_info.as_ref().unwrap();
    assert_eq!(fix_info.line_number, Some(3));
    assert!(
        fix_info
            .insert_text
            .as_ref()
            .unwrap()
            .contains("[link]: #link")
    );
}

#[test]
fn test_md052_fix_multiple_undefined() {
    let lines: Vec<&str> = vec!["This has [link1][ref1] and [link2][ref2].\n", "\n"];
    let config = Config::new();
    let params = make_params(&lines, &config);

    let rule = MD052;
    let errors = rule.lint(&params);
    assert_eq!(errors.len(), 2);

    // Both should have fix_info
    assert!(errors[0].fix_info.is_some());
    assert!(errors[1].fix_info.is_some());
}

#[test]
fn test_md052_fix_integration() {

    let content = "# Title\n\nSee [link][foo].\n";
    // Simulate CLI line splitting (same as lint_content)
    let lines: Vec<&str> = vec!["# Title\n", "\n", "See [link][foo].\n"];
    let config = Config::new();
    let params = make_params(&lines, &config);

    println!("Content: {:?}", content);
    println!("Lines ({}): {:?}", lines.len(), lines);

    let rule = MD052;
    let errors = rule.lint(&params);
    assert_eq!(errors.len(), 1);

    // Debug fix_info
    let fix_info = errors[0].fix_info.as_ref().unwrap();
    println!(
        "Fix info: line_number={:?}, edit_column={:?}, insert_text={:?}",
        fix_info.line_number, fix_info.edit_column, fix_info.insert_text
    );

    // Apply the fix (use original content, not lines)
    let fixed = apply_fixes(content, &errors);
    println!("Original (len={}):\n{:?}", content.len(), content);
    println!("Fixed (len={}):\n{:?}", fixed.len(), fixed);
    println!("Changed: {}", fixed != content);

    // The fixed content should contain the reference definition
    assert!(
        fixed.contains("[foo]: #link"),
        "Fixed content should contain reference definition"
    );
}

