use mdlint::config::{Config, ConfigValue};
use mdlint::rules::md053::MD053;
use mdlint::types::{LintError, RuleParams, Token};

fn make_params<'a>(
    lines: &'a [&'a str],
    config: &'a Config,
) -> RuleParams<'a> {
    RuleParams {
        name: "test.md",
        version: "0.1.0",
        lines,
        front_matter_lines: &[],
        tokens: &[],
        config,
        workspace_headings: None,
    }
}

#[test]
fn test_md053_all_used() {
    let lines: Vec<&str> = vec![
        "This has a [link][foo] reference.\n",
        "\n",
        "[foo]: https://example.com\n",
    ];
    let config = Config::new();
    let params = make_params(&lines, &config);

    let rule = MD053;
    let errors = rule.lint(&params);
    assert_eq!(errors.len(), 0);
}

#[test]
fn test_md053_unused_definition() {
    let lines: Vec<&str> = vec!["This is some text.\n", "\n", "[foo]: https://example.com\n"];
    let config = Config::new();
    let params = make_params(&lines, &config);

    let rule = MD053;
    let errors = rule.lint(&params);
    assert_eq!(errors.len(), 1);
    assert_eq!(errors[0].line_number, 3);
}

#[test]
fn test_md053_ignored_definition() {
    let lines: Vec<&str> = vec!["This is some text.\n", "\n", "[//]: https://example.com\n"];
    let config = Config::new();
    let params = make_params(&lines, &config);

    let rule = MD053;
    let errors = rule.lint(&params);
    assert_eq!(errors.len(), 0);
}

#[test]
fn test_md053_fix_unused_definition() {
    let lines: Vec<&str> = vec!["This is some text.\n", "\n", "[foo]: https://example.com\n"];
    let config = Config::new();
    let params = make_params(&lines, &config);

    let rule = MD053;
    let errors = rule.lint(&params);
    assert_eq!(errors.len(), 1);
    assert!(errors[0].fix_info.is_some());

    let fix = errors[0].fix_info.as_ref().unwrap();
    assert_eq!(fix.line_number, Some(3));
    assert_eq!(fix.edit_column, Some(1));
    assert_eq!(fix.delete_count, Some(-1)); // Delete entire line
    assert_eq!(fix.insert_text, None);
}

#[test]
fn test_md053_fix_multiple_unused() {
    let lines: Vec<&str> = vec![
        "This has a [link][bar] reference.\n",
        "\n",
        "[foo]: https://example.com\n",
        "[bar]: https://example.org\n",
        "[baz]: https://example.net\n",
    ];
    let config = Config::new();
    let params = make_params(&lines, &config);

    let rule = MD053;
    let errors = rule.lint(&params);
    assert_eq!(errors.len(), 2); // foo and baz are unused

    // Both should have fix_info
    for error in &errors {
        assert!(error.fix_info.is_some());
        let fix = error.fix_info.as_ref().unwrap();
        assert_eq!(fix.delete_count, Some(-1));
    }
}

#[test]
fn test_md053_no_fix_for_used() {
    let lines: Vec<&str> = vec![
        "This has a [link][foo] reference.\n",
        "\n",
        "[foo]: https://example.com\n",
    ];
    let config = Config::new();
    let params = make_params(&lines, &config);

    let rule = MD053;
    let errors = rule.lint(&params);
    assert_eq!(errors.len(), 0); // No errors, all definitions used
}

