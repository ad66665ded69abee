use mdlint::config::{Config, ConfigValue};
use mdlint::rules::md054::MD054;
use mdlint::types::{LintError, RuleParams, Token};

fn make_params<'a>(
    lines: &'a [&'a str],
    config: &'a Config,
) -> RuleParams<'a> {
    RuleParams {
        name: "test.md",
        version: "0.1.0",
        lines,
        front_matter_lines: &[],
        tokens: &[],
        config,
        workspace_headings: None,
    }
}

#[test]
fn test_md054_all_styles_allowed() {
    let lines = vec![
        "[inline link](https://example.com)\n",
        "[full ref][label]\n",
        "[collapsed ref][]\n",
        "[shortcut ref] is here\n",
        "<https://example.com>\n",
    ];
    let config = Config::new();
    let params = make_params(&lines, &config);
    let rule = MD054;
    let errors = rule.lint(&params);
    assert_eq!(errors.len(), 0);
}

#[test]
fn test_md054_inline_only() {
    let lines = vec!["[full ref][label]\n"];
    let mut config = Config::new();
    config.insert("full".to_string(), ConfigValue::Bool(false));
    let params = make_params(&lines, &config);
    let rule = MD054;
    let errors = rule.lint(&params);
    assert_eq!(errors.len(), 1);
    assert_eq!(errors[0].line_number, 1);
    assert!(
        errors[0]
            .error_detail
            .as_ref()
            .unwrap()
            .contains("Full reference")
    );
}

#[test]
fn test_md054_autolink_disabled() {
    let lines = vec!["<https://example.com>\n"];
    let mut config = Config::new();
    config.insert("autolink".to_string(), ConfigValue::Bool(false));
    let params = make_params(&lines, &config);
    let rule = MD054;
    let errors = rule.lint(&params);
    assert_eq!(errors.len(), 1);
    assert_eq!(errors[0].line_number, 1);
    assert!(
        errors[0]
            .error_detail
            .as_ref()
            .unwrap()
            .contains("Autolink")
    );
}

#[test]
fn test_md054_fix_collapsed_to_shortcut() {
    // Collapsed disabled, shortcut allowed -> fix removes []
    let lines = vec!["[text][] is a link\n"];
    let mut config = Config::new();
    config.insert("collapsed".to_string(), ConfigValue::Bool(false));
    let params = make_params(&lines, &config);
    let errors = MD054.lint(&params);
    assert_eq!(errors.len(), 1);
    let fix = errors[0].fix_info.as_ref().expect("Should have fix_info");
    assert_eq!(fix.edit_column, Some(1));
    assert_eq!(fix.delete_count, Some(8)); // "[text][]" is 8 chars
    assert_eq!(fix.insert_text, Some("[text]".to_string()));
}

#[test]
fn test_md054_fix_shortcut_to_collapsed() {
    // Shortcut disabled, collapsed allowed -> fix inserts []
    let lines = vec!["[text] is a link\n"];
    let mut config = Config::new();
    config.insert("shortcut".to_string(), ConfigValue::Bool(false));
    let params = make_params(&lines, &config);
    let errors = MD054.lint(&params);
    assert_eq!(errors.len(), 1);
    let fix = errors[0].fix_info.as_ref().expect("Should have fix_info");
    // Insert [] after the ] at position 6 (1-based: 7)
    assert_eq!(fix.edit_column, Some(7));
    assert_eq!(fix.delete_count, Some(0));
    assert_eq!(fix.insert_text, Some("[]".to_string()));
}

#[test]
fn test_md054_fix_autolink_to_inline() {
    // Autolink disabled, inline allowed -> fix converts to inline
    let lines = vec!["<https://example.com>\n"];
    let mut config = Config::new();
    config.insert("autolink".to_string(), ConfigValue::Bool(false));
    let params = make_params(&lines, &config);
    let errors = MD054.lint(&params);
    assert_eq!(errors.len(), 1);
    let fix = errors[0].fix_info.as_ref().expect("Should have fix_info");
    assert_eq!(fix.edit_column, Some(1));
    assert_eq!(fix.delete_count, Some(21)); // "<https://example.com>"
    assert_eq!(
        fix.insert_text,
        Some("[https://example.com](https://example.com)".to_string())
    );
}

#[test]
fn test_md054_no_fix_when_no_safe_target() {
    // Both collapsed and shortcut disabled -> no fix for collapsed
    let lines = vec!["[text][] is a link\n"];
    let mut config = Config::new();
    config.insert("collapsed".to_string(), ConfigValue::Bool(false));
    config.insert("shortcut".to_string(), ConfigValue::Bool(false));
    let params = make_params(&lines, &config);
    let errors = MD054.lint(&params);
    assert_eq!(errors.len(), 1);
    assert!(
        errors[0].fix_info.is_none(),
        "Should have no fix_info when no safe target"
    );
}

#[test]
fn test_md054_fix_autolink_no_fix_when_inline_disabled() {
    // Autolink disabled AND inline disabled -> no fix
    let lines = vec!["<https://example.com>\n"];
    let mut config = Config::new();
    config.insert("autolink".to_string(), ConfigValue::Bool(false));
    config.insert("inline".to_string(), ConfigValue::Bool(false));
    let params = make_params(&lines, &config);
    let errors = MD054.lint(&params);
    assert_eq!(errors.len(), 1);
    assert!(
        errors[0].fix_info.is_none(),
        "Should have no fix when inline is also disabled"
    );
}


#[test]
fn md054_shortcut_at_end_of_line() {
    let lines = vec!["See [text]\n"];
    let mut config = Config::new();
    config.insert("shortcut".to_string(), ConfigValue::Bool(false));
    let params = make_params(&lines, &config);
    let errors = MD054.lint(&params);
    assert_eq!(errors.len(), 1);
    assert_eq!(errors[0].line_number, 1);
    assert_eq!(
        errors[0].error_detail,
        Some("Shortcut reference style is not allowed".to_string())
    );
    let fix = errors[0].fix_info.as_ref().expect("Should have fix_info");
    assert_eq!(fix.edit_column, Some(11));
    assert_eq!(fix.insert_text, Some("[]".to_string()));
}
