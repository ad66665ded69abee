use mdlint::config::{Config, ConfigValue};
use mdlint::rules::md059::MD059;
use mdlint::types::{LintError, RuleParams, Severity, Token};

fn make_params<'a>(
    lines: &'a [&'a str],
    config: &'a Config,
) -> RuleParams<'a> {
    RuleParams {
        name: "test.md",
        version: "0.1.0",
        lines,
        front_matter_lines: &[],
        tokens: &[],
        config,
        workspace_headings: None,
    }
}

#[test]
fn test_md059_no_emphasis_in_math() {
    let lines = vec!["$x^2$\n"];
    let config = Config::new();
    let params = make_params(&lines, &config);
    let rule = MD059;
    let errors = rule.lint(&params);
    assert_eq!(errors.len(), 0);
}

#[test]
fn test_md059_emphasis_in_math() {
    let lines = vec!["$_text_$\n"];
    let config = Config::new();
    let params = make_params(&lines, &config);
    let rule = MD059;
    let errors = rule.lint(&params);
    assert_eq!(errors.len(), 1);
    assert_eq!(errors[0].line_number, 1);
    assert_eq!(errors[0].severity, Severity::Warning);
    assert!(
        errors[0]
            .error_detail
            .as_ref()
            .unwrap()
            .contains("underscore")
    );
}

#[test]
fn test_md059_fix_info_inline_math() {
    // "$_text_$" — underscore match at column 2 (1-based), length 6
    let lines = vec!["$_text_$"];
    let config = Config::new();
    let params = make_params(&lines, &config);
    let errors = MD059.lint(&params);
    assert_eq!(errors.len(), 1);
    let fix = errors[0].fix_info.as_ref().expect("Should have fix_info");
    assert_eq!(fix.edit_column, Some(2)); // 1-based: after the $
    assert_eq!(fix.delete_count, Some(6)); // "_text_" is 6 chars
    assert_eq!(fix.insert_text, Some("\\_text\\_".to_string()));
}

#[test]
fn test_md059_fix_info_display_math_block() {
    // The fix should target the content line (line 2), not the $$ start line
    let lines = vec!["$$\n", "_text_\n", "$$\n"];
    let config = Config::new();
    let params = make_params(&lines, &config);
    let errors = MD059.lint(&params);
    assert_eq!(errors.len(), 1);
    assert_eq!(errors[0].line_number, 2, "Error should be on content line");
    let fix = errors[0].fix_info.as_ref().expect("Should have fix_info");
    assert_eq!(fix.edit_column, Some(1));
    assert_eq!(fix.delete_count, Some(6));
    assert_eq!(fix.insert_text, Some("\\_text\\_".to_string()));
}

#[test]
fn test_md059_fix_info_inline_display_math() {
    // "$$_x_$$" — underscore match inside $$...$$
    let lines = vec!["$$_x_$$"];
    let config = Config::new();
    let params = make_params(&lines, &config);
    let errors = MD059.lint(&params);
    assert_eq!(errors.len(), 1);
    let fix = errors[0].fix_info.as_ref().expect("Should have fix_info");
    assert_eq!(fix.edit_column, Some(3)); // after $$
    assert_eq!(fix.delete_count, Some(3)); // "_x_"
    assert_eq!(fix.insert_text, Some("\\_x\\_".to_string()));
}

#[test]
fn test_md059_multiple_underscores() {
    // Two emphasis patterns in one math span
    let lines = vec!["$_a_ + _b_$"];
    let config = Config::new();
    let params = make_params(&lines, &config);
    let errors = MD059.lint(&params);
    assert_eq!(errors.len(), 2);
    assert_eq!(
        errors[0].fix_info.as_ref().unwrap().insert_text,
        Some("\\_a\\_".to_string())
    );
    assert_eq!(
        errors[1].fix_info.as_ref().unwrap().insert_text,
        Some("\\_b\\_".to_string())
    );
}

#[test]
fn test_md059_subscript_no_trigger() {
    // Single underscore (subscript like x_1) should not trigger — needs _text_ pattern
    let lines = vec!["$x_1$"];
    let config = Config::new();
    let params = make_params(&lines, &config);
    let errors = MD059.lint(&params);
    assert_eq!(errors.len(), 0);
}

#[test]
fn test_md059_indented_dollar_dollar() {
    // Indented $$ should still toggle display math
    let lines = vec!["  $$\n", "  _text_\n", "  $$\n"];
    let config = Config::new();
    let params = make_params(&lines, &config);
    let errors = MD059.lint(&params);
    // The $$ lines have extra whitespace so `trimmed.trim() == "$$"` should match
    assert_eq!(
        errors.len(),
        1,
        "Indented $$ should toggle display math block"
    );
}

