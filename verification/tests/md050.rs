use mdlint::config::{Config, ConfigValue};
use mdlint::rules::md050::MD050;
use mdlint::types::{LintError, RuleParams, Token};

#[test]
fn test_md050_consistent_double_asterisks() {
    let rule = MD050;
    let lines: Vec<&str> = vec!["**bold** text\n"];
    let tokens = vec![];
    let config = Config::new();
    let params = RuleParams::test_with_tokens(&lines, &tokens, &config);
    let errors = rule.lint(&params);
    assert_eq!(errors.len(), 0);
}

#[test]
fn test_md050_consistent_double_underscores() {
    let rule = MD050;
    let lines: Vec<&str> = vec!["__bold__ text\n"];
    let tokens = vec![];
    let config = Config::new();
    let params = RuleParams::test_with_tokens(&lines, &tokens, &config);
    let errors = rule.lint(&params);
    assert_eq!(errors.len(), 0);
}

#[test]
fn test_md050_mixed_styles() {
    let rule = MD050;
    let lines: Vec<&str> = vec!["**bold** and __also bold__\n"];
    let tokens = vec![];
    let config = Config::new();
    let params = RuleParams::test_with_tokens(&lines, &tokens, &config);
    let errors = rule.lint(&params);
    assert_eq!(errors.len(), 1);
}

#[test]
fn test_md050_mixed_styles_consistent_mode() {
    let rule = MD050;
    // First strong is asterisk, so underscore ones should be flagged
    let lines: Vec<&str> = vec!["**one** and __two__\n"];
    let tokens = vec![];
    let config = Config::new();
    let params = RuleParams::test_with_tokens(&lines, &tokens, &config);
    let errors = rule.lint(&params);
    assert_eq!(errors.len(), 1);
    assert_eq!(
        errors[0].error_detail.as_deref(),
        Some("Expected: asterisk; Actual: underscore")
    );
}

#[test]
fn test_md050_configured_asterisk_style() {
    let rule = MD050;
    let lines: Vec<&str> = vec!["__one__ and __two__\n"];
    let tokens = vec![];
    let mut config = Config::new();
    config.insert("style".to_string(), ConfigValue::Str("asterisk".to_string()));
    let params = RuleParams::test_with_tokens(&lines, &tokens, &config);
    let errors = rule.lint(&params);
    assert_eq!(errors.len(), 2);
}

#[test]
fn test_md050_configured_underscore_style() {
    let rule = MD050;
    let lines: Vec<&str> = vec!["**one** and **two**\n"];
    let tokens = vec![];
    let mut config = Config::new();
    config.insert("style".to_string(), ConfigValue::Str("underscore".to_string()));
    let params = RuleParams::test_with_tokens(&lines, &tokens, &config);
    let errors = rule.lint(&params);
    assert_eq!(errors.len(), 2);
}

#[test]
fn test_md050_fix_info_underscore_to_asterisk() {
    let rule = MD050;
    // First is asterisk, so underscore should get fix_info
    let lines: Vec<&str> = vec!["**one** and __two__\n"];
    let tokens = vec![];
    let config = Config::new();
    let params = RuleParams::test_with_tokens(&lines, &tokens, &config);
    let errors = rule.lint(&params);
    assert_eq!(errors.len(), 1);

    let fix = errors[0].fix_info.as_ref().expect("should have fix_info");
    assert_eq!(fix.line_number, None);
    // "__two__" starts at index 12, 1-based = 13
    assert_eq!(fix.edit_column, Some(13));
    assert_eq!(fix.delete_count, Some(7)); // "__two__".len() == 7
    assert_eq!(fix.insert_text, Some("**two**".to_string()));
}

#[test]
fn test_md050_fix_info_asterisk_to_underscore() {
    let rule = MD050;
    // First is underscore, so asterisk should get fix_info
    let lines: Vec<&str> = vec!["__one__ and **two**\n"];
    let tokens = vec![];
    let config = Config::new();
    let params = RuleParams::test_with_tokens(&lines, &tokens, &config);
    let errors = rule.lint(&params);
    assert_eq!(errors.len(), 1);

    let fix = errors[0].fix_info.as_ref().expect("should have fix_info");
    // "**two**" starts at index 12, 1-based = 13
    assert_eq!(fix.edit_column, Some(13));
    assert_eq!(fix.delete_count, Some(7));
    assert_eq!(fix.insert_text, Some("__two__".to_string()));
}

#[test]
fn test_md050_fix_info_multiple_errors() {
    let rule = MD050;
    let lines: Vec<&str> = vec!["**ok** and __bad1__ and __bad2__\n"];
    let tokens = vec![];
    let config = Config::new();
    let params = RuleParams::test_with_tokens(&lines, &tokens, &config);
    let errors = rule.lint(&params);
    assert_eq!(errors.len(), 2);

    let fix0 = errors[0].fix_info.as_ref().expect("first fix_info");
    assert_eq!(fix0.insert_text, Some("**bad1**".to_string()));

    let fix1 = errors[1].fix_info.as_ref().expect("second fix_info");
    assert_eq!(fix1.insert_text, Some("**bad2**".to_string()));
}

#[test]
fn test_md050_no_strong() {
    let rule = MD050;
    let lines: Vec<&str> = vec!["Just plain text.\n"];
    let tokens = vec![];
    let config = Config::new();
    let params = RuleParams::test_with_tokens(&lines, &tokens, &config);
    let errors = rule.lint(&params);
    assert_eq!(errors.len(), 0);
}

#[test]
fn test_md050_multiline() {
    let rule = MD050;
    let lines: Vec<&str> = vec!["**first** line\n", "__second__ line\n"];
    let tokens = vec![];
    let config = Config::new();
    let params = RuleParams::test_with_tokens(&lines, &tokens, &config);
    let errors = rule.lint(&params);
    assert_eq!(errors.len(), 1);
    assert_eq!(errors[0].line_number, 2);

    let fix = errors[0].fix_info.as_ref().expect("should have fix_info");
    assert_eq!(fix.edit_column, Some(1));
    assert_eq!(fix.delete_count, Some(10)); // "__second__".len() == 10
    assert_eq!(fix.insert_text, Some("**second**".to_string()));
}

