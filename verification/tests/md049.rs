use mdlint::config::{Config, ConfigValue};
use mdlint::rules::md049::MD049;
use mdlint::types::{LintError, RuleParams, Token};

fn make_params<'a>(
    lines: &'a [&'a str],
    tokens: &'a [Token],
    config: &'a Config,
) -> RuleParams<'a> {
    RuleParams {
        name: "test.md",
        version: "0.1.0",
        lines,
        front_matter_lines: &[],
        tokens,
        config,
        workspace_headings: None,
    }
}

#[test]
fn test_md049_consistent_asterisks() {
    let rule = MD049;
    let lines: Vec<&str> = vec!["*one* and *two* and *three*\n"];
    let tokens = vec![];
    let config = Config::new();
    let params = make_params(&lines, &tokens, &config);
    let errors = rule.lint(&params);
    assert_eq!(errors.len(), 0);
}

#[test]
fn test_md049_consistent_underscores() {
    let rule = MD049;
    let lines: Vec<&str> = vec!["_one_ and _two_ and _three_\n"];
    let tokens = vec![];
    let config = Config::new();
    let params = make_params(&lines, &tokens, &config);
    let errors = rule.lint(&params);
    assert_eq!(errors.len(), 0);
}

#[test]
fn test_md049_mixed_styles_consistent_mode() {
    let rule = MD049;
    // First emphasis is asterisk, so underscore ones should be flagged
    let lines: Vec<&str> = vec!["*one* and _two_\n"];
    let tokens = vec![];
    let config = Config::new();
    let params = make_params(&lines, &tokens, &config);
    let errors = rule.lint(&params);
    assert_eq!(errors.len(), 1);
    assert_eq!(
        errors[0].error_detail.as_deref(),
        Some("Expected: asterisk; Actual: underscore")
    );
}

#[test]
fn test_md049_configured_asterisk_style() {
    let rule = MD049;
    let lines: Vec<&str> = vec!["_one_ and _two_\n"];
    let tokens = vec![];
    let mut config = Config::new();
    config.insert("style".to_string(), ConfigValue::Str("asterisk".to_string()));
    let params = make_params(&lines, &tokens, &config);
    let errors = rule.lint(&params);
    assert_eq!(errors.len(), 2);
}

#[test]
fn test_md049_configured_underscore_style() {
    let rule = MD049;
    let lines: Vec<&str> = vec!["*one* and *two*\n"];
    let tokens = vec![];
    let mut config = Config::new();
    config.insert("style".to_string(), ConfigValue::Str("underscore".to_string()));
    let params = make_params(&lines, &tokens, &config);
    let errors = rule.lint(&params);
    assert_eq!(errors.len(), 2);
}

#[test]
fn test_md049_fix_info_underscore_to_asterisk() {
    let rule = MD049;
    // First is asterisk, so underscore should get fix_info to convert to asterisk
    let lines: Vec<&str> = vec!["*one* and _two_\n"];
    let tokens = vec![];
    let config = Config::new();
    let params = make_params(&lines, &tokens, &config);
    let errors = rule.lint(&params);
    assert_eq!(errors.len(), 1);

    let fix = errors[0].fix_info.as_ref().expect("should have fix_info");
    assert_eq!(fix.line_number, None);
    // "_two_" starts at index 10, 1-based = 11
    assert_eq!(fix.edit_column, Some(11));
    assert_eq!(fix.delete_count, Some(5)); // "_two_".len() == 5
    assert_eq!(fix.insert_text, Some("*two*".to_string()));
}

#[test]
fn test_md049_fix_info_asterisk_to_underscore() {
    let rule = MD049;
    // First is underscore, so asterisk should get fix_info to convert to underscore
    let lines: Vec<&str> = vec!["_one_ and *two*\n"];
    let tokens = vec![];
    let config = Config::new();
    let params = make_params(&lines, &tokens, &config);
    let errors = rule.lint(&params);
    assert_eq!(errors.len(), 1);

    let fix = errors[0].fix_info.as_ref().expect("should have fix_info");
    // "*two*" starts at index 10, 1-based = 11
    assert_eq!(fix.edit_column, Some(11));
    assert_eq!(fix.delete_count, Some(5));
    assert_eq!(fix.insert_text, Some("_two_".to_string()));
}

#[test]
fn test_md049_fix_info_multiple_errors() {
    let rule = MD049;
    let lines: Vec<&str> = vec!["*ok* and _bad1_ and _bad2_\n"];
    let tokens = vec![];
    let config = Config::new();
    let params = make_params(&lines, &tokens, &config);
    let errors = rule.lint(&params);
    assert_eq!(errors.len(), 2);

    let fix0 = errors[0].fix_info.as_ref().expect("first fix_info");
    assert_eq!(fix0.insert_text, Some("*bad1*".to_string()));

    let fix1 = errors[1].fix_info.as_ref().expect("second fix_info");
    assert_eq!(fix1.insert_text, Some("*bad2*".to_string()));
}

#[test]
fn test_md049_no_emphasis() {
    let rule = MD049;
    let lines: Vec<&str> = vec!["Just plain text.\n"];
    let tokens = vec![];
    let config = Config::new();
    let params = make_params(&lines, &tokens, &config);
    let errors = rule.lint(&params);
    assert_eq!(errors.len(), 0);
}

#[test]
fn test_md049_does_not_match_strong() {
    let rule = MD049;
    // **bold** should NOT be treated as emphasis
    let lines: Vec<&str> = vec!["**bold** and __also bold__\n"];
    let tokens = vec![];
    let config = Config::new();
    let params = make_params(&lines, &tokens, &config);
    let errors = rule.lint(&params);
    assert_eq!(errors.len(), 0);
}

