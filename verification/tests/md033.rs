use mdlint::config::{Config, ConfigValue};
use mdlint::rules::md033::MD033;
use mdlint::types::{LintError, RuleParams, Token};
use mdlint::rules::md033::{get_html_tag_info};

#[test]
fn test_get_html_tag_info() {
    let info = get_html_tag_info("<div>");
    assert!(info.is_some());
    let info = info.unwrap();
    assert_eq!(info.name, "div");
    assert!(!info.close);

    let info = get_html_tag_info("</div>");
    assert!(info.is_some());
    let info = info.unwrap();
    assert_eq!(info.name, "div");
    assert!(info.close);

    let info = get_html_tag_info("<br/>");
    assert!(info.is_some());
    let info = info.unwrap();
    assert_eq!(info.name, "br"); // Self-closing tags should have the tag name without '/'
    assert!(!info.close);

    let info = get_html_tag_info("<!-- comment -->");
    assert!(info.is_none());
}

#[test]
fn test_md033_no_html() {
    let tokens = vec![];
    let lines = vec!["# Heading\n", "Some text\n"];

    let params = RuleParams {
        name: "test.md",
        version: "0.1.0",
        lines: &lines,
        front_matter_lines: &[],
        tokens: &tokens,
        config: &Config::new(),
        workspace_headings: None,
    };

    let rule = MD033;
    let errors = rule.lint(&params);
    assert_eq!(errors.len(), 0);
}

#[test]
fn test_md033_with_html() {
    let tokens = vec![Token {
        token_type: "htmlText".to_string(),
        start_line: 1,
        start_column: 1,
        end_line: 1,
        end_column: 6,
        text: "<div>".to_string(),
        children: vec![],
        parent: None,
        metadata: Vec::new(),
    }];

    let lines = vec!["<div>\n"];

    let params = RuleParams {
        name: "test.md",
        version: "0.1.0",
        lines: &lines,
        front_matter_lines: &[],
        tokens: &tokens,
        config: &Config::new(),
        workspace_headings: None,
    };

    let rule = MD033;
    let errors = rule.lint(&params);
    assert_eq!(errors.len(), 1);
    assert_eq!(errors[0].error_detail, Some("Element: div".to_string()));
}

#[test]
fn test_md033_with_allowed_elements() {
    let tokens = vec![Token {
        token_type: "htmlText".to_string(),
        start_line: 1,
        start_column: 1,
        end_line: 1,
        end_column: 6,
        text: "<div>".to_string(),
        children: vec![],
        parent: None,
        metadata: Vec::new(),
    }];

    let lines = vec!["<div>\n"];

    let mut config = Config::new();
    config.insert("allowed_elements".to_string(), ConfigValue::Array(vec![Some("div".to_string())]));

    let params = RuleParams {
        name: "test.md",
        version: "0.1.0",
        lines: &lines,
        front_matter_lines: &[],
        tokens: &tokens,
        config: &config,
        workspace_headings: None,
    };

    let rule = MD033;
    let errors = rule.lint(&params);
    assert_eq!(errors.len(), 0);
}

#[test]
fn test_md033_closing_tag_ignored() {
    let tokens = vec![Token {
        token_type: "htmlText".to_string(),
        start_line: 1,
        start_column: 1,
        end_line: 1,
        end_column: 7,
        text: "</div>".to_string(),
        children: vec![],
        parent: None,
        metadata: Vec::new(),
    }];

    let lines = vec!["</div>\n"];

    let params = RuleParams {
        name: "test.md",
        version: "0.1.0",
        lines: &lines,
        front_matter_lines: &[],
        tokens: &tokens,
        config: &Config::new(),
        workspace_headings: None,
    };

    let rule = MD033;
    let errors = rule.lint(&params);
    assert_eq!(errors.len(), 0);
}

