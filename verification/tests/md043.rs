use mdlint::config::{Config, ConfigValue};
use mdlint::rules::md043::MD043;
use mdlint::types::{LintError, RuleParams, Token};
use mdlint::rules::md043::{parse_heading};

fn make_params<'a>(
    lines: &'a [&'a str],
    config: &'a Config,
) -> RuleParams<'a> {
    RuleParams {
        name: "test.md",
        version: "0.1.0",
        lines,
        front_matter_lines: &[],
        tokens: &[],
        config,
        workspace_headings: None,
    }
}

#[test]
fn test_md043_no_config() {
    let rule = MD043;
    let lines = vec!["# Title\n"];
    let config = Config::new();
    let params = make_params(&lines, &config);
    assert_eq!(rule.lint(&params).len(), 0);
}

#[test]
fn test_md043_matching_structure() {
    let rule = MD043;
    let lines = vec![
        "# Title\n",
        "\n",
        "## Section\n",
    ];
    let mut config = Config::new();
    config.insert(
        "headings".to_string(),
        ConfigValue::Array(vec![Some("# Title".to_string()), Some("## Section".to_string())]),
    );
    let params = make_params(&lines, &config);
    assert_eq!(rule.lint(&params).len(), 0);
}

#[test]
fn test_md043_missing_heading() {
    let rule = MD043;
    let lines = vec!["# Title\n"];
    let mut config = Config::new();
    config.insert(
        "headings".to_string(),
        ConfigValue::Array(vec![Some("# Title".to_string()), Some("## Section".to_string())]),
    );
    let params = make_params(&lines, &config);
    let errors = rule.lint(&params);
    assert_eq!(errors.len(), 1);
    assert!(
        errors[0]
            .error_detail
            .as_ref()
            .unwrap()
            .contains("Expected")
    );
}

#[test]
fn test_md043_extra_heading() {
    let rule = MD043;
    let lines = vec![
        "# Title\n",
        "\n",
        "## Section\n",
        "\n",
        "## Extra\n",
    ];
    let mut config = Config::new();
    config.insert("headings".to_string(), ConfigValue::Array(vec![Some("# Title".to_string())]));
    let params = make_params(&lines, &config);
    let errors = rule.lint(&params);
    assert_eq!(errors.len(), 2); // Two extra headings
}

#[test]
fn test_md043_wildcard() {
    let rule = MD043;
    let lines = vec![
        "# Any Title\n",
        "\n",
        "## Anything\n",
    ];
    let mut config = Config::new();
    config.insert("headings".to_string(), ConfigValue::Array(vec![Some("# *".to_string()), Some("## *".to_string())]));
    let params = make_params(&lines, &config);
    assert_eq!(rule.lint(&params).len(), 0);
}

#[test]
fn test_md043_any_heading_pattern() {
    let rule = MD043;
    let lines = vec![
        "# Title\n",
        "\n",
        "### Deep heading\n",
    ];
    let mut config = Config::new();
    config.insert("headings".to_string(), ConfigValue::Array(vec![Some("#+".to_string()), Some("#+".to_string())]));
    let params = make_params(&lines, &config);
    assert_eq!(rule.lint(&params).len(), 0);
}

#[test]
fn test_md043_wrong_level() {
    let rule = MD043;
    let lines = vec!["## Not Title\n"];
    let mut config = Config::new();
    config.insert("headings".to_string(), ConfigValue::Array(vec![Some("# Title".to_string())]));
    let params = make_params(&lines, &config);
    let errors = rule.lint(&params);
    assert_eq!(errors.len(), 1);
}

#[test]
fn test_parse_heading() {
    assert_eq!(parse_heading("# Title"), Some((1, "Title".to_string())));
    assert_eq!(parse_heading("## Sub"), Some((2, "Sub".to_string())));
    assert_eq!(parse_heading("###### Deep"), Some((6, "Deep".to_string())));
    assert_eq!(parse_heading("Not a heading"), None);
}

