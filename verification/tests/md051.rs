use mdlint::config::{Config, ConfigValue};
use mdlint::rules::md051::MD051;
use mdlint::types::{LintError, RuleParams, Token};
use mdlint::workspace::WorkspaceHeadings;
use mdlint::helpers::collect_heading_ids;

#[test]
fn test_collect_heading_ids_duplicates() {
    let lines = vec!["# Title\n", "## Section\n", "## Section\n", "## Section\n"];
    let ids = collect_heading_ids(&lines);
    assert_eq!(ids, vec!["title", "section", "section-1", "section-2"]);
}

#[test]
fn test_md051_valid_fragment() {
    let rule = MD051;
    let lines = vec![
        "# Title\n",
        "\n",
        "## Getting Started\n",
        "\n",
        "See [title](#title) and [start](#getting-started).\n",
    ];
    let config = Config::new();
    let params = RuleParams::test(&lines, &config);
    let errors = rule.lint(&params);
    assert_eq!(errors.len(), 0);
}

#[test]
fn test_md051_invalid_fragment() {
    let rule = MD051;
    let lines = vec!["# Title\n", "\n", "See [missing](#nonexistent).\n"];
    let config = Config::new();
    let params = RuleParams::test(&lines, &config);
    let errors = rule.lint(&params);
    assert_eq!(errors.len(), 1);
    assert!(
        errors[0]
            .error_detail
            .as_ref()
            .unwrap()
            .contains("nonexistent")
    );
}

#[test]
fn test_md051_duplicate_heading_ids() {
    let rule = MD051;
    let lines = vec![
        "# Title\n",
        "## Section\n",
        "## Section\n",
        "\n",
        "See [first](#section) and [second](#section-1).\n",
    ];
    let config = Config::new();
    let params = RuleParams::test(&lines, &config);
    let errors = rule.lint(&params);
    assert_eq!(errors.len(), 0);
}

#[test]
fn test_md051_fragment_in_code_block_ignored() {
    let rule = MD051;
    let lines = vec!["# Title\n", "```\n", "[link](#nonexistent)\n", "```\n"];
    let config = Config::new();
    let params = RuleParams::test(&lines, &config);
    let errors = rule.lint(&params);
    assert_eq!(errors.len(), 0);
}

#[test]
fn test_md051_multiple_fragments_one_line() {
    let rule = MD051;
    let lines = vec![
        "# Title\n",
        "## About\n",
        "\n",
        "See [a](#title) and [b](#missing).\n",
    ];
    let config = Config::new();
    let params = RuleParams::test(&lines, &config);
    let errors = rule.lint(&params);
    assert_eq!(errors.len(), 1);
}

#[test]
fn test_md051_punctuation_only_heading_no_panic() {
    // Heading with only punctuation produces empty ID after stripping
    let rule = MD051;
    let lines = vec!["## ???\n", "\n", "[link](#)\n"];
    let config = Config::new();
    let params = RuleParams::test(&lines, &config);
    // Should not panic — just produce an error for invalid fragment
    let _errors = rule.lint(&params);
}

#[test]
fn test_md051_unicode_heading() {
    let rule = MD051;
    let lines = vec![
        "# Caf\u{00e9} Guide\n",
        "\n",
        "[link](#caf\u{00e9}-guide)\n",
    ];
    let config = Config::new();
    let params = RuleParams::test(&lines, &config);
    let errors = rule.lint(&params);
    assert_eq!(errors.len(), 0, "Unicode heading IDs should match");
}

#[test]
fn test_md051_cross_file_valid_fragment() {
    let rule = MD051;
    let lines = vec!["# Local\n", "\n", "[link](other.md#intro)\n"];
    let config = Config::new();

    let mut workspace = WorkspaceHeadings::new();
    workspace.insert("other.md".to_string(), vec!["intro".to_string()]);

    let params = RuleParams {
        name: "test.md",
        version: "0.1.0",
        lines: &lines,
        front_matter_lines: &[],
        tokens: &[],
        config: &config,
        workspace_headings: Some(&workspace),
    };
    let errors = rule.lint(&params);
    assert_eq!(errors.len(), 0);
}

#[test]
fn test_md051_cross_file_invalid_fragment() {
    let rule = MD051;
    let lines = vec!["# Local\n", "\n", "[link](other.md#nonexistent)\n"];
    let config = Config::new();

    let mut workspace = WorkspaceHeadings::new();
    workspace.insert("other.md".to_string(), vec!["intro".to_string()]);

    let params = RuleParams {
        name: "test.md",
        version: "0.1.0",
        lines: &lines,
        front_matter_lines: &[],
        tokens: &[],
        config: &config,
        workspace_headings: Some(&workspace),
    };
    let errors = rule.lint(&params);
    assert_eq!(errors.len(), 1);
    assert!(
        errors[0]
            .error_detail
            .as_ref()
            .unwrap()
            .contains("nonexistent")
    );
    assert!(
        errors[0]
            .error_detail
            .as_ref()
            .unwrap()
            .contains("other.md")
    );
}

#[test]
fn test_md051_cross_file_unknown_file_skipped() {
    let rule = MD051;
    let lines = vec!["# Local\n", "\n", "[link](unknown.md#heading)\n"];
    let config = Config::new();

    let workspace = WorkspaceHeadings::new(); // empty workspace

    let params = RuleParams {
        name: "test.md",
        version: "0.1.0",
        lines: &lines,
        front_matter_lines: &[],
        tokens: &[],
        config: &config,
        workspace_headings: Some(&workspace),
    };
    let errors = rule.lint(&params);
    assert_eq!(errors.len(), 0, "Unknown files should be skipped silently");
}

#[test]
fn test_md051_cross_file_url_skipped() {
    let rule = MD051;
    let lines = vec!["# Local\n", "\n", "[link](https://example.com#fragment)\n"];
    let config = Config::new();

    let workspace = WorkspaceHeadings::new();

    let params = RuleParams {
        name: "test.md",
        version: "0.1.0",
        lines: &lines,
        front_matter_lines: &[],
        tokens: &[],
        config: &config,
        workspace_headings: Some(&workspace),
    };
    let errors = rule.lint(&params);
    assert_eq!(errors.len(), 0, "URL links should be skipped");
}

#[test]
fn test_md051_cross_file_no_workspace_context() {
    let rule = MD051;
    let lines = vec!["# Local\n", "\n", "[link](other.md#heading)\n"];
    let config = Config::new();

    // No workspace context — cross-file validation skipped
    let params = RuleParams::test(&lines, &config);
    let errors = rule.lint(&params);
    assert_eq!(
        errors.len(),
        0,
        "Cross-file links should be skipped without workspace context"
    );
}

