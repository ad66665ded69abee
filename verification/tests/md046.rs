use mdlint::config::{Config, ConfigValue};
use mdlint::rules::md046::MD046;
use mdlint::types::{LintError, RuleParams, Token};

fn make_params<'a>(
    lines: &'a [&'a str],
    config: &'a Config,
) -> RuleParams<'a> {
    RuleParams {
        name: "test.md",
        version: "0.1.0",
        lines,
        front_matter_lines: &[],
        tokens: &[],
        config,
        workspace_headings: None,
    }
}

#[test]
fn test_md046_fenced_only() {
    let lines = vec!["# Title\n", "\n", "```\n", "code\n", "```\n"];
    let config = Config::new();
    let params = make_params(&lines, &config);
    let errors = MD046.lint(&params);
    assert_eq!(errors.len(), 0, "Fenced-only should not trigger MD046");
}

#[test]
fn test_md046_indented_only() {
    let lines = vec!["# Title\n", "\n", "    code block\n", "    more code\n"];
    let config = Config::new();
    let params = make_params(&lines, &config);
    let errors = MD046.lint(&params);
    assert_eq!(errors.len(), 0, "Indented-only should not trigger MD046");
}

#[test]
fn test_md046_mixed_styles_consistent() {
    let lines = vec![
        "# Title\n",
        "\n",
        "```\n",
        "fenced code\n",
        "```\n",
        "\n",
        "    indented code\n",
    ];
    let config = Config::new();
    let params = make_params(&lines, &config);
    let errors = MD046.lint(&params);
    // Primary error + 0 helper deletes (single-line indented block)
    let main_errors: Vec<_> = errors.iter().filter(|e| !e.fix_only).collect();
    assert_eq!(
        main_errors.len(),
        1,
        "Mixed styles should report indented block"
    );
    assert_eq!(main_errors[0].line_number, 7);
    assert_eq!(
        main_errors[0].error_detail,
        Some("Expected: fenced; Actual: indented".to_string())
    );
}

#[test]
fn test_md046_style_fenced() {
    // With style=fenced, indented blocks are errors even without fenced blocks
    let lines = vec!["# Title\n", "\n", "    indented code\n"];
    let mut config = Config::new();
    config.insert(
        "style".to_string(),
        ConfigValue::Str("fenced".to_string()),
    );
    let params = make_params(&lines, &config);
    let errors = MD046.lint(&params);
    let main_errors: Vec<_> = errors.iter().filter(|e| !e.fix_only).collect();
    assert_eq!(main_errors.len(), 1);
    assert_eq!(main_errors[0].line_number, 3);
}

#[test]
fn test_md046_style_indented() {
    // With style=indented, fenced blocks are errors even without indented blocks
    let lines = vec!["# Title\n", "\n", "```\n", "code\n", "```\n"];
    let mut config = Config::new();
    config.insert(
        "style".to_string(),
        ConfigValue::Str("indented".to_string()),
    );
    let params = make_params(&lines, &config);
    let errors = MD046.lint(&params);
    let main_errors: Vec<_> = errors.iter().filter(|e| !e.fix_only).collect();
    assert_eq!(main_errors.len(), 1);
    assert_eq!(main_errors[0].line_number, 3);
}

#[test]
fn test_md046_tilde_fenced() {
    let lines = vec!["~~~\n", "code\n", "~~~\n", "\n", "    indented\n"];
    let config = Config::new();
    let params = make_params(&lines, &config);
    let errors = MD046.lint(&params);
    let main_errors: Vec<_> = errors.iter().filter(|e| !e.fix_only).collect();
    assert_eq!(
        main_errors.len(),
        1,
        "Tilde fenced + indented should trigger mixed style error"
    );
    assert_eq!(main_errors[0].line_number, 5);
}

#[test]
fn test_md046_no_code_blocks() {
    let lines = vec!["# Title\n", "\n", "Just a paragraph.\n"];
    let config = Config::new();
    let params = make_params(&lines, &config);
    let errors = MD046.lint(&params);
    assert_eq!(errors.len(), 0, "No code blocks should not trigger MD046");
}

#[test]
fn test_md046_indented_needs_blank_before() {
    // 4-space indent immediately after a paragraph is NOT an indented code block
    let lines = vec!["# Title\n", "Some text\n", "    not code\n"];
    let config = Config::new();
    let params = make_params(&lines, &config);
    let errors = MD046.lint(&params);
    assert_eq!(errors.len(), 0);
}

#[test]
fn test_md046_multiple_blocks() {
    let lines = vec![
        "# Title\n",
        "\n",
        "    indented 1\n",
        "\n",
        "paragraph\n",
        "\n",
        "    indented 2\n",
        "\n",
        "```\n",
        "fenced\n",
        "```\n",
    ];
    let mut config = Config::new();
    config.insert(
        "style".to_string(),
        ConfigValue::Str("fenced".to_string()),
    );
    let params = make_params(&lines, &config);
    let errors = MD046.lint(&params);
    let main_errors: Vec<_> = errors.iter().filter(|e| !e.fix_only).collect();
    assert_eq!(
        main_errors.len(),
        2,
        "Both indented blocks should be flagged"
    );
}

#[test]
fn test_md046_has_fix_info() {
    let lines = vec!["```\n", "code\n", "```\n", "\n", "    indented\n"];
    let config = Config::new();
    let params = make_params(&lines, &config);
    let errors = MD046.lint(&params);
    let main_errors: Vec<_> = errors.iter().filter(|e| !e.fix_only).collect();
    assert_eq!(main_errors.len(), 1);
    assert!(
        main_errors[0].fix_info.is_some(),
        "MD046 should have fix_info"
    );
}

#[test]
fn test_md046_fix_indented_to_fenced() {
    // Single indented block with style=fenced
    let lines = vec!["# Title\n", "\n", "    code line 1\n", "    code line 2\n"];
    let mut config = Config::new();
    config.insert(
        "style".to_string(),
        ConfigValue::Str("fenced".to_string()),
    );
    let params = make_params(&lines, &config);
    let errors = MD046.lint(&params);
    let main_errors: Vec<_> = errors.iter().filter(|e| !e.fix_only).collect();
    assert_eq!(main_errors.len(), 1);
    let fix = main_errors[0]
        .fix_info
        .as_ref()
        .expect("Should have fix_info");
    assert_eq!(fix.line_number, Some(3));
    assert_eq!(fix.edit_column, Some(1));
    assert_eq!(fix.delete_count, Some(i32::MAX));
    // Replacement should be the fenced version
    let expected_text = "```\ncode line 1\ncode line 2\n```";
    assert_eq!(fix.insert_text, Some(expected_text.to_string()));
}

#[test]
fn test_md046_fix_fenced_to_indented() {
    // Single fenced block with style=indented
    let lines = vec![
        "# Title\n",
        "\n",
        "```\n",
        "code line 1\n",
        "code line 2\n",
        "```\n",
    ];
    let mut config = Config::new();
    config.insert(
        "style".to_string(),
        ConfigValue::Str("indented".to_string()),
    );
    let params = make_params(&lines, &config);
    let errors = MD046.lint(&params);
    let main_errors: Vec<_> = errors.iter().filter(|e| !e.fix_only).collect();
    assert_eq!(main_errors.len(), 1);
    let fix = main_errors[0]
        .fix_info
        .as_ref()
        .expect("Should have fix_info");
    assert_eq!(fix.line_number, Some(3));
    assert_eq!(fix.edit_column, Some(1));
    assert_eq!(fix.delete_count, Some(i32::MAX));
    // Replacement should be the indented version
    let expected_text = "    code line 1\n    code line 2";
    assert_eq!(fix.insert_text, Some(expected_text.to_string()));
}

#[test]
fn test_md046_fix_helper_delete_lines() {
    // Fenced block with 2 content lines: opening + 2 content + closing = 4 lines
    // Primary fix on line 3, helpers delete lines 4, 5, 6
    let lines = vec!["# Title\n", "\n", "```\n", "line 1\n", "line 2\n", "```\n"];
    let mut config = Config::new();
    config.insert(
        "style".to_string(),
        ConfigValue::Str("indented".to_string()),
    );
    let params = make_params(&lines, &config);
    let errors = MD046.lint(&params);
    // 1 primary + 3 helper deletes (lines 4, 5, 6)
    let helper_errors: Vec<_> = errors.iter().filter(|e| e.fix_only).collect();
    assert_eq!(helper_errors.len(), 3);
    for (i, helper) in helper_errors.iter().enumerate() {
        let fix = helper.fix_info.as_ref().unwrap();
        assert_eq!(fix.delete_count, Some(-1));
        assert_eq!(fix.line_number, Some(4 + i));
    }
}

#[test]
fn test_md046_fix_empty_fenced_block() {
    // Empty fenced block -> indented
    let lines = vec!["# Title\n", "\n", "```\n", "```\n"];
    let mut config = Config::new();
    config.insert(
        "style".to_string(),
        ConfigValue::Str("indented".to_string()),
    );
    let params = make_params(&lines, &config);
    let errors = MD046.lint(&params);
    let main_errors: Vec<_> = errors.iter().filter(|e| !e.fix_only).collect();
    assert_eq!(main_errors.len(), 1);
    let fix = main_errors[0]
        .fix_info
        .as_ref()
        .expect("Should have fix_info");
    assert_eq!(fix.insert_text, Some("    ".to_string()));
}

#[test]
fn test_md046_unclosed_fence_no_panic() {
    // Unclosed fence at EOF should not panic
    let lines = vec!["# Title\n", "\n", "```rust\n", "code here\n"];
    let config = Config::new();
    let params = make_params(&lines, &config);
    let _errors = MD046.lint(&params);
    // Should not panic, and unclosed fence is not counted as a complete block
}


#[test]
fn md046_other_fence_inside_block_is_content() {
    let lines = vec!["~~~\n", "a\n", "```\n", "b\n", "~~~\n"];
    let blocks = mdlint::rules::md046::find_code_blocks(&lines).unwrap();
    assert_eq!(blocks.len(), 1);
    assert!(matches!(blocks[0].style, mdlint::rules::md046::BlockStyle::Fenced));
    assert_eq!(blocks[0].start_line, 1);
    assert_eq!(blocks[0].end_line, 5);
    assert_eq!(blocks[0].content_lines, vec![2, 3, 4]);
    assert_eq!(blocks[0].fence_info, None);
}

#[test]
fn md046_fence_info_kept() {
    let lines = vec!["```  rust  \n", "fn main() {}\n", "```\n", "\n", "    code\n"];
    let blocks = mdlint::rules::md046::find_code_blocks(&lines).unwrap();
    assert_eq!(blocks.len(), 2);
    assert_eq!(blocks[0].fence_info, Some("rust".to_string()));
    assert_eq!(blocks[1].fence_info, None);
}
