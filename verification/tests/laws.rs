use mdlint::config::Config;
use mdlint::fix::apply_fixes;
use mdlint::helpers::collect_heading_ids;
use mdlint::rules::kmd007::KMD007;
use mdlint::rules::kmd008::KMD008;
use mdlint::rules::kmd011::{count_dollars, KMD011};
use mdlint::rules::md009::MD009;
use mdlint::rules::md010::MD010;
use mdlint::rules::md012::MD012;
use mdlint::rules::md019::MD019;
use mdlint::rules::md023::MD023;
use mdlint::rules::md025::MD025;
use mdlint::rules::md027::MD027;
use mdlint::rules::md047::MD047;
use mdlint::rules::md054::MD054;
use mdlint::rules::kmd001::KMD001;
use mdlint::rules::md051::MD051;
use mdlint::rules::md001::MD001;
use mdlint::rules::md033::has_parent_of_type;
use mdlint::rules::md046::MD046;
use mdlint::rules::md052::MD052;
use mdlint::rules::md004::get_nesting_level;
use mdlint::rules::md032::get_blockquote_prefix;
use mdlint::rules::md049::find_emphasis_matches;
use mdlint::rules::kmd005::kramdown_slug;
use mdlint::types::{FixInfo, LintError, RuleParams, Token};
use mdlint::workspace::WorkspaceHeadings;

fn lines_of(content: &str) -> Vec<&str> {
    content.split_inclusive('\n').collect()
}

fn finding(line: usize, fix: Option<FixInfo>) -> LintError {
    let names = vec!["X001"];
    let mut e = LintError::new(line, &names, "test", None);
    e.fix_info = fix;
    e
}

#[test]
fn law_findings_without_fixes_keep_document() {
    let content = "# Title\n\ntext  \nmore\n";
    let errors = vec![finding(1, None), finding(3, None), finding(9, None)];
    assert_eq!(apply_fixes(content, &errors), content);
    assert_eq!(apply_fixes(content, &[]), content);
}

#[test]
fn law_untouched_lines_kept() {
    let content = "one\ntwo\nthree\n";
    let fix = FixInfo {
        line_number: Some(2),
        edit_column: Some(1),
        delete_count: Some(3),
        insert_text: Some("TWO".to_string()),
    };
    let errors = vec![finding(2, Some(fix))];
    assert_eq!(apply_fixes(content, &errors), "one\nTWO\nthree\n");
}

#[test]
fn law_md047_fix_resolves() {
    let content = "# Title\n\nlast line";
    let lines = lines_of(content);
    let config = Config::new();
    let params = RuleParams::test(&lines, &config);
    let errors = MD047.lint(&params);
    assert_eq!(errors.len(), 1);
    let fixed = apply_fixes(content, &errors);
    assert_eq!(fixed, "# Title\n\nlast line\n");
    let lines2 = lines_of(&fixed);
    let params2 = RuleParams::test(&lines2, &config);
    assert!(MD047.lint(&params2).is_empty());
}

#[test]
fn law_md047_fix_leaves_carriage_return_reported() {
    let content = "text\r";
    let lines = lines_of(content);
    let config = Config::new();
    let params = RuleParams::test(&lines, &config);
    let errors = MD047.lint(&params);
    assert_eq!(errors.len(), 1);
    let fixed = apply_fixes(content, &errors);
    let lines2 = lines_of(&fixed);
    let params2 = RuleParams::test(&lines2, &config);
    assert_eq!(MD047.lint(&params2).len(), 1);
}

#[test]
fn law_kmd007_single_finding_on_fence() {
    let lines = lines_of("$$\nx\n$$\ntext\n$$\ny\n");
    let config = Config::new();
    let params = RuleParams::test(&lines, &config);
    let errors = KMD007.lint(&params);
    assert_eq!(errors.len(), 1);
    assert_eq!(errors[0].line_number, 5);
}

#[test]
fn law_kmd008_unclosed_openers_reported() {
    let lines = lines_of("{::comment}\ntext\n{::nomarkdown}\n");
    let config = Config::new();
    let params = RuleParams::test(&lines, &config);
    let errors = KMD008.lint(&params);
    assert_eq!(errors.len(), 2);
    assert_eq!(errors[0].line_number, 1);
    assert_eq!(
        errors[0].error_detail.as_deref(),
        Some("Unclosed block extension '{::comment}' opened on line 1")
    );
    assert_eq!(errors[1].line_number, 3);
    assert_eq!(
        errors[1].error_detail.as_deref(),
        Some("Unclosed block extension '{::nomarkdown}' opened on line 3")
    );
}

fn h1(line: usize) -> Token {
    let mut t = Token::new("heading");
    t.start_line = line;
    t.end_line = line;
    t.text = format!("Title {}", line);
    t.metadata.push(("level".to_string(), "1".to_string()));
    t
}

#[test]
fn law_md025_every_extra_h1_reported() {
    let lines = vec!["# A\n", "# B\n", "Title C\n", "=======\n"];
    let tokens = vec![h1(1), h1(2), h1(3)];
    let config = Config::new();
    let params = RuleParams::test_with_tokens(&lines, &tokens, &config);
    let errors = MD025.lint(&params);
    assert_eq!(errors.len(), 2);
    assert_eq!(errors[0].line_number, 2);
    let fix0 = errors[0].fix_info.as_ref().unwrap();
    assert_eq!(fix0.delete_count, Some(1));
    assert_eq!(fix0.insert_text.as_deref(), Some("##"));
    assert_eq!(errors[1].line_number, 3);
    let fix1 = errors[1].fix_info.as_ref().unwrap();
    assert_eq!(fix1.delete_count, Some(i32::MAX));
    assert_eq!(fix1.insert_text.as_deref(), Some("## Title C"));
}

#[test]
fn heading_ids_drop_closing_hashes_and_punctuation() {
    let lines = vec!["## Hello, World! ##\n", "```\n", "# Not a heading\n", "```\n", "#NoSpace\n", "# Hello, world\n"];
    let ids = collect_heading_ids(&lines);
    assert_eq!(ids, vec!["hello-world", "hello-world-1"]);
}

#[test]
fn cross_file_link_resolved_from_document_directory() {
    let lines = vec!["# Local\n", "\n", "[link](other.md#missing) and [ok](other.md#intro)\n"];
    let config = Config::new();
    let mut workspace = WorkspaceHeadings::new();
    workspace.insert("docs/other.md".to_string(), vec!["intro".to_string()]);
    let params = RuleParams {
        name: "docs/guide.md",
        version: "0.1.0",
        lines: &lines,
        front_matter_lines: &[],
        tokens: &[],
        config: &config,
        workspace_headings: Some(&workspace),
    };
    let errors = MD051.lint(&params);
    assert_eq!(errors.len(), 1);
    assert_eq!(
        errors[0].error_detail.as_deref(),
        Some("No matching heading 'missing' in 'other.md'")
    );
    assert_eq!(errors[0].error_context.as_deref(), Some("[link](other.md#missing)"));
}

#[test]
fn law_md009_fix_resolves() {
    let content = "a  \nb\t\r\n\t \nlast \u{3000} ";
    let lines = lines_of(content);
    let config = Config::new();
    let params = RuleParams::test(&lines, &config);
    let errors = MD009.lint(&params);
    assert_eq!(errors.len(), 4);
    let fixed = apply_fixes(content, &errors);
    assert_eq!(fixed, "a\nb\r\n\nlast");
    let lines2 = lines_of(&fixed);
    let params2 = RuleParams::test(&lines2, &config);
    assert!(MD009.lint(&params2).is_empty());
}

#[test]
fn law_md023_fix_resolves() {
    let content = "  # Title\n\ttext\n \t ## Sub";
    let lines = lines_of(content);
    let config = Config::new();
    let params = RuleParams::test(&lines, &config);
    let errors = MD023.lint(&params);
    assert_eq!(errors.len(), 2);
    let fixed = apply_fixes(content, &errors);
    assert_eq!(fixed, "# Title\n\ttext\n## Sub");
    let lines2 = lines_of(&fixed);
    let params2 = RuleParams::test(&lines2, &config);
    assert!(MD023.lint(&params2).is_empty());
}

#[test]
fn law_md010_fix_resolves() {
    let content = "\ta\t\tb\nx\ty\r\n\t\n";
    let lines = lines_of(content);
    let config = Config::new();
    let params = RuleParams::test(&lines, &config);
    let errors = MD010.lint(&params);
    assert_eq!(errors.len(), 5);
    let fixed = apply_fixes(content, &errors);
    assert_eq!(fixed, "    a        b\nx    y\r\n    \n");
    let lines2 = lines_of(&fixed);
    let params2 = RuleParams::test(&lines2, &config);
    assert!(MD010.lint(&params2).is_empty());
}

#[test]
fn law_md010_fix_after_wide_character_keeps_tab() {
    let content = "\u{e9}\tx\n";
    let lines = lines_of(content);
    let config = Config::new();
    let params = RuleParams::test(&lines, &config);
    let errors = MD010.lint(&params);
    assert_eq!(errors.len(), 1);
    let fixed = apply_fixes(content, &errors);
    let lines2 = lines_of(&fixed);
    let params2 = RuleParams::test(&lines2, &config);
    assert_eq!(MD010.lint(&params2).len(), 1);
}

#[test]
fn law_md012_fix_resolves() {
    let content = "a\n\n\nb\n  \n\t\nc\n\n\n";
    let lines = lines_of(content);
    let config = Config::new();
    let params = RuleParams::test(&lines, &config);
    let errors = MD012.lint(&params);
    assert_eq!(errors.len(), 3);
    let fixed = apply_fixes(content, &errors);
    assert_eq!(fixed, "a\n\nb\n  \nc\n\n");
    let lines2 = lines_of(&fixed);
    let params2 = RuleParams::test(&lines2, &config);
    assert!(MD012.lint(&params2).is_empty());
}

#[test]
fn law_md012_fix_leaves_longer_run_reported() {
    let content = "a\n\n\n\nb\n";
    let lines = lines_of(content);
    let config = Config::new();
    let params = RuleParams::test(&lines, &config);
    let errors = MD012.lint(&params);
    assert_eq!(errors.len(), 1);
    let fixed = apply_fixes(content, &errors);
    assert_eq!(fixed, "a\n\n\nb\n");
    let lines2 = lines_of(&fixed);
    let params2 = RuleParams::test(&lines2, &config);
    assert_eq!(MD012.lint(&params2).len(), 1);
}

#[test]
fn law_md027_fix_resolves() {
    let content = ">   quoted\n> fine\n>  \n>\ttab\n";
    let lines = lines_of(content);
    let config = Config::new();
    let params = RuleParams::test(&lines, &config);
    let errors = MD027.lint(&params);
    assert_eq!(errors.len(), 2);
    let fixed = apply_fixes(content, &errors);
    assert_eq!(fixed, "> quoted\n> fine\n> \n>\ttab\n");
    let lines2 = lines_of(&fixed);
    let params2 = RuleParams::test(&lines2, &config);
    assert!(MD027.lint(&params2).is_empty());
}

#[test]
fn law_md027_fix_on_indented_quote_misses() {
    let content = "   >  x\n";
    let lines = lines_of(content);
    let config = Config::new();
    let params = RuleParams::test(&lines, &config);
    let errors = MD027.lint(&params);
    assert_eq!(errors.len(), 1);
    let fixed = apply_fixes(content, &errors);
    assert_eq!(fixed, "  >  x\n");
    let lines2 = lines_of(&fixed);
    let params2 = RuleParams::test(&lines2, &config);
    assert_eq!(MD027.lint(&params2).len(), 1);
}

#[test]
fn law_md019_fix_resolves() {
    let content = "##   Title\ntext\n#  \n### Sub\n";
    let lines = lines_of(content);
    let config = Config::new();
    let params = RuleParams::test(&lines, &config);
    let errors = MD019.lint(&params);
    assert_eq!(errors.len(), 2);
    let fixed = apply_fixes(content, &errors);
    assert_eq!(fixed, "## Title\ntext\n# \n### Sub\n");
    let lines2 = lines_of(&fixed);
    let params2 = RuleParams::test(&lines2, &config);
    assert!(MD019.lint(&params2).is_empty());
}

#[test]
fn law_md019_fix_on_indented_heading_misses() {
    let content = "  ##   Title\n";
    let lines = lines_of(content);
    let config = Config::new();
    let params = RuleParams::test(&lines, &config);
    let errors = MD019.lint(&params);
    assert_eq!(errors.len(), 1);
    let fixed = apply_fixes(content, &errors);
    let lines2 = lines_of(&fixed);
    let params2 = RuleParams::test(&lines2, &config);
    assert_eq!(MD019.lint(&params2).len(), 1);
}

#[test]
fn law_kmd011_findings_ordered_without_fixes() {
    let content = "a $x\n```\n$ in code\n```\n$$\nb $y$ $z\nfine $w$\n";
    let lines = lines_of(content);
    let config = Config::new();
    let params = RuleParams::test(&lines, &config);
    let errors = KMD011.lint(&params);
    let numbers: Vec<usize> = errors.iter().map(|e| e.line_number).collect();
    assert_eq!(numbers, vec![1, 6]);
    for e in &errors {
        assert!(e.fix_info.is_none());
        assert_eq!(count_dollars(lines[e.line_number - 1].trim_end_matches('\n')) % 2, 1);
    }
}

#[test]
fn law_code_blocks_ordered_within_document() {
    let lines = vec![
        "text\n", "\n", "    code a\n", "\n", "    code b\n", "para\n", "```rust\n", "x\n", "~~~\n",
        "```\n", "\n", "    tail\n",
    ];
    let blocks = mdlint::rules::md046::find_code_blocks(&lines).unwrap();
    let spans: Vec<(usize, usize, Vec<usize>)> =
        blocks.iter().map(|b| (b.start_line, b.end_line, b.content_lines.clone())).collect();
    assert_eq!(
        spans,
        vec![(3, 5, vec![3, 5]), (7, 10, vec![8, 9]), (12, 12, vec![12])]
    );
    for w in blocks.windows(2) {
        assert!(w[0].end_line < w[1].start_line);
    }
}

#[test]
fn law_md054_all_styles_allowed_reports_nothing() {
    let lines = vec!["[a](b) [c][d] [e][] [f] <https://x.org>\n", "![i](j)\n"];
    let config = Config::new();
    let params = RuleParams::test(&lines, &config);
    assert!(MD054.lint(&params).is_empty());
}

#[test]
fn law_kmd001_no_definitions_reports_nothing() {
    let lines = vec!["Term one\n", "\n", "Another term\n", "text\n"];
    let config = Config::new();
    let params = RuleParams::test(&lines, &config);
    assert!(KMD001.lint(&params).is_empty());
}

#[test]
fn law_md012_one_finding_per_run() {
    let content = "a\n\n\n\nb\n\nc\n \n\t\nd\n\n\n";
    let lines = lines_of(content);
    let config = Config::new();
    let params = RuleParams::test(&lines, &config);
    let errors = MD012.lint(&params);
    let numbers: Vec<usize> = errors.iter().map(|e| e.line_number).collect();
    assert_eq!(numbers, vec![3, 9, 12]);
}

fn heading(line: usize, level: usize) -> Token {
    let mut t = Token::new("heading");
    t.start_line = line;
    t.end_line = line;
    t.metadata.push(("level".to_string(), level.to_string()));
    t
}

#[test]
fn law_md001_reports_only_jumps() {
    let lines = vec!["### a\n", "# b\n", "### c\n", "#### d\n", "## e\n", "###### f\n"];
    let tokens = vec![heading(1, 3), heading(2, 1), heading(3, 3), heading(4, 4), heading(5, 2), heading(6, 6)];
    let config = Config::new();
    let mut params = RuleParams::test(&lines, &config);
    params.tokens = &tokens;
    let errors = MD001.lint(&params);
    let numbers: Vec<usize> = errors.iter().map(|e| e.line_number).collect();
    assert_eq!(numbers, vec![3, 6]);
    assert_eq!(errors[0].error_detail, Some("Expected: h2; Actual: h3".to_string()));
}

#[test]
fn law_parent_walk_finds_proper_ancestor() {
    let mut table = Token::new("table");
    table.children = vec![1];
    let mut row = Token::new("tableRow");
    row.parent = Some(0);
    row.children = vec![2];
    let mut cell = Token::new("htmlText");
    cell.parent = Some(1);
    let lone = Token::new("table");
    let tokens = vec![table, row, cell, lone];
    assert!(has_parent_of_type(&tokens, 2, "table"));
    assert!(has_parent_of_type(&tokens, 2, "tableRow"));
    assert!(!has_parent_of_type(&tokens, 2, "htmlText"));
    assert!(!has_parent_of_type(&tokens, 3, "table"));
}

#[test]
fn law_md046_consistent_blocks_report_nothing() {
    let lines = vec!["```\n", "a\n", "```\n", "\n", "~~~\n", "b\n", "~~~\n"];
    let config = Config::new();
    let params = RuleParams::test(&lines, &config);
    assert!(MD046.lint(&params).is_empty());
}

#[test]
fn law_md052_reports_only_undefined_labels() {
    let lines = vec!["[a][Foo] [b][bar] [Baz][]\n", "\n", "[foo]: http://x\n"];
    let config = Config::new();
    let params = RuleParams::test(&lines, &config);
    let errors = MD052.lint(&params);
    let details: Vec<String> = errors.iter().map(|e| e.error_detail.clone().unwrap()).collect();
    assert_eq!(
        details,
        vec![
            "Reference label \"bar\" is not defined".to_string(),
            "Reference label \"Baz\" is not defined".to_string()
        ]
    );
    assert!(errors.iter().all(|e| e.line_number == 1));
}

#[test]
fn law_emphasis_matches_ordered_and_disjoint() {
    let line = "a *b* __c__ _d_ *e* and *f";
    let ms = find_emphasis_matches(line);
    let got: Vec<(usize, String, String)> =
        ms.iter().map(|m| (m.start, m.full_match.clone(), m.style.clone())).collect();
    assert_eq!(
        got,
        vec![
            (2, "*b*".to_string(), "asterisk".to_string()),
            (12, "_d_".to_string(), "underscore".to_string()),
            (16, "*e*".to_string(), "asterisk".to_string()),
        ]
    );
    for w in ms.windows(2) {
        assert!(w[0].start + w[0].full_match.len() <= w[1].start);
    }
    for m in &ms {
        assert_eq!(&line[m.start..m.start + m.full_match.len()], m.full_match);
    }
}

#[test]
fn law_nesting_level_counts_list_ancestors() {
    let mut outer = Token::new("list");
    outer.children = vec![1];
    let mut item = Token::new("listItem");
    item.parent = Some(0);
    let mut inner = Token::new("list");
    inner.parent = Some(1);
    let mut leaf = Token::new("listItem");
    leaf.parent = Some(2);
    let tokens = vec![outer, item, inner, leaf];
    assert_eq!(get_nesting_level(&tokens, &tokens[3]), 2);
    assert_eq!(get_nesting_level(&tokens, &tokens[1]), 1);
    assert_eq!(get_nesting_level(&tokens, &tokens[0]), 0);
}

#[test]
fn law_blockquote_prefix_plain_line() {
    let mut q = Token::new("blockQuotePrefix");
    q.start_line = 2;
    q.text = "> ".to_string();
    let tokens = vec![q];
    assert_eq!(get_blockquote_prefix(&tokens, 1), "\n");
    assert_eq!(get_blockquote_prefix(&tokens, 2), ">\n");
}

#[test]
fn law_slug_hyphens() {
    assert_eq!(kramdown_slug("  - Hello --  World! -"), "hello-world");
    assert_eq!(kramdown_slug("A-B {#x}"), "a-b");
    assert_eq!(kramdown_slug("---"), "");
    for text in ["x y", "-a-", "a - - b", "Title (draft) -- v2"] {
        let slug = kramdown_slug(text);
        assert!(!slug.starts_with('-') && !slug.ends_with('-'));
        assert!(!slug.contains("--"));
    }
}
