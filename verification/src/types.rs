//! The values that rules take and give: parameters, findings and fixes.

use vstd::prelude::*;
use crate::config::Config;
use crate::workspace::WorkspaceHeadings;
use crate::text::{byte_len, chars_of, eq_str, text};


verus! {

/// How serious a finding is.
#[derive(Clone, Copy, Debug, PartialEq, Eq, Structural)]
pub enum Severity {
    Error,
    Warning,
}

/// What a rule needs besides the raw lines.
#[derive(Clone, Copy, Debug, PartialEq, Eq, Structural)]
pub enum ParserType {
    Plain,
    Micromark,
}

/// A suggested edit: delete `delete_count` characters at `edit_column` of
/// `line_number` (the finding's line when absent) and insert `insert_text`.
/// A `delete_count` of -1 deletes the whole line.
#[derive(Clone, Debug)]
pub struct FixInfo {
    pub line_number: Option<usize>,
    pub edit_column: Option<usize>,
    pub delete_count: Option<i32>,
    pub insert_text: Option<String>,
}

pub struct FixView {
    pub line_number: Option<usize>,
    pub edit_column: Option<usize>,
    pub delete_count: Option<i32>,
    pub insert_text: Option<Seq<char>>,
}

pub open spec fn opt_text(o: Option<String>) -> Option<Seq<char>> {
    match o {
        Some(s) => Some(s@),
        None => None,
    }
}

pub open spec fn opt_str(o: Option<&str>) -> Option<Seq<char>> {
    match o {
        Some(s) => Some(s@),
        None => None,
    }
}

impl View for FixInfo {
    type V = FixView;

    open spec fn view(&self) -> FixView {
        FixView {
            line_number: self.line_number,
            edit_column: self.edit_column,
            delete_count: self.delete_count,
            insert_text: opt_text(self.insert_text),
        }
    }
}

pub open spec fn opt_fix(o: Option<FixInfo>) -> Option<FixView> {
    match o {
        Some(f) => Some(f@),
        None => None,
    }
}

/// One finding of a rule.
#[derive(Clone, Debug)]
pub struct LintError {
    pub line_number: usize,
    pub rule_names: Vec<&'static str>,
    pub rule_description: &'static str,
    pub error_detail: Option<String>,
    pub error_context: Option<String>,
    pub rule_information: Option<&'static str>,
    pub error_range: Option<(usize, usize)>,
    pub fix_info: Option<FixInfo>,
    pub suggestion: Option<String>,
    pub severity: Severity,
    pub fix_only: bool,
}

/// A finding as plain values.
pub struct LintErrorView {
    pub line_number: int,
    pub names: Seq<Seq<char>>,
    pub description: Seq<char>,
    pub information: Option<Seq<char>>,
    pub detail: Option<Seq<char>>,
    pub context: Option<Seq<char>>,
    pub range: Option<(usize, usize)>,
    pub fix: Option<FixView>,
    pub suggestion: Option<Seq<char>>,
    pub severity: Severity,
    pub fix_only: bool,
}

pub open spec fn names_view(v: Seq<&'static str>) -> Seq<Seq<char>> {
    v.map_values(|s: &'static str| s@)
}

impl View for LintError {
    type V = LintErrorView;

    open spec fn view(&self) -> LintErrorView {
        LintErrorView {
            line_number: self.line_number as int,
            names: names_view(self.rule_names@),
            description: self.rule_description@,
            information: opt_str(self.rule_information),
            detail: opt_text(self.error_detail),
            context: opt_text(self.error_context),
            range: self.error_range,
            fix: opt_fix(self.fix_info),
            suggestion: opt_text(self.suggestion),
            severity: self.severity,
            fix_only: self.fix_only,
        }
    }
}

/// The findings as plain values, in order.
pub open spec fn errors_view(v: Seq<LintError>) -> Seq<LintErrorView> {
    v.map_values(|e: LintError| e@)
}

/// The constant part of a rule's findings.
pub struct RuleMeta {
    pub names: Seq<Seq<char>>,
    pub description: Seq<char>,
    pub information: Option<Seq<char>>,
}

/// A finding with only the rule's identity filled in.
pub open spec fn base_error(meta: RuleMeta, line_number: int) -> LintErrorView {
    LintErrorView {
        line_number,
        names: meta.names,
        description: meta.description,
        information: meta.information,
        detail: None,
        context: None,
        range: None,
        fix: None,
        suggestion: None,
        severity: Severity::Error,
        fix_only: false,
    }
}

pub open spec fn fix_view(
    line_number: Option<usize>,
    edit_column: Option<usize>,
    delete_count: Option<i32>,
    insert_text: Option<Seq<char>>,
) -> FixView {
    FixView { line_number, edit_column, delete_count, insert_text }
}

impl LintError {
    /// A finding of the rule `names` at `line_number`, with no detail and
    /// no fix.
    pub fn new(
        line_number: usize,
        names: &Vec<&'static str>,
        description: &'static str,
        information: Option<&'static str>,
    ) -> (e: LintError)
        ensures
            e@ == base_error(
                RuleMeta {
                    names: names_view(names@),
                    description: description@,
                    information: opt_str(information),
                },
                line_number as int,
            ),
    {
        LintError {
            line_number,
            rule_names: names.clone(),
            rule_description: description,
            error_detail: None,
            error_context: None,
            rule_information: information,
            error_range: None,
            fix_info: None,
            suggestion: None,
            severity: Severity::Error,
            fix_only: false,
        }
    }
}

/// A node of the parsed document, as produced by a micromark-style parser.
#[derive(Clone, Debug)]
pub struct Token {
    pub token_type: String,
    pub start_line: usize,
    pub start_column: usize,
    pub end_line: usize,
    pub end_column: usize,
    pub text: String,
    /// Indices of the children in the token list.
    pub children: Vec<usize>,
    /// Index of the parent in the token list.
    pub parent: Option<usize>,
    pub metadata: Vec<(String, String)>,
}

/// The value stored under `key` in token metadata: the first entry with
/// that key.
pub open spec fn meta_lookup(md: Seq<(String, String)>, key: Seq<char>) -> Option<Seq<char>>
    decreases md.len(),
{
    if md.len() == 0 {
        None
    } else if md[0].0@ == key {
        Some(md[0].1@)
    } else {
        meta_lookup(md.drop_first(), key)
    }
}

impl Token {
    /// A token of type `token_type` at no position, with no text, children,
    /// parent or metadata.
    pub fn new(token_type: &str) -> (t: Token)
        ensures
            t.token_type@ == token_type@,
            t.start_line == 0,
            t.start_column == 0,
            t.end_line == 0,
            t.end_column == 0,
            t.text@.len() == 0,
            t.children@.len() == 0,
            t.parent.is_none(),
            t.metadata@.len() == 0,
    {
        proof {
            reveal_strlit("");
        }
        Token {
            token_type: text(token_type),
            start_line: 0,
            start_column: 0,
            end_line: 0,
            end_column: 0,
            text: text(""),
            children: Vec::new(),
            parent: None,
            metadata: Vec::new(),
        }
    }

    /// The metadata value stored under `key`.
    pub fn meta(&self, key: &str) -> (r: Option<Vec<char>>)
        ensures
            match r {
                Some(v) => meta_lookup(self.metadata@, key@) == Some(v@),
                None => meta_lookup(self.metadata@, key@).is_none(),
            },
    {
        let kv = chars_of(key);
        let mut i: usize = 0;
        assert(self.metadata@.skip(0) =~= self.metadata@);
        while i < self.metadata.len()
            invariant
                kv@ == key@,
                i <= self.metadata@.len(),
                meta_lookup(self.metadata@, key@) == meta_lookup(self.metadata@.skip(i as int), key@),
            decreases self.metadata@.len() - i,
        {
            let k = chars_of(self.metadata[i].0.as_str());
            assert(self.metadata@.skip(i as int).drop_first() =~= self.metadata@.skip(i + 1));
            if crate::text::eq_vec(&k, &kv) {
                return Some(chars_of(self.metadata[i].1.as_str()));
            }
            i = i + 1;
        }
        None
    }

    /// The token is of type `ty`.
    pub fn is_type(&self, ty: &str) -> (r: bool)
        ensures
            r == (self.token_type@ == ty@),
    {
        let t = chars_of(self.token_type.as_str());
        eq_str(&t, ty)
    }
}

/// What a rule is run on.
pub struct RuleParams<'a> {
    pub name: &'a str,
    pub version: &'a str,
    pub lines: &'a [&'a str],
    pub front_matter_lines: &'a [&'a str],
    pub tokens: &'a [Token],
    pub config: &'a Config,
    /// The heading anchors of the other files, where the whole workspace
    /// is checked.
    pub workspace_headings: Option<&'a WorkspaceHeadings>,
}

impl<'a> RuleParams<'a> {
    /// Parameters for checking `lines` alone, with `config`.
    pub fn test(lines: &'a [&'a str], config: &'a Config) -> (p: RuleParams<'a>)
        ensures
            p.lines@ == lines@,
            p.front_matter_lines@.len() == 0,
            p.tokens@.len() == 0,
            p.config == config,
            p.workspace_headings.is_none(),
    {
        RuleParams {
            name: "test.md",
            version: "0.0.0",
            lines,
            front_matter_lines: &[],
            tokens: &[],
            config,
            workspace_headings: None,
        }
    }

    /// Parameters for checking `lines` with their `tokens`, with `config`.
    pub fn test_with_tokens(lines: &'a [&'a str], tokens: &'a [Token], config: &'a Config) -> (p:
        RuleParams<'a>)
        ensures
            p.lines@ == lines@,
            p.front_matter_lines@.len() == 0,
            p.tokens@ == tokens@,
            p.config == config,
            p.workspace_headings.is_none(),
    {
        RuleParams {
            name: "test.md",
            version: "0.0.0",
            lines,
            front_matter_lines: &[],
            tokens,
            config,
            workspace_headings: None,
        }
    }
}

/// Every line's UTF-8 encoding has a length that fits in `usize`, as the
/// length of any `str` does (at most `isize::MAX` bytes).
pub open spec fn lines_fit(lines: Seq<&str>) -> bool {
    forall|i: int| 0 <= i < lines.len() ==> #[trigger] byte_len(lines[i]@) <= isize::MAX
}

/// Every token's text has a UTF-8 length that fits in `usize`, as the
/// length of any `String` does (at most `isize::MAX` bytes).
pub open spec fn token_texts_fit(toks: Seq<Token>) -> bool {
    forall|i: int| 0 <= i < toks.len() ==> #[trigger] byte_len(toks[i].text@) <= isize::MAX
}

} // verus!
