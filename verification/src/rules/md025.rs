//! MD025 - Multiple top-level headings in the same document.
//!
//! Every level-1 heading after the first is reported, with a fix that makes
//! it a level-2 heading (a setext heading becomes an ATX heading).

use vstd::prelude::*;
use crate::text::{
    chars_of, leading_count, leading_len, parse_u8, parse_u8_str, push_chars, starts_with,
    starts_with_str, string_of, text, trim, trim_end, trim_end_vec, trim_start, trim_start_vec,
    trim_vec, views,
};
use crate::types::{
    base_error, errors_view, fix_view, meta_lookup, names_view, opt_str, FixInfo, FixView,
    LintError, LintErrorView, ParserType, RuleMeta, RuleParams, Token,
};

verus! {

pub struct MD025;

pub open spec fn md025_meta() -> RuleMeta {
    RuleMeta {
        names: seq!["MD025"@, "single-title"@, "single-h1"@],
        description: "Multiple top-level headings in the same document"@,
        information: Some("https://github.com/DavidAnson/markdownlint/blob/main/doc/md025.md"@),
    }
}

/// A heading whose metadata gives level 1 (`str::parse::<u8>`; a missing
/// or unreadable level counts as 0).
pub open spec fn is_h1(t: Token) -> bool {
    t.token_type@ == "heading"@ && match meta_lookup(t.metadata@, "level"@) {
        Some(s) => parse_u8(s) == Some(1u8),
        None => false,
    }
}

/// The fix for a further level-1 heading: one more `#` for an ATX heading,
/// the text as a level-2 ATX heading for a setext one; none when the
/// heading's line is past the end of the document.
pub open spec fn md025_fix(ls: Seq<Seq<char>>, t: Token) -> Option<FixView> {
    let idx = t.start_line - 1;
    if 0 <= idx < ls.len() {
        let tr = trim_start(ls[idx]);
        if starts_with(tr, "#"@) {
            Some(
                fix_view(
                    Some(t.start_line),
                    Some(1usize),
                    Some(leading_count(tr, '#') as i32),
                    Some("##"@),
                ),
            )
        } else {
            Some(
                fix_view(Some(t.start_line), Some(1usize), Some(i32::MAX), Some("## "@ + trim_end(tr))),
            )
        }
    } else {
        None
    }
}

pub open spec fn md025_error(ls: Seq<Seq<char>>, t: Token) -> LintErrorView {
    LintErrorView {
        context: Some(trim(t.text@)),
        fix: md025_fix(ls, t),
        suggestion: Some(
            "Convert this heading to H2 (##) or restructure your document to have only one H1"@,
        ),
        ..base_error(md025_meta(), t.start_line as int)
    }
}

/// Whether a level-1 heading was seen, the findings, and whether every
/// reported heading has a line number of at least 1, after `n` tokens.
pub open spec fn md025_scan(ls: Seq<Seq<char>>, toks: Seq<Token>, n: int) -> (bool, Seq<LintErrorView>, bool)
    decreases n,
{
    if n <= 0 {
        (false, seq![], true)
    } else {
        let prev = md025_scan(ls, toks, n - 1);
        let t = toks[n - 1];
        if is_h1(t) {
            if prev.0 {
                (true, prev.1.push(md025_error(ls, t)), prev.2 && t.start_line >= 1)
            } else {
                (true, prev.1, prev.2)
            }
        } else {
            prev
        }
    }
}

/// The findings of MD025.
pub open spec fn md025_errors(ls: Seq<Seq<char>>, toks: Seq<Token>) -> Seq<LintErrorView> {
    md025_scan(ls, toks, toks.len() as int).1
}

/// Every further level-1 heading has a line number of at least 1.
pub open spec fn md025_safe(ls: Seq<Seq<char>>, toks: Seq<Token>) -> bool {
    md025_scan(ls, toks, toks.len() as int).2
}

proof fn lemma_scan_safe_prefix(ls: Seq<Seq<char>>, toks: Seq<Token>, k: int, m: int)
    requires
        0 <= k <= m,
        md025_scan(ls, toks, m).2,
    ensures
        md025_scan(ls, toks, k).2,
    decreases m - k,
{
    if k < m {
        lemma_scan_safe_prefix(ls, toks, k, m - 1);
    }
}

impl MD025 {
    pub fn names(&self) -> (r: Vec<&'static str>)
        ensures
            names_view(r@) == md025_meta().names,
    {
        let r = vec!["MD025", "single-title", "single-h1"];
        assert(names_view(r@) =~= md025_meta().names);
        r
    }

    pub fn description(&self) -> (r: &'static str)
        ensures
            r@ == md025_meta().description,
    {
        "Multiple top-level headings in the same document"
    }

    pub fn tags(&self) -> (r: Vec<&'static str>)
        ensures
            names_view(r@) == seq!["headings"@, "headers"@, "fixable"@],
    {
        let r = vec!["headings", "headers", "fixable"];
        assert(names_view(r@) =~= seq!["headings"@, "headers"@, "fixable"@]);
        r
    }

    pub fn parser_type(&self) -> (r: ParserType)
        ensures
            r == ParserType::Micromark,
    {
        ParserType::Micromark
    }

    pub fn information(&self) -> (r: Option<&'static str>)
        ensures
            opt_str(r) == md025_meta().information,
    {
        Some("https://github.com/DavidAnson/markdownlint/blob/main/doc/md025.md")
    }

    pub fn lint(&self, params: &RuleParams) -> (errors: Vec<LintError>)
        requires
            md025_safe(views(params.lines@), params.tokens@),
        ensures
            errors_view(errors@) == md025_errors(views(params.lines@), params.tokens@),
    {
        match self.lint_checked(params) {
            Some(errors) => errors,
            None => Vec::new(),
        }
    }

    /// The findings, or `None` where a further level-1 heading has line
    /// number 0 (its line cannot be looked up).
    pub fn lint_checked(&self, params: &RuleParams) -> (r: Option<Vec<LintError>>)
        ensures
            r is None <==> !md025_safe(views(params.lines@), params.tokens@),
            r matches Some(errors) ==> errors_view(errors@) == md025_errors(views(params.lines@), params.tokens@),
    {
        let lines = params.lines;
        let tokens = params.tokens;
        let ghost ls = views(lines@);
        let names = self.names();
        let mut errors: Vec<LintError> = Vec::new();
        let mut found_h1 = false;
        let n = tokens.len();
        let mut i: usize = 0;
        assert(errors_view(errors@) =~= seq![]);
        while i < n
            invariant
                n == tokens@.len(),
                i <= n,
                ls == views(lines@),
                lines == params.lines,
                tokens == params.tokens,
                md025_scan(ls, tokens@, i as int).2,
                names_view(names@) == md025_meta().names,
                (found_h1, errors_view(errors@)) == ({
                    let s = md025_scan(ls, tokens@, i as int);
                    (s.0, s.1)
                }),
            decreases n - i,
        {
            let heading = &tokens[i];
            if heading.is_type("heading") {
                let level: u8 = match heading.meta("level") {
                    Some(v) => {
                        let s = string_of(&v);
                        match parse_u8_str(s.as_str()) {
                            Some(l) => l,
                            None => 0,
                        }
                    },
                    None => 0,
                };
                assert((level == 1) == is_h1(*heading));
                if level == 1 {
                    if found_h1 {
                        let ln = heading.start_line;
                        if ln == 0 {
                            proof {
                                if md025_scan(ls, tokens@, n as int).2 {
                                    lemma_scan_safe_prefix(ls, tokens@, i + 1, n as int);
                                }
                            }
                            return None;
                        }
                        let fix_info = if ln - 1 < lines.len() {
                            let v = chars_of(lines[ln - 1]);
                            let tr = trim_start_vec(&v);
                            if starts_with_str(&tr, "#") {
                                let hashes = leading_len(&tr, '#');
                                Some(
                                    FixInfo {
                                        line_number: Some(ln),
                                        edit_column: Some(1),
                                        delete_count: Some(hashes as i32),
                                        insert_text: Some(text("##")),
                                    },
                                )
                            } else {
                                let body = trim_end_vec(&tr);
                                let mut t = text("## ");
                                push_chars(&mut t, &body);
                                Some(
                                    FixInfo {
                                        line_number: Some(ln),
                                        edit_column: Some(1),
                                        delete_count: Some(i32::MAX),
                                        insert_text: Some(t),
                                    },
                                )
                            }
                        } else {
                            None
                        };
                        let ctx = trim_vec(&chars_of(heading.text.as_str()));
                        let mut e = LintError::new(ln, &names, self.description(), self.information());
                        e.error_context = Some(string_of(&ctx));
                        e.fix_info = fix_info;
                        e.suggestion = Some(
                            text(
                                "Convert this heading to H2 (##) or restructure your document to have only one H1",
                            ),
                        );
                        let ghost b = errors_view(errors@);
                        errors.push(e);
                        assert(errors_view(errors@) =~= b.push(md025_error(ls, *heading)));
                    }
                    found_h1 = true;
                }
            }
            i = i + 1;
        }
        Some(errors)
    }
}

/// The number of level-1 headings among the first `n` tokens.
pub open spec fn h1_count(toks: Seq<Token>, n: int) -> nat
    decreases n,
{
    if n <= 0 {
        0
    } else {
        h1_count(toks, n - 1) + if is_h1(toks[n - 1]) {
            1nat
        } else {
            0nat
        }
    }
}

/// Every level-1 heading but the first is reported, once.
pub proof fn lemma_md025_extra_h1_reported(ls: Seq<Seq<char>>, toks: Seq<Token>, n: int)
    requires
        0 <= n <= toks.len(),
    ensures
        md025_scan(ls, toks, n).0 == (h1_count(toks, n) > 0),
        md025_scan(ls, toks, n).1.len() == if h1_count(toks, n) > 0 {
            h1_count(toks, n) - 1
        } else {
            0
        },
    decreases n,
{
    if n > 0 {
        lemma_md025_extra_h1_reported(ls, toks, n - 1);
    }
}

} // verus!
