//! MD028 - Blank line inside blockquote.
//!
//! A blank line between two blockquote lines splits the blockquote; the
//! blank line is reported.

use vstd::prelude::*;
use crate::text::{chars_of, starts_with, starts_with_str, text, trim, trim_vec, views};
use crate::types::{
    base_error, errors_view, fix_view, names_view, opt_str, FixInfo, LintError, LintErrorView,
    ParserType, RuleMeta, RuleParams,
};

verus! {

pub struct MD028;

pub open spec fn md028_meta() -> RuleMeta {
    RuleMeta {
        names: seq!["MD028"@, "no-blanks-blockquote"@],
        description: "Blank line inside blockquote"@,
        information: Some("https://github.com/DavidAnson/markdownlint/blob/main/doc/md028.md"@),
    }
}

pub open spec fn md028_error(blank_line: int) -> LintErrorView {
    LintErrorView {
        fix: Some(fix_view(Some(blank_line as usize), Some(1usize), Some(-1i32), None)),
        suggestion: Some("Remove blank lines inside blockquote"@),
        ..base_error(md028_meta(), blank_line)
    }
}

/// Scan state after a line: inside a blockquote, the last blank line seen
/// inside it (0 for none), findings so far.
pub open spec fn md028_scan(ls: Seq<Seq<char>>, n: int) -> (bool, int, Seq<LintErrorView>)
    decreases n,
{
    if n <= 0 {
        (false, 0, seq![])
    } else {
        let st = md028_scan(ls, n - 1);
        let t = trim(ls[n - 1]);
        if starts_with(t, ">"@) {
            let errs = if st.1 > 0 && st.0 {
                st.2.push(md028_error(st.1))
            } else {
                st.2
            };
            (true, 0, errs)
        } else if t.len() == 0 {
            if st.0 {
                (st.0, n, st.2)
            } else {
                st
            }
        } else {
            (false, 0, st.2)
        }
    }
}

/// The findings of MD028.
pub open spec fn md028_errors(ls: Seq<Seq<char>>) -> Seq<LintErrorView> {
    md028_scan(ls, ls.len() as int).2
}

impl MD028 {
    pub fn names(&self) -> (r: Vec<&'static str>)
        ensures
            names_view(r@) == md028_meta().names,
    {
        let r = vec!["MD028", "no-blanks-blockquote"];
        assert(names_view(r@) =~= md028_meta().names);
        r
    }

    pub fn description(&self) -> (r: &'static str)
        ensures
            r@ == md028_meta().description,
    {
        "Blank line inside blockquote"
    }

    pub fn tags(&self) -> (r: Vec<&'static str>)
        ensures
            names_view(r@) == seq!["blockquote"@, "whitespace"@, "fixable"@],
    {
        let r = vec!["blockquote", "whitespace", "fixable"];
        assert(names_view(r@) =~= seq!["blockquote"@, "whitespace"@, "fixable"@]);
        r
    }

    pub fn parser_type(&self) -> (r: ParserType)
        ensures
            r == ParserType::Plain,
    {
        ParserType::Plain
    }

    pub fn information(&self) -> (r: Option<&'static str>)
        ensures
            opt_str(r) == md028_meta().information,
    {
        Some("https://github.com/DavidAnson/markdownlint/blob/main/doc/md028.md")
    }

    pub fn lint(&self, params: &RuleParams) -> (errors: Vec<LintError>)
        ensures
            errors_view(errors@) == md028_errors(views(params.lines@)),
    {
        let lines = params.lines;
        let ghost ls = views(lines@);
        let names = self.names();
        let mut errors: Vec<LintError> = Vec::new();
        let mut in_blockquote = false;
        let mut blank_line: usize = 0;
        let n = lines.len();
        let mut i: usize = 0;
        while i < n
            invariant
                n == lines@.len(),
                i <= n,
                blank_line <= i,
                ls == views(lines@),
                names_view(names@) == md028_meta().names,
                md028_scan(ls, i as int) == (in_blockquote, blank_line as int, errors_view(errors@)),
            decreases n - i,
        {
            let ghost before = errors@;
            let v = chars_of(lines[i]);
            let t = trim_vec(&v);
            if starts_with_str(&t, ">") {
                if blank_line > 0 && in_blockquote {
                    let mut e = LintError::new(blank_line, &names, self.description(), self.information());
                    e.fix_info = Some(
                        FixInfo {
                            line_number: Some(blank_line),
                            edit_column: Some(1),
                            delete_count: Some(-1),
                            insert_text: None,
                        },
                    );
                    e.suggestion = Some(text("Remove blank lines inside blockquote"));
                    errors.push(e);
                    assert(errors_view(errors@) =~= errors_view(before).push(md028_error(blank_line as int)));
                }
                in_blockquote = true;
                blank_line = 0;
            } else if t.len() == 0 {
                if in_blockquote {
                    blank_line = i + 1;
                }
            } else {
                in_blockquote = false;
                blank_line = 0;
            }
            i = i + 1;
        }
        errors
    }
}

} // verus!
