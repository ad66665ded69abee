//! MD022 - Headings should be surrounded by blank lines.
//!
//! A heading whose previous line, or whose next line, is not blank is
//! reported, once for each side, with a fix that inserts the blank line.

use vstd::prelude::*;
use crate::text::{chars_of, text, trim, trim_vec, views};
use crate::types::{
    base_error, errors_view, fix_view, names_view, opt_str, FixInfo, LintError, LintErrorView,
    ParserType, RuleMeta, RuleParams, Token,
};

verus! {

pub struct MD022;

pub open spec fn md022_meta() -> RuleMeta {
    RuleMeta {
        names: seq!["MD022"@, "blanks-around-headings"@, "blanks-around-headers"@],
        description: "Headings should be surrounded by blank lines"@,
        information: Some("https://github.com/DavidAnson/markdownlint/blob/main/doc/md022.md"@),
    }
}

/// A line that holds nothing but whitespace.
pub open spec fn blank(line: Seq<char>) -> bool {
    trim(line).len() == 0
}

pub open spec fn md022_error(ln: usize, before: bool) -> LintErrorView {
    LintErrorView {
        detail: Some(
            if before {
                "Expected blank line before heading"@
            } else {
                "Expected blank line after heading"@
            },
        ),
        fix: Some(
            fix_view(
                Some(
                    if before {
                        ln
                    } else {
                        (ln + 1) as usize
                    },
                ),
                Some(1usize),
                None,
                Some("\n"@),
            ),
        ),
        suggestion: Some("Headings should be surrounded by blank lines"@),
        ..base_error(md022_meta(), ln as int)
    }
}

/// The findings for one heading on line `ln`.
pub open spec fn heading_errors(ls: Seq<Seq<char>>, ln: usize) -> Seq<LintErrorView> {
    let a = if ln > 1 && !blank(ls[ln - 2]) {
        seq![md022_error(ln, true)]
    } else {
        seq![]
    };
    let b = if ln < ls.len() && !blank(ls[ln as int]) {
        seq![md022_error(ln, false)]
    } else {
        seq![]
    };
    a + b
}

pub open spec fn md022_scan(ls: Seq<Seq<char>>, toks: Seq<Token>, n: int) -> Seq<LintErrorView>
    decreases n,
{
    if n <= 0 {
        seq![]
    } else {
        let prev = md022_scan(ls, toks, n - 1);
        let t = toks[n - 1];
        if t.token_type@ == "heading"@ {
            prev + heading_errors(ls, t.start_line)
        } else {
            prev
        }
    }
}

/// The findings of MD022.
pub open spec fn md022_errors(ls: Seq<Seq<char>>, toks: Seq<Token>) -> Seq<LintErrorView> {
    md022_scan(ls, toks, toks.len() as int)
}

/// Every heading lies at most one line past the end of the document (the
/// line before it exists).
pub open spec fn md022_in_range(ls: Seq<Seq<char>>, toks: Seq<Token>) -> bool {
    forall|i: int|
        0 <= i < toks.len() && (#[trigger] toks[i]).token_type@ == "heading"@ ==> toks[i].start_line
            <= ls.len() + 1
}

impl MD022 {
    pub fn names(&self) -> (r: Vec<&'static str>)
        ensures
            names_view(r@) == md022_meta().names,
    {
        let r = vec!["MD022", "blanks-around-headings", "blanks-around-headers"];
        assert(names_view(r@) =~= md022_meta().names);
        r
    }

    pub fn description(&self) -> (r: &'static str)
        ensures
            r@ == md022_meta().description,
    {
        "Headings should be surrounded by blank lines"
    }

    pub fn tags(&self) -> (r: Vec<&'static str>)
        ensures
            names_view(r@) == seq!["headings"@, "headers"@, "blank_lines"@, "fixable"@],
    {
        let r = vec!["headings", "headers", "blank_lines", "fixable"];
        assert(names_view(r@) =~= seq!["headings"@, "headers"@, "blank_lines"@, "fixable"@]);
        r
    }

    pub fn parser_type(&self) -> (r: ParserType)
        ensures
            r == ParserType::Micromark,
    {
        ParserType::Micromark
    }

    pub fn information(&self) -> (r: Option<&'static str>)
        ensures
            opt_str(r) == md022_meta().information,
    {
        Some("https://github.com/DavidAnson/markdownlint/blob/main/doc/md022.md")
    }

    pub fn lint(&self, params: &RuleParams) -> (errors: Vec<LintError>)
        requires
            md022_in_range(views(params.lines@), params.tokens@),
        ensures
            errors_view(errors@) == md022_errors(views(params.lines@), params.tokens@),
    {
        let lines = params.lines;
        let tokens = params.tokens;
        let ghost ls = views(lines@);
        let names = self.names();
        let mut errors: Vec<LintError> = Vec::new();
        let n = tokens.len();
        let mut i: usize = 0;
        assert(errors_view(errors@) =~= seq![]);
        while i < n
            invariant
                n == tokens@.len(),
                i <= n,
                ls == views(lines@),
                md022_in_range(ls, tokens@),
                names_view(names@) == md022_meta().names,
                errors_view(errors@) == md022_scan(ls, tokens@, i as int),
            decreases n - i,
        {
            let heading = &tokens[i];
            if heading.is_type("heading") {
                let ln = heading.start_line;
                let ghost e0 = errors_view(errors@);
                let ghost ea: Seq<LintErrorView> = seq![];
                assert(tokens@[i as int].token_type@ == "heading"@);
                if ln > 1 {
                    let prev = chars_of(lines[ln - 2]);
                    if trim_vec(&prev).len() != 0 {
                        let mut e = LintError::new(ln, &names, self.description(), self.information());
                        e.error_detail = Some(text("Expected blank line before heading"));
                        e.fix_info = Some(
                            FixInfo {
                                line_number: Some(ln),
                                edit_column: Some(1),
                                delete_count: None,
                                insert_text: Some(text("\n")),
                            },
                        );
                        e.suggestion = Some(text("Headings should be surrounded by blank lines"));
                        errors.push(e);
                        proof {
                            ea = seq![md022_error(ln, true)];
                        }
                        assert(errors_view(errors@) =~= e0 + ea);
                    }
                }
                assert(errors_view(errors@) =~= e0 + ea);
                let ghost e1 = errors_view(errors@);
                let ghost eb: Seq<LintErrorView> = seq![];
                if ln < lines.len() {
                    let next = chars_of(lines[ln]);
                    if trim_vec(&next).len() != 0 {
                        let mut e = LintError::new(ln, &names, self.description(), self.information());
                        e.error_detail = Some(text("Expected blank line after heading"));
                        e.fix_info = Some(
                            FixInfo {
                                line_number: Some(ln + 1),
                                edit_column: Some(1),
                                delete_count: None,
                                insert_text: Some(text("\n")),
                            },
                        );
                        e.suggestion = Some(text("Headings should be surrounded by blank lines"));
                        errors.push(e);
                        proof {
                            eb = seq![md022_error(ln, false)];
                        }
                        assert(errors_view(errors@) =~= e1 + eb);
                    }
                }
                assert(errors_view(errors@) =~= e1 + eb);
                assert(ea + eb =~= heading_errors(ls, ln));
                assert(errors_view(errors@) =~= e0 + heading_errors(ls, ln));
            }
            i = i + 1;
        }
        errors
    }
}

} // verus!
