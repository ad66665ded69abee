//! MD041 - First line in a file should be a top-level heading.
//!
//! The first heading must stand on the first line after the front matter;
//! otherwise, or when there is no heading, one finding is reported at that
//! line, with a fix that inserts a title.

use vstd::prelude::*;
use crate::text::{text, views};
use crate::types::{
    base_error, errors_view, fix_view, names_view, opt_str, FixInfo, LintError, LintErrorView,
    ParserType, RuleMeta, RuleParams, Token,
};

verus! {

pub struct MD041;

pub open spec fn md041_meta() -> RuleMeta {
    RuleMeta {
        names: seq!["MD041"@, "first-line-heading"@, "first-line-h1"@],
        description: "First line in a file should be a top-level heading"@,
        information: Some("https://github.com/DavidAnson/markdownlint/blob/main/doc/md041.md"@),
    }
}

/// The first heading among the tokens from index `k` on.
pub open spec fn first_heading(toks: Seq<Token>, k: int) -> Option<Token>
    decreases toks.len() - k,
{
    if k < 0 || k >= toks.len() {
        None
    } else if toks[k].token_type@ == "heading"@ {
        Some(toks[k])
    } else {
        first_heading(toks, k + 1)
    }
}

/// The first line after the front matter.
pub open spec fn first_content_line(fm_len: nat) -> usize {
    if fm_len > 0 {
        (fm_len + 1) as usize
    } else {
        1
    }
}

pub open spec fn md041_error(line: usize, suggestion: Seq<char>) -> LintErrorView {
    LintErrorView {
        fix: Some(fix_view(Some(line), Some(1usize), None, Some("# Title\n\n"@))),
        suggestion: Some(suggestion),
        ..base_error(md041_meta(), line as int)
    }
}

/// The findings of MD041.
pub open spec fn md041_errors(ls: Seq<Seq<char>>, fm_len: nat, toks: Seq<Token>) -> Seq<LintErrorView> {
    let fc = first_content_line(fm_len);
    if ls.len() == 0 {
        seq![]
    } else {
        match first_heading(toks, 0) {
            Some(t) => if t.start_line != fc {
                seq![md041_error(fc, "Start your document with a top-level heading (# Title)"@)]
            } else {
                seq![]
            },
            None => seq![md041_error(fc, "Add a top-level heading as the first line"@)],
        }
    }
}

impl MD041 {
    pub fn names(&self) -> (r: Vec<&'static str>)
        ensures
            names_view(r@) == md041_meta().names,
    {
        let r = vec!["MD041", "first-line-heading", "first-line-h1"];
        assert(names_view(r@) =~= md041_meta().names);
        r
    }

    pub fn description(&self) -> (r: &'static str)
        ensures
            r@ == md041_meta().description,
    {
        "First line in a file should be a top-level heading"
    }

    pub fn tags(&self) -> (r: Vec<&'static str>)
        ensures
            names_view(r@) == seq!["headings"@, "fixable"@],
    {
        let r = vec!["headings", "fixable"];
        assert(names_view(r@) =~= seq!["headings"@, "fixable"@]);
        r
    }

    pub fn parser_type(&self) -> (r: ParserType)
        ensures
            r == ParserType::Micromark,
    {
        ParserType::Micromark
    }

    pub fn information(&self) -> (r: Option<&'static str>)
        ensures
            opt_str(r) == md041_meta().information,
    {
        Some("https://github.com/DavidAnson/markdownlint/blob/main/doc/md041.md")
    }

    pub fn lint(&self, params: &RuleParams) -> (errors: Vec<LintError>)
        requires
            params.front_matter_lines@.len() < usize::MAX,
        ensures
            errors_view(errors@) == md041_errors(
                views(params.lines@),
                params.front_matter_lines@.len(),
                params.tokens@,
            ),
    {
        let mut errors: Vec<LintError> = Vec::new();
        if params.lines.len() == 0 {
            assert(errors_view(errors@) =~= seq![]);
            return errors;
        }
        let fc: usize = if params.front_matter_lines.len() > 0 {
            params.front_matter_lines.len() + 1
        } else {
            1
        };
        let tokens = params.tokens;
        let mut k: usize = 0;
        let mut found: Option<usize> = None;
        while k < tokens.len() && found.is_none()
            invariant
                k <= tokens@.len(),
                match found {
                    Some(f) => f < tokens@.len() && first_heading(tokens@, 0) == Some(tokens@[f as int]),
                    None => first_heading(tokens@, 0) == first_heading(tokens@, k as int),
                },
            decreases tokens@.len() - k + (if found.is_none() {
                1int
            } else {
                0int
            }),
        {
            if tokens[k].is_type("heading") {
                found = Some(k);
            } else {
                k = k + 1;
            }
        }
        let names = self.names();
        let suggestion = match found {
            Some(f) => {
                if tokens[f].start_line != fc {
                    Some(text("Start your document with a top-level heading (# Title)"))
                } else {
                    None
                }
            },
            None => Some(text("Add a top-level heading as the first line")),
        };
        match suggestion {
            Some(s) => {
                let ghost sv = s@;
                let mut e = LintError::new(fc, &names, self.description(), self.information());
                e.fix_info = Some(
                    FixInfo {
                        line_number: Some(fc),
                        edit_column: Some(1),
                        delete_count: None,
                        insert_text: Some(text("# Title\n\n")),
                    },
                );
                e.suggestion = Some(s);
                errors.push(e);
                assert(errors_view(errors@) =~= seq![md041_error(fc, sv)]);
            },
            None => {
                assert(errors_view(errors@) =~= seq![]);
            },
        }
        errors
    }
}

} // verus!
