//! MD013 - Line length.
//!
//! Outside fenced code blocks, reports lines (other than tables and
//! headings) with more characters than the `line_length` option (default 80).

use vstd::prelude::*;
use crate::text::{
    decimal, line_body, push_decimal, push_str, slice_chars, starts_with, starts_with_str,
    string_of, strip_eol, text, views,
};
use crate::types::{
    base_error, errors_view, names_view, opt_str, LintError, LintErrorView, ParserType, RuleMeta,
    RuleParams,
};

use crate::config::value_as_u64;

verus! {

pub struct MD013;

pub open spec fn md013_meta() -> RuleMeta {
    RuleMeta {
        names: seq!["MD013"@, "line-length"@],
        description: "Line length"@,
        information: Some("https://github.com/DavidAnson/markdownlint/blob/main/doc/md013.md"@),
    }
}

/// The configured limit.
pub open spec fn md013_limit(params: RuleParams) -> usize {
    match value_as_u64(params.config.lookup("line_length"@)) {
        Some(n) => n as usize,
        None => 80usize,
    }
}

pub open spec fn md013_fence(t: Seq<char>) -> bool {
    starts_with(t, "```"@) || starts_with(t, "~~~"@)
}

/// What the finding shows of the line: at most 75 characters and an
/// ellipsis when it is longer than 78.
pub open spec fn md013_context(t: Seq<char>) -> Seq<char> {
    if t.len() > 78 {
        t.take(75) + "..."@
    } else {
        t
    }
}

pub open spec fn md013_error(t: Seq<char>, i: int, limit: usize) -> LintErrorView {
    LintErrorView {
        detail: Some("Expected: "@ + decimal(limit as nat) + "; Actual: "@ + decimal(t.len())),
        context: Some(md013_context(t)),
        range: Some(((limit + 1) as usize, (t.len() - limit) as usize)),
        suggestion: Some("Consider breaking long lines for better readability"@),
        ..base_error(md013_meta(), i + 1)
    }
}

pub open spec fn md013_scan(lines: Seq<Seq<char>>, limit: usize, n: int) -> (bool, Seq<LintErrorView>)
    decreases n,
{
    if n <= 0 {
        (false, seq![])
    } else {
        let st = md013_scan(lines, limit, n - 1);
        let t = strip_eol(lines[n - 1]);
        if md013_fence(t) {
            (!st.0, st.1)
        } else if st.0 || starts_with(t, "|"@) || starts_with(t, "#"@) {
            st
        } else if t.len() > limit {
            (st.0, st.1.push(md013_error(t, n - 1, limit)))
        } else {
            st
        }
    }
}

/// The findings of MD013.
pub open spec fn md013_errors(lines: Seq<Seq<char>>, limit: usize) -> Seq<LintErrorView> {
    md013_scan(lines, limit, lines.len() as int).1
}

impl MD013 {
    pub fn names(&self) -> (r: Vec<&'static str>)
        ensures
            names_view(r@) == md013_meta().names,
    {
        let r = vec!["MD013", "line-length"];
        assert(names_view(r@) =~= md013_meta().names);
        r
    }

    pub fn description(&self) -> (r: &'static str)
        ensures
            r@ == md013_meta().description,
    {
        "Line length"
    }

    pub fn tags(&self) -> (r: Vec<&'static str>)
        ensures
            names_view(r@) == seq!["line_length"@],
    {
        let r = vec!["line_length"];
        assert(names_view(r@) =~= seq!["line_length"@]);
        r
    }

    pub fn parser_type(&self) -> (r: ParserType)
        ensures
            r == ParserType::Plain,
    {
        ParserType::Plain
    }

    pub fn information(&self) -> (r: Option<&'static str>)
        ensures
            opt_str(r) == md013_meta().information,
    {
        Some("https://github.com/DavidAnson/markdownlint/blob/main/doc/md013.md")
    }

    pub fn lint(&self, params: &RuleParams) -> (errors: Vec<LintError>)
        ensures
            errors_view(errors@) == md013_errors(views(params.lines@), md013_limit(*params)),
    {
        let line_length: usize = match params.config.get_u64("line_length") {
            Some(v) => v as usize,
            None => 80,
        };
        let lines = params.lines;
        let ghost ls = views(lines@);
        let names = self.names();
        let mut errors: Vec<LintError> = Vec::new();
        let mut in_code_block = false;
        let n = lines.len();
        let mut i: usize = 0;
        while i < n
            invariant
                n == lines@.len(),
                i <= n,
                ls == views(lines@),
                names_view(names@) == md013_meta().names,
                (in_code_block, errors_view(errors@)) == md013_scan(ls, line_length, i as int),
            decreases n - i,
        {
            let ghost prev = errors@;
            let t = line_body(lines, i);
            if starts_with_str(&t, "```") || starts_with_str(&t, "~~~") {
                in_code_block = !in_code_block;
            } else if in_code_block || starts_with_str(&t, "|") || starts_with_str(&t, "#") {
            } else {
                let actual_length = t.len();
                if actual_length > line_length {
                    let mut e = LintError::new(i + 1, &names, self.description(), self.information());
                    let mut d = text("Expected: ");
                    push_decimal(&mut d, line_length);
                    push_str(&mut d, "; Actual: ");
                    push_decimal(&mut d, actual_length);
                    e.error_detail = Some(d);
                    if actual_length > 78 {
                        let head = slice_chars(&t, 0, 75);
                        let mut ctx = string_of(&head);
                        push_str(&mut ctx, "...");
                        assert(head@ =~= t@.take(75));
                        e.error_context = Some(ctx);
                    } else {
                        e.error_context = Some(string_of(&t));
                    }
                    e.error_range = Some((line_length + 1, actual_length - line_length));
                    e.suggestion = Some(text("Consider breaking long lines for better readability"));
                    errors.push(e);
                    assert(errors_view(errors@) =~= errors_view(prev).push(
                        md013_error(t@, i as int, line_length),
                    ));
                }
            }
            i = i + 1;
        }
        errors
    }
}

} // verus!
