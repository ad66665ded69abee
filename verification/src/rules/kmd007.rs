//! KMD007 - Math block delimiters must be matched.
//!
//! In Kramdown, display math is fenced with `$$` on its own line. The rule
//! fires when an opening `$$` fence has no matching closing `$$`.

use vstd::prelude::*;
use crate::text::{
    decimal, eq_str, line_body, push_decimal, push_str, starts_with, starts_with_str, strip_eol,
    text, trim, trim_vec, views,
};
use crate::types::{
    base_error, errors_view, names_view, LintError, LintErrorView, ParserType, RuleMeta, RuleParams,
};

verus! {

pub struct KMD007;

pub open spec fn kmd007_meta() -> RuleMeta {
    RuleMeta {
        names: seq!["KMD007"@, "math-block-delimiters"@],
        description: "Math block '$$' delimiters must be matched"@,
        information: None,
    }
}

/// The line without its line ending, trimmed.
pub open spec fn kmd007_trimmed(line: Seq<char>) -> Seq<char> {
    trim(strip_eol(line))
}

pub open spec fn kmd007_code_fence(line: Seq<char>) -> bool {
    starts_with(kmd007_trimmed(line), "```"@) || starts_with(kmd007_trimmed(line), "~~~"@)
}

/// Scan state after a line: inside a fenced code block, and the line number
/// of a still open `$$` fence.
pub open spec fn kmd007_step(lines: Seq<Seq<char>>, i: int, st: (bool, Option<int>)) -> (
    bool,
    Option<int>,
) {
    if kmd007_code_fence(lines[i]) {
        (!st.0, st.1)
    } else if st.0 {
        st
    } else if kmd007_trimmed(lines[i]) == "$$"@ {
        match st.1 {
            Some(_) => (st.0, None),
            None => (st.0, Some(i + 1)),
        }
    } else {
        st
    }
}

pub open spec fn kmd007_scan(lines: Seq<Seq<char>>, n: int) -> (bool, Option<int>)
    decreases n,
{
    if n <= 0 {
        (false, None)
    } else {
        kmd007_step(lines, n - 1, kmd007_scan(lines, n - 1))
    }
}

pub open spec fn kmd007_detail(open_line: int) -> Seq<char> {
    "Unclosed math block: opening '$$' on line "@ + decimal(open_line as nat)
        + " has no matching closing '$$'"@
}

/// The findings of KMD007: one for a `$$` fence still open at the end.
pub open spec fn kmd007_errors(lines: Seq<Seq<char>>) -> Seq<LintErrorView> {
    match kmd007_scan(lines, lines.len() as int).1 {
        Some(l) => seq![
            LintErrorView {
                detail: Some(kmd007_detail(l)),
                ..base_error(kmd007_meta(), l)
            },
        ],
        None => seq![],
    }
}

impl KMD007 {
    pub fn names(&self) -> (r: Vec<&'static str>)
        ensures
            names_view(r@) == kmd007_meta().names,
    {
        let r = vec!["KMD007", "math-block-delimiters"];
        assert(names_view(r@) =~= kmd007_meta().names);
        r
    }

    pub fn description(&self) -> (r: &'static str)
        ensures
            r@ == kmd007_meta().description,
    {
        "Math block '$$' delimiters must be matched"
    }

    pub fn tags(&self) -> (r: Vec<&'static str>)
        ensures
            names_view(r@) == seq!["kramdown"@, "math"@],
    {
        let r = vec!["kramdown", "math"];
        assert(names_view(r@) =~= seq!["kramdown"@, "math"@]);
        r
    }

    pub fn parser_type(&self) -> (r: ParserType)
        ensures
            r == ParserType::Plain,
    {
        ParserType::Plain
    }

    pub fn is_enabled_by_default(&self) -> (r: bool)
        ensures
            !r,
    {
        false
    }

    pub fn lint(&self, params: &RuleParams) -> (errors: Vec<LintError>)
        ensures
            errors_view(errors@) == kmd007_errors(views(params.lines@)),
    {
        let lines = params.lines;
        let ghost ls = views(lines@);
        let mut in_code_block = false;
        let mut math_open_line: Option<usize> = None;
        let mut i: usize = 0;
        while i < lines.len()
            invariant
                i <= lines@.len(),
                ls == views(lines@),
                math_open_line matches Some(l) ==> 0 < l <= i,
                (in_code_block, match math_open_line {
                    Some(l) => Some(l as int),
                    None => None,
                }) == kmd007_scan(ls, i as int),
            decreases lines@.len() - i,
        {
            let b = line_body(lines, i);
            let t = trim_vec(&b);
            if starts_with_str(&t, "```") || starts_with_str(&t, "~~~") {
                in_code_block = !in_code_block;
            } else if in_code_block {
            } else if eq_str(&t, "$$") {
                if math_open_line.is_some() {
                    math_open_line = None;
                } else {
                    math_open_line = Some(i + 1);
                }
            }
            i = i + 1;
        }
        let mut errors: Vec<LintError> = Vec::new();
        if let Some(open_line) = math_open_line {
            let names = self.names();
            let mut e = LintError::new(open_line, &names, self.description(), None);
            let mut d = text("Unclosed math block: opening '$$' on line ");
            push_decimal(&mut d, open_line);
            push_str(&mut d, " has no matching closing '$$'");
            e.error_detail = Some(d);
            errors.push(e);
            assert(errors_view(errors@) =~= kmd007_errors(ls));
        }
        errors
    }
}

proof fn lemma_scan_open_line(lines: Seq<Seq<char>>, n: int)
    requires
        0 <= n <= lines.len(),
    ensures
        kmd007_scan(lines, n).1 matches Some(l) ==> 1 <= l <= n && kmd007_trimmed(lines[l - 1]) == "$$"@,
    decreases n,
{
    if n > 0 {
        lemma_scan_open_line(lines, n - 1);
    }
}

/// KMD007 reports at most one finding, and only on a line that is a `$$`
/// fence of the document.
pub proof fn lemma_kmd007_single_finding(lines: Seq<Seq<char>>)
    ensures
        kmd007_errors(lines).len() <= 1,
        kmd007_errors(lines).len() == 1 ==> {
            let l = kmd007_errors(lines)[0].line_number;
            1 <= l <= lines.len() && kmd007_trimmed(lines[l - 1]) == "$$"@
        },
{
    lemma_scan_open_line(lines, lines.len() as int);
}

} // verus!
