//! MD058 - Tables should be surrounded by blank lines.

use vstd::prelude::*;
use crate::text::{chars_of, contains_char, has_char, text, trim, trim_vec, views};
use crate::types::{
    base_error, errors_view, fix_view, names_view, opt_str, FixInfo, LintError, LintErrorView,
    ParserType, RuleMeta, RuleParams,
};

verus! {

pub struct MD058;

pub open spec fn md058_meta() -> RuleMeta {
    RuleMeta {
        names: seq!["MD058"@, "blanks-around-tables"@],
        description: "Tables should be surrounded by blank lines"@,
        information: Some("https://github.com/DavidAnson/markdownlint/blob/main/doc/md058.md"@),
    }
}

pub open spec fn md058_error(line_number: int, detail: Seq<char>, fix_line: int) -> LintErrorView {
    LintErrorView {
        detail: Some(detail),
        fix: Some(fix_view(Some(fix_line as usize), Some(1usize), None, Some("\n"@))),
        ..base_error(md058_meta(), line_number)
    }
}

/// Scan state after a line: the first line of the current table (0 when
/// outside a table), findings so far.
pub open spec fn md058_scan(ls: Seq<Seq<char>>, n: int) -> (int, Seq<LintErrorView>)
    decreases n,
{
    if n <= 0 {
        (0, seq![])
    } else {
        let st = md058_scan(ls, n - 1);
        let t = trim(ls[n - 1]);
        if has_char(t, '|') && st.0 == 0 {
            if n > 1 && trim(ls[n - 2]).len() > 0 {
                (n, st.1.push(md058_error(n, "Expected blank line before table"@, n)))
            } else {
                (n, st.1)
            }
        } else if !has_char(t, '|') && st.0 > 0 {
            if t.len() > 0 {
                (0, st.1.push(md058_error(n - 1, "Expected blank line after table"@, n)))
            } else {
                (0, st.1)
            }
        } else {
            st
        }
    }
}

/// The findings of MD058.
pub open spec fn md058_errors(ls: Seq<Seq<char>>) -> Seq<LintErrorView> {
    md058_scan(ls, ls.len() as int).1
}

impl MD058 {
    pub fn names(&self) -> (r: Vec<&'static str>)
        ensures
            names_view(r@) == md058_meta().names,
    {
        let r = vec!["MD058", "blanks-around-tables"];
        assert(names_view(r@) =~= md058_meta().names);
        r
    }

    pub fn description(&self) -> (r: &'static str)
        ensures
            r@ == md058_meta().description,
    {
        "Tables should be surrounded by blank lines"
    }

    pub fn tags(&self) -> (r: Vec<&'static str>)
        ensures
            names_view(r@) == seq!["table"@, "blank_lines"@],
    {
        let r = vec!["table", "blank_lines"];
        assert(names_view(r@) =~= seq!["table"@, "blank_lines"@]);
        r
    }

    pub fn parser_type(&self) -> (r: ParserType)
        ensures
            r == ParserType::Plain,
    {
        ParserType::Plain
    }

    pub fn information(&self) -> (r: Option<&'static str>)
        ensures
            opt_str(r) == md058_meta().information,
    {
        Some("https://github.com/DavidAnson/markdownlint/blob/main/doc/md058.md")
    }

    pub fn lint(&self, params: &RuleParams) -> (errors: Vec<LintError>)
        ensures
            errors_view(errors@) == md058_errors(views(params.lines@)),
    {
        let lines = params.lines;
        let ghost ls = views(lines@);
        let names = self.names();
        let mut errors: Vec<LintError> = Vec::new();
        let mut table_start: usize = 0;
        let n = lines.len();
        let mut i: usize = 0;
        while i < n
            invariant
                n == lines@.len(),
                i <= n,
                table_start <= i,
                ls == views(lines@),
                names_view(names@) == md058_meta().names,
                md058_scan(ls, i as int) == (table_start as int, errors_view(errors@)),
            decreases n - i,
        {
            let ghost before = errors@;
            let line_number = i + 1;
            let v = chars_of(lines[i]);
            let t = trim_vec(&v);
            let has_pipe = contains_char(&t, '|');
            if has_pipe && table_start == 0 {
                table_start = line_number;
                if line_number > 1 {
                    let pv = chars_of(lines[line_number - 2]);
                    let pt = trim_vec(&pv);
                    if pt.len() != 0 {
                        let mut e = LintError::new(line_number, &names, self.description(), self.information());
                        e.error_detail = Some(text("Expected blank line before table"));
                        e.fix_info = Some(FixInfo { line_number: Some(line_number), edit_column: Some(1), delete_count: None, insert_text: Some(text("\n")) });
                        errors.push(e);
                        assert(errors_view(errors@) =~= errors_view(before).push(md058_error(line_number as int, "Expected blank line before table"@, line_number as int)));
                    }
                }
            } else if !has_pipe && table_start > 0 {
                if t.len() != 0 {
                    let mut e = LintError::new(line_number - 1, &names, self.description(), self.information());
                    e.error_detail = Some(text("Expected blank line after table"));
                    e.fix_info = Some(FixInfo { line_number: Some(line_number), edit_column: Some(1), delete_count: None, insert_text: Some(text("\n")) });
                    errors.push(e);
                    assert(errors_view(errors@) =~= errors_view(before).push(md058_error(line_number - 1, "Expected blank line after table"@, line_number as int)));
                }
                table_start = 0;
            }
            i = i + 1;
        }
        errors
    }
}

} // verus!
