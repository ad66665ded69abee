//! MD056 - Table column count.
//!
//! Every row of a table should have as many columns (pipes less one) as its
//! first row.

use vstd::prelude::*;
use crate::text::{
    chars_of, contains_char, decimal, has_char, push_decimal, push_str, string_of, text, trim,
    trim_vec, views,
};
use crate::types::{
    base_error, errors_view, names_view, opt_str, LintError, LintErrorView, ParserType, RuleMeta,
    RuleParams,
};

use crate::text::{count_char, count_chars, lemma_count_char_has};

verus! {

pub struct MD056;

pub open spec fn md056_meta() -> RuleMeta {
    RuleMeta {
        names: seq!["MD056"@, "table-column-count"@],
        description: "Table column count"@,
        information: Some("https://github.com/DavidAnson/markdownlint/blob/main/doc/md056.md"@),
    }
}

pub open spec fn md056_error(t: Seq<char>, i: int, expected: nat, actual: nat) -> LintErrorView {
    LintErrorView {
        detail: Some("Expected: "@ + decimal(expected) + " columns; Actual: "@ + decimal(actual) + " columns"@),
        context: Some(t),
        suggestion: Some("Ensure all table rows have the same number of columns"@),
        ..base_error(md056_meta(), i + 1)
    }
}

/// Scan state after a line: inside a table, its column count, findings.
pub open spec fn md056_scan(ls: Seq<Seq<char>>, n: int) -> (bool, nat, Seq<LintErrorView>)
    decreases n,
{
    if n <= 0 {
        (false, 0, seq![])
    } else {
        let st = md056_scan(ls, n - 1);
        let t = trim(ls[n - 1]);
        if has_char(t, '|') {
            let cols = (count_char(t, '|') - 1) as nat;
            if !st.0 {
                (true, cols, st.2)
            } else if cols != st.1 {
                (st.0, st.1, st.2.push(md056_error(t, n - 1, st.1, cols)))
            } else {
                st
            }
        } else if t.len() > 0 {
            (false, st.1, st.2)
        } else {
            st
        }
    }
}

/// The findings of MD056.
pub open spec fn md056_errors(ls: Seq<Seq<char>>) -> Seq<LintErrorView> {
    md056_scan(ls, ls.len() as int).2
}

impl MD056 {
    pub fn names(&self) -> (r: Vec<&'static str>)
        ensures
            names_view(r@) == md056_meta().names,
    {
        let r = vec!["MD056", "table-column-count"];
        assert(names_view(r@) =~= md056_meta().names);
        r
    }

    pub fn description(&self) -> (r: &'static str)
        ensures
            r@ == md056_meta().description,
    {
        "Table column count"
    }

    pub fn tags(&self) -> (r: Vec<&'static str>)
        ensures
            names_view(r@) == seq!["table"@],
    {
        let r = vec!["table"];
        assert(names_view(r@) =~= seq!["table"@]);
        r
    }

    pub fn parser_type(&self) -> (r: ParserType)
        ensures
            r == ParserType::Plain,
    {
        ParserType::Plain
    }

    pub fn information(&self) -> (r: Option<&'static str>)
        ensures
            opt_str(r) == md056_meta().information,
    {
        Some("https://github.com/DavidAnson/markdownlint/blob/main/doc/md056.md")
    }

    pub fn lint(&self, params: &RuleParams) -> (errors: Vec<LintError>)
        ensures
            errors_view(errors@) == md056_errors(views(params.lines@)),
    {
        let lines = params.lines;
        let ghost ls = views(lines@);
        let names = self.names();
        let mut errors: Vec<LintError> = Vec::new();
        let mut in_table = false;
        let mut expected_cols: usize = 0;
        let n = lines.len();
        let mut i: usize = 0;
        while i < n
            invariant
                n == lines@.len(),
                i <= n,
                ls == views(lines@),
                names_view(names@) == md056_meta().names,
                md056_scan(ls, i as int) == (in_table, expected_cols as nat, errors_view(errors@)),
            decreases n - i,
        {
            let ghost before = errors@;
            let v = chars_of(lines[i]);
            let t = trim_vec(&v);
            if contains_char(&t, '|') {
                proof {
                    lemma_count_char_has(t@, '|');
                }
                let col_count = count_chars(&t, '|') - 1;
                if !in_table {
                    expected_cols = col_count;
                    in_table = true;
                } else if col_count != expected_cols {
                    let mut e = LintError::new(i + 1, &names, self.description(), self.information());
                    let mut d = text("Expected: ");
                    push_decimal(&mut d, expected_cols);
                    push_str(&mut d, " columns; Actual: ");
                    push_decimal(&mut d, col_count);
                    push_str(&mut d, " columns");
                    e.error_detail = Some(d);
                    e.error_context = Some(string_of(&t));
                    e.suggestion = Some(text("Ensure all table rows have the same number of columns"));
                    errors.push(e);
                    assert(errors_view(errors@) =~= errors_view(before).push(md056_error(t@, i as int, expected_cols as nat, col_count as nat)));
                }
            } else if t.len() != 0 {
                in_table = false;
            }
            i = i + 1;
        }
        errors
    }
}

} // verus!
