//! MD014 - Dollar signs used before commands without showing output.
//!
//! Inside fenced code blocks, reports lines that start with `$`.

use vstd::prelude::*;
use crate::text::{
    byte_len, chars_of, starts_with, starts_with_str, string_of, text, trim, trim_start,
    trim_start_vec, trim_vec, utf8_byte_len, views,
};
use crate::types::{
    base_error, errors_view, fix_view, lines_fit, names_view, opt_str, FixInfo, LintError,
    LintErrorView, ParserType, RuleMeta, RuleParams,
};

use crate::text::lemma_byte_len_trims;

verus! {

pub struct MD014;

pub open spec fn md014_meta() -> RuleMeta {
    RuleMeta {
        names: seq!["MD014"@, "commands-show-output"@],
        description: "Dollar signs used before commands without showing output"@,
        information: Some("https://github.com/DavidAnson/markdownlint/blob/main/doc/md014.md"@),
    }
}

pub open spec fn md014_error(line: Seq<char>, i: int) -> LintErrorView {
    let t = trim(line);
    let lead = byte_len(line) - byte_len(trim_start(line));
    LintErrorView {
        context: Some(t),
        range: Some((1usize, byte_len(line) as usize)),
        fix: Some(
            fix_view(
                None,
                Some((lead + 1) as usize),
                Some(
                    if t.len() >= 2 && t[1] == ' ' {
                        2i32
                    } else {
                        1i32
                    },
                ),
                None,
            ),
        ),
        ..base_error(md014_meta(), i + 1)
    }
}

pub open spec fn md014_scan(ls: Seq<Seq<char>>, n: int) -> (bool, Seq<LintErrorView>)
    decreases n,
{
    if n <= 0 {
        (false, seq![])
    } else {
        let st = md014_scan(ls, n - 1);
        let t = trim(ls[n - 1]);
        if starts_with(t, "```"@) || starts_with(t, "~~~"@) {
            (!st.0, st.1)
        } else if st.0 && starts_with(t, "$"@) {
            (st.0, st.1.push(md014_error(ls[n - 1], n - 1)))
        } else {
            st
        }
    }
}

/// The findings of MD014.
pub open spec fn md014_errors(ls: Seq<Seq<char>>) -> Seq<LintErrorView> {
    md014_scan(ls, ls.len() as int).1
}

impl MD014 {
    pub fn names(&self) -> (r: Vec<&'static str>)
        ensures
            names_view(r@) == md014_meta().names,
    {
        let r = vec!["MD014", "commands-show-output"];
        assert(names_view(r@) =~= md014_meta().names);
        r
    }

    pub fn description(&self) -> (r: &'static str)
        ensures
            r@ == md014_meta().description,
    {
        "Dollar signs used before commands without showing output"
    }

    pub fn tags(&self) -> (r: Vec<&'static str>)
        ensures
            names_view(r@) == seq!["code"@, "fixable"@],
    {
        let r = vec!["code", "fixable"];
        assert(names_view(r@) =~= seq!["code"@, "fixable"@]);
        r
    }

    pub fn parser_type(&self) -> (r: ParserType)
        ensures
            r == ParserType::Plain,
    {
        ParserType::Plain
    }

    pub fn information(&self) -> (r: Option<&'static str>)
        ensures
            opt_str(r) == md014_meta().information,
    {
        Some("https://github.com/DavidAnson/markdownlint/blob/main/doc/md014.md")
    }

    pub fn lint(&self, params: &RuleParams) -> (errors: Vec<LintError>)
        requires
            lines_fit(params.lines@),
        ensures
            errors_view(errors@) == md014_errors(views(params.lines@)),
    {
        let lines = params.lines;
        let ghost ls = views(lines@);
        let names = self.names();
        let mut errors: Vec<LintError> = Vec::new();
        let mut in_code_block = false;
        let n = lines.len();
        let mut i: usize = 0;
        while i < n
            invariant
                n == lines@.len(),
                i <= n,
                ls == views(lines@),
                lines_fit(lines@),
                names_view(names@) == md014_meta().names,
                md014_scan(ls, i as int) == (in_code_block, errors_view(errors@)),
            decreases n - i,
        {
            let ghost before = errors@;
            let v = chars_of(lines[i]);
            let t = trim_vec(&v);
            if starts_with_str(&t, "```") || starts_with_str(&t, "~~~") {
                in_code_block = !in_code_block;
            } else if in_code_block && starts_with_str(&t, "$") {
                let ts = trim_start_vec(&v);
                proof {
                    lemma_byte_len_trims(v@, ' ');
                    assert(byte_len(lines@[i as int]@) <= isize::MAX);
                }
                let total = utf8_byte_len(&v);
                let rest = utf8_byte_len(&ts);
                let dollar_pos = total - rest + 1;
                let delete_count: i32 = if t.len() >= 2 && t[1] == ' ' {
                    2
                } else {
                    1
                };
                let mut e = LintError::new(i + 1, &names, self.description(), self.information());
                e.error_context = Some(string_of(&t));
                e.error_range = Some((1, total));
                e.fix_info = Some(
                    FixInfo {
                        line_number: None,
                        edit_column: Some(dollar_pos),
                        delete_count: Some(delete_count),
                        insert_text: None,
                    },
                );
                errors.push(e);
                assert(errors_view(errors@) =~= errors_view(before).push(md014_error(ls[i as int], i as int)));
            }
            i = i + 1;
        }
        errors
    }
}

} // verus!
