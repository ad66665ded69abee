//! MD055 - Table pipe style.
//!
//! A table row should have pipes at both ends or at neither.

use vstd::prelude::*;
use crate::text::{
    byte_len, chars_of, contains_char, ends_with, ends_with_str, has_char, starts_with,
    starts_with_str, string_of, text, trim, trim_end, trim_end_vec, trim_start, trim_start_vec,
    trim_vec, utf8_byte_len, views,
};
use crate::types::{
    base_error, errors_view, fix_view, lines_fit, names_view, opt_str, FixInfo, LintError,
    LintErrorView, ParserType, RuleMeta, RuleParams,
};

use crate::text::{count_char, count_chars, lemma_byte_len_trims, trim_end_char, trim_end_char_vec};

verus! {

pub struct MD055;

pub open spec fn md055_meta() -> RuleMeta {
    RuleMeta {
        names: seq!["MD055"@, "table-pipe-style"@],
        description: "Table pipe style"@,
        information: Some("https://github.com/DavidAnson/markdownlint/blob/main/doc/md055.md"@),
    }
}

/// A row (more than one pipe) with a pipe at one end only.
pub open spec fn uneven_row(line: Seq<char>) -> bool {
    let t = trim(line);
    has_char(t, '|') && count_char(t, '|') > 1 && starts_with(t, "|"@) != ends_with(trim_end(t), "|"@)
}

pub open spec fn md055_error(line: Seq<char>, i: int) -> LintErrorView {
    let t = trim(line);
    let lwn = trim_end_char(line, '\n');
    let lead = byte_len(line) - byte_len(trim_start(line));
    LintErrorView {
        detail: Some("Inconsistent pipe style"@),
        context: Some(t),
        fix: if starts_with(t, "|"@) {
            Some(fix_view(None, Some((byte_len(trim_end(lwn)) + 1) as usize), None, Some(" |"@)))
        } else {
            Some(fix_view(None, Some((lead + 1) as usize), None, Some("| "@)))
        },
        suggestion: Some("Table rows should have pipes at both the beginning and end, or neither"@),
        ..base_error(md055_meta(), i + 1)
    }
}

pub open spec fn md055_scan(ls: Seq<Seq<char>>, n: int) -> Seq<LintErrorView>
    decreases n,
{
    if n <= 0 {
        seq![]
    } else {
        let prev = md055_scan(ls, n - 1);
        if uneven_row(ls[n - 1]) {
            prev.push(md055_error(ls[n - 1], n - 1))
        } else {
            prev
        }
    }
}

/// The findings of MD055.
pub open spec fn md055_errors(ls: Seq<Seq<char>>) -> Seq<LintErrorView> {
    md055_scan(ls, ls.len() as int)
}

impl MD055 {
    pub fn names(&self) -> (r: Vec<&'static str>)
        ensures
            names_view(r@) == md055_meta().names,
    {
        let r = vec!["MD055", "table-pipe-style"];
        assert(names_view(r@) =~= md055_meta().names);
        r
    }

    pub fn description(&self) -> (r: &'static str)
        ensures
            r@ == md055_meta().description,
    {
        "Table pipe style"
    }

    pub fn tags(&self) -> (r: Vec<&'static str>)
        ensures
            names_view(r@) == seq!["table"@, "fixable"@],
    {
        let r = vec!["table", "fixable"];
        assert(names_view(r@) =~= seq!["table"@, "fixable"@]);
        r
    }

    pub fn parser_type(&self) -> (r: ParserType)
        ensures
            r == ParserType::Plain,
    {
        ParserType::Plain
    }

    pub fn information(&self) -> (r: Option<&'static str>)
        ensures
            opt_str(r) == md055_meta().information,
    {
        Some("https://github.com/DavidAnson/markdownlint/blob/main/doc/md055.md")
    }

    pub fn lint(&self, params: &RuleParams) -> (errors: Vec<LintError>)
        requires
            lines_fit(params.lines@),
        ensures
            errors_view(errors@) == md055_errors(views(params.lines@)),
    {
        let lines = params.lines;
        let ghost ls = views(lines@);
        let names = self.names();
        let mut errors: Vec<LintError> = Vec::new();
        let n = lines.len();
        let mut i: usize = 0;
        while i < n
            invariant
                n == lines@.len(),
                i <= n,
                ls == views(lines@),
                lines_fit(lines@),
                names_view(names@) == md055_meta().names,
                errors_view(errors@) == md055_scan(ls, i as int),
            decreases n - i,
        {
            let ghost before = errors@;
            let v = chars_of(lines[i]);
            let t = trim_vec(&v);
            let te = trim_end_vec(&t);
            let starts = starts_with_str(&t, "|");
            let ends = ends_with_str(&te, "|");
            if contains_char(&t, '|') && count_chars(&t, '|') > 1 && starts != ends {
                proof {
                    assert(byte_len(lines@[i as int]@) <= isize::MAX);
                    lemma_byte_len_trims(v@, '\n');
                    lemma_byte_len_trims(trim_end_char(v@, '\n'), '\n');
                }
                let mut e = LintError::new(i + 1, &names, self.description(), self.information());
                e.error_detail = Some(text("Inconsistent pipe style"));
                e.error_context = Some(string_of(&t));
                if starts {
                    let lwn = trim_end_char_vec(&v, '\n');
                    let body = trim_end_vec(&lwn);
                    let blen = utf8_byte_len(&body);
                    e.fix_info = Some(FixInfo { line_number: None, edit_column: Some(blen + 1), delete_count: None, insert_text: Some(text(" |")) });
                } else {
                    let vs = trim_start_vec(&v);
                    let total = utf8_byte_len(&v);
                    let rest = utf8_byte_len(&vs);
                    e.fix_info = Some(FixInfo { line_number: None, edit_column: Some(total - rest + 1), delete_count: None, insert_text: Some(text("| ")) });
                }
                e.suggestion = Some(text("Table rows should have pipes at both the beginning and end, or neither"));
                errors.push(e);
                assert(errors_view(errors@) =~= errors_view(before).push(md055_error(ls[i as int], i as int)));
            }
            i = i + 1;
        }
        errors
    }
}

} // verus!
