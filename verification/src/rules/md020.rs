//! MD020 - No space inside hashes on closed atx style heading.

use vstd::prelude::*;
use crate::text::{
    byte_len, chars_of, ends_with, ends_with_str, starts_with, starts_with_str, string_of, text,
    trim, trim_start, trim_start_vec, trim_vec, utf8_byte_len, views,
};
use crate::types::{
    base_error, errors_view, fix_view, lines_fit, names_view, opt_str, FixInfo, LintError,
    LintErrorView, ParserType, RuleMeta, RuleParams,
};

use crate::text::{
    leading_count, leading_len, lemma_byte_len_trims, trim_end_char, trim_end_char_vec,
    trim_start_char, trim_start_char_vec,
};

verus! {

pub struct MD020;

pub open spec fn md020_meta() -> RuleMeta {
    RuleMeta {
        names: seq!["MD020"@, "no-missing-space-closed-atx"@],
        description: "No space inside hashes on closed atx style heading"@,
        information: Some("https://github.com/DavidAnson/markdownlint/blob/main/doc/md020.md"@),
    }
}

/// A closed ATX heading line (trimmed, starting and ending with `#`) with
/// text between the hashes: the trimmed line and that text.
pub open spec fn closed_atx(line: Seq<char>) -> Option<(Seq<char>, Seq<char>)> {
    let t = trim(line);
    let content = trim_end_char(trim_start_char(t, '#'), '#');
    if starts_with(t, "#"@) && ends_with(t, "#"@) && content.len() > 0 {
        Some((t, content))
    } else {
        None
    }
}

/// Bytes of indentation of the line.
pub open spec fn lead_bytes(line: Seq<char>) -> int {
    byte_len(line) - byte_len(trim_start(line))
}

/// Byte offset in `t` where its trailing `#` run starts (each `#` is one
/// byte, so this is `t.len()` less the number of trailing hashes).
pub open spec fn content_end(t: Seq<char>) -> int {
    byte_len(trim_end_char(t, '#')) as int
}

pub open spec fn md020_line(line: Seq<char>, i: int) -> Seq<LintErrorView> {
    match closed_atx(line) {
        None => seq![],
        Some((t, content)) => {
            let lead = lead_bytes(line);
            let e1 = LintErrorView {
                detail: Some("Missing space after opening #"@),
                context: Some(t),
                fix: Some(fix_view(None, Some((lead + leading_count(t, '#') + 1) as usize), None, Some(" "@))),
                suggestion: Some("Add space after opening #"@),
                ..base_error(md020_meta(), i + 1)
            };
            let e2 = LintErrorView {
                detail: Some("Missing space before closing #"@),
                context: Some(t),
                fix: Some(fix_view(None, Some((lead + content_end(t) + 1) as usize), None, Some(" "@))),
                suggestion: Some("Add space before closing #"@),
                ..base_error(md020_meta(), i + 1)
            };
            let a = if !starts_with(content, " "@) { seq![e1] } else { seq![] };
            let b = if !ends_with(content, " "@) { seq![e2] } else { seq![] };
            a + b
        },
    }
}

pub open spec fn md020_scan(ls: Seq<Seq<char>>, n: int) -> Seq<LintErrorView>
    decreases n,
{
    if n <= 0 {
        seq![]
    } else {
        md020_scan(ls, n - 1) + md020_line(ls[n - 1], n - 1)
    }
}

/// The findings of MD020.
pub open spec fn md020_errors(ls: Seq<Seq<char>>) -> Seq<LintErrorView> {
    md020_scan(ls, ls.len() as int)
}

impl MD020 {
    pub fn names(&self) -> (r: Vec<&'static str>)
        ensures
            names_view(r@) == md020_meta().names,
    {
        let r = vec!["MD020", "no-missing-space-closed-atx"];
        assert(names_view(r@) =~= md020_meta().names);
        r
    }

    pub fn description(&self) -> (r: &'static str)
        ensures
            r@ == md020_meta().description,
    {
        "No space inside hashes on closed atx style heading"
    }

    pub fn tags(&self) -> (r: Vec<&'static str>)
        ensures
            names_view(r@) == seq!["headings"@, "atx"@, "atx_closed"@, "spaces"@, "fixable"@],
    {
        let r = vec!["headings", "atx", "atx_closed", "spaces", "fixable"];
        assert(names_view(r@) =~= seq!["headings"@, "atx"@, "atx_closed"@, "spaces"@, "fixable"@]);
        r
    }

    pub fn parser_type(&self) -> (r: ParserType)
        ensures
            r == ParserType::Plain,
    {
        ParserType::Plain
    }

    pub fn information(&self) -> (r: Option<&'static str>)
        ensures
            opt_str(r) == md020_meta().information,
    {
        Some("https://github.com/DavidAnson/markdownlint/blob/main/doc/md020.md")
    }

    pub fn lint(&self, params: &RuleParams) -> (errors: Vec<LintError>)
        requires
            lines_fit(params.lines@),
        ensures
            errors_view(errors@) == md020_errors(views(params.lines@)),
    {
        let lines = params.lines;
        let ghost ls = views(lines@);
        let names = self.names();
        let mut errors: Vec<LintError> = Vec::new();
        let n = lines.len();
        let mut i: usize = 0;
        while i < n
            invariant
                n == lines@.len(),
                i <= n,
                ls == views(lines@),
                lines_fit(lines@),
                names_view(names@) == md020_meta().names,
                errors_view(errors@) == md020_scan(ls, i as int),
            decreases n - i,
        {
            let ghost before = errors_view(errors@);
            let v = chars_of(lines[i]);
            let t = trim_vec(&v);
            let a = trim_start_char_vec(&t, '#');
            let content = trim_end_char_vec(&a, '#');
            if starts_with_str(&t, "#") && ends_with_str(&t, "#") && content.len() > 0 {
                let leading_hashes = leading_len(&t, '#');
                let tt = trim_end_char_vec(&t, '#');
                let ts = trim_start_vec(&v);
                proof {
                    assert(byte_len(lines@[i as int]@) <= isize::MAX);
                    lemma_byte_len_trims(v@, '#');
                    crate::text::lemma_trim_end_char_prefix(t@, '#');
                }
                let total = utf8_byte_len(&v);
                let rest = utf8_byte_len(&ts);
                proof {
                    lemma_byte_len_trims(t@, '#');
                }
                let tlen = utf8_byte_len(&tt);
                let lead = total - rest;
                if !starts_with_str(&content, " ") {
                    let col = ((lead as u128) + (leading_hashes as u128) + 1) as usize;
                    let mut e = LintError::new(i + 1, &names, self.description(), self.information());
                    e.error_detail = Some(text("Missing space after opening #"));
                    e.error_context = Some(string_of(&t));
                    e.fix_info = Some(FixInfo { line_number: None, edit_column: Some(col), delete_count: None, insert_text: Some(text(" ")) });
                    e.suggestion = Some(text("Add space after opening #"));
                    errors.push(e);
                }
                if !ends_with_str(&content, " ") {
                    let col = ((lead as u128) + (tlen as u128) + 1) as usize;
                    let mut e = LintError::new(i + 1, &names, self.description(), self.information());
                    e.error_detail = Some(text("Missing space before closing #"));
                    e.error_context = Some(string_of(&t));
                    e.fix_info = Some(FixInfo { line_number: None, edit_column: Some(col), delete_count: None, insert_text: Some(text(" ")) });
                    e.suggestion = Some(text("Add space before closing #"));
                    errors.push(e);
                }
            }
            assert(errors_view(errors@) =~= before + md020_line(ls[i as int], i as int));
            i = i + 1;
        }
        errors
    }
}

} // verus!
