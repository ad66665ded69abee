//! MD047 - Files should end with a single newline character.

use vstd::prelude::*;
use crate::text::{
    byte_len, chars_of, ends_with, ends_with_str, strip_eol, text, utf8_byte_len, views,
};
use crate::fix::{
    edit_of, fix_line, fixed_document, fixed_line, join, lemma_char_at_end, lemma_join_last,
    lemma_split_len, lemma_split_bytes, lemma_merge_append, lemma_no_fixes_identity,
    lemma_split_last_newline, line_deleted, line_edits, split_lines,
};
use crate::text::trim_end_char;
use crate::types::{
    base_error, errors_view, fix_view, lines_fit, names_view, opt_str, FixInfo, LintError,
    LintErrorView, ParserType, RuleMeta, RuleParams,
};

verus! {

pub struct MD047;

pub open spec fn md047_meta() -> RuleMeta {
    RuleMeta {
        names: seq!["MD047"@, "single-trailing-newline"@],
        description: "Files should end with a single newline character"@,
        information: Some("https://github.com/DavidAnson/markdownlint/blob/main/doc/md047.md"@),
    }
}

/// The findings of MD047: one on the last line when it has no line ending.
pub open spec fn md047_errors(ls: Seq<Seq<char>>) -> Seq<LintErrorView> {
    if ls.len() == 0 {
        seq![]
    } else {
        let last = ls[ls.len() - 1];
        if !ends_with(last, "\n"@) && !ends_with(last, "\r\n"@) {
            seq![
                LintErrorView {
                    fix: Some(
                        fix_view(
                            Some(ls.len() as usize),
                            Some((byte_len(last) + 1) as usize),
                            None,
                            Some("\n"@),
                        ),
                    ),
                    suggestion: Some("Files should end with a single newline character"@),
                    ..base_error(md047_meta(), ls.len() as int)
                },
            ]
        } else {
            seq![]
        }
    }
}

impl MD047 {
    pub fn names(&self) -> (r: Vec<&'static str>)
        ensures
            names_view(r@) == md047_meta().names,
    {
        let r = vec!["MD047", "single-trailing-newline"];
        assert(names_view(r@) =~= md047_meta().names);
        r
    }

    pub fn description(&self) -> (r: &'static str)
        ensures
            r@ == md047_meta().description,
    {
        "Files should end with a single newline character"
    }

    pub fn tags(&self) -> (r: Vec<&'static str>)
        ensures
            names_view(r@) == seq!["blank_lines"@, "fixable"@],
    {
        let r = vec!["blank_lines", "fixable"];
        assert(names_view(r@) =~= seq!["blank_lines"@, "fixable"@]);
        r
    }

    pub fn parser_type(&self) -> (r: ParserType)
        ensures
            r == ParserType::Plain,
    {
        ParserType::Plain
    }

    pub fn information(&self) -> (r: Option<&'static str>)
        ensures
            opt_str(r) == md047_meta().information,
    {
        Some("https://github.com/DavidAnson/markdownlint/blob/main/doc/md047.md")
    }

    pub fn lint(&self, params: &RuleParams) -> (errors: Vec<LintError>)
        requires
            lines_fit(params.lines@),
        ensures
            errors_view(errors@) == md047_errors(views(params.lines@)),
    {
        let lines = params.lines;
        let mut errors: Vec<LintError> = Vec::new();
        let n = lines.len();
        if n == 0 {
            assert(errors_view(errors@) =~= seq![]);
            return errors;
        }
        let last = chars_of(lines[n - 1]);
        if !ends_with_str(&last, "\n") && !ends_with_str(&last, "\r\n") {
            assert(byte_len(lines@[n - 1]@) <= isize::MAX);
            let len = utf8_byte_len(&last);
            let names = self.names();
            let mut e = LintError::new(n, &names, self.description(), self.information());
            e.fix_info = Some(
                FixInfo {
                    line_number: Some(n),
                    edit_column: Some(len + 1),
                    delete_count: None,
                    insert_text: Some(text("\n")),
                },
            );
            e.suggestion = Some(text("Files should end with a single newline character"));
            errors.push(e);
        }
        assert(errors_view(errors@) =~= md047_errors(views(lines@)));
        errors
    }
}

/// Fixing the MD047 finding of a document (split into lines after each
/// line feed) leaves a document that MD047 does not report, unless its
/// last line ends in a carriage return.
pub proof fn lemma_md047_fix_resolves(content: Seq<char>)
    requires
        byte_len(content) <= isize::MAX,
        split_lines(content).len() > 0 ==> !ends_with(split_lines(content).last(), "\r"@),
    ensures
        md047_errors(split_lines(fixed_document(content, md047_errors(split_lines(content)))))
            == Seq::<LintErrorView>::empty(),
{
    let ls = split_lines(content);
    let es = md047_errors(ls);
    reveal_strlit("\n");
    reveal_strlit("\r");
    reveal_strlit("\r\n");
    if es.len() == 0 {
        lemma_no_fixes_identity(content, es);
    } else {
        let n = ls.len() as int;
        let last = ls[n - 1];
        let e = es[0];
        assert(!ends_with(last, "\n"@));
        assert(!ends_with(last, "\r"@));
        assert("\n"@ =~= seq!['\n']);
        assert("\r"@ =~= seq!['\r']);
        if last.len() > 0 {
            assert(last.skip(last.len() - 1) =~= seq![last.last()]);
            assert(last.last() != '\n');
            assert(last.last() != '\r');
        }
        lemma_split_len(content, 0);
        crate::text::lemma_len_le_byte_len(content);
        assert(trim_end_char(last, '\n') == last);
        assert(trim_end_char(last, '\r') == last);
        assert(strip_eol(last) == last);
        let f = |k: int| fixed_line(es, k + 1, ls[k]);
        assert(!line_deleted(es, n)) by {
            if line_deleted(es, n) {
                let k = choose|k: int|
                    0 <= k < es.len() && fix_line(#[trigger] es[k]) == n && es[k].fix is Some
                        && es[k].fix.unwrap().delete_count == Some(-1i32);
                assert(k == 0);
            }
        }
        let t = last;
        assert(line_edits(es, n, t, 0) =~= seq![]);
        assert(fix_line(e) == n);
        assert(line_edits(es, n, t, 1) == seq![edit_of(t, e)]);
        lemma_char_at_end(t, 0);
        lemma_split_bytes(content, 0);
        assert(byte_len(last) <= byte_len(content));
        assert(edit_of(t, e) == (t.len() as int, t.len() as int, "\n"@));
        lemma_merge_append(t, "\n"@, 0);
        assert(t.skip(0) =~= t);
        assert(last.skip(t.len() as int) =~= seq![]);
        assert(f(n - 1) =~= last + "\n"@);
        let fl = Seq::new(ls.len(), f);
        lemma_join_last(fl);
        let doc = fixed_document(content, es);
        assert(doc == join(fl));
        lemma_split_last_newline(doc, 0);
        let nl = split_lines(doc);
        assert(nl.last().skip(nl.last().len() - 1) =~= seq!['\n']);
    }
}

} // verus!
