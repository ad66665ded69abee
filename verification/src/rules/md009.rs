//! MD009 - Trailing spaces.
//!
//! Reports lines that end with a space or a tab (before the line ending).
//! Columns and counts are in bytes of the UTF-8 text.

use vstd::prelude::*;
use crate::text::{
    byte_len, decimal, lemma_strip_eol_prefix, line_body, push_decimal, slice_chars, string_of,
    strip_eol, text, trim_end, trim_end_len, utf8_byte_len, views,
};
use crate::types::{
    base_error, errors_view, fix_view, lines_fit, names_view, opt_str, FixInfo, LintError,
    LintErrorView, ParserType, RuleMeta, RuleParams,
};

use crate::text::lemma_byte_len_take;
use crate::fix::{
    edit_of, eol_of, fix_line, fixed_document, fixed_line, join, lemma_char_at_end, lemma_eol_shape,
    lemma_line_edits_push, lemma_merge_none, lemma_merge_replace, lemma_split_bytes,
    lemma_split_join, lemma_split_well, lemma_strip_eol_reattach, line_deleted, line_edits,
    one_line, split_lines, well_split,
};

verus! {

pub struct MD009;

pub open spec fn md009_meta() -> RuleMeta {
    RuleMeta {
        names: seq!["MD009"@, "no-trailing-spaces"@],
        description: "Trailing spaces"@,
        information: Some("https://github.com/DavidAnson/markdownlint/blob/main/doc/md009.md"@),
    }
}

/// The line body ends with a space or a tab.
pub open spec fn md009_flagged(t: Seq<char>) -> bool {
    t.len() > 0 && (t.last() == ' ' || t.last() == '\t')
}

pub open spec fn md009_error(t: Seq<char>, i: int) -> LintErrorView {
    let start = byte_len(trim_end(t));
    let count = byte_len(t) - start;
    LintErrorView {
        detail: Some("Expected: 0; Actual: "@ + decimal(count as nat)),
        context: Some(t.skip(trim_end(t).len() as int)),
        range: Some(((start + 1) as usize, count as usize)),
        fix: Some(fix_view(None, Some((start + 1) as usize), Some(count as i32), None)),
        suggestion: Some("Remove trailing spaces"@),
        ..base_error(md009_meta(), i + 1)
    }
}

pub open spec fn md009_scan(lines: Seq<Seq<char>>, n: int) -> Seq<LintErrorView>
    decreases n,
{
    if n <= 0 {
        seq![]
    } else {
        let prev = md009_scan(lines, n - 1);
        let t = strip_eol(lines[n - 1]);
        if md009_flagged(t) {
            prev.push(md009_error(t, n - 1))
        } else {
            prev
        }
    }
}

/// The findings of MD009: one per line with trailing whitespace.
pub open spec fn md009_errors(lines: Seq<Seq<char>>) -> Seq<LintErrorView> {
    md009_scan(lines, lines.len() as int)
}

impl MD009 {
    pub fn names(&self) -> (r: Vec<&'static str>)
        ensures
            names_view(r@) == md009_meta().names,
    {
        let r = vec!["MD009", "no-trailing-spaces"];
        assert(names_view(r@) =~= md009_meta().names);
        r
    }

    pub fn description(&self) -> (r: &'static str)
        ensures
            r@ == md009_meta().description,
    {
        "Trailing spaces"
    }

    pub fn tags(&self) -> (r: Vec<&'static str>)
        ensures
            names_view(r@) == seq!["whitespace"@, "fixable"@],
    {
        let r = vec!["whitespace", "fixable"];
        assert(names_view(r@) =~= seq!["whitespace"@, "fixable"@]);
        r
    }

    pub fn parser_type(&self) -> (r: ParserType)
        ensures
            r == ParserType::Plain,
    {
        ParserType::Plain
    }

    pub fn information(&self) -> (r: Option<&'static str>)
        ensures
            opt_str(r) == md009_meta().information,
    {
        Some("https://github.com/DavidAnson/markdownlint/blob/main/doc/md009.md")
    }

    pub fn lint(&self, params: &RuleParams) -> (errors: Vec<LintError>)
        requires
            lines_fit(params.lines@),
        ensures
            errors_view(errors@) == md009_errors(views(params.lines@)),
    {
        let lines = params.lines;
        let ghost ls = views(lines@);
        let names = self.names();
        let mut errors: Vec<LintError> = Vec::new();
        let mut i: usize = 0;
        while i < lines.len()
            invariant
                i <= lines@.len(),
                ls == views(lines@),
                lines_fit(lines@),
                names_view(names@) == md009_meta().names,
                errors_view(errors@) == md009_scan(ls, i as int),
            decreases lines@.len() - i,
        {
            let ghost before = errors@;
            let t = line_body(lines, i);
            if t.len() > 0 && (t[t.len() - 1] == ' ' || t[t.len() - 1] == '\t') {
                let n = trim_end_len(&t);
                let head = slice_chars(&t, 0, n);
                let tail = slice_chars(&t, n, t.len());
                proof {
                    lemma_strip_eol_prefix(ls[i as int]);
                    assert(byte_len(lines@[i as int]@) <= isize::MAX);
                    lemma_byte_len_take(t@, n as int);
                    assert(head@ =~= t@.take(n as int));
                    assert(tail@ =~= t@.skip(n as int));
                }
                let start = utf8_byte_len(&head);
                let total = utf8_byte_len(&t);
                let count = total - start;
                let mut e = LintError::new(i + 1, &names, self.description(), self.information());
                let mut d = text("Expected: 0; Actual: ");
                push_decimal(&mut d, count);
                e.error_detail = Some(d);
                e.error_context = Some(string_of(&tail));
                e.error_range = Some((start + 1, count));
                e.fix_info = Some(
                    FixInfo {
                        line_number: None,
                        edit_column: Some(start + 1),
                        delete_count: Some(count as i32),
                        insert_text: None,
                    },
                );
                e.suggestion = Some(text("Remove trailing spaces"));
                errors.push(e);
                assert(errors_view(errors@) =~= md009_scan(ls, i + 1));
            }
            i = i + 1;
        }
        errors
    }
}

/// The bytes a finding of line body `t` deletes: at least one, at most the
/// line's.
proof fn lemma_md009_count(t: Seq<char>)
    requires
        md009_flagged(t),
    ensures
        byte_len(trim_end(t)) < byte_len(t),
        trim_end(t).len() < t.len(),
{
    crate::text::lemma_trim_end_shape(t);
    crate::text::lemma_byte_len_take_strict(t, trim_end(t).len() as int, t.len() as int);
    assert(t.take(t.len() as int) =~= t);
}

/// The findings of the first `j` lines carry fixes for their own lines
/// that delete no line, and line `ln` gets one edit exactly when it is
/// reported.
proof fn lemma_md009_scan_edits(ls: Seq<Seq<char>>, j: int, ln: int, t: Seq<char>)
    requires
        0 <= j <= ls.len(),
        forall|k: int| 0 <= k < ls.len() ==> #[trigger] byte_len(ls[k]) <= i32::MAX,
    ensures
        forall|q: int|
            0 <= q < md009_scan(ls, j).len() ==> {
                &&& (#[trigger] md009_scan(ls, j)[q]).fix is Some
                &&& md009_scan(ls, j)[q].fix.unwrap().delete_count != Some(-1i32)
            },
        line_edits(md009_scan(ls, j), ln, t, md009_scan(ls, j).len() as int) == if 1 <= ln <= j
            && md009_flagged(strip_eol(ls[ln - 1])) {
            seq![edit_of(t, md009_error(strip_eol(ls[ln - 1]), ln - 1))]
        } else {
            Seq::<(int, int, Seq<char>)>::empty()
        },
    decreases j,
{
    if j > 0 {
        lemma_md009_scan_edits(ls, j - 1, ln, t);
        let prev = md009_scan(ls, j - 1);
        let b = strip_eol(ls[j - 1]);
        if md009_flagged(b) {
            let e = md009_error(b, j - 1);
            lemma_line_edits_push(prev, e, ln, t, prev.len() as int);
            lemma_md009_count(b);
            lemma_strip_eol_prefix(ls[j - 1]);
            assert(fix_line(e) == j);
            assert(prev.push(e)[prev.len() as int] == e);
            assert forall|q: int| 0 <= q < md009_scan(ls, j).len() implies {
                &&& (#[trigger] md009_scan(ls, j)[q]).fix is Some
                &&& md009_scan(ls, j)[q].fix.unwrap().delete_count != Some(-1i32)
            } by {
                if q < prev.len() {
                    assert(md009_scan(ls, j)[q] == prev[q]);
                }
            }
        }
    }
}

/// Line `k` of a document after the MD009 fixes: without its trailing
/// whitespace where it was reported, as it was elsewhere.
proof fn lemma_md009_fixed_line(ls: Seq<Seq<char>>, k: int)
    requires
        0 <= k < ls.len(),
        forall|i: int| 0 <= i < ls.len() ==> #[trigger] byte_len(ls[i]) <= i32::MAX,
    ensures
        fixed_line(md009_errors(ls), k + 1, ls[k]) == if md009_flagged(strip_eol(ls[k])) {
            trim_end(strip_eol(ls[k])) + eol_of(ls[k])
        } else {
            ls[k]
        },
{
    let es = md009_errors(ls);
    let t = strip_eol(ls[k]);
    lemma_md009_scan_edits(ls, ls.len() as int, k + 1, t);
    assert(!line_deleted(es, k + 1));
    lemma_strip_eol_prefix(ls[k]);
    if md009_flagged(t) {
        let e = md009_error(t, k);
        let m = trim_end(t).len() as int;
        lemma_md009_count(t);
        crate::text::lemma_trim_end_shape(t);
        crate::text::lemma_char_at_boundary(t, byte_len(trim_end(t)) as int, m);
        lemma_char_at_end(t, 0);
        assert(edit_of(t, e) == (m, t.len() as int, Seq::<char>::empty()));
        lemma_merge_replace(t, m, t.len() as int, Seq::<char>::empty(), 0);
        assert(t.subrange(0, m) + Seq::<char>::empty() + t.skip(t.len() as int) =~= trim_end(t));
    } else {
        lemma_merge_none(t, Seq::<(int, int, Seq<char>)>::empty(), 0);
        assert(t.skip(0) + ls[k].skip(t.len() as int) =~= ls[k]);
    }
}

/// A document whose lines have no trailing whitespace gets no findings.
proof fn lemma_md009_clean(zs: Seq<Seq<char>>, m: int)
    requires
        0 <= m <= zs.len(),
        forall|k: int| 0 <= k < zs.len() ==> !md009_flagged(strip_eol(#[trigger] zs[k])),
    ensures
        md009_scan(zs, m) == Seq::<LintErrorView>::empty(),
    decreases m,
{
    if m > 0 {
        lemma_md009_clean(zs, m - 1);
    }
}

/// Fixing the MD009 findings of a document (split into lines after each
/// line feed) leaves a document that MD009 does not report.
pub proof fn lemma_md009_fix_resolves(content: Seq<char>)
    requires
        byte_len(content) <= i32::MAX,
    ensures
        md009_errors(split_lines(fixed_document(content, md009_errors(split_lines(content)))))
            == Seq::<LintErrorView>::empty(),
{
    let ls = split_lines(content);
    let n = ls.len() as int;
    let es = md009_errors(ls);
    lemma_split_well(content, 0);
    lemma_split_bytes(content, 0);
    let f = |k: int| fixed_line(es, k + 1, ls[k]);
    let ys = Seq::new(ls.len(), f);
    assert forall|k: int| 0 <= k < n implies {
        &&& one_line(#[trigger] ys[k])
        &&& !md009_flagged(strip_eol(ys[k]))
        &&& k < n - 1 ==> ys[k].len() > 0 && ys[k].last() == '\n'
    } by {
        lemma_md009_fixed_line(ls, k);
        let y = ls[k];
        assert(one_line(y));
        lemma_eol_shape(y);
        let t = strip_eol(y);
        if md009_flagged(t) {
            let u = trim_end(t);
            crate::text::lemma_trim_end_shape(t);
            assert(u.len() == 0 || (u.last() != '\n' && u.last() != '\r'));
            lemma_strip_eol_reattach(u, y);
            let w = u + eol_of(y);
            assert(ys[k] == w);
            assert forall|j: int| 0 <= j < w.len() - 1 implies w[j] != '\n' by {
                if j < u.len() {
                    assert(w[j] == t[j]);
                } else {
                    assert(w[j] == eol_of(y)[j - u.len()]);
                }
            }
        }
    }
    let doc = fixed_document(content, es);
    assert(doc == join(ys));
    if n == 0 {
        assert(doc =~= Seq::<char>::empty());
        assert(split_lines(doc) =~= Seq::<Seq<char>>::empty());
    } else if ys[n - 1].len() > 0 {
        assert(well_split(ys));
        lemma_split_join(ys);
        lemma_md009_clean(ys, n);
    } else {
        let zs = ys.drop_last();
        assert(join(ys) =~= join(zs) + ys[n - 1]);
        assert(join(ys) =~= join(zs));
        assert(well_split(zs)) by {
            assert forall|k: int| 0 <= k < zs.len() implies {
                &&& (#[trigger] zs[k]).len() > 0
                &&& forall|j: int| 0 <= j < zs[k].len() - 1 ==> zs[k][j] != '\n'
                &&& k < zs.len() - 1 ==> zs[k].last() == '\n'
            } by {
                assert(zs[k] == ys[k]);
            }
        }
        lemma_split_join(zs);
        assert forall|k: int| 0 <= k < zs.len() implies !md009_flagged(strip_eol(#[trigger] zs[k])) by {
            assert(zs[k] == ys[k]);
        }
        lemma_md009_clean(zs, zs.len() as int);
    }
}

} // verus!
