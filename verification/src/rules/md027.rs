//! MD027 - Multiple spaces after blockquote symbol.

use vstd::prelude::*;
use crate::text::{
    chars_of, decimal, push_decimal, slice_chars, starts_with, starts_with_str, text, trim_start,
    trim_start_vec, views,
};
use crate::types::{
    base_error, errors_view, fix_view, names_view, opt_str, FixInfo, LintError, LintErrorView,
    ParserType, RuleMeta, RuleParams,
};

use crate::text::{leading_count, leading_len};
use crate::text::{
    byte_len, is_ws, lemma_ascii_take, lemma_char_at_ascii, lemma_leading_count_shape,
    lemma_len_le_byte_len, lemma_strip_eol_prefix, lemma_strip_eol_tail, strip_eol,
};
use crate::fix::{
    edit_of, fix_line, fixed_document, fixed_line, join, lemma_line_edits_push, lemma_merge_none,
    lemma_merge_replace, lemma_split_bytes, lemma_split_join, lemma_split_well, line_deleted,
    line_edits, split_lines, well_split,
};

verus! {

pub struct MD027;

pub open spec fn md027_meta() -> RuleMeta {
    RuleMeta {
        names: seq!["MD027"@, "no-multiple-space-blockquote"@],
        description: "Multiple spaces after blockquote symbol"@,
        information: Some("https://github.com/DavidAnson/markdownlint/blob/main/doc/md027.md"@),
    }
}

/// The number of spaces after the `>` that starts the line (after its
/// indentation), if it is a blockquote line.
pub open spec fn quote_spaces(line: Seq<char>) -> Option<nat> {
    let t = trim_start(line);
    if starts_with(t, ">"@) {
        Some(leading_count(t.skip(1), ' '))
    } else {
        None
    }
}

pub open spec fn md027_error(i: int, sc: nat) -> LintErrorView {
    LintErrorView {
        detail: Some("Expected: 1; Actual: "@ + decimal(sc)),
        range: Some((2usize, sc as usize)),
        fix: Some(fix_view(None, Some(2usize), Some((sc - 1) as i32), None)),
        suggestion: Some("Remove multiple spaces after blockquote symbol"@),
        ..base_error(md027_meta(), i + 1)
    }
}

pub open spec fn md027_scan(ls: Seq<Seq<char>>, n: int) -> Seq<LintErrorView>
    decreases n,
{
    if n <= 0 {
        seq![]
    } else {
        let prev = md027_scan(ls, n - 1);
        match quote_spaces(ls[n - 1]) {
            Some(sc) => if sc > 1 {
                prev.push(md027_error(n - 1, sc))
            } else {
                prev
            },
            None => prev,
        }
    }
}

/// The findings of MD027.
pub open spec fn md027_errors(ls: Seq<Seq<char>>) -> Seq<LintErrorView> {
    md027_scan(ls, ls.len() as int)
}

impl MD027 {
    pub fn names(&self) -> (r: Vec<&'static str>)
        ensures
            names_view(r@) == md027_meta().names,
    {
        let r = vec!["MD027", "no-multiple-space-blockquote"];
        assert(names_view(r@) =~= md027_meta().names);
        r
    }

    pub fn description(&self) -> (r: &'static str)
        ensures
            r@ == md027_meta().description,
    {
        "Multiple spaces after blockquote symbol"
    }

    pub fn tags(&self) -> (r: Vec<&'static str>)
        ensures
            names_view(r@) == seq!["blockquote"@, "whitespace"@, "indentation"@, "fixable"@],
    {
        let r = vec!["blockquote", "whitespace", "indentation", "fixable"];
        assert(names_view(r@) =~= seq!["blockquote"@, "whitespace"@, "indentation"@, "fixable"@]);
        r
    }

    pub fn parser_type(&self) -> (r: ParserType)
        ensures
            r == ParserType::Plain,
    {
        ParserType::Plain
    }

    pub fn information(&self) -> (r: Option<&'static str>)
        ensures
            opt_str(r) == md027_meta().information,
    {
        Some("https://github.com/DavidAnson/markdownlint/blob/main/doc/md027.md")
    }

    pub fn lint(&self, params: &RuleParams) -> (errors: Vec<LintError>)
        ensures
            errors_view(errors@) == md027_errors(views(params.lines@)),
    {
        let lines = params.lines;
        let ghost ls = views(lines@);
        let names = self.names();
        let mut errors: Vec<LintError> = Vec::new();
        let n = lines.len();
        let mut i: usize = 0;
        while i < n
            invariant
                n == lines@.len(),
                i <= n,
                ls == views(lines@),
                names_view(names@) == md027_meta().names,
                errors_view(errors@) == md027_scan(ls, i as int),
            decreases n - i,
        {
            let ghost before = errors@;
            let v = chars_of(lines[i]);
            let t = trim_start_vec(&v);
            if starts_with_str(&t, ">") {
                proof {
                    reveal_strlit(">");
                }
                let after = slice_chars(&t, 1, t.len());
                assert(after@ =~= t@.skip(1));
                let space_count = leading_len(&after, ' ');
                if space_count > 1 {
                    let mut e = LintError::new(i + 1, &names, self.description(), self.information());
                    let mut d = text("Expected: 1; Actual: ");
                    push_decimal(&mut d, space_count);
                    e.error_detail = Some(d);
                    e.error_range = Some((2, space_count));
                    e.fix_info = Some(
                        FixInfo {
                            line_number: None,
                            edit_column: Some(2),
                            delete_count: Some((space_count - 1) as i32),
                            insert_text: None,
                        },
                    );
                    e.suggestion = Some(text("Remove multiple spaces after blockquote symbol"));
                    errors.push(e);
                    assert(errors_view(errors@) =~= errors_view(before).push(md027_error(i as int, space_count as nat)));
                }
            }
            i = i + 1;
        }
        errors
    }
}

/// A line that MD027 reports.
pub open spec fn md027_flagged(line: Seq<char>) -> bool {
    quote_spaces(line) is Some && quote_spaces(line).unwrap() > 1
}

/// The shape of a reported line that starts with its `>`: the marker, the
/// spaces counted, then no further space.
proof fn lemma_md027_shape(line: Seq<char>)
    requires
        md027_flagged(line),
        line.len() > 0 && line[0] == '>',
    ensures
        ({
            let sc = quote_spaces(line).unwrap() as int;
            &&& 2 <= sc < line.len()
            &&& forall|j: int| 1 <= j <= sc ==> #[trigger] line[j] == ' '
            &&& sc + 1 < line.len() ==> line[sc + 1] != ' '
            &&& sc < strip_eol(line).len()
        }),
{
    assert(!is_ws(line[0]));
    assert(trim_start(line) == line);
    let r = line.skip(1);
    lemma_leading_count_shape(r, ' ');
    let sc = leading_count(r, ' ') as int;
    assert forall|j: int| 1 <= j <= sc implies #[trigger] line[j] == ' ' by {
        assert(line[j] == r[j - 1]);
    }
    if sc + 1 < line.len() {
        assert(line[sc + 1] == r[sc]);
    }
    lemma_strip_eol_prefix(line);
    lemma_strip_eol_tail(line);
    if strip_eol(line).len() <= sc {
        assert(line[sc] == ' ');
    }
}

/// The findings of the first `j` lines carry fixes for their own lines
/// that delete no line, and line `ln` gets one edit exactly when it is
/// reported.
proof fn lemma_md027_scan_edits(ls: Seq<Seq<char>>, j: int, ln: int, t: Seq<char>)
    requires
        0 <= j <= ls.len(),
        forall|k: int| 0 <= k < ls.len() ==> #[trigger] byte_len(ls[k]) <= i32::MAX,
    ensures
        forall|q: int|
            0 <= q < md027_scan(ls, j).len() ==> {
                &&& (#[trigger] md027_scan(ls, j)[q]).fix is Some
                &&& md027_scan(ls, j)[q].fix.unwrap().delete_count != Some(-1i32)
            },
        line_edits(md027_scan(ls, j), ln, t, md027_scan(ls, j).len() as int) == if 1 <= ln <= j
            && md027_flagged(ls[ln - 1]) {
            seq![edit_of(t, md027_error(ln - 1, quote_spaces(ls[ln - 1]).unwrap()))]
        } else {
            Seq::<(int, int, Seq<char>)>::empty()
        },
    decreases j,
{
    if j > 0 {
        lemma_md027_scan_edits(ls, j - 1, ln, t);
        let prev = md027_scan(ls, j - 1);
        let y = ls[j - 1];
        if md027_flagged(y) {
            let sc = quote_spaces(y).unwrap();
            let e = md027_error(j - 1, sc);
            lemma_line_edits_push(prev, e, ln, t, prev.len() as int);
            crate::text::lemma_trim_start_shape(y);
            reveal_strlit(">");
            assert(trim_start(y).len() >= 1);
            lemma_leading_count_shape(trim_start(y).skip(1), ' ');
            lemma_len_le_byte_len(y);
            assert(sc <= y.len());
            assert(fix_line(e) == j);
            assert(prev.push(e)[prev.len() as int] == e);
            assert forall|q: int| 0 <= q < md027_scan(ls, j).len() implies {
                &&& (#[trigger] md027_scan(ls, j)[q]).fix is Some
                &&& md027_scan(ls, j)[q].fix.unwrap().delete_count != Some(-1i32)
            } by {
                if q < prev.len() {
                    assert(md027_scan(ls, j)[q] == prev[q]);
                }
            }
        }
    }
}

/// Line `k` after the MD027 fixes: a reported line that starts with its
/// `>` keeps one space after it; other lines are kept.
proof fn lemma_md027_fixed_line(ls: Seq<Seq<char>>, k: int)
    requires
        0 <= k < ls.len(),
        forall|i: int| 0 <= i < ls.len() ==> #[trigger] byte_len(ls[i]) <= i32::MAX,
        md027_flagged(ls[k]) ==> ls[k].len() > 0 && ls[k][0] == '>',
    ensures
        fixed_line(md027_errors(ls), k + 1, ls[k]) == if md027_flagged(ls[k]) {
            ls[k].take(1) + ls[k].skip(quote_spaces(ls[k]).unwrap() as int)
        } else {
            ls[k]
        },
{
    let es = md027_errors(ls);
    let line = ls[k];
    let t = strip_eol(line);
    lemma_md027_scan_edits(ls, ls.len() as int, k + 1, t);
    assert(!line_deleted(es, k + 1));
    lemma_strip_eol_prefix(line);
    if md027_flagged(line) {
        let sc = quote_spaces(line).unwrap() as int;
        lemma_md027_shape(line);
        assert forall|q: int| 0 <= q < sc + 1 implies (#[trigger] t[q] as u32) < 0x80 by {
            assert(t[q] == line[q]);
        }
        lemma_ascii_take(t, sc + 1);
        lemma_char_at_ascii(t, 1, 0, sc + 1);
        lemma_char_at_ascii(t, sc, 0, sc + 1);
        lemma_len_le_byte_len(line);
        assert(byte_len(line) <= i32::MAX);
        assert(edit_of(t, md027_error(k, sc as nat)) == (1int, sc, Seq::<char>::empty()));
        lemma_merge_replace(t, 1, sc, Seq::<char>::empty(), 0);
        assert(t.subrange(0, 1) + Seq::<char>::empty() + t.skip(sc) + line.skip(t.len() as int) =~= line.take(1)
            + line.skip(sc));
    } else {
        lemma_merge_none(t, Seq::<(int, int, Seq<char>)>::empty(), 0);
        assert(t.skip(0) + line.skip(t.len() as int) =~= line);
    }
}

/// A document with no reported line gets no findings.
proof fn lemma_md027_clean(zs: Seq<Seq<char>>, m: int)
    requires
        0 <= m <= zs.len(),
        forall|k: int| 0 <= k < zs.len() ==> !md027_flagged(#[trigger] zs[k]),
    ensures
        md027_scan(zs, m) == Seq::<LintErrorView>::empty(),
    decreases m,
{
    if m > 0 {
        lemma_md027_clean(zs, m - 1);
        assert(!md027_flagged(zs[m - 1]));
    }
}

/// Fixing the MD027 findings of a document (split into lines after each
/// line feed) leaves a document that MD027 does not report, where every
/// reported line starts with its `>` (the fix counts its column from the
/// start of the line, the rule after the indentation).
pub proof fn lemma_md027_fix_resolves(content: Seq<char>)
    requires
        byte_len(content) <= i32::MAX,
        forall|k: int|
            0 <= k < split_lines(content).len() && md027_flagged(#[trigger] split_lines(content)[k])
                ==> split_lines(content)[k].len() > 0 && split_lines(content)[k][0] == '>',
    ensures
        md027_errors(split_lines(fixed_document(content, md027_errors(split_lines(content)))))
            == Seq::<LintErrorView>::empty(),
{
    let ls = split_lines(content);
    let n = ls.len() as int;
    let es = md027_errors(ls);
    lemma_split_well(content, 0);
    lemma_split_bytes(content, 0);
    let f = |k: int| fixed_line(es, k + 1, ls[k]);
    let ys = Seq::new(ls.len(), f);
    assert forall|k: int| 0 <= k < n implies {
        &&& (#[trigger] ys[k]).len() > 0
        &&& forall|j: int| 0 <= j < ys[k].len() - 1 ==> ys[k][j] != '\n'
        &&& k < n - 1 ==> ys[k].last() == '\n'
        &&& !md027_flagged(ys[k])
    } by {
        lemma_md027_fixed_line(ls, k);
        let line = ls[k];
        if md027_flagged(line) {
            let sc = quote_spaces(line).unwrap() as int;
            lemma_md027_shape(line);
            let y = line.take(1) + line.skip(sc);
            assert(ys[k] == y);
            assert forall|j: int| 0 <= j < y.len() - 1 implies y[j] != '\n' by {
                if j > 0 {
                    assert(y[j] == line[sc + j - 1]);
                }
            }
            assert(y.last() == line.last());
            assert(y[0] == '>');
            assert(!is_ws(y[0]));
            assert(trim_start(y) == y);
            reveal_strlit(">");
            assert(starts_with(y, ">"@)) by {
                assert(y.take(1) =~= ">"@);
            }
            let r = y.skip(1);
            assert(r[0] == ' ');
            let r2 = r.drop_first();
            if r2.len() > 0 {
                assert(r2[0] == line[sc + 1]);
            }
            assert(leading_count(r2, ' ') == 0);
            assert(leading_count(r, ' ') == 1);
        }
    }
    let doc = fixed_document(content, es);
    assert(doc == join(ys));
    assert(well_split(ys));
    lemma_split_join(ys);
    lemma_md027_clean(ys, n);
}

} // verus!
