//! MD019 - Multiple spaces after hash on atx style heading.

use vstd::prelude::*;
use crate::text::{
    chars_of, decimal, push_decimal, slice_chars, starts_with, starts_with_str, text, trim_start,
    trim_start_vec, views,
};
use crate::types::{
    base_error, errors_view, fix_view, names_view, opt_str, FixInfo, LintError, LintErrorView,
    ParserType, RuleMeta, RuleParams,
};

use crate::text::{leading_count, leading_len};
use crate::text::{
    byte_len, is_ws, lemma_ascii_take, lemma_char_at_ascii, lemma_leading_count_at,
    lemma_leading_count_shape, lemma_len_le_byte_len, lemma_strip_eol_prefix, lemma_strip_eol_tail,
    strip_eol,
};
use crate::fix::{
    edit_of, fix_line, fixed_document, fixed_line, join, lemma_line_edits_push, lemma_merge_none,
    lemma_merge_replace, lemma_split_bytes, lemma_split_join, lemma_split_well, line_deleted,
    line_edits, split_lines, well_split,
};

verus! {

pub struct MD019;

pub open spec fn md019_meta() -> RuleMeta {
    RuleMeta {
        names: seq!["MD019"@, "no-multiple-space-atx"@],
        description: "Multiple spaces after hash on atx style heading"@,
        information: Some("https://github.com/DavidAnson/markdownlint/blob/main/doc/md019.md"@),
    }
}

/// For an ATX heading line (one to six hashes after the indentation), the
/// hash count and the number of spaces after the hashes.
pub open spec fn atx_spaces(line: Seq<char>) -> Option<(nat, nat)> {
    let t = trim_start(line);
    let hc = leading_count(t, '#');
    if starts_with(t, "#"@) && hc > 0 && hc <= 6 {
        Some((hc, leading_count(t.skip(hc as int), ' ')))
    } else {
        None
    }
}

pub open spec fn md019_error(i: int, hc: nat, sc: nat) -> LintErrorView {
    LintErrorView {
        detail: Some("Expected: 1; Actual: "@ + decimal(sc)),
        range: Some(((hc + 2) as usize, (sc - 1) as usize)),
        fix: Some(fix_view(None, Some((hc + 2) as usize), Some((sc - 1) as i32), None)),
        suggestion: Some("Remove multiple spaces after hash on ATX heading"@),
        ..base_error(md019_meta(), i + 1)
    }
}

pub open spec fn md019_scan(ls: Seq<Seq<char>>, n: int) -> Seq<LintErrorView>
    decreases n,
{
    if n <= 0 {
        seq![]
    } else {
        let prev = md019_scan(ls, n - 1);
        match atx_spaces(ls[n - 1]) {
            Some((hc, sc)) => if sc > 1 {
                prev.push(md019_error(n - 1, hc, sc))
            } else {
                prev
            },
            None => prev,
        }
    }
}

/// The findings of MD019.
pub open spec fn md019_errors(ls: Seq<Seq<char>>) -> Seq<LintErrorView> {
    md019_scan(ls, ls.len() as int)
}

impl MD019 {
    pub fn names(&self) -> (r: Vec<&'static str>)
        ensures
            names_view(r@) == md019_meta().names,
    {
        let r = vec!["MD019", "no-multiple-space-atx"];
        assert(names_view(r@) =~= md019_meta().names);
        r
    }

    pub fn description(&self) -> (r: &'static str)
        ensures
            r@ == md019_meta().description,
    {
        "Multiple spaces after hash on atx style heading"
    }

    pub fn tags(&self) -> (r: Vec<&'static str>)
        ensures
            names_view(r@) == seq!["headings"@, "atx"@, "spaces"@, "fixable"@],
    {
        let r = vec!["headings", "atx", "spaces", "fixable"];
        assert(names_view(r@) =~= seq!["headings"@, "atx"@, "spaces"@, "fixable"@]);
        r
    }

    pub fn parser_type(&self) -> (r: ParserType)
        ensures
            r == ParserType::Plain,
    {
        ParserType::Plain
    }

    pub fn information(&self) -> (r: Option<&'static str>)
        ensures
            opt_str(r) == md019_meta().information,
    {
        Some("https://github.com/DavidAnson/markdownlint/blob/main/doc/md019.md")
    }

    pub fn lint(&self, params: &RuleParams) -> (errors: Vec<LintError>)
        ensures
            errors_view(errors@) == md019_errors(views(params.lines@)),
    {
        let lines = params.lines;
        let ghost ls = views(lines@);
        let names = self.names();
        let mut errors: Vec<LintError> = Vec::new();
        let n = lines.len();
        let mut i: usize = 0;
        while i < n
            invariant
                n == lines@.len(),
                i <= n,
                ls == views(lines@),
                names_view(names@) == md019_meta().names,
                errors_view(errors@) == md019_scan(ls, i as int),
            decreases n - i,
        {
            let ghost before = errors@;
            let v = chars_of(lines[i]);
            let t = trim_start_vec(&v);
            let hash_count = leading_len(&t, '#');
            if starts_with_str(&t, "#") && hash_count > 0 && hash_count <= 6 {
                let after = slice_chars(&t, hash_count, t.len());
                assert(after@ =~= t@.skip(hash_count as int));
                let space_count = leading_len(&after, ' ');
                if space_count > 1 {
                    let mut e = LintError::new(i + 1, &names, self.description(), self.information());
                    let mut d = text("Expected: 1; Actual: ");
                    push_decimal(&mut d, space_count);
                    e.error_detail = Some(d);
                    e.error_range = Some((hash_count + 2, space_count - 1));
                    e.fix_info = Some(
                        FixInfo {
                            line_number: None,
                            edit_column: Some(hash_count + 2),
                            delete_count: Some((space_count - 1) as i32),
                            insert_text: None,
                        },
                    );
                    e.suggestion = Some(text("Remove multiple spaces after hash on ATX heading"));
                    errors.push(e);
                    assert(errors_view(errors@) =~= errors_view(before).push(md019_error(i as int, hash_count as nat, space_count as nat)));
                }
            }
            i = i + 1;
        }
        errors
    }
}

/// A line that MD019 reports.
pub open spec fn md019_flagged(line: Seq<char>) -> bool {
    atx_spaces(line) is Some && atx_spaces(line).unwrap().1 > 1
}

/// The shape of a reported line that starts with its hashes: the hashes,
/// the spaces counted, then no further space.
proof fn lemma_md019_shape(line: Seq<char>)
    requires
        md019_flagged(line),
        line.len() > 0 && line[0] == '#',
    ensures
        ({
            let (hc, sc) = atx_spaces(line).unwrap();
            &&& 1 <= hc <= 6
            &&& 2 <= sc
            &&& hc + sc <= line.len()
            &&& forall|j: int| 0 <= j < hc ==> #[trigger] line[j] == '#'
            &&& forall|j: int| hc <= j < hc + sc ==> #[trigger] line[j] == ' '
            &&& line[hc as int] != '#'
            &&& hc + sc < line.len() ==> line[(hc + sc) as int] != ' '
            &&& hc + sc <= strip_eol(line).len()
        }),
{
    assert(!is_ws(line[0]));
    assert(trim_start(line) == line);
    lemma_leading_count_shape(line, '#');
    let hc = leading_count(line, '#') as int;
    let r = line.skip(hc);
    lemma_leading_count_shape(r, ' ');
    let sc = leading_count(r, ' ') as int;
    assert forall|j: int| hc <= j < hc + sc implies #[trigger] line[j] == ' ' by {
        assert(line[j] == r[j - hc]);
    }
    if hc + sc < line.len() {
        assert(line[hc + sc] == r[sc]);
    }
    assert(line[hc] == ' ');
    lemma_strip_eol_prefix(line);
    lemma_strip_eol_tail(line);
    if strip_eol(line).len() < hc + sc {
        assert(line[hc + sc - 1] == ' ');
    }
}

/// The findings of the first `j` lines carry fixes for their own lines
/// that delete no line, and line `ln` gets one edit exactly when it is
/// reported.
proof fn lemma_md019_scan_edits(ls: Seq<Seq<char>>, j: int, ln: int, t: Seq<char>)
    requires
        0 <= j <= ls.len(),
        forall|k: int| 0 <= k < ls.len() ==> #[trigger] byte_len(ls[k]) <= i32::MAX,
    ensures
        forall|q: int|
            0 <= q < md019_scan(ls, j).len() ==> {
                &&& (#[trigger] md019_scan(ls, j)[q]).fix is Some
                &&& md019_scan(ls, j)[q].fix.unwrap().delete_count != Some(-1i32)
            },
        line_edits(md019_scan(ls, j), ln, t, md019_scan(ls, j).len() as int) == if 1 <= ln <= j
            && md019_flagged(ls[ln - 1]) {
            seq![
                edit_of(
                    t,
                    md019_error(ln - 1, atx_spaces(ls[ln - 1]).unwrap().0, atx_spaces(ls[ln - 1]).unwrap().1),
                ),
            ]
        } else {
            Seq::<(int, int, Seq<char>)>::empty()
        },
    decreases j,
{
    if j > 0 {
        lemma_md019_scan_edits(ls, j - 1, ln, t);
        let prev = md019_scan(ls, j - 1);
        let y = ls[j - 1];
        if md019_flagged(y) {
            let (hc, sc) = atx_spaces(y).unwrap();
            let e = md019_error(j - 1, hc, sc);
            lemma_line_edits_push(prev, e, ln, t, prev.len() as int);
            crate::text::lemma_trim_start_shape(y);
            let ts = trim_start(y);
            lemma_leading_count_shape(ts, '#');
            lemma_leading_count_shape(ts.skip(hc as int), ' ');
            lemma_len_le_byte_len(y);
            assert(sc <= y.len());
            assert(fix_line(e) == j);
            assert(prev.push(e)[prev.len() as int] == e);
            assert forall|q: int| 0 <= q < md019_scan(ls, j).len() implies {
                &&& (#[trigger] md019_scan(ls, j)[q]).fix is Some
                &&& md019_scan(ls, j)[q].fix.unwrap().delete_count != Some(-1i32)
            } by {
                if q < prev.len() {
                    assert(md019_scan(ls, j)[q] == prev[q]);
                }
            }
        }
    }
}

/// Line `k` after the MD019 fixes: a reported line that starts with its
/// hashes keeps one space after them; other lines are kept.
proof fn lemma_md019_fixed_line(ls: Seq<Seq<char>>, k: int)
    requires
        0 <= k < ls.len(),
        forall|i: int| 0 <= i < ls.len() ==> #[trigger] byte_len(ls[i]) <= i32::MAX,
        md019_flagged(ls[k]) ==> ls[k].len() > 0 && ls[k][0] == '#',
    ensures
        fixed_line(md019_errors(ls), k + 1, ls[k]) == if md019_flagged(ls[k]) {
            ls[k].take(atx_spaces(ls[k]).unwrap().0 + 1int) + ls[k].skip(
                atx_spaces(ls[k]).unwrap().0 + atx_spaces(ls[k]).unwrap().1 as int,
            )
        } else {
            ls[k]
        },
{
    let es = md019_errors(ls);
    let line = ls[k];
    let t = strip_eol(line);
    lemma_md019_scan_edits(ls, ls.len() as int, k + 1, t);
    assert(!line_deleted(es, k + 1));
    lemma_strip_eol_prefix(line);
    if md019_flagged(line) {
        let (hc, sc) = atx_spaces(line).unwrap();
        let m = (hc + 1) as int;
        let e = (hc + sc) as int;
        lemma_md019_shape(line);
        assert forall|q: int| 0 <= q < e implies (#[trigger] t[q] as u32) < 0x80 by {
            assert(t[q] == line[q]);
        }
        lemma_ascii_take(t, e);
        lemma_char_at_ascii(t, m, 0, e);
        lemma_char_at_ascii(t, e, 0, e);
        lemma_len_le_byte_len(line);
        assert(byte_len(line) <= i32::MAX);
        assert(edit_of(t, md019_error(k, hc, sc)) == (m, e, Seq::<char>::empty()));
        lemma_merge_replace(t, m, e, Seq::<char>::empty(), 0);
        assert(t.subrange(0, m) + Seq::<char>::empty() + t.skip(e) + line.skip(t.len() as int) =~= line.take(m)
            + line.skip(e));
    } else {
        lemma_merge_none(t, Seq::<(int, int, Seq<char>)>::empty(), 0);
        assert(t.skip(0) + line.skip(t.len() as int) =~= line);
    }
}

/// A document with no reported line gets no findings.
proof fn lemma_md019_clean(zs: Seq<Seq<char>>, m: int)
    requires
        0 <= m <= zs.len(),
        forall|k: int| 0 <= k < zs.len() ==> !md019_flagged(#[trigger] zs[k]),
    ensures
        md019_scan(zs, m) == Seq::<LintErrorView>::empty(),
    decreases m,
{
    if m > 0 {
        lemma_md019_clean(zs, m - 1);
        assert(!md019_flagged(zs[m - 1]));
    }
}

/// A reported line that starts with its hashes is no longer reported once
/// fixed.
proof fn lemma_md019_fixed_clean(line: Seq<char>)
    requires
        md019_flagged(line),
        line.len() > 0 && line[0] == '#',
        forall|j: int| 0 <= j < line.len() - 1 ==> line[j] != '\n',
    ensures
        ({
            let (hc, sc) = atx_spaces(line).unwrap();
            let y = line.take(hc + 1int) + line.skip(hc + sc as int);
            &&& y.len() > 0
            &&& forall|j: int| 0 <= j < y.len() - 1 ==> y[j] != '\n'
            &&& y.last() == line.last()
            &&& !md019_flagged(y)
        }),
{
    let (hc, sc) = atx_spaces(line).unwrap();
    lemma_md019_shape(line);
    let h = hc as int;
    let y = line.take(h + 1) + line.skip(h + sc);
    assert forall|j: int| 0 <= j < y.len() - 1 implies y[j] != '\n' by {
        if j > h {
            assert(y[j] == line[h + sc + j - h - 1]);
        } else {
            assert(y[j] == line[j]);
        }
    }
    assert(y.last() == line.last());
    assert(y[0] == '#');
    assert(!is_ws(y[0]));
    assert(trim_start(y) == y);
    reveal_strlit("#");
    assert(starts_with(y, "#"@)) by {
        assert(y.take(1) =~= "#"@);
    }
    assert forall|j: int| 0 <= j < h implies #[trigger] y[j] == '#' by {
        assert(y[j] == line[j]);
    }
    assert(y[h] == ' ');
    lemma_leading_count_at(y, '#', h);
    let r = y.skip(h);
    assert(r[0] == ' ');
    if r.len() > 1 {
        assert(r[1] == line[h + sc]);
    }
    assert forall|j: int| 0 <= j < 1 implies #[trigger] r[j] == ' ' by {}
    lemma_leading_count_at(r, ' ', 1);
}

/// Fixing the MD019 findings of a document (split into lines after each
/// line feed) leaves a document that MD019 does not report, where every
/// reported line starts with its hashes (the fix counts its column from
/// the start of the line, the rule after the indentation).
pub proof fn lemma_md019_fix_resolves(content: Seq<char>)
    requires
        byte_len(content) <= i32::MAX,
        forall|k: int|
            0 <= k < split_lines(content).len() && md019_flagged(#[trigger] split_lines(content)[k])
                ==> split_lines(content)[k].len() > 0 && split_lines(content)[k][0] == '#',
    ensures
        md019_errors(split_lines(fixed_document(content, md019_errors(split_lines(content)))))
            == Seq::<LintErrorView>::empty(),
{
    let ls = split_lines(content);
    let n = ls.len() as int;
    let es = md019_errors(ls);
    lemma_split_well(content, 0);
    lemma_split_bytes(content, 0);
    let f = |k: int| fixed_line(es, k + 1, ls[k]);
    let ys = Seq::new(ls.len(), f);
    assert forall|k: int| 0 <= k < n implies {
        &&& (#[trigger] ys[k]).len() > 0
        &&& forall|j: int| 0 <= j < ys[k].len() - 1 ==> ys[k][j] != '\n'
        &&& k < n - 1 ==> ys[k].last() == '\n'
        &&& !md019_flagged(ys[k])
    } by {
        lemma_md019_fixed_line(ls, k);
        if md019_flagged(ls[k]) {
            lemma_md019_fixed_clean(ls[k]);
        }
    }
    let doc = fixed_document(content, es);
    assert(doc == join(ys));
    assert(well_split(ys));
    lemma_split_join(ys);
    lemma_md019_clean(ys, n);
}

} // verus!
