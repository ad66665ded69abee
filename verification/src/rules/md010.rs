//! MD010 - Hard tabs.
//!
//! Reports every tab character of a line up to its first line-ending
//! character; columns count characters from 1.

use vstd::prelude::*;
use crate::text::{
    byte_len, chars_of, decimal, lemma_ascii_take, lemma_char_at_ascii, lemma_len_le_byte_len,
    lemma_strip_eol_prefix, lemma_strip_eol_tail, push_decimal, strip_eol, text, views,
};
use crate::fix::{
    edit_from, edit_of, fix_line, fixed_document, fixed_line, join, lemma_edit_at,
    lemma_line_edits_members, lemma_split_bytes, lemma_split_join, lemma_split_well, line_deleted,
    line_edits, merge_from, split_lines, well_split,
};
use crate::types::{
    base_error, errors_view, fix_view, names_view, opt_str, FixInfo, LintError, LintErrorView,
    ParserType, RuleMeta, RuleParams,
};

verus! {

pub struct MD010;

pub open spec fn md010_meta() -> RuleMeta {
    RuleMeta {
        names: seq!["MD010"@, "no-hard-tabs"@],
        description: "Hard tabs"@,
        information: Some("https://github.com/DavidAnson/markdownlint/blob/main/doc/md010.md"@),
    }
}

pub open spec fn is_eol_char(c: char) -> bool {
    c == '\n' || c == '\r'
}

/// The index of the first line-ending character at or after `j`; the length
/// when there is none.
pub open spec fn first_eol(line: Seq<char>, j: int) -> int
    decreases line.len() - j,
{
    if j < 0 || j >= line.len() {
        line.len() as int
    } else if is_eol_char(line[j]) {
        j
    } else {
        first_eol(line, j + 1)
    }
}

pub open spec fn md010_error(i: int, column: int) -> LintErrorView {
    LintErrorView {
        detail: Some("Column: "@ + decimal(column as nat)),
        range: Some((column as usize, 1usize)),
        fix: Some(fix_view(None, Some(column as usize), Some(1i32), Some("    "@))),
        ..base_error(md010_meta(), i + 1)
    }
}

/// Findings for the tabs among the first `k` characters of line `i`.
pub open spec fn md010_prefix(line: Seq<char>, i: int, k: int) -> Seq<LintErrorView>
    decreases k,
{
    if k <= 0 {
        seq![]
    } else {
        let p = md010_prefix(line, i, k - 1);
        if line[k - 1] == '\t' {
            p.push(md010_error(i, k))
        } else {
            p
        }
    }
}

pub open spec fn md010_line(line: Seq<char>, i: int) -> Seq<LintErrorView> {
    md010_prefix(line, i, first_eol(line, 0))
}

pub open spec fn md010_scan(lines: Seq<Seq<char>>, n: int) -> Seq<LintErrorView>
    decreases n,
{
    if n <= 0 {
        seq![]
    } else {
        md010_scan(lines, n - 1) + md010_line(lines[n - 1], n - 1)
    }
}

/// The findings of MD010: one per hard tab.
pub open spec fn md010_errors(lines: Seq<Seq<char>>) -> Seq<LintErrorView> {
    md010_scan(lines, lines.len() as int)
}

impl MD010 {
    pub fn names(&self) -> (r: Vec<&'static str>)
        ensures
            names_view(r@) == md010_meta().names,
    {
        let r = vec!["MD010", "no-hard-tabs"];
        assert(names_view(r@) =~= md010_meta().names);
        r
    }

    pub fn description(&self) -> (r: &'static str)
        ensures
            r@ == md010_meta().description,
    {
        "Hard tabs"
    }

    pub fn tags(&self) -> (r: Vec<&'static str>)
        ensures
            names_view(r@) == seq!["whitespace"@, "hard_tab"@],
    {
        let r = vec!["whitespace", "hard_tab"];
        assert(names_view(r@) =~= seq!["whitespace"@, "hard_tab"@]);
        r
    }

    pub fn parser_type(&self) -> (r: ParserType)
        ensures
            r == ParserType::Plain,
    {
        ParserType::Plain
    }

    pub fn information(&self) -> (r: Option<&'static str>)
        ensures
            opt_str(r) == md010_meta().information,
    {
        Some("https://github.com/DavidAnson/markdownlint/blob/main/doc/md010.md")
    }

    pub fn lint(&self, params: &RuleParams) -> (errors: Vec<LintError>)
        ensures
            errors_view(errors@) == md010_errors(views(params.lines@)),
    {
        let lines = params.lines;
        let ghost ls = views(lines@);
        let names = self.names();
        let mut errors: Vec<LintError> = Vec::new();
        let n = lines.len();
        let mut i: usize = 0;
        while i < n
            invariant
                n == lines@.len(),
                i <= lines@.len(),
                lines@.len() <= usize::MAX,
                ls == views(lines@),
                names_view(names@) == md010_meta().names,
                errors_view(errors@) == md010_scan(ls, i as int),
            decreases lines@.len() - i,
        {
            let ghost before = errors_view(errors@);
            let c = chars_of(lines[i]);
            let mut k: usize = 0;
            while k < c.len()
                invariant_except_break
                    k <= c@.len(),
                    first_eol(c@, 0) == first_eol(c@, k as int),
                    errors_view(errors@) == before + md010_prefix(c@, i as int, k as int),
                invariant
                    i < lines@.len(),
                    lines@.len() <= usize::MAX,
                    ls == views(lines@),
                    c@ == ls[i as int],
                    names_view(names@) == md010_meta().names,
                ensures
                    errors_view(errors@) == before + md010_line(c@, i as int),
                decreases c@.len() - k,
            {
                let ch = c[k];
                if ch == '\t' {
                    let mut e = LintError::new(i + 1, &names, self.description(), self.information());
                    let mut d = text("Column: ");
                    push_decimal(&mut d, k + 1);
                    e.error_detail = Some(d);
                    e.error_range = Some((k + 1, 1));
                    e.fix_info = Some(
                        FixInfo {
                            line_number: None,
                            edit_column: Some(k + 1),
                            delete_count: Some(1),
                            insert_text: Some(text("    ")),
                        },
                    );
                    let ghost prev = errors@;
                    errors.push(e);
                    assert(errors_view(errors@) =~= errors_view(prev).push(
                        md010_error(i as int, k + 1),
                    ));
                }
                assert(errors_view(errors@) =~= before + md010_prefix(c@, i as int, k + 1));
                if ch == '\n' || ch == '\r' {
                    k = k + 1;
                    break;
                }
                k = k + 1;
            }
            assert(errors_view(errors@) =~= md010_scan(ls, i + 1));
            i = i + 1;
        }
        errors
    }
}

/// `s` with each tab replaced by four spaces.
pub open spec fn detab(s: Seq<char>) -> Seq<char>
    decreases s.len(),
{
    if s.len() == 0 {
        seq![]
    } else {
        detab(s.drop_last()) + if s.last() == '\t' {
            "    "@
        } else {
            seq![s.last()]
        }
    }
}

/// No tab that MD010 reports on `line` follows a character outside ASCII
/// (a finding counts its column in characters, a fix in bytes).
pub open spec fn tabs_after_ascii(line: Seq<char>) -> bool {
    forall|p: int, q: int|
        #![trigger line[p], line[q]]
        0 <= q < p < first_eol(line, 0) && line[p] == '\t' ==> (line[q] as u32) < 0x80
}

/// No tab comes before the first line-ending character of `y`.
pub open spec fn tab_free(y: Seq<char>) -> bool {
    forall|q: int| 0 <= q < first_eol(y, 0) ==> #[trigger] y[q] != '\t'
}

/// The edits of a line's text `t` replace each tab before `f` by four
/// spaces, and nothing else.
pub open spec fn tab_edits(t: Seq<char>, f: int, edits: Seq<(int, int, Seq<char>)>) -> bool {
    &&& forall|j: int|
        0 <= j < edits.len() ==> {
            &&& 0 <= (#[trigger] edits[j]).0 < f
            &&& t[edits[j].0] == '\t'
            &&& edits[j] == (edits[j].0, edits[j].0 + 1, "    "@)
        }
    &&& forall|p: int|
        0 <= p < f && #[trigger] t[p] == '\t' ==> exists|j: int| 0 <= j < edits.len() && (#[trigger] edits[j]).0 == p
}

proof fn lemma_first_eol_facts(line: Seq<char>, j: int)
    requires
        0 <= j <= line.len(),
    ensures
        j <= first_eol(line, j) <= line.len(),
        forall|q: int| j <= q < first_eol(line, j) ==> !is_eol_char(#[trigger] line[q]),
        first_eol(line, j) < line.len() ==> is_eol_char(line[first_eol(line, j)]),
    decreases line.len() - j,
{
    if j < line.len() && !is_eol_char(line[j]) {
        lemma_first_eol_facts(line, j + 1);
    }
}

proof fn lemma_first_eol_at(y: Seq<char>, j: int, m: int)
    requires
        0 <= j <= m <= y.len(),
        forall|q: int| j <= q < m ==> !is_eol_char(#[trigger] y[q]),
        m == y.len() || is_eol_char(y[m]),
    ensures
        first_eol(y, j) == m,
    decreases m - j,
{
    if j < m {
        lemma_first_eol_at(y, j + 1, m);
    }
}

proof fn lemma_detab_concat(a: Seq<char>, b: Seq<char>)
    ensures
        detab(a + b) == detab(a) + detab(b),
    decreases b.len(),
{
    if b.len() == 0 {
        assert(a + b =~= a);
        assert(detab(a) + detab(b) =~= detab(a));
    } else {
        assert((a + b).drop_last() =~= a + b.drop_last());
        lemma_detab_concat(a, b.drop_last());
    }
}

proof fn lemma_detab_one(c: char)
    ensures
        detab(seq![c]) == if c == '\t' {
            "    "@
        } else {
            seq![c]
        },
{
    let e: Seq<char> = seq![];
    assert(seq![c].drop_last() =~= e);
    assert(detab(e) == e);
    assert(e + "    "@ =~= "    "@);
    assert(e + seq![c] =~= seq![c]);
}

/// Text without line-ending characters keeps none after its tabs are
/// replaced, and has no tab left.
proof fn lemma_detab_clean(s: Seq<char>)
    requires
        forall|q: int| 0 <= q < s.len() ==> !is_eol_char(#[trigger] s[q]),
    ensures
        forall|q: int| 0 <= q < detab(s).len() ==> #[trigger] detab(s)[q] != '\t' && !is_eol_char(detab(s)[q]),
    decreases s.len(),
{
    if s.len() > 0 {
        let a = s.drop_last();
        lemma_detab_clean(a);
        reveal_strlit("    ");
        let w: Seq<char> = if s.last() == '\t' {
            "    "@
        } else {
            seq![s.last()]
        };
        assert(!is_eol_char(s[s.len() - 1]));
        assert forall|q: int| 0 <= q < detab(s).len() implies #[trigger] detab(s)[q] != '\t' && !is_eol_char(detab(s)[q]) by {
            if q >= detab(a).len() {
                assert(detab(s)[q] == w[q - detab(a).len()]);
            } else {
                assert(detab(s)[q] == detab(a)[q]);
            }
        }
    }
}

/// Merging tab edits into `t` replaces the tabs before `f` and keeps the
/// rest.
proof fn lemma_merge_detab(t: Seq<char>, f: int, edits: Seq<(int, int, Seq<char>)>, i: int)
    requires
        0 <= f <= t.len(),
        0 <= i <= t.len(),
        tab_edits(t, f, edits),
    ensures
        merge_from(t, edits, i) == if i <= f {
            detab(t.subrange(i, f)) + t.skip(f)
        } else {
            t.skip(i)
        },
    decreases t.len() - i,
{
    lemma_edit_at(edits, i, 0);
    let e: Seq<char> = seq![];
    if i < f && t[i] == '\t' {
        let j = choose|j: int| 0 <= j < edits.len() && (#[trigger] edits[j]).0 == i;
        assert(edits[j].0 == i);
        let a = crate::fix::edit_at(edits, i, 0);
        assert(edits[a] == (i, i + 1, "    "@));
        lemma_merge_detab(t, f, edits, i + 1);
        assert(t.subrange(i, f) =~= seq![t[i]] + t.subrange(i + 1, f));
        lemma_detab_concat(seq![t[i]], t.subrange(i + 1, f));
        lemma_detab_one(t[i]);
        assert(merge_from(t, edits, i) == "    "@ + merge_from(t, edits, i + 1));
        assert("    "@ + (detab(t.subrange(i + 1, f)) + t.skip(f)) =~= detab(t.subrange(i, f)) + t.skip(f));
    } else {
        assert forall|j: int| 0 <= j < edits.len() implies (#[trigger] edits[j]).0 != i by {
            if edits[j].0 == i {
                assert(t[edits[j].0] == '\t');
            }
        }
        if i < t.len() {
            lemma_merge_detab(t, f, edits, i + 1);
            assert(merge_from(t, edits, i) == seq![t[i]] + merge_from(t, edits, i + 1));
            if i < f {
                assert(t.subrange(i, f) =~= seq![t[i]] + t.subrange(i + 1, f));
                lemma_detab_concat(seq![t[i]], t.subrange(i + 1, f));
                lemma_detab_one(t[i]);
                assert(seq![t[i]] + (detab(t.subrange(i + 1, f)) + t.skip(f)) =~= detab(t.subrange(i, f)) + t.skip(f));
            } else if i == f {
                assert(t.subrange(i, f) =~= e);
                assert(detab(e) == e);
                assert(seq![t[i]] + t.skip(i + 1) =~= e + t.skip(f));
            } else {
                assert(seq![t[i]] + t.skip(i + 1) =~= t.skip(i));
            }
        } else if i == f {
            assert(t.subrange(i, f) =~= e);
            assert(detab(e) == e);
            assert(e + t.skip(f) =~= e);
        } else {
            assert(t.skip(i) =~= e);
        }
    }
}

/// `x` is the finding of a tab among the first `k` characters of line `i`.
pub open spec fn tab_error(line: Seq<char>, i: int, k: int, x: LintErrorView) -> bool {
    exists|p: int| 0 <= p < k && #[trigger] line[p] == '\t' && x == md010_error(i, p + 1)
}

proof fn lemma_md010_prefix_members(line: Seq<char>, i: int, k: int)
    requires
        0 <= k <= line.len(),
    ensures
        forall|r: int|
            0 <= r < md010_prefix(line, i, k).len() ==> tab_error(line, i, k, #[trigger] md010_prefix(line, i, k)[r]),
        forall|p: int|
            0 <= p < k && #[trigger] line[p] == '\t' ==> md010_prefix(line, i, k).contains(md010_error(i, p + 1)),
    decreases k,
{
    if k > 0 {
        lemma_md010_prefix_members(line, i, k - 1);
        let prev = md010_prefix(line, i, k - 1);
        let cur = md010_prefix(line, i, k);
        if line[k - 1] == '\t' {
            assert(cur == prev.push(md010_error(i, k)));
            assert forall|r: int| 0 <= r < cur.len() implies tab_error(line, i, k, #[trigger] cur[r]) by {
                if r < prev.len() {
                    assert(cur[r] == prev[r]);
                    assert(tab_error(line, i, k - 1, prev[r]));
                    let p = choose|p: int| 0 <= p < k - 1 && #[trigger] line[p] == '\t' && prev[r] == md010_error(i, p + 1);
                    assert(line[p] == '\t');
                } else {
                    assert(line[k - 1] == '\t');
                }
            }
            assert forall|p: int| 0 <= p < k && #[trigger] line[p] == '\t' implies cur.contains(md010_error(i, p + 1)) by {
                if p < k - 1 {
                    let r = choose|r: int| 0 <= r < prev.len() && prev[r] == md010_error(i, p + 1);
                    assert(cur[r] == prev[r]);
                } else {
                    assert(cur[prev.len() as int] == md010_error(i, p + 1));
                }
            }
        } else {
            assert(cur == prev);
            assert forall|r: int| 0 <= r < cur.len() implies tab_error(line, i, k, #[trigger] cur[r]) by {
                assert(tab_error(line, i, k - 1, prev[r]));
                let p = choose|p: int| 0 <= p < k - 1 && #[trigger] line[p] == '\t' && prev[r] == md010_error(i, p + 1);
                assert(line[p] == '\t');
            }
        }
    }
}

/// `x` is the finding of a reported tab of one of the first `n` lines.
pub open spec fn scan_error(ls: Seq<Seq<char>>, n: int, x: LintErrorView) -> bool {
    exists|j: int, p: int|
        0 <= j < n && 0 <= p < first_eol(ls[j], 0) && #[trigger] ls[j][p] == '\t' && x == md010_error(j, p + 1)
}

proof fn lemma_md010_scan_members(ls: Seq<Seq<char>>, n: int)
    requires
        0 <= n <= ls.len(),
    ensures
        forall|r: int| 0 <= r < md010_scan(ls, n).len() ==> scan_error(ls, n, #[trigger] md010_scan(ls, n)[r]),
        forall|j: int, p: int|
            0 <= j < n && 0 <= p < first_eol(ls[j], 0) && #[trigger] ls[j][p] == '\t' ==> md010_scan(ls, n).contains(
                md010_error(j, p + 1),
            ),
    decreases n,
{
    if n > 0 {
        lemma_md010_scan_members(ls, n - 1);
        let prev = md010_scan(ls, n - 1);
        let y = ls[n - 1];
        lemma_first_eol_facts(y, 0);
        let f = first_eol(y, 0);
        lemma_md010_prefix_members(y, n - 1, f);
        let add = md010_line(y, n - 1);
        let cur = md010_scan(ls, n);
        assert(cur == prev + add);
        assert forall|r: int| 0 <= r < cur.len() implies scan_error(ls, n, #[trigger] cur[r]) by {
            if r < prev.len() {
                assert(cur[r] == prev[r]);
                assert(scan_error(ls, n - 1, prev[r]));
                let (j, p) = choose|j: int, p: int|
                    0 <= j < n - 1 && 0 <= p < first_eol(ls[j], 0) && #[trigger] ls[j][p] == '\t' && prev[r]
                        == md010_error(j, p + 1);
                assert(ls[j][p] == '\t');
            } else {
                assert(cur[r] == add[r - prev.len()]);
                assert(tab_error(y, n - 1, f, add[r - prev.len()]));
                let p = choose|p: int| 0 <= p < f && #[trigger] y[p] == '\t' && add[r - prev.len()] == md010_error(n - 1, p + 1);
                assert(ls[n - 1][p] == '\t');
            }
        }
        assert forall|j: int, p: int|
            0 <= j < n && 0 <= p < first_eol(ls[j], 0) && #[trigger] ls[j][p] == '\t' implies cur.contains(
                md010_error(j, p + 1),
            ) by {
            if j < n - 1 {
                let r = choose|r: int| 0 <= r < prev.len() && prev[r] == md010_error(j, p + 1);
                assert(cur[r] == prev[r]);
            } else {
                assert(y[p] == '\t');
                let r = choose|r: int| 0 <= r < add.len() && add[r] == md010_error(j, p + 1);
                assert(cur[prev.len() + r] == add[r]);
            }
        }
    }
}

/// The edit of a reported tab replaces exactly that tab.
proof fn lemma_md010_edit(t: Seq<char>, j: int, p: int)
    requires
        0 <= p < t.len(),
        p + 1 <= usize::MAX,
        t[p] == '\t',
        forall|q: int| 0 <= q < p ==> (#[trigger] t[q] as u32) < 0x80,
    ensures
        edit_of(t, md010_error(j, p + 1)) == (p, p + 1, "    "@),
        fix_line(md010_error(j, p + 1)) == j + 1,
        md010_error(j, p + 1).fix is Some,
{
    assert forall|q: int| 0 <= q < p + 1 implies (#[trigger] t[q] as u32) < 0x80 by {
        if q == p {
            assert(t[q] == '\t');
        }
    }
    lemma_ascii_take(t, p + 1);
    lemma_char_at_ascii(t, p, 0, p + 1);
    lemma_char_at_ascii(t, p + 1, 0, p + 1);
}

/// The conditions on line `k` under which its findings' edits are exact.
pub open spec fn line_ready(ls: Seq<Seq<char>>, k: int) -> bool {
    &&& 0 <= k < ls.len()
    &&& ls[k].len() <= usize::MAX
    &&& tabs_after_ascii(ls[k])
    &&& first_eol(ls[k], 0) <= strip_eol(ls[k]).len()
    &&& strip_eol(ls[k]) == ls[k].take(strip_eol(ls[k]).len() as int)
}

/// A tab reported on line `k` has an edit that replaces exactly it.
proof fn lemma_md010_tab_edit(ls: Seq<Seq<char>>, k: int, p: int)
    requires
        line_ready(ls, k),
        0 <= p < first_eol(ls[k], 0),
        ls[k][p] == '\t',
    ensures
        edit_of(strip_eol(ls[k]), md010_error(k, p + 1)) == (p, p + 1, "    "@),
        fix_line(md010_error(k, p + 1)) == k + 1,
        md010_error(k, p + 1).fix is Some,
        strip_eol(ls[k])[p] == '\t',
{
    let line = ls[k];
    let t = strip_eol(line);
    lemma_first_eol_facts(line, 0);
    lemma_strip_eol_prefix(line);
    assert(line_ready(ls, k));
    let n = t.len() as int;
    assert(p < n);
    assert(t[p] == line.take(n)[p]);
    assert(line.take(n)[p] == line[p]);
    assert forall|q: int| 0 <= q < p implies (#[trigger] t[q] as u32) < 0x80 by {
        assert(t[q] == line.take(n)[q]);
        assert(line.take(n)[q] == line[q]);
        assert(line[p] == '\t');
    }
    lemma_md010_edit(t, k, p);
}

proof fn lemma_md010_not_deleted(ls: Seq<Seq<char>>, k: int)
    ensures
        !line_deleted(md010_errors(ls), k + 1),
{
    let es = md010_errors(ls);
    lemma_md010_scan_members(ls, ls.len() as int);
    if line_deleted(es, k + 1) {
        let r = choose|r: int|
            0 <= r < es.len() && fix_line(#[trigger] es[r]) == k + 1 && es[r].fix is Some
                && es[r].fix.unwrap().delete_count == Some(-1i32);
        assert(scan_error(ls, ls.len() as int, es[r]));
    }
}

/// Each edit of line `k` replaces one of its reported tabs.
proof fn lemma_md010_edits_tabs(ls: Seq<Seq<char>>, k: int)
    requires
        line_ready(ls, k),
    ensures
        ({
            let t = strip_eol(ls[k]);
            let edits = line_edits(md010_errors(ls), k + 1, t, md010_errors(ls).len() as int);
            forall|j: int|
                0 <= j < edits.len() ==> {
                    &&& 0 <= (#[trigger] edits[j]).0 < first_eol(ls[k], 0)
                    &&& t[edits[j].0] == '\t'
                    &&& edits[j] == (edits[j].0, edits[j].0 + 1, "    "@)
                }
        }),
{
    let es = md010_errors(ls);
    let t = strip_eol(ls[k]);
    let f = first_eol(ls[k], 0);
    lemma_md010_scan_members(ls, ls.len() as int);
    let edits = line_edits(es, k + 1, t, es.len() as int);
    lemma_line_edits_members(es, k + 1, t, es.len() as int);
    assert forall|j: int| 0 <= j < edits.len() implies {
        &&& 0 <= (#[trigger] edits[j]).0 < f
        &&& t[edits[j].0] == '\t'
        &&& edits[j] == (edits[j].0, edits[j].0 + 1, "    "@)
    } by {
        assert(edit_from(es, k + 1, t, es.len() as int, edits[j]));
        let r = choose|r: int|
            0 <= r < es.len() && (#[trigger] es[r]).fix is Some && fix_line(es[r]) == k + 1 && edits[j] == edit_of(t, es[r]);
        assert(scan_error(ls, ls.len() as int, es[r]));
        let (i, p) = choose|i: int, p: int|
            0 <= i < ls.len() && 0 <= p < first_eol(ls[i], 0) && #[trigger] ls[i][p] == '\t' && es[r] == md010_error(i, p + 1);
        assert(fix_line(md010_error(i, p + 1)) == i + 1);
        assert(i == k);
        lemma_md010_tab_edit(ls, k, p);
    }
}

/// Each reported tab of line `k` has an edit.
proof fn lemma_md010_tabs_edited(ls: Seq<Seq<char>>, k: int)
    requires
        line_ready(ls, k),
    ensures
        ({
            let t = strip_eol(ls[k]);
            let edits = line_edits(md010_errors(ls), k + 1, t, md010_errors(ls).len() as int);
            forall|p: int|
                0 <= p < first_eol(ls[k], 0) && #[trigger] t[p] == '\t' ==> exists|j: int|
                    0 <= j < edits.len() && (#[trigger] edits[j]).0 == p
        }),
{
    let es = md010_errors(ls);
    let line = ls[k];
    let t = strip_eol(line);
    let f = first_eol(line, 0);
    lemma_first_eol_facts(line, 0);
    lemma_strip_eol_prefix(line);
    lemma_md010_scan_members(ls, ls.len() as int);
    let edits = line_edits(es, k + 1, t, es.len() as int);
    lemma_line_edits_members(es, k + 1, t, es.len() as int);
    assert forall|p: int| 0 <= p < f && #[trigger] t[p] == '\t' implies exists|j: int|
        0 <= j < edits.len() && (#[trigger] edits[j]).0 == p by {
        assert(p < t.len());
        assert(t[p] == line.take(t.len() as int)[p]);
        assert(line.take(t.len() as int)[p] == line[p]);
        assert(ls[k][p] == '\t');
        let r = choose|r: int| 0 <= r < es.len() && es[r] == md010_error(k, p + 1);
        lemma_md010_tab_edit(ls, k, p);
        assert(es[r].fix is Some && fix_line(es[r]) == k + 1);
        let j = choose|j: int| 0 <= j < edits.len() && edits[j] == edit_of(t, es[r]);
        assert(edits[j].0 == p);
    }
}

/// Line `k` after the MD010 fixes: its tabs before the first line-ending
/// character are four spaces each, the rest is kept.
proof fn lemma_md010_fixed_line(ls: Seq<Seq<char>>, k: int)
    requires
        0 <= k < ls.len(),
        byte_len(ls[k]) <= usize::MAX,
        tabs_after_ascii(ls[k]),
    ensures
        fixed_line(md010_errors(ls), k + 1, ls[k]) == detab(ls[k].take(first_eol(ls[k], 0))) + ls[k].skip(
            first_eol(ls[k], 0),
        ),
{
    let es = md010_errors(ls);
    let line = ls[k];
    let t = strip_eol(line);
    let f = first_eol(line, 0);
    lemma_first_eol_facts(line, 0);
    lemma_strip_eol_prefix(line);
    lemma_strip_eol_tail(line);
    if f > t.len() {
        assert(is_eol_char(line[t.len() as int]));
    }
    lemma_len_le_byte_len(line);
    assert(line_ready(ls, k));
    lemma_md010_not_deleted(ls, k);
    lemma_md010_edits_tabs(ls, k);
    lemma_md010_tabs_edited(ls, k);
    let edits = line_edits(es, k + 1, t, es.len() as int);
    assert(tab_edits(t, f, edits));
    lemma_merge_detab(t, f, edits, 0);
    assert(t.subrange(0, f) =~= line.take(f));
    assert(t.skip(f) + line.skip(t.len() as int) =~= line.skip(f));
    assert(fixed_line(es, k + 1, line) == merge_from(t, edits, 0) + line.skip(t.len() as int));
}

proof fn lemma_md010_prefix_clean(y: Seq<char>, i: int, k: int)
    requires
        0 <= k <= y.len(),
        forall|q: int| 0 <= q < k ==> #[trigger] y[q] != '\t',
    ensures
        md010_prefix(y, i, k) == Seq::<LintErrorView>::empty(),
    decreases k,
{
    if k > 0 {
        lemma_md010_prefix_clean(y, i, k - 1);
    }
}

/// A document whose lines have no tab before their line ending gets no
/// findings.
proof fn lemma_md010_clean(zs: Seq<Seq<char>>, m: int)
    requires
        0 <= m <= zs.len(),
        forall|k: int| 0 <= k < zs.len() ==> tab_free(#[trigger] zs[k]),
    ensures
        md010_scan(zs, m) == Seq::<LintErrorView>::empty(),
    decreases m,
{
    if m > 0 {
        lemma_md010_clean(zs, m - 1);
        let y = zs[m - 1];
        assert(tab_free(y));
        lemma_first_eol_facts(y, 0);
        lemma_md010_prefix_clean(y, m - 1, first_eol(y, 0));
        assert(md010_scan(zs, m) =~= Seq::<LintErrorView>::empty());
    }
}

/// A line with its tabs replaced keeps its shape and has no tab left
/// before its line ending.
proof fn lemma_detab_line(line: Seq<char>)
    requires
        forall|j: int| 0 <= j < line.len() - 1 ==> line[j] != '\n',
    ensures
        ({
            let f = first_eol(line, 0);
            let y = detab(line.take(f)) + line.skip(f);
            &&& tab_free(y)
            &&& forall|j: int| 0 <= j < y.len() - 1 ==> y[j] != '\n'
            &&& line.len() > 0 && line.last() == '\n' ==> y.len() > 0 && y.last() == '\n'
        }),
{
    let f = first_eol(line, 0);
    lemma_first_eol_facts(line, 0);
    let x = line.take(f);
    let w = line.skip(f);
    let d = detab(x);
    let y = d + w;
    assert forall|q: int| 0 <= q < x.len() implies !is_eol_char(#[trigger] x[q]) by {
        assert(x[q] == line[q]);
    }
    lemma_detab_clean(x);
    assert forall|q: int| 0 <= q < d.len() implies !is_eol_char(#[trigger] y[q]) by {
        assert(y[q] == d[q]);
    }
    if w.len() > 0 {
        assert(y[d.len() as int] == line[f]);
    }
    lemma_first_eol_at(y, 0, d.len() as int);
    assert forall|q: int| 0 <= q < first_eol(y, 0) implies #[trigger] y[q] != '\t' by {
        assert(y[q] == d[q]);
    }
    assert forall|j: int| 0 <= j < y.len() - 1 implies y[j] != '\n' by {
        if j < d.len() {
            assert(y[j] == d[j]);
        } else {
            assert(y[j] == line[f + j - d.len()]);
        }
    }
    if line.len() > 0 && line.last() == '\n' {
        assert(is_eol_char(line[line.len() - 1]));
        assert(f < line.len());
        assert(y.last() == line.last());
    }
}

/// Fixing the MD010 findings of a document (split into lines after each
/// line feed) leaves a document that MD010 does not report, where no
/// reported tab follows a character outside ASCII on its line.
pub proof fn lemma_md010_fix_resolves(content: Seq<char>)
    requires
        byte_len(content) <= usize::MAX,
        forall|k: int| 0 <= k < split_lines(content).len() ==> tabs_after_ascii(#[trigger] split_lines(content)[k]),
    ensures
        md010_errors(split_lines(fixed_document(content, md010_errors(split_lines(content)))))
            == Seq::<LintErrorView>::empty(),
{
    let ls = split_lines(content);
    let n = ls.len() as int;
    let es = md010_errors(ls);
    lemma_split_well(content, 0);
    lemma_split_bytes(content, 0);
    let g = |k: int| fixed_line(es, k + 1, ls[k]);
    let ys = Seq::new(ls.len(), g);
    assert forall|k: int| 0 <= k < n implies {
        &&& tab_free(#[trigger] ys[k])
        &&& forall|j: int| 0 <= j < ys[k].len() - 1 ==> ys[k][j] != '\n'
        &&& k < n - 1 ==> ys[k].len() > 0 && ys[k].last() == '\n'
    } by {
        lemma_md010_fixed_line(ls, k);
        let line = ls[k];
        assert(line.len() > 0);
        lemma_detab_line(line);
    }
    let doc = fixed_document(content, es);
    assert(doc == join(ys));
    if n == 0 {
        assert(doc =~= Seq::<char>::empty());
        assert(split_lines(doc) =~= Seq::<Seq<char>>::empty());
    } else if ys[n - 1].len() > 0 {
        assert(well_split(ys));
        lemma_split_join(ys);
        lemma_md010_clean(ys, n);
    } else {
        let zs = ys.drop_last();
        assert(join(ys) =~= join(zs) + ys[n - 1]);
        assert(join(ys) =~= join(zs));
        assert(well_split(zs)) by {
            assert forall|k: int| 0 <= k < zs.len() implies {
                &&& (#[trigger] zs[k]).len() > 0
                &&& forall|j: int| 0 <= j < zs[k].len() - 1 ==> zs[k][j] != '\n'
                &&& k < zs.len() - 1 ==> zs[k].last() == '\n'
            } by {
                assert(zs[k] == ys[k]);
            }
        }
        lemma_split_join(zs);
        assert forall|k: int| 0 <= k < zs.len() implies tab_free(#[trigger] zs[k]) by {
            assert(zs[k] == ys[k]);
        }
        lemma_md010_clean(zs, zs.len() as int);
    }
}

} // verus!
