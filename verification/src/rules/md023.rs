//! MD023 - Headings must start at the beginning of the line.

use vstd::prelude::*;
use crate::text::{
    is_ws, trim_end_char, byte_len, chars_of, decimal, lemma_strip_eol_prefix, push_decimal, starts_with, starts_with_str,
    string_of, strip_eol, strip_eol_vec, text, trim_start, trim_start_vec, utf8_byte_len, views,
};
use crate::types::{
    base_error, errors_view, fix_view, lines_fit, names_view, opt_str, FixInfo, LintError,
    LintErrorView, ParserType, RuleMeta, RuleParams,
};

use crate::text::{byte_slice, byte_slice_chars, char_boundary, lemma_byte_len_trims};
use crate::fix::{
    edit_of, eol_of, fix_line, fixed_document, fixed_line, join, lemma_eol_shape, lemma_line_edits_push,
    lemma_merge_none, lemma_merge_replace, lemma_split_bytes, lemma_split_join, lemma_split_well,
    line_deleted, line_edits, one_line, split_lines, well_split,
};

verus! {

pub struct MD023;

pub open spec fn md023_meta() -> RuleMeta {
    RuleMeta {
        names: seq!["MD023"@, "heading-start-left"@],
        description: "Headings must start at the beginning of the line"@,
        information: Some("https://github.com/DavidAnson/markdownlint/blob/main/doc/md023.md"@),
    }
}

/// An indented line that starts a heading.
pub open spec fn indented_heading(line: Seq<char>) -> bool {
    (starts_with(line, " "@) || starts_with(line, "\t"@)) && starts_with(trim_start(line), "#"@)
}

/// The shown part of the heading: its first 20 bytes.
pub open spec fn shown_end(line: Seq<char>) -> int {
    let b = byte_len(strip_eol(trim_start(line))) as int;
    if b < 20 {
        b
    } else {
        20
    }
}

pub open spec fn md023_error(line: Seq<char>, i: int) -> LintErrorView {
    let indent = byte_len(line) - byte_len(trim_start(line));
    LintErrorView {
        detail: Some("Expected: 0; Actual: "@ + decimal(indent as nat)),
        context: Some(byte_slice(strip_eol(trim_start(line)), 0, shown_end(line))),
        range: Some((1usize, indent as usize)),
        fix: Some(fix_view(None, Some(1usize), Some(indent as i32), None)),
        ..base_error(md023_meta(), i + 1)
    }
}

/// The shown part ends between two characters (slicing the text anywhere
/// else panics).
pub open spec fn md023_sliceable(ls: Seq<Seq<char>>) -> bool {
    forall|i: int|
        0 <= i < ls.len() && #[trigger] indented_heading(ls[i]) ==> char_boundary(
            strip_eol(trim_start(ls[i])),
            shown_end(ls[i]),
        )
}

pub open spec fn md023_scan(ls: Seq<Seq<char>>, n: int) -> Seq<LintErrorView>
    decreases n,
{
    if n <= 0 {
        seq![]
    } else {
        let prev = md023_scan(ls, n - 1);
        if indented_heading(ls[n - 1]) {
            prev.push(md023_error(ls[n - 1], n - 1))
        } else {
            prev
        }
    }
}

/// The findings of MD023.
pub open spec fn md023_errors(ls: Seq<Seq<char>>) -> Seq<LintErrorView> {
    md023_scan(ls, ls.len() as int)
}

impl MD023 {
    pub fn names(&self) -> (r: Vec<&'static str>)
        ensures
            names_view(r@) == md023_meta().names,
    {
        let r = vec!["MD023", "heading-start-left"];
        assert(names_view(r@) =~= md023_meta().names);
        r
    }

    pub fn description(&self) -> (r: &'static str)
        ensures
            r@ == md023_meta().description,
    {
        "Headings must start at the beginning of the line"
    }

    pub fn tags(&self) -> (r: Vec<&'static str>)
        ensures
            names_view(r@) == seq!["headings"@, "spaces"@],
    {
        let r = vec!["headings", "spaces"];
        assert(names_view(r@) =~= seq!["headings"@, "spaces"@]);
        r
    }

    pub fn parser_type(&self) -> (r: ParserType)
        ensures
            r == ParserType::Plain,
    {
        ParserType::Plain
    }

    pub fn information(&self) -> (r: Option<&'static str>)
        ensures
            opt_str(r) == md023_meta().information,
    {
        Some("https://github.com/DavidAnson/markdownlint/blob/main/doc/md023.md")
    }

    pub fn lint(&self, params: &RuleParams) -> (errors: Vec<LintError>)
        requires
            lines_fit(params.lines@),
            md023_sliceable(views(params.lines@)),
        ensures
            errors_view(errors@) == md023_errors(views(params.lines@)),
    {
        let lines = params.lines;
        let ghost ls = views(lines@);
        let names = self.names();
        let mut errors: Vec<LintError> = Vec::new();
        let n = lines.len();
        let mut i: usize = 0;
        while i < n
            invariant
                n == lines@.len(),
                i <= n,
                ls == views(lines@),
                lines_fit(lines@),
                names_view(names@) == md023_meta().names,
                errors_view(errors@) == md023_scan(ls, i as int),
            decreases n - i,
        {
            let ghost before = errors@;
            let v = chars_of(lines[i]);
            if starts_with_str(&v, " ") || starts_with_str(&v, "\t") {
                let t = trim_start_vec(&v);
                if starts_with_str(&t, "#") {
                    let body = strip_eol_vec(&t);
                    proof {
                        assert(byte_len(lines@[i as int]@) <= isize::MAX);
                        lemma_byte_len_trims(v@, ' ');
                        crate::text::lemma_strip_eol_prefix(t@);
                    }
                    let total = utf8_byte_len(&v);
                    let rest = utf8_byte_len(&t);
                    let indent_count = total - rest;
                    let blen = utf8_byte_len(&body);
                    let end = if blen < 20 {
                        blen
                    } else {
                        20
                    };
                    let shown = byte_slice_chars(&body, 0, end);
                    let mut e = LintError::new(i + 1, &names, self.description(), self.information());
                    let mut d = text("Expected: 0; Actual: ");
                    push_decimal(&mut d, indent_count);
                    e.error_detail = Some(d);
                    e.error_context = Some(string_of(&shown));
                    e.error_range = Some((1, indent_count));
                    e.fix_info = Some(FixInfo { line_number: None, edit_column: Some(1), delete_count: Some(indent_count as i32), insert_text: None });
                    errors.push(e);
                    assert(errors_view(errors@) =~= errors_view(before).push(md023_error(ls[i as int], i as int)));
                }
            }
            i = i + 1;
        }
        errors
    }
}

/// The indentation of an indented heading: `m` characters, at least one
/// byte, followed by its `#`.
proof fn lemma_md023_indent(line: Seq<char>)
    requires
        indented_heading(line),
    ensures
        ({
            let m = line.len() - trim_start(line).len();
            &&& 1 <= m < line.len()
            &&& line[m] == '#'
            &&& trim_start(line) == line.skip(m)
            &&& byte_len(line.take(m)) == byte_len(line) - byte_len(trim_start(line))
            &&& byte_len(line) - byte_len(trim_start(line)) >= 1
        }),
{
    reveal_strlit(" ");
    reveal_strlit("\t");
    reveal_strlit("#");
    crate::text::lemma_trim_start_shape(line);
    let m = line.len() - trim_start(line).len();
    assert(" "@ =~= seq![' ']);
    assert("\t"@ =~= seq!['\t']);
    assert("#"@ =~= seq!['#']);
    assert(line.take(1)[0] == line[0]);
    assert(is_ws(line[0]));
    assert(trim_start(line).take(1)[0] == trim_start(line)[0]);
    assert(trim_start(line)[0] == '#');
    crate::text::lemma_byte_len_concat(line.take(m), line.skip(m));
    assert(line.take(m) + line.skip(m) =~= line);
    crate::text::lemma_byte_len_take_strict(line, 0, m);
    assert(line.take(0) =~= Seq::<char>::empty());
}

/// The findings of the first `j` lines carry fixes for their own lines
/// that delete no line, and line `ln` gets one edit exactly when it is
/// reported.
proof fn lemma_md023_scan_edits(ls: Seq<Seq<char>>, j: int, ln: int, t: Seq<char>)
    requires
        0 <= j <= ls.len(),
        forall|k: int| 0 <= k < ls.len() ==> #[trigger] byte_len(ls[k]) <= i32::MAX,
    ensures
        forall|q: int|
            0 <= q < md023_scan(ls, j).len() ==> {
                &&& (#[trigger] md023_scan(ls, j)[q]).fix is Some
                &&& md023_scan(ls, j)[q].fix.unwrap().delete_count != Some(-1i32)
            },
        line_edits(md023_scan(ls, j), ln, t, md023_scan(ls, j).len() as int) == if 1 <= ln <= j
            && indented_heading(ls[ln - 1]) {
            seq![edit_of(t, md023_error(ls[ln - 1], ln - 1))]
        } else {
            Seq::<(int, int, Seq<char>)>::empty()
        },
    decreases j,
{
    if j > 0 {
        lemma_md023_scan_edits(ls, j - 1, ln, t);
        let prev = md023_scan(ls, j - 1);
        let line = ls[j - 1];
        if indented_heading(line) {
            let e = md023_error(line, j - 1);
            lemma_line_edits_push(prev, e, ln, t, prev.len() as int);
            lemma_md023_indent(line);
            lemma_byte_len_trims(line, ' ');
            assert(fix_line(e) == j);
            assert(prev.push(e)[prev.len() as int] == e);
            assert forall|q: int| 0 <= q < md023_scan(ls, j).len() implies {
                &&& (#[trigger] md023_scan(ls, j)[q]).fix is Some
                &&& md023_scan(ls, j)[q].fix.unwrap().delete_count != Some(-1i32)
            } by {
                if q < prev.len() {
                    assert(md023_scan(ls, j)[q] == prev[q]);
                }
            }
        }
    }
}

/// A `#` lies in the line's body, before its ending.
proof fn lemma_hash_in_body(line: Seq<char>, m: int)
    requires
        0 <= m < line.len(),
        line[m] == '#',
    ensures
        m < strip_eol(line).len(),
{
    let a1 = trim_end_char(line, '\n');
    crate::text::lemma_trim_end_char_all(line, '\n');
    crate::text::lemma_trim_end_char_all(a1, '\r');
    if m >= a1.len() {
        assert(line[m] == '\n');
    } else if m >= strip_eol(line).len() {
        assert(a1[m] == line[m]);
    }
}

/// Line `k` of a document after the MD023 fixes: without its indentation
/// where it was reported, as it was elsewhere.
#[verifier::rlimit(40)]
proof fn lemma_md023_fixed_line(ls: Seq<Seq<char>>, k: int)
    requires
        0 <= k < ls.len(),
        one_line(ls[k]),
        forall|i: int| 0 <= i < ls.len() ==> #[trigger] byte_len(ls[i]) <= i32::MAX,
    ensures
        fixed_line(md023_errors(ls), k + 1, ls[k]) == if indented_heading(ls[k]) {
            trim_start(ls[k])
        } else {
            ls[k]
        },
{
    let es = md023_errors(ls);
    let line = ls[k];
    let t = strip_eol(line);
    lemma_md023_scan_edits(ls, ls.len() as int, k + 1, t);
    assert(!line_deleted(es, k + 1));
    lemma_strip_eol_prefix(line);
    lemma_eol_shape(line);
    if indented_heading(line) {
        let e = md023_error(line, k);
        lemma_md023_indent(line);
        lemma_byte_len_trims(line, ' ');
        let m = line.len() - trim_start(line).len();
        lemma_hash_in_body(line, m);
        assert(t.take(m) =~= line.take(m));
        crate::text::lemma_char_at_boundary(t, byte_len(line.take(m)) as int, m);
        crate::text::lemma_char_at_boundary(t, 0, 0);
        assert(t.take(0) =~= Seq::<char>::empty());
        assert(edit_of(t, e) == (0int, m, Seq::<char>::empty()));
        lemma_merge_replace(t, 0, m, Seq::<char>::empty(), 0);
        assert(t.subrange(0, 0) + Seq::<char>::empty() + t.skip(m) + eol_of(line) =~= line.skip(m));
    } else {
        lemma_merge_none(t, Seq::<(int, int, Seq<char>)>::empty(), 0);
        assert(t.skip(0) + line.skip(t.len() as int) =~= line);
    }
}

/// A document without indented headings gets no findings.
proof fn lemma_md023_clean(zs: Seq<Seq<char>>, m: int)
    requires
        0 <= m <= zs.len(),
        forall|k: int| 0 <= k < zs.len() ==> !indented_heading(#[trigger] zs[k]),
    ensures
        md023_scan(zs, m) == Seq::<LintErrorView>::empty(),
    decreases m,
{
    if m > 0 {
        lemma_md023_clean(zs, m - 1);
    }
}

/// Fixing the MD023 findings of a document (split into lines after each
/// line feed) leaves a document that MD023 does not report.
pub proof fn lemma_md023_fix_resolves(content: Seq<char>)
    requires
        byte_len(content) <= i32::MAX,
    ensures
        md023_errors(split_lines(fixed_document(content, md023_errors(split_lines(content)))))
            == Seq::<LintErrorView>::empty(),
{
    let ls = split_lines(content);
    let n = ls.len() as int;
    let es = md023_errors(ls);
    lemma_split_well(content, 0);
    lemma_split_bytes(content, 0);
    let f = |k: int| fixed_line(es, k + 1, ls[k]);
    let ys = Seq::new(ls.len(), f);
    reveal_strlit(" ");
    reveal_strlit("\t");
    assert forall|k: int| 0 <= k < n implies {
        &&& (#[trigger] ys[k]).len() > 0
        &&& forall|j: int| 0 <= j < ys[k].len() - 1 ==> ys[k][j] != '\n'
        &&& k < n - 1 ==> ys[k].last() == '\n'
        &&& !indented_heading(ys[k])
    } by {
        let y = ls[k];
        assert(one_line(y));
        lemma_md023_fixed_line(ls, k);
        if indented_heading(y) {
            lemma_md023_indent(y);
            let m = y.len() - trim_start(y).len();
            let w = y.skip(m);
            assert(ys[k] == w);
            assert forall|j: int| 0 <= j < w.len() - 1 implies w[j] != '\n' by {
                assert(w[j] == y[m + j]);
            }
            assert(w[0] == '#');
            assert(" "@ =~= seq![' ']);
            assert("\t"@ =~= seq!['\t']);
            assert(w.take(1)[0] == '#');
            assert(!starts_with(w, " "@));
            assert(!starts_with(w, "\t"@));
        }
    }
    assert(well_split(ys));
    lemma_split_join(ys);
    let doc = fixed_document(content, es);
    assert(doc == join(ys));
    lemma_md023_clean(ys, n);
}

} // verus!
