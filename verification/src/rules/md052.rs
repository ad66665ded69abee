//! MD052 - Reference links and images should use a label that is defined.
//!
//! Labels are compared after lowercasing. Lines between code fences are
//! skipped in both passes.

use vstd::prelude::*;
use crate::text::{
    byte_len, chars_of, eq_str, lemma_strip_eol_prefix, lowercase, push_chars, push_str, strip_eol,
    strip_eol_vec, string_of, text, to_lowercase, trim_start, trim_start_vec, starts_with,
    starts_with_str, utf8_byte_len, views,
};
use crate::types::{
    base_error, errors_view, fix_view, lines_fit, names_view, opt_str, FixInfo, LintError,
    LintErrorView, ParserType, RuleMeta, RuleParams,
};
use crate::pattern::{
    captures, captures_all, compile, group_at, group_chars, groups_in, regex_captures,
    regex_captures_all, regex_compiles,
};

verus! {

pub struct MD052;

pub open spec fn md052_meta() -> RuleMeta {
    RuleMeta {
        names: seq!["MD052"@, "reference-links-images"@],
        description: "Reference links and images should use a label that is defined"@,
        information: Some("https://github.com/DavidAnson/markdownlint/blob/main/doc/md052.md"@),
    }
}

/// `[label]: url`
pub open spec fn def_pattern() -> Seq<char> {
    "^\\s*\\[([^\\]]+)\\]:\\s+"@
}

/// `[text][label]`
pub open spec fn full_ref_pattern() -> Seq<char> {
    "\\[([^\\]]*)\\]\\[([^\\]]+)\\]"@
}

/// `[label][]`
pub open spec fn collapsed_ref_pattern() -> Seq<char> {
    "\\[([^\\]]+)\\]\\[\\]"@
}

pub open spec fn md052_compiles() -> bool {
    &&& regex_compiles(def_pattern())
    &&& regex_compiles(full_ref_pattern())
    &&& regex_compiles(collapsed_ref_pattern())
}

/// A line that opens or closes a fenced code block.
pub open spec fn md052_fence(line: Seq<char>) -> bool {
    let t = trim_start(line);
    starts_with(t, "```"@) || starts_with(t, "~~~"@)
}

/// Whether the first `n` lines end inside a fenced block, and the lowercased
/// labels defined in them outside fenced blocks.
pub open spec fn md052_defs(ls: Seq<Seq<char>>, n: int) -> (bool, Seq<Seq<char>>)
    decreases n,
{
    if n <= 0 {
        (false, seq![])
    } else {
        let prev = md052_defs(ls, n - 1);
        let line = ls[n - 1];
        if md052_fence(line) {
            (!prev.0, prev.1)
        } else if prev.0 {
            prev
        } else {
            match regex_captures(def_pattern(), line) {
                Some(g) => (prev.0, prev.1.push(lowercase(group_at(line, g, 1)))),
                None => prev,
            }
        }
    }
}

/// Where a missing definition is added: the line before a trailing empty
/// line, or else the last line; and the column after its text.
pub open spec fn md052_fix_pos(ls: Seq<Seq<char>>) -> (usize, usize) {
    let n = ls.len() as int;
    let last = if n == 0 {
        0
    } else {
        n - 1
    };
    let trailing = n > 0 && (ls[last] == "\n"@ || ls[last] == "\r\n"@);
    let insert_line = if trailing {
        if last >= 1 {
            last
        } else {
            1
        }
    } else {
        n
    };
    let target = if 1 <= insert_line <= n {
        ls[insert_line - 1]
    } else {
        seq![]
    };
    (insert_line as usize, (byte_len(strip_eol(target)) + 1) as usize)
}

pub open spec fn md052_error(label: Seq<char>, context: Seq<char>, pos: (usize, usize), ln: int) -> LintErrorView {
    LintErrorView {
        detail: Some("Reference label \""@ + label + "\" is not defined"@),
        context: Some(context),
        fix: Some(fix_view(Some(pos.0), Some(pos.1), None, Some("\n["@ + label + "]: #link\n"@))),
        suggestion: Some("Define all link reference labels that are used"@),
        ..base_error(md052_meta(), ln)
    }
}

/// The findings for the first `k` references `items`, whose label is group
/// `gi`.
pub open spec fn ref_errors(
    line: Seq<char>,
    items: Seq<Seq<Option<(usize, usize)>>>,
    defs: Seq<Seq<char>>,
    gi: int,
    pos: (usize, usize),
    ln: int,
    k: int,
) -> Seq<LintErrorView>
    decreases k,
{
    if k <= 0 {
        seq![]
    } else {
        let prev = ref_errors(line, items, defs, gi, pos, ln, k - 1);
        let g = items[k - 1];
        let label = group_at(line, g, gi);
        if defs.contains(lowercase(label)) {
            prev
        } else {
            prev.push(md052_error(label, group_at(line, g, 0), pos, ln))
        }
    }
}

pub open spec fn line_refs(line: Seq<char>, defs: Seq<Seq<char>>, pos: (usize, usize), ln: int) -> Seq<
    LintErrorView,
> {
    let full = regex_captures_all(full_ref_pattern(), line);
    let coll = regex_captures_all(collapsed_ref_pattern(), line);
    ref_errors(line, full, defs, 2, pos, ln, full.len() as int) + ref_errors(
        line,
        coll,
        defs,
        1,
        pos,
        ln,
        coll.len() as int,
    )
}

/// Whether the first `n` lines end inside a fenced block, and the findings.
pub open spec fn md052_scan(ls: Seq<Seq<char>>, defs: Seq<Seq<char>>, n: int) -> (bool, Seq<LintErrorView>)
    decreases n,
{
    if n <= 0 {
        (false, seq![])
    } else {
        let prev = md052_scan(ls, defs, n - 1);
        let line = ls[n - 1];
        if md052_fence(line) {
            (!prev.0, prev.1)
        } else if prev.0 {
            prev
        } else {
            (prev.0, prev.1 + line_refs(line, defs, md052_fix_pos(ls), n))
        }
    }
}

/// The findings of MD052 (none where a pattern is refused).
pub open spec fn md052_errors(ls: Seq<Seq<char>>) -> Seq<LintErrorView> {
    if md052_compiles() {
        md052_scan(ls, md052_defs(ls, ls.len() as int).1, ls.len() as int).1
    } else {
        seq![]
    }
}

pub open spec fn vec_views(v: Seq<Vec<char>>) -> Seq<Seq<char>> {
    v.map_values(|x: Vec<char>| x@)
}

pub open spec fn item_views(items: Seq<Vec<Option<(usize, usize)>>>) -> Seq<Seq<Option<(usize, usize)>>> {
    items.map_values(|g: Vec<Option<(usize, usize)>>| g@)
}

/// Check if a line is a code fence opener or closer.
pub fn is_code_fence(line: &str) -> (r: bool)
    ensures
        r == md052_fence(line@),
{
    let v = chars_of(line);
    let t = trim_start_vec(&v);
    starts_with_str(&t, "```") || starts_with_str(&t, "~~~")
}

/// `label` is among `defs`.
fn is_defined(defs: &Vec<Vec<char>>, label: &Vec<char>) -> (r: bool)
    ensures
        r == vec_views(defs@).contains(label@),
{
    let mut i: usize = 0;
    while i < defs.len()
        invariant
            i <= defs@.len(),
            forall|j: int| 0 <= j < i ==> (#[trigger] defs@[j])@ != label@,
        decreases defs@.len() - i,
    {
        if crate::text::eq_vec(&defs[i], label) {
            assert(vec_views(defs@)[i as int] == label@);
            return true;
        }
        i = i + 1;
    }
    proof {
        if vec_views(defs@).contains(label@) {
            let j = choose|j: int| 0 <= j < vec_views(defs@).len() && vec_views(defs@)[j] == label@;
            assert(defs@[j]@ == label@);
        }
    }
    false
}

/// The lowercase form of a label.
fn lower(label: &Vec<char>) -> (r: Vec<char>)
    ensures
        r@ == lowercase(label@),
{
    let s = string_of(label);
    let l = to_lowercase(s.as_str());
    chars_of(l.as_str())
}

fn fix_position(lines: &[&str]) -> (r: (usize, usize))
    requires
        lines_fit(lines@),
    ensures
        r == md052_fix_pos(views(lines@)),
{
    let ghost ls = views(lines@);
    let n = lines.len();
    let last: usize = if n == 0 {
        0
    } else {
        n - 1
    };
    let trailing = if n > 0 {
        let v = chars_of(lines[last]);
        eq_str(&v, "\n") || eq_str(&v, "\r\n")
    } else {
        false
    };
    let insert_line: usize = if trailing {
        if last >= 1 {
            last
        } else {
            1
        }
    } else {
        n
    };
    let target: Vec<char> = if 1 <= insert_line && insert_line <= n {
        chars_of(lines[insert_line - 1])
    } else {
        Vec::new()
    };
    proof {
        if 1 <= insert_line && insert_line <= n {
            assert(byte_len(lines@[insert_line - 1]@) <= isize::MAX);
        }
        assert(target@ =~= if 1 <= insert_line <= n {
            ls[insert_line - 1]
        } else {
            seq![]
        });
        lemma_strip_eol_prefix(target@);
    }
    let stripped = strip_eol_vec(&target);
    let col = utf8_byte_len(&stripped) + 1;
    (insert_line, col)
}

proof fn lemma_caps_in(p: Seq<char>, items: Seq<Vec<Option<(usize, usize)>>>)
    requires
        forall|i: int| 0 <= i < items.len() ==> groups_in(p, #[trigger] items[i]@),
    ensures
        forall|i: int| 0 <= i < item_views(items).len() ==> groups_in(p, #[trigger] item_views(items)[i]),
{
    assert forall|i: int| 0 <= i < item_views(items).len() implies groups_in(
        p,
        #[trigger] item_views(items)[i],
    ) by {
        assert(groups_in(p, items[i]@));
    }
}

impl MD052 {
    pub fn names(&self) -> (r: Vec<&'static str>)
        ensures
            names_view(r@) == md052_meta().names,
    {
        let r = vec!["MD052", "reference-links-images"];
        assert(names_view(r@) =~= md052_meta().names);
        r
    }

    pub fn description(&self) -> (r: &'static str)
        ensures
            r@ == md052_meta().description,
    {
        "Reference links and images should use a label that is defined"
    }

    pub fn tags(&self) -> (r: Vec<&'static str>)
        ensures
            names_view(r@) == seq!["links"@, "images"@, "fixable"@],
    {
        let r = vec!["links", "images", "fixable"];
        assert(names_view(r@) =~= seq!["links"@, "images"@, "fixable"@]);
        r
    }

    pub fn parser_type(&self) -> (r: ParserType)
        ensures
            r == ParserType::Plain,
    {
        ParserType::Plain
    }

    pub fn information(&self) -> (r: Option<&'static str>)
        ensures
            opt_str(r) == md052_meta().information,
    {
        Some("https://github.com/DavidAnson/markdownlint/blob/main/doc/md052.md")
    }

    /// Reports each of `items` whose label (group `gi`) is not defined.
    fn check_refs(
        &self,
        line: &Vec<char>,
        items: &Vec<Vec<Option<(usize, usize)>>>,
        defs: &Vec<Vec<char>>,
        gi: usize,
        pos: (usize, usize),
        ln: usize,
        names: &Vec<&'static str>,
        errors: &mut Vec<LintError>,
    )
        requires
            byte_len(line@) <= isize::MAX,
            names_view(names@) == md052_meta().names,
        ensures
            errors_view(final(errors)@) == errors_view(old(errors)@) + ref_errors(
                line@,
                item_views(items@),
                vec_views(defs@),
                gi as int,
                pos,
                ln as int,
                items@.len() as int,
            ),
    {
        let ghost iv = item_views(items@);
        let ghost e0 = errors_view(errors@);
        let mut k: usize = 0;
        while k < items.len()
            invariant
                k <= items@.len(),
                iv == item_views(items@),
                byte_len(line@) <= isize::MAX,
                names_view(names@) == md052_meta().names,
                errors_view(errors@) == e0 + ref_errors(
                    line@,
                    iv,
                    vec_views(defs@),
                    gi as int,
                    pos,
                    ln as int,
                    k as int,
                ),
            decreases items@.len() - k,
        {
            let g = &items[k];
            assert(iv[k as int] == g@);
            let label = group_chars(line, g, gi);
            let low = lower(&label);
            if !is_defined(defs, &low) {
                let ctx = group_chars(line, g, 0);
                let mut e = LintError::new(ln, names, self.description(), self.information());
                let mut d = text("Reference label \"");
                push_chars(&mut d, &label);
                push_str(&mut d, "\" is not defined");
                e.error_detail = Some(d);
                e.error_context = Some(string_of(&ctx));
                let mut ins = text("\n[");
                push_chars(&mut ins, &label);
                push_str(&mut ins, "]: #link\n");
                e.fix_info = Some(
                    FixInfo {
                        line_number: Some(pos.0),
                        edit_column: Some(pos.1),
                        delete_count: None,
                        insert_text: Some(ins),
                    },
                );
                e.suggestion = Some(text("Define all link reference labels that are used"));
                let ghost before = errors_view(errors@);
                errors.push(e);
                assert(errors_view(errors@) =~= before.push(e@));
            }
            k = k + 1;
        }
    }

    pub fn lint(&self, params: &RuleParams) -> (errors: Vec<LintError>)
        requires
            lines_fit(params.lines@),
        ensures
            errors_view(errors@) == md052_errors(views(params.lines@)),
    {
        let lines = params.lines;
        let ghost ls = views(lines@);
        let mut errors: Vec<LintError> = Vec::new();
        let def_re = match compile("^\\s*\\[([^\\]]+)\\]:\\s+") {
            Some(p) => p,
            None => {
                assert(errors_view(errors@) =~= seq![]);
                return errors;
            },
        };
        let full_re = match compile("\\[([^\\]]*)\\]\\[([^\\]]+)\\]") {
            Some(p) => p,
            None => {
                assert(errors_view(errors@) =~= seq![]);
                return errors;
            },
        };
        let coll_re = match compile("\\[([^\\]]+)\\]\\[\\]") {
            Some(p) => p,
            None => {
                assert(errors_view(errors@) =~= seq![]);
                return errors;
            },
        };
        let n = lines.len();
        let mut defs: Vec<Vec<char>> = Vec::new();
        let mut in_code = false;
        let mut i: usize = 0;
        while i < n
            invariant
                n == lines@.len(),
                i <= n,
                ls == views(lines@),
                lines_fit(lines@),
                def_re@ == def_pattern(),
                md052_defs(ls, i as int) == (in_code, vec_views(defs@)),
            decreases n - i,
        {
            let line = lines[i];
            if is_code_fence(line) {
                in_code = !in_code;
            } else if !in_code {
                match captures(&def_re, line) {
                    Some(g) => {
                        let v = chars_of(line);
                        assert(byte_len(lines@[i as int]@) <= isize::MAX);
                        let label = group_chars(&v, &g, 1);
                        let low = lower(&label);
                        defs.push(low);
                        assert(vec_views(defs@) =~= md052_defs(ls, i + 1).1);
                    },
                    None => {},
                }
            }
            i = i + 1;
        }
        let ghost dv = vec_views(defs@);
        assert(dv == md052_defs(ls, n as int).1);
        let pos = fix_position(lines);
        let names = self.names();
        in_code = false;
        i = 0;
        assert(errors_view(errors@) =~= seq![]);
        while i < n
            invariant
                n == lines@.len(),
                i <= n,
                ls == views(lines@),
                lines_fit(lines@),
                full_re@ == full_ref_pattern(),
                coll_re@ == collapsed_ref_pattern(),
                dv == vec_views(defs@),
                pos == md052_fix_pos(ls),
                names_view(names@) == md052_meta().names,
                md052_scan(ls, dv, i as int) == (in_code, errors_view(errors@)),
            decreases n - i,
        {
            let line = lines[i];
            if is_code_fence(line) {
                in_code = !in_code;
            } else if !in_code {
                let v = chars_of(line);
                assert(byte_len(lines@[i as int]@) <= isize::MAX);
                let ghost e0 = errors_view(errors@);
                let full = captures_all(&full_re, line);
                self.check_refs(&v, &full, &defs, 2, pos, i + 1, &names, &mut errors);
                let coll = captures_all(&coll_re, line);
                self.check_refs(&v, &coll, &defs, 1, pos, i + 1, &names, &mut errors);
                assert(errors_view(errors@) =~= e0 + line_refs(ls[i as int], dv, pos, i + 1));
            }
            i = i + 1;
        }
        errors
    }
}

/// `e` reports, on line `ln`, a reference whose label, lowercased, is not
/// among `defs`.
pub open spec fn undefined_finding(defs: Seq<Seq<char>>, pos: (usize, usize), ln: int, e: LintErrorView) -> bool {
    exists|label: Seq<char>, ctx: Seq<char>|
        !defs.contains(lowercase(label)) && e == #[trigger] md052_error(label, ctx, pos, ln)
}

proof fn lemma_ref_errors_undefined(
    line: Seq<char>,
    items: Seq<Seq<Option<(usize, usize)>>>,
    defs: Seq<Seq<char>>,
    gi: int,
    pos: (usize, usize),
    ln: int,
    k: int,
)
    ensures
        forall|j: int|
            0 <= j < ref_errors(line, items, defs, gi, pos, ln, k).len() ==> undefined_finding(
                defs,
                pos,
                ln,
                #[trigger] ref_errors(line, items, defs, gi, pos, ln, k)[j],
            ),
    decreases k,
{
    if k > 0 {
        lemma_ref_errors_undefined(line, items, defs, gi, pos, ln, k - 1);
        let prev = ref_errors(line, items, defs, gi, pos, ln, k - 1);
        let cur = ref_errors(line, items, defs, gi, pos, ln, k);
        let g = items[k - 1];
        let label = group_at(line, g, gi);
        assert forall|j: int| 0 <= j < cur.len() implies undefined_finding(defs, pos, ln, #[trigger] cur[j]) by {
            if j < prev.len() {
                assert(cur[j] == prev[j]);
            } else {
                let ctx = group_at(line, g, 0);
                assert(cur[j] == md052_error(label, ctx, pos, ln));
            }
        }
    }
}

proof fn lemma_md052_scan_undefined(ls: Seq<Seq<char>>, defs: Seq<Seq<char>>, n: int)
    requires
        0 <= n <= ls.len(),
    ensures
        forall|j: int|
            0 <= j < md052_scan(ls, defs, n).1.len() ==> {
                let e = #[trigger] md052_scan(ls, defs, n).1[j];
                &&& 1 <= e.line_number <= n
                &&& undefined_finding(defs, md052_fix_pos(ls), e.line_number, e)
            },
    decreases n,
{
    if n > 0 {
        lemma_md052_scan_undefined(ls, defs, n - 1);
        let prev = md052_scan(ls, defs, n - 1);
        let cur = md052_scan(ls, defs, n);
        let line = ls[n - 1];
        if !md052_fence(line) && !prev.0 {
            let pos = md052_fix_pos(ls);
            let full = regex_captures_all(full_ref_pattern(), line);
            let coll = regex_captures_all(collapsed_ref_pattern(), line);
            let a = ref_errors(line, full, defs, 2, pos, n, full.len() as int);
            let b = ref_errors(line, coll, defs, 1, pos, n, coll.len() as int);
            lemma_ref_errors_undefined(line, full, defs, 2, pos, n, full.len() as int);
            lemma_ref_errors_undefined(line, coll, defs, 1, pos, n, coll.len() as int);
            assert(cur.1 == prev.1 + (a + b));
            assert forall|j: int| 0 <= j < cur.1.len() implies {
                let e = #[trigger] cur.1[j];
                &&& 1 <= e.line_number <= n
                &&& undefined_finding(defs, pos, e.line_number, e)
            } by {
                if j < prev.1.len() {
                    assert(cur.1[j] == prev.1[j]);
                } else if j < prev.1.len() + a.len() {
                    assert(cur.1[j] == a[j - prev.1.len()]);
                    let e = a[j - prev.1.len()];
                    assert(undefined_finding(defs, pos, n, e));
                    let (label, ctx) = choose|label: Seq<char>, ctx: Seq<char>|
                        !defs.contains(lowercase(label)) && e == #[trigger] md052_error(label, ctx, pos, n);
                    assert(e.line_number == n);
                } else {
                    assert(cur.1[j] == b[j - prev.1.len() - a.len()]);
                    let e = b[j - prev.1.len() - a.len()];
                    assert(undefined_finding(defs, pos, n, e));
                    let (label, ctx) = choose|label: Seq<char>, ctx: Seq<char>|
                        !defs.contains(lowercase(label)) && e == #[trigger] md052_error(label, ctx, pos, n);
                    assert(e.line_number == n);
                }
            }
        }
    }
}

/// Every MD052 finding is on a line of the document and reports a reference
/// whose label, lowercased, is defined nowhere outside fenced blocks.
pub proof fn lemma_md052_undefined_only(ls: Seq<Seq<char>>)
    ensures
        forall|j: int|
            0 <= j < md052_errors(ls).len() ==> {
                let e = #[trigger] md052_errors(ls)[j];
                &&& 1 <= e.line_number <= ls.len()
                &&& undefined_finding(md052_defs(ls, ls.len() as int).1, md052_fix_pos(ls), e.line_number, e)
            },
{
    if md052_compiles() {
        lemma_md052_scan_undefined(ls, md052_defs(ls, ls.len() as int).1, ls.len() as int);
    }
}

} // verus!
