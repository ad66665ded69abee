//! MD048 - Code fence style.
//!
//! When both backtick and tilde fences occur, every fence of the style not
//! used first is reported.

use vstd::prelude::*;
use crate::text::{
    byte_len, chars_of, push_str, starts_with, starts_with_str, string_of, text, trim, trim_start,
    trim_start_vec, trim_vec, utf8_byte_len, views,
};
use crate::types::{
    base_error, errors_view, fix_view, lines_fit, names_view, opt_str, FixInfo, LintError,
    LintErrorView, ParserType, RuleMeta, RuleParams,
};

use crate::text::lemma_byte_len_trims;

verus! {

pub struct MD048;

pub open spec fn md048_meta() -> RuleMeta {
    RuleMeta {
        names: seq!["MD048"@, "code-fence-style"@],
        description: "Code fence style"@,
        information: Some("https://github.com/DavidAnson/markdownlint/blob/main/doc/md048.md"@),
    }
}

/// `Some(true)` for a backtick fence line, `Some(false)` for a tilde one.
pub open spec fn fence_kind(line: Seq<char>) -> Option<bool> {
    let t = trim(line);
    if starts_with(t, "```"@) {
        Some(true)
    } else if starts_with(t, "~~~"@) {
        Some(false)
    } else {
        None
    }
}

/// The 0-based indices of the first `n` lines that are fences of `kind`.
pub open spec fn fence_lines(ls: Seq<Seq<char>>, kind: bool, n: int) -> Seq<int>
    decreases n,
{
    if n <= 0 {
        seq![]
    } else {
        let prev = fence_lines(ls, kind, n - 1);
        if fence_kind(ls[n - 1]) == Some(kind) {
            prev.push(n - 1)
        } else {
            prev
        }
    }
}

/// The kind of the first fence among the first `n` lines.
pub open spec fn first_kind(ls: Seq<Seq<char>>, n: int) -> Option<bool>
    decreases n,
{
    if n <= 0 {
        None
    } else {
        match first_kind(ls, n - 1) {
            Some(k) => Some(k),
            None => fence_kind(ls[n - 1]),
        }
    }
}

pub open spec fn fence_text(backtick: bool) -> Seq<char> {
    if backtick {
        "```"@
    } else {
        "~~~"@
    }
}

pub open spec fn md048_error(line: Seq<char>, i: int, first: bool) -> LintErrorView {
    let t = trim(line);
    let old_backtick = !starts_with(t, "~~~"@);
    let lead = byte_len(line) - byte_len(trim_start(line));
    LintErrorView {
        detail: Some("Expected: "@ + fence_text(first) + "; Actual: "@ + fence_text(old_backtick)),
        context: Some(t),
        range: Some(((lead + 1) as usize, 3usize)),
        fix: Some(fix_view(Some((i + 1) as usize), Some((lead + 1) as usize), Some(3i32), Some(fence_text(!old_backtick)))),
        suggestion: Some("Use consistent code fence style"@),
        ..base_error(md048_meta(), i + 1)
    }
}

/// Findings for the first `k` of the lines `idx`.
pub open spec fn md048_report(ls: Seq<Seq<char>>, idx: Seq<int>, first: bool, k: int) -> Seq<LintErrorView>
    decreases k,
{
    if k <= 0 {
        seq![]
    } else {
        md048_report(ls, idx, first, k - 1).push(md048_error(ls[idx[k - 1]], idx[k - 1], first))
    }
}

/// The findings of MD048.
pub open spec fn md048_errors(ls: Seq<Seq<char>>) -> Seq<LintErrorView> {
    let n = ls.len() as int;
    let b = fence_lines(ls, true, n);
    let t = fence_lines(ls, false, n);
    if b.len() > 0 && t.len() > 0 {
        let first = first_kind(ls, n) == Some(true);
        let fix = if first { t } else { b };
        md048_report(ls, fix, first, fix.len() as int)
    } else {
        seq![]
    }
}

fn kind_of(line: &str) -> (r: Option<bool>)
    ensures
        r == fence_kind(line@),
{
    let v = chars_of(line);
    let t = trim_vec(&v);
    if starts_with_str(&t, "```") {
        Some(true)
    } else if starts_with_str(&t, "~~~") {
        Some(false)
    } else {
        None
    }
}

impl MD048 {
    pub fn names(&self) -> (r: Vec<&'static str>)
        ensures
            names_view(r@) == md048_meta().names,
    {
        let r = vec!["MD048", "code-fence-style"];
        assert(names_view(r@) =~= md048_meta().names);
        r
    }

    pub fn description(&self) -> (r: &'static str)
        ensures
            r@ == md048_meta().description,
    {
        "Code fence style"
    }

    pub fn tags(&self) -> (r: Vec<&'static str>)
        ensures
            names_view(r@) == seq!["code"@, "fixable"@],
    {
        let r = vec!["code", "fixable"];
        assert(names_view(r@) =~= seq!["code"@, "fixable"@]);
        r
    }

    pub fn parser_type(&self) -> (r: ParserType)
        ensures
            r == ParserType::Plain,
    {
        ParserType::Plain
    }

    pub fn information(&self) -> (r: Option<&'static str>)
        ensures
            opt_str(r) == md048_meta().information,
    {
        Some("https://github.com/DavidAnson/markdownlint/blob/main/doc/md048.md")
    }

    pub fn lint(&self, params: &RuleParams) -> (errors: Vec<LintError>)
        requires
            lines_fit(params.lines@),
        ensures
            errors_view(errors@) == md048_errors(views(params.lines@)),
    {
        let lines = params.lines;
        let ghost ls = views(lines@);
        let mut backtick_lines: Vec<usize> = Vec::new();
        let mut tilde_lines: Vec<usize> = Vec::new();
        let mut first: Option<bool> = None;
        let n = lines.len();
        let mut i: usize = 0;
        while i < n
            invariant
                n == lines@.len(),
                i <= n,
                ls == views(lines@),
                backtick_lines@.map_values(|x: usize| x as int) == fence_lines(ls, true, i as int),
                tilde_lines@.map_values(|x: usize| x as int) == fence_lines(ls, false, i as int),
                forall|j: int| 0 <= j < backtick_lines@.len() ==> backtick_lines@[j] < i,
                forall|j: int| 0 <= j < tilde_lines@.len() ==> tilde_lines@[j] < i,
                first == first_kind(ls, i as int),
            decreases n - i,
        {
            let k = kind_of(lines[i]);
            match k {
                Some(true) => {
                    backtick_lines.push(i);
                },
                Some(false) => {
                    tilde_lines.push(i);
                },
                None => {},
            }
            if first.is_none() {
                first = k;
            }
            assert(backtick_lines@.map_values(|x: usize| x as int) =~= fence_lines(ls, true, i + 1));
            assert(tilde_lines@.map_values(|x: usize| x as int) =~= fence_lines(ls, false, i + 1));
            i = i + 1;
        }
        let mut errors: Vec<LintError> = Vec::new();
        if backtick_lines.len() == 0 || tilde_lines.len() == 0 {
            assert(errors_view(errors@) =~= seq![]);
            return errors;
        }
        let first_backtick = match first {
            Some(true) => true,
            _ => false,
        };
        let to_fix = if first_backtick {
            tilde_lines
        } else {
            backtick_lines
        };
        let ghost fixv = to_fix@.map_values(|x: usize| x as int);
        let names = self.names();
        let m = to_fix.len();
        let mut k: usize = 0;
        while k < m
            invariant
                m == to_fix@.len(),
                k <= m,
                n == lines@.len(),
                ls == views(lines@),
                lines_fit(lines@),
                fixv == to_fix@.map_values(|x: usize| x as int),
                forall|j: int| 0 <= j < to_fix@.len() ==> to_fix@[j] < n,
                names_view(names@) == md048_meta().names,
                errors_view(errors@) == md048_report(ls, fixv, first_backtick, k as int),
            decreases m - k,
        {
            let ghost before = errors@;
            let idx = to_fix[k];
            let v = chars_of(lines[idx]);
            let t = trim_vec(&v);
            let old_backtick = !starts_with_str(&t, "~~~");
            let vs = trim_start_vec(&v);
            proof {
                assert(byte_len(lines@[idx as int]@) <= isize::MAX);
                lemma_byte_len_trims(v@, ' ');
            }
            let total = utf8_byte_len(&v);
            let rest = utf8_byte_len(&vs);
            let lead = total - rest;
            let first_fence = if first_backtick {
                "```"
            } else {
                "~~~"
            };
            let old_fence = if old_backtick {
                "```"
            } else {
                "~~~"
            };
            let new_fence = if old_backtick {
                "~~~"
            } else {
                "```"
            };
            let mut e = LintError::new(idx + 1, &names, self.description(), self.information());
            let mut d = text("Expected: ");
            push_str(&mut d, first_fence);
            push_str(&mut d, "; Actual: ");
            push_str(&mut d, old_fence);
            e.error_detail = Some(d);
            e.error_context = Some(string_of(&t));
            e.error_range = Some((lead + 1, 3));
            e.fix_info = Some(FixInfo { line_number: Some(idx + 1), edit_column: Some(lead + 1), delete_count: Some(3), insert_text: Some(text(new_fence)) });
            e.suggestion = Some(text("Use consistent code fence style"));
            errors.push(e);
            assert(fixv[k as int] == idx as int);
            assert(errors_view(errors@) =~= errors_view(before).push(md048_error(ls[idx as int], idx as int, first_backtick)));
            k = k + 1;
        }
        errors
    }
}

/// Some finding of `es` is on line `ln`.
pub open spec fn any_on_line(es: Seq<LintErrorView>, ln: int) -> bool {
    exists|j: int| 0 <= j < es.len() && #[trigger] es[j].line_number == ln
}

/// The detail of a fence reported when the document's first fence is a
/// backtick fence (`first`) or a tilde fence.
pub open spec fn first_style_detail(first: bool) -> Seq<char> {
    if first {
        "Expected: "@ + "```"@ + "; Actual: "@ + "~~~"@
    } else {
        "Expected: "@ + "~~~"@ + "; Actual: "@ + "```"@
    }
}

proof fn lemma_first_kind_at(ls: Seq<Seq<char>>, f: int, n: int)
    requires
        0 <= f < n <= ls.len(),
        fence_kind(ls[f]) is Some,
        forall|i: int| 0 <= i < f ==> (#[trigger] fence_kind(ls[i])) is None,
    ensures
        first_kind(ls, n) == fence_kind(ls[f]),
    decreases n,
{
    if n - 1 > f {
        lemma_first_kind_at(ls, f, n - 1);
    } else {
        lemma_first_kind_none(ls, f);
    }
}

proof fn lemma_first_kind_none(ls: Seq<Seq<char>>, n: int)
    requires
        0 <= n <= ls.len(),
        forall|i: int| 0 <= i < n ==> (#[trigger] fence_kind(ls[i])) is None,
    ensures
        first_kind(ls, n) is None,
    decreases n,
{
    if n > 0 {
        lemma_first_kind_none(ls, n - 1);
    }
}

proof fn lemma_fence_lines(ls: Seq<Seq<char>>, kind: bool, n: int)
    requires
        0 <= n <= ls.len(),
    ensures
        forall|j: int|
            0 <= j < fence_lines(ls, kind, n).len() ==> 0 <= #[trigger] fence_lines(ls, kind, n)[j] < n
                && fence_kind(ls[fence_lines(ls, kind, n)[j]]) == Some(kind),
        forall|k: int| 0 <= k < n && #[trigger] fence_kind(ls[k]) == Some(kind) ==> fence_lines(ls, kind, n).contains(k),
    decreases n,
{
    if n > 0 {
        lemma_fence_lines(ls, kind, n - 1);
        let prev = fence_lines(ls, kind, n - 1);
        let cur = fence_lines(ls, kind, n);
        if fence_kind(ls[n - 1]) == Some(kind) {
            assert forall|j: int| 0 <= j < cur.len() implies 0 <= #[trigger] cur[j] < n && fence_kind(ls[cur[j]]) == Some(kind) by {
                if j < prev.len() {
                    assert(cur[j] == prev[j]);
                }
            }
            assert forall|k: int| 0 <= k < n && #[trigger] fence_kind(ls[k]) == Some(kind) implies cur.contains(k) by {
                if k < n - 1 {
                    let j = choose|j: int| 0 <= j < prev.len() && prev[j] == k;
                    assert(cur[j] == prev[j]);
                } else {
                    assert(cur[prev.len() as int] == k);
                }
            }
        }
    }
}

proof fn lemma_md048_report(ls: Seq<Seq<char>>, idx: Seq<int>, first: bool, k: int)
    requires
        0 <= k <= idx.len(),
    ensures
        md048_report(ls, idx, first, k).len() == k,
        forall|j: int|
            0 <= j < k ==> #[trigger] md048_report(ls, idx, first, k)[j] == md048_error(ls[idx[j]], idx[j], first),
    decreases k,
{
    if k > 0 {
        lemma_md048_report(ls, idx, first, k - 1);
        let prev = md048_report(ls, idx, first, k - 1);
        assert forall|j: int| 0 <= j < k implies #[trigger] md048_report(ls, idx, first, k)[j] == md048_error(
            ls[idx[j]],
            idx[j],
            first,
        ) by {
            if j < k - 1 {
                assert(md048_report(ls, idx, first, k)[j] == prev[j]);
            }
        }
    }
}

/// Some finding of `es` on line `ln` names the style of the first fence
/// (`first`: backticks) as expected and fixes the line to it.
pub open spec fn fence_reported(es: Seq<LintErrorView>, ln: int, first: bool) -> bool {
    exists|j: int|
        0 <= j < es.len() && #[trigger] es[j].line_number == ln && es[j].detail == Some(first_style_detail(first))
            && es[j].fix is Some && es[j].fix.unwrap().line_number == Some(ln as usize)
            && es[j].fix.unwrap().insert_text == Some(if first {
            "```"@
        } else {
            "~~~"@
        })
}

/// The first fence of the document sets the style. Only fence lines of the
/// other kind are reported; and where both kinds occur, every fence line
/// of the other kind is reported, its detail naming the first fence's style
/// as expected.
pub proof fn lemma_md048_first_wins(ls: Seq<Seq<char>>, f: int)
    requires
        0 <= f < ls.len(),
        fence_kind(ls[f]) is Some,
        forall|i: int| 0 <= i < f ==> (#[trigger] fence_kind(ls[i])) is None,
    ensures
        forall|k: int|
            0 <= k < ls.len() && any_on_line(md048_errors(ls), k + 1) ==> (#[trigger] fence_kind(ls[k])) is Some
                && fence_kind(ls[k]) != fence_kind(ls[f]),
        forall|k: int|
            0 <= k < ls.len() && (#[trigger] fence_kind(ls[k])) is Some && fence_kind(ls[k]) != fence_kind(ls[f])
                ==> fence_reported(md048_errors(ls), k + 1, fence_kind(ls[f]).unwrap()),
{
    let n = ls.len() as int;
    let kf = fence_kind(ls[f]).unwrap();
    let es = md048_errors(ls);
    lemma_first_kind_at(ls, f, n);
    lemma_fence_lines(ls, true, n);
    lemma_fence_lines(ls, false, n);
    let b = fence_lines(ls, true, n);
    let t = fence_lines(ls, false, n);
    reveal_strlit("```");
    reveal_strlit("~~~");
    if b.len() > 0 && t.len() > 0 {
        let first = kf;
        let fix = if first { t } else { b };
        lemma_md048_report(ls, fix, first, fix.len() as int);
        assert forall|k: int|
            0 <= k < ls.len() && any_on_line(es, k + 1) implies (#[trigger] fence_kind(ls[k])) is Some
                && fence_kind(ls[k]) != fence_kind(ls[f]) by {
            let j = choose|j: int| 0 <= j < es.len() && #[trigger] es[j].line_number == k + 1;
            assert(es[j] == md048_error(ls[fix[j]], fix[j], first));
            assert(fix[j] == k);
        }
        assert forall|k: int|
            0 <= k < ls.len() && (#[trigger] fence_kind(ls[k])) is Some && fence_kind(ls[k]) != fence_kind(ls[f])
                implies fence_reported(es, k + 1, kf) by {
            assert(fence_kind(ls[k]) == Some(!first));
            let j = choose|j: int| 0 <= j < fix.len() && fix[j] == k;
            assert(es[j] == md048_error(ls[k], k, first));
            let tt = trim(ls[k]);
            if first {
                assert(starts_with(tt, "~~~"@));

            } else {
                assert(!starts_with(tt, "~~~"@)) by {
                    assert(starts_with(tt, "```"@));
                    assert(tt.take(3)[0] == tt[0]);
                    assert(tt.take(3) == "```"@);
                    if starts_with(tt, "~~~"@) {
                        assert(tt.take(3) == "~~~"@);
                    }
                }
            }
            assert(es[j].line_number == k + 1);
            assert(es[j].detail == Some(first_style_detail(kf)));
            assert(es[j].fix.unwrap().insert_text == Some(fence_text(kf)));
        }
    } else {
        assert forall|k: int|
            0 <= k < ls.len() && (#[trigger] fence_kind(ls[k])) is Some && fence_kind(ls[k]) != fence_kind(ls[f])
                implies fence_reported(es, k + 1, kf) by {
            if fence_kind(ls[k]) == Some(true) {
                assert(b.contains(k));
                assert(t.contains(f));
            } else {
                assert(t.contains(k));
                assert(b.contains(f));
            }
        }
    }
}

} // verus!
