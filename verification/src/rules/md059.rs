//! MD059 - Emphasis marker style should not conflict with math syntax.
//!
//! Inside math (a `$$` block, `$$...$$` or `$...$` on one line) an
//! underscore pair `_text_` reads as emphasis; each is reported (as a
//! warning), with a fix that escapes both underscores.

use vstd::prelude::*;
use crate::text::{
    byte_len, byte_slice, byte_slice_chars, chars_of, eq_str, find_from, find_in_from,
    lemma_byte_len_concat, lemma_byte_len_take, lemma_find_from_bounds, push_chars, push_str,
    slice_chars, strip_eol, strip_eol_vec, string_of, text, trim, trim_vec, utf8_byte_len, views,
};
use crate::types::{
    base_error, errors_view, fix_view, lines_fit, names_view, opt_str, FixInfo, LintError,
    LintErrorView, ParserType, RuleMeta, RuleParams, Severity,
};
use crate::pattern::{captures_all, compile, groups_in, regex_captures_all, regex_compiles, span_in, Pattern};

verus! {

pub struct MD059;

pub open spec fn md059_meta() -> RuleMeta {
    RuleMeta {
        names: seq!["MD059"@, "emphasis-marker-style-math"@],
        description: "Emphasis marker style should not conflict with math syntax"@,
        information: Some("https://github.com/DavidAnson/markdownlint/blob/main/doc/md059.md"@),
    }
}

/// An underscore pair around text without underscores or backslashes,
/// not after a backslash; group 1 is the pair.
pub open spec fn em_pattern() -> Seq<char> {
    "(?:^|[^\\\\])(_[^_\\\\]+_)"@
}

/// The finding for the underscore pair at byte span `a` of `content`,
/// which starts `base` bytes into line `ln`.
pub open spec fn md059_error(ln: int, content: Seq<char>, base: int, mt: Seq<char>, a: (usize, usize)) -> LintErrorView {
    let matched = byte_slice(content, a.0 as int, a.1 as int);
    let len = a.1 - a.0;
    let inner = if len >= 1 {
        byte_slice(matched, 1, len - 1)
    } else {
        seq![]
    };
    let col = base + a.0;
    LintErrorView {
        detail: Some("Emphasis-style underscore found in "@ + mt),
        context: Some(matched),
        range: Some(((col + 1) as usize, len as usize)),
        fix: Some(
            fix_view(None, Some((col + 1) as usize), Some(len as i32), Some("\\_"@ + inner + "\\_"@)),
        ),
        suggestion: Some("Escape underscores with backslash in math context"@),
        severity: Severity::Warning,
        ..base_error(md059_meta(), ln)
    }
}

/// The findings for the first `k` matches `caps` in `content`.
pub open spec fn emphasis_errs(content: Seq<char>, ln: int, base: int, mt: Seq<char>, caps: Seq<Seq<Option<(usize, usize)>>>, k: int) -> Seq<LintErrorView>
    decreases k,
{
    if k <= 0 {
        seq![]
    } else {
        let prev = emphasis_errs(content, ln, base, mt, caps, k - 1);
        let g = caps[k - 1];
        if g.len() > 1 && g[1] is Some {
            prev.push(md059_error(ln, content, base, mt, g[1]->0))
        } else {
            prev
        }
    }
}

/// The findings for the math text `content`, which starts `base` bytes
/// into line `ln`.
pub open spec fn emphasis_errors(content: Seq<char>, ln: int, base: int, mt: Seq<char>) -> Seq<LintErrorView> {
    let caps = regex_captures_all(em_pattern(), content);
    emphasis_errs(content, ln, base, mt, caps, caps.len() as int)
}

/// The `$$...$$` spans of a line from character `ss` on, as the character
/// ranges of their contents.
pub open spec fn disp_scan(t: Seq<char>, ss: int) -> Seq<(int, int)>
    decreases t.len() + 1 - ss,
{
    if ss < 0 || ss > t.len() {
        seq![]
    } else {
        let st = find_from(t, "$$"@, ss);
        if st < 0 {
            seq![]
        } else {
            let ao = st + 2;
            if ao >= t.len() {
                seq![]
            } else {
                let en = find_from(t, "$$"@, ao);
                if en < 0 {
                    seq![]
                } else {
                    proof {
                        reveal_strlit("$$");
                        lemma_find_from_bounds(t, "$$"@, ss);
                        lemma_find_from_bounds(t, "$$"@, ao);
                    }
                    seq![(ao, en)] + disp_scan(t, en + 2)
                }
            }
        }
    }
}

/// Where a scan that skips a `$$...$$` span resumes: past the next `$$`
/// from `j` on, or at the last character.
pub open spec fn im_skip(t: Seq<char>, j: int) -> int
    decreases t.len() - j,
{
    if j + 1 < t.len() {
        if t[j] == '$' && t[j + 1] == '$' {
            j + 2
        } else {
            im_skip(t, j + 1)
        }
    } else {
        j
    }
}

/// The first `$` from `j` on, or the length of `t`.
pub open spec fn im_close(t: Seq<char>, j: int) -> int
    decreases t.len() - j,
{
    if j < t.len() {
        if t[j] == '$' {
            j
        } else {
            im_close(t, j + 1)
        }
    } else {
        j
    }
}

pub proof fn lemma_skip_close(t: Seq<char>, j: int)
    ensures
        j <= im_skip(t, j),
        j <= im_close(t, j),
        j <= t.len() ==> im_skip(t, j) <= t.len() && im_close(t, j) <= t.len(),
    decreases t.len() - j,
{
    if j < t.len() {
        lemma_skip_close(t, j + 1);
    }
}

/// The nonempty `$...$` spans of a line from character `i` on, as the
/// character ranges of their contents (`$$...$$` spans are skipped).
pub open spec fn im_scan(t: Seq<char>, i: int) -> Seq<(int, int)>
    decreases t.len() - i,
{
    if i < 0 || i >= t.len() {
        seq![]
    } else if i + 1 < t.len() && t[i] == '$' && t[i + 1] == '$' {
        proof {
            lemma_skip_close(t, i + 2);
        }
        im_scan(t, im_skip(t, i + 2))
    } else if t[i] == '$' {
        let c = im_close(t, i + 1);
        proof {
            lemma_skip_close(t, i + 1);
        }
        if c < t.len() {
            (if c > i + 1 {
                seq![(i + 1, c)]
            } else {
                seq![]
            }) + im_scan(t, c + 1)
        } else {
            seq![]
        }
    } else {
        im_scan(t, i + 1)
    }
}

/// The findings for the math spans `spans` of line `t`.
pub open spec fn spans_errors(t: Seq<char>, ln: int, spans: Seq<(int, int)>, mt: Seq<char>) -> Seq<LintErrorView>
    decreases spans.len(),
{
    if spans.len() == 0 {
        seq![]
    } else {
        let s = spans.last();
        spans_errors(t, ln, spans.drop_last(), mt) + emphasis_errors(
            t.subrange(s.0, s.1),
            ln,
            byte_len(t.take(s.0)) as int,
            mt,
        )
    }
}

/// Whether the first `n` lines end inside a `$$` block, and the findings.
pub open spec fn md059_scan(ls: Seq<Seq<char>>, n: int) -> (bool, Seq<LintErrorView>)
    decreases n,
{
    if n <= 0 {
        (false, seq![])
    } else {
        let prev = md059_scan(ls, n - 1);
        let t = strip_eol(ls[n - 1]);
        if trim(t) == "$$"@ {
            (!prev.0, prev.1)
        } else if prev.0 {
            (true, prev.1 + emphasis_errors(t, n, 0, "display math"@))
        } else {
            (
                false,
                prev.1 + spans_errors(t, n, disp_scan(t, 0), "display math"@) + spans_errors(
                    t,
                    n,
                    im_scan(t, 0),
                    "math"@,
                ),
            )
        }
    }
}

/// The findings of MD059 (none where the pattern is refused).
pub open spec fn md059_errors(ls: Seq<Seq<char>>) -> Seq<LintErrorView> {
    if regex_compiles(em_pattern()) {
        md059_scan(ls, ls.len() as int).1
    } else {
        seq![]
    }
}

/// The byte offset of character `k` of `t`, and the math text from `k`
/// to `e` fits after it.
proof fn lemma_span_fits(t: Seq<char>, k: int, e: int)
    requires
        0 <= k <= e <= t.len(),
    ensures
        byte_len(t.take(k)) + byte_len(t.subrange(k, e)) <= byte_len(t),
{
    lemma_byte_len_concat(t.take(k), t.subrange(k, e));
    assert(t.take(k) + t.subrange(k, e) =~= t.take(e));
    lemma_byte_len_take(t, e);
}

impl MD059 {
    pub fn names(&self) -> (r: Vec<&'static str>)
        ensures
            names_view(r@) == md059_meta().names,
    {
        let r = vec!["MD059", "emphasis-marker-style-math"];
        assert(names_view(r@) =~= md059_meta().names);
        r
    }

    pub fn description(&self) -> (r: &'static str)
        ensures
            r@ == md059_meta().description,
    {
        "Emphasis marker style should not conflict with math syntax"
    }

    pub fn tags(&self) -> (r: Vec<&'static str>)
        ensures
            names_view(r@) == seq!["emphasis"@, "math"@, "fixable"@],
    {
        let r = vec!["emphasis", "math", "fixable"];
        assert(names_view(r@) =~= seq!["emphasis"@, "math"@, "fixable"@]);
        r
    }

    pub fn parser_type(&self) -> (r: ParserType)
        ensures
            r == ParserType::Plain,
    {
        ParserType::Plain
    }

    pub fn information(&self) -> (r: Option<&'static str>)
        ensures
            opt_str(r) == md059_meta().information,
    {
        Some("https://github.com/DavidAnson/markdownlint/blob/main/doc/md059.md")
    }

    /// Report the emphasis underscores in the math text `content`, which
    /// starts `base_offset` bytes into line `line_number`.
    fn check_line_for_emphasis(
        &self,
        re: &Pattern,
        content: &Vec<char>,
        line_number: usize,
        base_offset: usize,
        math_type: &str,
        errors: &mut Vec<LintError>,
    )
        requires
            re@ == em_pattern(),
            byte_len(content@) <= isize::MAX,
            base_offset + byte_len(content@) <= isize::MAX,
        ensures
            errors_view(final(errors)@) == errors_view(old(errors)@) + emphasis_errors(
                content@,
                line_number as int,
                base_offset as int,
                math_type@,
            ),
    {
        let names = self.names();
        let cs = string_of(content);
        let caps = captures_all(re, cs.as_str());
        let ghost cv = caps@.map_values(|g: Vec<Option<(usize, usize)>>| g@);
        let ghost e0 = errors_view(errors@);
        let mut k: usize = 0;
        while k < caps.len()
            invariant
                k <= caps@.len(),
                cs@ == content@,
                byte_len(content@) <= isize::MAX,
                base_offset + byte_len(content@) <= isize::MAX,
                cv == caps@.map_values(|g: Vec<Option<(usize, usize)>>| g@),
                forall|q: int| 0 <= q < caps@.len() ==> groups_in(content@, #[trigger] caps@[q]@),
                names_view(names@) == md059_meta().names,
                errors_view(errors@) == e0 + emphasis_errs(
                    content@,
                    line_number as int,
                    base_offset as int,
                    math_type@,
                    cv,
                    k as int,
                ),
            decreases caps@.len() - k,
        {
            let g = &caps[k];
            assert(cv[k as int] == g@);
            assert(groups_in(content@, g@));
            if g.len() > 1 {
                match g[1] {
                    Some(a) => {
                        assert(g@[1] matches Some(x) ==> span_in(content@, x));
                        let matched = byte_slice_chars(content, a.0, a.1);
                        let len = a.1 - a.0;
                        let inner = if len >= 1 {
                            proof {
                                crate::text::lemma_byte_slice_bound(content@, a.0 as int, a.1 as int);
                            }
                            byte_slice_chars(&matched, 1, len - 1)
                        } else {
                            Vec::new()
                        };
                        let col = base_offset + a.0;
                        let mut fix = text("\\_");
                        push_chars(&mut fix, &inner);
                        push_str(&mut fix, "\\_");
                        let mut d = text("Emphasis-style underscore found in ");
                        push_str(&mut d, math_type);
                        let mut e = LintError::new(line_number, &names, self.description(), self.information());
                        e.error_detail = Some(d);
                        e.error_context = Some(string_of(&matched));
                        e.error_range = Some((col + 1, len));
                        e.fix_info = Some(
                            FixInfo {
                                line_number: None,
                                edit_column: Some(col + 1),
                                delete_count: Some(len as i32),
                                insert_text: Some(fix),
                            },
                        );
                        e.suggestion = Some(text("Escape underscores with backslash in math context"));
                        e.severity = Severity::Warning;
                        let ghost b = errors_view(errors@);
                        errors.push(e);
                        assert(errors_view(errors@) =~= b.push(
                            md059_error(line_number as int, content@, base_offset as int, math_type@, a),
                        ));
                    },
                    None => {},
                }
            }
            k = k + 1;
        }
    }

    /// Report the emphasis underscores in the math text `t[lo..hi]`.
    fn check_span(
        &self,
        re: &Pattern,
        t: &Vec<char>,
        lo: usize,
        hi: usize,
        line_number: usize,
        math_type: &str,
        errors: &mut Vec<LintError>,
    )
        requires
            re@ == em_pattern(),
            lo <= hi <= t@.len(),
            byte_len(t@) <= isize::MAX,
        ensures
            errors_view(final(errors)@) == errors_view(old(errors)@) + emphasis_errors(
                t@.subrange(lo as int, hi as int),
                line_number as int,
                byte_len(t@.take(lo as int)) as int,
                math_type@,
            ),
    {
        let content = slice_chars(t, lo, hi);
        let pre = slice_chars(t, 0, lo);
        proof {
            lemma_span_fits(t@, lo as int, hi as int);
            assert(pre@ =~= t@.take(lo as int));
        }
        let base = utf8_byte_len(&pre);
        self.check_line_for_emphasis(re, &content, line_number, base, math_type, errors);
    }

    /// Report the emphasis underscores in the `$$...$$` spans of a line.
    fn check_inline_display_math(&self, re: &Pattern, t: &Vec<char>, line_number: usize, errors: &mut Vec<LintError>)
        requires
            re@ == em_pattern(),
            byte_len(t@) <= isize::MAX,
        ensures
            errors_view(final(errors)@) == errors_view(old(errors)@) + spans_errors(
                t@,
                line_number as int,
                disp_scan(t@, 0),
                "display math"@,
            ),
    {
        let n = t.len();
        let mut ss: usize = 0;
        let mut go = true;
        let ghost e0 = errors_view(errors@);
        let ghost mut done: Seq<(int, int)> = seq![];
        assert(done + disp_scan(t@, 0) =~= disp_scan(t@, 0));
        while go
            invariant
                n == t@.len(),
                ss <= n,
                re@ == em_pattern(),
                byte_len(t@) <= isize::MAX,
                disp_scan(t@, 0) == done + if go {
                    disp_scan(t@, ss as int)
                } else {
                    seq![]
                },
                errors_view(errors@) == e0 + spans_errors(t@, line_number as int, done, "display math"@),
            decreases n - ss + if go {
                1int
            } else {
                0int
            },
        {
            match find_in_from(t, "$$", ss) {
                None => {
                    go = false;
                    assert(done + seq![] =~= done);
                },
                Some(st) => {
                    proof {
                        reveal_strlit("$$");
                    }
                    let ao = st + 2;
                    if ao >= n {
                        go = false;
                        assert(done + seq![] =~= done);
                    } else {
                        match find_in_from(t, "$$", ao) {
                            None => {
                                go = false;
                                assert(done + seq![] =~= done);
                            },
                            Some(en) => {
                                let ghost d0 = done;
                                let ghost before = errors_view(errors@);
                                self.check_span(re, t, ao, en, line_number, "display math", errors);
                                proof {
                                    done = done.push((ao as int, en as int));
                                    assert(done.drop_last() =~= d0);
                                    assert(d0 + disp_scan(t@, ss as int) =~= done + disp_scan(t@, en + 2));
                                }
                                ss = en + 2;
                            },
                        }
                    }
                },
            }
        }
        assert(done + seq![] =~= done);
    }

    /// Report the emphasis underscores in the `$...$` spans of a line.
    fn check_inline_math(&self, re: &Pattern, t: &Vec<char>, line_number: usize, errors: &mut Vec<LintError>)
        requires
            re@ == em_pattern(),
            byte_len(t@) <= isize::MAX,
        ensures
            errors_view(final(errors)@) == errors_view(old(errors)@) + spans_errors(
                t@,
                line_number as int,
                im_scan(t@, 0),
                "math"@,
            ),
    {
        let n = t.len();
        let mut i: usize = 0;
        let ghost e0 = errors_view(errors@);
        let ghost mut done: Seq<(int, int)> = seq![];
        assert(done + im_scan(t@, 0) =~= im_scan(t@, 0));
        while i < n
            invariant
                n == t@.len(),
                i <= n,
                re@ == em_pattern(),
                byte_len(t@) <= isize::MAX,
                im_scan(t@, 0) == done + im_scan(t@, i as int),
                errors_view(errors@) == e0 + spans_errors(t@, line_number as int, done, "math"@),
            decreases n - i,
        {
            if i + 1 < n && t[i] == '$' && t[i + 1] == '$' {
                let i0 = i;
                i = i + 2;
                let mut stop = false;
                while i < n && i + 1 < n && !stop
                    invariant
                        n == t@.len(),
                        i0 + 2 <= i <= n,
                        stop ==> im_skip(t@, i0 + 2) == i,
                        !stop ==> im_skip(t@, i0 + 2) == im_skip(t@, i as int),
                    decreases n - i + if stop {
                        0int
                    } else {
                        1int
                    },
                {
                    if t[i] == '$' && t[i + 1] == '$' {
                        i = i + 2;
                        stop = true;
                    } else {
                        i = i + 1;
                    }
                }
                assert(im_scan(t@, i0 as int) == im_scan(t@, i as int));
            } else if t[i] == '$' {
                let start = i;
                i = i + 1;
                while i < n && t[i] != '$'
                    invariant
                        n == t@.len(),
                        start + 1 <= i <= n,
                        im_close(t@, start + 1) == im_close(t@, i as int),
                    decreases n - i,
                {
                    i = i + 1;
                }
                if i < n {
                    let ghost d0 = done;
                    if i > start + 1 {
                        self.check_span(re, t, start + 1, i, line_number, "math", errors);
                        proof {
                            done = done.push(((start + 1) as int, i as int));
                            assert(done.drop_last() =~= d0);
                        }
                    }
                    assert(d0 + im_scan(t@, start as int) =~= done + im_scan(t@, i + 1));
                    i = i + 1;
                } else {
                    assert(im_scan(t@, start as int) =~= seq![]);
                }
            } else {
                i = i + 1;
            }
        }
    }

    pub fn lint(&self, params: &RuleParams) -> (errors: Vec<LintError>)
        requires
            lines_fit(params.lines@),
        ensures
            errors_view(errors@) == md059_errors(views(params.lines@)),
    {
        let lines = params.lines;
        let ghost ls = views(lines@);
        let mut errors: Vec<LintError> = Vec::new();
        let re = match compile("(?:^|[^\\\\])(_[^_\\\\]+_)") {
            Some(p) => p,
            None => {
                assert(errors_view(errors@) =~= seq![]);
                return errors;
            },
        };
        let mut in_display_math = false;
        let n = lines.len();
        let mut i: usize = 0;
        assert(errors_view(errors@) =~= seq![]);
        while i < n
            invariant
                n == lines@.len(),
                i <= n,
                ls == views(lines@),
                lines_fit(lines@),
                re@ == em_pattern(),
                (in_display_math, errors_view(errors@)) == md059_scan(ls, i as int),
            decreases n - i,
        {
            proof {
                assert(byte_len(lines@[i as int]@) <= isize::MAX);
                crate::text::lemma_strip_eol_prefix(lines@[i as int]@);
                crate::text::lemma_byte_len_trims(lines@[i as int]@, '\n');
            }
            let t = strip_eol_vec(&chars_of(lines[i]));
            let ghost b = errors_view(errors@);
            if eq_str(&trim_vec(&t), "$$") {
                in_display_math = !in_display_math;
            } else if in_display_math {
                self.check_line_for_emphasis(&re, &t, i + 1, 0, "display math", &mut errors);
            } else {
                self.check_inline_display_math(&re, &t, i + 1, &mut errors);
                self.check_inline_math(&re, &t, i + 1, &mut errors);
                assert(errors_view(errors@) =~= b + spans_errors(t@, i + 1, disp_scan(t@, 0), "display math"@)
                    + spans_errors(t@, i + 1, im_scan(t@, 0), "math"@));
            }
            i = i + 1;
        }
        errors
    }
}

/// The number of matches among the first `k` of `caps` whose underscore
/// pair (group 1) took part.
pub open spec fn pair_count(caps: Seq<Seq<Option<(usize, usize)>>>, k: int) -> nat
    decreases k,
{
    if k <= 0 {
        0
    } else {
        pair_count(caps, k - 1) + if caps[k - 1].len() > 1 && caps[k - 1][1] is Some {
            1nat
        } else {
            0nat
        }
    }
}

/// `e` is the finding for the underscore pair of one of the first `k`
/// matches.
pub open spec fn pair_finding(
    content: Seq<char>,
    ln: int,
    base: int,
    mt: Seq<char>,
    caps: Seq<Seq<Option<(usize, usize)>>>,
    k: int,
    e: LintErrorView,
) -> bool {
    exists|j: int|
        0 <= j < k && caps[j].len() > 1 && caps[j][1] is Some && e == md059_error(
            ln,
            content,
            base,
            mt,
            #[trigger] caps[j][1]->0,
        )
}

/// In math text, each match of an underscore pair gives exactly one
/// finding, on that pair, and there are no others.
pub proof fn lemma_md059_one_per_pair(
    content: Seq<char>,
    ln: int,
    base: int,
    mt: Seq<char>,
    caps: Seq<Seq<Option<(usize, usize)>>>,
    k: int,
)
    requires
        0 <= k <= caps.len(),
    ensures
        emphasis_errs(content, ln, base, mt, caps, k).len() == pair_count(caps, k),
        forall|i: int|
            0 <= i < emphasis_errs(content, ln, base, mt, caps, k).len() ==> pair_finding(
                content,
                ln,
                base,
                mt,
                caps,
                k,
                #[trigger] emphasis_errs(content, ln, base, mt, caps, k)[i],
            ),
    decreases k,
{
    if k > 0 {
        lemma_md059_one_per_pair(content, ln, base, mt, caps, k - 1);
        let prev = emphasis_errs(content, ln, base, mt, caps, k - 1);
        let cur = emphasis_errs(content, ln, base, mt, caps, k);
        assert forall|i: int| 0 <= i < cur.len() implies pair_finding(content, ln, base, mt, caps, k, #[trigger] cur[i]) by {
            if i < prev.len() {
                assert(cur[i] == prev[i]);
                assert(pair_finding(content, ln, base, mt, caps, k - 1, prev[i]));
                let j = choose|j: int|
                    0 <= j < k - 1 && caps[j].len() > 1 && caps[j][1] is Some && prev[i] == md059_error(
                        ln,
                        content,
                        base,
                        mt,
                        #[trigger] caps[j][1]->0,
                    );
                assert(cur[i] == md059_error(ln, content, base, mt, caps[j][1]->0));
            } else {
                assert(cur[i] == md059_error(ln, content, base, mt, caps[k - 1][1]->0));
            }
        }
    }
}

} // verus!
