//! MD034 - Bare URL used.
//!
//! In a line without link syntax (`](` or `<http`), every `http://` or
//! `https://` URL is reported, with a fix that wraps it in angle brackets.

use vstd::prelude::*;
use crate::text::{byte_len, byte_slice, byte_slice_chars, chars_of, contains_seq, contains_str, push_chars, push_str, string_of, text, views};
use crate::types::{
    base_error, errors_view, fix_view, lines_fit, names_view, opt_str, FixInfo, LintError,
    LintErrorView, ParserType, RuleMeta, RuleParams,
};
use crate::pattern::{compile, find_all, regex_compiles, regex_find_all, span_in};

verus! {

pub struct MD034;

pub open spec fn md034_meta() -> RuleMeta {
    RuleMeta {
        names: seq!["MD034"@, "no-bare-urls"@],
        description: "Bare URL used"@,
        information: Some("https://github.com/DavidAnson/markdownlint/blob/main/doc/md034.md"@),
    }
}

/// An `http` or `https` URL, up to whitespace or an angle bracket.
pub open spec fn url_pattern() -> Seq<char> {
    "https?://[^\\s<>]+"@
}

pub open spec fn md034_error(ln: int, t: Seq<char>, s: (usize, usize)) -> LintErrorView {
    let url = byte_slice(t, s.0 as int, s.1 as int);
    LintErrorView {
        context: Some(url),
        range: Some(((s.0 + 1) as usize, (s.1 - s.0) as usize)),
        fix: Some(
            fix_view(None, Some((s.0 + 1) as usize), Some((s.1 - s.0) as i32), Some("<"@ + url + ">"@)),
        ),
        suggestion: Some("Use angle brackets for bare URLs: <http://example.com>"@),
        ..base_error(md034_meta(), ln)
    }
}

/// The findings for the first `k` matches `ms` in line `ln`.
pub open spec fn match_errors(t: Seq<char>, ln: int, ms: Seq<(usize, usize)>, k: int) -> Seq<LintErrorView>
    decreases k,
{
    if k <= 0 {
        seq![]
    } else {
        match_errors(t, ln, ms, k - 1).push(md034_error(ln, t, ms[k - 1]))
    }
}

/// A line with link syntax, whose URLs are not bare.
pub open spec fn has_link_syntax(t: Seq<char>) -> bool {
    contains_seq(t, "]("@) || contains_seq(t, "<http"@)
}

pub open spec fn md034_scan(ls: Seq<Seq<char>>, n: int) -> Seq<LintErrorView>
    decreases n,
{
    if n <= 0 {
        seq![]
    } else if has_link_syntax(ls[n - 1]) {
        md034_scan(ls, n - 1)
    } else {
        let ms = regex_find_all(url_pattern(), ls[n - 1]);
        md034_scan(ls, n - 1) + match_errors(ls[n - 1], n, ms, ms.len() as int)
    }
}

/// The findings of MD034 (none where the pattern is refused).
pub open spec fn md034_errors(ls: Seq<Seq<char>>) -> Seq<LintErrorView> {
    if regex_compiles(url_pattern()) {
        md034_scan(ls, ls.len() as int)
    } else {
        seq![]
    }
}

impl MD034 {
    pub fn names(&self) -> (r: Vec<&'static str>)
        ensures
            names_view(r@) == md034_meta().names,
    {
        let r = vec!["MD034", "no-bare-urls"];
        assert(names_view(r@) =~= md034_meta().names);
        r
    }

    pub fn description(&self) -> (r: &'static str)
        ensures
            r@ == md034_meta().description,
    {
        "Bare URL used"
    }

    pub fn tags(&self) -> (r: Vec<&'static str>)
        ensures
            names_view(r@) == seq!["links"@, "url"@, "fixable"@],
    {
        let r = vec!["links", "url", "fixable"];
        assert(names_view(r@) =~= seq!["links"@, "url"@, "fixable"@]);
        r
    }

    pub fn parser_type(&self) -> (r: ParserType)
        ensures
            r == ParserType::Plain,
    {
        ParserType::Plain
    }

    pub fn information(&self) -> (r: Option<&'static str>)
        ensures
            opt_str(r) == md034_meta().information,
    {
        Some("https://github.com/DavidAnson/markdownlint/blob/main/doc/md034.md")
    }

    pub fn lint(&self, params: &RuleParams) -> (errors: Vec<LintError>)
        requires
            lines_fit(params.lines@),
        ensures
            errors_view(errors@) == md034_errors(views(params.lines@)),
    {
        let lines = params.lines;
        let ghost ls = views(lines@);
        let mut errors: Vec<LintError> = Vec::new();
        let re = match compile("https?://[^\\s<>]+") {
            Some(p) => p,
            None => {
                assert(errors_view(errors@) =~= seq![]);
                return errors;
            },
        };
        let names = self.names();
        let n = lines.len();
        let mut i: usize = 0;
        assert(errors_view(errors@) =~= seq![]);
        while i < n
            invariant
                n == lines@.len(),
                i <= n,
                ls == views(lines@),
                lines_fit(lines@),
                re@ == url_pattern(),
                names_view(names@) == md034_meta().names,
                errors_view(errors@) == md034_scan(ls, i as int),
            decreases n - i,
        {
            let v = chars_of(lines[i]);
            if !contains_str(&v, "](") && !contains_str(&v, "<http") {
                assert(byte_len(lines@[i as int]@) <= isize::MAX);
                let ms = find_all(&re, lines[i]);
                let ghost e0 = errors_view(errors@);
                let mut k: usize = 0;
                while k < ms.len()
                    invariant
                        k <= ms@.len(),
                        i < n,
                        v@ == ls[i as int],
                        byte_len(v@) <= isize::MAX,
                        ms@ == regex_find_all(url_pattern(), v@),
                        forall|q: int| 0 <= q < ms@.len() ==> span_in(v@, #[trigger] ms@[q]),
                        names_view(names@) == md034_meta().names,
                        errors_view(errors@) == e0 + match_errors(v@, i + 1, ms@, k as int),
                    decreases ms@.len() - k,
                {
                    let s = ms[k];
                    assert(span_in(v@, ms@[k as int]));
                    let url = byte_slice_chars(&v, s.0, s.1);
                    let mut ins = text("<");
                    push_chars(&mut ins, &url);
                    push_str(&mut ins, ">");
                    let len = s.1 - s.0;
                    let mut e = LintError::new(i + 1, &names, self.description(), self.information());
                    e.error_context = Some(string_of(&url));
                    e.error_range = Some((s.0 + 1, len));
                    e.fix_info = Some(
                        FixInfo {
                            line_number: None,
                            edit_column: Some(s.0 + 1),
                            delete_count: Some(len as i32),
                            insert_text: Some(ins),
                        },
                    );
                    e.suggestion = Some(text("Use angle brackets for bare URLs: <http://example.com>"));
                    let ghost b = errors_view(errors@);
                    errors.push(e);
                    assert(errors_view(errors@) =~= b.push(md034_error(i + 1, v@, s)));
                    k = k + 1;
                }
            }
            i = i + 1;
        }
        errors
    }
}

/// Some finding of `es` is on line `ln`.
pub open spec fn any_on_line(es: Seq<LintErrorView>, ln: int) -> bool {
    exists|j: int| 0 <= j < es.len() && #[trigger] es[j].line_number == ln
}

proof fn lemma_match_errors(t: Seq<char>, ln: int, ms: Seq<(usize, usize)>, k: int)
    requires
        0 <= k <= ms.len(),
    ensures
        match_errors(t, ln, ms, k).len() == k,
        forall|j: int| 0 <= j < k ==> #[trigger] match_errors(t, ln, ms, k)[j] == md034_error(ln, t, ms[j]),
    decreases k,
{
    if k > 0 {
        lemma_match_errors(t, ln, ms, k - 1);
        let prev = match_errors(t, ln, ms, k - 1);
        assert forall|j: int| 0 <= j < k implies #[trigger] match_errors(t, ln, ms, k)[j] == md034_error(ln, t, ms[j]) by {
            if j < k - 1 {
                assert(match_errors(t, ln, ms, k)[j] == prev[j]);
            }
        }
    }
}

proof fn lemma_md034_scan_lines(ls: Seq<Seq<char>>, n: int)
    requires
        0 <= n <= ls.len(),
    ensures
        forall|j: int|
            0 <= j < md034_scan(ls, n).len() ==> 1 <= #[trigger] md034_scan(ls, n)[j].line_number <= n
                && !contains_seq(ls[md034_scan(ls, n)[j].line_number - 1], "<http"@) && !contains_seq(
                ls[md034_scan(ls, n)[j].line_number - 1],
                "]("@,
            ),
        forall|k: int, q: int|
            0 <= k < n && !contains_seq(ls[k], "<http"@) && !contains_seq(ls[k], "]("@) && 0 <= q
                < regex_find_all(url_pattern(), ls[k]).len() ==> md034_scan(ls, n).contains(
                md034_error(k + 1, ls[k], #[trigger] regex_find_all(url_pattern(), ls[k])[q]),
            ),
    decreases n,
{
    if n > 0 {
        lemma_md034_scan_lines(ls, n - 1);
        let prev = md034_scan(ls, n - 1);
        let cur = md034_scan(ls, n);
        let line = ls[n - 1];
        if !has_link_syntax(line) {
            let ms = regex_find_all(url_pattern(), line);
            let add = match_errors(line, n, ms, ms.len() as int);
            lemma_match_errors(line, n, ms, ms.len() as int);
            assert(cur == prev + add);
            assert forall|j: int| 0 <= j < cur.len() implies 1 <= #[trigger] cur[j].line_number <= n
                && !contains_seq(ls[cur[j].line_number - 1], "<http"@) && !contains_seq(
                ls[cur[j].line_number - 1],
                "]("@,
            ) by {
                if j < prev.len() {
                    assert(cur[j] == prev[j]);
                } else {
                    assert(cur[j] == add[j - prev.len()]);
                }
            }
            assert forall|k: int, q: int|
                0 <= k < n && !contains_seq(ls[k], "<http"@) && !contains_seq(ls[k], "]("@) && 0 <= q
                    < regex_find_all(url_pattern(), ls[k]).len() implies cur.contains(
                md034_error(k + 1, ls[k], #[trigger] regex_find_all(url_pattern(), ls[k])[q]),
            ) by {
                if k < n - 1 {
                    let j = choose|j: int|
                        0 <= j < prev.len() && prev[j] == md034_error(k + 1, ls[k], regex_find_all(url_pattern(), ls[k])[q]);
                    assert(cur[j] == prev[j]);
                } else {
                    assert(cur[prev.len() + q] == add[q]);
                }
            }
        } else {
            assert(cur == prev);
        }
    }
}

/// Some finding of `es` on line `ln` reports the URL at byte span `m` of
/// `t`: its text as context, its range, and a fix that wraps it in angle
/// brackets.
pub open spec fn url_reported(es: Seq<LintErrorView>, ln: int, t: Seq<char>, m: (usize, usize)) -> bool {
    exists|j: int|
        0 <= j < es.len() && #[trigger] es[j].line_number == ln && es[j].context == Some(byte_slice(t, m.0 as int, m.1 as int))
            && es[j].range == Some(((m.0 + 1) as usize, (m.1 - m.0) as usize)) && es[j].fix is Some
            && es[j].fix.unwrap().edit_column == Some((m.0 + 1) as usize) && es[j].fix.unwrap().delete_count == Some(
            (m.1 - m.0) as i32,
        ) && es[j].fix.unwrap().insert_text == Some("<"@ + byte_slice(t, m.0 as int, m.1 as int) + ">"@)
}

/// A line holding link syntax (`](`) or an autolink (`<http`) gets no
/// finding; on any other line, every URL match is reported with its text,
/// its range and a fix that wraps it in angle brackets.
pub proof fn lemma_md034_bare_only(ls: Seq<Seq<char>>)
    ensures
        forall|k: int|
            0 <= k < ls.len() && (contains_seq(#[trigger] ls[k], "<http"@) || contains_seq(ls[k], "]("@))
                ==> !any_on_line(md034_errors(ls), k + 1),
        regex_compiles(url_pattern()) ==> forall|k: int, q: int|
            0 <= k < ls.len() && !contains_seq(ls[k], "<http"@) && !contains_seq(ls[k], "]("@) && 0 <= q
                < regex_find_all(url_pattern(), ls[k]).len() ==> url_reported(
                md034_errors(ls),
                k + 1,
                ls[k],
                #[trigger] regex_find_all(url_pattern(), ls[k])[q],
            ),
{
    let es = md034_errors(ls);
    lemma_md034_scan_lines(ls, ls.len() as int);
    assert forall|k: int|
        0 <= k < ls.len() && (contains_seq(#[trigger] ls[k], "<http"@) || contains_seq(ls[k], "]("@))
            implies !any_on_line(es, k + 1) by {
        if any_on_line(es, k + 1) {
            let j = choose|j: int| 0 <= j < es.len() && #[trigger] es[j].line_number == k + 1;
        }
    }
    if regex_compiles(url_pattern()) {
        assert forall|k: int, q: int|
            0 <= k < ls.len() && !contains_seq(ls[k], "<http"@) && !contains_seq(ls[k], "]("@) && 0 <= q
                < regex_find_all(url_pattern(), ls[k]).len() implies url_reported(
            es,
            k + 1,
            ls[k],
            #[trigger] regex_find_all(url_pattern(), ls[k])[q],
        ) by {
            let m = regex_find_all(url_pattern(), ls[k])[q];
            let j = choose|j: int| 0 <= j < es.len() && es[j] == md034_error(k + 1, ls[k], m);
            assert(es[j].line_number == k + 1);
        }
    }
}

} // verus!
