//! MD024 - Multiple headings with the same content.
//!
//! A heading whose trimmed text repeats that of an earlier heading is
//! reported with its occurrence number, and a fix that appends
//! " (N)" after the text on its line.

use vstd::prelude::*;
use crate::text::{
    byte_len, chars_of, decimal, eq_vec, find_from, find_in, lemma_byte_len_concat,
    lemma_byte_len_take, lemma_find_from_bounds, push_chars, push_decimal, push_str, slice_chars,
    string_of, text, trim, trim_vec, utf8_byte_len, vec_views, views,
};
use crate::types::{
    base_error, errors_view, fix_view, lines_fit, names_view, opt_str, FixInfo, LintError,
    LintErrorView, ParserType, RuleMeta, RuleParams, Token,
};

verus! {

pub struct MD024;

pub open spec fn md024_meta() -> RuleMeta {
    RuleMeta {
        names: seq!["MD024"@, "no-duplicate-heading"@, "no-duplicate-header"@],
        description: "Multiple headings with the same content"@,
        information: Some("https://github.com/DavidAnson/markdownlint/blob/main/doc/md024.md"@),
    }
}

/// The number of entries of `seen` equal to `x`.
pub open spec fn count_in(seen: Seq<Seq<char>>, x: Seq<char>) -> nat
    decreases seen.len(),
{
    if seen.len() == 0 {
        0
    } else {
        count_in(seen.drop_last(), x) + if seen.last() == x {
            1nat
        } else {
            0nat
        }
    }
}

/// The line of a heading (empty when outside the document).
pub open spec fn line_of(ls: Seq<Seq<char>>, ln: usize) -> Seq<char> {
    if 1 <= ln <= ls.len() {
        ls[ln - 1]
    } else {
        seq![]
    }
}

pub open spec fn md024_error(ln: usize, norm: Seq<char>, count: nat, pos: nat) -> LintErrorView {
    LintErrorView {
        detail: Some("Duplicate heading: '"@ + norm + "' (occurrence #"@ + decimal(count) + ")"@),
        context: Some(norm),
        fix: Some(
            fix_view(
                None,
                Some((pos + byte_len(norm) + 1) as usize),
                None,
                Some(" ("@ + decimal(count) + ")"@),
            ),
        ),
        suggestion: Some(
            "Disambiguate by appending a number: '"@ + norm + " ("@ + decimal(count) + ")'"@,
        ),
        ..base_error(md024_meta(), ln as int)
    }
}

/// The trimmed texts seen so far, the findings, and whether every
/// duplicate heading lies on a line of the document, after `n` tokens.
pub open spec fn md024_scan(ls: Seq<Seq<char>>, toks: Seq<Token>, n: int) -> (Seq<Seq<char>>, Seq<LintErrorView>, bool)
    decreases n,
{
    if n <= 0 {
        (seq![], seq![], true)
    } else {
        let prev = md024_scan(ls, toks, n - 1);
        let t = toks[n - 1];
        let norm = trim(t.text@);
        if t.token_type@ == "heading"@ && norm.len() > 0 {
            let seen = prev.0.push(norm);
            let count = count_in(seen, norm);
            if count > 1 {
                let ln = t.start_line;
                let safe = prev.2 && 1 <= ln <= ls.len();
                let line = line_of(ls, ln);
                let pos = find_from(line, norm, 0);
                if pos >= 0 {
                    (
                        seen,
                        prev.1.push(md024_error(ln, norm, count, byte_len(line.take(pos)))),
                        safe,
                    )
                } else {
                    (seen, prev.1, safe)
                }
            } else {
                (seen, prev.1, prev.2)
            }
        } else {
            prev
        }
    }
}

/// The findings of MD024.
pub open spec fn md024_errors(ls: Seq<Seq<char>>, toks: Seq<Token>) -> Seq<LintErrorView> {
    md024_scan(ls, toks, toks.len() as int).1
}

/// Every repeated heading lies on a line of the document.
pub open spec fn md024_safe(ls: Seq<Seq<char>>, toks: Seq<Token>) -> bool {
    md024_scan(ls, toks, toks.len() as int).2
}

proof fn lemma_scan_safe_prefix(ls: Seq<Seq<char>>, toks: Seq<Token>, k: int, m: int)
    requires
        0 <= k <= m,
        md024_scan(ls, toks, m).2,
    ensures
        md024_scan(ls, toks, k).2,
    decreases m - k,
{
    if k < m {
        lemma_scan_safe_prefix(ls, toks, k, m - 1);
    }
}

proof fn lemma_scan_len(ls: Seq<Seq<char>>, toks: Seq<Token>, k: int)
    requires
        0 <= k <= toks.len(),
    ensures
        md024_scan(ls, toks, k).0.len() <= k,
    decreases k,
{
    if k > 0 {
        lemma_scan_len(ls, toks, k - 1);
    }
}

/// The number of entries of `seen` equal to `x`.
fn count_equal(seen: &Vec<Vec<char>>, x: &Vec<char>) -> (r: usize)
    ensures
        r == count_in(vec_views(seen@), x@),
{
    let mut r: usize = 0;
    let mut i: usize = 0;
    while i < seen.len()
        invariant
            i <= seen@.len(),
            r <= i,
            r == count_in(vec_views(seen@).take(i as int), x@),
        decreases seen@.len() - i,
    {
        assert(vec_views(seen@).take(i + 1).drop_last() =~= vec_views(seen@).take(i as int));
        if eq_vec(&seen[i], x) {
            r = r + 1;
        }
        i = i + 1;
    }
    assert(vec_views(seen@).take(i as int) =~= vec_views(seen@));
    r
}

impl MD024 {
    pub fn names(&self) -> (r: Vec<&'static str>)
        ensures
            names_view(r@) == md024_meta().names,
    {
        let r = vec!["MD024", "no-duplicate-heading", "no-duplicate-header"];
        assert(names_view(r@) =~= md024_meta().names);
        r
    }

    pub fn description(&self) -> (r: &'static str)
        ensures
            r@ == md024_meta().description,
    {
        "Multiple headings with the same content"
    }

    pub fn tags(&self) -> (r: Vec<&'static str>)
        ensures
            names_view(r@) == seq!["headings"@, "headers"@, "fixable"@],
    {
        let r = vec!["headings", "headers", "fixable"];
        assert(names_view(r@) =~= seq!["headings"@, "headers"@, "fixable"@]);
        r
    }

    pub fn parser_type(&self) -> (r: ParserType)
        ensures
            r == ParserType::Micromark,
    {
        ParserType::Micromark
    }

    pub fn information(&self) -> (r: Option<&'static str>)
        ensures
            opt_str(r) == md024_meta().information,
    {
        Some("https://github.com/DavidAnson/markdownlint/blob/main/doc/md024.md")
    }

    pub fn lint(&self, params: &RuleParams) -> (errors: Vec<LintError>)
        requires
            lines_fit(params.lines@),
            md024_safe(views(params.lines@), params.tokens@),
        ensures
            errors_view(errors@) == md024_errors(views(params.lines@), params.tokens@),
    {
        let lines = params.lines;
        let tokens = params.tokens;
        let ghost ls = views(lines@);
        let names = self.names();
        let mut errors: Vec<LintError> = Vec::new();
        let mut seen: Vec<Vec<char>> = Vec::new();
        let n = tokens.len();
        let mut i: usize = 0;
        assert(errors_view(errors@) =~= seq![]);
        assert(vec_views(seen@) =~= seq![]);
        while i < n
            invariant
                n == tokens@.len(),
                i <= n,
                ls == views(lines@),
                lines_fit(lines@),
                md024_scan(ls, tokens@, n as int).2,
                names_view(names@) == md024_meta().names,
                vec_views(seen@) == md024_scan(ls, tokens@, i as int).0,
                errors_view(errors@) == md024_scan(ls, tokens@, i as int).1,
            decreases n - i,
        {
            proof {
                lemma_scan_safe_prefix(ls, tokens@, i + 1, n as int);
                lemma_scan_len(ls, tokens@, i as int);
            }
            let heading = &tokens[i];
            let norm = trim_vec(&chars_of(heading.text.as_str()));
            if heading.is_type("heading") && norm.len() > 0 {
                let ghost s0 = vec_views(seen@);
                seen.push(norm.clone());
                assert(vec_views(seen@) =~= s0.push(norm@));
                let count = count_equal(&seen, &norm);
                if count > 1 {
                    let ln = heading.start_line;
                    let line = chars_of(lines[ln - 1]);
                    assert(line@ == line_of(ls, ln));
                    let ns = string_of(&norm);
                    match find_in(&line, ns.as_str()) {
                        Some(pos) => {
                            let pre = slice_chars(&line, 0, pos);
                            proof {
                                assert(byte_len(lines@[ln - 1]@) <= isize::MAX);
                                lemma_find_from_bounds(line@, norm@, 0);
                                assert(pre@ =~= line@.take(pos as int));
                                assert(line@.take(pos as int) + norm@ =~= line@.take(pos + norm@.len()));
                                lemma_byte_len_concat(line@.take(pos as int), norm@);
                                lemma_byte_len_take(line@, pos + norm@.len());
                            }
                            let bpos = utf8_byte_len(&pre);
                            let nlen = utf8_byte_len(&norm);
                            let mut d = text("Duplicate heading: '");
                            push_chars(&mut d, &norm);
                            push_str(&mut d, "' (occurrence #");
                            push_decimal(&mut d, count);
                            push_str(&mut d, ")");
                            let mut ins = text(" (");
                            push_decimal(&mut ins, count);
                            push_str(&mut ins, ")");
                            let mut sug = text("Disambiguate by appending a number: '");
                            push_chars(&mut sug, &norm);
                            push_str(&mut sug, " (");
                            push_decimal(&mut sug, count);
                            push_str(&mut sug, ")'");
                            let mut e = LintError::new(ln, &names, self.description(), self.information());
                            e.error_detail = Some(d);
                            e.error_context = Some(ns);
                            e.fix_info = Some(
                                FixInfo {
                                    line_number: None,
                                    edit_column: Some(bpos + nlen + 1),
                                    delete_count: None,
                                    insert_text: Some(ins),
                                },
                            );
                            e.suggestion = Some(sug);
                            let ghost b = errors_view(errors@);
                            errors.push(e);
                            assert(errors_view(errors@) =~= b.push(
                                md024_error(ln, norm@, count as nat, bpos as nat),
                            ));
                        },
                        None => {},
                    }
                }
            }
            i = i + 1;
        }
        errors
    }
}

} // verus!
