//! MD026 - Trailing punctuation in heading.
//!
//! Reports an ATX heading whose text ends with one of `.,;:!?`. Columns count
//! bytes from 1.

use vstd::prelude::*;
use crate::text::{
    byte_len, chars_of, push_char, push_str, slice_chars, starts_with, starts_with_str, string_of,
    text, trim, trim_end, trim_end_vec, trim_start, trim_start_vec, trim_vec, utf8_byte_len, views,
};
use crate::types::{
    base_error, errors_view, fix_view, lines_fit, names_view, opt_str, FixInfo, LintError,
    LintErrorView, ParserType, RuleMeta, RuleParams,
};

use crate::text::{
    leading_count, leading_len, lemma_byte_len_trims, trim_end_char, trim_end_char_vec, utf8_len,
    char_utf8_len,
};

verus! {

pub struct MD026;

pub open spec fn md026_meta() -> RuleMeta {
    RuleMeta {
        names: seq!["MD026"@, "no-trailing-punctuation"@],
        description: "Trailing punctuation in heading"@,
        information: Some("https://github.com/DavidAnson/markdownlint/blob/main/doc/md026.md"@),
    }
}

pub open spec fn is_punct(c: char) -> bool {
    c == '.' || c == ',' || c == ';' || c == ':' || c == '!' || c == '?'
}

/// The text of an ATX heading line (one to six hashes), without closing
/// hashes.
pub open spec fn heading_content(line: Seq<char>) -> Option<Seq<char>> {
    let t = trim(line);
    let hc = leading_count(t, '#');
    if starts_with(t, "#"@) && hc > 0 && hc <= 6 {
        Some(trim_end(trim_end_char(trim(t.skip(hc as int)), '#')))
    } else {
        None
    }
}

/// The 1-based byte column of the last character of the heading text.
pub open spec fn punct_column(line: Seq<char>) -> int {
    let t = trim(line);
    let hc = leading_count(t, '#');
    let c = trim_end(trim_end_char(trim(t.skip(hc as int)), '#'));
    let lead = byte_len(line) - byte_len(trim_start(line));
    let off = byte_len(t) - byte_len(trim_start(t.skip(hc as int)));
    lead + off + byte_len(c) - utf8_len(c.last()) + 1
}

pub open spec fn md026_error(line: Seq<char>, i: int) -> LintErrorView {
    let c = heading_content(line).unwrap();
    LintErrorView {
        detail: Some("Punctuation: '"@ + seq![c.last()] + "'"@),
        context: Some(c),
        fix: Some(fix_view(None, Some(punct_column(line) as usize), Some(utf8_len(c.last()) as i32), None)),
        suggestion: Some("Remove trailing punctuation from heading"@),
        ..base_error(md026_meta(), i + 1)
    }
}

pub open spec fn md026_flagged(line: Seq<char>) -> bool {
    match heading_content(line) {
        Some(c) => c.len() > 0 && is_punct(c.last()),
        None => false,
    }
}

pub open spec fn md026_scan(ls: Seq<Seq<char>>, n: int) -> Seq<LintErrorView>
    decreases n,
{
    if n <= 0 {
        seq![]
    } else {
        let prev = md026_scan(ls, n - 1);
        if md026_flagged(ls[n - 1]) {
            prev.push(md026_error(ls[n - 1], n - 1))
        } else {
            prev
        }
    }
}

/// The findings of MD026.
pub open spec fn md026_errors(ls: Seq<Seq<char>>) -> Seq<LintErrorView> {
    md026_scan(ls, ls.len() as int)
}

impl MD026 {
    pub fn names(&self) -> (r: Vec<&'static str>)
        ensures
            names_view(r@) == md026_meta().names,
    {
        let r = vec!["MD026", "no-trailing-punctuation"];
        assert(names_view(r@) =~= md026_meta().names);
        r
    }

    pub fn description(&self) -> (r: &'static str)
        ensures
            r@ == md026_meta().description,
    {
        "Trailing punctuation in heading"
    }

    pub fn tags(&self) -> (r: Vec<&'static str>)
        ensures
            names_view(r@) == seq!["headings"@, "fixable"@],
    {
        let r = vec!["headings", "fixable"];
        assert(names_view(r@) =~= seq!["headings"@, "fixable"@]);
        r
    }

    pub fn parser_type(&self) -> (r: ParserType)
        ensures
            r == ParserType::Plain,
    {
        ParserType::Plain
    }

    pub fn information(&self) -> (r: Option<&'static str>)
        ensures
            opt_str(r) == md026_meta().information,
    {
        Some("https://github.com/DavidAnson/markdownlint/blob/main/doc/md026.md")
    }

    pub fn lint(&self, params: &RuleParams) -> (errors: Vec<LintError>)
        requires
            lines_fit(params.lines@),
        ensures
            errors_view(errors@) == md026_errors(views(params.lines@)),
    {
        let lines = params.lines;
        let ghost ls = views(lines@);
        let names = self.names();
        let mut errors: Vec<LintError> = Vec::new();
        let n = lines.len();
        let mut i: usize = 0;
        while i < n
            invariant
                n == lines@.len(),
                i <= n,
                ls == views(lines@),
                lines_fit(lines@),
                names_view(names@) == md026_meta().names,
                errors_view(errors@) == md026_scan(ls, i as int),
            decreases n - i,
        {
            let ghost before = errors@;
            let v = chars_of(lines[i]);
            let t = trim_vec(&v);
            let hash_count = leading_len(&t, '#');
            if starts_with_str(&t, "#") && hash_count > 0 && hash_count <= 6 {
                let after = slice_chars(&t, hash_count, t.len());
                assert(after@ =~= t@.skip(hash_count as int));
                let a1 = trim_vec(&after);
                let a2 = trim_end_char_vec(&a1, '#');
                let content = trim_end_vec(&a2);
                if content.len() > 0 {
                    let last_char = content[content.len() - 1];
                    if last_char == '.' || last_char == ',' || last_char == ';' || last_char == ':' || last_char == '!' || last_char == '?' {
                        let ts = trim_start_vec(&v);
                        let as_ = trim_start_vec(&after);
                        proof {
                            assert(byte_len(lines@[i as int]@) <= isize::MAX);
                            lemma_byte_len_trims(v@, '#');
                            lemma_byte_len_trims(t@, '#');
                            crate::text::lemma_byte_len_subrange(t@, hash_count as int, t@.len() as int);
                            assert(after@ =~= t@.subrange(hash_count as int, t@.len() as int));
                            lemma_byte_len_trims(after@, '#');
                            lemma_byte_len_trims(a1@, '#');
                            lemma_byte_len_trims(a2@, '#');
                            crate::text::lemma_byte_len_concat(content@.drop_last(), seq![last_char]);
                            assert(content@.drop_last() + seq![last_char] =~= content@);
                        }
                        let total = utf8_byte_len(&v);
                        let rest = utf8_byte_len(&ts);
                        let tlen = utf8_byte_len(&t);
                        let alen = utf8_byte_len(&as_);
                        let clen = utf8_byte_len(&content);
                        let plen = char_utf8_len(last_char);
                        assert(byte_len(content@.drop_last()) >= 0);
                        let wide: u128 = (total - rest) as u128 + (tlen - alen) as u128 + (clen - plen) as u128 + 1;
                        let col = wide as usize;
                        let mut e = LintError::new(i + 1, &names, self.description(), self.information());
                        let mut d = text("Punctuation: '");
                        push_char(&mut d, last_char);
                        push_str(&mut d, "'");
                        e.error_detail = Some(d);
                        e.error_context = Some(string_of(&content));
                        e.fix_info = Some(
                            FixInfo {
                                line_number: None,
                                edit_column: Some(col),
                                delete_count: Some(plen as i32),
                                insert_text: None,
                            },
                        );
                        e.suggestion = Some(text("Remove trailing punctuation from heading"));
                        assert(v@ == ls[i as int]);
                        assert(heading_content(ls[i as int]) == Some(content@));
                        assert(content@.last() == last_char);
                        assert(d@ =~= "Punctuation: '"@ + seq![last_char] + "'"@);
                        assert(col == punct_column(ls[i as int]) as usize);
                        errors.push(e);
                        assert(errors_view(errors@) =~= errors_view(before).push(md026_error(ls[i as int], i as int)));
                    }
                }
            }
            i = i + 1;
        }
        errors
    }
}

/// The punctuation marks that end a reported heading.
pub open spec fn ends_in_mark(c: Seq<char>) -> bool {
    c.len() > 0 && (c.last() == '.' || c.last() == ',' || c.last() == ';' || c.last() == ':' || c.last() == '!'
        || c.last() == '?')
}

/// Some finding of `es` is on line `ln`, with the heading text `c` as
/// context and the detail naming its last character.
pub open spec fn punct_reported(es: Seq<LintErrorView>, ln: int, c: Seq<char>) -> bool {
    exists|j: int|
        0 <= j < es.len() && #[trigger] es[j].line_number == ln && es[j].detail == Some(
            "Punctuation: '"@ + seq![c.last()] + "'"@,
        ) && es[j].context == Some(c)
}

/// Some finding of `es` is on line `ln`.
pub open spec fn any_on_line(es: Seq<LintErrorView>, ln: int) -> bool {
    exists|j: int| 0 <= j < es.len() && #[trigger] es[j].line_number == ln
}

proof fn lemma_md026_scan_lines(ls: Seq<Seq<char>>, n: int)
    requires
        0 <= n <= ls.len(),
    ensures
        forall|j: int|
            0 <= j < md026_scan(ls, n).len() ==> 1 <= #[trigger] md026_scan(ls, n)[j].line_number <= n
                && md026_flagged(ls[md026_scan(ls, n)[j].line_number - 1]),
        forall|k: int|
            0 <= k < n && #[trigger] md026_flagged(ls[k]) ==> md026_scan(ls, n).contains(md026_error(ls[k], k)),
    decreases n,
{
    if n > 0 {
        lemma_md026_scan_lines(ls, n - 1);
        let prev = md026_scan(ls, n - 1);
        let cur = md026_scan(ls, n);
        if md026_flagged(ls[n - 1]) {
            assert(cur == prev.push(md026_error(ls[n - 1], n - 1)));
            assert forall|j: int| 0 <= j < cur.len() implies 1 <= #[trigger] cur[j].line_number <= n
                && md026_flagged(ls[cur[j].line_number - 1]) by {
                if j < prev.len() {
                    assert(cur[j] == prev[j]);
                }
            }
            assert forall|k: int| 0 <= k < n && #[trigger] md026_flagged(ls[k]) implies cur.contains(
                md026_error(ls[k], k),
            ) by {
                if k < n - 1 {
                    let j = choose|j: int| 0 <= j < prev.len() && prev[j] == md026_error(ls[k], k);
                    assert(cur[j] == prev[j]);
                } else {
                    assert(cur[prev.len() as int] == md026_error(ls[k], k));
                }
            }
        }
    }
}

/// An ATX heading whose text ends in one of `. , ; : ! ?` is reported on
/// its line, the detail naming that mark; a line that is no heading, or
/// whose heading text ends otherwise, gets no finding.
pub proof fn lemma_md026_marks(ls: Seq<Seq<char>>)
    ensures
        forall|k: int|
            0 <= k < ls.len() && #[trigger] heading_content(ls[k]) is Some && ends_in_mark(
                heading_content(ls[k]).unwrap(),
            ) ==> punct_reported(md026_errors(ls), k + 1, heading_content(ls[k]).unwrap()),
        forall|k: int|
            0 <= k < ls.len() && !(#[trigger] heading_content(ls[k]) is Some && ends_in_mark(
                heading_content(ls[k]).unwrap(),
            )) ==> !any_on_line(md026_errors(ls), k + 1),
{
    let es = md026_errors(ls);
    lemma_md026_scan_lines(ls, ls.len() as int);
    assert forall|k: int|
        0 <= k < ls.len() && #[trigger] heading_content(ls[k]) is Some && ends_in_mark(
            heading_content(ls[k]).unwrap(),
        ) implies punct_reported(es, k + 1, heading_content(ls[k]).unwrap()) by {
        assert(md026_flagged(ls[k]));
        let j = choose|j: int| 0 <= j < es.len() && es[j] == md026_error(ls[k], k);
        assert(es[j].line_number == k + 1);
    }
    assert forall|k: int|
        0 <= k < ls.len() && !(#[trigger] heading_content(ls[k]) is Some && ends_in_mark(
            heading_content(ls[k]).unwrap(),
        )) implies !any_on_line(es, k + 1) by {
        if any_on_line(es, k + 1) {
            let j = choose|j: int| 0 <= j < es.len() && #[trigger] es[j].line_number == k + 1;
            assert(md026_flagged(ls[k]));
        }
    }
}

} // verus!
