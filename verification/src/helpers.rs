//! Small predicates shared by several rules.

use vstd::prelude::*;
use crate::text::{
    char_is_alphanumeric, chars_of, decimal, eq_vec, is_alphanumeric, is_whitespace, is_ws,
    leading_count, leading_len, lowercase, lowercase_vec, push_decimal, push_str, slice_chars,
    starts_with, starts_with_str, string_of, text, trim, trim_end, trim_end_char, trim_end_char_vec,
    trim_end_vec, trim_vec, vec_views, views,
};
use crate::workspace::strings_view;

verus! {

/// A line (already trimmed) that opens or closes a fenced code block.
pub open spec fn code_fence(t: Seq<char>) -> bool {
    starts_with(t, "```"@) || starts_with(t, "~~~"@)
}

/// The trimmed line opens or closes a fenced code block.
pub fn is_code_fence(trimmed: &str) -> (r: bool)
    ensures
        r == code_fence(trimmed@),
{
    let v = chars_of(trimmed);
    starts_with_str(&v, "```") || starts_with_str(&v, "~~~")
}

/// What a character of a heading's lowercase text becomes in its anchor:
/// a space a hyphen; letters, digits, `-` and `_` themselves; the rest
/// nothing.
pub open spec fn anchor_char(c: char) -> Seq<char> {
    if c == ' ' {
        seq!['-']
    } else if char_is_alphanumeric(c) || c == '-' || c == '_' {
        seq![c]
    } else {
        seq![]
    }
}

pub open spec fn anchor_chars(s: Seq<char>) -> Seq<char>
    decreases s.len(),
{
    if s.len() == 0 {
        seq![]
    } else {
        anchor_chars(s.drop_last()) + anchor_char(s.last())
    }
}

/// The anchor of a heading text, before duplicates are numbered.
pub open spec fn heading_slug(text: Seq<char>) -> Seq<char> {
    anchor_chars(lowercase(text))
}

/// The text of an ATX heading (one to six `#` and a space, tab or the end
/// of the line), without a closing run of `#`; `None` for another line.
pub open spec fn atx_text(line: Seq<char>) -> Option<Seq<char>> {
    let t = trim(line);
    let h = leading_count(t, '#');
    if 1 <= h <= 6 && (h == t.len() || t[h as int] == ' ' || t[h as int] == '\t') {
        let body = trim(t.skip(h as int));
        let c = trim_end_char(body, '#');
        Some(
            if c.len() == 0 || is_ws(c.last()) {
                trim_end(c)
            } else {
                body
            },
        )
    } else {
        None
    }
}

/// The number of entries of `seen` equal to `x`.
pub open spec fn occurrences(seen: Seq<Seq<char>>, x: Seq<char>) -> nat
    decreases seen.len(),
{
    if seen.len() == 0 {
        0
    } else {
        occurrences(seen.drop_last(), x) + if seen.last() == x {
            1nat
        } else {
            0nat
        }
    }
}

/// After the first `n` lines: whether they end inside a fenced block, the
/// slugs seen, and the anchors (a repeated slug gets `-1`, `-2`, ...).
pub open spec fn heading_ids_scan(ls: Seq<Seq<char>>, n: int) -> (bool, Seq<Seq<char>>, Seq<Seq<char>>)
    decreases n,
{
    if n <= 0 {
        (false, seq![], seq![])
    } else {
        let prev = heading_ids_scan(ls, n - 1);
        if code_fence(trim(ls[n - 1])) {
            (!prev.0, prev.1, prev.2)
        } else if prev.0 {
            prev
        } else {
            match atx_text(ls[n - 1]) {
                Some(x) => {
                    let b = heading_slug(x);
                    let c = occurrences(prev.1, b);
                    (
                        prev.0,
                        prev.1.push(b),
                        prev.2.push(
                            if c == 0 {
                                b
                            } else {
                                b + "-"@ + decimal(c)
                            },
                        ),
                    )
                },
                None => prev,
            }
        }
    }
}

/// The anchors of the headings of a document, in order.
pub open spec fn heading_ids(ls: Seq<Seq<char>>) -> Seq<Seq<char>> {
    heading_ids_scan(ls, ls.len() as int).2
}

/// The anchor characters of `s`.
fn anchor_of(s: &Vec<char>) -> (r: Vec<char>)
    ensures
        r@ == anchor_chars(s@),
{
    let mut r: Vec<char> = Vec::new();
    let mut i: usize = 0;
    assert(s@.take(0) =~= seq![]);
    while i < s.len()
        invariant
            i <= s@.len(),
            r@ == anchor_chars(s@.take(i as int)),
        decreases s@.len() - i,
    {
        let c = s[i];
        assert(s@.take(i + 1).drop_last() =~= s@.take(i as int));
        if c == ' ' {
            r.push('-');
        } else if is_alphanumeric(c) || c == '-' || c == '_' {
            r.push(c);
        }
        assert(r@ =~= anchor_chars(s@.take(i + 1)));
        i = i + 1;
    }
    assert(s@.take(i as int) =~= s@);
    r
}

/// The text of the ATX heading on `line`, if it is one.
fn atx_heading_text(line: &str) -> (r: Option<Vec<char>>)
    ensures
        match r {
            Some(v) => atx_text(line@) == Some(v@),
            None => atx_text(line@).is_none(),
        },
{
    let t = trim_vec(&chars_of(line));
    let h = leading_len(&t, '#');
    if 1 <= h && h <= 6 && (h == t.len() || t[h] == ' ' || t[h] == '\t') {
        let rest = slice_chars(&t, h, t.len());
        assert(rest@ =~= t@.skip(h as int));
        let body = trim_vec(&rest);
        let c = trim_end_char_vec(&body, '#');
        if c.len() == 0 || is_whitespace(c[c.len() - 1]) {
            Some(trim_end_vec(&c))
        } else {
            Some(body)
        }
    } else {
        None
    }
}

/// The number of entries of `seen` equal to `x`.
fn count_seen(seen: &Vec<Vec<char>>, x: &Vec<char>) -> (r: usize)
    ensures
        r == occurrences(vec_views(seen@), x@),
{
    let mut r: usize = 0;
    let mut i: usize = 0;
    while i < seen.len()
        invariant
            i <= seen@.len(),
            r <= i,
            r == occurrences(vec_views(seen@).take(i as int), x@),
        decreases seen@.len() - i,
    {
        assert(vec_views(seen@).take(i + 1).drop_last() =~= vec_views(seen@).take(i as int));
        if eq_vec(&seen[i], x) {
            r = r + 1;
        }
        i = i + 1;
    }
    assert(vec_views(seen@).take(i as int) =~= vec_views(seen@));
    r
}

/// The anchors of the headings of a document, in order: each heading's
/// lowercase text with spaces as hyphens and punctuation dropped, a
/// repeated anchor numbered `-1`, `-2`, ... Lines in fenced code are
/// skipped.
pub fn collect_heading_ids(lines: &[&str]) -> (r: Vec<String>)
    ensures
        strings_view(r@) == heading_ids(views(lines@)),
{
    let ghost ls = views(lines@);
    let mut seen: Vec<Vec<char>> = Vec::new();
    let mut ids: Vec<String> = Vec::new();
    let mut in_code = false;
    let n = lines.len();
    let mut i: usize = 0;
    assert(vec_views(seen@) =~= seq![]);
    assert(strings_view(ids@) =~= seq![]);
    while i < n
        invariant
            n == lines@.len(),
            i <= n,
            ls == views(lines@),
            seen@.len() <= i,
            heading_ids_scan(ls, i as int) == (in_code, vec_views(seen@), strings_view(ids@)),
        decreases n - i,
    {
        let ts = string_of(&trim_vec(&chars_of(lines[i])));
        if is_code_fence(ts.as_str()) {
            in_code = !in_code;
        } else if !in_code {
            match atx_heading_text(lines[i]) {
                Some(x) => {
                    let b = anchor_of(&lowercase_vec(&x));
                    let c = count_seen(&seen, &b);
                    let ghost s0 = vec_views(seen@);
                    let ghost i0 = strings_view(ids@);
                    let mut id = string_of(&b);
                    if c != 0 {
                        push_str(&mut id, "-");
                        push_decimal(&mut id, c);
                    }
                    seen.push(b);
                    ids.push(id);
                    assert(vec_views(seen@) =~= s0.push(heading_slug(x@)));
                    assert(strings_view(ids@) =~= i0.push(id@));
                },
                None => {},
            }
        }
        i = i + 1;
    }
    ids
}

} // verus!
