//! MD043 - Required heading structure.
//!
//! With the `headings` option (a list of patterns such as `# Title`, `## *`
//! for any text at a level, or `#+` for any heading), the headings of the
//! document outside fenced code blocks must match the patterns one by one.

use vstd::prelude::*;
use crate::text::{
    chars_of, eq_str, eq_vec, push_str, slice_chars, starts_with, starts_with_str, string_of, text,
    trim, trim_vec, views,
};
use crate::types::{
    base_error, errors_view, names_view, opt_str, LintError, LintErrorView, ParserType, RuleMeta,
    RuleParams,
};

use crate::config::{ConfigValue};
use crate::text::{
    leading_count, leading_len, push_repeat, repeat_char, trim_end_char, trim_end_char_vec,
};

verus! {

pub struct MD043;

pub open spec fn md043_meta() -> RuleMeta {
    RuleMeta {
        names: seq!["MD043"@, "required-headings"@, "required-headers"@],
        description: "Required heading structure"@,
        information: Some("https://github.com/DavidAnson/markdownlint/blob/main/doc/md043.md"@),
    }
}

/// `(level, text)` of an ATX heading line of level at most 6.
pub open spec fn parsed_heading(line: Seq<char>) -> Option<(nat, Seq<char>)> {
    let t = trim(line);
    if !starts_with(t, "#"@) {
        None
    } else {
        let level = leading_count(t, '#');
        if level > 6 {
            None
        } else {
            Some((level, trim(trim_end_char(trim(t.skip(level as int)), '#'))))
        }
    }
}

/// A heading matches a pattern: `#+` matches any heading; otherwise the
/// levels agree and the pattern text is `*` or the heading text.
pub open spec fn heading_match(level: nat, text: Seq<char>, pattern: Seq<char>) -> bool {
    let p = trim(pattern);
    if p == "#+"@ {
        true
    } else {
        match parsed_heading(p) {
            Some((el, et)) => level == el && (et == "*"@ || text == et),
            None => false,
        }
    }
}

pub fn parse_heading(line: &str) -> (r: Option<(usize, String)>)
    ensures
        match r {
            Some((level, text)) => parsed_heading(line@) == Some((level as nat, text@)),
            None => parsed_heading(line@).is_none(),
        },
{
    let v = chars_of(line);
    let t = trim_vec(&v);
    if !starts_with_str(&t, "#") {
        return None;
    }
    let level = leading_len(&t, '#');
    if level > 6 {
        return None;
    }
    let a = slice_chars(&t, level, t.len());
    assert(a@ =~= t@.skip(level as int));
    let b = trim_vec(&a);
    let c = trim_end_char_vec(&b, '#');
    let d = trim_vec(&c);
    Some((level, string_of(&d)))
}

pub fn heading_matches(actual_level: usize, actual_text: &str, pattern: &str) -> (r: bool)
    ensures
        r == heading_match(actual_level as nat, actual_text@, pattern@),
{
    let pv = chars_of(pattern);
    let p = trim_vec(&pv);
    if eq_str(&p, "#+") {
        return true;
    }
    let ps = string_of(&p);
    match parse_heading(ps.as_str()) {
        Some((expected_level, expected_text)) => {
            if actual_level != expected_level {
                return false;
            }
            let et = chars_of(expected_text.as_str());
            if eq_str(&et, "*") {
                return true;
            }
            let at = chars_of(actual_text);
            eq_vec(&at, &et)
        },
        None => false,
    }
}

/// The strings of an array option, in order.
pub open spec fn array_strings(a: Seq<Option<String>>) -> Seq<Seq<char>>
    decreases a.len(),
{
    if a.len() == 0 {
        seq![]
    } else {
        let rest = array_strings(a.drop_last());
        match a.last() {
            Some(s) => rest.push(s@),
            None => rest,
        }
    }
}

/// The required patterns, when the option is an array.
pub open spec fn md043_required(params: RuleParams) -> Option<Seq<Seq<char>>> {
    match params.config.lookup("headings"@) {
        Some(ConfigValue::Array(a)) => Some(array_strings(a@)),
        _ => None,
    }
}

/// `(line number, level, text)` of the headings among the first `n` lines,
/// and whether line `n` is inside a fenced code block.
pub open spec fn md043_headings(ls: Seq<Seq<char>>, n: int) -> (bool, Seq<(int, nat, Seq<char>)>)
    decreases n,
{
    if n <= 0 {
        (false, seq![])
    } else {
        let st = md043_headings(ls, n - 1);
        let t = trim(ls[n - 1]);
        if starts_with(t, "```"@) || starts_with(t, "~~~"@) {
            (!st.0, st.1)
        } else if st.0 {
            st
        } else {
            match parsed_heading(t) {
                Some((level, text)) => (st.0, st.1.push((n, level, text))),
                None => st,
            }
        }
    }
}

pub open spec fn md043_error(line_number: int, detail: Seq<char>) -> LintErrorView {
    LintErrorView {
        detail: Some(detail),
        suggestion: Some("Follow the required heading structure"@),
        ..base_error(md043_meta(), line_number)
    }
}

pub open spec fn shown(h: (int, nat, Seq<char>)) -> Seq<char> {
    repeat_char('#', h.1) + " "@ + h.2
}

/// Findings for the first `k` required patterns.
pub open spec fn md043_compare(
    req: Seq<Seq<char>>,
    hs: Seq<(int, nat, Seq<char>)>,
    nlines: int,
    k: int,
) -> Seq<LintErrorView>
    decreases k,
{
    if k <= 0 {
        seq![]
    } else {
        let prev = md043_compare(req, hs, nlines, k - 1);
        let e = req[k - 1];
        if k - 1 >= hs.len() {
            prev.push(md043_error(nlines, "Expected: "@ + e))
        } else {
            let h = hs[k - 1];
            if !heading_match(h.1, h.2, e) {
                prev.push(md043_error(h.0, "Expected: "@ + e + "; Actual: "@ + shown(h)))
            } else {
                prev
            }
        }
    }
}

/// Findings for the headings from index `from` up to `k` that no pattern
/// was left for.
pub open spec fn md043_extra(hs: Seq<(int, nat, Seq<char>)>, from: int, k: int) -> Seq<LintErrorView>
    decreases k - from,
{
    if k <= from {
        seq![]
    } else {
        md043_extra(hs, from, k - 1).push(md043_error(hs[k - 1].0, "Extra heading: "@ + shown(hs[k - 1])))
    }
}

/// The findings of MD043.
pub open spec fn md043_errors(ls: Seq<Seq<char>>, req: Option<Seq<Seq<char>>>) -> Seq<LintErrorView> {
    match req {
        None => seq![],
        Some(r) => if r.len() == 0 {
            seq![]
        } else {
            let hs = md043_headings(ls, ls.len() as int).1;
            md043_compare(r, hs, ls.len() as int, r.len() as int) + md043_extra(hs, r.len() as int, hs.len() as int)
        },
    }
}

impl MD043 {
    pub fn names(&self) -> (r: Vec<&'static str>)
        ensures
            names_view(r@) == md043_meta().names,
    {
        let r = vec!["MD043", "required-headings", "required-headers"];
        assert(names_view(r@) =~= md043_meta().names);
        r
    }

    pub fn description(&self) -> (r: &'static str)
        ensures
            r@ == md043_meta().description,
    {
        "Required heading structure"
    }

    pub fn tags(&self) -> (r: Vec<&'static str>)
        ensures
            names_view(r@) == seq!["headings"@, "headers"@],
    {
        let r = vec!["headings", "headers"];
        assert(names_view(r@) =~= seq!["headings"@, "headers"@]);
        r
    }

    pub fn parser_type(&self) -> (r: ParserType)
        ensures
            r == ParserType::Plain,
    {
        ParserType::Plain
    }

    pub fn information(&self) -> (r: Option<&'static str>)
        ensures
            opt_str(r) == md043_meta().information,
    {
        Some("https://github.com/DavidAnson/markdownlint/blob/main/doc/md043.md")
    }

    fn required(&self, params: &RuleParams) -> (r: Option<Vec<String>>)
        ensures
            match r {
                Some(v) => md043_required(*params) == Some(v@.map_values(|s: String| s@)),
                None => md043_required(*params).is_none(),
            },
    {
        match params.config.get("headings") {
            Some(ConfigValue::Array(a)) => {
                let mut out: Vec<String> = Vec::new();
                let mut j: usize = 0;
                while j < a.len()
                    invariant
                        j <= a@.len(),
                        out@.map_values(|s: String| s@) == array_strings(a@.take(j as int)),
                    decreases a@.len() - j,
                {
                    assert(a@.take(j + 1).drop_last() =~= a@.take(j as int));
                    let ghost before = out@;
                    match &a[j] {
                        Some(s) => {
                            out.push(s.clone());
                            assert(out@.map_values(|s: String| s@) =~= before.map_values(|s: String| s@).push(a@[j as int]->0@));
                        },
                        None => {},
                    }
                    j = j + 1;
                }
                assert(a@.take(a@.len() as int) =~= a@);
                Some(out)
            },
            _ => None,
        }
    }

    fn report(&self, names: &Vec<&'static str>, line_number: usize, d: String) -> (e: LintError)
        requires
            names_view(names@) == md043_meta().names,
        ensures
            e@ == md043_error(line_number as int, d@),
    {
        let mut e = LintError::new(line_number, names, self.description(), self.information());
        e.error_detail = Some(d);
        e.suggestion = Some(text("Follow the required heading structure"));
        e
    }

    pub fn lint(&self, params: &RuleParams) -> (errors: Vec<LintError>)
        ensures
            errors_view(errors@) == md043_errors(views(params.lines@), md043_required(*params)),
    {
        let required = match self.required(params) {
            Some(r) => r,
            None => {
                return Vec::new();
            },
        };
        let ghost req = required@.map_values(|s: String| s@);
        if required.len() == 0 {
            return Vec::new();
        }
        let lines = params.lines;
        let ghost ls = views(lines@);
        let names = self.names();
        let mut hs: Vec<(usize, usize, String)> = Vec::new();
        let mut in_code_block = false;
        let n = lines.len();
        let mut i: usize = 0;
        while i < n
            invariant
                n == lines@.len(),
                i <= n,
                ls == views(lines@),
                forall|j: int| 0 <= j < hs@.len() ==> hs@[j].0 <= i,
                md043_headings(ls, i as int) == (in_code_block, hs@.map_values(
                    |h: (usize, usize, String)| (h.0 as int, h.1 as nat, h.2@),
                )),
            decreases n - i,
        {
            let ghost before = hs@;
            let c = chars_of(lines[i]);
            let t = trim_vec(&c);
            if starts_with_str(&t, "```") || starts_with_str(&t, "~~~") {
                in_code_block = !in_code_block;
            } else if !in_code_block {
                let ts = string_of(&t);
                match parse_heading(ts.as_str()) {
                    Some((level, txt)) => {
                        hs.push((i + 1, level, txt));
                        assert(hs@.map_values(|h: (usize, usize, String)| (h.0 as int, h.1 as nat, h.2@)) =~= before.map_values(|h: (usize, usize, String)| (h.0 as int, h.1 as nat, h.2@)).push(((i + 1) as int, level as nat, txt@)));
                    },
                    None => {},
                }
            }
            i = i + 1;
        }
        let ghost hsv = hs@.map_values(|h: (usize, usize, String)| (h.0 as int, h.1 as nat, h.2@));
        let mut errors: Vec<LintError> = Vec::new();
        let mut actual_idx: usize = 0;
        let m = required.len();
        let mut k: usize = 0;
        while k < m
            invariant
                m == required@.len(),
                k <= m,
                n == lines@.len(),
                ls == views(lines@),
                req == required@.map_values(|s: String| s@),
                hsv == hs@.map_values(|h: (usize, usize, String)| (h.0 as int, h.1 as nat, h.2@)),
                actual_idx == if k < hs@.len() { k } else { hs@.len() as usize },
                names_view(names@) == md043_meta().names,
                errors_view(errors@) == md043_compare(req, hsv, n as int, k as int),
            decreases m - k,
        {
            let ghost before = errors@;
            let expected = &required[k];
            if actual_idx >= hs.len() {
                let mut d = text("Expected: ");
                push_str(&mut d, expected.as_str());
                let e = self.report(&names, n, d);
                errors.push(e);
                assert(errors_view(errors@) =~= errors_view(before).push(md043_error(n as int, "Expected: "@ + req[k as int])));
            } else {
                let h = &hs[actual_idx];
                if !heading_matches(h.1, h.2.as_str(), expected.as_str()) {
                    let mut d = text("Expected: ");
                    push_str(&mut d, expected.as_str());
                    push_str(&mut d, "; Actual: ");
                    push_repeat(&mut d, '#', h.1);
                    push_str(&mut d, " ");
                    push_str(&mut d, h.2.as_str());
                    assert(hsv[k as int] == (h.0 as int, h.1 as nat, h.2@));
                    assert(d@ =~= "Expected: "@ + req[k as int] + "; Actual: "@ + shown(hsv[k as int]));
                    let e = self.report(&names, h.0, d);
                    errors.push(e);
                    assert(errors_view(errors@) =~= errors_view(before).push(md043_error(hsv[k as int].0, "Expected: "@ + req[k as int] + "; Actual: "@ + shown(hsv[k as int]))));
                }
                actual_idx = actual_idx + 1;
            }
            k = k + 1;
        }
        let ghost mid = errors_view(errors@);
        let hl = hs.len();
        while actual_idx < hl
            invariant
                hl == hs@.len(),
                m <= actual_idx <= hl || (actual_idx == hl && hl < m),
                hsv == hs@.map_values(|h: (usize, usize, String)| (h.0 as int, h.1 as nat, h.2@)),
                names_view(names@) == md043_meta().names,
                errors_view(errors@) == mid + md043_extra(hsv, m as int, actual_idx as int),
            decreases hl - actual_idx,
        {
            let ghost before = errors@;
            let h = &hs[actual_idx];
            let mut d = text("Extra heading: ");
            push_repeat(&mut d, '#', h.1);
            push_str(&mut d, " ");
            push_str(&mut d, h.2.as_str());
            assert(hsv[actual_idx as int] == (h.0 as int, h.1 as nat, h.2@));
            assert(d@ =~= "Extra heading: "@ + shown(hsv[actual_idx as int]));
            let e = self.report(&names, h.0, d);
            errors.push(e);
            assert(errors_view(errors@) =~= errors_view(before).push(md043_error(hsv[actual_idx as int].0, "Extra heading: "@ + shown(hsv[actual_idx as int]))));
            actual_idx = actual_idx + 1;
        }
        assert(md043_extra(hsv, m as int, hl as int) =~= md043_extra(hsv, m as int, actual_idx as int));
        errors
    }
}

} // verus!
