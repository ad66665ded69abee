//! MD011 - Reversed link syntax.
//!
//! `(text)[link]` is reported, with a fix that rewrites it as
//! `[text](link)`.

use vstd::prelude::*;
use crate::text::{byte_len, byte_slice, byte_slice_chars, chars_of, push_chars, push_str, string_of, text, views};
use crate::types::{
    base_error, errors_view, fix_view, lines_fit, names_view, opt_str, FixInfo, LintError,
    LintErrorView, ParserType, RuleMeta, RuleParams,
};
use crate::pattern::{
    captures_all, compile, group_at, group_chars, groups_in, regex_captures_all, regex_compiles,
    span0, span_in,
};

verus! {

pub struct MD011;

pub open spec fn md011_meta() -> RuleMeta {
    RuleMeta {
        names: seq!["MD011"@, "no-reversed-links"@],
        description: "Reversed link syntax"@,
        information: Some("https://github.com/DavidAnson/markdownlint/blob/main/doc/md011.md"@),
    }
}

/// `(text)[link]`.
pub open spec fn reversed_link_pattern() -> Seq<char> {
    "\\(([^)]+)\\)\\[([^\\]]+)\\]"@
}

pub open spec fn md011_error(ln: int, t: Seq<char>, g: Seq<Option<(usize, usize)>>) -> LintErrorView {
    let s = span0(g);
    LintErrorView {
        context: Some(byte_slice(t, s.0 as int, s.1 as int)),
        range: Some(((s.0 + 1) as usize, (s.1 - s.0) as usize)),
        fix: Some(
            fix_view(
                None,
                Some((s.0 + 1) as usize),
                Some((s.1 - s.0) as i32),
                Some("["@ + group_at(t, g, 1) + "]("@ + group_at(t, g, 2) + ")"@),
            ),
        ),
        ..base_error(md011_meta(), ln)
    }
}

/// The findings for the first `k` matches `caps` in line `ln`.
pub open spec fn match_errors(t: Seq<char>, ln: int, caps: Seq<Seq<Option<(usize, usize)>>>, k: int) -> Seq<LintErrorView>
    decreases k,
{
    if k <= 0 {
        seq![]
    } else {
        match_errors(t, ln, caps, k - 1).push(md011_error(ln, t, caps[k - 1]))
    }
}

pub open spec fn md011_scan(ls: Seq<Seq<char>>, n: int) -> Seq<LintErrorView>
    decreases n,
{
    if n <= 0 {
        seq![]
    } else {
        let caps = regex_captures_all(reversed_link_pattern(), ls[n - 1]);
        md011_scan(ls, n - 1) + match_errors(ls[n - 1], n, caps, caps.len() as int)
    }
}

/// The findings of MD011 (none where the pattern is refused).
pub open spec fn md011_errors(ls: Seq<Seq<char>>) -> Seq<LintErrorView> {
    if regex_compiles(reversed_link_pattern()) {
        md011_scan(ls, ls.len() as int)
    } else {
        seq![]
    }
}

impl MD011 {
    pub fn names(&self) -> (r: Vec<&'static str>)
        ensures
            names_view(r@) == md011_meta().names,
    {
        let r = vec!["MD011", "no-reversed-links"];
        assert(names_view(r@) =~= md011_meta().names);
        r
    }

    pub fn description(&self) -> (r: &'static str)
        ensures
            r@ == md011_meta().description,
    {
        "Reversed link syntax"
    }

    pub fn tags(&self) -> (r: Vec<&'static str>)
        ensures
            names_view(r@) == seq!["links"@],
    {
        let r = vec!["links"];
        assert(names_view(r@) =~= seq!["links"@]);
        r
    }

    pub fn parser_type(&self) -> (r: ParserType)
        ensures
            r == ParserType::Plain,
    {
        ParserType::Plain
    }

    pub fn information(&self) -> (r: Option<&'static str>)
        ensures
            opt_str(r) == md011_meta().information,
    {
        Some("https://github.com/DavidAnson/markdownlint/blob/main/doc/md011.md")
    }

    pub fn lint(&self, params: &RuleParams) -> (errors: Vec<LintError>)
        requires
            lines_fit(params.lines@),
        ensures
            errors_view(errors@) == md011_errors(views(params.lines@)),
    {
        let lines = params.lines;
        let ghost ls = views(lines@);
        let mut errors: Vec<LintError> = Vec::new();
        let re = match compile("\\(([^)]+)\\)\\[([^\\]]+)\\]") {
            Some(p) => p,
            None => {
                assert(errors_view(errors@) =~= seq![]);
                return errors;
            },
        };
        let names = self.names();
        let n = lines.len();
        let mut i: usize = 0;
        assert(errors_view(errors@) =~= seq![]);
        while i < n
            invariant
                n == lines@.len(),
                i <= n,
                ls == views(lines@),
                lines_fit(lines@),
                re@ == reversed_link_pattern(),
                names_view(names@) == md011_meta().names,
                errors_view(errors@) == md011_scan(ls, i as int),
            decreases n - i,
        {
            let v = chars_of(lines[i]);
            assert(byte_len(lines@[i as int]@) <= isize::MAX);
            let caps = captures_all(&re, lines[i]);
            let ghost cv = caps@.map_values(|g: Vec<Option<(usize, usize)>>| g@);
            let ghost e0 = errors_view(errors@);
            let mut k: usize = 0;
            while k < caps.len()
                invariant
                    k <= caps@.len(),
                    i < n,
                    v@ == ls[i as int],
                    byte_len(v@) <= isize::MAX,
                    cv == caps@.map_values(|g: Vec<Option<(usize, usize)>>| g@),
                    forall|q: int| 0 <= q < caps@.len() ==> groups_in(v@, #[trigger] caps@[q]@),
                    names_view(names@) == md011_meta().names,
                    errors_view(errors@) == e0 + match_errors(v@, i + 1, cv, k as int),
                decreases caps@.len() - k,
            {
                let g = &caps[k];
                assert(cv[k as int] == g@);
                assert(groups_in(v@, g@));
                let s = match g[0] {
                    Some(s) => s,
                    None => (0, 0),
                };
                assert(span_in(v@, s));
                let mat = byte_slice_chars(&v, s.0, s.1);
                let label = group_chars(&v, g, 1);
                let url = group_chars(&v, g, 2);
                let mut corrected = text("[");
                push_chars(&mut corrected, &label);
                push_str(&mut corrected, "](");
                push_chars(&mut corrected, &url);
                push_str(&mut corrected, ")");
                let len = s.1 - s.0;
                let mut e = LintError::new(i + 1, &names, self.description(), self.information());
                e.error_context = Some(string_of(&mat));
                e.error_range = Some((s.0 + 1, len));
                e.fix_info = Some(
                    FixInfo {
                        line_number: None,
                        edit_column: Some(s.0 + 1),
                        delete_count: Some(len as i32),
                        insert_text: Some(corrected),
                    },
                );
                let ghost b = errors_view(errors@);
                errors.push(e);
                assert(errors_view(errors@) =~= b.push(md011_error(i + 1, v@, g@)));
                k = k + 1;
            }
            i = i + 1;
        }
        errors
    }
}

} // verus!
