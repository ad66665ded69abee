//! MD045 - Images should have alternate text (alt text).
//!
//! An image `![alt](src)` whose alt text is blank is reported, with a fix
//! that writes "image" as its alt text.

use vstd::prelude::*;
use crate::text::{byte_len, byte_slice, byte_slice_chars, chars_of, string_of, text, trim, trim_vec, views};
use crate::types::{
    base_error, errors_view, fix_view, lines_fit, names_view, opt_str, FixInfo, LintError,
    LintErrorView, ParserType, RuleMeta, RuleParams,
};
use crate::pattern::{
    captures_all, compile, group_at, group_chars, groups_in, regex_captures_all, regex_compiles,
    span0, span_in,
};

verus! {

pub struct MD045;

pub open spec fn md045_meta() -> RuleMeta {
    RuleMeta {
        names: seq!["MD045"@, "no-alt-text"@],
        description: "Images should have alternate text (alt text)"@,
        information: Some("https://github.com/DavidAnson/markdownlint/blob/main/doc/md045.md"@),
    }
}

/// `![alt](src)`, the alt text as group 1.
pub open spec fn image_pattern() -> Seq<char> {
    "!\\[([^\\]]*)\\]\\([^)]+\\)"@
}

/// The match has an alt text group, and it is blank.
pub open spec fn blank_alt(t: Seq<char>, g: Seq<Option<(usize, usize)>>) -> bool {
    g.len() > 1 && g[1] is Some && trim(group_at(t, g, 1)).len() == 0
}

pub open spec fn md045_error(ln: int, t: Seq<char>, g: Seq<Option<(usize, usize)>>) -> LintErrorView {
    let s = span0(g);
    let a = g[1]->0;
    LintErrorView {
        context: Some(byte_slice(t, s.0 as int, s.1 as int)),
        range: Some(((s.0 + 1) as usize, (s.1 - s.0) as usize)),
        fix: Some(
            fix_view(None, Some((a.0 + 1) as usize), Some((a.1 - a.0) as i32), Some("image"@)),
        ),
        suggestion: Some("Add descriptive alt text, e.g., ![description](image.png)"@),
        ..base_error(md045_meta(), ln)
    }
}

/// The findings for the first `k` matches `caps` in line `ln`.
pub open spec fn match_errors(t: Seq<char>, ln: int, caps: Seq<Seq<Option<(usize, usize)>>>, k: int) -> Seq<LintErrorView>
    decreases k,
{
    if k <= 0 {
        seq![]
    } else if blank_alt(t, caps[k - 1]) {
        match_errors(t, ln, caps, k - 1).push(md045_error(ln, t, caps[k - 1]))
    } else {
        match_errors(t, ln, caps, k - 1)
    }
}

pub open spec fn md045_scan(ls: Seq<Seq<char>>, n: int) -> Seq<LintErrorView>
    decreases n,
{
    if n <= 0 {
        seq![]
    } else {
        let caps = regex_captures_all(image_pattern(), ls[n - 1]);
        md045_scan(ls, n - 1) + match_errors(ls[n - 1], n, caps, caps.len() as int)
    }
}

/// The findings of MD045 (none where the pattern is refused).
pub open spec fn md045_errors(ls: Seq<Seq<char>>) -> Seq<LintErrorView> {
    if regex_compiles(image_pattern()) {
        md045_scan(ls, ls.len() as int)
    } else {
        seq![]
    }
}

impl MD045 {
    pub fn names(&self) -> (r: Vec<&'static str>)
        ensures
            names_view(r@) == md045_meta().names,
    {
        let r = vec!["MD045", "no-alt-text"];
        assert(names_view(r@) =~= md045_meta().names);
        r
    }

    pub fn description(&self) -> (r: &'static str)
        ensures
            r@ == md045_meta().description,
    {
        "Images should have alternate text (alt text)"
    }

    pub fn tags(&self) -> (r: Vec<&'static str>)
        ensures
            names_view(r@) == seq!["accessibility"@, "images"@, "fixable"@],
    {
        let r = vec!["accessibility", "images", "fixable"];
        assert(names_view(r@) =~= seq!["accessibility"@, "images"@, "fixable"@]);
        r
    }

    pub fn parser_type(&self) -> (r: ParserType)
        ensures
            r == ParserType::Plain,
    {
        ParserType::Plain
    }

    pub fn information(&self) -> (r: Option<&'static str>)
        ensures
            opt_str(r) == md045_meta().information,
    {
        Some("https://github.com/DavidAnson/markdownlint/blob/main/doc/md045.md")
    }

    pub fn lint(&self, params: &RuleParams) -> (errors: Vec<LintError>)
        requires
            lines_fit(params.lines@),
        ensures
            errors_view(errors@) == md045_errors(views(params.lines@)),
    {
        let lines = params.lines;
        let ghost ls = views(lines@);
        let mut errors: Vec<LintError> = Vec::new();
        let re = match compile("!\\[([^\\]]*)\\]\\([^)]+\\)") {
            Some(p) => p,
            None => {
                assert(errors_view(errors@) =~= seq![]);
                return errors;
            },
        };
        let names = self.names();
        let n = lines.len();
        let mut i: usize = 0;
        assert(errors_view(errors@) =~= seq![]);
        while i < n
            invariant
                n == lines@.len(),
                i <= n,
                ls == views(lines@),
                lines_fit(lines@),
                re@ == image_pattern(),
                names_view(names@) == md045_meta().names,
                errors_view(errors@) == md045_scan(ls, i as int),
            decreases n - i,
        {
            let v = chars_of(lines[i]);
            assert(byte_len(lines@[i as int]@) <= isize::MAX);
            let caps = captures_all(&re, lines[i]);
            let ghost cv = caps@.map_values(|g: Vec<Option<(usize, usize)>>| g@);
            let ghost e0 = errors_view(errors@);
            let mut k: usize = 0;
            while k < caps.len()
                invariant
                    k <= caps@.len(),
                    i < n,
                    v@ == ls[i as int],
                    byte_len(v@) <= isize::MAX,
                    cv == caps@.map_values(|g: Vec<Option<(usize, usize)>>| g@),
                    forall|q: int| 0 <= q < caps@.len() ==> groups_in(v@, #[trigger] caps@[q]@),
                    names_view(names@) == md045_meta().names,
                    errors_view(errors@) == e0 + match_errors(v@, i + 1, cv, k as int),
                decreases caps@.len() - k,
            {
                let g = &caps[k];
                assert(cv[k as int] == g@);
                assert(groups_in(v@, g@));
                if g.len() > 1 {
                    match g[1] {
                        Some(a) => {
                            let alt = group_chars(&v, g, 1);
                            if trim_vec(&alt).len() == 0 {
                                let s = match g[0] {
                                    Some(s) => s,
                                    None => (0, 0),
                                };
                                assert(span_in(v@, s));
                                assert(g@[1] matches Some(x) ==> span_in(v@, x));
                                let full = byte_slice_chars(&v, s.0, s.1);
                                let mut e = LintError::new(i + 1, &names, self.description(), self.information());
                                e.error_context = Some(string_of(&full));
                                e.error_range = Some((s.0 + 1, s.1 - s.0));
                                e.fix_info = Some(
                                    FixInfo {
                                        line_number: None,
                                        edit_column: Some(a.0 + 1),
                                        delete_count: Some((a.1 - a.0) as i32),
                                        insert_text: Some(text("image")),
                                    },
                                );
                                e.suggestion = Some(
                                    text("Add descriptive alt text, e.g., ![description](image.png)"),
                                );
                                let ghost b = errors_view(errors@);
                                errors.push(e);
                                assert(errors_view(errors@) =~= b.push(md045_error(i + 1, v@, g@)));
                            }
                        },
                        None => {},
                    }
                }
                k = k + 1;
            }
            i = i + 1;
        }
        errors
    }
}

} // verus!
