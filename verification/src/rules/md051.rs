//! MD051 - Link fragments should be valid.
//!
//! A link `[text](#fragment)` must name the anchor of a heading of the
//! document. Where the headings of the other files of the workspace are
//! known, a link `[text](file.md#fragment)` to one of them must name one of
//! its anchors. Lines in fenced code are skipped.

use vstd::prelude::*;
use crate::text::{
    byte_len, chars_of, push_chars, push_str, starts_with, starts_with_str, string_of, text, trim,
    trim_vec, views,
};
use crate::types::{
    base_error, errors_view, lines_fit, names_view, opt_str, LintError, LintErrorView, ParserType,
    RuleMeta, RuleParams,
};
use crate::helpers::{code_fence, collect_heading_ids, heading_ids, is_code_fence};
use crate::workspace::{
    canonical_path, contains_string, joined_path, parent_dir, path_join, path_parent, strings_view,
    WorkspaceHeadings,
};
use crate::pattern::{
    captures_all, compile, group_at, group_chars, regex_captures_all, regex_compiles, Pattern,
};

verus! {

pub struct MD051;

pub open spec fn md051_meta() -> RuleMeta {
    RuleMeta {
        names: seq!["MD051"@, "link-fragments"@],
        description: "Link fragments should be valid"@,
        information: Some("https://github.com/DavidAnson/markdownlint/blob/main/doc/md051.md"@),
    }
}

/// `[text](#fragment)`; group 2 is the fragment.
pub open spec fn fragment_link_pattern() -> Seq<char> {
    "\\[([^\\]]*)\\]\\(#([^)]+)\\)"@
}

/// `[text](file#fragment)`; group 2 is the file, group 3 the fragment.
pub open spec fn cross_file_link_pattern() -> Seq<char> {
    "\\[([^\\]]*)\\]\\(([^#)]+)#([^)]+)\\)"@
}

pub open spec fn same_file_error(ln: int, t: Seq<char>, g: Seq<Option<(usize, usize)>>) -> LintErrorView {
    LintErrorView {
        detail: Some("No matching heading for fragment: #"@ + group_at(t, g, 2)),
        context: Some(group_at(t, g, 0)),
        suggestion: Some("Ensure link fragments point to valid headings"@),
        ..base_error(md051_meta(), ln)
    }
}

/// The findings for the first `k` same-file links `caps` of line `ln`.
pub open spec fn same_file_errors(t: Seq<char>, ln: int, ids: Seq<Seq<char>>, caps: Seq<Seq<Option<(usize, usize)>>>, k: int) -> Seq<LintErrorView>
    decreases k,
{
    if k <= 0 {
        seq![]
    } else {
        let prev = same_file_errors(t, ln, ids, caps, k - 1);
        let g = caps[k - 1];
        if g.len() > 2 && g[2] is Some && !ids.contains(group_at(t, g, 2)) {
            prev.push(same_file_error(ln, t, g))
        } else {
            prev
        }
    }
}

pub open spec fn cross_file_error(ln: int, t: Seq<char>, g: Seq<Option<(usize, usize)>>) -> LintErrorView {
    let file = group_at(t, g, 2);
    let frag = group_at(t, g, 3);
    LintErrorView {
        detail: Some("No matching heading '"@ + frag + "' in '"@ + file + "'"@),
        context: Some(group_at(t, g, 0)),
        suggestion: Some(
            "Check that '"@ + file + "' contains a heading that produces anchor '#"@ + frag + "'"@,
        ),
        ..base_error(md051_meta(), ln)
    }
}

/// The anchors of the file a cross-file link points to: those stored
/// under the joined path, else those stored under its canonical form
/// `canon` (what the file system gave for it).
pub open spec fn link_target(w: WorkspaceHeadings, resolved: Seq<char>, canon: Option<Seq<char>>) -> Option<Seq<Seq<char>>> {
    match w.lookup(resolved) {
        Some(h) => Some(h),
        None => match canon {
            Some(c) => w.lookup(c),
            None => None,
        },
    }
}

/// The link is to a web page rather than a file.
pub open spec fn is_web(file: Seq<char>) -> bool {
    starts_with(file, "http://"@) || starts_with(file, "https://"@)
}

/// The findings for the first `k` cross-file links `caps` of line `ln`;
/// `cs(ln, b)` is the canonical path obtained for link `b`.
pub open spec fn cross_file_errors(
    t: Seq<char>,
    ln: int,
    w: WorkspaceHeadings,
    dir: Seq<char>,
    caps: Seq<Seq<Option<(usize, usize)>>>,
    cs: spec_fn(int, int) -> Option<Seq<char>>,
    k: int,
) -> Seq<LintErrorView>
    decreases k,
{
    if k <= 0 {
        seq![]
    } else {
        let prev = cross_file_errors(t, ln, w, dir, caps, cs, k - 1);
        let g = caps[k - 1];
        if g.len() > 3 && g[2] is Some && g[3] is Some && !is_web(group_at(t, g, 2)) {
            match link_target(w, joined_path(dir, group_at(t, g, 2)), cs(ln, k - 1)) {
                Some(h) => if !h.contains(group_at(t, g, 3)) {
                    prev.push(cross_file_error(ln, t, g))
                } else {
                    prev
                },
                None => prev,
            }
        } else {
            prev
        }
    }
}

/// The findings for line `ln` outside fenced code.
pub open spec fn line_errors(
    t: Seq<char>,
    ln: int,
    ids: Seq<Seq<char>>,
    ws: Option<WorkspaceHeadings>,
    dir: Seq<char>,
    cs: spec_fn(int, int) -> Option<Seq<char>>,
) -> Seq<LintErrorView> {
    let c1 = regex_captures_all(fragment_link_pattern(), t);
    let e1 = same_file_errors(t, ln, ids, c1, c1.len() as int);
    match ws {
        Some(w) => {
            let c2 = regex_captures_all(cross_file_link_pattern(), t);
            e1 + cross_file_errors(t, ln, w, dir, c2, cs, c2.len() as int)
        },
        None => e1,
    }
}

/// Whether the first `n` lines end inside a fenced block, and the findings.
pub open spec fn md051_scan(
    ls: Seq<Seq<char>>,
    ids: Seq<Seq<char>>,
    ws: Option<WorkspaceHeadings>,
    dir: Seq<char>,
    cs: spec_fn(int, int) -> Option<Seq<char>>,
    n: int,
) -> (bool, Seq<LintErrorView>)
    decreases n,
{
    if n <= 0 {
        (false, seq![])
    } else {
        let prev = md051_scan(ls, ids, ws, dir, cs, n - 1);
        if code_fence(trim(ls[n - 1])) {
            (!prev.0, prev.1)
        } else if prev.0 {
            prev
        } else {
            (prev.0, prev.1 + line_errors(ls[n - 1], n, ids, ws, dir, cs))
        }
    }
}

/// The findings of MD051 for the document `ls` at path `name`, where
/// `cs(ln, b)` is what the file system gave as the canonical path for
/// cross-file link `b` of line `ln` (none where the patterns are refused).
pub open spec fn md051_errors(
    ls: Seq<Seq<char>>,
    name: Seq<char>,
    ws: Option<WorkspaceHeadings>,
    cs: spec_fn(int, int) -> Option<Seq<char>>,
) -> Seq<LintErrorView> {
    if regex_compiles(fragment_link_pattern()) && regex_compiles(cross_file_link_pattern()) {
        md051_scan(ls, heading_ids(ls), ws, parent_dir(name), cs, ls.len() as int).1
    } else {
        seq![]
    }
}

pub open spec fn ws_view(ws: Option<&WorkspaceHeadings>) -> Option<WorkspaceHeadings> {
    match ws {
        Some(w) => Some(*w),
        None => None,
    }
}

proof fn lemma_cross_frame(
    t: Seq<char>,
    ln: int,
    w: WorkspaceHeadings,
    dir: Seq<char>,
    caps: Seq<Seq<Option<(usize, usize)>>>,
    cs1: spec_fn(int, int) -> Option<Seq<char>>,
    cs2: spec_fn(int, int) -> Option<Seq<char>>,
    k: int,
)
    requires
        forall|b: int| 0 <= b < k ==> #[trigger] cs1(ln, b) == cs2(ln, b),
    ensures
        cross_file_errors(t, ln, w, dir, caps, cs1, k) == cross_file_errors(t, ln, w, dir, caps, cs2, k),
    decreases k,
{
    if k > 0 {
        lemma_cross_frame(t, ln, w, dir, caps, cs1, cs2, k - 1);
        assert(cs1(ln, k - 1) == cs2(ln, k - 1));
    }
}

proof fn lemma_scan_frame(
    ls: Seq<Seq<char>>,
    ids: Seq<Seq<char>>,
    ws: Option<WorkspaceHeadings>,
    dir: Seq<char>,
    cs1: spec_fn(int, int) -> Option<Seq<char>>,
    cs2: spec_fn(int, int) -> Option<Seq<char>>,
    n: int,
)
    requires
        forall|a: int, b: int| 1 <= a <= n ==> #[trigger] cs1(a, b) == cs2(a, b),
    ensures
        md051_scan(ls, ids, ws, dir, cs1, n) == md051_scan(ls, ids, ws, dir, cs2, n),
    decreases n,
{
    if n > 0 {
        lemma_scan_frame(ls, ids, ws, dir, cs1, cs2, n - 1);
        match ws {
            Some(w) => {
                let t = ls[n - 1];
                let c2 = regex_captures_all(cross_file_link_pattern(), t);
                lemma_cross_frame(t, n, w, dir, c2, cs1, cs2, c2.len() as int);
            },
            None => {},
        }
    }
}

impl MD051 {
    pub fn names(&self) -> (r: Vec<&'static str>)
        ensures
            names_view(r@) == md051_meta().names,
    {
        let r = vec!["MD051", "link-fragments"];
        assert(names_view(r@) =~= md051_meta().names);
        r
    }

    pub fn description(&self) -> (r: &'static str)
        ensures
            r@ == md051_meta().description,
    {
        "Link fragments should be valid"
    }

    pub fn tags(&self) -> (r: Vec<&'static str>)
        ensures
            names_view(r@) == seq!["links"@],
    {
        let r = vec!["links"];
        assert(names_view(r@) =~= seq!["links"@]);
        r
    }

    pub fn parser_type(&self) -> (r: ParserType)
        ensures
            r == ParserType::Plain,
    {
        ParserType::Plain
    }

    pub fn information(&self) -> (r: Option<&'static str>)
        ensures
            opt_str(r) == md051_meta().information,
    {
        Some("https://github.com/DavidAnson/markdownlint/blob/main/doc/md051.md")
    }

    /// Report the same-file links of line `ln` to missing anchors.
    fn check_same_file(
        &self,
        re: &Pattern,
        t: &Vec<char>,
        ln: usize,
        ids: &Vec<String>,
        errors: &mut Vec<LintError>,
    )
        requires
            re@ == fragment_link_pattern(),
            byte_len(t@) <= isize::MAX,
        ensures
            errors_view(final(errors)@) == errors_view(old(errors)@) + same_file_errors(
                t@,
                ln as int,
                strings_view(ids@),
                regex_captures_all(fragment_link_pattern(), t@),
                regex_captures_all(fragment_link_pattern(), t@).len() as int,
            ),
    {
        let names = self.names();
        let ts = string_of(t);
        let caps = captures_all(re, ts.as_str());
        let ghost cv = caps@.map_values(|g: Vec<Option<(usize, usize)>>| g@);
        let ghost e0 = errors_view(errors@);
        let mut k: usize = 0;
        while k < caps.len()
            invariant
                k <= caps@.len(),
                ts@ == t@,
                byte_len(t@) <= isize::MAX,
                cv == caps@.map_values(|g: Vec<Option<(usize, usize)>>| g@),
                cv == regex_captures_all(fragment_link_pattern(), t@),
                names_view(names@) == md051_meta().names,
                errors_view(errors@) == e0 + same_file_errors(t@, ln as int, strings_view(ids@), cv, k as int),
            decreases caps@.len() - k,
        {
            let g = &caps[k];
            assert(cv[k as int] == g@);
            if g.len() > 2 && g[2].is_some() {
                let frag = group_chars(t, g, 2);
                if !contains_string(ids, &frag) {
                    let whole = group_chars(t, g, 0);
                    let mut d = text("No matching heading for fragment: #");
                    push_chars(&mut d, &frag);
                    let mut e = LintError::new(ln, &names, self.description(), self.information());
                    e.error_detail = Some(d);
                    e.error_context = Some(string_of(&whole));
                    e.suggestion = Some(text("Ensure link fragments point to valid headings"));
                    let ghost b = errors_view(errors@);
                    errors.push(e);
                    assert(errors_view(errors@) =~= b.push(same_file_error(ln as int, t@, g@)));
                }
            }
            k = k + 1;
        }
    }

    pub fn lint(&self, params: &RuleParams) -> (errors: Vec<LintError>)
        requires
            lines_fit(params.lines@),
        ensures
            exists|cs: spec_fn(int, int) -> Option<Seq<char>>|
                errors_view(errors@) == md051_errors(
                    views(params.lines@),
                    params.name@,
                    ws_view(params.workspace_headings),
                    cs,
                ),
    {
        let lines = params.lines;
        let ghost ls = views(lines@);
        let ghost ws = ws_view(params.workspace_headings);
        let ghost mut cs: spec_fn(int, int) -> Option<Seq<char>> = |a: int, b: int| None::<Seq<char>>;
        let mut errors: Vec<LintError> = Vec::new();
        let frag_re = match compile("\\[([^\\]]*)\\]\\(#([^)]+)\\)") {
            Some(p) => p,
            None => {
                assert(errors_view(errors@) =~= md051_errors(ls, params.name@, ws, cs));
                return errors;
            },
        };
        let cross_re = match compile("\\[([^\\]]*)\\]\\(([^#)]+)#([^)]+)\\)") {
            Some(p) => p,
            None => {
                assert(errors_view(errors@) =~= md051_errors(ls, params.name@, ws, cs));
                return errors;
            },
        };
        let ids = collect_heading_ids(lines);
        let ghost idv = strings_view(ids@);
        let dir = path_parent(params.name);
        let names = self.names();
        let mut in_code_block = false;
        let n = lines.len();
        let mut i: usize = 0;
        assert(errors_view(errors@) =~= seq![]);
        while i < n
            invariant
                n == lines@.len(),
                i <= n,
                ls == views(lines@),
                lines_fit(lines@),
                ws == ws_view(params.workspace_headings),
                frag_re@ == fragment_link_pattern(),
                cross_re@ == cross_file_link_pattern(),
                idv == strings_view(ids@),
                idv == heading_ids(ls),
                dir@ == parent_dir(params.name@),
                names_view(names@) == md051_meta().names,
                (in_code_block, errors_view(errors@)) == md051_scan(ls, idv, ws, dir@, cs, i as int),
            decreases n - i,
        {
            let t = chars_of(lines[i]);
            let ts = string_of(&trim_vec(&t));
            if is_code_fence(ts.as_str()) {
                in_code_block = !in_code_block;
            } else if !in_code_block {
                assert(byte_len(lines@[i as int]@) <= isize::MAX);
                let ghost e0 = errors_view(errors@);
                let ghost cs0 = cs;
                self.check_same_file(&frag_re, &t, i + 1, &ids, &mut errors);
                let ghost e1 = errors_view(errors@);
                match params.workspace_headings {
                    Some(w) => {
                        let line = string_of(&t);
                        let caps = captures_all(&cross_re, line.as_str());
                        let ghost cv = caps@.map_values(|g: Vec<Option<(usize, usize)>>| g@);
                        let mut k: usize = 0;
                        while k < caps.len()
                            invariant
                                k <= caps@.len(),
                                i < n,
                                line@ == t@,
                                t@ == ls[i as int],
                                byte_len(t@) <= isize::MAX,
                                ws == Some(*w),
                                cv == caps@.map_values(|g: Vec<Option<(usize, usize)>>| g@),
                                cv == regex_captures_all(cross_file_link_pattern(), t@),
                                dir@ == parent_dir(params.name@),
                                names_view(names@) == md051_meta().names,
                                forall|a: int, b: int| a != i + 1 ==> #[trigger] cs(a, b) == cs0(a, b),
                                errors_view(errors@) == e1 + cross_file_errors(
                                    t@,
                                    i + 1,
                                    *w,
                                    dir@,
                                    cv,
                                    cs,
                                    k as int,
                                ),
                            decreases caps@.len() - k,
                        {
                            let g = &caps[k];
                            assert(cv[k as int] == g@);
                            if g.len() > 3 && g[2].is_some() && g[3].is_some() {
                                let file = group_chars(&t, g, 2);
                                let frag = group_chars(&t, g, 3);
                                if !starts_with_str(&file, "http://") && !starts_with_str(&file, "https://") {
                                    let fs = string_of(&file);
                                    let resolved = path_join(dir.as_str(), fs.as_str());
                                    let ghost cprev = cs;
                                    let target: Option<&Vec<String>> = match w.get(resolved.as_str()) {
                                        Some(h) => Some(h),
                                        None => {
                                            let canon = canonical_path(resolved.as_str());
                                            let ghost cview: Option<Seq<char>> = match &canon {
                                                Some(c) => Some(c@),
                                                None => None,
                                            };
                                            proof {
                                                let ii = i + 1;
                                                let kk = k as int;
                                                cs = |a: int, b: int|
                                                    if a == ii && b == kk {
                                                        cview
                                                    } else {
                                                        cprev(a, b)
                                                    };
                                            }
                                            match &canon {
                                                Some(c) => w.get(c.as_str()),
                                                None => None,
                                            }
                                        },
                                    };
                                    proof {
                                        lemma_cross_frame(t@, i + 1, *w, dir@, cv, cprev, cs, k as int);
                                    }
                                    assert(match target {
                                        Some(h) => link_target(*w, resolved@, cs(i + 1, k as int)) == Some(strings_view(h@)),
                                        None => link_target(*w, resolved@, cs(i + 1, k as int)).is_none(),
                                    });
                                    match target {
                                        Some(h) => {
                                            if !contains_string(h, &frag) {
                                                let whole = group_chars(&t, g, 0);
                                                let mut d = text("No matching heading '");
                                                push_chars(&mut d, &frag);
                                                push_str(&mut d, "' in '");
                                                push_chars(&mut d, &file);
                                                push_str(&mut d, "'");
                                                let mut sg = text("Check that '");
                                                push_chars(&mut sg, &file);
                                                push_str(&mut sg, "' contains a heading that produces anchor '#");
                                                push_chars(&mut sg, &frag);
                                                push_str(&mut sg, "'");
                                                let mut e = LintError::new(i + 1, &names, self.description(), self.information());
                                                e.error_detail = Some(d);
                                                e.error_context = Some(string_of(&whole));
                                                e.suggestion = Some(sg);
                                                let ghost b = errors_view(errors@);
                                                errors.push(e);
                                                assert(errors_view(errors@) =~= b.push(cross_file_error(i + 1, t@, g@)));
                                            }
                                        },
                                        None => {},
                                    }
                                }
                            }
                            k = k + 1;
                        }
                    },
                    None => {},
                }
                proof {
                    lemma_scan_frame(ls, idv, ws, dir@, cs0, cs, i as int);
                }
                assert(errors_view(errors@) =~= e0 + line_errors(ls[i as int], i + 1, idv, ws, dir@, cs));
            }
            i = i + 1;
        }
        assert(errors_view(errors@) == md051_errors(ls, params.name@, ws, cs));
        errors
    }
}

} // verus!
