//! MD042 - No empty links.
//!
//! An inline link whose destination is empty or only a fragment (`#`) is
//! reported with a fix that puts `#link` in its place; a reference link
//! whose definition has such a destination is reported without a fix. The
//! last definition of a label counts.

use vstd::prelude::*;
use crate::text::{
    byte_len, char_at_byte, char_index_at_byte, chars_of, lowercase, lowercase_vec, starts_with,
    string_of, text, trim, trim_end_char, trim_end_char_vec, trim_start_char, trim_start_char_vec,
    trim_vec, views,
};
use crate::types::{
    base_error, errors_view, fix_view, lines_fit, names_view, opt_str, FixInfo, LintError,
    LintErrorView, ParserType, RuleMeta, RuleParams,
};
use crate::pattern::{
    captures, captures_all, compile, group_at, group_chars, groups_in, is_match, regex_captures,
    regex_captures_all, regex_compiles, regex_is_match, span0, span_in,
};

verus! {

pub struct MD042;

pub open spec fn md042_meta() -> RuleMeta {
    RuleMeta {
        names: seq!["MD042"@, "no-empty-links"@],
        description: "No empty links"@,
        information: Some("https://github.com/DavidAnson/markdownlint/blob/main/doc/md042.md"@),
    }
}

/// `[text](url)`
pub open spec fn md042_inline_pattern() -> Seq<char> {
    "\\[([^\\]]*)\\]\\(([^)]*)\\)"@
}

/// `[text]`, `[text][]` or `[text][ref]`
pub open spec fn md042_reference_pattern() -> Seq<char> {
    "\\[([^\\]]+)\\](?:\\[([^\\]]*)\\])?"@
}

/// `[ref]: url`
pub open spec fn md042_definition_pattern() -> Seq<char> {
    "^\\s*\\[([^\\]]+)\\]:\\s*(\\S*)"@
}

pub open spec fn md042_compiles() -> bool {
    &&& regex_compiles(md042_inline_pattern())
    &&& regex_compiles(md042_reference_pattern())
    &&& regex_compiles(md042_definition_pattern())
}

/// A destination that is empty, `<>`, or only a fragment marker (possibly
/// followed by a title).
pub open spec fn empty_or_fragment(url: Seq<char>) -> bool {
    let t = trim(url);
    if t.len() == 0 {
        true
    } else if trim(trim_end_char(trim_start_char(t, '<'), '>')).len() == 0 {
        true
    } else if starts_with(t, "#"@) {
        let after = trim(t.skip(1));
        after.len() == 0 || starts_with(after, "\""@) || starts_with(after, "'"@)
    } else {
        false
    }
}

/// The definitions in the first `n` lines: lowercased label and destination.
pub open spec fn md042_defs(ls: Seq<Seq<char>>, n: int) -> Seq<(Seq<char>, Seq<char>)>
    decreases n,
{
    if n <= 0 {
        seq![]
    } else {
        let prev = md042_defs(ls, n - 1);
        let line = ls[n - 1];
        match regex_captures(md042_definition_pattern(), line) {
            Some(g) => prev.push((lowercase(trim(group_at(line, g, 1))), trim(group_at(line, g, 2)))),
            None => prev,
        }
    }
}

/// The destination of the last of the first `k` definitions of `key`.
pub open spec fn lookup_def(defs: Seq<(Seq<char>, Seq<char>)>, key: Seq<char>, k: int) -> Option<Seq<char>>
    decreases k,
{
    if k <= 0 {
        None
    } else if defs[k - 1].0 == key {
        Some(defs[k - 1].1)
    } else {
        lookup_def(defs, key, k - 1)
    }
}

pub open spec fn grp_len(g: Seq<Option<(usize, usize)>>, i: int) -> int {
    if 0 <= i < g.len() {
        match g[i] {
            Some(s) => s.1 - s.0,
            None => 0,
        }
    } else {
        0
    }
}

pub open spec fn grp_start(g: Seq<Option<(usize, usize)>>, i: int) -> int {
    if 0 <= i < g.len() {
        match g[i] {
            Some(s) => s.0 as int,
            None => 0,
        }
    } else {
        0
    }
}

pub open spec fn inline_error(line: Seq<char>, g: Seq<Option<(usize, usize)>>, ln: int) -> LintErrorView {
    let s = span0(g);
    LintErrorView {
        context: Some(group_at(line, g, 0)),
        range: Some(((s.0 + 1) as usize, (s.1 - s.0) as usize)),
        fix: Some(
            fix_view(None, Some((grp_start(g, 2) + 1) as usize), Some(grp_len(g, 2) as i32), Some("#link"@)),
        ),
        suggestion: Some("Provide a URL or use '#' as a placeholder for the link destination"@),
        ..base_error(md042_meta(), ln)
    }
}

pub open spec fn inline_errors(line: Seq<char>, caps: Seq<Seq<Option<(usize, usize)>>>, ln: int, k: int) -> Seq<LintErrorView>
    decreases k,
{
    if k <= 0 {
        seq![]
    } else {
        let prev = inline_errors(line, caps, ln, k - 1);
        let g = caps[k - 1];
        if empty_or_fragment(group_at(line, g, 2)) {
            prev.push(inline_error(line, g, ln))
        } else {
            prev
        }
    }
}

/// The match is followed by `(` (so it is an inline link).
pub open spec fn followed_by_paren(line: Seq<char>, g: Seq<Option<(usize, usize)>>) -> bool {
    let k = char_at_byte(line, span0(g).1 as int, 0);
    k < line.len() && line[k] == '('
}

/// The label a reference link refers to.
pub open spec fn ref_label(line: Seq<char>, g: Seq<Option<(usize, usize)>>) -> Seq<char> {
    let r = group_at(line, g, 2);
    lowercase(trim(if r.len() > 0 {
        r
    } else {
        group_at(line, g, 1)
    }))
}

pub open spec fn reference_error(line: Seq<char>, g: Seq<Option<(usize, usize)>>, ln: int) -> LintErrorView {
    let s = span0(g);
    LintErrorView {
        context: Some(group_at(line, g, 0)),
        range: Some(((s.0 + 1) as usize, (s.1 - s.0) as usize)),
        ..base_error(md042_meta(), ln)
    }
}

pub open spec fn reference_errors(
    line: Seq<char>,
    caps: Seq<Seq<Option<(usize, usize)>>>,
    defs: Seq<(Seq<char>, Seq<char>)>,
    ln: int,
    k: int,
) -> Seq<LintErrorView>
    decreases k,
{
    if k <= 0 {
        seq![]
    } else {
        let prev = reference_errors(line, caps, defs, ln, k - 1);
        let g = caps[k - 1];
        if followed_by_paren(line, g) {
            prev
        } else {
            match lookup_def(defs, ref_label(line, g), defs.len() as int) {
                Some(url) => if empty_or_fragment(url) {
                    prev.push(reference_error(line, g, ln))
                } else {
                    prev
                },
                None => prev,
            }
        }
    }
}

pub open spec fn md042_scan(ls: Seq<Seq<char>>, defs: Seq<(Seq<char>, Seq<char>)>, n: int) -> Seq<LintErrorView>
    decreases n,
{
    if n <= 0 {
        seq![]
    } else {
        let prev = md042_scan(ls, defs, n - 1);
        let line = ls[n - 1];
        if regex_is_match(md042_definition_pattern(), line) {
            prev
        } else {
            let ic = regex_captures_all(md042_inline_pattern(), line);
            let rc = regex_captures_all(md042_reference_pattern(), line);
            prev + inline_errors(line, ic, n, ic.len() as int) + reference_errors(
                line,
                rc,
                defs,
                n,
                rc.len() as int,
            )
        }
    }
}

/// The findings of MD042 (none where a pattern is refused).
pub open spec fn md042_errors(ls: Seq<Seq<char>>) -> Seq<LintErrorView> {
    if md042_compiles() {
        md042_scan(ls, md042_defs(ls, ls.len() as int), ls.len() as int)
    } else {
        seq![]
    }
}

pub open spec fn defs_view(keys: Seq<Vec<char>>, urls: Seq<Vec<char>>) -> Seq<(Seq<char>, Seq<char>)> {
    Seq::new(keys.len(), |j: int| (keys[j]@, urls[j]@))
}

pub open spec fn caps_view(caps: Seq<Vec<Option<(usize, usize)>>>) -> Seq<Seq<Option<(usize, usize)>>> {
    caps.map_values(|g: Vec<Option<(usize, usize)>>| g@)
}

/// Where group `i` starts and how many bytes it has.
fn group_info(g: &Vec<Option<(usize, usize)>>, i: usize, Ghost(t): Ghost<Seq<char>>) -> (r: (usize, usize))
    requires
        groups_in(t, g@),
    ensures
        r.0 as int == grp_start(g@, i as int),
        r.1 as int == grp_len(g@, i as int),
{
    if i < g.len() {
        match g[i] {
            Some(s) => {
                assert(span_in(t, s)) by {
                    assert(g@[i as int] == Some(s));
                }
                (s.0, s.1 - s.0)
            },
            None => (0, 0),
        }
    } else {
        (0, 0)
    }
}

impl MD042 {
    pub fn names(&self) -> (r: Vec<&'static str>)
        ensures
            names_view(r@) == md042_meta().names,
    {
        let r = vec!["MD042", "no-empty-links"];
        assert(names_view(r@) =~= md042_meta().names);
        r
    }

    pub fn description(&self) -> (r: &'static str)
        ensures
            r@ == md042_meta().description,
    {
        "No empty links"
    }

    pub fn tags(&self) -> (r: Vec<&'static str>)
        ensures
            names_view(r@) == seq!["links"@, "fixable"@],
    {
        let r = vec!["links", "fixable"];
        assert(names_view(r@) =~= seq!["links"@, "fixable"@]);
        r
    }

    pub fn parser_type(&self) -> (r: ParserType)
        ensures
            r == ParserType::Plain,
    {
        ParserType::Plain
    }

    pub fn information(&self) -> (r: Option<&'static str>)
        ensures
            opt_str(r) == md042_meta().information,
    {
        Some("https://github.com/DavidAnson/markdownlint/blob/main/doc/md042.md")
    }

    /// Check if a URL is empty or just a fragment.
    pub fn is_empty_or_fragment_only(url: &str) -> (r: bool)
        ensures
            r == empty_or_fragment(url@),
    {
        let v = chars_of(url);
        let t = trim_vec(&v);
        if t.len() == 0 {
            return true;
        }
        let a = trim_start_char_vec(&t, '<');
        let b = trim_end_char_vec(&a, '>');
        let c = trim_vec(&b);
        if c.len() == 0 {
            return true;
        }
        proof {
            reveal_strlit("#");
            reveal_strlit("\"");
            reveal_strlit("'");
        }
        assert(starts_with(t@, "#"@) == (t@[0] == '#')) by {
            reveal_strlit("#");
            if t@[0] == '#' {
                assert(t@.take(1) =~= "#"@);
            } else {
                assert(t@.take(1)[0] != "#"@[0]);
            }
        }
        if t[0] == '#' {
            let rest = crate::text::slice_chars(&t, 1, t.len());
            assert(rest@ =~= t@.skip(1));
            let after = trim_vec(&rest);
            if after.len() == 0 {
                return true;
            }
            assert(starts_with(after@, "\""@) == (after@[0] == '"')) by {
                reveal_strlit("\"");
                if after@[0] == '"' {
                    assert(after@.take(1) =~= "\""@);
                } else {
                    assert(after@.take(1)[0] != "\""@[0]);
                }
            }
            assert(starts_with(after@, "'"@) == (after@[0] == '\'')) by {
                reveal_strlit("'");
                if after@[0] == '\'' {
                    assert(after@.take(1) =~= "'"@);
                } else {
                    assert(after@.take(1)[0] != "'"@[0]);
                }
            }
            if after[0] == '"' || after[0] == '\'' {
                return true;
            }
        }
        false
    }

    pub fn lint(&self, params: &RuleParams) -> (errors: Vec<LintError>)
        requires
            lines_fit(params.lines@),
        ensures
            errors_view(errors@) == md042_errors(views(params.lines@)),
    {
        let lines = params.lines;
        let ghost ls = views(lines@);
        let mut errors: Vec<LintError> = Vec::new();
        let inline_re = match compile("\\[([^\\]]*)\\]\\(([^)]*)\\)") {
            Some(p) => p,
            None => {
                assert(errors_view(errors@) =~= seq![]);
                return errors;
            },
        };
        let ref_re = match compile("\\[([^\\]]+)\\](?:\\[([^\\]]*)\\])?") {
            Some(p) => p,
            None => {
                assert(errors_view(errors@) =~= seq![]);
                return errors;
            },
        };
        let def_re = match compile("^\\s*\\[([^\\]]+)\\]:\\s*(\\S*)") {
            Some(p) => p,
            None => {
                assert(errors_view(errors@) =~= seq![]);
                return errors;
            },
        };
        let n = lines.len();
        let mut keys: Vec<Vec<char>> = Vec::new();
        let mut urls: Vec<Vec<char>> = Vec::new();
        let mut i: usize = 0;
        assert(defs_view(keys@, urls@) =~= seq![]);
        while i < n
            invariant
                n == lines@.len(),
                i <= n,
                ls == views(lines@),
                lines_fit(lines@),
                def_re@ == md042_definition_pattern(),
                keys@.len() == urls@.len(),
                defs_view(keys@, urls@) == md042_defs(ls, i as int),
            decreases n - i,
        {
            let line = lines[i];
            match captures(&def_re, line) {
                Some(g) => {
                    let v = chars_of(line);
                    assert(byte_len(lines@[i as int]@) <= isize::MAX);
                    let name = group_chars(&v, &g, 1);
                    let url = group_chars(&v, &g, 2);
                    let key = lowercase_vec(&trim_vec(&name));
                    let ghost d0 = defs_view(keys@, urls@);
                    keys.push(key);
                    urls.push(trim_vec(&url));
                    assert(defs_view(keys@, urls@) =~= md042_defs(ls, i + 1));
                },
                None => {},
            }
            i = i + 1;
        }
        let ghost defs = defs_view(keys@, urls@);
        let names = self.names();
        i = 0;
        assert(errors_view(errors@) =~= seq![]);
        while i < n
            invariant
                n == lines@.len(),
                i <= n,
                ls == views(lines@),
                lines_fit(lines@),
                def_re@ == md042_definition_pattern(),
                inline_re@ == md042_inline_pattern(),
                ref_re@ == md042_reference_pattern(),
                keys@.len() == urls@.len(),
                defs == defs_view(keys@, urls@),
                defs == md042_defs(ls, n as int),
                names_view(names@) == md042_meta().names,
                errors_view(errors@) == md042_scan(ls, defs, i as int),
            decreases n - i,
        {
            let line = lines[i];
            if !is_match(&def_re, line) {
                let v = chars_of(line);
                assert(byte_len(lines@[i as int]@) <= isize::MAX);
                let ghost e0 = errors_view(errors@);
                let ic = captures_all(&inline_re, line);
                self.check_inline(&v, &ic, i + 1, &names, &mut errors);
                let rc = captures_all(&ref_re, line);
                self.check_refs(&v, &rc, &keys, &urls, i + 1, &names, &mut errors);
                assert(errors_view(errors@) =~= md042_scan(ls, defs, i + 1));
            }
            i = i + 1;
        }
        errors
    }

    fn check_inline(
        &self,
        v: &Vec<char>,
        caps: &Vec<Vec<Option<(usize, usize)>>>,
        ln: usize,
        names: &Vec<&'static str>,
        errors: &mut Vec<LintError>,
    )
        requires
            byte_len(v@) <= isize::MAX,
            forall|j: int| 0 <= j < caps@.len() ==> groups_in(v@, #[trigger] caps@[j]@),
            names_view(names@) == md042_meta().names,
        ensures
            errors_view(final(errors)@) == errors_view(old(errors)@) + inline_errors(
                v@,
                caps_view(caps@),
                ln as int,
                caps@.len() as int,
            ),
    {
        let ghost e0 = errors_view(errors@);
        let ghost cv = caps_view(caps@);
        let mut k: usize = 0;
        while k < caps.len()
            invariant
                k <= caps@.len(),
                cv == caps_view(caps@),
                byte_len(v@) <= isize::MAX,
                forall|j: int| 0 <= j < caps@.len() ==> groups_in(v@, #[trigger] caps@[j]@),
                names_view(names@) == md042_meta().names,
                errors_view(errors@) == e0 + inline_errors(v@, cv, ln as int, k as int),
            decreases caps@.len() - k,
        {
            let g = &caps[k];
            assert(cv[k as int] == g@);
            assert(groups_in(v@, caps@[k as int]@));
            let url = group_chars(v, g, 2);
            let us = string_of(&url);
            if Self::is_empty_or_fragment_only(us.as_str()) {
                let s0 = match g[0] {
                    Some(s) => s,
                    None => (0, 0),
                };
                assert(span_in(v@, s0));
                let (us_start, us_len) = group_info(g, 2, Ghost(v@));
                let ctx = group_chars(v, g, 0);
                let mut e = LintError::new(ln, names, self.description(), self.information());
                e.error_context = Some(string_of(&ctx));
                e.error_range = Some((s0.0 + 1, s0.1 - s0.0));
                e.fix_info = Some(
                    FixInfo {
                        line_number: None,
                        edit_column: Some(us_start + 1),
                        delete_count: Some(us_len as i32),
                        insert_text: Some(text("#link")),
                    },
                );
                e.suggestion = Some(text("Provide a URL or use '#' as a placeholder for the link destination"));
                let ghost b = errors_view(errors@);
                errors.push(e);
                assert(errors_view(errors@) =~= b.push(inline_error(v@, g@, ln as int)));
            }
            k = k + 1;
        }
    }

    fn check_refs(
        &self,
        v: &Vec<char>,
        caps: &Vec<Vec<Option<(usize, usize)>>>,
        keys: &Vec<Vec<char>>,
        urls: &Vec<Vec<char>>,
        ln: usize,
        names: &Vec<&'static str>,
        errors: &mut Vec<LintError>,
    )
        requires
            byte_len(v@) <= isize::MAX,
            keys@.len() == urls@.len(),
            forall|j: int| 0 <= j < caps@.len() ==> groups_in(v@, #[trigger] caps@[j]@),
            names_view(names@) == md042_meta().names,
        ensures
            errors_view(final(errors)@) == errors_view(old(errors)@) + reference_errors(
                v@,
                caps_view(caps@),
                defs_view(keys@, urls@),
                ln as int,
                caps@.len() as int,
            ),
    {
        let ghost e0 = errors_view(errors@);
        let ghost cv = caps_view(caps@);
        let ghost defs = defs_view(keys@, urls@);
        let mut k: usize = 0;
        while k < caps.len()
            invariant
                k <= caps@.len(),
                cv == caps_view(caps@),
                defs == defs_view(keys@, urls@),
                keys@.len() == urls@.len(),
                byte_len(v@) <= isize::MAX,
                forall|j: int| 0 <= j < caps@.len() ==> groups_in(v@, #[trigger] caps@[j]@),
                names_view(names@) == md042_meta().names,
                errors_view(errors@) == e0 + reference_errors(v@, cv, defs, ln as int, k as int),
            decreases caps@.len() - k,
        {
            let g = &caps[k];
            assert(cv[k as int] == g@);
            assert(groups_in(v@, caps@[k as int]@));
            let s0 = match g[0] {
                Some(s) => s,
                None => (0, 0),
            };
            assert(span_in(v@, s0));
            let ci = char_index_at_byte(v, s0.1);
            let paren = ci < v.len() && v[ci] == '(';
            if !paren {
                let r = group_chars(v, g, 2);
                let label = if r.len() > 0 {
                    r
                } else {
                    group_chars(v, g, 1)
                };
                let key = lowercase_vec(&trim_vec(&label));
                let mut j: usize = keys.len();
                let mut found: Option<usize> = None;
                while j > 0 && found.is_none()
                    invariant
                        j <= keys@.len(),
                        keys@.len() == urls@.len(),
                        defs == defs_view(keys@, urls@),
                        match found {
                            Some(x) => x < keys@.len() && lookup_def(defs, key@, defs.len() as int) == Some(urls@[x as int]@),
                            None => lookup_def(defs, key@, defs.len() as int) == lookup_def(defs, key@, j as int),
                        },
                    decreases j + (if found.is_none() {
                        1int
                    } else {
                        0int
                    }),
                {
                    if crate::text::eq_vec(&keys[j - 1], &key) {
                        found = Some(j - 1);
                    } else {
                        j = j - 1;
                    }
                }
                match found {
                    Some(x) => {
                        let us = string_of(&urls[x]);
                        if Self::is_empty_or_fragment_only(us.as_str()) {
                            let ctx = group_chars(v, g, 0);
                            let mut e = LintError::new(ln, names, self.description(), self.information());
                            e.error_context = Some(string_of(&ctx));
                            e.error_range = Some((s0.0 + 1, s0.1 - s0.0));
                            let ghost b = errors_view(errors@);
                            errors.push(e);
                            assert(errors_view(errors@) =~= b.push(reference_error(v@, g@, ln as int)));
                        }
                    },
                    None => {},
                }
            }
            k = k + 1;
        }
    }
}

} // verus!
