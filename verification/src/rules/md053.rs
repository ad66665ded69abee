//! MD053 - Link and image reference definitions should be needed.
//!
//! A reference definition whose label no full, collapsed or shortcut
//! reference uses is reported, with a fix that deletes it. Labels are
//! compared lowercased; the `ignored_definitions` option (default `["//"]`)
//! lists labels that are never reported. Fenced code is skipped.

use vstd::prelude::*;
use crate::text::{
    byte_len, chars_of, contains_vec, lowercase, lowercase_vec, push_chars, push_str, starts_with,
    starts_with_str, string_of, text, trim_start, trim_start_vec, vec_views, views,
};
use crate::types::{
    base_error, errors_view, fix_view, lines_fit, names_view, opt_str, FixInfo, LintError,
    LintErrorView, ParserType, RuleMeta, RuleParams,
};
use crate::config::{Config, ConfigValue};
use crate::pattern::{
    captures, captures_all, compile, group_at, group_chars, regex_captures, regex_captures_all,
    regex_compiles,
};

verus! {

pub struct MD053;

pub open spec fn md053_meta() -> RuleMeta {
    RuleMeta {
        names: seq!["MD053"@, "link-image-reference-definitions"@],
        description: "Link and image reference definitions should be needed"@,
        information: Some("https://github.com/DavidAnson/markdownlint/blob/main/doc/md053.md"@),
    }
}

/// `[label]:` and whitespace, at the start of a line.
pub open spec fn md053_def_pattern() -> Seq<char> {
    "^\\s*\\[([^\\]]+)\\]:\\s+"@
}

/// `[text][label]`
pub open spec fn md053_full_pattern() -> Seq<char> {
    "\\[([^\\]]*)\\]\\[([^\\]]+)\\]"@
}

/// `[label][]`
pub open spec fn md053_collapsed_pattern() -> Seq<char> {
    "\\[([^\\]]+)\\]\\[\\]"@
}

/// `[label]` not followed by `(`, `[` or `:`.
pub open spec fn md053_shortcut_pattern() -> Seq<char> {
    "\\[([^\\]]+)\\](?:[^(\\[:]|$)"@
}

pub open spec fn md053_compiles() -> bool {
    &&& regex_compiles(md053_def_pattern())
    &&& regex_compiles(md053_full_pattern())
    &&& regex_compiles(md053_collapsed_pattern())
    &&& regex_compiles(md053_shortcut_pattern())
}

/// The labels never reported: the option when it is an array of strings,
/// else `["//"]`.
pub open spec fn md053_ignored(c: Config) -> Seq<Seq<char>> {
    match c.lookup("ignored_definitions"@) {
        Some(ConfigValue::Array(v)) => if forall|j: int| 0 <= j < v@.len() ==> (#[trigger] v@[j]) is Some {
            v@.map_values(|x: Option<String>| x.unwrap()@)
        } else {
            seq!["//"@]
        },
        _ => seq!["//"@],
    }
}

/// A line that opens or closes a fenced code block.
pub open spec fn md053_fence(line: Seq<char>) -> bool {
    let t = trim_start(line);
    starts_with(t, "```"@) || starts_with(t, "~~~"@)
}

/// Whether the first `n` lines end in a fenced block, and the definitions
/// (lowercased label, line) that are not ignored.
pub open spec fn md053_defs(ls: Seq<Seq<char>>, ignored: Seq<Seq<char>>, n: int) -> (bool, Seq<(Seq<char>, usize)>)
    decreases n,
{
    if n <= 0 {
        (false, seq![])
    } else {
        let prev = md053_defs(ls, ignored, n - 1);
        let line = ls[n - 1];
        if md053_fence(line) {
            (!prev.0, prev.1)
        } else if prev.0 {
            prev
        } else {
            match regex_captures(md053_def_pattern(), line) {
                Some(g) => {
                    let label = lowercase(group_at(line, g, 1));
                    if ignored.contains(label) {
                        prev
                    } else {
                        (prev.0, prev.1.push((label, n as usize)))
                    }
                },
                None => prev,
            }
        }
    }
}

/// The lowercased labels of group `gi` of the first `k` matches.
pub open spec fn used_labels(used: Seq<Seq<char>>, line: Seq<char>, caps: Seq<Seq<Option<(usize, usize)>>>, gi: int, k: int) -> Seq<Seq<char>>
    decreases k,
{
    if k <= 0 {
        used
    } else {
        used_labels(used, line, caps, gi, k - 1).push(lowercase(group_at(line, caps[k - 1], gi)))
    }
}

/// Whether the first `n` lines end in a fenced block, and the labels used.
pub open spec fn md053_used(ls: Seq<Seq<char>>, n: int) -> (bool, Seq<Seq<char>>)
    decreases n,
{
    if n <= 0 {
        (false, seq![])
    } else {
        let prev = md053_used(ls, n - 1);
        let line = ls[n - 1];
        if md053_fence(line) {
            (!prev.0, prev.1)
        } else if prev.0 {
            prev
        } else {
            let f = regex_captures_all(md053_full_pattern(), line);
            let c = regex_captures_all(md053_collapsed_pattern(), line);
            let s = regex_captures_all(md053_shortcut_pattern(), line);
            let u1 = used_labels(prev.1, line, f, 2, f.len() as int);
            let u2 = used_labels(u1, line, c, 1, c.len() as int);
            (prev.0, used_labels(u2, line, s, 1, s.len() as int))
        }
    }
}

pub open spec fn md053_error(label: Seq<char>, ln: usize) -> LintErrorView {
    LintErrorView {
        detail: Some("Unused reference definition \""@ + label + "\""@),
        fix: Some(fix_view(Some(ln), Some(1), Some(-1i32), None)),
        suggestion: Some("Remove this unused link definition"@),
        ..base_error(md053_meta(), ln as int)
    }
}

pub open spec fn md053_report(defs: Seq<(Seq<char>, usize)>, used: Seq<Seq<char>>, k: int) -> Seq<LintErrorView>
    decreases k,
{
    if k <= 0 {
        seq![]
    } else {
        let prev = md053_report(defs, used, k - 1);
        let d = defs[k - 1];
        if used.contains(d.0) {
            prev
        } else {
            prev.push(md053_error(d.0, d.1))
        }
    }
}

/// The findings of MD053 (none where a pattern is refused).
pub open spec fn md053_errors(ls: Seq<Seq<char>>, c: Config) -> Seq<LintErrorView> {
    if md053_compiles() {
        let ignored = md053_ignored(c).map_values(|s: Seq<char>| lowercase(s));
        let defs = md053_defs(ls, ignored, ls.len() as int).1;
        md053_report(defs, md053_used(ls, ls.len() as int).1, defs.len() as int)
    } else {
        seq![]
    }
}

pub open spec fn defs_view(labels: Seq<Vec<char>>, lns: Seq<usize>) -> Seq<(Seq<char>, usize)> {
    Seq::new(labels.len(), |j: int| (labels[j]@, lns[j]))
}

/// Check if a code fence opens or closes a fenced block.
pub fn is_code_fence(line: &str) -> (r: bool)
    ensures
        r == md053_fence(line@),
{
    let v = chars_of(line);
    let t = trim_start_vec(&v);
    starts_with_str(&t, "```") || starts_with_str(&t, "~~~")
}

/// Check if a label is one of the ignored ones.
pub fn is_ignored(label: &str, ignored_definitions: &Vec<String>) -> (r: bool)
    ensures
        r == ignored_definitions@.map_values(|s: String| s@).contains(label@),
{
    let lv = chars_of(label);
    let mut i: usize = 0;
    while i < ignored_definitions.len()
        invariant
            i <= ignored_definitions@.len(),
            lv@ == label@,
            forall|j: int| 0 <= j < i ==> (#[trigger] ignored_definitions@[j])@ != label@,
        decreases ignored_definitions@.len() - i,
    {
        let p = chars_of(ignored_definitions[i].as_str());
        if crate::text::eq_vec(&p, &lv) {
            assert(ignored_definitions@.map_values(|s: String| s@)[i as int] == label@);
            return true;
        }
        i = i + 1;
    }
    proof {
        let m = ignored_definitions@.map_values(|s: String| s@);
        if m.contains(label@) {
            let j = choose|j: int| 0 <= j < m.len() && m[j] == label@;
            assert(ignored_definitions@[j]@ == label@);
        }
    }
    false
}

/// The configured ignored labels.
fn ignored_of(config: &Config) -> (r: Vec<String>)
    ensures
        r@.map_values(|s: String| s@) == md053_ignored(*config),
{
    match config.get("ignored_definitions") {
        Some(ConfigValue::Array(v)) => {
            let mut r: Vec<String> = Vec::new();
            let mut i: usize = 0;
            while i < v.len()
                invariant
                    i <= v@.len(),
                    config.lookup("ignored_definitions"@) == Some(ConfigValue::Array(*v)),
                    forall|j: int| 0 <= j < i ==> (#[trigger] v@[j]) is Some,
                    r@.map_values(|s: String| s@) == v@.take(i as int).map_values(|x: Option<String>| x.unwrap()@),
                decreases v@.len() - i,
            {
                let ghost r0 = r@.map_values(|s: String| s@);
                match &v[i] {
                    Some(s) => {
                        r.push(string_of(&chars_of(s.as_str())));
                        assert(r@.map_values(|s: String| s@) =~= r0.push(s@));
                        assert(v@.take(i + 1) =~= v@.take(i as int).push(v@[i as int]));
                    },
                    None => {
                        assert(!(v@[i as int] is Some));
                        let mut d: Vec<String> = Vec::new();
                        d.push(text("//"));
                        assert(d@.map_values(|s: String| s@) =~= seq!["//"@]);
                        return d;
                    },
                }
                i = i + 1;
                assert(r@.map_values(|s: String| s@) =~= v@.take(i as int).map_values(|x: Option<String>| x.unwrap()@));
            }
            assert(v@.take(v@.len() as int) =~= v@);
            r
        },
        _ => {
            let mut d: Vec<String> = Vec::new();
            d.push(text("//"));
            assert(d@.map_values(|s: String| s@) =~= seq!["//"@]);
            d
        },
    }
}

fn add_used(used: &mut Vec<Vec<char>>, v: &Vec<char>, caps: &Vec<Vec<Option<(usize, usize)>>>, gi: usize)
    requires
        byte_len(v@) <= isize::MAX,
    ensures
        vec_views(final(used)@) == used_labels(
            vec_views(old(used)@),
            v@,
            caps@.map_values(|g: Vec<Option<(usize, usize)>>| g@),
            gi as int,
            caps@.len() as int,
        ),
{
    let ghost u0 = vec_views(used@);
    let ghost cv = caps@.map_values(|g: Vec<Option<(usize, usize)>>| g@);
    let mut k: usize = 0;
    while k < caps.len()
        invariant
            k <= caps@.len(),
            cv == caps@.map_values(|g: Vec<Option<(usize, usize)>>| g@),
            byte_len(v@) <= isize::MAX,
            vec_views(used@) == used_labels(u0, v@, cv, gi as int, k as int),
        decreases caps@.len() - k,
    {
        assert(cv[k as int] == caps@[k as int]@);
        let label = group_chars(v, &caps[k], gi);
        used.push(lowercase_vec(&label));
        k = k + 1;
        assert(vec_views(used@) =~= used_labels(u0, v@, cv, gi as int, k as int));
    }
}

impl MD053 {
    pub fn names(&self) -> (r: Vec<&'static str>)
        ensures
            names_view(r@) == md053_meta().names,
    {
        let r = vec!["MD053", "link-image-reference-definitions"];
        assert(names_view(r@) =~= md053_meta().names);
        r
    }

    pub fn description(&self) -> (r: &'static str)
        ensures
            r@ == md053_meta().description,
    {
        "Link and image reference definitions should be needed"
    }

    pub fn tags(&self) -> (r: Vec<&'static str>)
        ensures
            names_view(r@) == seq!["links"@, "images"@, "fixable"@],
    {
        let r = vec!["links", "images", "fixable"];
        assert(names_view(r@) =~= seq!["links"@, "images"@, "fixable"@]);
        r
    }

    pub fn parser_type(&self) -> (r: ParserType)
        ensures
            r == ParserType::Plain,
    {
        ParserType::Plain
    }

    pub fn information(&self) -> (r: Option<&'static str>)
        ensures
            opt_str(r) == md053_meta().information,
    {
        Some("https://github.com/DavidAnson/markdownlint/blob/main/doc/md053.md")
    }

    pub fn lint(&self, params: &RuleParams) -> (errors: Vec<LintError>)
        requires
            lines_fit(params.lines@),
        ensures
            errors_view(errors@) == md053_errors(views(params.lines@), *params.config),
    {
        let lines = params.lines;
        let ghost ls = views(lines@);
        let mut errors: Vec<LintError> = Vec::new();
        let def_re = match compile("^\\s*\\[([^\\]]+)\\]:\\s+") {
            Some(p) => p,
            None => {
                assert(errors_view(errors@) =~= seq![]);
                return errors;
            },
        };
        let full_re = match compile("\\[([^\\]]*)\\]\\[([^\\]]+)\\]") {
            Some(p) => p,
            None => {
                assert(errors_view(errors@) =~= seq![]);
                return errors;
            },
        };
        let coll_re = match compile("\\[([^\\]]+)\\]\\[\\]") {
            Some(p) => p,
            None => {
                assert(errors_view(errors@) =~= seq![]);
                return errors;
            },
        };
        let short_re = match compile("\\[([^\\]]+)\\](?:[^(\\[:]|$)") {
            Some(p) => p,
            None => {
                assert(errors_view(errors@) =~= seq![]);
                return errors;
            },
        };
        let ignored = ignored_of(params.config);
        let mut ignored_lower: Vec<String> = Vec::new();
        let mut q: usize = 0;
        while q < ignored.len()
            invariant
                q <= ignored@.len(),
                ignored_lower@.map_values(|s: String| s@) == ignored@.take(q as int).map_values(|s: String| lowercase(s@)),
            decreases ignored@.len() - q,
        {
            let ghost r0 = ignored_lower@.map_values(|s: String| s@);
            let low = crate::text::to_lowercase(ignored[q].as_str());
            ignored_lower.push(low);
            assert(ignored_lower@.map_values(|s: String| s@) =~= r0.push(lowercase(ignored@[q as int]@)));
            assert(ignored@.take(q + 1) =~= ignored@.take(q as int).push(ignored@[q as int]));
            q = q + 1;
            assert(ignored_lower@.map_values(|s: String| s@) =~= ignored@.take(q as int).map_values(|s: String| lowercase(s@)));
        }
        let ghost ig = md053_ignored(*params.config).map_values(|s: Seq<char>| lowercase(s));
        assert(ignored@.take(ignored@.len() as int) =~= ignored@);
        assert(ignored_lower@.map_values(|s: String| s@) =~= ig);
        let n = lines.len();
        let mut labels: Vec<Vec<char>> = Vec::new();
        let mut lns: Vec<usize> = Vec::new();
        let mut in_code = false;
        let mut i: usize = 0;
        assert(defs_view(labels@, lns@) =~= seq![]);
        while i < n
            invariant
                n == lines@.len(),
                i <= n,
                ls == views(lines@),
                lines_fit(lines@),
                def_re@ == md053_def_pattern(),
                ignored_lower@.map_values(|s: String| s@) == ig,
                labels@.len() == lns@.len(),
                md053_defs(ls, ig, i as int) == (in_code, defs_view(labels@, lns@)),
            decreases n - i,
        {
            let line = lines[i];
            if is_code_fence(line) {
                in_code = !in_code;
            } else if !in_code {
                match captures(&def_re, line) {
                    Some(g) => {
                        let v = chars_of(line);
                        assert(byte_len(lines@[i as int]@) <= isize::MAX);
                        let label = group_chars(&v, &g, 1);
                        let low = lowercase_vec(&label);
                        let ls_str = string_of(&low);
                        if !is_ignored(ls_str.as_str(), &ignored_lower) {
                            let ghost d0 = defs_view(labels@, lns@);
                            labels.push(low);
                            lns.push(i + 1);
                            assert(defs_view(labels@, lns@) =~= d0.push((lowercase(label@), (i + 1) as usize)));
                        }
                    },
                    None => {},
                }
            }
            i = i + 1;
        }
        let mut used: Vec<Vec<char>> = Vec::new();
        in_code = false;
        i = 0;
        assert(vec_views(used@) =~= seq![]);
        while i < n
            invariant
                n == lines@.len(),
                i <= n,
                ls == views(lines@),
                lines_fit(lines@),
                full_re@ == md053_full_pattern(),
                coll_re@ == md053_collapsed_pattern(),
                short_re@ == md053_shortcut_pattern(),
                md053_used(ls, i as int) == (in_code, vec_views(used@)),
            decreases n - i,
        {
            let line = lines[i];
            if is_code_fence(line) {
                in_code = !in_code;
            } else if !in_code {
                let v = chars_of(line);
                assert(byte_len(lines@[i as int]@) <= isize::MAX);
                let f = captures_all(&full_re, line);
                add_used(&mut used, &v, &f, 2);
                let c = captures_all(&coll_re, line);
                add_used(&mut used, &v, &c, 1);
                let s = captures_all(&short_re, line);
                add_used(&mut used, &v, &s, 1);
            }
            i = i + 1;
        }
        let ghost defs = defs_view(labels@, lns@);
        let ghost uv = vec_views(used@);
        let names = self.names();
        let m = labels.len();
        let mut k: usize = 0;
        assert(errors_view(errors@) =~= seq![]);
        while k < m
            invariant
                m == labels@.len(),
                m == lns@.len(),
                k <= m,
                defs == defs_view(labels@, lns@),
                uv == vec_views(used@),
                names_view(names@) == md053_meta().names,
                errors_view(errors@) == md053_report(defs, uv, k as int),
            decreases m - k,
        {
            let label = &labels[k];
            if !contains_vec(&used, label) {
                let mut e = LintError::new(lns[k], &names, self.description(), self.information());
                let mut d = text("Unused reference definition \"");
                push_chars(&mut d, label);
                push_str(&mut d, "\"");
                e.error_detail = Some(d);
                e.fix_info = Some(
                    FixInfo {
                        line_number: Some(lns[k]),
                        edit_column: Some(1),
                        delete_count: Some(-1),
                        insert_text: None,
                    },
                );
                e.suggestion = Some(text("Remove this unused link definition"));
                let ghost b = errors_view(errors@);
                errors.push(e);
                assert(errors_view(errors@) =~= b.push(md053_error(label@, lns@[k as int])));
            }
            k = k + 1;
        }
        errors
    }
}

} // verus!
