//! KMD009 - Attribute List Definitions must be referenced in the document.
//!
//! An ALD `{:name: attrs}` that no `{:name}` refers to is reported on the
//! line of its first definition, with a fix that deletes that line.

use vstd::prelude::*;
use crate::text::{
    byte_len, contains_vec, lemma_strip_eol_prefix, line_body, push_chars, push_str, starts_with,
    starts_with_str, strip_eol, string_of, text, vec_views, views,
};
use crate::types::{
    base_error, errors_view, fix_view, lines_fit, names_view, FixInfo, LintError, LintErrorView,
    ParserType, RuleMeta, RuleParams,
};
use crate::pattern::{
    captures, captures_all, compile, group_at, group_chars, regex_captures, regex_captures_all,
    regex_compiles,
};

verus! {

pub struct KMD009;

pub open spec fn kmd009_meta() -> RuleMeta {
    RuleMeta {
        names: seq!["KMD009"@, "ald-defs-used"@],
        description: "Attribute List Definitions must be referenced in the document"@,
        information: None,
    }
}

/// `{:name:` and a space, at the start of a line.
pub open spec fn ald_def_pattern() -> Seq<char> {
    "^\\{:([A-Za-z][\\w-]*):\\s"@
}

/// `{:name}` anywhere.
pub open spec fn ald_ref_pattern() -> Seq<char> {
    "\\{:([A-Za-z][\\w-]*)\\}"@
}

/// The names referenced by the first `k` matches `caps`.
pub open spec fn add_names(refs: Seq<Seq<char>>, t: Seq<char>, caps: Seq<Seq<Option<(usize, usize)>>>, k: int) -> Seq<Seq<char>>
    decreases k,
{
    if k <= 0 {
        refs
    } else {
        add_names(refs, t, caps, k - 1).push(group_at(t, caps[k - 1], 1))
    }
}

/// Whether the first `n` lines end inside a fenced block, the ALDs defined
/// in them (first definitions, with their lines) and the names referenced.
pub open spec fn kmd009_scan(ls: Seq<Seq<char>>, n: int) -> (bool, Seq<(Seq<char>, usize)>, Seq<Seq<char>>)
    decreases n,
{
    if n <= 0 {
        (false, seq![], seq![])
    } else {
        let prev = kmd009_scan(ls, n - 1);
        let t = strip_eol(ls[n - 1]);
        if starts_with(t, "```"@) || starts_with(t, "~~~"@) {
            (!prev.0, prev.1, prev.2)
        } else if prev.0 {
            prev
        } else {
            match regex_captures(ald_def_pattern(), t) {
                Some(g) => {
                    let name = group_at(t, g, 1);
                    if prev.1.map_values(|d: (Seq<char>, usize)| d.0).contains(name) {
                        prev
                    } else {
                        (prev.0, prev.1.push((name, n as usize)), prev.2)
                    }
                },
                None => {
                    let caps = regex_captures_all(ald_ref_pattern(), t);
                    (prev.0, prev.1, add_names(prev.2, t, caps, caps.len() as int))
                },
            }
        }
    }
}

pub open spec fn kmd009_error(name: Seq<char>, ln: usize) -> LintErrorView {
    LintErrorView {
        detail: Some("ALD '{:"@ + name + ":}' is defined but never referenced"@),
        fix: Some(fix_view(Some(ln), Some(1), Some(-1i32), None)),
        ..base_error(kmd009_meta(), ln as int)
    }
}

pub open spec fn kmd009_report(defs: Seq<(Seq<char>, usize)>, refs: Seq<Seq<char>>, k: int) -> Seq<LintErrorView>
    decreases k,
{
    if k <= 0 {
        seq![]
    } else {
        let prev = kmd009_report(defs, refs, k - 1);
        let d = defs[k - 1];
        if refs.contains(d.0) {
            prev
        } else {
            prev.push(kmd009_error(d.0, d.1))
        }
    }
}

/// The findings of KMD009 (none where a pattern is refused).
pub open spec fn kmd009_errors(ls: Seq<Seq<char>>) -> Seq<LintErrorView> {
    if regex_compiles(ald_def_pattern()) && regex_compiles(ald_ref_pattern()) {
        let s = kmd009_scan(ls, ls.len() as int);
        kmd009_report(s.1, s.2, s.1.len() as int)
    } else {
        seq![]
    }
}

pub open spec fn defs_view(names: Seq<Vec<char>>, lns: Seq<usize>) -> Seq<(Seq<char>, usize)> {
    Seq::new(names.len(), |j: int| (names[j]@, lns[j]))
}

impl KMD009 {
    pub fn names(&self) -> (r: Vec<&'static str>)
        ensures
            names_view(r@) == kmd009_meta().names,
    {
        let r = vec!["KMD009", "ald-defs-used"];
        assert(names_view(r@) =~= kmd009_meta().names);
        r
    }

    pub fn description(&self) -> (r: &'static str)
        ensures
            r@ == kmd009_meta().description,
    {
        "Attribute List Definitions must be referenced in the document"
    }

    pub fn tags(&self) -> (r: Vec<&'static str>)
        ensures
            names_view(r@) == seq!["kramdown"@, "ald"@, "attributes"@, "fixable"@],
    {
        let r = vec!["kramdown", "ald", "attributes", "fixable"];
        assert(names_view(r@) =~= seq!["kramdown"@, "ald"@, "attributes"@, "fixable"@]);
        r
    }

    pub fn parser_type(&self) -> (r: ParserType)
        ensures
            r == ParserType::Plain,
    {
        ParserType::Plain
    }

    pub fn is_enabled_by_default(&self) -> (r: bool)
        ensures
            !r,
    {
        false
    }

    pub fn lint(&self, params: &RuleParams) -> (errors: Vec<LintError>)
        requires
            lines_fit(params.lines@),
        ensures
            errors_view(errors@) == kmd009_errors(views(params.lines@)),
    {
        let lines = params.lines;
        let ghost ls = views(lines@);
        let mut errors: Vec<LintError> = Vec::new();
        let def_re = match compile("^\\{:([A-Za-z][\\w-]*):\\s") {
            Some(p) => p,
            None => {
                assert(errors_view(errors@) =~= seq![]);
                return errors;
            },
        };
        let ref_re = match compile("\\{:([A-Za-z][\\w-]*)\\}") {
            Some(p) => p,
            None => {
                assert(errors_view(errors@) =~= seq![]);
                return errors;
            },
        };
        let mut names_d: Vec<Vec<char>> = Vec::new();
        let mut lns: Vec<usize> = Vec::new();
        let mut refs: Vec<Vec<char>> = Vec::new();
        let mut in_code = false;
        let n = lines.len();
        let mut i: usize = 0;
        assert(defs_view(names_d@, lns@) =~= seq![]);
        assert(vec_views(refs@) =~= seq![]);
        while i < n
            invariant
                n == lines@.len(),
                i <= n,
                ls == views(lines@),
                lines_fit(lines@),
                def_re@ == ald_def_pattern(),
                ref_re@ == ald_ref_pattern(),
                names_d@.len() == lns@.len(),
                kmd009_scan(ls, i as int) == (in_code, defs_view(names_d@, lns@), vec_views(refs@)),
            decreases n - i,
        {
            let t = line_body(lines, i);
            proof {
                assert(byte_len(lines@[i as int]@) <= isize::MAX);
                lemma_strip_eol_prefix(lines@[i as int]@);
            }
            if starts_with_str(&t, "```") || starts_with_str(&t, "~~~") {
                in_code = !in_code;
            } else if !in_code {
                let ts = string_of(&t);
                match captures(&def_re, ts.as_str()) {
                    Some(g) => {
                        let name = group_chars(&t, &g, 1);
                        let ghost d0 = defs_view(names_d@, lns@);
                        assert(vec_views(names_d@) =~= d0.map_values(|d: (Seq<char>, usize)| d.0));
                        if !contains_vec(&names_d, &name) {
                            names_d.push(name);
                            lns.push(i + 1);
                            assert(defs_view(names_d@, lns@) =~= d0.push((group_at(t@, g@, 1), (i + 1) as usize)));
                        }
                    },
                    None => {
                        let caps = captures_all(&ref_re, ts.as_str());
                        let ghost cv = caps@.map_values(|g: Vec<Option<(usize, usize)>>| g@);
                        let ghost r0 = vec_views(refs@);
                        let mut k: usize = 0;
                        while k < caps.len()
                            invariant
                                k <= caps@.len(),
                                cv == caps@.map_values(|g: Vec<Option<(usize, usize)>>| g@),
                                byte_len(t@) <= isize::MAX,
                                vec_views(refs@) == add_names(r0, t@, cv, k as int),
                            decreases caps@.len() - k,
                        {
                            assert(cv[k as int] == caps@[k as int]@);
                            let name = group_chars(&t, &caps[k], 1);
                            refs.push(name);
                            k = k + 1;
                            assert(vec_views(refs@) =~= add_names(r0, t@, cv, k as int));
                        }
                    },
                }
            }
            i = i + 1;
        }
        let ghost s = kmd009_scan(ls, n as int);
        let names = self.names();
        let m = names_d.len();
        let mut k: usize = 0;
        assert(errors_view(errors@) =~= seq![]);
        while k < m
            invariant
                m == names_d@.len(),
                m == lns@.len(),
                k <= m,
                s.1 == defs_view(names_d@, lns@),
                s.2 == vec_views(refs@),
                names_view(names@) == kmd009_meta().names,
                errors_view(errors@) == kmd009_report(s.1, s.2, k as int),
            decreases m - k,
        {
            let name = &names_d[k];
            if !contains_vec(&refs, name) {
                let mut e = LintError::new(lns[k], &names, self.description(), None);
                let mut d = text("ALD '{:");
                push_chars(&mut d, name);
                push_str(&mut d, ":}' is defined but never referenced");
                e.error_detail = Some(d);
                e.fix_info = Some(
                    FixInfo {
                        line_number: Some(lns[k]),
                        edit_column: Some(1),
                        delete_count: Some(-1),
                        insert_text: None,
                    },
                );
                let ghost b = errors_view(errors@);
                errors.push(e);
                assert(errors_view(errors@) =~= b.push(kmd009_error(name@, lns@[k as int])));
            }
            k = k + 1;
        }
        errors
    }
}

} // verus!
