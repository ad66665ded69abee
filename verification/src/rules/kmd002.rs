//! KMD002 - Footnote references must have matching definitions.
//!
//! A footnote reference `[^label]` needs a definition `[^label]: text`;
//! labels are compared lowercased. Each undefined label is reported once, on
//! the line of its first reference, in the order of those lines, with a fix
//! that appends a definition to the document.

use vstd::prelude::*;
use crate::text::{
    byte_len, chars_of, contains_vec, lemma_strip_eol_prefix, line_body, lowercase, lowercase_vec,
    push_chars, push_str, starts_with, starts_with_str, strip_eol, text, utf8_byte_len, vec_views,
    views,
};
use crate::types::{
    base_error, errors_view, fix_view, lines_fit, names_view, FixInfo, LintError, LintErrorView,
    ParserType, RuleMeta, RuleParams,
};
use crate::pattern::{
    captures, captures_all, compile, group_at, group_chars, is_match, regex_captures,
    regex_captures_all, regex_compiles, regex_is_match,
};

verus! {

pub struct KMD002;

pub open spec fn kmd002_meta() -> RuleMeta {
    RuleMeta {
        names: seq!["KMD002"@, "footnote-refs-defined"@],
        description: "Footnote references must have matching definitions"@,
        information: None,
    }
}

/// `[^label]:` at the start of a line.
pub open spec fn footnote_def_pattern() -> Seq<char> {
    "^\\[\\^([^\\]]+)\\]:"@
}

/// Any `[^label]`.
pub open spec fn footnote_ref_pattern() -> Seq<char> {
    "\\[\\^([^\\]]+)\\]"@
}

/// A line that opens or closes a fenced code block.
pub open spec fn kmd002_fence(t: Seq<char>) -> bool {
    starts_with(t, "```"@) || starts_with(t, "~~~"@)
}

/// The labels referenced so far, each with the line of its first reference.
pub open spec fn add_refs(
    refs: Seq<(Seq<char>, usize)>,
    line: Seq<char>,
    caps: Seq<Seq<Option<(usize, usize)>>>,
    ln: usize,
    k: int,
) -> Seq<(Seq<char>, usize)>
    decreases k,
{
    if k <= 0 {
        refs
    } else {
        let prev = add_refs(refs, line, caps, ln, k - 1);
        let label = lowercase(group_at(line, caps[k - 1], 1));
        if prev.map_values(|r: (Seq<char>, usize)| r.0).contains(label) {
            prev
        } else {
            prev.push((label, ln))
        }
    }
}

/// Whether the first `n` lines end inside a fenced block, the lowercased
/// labels defined in them, and the labels referenced with their first line.
pub open spec fn kmd002_scan(ls: Seq<Seq<char>>, n: int) -> (bool, Seq<Seq<char>>, Seq<(Seq<char>, usize)>)
    decreases n,
{
    if n <= 0 {
        (false, seq![], seq![])
    } else {
        let prev = kmd002_scan(ls, n - 1);
        let line = ls[n - 1];
        let t = strip_eol(line);
        if kmd002_fence(t) {
            (!prev.0, prev.1, prev.2)
        } else if prev.0 {
            prev
        } else {
            let defs = match regex_captures(footnote_def_pattern(), line) {
                Some(g) => prev.1.push(lowercase(group_at(line, g, 1))),
                None => prev.1,
            };
            let refs = if regex_is_match(footnote_def_pattern(), line) {
                prev.2
            } else {
                let caps = regex_captures_all(footnote_ref_pattern(), line);
                add_refs(prev.2, line, caps, n as usize, caps.len() as int)
            };
            (prev.0, defs, refs)
        }
    }
}

pub open spec fn kmd002_error(label: Seq<char>, ln: usize, last_line: usize, last_len: int) -> LintErrorView {
    LintErrorView {
        detail: Some("Footnote reference '[^"@ + label + "]' has no definition"@),
        fix: Some(
            fix_view(Some(last_line), Some((last_len + 1) as usize), None, Some("\n[^"@ + label + "]: "@)),
        ),
        ..base_error(kmd002_meta(), ln as int)
    }
}

/// The findings for the first `k` referenced labels.
pub open spec fn kmd002_report(
    defs: Seq<Seq<char>>,
    refs: Seq<(Seq<char>, usize)>,
    last_line: usize,
    last_len: int,
    k: int,
) -> Seq<LintErrorView>
    decreases k,
{
    if k <= 0 {
        seq![]
    } else {
        let prev = kmd002_report(defs, refs, last_line, last_len, k - 1);
        let r = refs[k - 1];
        if defs.contains(r.0) {
            prev
        } else {
            prev.push(kmd002_error(r.0, r.1, last_line, last_len))
        }
    }
}

/// Bytes in the last line without its line ending, 0 without lines.
pub open spec fn last_line_len(ls: Seq<Seq<char>>) -> int {
    if ls.len() > 0 {
        byte_len(strip_eol(ls.last())) as int
    } else {
        0
    }
}

/// The findings of KMD002 (none where a pattern is refused).
pub open spec fn kmd002_errors(ls: Seq<Seq<char>>) -> Seq<LintErrorView> {
    if regex_compiles(footnote_def_pattern()) && regex_compiles(footnote_ref_pattern()) {
        let s = kmd002_scan(ls, ls.len() as int);
        kmd002_report(s.1, s.2, ls.len() as usize, last_line_len(ls), s.2.len() as int)
    } else {
        seq![]
    }
}

pub open spec fn refs_view(labels: Seq<Vec<char>>, lines: Seq<usize>) -> Seq<(Seq<char>, usize)> {
    Seq::new(labels.len(), |j: int| (labels[j]@, lines[j]))
}

impl KMD002 {
    pub fn names(&self) -> (r: Vec<&'static str>)
        ensures
            names_view(r@) == kmd002_meta().names,
    {
        let r = vec!["KMD002", "footnote-refs-defined"];
        assert(names_view(r@) =~= kmd002_meta().names);
        r
    }

    pub fn description(&self) -> (r: &'static str)
        ensures
            r@ == kmd002_meta().description,
    {
        "Footnote references must have matching definitions"
    }

    pub fn tags(&self) -> (r: Vec<&'static str>)
        ensures
            names_view(r@) == seq!["kramdown"@, "footnotes"@, "fixable"@],
    {
        let r = vec!["kramdown", "footnotes", "fixable"];
        assert(names_view(r@) =~= seq!["kramdown"@, "footnotes"@, "fixable"@]);
        r
    }

    pub fn parser_type(&self) -> (r: ParserType)
        ensures
            r == ParserType::Plain,
    {
        ParserType::Plain
    }

    pub fn is_enabled_by_default(&self) -> (r: bool)
        ensures
            !r,
    {
        false
    }

    pub fn lint(&self, params: &RuleParams) -> (errors: Vec<LintError>)
        requires
            lines_fit(params.lines@),
        ensures
            errors_view(errors@) == kmd002_errors(views(params.lines@)),
    {
        let lines = params.lines;
        let ghost ls = views(lines@);
        let mut errors: Vec<LintError> = Vec::new();
        let def_re = match compile("^\\[\\^([^\\]]+)\\]:") {
            Some(p) => p,
            None => {
                assert(errors_view(errors@) =~= seq![]);
                return errors;
            },
        };
        let ref_re = match compile("\\[\\^([^\\]]+)\\]") {
            Some(p) => p,
            None => {
                assert(errors_view(errors@) =~= seq![]);
                return errors;
            },
        };
        let mut defs: Vec<Vec<char>> = Vec::new();
        let mut labels: Vec<Vec<char>> = Vec::new();
        let mut firsts: Vec<usize> = Vec::new();
        let mut in_code = false;
        let n = lines.len();
        let mut i: usize = 0;
        assert(refs_view(labels@, firsts@) =~= seq![]);
        assert(vec_views(defs@) =~= seq![]);
        while i < n
            invariant
                n == lines@.len(),
                i <= n,
                ls == views(lines@),
                lines_fit(lines@),
                def_re@ == footnote_def_pattern(),
                ref_re@ == footnote_ref_pattern(),
                labels@.len() == firsts@.len(),
                kmd002_scan(ls, i as int) == (in_code, vec_views(defs@), refs_view(labels@, firsts@)),
            decreases n - i,
        {
            let line = lines[i];
            let t = line_body(lines, i);
            if starts_with_str(&t, "```") || starts_with_str(&t, "~~~") {
                in_code = !in_code;
            } else if !in_code {
                let v = chars_of(line);
                assert(byte_len(lines@[i as int]@) <= isize::MAX);
                match captures(&def_re, line) {
                    Some(g) => {
                        let label = group_chars(&v, &g, 1);
                        defs.push(lowercase_vec(&label));
                    },
                    None => {},
                }
                assert(vec_views(defs@) =~= kmd002_scan(ls, i + 1).1);
                if !is_match(&def_re, line) {
                    let caps = captures_all(&ref_re, line);
                    let ghost r0 = refs_view(labels@, firsts@);
                    let ghost cv = caps@.map_values(|g: Vec<Option<(usize, usize)>>| g@);
                    let mut k: usize = 0;
                    while k < caps.len()
                        invariant
                            k <= caps@.len(),
                            i < n,
                            cv == caps@.map_values(|g: Vec<Option<(usize, usize)>>| g@),
                            byte_len(v@) <= isize::MAX,
                            v@ == line@,
                            labels@.len() == firsts@.len(),
                            refs_view(labels@, firsts@) == add_refs(r0, line@, cv, (i + 1) as usize, k as int),
                        decreases caps@.len() - k,
                    {
                        assert(cv[k as int] == caps@[k as int]@);
                        let label = group_chars(&v, &caps[k], 1);
                        let low = lowercase_vec(&label);
                        let ghost rv = refs_view(labels@, firsts@);
                        assert(vec_views(labels@) =~= rv.map_values(|r: (Seq<char>, usize)| r.0));
                        if !contains_vec(&labels, &low) {
                            labels.push(low);
                            firsts.push(i + 1);
                            assert(refs_view(labels@, firsts@) =~= rv.push((lowercase(label@), (i + 1) as usize)));
                        }
                        k = k + 1;
                    }
                }
                assert(refs_view(labels@, firsts@) =~= kmd002_scan(ls, i + 1).2);
            }
            i = i + 1;
        }
        let ghost s = kmd002_scan(ls, n as int);
        let last_len: usize = if n > 0 {
            let t = line_body(lines, n - 1);
            proof {
                assert(byte_len(lines@[n - 1]@) <= isize::MAX);
                lemma_strip_eol_prefix(lines@[n - 1]@);
            }
            utf8_byte_len(&t)
        } else {
            0
        };
        assert(last_len == last_line_len(ls));
        let names = self.names();
        let m = labels.len();
        let mut k: usize = 0;
        assert(errors_view(errors@) =~= seq![]);
        while k < m
            invariant
                m == labels@.len(),
                m == firsts@.len(),
                k <= m,
                s.1 == vec_views(defs@),
                s.2 == refs_view(labels@, firsts@),
                last_len as int == last_line_len(ls),
                last_len <= isize::MAX,
                names_view(names@) == kmd002_meta().names,
                errors_view(errors@) == kmd002_report(s.1, s.2, n as usize, last_len as int, k as int),
            decreases m - k,
        {
            let label = &labels[k];
            if !contains_vec(&defs, label) {
                let mut e = LintError::new(firsts[k], &names, self.description(), None);
                let mut d = text("Footnote reference '[^");
                push_chars(&mut d, label);
                push_str(&mut d, "]' has no definition");
                e.error_detail = Some(d);
                let mut ins = text("\n[^");
                push_chars(&mut ins, label);
                push_str(&mut ins, "]: ");
                e.fix_info = Some(
                    FixInfo {
                        line_number: Some(n),
                        edit_column: Some(last_len + 1),
                        delete_count: None,
                        insert_text: Some(ins),
                    },
                );
                let ghost b = errors_view(errors@);
                errors.push(e);
                assert(errors_view(errors@) =~= b.push(kmd002_error(label@, firsts@[k as int], n as usize, last_len as int)));
            }
            k = k + 1;
        }
        errors
    }
}

} // verus!
