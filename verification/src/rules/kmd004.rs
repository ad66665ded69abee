//! KMD004 - Abbreviation definitions should be used in document text.
//!
//! An abbreviation `*[TERM]: expansion` whose term occurs nowhere in the
//! document's other lines is reported, with a fix that deletes the
//! definition line.

use vstd::prelude::*;
use crate::text::{
    byte_len, chars_of, contains_seq, contains_str, line_body, push_str, starts_with,
    starts_with_str, strip_eol, string_of, text, views,
};
use crate::types::{
    base_error, errors_view, fix_view, lines_fit, names_view, FixInfo, LintError, LintErrorView,
    ParserType, RuleMeta, RuleParams,
};
use crate::pattern::{
    captures, compile, group_at, group_chars, is_match, regex_captures, regex_compiles,
    regex_is_match,
};

verus! {

pub struct KMD004;

pub open spec fn kmd004_meta() -> RuleMeta {
    RuleMeta {
        names: seq!["KMD004"@, "abbreviation-defs-used"@],
        description: "Abbreviation definitions should be used in document text"@,
        information: None,
    }
}

/// `*[TERM]:` at the start of a line.
pub open spec fn abbr_def_pattern() -> Seq<char> {
    "^\\*\\[([^\\]]+)\\]:"@
}

/// Whether the first `n` lines end inside a fenced block, and the
/// abbreviations defined outside fenced blocks with their lines.
pub open spec fn kmd004_scan(ls: Seq<Seq<char>>, n: int) -> (bool, Seq<(Seq<char>, usize)>)
    decreases n,
{
    if n <= 0 {
        (false, seq![])
    } else {
        let prev = kmd004_scan(ls, n - 1);
        let line = ls[n - 1];
        let t = strip_eol(line);
        if starts_with(t, "```"@) || starts_with(t, "~~~"@) {
            (!prev.0, prev.1)
        } else if prev.0 {
            prev
        } else {
            match regex_captures(abbr_def_pattern(), line) {
                Some(g) => (prev.0, prev.1.push((group_at(line, g, 1), n as usize))),
                None => prev,
            }
        }
    }
}

/// The first `n` lines that are not definitions, without line endings,
/// joined by `\n`.
pub open spec fn body_text(ls: Seq<Seq<char>>, n: int) -> (bool, Seq<char>)
    decreases n,
{
    if n <= 0 {
        (false, seq![])
    } else {
        let prev = body_text(ls, n - 1);
        let line = ls[n - 1];
        if regex_is_match(abbr_def_pattern(), line) {
            prev
        } else if prev.0 {
            (true, prev.1 + "\n"@ + strip_eol(line))
        } else {
            (true, strip_eol(line))
        }
    }
}

pub open spec fn kmd004_error(term: Seq<char>, ln: usize) -> LintErrorView {
    LintErrorView {
        detail: Some("Abbreviation '"@ + term + "' is defined but never used in text"@),
        fix: Some(fix_view(Some(ln), Some(1), Some(-1i32), None)),
        ..base_error(kmd004_meta(), ln as int)
    }
}

pub open spec fn kmd004_report(abbrs: Seq<(Seq<char>, usize)>, body: Seq<char>, k: int) -> Seq<LintErrorView>
    decreases k,
{
    if k <= 0 {
        seq![]
    } else {
        let prev = kmd004_report(abbrs, body, k - 1);
        let a = abbrs[k - 1];
        if contains_seq(body, a.0) {
            prev
        } else {
            prev.push(kmd004_error(a.0, a.1))
        }
    }
}

/// The findings of KMD004 (none where the pattern is refused).
pub open spec fn kmd004_errors(ls: Seq<Seq<char>>) -> Seq<LintErrorView> {
    let abbrs = kmd004_scan(ls, ls.len() as int).1;
    if regex_compiles(abbr_def_pattern()) && abbrs.len() > 0 {
        kmd004_report(abbrs, body_text(ls, ls.len() as int).1, abbrs.len() as int)
    } else {
        seq![]
    }
}

pub open spec fn abbrs_view(terms: Seq<Vec<char>>, lns: Seq<usize>) -> Seq<(Seq<char>, usize)> {
    Seq::new(terms.len(), |j: int| (terms[j]@, lns[j]))
}

impl KMD004 {
    pub fn names(&self) -> (r: Vec<&'static str>)
        ensures
            names_view(r@) == kmd004_meta().names,
    {
        let r = vec!["KMD004", "abbreviation-defs-used"];
        assert(names_view(r@) =~= kmd004_meta().names);
        r
    }

    pub fn description(&self) -> (r: &'static str)
        ensures
            r@ == kmd004_meta().description,
    {
        "Abbreviation definitions should be used in document text"
    }

    pub fn tags(&self) -> (r: Vec<&'static str>)
        ensures
            names_view(r@) == seq!["kramdown"@, "abbreviations"@, "fixable"@],
    {
        let r = vec!["kramdown", "abbreviations", "fixable"];
        assert(names_view(r@) =~= seq!["kramdown"@, "abbreviations"@, "fixable"@]);
        r
    }

    pub fn parser_type(&self) -> (r: ParserType)
        ensures
            r == ParserType::Plain,
    {
        ParserType::Plain
    }

    pub fn is_enabled_by_default(&self) -> (r: bool)
        ensures
            !r,
    {
        false
    }

    pub fn lint(&self, params: &RuleParams) -> (errors: Vec<LintError>)
        requires
            lines_fit(params.lines@),
        ensures
            errors_view(errors@) == kmd004_errors(views(params.lines@)),
    {
        let lines = params.lines;
        let ghost ls = views(lines@);
        let mut errors: Vec<LintError> = Vec::new();
        let def_re = match compile("^\\*\\[([^\\]]+)\\]:") {
            Some(p) => p,
            None => {
                assert(errors_view(errors@) =~= seq![]);
                return errors;
            },
        };
        let mut terms: Vec<Vec<char>> = Vec::new();
        let mut lns: Vec<usize> = Vec::new();
        let mut in_code = false;
        let n = lines.len();
        let mut i: usize = 0;
        assert(abbrs_view(terms@, lns@) =~= seq![]);
        while i < n
            invariant
                n == lines@.len(),
                i <= n,
                ls == views(lines@),
                lines_fit(lines@),
                def_re@ == abbr_def_pattern(),
                terms@.len() == lns@.len(),
                kmd004_scan(ls, i as int) == (in_code, abbrs_view(terms@, lns@)),
            decreases n - i,
        {
            let line = lines[i];
            let t = line_body(lines, i);
            if starts_with_str(&t, "```") || starts_with_str(&t, "~~~") {
                in_code = !in_code;
            } else if !in_code {
                match captures(&def_re, line) {
                    Some(g) => {
                        let v = chars_of(line);
                        assert(byte_len(lines@[i as int]@) <= isize::MAX);
                        let term = group_chars(&v, &g, 1);
                        let ghost a0 = abbrs_view(terms@, lns@);
                        terms.push(term);
                        lns.push(i + 1);
                        assert(abbrs_view(terms@, lns@) =~= a0.push((group_at(line@, g@, 1), (i + 1) as usize)));
                    },
                    None => {},
                }
            }
            i = i + 1;
        }
        if terms.len() == 0 {
            assert(errors_view(errors@) =~= seq![]);
            return errors;
        }
        let mut body: Vec<char> = Vec::new();
        let mut started = false;
        let mut j: usize = 0;
        while j < n
            invariant
                n == lines@.len(),
                j <= n,
                ls == views(lines@),
                def_re@ == abbr_def_pattern(),
                body_text(ls, j as int) == (started, body@),
                !started ==> body@.len() == 0,
            decreases n - j,
        {
            let line = lines[j];
            if !is_match(&def_re, line) {
                let t = line_body(lines, j);
                let ghost b0 = body@;
                if started {
                    body.push('\n');
                }
                let mut q: usize = 0;
                let ghost b1 = body@;
                while q < t.len()
                    invariant
                        q <= t@.len(),
                        body@ == b1 + t@.take(q as int),
                    decreases t@.len() - q,
                {
                    body.push(t[q]);
                    q = q + 1;
                    assert(body@ =~= b1 + t@.take(q as int));
                }
                assert(t@.take(t@.len() as int) =~= t@);
                proof {
                    reveal_strlit("\n");
                }
                assert(ls[j as int] == line@);
                if started {
                    assert(body@ =~= b0 + "\n"@ + strip_eol(line@));
                } else {
                    assert(body@ =~= strip_eol(line@));
                }
                assert(body@ =~= body_text(ls, j + 1).1);
                started = true;
            }
            j = j + 1;
        }
        let ghost abbrs = abbrs_view(terms@, lns@);
        let names = self.names();
        let m = terms.len();
        let mut k: usize = 0;
        assert(errors_view(errors@) =~= seq![]);
        while k < m
            invariant
                m == terms@.len(),
                m == lns@.len(),
                k <= m,
                abbrs == abbrs_view(terms@, lns@),
                body@ == body_text(ls, n as int).1,
                names_view(names@) == kmd004_meta().names,
                errors_view(errors@) == kmd004_report(abbrs, body@, k as int),
            decreases m - k,
        {
            let term = string_of(&terms[k]);
            if !contains_str(&body, term.as_str()) {
                let mut e = LintError::new(lns[k], &names, self.description(), None);
                let mut d = text("Abbreviation '");
                push_str(&mut d, term.as_str());
                push_str(&mut d, "' is defined but never used in text");
                e.error_detail = Some(d);
                e.fix_info = Some(
                    FixInfo {
                        line_number: Some(lns[k]),
                        edit_column: Some(1),
                        delete_count: Some(-1),
                        insert_text: None,
                    },
                );
                let ghost b = errors_view(errors@);
                errors.push(e);
                assert(errors_view(errors@) =~= b.push(kmd004_error(terms@[k as int]@, lns@[k as int])));
            }
            k = k + 1;
        }
        errors
    }
}

} // verus!
