//! KMD008 - Block extensions must be properly opened and closed.
//!
//! Openers `{::name}` and closers `{:/name}` must nest; self-closing
//! `{::name .../}` tags stand alone. A closer that does not match the
//! innermost opener, or that has none, is reported where it stands; an
//! opener never closed is reported at the end, on its own line.

use vstd::prelude::*;
use crate::text::{
    byte_len, decimal, lemma_strip_eol_prefix, line_body, push_chars, push_decimal, push_str,
    starts_with, starts_with_str, strip_eol, string_of, text, trim, trim_vec, views,
};
use crate::types::{
    base_error, errors_view, lines_fit, names_view, LintError, LintErrorView, ParserType, RuleMeta,
    RuleParams,
};
use crate::pattern::{
    captures, compile, group_at, group_chars, is_match, regex_captures, regex_compiles,
    regex_is_match,
};

verus! {

pub struct KMD008;

pub open spec fn kmd008_meta() -> RuleMeta {
    RuleMeta {
        names: seq!["KMD008"@, "block-extension-syntax"@],
        description: "Block extensions must be properly opened and closed"@,
        information: None,
    }
}

/// `{::name}` or `{::name attrs}`, the whole line.
pub open spec fn open_pattern() -> Seq<char> {
    "^\\{::(\\w+)(?:\\s[^}]*)?\\}$"@
}

/// `{::name .../}`, the whole line.
pub open spec fn self_closing_pattern() -> Seq<char> {
    "^\\{::(\\w+)[^}]*/\\}$"@
}

/// `{:/name}`, the whole line.
pub open spec fn close_pattern() -> Seq<char> {
    "^\\{:/(\\w+)\\}$"@
}

pub open spec fn kmd008_compiles() -> bool {
    &&& regex_compiles(open_pattern())
    &&& regex_compiles(self_closing_pattern())
    &&& regex_compiles(close_pattern())
}

pub open spec fn kmd008_error(ln: int, detail: Seq<char>) -> LintErrorView {
    LintErrorView { detail: Some(detail), ..base_error(kmd008_meta(), ln) }
}

/// Whether the first `n` lines end in a fenced block, the openers still
/// open (innermost last), and the findings so far.
pub open spec fn kmd008_scan(ls: Seq<Seq<char>>, n: int) -> (bool, Seq<(Seq<char>, usize)>, Seq<LintErrorView>)
    decreases n,
{
    if n <= 0 {
        (false, seq![], seq![])
    } else {
        let prev = kmd008_scan(ls, n - 1);
        let t = trim(strip_eol(ls[n - 1]));
        if starts_with(t, "```"@) || starts_with(t, "~~~"@) {
            (!prev.0, prev.1, prev.2)
        } else if prev.0 || regex_is_match(self_closing_pattern(), t) {
            prev
        } else {
            match regex_captures(open_pattern(), t) {
                Some(g) => (prev.0, prev.1.push((group_at(t, g, 1), n as usize)), prev.2),
                None => match regex_captures(close_pattern(), t) {
                    Some(g) => {
                        let close = group_at(t, g, 1);
                        if prev.1.len() > 0 {
                            let open = prev.1.last().0;
                            if open == close {
                                (prev.0, prev.1.drop_last(), prev.2)
                            } else {
                                (prev.0, prev.1, prev.2.push(kmd008_error(n, "Mismatched block extension: opened '{::"@ + open
                                    + "}' but closed with '{:/"@ + close + "}'"@)))
                            }
                        } else {
                            (prev.0, prev.1, prev.2.push(kmd008_error(n, "Unexpected closing tag '{:/"@ + close
                                + "}' with no matching opening tag"@)))
                        }
                    },
                    None => prev,
                },
            }
        }
    }
}

/// The findings for the first `k` openers never closed.
pub open spec fn unclosed_errors(stack: Seq<(Seq<char>, usize)>, k: int) -> Seq<LintErrorView>
    decreases k,
{
    if k <= 0 {
        seq![]
    } else {
        let e = stack[k - 1];
        unclosed_errors(stack, k - 1).push(kmd008_error(e.1 as int, "Unclosed block extension '{::"@ + e.0
            + "}' opened on line "@ + decimal(e.1 as nat)))
    }
}

/// The findings of KMD008 (none where a pattern is refused).
pub open spec fn kmd008_errors(ls: Seq<Seq<char>>) -> Seq<LintErrorView> {
    if kmd008_compiles() {
        let s = kmd008_scan(ls, ls.len() as int);
        s.2 + unclosed_errors(s.1, s.1.len() as int)
    } else {
        seq![]
    }
}

pub open spec fn stack_view(names: Seq<Vec<char>>, lns: Seq<usize>) -> Seq<(Seq<char>, usize)> {
    Seq::new(names.len(), |j: int| (names[j]@, lns[j]))
}

impl KMD008 {
    pub fn names(&self) -> (r: Vec<&'static str>)
        ensures
            names_view(r@) == kmd008_meta().names,
    {
        let r = vec!["KMD008", "block-extension-syntax"];
        assert(names_view(r@) =~= kmd008_meta().names);
        r
    }

    pub fn description(&self) -> (r: &'static str)
        ensures
            r@ == kmd008_meta().description,
    {
        "Block extensions must be properly opened and closed"
    }

    pub fn tags(&self) -> (r: Vec<&'static str>)
        ensures
            names_view(r@) == seq!["kramdown"@, "block-extensions"@],
    {
        let r = vec!["kramdown", "block-extensions"];
        assert(names_view(r@) =~= seq!["kramdown"@, "block-extensions"@]);
        r
    }

    pub fn parser_type(&self) -> (r: ParserType)
        ensures
            r == ParserType::Plain,
    {
        ParserType::Plain
    }

    pub fn is_enabled_by_default(&self) -> (r: bool)
        ensures
            !r,
    {
        false
    }

    pub fn lint(&self, params: &RuleParams) -> (errors: Vec<LintError>)
        requires
            lines_fit(params.lines@),
        ensures
            errors_view(errors@) == kmd008_errors(views(params.lines@)),
    {
        let lines = params.lines;
        let ghost ls = views(lines@);
        let mut errors: Vec<LintError> = Vec::new();
        let open_re = match compile("^\\{::(\\w+)(?:\\s[^}]*)?\\}$") {
            Some(p) => p,
            None => {
                assert(errors_view(errors@) =~= seq![]);
                return errors;
            },
        };
        let self_re = match compile("^\\{::(\\w+)[^}]*/\\}$") {
            Some(p) => p,
            None => {
                assert(errors_view(errors@) =~= seq![]);
                return errors;
            },
        };
        let close_re = match compile("^\\{:/(\\w+)\\}$") {
            Some(p) => p,
            None => {
                assert(errors_view(errors@) =~= seq![]);
                return errors;
            },
        };
        let names = self.names();
        let mut snames: Vec<Vec<char>> = Vec::new();
        let mut slines: Vec<usize> = Vec::new();
        let mut in_code = false;
        let n = lines.len();
        let mut i: usize = 0;
        assert(errors_view(errors@) =~= seq![]);
        assert(stack_view(snames@, slines@) =~= seq![]);
        while i < n
            invariant
                n == lines@.len(),
                i <= n,
                ls == views(lines@),
                lines_fit(lines@),
                open_re@ == open_pattern(),
                self_re@ == self_closing_pattern(),
                close_re@ == close_pattern(),
                names_view(names@) == kmd008_meta().names,
                snames@.len() == slines@.len(),
                kmd008_scan(ls, i as int) == (in_code, stack_view(snames@, slines@), errors_view(errors@)),
            decreases n - i,
        {
            let body = line_body(lines, i);
            proof {
                assert(byte_len(lines@[i as int]@) <= isize::MAX);
                lemma_strip_eol_prefix(lines@[i as int]@);
                crate::text::lemma_byte_len_trims(body@, ' ');
            }
            let t = trim_vec(&body);
            let ts = string_of(&t);
            let ghost st0 = stack_view(snames@, slines@);
            let ghost e0 = errors_view(errors@);
            if starts_with_str(&t, "```") || starts_with_str(&t, "~~~") {
                in_code = !in_code;
            } else if in_code || is_match(&self_re, ts.as_str()) {
            } else {
                match captures(&open_re, ts.as_str()) {
                    Some(g) => {
                        let name = group_chars(&t, &g, 1);
                        snames.push(name);
                        slines.push(i + 1);
                        assert(stack_view(snames@, slines@) =~= st0.push((group_at(t@, g@, 1), (i + 1) as usize)));
                    },
                    None => {
                        match captures(&close_re, ts.as_str()) {
                            Some(g) => {
                                let close = group_chars(&t, &g, 1);
                                if snames.len() > 0 {
                                    let top = snames.len() - 1;
                                    assert(st0.last().0 == snames@[top as int]@);
                                    if crate::text::eq_vec(&snames[top], &close) {
                                        snames.pop();
                                        slines.pop();
                                        assert(stack_view(snames@, slines@) =~= st0.drop_last());
                                    } else {
                                        let mut d = text("Mismatched block extension: opened '{::");
                                        push_chars(&mut d, &snames[top]);
                                        push_str(&mut d, "}' but closed with '{:/");
                                        push_chars(&mut d, &close);
                                        push_str(&mut d, "}'");
                                        let mut e = LintError::new(i + 1, &names, self.description(), None);
                                        e.error_detail = Some(d);
                                        errors.push(e);
                                        assert(errors_view(errors@) =~= e0.push(kmd008_error((i + 1) as int, "Mismatched block extension: opened '{::"@ + snames@[top as int]@
                                            + "}' but closed with '{:/"@ + close@ + "}'"@)));
                                    }
                                } else {
                                    let mut d = text("Unexpected closing tag '{:/");
                                    push_chars(&mut d, &close);
                                    push_str(&mut d, "}' with no matching opening tag");
                                    let mut e = LintError::new(i + 1, &names, self.description(), None);
                                    e.error_detail = Some(d);
                                    errors.push(e);
                                    assert(errors_view(errors@) =~= e0.push(kmd008_error((i + 1) as int, "Unexpected closing tag '{:/"@ + close@
                                        + "}' with no matching opening tag"@)));
                                }
                            },
                            None => {},
                        }
                    },
                }
            }
            i = i + 1;
        }
        let ghost st = stack_view(snames@, slines@);
        let ghost e1 = errors_view(errors@);
        let m = snames.len();
        let mut k: usize = 0;
        while k < m
            invariant
                m == snames@.len(),
                m == slines@.len(),
                k <= m,
                st == stack_view(snames@, slines@),
                names_view(names@) == kmd008_meta().names,
                errors_view(errors@) == e1 + unclosed_errors(st, k as int),
            decreases m - k,
        {
            let mut d = text("Unclosed block extension '{::");
            push_chars(&mut d, &snames[k]);
            push_str(&mut d, "}' opened on line ");
            push_decimal(&mut d, slines[k]);
            let mut e = LintError::new(slines[k], &names, self.description(), None);
            e.error_detail = Some(d);
            let ghost b = errors_view(errors@);
            errors.push(e);
            assert(st[k as int] == (snames@[k as int]@, slines@[k as int]));
            assert(errors_view(errors@) =~= b.push(kmd008_error(slines@[k as int] as int, "Unclosed block extension '{::"@
                + snames@[k as int]@ + "}' opened on line "@ + decimal(slines@[k as int] as nat))));
            k = k + 1;
            assert(errors_view(errors@) =~= e1 + unclosed_errors(st, k as int));
        }
        errors
    }
}

proof fn lemma_unclosed_len(stack: Seq<(Seq<char>, usize)>, k: int)
    requires
        0 <= k,
    ensures
        unclosed_errors(stack, k).len() == k,
    decreases k,
{
    if k > 0 {
        lemma_unclosed_len(stack, k - 1);
    }
}

proof fn lemma_stack_lines(ls: Seq<Seq<char>>, n: int)
    requires
        0 <= n <= ls.len(),
        ls.len() <= usize::MAX,
    ensures
        forall|j: int|
            0 <= j < kmd008_scan(ls, n).1.len() ==> 1 <= (#[trigger] kmd008_scan(ls, n).1[j]).1 <= n,
    decreases n,
{
    if n > 0 {
        lemma_stack_lines(ls, n - 1);
        let prev = kmd008_scan(ls, n - 1);
        let cur = kmd008_scan(ls, n).1;
        let t = trim(strip_eol(ls[n - 1]));
        if starts_with(t, "```"@) || starts_with(t, "~~~"@) || prev.0 || regex_is_match(
            self_closing_pattern(),
            t,
        ) {
            assert(cur == prev.1);
        } else {
            match regex_captures(open_pattern(), t) {
                Some(g) => {
                    assert(cur == prev.1.push((group_at(t, g, 1), n as usize)));
                    assert forall|j: int| 0 <= j < cur.len() implies 1 <= (#[trigger] cur[j]).1 <= n by {
                        if j < prev.1.len() {
                            assert(cur[j] == prev.1[j]);
                        }
                    }
                },
                None => {
                    assert(cur == prev.1 || cur == prev.1.drop_last());
                    assert forall|j: int| 0 <= j < cur.len() implies 1 <= (#[trigger] cur[j]).1 <= n by {
                        assert(cur[j] == prev.1[j]);
                    }
                },
            }
        }
    }
}

/// Every block extension left open is reported: the findings end with one
/// for each opener never closed, on the opener's line.
pub proof fn lemma_kmd008_unclosed_reported(ls: Seq<Seq<char>>)
    requires
        kmd008_compiles(),
        ls.len() <= usize::MAX,
    ensures
        ({
            let open = kmd008_scan(ls, ls.len() as int).1;
            let es = kmd008_errors(ls);
            &&& es.len() >= open.len()
            &&& forall|j: int|
                0 <= j < open.len() ==> {
                    let e = es[es.len() - open.len() + j];
                    &&& e.line_number == (#[trigger] open[j]).1 as int
                    &&& 1 <= e.line_number <= ls.len()
                    &&& e.detail == Some(
                        "Unclosed block extension '{::"@ + open[j].0 + "}' opened on line "@ + decimal(
                            open[j].1 as nat,
                        ),
                    )
                }
        }),
{
    let s = kmd008_scan(ls, ls.len() as int);
    lemma_unclosed_len(s.1, s.1.len() as int);
    lemma_stack_lines(ls, ls.len() as int);
    assert forall|j: int| 0 <= j < s.1.len() implies #[trigger] unclosed_errors(s.1, s.1.len() as int)[j]
        == kmd008_error(s.1[j].1 as int, "Unclosed block extension '{::"@ + s.1[j].0 + "}' opened on line "@
        + decimal(s.1[j].1 as nat)) by {
        lemma_unclosed_at(s.1, s.1.len() as int, j);
    }
}

proof fn lemma_unclosed_at(stack: Seq<(Seq<char>, usize)>, k: int, j: int)
    requires
        0 <= j < k,
    ensures
        unclosed_errors(stack, k)[j] == kmd008_error(stack[j].1 as int, "Unclosed block extension '{::"@ + stack[j].0
            + "}' opened on line "@ + decimal(stack[j].1 as nat)),
    decreases k,
{
    lemma_unclosed_len(stack, k - 1);
    if j < k - 1 {
        lemma_unclosed_at(stack, k - 1, j);
    }
}

} // verus!
