//! KMD011 - Inline math spans must have balanced `$` delimiters.
//!
//! Outside fenced code blocks and `$$` fence lines, a line with an odd number
//! of unescaped `$` characters outside backtick code spans has an unclosed
//! inline math span.

use vstd::prelude::*;
use crate::text::{
    chars_of, decimal, eq_str, line_body, push_decimal, push_str, starts_with, starts_with_str,
    string_of, strip_eol, text, trim, trim_vec, views,
};
use crate::types::{
    base_error, errors_view, names_view, LintError, LintErrorView, ParserType, RuleMeta, RuleParams,
};

verus! {

pub struct KMD011;

pub open spec fn kmd011_meta() -> RuleMeta {
    RuleMeta {
        names: seq!["KMD011"@, "inline-math-balanced"@],
        description: "Inline math spans must have balanced '$' delimiters"@,
        information: None,
    }
}

/// End of the run of backticks that starts at `i`.
pub open spec fn tick_run_end(c: Seq<char>, i: int) -> int
    decreases c.len() - i,
{
    if 0 <= i < c.len() && c[i] == '`' {
        tick_run_end(c, i + 1)
    } else {
        i
    }
}

pub proof fn lemma_tick_run_end(c: Seq<char>, i: int)
    requires
        0 <= i,
    ensures
        i <= tick_run_end(c, i),
        i < c.len() ==> tick_run_end(c, i) <= c.len(),
        0 <= i < c.len() && c[i] == '`' ==> i < tick_run_end(c, i),
    decreases c.len() - i,
{
    if 0 <= i < c.len() && c[i] == '`' {
        lemma_tick_run_end(c, i + 1);
    }
}

#[via_fn]
proof fn close_run_end_decreases(c: Seq<char>, j: int, run: int) {
    if 0 <= j < c.len() && c[j] == '`' {
        lemma_tick_run_end(c, j);
    }
}

/// Scanning from `j`, the position just after the first run of exactly `run`
/// backticks; `None` if there is no such run.
pub open spec fn close_run_end(c: Seq<char>, j: int, run: int) -> Option<int>
    decreases c.len() - j via close_run_end_decreases
{
    if 0 <= j < c.len() {
        if c[j] == '`' {
            let e = tick_run_end(c, j);
            if e - j == run {
                Some(e)
            } else {
                close_run_end(c, e, run)
            }
        } else {
            close_run_end(c, j + 1, run)
        }
    } else {
        None
    }
}

pub proof fn lemma_close_run_end(c: Seq<char>, j: int, run: int)
    requires
        0 <= j,
    ensures
        close_run_end(c, j, run) is Some ==> j <= close_run_end(c, j, run).unwrap() <= c.len(),
    decreases c.len() - j,
{
    if 0 <= j < c.len() {
        lemma_tick_run_end(c, j);
        if c[j] == '`' {
            let e = tick_run_end(c, j);
            if e - j != run {
                lemma_close_run_end(c, e, run);
            }
        } else {
            lemma_close_run_end(c, j + 1, run);
        }
    }
}

#[via_fn]
proof fn dollars_from_decreases(c: Seq<char>, i: int) {
    if 0 <= i < c.len() && c[i] == '`' {
        lemma_tick_run_end(c, i);
        let e = tick_run_end(c, i);
        lemma_close_run_end(c, e, e - i);
    }
}

/// The unescaped `$` characters of `c` from position `i` on, outside
/// backtick code spans. A run of backticks opens a span only where a run
/// of the same length closes it; otherwise its backticks are plain text.
pub open spec fn dollars_from(c: Seq<char>, i: int) -> nat
    decreases c.len() + 1 - i via dollars_from_decreases
{
    if 0 <= i < c.len() {
        if c[i] == '\\' {
            dollars_from(c, i + 2)
        } else if c[i] == '`' {
            let e = tick_run_end(c, i);
            match close_run_end(c, e, e - i) {
                Some(k) => dollars_from(c, k),
                None => dollars_from(c, e),
            }
        } else if c[i] == '$' {
            dollars_from(c, i + 1) + 1
        } else {
            dollars_from(c, i + 1)
        }
    } else {
        0
    }
}

pub open spec fn kmd011_fence(line: Seq<char>) -> bool {
    starts_with(trim(strip_eol(line)), "```"@) || starts_with(trim(strip_eol(line)), "~~~"@)
}

pub open spec fn kmd011_detail(n: nat) -> Seq<char> {
    "Odd number of '$' delimiters ("@ + decimal(n) + ") on line — inline math span is not closed"@
}

pub open spec fn kmd011_step(lines: Seq<Seq<char>>, i: int, st: (bool, Seq<LintErrorView>)) -> (
    bool,
    Seq<LintErrorView>,
) {
    let t = strip_eol(lines[i]);
    if kmd011_fence(lines[i]) {
        (!st.0, st.1)
    } else if st.0 || trim(t) == "$$"@ {
        st
    } else if dollars_from(t, 0) % 2 != 0 {
        (
            st.0,
            st.1.push(
                LintErrorView {
                    detail: Some(kmd011_detail(dollars_from(t, 0))),
                    ..base_error(kmd011_meta(), i + 1)
                },
            ),
        )
    } else {
        st
    }
}

pub open spec fn kmd011_scan(lines: Seq<Seq<char>>, n: int) -> (bool, Seq<LintErrorView>)
    decreases n,
{
    if n <= 0 {
        (false, seq![])
    } else {
        kmd011_step(lines, n - 1, kmd011_scan(lines, n - 1))
    }
}

/// The findings of KMD011 on `lines`.
pub open spec fn kmd011_errors(lines: Seq<Seq<char>>) -> Seq<LintErrorView> {
    kmd011_scan(lines, lines.len() as int).1
}

fn tick_run_end_at(c: &Vec<char>, i: usize) -> (r: usize)
    requires
        i <= c@.len(),
    ensures
        r == tick_run_end(c@, i as int),
{
    let mut k = i;
    while k < c.len() && c[k] == '`'
        invariant
            i <= k <= c@.len(),
            tick_run_end(c@, i as int) == tick_run_end(c@, k as int),
        decreases c@.len() - k,
    {
        k = k + 1;
    }
    k
}

fn close_run_end_at(c: &Vec<char>, j: usize, run: usize) -> (r: Option<usize>)
    requires
        j <= c@.len(),
    ensures
        r matches Some(x) ==> close_run_end(c@, j as int, run as int) == Some(x as int),
        r is None ==> close_run_end(c@, j as int, run as int) is None,
{
    let mut k = j;
    while k < c.len()
        invariant
            j <= k <= c@.len(),
            close_run_end(c@, j as int, run as int) == close_run_end(c@, k as int, run as int),
        decreases c@.len() - k,
    {
        if c[k] == '`' {
            let e = tick_run_end_at(c, k);
            proof {
                lemma_tick_run_end(c@, k as int);
            }
            if e - k == run {
                return Some(e);
            }
            k = e;
        } else {
            k = k + 1;
        }
    }
    None
}

/// Count unescaped `$` characters outside of backtick code spans.
pub fn count_dollars(line: &str) -> (n: usize)
    ensures
        n == dollars_from(line@, 0),
{
    let c = chars_of(line);
    let len = c.len();
    let mut count: usize = 0;
    let mut i: usize = 0;
    while i < len
        invariant
            len == c@.len(),
            c@ == line@,
            i <= len,
            count <= i,
            count + dollars_from(c@, i as int) == dollars_from(c@, 0),
        decreases len - i,
    {
        if c[i] == '\\' {
            assert(dollars_from(c@, i as int) == dollars_from(c@, i + 2));
            if i + 1 < len {
                i = i + 2;
            } else {
                i = len;
            }
        } else if c[i] == '`' {
            let e = tick_run_end_at(&c, i);
            proof {
                lemma_tick_run_end(c@, i as int);
            }
            let k = close_run_end_at(&c, e, e - i);
            proof {
                lemma_close_run_end(c@, e as int, (e - i) as int);
            }
            match k {
                Some(x) => {
                    i = x;
                },
                None => {
                    i = e;
                },
            }
        } else if c[i] == '$' {
            count = count + 1;
            i = i + 1;
        } else {
            i = i + 1;
        }
    }
    count
}

impl KMD011 {
    pub fn names(&self) -> (r: Vec<&'static str>)
        ensures
            names_view(r@) == kmd011_meta().names,
    {
        let r = vec!["KMD011", "inline-math-balanced"];
        assert(names_view(r@) =~= kmd011_meta().names);
        r
    }

    pub fn description(&self) -> (r: &'static str)
        ensures
            r@ == kmd011_meta().description,
    {
        "Inline math spans must have balanced '$' delimiters"
    }

    pub fn tags(&self) -> (r: Vec<&'static str>)
        ensures
            names_view(r@) == seq!["kramdown"@, "math"@],
    {
        let r = vec!["kramdown", "math"];
        assert(names_view(r@) =~= seq!["kramdown"@, "math"@]);
        r
    }

    pub fn parser_type(&self) -> (r: ParserType)
        ensures
            r == ParserType::Plain,
    {
        ParserType::Plain
    }

    pub fn is_enabled_by_default(&self) -> (r: bool)
        ensures
            !r,
    {
        false
    }

    pub fn lint(&self, params: &RuleParams) -> (errors: Vec<LintError>)
        ensures
            errors_view(errors@) == kmd011_errors(views(params.lines@)),
    {
        let lines = params.lines;
        let ghost ls = views(lines@);
        let names = self.names();
        let mut errors: Vec<LintError> = Vec::new();
        let mut in_code_block = false;
        let mut i: usize = 0;
        while i < lines.len()
            invariant
                i <= lines@.len(),
                ls == views(lines@),
                names_view(names@) == kmd011_meta().names,
                (in_code_block, errors_view(errors@)) == kmd011_scan(ls, i as int),
            decreases lines@.len() - i,
        {
            let ghost before = errors@;
            let trimmed = line_body(lines, i);
            let fence_trimmed = trim_vec(&trimmed);
            if starts_with_str(&fence_trimmed, "```") || starts_with_str(&fence_trimmed, "~~~") {
                in_code_block = !in_code_block;
            } else if in_code_block || eq_str(&fence_trimmed, "$$") {
            } else {
                let ts = string_of(&trimmed);
                let dollar_count = count_dollars(ts.as_str());
                if dollar_count % 2 != 0 {
                    let mut e = LintError::new(i + 1, &names, self.description(), None);
                    let mut d = text("Odd number of '$' delimiters (");
                    push_decimal(&mut d, dollar_count);
                    push_str(&mut d, ") on line — inline math span is not closed");
                    e.error_detail = Some(d);
                    errors.push(e);
                    assert(errors_view(errors@) =~= kmd011_scan(ls, i + 1).1);
                }
            }
            i = i + 1;
        }
        errors
    }
}

/// KMD011 reports only lines of the document, in increasing order, each
/// with an odd number of `$` outside code spans, and never offers a fix.
pub proof fn lemma_kmd011_findings_ordered(lines: Seq<Seq<char>>, n: int)
    requires
        0 <= n <= lines.len(),
    ensures
        ({
            let es = kmd011_scan(lines, n).1;
            forall|j: int|
                0 <= j < es.len() ==> {
                    &&& 1 <= (#[trigger] es[j]).line_number <= n
                    &&& es[j].fix is None
                    &&& dollars_from(strip_eol(lines[es[j].line_number - 1]), 0) % 2 == 1
                    &&& j > 0 ==> es[j - 1].line_number < es[j].line_number
                }
        }),
    decreases n,
{
    if n > 0 {
        lemma_kmd011_findings_ordered(lines, n - 1);
        let prev = kmd011_scan(lines, n - 1).1;
        let es = kmd011_scan(lines, n).1;
        if es.len() > prev.len() {
            assert(es == prev.push(es.last()));
            assert forall|j: int| 0 <= j < es.len() implies {
                &&& 1 <= (#[trigger] es[j]).line_number <= n
                &&& es[j].fix is None
                &&& dollars_from(strip_eol(lines[es[j].line_number - 1]), 0) % 2 == 1
                &&& j > 0 ==> es[j - 1].line_number < es[j].line_number
            } by {
                if j < prev.len() {
                    assert(es[j] == prev[j]);
                    if j > 0 {
                        assert(es[j - 1] == prev[j - 1]);
                    }
                } else if j > 0 {
                    assert(es[j - 1] == prev[j - 1]);
                }
            }
        } else {
            assert(es == prev);
        }
    }
}

/// Line `i` is reported: it is no fence line, lies outside fenced blocks,
/// is not a `$$` line, and has an odd number of `$` outside code spans.
#[verifier::opaque]
pub open spec fn kmd011_reported(lines: Seq<Seq<char>>, i: int) -> bool {
    &&& !kmd011_fence(lines[i])
    &&& !kmd011_scan(lines, i).0
    &&& trim(strip_eol(lines[i])) != "$$"@
    &&& dollars_from(strip_eol(lines[i]), 0) % 2 != 0
}

proof fn lemma_kmd011_step_shape(lines: Seq<Seq<char>>, n: int)
    requires
        0 < n <= lines.len(),
    ensures
        kmd011_reported(lines, n - 1) ==> kmd011_scan(lines, n).1.len() == kmd011_scan(lines, n - 1).1.len() + 1
            && kmd011_scan(lines, n).1.last().line_number == n && kmd011_scan(lines, n).1.drop_last()
            == kmd011_scan(lines, n - 1).1,
        !kmd011_reported(lines, n - 1) ==> kmd011_scan(lines, n).1 == kmd011_scan(lines, n - 1).1,
{
    reveal(kmd011_reported);
    let prev = kmd011_scan(lines, n - 1).1;
    let es = kmd011_scan(lines, n).1;
    if kmd011_reported(lines, n - 1) {
        assert(es.drop_last() =~= prev);
    }
}

/// Some finding among `es` is on line `ln`.
pub open spec fn reported_on(es: Seq<LintErrorView>, ln: int) -> bool {
    exists|j: int| 0 <= j < es.len() && #[trigger] es[j].line_number == ln
}

proof fn lemma_kmd011_lines_bound(lines: Seq<Seq<char>>, n: int)
    requires
        0 <= n <= lines.len(),
    ensures
        forall|j: int| 0 <= j < kmd011_scan(lines, n).1.len() ==> #[trigger] kmd011_scan(lines, n).1[j].line_number <= n,
{
    lemma_kmd011_findings_ordered(lines, n);
}

proof fn lemma_kmd011_reported_at(lines: Seq<Seq<char>>, n: int, i: int)
    requires
        0 <= i < n <= lines.len(),
    ensures
        kmd011_reported(lines, i) == reported_on(kmd011_scan(lines, n).1, i + 1),
    decreases n,
{
    lemma_kmd011_step_shape(lines, n);
    lemma_kmd011_lines_bound(lines, n - 1);
    let prev = kmd011_scan(lines, n - 1).1;
    let es = kmd011_scan(lines, n).1;
    if i < n - 1 {
        lemma_kmd011_reported_at(lines, n - 1, i);
        if kmd011_reported(lines, n - 1) {
            assert forall|j: int| 0 <= j < prev.len() implies es[j] == prev[j] by {
                assert(es.drop_last()[j] == es[j]);
            }
            if reported_on(es, i + 1) {
                let j = choose|j: int| 0 <= j < es.len() && #[trigger] es[j].line_number == i + 1;
                assert(j != prev.len());
                assert(prev[j].line_number == i + 1);
            }
            if reported_on(prev, i + 1) {
                let j = choose|j: int| 0 <= j < prev.len() && #[trigger] prev[j].line_number == i + 1;
                assert(es[j] == prev[j]);
            }
        }
    } else {
        if kmd011_reported(lines, n - 1) {
            assert(es[prev.len() as int].line_number == i + 1);
        } else if reported_on(es, i + 1) {
            let j = choose|j: int| 0 <= j < es.len() && #[trigger] es[j].line_number == i + 1;
            assert(prev[j].line_number <= n - 1);
        }
    }
}

/// KMD011 reports exactly the lines that `kmd011_reported` names.
pub proof fn lemma_kmd011_reports_exactly(lines: Seq<Seq<char>>)
    ensures
        forall|i: int|
            0 <= i < lines.len() ==> (kmd011_reported(lines, i) <==> reported_on(kmd011_errors(lines), i + 1)),
{
    assert forall|i: int| 0 <= i < lines.len() implies (kmd011_reported(lines, i) <==> reported_on(
        kmd011_errors(lines),
        i + 1,
    )) by {
        lemma_kmd011_reported_at(lines, lines.len() as int, i);
    }
}

} // verus!
