//! MD012 - Multiple consecutive blank lines.
//!
//! A run of two or more blank lines (lines that are empty once trimmed) is
//! reported once, on the second line of the run.

use vstd::prelude::*;
use crate::text::{chars_of, decimal, push_decimal, text, trim, trim_vec, views};
use crate::fix::{
    fix_line, fixed_document, fixed_line, join, lemma_split_join, lemma_split_len, lemma_split_well,
    lemma_untouched_line_kept, line_deleted, split_lines, untouched, well_split,
};
use crate::types::{
    base_error, errors_view, fix_view, names_view, opt_str, FixInfo, LintError, LintErrorView,
    ParserType, RuleMeta, RuleParams,
};

verus! {

pub struct MD012;

pub open spec fn md012_meta() -> RuleMeta {
    RuleMeta {
        names: seq!["MD012"@, "no-multiple-blanks"@],
        description: "Multiple consecutive blank lines"@,
        information: Some("https://github.com/DavidAnson/markdownlint/blob/main/doc/md012.md"@),
    }
}

pub open spec fn md012_blank(line: Seq<char>) -> bool {
    trim(line).len() == 0
}

pub open spec fn md012_error(first: int, count: nat) -> LintErrorView {
    LintErrorView {
        detail: Some("Expected: 1; Actual: "@ + decimal(count)),
        fix: Some(fix_view(Some((first + 1) as usize), Some(1usize), Some(-1i32), None)),
        suggestion: Some("Remove consecutive blank lines"@),
        ..base_error(md012_meta(), first + 1)
    }
}

/// Scan state after a line: length of the current run of blank lines, line
/// number of its first line, findings so far.
pub open spec fn md012_scan(lines: Seq<Seq<char>>, n: int) -> (nat, int, Seq<LintErrorView>)
    decreases n,
{
    if n <= 0 {
        (0, 0, seq![])
    } else {
        let st = md012_scan(lines, n - 1);
        if md012_blank(lines[n - 1]) {
            if st.0 == 0 {
                (1, n, st.2)
            } else {
                (st.0 + 1, st.1, st.2)
            }
        } else if st.0 > 1 {
            (0, st.1, st.2.push(md012_error(st.1, st.0)))
        } else {
            (0, st.1, st.2)
        }
    }
}

/// The findings of MD012.
pub open spec fn md012_errors(lines: Seq<Seq<char>>) -> Seq<LintErrorView> {
    let st = md012_scan(lines, lines.len() as int);
    if st.0 > 1 {
        st.2.push(md012_error(st.1, st.0))
    } else {
        st.2
    }
}

impl MD012 {
    pub fn names(&self) -> (r: Vec<&'static str>)
        ensures
            names_view(r@) == md012_meta().names,
    {
        let r = vec!["MD012", "no-multiple-blanks"];
        assert(names_view(r@) =~= md012_meta().names);
        r
    }

    pub fn description(&self) -> (r: &'static str)
        ensures
            r@ == md012_meta().description,
    {
        "Multiple consecutive blank lines"
    }

    pub fn tags(&self) -> (r: Vec<&'static str>)
        ensures
            names_view(r@) == seq!["whitespace"@, "blank_lines"@, "fixable"@],
    {
        let r = vec!["whitespace", "blank_lines", "fixable"];
        assert(names_view(r@) =~= seq!["whitespace"@, "blank_lines"@, "fixable"@]);
        r
    }

    pub fn parser_type(&self) -> (r: ParserType)
        ensures
            r == ParserType::Plain,
    {
        ParserType::Plain
    }

    pub fn information(&self) -> (r: Option<&'static str>)
        ensures
            opt_str(r) == md012_meta().information,
    {
        Some("https://github.com/DavidAnson/markdownlint/blob/main/doc/md012.md")
    }

    fn report(&self, names: &Vec<&'static str>, first: usize, count: usize) -> (e: LintError)
        requires
            names_view(names@) == md012_meta().names,
            first < usize::MAX,
        ensures
            e@ == md012_error(first as int, count as nat),
    {
        let mut e = LintError::new(first + 1, names, self.description(), self.information());
        let mut d = text("Expected: 1; Actual: ");
        push_decimal(&mut d, count);
        e.error_detail = Some(d);
        e.fix_info = Some(
            FixInfo {
                line_number: Some(first + 1),
                edit_column: Some(1),
                delete_count: Some(-1),
                insert_text: None,
            },
        );
        e.suggestion = Some(text("Remove consecutive blank lines"));
        e
    }

    pub fn lint(&self, params: &RuleParams) -> (errors: Vec<LintError>)
        ensures
            errors_view(errors@) == md012_errors(views(params.lines@)),
    {
        let lines = params.lines;
        let ghost ls = views(lines@);
        let names = self.names();
        let mut errors: Vec<LintError> = Vec::new();
        let mut blank_count: usize = 0;
        let mut first_blank_line: usize = 0;
        let n = lines.len();
        let mut i: usize = 0;
        while i < n
            invariant
                n == lines@.len(),
                i <= n,
                ls == views(lines@),
                names_view(names@) == md012_meta().names,
                blank_count <= i,
                first_blank_line <= i,
                blank_count > 0 ==> first_blank_line + blank_count == i + 1,
                (blank_count as nat, first_blank_line as int, errors_view(errors@)) == md012_scan(
                    ls,
                    i as int,
                ),
            decreases n - i,
        {
            let ghost prev = errors@;
            let c = chars_of(lines[i]);
            let t = trim_vec(&c);
            if t.len() == 0 {
                if blank_count == 0 {
                    first_blank_line = i + 1;
                }
                blank_count = blank_count + 1;
            } else {
                if blank_count > 1 {
                    let e = self.report(&names, first_blank_line, blank_count);
                    errors.push(e);
                    assert(errors_view(errors@) =~= errors_view(prev).push(
                        md012_error(first_blank_line as int, blank_count as nat),
                    ));
                }
                blank_count = 0;
            }
            i = i + 1;
        }
        if blank_count > 1 {
            let ghost prev = errors@;
            let e = self.report(&names, first_blank_line, blank_count);
            errors.push(e);
            assert(errors_view(errors@) =~= errors_view(prev).push(
                md012_error(first_blank_line as int, blank_count as nat),
            ));
        }
        errors
    }
}

/// Line `i` is the second of two blank lines in a row.
pub open spec fn second_blank(ls: Seq<Seq<char>>, i: int) -> bool {
    1 <= i < ls.len() && md012_blank(ls[i - 1]) && md012_blank(ls[i])
}

/// No three blank lines come in a row.
pub open spec fn no_blank_triple(ls: Seq<Seq<char>>) -> bool {
    forall|i: int| 2 <= i < ls.len() && md012_blank(ls[i - 2]) && md012_blank(ls[i - 1]) ==> !md012_blank(#[trigger] ls[i])
}

/// `e` is the finding of a pair of blank lines among the first `n`.
pub open spec fn pair_error(ls: Seq<Seq<char>>, n: int, e: LintErrorView) -> bool {
    exists|a: int| 1 <= a < n && #[trigger] second_blank(ls, a) && e == md012_error(a, 2)
}

/// The scan over lines with no three blank ones in a row: the run it holds
/// has at most two lines, its findings are those of the pairs that ended.
proof fn lemma_md012_scan_pairs(ls: Seq<Seq<char>>, n: int)
    requires
        0 <= n <= ls.len(),
        no_blank_triple(ls),
    ensures
        ({
            let st = md012_scan(ls, n);
            &&& st.0 <= 2
            &&& st.0 == 0 <==> (n == 0 || !md012_blank(ls[n - 1]))
            &&& st.0 >= 1 ==> st.1 == n - st.0 + 1
            &&& st.0 == 2 ==> second_blank(ls, n - 1)
            &&& st.0 == 1 ==> !second_blank(ls, n - 1)
            &&& forall|r: int| 0 <= r < st.2.len() ==> pair_error(ls, n, #[trigger] st.2[r])
            &&& forall|a: int| #[trigger] second_blank(ls, a) && a + 1 < n ==> st.2.contains(md012_error(a, 2))
        }),
    decreases n,
{
    if n > 0 {
        lemma_md012_scan_pairs(ls, n - 1);
        let pst = md012_scan(ls, n - 1);
        let st = md012_scan(ls, n);
        assert forall|r: int| 0 <= r < pst.2.len() implies pair_error(ls, n, #[trigger] pst.2[r]) by {
            assert(pair_error(ls, n - 1, pst.2[r]));
            let a = choose|a: int| 1 <= a < n - 1 && #[trigger] second_blank(ls, a) && pst.2[r] == md012_error(a, 2);
            assert(second_blank(ls, a));
        }
        if md012_blank(ls[n - 1]) {
            if pst.0 == 2 {
                assert(md012_blank(ls[n - 3]));
                assert(!md012_blank(ls[n - 1]));
            }
            assert forall|a: int| #[trigger] second_blank(ls, a) && a + 1 < n implies st.2.contains(md012_error(a, 2)) by {
                if a + 1 == n - 1 {
                    assert(pst.0 == 0);
                }
            }
        } else {
            if pst.0 > 1 {
                let e = md012_error(pst.1, pst.0);
                assert(st.2 == pst.2.push(e));
                assert forall|r: int| 0 <= r < st.2.len() implies pair_error(ls, n, #[trigger] st.2[r]) by {
                    if r < pst.2.len() {
                        assert(st.2[r] == pst.2[r]);
                    } else {
                        assert(st.2[r] == e);
                        assert(second_blank(ls, n - 2));
                    }
                }
                assert forall|a: int| #[trigger] second_blank(ls, a) && a + 1 < n implies st.2.contains(md012_error(a, 2)) by {
                    if a + 1 < n - 1 {
                        let r = choose|r: int| 0 <= r < pst.2.len() && pst.2[r] == md012_error(a, 2);
                        assert(st.2[r] == pst.2[r]);
                    } else {
                        assert(st.2[pst.2.len() as int] == e);
                    }
                }
            } else {
                assert forall|a: int| #[trigger] second_blank(ls, a) && a + 1 < n implies st.2.contains(md012_error(a, 2)) by {
                    if a + 1 == n - 1 {
                        assert(pst.0 >= 2);
                    }
                }
            }
        }
    }
}

/// Over lines with no three blank ones in a row, the findings are exactly
/// those of the pairs of blank lines.
proof fn lemma_md012_errors_pairs(ls: Seq<Seq<char>>)
    requires
        no_blank_triple(ls),
    ensures
        forall|r: int| 0 <= r < md012_errors(ls).len() ==> pair_error(ls, ls.len() as int, #[trigger] md012_errors(ls)[r]),
        forall|a: int| #[trigger] second_blank(ls, a) ==> md012_errors(ls).contains(md012_error(a, 2)),
{
    let n = ls.len() as int;
    lemma_md012_scan_pairs(ls, n);
    let st = md012_scan(ls, n);
    let es = md012_errors(ls);
    if st.0 > 1 {
        let e = md012_error(st.1, st.0);
        assert(es == st.2.push(e));
        assert forall|r: int| 0 <= r < es.len() implies pair_error(ls, n, #[trigger] es[r]) by {
            if r < st.2.len() {
                assert(es[r] == st.2[r]);
            } else {
                assert(es[r] == e);
                assert(second_blank(ls, n - 1));
            }
        }
        assert forall|a: int| #[trigger] second_blank(ls, a) implies es.contains(md012_error(a, 2)) by {
            if a + 1 < n {
                let r = choose|r: int| 0 <= r < st.2.len() && st.2[r] == md012_error(a, 2);
                assert(es[r] == st.2[r]);
            } else {
                assert(es[st.2.len() as int] == e);
            }
        }
    } else {
        assert forall|a: int| #[trigger] second_blank(ls, a) implies es.contains(md012_error(a, 2)) by {
            if a + 1 == n {
                assert(st.0 >= 2);
            }
        }
    }
}

/// The fixes remove the second line of each pair of blank lines and keep
/// every other line.
proof fn lemma_md012_fixed_lines(ls: Seq<Seq<char>>, k: int)
    requires
        no_blank_triple(ls),
        0 <= k < ls.len(),
        ls.len() <= usize::MAX,
    ensures
        fixed_line(md012_errors(ls), k + 1, ls[k]) == if second_blank(ls, k) {
            Seq::<char>::empty()
        } else {
            ls[k]
        },
{
    let es = md012_errors(ls);
    lemma_md012_errors_pairs(ls);
    if second_blank(ls, k) {
        let r = choose|r: int| 0 <= r < es.len() && es[r] == md012_error(k, 2);
        assert(fix_line(es[r]) == k + 1);
        assert(line_deleted(es, k + 1));
    } else {
        assert forall|r: int| 0 <= r < es.len() && (#[trigger] es[r]).fix is Some implies fix_line(es[r]) != k + 1 by {
            assert(pair_error(ls, ls.len() as int, es[r]));
            let a = choose|a: int| 1 <= a < ls.len() && #[trigger] second_blank(ls, a) && es[r] == md012_error(a, 2);
            assert(fix_line(es[r]) == a + 1);
        }
        assert(untouched(es, k + 1));
        lemma_untouched_line_kept(es, k + 1, ls[k]);
    }
}

/// The first `n` lines without the second line of each pair of blank
/// lines.
pub open spec fn kept_lines(ls: Seq<Seq<char>>, n: int) -> Seq<Seq<char>>
    decreases n,
{
    if n <= 0 {
        seq![]
    } else if second_blank(ls, n - 1) {
        kept_lines(ls, n - 1)
    } else {
        kept_lines(ls, n - 1).push(ls[n - 1])
    }
}

/// No two blank lines come in a row.
pub open spec fn no_blank_pair(xs: Seq<Seq<char>>) -> bool {
    forall|j: int| 1 <= j < xs.len() && md012_blank(xs[j - 1]) ==> !md012_blank(#[trigger] xs[j])
}

proof fn lemma_kept_lines(ls: Seq<Seq<char>>, n: int)
    requires
        0 <= n <= ls.len(),
        no_blank_triple(ls),
        well_split(ls),
    ensures
        ({
            let xs = kept_lines(ls, n);
            &&& no_blank_pair(xs)
            &&& n >= 1 ==> xs.len() >= 1 && xs.last() == if second_blank(ls, n - 1) {
                ls[n - 2]
            } else {
                ls[n - 1]
            }
            &&& forall|j: int|
                0 <= j < xs.len() ==> {
                    &&& (#[trigger] xs[j]).len() > 0
                    &&& forall|q: int| 0 <= q < xs[j].len() - 1 ==> xs[j][q] != '\n'
                    &&& (j < xs.len() - 1 || n < ls.len()) ==> xs[j].last() == '\n'
                }
        }),
    decreases n,
{
    if n > 0 {
        lemma_kept_lines(ls, n - 1);
        let pxs = kept_lines(ls, n - 1);
        let xs = kept_lines(ls, n);
        assert(ls[n - 1].len() > 0);
        if n >= 2 && second_blank(ls, n - 1) && second_blank(ls, n - 2) {
            assert(md012_blank(ls[n - 3]));
        }
        if !second_blank(ls, n - 1) {
            assert(xs == pxs.push(ls[n - 1]));
            assert forall|j: int| 1 <= j < xs.len() && md012_blank(xs[j - 1]) implies !md012_blank(#[trigger] xs[j]) by {
                if j < xs.len() - 1 {
                    assert(xs[j] == pxs[j]);
                    assert(xs[j - 1] == pxs[j - 1]);
                } else {
                    assert(xs[j - 1] == pxs.last());
                    if second_blank(ls, n - 2) && md012_blank(ls[n - 1]) {
                        assert(md012_blank(ls[n - 3]));
                    }
                }
            }
            assert forall|j: int| 0 <= j < xs.len() implies {
                &&& (#[trigger] xs[j]).len() > 0
                &&& forall|q: int| 0 <= q < xs[j].len() - 1 ==> xs[j][q] != '\n'
                &&& (j < xs.len() - 1 || n < ls.len()) ==> xs[j].last() == '\n'
            } by {
                if j < xs.len() - 1 {
                    assert(xs[j] == pxs[j]);
                } else {
                    assert(xs[j] == ls[n - 1]);
                }
            }
        }
    }
}

proof fn lemma_join_kept(ls: Seq<Seq<char>>, n: int)
    requires
        0 <= n <= ls.len(),
    ensures
        join(Seq::new(n as nat, |k: int| if second_blank(ls, k) { Seq::<char>::empty() } else { ls[k] })) == join(
            kept_lines(ls, n),
        ),
    decreases n,
{
    if n > 0 {
        lemma_join_kept(ls, n - 1);
        let f = |k: int| if second_blank(ls, k) { Seq::<char>::empty() } else { ls[k] };
        let ys = Seq::new(n as nat, f);
        assert(ys.drop_last() =~= Seq::new((n - 1) as nat, f));
        let pxs = kept_lines(ls, n - 1);
        if second_blank(ls, n - 1) {
            assert(join(ys) =~= join(ys.drop_last()));
        } else {
            assert(pxs.push(ls[n - 1]).drop_last() =~= pxs);
        }
    }
}

/// Lines with no two blank ones in a row get no findings.
proof fn lemma_md012_clean(xs: Seq<Seq<char>>, n: int)
    requires
        0 <= n <= xs.len(),
        no_blank_pair(xs),
    ensures
        md012_scan(xs, n).0 <= 1,
        md012_scan(xs, n).0 == 1 ==> md012_blank(xs[n - 1]),
        md012_scan(xs, n).2 == Seq::<LintErrorView>::empty(),
    decreases n,
{
    if n > 0 {
        lemma_md012_clean(xs, n - 1);
    }
}

/// Fixing the MD012 findings of a document (split into lines after each
/// line feed) leaves a document that MD012 does not report, where no three
/// blank lines come in a row (each finding removes one line of its run).
pub proof fn lemma_md012_fix_resolves(content: Seq<char>)
    requires
        content.len() <= usize::MAX,
        no_blank_triple(split_lines(content)),
    ensures
        md012_errors(split_lines(fixed_document(content, md012_errors(split_lines(content)))))
            == Seq::<LintErrorView>::empty(),
{
    let ls = split_lines(content);
    let n = ls.len() as int;
    let es = md012_errors(ls);
    lemma_split_well(content, 0);
    lemma_split_len(content, 0);
    let g = |k: int| fixed_line(es, k + 1, ls[k]);
    let h = |k: int| if second_blank(ls, k) { Seq::<char>::empty() } else { ls[k] };
    assert forall|k: int| 0 <= k < n implies #[trigger] g(k) == h(k) by {
        lemma_md012_fixed_lines(ls, k);
    }
    assert(Seq::new(ls.len(), g) =~= Seq::new(n as nat, h));
    lemma_join_kept(ls, n);
    lemma_kept_lines(ls, n);
    let xs = kept_lines(ls, n);
    assert(well_split(xs));
    lemma_split_join(xs);
    assert(split_lines(fixed_document(content, es)) == xs);
    lemma_md012_clean(xs, xs.len() as int);
}

/// The runs of two or more blank lines whose last line is among the first
/// `k` lines.
pub open spec fn runs_of_two(ls: Seq<Seq<char>>, k: int) -> nat
    decreases k,
{
    if k <= 0 {
        0
    } else {
        runs_of_two(ls, k - 1) + if second_blank(ls, k - 1) && (k == ls.len() || !md012_blank(ls[k])) {
            1nat
        } else {
            0nat
        }
    }
}

proof fn lemma_md012_scan_count(ls: Seq<Seq<char>>, n: int)
    requires
        0 <= n <= ls.len(),
    ensures
        md012_scan(ls, n).0 >= 1 <==> (n >= 1 && md012_blank(ls[n - 1])),
        md012_scan(ls, n).0 >= 2 <==> (n >= 2 && second_blank(ls, n - 1)),
        md012_scan(ls, n).2.len() == runs_of_two(ls, n - 1),
    decreases n,
{
    if n > 0 {
        lemma_md012_scan_count(ls, n - 1);
    }
}

/// MD012 reports each run of two or more blank lines once.
pub proof fn lemma_md012_one_per_run(ls: Seq<Seq<char>>)
    ensures
        md012_errors(ls).len() == runs_of_two(ls, ls.len() as int),
{
    lemma_md012_scan_count(ls, ls.len() as int);
}

} // verus!
