//! MD044 - Proper names should have the correct capitalization.
//!
//! Every case-insensitive occurrence of a configured proper name (`names`,
//! by default JavaScript, TypeScript, GitHub and Node.js) that is written
//! otherwise is reported, with a fix that writes the name correctly. Lines
//! in fenced code are checked only when `code_blocks` is set.

use vstd::prelude::*;
use crate::text::{
    byte_len, byte_slice, is_char_boundary_at, byte_slice_chars, char_boundary, chars_of, eq_vec, find_from,
    find_in_from, lemma_byte_len_take, lemma_find_from_bounds, lowercase, lowercase_vec, push_chars,
    push_str, slice_chars, string_of, text, to_lowercase, trim, trim_vec, utf8_byte_len, vec_views,
    views,
};
use crate::types::{
    base_error, errors_view, fix_view, lines_fit, names_view, opt_str, FixInfo, LintError,
    LintErrorView, ParserType, RuleMeta, RuleParams,
};
use crate::config::{value_as_bool, Config, ConfigValue};
use crate::helpers::{code_fence, is_code_fence};

verus! {

pub struct MD044;

pub open spec fn md044_meta() -> RuleMeta {
    RuleMeta {
        names: seq!["MD044"@, "proper-names"@],
        description: "Proper names should have the correct capitalization"@,
        information: Some("https://github.com/DavidAnson/markdownlint/blob/main/doc/md044.md"@),
    }
}

pub open spec fn default_names() -> Seq<Seq<char>> {
    seq!["JavaScript"@, "TypeScript"@, "GitHub"@, "Node.js"@]
}

/// The strings of a configured array.
pub open spec fn array_strings(a: Seq<Option<String>>) -> Seq<Seq<char>>
    decreases a.len(),
{
    if a.len() == 0 {
        seq![]
    } else {
        let prev = array_strings(a.drop_last());
        match a.last() {
            Some(s) => prev.push(s@),
            None => prev,
        }
    }
}

/// The proper names: the strings of the configured array, or the defaults
/// when `names` is not an array.
pub open spec fn md044_names(c: Config) -> Seq<Seq<char>> {
    match c.lookup("names"@) {
        Some(ConfigValue::Array(a)) => array_strings(a@),
        _ => default_names(),
    }
}

/// Lines in fenced code are checked too.
pub open spec fn md044_code_blocks(c: Config) -> bool {
    match value_as_bool(c.lookup("code_blocks"@)) {
        Some(b) => b,
        None => false,
    }
}

/// The byte offsets of the occurrences of `inc` in `lower` from character
/// `k` on, each search resuming after the previous occurrence.
pub open spec fn occ_scan(lower: Seq<char>, inc: Seq<char>, k: int) -> Seq<int>
    decreases lower.len() + 1 - k,
{
    if inc.len() == 0 || k < 0 || k > lower.len() {
        seq![]
    } else {
        let p = find_from(lower, inc, k);
        if p < 0 {
            seq![]
        } else {
            proof {
                lemma_find_from_bounds(lower, inc, k);
            }
            seq![byte_len(lower.take(p)) as int] + occ_scan(lower, inc, p + inc.len())
        }
    }
}

pub open spec fn md044_error(ln: int, correct: Seq<char>, pos: int, actual: Seq<char>) -> LintErrorView {
    LintErrorView {
        detail: Some("Expected: "@ + correct + "; Actual: "@ + actual),
        range: Some(((pos + 1) as usize, byte_len(correct) as usize)),
        fix: Some(
            fix_view(None, Some((pos + 1) as usize), Some(byte_len(correct) as i32), Some(correct)),
        ),
        ..base_error(md044_meta(), ln)
    }
}

/// The findings for the occurrences `occ` of the name `correct` in `line`.
pub open spec fn name_errors(line: Seq<char>, ln: int, correct: Seq<char>, occ: Seq<int>) -> Seq<LintErrorView>
    decreases occ.len(),
{
    if occ.len() == 0 {
        seq![]
    } else {
        let prev = name_errors(line, ln, correct, occ.drop_last());
        let pos = occ.last();
        let end = pos + byte_len(correct);
        let actual = byte_slice(line, pos, end);
        if end <= byte_len(line) && actual != correct {
            prev.push(md044_error(ln, correct, pos, actual))
        } else {
            prev
        }
    }
}

/// The findings for the first `k` names in line `ln`.
pub open spec fn line_errors(line: Seq<char>, ln: int, names: Seq<Seq<char>>, k: int) -> Seq<LintErrorView>
    decreases k,
{
    if k <= 0 {
        seq![]
    } else {
        line_errors(line, ln, names, k - 1) + name_errors(
            line,
            ln,
            names[k - 1],
            occ_scan(lowercase(line), lowercase(names[k - 1]), 0),
        )
    }
}

/// The name has a nonempty lowercase form (the search for an empty one
/// never ends), and each of its occurrences that fits in the line starts
/// and ends between two of the line's characters (elsewhere slicing the
/// line panics).
pub open spec fn name_safe(line: Seq<char>, name: Seq<char>) -> bool {
    let inc = lowercase(name);
    let occ = occ_scan(lowercase(line), inc, 0);
    &&& inc.len() > 0
    &&& forall|q: int|
        0 <= q < occ.len() && #[trigger] occ[q] + byte_len(name) <= byte_len(line) ==> char_boundary(line, occ[q])
            && char_boundary(line, occ[q] + byte_len(name))
}

/// Every name is safe in the line.
pub open spec fn line_safe(line: Seq<char>, names: Seq<Seq<char>>) -> bool {
    forall|j: int| 0 <= j < names.len() ==> name_safe(line, #[trigger] names[j])
}

/// Whether the first `n` lines end inside a fenced block, the findings,
/// and whether every checked line is safe.
pub open spec fn md044_scan(ls: Seq<Seq<char>>, names: Seq<Seq<char>>, cb: bool, n: int) -> (bool, Seq<LintErrorView>, bool)
    decreases n,
{
    if n <= 0 {
        (false, seq![], true)
    } else {
        let prev = md044_scan(ls, names, cb, n - 1);
        let line = ls[n - 1];
        if code_fence(trim(line)) {
            (!prev.0, prev.1, prev.2)
        } else if prev.0 && !cb {
            prev
        } else {
            (
                prev.0,
                prev.1 + line_errors(line, n, names, names.len() as int),
                prev.2 && line_safe(line, names),
            )
        }
    }
}

/// The findings of MD044.
pub open spec fn md044_errors(ls: Seq<Seq<char>>, c: Config) -> Seq<LintErrorView> {
    md044_scan(ls, md044_names(c), md044_code_blocks(c), ls.len() as int).1
}

/// Every checked line is safe.
pub open spec fn md044_safe(ls: Seq<Seq<char>>, c: Config) -> bool {
    md044_scan(ls, md044_names(c), md044_code_blocks(c), ls.len() as int).2
}

/// Every configured name fits in memory (as any `String` does).
pub open spec fn md044_names_fit(c: Config) -> bool {
    forall|j: int| 0 <= j < md044_names(c).len() ==> #[trigger] byte_len(md044_names(c)[j]) <= isize::MAX
}

proof fn lemma_scan_safe_prefix(ls: Seq<Seq<char>>, names: Seq<Seq<char>>, cb: bool, k: int, m: int)
    requires
        0 <= k <= m,
        md044_scan(ls, names, cb, m).2,
    ensures
        md044_scan(ls, names, cb, k).2,
    decreases m - k,
{
    if k < m {
        lemma_scan_safe_prefix(ls, names, cb, k, m - 1);
    }
}

/// The proper names to check.
fn proper_names(config: &Config) -> (r: Vec<Vec<char>>)
    ensures
        vec_views(r@) == md044_names(*config),
{
    let mut r: Vec<Vec<char>> = Vec::new();
    match config.get("names") {
        Some(ConfigValue::Array(a)) => {
            let mut i: usize = 0;
            assert(vec_views(r@) =~= array_strings(a@.take(0)));
            while i < a.len()
                invariant
                    i <= a@.len(),
                    vec_views(r@) == array_strings(a@.take(i as int)),
                decreases a@.len() - i,
            {
                assert(a@.take(i + 1).drop_last() =~= a@.take(i as int));
                let ghost r0 = vec_views(r@);
                match &a[i] {
                    Some(s) => {
                        r.push(chars_of(s.as_str()));
                        assert(vec_views(r@) =~= r0.push(s@));
                    },
                    None => {},
                }
                i = i + 1;
            }
            assert(a@.take(i as int) =~= a@);
        },
        _ => {
            r.push(chars_of("JavaScript"));
            r.push(chars_of("TypeScript"));
            r.push(chars_of("GitHub"));
            r.push(chars_of("Node.js"));
            assert(vec_views(r@) =~= default_names());
        },
    }
    r
}

impl MD044 {
    pub fn names(&self) -> (r: Vec<&'static str>)
        ensures
            names_view(r@) == md044_meta().names,
    {
        let r = vec!["MD044", "proper-names"];
        assert(names_view(r@) =~= md044_meta().names);
        r
    }

    pub fn description(&self) -> (r: &'static str)
        ensures
            r@ == md044_meta().description,
    {
        "Proper names should have the correct capitalization"
    }

    pub fn tags(&self) -> (r: Vec<&'static str>)
        ensures
            names_view(r@) == seq!["spelling"@],
    {
        let r = vec!["spelling"];
        assert(names_view(r@) =~= seq!["spelling"@]);
        r
    }

    pub fn parser_type(&self) -> (r: ParserType)
        ensures
            r == ParserType::Plain,
    {
        ParserType::Plain
    }

    pub fn information(&self) -> (r: Option<&'static str>)
        ensures
            opt_str(r) == md044_meta().information,
    {
        Some("https://github.com/DavidAnson/markdownlint/blob/main/doc/md044.md")
    }

    /// Report the misspelled occurrences of one name in a line.
    fn check_name(
        &self,
        line: &Vec<char>,
        lower: &Vec<char>,
        line_number: usize,
        correct: &Vec<char>,
        errors: &mut Vec<LintError>,
    ) -> (ok: bool)
        requires
            byte_len(line@) <= isize::MAX,
            byte_len(lower@) <= isize::MAX,
            byte_len(correct@) <= isize::MAX,
            lower@ == lowercase(line@),
        ensures
            ok == name_safe(line@, correct@),
            ok ==> errors_view(final(errors)@) == errors_view(old(errors)@) + name_errors(
                line@,
                line_number as int,
                correct@,
                occ_scan(lower@, lowercase(correct@), 0),
            ),
    {
        let names = self.names();
        let inc = lowercase_vec(correct);
        if inc.len() == 0 {
            return false;
        }
        let incs = string_of(&inc);
        let clen = utf8_byte_len(correct);
        let llen = utf8_byte_len(line);
        let ghost all = occ_scan(lower@, inc@, 0);
        let ghost e0 = errors_view(errors@);
        let ghost mut done: Seq<int> = seq![];
        let mut cs: usize = 0;
        let mut go = true;
        let ll = lower.len();
        assert(done + all =~= all);
        while go
            invariant
                ll == lower@.len(),
                cs <= lower@.len(),
                inc@ == lowercase(correct@),
                incs@ == inc@,
                inc@.len() > 0,
                clen == byte_len(correct@),
                llen == byte_len(line@),
                byte_len(line@) <= isize::MAX,
                byte_len(lower@) <= isize::MAX,
                byte_len(correct@) <= isize::MAX,
                all == occ_scan(lower@, inc@, 0),
                all == done + if go {
                    occ_scan(lower@, inc@, cs as int)
                } else {
                    seq![]
                },
                lower@ == lowercase(line@),
                forall|q: int|
                    0 <= q < done.len() && #[trigger] done[q] + byte_len(correct@) <= byte_len(line@)
                        ==> char_boundary(line@, done[q]) && char_boundary(line@, done[q] + byte_len(correct@)),
                names_view(names@) == md044_meta().names,
                errors_view(errors@) == e0 + name_errors(line@, line_number as int, correct@, done),
            decreases lower@.len() - cs + if go {
                1int
            } else {
                0int
            },
        {
            match find_in_from(lower, incs.as_str(), cs) {
                None => {
                    go = false;
                    assert(done + seq![] =~= done);
                },
                Some(p) => {
                    assert(p + inc@.len() <= lower@.len());
                    let pre = slice_chars(lower, 0, p);
                    proof {
                        lemma_byte_len_take(lower@, p as int);
                        assert(pre@ =~= lower@.take(p as int));
                    }
                    let pos = utf8_byte_len(&pre);
                    let ghost d0 = done;
                    proof {
                        done = done.push(pos as int);
                        assert(done.drop_last() =~= d0);
                        assert(all[d0.len() as int] == pos as int);
                    }
                    let end = pos + clen;
                    if end <= llen {
                        if !is_char_boundary_at(line, pos) || !is_char_boundary_at(line, end) {
                            proof {
                                assert(all[d0.len() as int] == pos as int);
                            }
                            return false;
                        }
                        let actual = byte_slice_chars(line, pos, end);
                        if !eq_vec(&actual, correct) {
                            let mut d = text("Expected: ");
                            push_chars(&mut d, correct);
                            push_str(&mut d, "; Actual: ");
                            push_chars(&mut d, &actual);
                            let mut e = LintError::new(line_number, &names, self.description(), self.information());
                            e.error_detail = Some(d);
                            e.error_range = Some((pos + 1, clen));
                            e.fix_info = Some(
                                FixInfo {
                                    line_number: None,
                                    edit_column: Some(pos + 1),
                                    delete_count: Some(clen as i32),
                                    insert_text: Some(string_of(correct)),
                                },
                            );
                            let ghost b = errors_view(errors@);
                            errors.push(e);
                            assert(errors_view(errors@) =~= b.push(
                                md044_error(line_number as int, correct@, pos as int, actual@),
                            ));
                        }
                    }
                    assert(d0 + occ_scan(lower@, inc@, cs as int) =~= done + occ_scan(
                        lower@,
                        inc@,
                        p + inc@.len(),
                    ));
                    cs = p + inc.len();
                },
            }
        }
        assert(done + seq![] =~= done);
        true
    }

    pub fn lint(&self, params: &RuleParams) -> (errors: Vec<LintError>)
        requires
            lines_fit(params.lines@),
            md044_names_fit(*params.config),
            md044_safe(views(params.lines@), *params.config),
        ensures
            errors_view(errors@) == md044_errors(views(params.lines@), *params.config),
    {
        match self.lint_checked(params) {
            Some(errors) => errors,
            None => Vec::new(),
        }
    }

    /// The findings, or `None` where a configured name has an empty
    /// lowercase form or a checked line has an occurrence of one that does
    /// not start and end between two of its characters.
    pub fn lint_checked(&self, params: &RuleParams) -> (r: Option<Vec<LintError>>)
        requires
            lines_fit(params.lines@),
            md044_names_fit(*params.config),
        ensures
            r is None <==> !md044_safe(views(params.lines@), *params.config),
            r matches Some(errors) ==> errors_view(errors@) == md044_errors(views(params.lines@), *params.config),
    {
        let lines = params.lines;
        let ghost ls = views(lines@);
        let names = proper_names(params.config);
        let ghost nv = vec_views(names@);
        let cb = match params.config.get_bool("code_blocks") {
            Some(b) => b,
            None => false,
        };
        let mut errors: Vec<LintError> = Vec::new();
        let mut in_code_block = false;
        let n = lines.len();
        let mut i: usize = 0;
        assert(errors_view(errors@) =~= seq![]);
        while i < n
            invariant
                n == lines@.len(),
                i <= n,
                ls == views(lines@),
                lines == params.lines,
                lines_fit(lines@),
                nv == vec_views(names@),
                nv == md044_names(*params.config),
                cb == md044_code_blocks(*params.config),
                forall|j: int| 0 <= j < nv.len() ==> #[trigger] byte_len(nv[j]) <= isize::MAX,
                md044_scan(ls, nv, cb, i as int).2,
                (in_code_block, errors_view(errors@)) == ({
                    let s = md044_scan(ls, nv, cb, i as int);
                    (s.0, s.1)
                }),
            decreases n - i,
        {
            let v = chars_of(lines[i]);
            let ts = string_of(&trim_vec(&v));
            if is_code_fence(ts.as_str()) {
                in_code_block = !in_code_block;
            } else if in_code_block && !cb {
            } else {
                let lower = chars_of(to_lowercase(lines[i]).as_str());
                assert(byte_len(lines@[i as int]@) <= isize::MAX);
                let ghost e0 = errors_view(errors@);
                assert(md044_scan(ls, nv, cb, i + 1).2 == (md044_scan(ls, nv, cb, i as int).2 && line_safe(
                    ls[i as int],
                    nv,
                )));
                let mut k: usize = 0;
                while k < names.len()
                    invariant
                        k <= names@.len(),
                        i < n,
                        lines == params.lines,
                        nv == md044_names(*params.config),
                        cb == md044_code_blocks(*params.config),
                        md044_scan(ls, nv, cb, i + 1).2 == (md044_scan(ls, nv, cb, i as int).2 && line_safe(
                            ls[i as int],
                            nv,
                        )),
                        n == lines@.len(),
                        ls == views(lines@),
                        v@ == ls[i as int],
                        lower@ == lowercase(v@),
                        byte_len(v@) <= isize::MAX,
                        byte_len(lower@) <= isize::MAX,
                        nv == vec_views(names@),
                        forall|j: int| 0 <= j < nv.len() ==> #[trigger] byte_len(nv[j]) <= isize::MAX,
                        forall|j: int| 0 <= j < k ==> name_safe(v@, #[trigger] nv[j]),
                        errors_view(errors@) == e0 + line_errors(v@, i + 1, nv, k as int),
                    decreases names@.len() - k,
                {
                    assert(nv[k as int] == names@[k as int]@);
                    assert(byte_len(nv[k as int]) <= isize::MAX);
                    if !self.check_name(&v, &lower, i + 1, &names[k], &mut errors) {
                        proof {
                            assert(!line_safe(v@, nv));
                            assert(!md044_scan(ls, nv, cb, i + 1).2);
                            if md044_scan(ls, nv, cb, n as int).2 {
                                lemma_scan_safe_prefix(ls, nv, cb, i + 1, n as int);
                            }
                        }
                        return None;
                    }
                    k = k + 1;
                }
                assert(line_safe(v@, nv));
            }
            i = i + 1;
        }
        Some(errors)
    }
}

} // verus!
