//! KMD001 - Definition list terms must have definitions.
//!
//! In Kramdown a definition list is a term line followed by `: definition`.
//! The rule fires on a line that looks like a term when no definition line
//! follows within the next three lines (blank lines may intervene), provided
//! the document holds at least one definition line.

use vstd::prelude::*;
use crate::text::{
    byte_len, chars_of, eq_str, lemma_strip_eol_prefix, line_body, starts_with, starts_with_str,
    strip_eol, strip_eol_vec, text, trim_start, trim_start_vec, utf8_byte_len, views,
};
use crate::types::{
    base_error, errors_view, fix_view, lines_fit, names_view, FixInfo, LintError, LintErrorView,
    ParserType, RuleMeta, RuleParams,
};

verus! {

pub struct KMD001;

pub open spec fn kmd001_meta() -> RuleMeta {
    RuleMeta {
        names: seq!["KMD001"@, "definition-list-term-has-definition"@],
        description: "Definition list terms must be followed by a definition"@,
        information: None,
    }
}

/// A line that may be a definition-list term: non-empty, not indented, and
/// not starting with a block-level marker.
pub open spec fn dl_term(line: Seq<char>) -> bool {
    let t = strip_eol(line);
    if t.len() == 0 {
        false
    } else if starts_with(line, " "@) || starts_with(line, "\t"@) {
        false
    } else {
        let f = t[0];
        !(f == ':' || f == '#' || f == '-' || f == '*' || f == '+' || f == '>' || f == '`' || f
            == '~' || f == '|' || f == '!') && !starts_with(t, "```"@) && !starts_with(t, "~~~"@)
            && !starts_with(t, "<!--"@) && !starts_with(t, "["@) && !starts_with(t, "---"@)
            && !starts_with(t, "==="@) && !starts_with(t, "***"@)
    }
}

/// A Kramdown definition line: after leading whitespace, `: ` or exactly `:`.
pub open spec fn definition_line(line: Seq<char>) -> bool {
    let t = trim_start(line);
    starts_with(t, ": "@) || t == ":"@
}

/// Scanning from line `j`, within three lines of `i` and over blank lines
/// only, a definition line is met.
pub open spec fn def_ahead(lines: Seq<Seq<char>>, i: int, j: int) -> bool
    decreases lines.len() - j,
{
    if 0 <= j < lines.len() && j - i <= 3 {
        if definition_line(lines[j]) {
            true
        } else if strip_eol(lines[j]).len() == 0 {
            def_ahead(lines, i, j + 1)
        } else {
            false
        }
    } else {
        false
    }
}

/// Some line of the document is a definition line.
pub open spec fn doc_has_dl(lines: Seq<Seq<char>>) -> bool {
    exists|k: int| 0 <= k < lines.len() && #[trigger] definition_line(lines[k])
}

pub open spec fn kmd001_error(lines: Seq<Seq<char>>, i: int) -> LintErrorView {
    LintErrorView {
        detail: Some("Term has no definition"@),
        fix: Some(
            fix_view(
                Some((i + 1) as usize),
                Some((byte_len(strip_eol(lines[i])) + 1) as usize),
                None,
                Some("\n: "@),
            ),
        ),
        ..base_error(kmd001_meta(), i + 1)
    }
}

/// Line fence: a line starting with three backticks or tildes.
pub open spec fn kmd001_fence(line: Seq<char>) -> bool {
    starts_with(strip_eol(line), "```"@) || starts_with(strip_eol(line), "~~~"@)
}

/// The scan state after line `i`: whether inside a fenced block, and the
/// findings so far.
pub open spec fn kmd001_step(lines: Seq<Seq<char>>, i: int, st: (bool, Seq<LintErrorView>)) -> (
    bool,
    Seq<LintErrorView>,
) {
    if kmd001_fence(lines[i]) {
        (!st.0, st.1)
    } else if st.0 {
        st
    } else if dl_term(lines[i]) && !def_ahead(lines, i, i + 1) && doc_has_dl(lines) {
        (st.0, st.1.push(kmd001_error(lines, i)))
    } else {
        st
    }
}

pub open spec fn kmd001_scan(lines: Seq<Seq<char>>, n: int) -> (bool, Seq<LintErrorView>)
    decreases n,
{
    if n <= 0 {
        (false, seq![])
    } else {
        kmd001_step(lines, n - 1, kmd001_scan(lines, n - 1))
    }
}

/// The findings of KMD001 on `lines`.
pub open spec fn kmd001_errors(lines: Seq<Seq<char>>) -> Seq<LintErrorView> {
    kmd001_scan(lines, lines.len() as int).1
}

/// Heuristic: a line is a potential definition-list term if it is non-empty,
/// not indented, and does not start with a block-level character.
pub fn looks_like_dl_term(line: &str) -> (r: bool)
    ensures
        r == dl_term(line@),
{
    let v = chars_of(line);
    let t = strip_eol_vec(&v);
    if t.len() == 0 {
        return false;
    }
    if starts_with_str(&v, " ") || starts_with_str(&v, "\t") {
        return false;
    }
    let f = t[0];
    !(f == ':' || f == '#' || f == '-' || f == '*' || f == '+' || f == '>' || f == '`' || f == '~'
        || f == '|' || f == '!') && !starts_with_str(&t, "```") && !starts_with_str(&t, "~~~")
        && !starts_with_str(&t, "<!--") && !starts_with_str(&t, "[") && !starts_with_str(&t, "---")
        && !starts_with_str(&t, "===") && !starts_with_str(&t, "***")
}

/// Returns true if the line is a Kramdown definition line (starts with `: `).
pub fn is_definition_line(line: &str) -> (r: bool)
    ensures
        r == definition_line(line@),
{
    let v = chars_of(line);
    let t = trim_start_vec(&v);
    starts_with_str(&t, ": ") || eq_str(&t, ":")
}

fn has_def_ahead(lines: &[&str], i: usize) -> (r: bool)
    requires
        i < lines@.len(),
    ensures
        r == def_ahead(views(lines@), i as int, i + 1),
{
    let ghost ls = views(lines@);
    let n = lines.len();
    assert(i < n);
    let mut j = i + 1;
    while j < lines.len() && j - i <= 3
        invariant
            i < lines@.len(),
            i + 1 <= j,
            ls == views(lines@),
            def_ahead(ls, i as int, i + 1) == def_ahead(ls, i as int, j as int),
        decreases lines@.len() - j,
    {
        if is_definition_line(lines[j]) {
            return true;
        }
        let t = line_body(lines, j);
        if t.len() != 0 {
            return false;
        }
        j = j + 1;
    }
    false
}

fn any_definition_line(lines: &[&str]) -> (r: bool)
    ensures
        r == doc_has_dl(views(lines@)),
{
    let ghost ls = views(lines@);
    let mut k: usize = 0;
    while k < lines.len()
        invariant
            k <= lines@.len(),
            ls == views(lines@),
            forall|m: int| 0 <= m < k ==> !definition_line(#[trigger] ls[m]),
        decreases lines@.len() - k,
    {
        if is_definition_line(lines[k]) {
            assert(definition_line(ls[k as int]));
            return true;
        }
        k = k + 1;
    }
    false
}

fn is_fence_line(lines: &[&str], i: usize) -> (r: bool)
    requires
        i < lines@.len(),
    ensures
        r == kmd001_fence(lines@[i as int]@),
{
    let t = line_body(lines, i);
    starts_with_str(&t, "```") || starts_with_str(&t, "~~~")
}

impl KMD001 {
    pub fn names(&self) -> (r: Vec<&'static str>)
        ensures
            names_view(r@) == kmd001_meta().names,
    {
        let r = vec!["KMD001", "definition-list-term-has-definition"];
        assert(names_view(r@) =~= kmd001_meta().names);
        r
    }

    pub fn description(&self) -> (r: &'static str)
        ensures
            r@ == kmd001_meta().description,
    {
        "Definition list terms must be followed by a definition"
    }

    pub fn tags(&self) -> (r: Vec<&'static str>)
        ensures
            names_view(r@) == seq!["kramdown"@, "definition-lists"@, "fixable"@],
    {
        let r = vec!["kramdown", "definition-lists", "fixable"];
        assert(names_view(r@) =~= seq!["kramdown"@, "definition-lists"@, "fixable"@]);
        r
    }

    pub fn parser_type(&self) -> (r: ParserType)
        ensures
            r == ParserType::Plain,
    {
        ParserType::Plain
    }

    pub fn is_enabled_by_default(&self) -> (r: bool)
        ensures
            !r,
    {
        false
    }

    pub fn lint(&self, params: &RuleParams) -> (errors: Vec<LintError>)
        requires
            lines_fit(params.lines@),
        ensures
            errors_view(errors@) == kmd001_errors(views(params.lines@)),
    {
        let lines = params.lines;
        let ghost ls = views(lines@);
        let names = self.names();
        let doc_dl = any_definition_line(lines);
        let mut errors: Vec<LintError> = Vec::new();
        let mut in_code_block = false;
        let mut i: usize = 0;
        while i < lines.len()
            invariant
                i <= lines@.len(),
                ls == views(lines@),
                lines_fit(lines@),
                doc_dl == doc_has_dl(ls),
                names_view(names@) == kmd001_meta().names,
                (in_code_block, errors_view(errors@)) == kmd001_scan(ls, i as int),
            decreases lines@.len() - i,
        {
            let ghost before = errors@;
            if is_fence_line(lines, i) {
                in_code_block = !in_code_block;
            } else if in_code_block {
            } else if looks_like_dl_term(lines[i]) && !has_def_ahead(lines, i) && doc_dl {
                let term = line_body(lines, i);
                proof {
                    lemma_strip_eol_prefix(ls[i as int]);
                    assert(byte_len(lines@[i as int]@) <= isize::MAX);
                }
                let term_len = utf8_byte_len(&term);
                let mut e = LintError::new(i + 1, &names, self.description(), None);
                e.error_detail = Some(text("Term has no definition"));
                e.fix_info = Some(
                    FixInfo {
                        line_number: Some(i + 1),
                        edit_column: Some(term_len + 1),
                        delete_count: None,
                        insert_text: Some(text("\n: ")),
                    },
                );
                errors.push(e);
                assert(errors_view(errors@) =~= errors_view(before).push(kmd001_error(ls, i as int)));
            }
            i = i + 1;
        }
        errors
    }
}

proof fn lemma_kmd001_scan_quiet(lines: Seq<Seq<char>>, n: int)
    requires
        !doc_has_dl(lines),
    ensures
        kmd001_scan(lines, n).1 == Seq::<LintErrorView>::empty(),
    decreases n,
{
    if n > 0 {
        lemma_kmd001_scan_quiet(lines, n - 1);
    }
}

/// A document without definition lines gets no KMD001 findings.
pub proof fn lemma_kmd001_no_definitions(lines: Seq<Seq<char>>)
    requires
        forall|k: int| 0 <= k < lines.len() ==> !definition_line(#[trigger] lines[k]),
    ensures
        kmd001_errors(lines) == Seq::<LintErrorView>::empty(),
{
    lemma_kmd001_scan_quiet(lines, lines.len() as int);
}

} // verus!
