//! KMD010 - Inline IAL syntax must be well-formed.
//!
//! Kramdown allows an inline attribute list `{: ...}` after a span, such as
//! `*emphasis*{: .class}`. Each `{:...}` inside a line (outside fenced code,
//! and not a whole-line block IAL, which KMD006 checks) must be empty or a
//! list of `#id`, `.class` and `key=value` attributes; others are reported
//! with a fix that deletes them.

use vstd::prelude::*;
use crate::text::{
    byte_len, byte_slice, byte_slice_chars, chars_of, contains_char, ends_with, ends_with_str,
    eq_vec, has_char, lemma_byte_len_trims, lemma_byte_slice_bound, push_chars, push_str,
    starts_with, starts_with_str, strip_eol, strip_eol_vec, string_of, text, trim, trim_start,
    trim_start_vec, trim_vec, utf8_byte_len, views,
};
use crate::types::{
    base_error, errors_view, fix_view, lines_fit, names_view, FixInfo, LintError, LintErrorView,
    ParserType, RuleMeta, RuleParams,
};
use crate::helpers::{code_fence, is_code_fence};
use crate::pattern::{compile, find_all, is_match, regex_compiles, regex_find_all, regex_is_match, span_in};

verus! {

pub struct KMD010;

pub open spec fn kmd010_meta() -> RuleMeta {
    RuleMeta {
        names: seq!["KMD010"@, "inline-ial-syntax"@],
        description: "Inline IAL syntax must be well-formed"@,
        information: None,
    }
}

/// Any `{:...}` in a line.
pub open spec fn inline_ial_pattern() -> Seq<char> {
    "\\{:[^}]*\\}"@
}

/// A well-formed IAL: attributes `#id`, `.class` and `key=value`.
pub open spec fn valid_ial_pattern() -> Seq<char> {
    "^\\{:\\s*(?:[#.][^\\s}\\{]+|[A-Za-z_][\\w-]*(?:=(?:\"[^\"]*\"|'[^']*'|[\\w-]+))?)?\\s*(?:\\s+(?:[#.][^\\s}\\{]+|[A-Za-z_][\\w-]*(?:=(?:\"[^\"]*\"|'[^']*'|[\\w-]+))?))*\\s*\\}$"@
}

/// The empty IAL `{:}`.
pub open spec fn empty_ial_pattern() -> Seq<char> {
    "^\\{:\\s*\\}$"@
}

/// A trimmed line that is one block IAL (`{:` ... `}`).
pub open spec fn block_ial(t: Seq<char>) -> bool {
    starts_with(t, "{:"@) && ends_with(t, "}"@) && !has_char(t, '\n')
}

pub open spec fn kmd010_error(ln: int, ial: Seq<char>, col: int) -> LintErrorView {
    LintErrorView {
        detail: Some(
            "Malformed inline IAL syntax: '"@ + ial + "' (expected: {: #id .class key=\"val\"})"@,
        ),
        fix: Some(fix_view(Some(ln as usize), Some(col as usize), Some(byte_len(ial) as i32), None)),
        ..base_error(kmd010_meta(), ln)
    }
}

/// The findings for the first `k` matches `ms` in the trimmed line `t`,
/// which starts `lead` bytes into line `ln`.
pub open spec fn match_errors(t: Seq<char>, lead: int, ln: int, ms: Seq<(usize, usize)>, k: int) -> Seq<LintErrorView>
    decreases k,
{
    if k <= 0 {
        seq![]
    } else {
        let prev = match_errors(t, lead, ln, ms, k - 1);
        let m = ms[k - 1];
        let ial = byte_slice(t, m.0 as int, m.1 as int);
        if ial != t && !regex_is_match(valid_ial_pattern(), ial) && !regex_is_match(
            empty_ial_pattern(),
            ial,
        ) {
            prev.push(kmd010_error(ln, ial, lead + m.0 + 1))
        } else {
            prev
        }
    }
}

/// The number of bytes that trimming removes at the start of `body`.
pub open spec fn lead_of(body: Seq<char>) -> int {
    byte_len(body) - byte_len(trim_start(body))
}

/// Whether the first `n` lines end inside a fenced block, and the findings.
pub open spec fn kmd010_scan(ls: Seq<Seq<char>>, n: int) -> (bool, Seq<LintErrorView>)
    decreases n,
{
    if n <= 0 {
        (false, seq![])
    } else {
        let prev = kmd010_scan(ls, n - 1);
        let body = strip_eol(ls[n - 1]);
        let t = trim(body);
        if code_fence(t) {
            (!prev.0, prev.1)
        } else if prev.0 || block_ial(t) {
            prev
        } else {
            let ms = regex_find_all(inline_ial_pattern(), t);
            (prev.0, prev.1 + match_errors(t, lead_of(body), n, ms, ms.len() as int))
        }
    }
}

/// The findings of KMD010 (none where a pattern is refused).
pub open spec fn kmd010_errors(ls: Seq<Seq<char>>) -> Seq<LintErrorView> {
    if regex_compiles(inline_ial_pattern()) && regex_compiles(valid_ial_pattern())
        && regex_compiles(empty_ial_pattern()) {
        kmd010_scan(ls, ls.len() as int).1
    } else {
        seq![]
    }
}

impl KMD010 {
    pub fn names(&self) -> (r: Vec<&'static str>)
        ensures
            names_view(r@) == kmd010_meta().names,
    {
        let r = vec!["KMD010", "inline-ial-syntax"];
        assert(names_view(r@) =~= kmd010_meta().names);
        r
    }

    pub fn description(&self) -> (r: &'static str)
        ensures
            r@ == kmd010_meta().description,
    {
        "Inline IAL syntax must be well-formed"
    }

    pub fn tags(&self) -> (r: Vec<&'static str>)
        ensures
            names_view(r@) == seq!["kramdown"@, "ial"@, "attributes"@, "fixable"@],
    {
        let r = vec!["kramdown", "ial", "attributes", "fixable"];
        assert(names_view(r@) =~= seq!["kramdown"@, "ial"@, "attributes"@, "fixable"@]);
        r
    }

    pub fn parser_type(&self) -> (r: ParserType)
        ensures
            r == ParserType::Plain,
    {
        ParserType::Plain
    }

    pub fn is_enabled_by_default(&self) -> (r: bool)
        ensures
            !r,
    {
        false
    }

    pub fn lint(&self, params: &RuleParams) -> (errors: Vec<LintError>)
        requires
            lines_fit(params.lines@),
        ensures
            errors_view(errors@) == kmd010_errors(views(params.lines@)),
    {
        let lines = params.lines;
        let ghost ls = views(lines@);
        let mut errors: Vec<LintError> = Vec::new();
        let inline_re = match compile("\\{:[^}]*\\}") {
            Some(p) => p,
            None => {
                assert(errors_view(errors@) =~= seq![]);
                return errors;
            },
        };
        let valid_re = match compile("^\\{:\\s*(?:[#.][^\\s}\\{]+|[A-Za-z_][\\w-]*(?:=(?:\"[^\"]*\"|'[^']*'|[\\w-]+))?)?\\s*(?:\\s+(?:[#.][^\\s}\\{]+|[A-Za-z_][\\w-]*(?:=(?:\"[^\"]*\"|'[^']*'|[\\w-]+))?))*\\s*\\}$") {
            Some(p) => p,
            None => {
                assert(errors_view(errors@) =~= seq![]);
                return errors;
            },
        };
        let empty_re = match compile("^\\{:\\s*\\}$") {
            Some(p) => p,
            None => {
                assert(errors_view(errors@) =~= seq![]);
                return errors;
            },
        };
        let names = self.names();
        let mut in_code_block = false;
        let n = lines.len();
        let mut i: usize = 0;
        assert(errors_view(errors@) =~= seq![]);
        while i < n
            invariant
                n == lines@.len(),
                i <= n,
                ls == views(lines@),
                lines_fit(lines@),
                inline_re@ == inline_ial_pattern(),
                valid_re@ == valid_ial_pattern(),
                empty_re@ == empty_ial_pattern(),
                names_view(names@) == kmd010_meta().names,
                (in_code_block, errors_view(errors@)) == kmd010_scan(ls, i as int),
            decreases n - i,
        {
            let v = chars_of(lines[i]);
            let body = strip_eol_vec(&v);
            let t = trim_vec(&body);
            let ts = string_of(&t);
            if is_code_fence(ts.as_str()) {
                in_code_block = !in_code_block;
            } else if in_code_block || (starts_with_str(&t, "{:") && ends_with_str(&t, "}")
                && !contains_char(&t, '\n')) {
            } else {
                proof {
                    assert(byte_len(lines@[i as int]@) <= isize::MAX);
                    crate::text::lemma_strip_eol_prefix(v@);
                    lemma_byte_len_trims(v@, '\n');
                    lemma_byte_len_trims(body@, ' ');
                }
                let st = trim_start_vec(&body);
                let lead = utf8_byte_len(&body) - utf8_byte_len(&st);
                let ms = find_all(&inline_re, ts.as_str());
                let ghost e0 = errors_view(errors@);
                let mut k: usize = 0;
                while k < ms.len()
                    invariant
                        k <= ms@.len(),
                        ms@ == regex_find_all(inline_ial_pattern(), t@),
                        forall|q: int| 0 <= q < ms@.len() ==> span_in(t@, #[trigger] ms@[q]),
                        byte_len(t@) <= isize::MAX,
                        lead <= isize::MAX,
                        lead == lead_of(body@),
                        valid_re@ == valid_ial_pattern(),
                        empty_re@ == empty_ial_pattern(),
                        names_view(names@) == kmd010_meta().names,
                        i < n,
                        errors_view(errors@) == e0 + match_errors(t@, lead as int, i + 1, ms@, k as int),
                    decreases ms@.len() - k,
                {
                    let m = ms[k];
                    assert(span_in(t@, ms@[k as int]));
                    let ial = byte_slice_chars(&t, m.0, m.1);
                    if !eq_vec(&ial, &t) {
                        let is = string_of(&ial);
                        if !is_match(&valid_re, is.as_str()) && !is_match(&empty_re, is.as_str()) {
                            proof {
                                lemma_byte_slice_bound(t@, m.0 as int, m.1 as int);
                            }
                            let len = utf8_byte_len(&ial);
                            let col = lead + m.0 + 1;
                            let mut d = text("Malformed inline IAL syntax: '");
                            push_chars(&mut d, &ial);
                            push_str(&mut d, "' (expected: {: #id .class key=\"val\"})");
                            let mut e = LintError::new(i + 1, &names, self.description(), None);
                            e.error_detail = Some(d);
                            e.fix_info = Some(
                                FixInfo {
                                    line_number: Some(i + 1),
                                    edit_column: Some(col),
                                    delete_count: Some(len as i32),
                                    insert_text: None,
                                },
                            );
                            let ghost b = errors_view(errors@);
                            errors.push(e);
                            assert(errors_view(errors@) =~= b.push(
                                kmd010_error(i + 1, ial@, lead + m.0 + 1),
                            ));
                        }
                    }
                    k = k + 1;
                }
            }
            i = i + 1;
        }
        errors
    }
}

} // verus!
