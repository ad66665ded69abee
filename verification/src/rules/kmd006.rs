//! KMD006 - IAL syntax must be well-formed.
//!
//! In kramdown an inline attribute list `{: #id .class key="value"}` stands
//! on its own line after a block. A line (outside fenced code) that starts
//! with `{:` must be empty or a list of `#id`, `.class` and `key=value`
//! attributes; others are reported with a fix that deletes the line.

use vstd::prelude::*;
use crate::text::{chars_of, push_chars, push_str, strip_eol, strip_eol_vec, string_of, text, trim, trim_vec, views};
use crate::types::{
    base_error, errors_view, fix_view, names_view, FixInfo, LintError, LintErrorView, ParserType,
    RuleMeta, RuleParams,
};
use crate::helpers::{code_fence, is_code_fence};
use crate::pattern::{compile, is_match, regex_compiles, regex_is_match};

verus! {

pub struct KMD006;

pub open spec fn kmd006_meta() -> RuleMeta {
    RuleMeta {
        names: seq!["KMD006"@, "valid-ial-syntax"@],
        description: "IAL (Inline Attribute List) syntax must be well-formed"@,
        information: None,
    }
}

/// A line that starts an IAL.
pub open spec fn ial_line_pattern() -> Seq<char> {
    "^\\{:"@
}

/// A well-formed IAL: attributes `#id`, `.class` and `key=value`.
pub open spec fn valid_ial_pattern() -> Seq<char> {
    "^\\{:\\s*(?:[#.][^\\s}\\{]+|[A-Za-z_][\\w-]*(?:=(?:\"[^\"]*\"|'[^']*'|[\\w-]+))?)\\s*(?:\\s+(?:[#.][^\\s}\\{]+|[A-Za-z_][\\w-]*(?:=(?:\"[^\"]*\"|'[^']*'|[\\w-]+))?))*\\s*\\}\\s*$"@
}

/// The empty IAL `{:}`.
pub open spec fn empty_ial_pattern() -> Seq<char> {
    "^\\{:\\s*\\}\\s*$"@
}

pub open spec fn kmd006_error(ln: int, t: Seq<char>) -> LintErrorView {
    LintErrorView {
        detail: Some("Malformed IAL syntax: '"@ + t + "' (expected: {: #id .class key=\"val\"})"@),
        fix: Some(fix_view(Some(ln as usize), Some(1usize), Some(-1i32), None)),
        ..base_error(kmd006_meta(), ln)
    }
}

/// Whether the first `n` lines end inside a fenced block, and the findings.
pub open spec fn kmd006_scan(ls: Seq<Seq<char>>, n: int) -> (bool, Seq<LintErrorView>)
    decreases n,
{
    if n <= 0 {
        (false, seq![])
    } else {
        let prev = kmd006_scan(ls, n - 1);
        let t = trim(strip_eol(ls[n - 1]));
        if code_fence(t) {
            (!prev.0, prev.1)
        } else if !prev.0 && regex_is_match(ial_line_pattern(), t) && !regex_is_match(
            valid_ial_pattern(),
            t,
        ) && !regex_is_match(empty_ial_pattern(), t) {
            (prev.0, prev.1.push(kmd006_error(n, t)))
        } else {
            prev
        }
    }
}

/// The findings of KMD006 (none where a pattern is refused).
pub open spec fn kmd006_errors(ls: Seq<Seq<char>>) -> Seq<LintErrorView> {
    if regex_compiles(ial_line_pattern()) && regex_compiles(valid_ial_pattern())
        && regex_compiles(empty_ial_pattern()) {
        kmd006_scan(ls, ls.len() as int).1
    } else {
        seq![]
    }
}

impl KMD006 {
    pub fn names(&self) -> (r: Vec<&'static str>)
        ensures
            names_view(r@) == kmd006_meta().names,
    {
        let r = vec!["KMD006", "valid-ial-syntax"];
        assert(names_view(r@) =~= kmd006_meta().names);
        r
    }

    pub fn description(&self) -> (r: &'static str)
        ensures
            r@ == kmd006_meta().description,
    {
        "IAL (Inline Attribute List) syntax must be well-formed"
    }

    pub fn tags(&self) -> (r: Vec<&'static str>)
        ensures
            names_view(r@) == seq!["kramdown"@, "ial"@, "attributes"@],
    {
        let r = vec!["kramdown", "ial", "attributes"];
        assert(names_view(r@) =~= seq!["kramdown"@, "ial"@, "attributes"@]);
        r
    }

    pub fn parser_type(&self) -> (r: ParserType)
        ensures
            r == ParserType::Plain,
    {
        ParserType::Plain
    }

    pub fn is_enabled_by_default(&self) -> (r: bool)
        ensures
            !r,
    {
        false
    }

    pub fn lint(&self, params: &RuleParams) -> (errors: Vec<LintError>)
        ensures
            errors_view(errors@) == kmd006_errors(views(params.lines@)),
    {
        let lines = params.lines;
        let ghost ls = views(lines@);
        let mut errors: Vec<LintError> = Vec::new();
        let line_re = match compile("^\\{:") {
            Some(p) => p,
            None => {
                assert(errors_view(errors@) =~= seq![]);
                return errors;
            },
        };
        let valid_re = match compile("^\\{:\\s*(?:[#.][^\\s}\\{]+|[A-Za-z_][\\w-]*(?:=(?:\"[^\"]*\"|'[^']*'|[\\w-]+))?)\\s*(?:\\s+(?:[#.][^\\s}\\{]+|[A-Za-z_][\\w-]*(?:=(?:\"[^\"]*\"|'[^']*'|[\\w-]+))?))*\\s*\\}\\s*$") {
            Some(p) => p,
            None => {
                assert(errors_view(errors@) =~= seq![]);
                return errors;
            },
        };
        let empty_re = match compile("^\\{:\\s*\\}\\s*$") {
            Some(p) => p,
            None => {
                assert(errors_view(errors@) =~= seq![]);
                return errors;
            },
        };
        let names = self.names();
        let mut in_code_block = false;
        let n = lines.len();
        let mut i: usize = 0;
        assert(errors_view(errors@) =~= seq![]);
        while i < n
            invariant
                n == lines@.len(),
                i <= n,
                ls == views(lines@),
                line_re@ == ial_line_pattern(),
                valid_re@ == valid_ial_pattern(),
                empty_re@ == empty_ial_pattern(),
                names_view(names@) == kmd006_meta().names,
                (in_code_block, errors_view(errors@)) == kmd006_scan(ls, i as int),
            decreases n - i,
        {
            let t = trim_vec(&strip_eol_vec(&chars_of(lines[i])));
            let ts = string_of(&t);
            if is_code_fence(ts.as_str()) {
                in_code_block = !in_code_block;
            } else if !in_code_block && is_match(&line_re, ts.as_str()) && !is_match(
                &valid_re,
                ts.as_str(),
            ) && !is_match(&empty_re, ts.as_str()) {
                let mut d = text("Malformed IAL syntax: '");
                push_chars(&mut d, &t);
                push_str(&mut d, "' (expected: {: #id .class key=\"val\"})");
                let mut e = LintError::new(i + 1, &names, self.description(), None);
                e.error_detail = Some(d);
                e.fix_info = Some(
                    FixInfo {
                        line_number: Some(i + 1),
                        edit_column: Some(1),
                        delete_count: Some(-1),
                        insert_text: None,
                    },
                );
                let ghost b = errors_view(errors@);
                errors.push(e);
                assert(errors_view(errors@) =~= b.push(kmd006_error(i + 1, t@)));
            }
            i = i + 1;
        }
        errors
    }
}

} // verus!
