//! MD040 - Fenced code blocks should have a language specified.
//!
//! An opening fence with nothing after the fence characters is reported;
//! the fix inserts the `default_language` option (default `text`).

use vstd::prelude::*;
use crate::text::{
    byte_len, chars_of, starts_with, starts_with_str, string_of, text, trim, trim_start,
    trim_start_vec, trim_vec, utf8_byte_len, views,
};
use crate::types::{
    base_error, errors_view, fix_view, lines_fit, names_view, opt_str, FixInfo, LintError,
    LintErrorView, ParserType, RuleMeta, RuleParams,
};

use crate::config::value_as_str;
use crate::helpers::{code_fence, is_code_fence};
use crate::text::{lemma_byte_len_trims, trim_start_seq, trim_start_str_vec};

verus! {

pub struct MD040;

pub open spec fn md040_meta() -> RuleMeta {
    RuleMeta {
        names: seq!["MD040"@, "fenced-code-language"@],
        description: "Fenced code blocks should have a language specified"@,
        information: Some("https://github.com/DavidAnson/markdownlint/blob/main/doc/md040.md"@),
    }
}

pub open spec fn fence_of(t: Seq<char>) -> Seq<char> {
    if starts_with(t, "```"@) {
        "```"@
    } else {
        "~~~"@
    }
}

pub open spec fn md040_error(line: Seq<char>, i: int, lang: Seq<char>) -> LintErrorView {
    let t = trim(line);
    let lead = byte_len(line) - byte_len(trim_start(line));
    LintErrorView {
        detail: Some("Missing language specification"@),
        context: Some(t),
        range: Some(((lead + 1) as usize, byte_len(t) as usize)),
        fix: Some(fix_view(Some((i + 1) as usize), Some((lead + 3 + 1) as usize), None, Some(lang))),
        suggestion: Some("Specify a language for fenced code blocks"@),
        ..base_error(md040_meta(), i + 1)
    }
}

pub open spec fn md040_scan(ls: Seq<Seq<char>>, lang: Seq<char>, n: int) -> (bool, Seq<LintErrorView>)
    decreases n,
{
    if n <= 0 {
        (false, seq![])
    } else {
        let st = md040_scan(ls, lang, n - 1);
        let t = trim(ls[n - 1]);
        if code_fence(t) {
            if st.0 {
                (false, st.1)
            } else if trim(trim_start_seq(t, fence_of(t))).len() == 0 {
                (true, st.1.push(md040_error(ls[n - 1], n - 1, lang)))
            } else {
                (true, st.1)
            }
        } else {
            st
        }
    }
}

/// The `default_language` option; `text` when absent.
pub open spec fn md040_language(params: RuleParams) -> Seq<char> {
    match value_as_str(params.config.lookup("default_language"@)) {
        Some(s) => s,
        None => "text"@,
    }
}

/// The findings of MD040.
pub open spec fn md040_errors(ls: Seq<Seq<char>>, lang: Seq<char>) -> Seq<LintErrorView> {
    md040_scan(ls, lang, ls.len() as int).1
}

impl MD040 {
    pub fn names(&self) -> (r: Vec<&'static str>)
        ensures
            names_view(r@) == md040_meta().names,
    {
        let r = vec!["MD040", "fenced-code-language"];
        assert(names_view(r@) =~= md040_meta().names);
        r
    }

    pub fn description(&self) -> (r: &'static str)
        ensures
            r@ == md040_meta().description,
    {
        "Fenced code blocks should have a language specified"
    }

    pub fn tags(&self) -> (r: Vec<&'static str>)
        ensures
            names_view(r@) == seq!["code"@, "language"@, "fixable"@],
    {
        let r = vec!["code", "language", "fixable"];
        assert(names_view(r@) =~= seq!["code"@, "language"@, "fixable"@]);
        r
    }

    pub fn parser_type(&self) -> (r: ParserType)
        ensures
            r == ParserType::Plain,
    {
        ParserType::Plain
    }

    pub fn information(&self) -> (r: Option<&'static str>)
        ensures
            opt_str(r) == md040_meta().information,
    {
        Some("https://github.com/DavidAnson/markdownlint/blob/main/doc/md040.md")
    }

    pub fn lint(&self, params: &RuleParams) -> (errors: Vec<LintError>)
        requires
            lines_fit(params.lines@),
        ensures
            errors_view(errors@) == md040_errors(views(params.lines@), md040_language(*params)),
    {
        let lang: Vec<char> = match params.config.get_str("default_language") {
            Some(s) => s,
            None => chars_of("text"),
        };
        let lines = params.lines;
        let ghost ls = views(lines@);
        let names = self.names();
        let mut errors: Vec<LintError> = Vec::new();
        let mut in_code_block = false;
        let n = lines.len();
        let mut i: usize = 0;
        while i < n
            invariant
                n == lines@.len(),
                i <= n,
                ls == views(lines@),
                lines_fit(lines@),
                lang@ == md040_language(*params),
                names_view(names@) == md040_meta().names,
                md040_scan(ls, lang@, i as int) == (in_code_block, errors_view(errors@)),
            decreases n - i,
        {
            let ghost before = errors@;
            let v = chars_of(lines[i]);
            let t = trim_vec(&v);
            let ts = string_of(&t);
            if is_code_fence(ts.as_str()) {
                let fence_chars = if starts_with_str(&t, "```") {
                    "```"
                } else {
                    "~~~"
                };
                let a = trim_start_str_vec(&t, fence_chars);
                let after_fence = trim_vec(&a);
                if in_code_block {
                    in_code_block = false;
                } else {
                    in_code_block = true;
                    if after_fence.len() == 0 {
                        let vs = trim_start_vec(&v);
                        proof {
                            assert(byte_len(lines@[i as int]@) <= isize::MAX);
                            lemma_byte_len_trims(v@, ' ');
                            reveal_strlit("```");
                            reveal_strlit("~~~");
                        }
                        let total = utf8_byte_len(&v);
                        let rest = utf8_byte_len(&vs);
                        let tlen = utf8_byte_len(&t);
                        let leading_spaces = total - rest;
                        let fence_len: usize = 3;
                        let mut e = LintError::new(i + 1, &names, self.description(), self.information());
                        e.error_detail = Some(text("Missing language specification"));
                        e.error_context = Some(string_of(&t));
                        e.error_range = Some((leading_spaces + 1, tlen));
                        e.fix_info = Some(
                            FixInfo {
                                line_number: Some(i + 1),
                                edit_column: Some(leading_spaces + fence_len + 1),
                                delete_count: None,
                                insert_text: Some(string_of(&lang)),
                            },
                        );
                        e.suggestion = Some(text("Specify a language for fenced code blocks"));
                        errors.push(e);
                        assert(errors_view(errors@) =~= errors_view(before).push(md040_error(ls[i as int], i as int, lang@)));
                    }
                }
            }
            i = i + 1;
        }
        errors
    }
}

} // verus!
