//! MD035 - Horizontal rule style.
//!
//! Every thematic break must be written as the configured `style` (trimmed;
//! "consistent", the default, takes the text of the first one); others are
//! reported with a fix that rewrites them.

use vstd::prelude::*;
use crate::text::{byte_len, chars_of, eq_str, eq_vec, push_chars, push_str, string_of, text, trim, trim_vec, utf8_byte_len};
use crate::types::{
    base_error, errors_view, fix_view, names_view, opt_str, FixInfo, LintError, LintErrorView,
    ParserType, RuleMeta, RuleParams, Token, token_texts_fit,
};
use crate::config::{value_as_str, Config};

verus! {

pub struct MD035;

pub open spec fn md035_meta() -> RuleMeta {
    RuleMeta {
        names: seq!["MD035"@, "hr-style"@],
        description: "Horizontal rule style"@,
        information: Some("https://github.com/DavidAnson/markdownlint/blob/main/doc/md035.md"@),
    }
}

/// The configured style, trimmed.
pub open spec fn md035_style(c: Config) -> Seq<char> {
    match value_as_str(c.lookup("style"@)) {
        Some(s) => trim(s),
        None => "consistent"@,
    }
}

pub open spec fn md035_error(t: Token, style: Seq<char>) -> LintErrorView {
    LintErrorView {
        detail: Some("Expected: "@ + style + "; Actual: "@ + t.text@),
        context: Some(t.text@),
        range: Some((1usize, byte_len(t.text@) as usize)),
        fix: Some(
            fix_view(
                Some(t.start_line),
                Some(1usize),
                Some(byte_len(t.text@) as i32),
                Some(style),
            ),
        ),
        ..base_error(md035_meta(), t.start_line as int)
    }
}

/// The style in force and the findings after `n` tokens.
pub open spec fn md035_scan(toks: Seq<Token>, style: Seq<char>, n: int) -> (Seq<char>, Seq<LintErrorView>)
    decreases n,
{
    if n <= 0 {
        (style, seq![])
    } else {
        let prev = md035_scan(toks, style, n - 1);
        let t = toks[n - 1];
        if t.token_type@ == "thematicBreak"@ {
            let s = if prev.0 == "consistent"@ {
                t.text@
            } else {
                prev.0
            };
            if t.text@ != s {
                (s, prev.1.push(md035_error(t, s)))
            } else {
                (s, prev.1)
            }
        } else {
            prev
        }
    }
}

/// The findings of MD035.
pub open spec fn md035_errors(toks: Seq<Token>, c: Config) -> Seq<LintErrorView> {
    md035_scan(toks, md035_style(c), toks.len() as int).1
}

impl MD035 {
    pub fn names(&self) -> (r: Vec<&'static str>)
        ensures
            names_view(r@) == md035_meta().names,
    {
        let r = vec!["MD035", "hr-style"];
        assert(names_view(r@) =~= md035_meta().names);
        r
    }

    pub fn description(&self) -> (r: &'static str)
        ensures
            r@ == md035_meta().description,
    {
        "Horizontal rule style"
    }

    pub fn tags(&self) -> (r: Vec<&'static str>)
        ensures
            names_view(r@) == seq!["hr"@],
    {
        let r = vec!["hr"];
        assert(names_view(r@) =~= seq!["hr"@]);
        r
    }

    pub fn parser_type(&self) -> (r: ParserType)
        ensures
            r == ParserType::Micromark,
    {
        ParserType::Micromark
    }

    pub fn information(&self) -> (r: Option<&'static str>)
        ensures
            opt_str(r) == md035_meta().information,
    {
        Some("https://github.com/DavidAnson/markdownlint/blob/main/doc/md035.md")
    }

    pub fn lint(&self, params: &RuleParams) -> (errors: Vec<LintError>)
        requires
            token_texts_fit(params.tokens@),
        ensures
            errors_view(errors@) == md035_errors(params.tokens@, *params.config),
    {
        let tokens = params.tokens;
        let mut style: Vec<char> = match params.config.get_str("style") {
            Some(v) => trim_vec(&v),
            None => chars_of("consistent"),
        };
        let ghost s0 = style@;
        assert(s0 == md035_style(*params.config));
        let names = self.names();
        let mut errors: Vec<LintError> = Vec::new();
        let n = tokens.len();
        let mut i: usize = 0;
        assert(errors_view(errors@) =~= seq![]);
        while i < n
            invariant
                n == tokens@.len(),
                i <= n,
                token_texts_fit(tokens@),
                names_view(names@) == md035_meta().names,
                (style@, errors_view(errors@)) == md035_scan(tokens@, s0, i as int),
            decreases n - i,
        {
            let token = &tokens[i];
            if token.is_type("thematicBreak") {
                let tv = chars_of(token.text.as_str());
                assert(byte_len(tokens@[i as int].text@) <= isize::MAX);
                if eq_str(&style, "consistent") {
                    style = tv.clone();
                }
                if !eq_vec(&tv, &style) {
                    let len = utf8_byte_len(&tv);
                    let mut d = text("Expected: ");
                    push_chars(&mut d, &style);
                    push_str(&mut d, "; Actual: ");
                    push_chars(&mut d, &tv);
                    let mut e = LintError::new(token.start_line, &names, self.description(), self.information());
                    e.error_detail = Some(d);
                    e.error_context = Some(string_of(&tv));
                    e.error_range = Some((1, len));
                    e.fix_info = Some(
                        FixInfo {
                            line_number: Some(token.start_line),
                            edit_column: Some(1),
                            delete_count: Some(len as i32),
                            insert_text: Some(string_of(&style)),
                        },
                    );
                    let ghost b = errors_view(errors@);
                    errors.push(e);
                    assert(errors_view(errors@) =~= b.push(md035_error(*token, style@)));
                }
            }
            i = i + 1;
        }
        errors
    }
}

} // verus!
