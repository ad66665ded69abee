//! MD007 - Unordered list indentation.
//!
//! An unordered list item (outside fenced code) that is indented must be
//! indented by a multiple of `indent` (default 2); others are reported
//! with a fix that sets the indentation to the multiple just below.

use vstd::prelude::*;
use crate::text::{
    byte_len, chars_of, decimal, push_decimal, push_repeat, push_str, repeat_char, strip_eol,
    strip_eol_vec, string_of, text, trim_start, trim_start_vec, utf8_byte_len, views,
};
use crate::types::{
    base_error, errors_view, fix_view, lines_fit, names_view, opt_str, FixInfo, LintError,
    LintErrorView, ParserType, RuleMeta, RuleParams,
};
use crate::config::{value_as_u64, Config};
use crate::helpers::{code_fence, is_code_fence};
use crate::pattern::{captures, compile, group_at, group_chars, regex_captures, regex_compiles};

verus! {

pub struct MD007;

pub open spec fn md007_meta() -> RuleMeta {
    RuleMeta {
        names: seq!["MD007"@, "ul-indent"@],
        description: "Unordered list indentation"@,
        information: Some("https://github.com/DavidAnson/markdownlint/blob/main/doc/md007.md"@),
    }
}

/// A line that starts an unordered list item; group 1 is its indentation.
pub open spec fn ul_marker_pattern() -> Seq<char> {
    "^(\\s*)[*+\\-]\\s"@
}

/// The configured indentation step (2 by default).
pub open spec fn md007_indent(c: Config) -> usize {
    match value_as_u64(c.lookup("indent"@)) {
        Some(n) => n as usize,
        None => 2,
    }
}

/// The indentation, in bytes, of the list item that starts `t`, if any.
pub open spec fn item_indent(t: Seq<char>) -> Option<nat> {
    match regex_captures(ul_marker_pattern(), t) {
        Some(g) => Some(byte_len(group_at(t, g, 1))),
        None => None,
    }
}

pub open spec fn md007_error(ln: int, t: Seq<char>, leading: nat, indent: nat) -> LintErrorView {
    let expected = (leading / indent) * indent;
    LintErrorView {
        detail: Some("Expected: "@ + decimal(expected) + "; Actual: "@ + decimal(leading)),
        context: Some(t),
        range: Some((1usize, leading as usize)),
        fix: Some(fix_view(None, Some(1usize), Some(leading as i32), Some(repeat_char(' ', expected)))),
        ..base_error(md007_meta(), ln)
    }
}

/// Whether the first `n` lines end inside a fenced block, the findings,
/// and whether no indented item met a zero indentation step.
pub open spec fn md007_scan(ls: Seq<Seq<char>>, indent: nat, n: int) -> (bool, Seq<LintErrorView>, bool)
    decreases n,
{
    if n <= 0 {
        (false, seq![], true)
    } else {
        let prev = md007_scan(ls, indent, n - 1);
        let t = strip_eol(ls[n - 1]);
        if code_fence(trim_start(t)) {
            (!prev.0, prev.1, prev.2)
        } else if prev.0 {
            prev
        } else {
            match item_indent(t) {
                Some(leading) => if leading > 0 && indent == 0 {
                    (prev.0, prev.1, false)
                } else if leading > 0 && leading % indent != 0 {
                    (prev.0, prev.1.push(md007_error(n, t, leading, indent)), prev.2)
                } else {
                    prev
                },
                None => prev,
            }
        }
    }
}

/// The findings of MD007 (none where the pattern is refused).
pub open spec fn md007_errors(ls: Seq<Seq<char>>, c: Config) -> Seq<LintErrorView> {
    if regex_compiles(ul_marker_pattern()) {
        md007_scan(ls, md007_indent(c) as nat, ls.len() as int).1
    } else {
        seq![]
    }
}

/// An indentation step of 0 is only configured where no item is indented
/// (the remainder by 0 is undefined).
pub open spec fn md007_safe(ls: Seq<Seq<char>>, c: Config) -> bool {
    regex_compiles(ul_marker_pattern()) ==> md007_scan(ls, md007_indent(c) as nat, ls.len() as int).2
}

proof fn lemma_scan_safe_prefix(ls: Seq<Seq<char>>, indent: nat, k: int, m: int)
    requires
        0 <= k <= m,
        md007_scan(ls, indent, m).2,
    ensures
        md007_scan(ls, indent, k).2,
    decreases m - k,
{
    if k < m {
        lemma_scan_safe_prefix(ls, indent, k, m - 1);
    }
}

impl MD007 {
    pub fn names(&self) -> (r: Vec<&'static str>)
        ensures
            names_view(r@) == md007_meta().names,
    {
        let r = vec!["MD007", "ul-indent"];
        assert(names_view(r@) =~= md007_meta().names);
        r
    }

    pub fn description(&self) -> (r: &'static str)
        ensures
            r@ == md007_meta().description,
    {
        "Unordered list indentation"
    }

    pub fn tags(&self) -> (r: Vec<&'static str>)
        ensures
            names_view(r@) == seq!["bullet"@, "ul"@, "indentation"@],
    {
        let r = vec!["bullet", "ul", "indentation"];
        assert(names_view(r@) =~= seq!["bullet"@, "ul"@, "indentation"@]);
        r
    }

    pub fn parser_type(&self) -> (r: ParserType)
        ensures
            r == ParserType::Plain,
    {
        ParserType::Plain
    }

    pub fn information(&self) -> (r: Option<&'static str>)
        ensures
            opt_str(r) == md007_meta().information,
    {
        Some("https://github.com/DavidAnson/markdownlint/blob/main/doc/md007.md")
    }

    pub fn lint(&self, params: &RuleParams) -> (errors: Vec<LintError>)
        requires
            lines_fit(params.lines@),
            md007_safe(views(params.lines@), *params.config),
        ensures
            errors_view(errors@) == md007_errors(views(params.lines@), *params.config),
    {
        match self.lint_checked(params) {
            Some(errors) => errors,
            None => Vec::new(),
        }
    }

    /// The findings, or `None` where an indented item meets a configured
    /// indentation step of 0 (whose remainder is undefined).
    pub fn lint_checked(&self, params: &RuleParams) -> (r: Option<Vec<LintError>>)
        requires
            lines_fit(params.lines@),
        ensures
            r is None <==> !md007_safe(views(params.lines@), *params.config),
            r matches Some(errors) ==> errors_view(errors@) == md007_errors(views(params.lines@), *params.config),
    {
        let lines = params.lines;
        let ghost ls = views(lines@);
        let mut errors: Vec<LintError> = Vec::new();
        let indent: usize = match params.config.get_u64("indent") {
            Some(v) => v as usize,
            None => 2,
        };
        assert(indent == md007_indent(*params.config));
        let re = match compile("^(\\s*)[*+\\-]\\s") {
            Some(p) => p,
            None => {
                assert(errors_view(errors@) =~= seq![]);
                return Some(errors);
            },
        };
        let names = self.names();
        let mut in_code_block = false;
        let n = lines.len();
        let mut i: usize = 0;
        assert(errors_view(errors@) =~= seq![]);
        while i < n
            invariant
                n == lines@.len(),
                i <= n,
                ls == views(lines@),
                lines_fit(lines@),
                re@ == ul_marker_pattern(),
                regex_compiles(ul_marker_pattern()),
                indent == md007_indent(*params.config),
                lines == params.lines,
                md007_scan(ls, indent as nat, i as int).2,
                names_view(names@) == md007_meta().names,
                (in_code_block, errors_view(errors@)) == ({
                    let s = md007_scan(ls, indent as nat, i as int);
                    (s.0, s.1)
                }),
            decreases n - i,
        {
            proof {
                assert(byte_len(lines@[i as int]@) <= isize::MAX);
                crate::text::lemma_strip_eol_prefix(lines@[i as int]@);
                crate::text::lemma_byte_len_trims(lines@[i as int]@, '\n');
            }
            let t = strip_eol_vec(&chars_of(lines[i]));
            let ts = string_of(&t);
            let st = string_of(&trim_start_vec(&t));
            if is_code_fence(st.as_str()) {
                in_code_block = !in_code_block;
            } else if !in_code_block {
                match captures(&re, ts.as_str()) {
                    Some(g) => {
                        let sp = group_chars(&t, &g, 1);
                        proof {
                            crate::text::lemma_byte_slice_bound(t@, 0, 0);
                            if g@.len() > 1 && g@[1] is Some {
                                let s = g@[1]->0;
                                crate::text::lemma_byte_slice_bound(t@, s.0 as int, s.1 as int);
                            }
                        }
                        let leading = utf8_byte_len(&sp);
                        if leading > 0 && indent == 0 {
                            proof {
                                assert(!md007_scan(ls, indent as nat, i + 1).2);
                                if md007_scan(ls, indent as nat, n as int).2 {
                                    lemma_scan_safe_prefix(ls, indent as nat, i + 1, n as int);
                                }
                            }
                            return None;
                        }
                        if leading > 0 && leading % indent != 0 {
                            let q = leading / indent;
                            assert(q * indent <= leading) by (nonlinear_arith)
                                requires
                                    q == leading / indent,
                                    indent > 0,
                            ;
                            let expected = q * indent;
                            let mut d = text("Expected: ");
                            push_decimal(&mut d, expected);
                            push_str(&mut d, "; Actual: ");
                            push_decimal(&mut d, leading);
                            let mut fix = text("");
                            push_repeat(&mut fix, ' ', expected);
                            proof {
                                reveal_strlit("");
                                assert(fix@ =~= repeat_char(' ', expected as nat));
                            }
                            let mut e = LintError::new(i + 1, &names, self.description(), self.information());
                            e.error_detail = Some(d);
                            e.error_context = Some(ts);
                            e.error_range = Some((1, leading));
                            e.fix_info = Some(
                                FixInfo {
                                    line_number: None,
                                    edit_column: Some(1),
                                    delete_count: Some(leading as i32),
                                    insert_text: Some(fix),
                                },
                            );
                            let ghost b = errors_view(errors@);
                            errors.push(e);
                            assert(errors_view(errors@) =~= b.push(
                                md007_error(i + 1, t@, leading as nat, indent as nat),
                            ));
                        }
                    },
                    None => {},
                }
            }
            i = i + 1;
        }
        Some(errors)
    }
}

} // verus!
