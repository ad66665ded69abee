//! MD003 - Heading style.
//!
//! Checks that the heading style is consistent throughout the document.
//! Supported styles (option `style`): `atx` (`# Heading`), `atx_closed`
//! (`# Heading #`), `setext` (underlined with `=` or `-`), `setext_with_atx`
//! (setext for h1 and h2, atx for h3-h6), `setext_with_atx_closed`, and
//! `consistent` (the default: the first heading sets the style).

use vstd::prelude::*;
use crate::text::{
    byte_len, chars_of, ends_with, ends_with_str, eq_str, line_body, push_chars, push_str,
    starts_with, starts_with_str, strip_eol, text, trim, trim_end, trim_end_vec, trim_vec,
    utf8_byte_len, views,
};
use crate::types::{
    base_error, errors_view, fix_view, lines_fit, names_view, opt_str, FixInfo, LintError,
    LintErrorView, ParserType, RuleMeta, RuleParams,
};

use crate::config::value_as_str;
use crate::text::{
    all_char, all_chars_are, lemma_byte_len_trims, leading_count, leading_len, push_repeat,
    repeat_char, trim_end_char, trim_end_char_vec, trim_start_char, trim_start_char_vec,
};
use crate::types::{FixView, Token};

verus! {

pub struct MD003;

pub open spec fn md003_meta() -> RuleMeta {
    RuleMeta {
        names: seq!["MD003"@, "heading-style"@],
        description: "Heading style"@,
        information: Some("https://github.com/DavidAnson/markdownlint/blob/main/doc/md003.md"@),
    }
}

#[derive(Debug, PartialEq, Eq, Clone, Copy, Structural)]
pub enum HeadingStyle {
    Atx,
    AtxClosed,
    Setext,
}

pub open spec fn style_name(s: HeadingStyle) -> Seq<char> {
    match s {
        HeadingStyle::Atx => "atx"@,
        HeadingStyle::AtxClosed => "atx_closed"@,
        HeadingStyle::Setext => "setext"@,
    }
}

impl HeadingStyle {
    pub fn as_str(&self) -> (r: &'static str)
        ensures
            r@ == style_name(*self),
    {
        match self {
            HeadingStyle::Atx => "atx",
            HeadingStyle::AtxClosed => "atx_closed",
            HeadingStyle::Setext => "setext",
        }
    }
}

/// The underline of a setext heading: non-empty, all `=` or all `-`.
pub open spec fn setext_underline(u: Seq<char>) -> bool {
    u.len() > 0 && (all_char(u, '=') || all_char(u, '-'))
}

/// The style of the heading on lines `start..=end` (1-based).
pub open spec fn heading_style(ls: Seq<Seq<char>>, start: int, end: int) -> HeadingStyle {
    if start == 0 || start > ls.len() {
        HeadingStyle::Atx
    } else {
        let t = trim(ls[start - 1]);
        if starts_with(t, "#"@) {
            let w = trim(trim_start_char(t, '#'));
            // `without_trailing` is shorter by at least two bytes exactly when at
            // least two characters went, as the last of them is a one-byte `#`.
            if ends_with(w, "#"@) && trim_end(trim_end_char(w, '#')).len() + 1 < w.len() {
                HeadingStyle::AtxClosed
            } else {
                HeadingStyle::Atx
            }
        } else if end > start && end <= ls.len() && setext_underline(trim(ls[end - 1])) {
            HeadingStyle::Setext
        } else {
            HeadingStyle::Atx
        }
    }
}

/// The level (1-6) of the heading on lines `start..=end`.
pub open spec fn heading_level(ls: Seq<Seq<char>>, start: int, end: int) -> nat {
    if start == 0 || start > ls.len() {
        1
    } else {
        let t = trim(ls[start - 1]);
        if starts_with(t, "#"@) {
            let c = leading_count(t, '#');
            if c < 6 {
                c
            } else {
                6
            }
        } else if end > start && end <= ls.len() && trim(ls[end - 1]).len() > 0 && all_char(
            trim(ls[end - 1]),
            '=',
        ) {
            1
        } else if end > start && end <= ls.len() && trim(ls[end - 1]).len() > 0 && all_char(
            trim(ls[end - 1]),
            '-',
        ) {
            2
        } else {
            1
        }
    }
}

/// The text of the heading on line `start`, read in `current` style.
pub open spec fn heading_text(line: Seq<char>, current: HeadingStyle) -> Seq<char> {
    match current {
        HeadingStyle::Atx => trim(trim_start_char(trim(line), '#')),
        HeadingStyle::AtxClosed => trim(trim_end_char(trim(trim_start_char(trim(line), '#')), '#')),
        HeadingStyle::Setext => trim_end(line),
    }
}

pub open spec fn atx_heading(level: nat, text: Seq<char>) -> Seq<char> {
    repeat_char('#', level) + " "@ + text
}

pub open spec fn whole_line_fix(start: int, insert: Seq<char>) -> FixView {
    fix_view(Some(start as usize), Some(1usize), Some(i32::MAX), Some(insert))
}

/// The replacement of a heading by one in `target` style.
pub open spec fn heading_fix(
    ls: Seq<Seq<char>>,
    start: int,
    current: HeadingStyle,
    target: Seq<char>,
    level: nat,
) -> Option<FixView> {
    if start == 0 || start > ls.len() {
        None
    } else {
        let text = heading_text(ls[start - 1], current);
        if target == "atx"@ {
            Some(whole_line_fix(start, atx_heading(level, text)))
        } else if target == "atx_closed"@ {
            Some(
                whole_line_fix(start, atx_heading(level, text) + " "@ + repeat_char('#', level)),
            )
        } else if target == "setext"@ {
            if level > 2 {
                Some(whole_line_fix(start, atx_heading(level, text)))
            } else {
                let u = repeat_char(
                    if level == 1 {
                        '='
                    } else {
                        '-'
                    },
                    if byte_len(text) > 3 {
                        byte_len(text)
                    } else {
                        3
                    },
                );
                let body = text + "\n"@ + u;
                if start > 1 && trim(strip_eol(ls[start - 2])).len() > 0 {
                    Some(whole_line_fix(start, "\n"@ + body))
                } else {
                    Some(whole_line_fix(start, body))
                }
            }
        } else {
            None
        }
    }
}

/// The style a configured `style` expects of a heading, if it is not met.
pub open spec fn expected_style(cs: Seq<char>, style: HeadingStyle, level: nat) -> Option<
    Seq<char>,
> {
    if cs == "atx"@ {
        if style != HeadingStyle::Atx {
            Some("atx"@)
        } else {
            None
        }
    } else if cs == "atx_closed"@ {
        if style != HeadingStyle::AtxClosed {
            Some("atx_closed"@)
        } else {
            None
        }
    } else if cs == "setext"@ {
        if style != HeadingStyle::Setext {
            Some("setext"@)
        } else {
            None
        }
    } else if cs == "setext_with_atx"@ {
        if level <= 2 {
            if style != HeadingStyle::Setext {
                Some("setext"@)
            } else {
                None
            }
        } else if style != HeadingStyle::Atx {
            Some("atx"@)
        } else {
            None
        }
    } else if cs == "setext_with_atx_closed"@ {
        if level <= 2 {
            if style != HeadingStyle::Setext {
                Some("setext"@)
            } else {
                None
            }
        } else if style != HeadingStyle::AtxClosed {
            Some("atx_closed"@)
        } else {
            None
        }
    } else {
        None
    }
}

/// The configured style; `consistent` when absent.
pub open spec fn md003_style(params: RuleParams) -> Seq<char> {
    match value_as_str(params.config.lookup("style"@)) {
        Some(s) => s,
        None => "consistent"@,
    }
}

/// Findings for one heading on lines `start..=end`, and the first style
/// seen afterwards.
pub open spec fn md003_heading(
    ls: Seq<Seq<char>>,
    cs: Seq<char>,
    start: usize,
    end: usize,
    first: Option<HeadingStyle>,
) -> (Option<HeadingStyle>, Seq<LintErrorView>) {
    let style = heading_style(ls, start as int, end as int);
    let level = heading_level(ls, start as int, end as int);
    if cs == "consistent"@ {
        match first {
            None => (Some(style), seq![]),
            Some(f) => if style == f {
                (first, seq![])
            } else {
                let e1 = LintErrorView {
                    detail: Some("Expected: "@ + style_name(f) + "; Actual: "@ + style_name(style)),
                    fix: heading_fix(ls, start as int, style, style_name(f), level),
                    suggestion: Some(
                        "Convert heading to "@ + style_name(f)
                            + " style to match the first heading"@,
                    ),
                    ..base_error(md003_meta(), start as int)
                };
                if style == HeadingStyle::Setext && end > start {
                    let e2 = LintErrorView {
                        detail: Some("Delete setext underline (part of style conversion)"@),
                        fix: Some(fix_view(Some(end), Some(1usize), Some(-1i32), None)),
                        suggestion: Some("Use consistent heading style throughout the document"@),
                        ..base_error(md003_meta(), end as int)
                    };
                    (first, seq![e1, e2])
                } else {
                    (first, seq![e1])
                }
            },
        }
    } else {
        match expected_style(cs, style, level) {
            None => (first, seq![]),
            Some(x) => {
                let e1 = LintErrorView {
                    detail: Some("Expected: "@ + x + "; Actual: "@ + style_name(style)),
                    fix: heading_fix(ls, start as int, style, x, level),
                    suggestion: Some("Convert heading to "@ + x + " style"@),
                    ..base_error(md003_meta(), start as int)
                };
                if style == HeadingStyle::Setext && end > start {
                    let e2 = LintErrorView {
                        fix: Some(fix_view(Some(end), Some(1usize), Some(-1i32), None)),
                        fix_only: true,
                        ..base_error(md003_meta(), end as int)
                    };
                    (first, seq![e1, e2])
                } else {
                    (first, seq![e1])
                }
            },
        }
    }
}

pub open spec fn md003_scan(ls: Seq<Seq<char>>, toks: Seq<Token>, cs: Seq<char>, n: int) -> (
    Option<HeadingStyle>,
    Seq<LintErrorView>,
)
    decreases n,
{
    if n <= 0 {
        (None, seq![])
    } else {
        let st = md003_scan(ls, toks, cs, n - 1);
        let t = toks[n - 1];
        if t.token_type@ == "heading"@ {
            let r = md003_heading(ls, cs, t.start_line, t.end_line, st.0);
            (r.0, st.1 + r.1)
        } else {
            st
        }
    }
}

/// The findings of MD003, heading tokens taken in order.
pub open spec fn md003_errors(ls: Seq<Seq<char>>, toks: Seq<Token>, cs: Seq<char>) -> Seq<
    LintErrorView,
> {
    md003_scan(ls, toks, cs, toks.len() as int).1
}

/// Determines the heading style from the actual text.
pub fn get_heading_style(lines: &[&str], start_line: usize, end_line: usize) -> (r: HeadingStyle)
    ensures
        r == heading_style(views(lines@), start_line as int, end_line as int),
{
    if start_line == 0 || start_line > lines.len() {
        return HeadingStyle::Atx;
    }
    let line = chars_of(lines[start_line - 1]);
    let t = trim_vec(&line);
    if starts_with_str(&t, "#") {
        let w0 = trim_start_char_vec(&t, '#');
        let w = trim_vec(&w0);
        if ends_with_str(&w, "#") {
            let x = trim_end_char_vec(&w, '#');
            let without_trailing = trim_end_vec(&x);
            if w.len() > 0 && without_trailing.len() < w.len() - 1 {
                return HeadingStyle::AtxClosed;
            }
        }
        return HeadingStyle::Atx;
    }
    if end_line > start_line && end_line <= lines.len() {
        let u0 = chars_of(lines[end_line - 1]);
        let u = trim_vec(&u0);
        if u.len() != 0 && (all_chars_are(&u, '=') || all_chars_are(&u, '-')) {
            return HeadingStyle::Setext;
        }
    }
    HeadingStyle::Atx
}

/// Gets the heading level (1-6).
pub fn get_heading_level(lines: &[&str], start_line: usize, end_line: usize) -> (r: usize)
    ensures
        r == heading_level(views(lines@), start_line as int, end_line as int),
{
    if start_line == 0 || start_line > lines.len() {
        return 1;
    }
    let line = chars_of(lines[start_line - 1]);
    let t = trim_vec(&line);
    if starts_with_str(&t, "#") {
        let count = leading_len(&t, '#');
        return if count < 6 {
            count
        } else {
            6
        };
    }
    if end_line > start_line && end_line <= lines.len() {
        let u0 = chars_of(lines[end_line - 1]);
        let u = trim_vec(&u0);
        if u.len() != 0 {
            if all_chars_are(&u, '=') {
                return 1;
            } else if all_chars_are(&u, '-') {
                return 2;
            }
        }
    }
    1
}

fn heading_text_of(line: &str, current: HeadingStyle) -> (r: Vec<char>)
    ensures
        r@ == heading_text(line@, current),
        byte_len(r@) <= byte_len(line@),
{
    let v = chars_of(line);
    proof {
        let t = trim(line@);
        let a = trim_start_char(t, '#');
        lemma_byte_len_trims(line@, '#');
        lemma_byte_len_trims(t, '#');
        lemma_byte_len_trims(a, '#');
        lemma_byte_len_trims(trim(a), '#');
        lemma_byte_len_trims(trim_end_char(trim(a), '#'), '#');
    }
    match current {
        HeadingStyle::Atx => {
            let t = trim_vec(&v);
            let a = trim_start_char_vec(&t, '#');
            trim_vec(&a)
        },
        HeadingStyle::AtxClosed => {
            let t = trim_vec(&v);
            let a = trim_start_char_vec(&t, '#');
            let b = trim_vec(&a);
            let c = trim_end_char_vec(&b, '#');
            trim_vec(&c)
        },
        HeadingStyle::Setext => trim_end_vec(&v),
    }
}

/// Generates the fix that converts a heading to the target style.
pub fn generate_heading_fix(
    lines: &[&str],
    start_line: usize,
    end_line: usize,
    current_style: HeadingStyle,
    target_style_str: &str,
    level: usize,
) -> (r: Option<FixInfo>)
    requires
        lines_fit(lines@),
    ensures
        match r {
            Some(f) => heading_fix(
                views(lines@),
                start_line as int,
                current_style,
                target_style_str@,
                level as nat,
            ) == Some(f@),
            None => heading_fix(
                views(lines@),
                start_line as int,
                current_style,
                target_style_str@,
                level as nat,
            ).is_none(),
        },
{
    if start_line == 0 || start_line > lines.len() {
        return None;
    }
    let text = heading_text_of(lines[start_line - 1], current_style);
    assert(byte_len(lines@[start_line - 1]@) <= isize::MAX);
    let tv = chars_of(target_style_str);
    let mut atx = String::new();
    push_repeat(&mut atx, '#', level);
    push_str(&mut atx, " ");
    push_chars(&mut atx, &text);
    assert(atx@ =~= atx_heading(level as nat, text@));
    let new_heading = if eq_str(&tv, "atx") {
        atx
    } else if eq_str(&tv, "atx_closed") {
        push_str(&mut atx, " ");
        push_repeat(&mut atx, '#', level);
        assert(atx@ =~= atx_heading(level as nat, text@) + " "@ + repeat_char('#', level as nat));
        atx
    } else if eq_str(&tv, "setext") {
        if level > 2 {
            return Some(
                FixInfo {
                    line_number: Some(start_line),
                    edit_column: Some(1),
                    delete_count: Some(i32::MAX),
                    insert_text: Some(atx),
                },
            );
        }
        let underline_char = if level == 1 {
            '='
        } else {
            '-'
        };
        let blen = utf8_byte_len(&text);
        let count = if blen > 3 {
            blen
        } else {
            3
        };
        let needs_leading_blank = start_line > 1 && {
            let prev = line_body(lines, start_line - 2);
            let pt = trim_vec(&prev);
            pt.len() != 0
        };
        let mut s = String::new();
        if needs_leading_blank {
            push_str(&mut s, "\n");
        }
        push_chars(&mut s, &text);
        push_str(&mut s, "\n");
        push_repeat(&mut s, underline_char, count);
        proof {
            let body = text@ + "\n"@ + repeat_char(underline_char, count as nat);
            if needs_leading_blank {
                assert(s@ =~= "\n"@ + body);
            } else {
                assert(s@ =~= body);
            }
        }
        s
    } else {
        return None;
    };
    Some(
        FixInfo {
            line_number: Some(start_line),
            edit_column: Some(1),
            delete_count: Some(i32::MAX),
            insert_text: Some(new_heading),
        },
    )
}

fn expected_style_of(cs: &Vec<char>, style: HeadingStyle, level: usize) -> (r: Option<&'static str>)
    ensures
        opt_str(r) == expected_style(cs@, style, level as nat),
{
    if eq_str(cs, "atx") {
        if style != HeadingStyle::Atx {
            Some("atx")
        } else {
            None
        }
    } else if eq_str(cs, "atx_closed") {
        if style != HeadingStyle::AtxClosed {
            Some("atx_closed")
        } else {
            None
        }
    } else if eq_str(cs, "setext") {
        if style != HeadingStyle::Setext {
            Some("setext")
        } else {
            None
        }
    } else if eq_str(cs, "setext_with_atx") {
        if level <= 2 {
            if style != HeadingStyle::Setext {
                Some("setext")
            } else {
                None
            }
        } else if style != HeadingStyle::Atx {
            Some("atx")
        } else {
            None
        }
    } else if eq_str(cs, "setext_with_atx_closed") {
        if level <= 2 {
            if style != HeadingStyle::Setext {
                Some("setext")
            } else {
                None
            }
        } else if style != HeadingStyle::AtxClosed {
            Some("atx_closed")
        } else {
            None
        }
    } else {
        None
    }
}

impl MD003 {
    pub fn names(&self) -> (r: Vec<&'static str>)
        ensures
            names_view(r@) == md003_meta().names,
    {
        let r = vec!["MD003", "heading-style"];
        assert(names_view(r@) =~= md003_meta().names);
        r
    }

    pub fn description(&self) -> (r: &'static str)
        ensures
            r@ == md003_meta().description,
    {
        "Heading style"
    }

    pub fn tags(&self) -> (r: Vec<&'static str>)
        ensures
            names_view(r@) == seq!["headings"@, "fixable"@],
    {
        let r = vec!["headings", "fixable"];
        assert(names_view(r@) =~= seq!["headings"@, "fixable"@]);
        r
    }

    pub fn parser_type(&self) -> (r: ParserType)
        ensures
            r == ParserType::Micromark,
    {
        ParserType::Micromark
    }

    pub fn information(&self) -> (r: Option<&'static str>)
        ensures
            opt_str(r) == md003_meta().information,
    {
        Some("https://github.com/DavidAnson/markdownlint/blob/main/doc/md003.md")
    }

    fn underline_error(&self, names: &Vec<&'static str>, end: usize, helper: bool) -> (e: LintError)
        requires
            names_view(names@) == md003_meta().names,
        ensures
            e@ == (if helper {
                LintErrorView {
                    fix: Some(fix_view(Some(end), Some(1usize), Some(-1i32), None)),
                    fix_only: true,
                    ..base_error(md003_meta(), end as int)
                }
            } else {
                LintErrorView {
                    detail: Some("Delete setext underline (part of style conversion)"@),
                    fix: Some(fix_view(Some(end), Some(1usize), Some(-1i32), None)),
                    suggestion: Some("Use consistent heading style throughout the document"@),
                    ..base_error(md003_meta(), end as int)
                }
            }),
    {
        let mut e = LintError::new(end, names, self.description(), self.information());
        e.fix_info = Some(
            FixInfo {
                line_number: Some(end),
                edit_column: Some(1),
                delete_count: Some(-1),
                insert_text: None,
            },
        );
        if helper {
            e.fix_only = true;
        } else {
            e.error_detail = Some(text("Delete setext underline (part of style conversion)"));
            e.suggestion = Some(text("Use consistent heading style throughout the document"));
        }
        e
    }

    pub fn lint(&self, params: &RuleParams) -> (errors: Vec<LintError>)
        requires
            lines_fit(params.lines@),
        ensures
            errors_view(errors@) == md003_errors(
                views(params.lines@),
                params.tokens@,
                md003_style(*params),
            ),
    {
        let configured_style: Vec<char> = match params.config.get_str("style") {
            Some(s) => s,
            None => chars_of("consistent"),
        };
        let consistent = eq_str(&configured_style, "consistent");
        let lines = params.lines;
        let toks = params.tokens;
        let ghost ls = views(lines@);
        let ghost cs = md003_style(*params);
        let names = self.names();
        let mut errors: Vec<LintError> = Vec::new();
        let mut first_style: Option<HeadingStyle> = None;
        let n = toks.len();
        let mut k: usize = 0;
        while k < n
            invariant
                n == toks@.len(),
                k <= n,
                ls == views(lines@),
                lines_fit(lines@),
                cs == configured_style@,
                consistent == (cs == "consistent"@),
                names_view(names@) == md003_meta().names,
                (first_style, errors_view(errors@)) == md003_scan(ls, toks@, cs, k as int),
            decreases n - k,
        {
            let ghost prev = errors_view(errors@);
            let heading = &toks[k];
            if heading.is_type("heading") {
                let ghost r = md003_heading(ls, cs, heading.start_line, heading.end_line, first_style);
                let style = get_heading_style(lines, heading.start_line, heading.end_line);
                let level = get_heading_level(lines, heading.start_line, heading.end_line);
                let mut target: Option<&'static str> = None;
                if consistent {
                    match first_style {
                        Some(f) => {
                            if style != f {
                                target = Some(f.as_str());
                            }
                        },
                        None => {
                            first_style = Some(style);
                        },
                    }
                } else {
                    target = expected_style_of(&configured_style, style, level);
                }
                if let Some(expected) = target {
                    let fix_info = generate_heading_fix(
                        lines,
                        heading.start_line,
                        heading.end_line,
                        style,
                        expected,
                        level,
                    );
                    let mut e = LintError::new(heading.start_line, &names, self.description(), self.information());
                    let mut d = text("Expected: ");
                    push_str(&mut d, expected);
                    push_str(&mut d, "; Actual: ");
                    push_str(&mut d, style.as_str());
                    e.error_detail = Some(d);
                    e.fix_info = fix_info;
                    let mut sg = text("Convert heading to ");
                    push_str(&mut sg, expected);
                    if consistent {
                        push_str(&mut sg, " style to match the first heading");
                    } else {
                        push_str(&mut sg, " style");
                    }
                    e.suggestion = Some(sg);
                    errors.push(e);
                    if style == HeadingStyle::Setext && heading.end_line > heading.start_line {
                        let e2 = self.underline_error(&names, heading.end_line, !consistent);
                        errors.push(e2);
                    }
                }
                assert(errors_view(errors@) =~= prev + r.1);
            }
            k = k + 1;
        }
        errors
    }
}

} // verus!
