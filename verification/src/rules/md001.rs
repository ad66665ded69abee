//! MD001 - Heading levels should only increment by one level at a time.
//!
//! A heading more than one level deeper than the heading before it is
//! reported; a title in the front matter counts as a level-1 heading before
//! the first. The fix sets the heading to the expected level (setext
//! headings become ATX headings).

use vstd::prelude::*;
use crate::text::{
    chars_of, decimal, parse_usize, parse_usize_str, push_chars, push_decimal, push_repeat,
    push_str, repeat_char, string_of, text, trim_end, trim_end_vec, views,
};
use crate::types::{
    base_error, errors_view, fix_view, meta_lookup, names_view, opt_str, FixInfo, FixView,
    LintError, LintErrorView, ParserType, RuleMeta, RuleParams, Token,
};
use crate::config::{Config, ConfigValue};
use crate::pattern::{compile, is_match, regex_compiles, regex_is_match};

verus! {

pub struct MD001;

pub open spec fn md001_meta() -> RuleMeta {
    RuleMeta {
        names: seq!["MD001"@, "heading-increment"@],
        description: "Heading levels should only increment by one level at a time"@,
        information: Some("https://github.com/DavidAnson/markdownlint/blob/main/doc/md001.md"@),
    }
}

/// The default front matter title pattern.
pub open spec fn default_title_pattern() -> Seq<char> {
    "^\\s*\"?title\"?\\s*[:=]"@
}

/// The title pattern to use, `None` when front matter titles are ignored.
pub open spec fn title_pattern(c: Config) -> Option<Seq<char>> {
    match c.lookup("front_matter_title"@) {
        Some(ConfigValue::Str(s)) => if s@.len() > 0 {
            Some(s@)
        } else {
            Some(default_title_pattern())
        },
        Some(ConfigValue::Bool(b)) => if !b {
            None
        } else {
            Some(default_title_pattern())
        },
        _ => Some(default_title_pattern()),
    }
}

/// Some front matter line matches the title pattern (case-insensitively).
pub open spec fn has_title(fm: Seq<Seq<char>>, c: Config) -> bool {
    match title_pattern(c) {
        Some(p) => regex_compiles("(?i)"@ + p) && exists|i: int|
            0 <= i < fm.len() && regex_is_match("(?i)"@ + p, #[trigger] fm[i]),
        None => false,
    }
}

/// The level in a heading's metadata, 1 when absent or not a number.
pub open spec fn heading_level(t: Token) -> usize {
    match meta_lookup(t.metadata@, "level"@) {
        Some(s) => match parse_usize(s) {
            Some(n) => n,
            None => 1,
        },
        None => 1,
    }
}

/// The heading is marked setext in its metadata (`str::parse::<bool>`
/// accepts exactly `true` and `false`).
pub open spec fn heading_setext(t: Token) -> bool {
    meta_lookup(t.metadata@, "setext"@) == Some("true"@)
}

/// The length of the run of `#` and spaces that starts `s`, `None` when it
/// is all of `s`.
pub open spec fn prefix_end(s: Seq<char>, k: int) -> Option<int>
    decreases s.len() - k,
{
    if k < 0 || k >= s.len() {
        None
    } else if s[k] != '#' && s[k] != ' ' {
        Some(k)
    } else {
        prefix_end(s, k + 1)
    }
}

/// The line of a heading (empty when outside the document).
pub open spec fn heading_line(ls: Seq<Seq<char>>, t: Token) -> Seq<char> {
    if 1 <= t.start_line <= ls.len() {
        ls[t.start_line - 1]
    } else {
        seq![]
    }
}

pub open spec fn md001_fix(ls: Seq<Seq<char>>, t: Token, expected: usize) -> Option<FixView> {
    let line = heading_line(ls, t);
    if !heading_setext(t) {
        match prefix_end(line, 0) {
            Some(k) => Some(
                fix_view(Some(t.start_line), Some(1), Some(k as i32), Some(repeat_char('#', expected as nat) + " "@)),
            ),
            None => None,
        }
    } else {
        Some(
            fix_view(
                Some(t.start_line),
                Some(1),
                Some(i32::MAX),
                Some(repeat_char('#', expected as nat) + " "@ + trim_end(line)),
            ),
        )
    }
}

pub open spec fn md001_error(ls: Seq<Seq<char>>, t: Token, expected: usize, level: usize) -> LintErrorView {
    LintErrorView {
        detail: Some("Expected: h"@ + decimal(expected as nat) + "; Actual: h"@ + decimal(level as nat)),
        fix: md001_fix(ls, t, expected),
        suggestion: Some("Heading levels should increment by one level at a time"@),
        ..base_error(md001_meta(), t.start_line as int)
    }
}

/// The previous level, the findings, and whether every reported heading
/// lies on a line of the document, after the first `n` tokens.
pub open spec fn md001_scan(ls: Seq<Seq<char>>, toks: Seq<Token>, start: usize, n: int) -> (usize, Seq<LintErrorView>, bool)
    decreases n,
{
    if n <= 0 {
        (start, seq![], true)
    } else {
        let prev = md001_scan(ls, toks, start, n - 1);
        let t = toks[n - 1];
        if t.token_type@ == "heading"@ {
            let level = heading_level(t);
            let bump: int = if prev.0 == usize::MAX {
                usize::MAX as int
            } else {
                prev.0 + 1
            };
            if level > bump {
                let expected = (prev.0 + 1) as usize;
                (level, prev.1.push(md001_error(ls, t, expected, level)), prev.2 && t.start_line >= 1)
            } else {
                (level, prev.1, prev.2)
            }
        } else {
            prev
        }
    }
}

pub open spec fn md001_start(fm: Seq<Seq<char>>, c: Config) -> usize {
    if has_title(fm, c) {
        1
    } else {
        usize::MAX
    }
}

pub open spec fn md001_errors(ls: Seq<Seq<char>>, fm: Seq<Seq<char>>, toks: Seq<Token>, c: Config) -> Seq<LintErrorView> {
    md001_scan(ls, toks, md001_start(fm, c), toks.len() as int).1
}

/// Every reported heading has a line number of at least 1.
pub open spec fn md001_safe(ls: Seq<Seq<char>>, fm: Seq<Seq<char>>, toks: Seq<Token>, c: Config) -> bool {
    md001_scan(ls, toks, md001_start(fm, c), toks.len() as int).2
}

proof fn lemma_scan_safe_prefix(ls: Seq<Seq<char>>, toks: Seq<Token>, start: usize, k: int, m: int)
    requires
        0 <= k <= m,
        md001_scan(ls, toks, start, m).2,
    ensures
        md001_scan(ls, toks, start, k).2,
    decreases m - k,
{
    if k < m {
        lemma_scan_safe_prefix(ls, toks, start, k, m - 1);
    }
}

impl MD001 {
    pub fn names(&self) -> (r: Vec<&'static str>)
        ensures
            names_view(r@) == md001_meta().names,
    {
        let r = vec!["MD001", "heading-increment"];
        assert(names_view(r@) =~= md001_meta().names);
        r
    }

    pub fn description(&self) -> (r: &'static str)
        ensures
            r@ == md001_meta().description,
    {
        "Heading levels should only increment by one level at a time"
    }

    pub fn tags(&self) -> (r: Vec<&'static str>)
        ensures
            names_view(r@) == seq!["headings"@, "fixable"@],
    {
        let r = vec!["headings", "fixable"];
        assert(names_view(r@) =~= seq!["headings"@, "fixable"@]);
        r
    }

    pub fn parser_type(&self) -> (r: ParserType)
        ensures
            r == ParserType::Micromark,
    {
        ParserType::Micromark
    }

    pub fn information(&self) -> (r: Option<&'static str>)
        ensures
            opt_str(r) == md001_meta().information,
    {
        Some("https://github.com/DavidAnson/markdownlint/blob/main/doc/md001.md")
    }

    /// Get the heading level from a heading token's metadata.
    pub fn get_heading_level(heading: &Token) -> (r: usize)
        ensures
            r == heading_level(*heading),
    {
        match heading.meta("level") {
            Some(v) => {
                let s = string_of(&v);
                match parse_usize_str(s.as_str()) {
                    Some(n) => n,
                    None => 1,
                }
            },
            None => 1,
        }
    }

    /// Check if front matter has a title field.
    pub fn front_matter_has_title(front_matter_lines: &[&str], config: &Config) -> (r: bool)
        ensures
            r == has_title(views(front_matter_lines@), *config),
    {
        let ghost fm = views(front_matter_lines@);
        let pattern: String = match config.get("front_matter_title") {
            Some(ConfigValue::Str(s)) => {
                let sv = chars_of(s.as_str());
                if sv.len() > 0 {
                    string_of(&sv)
                } else {
                    text("^\\s*\"?title\"?\\s*[:=]")
                }
            },
            Some(ConfigValue::Bool(b)) => {
                if !*b {
                    return false;
                }
                text("^\\s*\"?title\"?\\s*[:=]")
            },
            _ => text("^\\s*\"?title\"?\\s*[:=]"),
        };
        let mut full = text("(?i)");
        push_str(&mut full, pattern.as_str());
        assert(full@ =~= "(?i)"@ + title_pattern(*config).unwrap());
        let re = match compile(full.as_str()) {
            Some(r) => r,
            None => {
                return false;
            },
        };
        let mut i: usize = 0;
        while i < front_matter_lines.len()
            invariant
                i <= front_matter_lines@.len(),
                fm == views(front_matter_lines@),
                re@ == full@,
                title_pattern(*config).is_some(),
                full@ == "(?i)"@ + title_pattern(*config).unwrap(),
                regex_compiles(full@),
                forall|j: int| 0 <= j < i ==> !regex_is_match(full@, #[trigger] fm[j]),
            decreases front_matter_lines@.len() - i,
        {
            if is_match(&re, front_matter_lines[i]) {
                assert(regex_is_match(full@, fm[i as int]));
                return true;
            }
            i = i + 1;
        }
        false
    }

    pub fn lint(&self, params: &RuleParams) -> (errors: Vec<LintError>)
        requires
            md001_safe(
                views(params.lines@),
                views(params.front_matter_lines@),
                params.tokens@,
                *params.config,
            ),
        ensures
            errors_view(errors@) == md001_errors(
                views(params.lines@),
                views(params.front_matter_lines@),
                params.tokens@,
                *params.config,
            ),
    {
        match self.lint_checked(params) {
            Some(errors) => errors,
            None => Vec::new(),
        }
    }

    /// The findings, or `None` where a reported heading has line number 0
    /// (its line cannot be looked up).
    pub fn lint_checked(&self, params: &RuleParams) -> (r: Option<Vec<LintError>>)
        ensures
            r is None <==> !md001_safe(
                views(params.lines@),
                views(params.front_matter_lines@),
                params.tokens@,
                *params.config,
            ),
            r matches Some(errors) ==> errors_view(errors@) == md001_errors(
                views(params.lines@),
                views(params.front_matter_lines@),
                params.tokens@,
                *params.config,
            ),
    {
        let ghost ls = views(params.lines@);
        let ghost fm = views(params.front_matter_lines@);
        let lines = params.lines;
        let tokens = params.tokens;
        let title = Self::front_matter_has_title(params.front_matter_lines, params.config);
        let start: usize = if title {
            1
        } else {
            usize::MAX
        };
        let names = self.names();
        let mut errors: Vec<LintError> = Vec::new();
        let mut prev_level = start;
        let n = tokens.len();
        let mut i: usize = 0;
        assert(errors_view(errors@) =~= seq![]);
        while i < n
            invariant
                n == tokens@.len(),
                i <= n,
                ls == views(lines@),
                start == md001_start(fm, *params.config),
                md001_scan(ls, tokens@, start, i as int).2,
                lines == params.lines,
                tokens == params.tokens,
                fm == views(params.front_matter_lines@),
                names_view(names@) == md001_meta().names,
                (prev_level, errors_view(errors@)) == ({
                    let s = md001_scan(ls, tokens@, start, i as int);
                    (s.0, s.1)
                }),
            decreases n - i,
        {
            let heading = &tokens[i];
            if heading.is_type("heading") {
                let level = Self::get_heading_level(heading);
                let bump = if prev_level == usize::MAX {
                    usize::MAX
                } else {
                    prev_level + 1
                };
                if level > bump {
                    if heading.start_line == 0 {
                        proof {
                            if md001_scan(ls, tokens@, start, n as int).2 {
                                lemma_scan_safe_prefix(ls, tokens@, start, i + 1, n as int);
                            }
                        }
                        return None;
                    }
                    let expected = prev_level + 1;
                    let setext = match heading.meta("setext") {
                        Some(v) => crate::text::eq_str(&v, "true"),
                        None => false,
                    };
                    let line: Vec<char> = if 1 <= heading.start_line && heading.start_line <= lines.len() {
                        chars_of(lines[heading.start_line - 1])
                    } else {
                        Vec::new()
                    };
                    assert(line@ == heading_line(ls, *heading));
                    let fix_info = if !setext {
                        let mut k: usize = 0;
                        while k < line.len() && (line[k] == '#' || line[k] == ' ')
                            invariant
                                k <= line@.len(),
                                prefix_end(line@, 0) == prefix_end(line@, k as int),
                            decreases line@.len() - k,
                        {
                            k = k + 1;
                        }
                        if k < line.len() {
                            let mut ins = String::new();
                            push_repeat(&mut ins, '#', expected);
                            push_str(&mut ins, " ");
                            Some(
                                FixInfo {
                                    line_number: Some(heading.start_line),
                                    edit_column: Some(1),
                                    delete_count: Some(k as i32),
                                    insert_text: Some(ins),
                                },
                            )
                        } else {
                            None
                        }
                    } else {
                        let mut ins = String::new();
                        push_repeat(&mut ins, '#', expected);
                        push_str(&mut ins, " ");
                        push_chars(&mut ins, &trim_end_vec(&line));
                        Some(
                            FixInfo {
                                line_number: Some(heading.start_line),
                                edit_column: Some(1),
                                delete_count: Some(i32::MAX),
                                insert_text: Some(ins),
                            },
                        )
                    };
                    let mut e = LintError::new(heading.start_line, &names, self.description(), self.information());
                    let mut d = text("Expected: h");
                    push_decimal(&mut d, expected);
                    push_str(&mut d, "; Actual: h");
                    push_decimal(&mut d, level);
                    e.error_detail = Some(d);
                    e.fix_info = fix_info;
                    e.suggestion = Some(text("Heading levels should increment by one level at a time"));
                    let ghost b = errors_view(errors@);
                    errors.push(e);
                    assert(errors_view(errors@) =~= b.push(md001_error(ls, *heading, expected, level)));
                }
                prev_level = level;
            }
            i = i + 1;
        }
        Some(errors)
    }
}

/// The level of the last heading among the first `n` tokens.
pub open spec fn last_heading_level(toks: Seq<Token>, n: int) -> Option<usize>
    decreases n,
{
    if n <= 0 {
        None
    } else if toks[n - 1].token_type@ == "heading"@ {
        Some(heading_level(toks[n - 1]))
    } else {
        last_heading_level(toks, n - 1)
    }
}

/// The findings for the headings among the first `n` tokens that rise more
/// than one level above the heading before them.
pub open spec fn level_jumps(ls: Seq<Seq<char>>, toks: Seq<Token>, n: int) -> Seq<LintErrorView>
    decreases n,
{
    if n <= 0 {
        seq![]
    } else {
        let t = toks[n - 1];
        level_jumps(ls, toks, n - 1) + match last_heading_level(toks, n - 1) {
            Some(l) => if t.token_type@ == "heading"@ && heading_level(t) > l + 1 {
                seq![md001_error(ls, t, (l + 1) as usize, heading_level(t))]
            } else {
                seq![]
            },
            None => seq![],
        }
    }
}

proof fn lemma_md001_scan_jumps(ls: Seq<Seq<char>>, toks: Seq<Token>, n: int)
    requires
        0 <= n <= toks.len(),
    ensures
        md001_scan(ls, toks, usize::MAX, n).0 == match last_heading_level(toks, n) {
            Some(l) => l,
            None => usize::MAX,
        },
        md001_scan(ls, toks, usize::MAX, n).1 == level_jumps(ls, toks, n),
    decreases n,
{
    if n > 0 {
        lemma_md001_scan_jumps(ls, toks, n - 1);
        let e: Seq<LintErrorView> = seq![];
        assert(level_jumps(ls, toks, n - 1) + e =~= level_jumps(ls, toks, n - 1));
        let t = toks[n - 1];
        if t.token_type@ == "heading"@ {
            match last_heading_level(toks, n - 1) {
                Some(l) => {
                    if heading_level(t) > l + 1 {
                        assert(level_jumps(ls, toks, n - 1).push(
                            md001_error(ls, t, (l + 1) as usize, heading_level(t)),
                        ) =~= level_jumps(ls, toks, n));
                    }
                },
                None => {},
            }
        }
    }
}

/// Without a title in the front matter, MD001 reports exactly the headings
/// that rise more than one level above the heading before them; the first
/// heading and any fall are never reported.
pub proof fn lemma_md001_reports_jumps(ls: Seq<Seq<char>>, fm: Seq<Seq<char>>, toks: Seq<Token>, c: Config)
    requires
        !has_title(fm, c),
    ensures
        md001_errors(ls, fm, toks, c) == level_jumps(ls, toks, toks.len() as int),
{
    lemma_md001_scan_jumps(ls, toks, toks.len() as int);
}

} // verus!
