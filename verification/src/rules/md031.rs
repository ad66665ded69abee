//! MD031 - Fenced code blocks should be surrounded by blank lines.
//!
//! Reports an opening fence whose previous line is not blank and a closing
//! fence whose next line is not blank. With `list_items` set to false, fences
//! inside list items are not checked.

use vstd::prelude::*;
use crate::text::{
    byte_len, chars_of, push_str, slice_chars, starts_with, starts_with_str, string_of, text, trim,
    trim_start, trim_start_vec, trim_vec, utf8_byte_len, views,
};
use crate::types::{
    base_error, errors_view, fix_view, lines_fit, names_view, opt_str, FixInfo, LintError,
    LintErrorView, ParserType, RuleMeta, RuleParams,
};

use crate::config::value_as_bool;
use crate::pattern::{captures, compile, regex_captures, regex_compiles};
use crate::text::{
    byte_slice, byte_slice_chars, contains_seq, contains_str, lemma_byte_len_trims, leading_count,
    leading_len,
};

verus! {

pub struct MD031;

pub open spec fn md031_meta() -> RuleMeta {
    RuleMeta {
        names: seq!["MD031"@, "blanks-around-fences"@],
        description: "Fenced code blocks should be surrounded by blank lines"@,
        information: Some("https://github.com/DavidAnson/markdownlint/blob/main/doc/md031.md"@),
    }
}

/// The pattern of a fence line's prefix: what comes before the first
/// backtick or tilde.
pub open spec fn prefix_pattern() -> Seq<char> {
    "^(.*?)[`~]"@
}

/// A line that is empty or whitespace only.
pub open spec fn blank(line: Seq<char>) -> bool {
    trim(line).len() == 0
}

/// Check if a line is blank (empty or whitespace only).
pub fn is_blank_line(line: &str) -> (r: bool)
    ensures
        r == blank(line@),
{
    let v = chars_of(line);
    trim_vec(&v).len() == 0
}

/// The text of group 1 of a match, empty when the group took no part.
pub open spec fn group_text(text: Seq<char>, g: Seq<Option<(usize, usize)>>) -> Seq<char> {
    if g.len() > 1 {
        match g[1] {
            Some(sp) => byte_slice(text, sp.0 as int, sp.1 as int),
            None => seq![],
        }
    } else {
        seq![]
    }
}

/// The indentation and blockquote markers before the fence characters.
pub open spec fn fence_prefix(line: Seq<char>) -> Option<Seq<char>> {
    if !regex_compiles(prefix_pattern()) {
        None
    } else {
        match regex_captures(prefix_pattern(), line) {
            Some(g) => Some(group_text(line, g)),
            None => None,
        }
    }
}

/// Extract the prefix (indentation and blockquote markers) from a code fence
/// line.
pub fn get_code_fence_prefix(line: &str) -> (r: Option<String>)
    requires
        byte_len(line@) <= isize::MAX,
    ensures
        match r {
            Some(s) => fence_prefix(line@) == Some(s@),
            None => fence_prefix(line@).is_none(),
        },
{
    let p = match compile("^(.*?)[`~]") {
        Some(p) => p,
        None => {
            return None;
        },
    };
    match captures(&p, line) {
        Some(g) => {
            let v = chars_of(line);
            if g.len() > 1 {
                match g[1] {
                    Some(sp) => Some(string_of(&byte_slice_chars(&v, sp.0, sp.1))),
                    None => Some(String::new()),
                }
            } else {
                Some(String::new())
            }
        },
        None => None,
    }
}

/// The prefix with every character but `>` turned into a space.
pub open spec fn quote_only(p: Seq<char>) -> Seq<char> {
    p.map_values(|c: char| if c == '>' { '>' } else { ' ' })
}

/// The text inserted to add a blank line next to a fence with this prefix.
pub open spec fn blank_insert(prefix: Option<Seq<char>>) -> Seq<char> {
    match prefix {
        Some(p) => if p.len() == 0 {
            "\n"@
        } else {
            trim(quote_only(p)) + "\n"@
        },
        None => "\n"@,
    }
}

/// The insert text for a fence with this prefix.
pub fn blank_insert_text(prefix: Option<String>) -> (r: String)
    ensures
        r@ == blank_insert(opt_text_view(prefix)),
{
    match prefix {
        None => text("\n"),
        Some(p) => {
            let v = chars_of(p.as_str());
            if v.len() == 0 {
                return text("\n");
            }
            let mut q: Vec<char> = Vec::new();
            let mut i: usize = 0;
            while i < v.len()
                invariant
                    i <= v@.len(),
                    q@ == quote_only(v@.take(i as int)),
                decreases v@.len() - i,
            {
                if v[i] == '>' {
                    q.push('>');
                } else {
                    q.push(' ');
                }
                i = i + 1;
                assert(q@ =~= quote_only(v@.take(i as int)));
            }
            assert(v@.take(v@.len() as int) =~= v@);
            let t = trim_vec(&q);
            let mut s = string_of(&t);
            push_str(&mut s, "\n");
            s
        },
    }
}

pub open spec fn opt_text_view(o: Option<String>) -> Option<Seq<char>> {
    match o {
        Some(s) => Some(s@),
        None => None,
    }
}

/// A line that starts a list item, after its indentation.
pub open spec fn list_start_line(t: Seq<char>) -> bool {
    starts_with(t, "- "@) || starts_with(t, "* "@) || starts_with(t, "+ "@) || (t.len() > 0
        && '0' <= t[0] <= '9' && contains_seq(t, ". "@))
}

/// Bytes of indentation of a line.
pub open spec fn indent_bytes(line: Seq<char>) -> int {
    byte_len(line) - byte_len(trim_start(line))
}

/// Looking back from line `i` down to line `start - 10`, a list item with no
/// more indentation than `fi` comes before any blank line that is not right
/// above line `start`.
pub open spec fn list_ctx(ls: Seq<Seq<char>>, start: int, fi: int, i: int) -> bool
    decreases i + 1,
{
    let lower = if start >= 10 {
        start - 10
    } else {
        0
    };
    if i < lower || i < 0 || i >= ls.len() {
        false
    } else {
        let t = trim_start(ls[i]);
        if list_start_line(t) && indent_bytes(ls[i]) <= fi {
            true
        } else if blank(ls[i]) && i < start - 1 {
            false
        } else {
            list_ctx(ls, start, fi, i - 1)
        }
    }
}

/// The fence on line `start` (0-based) is inside a list item.
pub open spec fn in_list(ls: Seq<Seq<char>>, start: int) -> bool {
    if start == 0 {
        false
    } else {
        list_ctx(ls, start, indent_bytes(ls[start]), start - 1)
    }
}

fn indent_of(line: &str) -> (r: usize)
    requires
        byte_len(line@) <= isize::MAX,
    ensures
        r == indent_bytes(line@),
{
    let v = chars_of(line);
    let t = trim_start_vec(&v);
    proof {
        lemma_byte_len_trims(v@, ' ');
    }
    let a = utf8_byte_len(&v);
    let b = utf8_byte_len(&t);
    a - b
}

/// Check if a line is inside a list item based on indentation.
pub fn is_in_list_context(lines: &[&str], start_idx: usize) -> (r: bool)
    requires
        lines_fit(lines@),
        start_idx < lines@.len(),
    ensures
        r == in_list(views(lines@), start_idx as int),
{
    let ghost ls = views(lines@);
    if start_idx == 0 {
        return false;
    }
    let fence_indent = indent_of(lines[start_idx]);
    let start_search: usize = if start_idx >= 10 {
        start_idx - 10
    } else {
        0
    };
    let mut i: usize = start_idx;
    while i > start_search
        invariant
            start_search <= i <= start_idx < lines@.len(),
            start_search == (if start_idx >= 10 { start_idx - 10 } else { 0 }),
            ls == views(lines@),
            lines_fit(lines@),
            fence_indent == indent_bytes(ls[start_idx as int]),
            in_list(ls, start_idx as int) == list_ctx(ls, start_idx as int, fence_indent as int, i - 1),
        decreases i,
    {
        let j = i - 1;
        let v = chars_of(lines[j]);
        let t = trim_start_vec(&v);
        let is_item = starts_with_str(&t, "- ") || starts_with_str(&t, "* ") || starts_with_str(&t, "+ ") || (t.len() > 0 && '0' <= t[0] && t[0] <= '9' && contains_str(&t, ". "));
        if is_item {
            let line_indent = indent_of(lines[j]);
            if line_indent <= fence_indent {
                return true;
            }
        }
        if is_blank_line(lines[j]) && j < start_idx - 1 {
            return false;
        }
        i = j;
    }
    false
}

pub struct Md031State {
    pub in_fence: bool,
    pub start: int,
    pub fence_char: char,
    pub errors: Seq<LintErrorView>,
}

pub open spec fn md031_error(line: Seq<char>, line_number: int, fix_line: int) -> LintErrorView {
    LintErrorView {
        context: Some(trim(line)),
        fix: Some(fix_view(Some(fix_line as usize), Some(1usize), None, Some(blank_insert(fence_prefix(line))))),
        suggestion: Some("Fenced code blocks should be surrounded by blank lines"@),
        ..base_error(md031_meta(), line_number)
    }
}

pub open spec fn md031_step(ls: Seq<Seq<char>>, list_items: bool, idx: int, st: Md031State) -> Md031State {
    let line = ls[idx];
    let t = trim_start(line);
    if starts_with(t, "```"@) || starts_with(t, "~~~"@) {
        let c = t[0];
        if !st.in_fence {
            let errs = if !list_items && in_list(ls, idx) {
                st.errors
            } else if idx > 0 && !blank(ls[idx - 1]) {
                st.errors.push(md031_error(line, idx + 1, idx + 1))
            } else {
                st.errors
            };
            Md031State { in_fence: true, start: idx + 1, fence_char: c, errors: errs }
        } else if c == st.fence_char {
            let fc = leading_count(t, st.fence_char);
            if fc >= 3 && trim(t.skip(fc as int)).len() == 0 {
                let errs = if !list_items && in_list(ls, st.start - 1) {
                    st.errors
                } else if idx + 1 < ls.len() && !blank(ls[idx + 1]) {
                    st.errors.push(md031_error(line, idx + 1, idx + 2))
                } else {
                    st.errors
                };
                Md031State { in_fence: false, errors: errs, ..st }
            } else {
                st
            }
        } else {
            st
        }
    } else {
        st
    }
}

pub open spec fn md031_scan(ls: Seq<Seq<char>>, list_items: bool, n: int) -> Md031State
    decreases n,
{
    if n <= 0 {
        Md031State { in_fence: false, start: 0, fence_char: '\0', errors: seq![] }
    } else {
        md031_step(ls, list_items, n - 1, md031_scan(ls, list_items, n - 1))
    }
}

/// The `list_items` option; true when absent.
pub open spec fn md031_list_items(params: RuleParams) -> bool {
    match value_as_bool(params.config.lookup("list_items"@)) {
        Some(b) => b,
        None => true,
    }
}

/// The findings of MD031.
pub open spec fn md031_errors(ls: Seq<Seq<char>>, list_items: bool) -> Seq<LintErrorView> {
    md031_scan(ls, list_items, ls.len() as int).errors
}

impl MD031 {
    pub fn names(&self) -> (r: Vec<&'static str>)
        ensures
            names_view(r@) == md031_meta().names,
    {
        let r = vec!["MD031", "blanks-around-fences"];
        assert(names_view(r@) =~= md031_meta().names);
        r
    }

    pub fn description(&self) -> (r: &'static str)
        ensures
            r@ == md031_meta().description,
    {
        "Fenced code blocks should be surrounded by blank lines"
    }

    pub fn tags(&self) -> (r: Vec<&'static str>)
        ensures
            names_view(r@) == seq!["code"@, "blank_lines"@, "fixable"@],
    {
        let r = vec!["code", "blank_lines", "fixable"];
        assert(names_view(r@) =~= seq!["code"@, "blank_lines"@, "fixable"@]);
        r
    }

    pub fn parser_type(&self) -> (r: ParserType)
        ensures
            r == ParserType::Plain,
    {
        ParserType::Plain
    }

    pub fn information(&self) -> (r: Option<&'static str>)
        ensures
            opt_str(r) == md031_meta().information,
    {
        Some("https://github.com/DavidAnson/markdownlint/blob/main/doc/md031.md")
    }

    fn report(&self, names: &Vec<&'static str>, line: &str, line_number: usize, fix_line: usize) -> (e: LintError)
        requires
            names_view(names@) == md031_meta().names,
            byte_len(line@) <= isize::MAX,
        ensures
            e@ == md031_error(line@, line_number as int, fix_line as int),
    {
        let prefix = get_code_fence_prefix(line);
        let insert_text = blank_insert_text(prefix);
        let v = chars_of(line);
        let mut e = LintError::new(line_number, names, self.description(), self.information());
        e.error_context = Some(string_of(&trim_vec(&v)));
        e.fix_info = Some(
            FixInfo {
                line_number: Some(fix_line),
                edit_column: Some(1),
                delete_count: None,
                insert_text: Some(insert_text),
            },
        );
        e.suggestion = Some(text("Fenced code blocks should be surrounded by blank lines"));
        e
    }

    pub fn lint(&self, params: &RuleParams) -> (errors: Vec<LintError>)
        requires
            lines_fit(params.lines@),
        ensures
            errors_view(errors@) == md031_errors(views(params.lines@), md031_list_items(*params)),
    {
        let list_items = match params.config.get_bool("list_items") {
            Some(b) => b,
            None => true,
        };
        let lines = params.lines;
        let ghost ls = views(lines@);
        let names = self.names();
        let mut errors: Vec<LintError> = Vec::new();
        let mut in_code_fence = false;
        let mut fence_start_line: usize = 0;
        let mut fence_char = '\0';
        let n = lines.len();
        let mut idx: usize = 0;
        assert(errors_view(errors@) =~= seq![]);
        while idx < n
            invariant
                n == lines@.len(),
                idx <= n,
                ls == views(lines@),
                lines_fit(lines@),
                list_items == md031_list_items(*params),
                names_view(names@) == md031_meta().names,
                in_code_fence ==> 1 <= fence_start_line <= idx,
                md031_scan(ls, list_items, idx as int) == (Md031State {
                    in_fence: in_code_fence,
                    start: fence_start_line as int,
                    fence_char,
                    errors: errors_view(errors@),
                }),
            decreases n - idx,
        {
            let ghost before = errors@;
            let line = lines[idx];
            assert(byte_len(lines@[idx as int]@) <= isize::MAX);
            let v = chars_of(line);
            let t = trim_start_vec(&v);
            if starts_with_str(&t, "```") || starts_with_str(&t, "~~~") {
                proof {
                    reveal_strlit("```");
                    reveal_strlit("~~~");
                }
                let current_fence_char = t[0];
                if !in_code_fence {
                    in_code_fence = true;
                    fence_start_line = idx + 1;
                    fence_char = current_fence_char;
                    if !list_items && is_in_list_context(lines, idx) {
                    } else if idx > 0 && !is_blank_line(lines[idx - 1]) {
                        let e = self.report(&names, line, idx + 1, idx + 1);
                        errors.push(e);
                        assert(errors_view(errors@) =~= errors_view(before).push(md031_error(ls[idx as int], idx + 1, idx + 1)));
                    }
                } else if current_fence_char == fence_char {
                    let fence_count = leading_len(&t, fence_char);
                    let rest = slice_chars(&t, fence_count, t.len());
                    assert(rest@ =~= t@.skip(fence_count as int));
                    let rt = trim_vec(&rest);
                    if fence_count >= 3 && rt.len() == 0 {
                        in_code_fence = false;
                        if !list_items && is_in_list_context(lines, fence_start_line - 1) {
                        } else if idx + 1 < n && !is_blank_line(lines[idx + 1]) {
                            let e = self.report(&names, line, idx + 1, idx + 2);
                            errors.push(e);
                            assert(errors_view(errors@) =~= errors_view(before).push(md031_error(ls[idx as int], idx + 1, idx + 2)));
                        }
                    }
                }
            }
            idx = idx + 1;
        }
        errors
    }
}

} // verus!
