//! MD029 - Ordered list item prefix.
//!
//! Checks the numbers of ordered list items. Styles (option `style`): `one`
//! (1/1/1), `ordered` (1/2/3), `zero` (0/0/0) and `consistent` (the default:
//! a list counts up when its second item is not numbered 1 or its first is
//! 0; otherwise every item should be numbered 1).

use vstd::prelude::*;
use crate::text::{
    byte_len, chars_of, decimal, eq_str, push_decimal, push_str, string_of, text, trim_start,
    trim_start_vec, utf8_byte_len, views,
};
use crate::types::{
    base_error, errors_view, fix_view, lines_fit, names_view, opt_str, FixInfo, LintError,
    LintErrorView, ParserType, RuleMeta, RuleParams,
};

use crate::config::value_as_str;
use crate::text::{is_whitespace, is_ws, lemma_byte_len_trims};
use crate::types::Token;

verus! {

pub struct MD029;

pub open spec fn md029_meta() -> RuleMeta {
    RuleMeta {
        names: seq!["MD029"@, "ol-prefix"@],
        description: "Ordered list item prefix"@,
        information: Some("https://github.com/DavidAnson/markdownlint/blob/main/doc/md029.md"@),
    }
}

#[derive(Debug, Clone, Copy, PartialEq, Eq, Structural)]
pub enum ListStyle {
    One,
    Ordered,
    Zero,
    Consistent,
}

pub open spec fn style_of_name(s: Seq<char>) -> ListStyle {
    if s == "one"@ {
        ListStyle::One
    } else if s == "ordered"@ {
        ListStyle::Ordered
    } else if s == "zero"@ {
        ListStyle::Zero
    } else {
        ListStyle::Consistent
    }
}

pub open spec fn name_of(s: ListStyle) -> Seq<char> {
    match s {
        ListStyle::One => "1/1/1"@,
        ListStyle::Ordered => "1/2/3"@,
        ListStyle::Zero => "0/0/0"@,
        ListStyle::Consistent => "consistent"@,
    }
}

impl ListStyle {
    pub fn from_str(s: &str) -> (r: ListStyle)
        ensures
            r == style_of_name(s@),
    {
        let v = chars_of(s);
        if eq_str(&v, "one") {
            ListStyle::One
        } else if eq_str(&v, "ordered") {
            ListStyle::Ordered
        } else if eq_str(&v, "zero") {
            ListStyle::Zero
        } else {
            ListStyle::Consistent
        }
    }

    pub fn to_str(self) -> (r: &'static str)
        ensures
            r@ == name_of(self),
    {
        match self {
            ListStyle::One => "1/1/1",
            ListStyle::Ordered => "1/2/3",
            ListStyle::Zero => "0/0/0",
            ListStyle::Consistent => "consistent",
        }
    }
}

pub open spec fn is_digit(c: char) -> bool {
    '0' <= c <= '9'
}

/// Length of the run of ASCII digits at the start of `s`.
pub open spec fn digit_run(s: Seq<char>) -> nat
    decreases s.len(),
{
    if s.len() > 0 && is_digit(s[0]) {
        digit_run(s.drop_first()) + 1
    } else {
        0
    }
}

/// The number written by the digits `s`.
pub open spec fn digits_value(s: Seq<char>) -> nat
    decreases s.len(),
{
    if s.len() == 0 {
        0
    } else {
        digits_value(s.drop_last()) * 10 + ((s.last() as u32) - ('0' as u32)) as nat
    }
}

/// `(value, column, digits)` of an ordered list item line: after the
/// indentation, digits followed by `.` and then whitespace or the end of
/// the line, their value fitting in `usize`. The column counts bytes from 1.
pub open spec fn ordered_value(line: Seq<char>) -> Option<(usize, usize, usize)> {
    let t = trim_start(line);
    let d = digit_run(t);
    if d > 0 && d < t.len() && t[d as int] == '.' && (d + 1 == t.len() || is_ws(t[d + 1int]))
        && digits_value(t.take(d as int)) <= usize::MAX {
        Some(
            (
                digits_value(t.take(d as int)) as usize,
                (byte_len(line) - byte_len(t) + 1) as usize,
                d as usize,
            ),
        )
    } else {
        None
    }
}

proof fn lemma_digit_run_step(s: Seq<char>, j: int)
    requires
        0 <= j < s.len(),
        is_digit(s[j]),
        digit_run(s) == j + digit_run(s.skip(j)),
    ensures
        digit_run(s) == j + 1 + digit_run(s.skip(j + 1)),
{
    assert(s.skip(j).drop_first() =~= s.skip(j + 1));
}

pub fn get_ordered_list_value(line: &str) -> (r: Option<(usize, usize, usize)>)
    requires
        byte_len(line@) <= isize::MAX,
    ensures
        r == ordered_value(line@),
{
    let v = chars_of(line);
    let t = trim_start_vec(&v);
    let mut value: usize = 0;
    let mut fits = true;
    let mut j: usize = 0;
    assert(t@.skip(0) =~= t@);
    while j < t.len() && '0' <= t[j] && t[j] <= '9'
        invariant
            j <= t@.len(),
            digit_run(t@) == j + digit_run(t@.skip(j as int)),
            fits ==> value == digits_value(t@.take(j as int)),
            !fits ==> digits_value(t@.take(j as int)) > usize::MAX,
        decreases t@.len() - j,
    {
        proof {
            lemma_digit_run_step(t@, j as int);
            assert(t@.take(j + 1).drop_last() =~= t@.take(j as int));
        }
        let d = (t[j] as u32 - '0' as u32) as usize;
        if fits {
            match value.checked_mul(10) {
                Some(m) => match m.checked_add(d) {
                    Some(w) => {
                        value = w;
                    },
                    None => {
                        fits = false;
                    },
                },
                None => {
                    fits = false;
                },
            }
        }
        j = j + 1;
    }
    assert(digit_run(t@) == j) by {
        if j < t@.len() {
            assert(t@.skip(j as int)[0] == t@[j as int]);
        }
    }
    if j > 0 && j < t.len() && t[j] == '.' && (j + 1 == t.len() || is_whitespace(t[j + 1])) && fits {
        proof {
            lemma_byte_len_trims(v@, ' ');
        }
        let total = utf8_byte_len(&v);
        let rest = utf8_byte_len(&t);
        Some((value, total - rest + 1, j))
    } else {
        None
    }
}

/// The `listItem` children of a list, by index, in order.
pub open spec fn item_indices(toks: Seq<Token>, ch: Seq<usize>) -> Seq<usize>
    decreases ch.len(),
{
    if ch.len() == 0 {
        seq![]
    } else {
        let rest = item_indices(toks, ch.drop_last());
        let c = ch.last();
        if c < toks.len() && toks[c as int].token_type@ == "listItem"@ {
            rest.push(c)
        } else {
            rest
        }
    }
}

/// A list is ordered when its first `listItem` child inside the document
/// is on an ordered-item line; children before it that are no items, or lie
/// outside the document, are passed over.
pub open spec fn ordered_from(ls: Seq<Seq<char>>, toks: Seq<Token>, ch: Seq<usize>, j: int) -> bool
    decreases ch.len() - j,
{
    if j < 0 || j >= ch.len() {
        false
    } else {
        let c = ch[j];
        if c < toks.len() && toks[c as int].token_type@ == "listItem"@ && toks[c as int].start_line
            > 0 && toks[c as int].start_line <= ls.len() {
            ordered_value(ls[toks[c as int].start_line - 1]).is_some()
        } else {
            ordered_from(ls, toks, ch, j + 1)
        }
    }
}

pub fn is_ordered_list(tokens: &[Token], lines: &[&str], list_token: &Token) -> (r: bool)
    requires
        lines_fit(lines@),
    ensures
        r == ordered_from(views(lines@), tokens@, list_token.children@, 0),
{
    let ch = &list_token.children;
    let mut j: usize = 0;
    while j < ch.len()
        invariant
            j <= ch@.len(),
            ch@ == list_token.children@,
            lines_fit(lines@),
            ordered_from(views(lines@), tokens@, ch@, 0) == ordered_from(
                views(lines@),
                tokens@,
                ch@,
                j as int,
            ),
        decreases ch@.len() - j,
    {
        let c = ch[j];
        if c < tokens.len() {
            let child = &tokens[c];
            if child.is_type("listItem") && child.start_line > 0 && child.start_line
                <= lines.len() {
                assert(byte_len(lines@[child.start_line - 1]@) <= isize::MAX);
                assert(views(lines@)[child.start_line - 1] == lines@[child.start_line - 1]@);
                return get_ordered_list_value(lines[child.start_line - 1]).is_some();
            }
        }
        j = j + 1;
    }
    false
}

/// The value of the ordered item on the line of token `t`, if any.
pub open spec fn item_value(ls: Seq<Seq<char>>, t: Token) -> Option<(usize, usize, usize)> {
    if t.start_line > 0 && t.start_line <= ls.len() {
        ordered_value(ls[t.start_line - 1])
    } else {
        None
    }
}

/// Whether the list counts up, and the number its first item should have,
/// judged from its first two items.
pub open spec fn list_start(ls: Seq<Seq<char>>, toks: Seq<Token>, items: Seq<usize>) -> (bool, nat) {
    if items.len() >= 2 {
        match (item_value(ls, toks[items[0] as int]), item_value(ls, toks[items[1] as int])) {
            (Some(a), Some(b)) => if b.0 != 1 || a.0 == 0 {
                (true, if a.0 == 0 {
                    0
                } else {
                    1
                })
            } else {
                (false, 1)
            },
            _ => (false, 1),
        }
    } else {
        (false, 1)
    }
}

pub open spec fn list_style_for(style: ListStyle, incrementing: bool) -> ListStyle {
    match style {
        ListStyle::Consistent => if incrementing {
            ListStyle::Ordered
        } else {
            ListStyle::One
        },
        _ => style,
    }
}

pub open spec fn md029_error(line_number: usize, expected: nat, v: (usize, usize, usize), ls_: ListStyle) -> LintErrorView {
    LintErrorView {
        detail: Some("Expected: "@ + decimal(expected) + "; Actual: "@ + decimal(v.0 as nat)),
        context: Some("Style: "@ + name_of(ls_)),
        range: Some((v.1, v.2)),
        fix: Some(fix_view(None, Some(v.1), Some(v.2 as i32), Some(decimal(expected)))),
        suggestion: Some("Use consistent list numbering style"@),
        ..base_error(md029_meta(), line_number as int)
    }
}

/// The expected number and findings after the first `n` items of a list.
pub open spec fn md029_items(
    ls: Seq<Seq<char>>,
    toks: Seq<Token>,
    items: Seq<usize>,
    list_style: ListStyle,
    first: nat,
    n: int,
) -> (nat, Seq<LintErrorView>)
    decreases n,
{
    if n <= 0 {
        (first, seq![])
    } else {
        let st = md029_items(ls, toks, items, list_style, first, n - 1);
        let t = toks[items[n - 1] as int];
        match item_value(ls, t) {
            None => st,
            Some(v) => {
                let errs = if v.0 != st.0 {
                    st.1.push(md029_error(t.start_line, st.0, v, list_style))
                } else {
                    st.1
                };
                (if list_style == ListStyle::Ordered {
                    st.0 + 1
                } else {
                    st.0
                }, errs)
            },
        }
    }
}

/// The findings for one `list` token.
pub open spec fn md029_list(ls: Seq<Seq<char>>, toks: Seq<Token>, list: Token, style: ListStyle) -> Seq<LintErrorView> {
    let items = item_indices(toks, list.children@);
    if !ordered_from(ls, toks, list.children@, 0) || items.len() == 0 {
        seq![]
    } else {
        let (inc, start) = list_start(ls, toks, items);
        let lst = list_style_for(style, inc);
        let first = if lst == ListStyle::Zero {
            0
        } else if lst == ListStyle::One {
            1
        } else {
            start
        };
        md029_items(ls, toks, items, lst, first, items.len() as int).1
    }
}

pub open spec fn md029_scan(ls: Seq<Seq<char>>, toks: Seq<Token>, style: ListStyle, n: int) -> Seq<LintErrorView>
    decreases n,
{
    if n <= 0 {
        seq![]
    } else {
        let prev = md029_scan(ls, toks, style, n - 1);
        if toks[n - 1].token_type@ == "list"@ {
            prev + md029_list(ls, toks, toks[n - 1], style)
        } else {
            prev
        }
    }
}

/// The configured style; `consistent` when absent.
pub open spec fn md029_style(params: RuleParams) -> ListStyle {
    match value_as_str(params.config.lookup("style"@)) {
        Some(s) => style_of_name(s),
        None => ListStyle::Consistent,
    }
}

/// The findings of MD029, lists taken in token order.
pub open spec fn md029_errors(ls: Seq<Seq<char>>, toks: Seq<Token>, style: ListStyle) -> Seq<LintErrorView> {
    md029_scan(ls, toks, style, toks.len() as int)
}

/// No token has `usize::MAX` children, as no `Vec<usize>` can.
pub open spec fn children_fit(toks: Seq<Token>) -> bool {
    forall|i: int| 0 <= i < toks.len() ==> #[trigger] toks[i].children@.len() < usize::MAX
}

fn collect_items(tokens: &[Token], list: &Token) -> (r: Vec<usize>)
    ensures
        r@ == item_indices(tokens@, list.children@),
        r@.len() <= list.children@.len(),
        forall|j: int| 0 <= j < r@.len() ==> r@[j] < tokens@.len(),
{
    let ch = &list.children;
    let mut r: Vec<usize> = Vec::new();
    let mut j: usize = 0;
    while j < ch.len()
        invariant
            j <= ch@.len(),
            r@ == item_indices(tokens@, ch@.take(j as int)),
            r@.len() <= j,
            forall|q: int| 0 <= q < r@.len() ==> r@[q] < tokens@.len(),
        decreases ch@.len() - j,
    {
        assert(ch@.take(j + 1).drop_last() =~= ch@.take(j as int));
        let c = ch[j];
        if c < tokens.len() && tokens[c].is_type("listItem") {
            r.push(c);
        }
        j = j + 1;
    }
    assert(ch@.take(ch@.len() as int) =~= ch@);
    r
}

fn value_of_item(lines: &[&str], t: &Token) -> (r: Option<(usize, usize, usize)>)
    requires
        lines_fit(lines@),
    ensures
        r == item_value(views(lines@), *t),
{
    if t.start_line > 0 && t.start_line <= lines.len() {
        assert(byte_len(lines@[t.start_line - 1]@) <= isize::MAX);
        get_ordered_list_value(lines[t.start_line - 1])
    } else {
        None
    }
}

impl MD029 {
    pub fn names(&self) -> (r: Vec<&'static str>)
        ensures
            names_view(r@) == md029_meta().names,
    {
        let r = vec!["MD029", "ol-prefix"];
        assert(names_view(r@) =~= md029_meta().names);
        r
    }

    pub fn description(&self) -> (r: &'static str)
        ensures
            r@ == md029_meta().description,
    {
        "Ordered list item prefix"
    }

    pub fn tags(&self) -> (r: Vec<&'static str>)
        ensures
            names_view(r@) == seq!["ol"@, "fixable"@],
    {
        let r = vec!["ol", "fixable"];
        assert(names_view(r@) =~= seq!["ol"@, "fixable"@]);
        r
    }

    pub fn parser_type(&self) -> (r: ParserType)
        ensures
            r == ParserType::Micromark,
    {
        ParserType::Micromark
    }

    pub fn information(&self) -> (r: Option<&'static str>)
        ensures
            opt_str(r) == md029_meta().information,
    {
        Some("https://github.com/DavidAnson/markdownlint/blob/main/doc/md029.md")
    }

    fn check_list(&self, params: &RuleParams, names: &Vec<&'static str>, list: &Token, style: ListStyle, errors: &mut Vec<LintError>)
        requires
            lines_fit(params.lines@),
            names_view(names@) == md029_meta().names,
            list.children@.len() < usize::MAX,
        ensures
            errors_view(final(errors)@) == errors_view(old(errors)@) + md029_list(
                views(params.lines@),
                params.tokens@,
                *list,
                style,
            ),
    {
        let lines = params.lines;
        let toks = params.tokens;
        let ghost ls = views(lines@);
        let ghost prev = errors_view(errors@);
        if !is_ordered_list(toks, lines, list) {
            assert(errors_view(errors@) =~= prev + md029_list(ls, toks@, *list, style));
            return;
        }
        let items = collect_items(toks, list);
        if items.len() == 0 {
            assert(errors_view(errors@) =~= prev + md029_list(ls, toks@, *list, style));
            return;
        }
        let mut expected: usize = 1;
        let mut incrementing = false;
        if items.len() >= 2 {
            let a = value_of_item(lines, &toks[items[0]]);
            let b = value_of_item(lines, &toks[items[1]]);
            match (a, b) {
                (Some(av), Some(bv)) => {
                    if bv.0 != 1 || av.0 == 0 {
                        incrementing = true;
                        if av.0 == 0 {
                            expected = 0;
                        }
                    }
                },
                _ => {},
            }
        }
        let list_style = match style {
            ListStyle::Consistent => if incrementing {
                ListStyle::Ordered
            } else {
                ListStyle::One
            },
            _ => style,
        };
        if list_style == ListStyle::Zero {
            expected = 0;
        } else if list_style == ListStyle::One {
            expected = 1;
        }
        let ghost first = expected as nat;
        let m = items.len();
        let mut k: usize = 0;
        while k < m
            invariant
                m == items@.len(),
                k <= m,
                m < usize::MAX,
                expected <= 1 + k,
                ls == views(lines@),
                lines_fit(lines@),
                names_view(names@) == md029_meta().names,
                forall|j: int| 0 <= j < items@.len() ==> items@[j] < toks@.len(),
                md029_items(ls, toks@, items@, list_style, first, k as int) == (expected as nat, errors_view(errors@).skip(prev.len() as int)),
                errors_view(errors@).len() >= prev.len(),
                errors_view(errors@).take(prev.len() as int) == prev,
            decreases m - k,
        {
            let ghost before = errors@;
            let item = &toks[items[k]];
            match value_of_item(lines, item) {
                None => {},
                Some(v) => {
                    let (actual, column, num_len) = v;
                    if actual != expected {
                        let mut e = LintError::new(item.start_line, names, self.description(), self.information());
                        let mut d = text("Expected: ");
                        push_decimal(&mut d, expected);
                        push_str(&mut d, "; Actual: ");
                        push_decimal(&mut d, actual);
                        e.error_detail = Some(d);
                        let mut ctx = text("Style: ");
                        push_str(&mut ctx, list_style.to_str());
                        e.error_context = Some(ctx);
                        e.error_range = Some((column, num_len));
                        let mut ins = String::new();
                        push_decimal(&mut ins, expected);
                        e.fix_info = Some(
                            FixInfo {
                                line_number: None,
                                edit_column: Some(column),
                                delete_count: Some(num_len as i32),
                                insert_text: Some(ins),
                            },
                        );
                        e.suggestion = Some(text("Use consistent list numbering style"));
                        errors.push(e);
                        assert(errors_view(errors@) =~= errors_view(before).push(
                            md029_error(item.start_line, expected as nat, v, list_style),
                        ));
                    }
                    if list_style == ListStyle::Ordered {
                        expected = expected + 1;
                    }
                },
            }
            assert(errors_view(errors@).skip(prev.len() as int) =~= md029_items(ls, toks@, items@, list_style, first, k + 1).1);
            assert(errors_view(errors@).take(prev.len() as int) =~= prev);
            k = k + 1;
        }
        assert(errors_view(errors@) =~= prev + errors_view(errors@).skip(prev.len() as int));
    }

    pub fn lint(&self, params: &RuleParams) -> (errors: Vec<LintError>)
        requires
            lines_fit(params.lines@),
            children_fit(params.tokens@),
        ensures
            errors_view(errors@) == md029_errors(views(params.lines@), params.tokens@, md029_style(*params)),
    {
        let style = match params.config.get_str("style") {
            Some(s) => {
                let st = string_of(&s);
                ListStyle::from_str(st.as_str())
            },
            None => ListStyle::Consistent,
        };
        let toks = params.tokens;
        let ghost ls = views(params.lines@);
        let names = self.names();
        let mut errors: Vec<LintError> = Vec::new();
        let n = toks.len();
        let mut k: usize = 0;
        while k < n
            invariant
                n == toks@.len(),
                k <= n,
                toks@ == params.tokens@,
                ls == views(params.lines@),
                lines_fit(params.lines@),
                children_fit(toks@),
                style == md029_style(*params),
                names_view(names@) == md029_meta().names,
                errors_view(errors@) == md029_scan(ls, toks@, style, k as int),
            decreases n - k,
        {
            let list = &toks[k];
            if list.is_type("list") {
                assert(toks@[k as int].children@.len() < usize::MAX);
                let ghost before = errors_view(errors@);
                self.check_list(params, &names, list, style, &mut errors);
                assert(errors_view(errors@) =~= before + md029_list(ls, toks@, toks@[k as int], style));
            }
            k = k + 1;
        }
        errors
    }
}

} // verus!
