//! MD004 - Unordered list style.
//!
//! Checks that unordered list markers are consistent. Styles (option
//! `style`): `asterisk`, `dash`, `plus`, `consistent` (the default: the first
//! item sets the marker) and `sublist` (each nesting level keeps its own
//! marker, different from its parent level's).

use vstd::prelude::*;
use crate::text::{
    chars_of, eq_str, is_whitespace, is_ws, push_char, push_str, string_of, text, trim_start,
    trim_start_vec, views,
};
use crate::types::{
    base_error, errors_view, fix_view, names_view, opt_str, FixInfo, LintError, LintErrorView,
    ParserType, RuleMeta, RuleParams,
};

use crate::config::value_as_str;
use crate::types::Token;

verus! {

pub struct MD004;

pub open spec fn md004_meta() -> RuleMeta {
    RuleMeta {
        names: seq!["MD004"@, "ul-style"@],
        description: "Unordered list style"@,
        information: Some("https://github.com/DavidAnson/markdownlint/blob/main/doc/md004.md"@),
    }
}

#[derive(Debug, Clone, Copy, PartialEq, Eq, Structural)]
pub enum ListStyle {
    Asterisk,
    Dash,
    Plus,
    Consistent,
    Sublist,
}

pub open spec fn style_of_name(s: Seq<char>) -> ListStyle {
    if s == "asterisk"@ {
        ListStyle::Asterisk
    } else if s == "dash"@ {
        ListStyle::Dash
    } else if s == "plus"@ {
        ListStyle::Plus
    } else if s == "sublist"@ {
        ListStyle::Sublist
    } else {
        ListStyle::Consistent
    }
}

pub open spec fn marker_of(s: ListStyle) -> char {
    match s {
        ListStyle::Asterisk => '*',
        ListStyle::Dash => '-',
        ListStyle::Plus => '+',
        _ => '-',
    }
}

pub open spec fn name_of(s: ListStyle) -> Seq<char> {
    match s {
        ListStyle::Asterisk => "asterisk"@,
        ListStyle::Dash => "dash"@,
        ListStyle::Plus => "plus"@,
        ListStyle::Consistent => "consistent"@,
        ListStyle::Sublist => "sublist"@,
    }
}

pub open spec fn style_of_marker(m: char) -> ListStyle {
    if m == '*' {
        ListStyle::Asterisk
    } else if m == '-' {
        ListStyle::Dash
    } else if m == '+' {
        ListStyle::Plus
    } else {
        ListStyle::Dash
    }
}

pub open spec fn other_style(s: ListStyle) -> ListStyle {
    match s {
        ListStyle::Dash => ListStyle::Plus,
        ListStyle::Plus => ListStyle::Asterisk,
        ListStyle::Asterisk => ListStyle::Dash,
        _ => ListStyle::Dash,
    }
}

impl ListStyle {
    pub fn from_str(s: &str) -> (r: ListStyle)
        ensures
            r == style_of_name(s@),
    {
        let v = chars_of(s);
        if eq_str(&v, "asterisk") {
            ListStyle::Asterisk
        } else if eq_str(&v, "dash") {
            ListStyle::Dash
        } else if eq_str(&v, "plus") {
            ListStyle::Plus
        } else if eq_str(&v, "sublist") {
            ListStyle::Sublist
        } else {
            ListStyle::Consistent
        }
    }

    pub fn to_marker(self) -> (r: char)
        ensures
            r == marker_of(self),
    {
        match self {
            ListStyle::Asterisk => '*',
            ListStyle::Dash => '-',
            ListStyle::Plus => '+',
            ListStyle::Consistent | ListStyle::Sublist => '-',
        }
    }

    pub fn to_str(self) -> (r: &'static str)
        ensures
            r@ == name_of(self),
    {
        match self {
            ListStyle::Asterisk => "asterisk",
            ListStyle::Dash => "dash",
            ListStyle::Plus => "plus",
            ListStyle::Consistent => "consistent",
            ListStyle::Sublist => "sublist",
        }
    }
}

pub fn marker_to_style(marker: char) -> (r: ListStyle)
    ensures
        r == style_of_marker(marker),
{
    match marker {
        '*' => ListStyle::Asterisk,
        '-' => ListStyle::Dash,
        '+' => ListStyle::Plus,
        _ => ListStyle::Dash,
    }
}

pub fn different_item_style(style: ListStyle) -> (r: ListStyle)
    ensures
        r == other_style(style),
{
    match style {
        ListStyle::Dash => ListStyle::Plus,
        ListStyle::Plus => ListStyle::Asterisk,
        ListStyle::Asterisk => ListStyle::Dash,
        _ => ListStyle::Dash,
    }
}

pub open spec fn is_bullet(c: char) -> bool {
    c == '*' || c == '-' || c == '+'
}

/// The bullet that starts the line (after indentation) when whitespace
/// follows it.
pub open spec fn list_marker(line: Seq<char>) -> Option<char> {
    let t = trim_start(line);
    if t.len() >= 2 && is_bullet(t[0]) && is_ws(t[1]) {
        Some(t[0])
    } else {
        None
    }
}

/// Extract the list marker character from a line.
pub fn get_list_marker(line: &str) -> (r: Option<char>)
    ensures
        r == list_marker(line@),
{
    let v = chars_of(line);
    let t = trim_start_vec(&v);
    // The first character is a one-byte bullet, so the line has more than one
    // byte exactly when it has a second character.
    if t.len() >= 2 {
        let f = t[0];
        if f == '*' || f == '-' || f == '+' {
            if is_whitespace(t[1]) {
                return Some(f);
            }
        }
    }
    None
}

/// The number of `list` tokens on the parent chain that starts at `p`,
/// following at most `fuel` links.
pub open spec fn list_ancestors(toks: Seq<Token>, p: Option<usize>, fuel: nat) -> nat
    decreases fuel,
{
    if fuel == 0 {
        0
    } else {
        match p {
            None => 0,
            Some(i) => if i < toks.len() {
                (if toks[i as int].token_type@ == "list"@ {
                    1nat
                } else {
                    0nat
                }) + list_ancestors(toks, toks[i as int].parent, (fuel - 1) as nat)
            } else {
                0
            },
        }
    }
}

/// Count nesting level by examining parent list tokens. The walk takes at
/// most one step per token, so a chain of parent links that loops cannot trap
/// it; on every chain without a loop it reaches the end.
pub fn get_nesting_level(tokens: &[Token], current_token: &Token) -> (r: usize)
    ensures
        r == list_ancestors(tokens@, current_token.parent, tokens@.len()),
{
    let n = tokens.len();
    let mut level: usize = 0;
    let mut cur = current_token.parent;
    let mut steps: usize = 0;
    while steps < n
        invariant_except_break
            steps <= n,
            level <= steps,
            list_ancestors(tokens@, current_token.parent, n as nat) == level + list_ancestors(
                tokens@,
                cur,
                (n - steps) as nat,
            ),
        invariant
            n == tokens@.len(),
        ensures
            list_ancestors(tokens@, current_token.parent, n as nat) == level,
        decreases n - steps,
    {
        match cur {
            None => {
                break;
            },
            Some(i) => {
                if i < n {
                    if tokens[i].is_type("list") {
                        level = level + 1;
                    }
                    cur = tokens[i].parent;
                    steps = steps + 1;
                } else {
                    break;
                }
            },
        }
    }
    level
}

/// The style a nesting level records: first found, by `lookup`.
pub open spec fn lookup_style(ns: Seq<(usize, ListStyle)>, k: usize) -> Option<ListStyle>
    decreases ns.len(),
{
    if ns.len() == 0 {
        None
    } else if ns[0].0 == k {
        Some(ns[0].1)
    } else {
        lookup_style(ns.drop_first(), k)
    }
}

/// Index of the first bullet character of the line.
pub open spec fn first_bullet(line: Seq<char>, j: int) -> int
    decreases line.len() - j,
{
    if j < 0 || j >= line.len() {
        0
    } else if is_bullet(line[j]) {
        j
    } else {
        first_bullet(line, j + 1)
    }
}

pub struct Md004State {
    pub expected: ListStyle,
    pub nesting: Seq<(usize, ListStyle)>,
    pub errors: Seq<LintErrorView>,
}

pub open spec fn md004_error(line_number: usize, column: int, expected: ListStyle, actual: ListStyle, marker: char) -> LintErrorView {
    LintErrorView {
        detail: Some("Expected: "@ + name_of(expected) + "; Actual: "@ + name_of(actual)),
        context: Some(seq![marker]),
        range: Some((column as usize, 1usize)),
        fix: Some(fix_view(None, Some(column as usize), Some(1i32), Some(seq![marker_of(expected)]))),
        ..base_error(md004_meta(), line_number as int)
    }
}

/// The state after one `listItem` token.
pub open spec fn md004_item(
    ls: Seq<Seq<char>>,
    toks: Seq<Token>,
    style: ListStyle,
    item: Token,
    st: Md004State,
) -> Md004State {
    if item.start_line == 0 || item.start_line > ls.len() {
        st
    } else {
        let line = ls[item.start_line - 1];
        match list_marker(line) {
            None => st,
            Some(m) => {
                let item_style = style_of_marker(m);
                let nesting: usize = if style == ListStyle::Sublist {
                    list_ancestors(toks, item.parent, toks.len()) as usize
                } else {
                    0
                };
                let (expected, ns) = if style == ListStyle::Sublist {
                    match lookup_style(st.nesting, nesting) {
                        Some(e) => (e, st.nesting),
                        None => {
                            let e = if nesting > 0 {
                                match lookup_style(st.nesting, (nesting - 1) as usize) {
                                    Some(p) => if item_style == p {
                                        other_style(item_style)
                                    } else {
                                        item_style
                                    },
                                    None => item_style,
                                }
                            } else {
                                item_style
                            };
                            (e, st.nesting.push((nesting, e)))
                        },
                    }
                } else if st.expected == ListStyle::Consistent {
                    (item_style, st.nesting)
                } else {
                    (st.expected, st.nesting)
                };
                let errs = if item_style != expected {
                    st.errors.push(
                        md004_error(item.start_line, first_bullet(line, 0) + 1, expected, item_style, m),
                    )
                } else {
                    st.errors
                };
                Md004State { expected, nesting: ns, errors: errs }
            },
        }
    }
}

pub open spec fn md004_scan(ls: Seq<Seq<char>>, toks: Seq<Token>, style: ListStyle, n: int) -> Md004State
    decreases n,
{
    if n <= 0 {
        Md004State { expected: style, nesting: seq![], errors: seq![] }
    } else {
        let st = md004_scan(ls, toks, style, n - 1);
        if toks[n - 1].token_type@ == "listItem"@ {
            md004_item(ls, toks, style, toks[n - 1], st)
        } else {
            st
        }
    }
}

/// The configured style; `consistent` when absent.
pub open spec fn md004_style(params: RuleParams) -> ListStyle {
    match value_as_str(params.config.lookup("style"@)) {
        Some(s) => style_of_name(s),
        None => ListStyle::Consistent,
    }
}

/// The findings of MD004, list items taken in token order.
pub open spec fn md004_errors(ls: Seq<Seq<char>>, toks: Seq<Token>, style: ListStyle) -> Seq<LintErrorView> {
    md004_scan(ls, toks, style, toks.len() as int).errors
}

fn lookup_nesting(ns: &Vec<(usize, ListStyle)>, k: usize) -> (r: Option<ListStyle>)
    ensures
        r == lookup_style(ns@, k),
{
    let mut i: usize = 0;
    assert(ns@.skip(0) =~= ns@);
    while i < ns.len()
        invariant
            i <= ns@.len(),
            lookup_style(ns@, k) == lookup_style(ns@.skip(i as int), k),
        decreases ns@.len() - i,
    {
        assert(ns@.skip(i as int).drop_first() =~= ns@.skip(i + 1));
        if ns[i].0 == k {
            return Some(ns[i].1);
        }
        i = i + 1;
    }
    None
}

fn first_bullet_index(v: &Vec<char>) -> (r: usize)
    ensures
        r == first_bullet(v@, 0),
        r == 0 || r < v@.len(),
{
    let mut j: usize = 0;
    while j < v.len()
        invariant
            j <= v@.len(),
            first_bullet(v@, 0) == first_bullet(v@, j as int),
        decreases v@.len() - j,
    {
        if v[j] == '*' || v[j] == '-' || v[j] == '+' {
            return j;
        }
        j = j + 1;
    }
    0
}

impl MD004 {
    pub fn names(&self) -> (r: Vec<&'static str>)
        ensures
            names_view(r@) == md004_meta().names,
    {
        let r = vec!["MD004", "ul-style"];
        assert(names_view(r@) =~= md004_meta().names);
        r
    }

    pub fn description(&self) -> (r: &'static str)
        ensures
            r@ == md004_meta().description,
    {
        "Unordered list style"
    }

    pub fn tags(&self) -> (r: Vec<&'static str>)
        ensures
            names_view(r@) == seq!["bullet"@, "ul"@],
    {
        let r = vec!["bullet", "ul"];
        assert(names_view(r@) =~= seq!["bullet"@, "ul"@]);
        r
    }

    pub fn parser_type(&self) -> (r: ParserType)
        ensures
            r == ParserType::Micromark,
    {
        ParserType::Micromark
    }

    pub fn information(&self) -> (r: Option<&'static str>)
        ensures
            opt_str(r) == md004_meta().information,
    {
        Some("https://github.com/DavidAnson/markdownlint/blob/main/doc/md004.md")
    }

    pub fn lint(&self, params: &RuleParams) -> (errors: Vec<LintError>)
        ensures
            errors_view(errors@) == md004_errors(views(params.lines@), params.tokens@, md004_style(*params)),
    {
        let style = match params.config.get_str("style") {
            Some(s) => {
                let st = string_of(&s);
                ListStyle::from_str(st.as_str())
            },
            None => ListStyle::Consistent,
        };
        let lines = params.lines;
        let toks = params.tokens;
        let ghost ls = views(lines@);
        let names = self.names();
        let mut errors: Vec<LintError> = Vec::new();
        let mut expected_style = style;
        let mut nesting_styles: Vec<(usize, ListStyle)> = Vec::new();
        let n = toks.len();
        let mut k: usize = 0;
        assert(errors_view(errors@) =~= seq![]);
        assert(nesting_styles@ =~= seq![]);
        while k < n
            invariant
                n == toks@.len(),
                k <= n,
                ls == views(lines@),
                style == md004_style(*params),
                names_view(names@) == md004_meta().names,
                md004_scan(ls, toks@, style, k as int) == (Md004State {
                    expected: expected_style,
                    nesting: nesting_styles@,
                    errors: errors_view(errors@),
                }),
            decreases n - k,
        {
            let ghost prev = errors_view(errors@);
            let item = &toks[k];
            if item.is_type("listItem") && item.start_line != 0 && item.start_line <= lines.len() {
                let line = lines[item.start_line - 1];
                if let Some(marker) = get_list_marker(line) {
                    let item_style = marker_to_style(marker);
                    let nesting = if style == ListStyle::Sublist {
                        get_nesting_level(toks, item)
                    } else {
                        0
                    };
                    if style == ListStyle::Sublist {
                        match lookup_nesting(&nesting_styles, nesting) {
                            Some(e) => {
                                expected_style = e;
                            },
                            None => {
                                expected_style = if nesting > 0 {
                                    match lookup_nesting(&nesting_styles, nesting - 1) {
                                        Some(p) => if item_style == p {
                                            different_item_style(item_style)
                                        } else {
                                            item_style
                                        },
                                        None => item_style,
                                    }
                                } else {
                                    item_style
                                };
                                nesting_styles.push((nesting, expected_style));
                            },
                        }
                    } else if expected_style == ListStyle::Consistent {
                        expected_style = item_style;
                    }
                    if item_style != expected_style {
                        let v = chars_of(line);
                        let fb = first_bullet_index(&v);
                        let column = if fb < v.len() {
                            fb + 1
                        } else {
                            1
                        };
                        let mut e = LintError::new(item.start_line, &names, self.description(), self.information());
                        let mut d = text("Expected: ");
                        push_str(&mut d, expected_style.to_str());
                        push_str(&mut d, "; Actual: ");
                        push_str(&mut d, item_style.to_str());
                        e.error_detail = Some(d);
                        let mut ctx = String::new();
                        push_char(&mut ctx, marker);
                        e.error_context = Some(ctx);
                        e.error_range = Some((column, 1));
                        let mut ins = String::new();
                        push_char(&mut ins, expected_style.to_marker());
                        e.fix_info = Some(
                            FixInfo {
                                line_number: None,
                                edit_column: Some(column),
                                delete_count: Some(1),
                                insert_text: Some(ins),
                            },
                        );
                        errors.push(e);
                        assert(ctx@ =~= seq![marker]);
                        assert(errors_view(errors@) =~= prev.push(
                            md004_error(item.start_line, column as int, expected_style, item_style, marker),
                        ));
                    }
                }
            }
            k = k + 1;
        }
        errors
    }
}

/// The parent chain from `p` ends (at no parent, or at one outside the
/// tokens) within `fuel` links.
pub open spec fn chain_ends(toks: Seq<Token>, p: Option<usize>, fuel: nat) -> bool
    decreases fuel,
{
    match p {
        None => true,
        Some(i) => if i >= toks.len() {
            true
        } else if fuel == 0 {
            false
        } else {
            chain_ends(toks, toks[i as int].parent, (fuel - 1) as nat)
        },
    }
}

/// Where the parent chain ends within the walk's bound, the nesting level
/// counts every `list` token on it: a longer walk finds no more.
pub proof fn lemma_nesting_counts_all(toks: Seq<Token>, p: Option<usize>, fuel: nat, more: nat)
    requires
        chain_ends(toks, p, fuel),
        fuel <= more,
    ensures
        list_ancestors(toks, p, fuel) == list_ancestors(toks, p, more),
    decreases fuel,
{
    match p {
        None => {},
        Some(i) => {
            if i < toks.len() {
                lemma_nesting_counts_all(toks, toks[i as int].parent, (fuel - 1) as nat, (more - 1) as nat);
            }
        },
    }
}

} // verus!
