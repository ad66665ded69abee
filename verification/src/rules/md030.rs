//! MD030 - Spaces after list markers.
//!
//! The whitespace after each list marker must be as wide as configured:
//! `ul_single`, `ol_single`, `ul_multi` and `ol_multi` (each 1 by default),
//! the "single" value applying to lists whose items each take one line.

use vstd::prelude::*;
use crate::text::{decimal, push_decimal, push_repeat, push_str, repeat_char, text};
use crate::types::{
    base_error, errors_view, fix_view, names_view, opt_str, FixInfo, LintError, LintErrorView,
    ParserType, RuleMeta, RuleParams, Token,
};
use crate::config::{value_as_u64, Config};

verus! {

pub struct MD030;

pub open spec fn md030_meta() -> RuleMeta {
    RuleMeta {
        names: seq!["MD030"@, "list-marker-space"@],
        description: "Spaces after list markers"@,
        information: Some("https://github.com/DavidAnson/markdownlint/blob/main/doc/md030.md"@),
    }
}

/// The configured widths.
#[derive(Clone, Copy, Debug)]
pub struct Md030Options {
    pub ul_single: usize,
    pub ol_single: usize,
    pub ul_multi: usize,
    pub ol_multi: usize,
}

/// An option: a non-negative integer, 1 when absent.
pub open spec fn md030_option(c: Config, key: Seq<char>) -> usize {
    match value_as_u64(c.lookup(key)) {
        Some(n) => n as usize,
        None => 1usize,
    }
}

pub open spec fn md030_options(c: Config) -> Md030Options {
    Md030Options {
        ul_single: md030_option(c, "ul_single"@),
        ol_single: md030_option(c, "ol_single"@),
        ul_multi: md030_option(c, "ul_multi"@),
        ol_multi: md030_option(c, "ol_multi"@),
    }
}

/// The first `k` of `ch` that are tokens of type `ty`.
pub open spec fn typed_children(toks: Seq<Token>, ch: Seq<usize>, ty: Seq<char>, k: int) -> Seq<usize>
    decreases k,
{
    if k <= 0 {
        seq![]
    } else {
        let prev = typed_children(toks, ch, ty, k - 1);
        let c = ch[k - 1];
        if c < toks.len() && toks[c as int].token_type@ == ty {
            prev.push(c)
        } else {
            prev
        }
    }
}

/// The marker prefixes of the items among the first `k` children `ch` of a
/// list.
pub open spec fn item_prefixes(toks: Seq<Token>, ch: Seq<usize>, k: int) -> Seq<usize>
    decreases k,
{
    if k <= 0 {
        seq![]
    } else {
        let c = ch[k - 1];
        item_prefixes(toks, ch, k - 1) + if c < toks.len() {
            let gc = toks[c as int].children@;
            typed_children(toks, gc, "listItemPrefix"@, gc.len() as int)
        } else {
            seq![]
        }
    }
}

pub open spec fn prefixes_of(toks: Seq<Token>, list: Token) -> Seq<usize> {
    item_prefixes(toks, list.children@, list.children@.len() as int)
}

pub open spec fn spaces_of(toks: Seq<Token>, p: Token) -> Seq<usize> {
    typed_children(toks, p.children@, "listItemPrefixWhitespace"@, p.children@.len() as int)
}

pub open spec fn md030_error(p: Token, ws: Token, expected: usize) -> LintErrorView {
    let actual = (ws.end_column - ws.start_column) as usize;
    LintErrorView {
        detail: Some("Expected: "@ + decimal(expected as nat) + "; Actual: "@ + decimal(actual as nat)),
        range: Some((p.start_column, (p.end_column - p.start_column) as usize)),
        fix: Some(fix_view(None, Some(ws.start_column), Some(actual as i32), Some(repeat_char(' ', expected as nat)))),
        suggestion: Some("Use consistent spacing after list marker"@),
        ..base_error(md030_meta(), ws.start_line as int)
    }
}

/// The findings for the first `k` whitespace tokens `wss` after prefix `p`.
pub open spec fn ws_errors(toks: Seq<Token>, p: Token, wss: Seq<usize>, expected: usize, k: int) -> Seq<
    LintErrorView,
>
    decreases k,
{
    if k <= 0 {
        seq![]
    } else {
        let prev = ws_errors(toks, p, wss, expected, k - 1);
        let ws = toks[wss[k - 1] as int];
        if ws.end_column - ws.start_column != expected {
            prev.push(md030_error(p, ws, expected))
        } else {
            prev
        }
    }
}

/// The findings for the first `k` prefixes `pre`.
pub open spec fn prefix_errors(toks: Seq<Token>, pre: Seq<usize>, expected: usize, k: int) -> Seq<LintErrorView>
    decreases k,
{
    if k <= 0 {
        seq![]
    } else {
        let p = toks[pre[k - 1] as int];
        let wss = spaces_of(toks, p);
        prefix_errors(toks, pre, expected, k - 1) + ws_errors(toks, p, wss, expected, wss.len() as int)
    }
}

/// The width expected in `list`.
pub open spec fn md030_expected(toks: Seq<Token>, list: Token, o: Md030Options) -> usize {
    let single = list.end_line - list.start_line + 1 == prefixes_of(toks, list).len();
    if list.token_type@ == "listOrdered"@ {
        if single {
            o.ol_single
        } else {
            o.ol_multi
        }
    } else if single {
        o.ul_single
    } else {
        o.ul_multi
    }
}

pub open spec fn md030_list_errors(toks: Seq<Token>, list: Token, o: Md030Options) -> Seq<LintErrorView> {
    let pre = prefixes_of(toks, list);
    if pre.len() == 0 {
        seq![]
    } else {
        prefix_errors(toks, pre, md030_expected(toks, list, o), pre.len() as int)
    }
}

pub open spec fn md030_is_list(t: Token) -> bool {
    t.token_type@ == "listOrdered"@ || t.token_type@ == "listUnordered"@
}

pub open spec fn md030_scan(toks: Seq<Token>, o: Md030Options, n: int) -> Seq<LintErrorView>
    decreases n,
{
    if n <= 0 {
        seq![]
    } else {
        let prev = md030_scan(toks, o, n - 1);
        if md030_is_list(toks[n - 1]) {
            prev + md030_list_errors(toks, toks[n - 1], o)
        } else {
            prev
        }
    }
}

pub open spec fn md030_errors(toks: Seq<Token>, c: Config) -> Seq<LintErrorView> {
    md030_scan(toks, md030_options(c), toks.len() as int)
}

/// A token's columns run forwards.
pub open spec fn cols_forward(t: Token) -> bool {
    t.start_column <= t.end_column
}

/// A marker prefix's columns, and those of its whitespace, run forwards.
pub open spec fn prefix_safe(toks: Seq<Token>, p: Token) -> bool {
    &&& cols_forward(p)
    &&& forall|q: int|
        0 <= q < spaces_of(toks, p).len() ==> cols_forward(toks[#[trigger] spaces_of(toks, p)[q] as int])
}

/// The arithmetic of a list stays in range: its line span, and each marker
/// prefix and whitespace token, run forwards.
pub open spec fn md030_list_safe(toks: Seq<Token>, list: Token) -> bool {
    let pre = prefixes_of(toks, list);
    pre.len() > 0 ==> {
        &&& list.start_line <= list.end_line
        &&& list.end_line - list.start_line + 1 <= usize::MAX
        &&& forall|j: int| 0 <= j < pre.len() ==> prefix_safe(toks, #[trigger] toks[pre[j] as int])
    }
}

/// The arithmetic of every list stays in range.
pub open spec fn md030_safe(toks: Seq<Token>) -> bool {
    forall|i: int| 0 <= i < toks.len() && md030_is_list(#[trigger] toks[i]) ==> md030_list_safe(toks, toks[i])
}

proof fn lemma_typed_in(toks: Seq<Token>, ch: Seq<usize>, ty: Seq<char>, k: int)
    requires
        0 <= k <= ch.len(),
    ensures
        forall|j: int|
            0 <= j < typed_children(toks, ch, ty, k).len() ==> #[trigger] typed_children(toks, ch, ty, k)[j]
                < toks.len(),
    decreases k,
{
    if k > 0 {
        lemma_typed_in(toks, ch, ty, k - 1);
        let prev = typed_children(toks, ch, ty, k - 1);
        let cur = typed_children(toks, ch, ty, k);
        assert forall|j: int| 0 <= j < cur.len() implies #[trigger] cur[j] < toks.len() by {
            if j < prev.len() {
                assert(cur[j] == prev[j]);
            }
        }
    }
}

/// The children among `ch` that are tokens of type `ty`.
fn children_of_type(tokens: &[Token], ch: &Vec<usize>, ty: &str) -> (r: Vec<usize>)
    ensures
        r@ == typed_children(tokens@, ch@, ty@, ch@.len() as int),
        forall|j: int| 0 <= j < r@.len() ==> #[trigger] r@[j] < tokens@.len(),
{
    let mut r: Vec<usize> = Vec::new();
    let mut k: usize = 0;
    while k < ch.len()
        invariant
            k <= ch@.len(),
            r@ == typed_children(tokens@, ch@, ty@, k as int),
        decreases ch@.len() - k,
    {
        let c = ch[k];
        if c < tokens.len() && tokens[c].is_type(ty) {
            r.push(c);
        }
        k = k + 1;
    }
    proof {
        lemma_typed_in(tokens@, ch@, ty@, ch@.len() as int);
    }
    r
}

fn option_of(config: &Config, key: &str) -> (r: usize)
    ensures
        r == md030_option(*config, key@),
{
    match config.get_u64(key) {
        Some(n) => n as usize,
        None => 1,
    }
}

impl MD030 {
    pub fn names(&self) -> (r: Vec<&'static str>)
        ensures
            names_view(r@) == md030_meta().names,
    {
        let r = vec!["MD030", "list-marker-space"];
        assert(names_view(r@) =~= md030_meta().names);
        r
    }

    pub fn description(&self) -> (r: &'static str)
        ensures
            r@ == md030_meta().description,
    {
        "Spaces after list markers"
    }

    pub fn tags(&self) -> (r: Vec<&'static str>)
        ensures
            names_view(r@) == seq!["ol"@, "ul"@, "whitespace"@, "fixable"@],
    {
        let r = vec!["ol", "ul", "whitespace", "fixable"];
        assert(names_view(r@) =~= seq!["ol"@, "ul"@, "whitespace"@, "fixable"@]);
        r
    }

    pub fn parser_type(&self) -> (r: ParserType)
        ensures
            r == ParserType::Micromark,
    {
        ParserType::Micromark
    }

    pub fn information(&self) -> (r: Option<&'static str>)
        ensures
            opt_str(r) == md030_meta().information,
    {
        Some("https://github.com/DavidAnson/markdownlint/blob/main/doc/md030.md")
    }

    fn list_errors(
        &self,
        tokens: &[Token],
        list: &Token,
        o: Md030Options,
        names: &Vec<&'static str>,
        errors: &mut Vec<LintError>,
    )
        requires
            md030_list_safe(tokens@, *list),
            names_view(names@) == md030_meta().names,
        ensures
            errors_view(final(errors)@) == errors_view(old(errors)@) + md030_list_errors(tokens@, *list, o),
    {
        let ghost e0 = errors_view(errors@);
        let mut pre: Vec<usize> = Vec::new();
        let mut k: usize = 0;
        while k < list.children.len()
            invariant
                k <= list.children@.len(),
                pre@ == item_prefixes(tokens@, list.children@, k as int),
                forall|j: int| 0 <= j < pre@.len() ==> #[trigger] pre@[j] < tokens@.len(),
            decreases list.children@.len() - k,
        {
            let c = list.children[k];
            let ghost p0 = pre@;
            if c < tokens.len() {
                let mut more = children_of_type(tokens, &tokens[c].children, "listItemPrefix");
                pre.append(&mut more);
            }
            k = k + 1;
            assert(pre@ =~= item_prefixes(tokens@, list.children@, k as int));
        }
        if pre.len() == 0 {
            assert(md030_list_errors(tokens@, *list, o) =~= seq![]);
            assert(errors_view(errors@) =~= e0 + md030_list_errors(tokens@, *list, o));
            return;
        }
        let single = list.end_line - list.start_line + 1 == pre.len();
        let expected = if list.is_type("listOrdered") {
            if single {
                o.ol_single
            } else {
                o.ol_multi
            }
        } else if single {
            o.ul_single
        } else {
            o.ul_multi
        };
        assert(expected == md030_expected(tokens@, *list, o));
        let m = pre.len();
        let mut j: usize = 0;
        while j < m
            invariant
                m == pre@.len(),
                pre@ == prefixes_of(tokens@, *list),
                j <= m,
                m > 0,
                md030_list_safe(tokens@, *list),
                forall|q: int| 0 <= q < pre@.len() ==> #[trigger] pre@[q] < tokens@.len(),
                expected == md030_expected(tokens@, *list, o),
                names_view(names@) == md030_meta().names,
                errors_view(errors@) == e0 + prefix_errors(tokens@, pre@, expected, j as int),
            decreases m - j,
        {
            let p = &tokens[pre[j]];
            assert(prefix_safe(tokens@, tokens@[pre@[j as int] as int]));
            assert(p.start_column <= p.end_column);
            let range = (p.start_column, p.end_column - p.start_column);
            let wss = children_of_type(tokens, &p.children, "listItemPrefixWhitespace");
            assert(*p == tokens@[pre@[j as int] as int]);
            assert forall|x: int| 0 <= x < wss@.len() implies cols_forward(tokens@[#[trigger] wss@[x] as int]) by {
                assert(wss@[x] == spaces_of(tokens@, tokens@[pre@[j as int] as int])[x]);
            }
            let ghost e1 = errors_view(errors@);
            let mut q: usize = 0;
            while q < wss.len()
                invariant
                    q <= wss@.len(),
                    wss@ == spaces_of(tokens@, *p),
                    forall|x: int| 0 <= x < wss@.len() ==> #[trigger] wss@[x] < tokens@.len(),
                    forall|x: int| 0 <= x < wss@.len() ==> cols_forward(tokens@[#[trigger] wss@[x] as int]),
                    range == (p.start_column, (p.end_column - p.start_column) as usize),
                    names_view(names@) == md030_meta().names,
                    errors_view(errors@) == e1 + ws_errors(tokens@, *p, wss@, expected, q as int),
                decreases wss@.len() - q,
            {
                let ws = &tokens[wss[q]];
                assert(cols_forward(tokens@[wss@[q as int] as int]));
                let actual = ws.end_column - ws.start_column;
                if actual != expected {
                    let mut e = LintError::new(ws.start_line, names, self.description(), self.information());
                    let mut d = text("Expected: ");
                    push_decimal(&mut d, expected);
                    push_str(&mut d, "; Actual: ");
                    push_decimal(&mut d, actual);
                    e.error_detail = Some(d);
                    e.error_range = Some(range);
                    let mut sp = String::new();
                    push_repeat(&mut sp, ' ', expected);
                    e.fix_info = Some(
                        FixInfo {
                            line_number: None,
                            edit_column: Some(ws.start_column),
                            delete_count: Some(actual as i32),
                            insert_text: Some(sp),
                        },
                    );
                    e.suggestion = Some(text("Use consistent spacing after list marker"));
                    let ghost b = errors_view(errors@);
                    errors.push(e);
                    assert(errors_view(errors@) =~= b.push(md030_error(*p, *ws, expected)));
                }
                q = q + 1;
            }
            j = j + 1;
            assert(errors_view(errors@) =~= e0 + prefix_errors(tokens@, pre@, expected, j as int));
        }
    }

    pub fn lint(&self, params: &RuleParams) -> (errors: Vec<LintError>)
        requires
            md030_safe(params.tokens@),
        ensures
            errors_view(errors@) == md030_errors(params.tokens@, *params.config),
    {
        let o = Md030Options {
            ul_single: option_of(params.config, "ul_single"),
            ol_single: option_of(params.config, "ol_single"),
            ul_multi: option_of(params.config, "ul_multi"),
            ol_multi: option_of(params.config, "ol_multi"),
        };
        let tokens = params.tokens;
        let names = self.names();
        let mut errors: Vec<LintError> = Vec::new();
        let n = tokens.len();
        let mut i: usize = 0;
        assert(errors_view(errors@) =~= seq![]);
        while i < n
            invariant
                n == tokens@.len(),
                i <= n,
                md030_safe(tokens@),
                names_view(names@) == md030_meta().names,
                errors_view(errors@) == md030_scan(tokens@, o, i as int),
            decreases n - i,
        {
            let list = &tokens[i];
            if list.is_type("listOrdered") || list.is_type("listUnordered") {
                assert(md030_is_list(tokens@[i as int]));
                self.list_errors(tokens, list, o, &names, &mut errors);
            }
            i = i + 1;
        }
        assert(o == md030_options(*params.config));
        errors
    }
}

} // verus!
