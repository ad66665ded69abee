//! MD033 - Inline HTML.
//!
//! An inline HTML opening tag is reported unless its element is allowed:
//! `allowed_elements` lists the elements allowed outside tables,
//! `table_allowed_elements` (by default the same list) those allowed
//! inside a table. Element names are compared in lowercase.

use vstd::prelude::*;
use crate::text::{
    byte_len, chars_of, contains_vec, find_from, find_in, lowercase, lowercase_vec, push_chars,
    slice_chars, starts_with, starts_with_str, string_of, text, trim_end_char, trim_end_char_vec,
    utf8_byte_len, vec_views,
};
use crate::types::{
    base_error, errors_view, names_view, opt_str, token_texts_fit, LintError, LintErrorView,
    ParserType, RuleMeta, RuleParams, Token,
};
use crate::config::{Config, ConfigValue};
use crate::pattern::{captures, compile, group_at, group_chars, regex_captures, regex_compiles};

verus! {

pub struct MD033;

pub open spec fn md033_meta() -> RuleMeta {
    RuleMeta {
        names: seq!["MD033"@, "no-inline-html"@],
        description: "Inline HTML"@,
        information: Some("https://github.com/DavidAnson/markdownlint/blob/main/doc/md033.md"@),
    }
}

/// An HTML tag at the start of the text; group 1 is its name (with a
/// leading `/` for a closing tag).
pub open spec fn tag_name_pattern() -> Seq<char> {
    "^<([^!>][^/\\s>]*)"@
}

/// What an HTML tag is: its element name, and whether it closes.
pub struct HtmlTagInfo {
    pub name: String,
    pub close: bool,
}

/// The element name and closing flag of the tag that starts `t`.
pub open spec fn tag_info(t: Seq<char>) -> Option<(Seq<char>, bool)> {
    if !regex_compiles(tag_name_pattern()) {
        None
    } else {
        match regex_captures(tag_name_pattern(), t) {
            Some(g) => if g.len() > 1 && g[1] is Some {
                let nm = group_at(t, g, 1);
                let close = starts_with(nm, "/"@);
                let rest = if close {
                    nm.drop_first()
                } else {
                    nm
                };
                Some((trim_end_char(rest, '/'), close))
            } else {
                None
            },
            None => None,
        }
    }
}

/// Extract the tag information of an HTML token's text.
pub fn get_html_tag_info(text: &str) -> (r: Option<HtmlTagInfo>)
    requires
        byte_len(text@) <= isize::MAX,
    ensures
        match r {
            Some(info) => tag_info(text@) == Some((info.name@, info.close)),
            None => tag_info(text@).is_none(),
        },
{
    let re = match compile("^<([^!>][^/\\s>]*)") {
        Some(p) => p,
        None => {
            return None;
        },
    };
    let t = chars_of(text);
    match captures(&re, text) {
        Some(g) => {
            if g.len() > 1 && g[1].is_some() {
                let nm = group_chars(&t, &g, 1);
                let close = starts_with_str(&nm, "/");
                proof {
                    reveal_strlit("/");
                }
                let rest = if close {
                    slice_chars(&nm, 1, nm.len())
                } else {
                    nm
                };
                proof {
                    if close {
                        assert(rest@ =~= group_at(t@, g@, 1).drop_first());
                    }
                }
                let name = trim_end_char_vec(&rest, '/');
                Some(HtmlTagInfo { name: string_of(&name), close })
            } else {
                None
            }
        },
        None => None,
    }
}

/// Whether some ancestor of token `idx` (its parent, the parent's parent,
/// and so on) has type `ty`: `None` when the walk has not ended after
/// `fuel` more steps.
pub open spec fn parent_walk(toks: Seq<Token>, idx: int, ty: Seq<char>, fuel: nat) -> Option<bool>
    decreases fuel,
{
    if idx < 0 || idx >= toks.len() {
        Some(false)
    } else {
        match toks[idx].parent {
            None => Some(false),
            Some(p) => if p >= toks.len() {
                Some(false)
            } else if toks[p as int].token_type@ == ty {
                Some(true)
            } else if fuel == 0 {
                None
            } else {
                parent_walk(toks, p as int, ty, (fuel - 1) as nat)
            },
        }
    }
}

/// Check whether a token has an ancestor of the given type.
pub fn has_parent_of_type(tokens: &[Token], token_idx: usize, parent_type: &str) -> (r: bool)
    requires
        parent_walk(tokens@, token_idx as int, parent_type@, tokens@.len()) is Some,
    ensures
        parent_walk(tokens@, token_idx as int, parent_type@, tokens@.len()) == Some(r),
{
    let mut cur = token_idx;
    let mut fuel = tokens.len();
    while cur < tokens.len()
        invariant
            parent_walk(tokens@, token_idx as int, parent_type@, tokens@.len()) == parent_walk(
                tokens@,
                cur as int,
                parent_type@,
                fuel as nat,
            ),
            parent_walk(tokens@, cur as int, parent_type@, fuel as nat) is Some,
        decreases fuel,
    {
        match tokens[cur].parent {
            None => {
                return false;
            },
            Some(p) => {
                if p >= tokens.len() {
                    return false;
                }
                if tokens[p].is_type(parent_type) {
                    return true;
                }
                cur = p;
                fuel = fuel - 1;
            },
        }
    }
    false
}

/// The strings of a configured array, in lowercase.
pub open spec fn lower_strings(a: Seq<Option<String>>) -> Seq<Seq<char>>
    decreases a.len(),
{
    if a.len() == 0 {
        seq![]
    } else {
        let prev = lower_strings(a.drop_last());
        match a.last() {
            Some(s) => prev.push(lowercase(s@)),
            None => prev,
        }
    }
}

pub open spec fn string_array(v: Option<ConfigValue>) -> Seq<Seq<char>> {
    match v {
        Some(ConfigValue::Array(a)) => lower_strings(a@),
        _ => seq![],
    }
}

/// The strings of a configured array, in lowercase (none when the value
/// is missing or not an array).
pub fn to_lowercase_string_array(value: Option<&ConfigValue>) -> (r: Vec<Vec<char>>)
    ensures
        vec_views(r@) == string_array(
            match value {
                Some(v) => Some(*v),
                None => None,
            },
        ),
{
    let mut r: Vec<Vec<char>> = Vec::new();
    match value {
        Some(ConfigValue::Array(a)) => {
            let mut i: usize = 0;
            assert(vec_views(r@) =~= lower_strings(a@.take(0)));
            while i < a.len()
                invariant
                    i <= a@.len(),
                    vec_views(r@) == lower_strings(a@.take(i as int)),
                decreases a@.len() - i,
            {
                assert(a@.take(i + 1).drop_last() =~= a@.take(i as int));
                let ghost r0 = vec_views(r@);
                match &a[i] {
                    Some(s) => {
                        r.push(lowercase_vec(&chars_of(s.as_str())));
                        assert(vec_views(r@) =~= r0.push(lowercase(s@)));
                    },
                    None => {},
                }
                i = i + 1;
            }
            assert(a@.take(i as int) =~= a@);
        },
        _ => {
            assert(vec_views(r@) =~= seq![]);
        },
    }
    r
}

/// The elements allowed outside tables.
pub open spec fn allowed(c: Config) -> Seq<Seq<char>> {
    string_array(c.lookup("allowed_elements"@))
}

/// The elements allowed inside tables.
pub open spec fn table_allowed(c: Config) -> Seq<Seq<char>> {
    if c.lookup("table_allowed_elements"@) is Some {
        string_array(c.lookup("table_allowed_elements"@))
    } else {
        allowed(c)
    }
}

/// The first line of `t` (`str::lines`): up to the first line feed, less
/// a carriage return before it; all of `t` without a line feed.
pub open spec fn first_line(t: Seq<char>) -> Seq<char> {
    let k = find_from(t, "\n"@, 0);
    if k >= 0 {
        let l = t.take(k);
        if l.len() > 0 && l.last() == '\r' {
            l.drop_last()
        } else {
            l
        }
    } else {
        t
    }
}

pub open spec fn md033_error(t: Token, name: Seq<char>) -> LintErrorView {
    LintErrorView {
        detail: Some("Element: "@ + name),
        range: Some((t.start_column, byte_len(first_line(t.text@)) as usize)),
        suggestion: Some("Avoid using raw HTML in Markdown"@),
        ..base_error(md033_meta(), t.start_line as int)
    }
}

/// Token `i` is an opening tag whose ancestors are looked at.
pub open spec fn opening_tag(toks: Seq<Token>, i: int) -> bool {
    &&& toks[i].token_type@ == "htmlText"@
    &&& tag_info(toks[i].text@) matches Some(info)
    &&& !info.1
}

pub open spec fn md033_scan(toks: Seq<Token>, al: Seq<Seq<char>>, tal: Seq<Seq<char>>, n: int) -> Seq<LintErrorView>
    decreases n,
{
    if n <= 0 {
        seq![]
    } else {
        let prev = md033_scan(toks, al, tal, n - 1);
        if opening_tag(toks, n - 1) {
            let info = tag_info(toks[n - 1].text@)->0;
            let name = info.0;
            let el = lowercase(name);
            let in_table = parent_walk(toks, n - 1, "table"@, toks.len()) == Some(true);
            if (in_table || !al.contains(el)) && (!in_table || !tal.contains(el)) {
                prev.push(md033_error(toks[n - 1], name))
            } else {
                prev
            }
        } else {
            prev
        }
    }
}

/// The findings of MD033.
pub open spec fn md033_errors(toks: Seq<Token>, c: Config) -> Seq<LintErrorView> {
    md033_scan(toks, allowed(c), table_allowed(c), toks.len() as int)
}

/// For every opening tag the walk up its ancestors ends (it always does
/// where the parent links form no cycle).
pub open spec fn md033_walks_end(toks: Seq<Token>) -> bool {
    forall|i: int|
        0 <= i < toks.len() && #[trigger] opening_tag(toks, i) ==> parent_walk(
            toks,
            i,
            "table"@,
            toks.len(),
        ) is Some
}

impl MD033 {
    pub fn names(&self) -> (r: Vec<&'static str>)
        ensures
            names_view(r@) == md033_meta().names,
    {
        let r = vec!["MD033", "no-inline-html"];
        assert(names_view(r@) =~= md033_meta().names);
        r
    }

    pub fn description(&self) -> (r: &'static str)
        ensures
            r@ == md033_meta().description,
    {
        "Inline HTML"
    }

    pub fn tags(&self) -> (r: Vec<&'static str>)
        ensures
            names_view(r@) == seq!["html"@],
    {
        let r = vec!["html"];
        assert(names_view(r@) =~= seq!["html"@]);
        r
    }

    pub fn parser_type(&self) -> (r: ParserType)
        ensures
            r == ParserType::Micromark,
    {
        ParserType::Micromark
    }

    pub fn information(&self) -> (r: Option<&'static str>)
        ensures
            opt_str(r) == md033_meta().information,
    {
        Some("https://github.com/DavidAnson/markdownlint/blob/main/doc/md033.md")
    }

    pub fn lint(&self, params: &RuleParams) -> (errors: Vec<LintError>)
        requires
            token_texts_fit(params.tokens@),
            md033_walks_end(params.tokens@),
        ensures
            errors_view(errors@) == md033_errors(params.tokens@, *params.config),
    {
        let tokens = params.tokens;
        let al = to_lowercase_string_array(params.config.get("allowed_elements"));
        let tal = match params.config.get("table_allowed_elements") {
            Some(v) => to_lowercase_string_array(Some(v)),
            None => to_lowercase_string_array(params.config.get("allowed_elements")),
        };
        let ghost alv = vec_views(al@);
        let ghost talv = vec_views(tal@);
        assert(alv == allowed(*params.config));
        assert(talv == table_allowed(*params.config));
        let names = self.names();
        let mut errors: Vec<LintError> = Vec::new();
        let n = tokens.len();
        let mut i: usize = 0;
        assert(errors_view(errors@) =~= seq![]);
        while i < n
            invariant
                n == tokens@.len(),
                i <= n,
                token_texts_fit(tokens@),
                md033_walks_end(tokens@),
                alv == vec_views(al@),
                talv == vec_views(tal@),
                names_view(names@) == md033_meta().names,
                errors_view(errors@) == md033_scan(tokens@, alv, talv, i as int),
            decreases n - i,
        {
            let token = &tokens[i];
            assert(byte_len(tokens@[i as int].text@) <= isize::MAX);
            if token.is_type("htmlText") {
                match get_html_tag_info(token.text.as_str()) {
                    Some(info) => {
                        if !info.close {
                            assert(opening_tag(tokens@, i as int));
                            let el = lowercase_vec(&chars_of(info.name.as_str()));
                            let in_table = has_parent_of_type(tokens, i, "table");
                            let should_error = (in_table || !contains_vec(&al, &el)) && (!in_table
                                || !contains_vec(&tal, &el));
                            if should_error {
                                let tv = chars_of(token.text.as_str());
                                let line = match find_in(&tv, "\n") {
                                    Some(k) => {
                                        let l = slice_chars(&tv, 0, k);
                                        if l.len() > 0 && l[l.len() - 1] == '\r' {
                                            slice_chars(&l, 0, l.len() - 1)
                                        } else {
                                            l
                                        }
                                    },
                                    None => tv,
                                };
                                proof {
                                    crate::text::lemma_find_from_bounds(tv@, "\n"@, 0);
                                    let k = find_from(tv@, "\n"@, 0);
                                    if k > 0 {
                                        crate::text::lemma_byte_len_take(tv@, k);
                                        crate::text::lemma_byte_len_take(tv@.take(k), k - 1);
                                        assert(tv@.take(k).drop_last() =~= tv@.take(k).take(k - 1));
                                    }
                                    if k == 0 {
                                        assert(tv@.take(k) =~= seq![]);
                                    }
                                }
                                assert(line@ =~= first_line(tv@));
                                let len = utf8_byte_len(&line);
                                let mut d = text("Element: ");
                                push_chars(&mut d, &chars_of(info.name.as_str()));
                                let mut e = LintError::new(token.start_line, &names, self.description(), self.information());
                                e.error_detail = Some(d);
                                e.error_range = Some((token.start_column, len));
                                e.suggestion = Some(text("Avoid using raw HTML in Markdown"));
                                let ghost b = errors_view(errors@);
                                errors.push(e);
                                assert(errors_view(errors@) =~= b.push(md033_error(*token, info.name@)));
                            }
                        }
                    },
                    None => {},
                }
            }
            i = i + 1;
        }
        errors
    }
}

/// The token reached from `i` by following `k` parent links, if each link
/// stays among the tokens.
pub open spec fn nth_parent(toks: Seq<Token>, i: int, k: nat) -> Option<int>
    decreases k,
{
    if k == 0 {
        if 0 <= i < toks.len() {
            Some(i)
        } else {
            None
        }
    } else {
        match nth_parent(toks, i, (k - 1) as nat) {
            Some(j) => match toks[j].parent {
                Some(p) => if p < toks.len() {
                    Some(p as int)
                } else {
                    None
                },
                None => None,
            },
            None => None,
        }
    }
}

proof fn lemma_nth_parent_shift(toks: Seq<Token>, i: int, p: usize, k: nat)
    requires
        0 <= i < toks.len(),
        toks[i].parent == Some(p),
        p < toks.len(),
    ensures
        nth_parent(toks, i, k + 1) == nth_parent(toks, p as int, k),
    decreases k,
{
    assert(nth_parent(toks, i, 0) == Some(i));
    if k > 0 {
        lemma_nth_parent_shift(toks, i, p, (k - 1) as nat);
        assert(((k + 1) - 1) as nat == k);
        assert(nth_parent(toks, i, k + 1) == match nth_parent(toks, i, k) {
            Some(j) => match toks[j].parent {
                Some(q) => if q < toks.len() {
                    Some(q as int)
                } else {
                    None
                },
                None => None,
            },
            None => None,
        });
    } else {
        assert(nth_parent(toks, i, 1) == Some(p as int));
        assert(nth_parent(toks, p as int, 0) == Some(p as int));
    }
}

proof fn lemma_nth_parent_none(toks: Seq<Token>, i: int, k: nat, m: nat)
    requires
        k <= m,
        nth_parent(toks, i, k) is None,
    ensures
        nth_parent(toks, i, m) is None,
    decreases m - k,
{
    if k < m {
        lemma_nth_parent_none(toks, i, k, (m - 1) as nat);
    }
}

/// The walk up from a token answers whether a proper ancestor has the type:
/// `Some(true)` when one within `fuel + 1` links has it, `Some(false)` when
/// none at all has it.
pub proof fn lemma_parent_walk_ancestor(toks: Seq<Token>, idx: int, ty: Seq<char>, fuel: nat)
    ensures
        parent_walk(toks, idx, ty, fuel) == Some(true) ==> exists|k: nat|
            1 <= k <= fuel + 1 && #[trigger] nth_parent(toks, idx, k) is Some && toks[nth_parent(
                toks,
                idx,
                k,
            ).unwrap()].token_type@ == ty,
        parent_walk(toks, idx, ty, fuel) == Some(false) ==> forall|k: nat|
            k >= 1 && #[trigger] nth_parent(toks, idx, k) is Some ==> toks[nth_parent(
                toks,
                idx,
                k,
            ).unwrap()].token_type@ != ty,
    decreases fuel,
{
    if 0 <= idx < toks.len() {
        assert(nth_parent(toks, idx, 0) == Some(idx));
        match toks[idx].parent {
            None => {
                assert(nth_parent(toks, idx, 1) is None);
                assert forall|k: nat| k >= 1 && #[trigger] nth_parent(toks, idx, k) is Some implies toks[nth_parent(
                    toks,
                    idx,
                    k,
                ).unwrap()].token_type@ != ty by {
                    lemma_nth_parent_none(toks, idx, 1, k);
                }
            },
            Some(p) => {
                if p >= toks.len() {
                    assert(nth_parent(toks, idx, 1) is None);
                    assert forall|k: nat| k >= 1 && #[trigger] nth_parent(toks, idx, k) is Some implies toks[nth_parent(
                        toks,
                        idx,
                        k,
                    ).unwrap()].token_type@ != ty by {
                        lemma_nth_parent_none(toks, idx, 1, k);
                    }
                } else if toks[p as int].token_type@ == ty {
                    assert(nth_parent(toks, idx, 1) == Some(p as int));
                } else if fuel > 0 {
                    lemma_parent_walk_ancestor(toks, p as int, ty, (fuel - 1) as nat);
                    if parent_walk(toks, idx, ty, fuel) == Some(true) {
                        let k = choose|k: nat|
                            1 <= k <= fuel && #[trigger] nth_parent(toks, p as int, k) is Some && toks[nth_parent(
                                toks,
                                p as int,
                                k,
                            ).unwrap()].token_type@ == ty;
                        lemma_nth_parent_shift(toks, idx, p, k);
                        assert(nth_parent(toks, idx, k + 1) is Some);
                    }
                    if parent_walk(toks, idx, ty, fuel) == Some(false) {
                        assert forall|k: nat| k >= 1 && #[trigger] nth_parent(toks, idx, k) is Some implies toks[nth_parent(
                            toks,
                            idx,
                            k,
                        ).unwrap()].token_type@ != ty by {
                            lemma_nth_parent_shift(toks, idx, p, (k - 1) as nat);
                            if k == 1 {
                                assert(nth_parent(toks, p as int, 0) == Some(p as int));
                            } else {
                                assert(nth_parent(toks, p as int, (k - 1) as nat) is Some);
                            }
                        }
                    }
                }
            },
        }
    } else {
        assert(nth_parent(toks, idx, 0) is None);
        assert forall|k: nat| k >= 1 && #[trigger] nth_parent(toks, idx, k) is Some implies toks[nth_parent(
            toks,
            idx,
            k,
        ).unwrap()].token_type@ != ty by {
            lemma_nth_parent_none(toks, idx, 0, k);
        }
    }
}

} // verus!
