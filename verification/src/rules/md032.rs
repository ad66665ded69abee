//! MD032 - Lists should be surrounded by blank lines.
//!
//! Every outermost list is checked (those reached from the root tokens
//! without passing through another list or an HTML block): the line before
//! the list and the line after its last content must be blank (HTML comments and `>` markers do not
//! count as content), unless the list starts or ends the document.

use vstd::prelude::*;
use crate::text::{
    chars_of, eq_str, find_from, find_in, lemma_find_from_bounds, push_str, slice_chars, string_of,
    text, trim, trim_end, trim_end_vec, trim_vec, views,
};
use crate::types::{
    base_error, errors_view, fix_view, lines_fit, names_view, opt_str, FixInfo, LintError,
    LintErrorView, ParserType, RuleMeta, RuleParams, Token,
};

verus! {

pub struct MD032;

pub open spec fn md032_meta() -> RuleMeta {
    RuleMeta {
        names: seq!["MD032"@, "blanks-around-lists"@],
        description: "Lists should be surrounded by blank lines"@,
        information: Some("https://github.com/DavidAnson/markdownlint/blob/main/doc/md032.md"@),
    }
}

/// The line with its HTML comments removed: an unmatched `-->` drops what
/// precedes it, a matched `<!-- ... -->` is cut out, an unmatched `<!--`
/// drops what follows it.
pub open spec fn strip_comments(s: Seq<char>) -> Seq<char>
    decreases s.len(),
{
    let a = find_from(s, "<!--"@, 0);
    let e = find_from(s, "-->"@, 0);
    if a < 0 && e >= 0 {
        proof {
            lemma_find_from_bounds(s, "-->"@, 0);
            reveal_strlit("-->");
        }
        strip_comments(s.skip(e + 3))
    } else if a >= 0 && e >= 0 && a < e {
        proof {
            lemma_find_from_bounds(s, "-->"@, 0);
            reveal_strlit("-->");
        }
        strip_comments(s.take(a) + s.skip(e + 3))
    } else if a >= 0 && e < 0 {
        proof {
            lemma_find_from_bounds(s, "<!--"@, 0);
            reveal_strlit("<!--");
        }
        strip_comments(s.take(a))
    } else {
        s
    }
}

/// `s` without any `c` (`str::replace(c, "")`).
pub open spec fn remove_char(s: Seq<char>, c: char) -> Seq<char>
    decreases s.len(),
{
    if s.len() == 0 {
        s
    } else if s.last() == c {
        remove_char(s.drop_last(), c)
    } else {
        remove_char(s.drop_last(), c).push(s.last())
    }
}

/// A line that is blank once comments, whitespace and `>` are removed.
pub open spec fn md032_blank(line: Seq<char>) -> bool {
    let s = strip_comments(line);
    s.len() == 0 || trim(s).len() == 0 || trim(remove_char(s, '>')).len() == 0
}

/// Check if a line is blank (empty or holding only whitespace, comments
/// and `>`).
pub fn is_blank_line(line: &str) -> (r: bool)
    ensures
        r == md032_blank(line@),
{
    let mut s = chars_of(line);
    proof {
        reveal_strlit("<!--");
        reveal_strlit("-->");
    }
    let mut done = false;
    while !done
        invariant
            strip_comments(s@) == strip_comments(line@),
            done ==> strip_comments(s@) == s@,
        decreases s@.len() + (if done {
            0int
        } else {
            1int
        }),
    {
        let start = find_in(&s, "<!--");
        let end = find_in(&s, "-->");
        let ghost s0 = s@;
        proof {
            reveal_strlit("<!--");
            reveal_strlit("-->");
            lemma_find_from_bounds(s@, "<!--"@, 0);
            lemma_find_from_bounds(s@, "-->"@, 0);
            assert("-->"@.len() == 3);
            assert("<!--"@.len() == 4);
        }
        if start.is_none() && end.is_some() {
            let e = end.unwrap();
            assert(end == Some(e));
            assert(e + "-->"@.len() <= s@.len());
            let len: usize = s.len();
            s = slice_chars(&s, e + 3, len);
            assert(s@ =~= s0.skip(e + 3));
        } else if start.is_some() && end.is_some() && start.unwrap() < end.unwrap() {
            let a = start.unwrap();
            let e = end.unwrap();
            let len: usize = s.len();
            assert(e + "-->"@.len() <= s@.len());
            let mut t = slice_chars(&s, 0, a);
            let mut rest = slice_chars(&s, e + 3, len);
            t.append(&mut rest);
            s = t;
            assert(s@ =~= s0.take(a as int) + s0.skip(e + 3));
        } else if start.is_some() && end.is_none() {
            let a = start.unwrap();
            s = slice_chars(&s, 0, a);
            assert(s@ =~= s0.take(a as int));
        } else {
            done = true;
        }
    }
    let t = trim_vec(&s);
    let mut u: Vec<char> = Vec::new();
    let mut i: usize = 0;
    while i < s.len()
        invariant
            i <= s@.len(),
            u@ == remove_char(s@.take(i as int), '>'),
        decreases s@.len() - i,
    {
        assert(s@.take(i + 1).drop_last() =~= s@.take(i as int));
        if s[i] != '>' {
            u.push(s[i]);
        }
        i = i + 1;
    }
    assert(s@.take(s@.len() as int) =~= s@);
    let w = trim_vec(&u);
    s.len() == 0 || t.len() == 0 || w.len() == 0
}

/// The token types that hold no content of their own.
pub open spec fn non_content_types() -> Seq<Seq<char>> {
    seq![
        "blockQuoteMarker"@,
        "blockQuotePrefix"@,
        "blockQuotePrefixWhitespace"@,
        "gfmFootnoteDefinitionIndent"@,
        "lineEnding"@,
        "lineEndingBlank"@,
        "linePrefix"@,
        "listItemIndent"@,
        "undefinedReference"@,
        "undefinedReferenceCollapsed"@,
        "undefinedReferenceFull"@,
        "undefinedReferenceShortcut"@,
    ]
}

/// Set of token types that do not contain actual content.
pub fn non_content_tokens() -> (r: Vec<&'static str>)
    ensures
        names_view(r@) == non_content_types(),
{
    let r = vec![
        "blockQuoteMarker",
        "blockQuotePrefix",
        "blockQuotePrefixWhitespace",
        "gfmFootnoteDefinitionIndent",
        "lineEnding",
        "lineEndingBlank",
        "linePrefix",
        "listItemIndent",
        "undefinedReference",
        "undefinedReferenceCollapsed",
        "undefinedReferenceFull",
        "undefinedReferenceShortcut",
    ];
    assert(names_view(r@) =~= non_content_types());
    r
}

/// `ty` is one of `set`.
fn type_in(set: &Vec<&'static str>, ty: &String) -> (r: bool)
    ensures
        r == names_view(set@).contains(ty@),
{
    let v = chars_of(ty.as_str());
    let mut i: usize = 0;
    while i < set.len()
        invariant
            i <= set@.len(),
            v@ == ty@,
            forall|j: int| 0 <= j < i ==> (#[trigger] set@[j])@ != ty@,
        decreases set@.len() - i,
    {
        if eq_str(&v, set[i]) {
            assert(names_view(set@)[i as int] == ty@);
            return true;
        }
        i = i + 1;
    }
    proof {
        if names_view(set@).contains(ty@) {
            let j = choose|j: int| 0 <= j < names_view(set@).len() && names_view(set@)[j] == ty@;
            assert(set@[j]@ == ty@);
        }
    }
    false
}

pub open spec fn token_is_list(t: Token) -> bool {
    t.token_type@ == "listOrdered"@ || t.token_type@ == "listUnordered"@
}

/// Check if token is a list.
pub fn is_list(token: &Token) -> (r: bool)
    ensures
        r == token_is_list(*token),
{
    token.is_type("listOrdered") || token.is_type("listUnordered")
}

/// What a walk over the token tree collects, and where it stops descending.
#[derive(Clone, Copy, Debug, PartialEq, Eq, Structural)]
pub enum Selector {
    /// Collect lists; do not descend into lists or HTML blocks.
    TopLevelLists,
    /// Collect tokens with content; do not descend into the others.
    Content,
}

pub open spec fn sel_allowed(sel: Selector, t: Token) -> bool {
    match sel {
        Selector::TopLevelLists => token_is_list(t),
        Selector::Content => !non_content_types().contains(t.token_type@),
    }
}

pub open spec fn sel_children(sel: Selector, t: Token) -> Seq<usize> {
    match sel {
        Selector::TopLevelLists => if token_is_list(t) || t.token_type@ == "htmlFlow"@ {
            seq![]
        } else {
            t.children@
        },
        Selector::Content => if non_content_types().contains(t.token_type@) {
            seq![]
        } else {
            t.children@
        },
    }
}

/// The tokens of batch `b` that are collected, in order.
pub open spec fn batch_allowed(toks: Seq<Token>, sel: Selector, b: Seq<usize>, k: int) -> Seq<usize>
    decreases k,
{
    if k <= 0 {
        seq![]
    } else {
        let prev = batch_allowed(toks, sel, b, k - 1);
        let t = b[k - 1];
        if t < toks.len() && sel_allowed(sel, toks[t as int]) {
            prev.push(t)
        } else {
            prev
        }
    }
}

/// A depth-first walk: the collected tokens of the batch, then the walks of
/// the children of its tokens, last token first, going at most `fuel`
/// levels further down.
pub open spec fn walk_batch(toks: Seq<Token>, sel: Selector, b: Seq<usize>, fuel: nat) -> Seq<usize>
    decreases fuel, b.len() + 1,
{
    batch_allowed(toks, sel, b, b.len() as int) + walk_rev(toks, sel, b, fuel, b.len() as int)
}

/// The walk below token `t`, if it is in the list.
pub open spec fn walk_below(toks: Seq<Token>, sel: Selector, t: int, fuel: nat) -> Seq<usize>
    decreases fuel, 0nat,
{
    if 0 <= t < toks.len() && fuel > 0 {
        walk_batch(toks, sel, sel_children(sel, toks[t]), (fuel - 1) as nat)
    } else {
        seq![]
    }
}

pub open spec fn walk_rev(toks: Seq<Token>, sel: Selector, b: Seq<usize>, fuel: nat, k: int) -> Seq<usize>
    decreases fuel, k,
{
    if k <= 0 {
        seq![]
    } else {
        walk_below(toks, sel, b[k - 1] as int, fuel) + walk_rev(toks, sel, b, fuel, k - 1)
    }
}

/// The walk from the first `k` of batch `b` reaches no token with children
/// to visit after `fuel` levels.
pub open spec fn walk_ends_rev(toks: Seq<Token>, sel: Selector, b: Seq<usize>, fuel: nat, k: int) -> bool
    decreases fuel, k,
{
    if k <= 0 {
        true
    } else {
        let t = b[k - 1] as int;
        &&& walk_ends_rev(toks, sel, b, fuel, k - 1)
        &&& 0 <= t < toks.len() ==> (sel_children(sel, toks[t]).len() == 0 || (fuel > 0
            && walk_ends(toks, sel, sel_children(sel, toks[t]), (fuel - 1) as nat)))
    }
}

/// The walk from batch `b` ends within `fuel` levels.
pub open spec fn walk_ends(toks: Seq<Token>, sel: Selector, b: Seq<usize>, fuel: nat) -> bool
    decreases fuel, b.len() + 1,
{
    walk_ends_rev(toks, sel, b, fuel, b.len() as int)
}

/// The walks of the children of the batch's tokens from index `k` on, last
/// token first.
pub open spec fn walk_rev_top(toks: Seq<Token>, sel: Selector, b: Seq<usize>, fuel: nat, k: int) -> Seq<
    usize,
>
    decreases b.len() - k,
{
    if k < 0 || k >= b.len() {
        seq![]
    } else {
        walk_rev_top(toks, sel, b, fuel, k + 1) + walk_below(toks, sel, b[k] as int, fuel)
    }
}

proof fn lemma_walk_rev_top(toks: Seq<Token>, sel: Selector, b: Seq<usize>, fuel: nat, k: int)
    requires
        0 <= k <= b.len(),
    ensures
        walk_rev_top(toks, sel, b, fuel, k) + walk_rev(toks, sel, b, fuel, k) == walk_rev(
            toks,
            sel,
            b,
            fuel,
            b.len() as int,
        ),
    decreases b.len() - k,
{
    if k < b.len() {
        lemma_walk_rev_top(toks, sel, b, fuel, k + 1);
        let sub = walk_below(toks, sel, b[k] as int, fuel);
        assert(walk_rev(toks, sel, b, fuel, k + 1) == sub + walk_rev(toks, sel, b, fuel, k));
        assert(walk_rev_top(toks, sel, b, fuel, k) == walk_rev_top(toks, sel, b, fuel, k + 1) + sub);
        assert(walk_rev_top(toks, sel, b, fuel, k) + walk_rev(toks, sel, b, fuel, k) =~= walk_rev_top(
            toks,
            sel,
            b,
            fuel,
            k + 1,
        ) + walk_rev(toks, sel, b, fuel, k + 1));
    } else {
        assert(walk_rev_top(toks, sel, b, fuel, k) + walk_rev(toks, sel, b, fuel, k) =~= walk_rev(
            toks,
            sel,
            b,
            fuel,
            k,
        ));
    }
}

proof fn lemma_walk_ends_prefix(toks: Seq<Token>, sel: Selector, b: Seq<usize>, fuel: nat, k: int, m: int)
    requires
        0 <= k <= m,
        walk_ends_rev(toks, sel, b, fuel, m),
    ensures
        walk_ends_rev(toks, sel, b, fuel, k),
    decreases m - k,
{
    if k < m {
        lemma_walk_ends_prefix(toks, sel, b, fuel, k, m - 1);
    }
}

fn walk(
    tokens: &[Token],
    sel: Selector,
    set: &Vec<&'static str>,
    batch: &Vec<usize>,
    fuel: usize,
    result: &mut Vec<usize>,
)
    requires
        walk_ends(tokens@, sel, batch@, fuel as nat),
        names_view(set@) == non_content_types(),
    ensures
        final(result)@ == old(result)@ + walk_batch(tokens@, sel, batch@, fuel as nat),
    decreases fuel, batch@.len() + 1,
{
    let ghost r0 = result@;
    let m = batch.len();
    let mut i: usize = 0;
    while i < m
        invariant
            m == batch@.len(),
            i <= m,
            result@ == r0 + batch_allowed(tokens@, sel, batch@, i as int),
            names_view(set@) == non_content_types(),
        decreases m - i,
    {
        let t = batch[i];
        if t < tokens.len() {
            let tok = &tokens[t];
            let ok = match sel {
                Selector::TopLevelLists => is_list(tok),
                Selector::Content => !type_in(set, &tok.token_type),
            };
            if ok {
                result.push(t);
            }
        }
        i = i + 1;
        assert(result@ =~= r0 + batch_allowed(tokens@, sel, batch@, i as int));
    }
    let ghost r1 = result@;
    let empty: Vec<usize> = Vec::new();
    let mut k: usize = m;
    assert(r1 =~= r1 + walk_rev_top(tokens@, sel, batch@, fuel as nat, k as int));
    while k > 0
        invariant
            m == batch@.len(),
            k <= m,
            walk_ends_rev(tokens@, sel, batch@, fuel as nat, m as int),
            names_view(set@) == non_content_types(),
            empty@.len() == 0,
            result@ == r1 + walk_rev_top(tokens@, sel, batch@, fuel as nat, k as int),
        decreases k,
    {
        let t = batch[k - 1];
        let ghost before = result@;
        proof {
            lemma_walk_ends_prefix(tokens@, sel, batch@, fuel as nat, k as int, m as int);
        }
        if t < tokens.len() && fuel > 0 {
            let tok = &tokens[t];
            let stop = match sel {
                Selector::TopLevelLists => is_list(tok) || tok.is_type("htmlFlow"),
                Selector::Content => type_in(set, &tok.token_type),
            };
            let ch: &Vec<usize> = if stop {
                &empty
            } else {
                &tok.children
            };
            assert(ch@ =~= sel_children(sel, tokens@[t as int]));
            assert(walk_ends(tokens@, sel, ch@, (fuel - 1) as nat)) by {
                if ch@.len() == 0 {
                    assert(walk_ends_rev(tokens@, sel, ch@, (fuel - 1) as nat, 0));
                }
            }
            walk(tokens, sel, set, ch, fuel - 1, result);
        }
        k = k - 1;
        assert(result@ =~= r1 + walk_rev_top(tokens@, sel, batch@, fuel as nat, k as int));
    }
    proof {
        lemma_walk_rev_top(tokens@, sel, batch@, fuel as nat, 0);
        assert(walk_rev(tokens@, sel, batch@, fuel as nat, 0) == Seq::<usize>::empty());
    }
    assert(result@ =~= r0 + walk_batch(tokens@, sel, batch@, fuel as nat));
}

/// Filter tokens by a selector: a depth-first walk from `token_indices`
/// that collects the selected tokens and descends where the selector allows.
pub fn filter_by_predicate(tokens: &[Token], token_indices: &Vec<usize>, sel: Selector) -> (r: Vec<usize>)
    requires
        walk_ends(tokens@, sel, token_indices@, tokens@.len() as nat),
    ensures
        r@ == walk_batch(tokens@, sel, token_indices@, tokens@.len() as nat),
{
    let set = non_content_tokens();
    let mut r: Vec<usize> = Vec::new();
    walk(tokens, sel, &set, token_indices, tokens.len(), &mut r);
    assert(r@ =~= walk_batch(tokens@, sel, token_indices@, tokens@.len() as nat));
    r
}

/// The text of the prefix tokens (block quote and line prefixes) among the
/// first `k` tokens that start on line `ln`.
pub open spec fn bq_text(toks: Seq<Token>, ln: int, k: int) -> Seq<char>
    decreases k,
{
    if k <= 0 {
        seq![]
    } else {
        let t = toks[k - 1];
        bq_text(toks, ln, k - 1) + if (t.token_type@ == "blockQuotePrefix"@ || t.token_type@
            == "linePrefix"@) && t.start_line == ln {
            t.text@
        } else {
            seq![]
        }
    }
}

/// The prefix that a blank line inserted at line `ln` needs, and its line
/// ending.
pub open spec fn bq_prefix(toks: Seq<Token>, ln: int) -> Seq<char> {
    trim_end(bq_text(toks, ln, toks.len() as int)) + "\n"@
}

/// Get blockquote prefix text for inserting blank lines.
pub fn get_blockquote_prefix(tokens: &[Token], line_number: usize) -> (r: String)
    ensures
        r@ == bq_prefix(tokens@, line_number as int),
{
    let mut acc: Vec<char> = Vec::new();
    let mut k: usize = 0;
    while k < tokens.len()
        invariant
            k <= tokens@.len(),
            acc@ == bq_text(tokens@, line_number as int, k as int),
        decreases tokens@.len() - k,
    {
        let t = &tokens[k];
        if (t.is_type("blockQuotePrefix") || t.is_type("linePrefix")) && t.start_line == line_number {
            let tv = chars_of(t.text.as_str());
            let mut i: usize = 0;
            let ghost a0 = acc@;
            while i < tv.len()
                invariant
                    i <= tv@.len(),
                    acc@ == a0 + tv@.take(i as int),
                decreases tv@.len() - i,
            {
                acc.push(tv[i]);
                i = i + 1;
                assert(acc@ =~= a0 + tv@.take(i as int));
            }
            assert(tv@.take(tv@.len() as int) =~= tv@);
        }
        k = k + 1;
        assert(acc@ =~= bq_text(tokens@, line_number as int, k as int));
    }
    let t = trim_end_vec(&acc);
    let mut r = string_of(&t);
    push_str(&mut r, "\n");
    r
}

/// Where the content of the list at `li` ends: the end of its last content
/// token, or of the list itself.
pub open spec fn list_end_line(toks: Seq<Token>, li: int) -> usize {
    let list = toks[li];
    let flat = walk_batch(toks, Selector::Content, list.children@, toks.len() as nat);
    if flat.len() > 0 && flat.last() < toks.len() {
        toks[flat.last() as int].end_line
    } else {
        list.end_line
    }
}

pub open spec fn md032_error(ln: int, context: Seq<char>, fix_line: int, insert: Seq<char>) -> LintErrorView {
    LintErrorView {
        context: Some(context),
        fix: Some(fix_view(Some(fix_line as usize), Some(1), None, Some(insert))),
        suggestion: Some("Lists should be surrounded by blank lines"@),
        ..base_error(md032_meta(), ln)
    }
}

pub open spec fn md032_list_errors(ls: Seq<Seq<char>>, toks: Seq<Token>, li: int) -> Seq<LintErrorView> {
    let list = toks[li];
    let first = list.start_line as int;
    let before = if first > 1 && first - 2 < ls.len() && !md032_blank(ls[first - 2]) {
        seq![
            md032_error(
                first,
                if first - 1 < ls.len() {
                    trim(ls[first - 1])
                } else {
                    seq![]
                },
                first,
                bq_prefix(toks, first),
            ),
        ]
    } else {
        seq![]
    };
    let last = list_end_line(toks, li) as int;
    let after = if last < ls.len() && !md032_blank(ls[last]) {
        seq![
            md032_error(
                last,
                if last > 0 && last - 1 < ls.len() {
                    trim(ls[last - 1])
                } else {
                    seq![]
                },
                last + 1,
                bq_prefix(toks, last),
            ),
        ]
    } else {
        seq![]
    };
    before + after
}

pub open spec fn md032_report(ls: Seq<Seq<char>>, toks: Seq<Token>, top: Seq<usize>, k: int) -> Seq<LintErrorView>
    decreases k,
{
    if k <= 0 {
        seq![]
    } else {
        md032_report(ls, toks, top, k - 1) + if top[k - 1] < toks.len() {
            md032_list_errors(ls, toks, top[k - 1] as int)
        } else {
            seq![]
        }
    }
}

/// The indices of the root tokens (those without a parent) among the
/// first `n`, in order: the walk for the outermost lists starts there.
pub open spec fn root_indices(toks: Seq<Token>, n: int) -> Seq<usize>
    decreases n,
{
    if n <= 0 {
        seq![]
    } else if toks[n - 1].parent is None {
        root_indices(toks, n - 1).push((n - 1) as usize)
    } else {
        root_indices(toks, n - 1)
    }
}

/// The findings of MD032.
pub open spec fn md032_errors(ls: Seq<Seq<char>>, toks: Seq<Token>) -> Seq<LintErrorView> {
    let top = walk_batch(toks, Selector::TopLevelLists, root_indices(toks, toks.len() as int), toks.len() as nat);
    md032_report(ls, toks, top, top.len() as int)
}

/// The walks end: the one from the root tokens for the outermost lists, and the
/// one over the content of each such list (they do wherever the children
/// links form no cycle).
pub open spec fn md032_walks_end(toks: Seq<Token>) -> bool {
    let top = walk_batch(toks, Selector::TopLevelLists, root_indices(toks, toks.len() as int), toks.len() as nat);
    &&& walk_ends(toks, Selector::TopLevelLists, root_indices(toks, toks.len() as int), toks.len() as nat)
    &&& forall|j: int|
        0 <= j < top.len() && #[trigger] top[j] < toks.len() ==> walk_ends(
            toks,
            Selector::Content,
            toks[top[j] as int].children@,
            toks.len() as nat,
        )
}

/// No list starts just past the end of the document after a line with
/// content (the context of that finding would be read past the last line).
pub open spec fn md032_in_document(ls: Seq<Seq<char>>, toks: Seq<Token>) -> bool {
    forall|i: int|
        0 <= i < toks.len() && token_is_list(#[trigger] toks[i]) && toks[i].start_line == ls.len()
            + 1 && ls.len() >= 1 ==> md032_blank(ls[ls.len() - 1])
}

impl MD032 {
    pub fn names(&self) -> (r: Vec<&'static str>)
        ensures
            names_view(r@) == md032_meta().names,
    {
        let r = vec!["MD032", "blanks-around-lists"];
        assert(names_view(r@) =~= md032_meta().names);
        r
    }

    pub fn description(&self) -> (r: &'static str)
        ensures
            r@ == md032_meta().description,
    {
        "Lists should be surrounded by blank lines"
    }

    pub fn tags(&self) -> (r: Vec<&'static str>)
        ensures
            names_view(r@) == seq!["bullet"@, "ul"@, "ol"@, "blank_lines"@, "fixable"@],
    {
        let r = vec!["bullet", "ul", "ol", "blank_lines", "fixable"];
        assert(names_view(r@) =~= seq!["bullet"@, "ul"@, "ol"@, "blank_lines"@, "fixable"@]);
        r
    }

    pub fn parser_type(&self) -> (r: ParserType)
        ensures
            r == ParserType::Micromark,
    {
        ParserType::Micromark
    }

    pub fn information(&self) -> (r: Option<&'static str>)
        ensures
            opt_str(r) == md032_meta().information,
    {
        Some("https://github.com/DavidAnson/markdownlint/blob/main/doc/md032.md")
    }

    pub fn lint(&self, params: &RuleParams) -> (errors: Vec<LintError>)
        requires
            lines_fit(params.lines@),
            md032_walks_end(params.tokens@),
            md032_in_document(views(params.lines@), params.tokens@),
        ensures
            errors_view(errors@) == md032_errors(views(params.lines@), params.tokens@),
    {
        let lines = params.lines;
        let tokens = params.tokens;
        let ghost ls = views(lines@);
        let n = tokens.len();
        let mut roots: Vec<usize> = Vec::new();
        let mut i: usize = 0;
        while i < n
            invariant
                i <= n,
                n == tokens@.len(),
                roots@ == root_indices(tokens@, i as int),
            decreases n - i,
        {
            if tokens[i].parent.is_none() {
                roots.push(i);
            }
            i = i + 1;
        }
        let top = filter_by_predicate(tokens, &roots, Selector::TopLevelLists);
        let names = self.names();
        let mut errors: Vec<LintError> = Vec::new();
        let m = top.len();
        let mut k: usize = 0;
        assert(errors_view(errors@) =~= seq![]);
        while k < m
            invariant
                m == top@.len(),
                k <= m,
                ls == views(lines@),
                lines_fit(lines@),
                md032_walks_end(tokens@),
                top@ == walk_batch(tokens@, Selector::TopLevelLists, root_indices(tokens@, tokens@.len() as int), tokens@.len() as nat),
                names_view(names@) == md032_meta().names,
                errors_view(errors@) == md032_report(ls, tokens@, top@, k as int),
            decreases m - k,
        {
            let li = top[k];
            let ghost e0 = errors_view(errors@);
            if li < tokens.len() {
                let list = &tokens[li];
                let first = list.start_line;
                if first > 1 && first - 2 < lines.len() && !is_blank_line(lines[first - 2]) {
                    let context = if first - 1 < lines.len() {
                        let v = chars_of(lines[first - 1]);
                        string_of(&trim_vec(&v))
                    } else {
                        String::new()
                    };
                    let ins = get_blockquote_prefix(tokens, first);
                    let mut e = LintError::new(first, &names, self.description(), self.information());
                    e.error_context = Some(context);
                    e.fix_info = Some(
                        FixInfo {
                            line_number: Some(first),
                            edit_column: Some(1),
                            delete_count: None,
                            insert_text: Some(ins),
                        },
                    );
                    e.suggestion = Some(text("Lists should be surrounded by blank lines"));
                    errors.push(e);
                }
                let ghost e1 = errors_view(errors@);
                assert(top@[k as int] < tokens@.len());
                let flat = filter_by_predicate(tokens, &list.children, Selector::Content);
                let end_line = if flat.len() > 0 && flat[flat.len() - 1] < tokens.len() {
                    tokens[flat[flat.len() - 1]].end_line
                } else {
                    list.end_line
                };
                assert(end_line == list_end_line(tokens@, li as int));
                let last = end_line;
                if last < lines.len() && !is_blank_line(lines[last]) {
                    let context = if last > 0 && last - 1 < lines.len() {
                        let v = chars_of(lines[last - 1]);
                        string_of(&trim_vec(&v))
                    } else {
                        String::new()
                    };
                    let ins = get_blockquote_prefix(tokens, last);
                    let mut e = LintError::new(last, &names, self.description(), self.information());
                    e.error_context = Some(context);
                    e.fix_info = Some(
                        FixInfo {
                            line_number: Some(last + 1),
                            edit_column: Some(1),
                            delete_count: None,
                            insert_text: Some(ins),
                        },
                    );
                    e.suggestion = Some(text("Lists should be surrounded by blank lines"));
                    errors.push(e);
                }
                assert(errors_view(errors@) =~= e0 + md032_list_errors(ls, tokens@, li as int));
            }
            k = k + 1;
            assert(errors_view(errors@) =~= md032_report(ls, tokens@, top@, k as int));
        }
        errors
    }
}

proof fn lemma_bq_text_empty(toks: Seq<Token>, ln: int, k: int)
    requires
        forall|i: int|
            0 <= i < toks.len() && #[trigger] toks[i].start_line == ln ==> toks[i].token_type@ != "blockQuotePrefix"@
                && toks[i].token_type@ != "linePrefix"@,
        k <= toks.len(),
    ensures
        bq_text(toks, ln, k) == Seq::<char>::empty(),
    decreases k,
{
    if k > 0 {
        lemma_bq_text_empty(toks, ln, k - 1);
        assert(bq_text(toks, ln, k) =~= bq_text(toks, ln, k - 1));
    }
}

/// On a line with no blockquote or line prefix token, the prefix for an
/// inserted blank line is a line feed alone.
pub proof fn lemma_bq_prefix_plain(toks: Seq<Token>, ln: int)
    requires
        forall|i: int|
            0 <= i < toks.len() && #[trigger] toks[i].start_line == ln ==> toks[i].token_type@ != "blockQuotePrefix"@
                && toks[i].token_type@ != "linePrefix"@,
    ensures
        bq_prefix(toks, ln) == "\n"@,
        bq_prefix(toks, ln).len() == 1,
{
    lemma_bq_text_empty(toks, ln, toks.len() as int);
    let e: Seq<char> = seq![];
    assert(trim_end(e) == e);
    assert(e + "\n"@ =~= "\n"@);
    reveal_strlit("\n");
}

} // verus!
