//! MD036 - Emphasis used instead of a heading.
//!
//! A top-level paragraph whose only content is one emphasis (or strong)
//! span of plain text, not ending in punctuation, is reported; the fix turns
//! the span into a level-2 heading. The `punctuation` option gives the
//! punctuation characters.

use vstd::prelude::*;
use crate::text::{chars_of, push_str, string_of, text, trim, trim_vec};
use crate::types::{
    base_error, errors_view, fix_view, names_view, opt_str, FixInfo, FixView, LintError,
    LintErrorView, ParserType, RuleMeta, RuleParams, Token,
};
use crate::config::{value_as_str, Config};
use crate::pattern::{compile, escape, is_match, regex_compiles, regex_escape, regex_is_match};

verus! {

pub struct MD036;

pub open spec fn md036_meta() -> RuleMeta {
    RuleMeta {
        names: seq!["MD036"@, "no-emphasis-as-heading"@],
        description: "Emphasis used instead of a heading"@,
        information: Some("https://github.com/DavidAnson/markdownlint/blob/main/doc/md036.md"@),
    }
}

/// The default punctuation.
pub open spec fn all_punctuation() -> Seq<char> {
    ".,;:!?。，；：！？"@
}

pub open spec fn md036_punctuation(c: Config) -> Seq<char> {
    match value_as_str(c.lookup("punctuation"@)) {
        Some(s) => s,
        None => all_punctuation(),
    }
}

/// A pattern for text ending in one of the punctuation characters.
pub open spec fn punct_pattern(c: Config) -> Seq<char> {
    "["@ + regex_escape(md036_punctuation(c)) + "]$"@
}

pub open spec fn meaningful(t: Token) -> bool {
    !(t.token_type@ == "htmlText"@ || (t.token_type@ == "data"@ && trim(t.text@).len() == 0))
}

/// Check if a paragraph child token is meaningful (not HTML and not blank
/// data).
pub fn is_paragraph_child_meaningful(token: &Token) -> (r: bool)
    ensures
        r == meaningful(*token),
{
    if token.is_type("htmlText") {
        return false;
    }
    if token.is_type("data") {
        let v = chars_of(token.text.as_str());
        let t = trim_vec(&v);
        return t.len() != 0;
    }
    true
}

/// How many of the first `k` children `ch` are meaningful tokens.
pub open spec fn meaningful_count(toks: Seq<Token>, ch: Seq<usize>, k: int) -> int
    decreases k,
{
    if k <= 0 {
        0
    } else {
        meaningful_count(toks, ch, k - 1) + if ch[k - 1] < toks.len() && meaningful(
            toks[ch[k - 1] as int],
        ) {
            1int
        } else {
            0int
        }
    }
}

/// A paragraph directly in top-level content (or in content of a top-level
/// HTML block) with exactly one meaningful child.
pub open spec fn para_ok(toks: Seq<Token>, p: Token) -> bool {
    match p.parent {
        Some(pi) => {
            &&& pi < toks.len()
            &&& toks[pi as int].token_type@ == "content"@
            &&& match toks[pi as int].parent {
                Some(gi) => gi < toks.len() && toks[gi as int].token_type@ == "htmlFlow"@
                    && toks[gi as int].parent is None,
                None => true,
            }
            &&& meaningful_count(toks, p.children@, p.children@.len() as int) == 1
        },
        None => false,
    }
}

/// The qualifying paragraphs among the first `n` tokens.
pub open spec fn md036_paras(toks: Seq<Token>, n: int) -> Seq<usize>
    decreases n,
{
    if n <= 0 {
        seq![]
    } else {
        let prev = md036_paras(toks, n - 1);
        let t = toks[n - 1];
        if t.token_type@ == "paragraph"@ && para_ok(toks, t) {
            prev.push((n - 1) as usize)
        } else {
            prev
        }
    }
}

/// A depth-first search from the first `k` of `s`, last first: each token
/// of type `ty0` or `ty1`, then those below it, going at most `fuel` levels
/// further down.
pub open spec fn desc_search(toks: Seq<Token>, ty0: Seq<char>, ty1: Seq<char>, s: Seq<usize>, fuel: nat, k: int) -> Seq<usize>
    decreases fuel, k,
{
    if k <= 0 {
        seq![]
    } else {
        let x = s[k - 1] as int;
        let sub = if 0 <= x < toks.len() {
            let t = toks[x];
            (if t.token_type@ == ty0 || t.token_type@ == ty1 {
                seq![x as usize]
            } else {
                seq![]
            }) + if fuel > 0 {
                desc_search(toks, ty0, ty1, t.children@, (fuel - 1) as nat, t.children@.len() as int)
            } else {
                seq![]
            }
        } else {
            seq![]
        };
        sub + desc_search(toks, ty0, ty1, s, fuel, k - 1)
    }
}

/// The walk down from the first `k` of `s` reaches no token with children
/// after `fuel` levels.
pub open spec fn walk_ends(toks: Seq<Token>, s: Seq<usize>, fuel: nat, k: int) -> bool
    decreases fuel, k,
{
    if k <= 0 {
        true
    } else {
        let x = s[k - 1] as int;
        &&& walk_ends(toks, s, fuel, k - 1)
        &&& 0 <= x < toks.len() ==> (toks[x].children@.len() == 0 || (fuel > 0 && walk_ends(
            toks,
            toks[x].children@,
            (fuel - 1) as nat,
            toks[x].children@.len() as int,
        )))
    }
}

/// For every paragraph looked into, the walk down its descendants ends
/// within as many levels as there are tokens (it does wherever the
/// children links form no cycle).
pub open spec fn md036_walks_end(toks: Seq<Token>) -> bool {
    forall|i: int|
        0 <= i < toks.len() && (#[trigger] toks[i]).token_type@ == "paragraph"@ && para_ok(toks, toks[i])
            ==> walk_ends(toks, toks[i].children@, toks.len() as nat, toks[i].children@.len() as int)
}

/// Get all descendant tokens of one of two types, depth first.
pub fn get_descendants_by_types(tokens: &[Token], parent: &Token, ty0: &str, ty1: &str) -> (r: Vec<usize>)
    requires
        walk_ends(tokens@, parent.children@, tokens@.len() as nat, parent.children@.len() as int),
    ensures
        r@ == desc_search(tokens@, ty0@, ty1@, parent.children@, tokens@.len() as nat, parent.children@.len() as int),
{
    let mut r: Vec<usize> = Vec::new();
    search(tokens, ty0, ty1, &parent.children, tokens.len(), &mut r);
    assert(r@ =~= desc_search(tokens@, ty0@, ty1@, parent.children@, tokens@.len() as nat, parent.children@.len() as int));
    r
}

fn search(tokens: &[Token], ty0: &str, ty1: &str, s: &Vec<usize>, fuel: usize, out: &mut Vec<usize>)
    requires
        walk_ends(tokens@, s@, fuel as nat, s@.len() as int),
    ensures
        final(out)@ == old(out)@ + desc_search(tokens@, ty0@, ty1@, s@, fuel as nat, s@.len() as int),
    decreases fuel, s@.len(),
{
    let ghost o0 = out@;
    let mut k: usize = s.len();
    while k > 0
        invariant
            k <= s@.len(),
            walk_ends(tokens@, s@, fuel as nat, k as int),
            out@ + desc_search(tokens@, ty0@, ty1@, s@, fuel as nat, k as int) == o0 + desc_search(
                tokens@,
                ty0@,
                ty1@,
                s@,
                fuel as nat,
                s@.len() as int,
            ),
        decreases k,
    {
        let x = s[k - 1];
        let ghost before = out@;
        if x < tokens.len() {
            let t = &tokens[x];
            if t.is_type(ty0) || t.is_type(ty1) {
                out.push(x);
            }
            if fuel > 0 {
                search(tokens, ty0, ty1, &t.children, fuel - 1, out);
            }
        }
        k = k - 1;
        assert(out@ + desc_search(tokens@, ty0@, ty1@, s@, fuel as nat, k as int) =~= before + desc_search(
            tokens@,
            ty0@,
            ty1@,
            s@,
            fuel as nat,
            k + 1,
        ));
    }
}

/// The fix for a reported text: the enclosing span, markers included,
/// becomes a level-2 heading.
pub open spec fn md036_fix(toks: Seq<Token>, t: Token, ty0: Seq<char>) -> Option<FixView> {
    match t.parent {
        Some(pi) => if pi < toks.len() && toks[pi as int].token_type@ == ty0 {
            let p = toks[pi as int];
            Some(
                fix_view(
                    None,
                    Some(p.start_column),
                    Some((p.end_column - p.start_column) as i32),
                    Some("## "@ + t.text@),
                ),
            )
        } else {
            None
        },
        None => None,
    }
}

/// The text token is a lone piece of plain text not ending in punctuation.
pub open spec fn md036_flagged(toks: Seq<Token>, t: Token, c: Config) -> bool {
    &&& t.children@.len() == 1
    &&& t.children@[0] < toks.len()
    &&& toks[t.children@[0] as int].token_type@ == "data"@
    &&& !regex_is_match(punct_pattern(c), t.text@)
}

pub open spec fn md036_error(toks: Seq<Token>, t: Token, ty0: Seq<char>) -> LintErrorView {
    LintErrorView {
        context: Some(t.text@),
        fix: md036_fix(toks, t, ty0),
        ..base_error(md036_meta(), t.start_line as int)
    }
}

/// The findings for the first `k` texts `ds`.
pub open spec fn text_errors(toks: Seq<Token>, ds: Seq<usize>, ty0: Seq<char>, c: Config, k: int) -> Seq<LintErrorView>
    decreases k,
{
    if k <= 0 {
        seq![]
    } else {
        let prev = text_errors(toks, ds, ty0, c, k - 1);
        let t = toks[ds[k - 1] as int];
        if md036_flagged(toks, t, c) {
            prev.push(md036_error(toks, t, ty0))
        } else {
            prev
        }
    }
}

/// The findings for one span type in the first `k` paragraphs.
pub open spec fn type_errors(toks: Seq<Token>, paras: Seq<usize>, ty0: Seq<char>, ty1: Seq<char>, c: Config, k: int) -> Seq<LintErrorView>
    decreases k,
{
    if k <= 0 {
        seq![]
    } else {
        let p = toks[paras[k - 1] as int];
        let ds = desc_search(toks, ty0, ty1, p.children@, toks.len() as nat, p.children@.len() as int);
        type_errors(toks, paras, ty0, ty1, c, k - 1) + text_errors(toks, ds, ty0, c, ds.len() as int)
    }
}

/// The findings of MD036 (none where the punctuation pattern is refused).
pub open spec fn md036_errors(toks: Seq<Token>, c: Config) -> Seq<LintErrorView> {
    if regex_compiles(punct_pattern(c)) {
        let paras = md036_paras(toks, toks.len() as int);
        type_errors(toks, paras, "emphasis"@, "emphasisText"@, c, paras.len() as int) + type_errors(
            toks,
            paras,
            "strong"@,
            "strongText"@,
            c,
            paras.len() as int,
        )
    } else {
        seq![]
    }
}

/// The fix of a reported text can be computed: an enclosing span of the
/// searched type runs forwards (its width is taken as `end - start`).
pub open spec fn fix_computable(toks: Seq<Token>, t: Token, ty0: Seq<char>) -> bool {
    match t.parent {
        Some(pi) => (pi < toks.len() && toks[pi as int].token_type@ == ty0) ==> toks[pi as int].start_column
            <= toks[pi as int].end_column,
        None => true,
    }
}

/// Every reported text among the first `k` of `ds` has a computable fix.
pub open spec fn texts_safe(toks: Seq<Token>, ds: Seq<usize>, ty0: Seq<char>, c: Config, k: int) -> bool
    decreases k,
{
    if k <= 0 {
        true
    } else {
        &&& texts_safe(toks, ds, ty0, c, k - 1)
        &&& md036_flagged(toks, toks[ds[k - 1] as int], c) ==> fix_computable(toks, toks[ds[k - 1] as int], ty0)
    }
}

/// Every reported text of one span type in the first `k` paragraphs has a
/// computable fix.
pub open spec fn types_safe(toks: Seq<Token>, paras: Seq<usize>, ty0: Seq<char>, ty1: Seq<char>, c: Config, k: int) -> bool
    decreases k,
{
    if k <= 0 {
        true
    } else {
        let p = toks[paras[k - 1] as int];
        let ds = desc_search(toks, ty0, ty1, p.children@, toks.len() as nat, p.children@.len() as int);
        &&& types_safe(toks, paras, ty0, ty1, c, k - 1)
        &&& texts_safe(toks, ds, ty0, c, ds.len() as int)
    }
}

/// Every reported text has a computable fix.
pub open spec fn md036_safe(toks: Seq<Token>, c: Config) -> bool {
    let paras = md036_paras(toks, toks.len() as int);
    regex_compiles(punct_pattern(c)) ==> {
        &&& types_safe(toks, paras, "emphasis"@, "emphasisText"@, c, paras.len() as int)
        &&& types_safe(toks, paras, "strong"@, "strongText"@, c, paras.len() as int)
    }
}

proof fn lemma_types_safe_prefix(toks: Seq<Token>, paras: Seq<usize>, ty0: Seq<char>, ty1: Seq<char>, c: Config, k: int, m: int)
    requires
        0 <= k <= m,
        types_safe(toks, paras, ty0, ty1, c, m),
    ensures
        types_safe(toks, paras, ty0, ty1, c, k),
    decreases m - k,
{
    if k < m {
        lemma_types_safe_prefix(toks, paras, ty0, ty1, c, k, m - 1);
    }
}

proof fn lemma_texts_safe_prefix(toks: Seq<Token>, ds: Seq<usize>, ty0: Seq<char>, c: Config, k: int, m: int)
    requires
        0 <= k <= m,
        texts_safe(toks, ds, ty0, c, m),
    ensures
        texts_safe(toks, ds, ty0, c, k),
    decreases m - k,
{
    if k < m {
        lemma_texts_safe_prefix(toks, ds, ty0, c, k, m - 1);
    }
}

impl MD036 {
    pub fn names(&self) -> (r: Vec<&'static str>)
        ensures
            names_view(r@) == md036_meta().names,
    {
        let r = vec!["MD036", "no-emphasis-as-heading"];
        assert(names_view(r@) =~= md036_meta().names);
        r
    }

    pub fn description(&self) -> (r: &'static str)
        ensures
            r@ == md036_meta().description,
    {
        "Emphasis used instead of a heading"
    }

    pub fn tags(&self) -> (r: Vec<&'static str>)
        ensures
            names_view(r@) == seq!["headings"@, "emphasis"@, "fixable"@],
    {
        let r = vec!["headings", "emphasis", "fixable"];
        assert(names_view(r@) =~= seq!["headings"@, "emphasis"@, "fixable"@]);
        r
    }

    pub fn parser_type(&self) -> (r: ParserType)
        ensures
            r == ParserType::Micromark,
    {
        ParserType::Micromark
    }

    pub fn information(&self) -> (r: Option<&'static str>)
        ensures
            opt_str(r) == md036_meta().information,
    {
        Some("https://github.com/DavidAnson/markdownlint/blob/main/doc/md036.md")
    }

    fn check_type(
        &self,
        tokens: &[Token],
        paras: &Vec<usize>,
        ty0: &str,
        ty1: &str,
        re: &crate::pattern::Pattern,
        names: &Vec<&'static str>,
        errors: &mut Vec<LintError>,
        Ghost(c): Ghost<Config>,
    ) -> (ok: bool)
        requires
            re@ == punct_pattern(c),
            ty0@ == "emphasis"@ || ty0@ == "strong"@,
            forall|j: int| 0 <= j < paras@.len() ==> #[trigger] paras@[j] < tokens@.len(),
            forall|j: int|
                0 <= j < paras@.len() ==> walk_ends(
                    tokens@,
                    tokens@[#[trigger] paras@[j] as int].children@,
                    tokens@.len() as nat,
                    tokens@[paras@[j] as int].children@.len() as int,
                ),
            names_view(names@) == md036_meta().names,
        ensures
            ok == types_safe(tokens@, paras@, ty0@, ty1@, c, paras@.len() as int),
            ok ==> errors_view(final(errors)@) == errors_view(old(errors)@) + type_errors(
                tokens@,
                paras@,
                ty0@,
                ty1@,
                c,
                paras@.len() as int,
            ),
    {
        let ghost e0 = errors_view(errors@);
        let mut k: usize = 0;
        while k < paras.len()
            invariant
                k <= paras@.len(),
                types_safe(tokens@, paras@, ty0@, ty1@, c, k as int),
                forall|j: int|
                    0 <= j < paras@.len() ==> walk_ends(
                        tokens@,
                        tokens@[#[trigger] paras@[j] as int].children@,
                        tokens@.len() as nat,
                        tokens@[paras@[j] as int].children@.len() as int,
                    ),
                re@ == punct_pattern(c),
                ty0@ == "emphasis"@ || ty0@ == "strong"@,
                forall|j: int| 0 <= j < paras@.len() ==> #[trigger] paras@[j] < tokens@.len(),
                names_view(names@) == md036_meta().names,
                errors_view(errors@) == e0 + type_errors(tokens@, paras@, ty0@, ty1@, c, k as int),
            decreases paras@.len() - k,
        {
            assert(paras@[k as int] < tokens@.len());
            let p = &tokens[paras[k]];
            assert(walk_ends(tokens@, p.children@, tokens@.len() as nat, p.children@.len() as int));
            let ds = get_descendants_by_types(tokens, p, ty0, ty1);
            proof {
                lemma_desc_in(tokens@, ty0@, ty1@, p.children@, tokens@.len() as nat, p.children@.len() as int);
            }
            let ghost e1 = errors_view(errors@);
            let mut q: usize = 0;
            while q < ds.len()
                invariant
                    q <= ds@.len(),
                    forall|j: int| 0 <= j < ds@.len() ==> #[trigger] ds@[j] < tokens@.len(),
                    texts_safe(tokens@, ds@, ty0@, c, q as int),
                    types_safe(tokens@, paras@, ty0@, ty1@, c, k as int),
                    ds@ == desc_search(
                        tokens@,
                        ty0@,
                        ty1@,
                        tokens@[paras@[k as int] as int].children@,
                        tokens@.len() as nat,
                        tokens@[paras@[k as int] as int].children@.len() as int,
                    ),
                    k < paras@.len(),
                    forall|j: int| 0 <= j < paras@.len() ==> #[trigger] paras@[j] < tokens@.len(),
                    re@ == punct_pattern(c),
                    ty0@ == "emphasis"@ || ty0@ == "strong"@,
                    names_view(names@) == md036_meta().names,
                    errors_view(errors@) == e1 + text_errors(tokens@, ds@, ty0@, c, q as int),
                decreases ds@.len() - q,
            {
                assert(ds@[q as int] < tokens@.len());
                let t = &tokens[ds[q]];
                let flagged = t.children.len() == 1 && t.children[0] < tokens.len() && tokens[t.children[0]].is_type("data")
                    && !is_match(re, t.text.as_str());
                if flagged {
                    let fix_info = match t.parent {
                        Some(pi) => {
                            if pi < tokens.len() && tokens[pi].is_type(ty0) {
                                let par = &tokens[pi];
                                if par.start_column > par.end_column {
                                    proof {
                                        assert(!texts_safe(tokens@, ds@, ty0@, c, q + 1));
                                        if texts_safe(tokens@, ds@, ty0@, c, ds@.len() as int) {
                                            lemma_texts_safe_prefix(tokens@, ds@, ty0@, c, q + 1, ds@.len() as int);
                                        }
                                        assert(!types_safe(tokens@, paras@, ty0@, ty1@, c, k + 1));
                                        if types_safe(tokens@, paras@, ty0@, ty1@, c, paras@.len() as int) {
                                            lemma_types_safe_prefix(tokens@, paras@, ty0@, ty1@, c, k + 1, paras@.len() as int);
                                        }
                                    }
                                    return false;
                                }
                                let mut ins = text("## ");
                                push_str(&mut ins, t.text.as_str());
                                Some(
                                    FixInfo {
                                        line_number: None,
                                        edit_column: Some(par.start_column),
                                        delete_count: Some((par.end_column - par.start_column) as i32),
                                        insert_text: Some(ins),
                                    },
                                )
                            } else {
                                None
                            }
                        },
                        None => None,
                    };
                    let mut e = LintError::new(t.start_line, names, self.description(), self.information());
                    e.error_context = Some(string_of(&chars_of(t.text.as_str())));
                    e.fix_info = fix_info;
                    let ghost b = errors_view(errors@);
                    errors.push(e);
                    assert(errors_view(errors@) =~= b.push(md036_error(tokens@, *t, ty0@)));
                }
                q = q + 1;
            }
            k = k + 1;
            assert(errors_view(errors@) =~= e0 + type_errors(tokens@, paras@, ty0@, ty1@, c, k as int));
        }
        true
    }

    pub fn lint(&self, params: &RuleParams) -> (errors: Vec<LintError>)
        requires
            md036_walks_end(params.tokens@),
            md036_safe(params.tokens@, *params.config),
        ensures
            errors_view(errors@) == md036_errors(params.tokens@, *params.config),
    {
        match self.lint_checked(params) {
            Some(errors) => errors,
            None => Vec::new(),
        }
    }

    /// The findings, or `None` where a reported text sits in a span whose
    /// end column comes before its start (its fix cannot be computed).
    pub fn lint_checked(&self, params: &RuleParams) -> (r: Option<Vec<LintError>>)
        requires
            md036_walks_end(params.tokens@),
        ensures
            r is None <==> !md036_safe(params.tokens@, *params.config),
            r matches Some(errors) ==> errors_view(errors@) == md036_errors(params.tokens@, *params.config),
    {
        let ghost c = *params.config;
        let tokens = params.tokens;
        let mut errors: Vec<LintError> = Vec::new();
        let punctuation: String = match params.config.get_str("punctuation") {
            Some(v) => string_of(&v),
            None => text(".,;:!?。，；：！？"),
        };
        assert(punctuation@ == md036_punctuation(c));
        let mut pattern = text("[");
        let esc = escape(punctuation.as_str());
        push_str(&mut pattern, esc.as_str());
        push_str(&mut pattern, "]$");
        assert(pattern@ =~= punct_pattern(c));
        let re = match compile(pattern.as_str()) {
            Some(p) => p,
            None => {
                assert(errors_view(errors@) =~= seq![]);
                return Some(errors);
            },
        };
        let mut paras: Vec<usize> = Vec::new();
        let n = tokens.len();
        let mut i: usize = 0;
        while i < n
            invariant
                n == tokens@.len(),
                i <= n,
                paras@ == md036_paras(tokens@, i as int),
                forall|j: int| 0 <= j < paras@.len() ==> #[trigger] paras@[j] < i,
                md036_walks_end(tokens@),
                forall|j: int|
                    0 <= j < paras@.len() ==> walk_ends(
                        tokens@,
                        tokens@[#[trigger] paras@[j] as int].children@,
                        tokens@.len() as nat,
                        tokens@[paras@[j] as int].children@.len() as int,
                    ),
            decreases n - i,
        {
            let t = &tokens[i];
            if t.is_type("paragraph") && self.para_ok_exec(tokens, t) {
                assert(tokens@[i as int].token_type@ == "paragraph"@ && para_ok(tokens@, tokens@[i as int]));
                let ghost p0 = paras@;
                paras.push(i);
                assert forall|j: int| 0 <= j < paras@.len() implies walk_ends(
                    tokens@,
                    tokens@[#[trigger] paras@[j] as int].children@,
                    tokens@.len() as nat,
                    tokens@[paras@[j] as int].children@.len() as int,
                ) by {
                    if j < p0.len() {
                        assert(paras@[j] == p0[j]);
                    }
                }
            }
            i = i + 1;
        }
        let names = self.names();
        assert(errors_view(errors@) =~= seq![]);
        if !self.check_type(tokens, &paras, "emphasis", "emphasisText", &re, &names, &mut errors, Ghost(c)) {
            return None;
        }
        if !self.check_type(tokens, &paras, "strong", "strongText", &re, &names, &mut errors, Ghost(c)) {
            return None;
        }
        Some(errors)
    }

    fn para_ok_exec(&self, tokens: &[Token], p: &Token) -> (r: bool)
        ensures
            r == para_ok(tokens@, *p),
    {
        match p.parent {
            Some(pi) => {
                if pi >= tokens.len() {
                    return false;
                }
                let par = &tokens[pi];
                if !par.is_type("content") {
                    return false;
                }
                match par.parent {
                    Some(gi) => {
                        if gi >= tokens.len() {
                            return false;
                        }
                        let gp = &tokens[gi];
                        if !gp.is_type("htmlFlow") || gp.parent.is_some() {
                            return false;
                        }
                    },
                    None => {},
                }
                let mut count: usize = 0;
                let mut k: usize = 0;
                while k < p.children.len()
                    invariant
                        k <= p.children@.len(),
                        count as int == meaningful_count(tokens@, p.children@, k as int),
                        count <= k,
                    decreases p.children@.len() - k,
                {
                    let ch = p.children[k];
                    if ch < tokens.len() && is_paragraph_child_meaningful(&tokens[ch]) {
                        count = count + 1;
                    }
                    k = k + 1;
                }
                count == 1
            },
            None => false,
        }
    }
}

proof fn lemma_desc_in(toks: Seq<Token>, ty0: Seq<char>, ty1: Seq<char>, s: Seq<usize>, fuel: nat, k: int)
    requires
        0 <= k <= s.len(),
    ensures
        forall|j: int|
            0 <= j < desc_search(toks, ty0, ty1, s, fuel, k).len() ==> #[trigger] desc_search(toks, ty0, ty1, s, fuel, k)[j]
                < toks.len(),
    decreases fuel, k,
{
    if k > 0 {
        let x = s[k - 1] as int;
        lemma_desc_in(toks, ty0, ty1, s, fuel, k - 1);
        if 0 <= x < toks.len() {
            let t = toks[x];
            let head: Seq<usize> = if t.token_type@ == ty0 || t.token_type@ == ty1 {
                seq![x as usize]
            } else {
                seq![]
            };
            let below: Seq<usize> = if fuel > 0 {
                lemma_desc_in(toks, ty0, ty1, t.children@, (fuel - 1) as nat, t.children@.len() as int);
                desc_search(toks, ty0, ty1, t.children@, (fuel - 1) as nat, t.children@.len() as int)
            } else {
                seq![]
            };
            let sub = head + below;
            let rest = desc_search(toks, ty0, ty1, s, fuel, k - 1);
            assert(desc_search(toks, ty0, ty1, s, fuel, k) == sub + rest);
            assert forall|j: int| 0 <= j < sub.len() implies #[trigger] sub[j] < toks.len() by {
                if j >= head.len() {
                    assert(sub[j] == below[j - head.len()]);
                }
            }
            assert forall|j: int| 0 <= j < (sub + rest).len() implies #[trigger] (sub + rest)[j] < toks.len() by {
                if j >= sub.len() {
                    assert((sub + rest)[j] == rest[j - sub.len()]);
                }
            }
        } else {
            let rest = desc_search(toks, ty0, ty1, s, fuel, k - 1);
            let e: Seq<usize> = seq![];
            assert(desc_search(toks, ty0, ty1, s, fuel, k) == e + rest);
            assert(e + rest =~= rest);
        }
    }
}

} // verus!
