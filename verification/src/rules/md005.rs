//! MD005 - Inconsistent indentation for list items at the same level.
//!
//! In an unordered list every item must start at the list's column. In an
//! ordered list the items must either start at the list's column or, from
//! the first item that does not, end their markers at the same column as
//! the first item does (right-aligned numbers). Only ordered lists get a
//! fix.

use vstd::prelude::*;
use crate::text::{
    byte_len, chars_of, decimal, push_decimal, push_repeat, push_str, repeat_char, text, trim,
    trim_vec, utf8_byte_len,
};
use crate::types::{
    base_error, errors_view, fix_view, names_view, opt_str, FixInfo, FixView, LintError,
    LintErrorView, ParserType, RuleMeta, RuleParams, Token,
};

verus! {

pub struct MD005;

pub open spec fn md005_meta() -> RuleMeta {
    RuleMeta {
        names: seq!["MD005"@, "list-indent"@],
        description: "Inconsistent indentation for list items at the same level"@,
        information: Some("https://github.com/DavidAnson/markdownlint/blob/main/doc/md005.md"@),
    }
}

pub open spec fn md005_is_list(t: Token) -> bool {
    t.token_type@ == "listOrdered"@ || t.token_type@ == "listUnordered"@
}

/// Bytes in the trimmed marker text of an item prefix.
pub open spec fn marker_len(p: Token) -> int {
    byte_len(trim(p.text@)) as int
}

pub open spec fn md005_error(
    p: Token,
    detail: Seq<char>,
    fix: Option<FixView>,
) -> LintErrorView {
    LintErrorView {
        detail: Some(detail),
        range: Some((1usize, (p.end_column - 1) as usize)),
        fix,
        suggestion: Some("Match list item indentation to previous items"@),
        ..base_error(md005_meta(), p.start_line as int)
    }
}

pub open spec fn indent_detail(e: usize, a: usize) -> Seq<char> {
    "Expected: "@ + decimal(e as nat) + "; Actual: "@ + decimal(a as nat)
}

pub open spec fn end_detail(e: usize, a: usize) -> Seq<char> {
    "Expected: ("@ + decimal(e as nat) + "); Actual: ("@ + decimal(a as nat) + ")"@
}

/// The fix that moves an item from indentation `act` to `exp`.
pub open spec fn indent_fix(exp: usize, act: usize) -> FixView {
    fix_view(
        None,
        Some((if exp < act {
            exp
        } else {
            act
        } + 1) as usize),
        Some(
            if (act as i32) - (exp as i32) > 0 {
                ((act as i32) - (exp as i32)) as i32
            } else {
                0i32
            },
        ),
        if exp > act {
            Some(repeat_char(' ', (exp - act) as nat))
        } else {
            None
        },
    )
}

/// One item prefix `p` of `list`, with the right edge `ee` expected so far
/// (0 before the first ordered item) and whether right alignment is in
/// force: the new edge, the new mode, and the finding if any.
pub open spec fn md005_item(list: Token, p: Token, ee: usize, em: bool) -> (usize, bool, Option<
    LintErrorView,
>) {
    let ei = (list.start_column - 1) as usize;
    let ai = (p.start_column - 1) as usize;
    if list.token_type@ == "listUnordered"@ {
        (ee, em, if ei != ai {
            Some(md005_error(p, indent_detail(ei, ai), None))
        } else {
            None
        })
    } else {
        let ml = marker_len(p);
        let ae = (p.start_column + ml - 1) as usize;
        let ee1 = if ee == 0 {
            ae
        } else {
            ee
        };
        if ei != ai || em {
            if ee1 == ae {
                (ee1, true, None)
            } else if em {
                (ee1, em, Some(md005_error(p, end_detail(ee1, ae), Some(indent_fix((ee1 - ml) as usize, (ae - ml) as usize)))))
            } else {
                (ee1, em, Some(md005_error(p, indent_detail(ei, ai), Some(indent_fix(ei, ai)))))
            }
        } else {
            (ee1, em, None)
        }
    }
}

/// The arithmetic of `md005_item` stays in range: columns are 1-based,
/// right edges fit, and the fix's column difference fits an `i32`.
pub open spec fn md005_item_safe(list: Token, p: Token, ee: usize, em: bool) -> bool {
    let ei = (list.start_column - 1) as usize;
    let ai = (p.start_column - 1) as usize;
    let ml = marker_len(p);
    let ae = (p.start_column + ml - 1) as usize;
    let ee1 = if ee == 0 {
        ae
    } else {
        ee
    };
    &&& p.start_column >= 1
    &&& p.end_column >= 1
    &&& list.token_type@ != "listUnordered"@ ==> {
        &&& p.start_column + ml <= usize::MAX
        &&& ((ei != ai || em) && ee1 != ae) ==> {
            let exp: int = if em {
                ee1 - ml
            } else {
                ei as int
            };
            let act: int = if em {
                ae - ml
            } else {
                ai as int
            };
            &&& (em ==> ee1 >= ml)
            &&& i32::MIN <= (act as i32) - (exp as i32) <= i32::MAX
        }
    }
}

/// The item prefixes among the first `k` children `ch` of a list.
pub open spec fn md005_items(toks: Seq<Token>, list: Token, ch: Seq<usize>, k: int) -> (usize, bool, Seq<
    LintErrorView,
>, bool)
    decreases k,
{
    if k <= 0 {
        (0usize, false, seq![], true)
    } else {
        let prev = md005_items(toks, list, ch, k - 1);
        let c = ch[k - 1];
        if c < toks.len() && toks[c as int].token_type@ == "listItemPrefix"@ {
            let p = toks[c as int];
            let r = md005_item(list, p, prev.0, prev.1);
            (r.0, r.1, match r.2 {
                Some(e) => prev.2.push(e),
                None => prev.2,
            }, prev.3 && md005_item_safe(list, p, prev.0, prev.1))
        } else {
            prev
        }
    }
}

/// The findings for the lists among the first `n` tokens, and whether
/// their arithmetic stays in range.
pub open spec fn md005_scan(toks: Seq<Token>, n: int) -> (Seq<LintErrorView>, bool)
    decreases n,
{
    if n <= 0 {
        (seq![], true)
    } else {
        let prev = md005_scan(toks, n - 1);
        let list = toks[n - 1];
        if md005_is_list(list) {
            let r = md005_items(toks, list, list.children@, list.children@.len() as int);
            (prev.0 + r.2, prev.1 && list.start_column >= 1 && r.3)
        } else {
            prev
        }
    }
}

pub open spec fn md005_errors(toks: Seq<Token>) -> Seq<LintErrorView> {
    md005_scan(toks, toks.len() as int).0
}

/// The lists' columns are 1-based and their arithmetic stays in range.
pub open spec fn md005_safe(toks: Seq<Token>) -> bool {
    md005_scan(toks, toks.len() as int).1
}

impl MD005 {
    pub fn names(&self) -> (r: Vec<&'static str>)
        ensures
            names_view(r@) == md005_meta().names,
    {
        let r = vec!["MD005", "list-indent"];
        assert(names_view(r@) =~= md005_meta().names);
        r
    }

    pub fn description(&self) -> (r: &'static str)
        ensures
            r@ == md005_meta().description,
    {
        "Inconsistent indentation for list items at the same level"
    }

    pub fn tags(&self) -> (r: Vec<&'static str>)
        ensures
            names_view(r@) == seq!["bullet"@, "ul"@, "indentation"@],
    {
        let r = vec!["bullet", "ul", "indentation"];
        assert(names_view(r@) =~= seq!["bullet"@, "ul"@, "indentation"@]);
        r
    }

    pub fn parser_type(&self) -> (r: ParserType)
        ensures
            r == ParserType::Micromark,
    {
        ParserType::Micromark
    }

    pub fn information(&self) -> (r: Option<&'static str>)
        ensures
            opt_str(r) == md005_meta().information,
    {
        Some("https://github.com/DavidAnson/markdownlint/blob/main/doc/md005.md")
    }

    /// The findings for one list.
    fn check_list(
        &self,
        tokens: &[Token],
        list: &Token,
        names: &Vec<&'static str>,
        errors: &mut Vec<LintError>,
    )
        requires
            md005_items(tokens@, *list, list.children@, list.children@.len() as int).3,
            list.start_column >= 1,
            names_view(names@) == md005_meta().names,
        ensures
            errors_view(final(errors)@) == errors_view(old(errors)@) + md005_items(
                tokens@,
                *list,
                list.children@,
                list.children@.len() as int,
            ).2,
    {
        let ghost e0 = errors_view(errors@);
        let ghost ch = list.children@;
        let expected_indent = list.start_column - 1;
        let unordered = list.is_type("listUnordered");
        let mut expected_end: usize = 0;
        let mut end_matching = false;
        let m = list.children.len();
        let mut k: usize = 0;
        while k < m
            invariant
                m == ch.len(),
                ch == list.children@,
                k <= m,
                expected_indent == list.start_column - 1,
                unordered == (list.token_type@ == "listUnordered"@),
                md005_items(tokens@, *list, ch, m as int).3,
                names_view(names@) == md005_meta().names,
                ({
                    let r = md005_items(tokens@, *list, ch, k as int);
                    &&& r.0 == expected_end
                    &&& r.1 == end_matching
                    &&& errors_view(errors@) == e0 + r.2
                    &&& (r.3 ==> md005_items(tokens@, *list, ch, m as int).3)
                }),
            decreases m - k,
        {
            proof {
                lemma_items_safe_prefix(tokens@, *list, ch, k as int + 1, m as int);
            }
            let c = list.children[k];
            if c < tokens.len() && tokens[c].is_type("listItemPrefix") {
                let p = &tokens[c];
                let ghost before = errors_view(errors@);
                let actual_indent = p.start_column - 1;
                let range = (1, p.end_column - 1);
                if unordered {
                    if expected_indent != actual_indent {
                        let mut e = LintError::new(p.start_line, names, self.description(), self.information());
                        let mut d = text("Expected: ");
                        push_decimal(&mut d, expected_indent);
                        push_str(&mut d, "; Actual: ");
                        push_decimal(&mut d, actual_indent);
                        e.error_detail = Some(d);
                        e.error_range = Some(range);
                        e.suggestion = Some(text("Match list item indentation to previous items"));
                        errors.push(e);
                        assert(errors_view(errors@) =~= before.push(md005_error(*p, indent_detail(expected_indent, actual_indent), None)));
                    }
                } else {
                    let tv = chars_of(p.text.as_str());
                    let tt = trim_vec(&tv);
                    proof {
                        crate::text::lemma_byte_len_trims(tv@, ' ');
                    }
                    let marker_length = utf8_byte_len(&tt);
                    let actual_end = p.start_column + marker_length - 1;
                    if expected_end == 0 {
                        expected_end = actual_end;
                    }
                    if expected_indent != actual_indent || end_matching {
                        if expected_end == actual_end {
                            end_matching = true;
                        } else {
                            let mut d = String::new();
                            let expected: usize;
                            let actual: usize;
                            if end_matching {
                                push_str(&mut d, "Expected: (");
                                push_decimal(&mut d, expected_end);
                                push_str(&mut d, "); Actual: (");
                                push_decimal(&mut d, actual_end);
                                push_str(&mut d, ")");
                                expected = expected_end - marker_length;
                                actual = actual_end - marker_length;
                            } else {
                                push_str(&mut d, "Expected: ");
                                push_decimal(&mut d, expected_indent);
                                push_str(&mut d, "; Actual: ");
                                push_decimal(&mut d, actual_indent);
                                expected = expected_indent;
                                actual = actual_indent;
                            }
                            let col = if expected < actual {
                                expected
                            } else {
                                actual
                            } + 1;
                            let diff: i32 = actual as i32 - expected as i32;
                            let del: i32 = if diff > 0 {
                                diff
                            } else {
                                0
                            };
                            let ins = if expected > actual {
                                let mut sp = String::new();
                                push_repeat(&mut sp, ' ', expected - actual);
                                Some(sp)
                            } else {
                                None
                            };
                            let mut e = LintError::new(p.start_line, names, self.description(), self.information());
                            e.error_detail = Some(d);
                            e.error_range = Some(range);
                            e.fix_info = Some(
                                FixInfo {
                                    line_number: None,
                                    edit_column: Some(col),
                                    delete_count: Some(del),
                                    insert_text: ins,
                                },
                            );
                            e.suggestion = Some(text("Match list item indentation to previous items"));
                            errors.push(e);
                            proof {
                                let ghost ml = marker_len(*p);
                                assert(errors_view(errors@) =~= before.push(
                                    md005_item(*list, *p, md005_items(tokens@, *list, ch, k as int).0, md005_items(tokens@, *list, ch, k as int).1).2.unwrap(),
                                ));
                            }
                        }
                    }
                }
            }
            k = k + 1;
        }
    }

    pub fn lint(&self, params: &RuleParams) -> (errors: Vec<LintError>)
        requires
            md005_safe(params.tokens@),
        ensures
            errors_view(errors@) == md005_errors(params.tokens@),
    {
        let tokens = params.tokens;
        let names = self.names();
        let mut errors: Vec<LintError> = Vec::new();
        let n = tokens.len();
        let mut i: usize = 0;
        assert(errors_view(errors@) =~= seq![]);
        while i < n
            invariant
                n == tokens@.len(),
                i <= n,
                names_view(names@) == md005_meta().names,
                md005_scan(tokens@, n as int).1,
                md005_scan(tokens@, i as int).1,
                errors_view(errors@) == md005_scan(tokens@, i as int).0,
            decreases n - i,
        {
            proof {
                lemma_scan_safe_prefix(tokens@, i as int + 1, n as int);
            }
            let list = &tokens[i];
            if list.is_type("listOrdered") || list.is_type("listUnordered") {
                self.check_list(tokens, list, &names, &mut errors);
            }
            i = i + 1;
        }
        errors
    }
}

proof fn lemma_items_safe_prefix(toks: Seq<Token>, list: Token, ch: Seq<usize>, k: int, m: int)
    requires
        0 <= k <= m,
        md005_items(toks, list, ch, m).3,
    ensures
        md005_items(toks, list, ch, k).3,
    decreases m - k,
{
    if k < m {
        lemma_items_safe_prefix(toks, list, ch, k, m - 1);
    }
}

proof fn lemma_scan_safe_prefix(toks: Seq<Token>, k: int, m: int)
    requires
        0 <= k <= m,
        md005_scan(toks, m).1,
    ensures
        md005_scan(toks, k).1,
    decreases m - k,
{
    if k < m {
        lemma_scan_safe_prefix(toks, k, m - 1);
    }
}

/// For an unordered list: one finding without a fix for each marker prefix
/// among the first `k` children whose column differs from the list's.
pub open spec fn unordered_errors(toks: Seq<Token>, list: Token, ch: Seq<usize>, k: int) -> Seq<LintErrorView>
    decreases k,
{
    if k <= 0 {
        seq![]
    } else {
        let prev = unordered_errors(toks, list, ch, k - 1);
        let c = ch[k - 1];
        if c < toks.len() && toks[c as int].token_type@ == "listItemPrefix"@ && toks[c as int].start_column
            != list.start_column {
            let p = toks[c as int];
            prev.push(md005_error(p, indent_detail((list.start_column - 1) as usize, (p.start_column - 1) as usize), None))
        } else {
            prev
        }
    }
}

/// An unordered list gets exactly one finding, with the indentation
/// expected and found and no fix, per marker prefix whose column differs
/// from the list's (columns from 1).
pub proof fn lemma_md005_unordered(toks: Seq<Token>, list: Token, ch: Seq<usize>, k: int)
    requires
        list.token_type@ == "listUnordered"@,
        list.start_column >= 1,
        forall|j: int|
            0 <= j < k && #[trigger] ch[j] < toks.len() ==> toks[ch[j] as int].start_column >= 1,
    ensures
        md005_items(toks, list, ch, k).2 == unordered_errors(toks, list, ch, k),
    decreases k,
{
    if k > 0 {
        lemma_md005_unordered(toks, list, ch, k - 1);
    }
}

} // verus!
