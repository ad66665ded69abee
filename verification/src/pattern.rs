//! Regular expressions, by the `regex` crate.
//!
//! What a regular expression matches is not restated here: each result of the
//! `regex` crate gets a name, a function of the pattern and the text alone,
//! and the rules state their findings over these names. Match positions are
//! byte offsets into the text, as the crate gives them.

use vstd::prelude::*;
use crate::text::{byte_len, byte_slice, byte_slice_chars, char_boundary};

verus! {

#[verifier::external_type_specification]
#[verifier::external_body]
pub struct ExRegex(regex::Regex);

/// A compiled regular expression and the pattern it was compiled from.
pub struct Pattern {
    re: regex::Regex,
    source: String,
}

impl View for Pattern {
    type V = Seq<char>;

    /// The pattern text.
    closed spec fn view(&self) -> Seq<char> {
        self.source@
    }
}

/// Whether `regex::Regex::new` accepts the pattern.
pub uninterp spec fn regex_compiles(pattern: Seq<char>) -> bool;

/// `regex::Regex::is_match`: the pattern matches somewhere in the text.
pub uninterp spec fn regex_is_match(pattern: Seq<char>, text: Seq<char>) -> bool;

/// `regex::Regex::captures`: the byte spans of the groups of the leftmost
/// match (group 0 is the whole match), `None` for a group that took no part.
pub uninterp spec fn regex_captures(pattern: Seq<char>, text: Seq<char>) -> Option<
    Seq<Option<(usize, usize)>>,
>;

/// `regex::Regex::captures_iter`: the groups of each successive
/// non-overlapping match.
pub uninterp spec fn regex_captures_all(pattern: Seq<char>, text: Seq<char>) -> Seq<
    Seq<Option<(usize, usize)>>,
>;

/// `regex::Regex::find_iter`: the byte spans of successive non-overlapping
/// matches.
pub uninterp spec fn regex_find_all(pattern: Seq<char>, text: Seq<char>) -> Seq<(usize, usize)>;

/// A byte span that lies within `text`, start before end, both on character
/// boundaries (the `regex` crate documents all three for every `Match`).
pub open spec fn span_in(text: Seq<char>, s: (usize, usize)) -> bool {
    &&& s.0 <= s.1 <= byte_len(text)
    &&& char_boundary(text, s.0 as int)
    &&& char_boundary(text, s.1 as int)
}

/// The groups of one match: group 0, the whole match, always takes part
/// (`Captures::iter` documents this), and every group that takes part lies
/// within the text.
pub open spec fn groups_in(text: Seq<char>, g: Seq<Option<(usize, usize)>>) -> bool {
    &&& g.len() >= 1
    &&& g[0] is Some
    &&& forall|i: int| 0 <= i < g.len() ==> (#[trigger] g[i] matches Some(s) ==> span_in(text, s))
}

/// The span of the whole match.
pub open spec fn span0(g: Seq<Option<(usize, usize)>>) -> (usize, usize) {
    match g[0] {
        Some(s) => s,
        None => (0, 0),
    }
}

/// The text of group `i` of a match in `t`, empty when the group took no
/// part.
pub open spec fn group_at(t: Seq<char>, g: Seq<Option<(usize, usize)>>, i: int) -> Seq<char> {
    if 0 <= i < g.len() {
        match g[i] {
            Some(s) => byte_slice(t, s.0 as int, s.1 as int),
            None => seq![],
        }
    } else {
        seq![]
    }
}

/// The text of group `i` of a match in `t`, empty when the group took no
/// part.
pub fn group_chars(t: &Vec<char>, g: &Vec<Option<(usize, usize)>>, i: usize) -> (r: Vec<char>)
    requires
        byte_len(t@) <= isize::MAX,
    ensures
        r@ == group_at(t@, g@, i as int),
{
    if i < g.len() {
        match g[i] {
            Some(s) => byte_slice_chars(t, s.0, s.1),
            None => Vec::new(),
        }
    } else {
        Vec::new()
    }
}

/// `regex::escape`: the text with every meta character escaped.
pub uninterp spec fn regex_escape(s: Seq<char>) -> Seq<char>;

/// Wraps `regex::escape`; the contract names the result, a function of the
/// text alone.
#[verifier::external_body]
pub fn escape(s: &str) -> (r: String)
    ensures
        r@ == regex_escape(s@),
{
    regex::escape(s)
}

/// Compiles `pattern` with `regex::Regex::new`: `Some` exactly when the
/// crate accepts the pattern; the result remembers the pattern text.
#[verifier::external_body]
pub fn compile(pattern: &str) -> (r: Option<Pattern>)
    ensures
        r.is_some() == regex_compiles(pattern@),
        r matches Some(p) ==> p@ == pattern@,
{
    match regex::Regex::new(pattern) {
        Ok(re) => Some(Pattern { re, source: pattern.to_string() }),
        Err(_) => None,
    }
}

/// `regex::Regex::is_match`; the contract names the result.
#[verifier::external_body]
pub fn is_match(p: &Pattern, text: &str) -> (r: bool)
    ensures
        r == regex_is_match(p@, text@),
{
    p.re.is_match(text)
}

/// `regex::Regex::captures`, each group as its byte span; the contract names
/// the result and states that the spans lie within the text.
#[verifier::external_body]
pub fn captures(p: &Pattern, text: &str) -> (r: Option<Vec<Option<(usize, usize)>>>)
    ensures
        match r {
            Some(g) => regex_captures(p@, text@) == Some(g@) && groups_in(text@, g@),
            None => regex_captures(p@, text@).is_none(),
        },
{
    p.re.captures(text).map(|c| c.iter().map(|m| m.map(|m| (m.start(), m.end()))).collect())
}

/// `regex::Regex::captures_iter`, each group as its byte span; the matches
/// come in order and do not overlap ("successive non-overlapping matches").
#[verifier::external_body]
pub fn captures_all(p: &Pattern, text: &str) -> (r: Vec<Vec<Option<(usize, usize)>>>)
    ensures
        r@.map_values(|g: Vec<Option<(usize, usize)>>| g@) == regex_captures_all(p@, text@),
        forall|i: int| 0 <= i < r@.len() ==> groups_in(text@, #[trigger] r@[i]@),
        forall|i: int, j: int|
            0 <= i < j < r@.len() ==> span0(#[trigger] r@[i]@).1 <= span0(#[trigger] r@[j]@).0,
{
    p.re.captures_iter(text).map(|c| c.iter().map(|m| m.map(|m| (m.start(), m.end()))).collect()).collect()
}

/// `regex::Regex::find_iter`, each match as its byte span; the matches come
/// in order and do not overlap ("successive non-overlapping matches").
#[verifier::external_body]
pub fn find_all(p: &Pattern, text: &str) -> (r: Vec<(usize, usize)>)
    ensures
        r@ == regex_find_all(p@, text@),
        forall|i: int| 0 <= i < r@.len() ==> span_in(text@, #[trigger] r@[i]),
        forall|i: int, j: int| 0 <= i < j < r@.len() ==> (#[trigger] r@[i]).1 <= (#[trigger] r@[j]).0,
{
    p.re.find_iter(text).map(|m| (m.start(), m.end())).collect()
}

} // verus!
