//! MD054 - Link and image style.
//!
//! Each of the five link styles (autolink, inline, collapsed, full and
//! shortcut reference) can be disallowed by an option of the same name; every
//! link of a disallowed style is reported. Fenced code blocks are skipped and
//! code spans are blanked out first. A span of the line is claimed by the
//! first style that matches it, in the order autolink, inline, collapsed,
//! full, shortcut.

use vstd::prelude::*;
use crate::text::{
    byte_len, byte_slice, byte_slice_chars, char_boundary, chars_of, lemma_boundary_ends,
    lemma_byte_len_concat, lemma_byte_len_spaces, lemma_byte_slice_bound, lemma_byte_slice_len,
    lemma_strip_eol_prefix, line_body, push_chars, push_repeat, push_str, repeat_char, string_of,
    strip_eol, text, utf8_byte_len, views,
};
use crate::types::{
    base_error, errors_view, fix_view, lines_fit, names_view, opt_str, FixInfo, FixView, LintError,
    LintErrorView, ParserType, RuleMeta, RuleParams,
};
use crate::config::{value_as_bool, Config};
use crate::pattern::{
    captures, captures_all, compile, find_all, group_at, group_chars, groups_in, regex_captures,
    regex_captures_all, regex_compiles, regex_find_all, span0, span_in, Pattern,
};

verus! {

pub struct MD054;

pub open spec fn md054_meta() -> RuleMeta {
    RuleMeta {
        names: seq!["MD054"@, "link-image-style"@],
        description: "Link and image style"@,
        information: Some("https://github.com/DavidAnson/markdownlint/blob/main/doc/md054.md"@),
    }
}

/// The link styles, in the order in which they claim spans of a line.
#[derive(Clone, Copy, Debug, PartialEq, Eq, Structural)]
pub enum LinkStyle {
    Autolink,
    Inline,
    Collapsed,
    Full,
    Shortcut,
}

/// Which link styles are allowed.
#[derive(Clone, Copy, Debug)]
pub struct Md054Options {
    pub autolink: bool,
    pub inline: bool,
    pub full: bool,
    pub collapsed: bool,
    pub shortcut: bool,
}

/// An option of the rule: a boolean, `true` when absent or not a boolean.
pub open spec fn allowed(c: Config, key: Seq<char>) -> bool {
    match value_as_bool(c.lookup(key)) {
        Some(b) => b,
        None => true,
    }
}

pub open spec fn md054_options(c: Config) -> Md054Options {
    Md054Options {
        autolink: allowed(c, "autolink"@),
        inline: allowed(c, "inline"@),
        full: allowed(c, "full"@),
        collapsed: allowed(c, "collapsed"@),
        shortcut: allowed(c, "shortcut"@),
    }
}

/// `[text](url)`
pub open spec fn inline_pattern() -> Seq<char> {
    "\\[([^\\]]*)\\]\\(([^)]*)\\)"@
}

/// `[text][label]`
pub open spec fn full_pattern() -> Seq<char> {
    "\\[([^\\]]*)\\]\\[([^\\]]+)\\]"@
}

/// `[text][]`
pub open spec fn collapsed_pattern() -> Seq<char> {
    "\\[([^\\]]+)\\]\\[\\]"@
}

/// `[text]` followed by a character other than `(` or `[`, or by the end
/// of the text.
pub open spec fn shortcut_pattern() -> Seq<char> {
    "\\[([^\\]]+)\\](?:[^(\\[]|$)"@
}

/// `<http://...>` or `<https://...>`
pub open spec fn autolink_pattern() -> Seq<char> {
    "<(https?://[^>]+)>"@
}

/// A code span.
pub open spec fn code_span_pattern() -> Seq<char> {
    "`[^`]+`"@
}

/// A code fence at the start of the line.
pub open spec fn fence_pattern() -> Seq<char> {
    "^(`{3,}|~{3,})"@
}

pub open spec fn md054_compiles() -> bool {
    &&& regex_compiles(fence_pattern())
    &&& regex_compiles(code_span_pattern())
    &&& regex_compiles(autolink_pattern())
    &&& regex_compiles(inline_pattern())
    &&& regex_compiles(collapsed_pattern())
    &&& regex_compiles(full_pattern())
    &&& regex_compiles(shortcut_pattern())
}

/// Where the first `k` spans end (0 before the first).
pub open spec fn span_end(spans: Seq<(usize, usize)>, k: int) -> int {
    if k <= 0 {
        0
    } else {
        spans[k - 1].1 as int
    }
}

/// The text up to the end of the first `k` spans, each span replaced by as
/// many spaces as it has bytes.
pub open spec fn blank_prefix(t: Seq<char>, spans: Seq<(usize, usize)>, k: int) -> Seq<char>
    decreases k,
{
    if k <= 0 {
        seq![]
    } else {
        blank_prefix(t, spans, k - 1) + byte_slice(t, span_end(spans, k - 1), spans[k - 1].0 as int)
            + repeat_char(' ', (spans[k - 1].1 - spans[k - 1].0) as nat)
    }
}

/// `t` with each of `spans` replaced by spaces, one per byte
/// (`replace_all` with `" ".repeat(m.len())`).
pub open spec fn blank_spans(t: Seq<char>, spans: Seq<(usize, usize)>) -> Seq<char> {
    blank_prefix(t, spans, spans.len() as int) + byte_slice(
        t,
        span_end(spans, spans.len() as int),
        byte_len(t) as int,
    )
}

/// The line as the link patterns see it: code spans blanked out.
pub open spec fn link_text(t: Seq<char>) -> Seq<char> {
    blank_spans(t, regex_find_all(code_span_pattern(), t))
}

/// The byte length of group `i`, 0 when it took no part.
pub open spec fn group_len(g: Seq<Option<(usize, usize)>>, i: int) -> int {
    if 0 <= i < g.len() {
        match g[i] {
            Some(s) => s.1 - s.0,
            None => 0,
        }
    } else {
        0
    }
}

pub open spec fn style_detail(style: LinkStyle) -> Seq<char> {
    match style {
        LinkStyle::Autolink => "Autolink style is not allowed"@,
        LinkStyle::Inline => "Inline style is not allowed"@,
        LinkStyle::Collapsed => "Collapsed reference style is not allowed"@,
        LinkStyle::Full => "Full reference style is not allowed"@,
        LinkStyle::Shortcut => "Shortcut reference style is not allowed"@,
    }
}

/// `[text][]` without its trailing `[]`.
pub open spec fn collapsed_text(p: Seq<char>, s: (usize, usize)) -> Seq<char> {
    if s.1 >= s.0 + 2 {
        byte_slice(p, s.0 as int, s.1 - 2)
    } else {
        seq![]
    }
}

/// The fix for a link of a disallowed style: an autolink becomes inline, a
/// collapsed reference a shortcut one and a shortcut reference a collapsed
/// one, each only where the target style is allowed.
pub open spec fn link_fix(
    p: Seq<char>,
    g: Seq<Option<(usize, usize)>>,
    style: LinkStyle,
    o: Md054Options,
) -> Option<FixView> {
    let s = span0(g);
    match style {
        LinkStyle::Autolink => if o.inline {
            let url = group_at(p, g, 1);
            Some(
                fix_view(
                    None,
                    Some((s.0 + 1) as usize),
                    Some((s.1 - s.0) as i32),
                    Some("["@ + url + "]("@ + url + ")"@),
                ),
            )
        } else {
            None
        },
        LinkStyle::Collapsed => if o.shortcut {
            Some(
                fix_view(
                    None,
                    Some((s.0 + 1) as usize),
                    Some((s.1 - s.0) as i32),
                    Some(collapsed_text(p, s)),
                ),
            )
        } else {
            None
        },
        LinkStyle::Shortcut => if o.collapsed {
            Some(fix_view(None, Some((s.0 + group_len(g, 1) + 3) as usize), Some(0i32), Some("[]"@)))
        } else {
            None
        },
        _ => None,
    }
}

pub open spec fn link_error(
    p: Seq<char>,
    g: Seq<Option<(usize, usize)>>,
    style: LinkStyle,
    o: Md054Options,
    ln: int,
) -> LintErrorView {
    let s = span0(g);
    LintErrorView {
        detail: Some(style_detail(style)),
        context: Some(byte_slice(p, s.0 as int, s.1 as int)),
        range: Some(((s.0 + 1) as usize, (s.1 - s.0) as usize)),
        fix: link_fix(p, g, style, o),
        suggestion: Some("Use consistent link and image reference style"@),
        ..base_error(md054_meta(), ln)
    }
}

/// Some span of `r` overlaps `s`.
pub open spec fn overlaps_any(r: Seq<(usize, usize)>, s: (usize, usize)) -> bool {
    exists|i: int| 0 <= i < r.len() && s.0 < (#[trigger] r[i]).1 && s.1 > r[i].0
}

/// The matches of a `find_iter`, each as the groups of a one-group match.
pub open spec fn find_items(spans: Seq<(usize, usize)>) -> Seq<Seq<Option<(usize, usize)>>> {
    spans.map_values(|s: (usize, usize)| seq![Some(s)])
}

pub open spec fn item_views(items: Seq<Vec<Option<(usize, usize)>>>) -> Seq<Seq<Option<(usize, usize)>>> {
    items.map_values(|g: Vec<Option<(usize, usize)>>| g@)
}

/// One style's pass over its first `k` matches: the claimed spans (starting
/// from `r0`) and the findings. With `check`, a match that overlaps a claimed
/// span is passed over; with `report`, each match taken is a finding.
#[verifier::opaque]
pub open spec fn stage(
    p: Seq<char>,
    items: Seq<Seq<Option<(usize, usize)>>>,
    r0: Seq<(usize, usize)>,
    check: bool,
    report: bool,
    style: LinkStyle,
    o: Md054Options,
    ln: int,
    k: int,
) -> (Seq<(usize, usize)>, Seq<LintErrorView>)
    decreases k,
{
    if k <= 0 {
        (r0, seq![])
    } else {
        let prev = stage(p, items, r0, check, report, style, o, ln, k - 1);
        let g = items[k - 1];
        let s = span0(g);
        if check && overlaps_any(prev.0, s) {
            prev
        } else {
            (
                prev.0.push(s),
                if report {
                    prev.1.push(link_error(p, g, style, o, ln))
                } else {
                    prev.1
                },
            )
        }
    }
}

pub open spec fn run_stage(
    p: Seq<char>,
    items: Seq<Seq<Option<(usize, usize)>>>,
    r0: Seq<(usize, usize)>,
    check: bool,
    report: bool,
    style: LinkStyle,
    o: Md054Options,
    ln: int,
) -> (Seq<(usize, usize)>, Seq<LintErrorView>) {
    stage(p, items, r0, check, report, style, o, ln, items.len() as int)
}

/// The findings on line `ln`, whose text (without line ending) is `t`.
pub open spec fn line_links(t: Seq<char>, o: Md054Options, ln: int) -> Seq<LintErrorView> {
    let p = link_text(t);
    let a_items = if !o.autolink {
        regex_captures_all(autolink_pattern(), p)
    } else {
        find_items(regex_find_all(autolink_pattern(), p))
    };
    let a = run_stage(p, a_items, seq![], false, !o.autolink, LinkStyle::Autolink, o, ln);
    let b = run_stage(
        p,
        find_items(regex_find_all(inline_pattern(), p)),
        a.0,
        true,
        !o.inline,
        LinkStyle::Inline,
        o,
        ln,
    );
    let c = run_stage(
        p,
        find_items(regex_find_all(collapsed_pattern(), p)),
        b.0,
        true,
        !o.collapsed,
        LinkStyle::Collapsed,
        o,
        ln,
    );
    let d = run_stage(
        p,
        find_items(regex_find_all(full_pattern(), p)),
        c.0,
        true,
        !o.full,
        LinkStyle::Full,
        o,
        ln,
    );
    let e = if !o.shortcut {
        run_stage(
            p,
            regex_captures_all(shortcut_pattern(), p),
            d.0,
            true,
            true,
            LinkStyle::Shortcut,
            o,
            ln,
        ).1
    } else {
        seq![]
    };
    a.1 + b.1 + c.1 + d.1 + e
}

/// A fence of the same character, at least as long as the opening one,
/// closes the block.
pub open spec fn fence_closes(open: Seq<char>, fence: Seq<char>) -> bool {
    &&& open.len() > 0
    &&& fence.len() > 0
    &&& open[0] == fence[0]
    &&& byte_len(fence) >= byte_len(open)
}

/// Whether a fenced block is open, and its opening fence, after a fence line.
pub open spec fn after_fence(in_code: bool, open: Option<Seq<char>>, fence: Seq<char>) -> (
    bool,
    Option<Seq<char>>,
) {
    if in_code {
        match open {
            Some(o) => if fence_closes(o, fence) {
                (false, None)
            } else {
                (true, open)
            },
            None => (true, None),
        }
    } else {
        (true, Some(fence))
    }
}

/// The fence state and the findings after the first `n` lines.
pub open spec fn md054_scan(ls: Seq<Seq<char>>, o: Md054Options, n: int) -> (
    bool,
    Option<Seq<char>>,
    Seq<LintErrorView>,
)
    decreases n,
{
    if n <= 0 {
        (false, None, seq![])
    } else {
        let prev = md054_scan(ls, o, n - 1);
        let t = strip_eol(ls[n - 1]);
        match regex_captures(fence_pattern(), t) {
            Some(g) => {
                let st = after_fence(prev.0, prev.1, group_at(t, g, 1));
                (st.0, st.1, prev.2)
            },
            None => if prev.0 {
                prev
            } else {
                (prev.0, prev.1, prev.2 + line_links(t, o, n))
            },
        }
    }
}

/// The findings of MD054 (none where a pattern is refused).
pub open spec fn md054_errors(ls: Seq<Seq<char>>, c: Config) -> Seq<LintErrorView> {
    if md054_compiles() {
        md054_scan(ls, md054_options(c), ls.len() as int).2
    } else {
        seq![]
    }
}

/// The compiled patterns.
struct Md054Patterns {
    fence: Pattern,
    code: Pattern,
    autolink: Pattern,
    inline: Pattern,
    collapsed: Pattern,
    full: Pattern,
    shortcut: Pattern,
}

impl Md054Patterns {
    spec fn ok(&self) -> bool {
        &&& self.fence@ == fence_pattern()
        &&& self.code@ == code_span_pattern()
        &&& self.autolink@ == autolink_pattern()
        &&& self.inline@ == inline_pattern()
        &&& self.collapsed@ == collapsed_pattern()
        &&& self.full@ == full_pattern()
        &&& self.shortcut@ == shortcut_pattern()
    }
}

fn md054_patterns() -> (r: Option<Md054Patterns>)
    ensures
        r.is_some() == md054_compiles(),
        r matches Some(ps) ==> ps.ok(),
{
    let fence = match compile("^(`{3,}|~{3,})") {
        Some(p) => p,
        None => {
            return None;
        },
    };
    let code = match compile("`[^`]+`") {
        Some(p) => p,
        None => {
            return None;
        },
    };
    let autolink = match compile("<(https?://[^>]+)>") {
        Some(p) => p,
        None => {
            return None;
        },
    };
    let inline = match compile("\\[([^\\]]*)\\]\\(([^)]*)\\)") {
        Some(p) => p,
        None => {
            return None;
        },
    };
    let collapsed = match compile("\\[([^\\]]+)\\]\\[\\]") {
        Some(p) => p,
        None => {
            return None;
        },
    };
    let full = match compile("\\[([^\\]]*)\\]\\[([^\\]]+)\\]") {
        Some(p) => p,
        None => {
            return None;
        },
    };
    let shortcut = match compile("\\[([^\\]]+)\\](?:[^(\\[]|$)") {
        Some(p) => p,
        None => {
            return None;
        },
    };
    Some(Md054Patterns { fence, code, autolink, inline, collapsed, full, shortcut })
}

fn allowed_in(config: &Config, key: &str) -> (r: bool)
    ensures
        r == allowed(*config, key@),
{
    match config.get_bool(key) {
        Some(b) => b,
        None => true,
    }
}

fn detail_of(style: LinkStyle) -> (r: &'static str)
    ensures
        r@ == style_detail(style),
{
    match style {
        LinkStyle::Autolink => "Autolink style is not allowed",
        LinkStyle::Inline => "Inline style is not allowed",
        LinkStyle::Collapsed => "Collapsed reference style is not allowed",
        LinkStyle::Full => "Full reference style is not allowed",
        LinkStyle::Shortcut => "Shortcut reference style is not allowed",
    }
}

/// Replaces each of `spans` by one space per byte.
fn blank_code_spans(t: &Vec<char>, spans: &Vec<(usize, usize)>) -> (r: String)
    requires
        byte_len(t@) <= isize::MAX,
        forall|i: int| 0 <= i < spans@.len() ==> span_in(t@, #[trigger] spans@[i]),
        forall|i: int, j: int|
            0 <= i < j < spans@.len() ==> (#[trigger] spans@[i]).1 <= (#[trigger] spans@[j]).0,
    ensures
        r@ == blank_spans(t@, spans@),
        byte_len(r@) == byte_len(t@),
{
    let mut r = String::new();
    let mut pos: usize = 0;
    let mut k: usize = 0;
    proof {
        lemma_boundary_ends(t@);
    }
    while k < spans.len()
        invariant
            k <= spans@.len(),
            byte_len(t@) <= isize::MAX,
            forall|i: int| 0 <= i < spans@.len() ==> span_in(t@, #[trigger] spans@[i]),
            forall|i: int, j: int|
                0 <= i < j < spans@.len() ==> (#[trigger] spans@[i]).1 <= (#[trigger] spans@[j]).0,
            pos == span_end(spans@, k as int),
            char_boundary(t@, pos as int),
            pos <= byte_len(t@),
            r@ == blank_prefix(t@, spans@, k as int),
            byte_len(r@) == pos,
        decreases spans@.len() - k,
    {
        let s = spans[k];
        assert(span_in(t@, spans@[k as int]));
        if k > 0 {
            assert(spans@[k - 1].1 <= spans@[k as int].0);
        }
        let piece = byte_slice_chars(t, pos, s.0);
        proof {
            lemma_byte_slice_len(t@, pos as int, s.0 as int);
            lemma_byte_len_concat(r@, piece@);
            lemma_byte_len_concat(r@ + piece@, repeat_char(' ', (s.1 - s.0) as nat));
            lemma_byte_len_spaces((s.1 - s.0) as nat);
        }
        push_chars(&mut r, &piece);
        push_repeat(&mut r, ' ', s.1 - s.0);
        pos = s.1;
        k = k + 1;
    }
    let total = utf8_byte_len(t);
    let piece = byte_slice_chars(t, pos, total);
    proof {
        lemma_byte_slice_len(t@, pos as int, total as int);
        lemma_byte_len_concat(r@, piece@);
    }
    push_chars(&mut r, &piece);
    r
}

/// Whether `fence` closes the block opened by `open`.
fn closes(open: &Vec<char>, fence: &Vec<char>) -> (r: bool)
    requires
        byte_len(open@) <= isize::MAX,
        byte_len(fence@) <= isize::MAX,
    ensures
        r == fence_closes(open@, fence@),
{
    open.len() > 0 && fence.len() > 0 && open[0] == fence[0] && utf8_byte_len(fence)
        >= utf8_byte_len(open)
}

/// Some span of `ranges` overlaps `start..end`.
pub fn overlaps(ranges: &Vec<(usize, usize)>, start: usize, end: usize) -> (r: bool)
    ensures
        r == overlaps_any(ranges@, (start, end)),
{
    let mut i: usize = 0;
    while i < ranges.len()
        invariant
            i <= ranges@.len(),
            forall|j: int| 0 <= j < i ==> !(start < (#[trigger] ranges@[j]).1 && end > ranges@[j].0),
        decreases ranges@.len() - i,
    {
        let (s, e) = ranges[i];
        if start < e && end > s {
            return true;
        }
        i = i + 1;
    }
    false
}

/// The matches of a `find_iter`, as one-group matches.
fn as_items(spans: &Vec<(usize, usize)>) -> (r: Vec<Vec<Option<(usize, usize)>>>)
    ensures
        item_views(r@) == find_items(spans@),
{
    let mut r: Vec<Vec<Option<(usize, usize)>>> = Vec::new();
    let mut i: usize = 0;
    while i < spans.len()
        invariant
            i <= spans@.len(),
            item_views(r@) == find_items(spans@.take(i as int)),
        decreases spans@.len() - i,
    {
        let g = vec![Some(spans[i])];
        assert(g@ =~= seq![Some(spans@[i as int])]);
        let ghost before = r@;
        let ghost gv = g@;
        r.push(g);
        proof {
            let a = item_views(r@);
            let b = find_items(spans@.take(i + 1));
            assert(item_views(before).len() == before.len());
            assert(find_items(spans@.take(i as int)).len() == i);
            assert(before.len() == i);
            assert(a.len() == i + 1);
            assert(b.len() == i + 1);
            assert forall|j: int| 0 <= j < a.len() implies a[j] == b[j] by {
                if j == i {
                    assert(r@[j]@ == gv);
                    assert(spans@.take(i + 1)[j] == spans@[j]);
                } else {
                    assert(item_views(before)[j] == find_items(spans@.take(i as int))[j]);
                    assert(spans@.take(i + 1)[j] == spans@.take(i as int)[j]);
                }
            }
            assert(a =~= b);
        }
        i = i + 1;
    }
    assert(spans@.take(spans@.len() as int) =~= spans@);
    r
}

proof fn lemma_find_items_in(p: Seq<char>, spans: Seq<(usize, usize)>)
    requires
        forall|i: int| 0 <= i < spans.len() ==> span_in(p, #[trigger] spans[i]),
    ensures
        forall|i: int| 0 <= i < find_items(spans).len() ==> groups_in(p, #[trigger] find_items(spans)[i]),
{
    assert forall|i: int| 0 <= i < find_items(spans).len() implies groups_in(
        p,
        #[trigger] find_items(spans)[i],
    ) by {
        assert(span_in(p, spans[i]));
        assert(find_items(spans)[i] == seq![Some(spans[i])]);
    }
}

proof fn lemma_caps_in(p: Seq<char>, items: Seq<Vec<Option<(usize, usize)>>>)
    requires
        forall|i: int| 0 <= i < items.len() ==> groups_in(p, #[trigger] items[i]@),
    ensures
        forall|i: int| 0 <= i < item_views(items).len() ==> groups_in(p, #[trigger] item_views(items)[i]),
{
    assert forall|i: int| 0 <= i < item_views(items).len() implies groups_in(
        p,
        #[trigger] item_views(items)[i],
    ) by {
        assert(groups_in(p, items[i]@));
    }
}

impl MD054 {
    pub fn names(&self) -> (r: Vec<&'static str>)
        ensures
            names_view(r@) == md054_meta().names,
    {
        let r = vec!["MD054", "link-image-style"];
        assert(names_view(r@) =~= md054_meta().names);
        r
    }

    pub fn description(&self) -> (r: &'static str)
        ensures
            r@ == md054_meta().description,
    {
        "Link and image style"
    }

    pub fn tags(&self) -> (r: Vec<&'static str>)
        ensures
            names_view(r@) == seq!["links"@, "images"@, "fixable"@],
    {
        let r = vec!["links", "images", "fixable"];
        assert(names_view(r@) =~= seq!["links"@, "images"@, "fixable"@]);
        r
    }

    pub fn parser_type(&self) -> (r: ParserType)
        ensures
            r == ParserType::Plain,
    {
        ParserType::Plain
    }

    pub fn information(&self) -> (r: Option<&'static str>)
        ensures
            opt_str(r) == md054_meta().information,
    {
        Some("https://github.com/DavidAnson/markdownlint/blob/main/doc/md054.md")
    }

    fn link_error_of(
        &self,
        p: &Vec<char>,
        g: &Vec<Option<(usize, usize)>>,
        style: LinkStyle,
        o: Md054Options,
        ln: usize,
        names: &Vec<&'static str>,
    ) -> (e: LintError)
        requires
            byte_len(p@) <= isize::MAX,
            groups_in(p@, g@),
            names_view(names@) == md054_meta().names,
        ensures
            e@ == link_error(p@, g@, style, o, ln as int),
    {
        let s = match g[0] {
            Some(s) => s,
            None => (0, 0),
        };
        assert(span_in(p@, s));
        let mut e = LintError::new(ln, names, self.description(), self.information());
        e.error_detail = Some(text(detail_of(style)));
        e.error_context = Some(string_of(&byte_slice_chars(p, s.0, s.1)));
        e.error_range = Some((s.0 + 1, s.1 - s.0));
        let len = s.1 - s.0;
        e.fix_info = match style {
            LinkStyle::Autolink => {
                if o.inline {
                    let url = group_chars(p, g, 1);
                    let mut ins = text("[");
                    push_chars(&mut ins, &url);
                    push_str(&mut ins, "](");
                    push_chars(&mut ins, &url);
                    push_str(&mut ins, ")");
                    Some(
                        FixInfo {
                            line_number: None,
                            edit_column: Some(s.0 + 1),
                            delete_count: Some(len as i32),
                            insert_text: Some(ins),
                        },
                    )
                } else {
                    None
                }
            },
            LinkStyle::Collapsed => {
                if o.shortcut {
                    let rep = if s.1 >= s.0 + 2 {
                        byte_slice_chars(p, s.0, s.1 - 2)
                    } else {
                        Vec::new()
                    };
                    Some(
                        FixInfo {
                            line_number: None,
                            edit_column: Some(s.0 + 1),
                            delete_count: Some(len as i32),
                            insert_text: Some(string_of(&rep)),
                        },
                    )
                } else {
                    None
                }
            },
            LinkStyle::Shortcut => {
                if o.collapsed {
                    let glen: usize = if 1 < g.len() {
                        match g[1] {
                            Some(x) => {
                                assert(span_in(p@, x)) by {
                                    assert(g@[1] == Some(x));
                                }
                                x.1 - x.0
                            },
                            None => 0,
                        }
                    } else {
                        0
                    };
                    let col = (s.0 as u128 + glen as u128 + 3) as usize;
                    Some(
                        FixInfo {
                            line_number: None,
                            edit_column: Some(col),
                            delete_count: Some(0),
                            insert_text: Some(text("[]")),
                        },
                    )
                } else {
                    None
                }
            },
            _ => None,
        };
        e.suggestion = Some(text("Use consistent link and image reference style"));
        e
    }

    /// One style's pass over its matches.
    fn stage(
        &self,
        p: &Vec<char>,
        items: &Vec<Vec<Option<(usize, usize)>>>,
        ranges: &mut Vec<(usize, usize)>,
        errors: &mut Vec<LintError>,
        check: bool,
        report: bool,
        style: LinkStyle,
        o: Md054Options,
        ln: usize,
        names: &Vec<&'static str>,
    )
        requires
            byte_len(p@) <= isize::MAX,
            forall|i: int| 0 <= i < items@.len() ==> groups_in(p@, #[trigger] items@[i]@),
            names_view(names@) == md054_meta().names,
        ensures
            final(ranges)@ == run_stage(
                p@,
                item_views(items@),
                old(ranges)@,
                check,
                report,
                style,
                o,
                ln as int,
            ).0,
            errors_view(final(errors)@) == errors_view(old(errors)@) + run_stage(
                p@,
                item_views(items@),
                old(ranges)@,
                check,
                report,
                style,
                o,
                ln as int,
            ).1,
    {
        proof {
            reveal(stage);
        }
        let ghost iv = item_views(items@);
        let ghost r0 = ranges@;
        let ghost e0 = errors_view(errors@);
        let mut k: usize = 0;
        while k < items.len()
            invariant
                k <= items@.len(),
                iv == item_views(items@),
                byte_len(p@) <= isize::MAX,
                forall|i: int| 0 <= i < items@.len() ==> groups_in(p@, #[trigger] items@[i]@),
                names_view(names@) == md054_meta().names,
                ranges@ == stage(p@, iv, r0, check, report, style, o, ln as int, k as int).0,
                errors_view(errors@) == e0 + stage(p@, iv, r0, check, report, style, o, ln as int, k as int).1,
            decreases items@.len() - k,
        {
            proof {
                reveal(stage);
            }
            let g = &items[k];
            assert(groups_in(p@, items@[k as int]@));
            assert(iv[k as int] == g@);
            let s = match g[0] {
                Some(s) => s,
                None => (0, 0),
            };
            let ov = if check {
                overlaps(ranges, s.0, s.1)
            } else {
                false
            };
            if !ov {
                ranges.push(s);
                if report {
                    let e = self.link_error_of(p, g, style, o, ln, names);
                    let ghost before = errors_view(errors@);
                    errors.push(e);
                    assert(errors_view(errors@) =~= before.push(e@));
                }
            }
            k = k + 1;
        }
    }

    /// The findings on one line outside fenced code.
    #[verifier::rlimit(40)]
    fn line_links(
        &self,
        t: &Vec<char>,
        ps: &Md054Patterns,
        o: Md054Options,
        ln: usize,
        names: &Vec<&'static str>,
        errors: &mut Vec<LintError>,
    )
        requires
            byte_len(t@) <= isize::MAX,
            ps.ok(),
            names_view(names@) == md054_meta().names,
        ensures
            errors_view(final(errors)@) == errors_view(old(errors)@) + line_links(t@, o, ln as int),
    {
        let ts = string_of(t);
        let spans = find_all(&ps.code, ts.as_str());
        let p = blank_code_spans(t, &spans);
        let pv = chars_of(p.as_str());
        let ghost pp = link_text(t@);
        assert(pv@ == pp);
        let ghost e0 = errors_view(errors@);
        let mut ranges: Vec<(usize, usize)> = Vec::new();
        let ghost a_items = if !o.autolink {
            regex_captures_all(autolink_pattern(), pp)
        } else {
            find_items(regex_find_all(autolink_pattern(), pp))
        };
        if !o.autolink {
            let items = captures_all(&ps.autolink, p.as_str());
            proof {
                lemma_caps_in(pp, items@);
            }
            self.stage(&pv, &items, &mut ranges, errors, false, true, LinkStyle::Autolink, o, ln, names);
        } else {
            let spans_a = find_all(&ps.autolink, p.as_str());
            let items = as_items(&spans_a);
            proof {
                lemma_find_items_in(pp, spans_a@);
                assert forall|i: int| 0 <= i < items@.len() implies groups_in(pp, #[trigger] items@[i]@) by {
                    assert(item_views(items@)[i] == items@[i]@);
                }
            }
            self.stage(&pv, &items, &mut ranges, errors, false, false, LinkStyle::Autolink, o, ln, names);
        }
        let ghost a = run_stage(pp, a_items, seq![], false, !o.autolink, LinkStyle::Autolink, o, ln as int);
        assert(ranges@ == a.0);
        assert(errors_view(errors@) == e0 + a.1);

        let spans_b = find_all(&ps.inline, p.as_str());
        let items_b = as_items(&spans_b);
        proof {
            lemma_find_items_in(pp, spans_b@);
            assert forall|i: int| 0 <= i < items_b@.len() implies groups_in(pp, #[trigger] items_b@[i]@) by {
                assert(item_views(items_b@)[i] == items_b@[i]@);
            }
        }
        self.stage(&pv, &items_b, &mut ranges, errors, true, !o.inline, LinkStyle::Inline, o, ln, names);
        let ghost b = run_stage(pp, find_items(regex_find_all(inline_pattern(), pp)), a.0, true, !o.inline, LinkStyle::Inline, o, ln as int);

        let spans_c = find_all(&ps.collapsed, p.as_str());
        let items_c = as_items(&spans_c);
        proof {
            lemma_find_items_in(pp, spans_c@);
            assert forall|i: int| 0 <= i < items_c@.len() implies groups_in(pp, #[trigger] items_c@[i]@) by {
                assert(item_views(items_c@)[i] == items_c@[i]@);
            }
        }
        self.stage(&pv, &items_c, &mut ranges, errors, true, !o.collapsed, LinkStyle::Collapsed, o, ln, names);
        let ghost c = run_stage(pp, find_items(regex_find_all(collapsed_pattern(), pp)), b.0, true, !o.collapsed, LinkStyle::Collapsed, o, ln as int);

        let spans_d = find_all(&ps.full, p.as_str());
        let items_d = as_items(&spans_d);
        proof {
            lemma_find_items_in(pp, spans_d@);
            assert forall|i: int| 0 <= i < items_d@.len() implies groups_in(pp, #[trigger] items_d@[i]@) by {
                assert(item_views(items_d@)[i] == items_d@[i]@);
            }
        }
        self.stage(&pv, &items_d, &mut ranges, errors, true, !o.full, LinkStyle::Full, o, ln, names);
        let ghost d = run_stage(pp, find_items(regex_find_all(full_pattern(), pp)), c.0, true, !o.full, LinkStyle::Full, o, ln as int);
        assert(errors_view(errors@) == e0 + a.1 + b.1 + c.1 + d.1);

        if !o.shortcut {
            let items_e = captures_all(&ps.shortcut, p.as_str());
            proof {
                lemma_caps_in(pp, items_e@);
            }
            self.stage(&pv, &items_e, &mut ranges, errors, true, true, LinkStyle::Shortcut, o, ln, names);
        }
        assert(errors_view(errors@) =~= e0 + line_links(t@, o, ln as int));
    }

    pub fn lint(&self, params: &RuleParams) -> (errors: Vec<LintError>)
        requires
            lines_fit(params.lines@),
        ensures
            errors_view(errors@) == md054_errors(views(params.lines@), *params.config),
    {
        let lines = params.lines;
        let ghost ls = views(lines@);
        let mut errors: Vec<LintError> = Vec::new();
        let ps = match md054_patterns() {
            Some(ps) => ps,
            None => {
                assert(errors_view(errors@) =~= seq![]);
                return errors;
            },
        };
        let o = Md054Options {
            autolink: allowed_in(params.config, "autolink"),
            inline: allowed_in(params.config, "inline"),
            full: allowed_in(params.config, "full"),
            collapsed: allowed_in(params.config, "collapsed"),
            shortcut: allowed_in(params.config, "shortcut"),
        };
        assert(o == md054_options(*params.config));
        let names = self.names();
        let mut in_code = false;
        let mut open: Option<Vec<char>> = None;
        let n = lines.len();
        let mut i: usize = 0;
        assert(errors_view(errors@) =~= seq![]);
        while i < n
            invariant
                n == lines@.len(),
                i <= n,
                ls == views(lines@),
                lines_fit(lines@),
                ps.ok(),
                names_view(names@) == md054_meta().names,
                open matches Some(v) ==> byte_len(v@) <= isize::MAX,
                md054_scan(ls, o, i as int) == (
                    in_code,
                    match open {
                        Some(v) => Some(v@),
                        None => None,
                    },
                    errors_view(errors@),
                ),
            decreases n - i,
        {
            let t = line_body(lines, i);
            proof {
                assert(byte_len(lines@[i as int]@) <= isize::MAX);
                lemma_strip_eol_prefix(lines@[i as int]@);
            }
            let ts = string_of(&t);
            match captures(&ps.fence, ts.as_str()) {
                Some(g) => {
                    let fence = group_chars(&t, &g, 1);
                    proof {
                        if 1 < g@.len() {
                            if let Some(s) = g@[1] {
                                lemma_byte_slice_bound(t@, s.0 as int, s.1 as int);
                            }
                        }
                    }
                    if in_code {
                        let close = match &open {
                            Some(op) => closes(op, &fence),
                            None => false,
                        };
                        if close {
                            in_code = false;
                            open = None;
                        }
                    } else {
                        in_code = true;
                        open = Some(fence);
                    }
                },
                None => {
                    if !in_code {
                        self.line_links(&t, &ps, o, i + 1, &names, &mut errors);
                    }
                },
            }
            i = i + 1;
        }
        errors
    }
}

proof fn lemma_stage_silent(
    p: Seq<char>,
    items: Seq<Seq<Option<(usize, usize)>>>,
    r0: Seq<(usize, usize)>,
    check: bool,
    style: LinkStyle,
    o: Md054Options,
    ln: int,
    k: int,
)
    ensures
        stage(p, items, r0, check, false, style, o, ln, k).1 == Seq::<LintErrorView>::empty(),
    decreases k,
{
    reveal(stage);
    if k > 0 {
        lemma_stage_silent(p, items, r0, check, style, o, ln, k - 1);
    }
}

proof fn lemma_md054_scan_silent(ls: Seq<Seq<char>>, o: Md054Options, n: int)
    requires
        o.autolink && o.inline && o.full && o.collapsed && o.shortcut,
    ensures
        md054_scan(ls, o, n).2 == Seq::<LintErrorView>::empty(),
    decreases n,
{
    if n > 0 {
        lemma_md054_scan_silent(ls, o, n - 1);
        let t = strip_eol(ls[n - 1]);
        let p = link_text(t);
        let a_items = find_items(regex_find_all(autolink_pattern(), p));
        lemma_stage_silent(p, a_items, seq![], false, LinkStyle::Autolink, o, n, a_items.len() as int);
        let a = run_stage(p, a_items, seq![], false, false, LinkStyle::Autolink, o, n);
        let bi = find_items(regex_find_all(inline_pattern(), p));
        lemma_stage_silent(p, bi, a.0, true, LinkStyle::Inline, o, n, bi.len() as int);
        let b = run_stage(p, bi, a.0, true, false, LinkStyle::Inline, o, n);
        let ci = find_items(regex_find_all(collapsed_pattern(), p));
        lemma_stage_silent(p, ci, b.0, true, LinkStyle::Collapsed, o, n, ci.len() as int);
        let c = run_stage(p, ci, b.0, true, false, LinkStyle::Collapsed, o, n);
        let di = find_items(regex_find_all(full_pattern(), p));
        lemma_stage_silent(p, di, c.0, true, LinkStyle::Full, o, n, di.len() as int);
        let e: Seq<LintErrorView> = seq![];
        assert(line_links(t, o, n) =~= e);
        assert(md054_scan(ls, o, n - 1).2 + e =~= e);
    }
}

/// With every link and image style allowed (as by default), MD054 reports
/// nothing.
pub proof fn lemma_md054_all_allowed(ls: Seq<Seq<char>>, c: Config)
    requires
        allowed(c, "autolink"@),
        allowed(c, "inline"@),
        allowed(c, "full"@),
        allowed(c, "collapsed"@),
        allowed(c, "shortcut"@),
    ensures
        md054_errors(ls, c) == Seq::<LintErrorView>::empty(),
{
    lemma_md054_scan_silent(ls, md054_options(c), ls.len() as int);
}

proof fn lemma_stage_details(
    p: Seq<char>,
    items: Seq<Seq<Option<(usize, usize)>>>,
    r0: Seq<(usize, usize)>,
    check: bool,
    report: bool,
    style: LinkStyle,
    o: Md054Options,
    ln: int,
    k: int,
)
    ensures
        forall|j: int|
            0 <= j < stage(p, items, r0, check, report, style, o, ln, k).1.len() ==> report && (#[trigger] stage(
                p,
                items,
                r0,
                check,
                report,
                style,
                o,
                ln,
                k,
            ).1[j]).detail == Some(style_detail(style)) && stage(p, items, r0, check, report, style, o, ln, k).1[j].line_number
                == ln,
    decreases k,
{
    reveal(stage);
    if k > 0 {
        lemma_stage_details(p, items, r0, check, report, style, o, ln, k - 1);
        let prev = stage(p, items, r0, check, report, style, o, ln, k - 1);
        let cur = stage(p, items, r0, check, report, style, o, ln, k);
        assert forall|j: int| 0 <= j < cur.1.len() implies report && (#[trigger] cur.1[j]).detail == Some(
            style_detail(style),
        ) && cur.1[j].line_number == ln by {
            if j < prev.1.len() {
                assert(cur.1[j] == prev.1[j]);
            }
        }
    }
}

proof fn lemma_stage_all(
    p: Seq<char>,
    items: Seq<Seq<Option<(usize, usize)>>>,
    style: LinkStyle,
    o: Md054Options,
    ln: int,
    k: int,
)
    requires
        0 <= k <= items.len(),
        forall|i: int, j: int| 0 <= i < j < items.len() ==> span0(#[trigger] items[i]).1 <= span0(#[trigger] items[j]).0,
    ensures
        stage(p, items, seq![], true, true, style, o, ln, k).0.len() == k,
        stage(p, items, seq![], true, true, style, o, ln, k).1.len() == k,
        forall|q: int|
            0 <= q < k ==> #[trigger] stage(p, items, seq![], true, true, style, o, ln, k).0[q] == span0(items[q]),
        forall|q: int|
            0 <= q < k ==> #[trigger] stage(p, items, seq![], true, true, style, o, ln, k).1[q] == link_error(
                p,
                items[q],
                style,
                o,
                ln,
            ),
    decreases k,
{
    reveal(stage);
    if k > 0 {
        lemma_stage_all(p, items, style, o, ln, k - 1);
        let prev = stage(p, items, seq![], true, true, style, o, ln, k - 1);
        let sp = span0(items[k - 1]);
        assert(!overlaps_any(prev.0, sp)) by {
            if overlaps_any(prev.0, sp) {
                let i = choose|i: int| 0 <= i < prev.0.len() && sp.0 < (#[trigger] prev.0[i]).1 && sp.1 > prev.0[i].0;
                assert(prev.0[i] == span0(items[i]));
                assert(span0(items[i]).1 <= span0(items[k - 1]).0);
            }
        }
        let cur = stage(p, items, seq![], true, true, style, o, ln, k);
        assert forall|q: int| 0 <= q < k implies #[trigger] cur.0[q] == span0(items[q]) by {
            if q < k - 1 {
                assert(cur.0[q] == prev.0[q]);
            }
        }
        assert forall|q: int| 0 <= q < k implies #[trigger] cur.1[q] == link_error(p, items[q], style, o, ln) by {
            if q < k - 1 {
                assert(cur.1[q] == prev.1[q]);
            }
        }
    }
}

proof fn lemma_md054_scan_grows(ls: Seq<Seq<char>>, o: Md054Options, n: int, m: int)
    requires
        0 <= n <= m,
    ensures
        md054_scan(ls, o, n).2.len() <= md054_scan(ls, o, m).2.len(),
        forall|j: int| 0 <= j < md054_scan(ls, o, n).2.len() ==> #[trigger] md054_scan(ls, o, m).2[j] == md054_scan(ls, o, n).2[j],
    decreases m - n,
{
    if n < m {
        lemma_md054_scan_grows(ls, o, n, m - 1);
    }
}

/// Whether the options allow the style.
pub open spec fn style_allowed(o: Md054Options, st: LinkStyle) -> bool {
    match st {
        LinkStyle::Autolink => o.autolink,
        LinkStyle::Inline => o.inline,
        LinkStyle::Collapsed => o.collapsed,
        LinkStyle::Full => o.full,
        LinkStyle::Shortcut => o.shortcut,
    }
}

/// The option that allows the style.
pub open spec fn style_key(st: LinkStyle) -> Seq<char> {
    match st {
        LinkStyle::Autolink => "autolink"@,
        LinkStyle::Inline => "inline"@,
        LinkStyle::Collapsed => "collapsed"@,
        LinkStyle::Full => "full"@,
        LinkStyle::Shortcut => "shortcut"@,
    }
}

proof fn lemma_details_differ(a: LinkStyle, b: LinkStyle)
    requires
        a != b,
    ensures
        style_detail(a) != style_detail(b),
{
    reveal_strlit("Inline style is not allowed");
    reveal_strlit("Autolink style is not allowed");
    reveal_strlit("Collapsed reference style is not allowed");
    reveal_strlit("Full reference style is not allowed");
    reveal_strlit("Shortcut reference style is not allowed");
    assert(style_detail(a)[0] != style_detail(b)[0]);
}

proof fn lemma_line_links_details(t: Seq<char>, o: Md054Options, ln: int, st: LinkStyle)
    ensures
        forall|j: int|
            0 <= j < line_links(t, o, ln).len() ==> (#[trigger] line_links(t, o, ln)[j]).line_number == ln && (
            line_links(t, o, ln)[j].detail == Some(style_detail(st)) ==> !style_allowed(o, st)),
{
    let p = link_text(t);
    let a_items = if !o.autolink {
        regex_captures_all(autolink_pattern(), p)
    } else {
        find_items(regex_find_all(autolink_pattern(), p))
    };
    let a = run_stage(p, a_items, seq![], false, !o.autolink, LinkStyle::Autolink, o, ln);
    let bi = find_items(regex_find_all(inline_pattern(), p));
    let b = run_stage(p, bi, a.0, true, !o.inline, LinkStyle::Inline, o, ln);
    let ci = find_items(regex_find_all(collapsed_pattern(), p));
    let c = run_stage(p, ci, b.0, true, !o.collapsed, LinkStyle::Collapsed, o, ln);
    let di = find_items(regex_find_all(full_pattern(), p));
    let d = run_stage(p, di, c.0, true, !o.full, LinkStyle::Full, o, ln);
    let si = regex_captures_all(shortcut_pattern(), p);
    lemma_stage_details(p, a_items, seq![], false, !o.autolink, LinkStyle::Autolink, o, ln, a_items.len() as int);
    lemma_stage_details(p, bi, a.0, true, !o.inline, LinkStyle::Inline, o, ln, bi.len() as int);
    lemma_stage_details(p, ci, b.0, true, !o.collapsed, LinkStyle::Collapsed, o, ln, ci.len() as int);
    lemma_stage_details(p, di, c.0, true, !o.full, LinkStyle::Full, o, ln, di.len() as int);
    lemma_stage_details(p, si, d.0, true, true, LinkStyle::Shortcut, o, ln, si.len() as int);
    let e = if !o.shortcut {
        run_stage(p, si, d.0, true, true, LinkStyle::Shortcut, o, ln).1
    } else {
        seq![]
    };
    let all = line_links(t, o, ln);
    assert(all == a.1 + b.1 + c.1 + d.1 + e);
    assert forall|j: int| 0 <= j < all.len() implies (#[trigger] all[j]).line_number == ln && (all[j].detail == Some(
        style_detail(st),
    ) ==> !style_allowed(o, st)) by {
        let la = a.1.len();
        let lb = la + b.1.len();
        let lc = lb + c.1.len();
        let ld = lc + d.1.len();
        let from = if j < la {
            assert(all[j] == a.1[j]);
            LinkStyle::Autolink
        } else if j < lb {
            assert(all[j] == b.1[j - la]);
            LinkStyle::Inline
        } else if j < lc {
            assert(all[j] == c.1[j - lb]);
            LinkStyle::Collapsed
        } else if j < ld {
            assert(all[j] == d.1[j - lc]);
            LinkStyle::Full
        } else {
            assert(all[j] == e[j - ld]);
            LinkStyle::Shortcut
        };
        assert(all[j].detail == Some(style_detail(from)));
        assert(!style_allowed(o, from));
        if from != st {
            lemma_details_differ(from, st);
        }
    }
}

proof fn lemma_md054_scan_details(ls: Seq<Seq<char>>, o: Md054Options, n: int, st: LinkStyle)
    ensures
        forall|j: int|
            0 <= j < md054_scan(ls, o, n).2.len() ==> ((#[trigger] md054_scan(ls, o, n).2[j]).detail == Some(
                style_detail(st),
            ) ==> !style_allowed(o, st)),
    decreases n,
{
    if n > 0 {
        lemma_md054_scan_details(ls, o, n - 1, st);
        let prev = md054_scan(ls, o, n - 1);
        let cur = md054_scan(ls, o, n);
        let t = strip_eol(ls[n - 1]);
        lemma_line_links_details(t, o, n, st);
        assert forall|j: int| 0 <= j < cur.2.len() && (#[trigger] cur.2[j]).detail == Some(style_detail(st)) implies !style_allowed(
            o,
            st,
        ) by {
            if j < prev.2.len() {
                assert(cur.2[j] == prev.2[j]);
            } else {
                let ll = line_links(t, o, n);
                assert(cur.2 == prev.2 + ll);
                assert(cur.2[j] == ll[j - prev.2.len()]);
            }
        }
    }
}

/// A style the options allow is never reported: no finding names it.
pub proof fn lemma_md054_allowed_silent(ls: Seq<Seq<char>>, c: Config, st: LinkStyle)
    requires
        allowed(c, style_key(st)),
    ensures
        forall|j: int|
            0 <= j < md054_errors(ls, c).len() ==> (#[trigger] md054_errors(ls, c)[j]).detail != Some(style_detail(st)),
{
    lemma_md054_scan_details(ls, md054_options(c), ls.len() as int, st);
}

proof fn lemma_stage_unchecked(
    p: Seq<char>,
    items: Seq<Seq<Option<(usize, usize)>>>,
    style: LinkStyle,
    o: Md054Options,
    ln: int,
    k: int,
)
    requires
        0 <= k <= items.len(),
    ensures
        stage(p, items, seq![], false, true, style, o, ln, k).1.len() == k,
        forall|q: int|
            0 <= q < k ==> #[trigger] stage(p, items, seq![], false, true, style, o, ln, k).1[q] == link_error(
                p,
                items[q],
                style,
                o,
                ln,
            ),
    decreases k,
{
    reveal(stage);
    if k > 0 {
        lemma_stage_unchecked(p, items, style, o, ln, k - 1);
        let prev = stage(p, items, seq![], false, true, style, o, ln, k - 1);
        let cur = stage(p, items, seq![], false, true, style, o, ln, k);
        assert forall|q: int| 0 <= q < k implies #[trigger] cur.1[q] == link_error(p, items[q], style, o, ln) by {
            if q < k - 1 {
                assert(cur.1[q] == prev.1[q]);
            }
        }
    }
}

/// Some finding of `es` on line `ln` reports an autolink at the byte span
/// `m` of the line's text.
pub open spec fn autolink_reported(es: Seq<LintErrorView>, ln: int, m: (usize, usize)) -> bool {
    exists|j: int|
        0 <= j < es.len() && #[trigger] es[j].line_number == ln && es[j].detail == Some(
            style_detail(LinkStyle::Autolink),
        ) && es[j].range == Some(((m.0 + 1) as usize, (m.1 - m.0) as usize))
}

/// With autolinks forbidden, every autolink on a line outside fenced
/// blocks is reported on that line with its range.
pub proof fn lemma_md054_autolink(ls: Seq<Seq<char>>, c: Config, n: int)
    requires
        1 <= n <= ls.len(),
    ensures
        ({
            let o = md054_options(c);
            let t = strip_eol(ls[n - 1]);
            let p = link_text(t);
            let gs = regex_captures_all(autolink_pattern(), p);
            (md054_compiles() && !allowed(c, "autolink"@) && regex_captures(fence_pattern(), t) is None
                && !md054_scan(ls, o, n - 1).0) ==> forall|q: int|
                0 <= q < gs.len() ==> autolink_reported(md054_errors(ls, c), n, span0(#[trigger] gs[q]))
        }),
{
    let o = md054_options(c);
    let len = ls.len() as int;
    let t = strip_eol(ls[n - 1]);
    let p = link_text(t);
    let gs = regex_captures_all(autolink_pattern(), p);
    if md054_compiles() && !allowed(c, "autolink"@) && regex_captures(fence_pattern(), t) is None && !md054_scan(
        ls,
        o,
        n - 1,
    ).0 {
        lemma_stage_unchecked(p, gs, LinkStyle::Autolink, o, n, gs.len() as int);
        let a = run_stage(p, gs, seq![], false, true, LinkStyle::Autolink, o, n);
        let ll = line_links(t, o, n);
        let prev = md054_scan(ls, o, n - 1);
        assert(md054_scan(ls, o, n).2 == prev.2 + ll);
        lemma_md054_scan_grows(ls, o, n, len);
        assert forall|q: int| 0 <= q < gs.len() implies autolink_reported(md054_errors(ls, c), n, span0(
            #[trigger] gs[q],
        )) by {
            assert(ll[q] == a.1[q]);
            let j = prev.2.len() + q;
            assert(md054_scan(ls, o, n).2[j] == ll[q]);
            assert(md054_errors(ls, c)[j] == ll[q]);
            let e = link_error(p, gs[q], LinkStyle::Autolink, o, n);
            assert(ll[q] == e);
            assert(e.line_number == n);
        }
    }
}

/// Some finding of `es` on line `ln` reports a link of style `st` at the
/// byte span `m` of the line's text.
pub open spec fn style_reported(es: Seq<LintErrorView>, ln: int, st: LinkStyle, m: (usize, usize)) -> bool {
    exists|j: int|
        0 <= j < es.len() && #[trigger] es[j].line_number == ln && es[j].detail == Some(style_detail(st))
            && es[j].range == Some(((m.0 + 1) as usize, (m.1 - m.0) as usize))
}

/// The text holds no match of a style checked before `st`.
pub open spec fn earlier_empty(p: Seq<char>, st: LinkStyle) -> bool {
    let none_auto = regex_find_all(autolink_pattern(), p).len() == 0 && regex_captures_all(autolink_pattern(), p).len()
        == 0;
    let none_inline = regex_find_all(inline_pattern(), p).len() == 0;
    let none_coll = regex_find_all(collapsed_pattern(), p).len() == 0;
    let none_full = regex_find_all(full_pattern(), p).len() == 0;
    match st {
        LinkStyle::Autolink => true,
        LinkStyle::Inline => none_auto,
        LinkStyle::Collapsed => none_auto && none_inline,
        LinkStyle::Full => none_auto && none_inline && none_coll,
        LinkStyle::Shortcut => none_auto && none_inline && none_coll && none_full,
    }
}

/// The matches of style `st` (other than autolinks) in the text, as groups.
pub open spec fn style_items(p: Seq<char>, st: LinkStyle) -> Seq<Seq<Option<(usize, usize)>>> {
    match st {
        LinkStyle::Autolink => regex_captures_all(autolink_pattern(), p),
        LinkStyle::Inline => find_items(regex_find_all(inline_pattern(), p)),
        LinkStyle::Collapsed => find_items(regex_find_all(collapsed_pattern(), p)),
        LinkStyle::Full => find_items(regex_find_all(full_pattern(), p)),
        LinkStyle::Shortcut => regex_captures_all(shortcut_pattern(), p),
    }
}

/// With a style forbidden, on a line outside fenced blocks whose text (code
/// spans blanked) holds no match of a style checked before it, every link
/// of that style is reported on that line with its range (the matches
/// coming in order without overlap, as the regex iterators give them).
#[verifier::rlimit(30)]
pub proof fn lemma_md054_forbidden_reported(ls: Seq<Seq<char>>, c: Config, n: int, st: LinkStyle)
    requires
        1 <= n <= ls.len(),
        st != LinkStyle::Autolink,
    ensures
        ({
            let o = md054_options(c);
            let t = strip_eol(ls[n - 1]);
            let p = link_text(t);
            let gs = style_items(p, st);
            (md054_compiles() && !allowed(c, style_key(st)) && regex_captures(fence_pattern(), t) is None
                && !md054_scan(ls, o, n - 1).0 && earlier_empty(p, st) && (forall|i: int, j: int|
                0 <= i < j < gs.len() ==> span0(#[trigger] gs[i]).1 <= span0(#[trigger] gs[j]).0)) ==> forall|q: int|
                0 <= q < gs.len() ==> style_reported(md054_errors(ls, c), n, st, span0(#[trigger] gs[q]))
        }),
{
    let o = md054_options(c);
    let len = ls.len() as int;
    let t = strip_eol(ls[n - 1]);
    let p = link_text(t);
    let gs = style_items(p, st);
    if md054_compiles() && !allowed(c, style_key(st)) && regex_captures(fence_pattern(), t) is None && !md054_scan(
        ls,
        o,
        n - 1,
    ).0 && earlier_empty(p, st) && (forall|i: int, j: int|
        0 <= i < j < gs.len() ==> span0(#[trigger] gs[i]).1 <= span0(#[trigger] gs[j]).0) {
        reveal(stage);
        let a_items = if !o.autolink {
            regex_captures_all(autolink_pattern(), p)
        } else {
            find_items(regex_find_all(autolink_pattern(), p))
        };
        let a = run_stage(p, a_items, seq![], false, !o.autolink, LinkStyle::Autolink, o, n);
        let bi = find_items(regex_find_all(inline_pattern(), p));
        let b = run_stage(p, bi, a.0, true, !o.inline, LinkStyle::Inline, o, n);
        let ci = find_items(regex_find_all(collapsed_pattern(), p));
        let cc = run_stage(p, ci, b.0, true, !o.collapsed, LinkStyle::Collapsed, o, n);
        let di = find_items(regex_find_all(full_pattern(), p));
        let d = run_stage(p, di, cc.0, true, !o.full, LinkStyle::Full, o, n);
        let si = regex_captures_all(shortcut_pattern(), p);
        let e = if !o.shortcut {
            run_stage(p, si, d.0, true, true, LinkStyle::Shortcut, o, n).1
        } else {
            seq![]
        };
        let ll = line_links(t, o, n);
        assert(ll == a.1 + b.1 + cc.1 + d.1 + e);
        assert(a_items.len() == 0);
        assert(a.0 =~= Seq::<(usize, usize)>::empty());
        assert(a.1 =~= Seq::<LintErrorView>::empty());
        lemma_stage_all(p, gs, st, o, n, gs.len() as int);
        let x = run_stage(p, gs, seq![], true, true, st, o, n);
        let pre_len: int = 0;
        if st != LinkStyle::Inline {
            assert(bi.len() == 0);
            assert(b.0 =~= Seq::<(usize, usize)>::empty());
            assert(b.1 =~= Seq::<LintErrorView>::empty());
            if st != LinkStyle::Collapsed {
                assert(ci.len() == 0);
                assert(cc.0 =~= Seq::<(usize, usize)>::empty());
                assert(cc.1 =~= Seq::<LintErrorView>::empty());
                if st != LinkStyle::Full {
                    assert(di.len() == 0);
                    assert(d.0 =~= Seq::<(usize, usize)>::empty());
                    assert(d.1 =~= Seq::<LintErrorView>::empty());
                    assert(e == x.1);
                    assert(ll =~= x.1);
                } else {
                    assert(d == x);
                    assert(ll =~= x.1 + e);
                }
            } else {
                assert(cc == x);
                assert(ll =~= x.1 + d.1 + e);
            }
        } else {
            assert(b == x);
            assert(ll =~= x.1 + cc.1 + d.1 + e);
        }
        let prev = md054_scan(ls, o, n - 1);
        assert(md054_scan(ls, o, n).2 == prev.2 + ll);
        lemma_md054_scan_grows(ls, o, n, len);
        assert forall|q: int| 0 <= q < gs.len() implies style_reported(md054_errors(ls, c), n, st, span0(
            #[trigger] gs[q],
        )) by {
            assert(ll[q] == x.1[q]);
            let j = prev.2.len() + q;
            assert(md054_scan(ls, o, n).2[j] == ll[q]);
            assert(md054_errors(ls, c)[j] == x.1[q]);
            let e1 = link_error(p, gs[q], st, o, n);
            assert(e1.line_number == n);
        }
    }
}

} // verus!
