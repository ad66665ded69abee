//! KMD005 - No duplicate heading IDs.
//!
//! In Kramdown each heading gets an ID, from an explicit `{#id}` or else
//! from an automatic slug of its text. A second heading with the same ID is
//! reported, with a fix that gives it the ID `id-N`, N counting the headings
//! with that ID so far.

use vstd::prelude::*;
use crate::text::{
    all_char, all_chars_are, byte_len, char_is_alphanumeric, char_lowercase, chars_of, decimal,
    is_alphanumeric, lemma_strip_eol_prefix, line_body, lowercase_char, push_chars, push_decimal,
    push_str, strip_eol, string_of, text, trim, trim_end_char, trim_end_char_vec, trim_start_char,
    trim_start_char_vec, trim_vec, utf8_byte_len, views,
};
use crate::types::{
    base_error, errors_view, fix_view, lines_fit, names_view, FixInfo, LintError, LintErrorView,
    ParserType, RuleMeta, RuleParams,
};
use crate::helpers::{code_fence, is_code_fence};
use crate::pattern::{
    captures, compile, group_at, group_chars, regex_captures, regex_compiles, Pattern,
};

verus! {

pub struct KMD005;

pub open spec fn kmd005_meta() -> RuleMeta {
    RuleMeta {
        names: seq!["KMD005"@, "no-duplicate-heading-ids"@],
        description: "Heading IDs must be unique within the document"@,
        information: None,
    }
}

/// An ATX heading, with an optional trailing attribute list.
pub open spec fn atx_pattern() -> Seq<char> {
    "^(#{1,6})\\s+(.+?)(?:\\s*\\{[^}]*\\})?\\s*$"@
}

/// An explicit `{#id}` in an attribute list.
pub open spec fn explicit_id_pattern() -> Seq<char> {
    "\\{[^}]*#([A-Za-z][\\w-]*)[^}]*\\}"@
}

/// The index of the last `c` in `s`, -1 when there is none.
pub open spec fn last_index_of(s: Seq<char>, c: char, k: int) -> int
    decreases k,
{
    if k <= 0 {
        -1
    } else if s[k - 1] == c {
        k - 1
    } else {
        last_index_of(s, c, k - 1)
    }
}

/// The text without a trailing attribute list `{...}`.
pub open spec fn strip_ial(text: Seq<char>) -> Seq<char> {
    let p = last_index_of(text, '{', text.len() as int);
    if p >= 0 && text.last() == '}' {
        trim(text.take(p))
    } else {
        text
    }
}

/// The slug of the first `k` characters, and whether it ends in a hyphen
/// just added: alphanumerics are lowercased, a space or hyphen gives one
/// hyphen, everything else is dropped.
pub open spec fn slug_scan(t: Seq<char>, k: int) -> (Seq<char>, bool)
    decreases k,
{
    if k <= 0 {
        (seq![], false)
    } else {
        let prev = slug_scan(t, k - 1);
        let ch = t[k - 1];
        if char_is_alphanumeric(ch) {
            (prev.0 + char_lowercase(ch), false)
        } else if (ch == ' ' || ch == '-') && !prev.1 {
            (prev.0.push('-'), true)
        } else {
            prev
        }
    }
}

/// The Kramdown-style slug of a heading text, without leading or trailing
/// hyphens.
pub open spec fn slug_of(text: Seq<char>) -> Seq<char> {
    let t = strip_ial(text);
    trim_start_char(trim_end_char(slug_scan(t, t.len() as int).0, '-'), '-')
}

/// The heading's ID: the explicit one in `source`, else the slug of `text`.
pub open spec fn heading_id(source: Seq<char>, text: Seq<char>) -> Seq<char> {
    match regex_captures(explicit_id_pattern(), source) {
        Some(g) => group_at(source, g, 1),
        None => slug_of(text),
    }
}

/// The index of the entry for `id` from `k` on, the length when none.
pub open spec fn find_id(seen: Seq<(Seq<char>, usize, usize)>, id: Seq<char>, k: int) -> int
    decreases seen.len() - k,
{
    if k < 0 || k >= seen.len() {
        seen.len() as int
    } else if seen[k].0 == id {
        k
    } else {
        find_id(seen, id, k + 1)
    }
}

pub struct Kmd005State {
    pub in_code: bool,
    pub prev: Option<(Seq<char>, usize)>,
    pub seen: Seq<(Seq<char>, usize, usize)>,
    pub errors: Seq<LintErrorView>,
}

pub open spec fn kmd005_error(ls: Seq<Seq<char>>, id: Seq<char>, first: usize, count: usize, hl: usize) -> LintErrorView {
    LintErrorView {
        detail: Some(
            "Duplicate heading ID '"@ + id + "' (first defined on line "@ + decimal(first as nat) + ")"@,
        ),
        fix: Some(
            fix_view(
                Some(hl),
                Some((byte_len(strip_eol(ls[hl - 1])) + 1) as usize),
                None,
                Some(" {#"@ + id + "-"@ + decimal(count as nat) + "}"@),
            ),
        ),
        ..base_error(kmd005_meta(), hl as int)
    }
}

/// Counts one more heading with ID `id` on line `hl`; a repeated ID is a
/// finding.
pub open spec fn record_id(s: Kmd005State, ls: Seq<Seq<char>>, id: Seq<char>, hl: usize) -> Kmd005State {
    let j = find_id(s.seen, id, 0);
    if j < s.seen.len() {
        let e = s.seen[j];
        let count = (e.2 + 1) as usize;
        Kmd005State {
            seen: s.seen.update(j, (e.0, e.1, count)),
            errors: if count > 1 {
                s.errors.push(kmd005_error(ls, id, e.1, count, hl))
            } else {
                s.errors
            },
            ..s
        }
    } else {
        Kmd005State { seen: s.seen.push((id, hl, 1usize)), ..s }
    }
}

/// A setext underline: all `=`, or two or more `-`.
pub open spec fn setext_underline(t: Seq<char>) -> bool {
    (t.len() > 0 && all_char(t, '=')) || (t.len() >= 2 && all_char(t, '-'))
}

pub open spec fn kmd005_step(s: Kmd005State, ls: Seq<Seq<char>>, idx: int) -> Kmd005State {
    let t = strip_eol(ls[idx]);
    let ln = (idx + 1) as usize;
    if code_fence(t) {
        Kmd005State { in_code: !s.in_code, prev: None, ..s }
    } else if s.in_code {
        s
    } else if setext_underline(t) && s.prev.is_some() {
        let p = s.prev.unwrap();
        let id = heading_id(p.0, p.0);
        let s1 = Kmd005State { prev: None, ..s };
        if id.len() > 0 {
            record_id(s1, ls, id, p.1)
        } else {
            s1
        }
    } else {
        match regex_captures(atx_pattern(), t) {
            Some(g) => {
                let id = heading_id(t, trim(group_at(t, g, 2)));
                let s1 = Kmd005State { prev: None, ..s };
                if id.len() > 0 {
                    record_id(s1, ls, id, ln)
                } else {
                    s1
                }
            },
            None => Kmd005State {
                prev: if t.len() == 0 {
                    None
                } else {
                    Some((t, ln))
                },
                ..s
            },
        }
    }
}

pub open spec fn kmd005_scan(ls: Seq<Seq<char>>, n: int) -> Kmd005State
    decreases n,
{
    if n <= 0 {
        Kmd005State { in_code: false, prev: None, seen: seq![], errors: seq![] }
    } else {
        kmd005_step(kmd005_scan(ls, n - 1), ls, n - 1)
    }
}

/// The findings of KMD005 (none where a pattern is refused).
pub open spec fn kmd005_errors(ls: Seq<Seq<char>>) -> Seq<LintErrorView> {
    if regex_compiles(atx_pattern()) && regex_compiles(explicit_id_pattern()) {
        kmd005_scan(ls, ls.len() as int).errors
    } else {
        seq![]
    }
}

/// Generate a Kramdown-style heading slug from heading text: a trailing
/// attribute list is dropped, alphanumerics are lowercased, runs of spaces
/// and hyphens become one hyphen, everything else is stripped, and leading
/// and trailing hyphens are removed.
pub fn kramdown_slug(text: &str) -> (r: String)
    ensures
        r@ == slug_of(text@),
{
    let v = chars_of(text);
    let n = v.len();
    let mut p: usize = n;
    let mut k: usize = n;
    while k > 0 && p == n
        invariant
            k <= n,
            n == v@.len(),
            p <= n,
            last_index_of(v@, '{', n as int) == if p < n {
                p as int
            } else {
                last_index_of(v@, '{', k as int)
            },
        decreases k + (if p == n {
            1int
        } else {
            0int
        }),
    {
        if v[k - 1] == '{' {
            p = k - 1;
        } else {
            k = k - 1;
        }
    }
    let t: Vec<char> = if p < n && v[n - 1] == '}' {
        let pre = crate::text::slice_chars(&v, 0, p);
        assert(pre@ =~= v@.take(p as int));
        trim_vec(&pre)
    } else {
        v
    };
    assert(t@ == strip_ial(text@));
    let mut slug: Vec<char> = Vec::new();
    let mut prev_hyphen = false;
    let mut i: usize = 0;
    while i < t.len()
        invariant
            i <= t@.len(),
            (slug@, prev_hyphen) == slug_scan(t@, i as int),
        decreases t@.len() - i,
    {
        let ch = t[i];
        if is_alphanumeric(ch) {
            let low = lowercase_char(ch);
            let mut j: usize = 0;
            let ghost before = slug@;
            while j < low.len()
                invariant
                    j <= low@.len(),
                    slug@ == before + low@.take(j as int),
                decreases low@.len() - j,
            {
                slug.push(low[j]);
                j = j + 1;
                assert(slug@ =~= before + low@.take(j as int));
            }
            assert(low@.take(low@.len() as int) =~= low@);
            prev_hyphen = false;
        } else if (ch == ' ' || ch == '-') && !prev_hyphen {
            slug.push('-');
            prev_hyphen = true;
        }
        i = i + 1;
    }
    let a = trim_end_char_vec(&slug, '-');
    let b = trim_start_char_vec(&a, '-');
    string_of(&b)
}

/// The heading's ID: the explicit one in `source`, else the slug of `text`.
fn id_of(explicit: &Pattern, source: &Vec<char>, text: &Vec<char>) -> (r: Vec<char>)
    requires
        explicit@ == explicit_id_pattern(),
        byte_len(source@) <= isize::MAX,
    ensures
        r@ == heading_id(source@, text@),
{
    let s = string_of(source);
    match captures(explicit, s.as_str()) {
        Some(g) => group_chars(source, &g, 1),
        None => {
            let ts = string_of(text);
            let slug = kramdown_slug(ts.as_str());
            chars_of(slug.as_str())
        },
    }
}

/// The line is a setext underline.
fn is_setext_underline(t: &Vec<char>) -> (r: bool)
    ensures
        r == setext_underline(t@),
{
    (t.len() > 0 && all_chars_are(t, '=')) || (t.len() >= 2 && all_chars_are(t, '-'))
}

pub open spec fn seen_view(ids: Seq<Vec<char>>, firsts: Seq<usize>, counts: Seq<usize>) -> Seq<
    (Seq<char>, usize, usize),
> {
    Seq::new(ids.len(), |j: int| (ids[j]@, firsts[j], counts[j]))
}

impl KMD005 {
    pub fn names(&self) -> (r: Vec<&'static str>)
        ensures
            names_view(r@) == kmd005_meta().names,
    {
        let r = vec!["KMD005", "no-duplicate-heading-ids"];
        assert(names_view(r@) =~= kmd005_meta().names);
        r
    }

    pub fn description(&self) -> (r: &'static str)
        ensures
            r@ == kmd005_meta().description,
    {
        "Heading IDs must be unique within the document"
    }

    pub fn tags(&self) -> (r: Vec<&'static str>)
        ensures
            names_view(r@) == seq!["kramdown"@, "headings"@, "ids"@, "fixable"@],
    {
        let r = vec!["kramdown", "headings", "ids", "fixable"];
        assert(names_view(r@) =~= seq!["kramdown"@, "headings"@, "ids"@, "fixable"@]);
        r
    }

    pub fn parser_type(&self) -> (r: ParserType)
        ensures
            r == ParserType::Plain,
    {
        ParserType::Plain
    }

    pub fn is_enabled_by_default(&self) -> (r: bool)
        ensures
            !r,
    {
        false
    }

    /// Counts one more heading with ID `id` on line `hl`.
    fn record(
        &self,
        lines: &[&str],
        ids: &mut Vec<Vec<char>>,
        firsts: &mut Vec<usize>,
        counts: &mut Vec<usize>,
        errors: &mut Vec<LintError>,
        id: Vec<char>,
        hl: usize,
        names: &Vec<&'static str>,
        Ghost(bound): Ghost<int>,
    )
        requires
            lines_fit(lines@),
            1 <= hl <= lines@.len(),
            old(ids)@.len() == old(firsts)@.len(),
            old(ids)@.len() == old(counts)@.len(),
            forall|j: int| 0 <= j < old(counts)@.len() ==> #[trigger] old(counts)@[j] < bound,
            1 <= bound <= usize::MAX,
            names_view(names@) == kmd005_meta().names,
        ensures
            final(ids)@.len() == final(firsts)@.len(),
            final(ids)@.len() == final(counts)@.len(),
            forall|j: int| 0 <= j < final(counts)@.len() ==> #[trigger] final(counts)@[j] <= bound,
            ({
                let s0 = Kmd005State {
                    in_code: false,
                    prev: None,
                    seen: seen_view(old(ids)@, old(firsts)@, old(counts)@),
                    errors: errors_view(old(errors)@),
                };
                let s1 = record_id(s0, views(lines@), id@, hl);
                &&& seen_view(final(ids)@, final(firsts)@, final(counts)@) == s1.seen
                &&& errors_view(final(errors)@) == s1.errors
            }),
    {
        let ghost seen0 = seen_view(ids@, firsts@, counts@);
        let mut j: usize = 0;
        let mut found = false;
        while j < ids.len() && !found
            invariant
                j <= ids@.len(),
                seen0 == seen_view(ids@, firsts@, counts@),
                ids@.len() == firsts@.len(),
                ids@.len() == counts@.len(),
                found ==> j < ids@.len() && ids@[j as int]@ == id@,
                forall|i: int| 0 <= i < counts@.len() ==> #[trigger] counts@[i] < bound,
                find_id(seen0, id@, 0) == find_id(seen0, id@, j as int),
            decreases ids@.len() - j + (if found {
                0int
            } else {
                1int
            }),
        {
            if crate::text::eq_vec(&ids[j], &id) {
                found = true;
            } else {
                j = j + 1;
            }
        }
        if found {
            assert(find_id(seen0, id@, j as int) == j);
            let first = firsts[j];
            let count = counts[j] + 1;
            counts.set(j, count);
            assert(seen_view(ids@, firsts@, counts@) =~= seen0.update(j as int, (id@, first, count)));
            if count > 1 {
                let v = chars_of(lines[hl - 1]);
                let body = crate::text::strip_eol_vec(&v);
                proof {
                    assert(byte_len(lines@[hl - 1]@) <= isize::MAX);
                    lemma_strip_eol_prefix(v@);
                }
                let col = utf8_byte_len(&body) + 1;
                let mut e = LintError::new(hl, names, self.description(), None);
                let mut d = text("Duplicate heading ID '");
                push_chars(&mut d, &id);
                push_str(&mut d, "' (first defined on line ");
                push_decimal(&mut d, first);
                push_str(&mut d, ")");
                e.error_detail = Some(d);
                let mut ins = text(" {#");
                push_chars(&mut ins, &id);
                push_str(&mut ins, "-");
                push_decimal(&mut ins, count);
                push_str(&mut ins, "}");
                e.fix_info = Some(
                    FixInfo {
                        line_number: Some(hl),
                        edit_column: Some(col),
                        delete_count: None,
                        insert_text: Some(ins),
                    },
                );
                let ghost before = errors_view(errors@);
                errors.push(e);
                assert(errors_view(errors@) =~= before.push(kmd005_error(views(lines@), id@, first, count, hl)));
            }
        } else {
            assert(find_id(seen0, id@, j as int) == seen0.len());
            ids.push(id);
            firsts.push(hl);
            counts.push(1);
            assert(seen_view(ids@, firsts@, counts@) =~= seen0.push((ids@[j as int]@, hl, 1usize)));
        }
    }

    pub fn lint(&self, params: &RuleParams) -> (errors: Vec<LintError>)
        requires
            lines_fit(params.lines@),
        ensures
            errors_view(errors@) == kmd005_errors(views(params.lines@)),
    {
        let lines = params.lines;
        let ghost ls = views(lines@);
        let mut errors: Vec<LintError> = Vec::new();
        let atx = match compile("^(#{1,6})\\s+(.+?)(?:\\s*\\{[^}]*\\})?\\s*$") {
            Some(p) => p,
            None => {
                assert(errors_view(errors@) =~= seq![]);
                return errors;
            },
        };
        let explicit = match compile("\\{[^}]*#([A-Za-z][\\w-]*)[^}]*\\}") {
            Some(p) => p,
            None => {
                assert(errors_view(errors@) =~= seq![]);
                return errors;
            },
        };
        let names = self.names();
        let mut ids: Vec<Vec<char>> = Vec::new();
        let mut firsts: Vec<usize> = Vec::new();
        let mut counts: Vec<usize> = Vec::new();
        let mut in_code = false;
        let mut prev: Option<(Vec<char>, usize)> = None;
        let n = lines.len();
        let mut idx: usize = 0;
        assert(errors_view(errors@) =~= seq![]);
        assert(seen_view(ids@, firsts@, counts@) =~= seq![]);
        while idx < n
            invariant
                n == lines@.len(),
                idx <= n,
                ls == views(lines@),
                lines_fit(lines@),
                atx@ == atx_pattern(),
                explicit@ == explicit_id_pattern(),
                names_view(names@) == kmd005_meta().names,
                ids@.len() == firsts@.len(),
                ids@.len() == counts@.len(),
                forall|j: int| 0 <= j < counts@.len() ==> #[trigger] counts@[j] <= idx,
                prev matches Some(p) ==> 1 <= p.1 <= idx && byte_len(p.0@) <= isize::MAX,
                kmd005_scan(ls, idx as int) == (Kmd005State {
                    in_code,
                    prev: match prev {
                        Some(p) => Some((p.0@, p.1)),
                        None => None,
                    },
                    seen: seen_view(ids@, firsts@, counts@),
                    errors: errors_view(errors@),
                }),
            decreases n - idx,
        {
            let ln = idx + 1;
            let t = line_body(lines, idx);
            proof {
                assert(byte_len(lines@[idx as int]@) <= isize::MAX);
                lemma_strip_eol_prefix(lines@[idx as int]@);
            }
            let ts = string_of(&t);
            if is_code_fence(ts.as_str()) {
                in_code = !in_code;
                prev = None;
            } else if in_code {
            } else if is_setext_underline(&t) && prev.is_some() {
                let p = match prev {
                    Some(p) => p,
                    None => (Vec::new(), 0),
                };
                prev = None;
                let id = id_of(&explicit, &p.0, &p.0);
                if id.len() > 0 {
                    self.record(lines, &mut ids, &mut firsts, &mut counts, &mut errors, id, p.1, &names, Ghost(idx + 1));
                }
            } else {
                match captures(&atx, ts.as_str()) {
                    Some(g) => {
                        let ht = group_chars(&t, &g, 2);
                        let htt = trim_vec(&ht);
                        let id = id_of(&explicit, &t, &htt);
                        prev = None;
                        if id.len() > 0 {
                            self.record(lines, &mut ids, &mut firsts, &mut counts, &mut errors, id, ln, &names, Ghost(idx + 1));
                        }
                    },
                    None => {
                        if t.len() == 0 {
                            prev = None;
                        } else {
                            prev = Some((t, ln));
                        }
                    },
                }
            }
            idx = idx + 1;
        }
        errors
    }
}

/// No two hyphens come in a row.
pub open spec fn no_double_hyphen(s: Seq<char>) -> bool {
    forall|j: int| 0 < j < s.len() && s[j - 1] == '-' ==> #[trigger] s[j] != '-'
}

/// The lowercase form of every alphanumeric among the first `k` characters
/// is nonempty and holds no hyphen.
pub open spec fn lowercase_plain(t: Seq<char>, k: int) -> bool {
    forall|j: int|
        0 <= j < k && char_is_alphanumeric(#[trigger] t[j]) ==> char_lowercase(t[j]).len() > 0 && !char_lowercase(
            t[j],
        ).contains('-')
}

proof fn lemma_slug_scan_hyphens(t: Seq<char>, k: int)
    requires
        0 <= k <= t.len(),
        lowercase_plain(t, k),
    ensures
        no_double_hyphen(slug_scan(t, k).0),
        slug_scan(t, k).1 ==> slug_scan(t, k).0.len() > 0 && slug_scan(t, k).0.last() == '-',
        !slug_scan(t, k).1 ==> slug_scan(t, k).0.len() == 0 || slug_scan(t, k).0.last() != '-',
    decreases k,
{
    if k > 0 {
        lemma_slug_scan_hyphens(t, k - 1);
        let prev = slug_scan(t, k - 1);
        let cur = slug_scan(t, k);
        let ch = t[k - 1];
        if char_is_alphanumeric(ch) {
            let w = char_lowercase(ch);
            assert(cur.0 == prev.0 + w);
            assert(!w.contains('-'));
            assert forall|j: int| 0 < j < cur.0.len() && cur.0[j - 1] == '-' implies #[trigger] cur.0[j] != '-' by {
                if j >= prev.0.len() {
                    assert(cur.0[j] == w[j - prev.0.len()]);
                    if cur.0[j] == '-' {
                        assert(w.contains('-'));
                    }
                } else {
                    assert(cur.0[j] == prev.0[j]);
                    assert(cur.0[j - 1] == prev.0[j - 1]);
                }
            }
            assert(cur.0.last() == w[w.len() - 1]);
            if w[w.len() - 1] == '-' {
                assert(w.contains('-'));
            }
        } else if (ch == ' ' || ch == '-') && !prev.1 {
            assert forall|j: int| 0 < j < cur.0.len() && cur.0[j - 1] == '-' implies #[trigger] cur.0[j] != '-' by {
                if j < prev.0.len() {
                    assert(cur.0[j] == prev.0[j]);
                    assert(cur.0[j - 1] == prev.0[j - 1]);
                } else {
                    assert(cur.0[j - 1] == prev.0.last());
                }
            }
        }
    }
}

/// A slug has no leading or trailing hyphen; and where the lowercase form
/// of each alphanumeric of the text is nonempty and holds no hyphen (as for
/// ASCII text), no two hyphens come in a row.
pub proof fn lemma_slug_hyphens(text: Seq<char>)
    ensures
        slug_of(text).len() > 0 ==> slug_of(text)[0] != '-' && slug_of(text).last() != '-',
        lowercase_plain(strip_ial(text), strip_ial(text).len() as int) ==> no_double_hyphen(slug_of(text)),
{
    let t = strip_ial(text);
    let raw = slug_scan(t, t.len() as int).0;
    let a = trim_end_char(raw, '-');
    crate::text::lemma_trim_end_char_all(raw, '-');
    crate::text::lemma_trim_start_char_shape(a, '-');
    let r = slug_of(text);
    let k = a.len() - r.len();
    if r.len() > 0 {
        assert(r.last() == a.last());
    }
    if lowercase_plain(t, t.len() as int) {
        lemma_slug_scan_hyphens(t, t.len() as int);
        assert forall|j: int| 0 < j < r.len() && r[j - 1] == '-' implies #[trigger] r[j] != '-' by {
            assert(r[j] == a[k + j]);
            assert(r[j - 1] == a[k + j - 1]);
            assert(a[k + j] == raw[k + j]);
            assert(a[k + j - 1] == raw[k + j - 1]);
        }
    }
}

/// `s` without its hyphens.
pub open spec fn drop_hyphens(s: Seq<char>) -> Seq<char>
    decreases s.len(),
{
    if s.len() == 0 {
        seq![]
    } else {
        drop_hyphens(s.drop_last()) + if s.last() == '-' {
            Seq::<char>::empty()
        } else {
            seq![s.last()]
        }
    }
}

/// The lowercase forms of the alphanumeric characters among the first `k`
/// of `t`, in order.
pub open spec fn alnum_lower(t: Seq<char>, k: int) -> Seq<char>
    decreases k,
{
    if k <= 0 {
        seq![]
    } else {
        alnum_lower(t, k - 1) + if char_is_alphanumeric(t[k - 1]) {
            char_lowercase(t[k - 1])
        } else {
            Seq::<char>::empty()
        }
    }
}

proof fn lemma_drop_hyphens_concat(a: Seq<char>, b: Seq<char>)
    ensures
        drop_hyphens(a + b) == drop_hyphens(a) + drop_hyphens(b),
    decreases b.len(),
{
    if b.len() == 0 {
        assert(a + b =~= a);
        assert(drop_hyphens(a) + drop_hyphens(b) =~= drop_hyphens(a));
    } else {
        lemma_drop_hyphens_concat(a, b.drop_last());
        assert((a + b).drop_last() =~= a + b.drop_last());
        let w: Seq<char> = if b.last() == '-' {
            Seq::<char>::empty()
        } else {
            seq![b.last()]
        };
        assert(drop_hyphens(a) + drop_hyphens(b.drop_last()) + w =~= drop_hyphens(a) + (drop_hyphens(
            b.drop_last(),
        ) + w));
    }
}

proof fn lemma_drop_hyphens_trim_end(s: Seq<char>)
    ensures
        drop_hyphens(trim_end_char(s, '-')) == drop_hyphens(s),
    decreases s.len(),
{
    if s.len() > 0 && s.last() == '-' {
        lemma_drop_hyphens_trim_end(s.drop_last());
        assert(drop_hyphens(s) =~= drop_hyphens(s.drop_last()));
    }
}

proof fn lemma_drop_hyphens_trim_start(s: Seq<char>)
    ensures
        drop_hyphens(trim_start_char(s, '-')) == drop_hyphens(s),
    decreases s.len(),
{
    if s.len() > 0 && s[0] == '-' {
        lemma_drop_hyphens_trim_start(s.drop_first());
        assert(s =~= seq![s[0]] + s.drop_first());
        lemma_drop_hyphens_concat(seq![s[0]], s.drop_first());
        let one: Seq<char> = seq![s[0]];
        let e: Seq<char> = Seq::<char>::empty();
        assert(one.drop_last() =~= e);
        assert(drop_hyphens(e) == e);
        assert(one.last() == '-');
        assert(drop_hyphens(one) =~= e);
        assert(drop_hyphens(one) + drop_hyphens(s.drop_first()) =~= drop_hyphens(s.drop_first()));
    }
}

proof fn lemma_slug_scan_letters(t: Seq<char>, k: int)
    requires
        0 <= k <= t.len(),
    ensures
        drop_hyphens(slug_scan(t, k).0) == drop_hyphens(alnum_lower(t, k)),
    decreases k,
{
    if k > 0 {
        lemma_slug_scan_letters(t, k - 1);
        let prev = slug_scan(t, k - 1);
        let ch = t[k - 1];
        if char_is_alphanumeric(ch) {
            lemma_drop_hyphens_concat(prev.0, char_lowercase(ch));
            lemma_drop_hyphens_concat(alnum_lower(t, k - 1), char_lowercase(ch));
        } else {
            assert(alnum_lower(t, k) =~= alnum_lower(t, k - 1));
            if (ch == ' ' || ch == '-') && !prev.1 {
                let q = prev.0.push('-');
                assert(q.drop_last() =~= prev.0);
                assert(q.last() == '-');
                assert(drop_hyphens(q) =~= drop_hyphens(prev.0));
            }
        }
    }
}

/// A slug keeps, in order, the lowercase form of every alphanumeric
/// character of the heading text (after its attribute list is stripped),
/// digits included; besides those it holds only hyphens.
pub proof fn lemma_slug_letters(text: Seq<char>)
    ensures
        drop_hyphens(slug_of(text)) == drop_hyphens(alnum_lower(strip_ial(text), strip_ial(text).len() as int)),
{
    let t = strip_ial(text);
    let raw = slug_scan(t, t.len() as int).0;
    lemma_slug_scan_letters(t, t.len() as int);
    lemma_drop_hyphens_trim_end(raw);
    lemma_drop_hyphens_trim_start(trim_end_char(raw, '-'));
}

/// `w` occurs in `s`.
pub open spec fn occurs_in(s: Seq<char>, w: Seq<char>) -> bool {
    exists|k: int| 0 <= k && k + w.len() <= s.len() && #[trigger] s.subrange(k, k + w.len()) == w
}

proof fn lemma_slug_scan_prefix(t: Seq<char>, a: int, b: int)
    requires
        0 <= a <= b <= t.len(),
    ensures
        slug_scan(t, a).0.len() <= slug_scan(t, b).0.len(),
        slug_scan(t, b).0.take(slug_scan(t, a).0.len() as int) == slug_scan(t, a).0,
    decreases b - a,
{
    if a < b {
        lemma_slug_scan_prefix(t, a, b - 1);
        let x = slug_scan(t, a).0;
        let y = slug_scan(t, b - 1).0;
        let z = slug_scan(t, b).0;
        assert(z.take(y.len() as int) =~= y);
        assert(z.take(x.len() as int) =~= y.take(x.len() as int));
    } else {
        assert(slug_scan(t, a).0.take(slug_scan(t, a).0.len() as int) =~= slug_scan(t, a).0);
    }
}

proof fn lemma_trim_start_char_bound(s: Seq<char>, c: char, k: int)
    requires
        0 <= k < s.len(),
        s[k] != c,
    ensures
        trim_start_char(s, c).len() >= s.len() - k,
    decreases s.len(),
{
    if s.len() > 0 && s[0] == c {
        assert(k > 0);
        assert(s.drop_first()[k - 1] == s[k]);
        lemma_trim_start_char_bound(s.drop_first(), c, k - 1);
    }
}

/// A space or hyphen between two alphanumerics of the heading text (after
/// its attribute list is stripped) becomes one hyphen between their
/// lowercase forms in the slug, where those forms are nonempty and hold no
/// hyphen (std counts neither a space nor a hyphen as alphanumeric).
pub proof fn lemma_slug_word_break(text: Seq<char>, i: int)
    requires
        1 <= i && i + 1 < strip_ial(text).len(),
        strip_ial(text)[i] == ' ' || strip_ial(text)[i] == '-',
        !char_is_alphanumeric(strip_ial(text)[i]),
        char_is_alphanumeric(strip_ial(text)[i - 1]),
        char_is_alphanumeric(strip_ial(text)[i + 1]),
        lowercase_plain(strip_ial(text), strip_ial(text).len() as int),
    ensures
        occurs_in(
            slug_of(text),
            char_lowercase(strip_ial(text)[i - 1]) + seq!['-'] + char_lowercase(strip_ial(text)[i + 1]),
        ),
{
    let t = strip_ial(text);
    let n = t.len() as int;
    let l0 = char_lowercase(t[i - 1]);
    let l1 = char_lowercase(t[i + 1]);
    let w = l0 + seq!['-'] + l1;
    let base = slug_scan(t, i - 1).0;
    let p2 = slug_scan(t, i + 2).0;
    assert(slug_scan(t, i).0 == base + l0);
    assert(!slug_scan(t, i).1);
    assert(slug_scan(t, i + 1).0 == (base + l0).push('-'));
    assert(p2 == (base + l0).push('-') + l1);
    assert(p2 =~= base + w);
    let raw = slug_scan(t, n).0;
    lemma_slug_scan_prefix(t, i + 2, n);
    assert(raw.take(p2.len() as int) == p2);
    let k1 = base.len() as int;
    assert(l1.len() > 0 && !l1.contains('-'));
    assert(l0.len() > 0 && !l0.contains('-'));
    assert(p2.last() == l1.last());
    if l1.last() == '-' {
        assert(l1.contains('-'));
    }
    let a = trim_end_char(raw, '-');
    crate::text::lemma_trim_end_char_all(raw, '-');
    if a.len() < p2.len() {
        assert(raw[p2.len() - 1] == p2[p2.len() - 1]);
    }
    assert(a.len() >= p2.len());
    assert forall|j: int| 0 <= j < w.len() implies a[k1 + j] == w[j] by {
        assert(a[k1 + j] == raw[k1 + j]);
        assert(raw[k1 + j] == p2[k1 + j]);
    }
    assert(a[k1] == l0[0]);
    if l0[0] == '-' {
        assert(l0.contains('-'));
    }
    crate::text::lemma_trim_start_char_shape(a, '-');
    lemma_trim_start_char_bound(a, '-', k1);
    let r = slug_of(text);
    let d = a.len() - r.len();
    assert(d <= k1);
    let k = k1 - d;
    assert(r.subrange(k, k + w.len()) =~= w) by {
        assert forall|j: int| 0 <= j < w.len() implies r.subrange(k, k + w.len())[j] == w[j] by {
            assert(r[k + j] == a[d + k + j]);
        }
    }
}

} // verus!
