//! MD049 - Emphasis style should be consistent.
//!
//! Single emphasis is written `*text*` or `_text_`. The `style` option is
//! "consistent" (the default: the style of the first emphasis in the
//! document), "asterisk" or "underscore"; emphasis of the other style is
//! reported with a fix that rewrites it.

use vstd::prelude::*;
use crate::text::{
    byte_len, chars_of, eq_str, push_chars, push_str, slice_chars, string_of, text, utf8_byte_len,
    views,
};
use crate::types::{
    base_error, errors_view, fix_view, lines_fit, names_view, opt_str, FixInfo, LintError,
    LintErrorView, ParserType, RuleMeta, RuleParams,
};
use crate::config::{value_as_str, Config};

verus! {

pub struct MD049;

pub open spec fn md049_meta() -> RuleMeta {
    RuleMeta {
        names: seq!["MD049"@, "emphasis-style"@],
        description: "Emphasis style should be consistent"@,
        information: Some("https://github.com/DavidAnson/markdownlint/blob/main/doc/md049.md"@),
    }
}

/// One emphasis in a line.
pub struct EmphasisMatch {
    /// The matched text, markers included.
    pub full_match: String,
    /// "asterisk" or "underscore".
    pub style: String,
    /// The byte offset of the match in the line.
    pub start: usize,
}

pub open spec fn is_marker(c: char) -> bool {
    c == '*' || c == '_'
}

/// Where the scan resumes after a doubled marker: past the next doubled
/// marker from `j` on, or at the last character.
pub open spec fn em_skip_double(s: Seq<char>, ch: char, j: int) -> int
    decreases s.len() - j,
{
    if j + 1 < s.len() {
        if s[j] == ch && s[j + 1] == ch {
            j + 2
        } else {
            em_skip_double(s, ch, j + 1)
        }
    } else {
        j
    }
}

/// The closing marker of an emphasis opened before `j`: a single `ch` (not
/// next to another `ch`) before any line feed.
pub open spec fn em_close(s: Seq<char>, ch: char, j: int) -> Option<int>
    decreases s.len() - j,
{
    if 0 <= j < s.len() {
        if s[j] == ch && !(j > 0 && s[j - 1] == ch) && !(j + 1 < s.len() && s[j + 1] == ch) {
            Some(j)
        } else if s[j] == '\n' {
            None
        } else {
            em_close(s, ch, j + 1)
        }
    } else {
        None
    }
}

/// The emphases from character `i` on, as (first, last) character indices.
pub open spec fn em_scan(s: Seq<char>, i: int) -> Seq<(int, int)>
    decreases s.len() - i,
{
    if i < 0 || i >= s.len() {
        seq![]
    } else {
        let ch = s[i];
        if is_marker(ch) {
            if i + 1 < s.len() && s[i + 1] == ch {
                let next = em_skip_double(s, ch, i + 2);
                if i < next <= s.len() {
                    em_scan(s, next)
                } else {
                    seq![]
                }
            } else {
                let j = i + 1;
                if j >= s.len() || s[j] == ' ' || s[j] == '\n' || s[j] == ch {
                    em_scan(s, i + 1)
                } else {
                    match em_close(s, ch, j) {
                        Some(e) => if i < e < s.len() {
                            seq![(i, e)] + em_scan(s, e + 1)
                        } else {
                            seq![]
                        },
                        None => em_scan(s, i + 1),
                    }
                }
            }
        } else {
            em_scan(s, i + 1)
        }
    }
}

pub open spec fn style_name(c: char) -> Seq<char> {
    if c == '*' {
        "asterisk"@
    } else {
        "underscore"@
    }
}

/// The match view: text, style and byte offset.
pub open spec fn em_match(s: Seq<char>, m: (int, int)) -> (Seq<char>, Seq<char>, int) {
    (s.subrange(m.0, m.1 + 1), style_name(s[m.0]), byte_len(s.take(m.0)) as int)
}

pub open spec fn match_view(m: EmphasisMatch) -> (Seq<char>, Seq<char>, int) {
    (m.full_match@, m.style@, m.start as int)
}

proof fn lemma_skip_double(s: Seq<char>, ch: char, j: int)
    requires
        0 <= j <= s.len(),
    ensures
        j <= em_skip_double(s, ch, j) <= s.len(),
    decreases s.len() - j,
{
    if j + 1 < s.len() && !(s[j] == ch && s[j + 1] == ch) {
        lemma_skip_double(s, ch, j + 1);
    }
}

proof fn lemma_close(s: Seq<char>, ch: char, j: int)
    requires
        0 <= j,
    ensures
        em_close(s, ch, j) matches Some(e) ==> j <= e < s.len(),
    decreases s.len() - j,
{
    if 0 <= j < s.len() && !(s[j] == ch && !(j > 0 && s[j - 1] == ch) && !(j + 1 < s.len() && s[j + 1]
        == ch)) && s[j] != '\n' {
        lemma_close(s, ch, j + 1);
    }
}

/// Find all single-emphasis patterns in a line: `*text*` and `_text_`, but
/// not `**text**` or `__text__`.
pub fn find_emphasis_matches(line: &str) -> (r: Vec<EmphasisMatch>)
    requires
        byte_len(line@) <= isize::MAX,
    ensures
        r@.map_values(|m: EmphasisMatch| match_view(m)) == em_scan(line@, 0).map_values(
            |m: (int, int)| em_match(line@, m),
        ),
{
    let s = chars_of(line);
    let n = s.len();
    let mut r: Vec<EmphasisMatch> = Vec::new();
    let mut i: usize = 0;
    let ghost total = em_scan(s@, 0);
    assert(r@.map_values(|m: EmphasisMatch| match_view(m)) + em_scan(s@, 0).map_values(
        |m: (int, int)| em_match(s@, m),
    ) =~= total.map_values(|m: (int, int)| em_match(s@, m)));
    while i < n
        invariant
            n == s@.len(),
            i <= n,
            s@ == line@,
            byte_len(s@) <= isize::MAX,
            total == em_scan(s@, 0),
            r@.map_values(|m: EmphasisMatch| match_view(m)) + em_scan(s@, i as int).map_values(
                |m: (int, int)| em_match(s@, m),
            ) == total.map_values(|m: (int, int)| em_match(s@, m)),
        decreases n - i,
    {
        let ghost r0 = r@.map_values(|m: EmphasisMatch| match_view(m));
        let ch = s[i];
        if ch == '*' || ch == '_' {
            if i + 1 < n && s[i + 1] == ch {
                let mut j = i + 2;
                let mut done = false;
                while j < n - 1 && !done
                    invariant
                        i + 2 <= j <= n,
                        n >= 2,
                        n == s@.len(),
                        !done ==> em_skip_double(s@, ch, i + 2) == em_skip_double(s@, ch, j as int),
                        done ==> em_skip_double(s@, ch, i + 2) == j,
                    decreases n - j + (if done {
                        0int
                    } else {
                        1int
                    }),
                {
                    if s[j] == ch && s[j + 1] == ch {
                        j = j + 2;
                        done = true;
                    } else {
                        j = j + 1;
                    }
                }
                proof {
                    lemma_skip_double(s@, ch, i + 2);
                }
                assert(em_scan(s@, i as int) == em_scan(s@, j as int));
                i = j;
            } else {
                let j0 = i + 1;
                if j0 >= n || s[j0] == ' ' || s[j0] == '\n' || s[j0] == ch {
                    i = i + 1;
                } else {
                    let mut j = j0;
                    let mut found: Option<usize> = None;
                    while j < n && found.is_none()
                        invariant
                            j0 <= j <= n,
                            j0 == i + 1,
                            n == s@.len(),
                            match found {
                                Some(e) => em_close(s@, ch, j0 as int) == Some(e as int) && e < n,
                                None => em_close(s@, ch, j0 as int) == em_close(s@, ch, j as int),
                            },
                        decreases n - j + (if found.is_none() {
                            1int
                        } else {
                            0int
                        }),
                    {
                        let prev_marker = j > 0 && s[j - 1] == ch;
                        let next_marker = j + 1 < n && s[j + 1] == ch;
                        if s[j] == ch && !prev_marker && !next_marker {
                            found = Some(j);
                        } else if s[j] == '\n' {
                            j = n;
                        } else {
                            j = j + 1;
                        }
                    }
                    proof {
                        lemma_close(s@, ch, j0 as int);
                    }
                    match found {
                        Some(e) => {
                            let full = slice_chars(&s, i, e + 1);
                            let pre = slice_chars(&s, 0, i);
                            proof {
                                crate::text::lemma_byte_len_take(s@, i as int);
                                assert(pre@ =~= s@.take(i as int));
                            }
                            let start = utf8_byte_len(&pre);
                            let style = if ch == '*' {
                                text("asterisk")
                            } else {
                                text("underscore")
                            };
                            let m = EmphasisMatch { full_match: string_of(&full), style, start };
                            r.push(m);
                            assert(r@.map_values(|m: EmphasisMatch| match_view(m)) =~= r0.push(
                                em_match(s@, (i as int, e as int)),
                            ));
                            assert(em_scan(s@, i as int).map_values(|m: (int, int)| em_match(s@, m))
                                =~= seq![em_match(s@, (i as int, e as int))] + em_scan(
                                s@,
                                e + 1,
                            ).map_values(|m: (int, int)| em_match(s@, m)));
                            i = e + 1;
                        },
                        None => {
                            i = i + 1;
                        },
                    }
                }
            }
        } else {
            i = i + 1;
        }
        assert(r@.map_values(|m: EmphasisMatch| match_view(m)) + em_scan(s@, i as int).map_values(
            |m: (int, int)| em_match(s@, m),
        ) =~= total.map_values(|m: (int, int)| em_match(s@, m)));
    }
    r
}

/// The emphases of a line, as text, style and byte offset.
pub open spec fn line_matches(line: Seq<char>) -> Seq<(Seq<char>, Seq<char>, int)> {
    em_scan(line, 0).map_values(|m: (int, int)| em_match(line, m))
}

/// The style of the first emphasis in lines `k` on.
pub open spec fn first_style(ls: Seq<Seq<char>>, k: int) -> Option<Seq<char>>
    decreases ls.len() - k,
{
    if k < 0 || k >= ls.len() {
        None
    } else if line_matches(ls[k]).len() > 0 {
        Some(line_matches(ls[k])[0].1)
    } else {
        first_style(ls, k + 1)
    }
}

pub open spec fn md049_configured(c: Config) -> Seq<char> {
    match value_as_str(c.lookup("style"@)) {
        Some(s) => s,
        None => "consistent"@,
    }
}

/// The text with its outer markers replaced by those of `preferred`.
pub open spec fn md049_corrected(full: Seq<char>, preferred: Seq<char>) -> Seq<char> {
    let inner = if full.len() >= 2 {
        full.subrange(1, full.len() - 1)
    } else {
        seq![]
    };
    if preferred == "asterisk"@ {
        "*"@ + inner + "*"@
    } else {
        "_"@ + inner + "_"@
    }
}

pub open spec fn md049_error(ln: int, m: (Seq<char>, Seq<char>, int), preferred: Seq<char>) -> LintErrorView {
    LintErrorView {
        detail: Some("Expected: "@ + preferred + "; Actual: "@ + m.1),
        context: Some(m.0),
        range: Some(((m.2 + 1) as usize, byte_len(m.0) as usize)),
        fix: Some(
            fix_view(
                None,
                Some((m.2 + 1) as usize),
                Some(byte_len(m.0) as i32),
                Some(md049_corrected(m.0, preferred)),
            ),
        ),
        ..base_error(md049_meta(), ln)
    }
}

/// The findings for the first `k` emphases `ms` of line `ln`.
pub open spec fn line_errors(ms: Seq<(Seq<char>, Seq<char>, int)>, ln: int, preferred: Seq<char>, k: int) -> Seq<LintErrorView>
    decreases k,
{
    if k <= 0 {
        seq![]
    } else {
        let prev = line_errors(ms, ln, preferred, k - 1);
        if ms[k - 1].1 != preferred {
            prev.push(md049_error(ln, ms[k - 1], preferred))
        } else {
            prev
        }
    }
}

pub open spec fn md049_report(ls: Seq<Seq<char>>, preferred: Seq<char>, n: int) -> Seq<LintErrorView>
    decreases n,
{
    if n <= 0 {
        seq![]
    } else {
        let ms = line_matches(ls[n - 1]);
        md049_report(ls, preferred, n - 1) + line_errors(ms, n, preferred, ms.len() as int)
    }
}

/// The findings of MD049.
pub open spec fn md049_errors(ls: Seq<Seq<char>>, c: Config) -> Seq<LintErrorView> {
    match first_style(ls, 0) {
        None => seq![],
        Some(fs) => {
            let preferred = if md049_configured(c) == "consistent"@ {
                fs
            } else {
                md049_configured(c)
            };
            md049_report(ls, preferred, ls.len() as int)
        },
    }
}

proof fn lemma_em_scan_range(s: Seq<char>, i: int)
    requires
        0 <= i,
    ensures
        forall|q: int|
            0 <= q < em_scan(s, i).len() ==> i <= (#[trigger] em_scan(s, i)[q]).0 < em_scan(s, i)[q].1
                < s.len(),
    decreases s.len() - i,
{
    if 0 <= i < s.len() {
        let ch = s[i];
        if is_marker(ch) {
            if i + 1 < s.len() && s[i + 1] == ch {
                let next = em_skip_double(s, ch, i + 2);
                if i < next <= s.len() {
                    lemma_em_scan_range(s, next);
                    assert(em_scan(s, i) == em_scan(s, next));
                }
            } else {
                let j = i + 1;
                if j >= s.len() || s[j] == ' ' || s[j] == '\n' || s[j] == ch {
                    lemma_em_scan_range(s, i + 1);
                    assert(em_scan(s, i) == em_scan(s, i + 1));
                } else {
                    match em_close(s, ch, j) {
                        Some(e) => if i < e < s.len() {
                            lemma_em_scan_range(s, e + 1);
                            let rest = em_scan(s, e + 1);
                            assert(em_scan(s, i) == seq![(i, e)] + rest);
                            assert forall|q: int| 0 <= q < em_scan(s, i).len() implies i <= (#[trigger] em_scan(
                                s,
                                i,
                            )[q]).0 < em_scan(s, i)[q].1 < s.len() by {
                                if q > 0 {
                                    assert(em_scan(s, i)[q] == rest[q - 1]);
                                }
                            }
                        },
                        None => {
                            lemma_em_scan_range(s, i + 1);
                            assert(em_scan(s, i) == em_scan(s, i + 1));
                        },
                    }
                }
            }
        } else {
            lemma_em_scan_range(s, i + 1);
            assert(em_scan(s, i) == em_scan(s, i + 1));
        }
    }
}

/// Every emphasis lies within its line.
proof fn lemma_matches_fit(line: Seq<char>)
    ensures
        forall|q: int|
            0 <= q < line_matches(line).len() ==> byte_len((#[trigger] line_matches(line)[q]).0) <= byte_len(line)
                && line_matches(line)[q].2 < byte_len(line),
{
    lemma_em_scan_range(line, 0);
    assert forall|q: int| 0 <= q < line_matches(line).len() implies byte_len((#[trigger] line_matches(line)[q]).0)
        <= byte_len(line) && line_matches(line)[q].2 < byte_len(line) by {
        let m = em_scan(line, 0)[q];
        crate::text::lemma_byte_len_subrange(line, m.0, m.1 + 1);
        crate::text::lemma_byte_len_take_strict(line, m.0, line.len() as int);
        assert(line.take(line.len() as int) =~= line);
    }
}

pub open spec fn matches_view(v: Vec<EmphasisMatch>) -> Seq<(Seq<char>, Seq<char>, int)> {
    v@.map_values(|m: EmphasisMatch| match_view(m))
}

impl MD049 {
    pub fn names(&self) -> (r: Vec<&'static str>)
        ensures
            names_view(r@) == md049_meta().names,
    {
        let r = vec!["MD049", "emphasis-style"];
        assert(names_view(r@) =~= md049_meta().names);
        r
    }

    pub fn description(&self) -> (r: &'static str)
        ensures
            r@ == md049_meta().description,
    {
        "Emphasis style should be consistent"
    }

    pub fn tags(&self) -> (r: Vec<&'static str>)
        ensures
            names_view(r@) == seq!["emphasis"@],
    {
        let r = vec!["emphasis"];
        assert(names_view(r@) =~= seq!["emphasis"@]);
        r
    }

    pub fn parser_type(&self) -> (r: ParserType)
        ensures
            r == ParserType::Plain,
    {
        ParserType::Plain
    }

    pub fn information(&self) -> (r: Option<&'static str>)
        ensures
            opt_str(r) == md049_meta().information,
    {
        Some("https://github.com/DavidAnson/markdownlint/blob/main/doc/md049.md")
    }

    pub fn lint(&self, params: &RuleParams) -> (errors: Vec<LintError>)
        requires
            lines_fit(params.lines@),
        ensures
            errors_view(errors@) == md049_errors(views(params.lines@), *params.config),
    {
        let lines = params.lines;
        let ghost ls = views(lines@);
        let configured: Vec<char> = match params.config.get_str("style") {
            Some(v) => v,
            None => chars_of("consistent"),
        };
        assert(configured@ == md049_configured(*params.config));
        let mut per_line: Vec<Vec<EmphasisMatch>> = Vec::new();
        let n = lines.len();
        let mut i: usize = 0;
        while i < n
            invariant
                n == lines@.len(),
                i <= n,
                ls == views(lines@),
                lines_fit(lines@),
                per_line@.len() == i,
                forall|j: int| 0 <= j < i ==> matches_view(#[trigger] per_line@[j]) == line_matches(ls[j]),
            decreases n - i,
        {
            assert(byte_len(lines@[i as int]@) <= isize::MAX);
            let ms = find_emphasis_matches(lines[i]);
            per_line.push(ms);
            i = i + 1;
        }
        let mut errors: Vec<LintError> = Vec::new();
        let mut first: Option<usize> = None;
        let mut li: usize = n;
        while li > 0
            invariant
                li <= n,
                n == per_line@.len(),
                n == ls.len(),
                forall|j: int| 0 <= j < n ==> matches_view(#[trigger] per_line@[j]) == line_matches(ls[j]),
                match first {
                    Some(f) => f < n && per_line@[f as int]@.len() > 0 && first_style(ls, li as int) == Some(line_matches(ls[f as int])[0].1),
                    None => first_style(ls, li as int).is_none(),
                },
            decreases li,
        {
            assert(matches_view(per_line@[li - 1]) == line_matches(ls[li - 1]));
            if per_line[li - 1].len() > 0 {
                first = Some(li - 1);
            }
            li = li - 1;
        }
        let f = match first {
            Some(f) => f,
            None => {
                assert(errors_view(errors@) =~= seq![]);
                return errors;
            },
        };
        assert(matches_view(per_line@[f as int]) == line_matches(ls[f as int]));
        let fs = &per_line[f][0].style;
        let preferred: Vec<char> = if crate::text::eq_str(&configured, "consistent") {
            chars_of(fs.as_str())
        } else {
            configured
        };
        let ghost pref = preferred@;
        let asterisk = crate::text::eq_str(&preferred, "asterisk");
        let names = self.names();
        let mut li: usize = 0;
        assert(errors_view(errors@) =~= seq![]);
        while li < n
            invariant
                li <= n,
                n == per_line@.len(),
                n == ls.len(),
                lines_fit(lines@),
                ls == views(lines@),
                pref == preferred@,
                asterisk == (pref == "asterisk"@),
                forall|j: int| 0 <= j < n ==> matches_view(#[trigger] per_line@[j]) == line_matches(ls[j]),
                names_view(names@) == md049_meta().names,
                errors_view(errors@) == md049_report(ls, pref, li as int),
            decreases n - li,
        {
            let ms = &per_line[li];
            assert(matches_view(per_line@[li as int]) == line_matches(ls[li as int]));
            proof {
                lemma_matches_fit(ls[li as int]);
                assert(byte_len(lines@[li as int]@) <= isize::MAX);
                assert forall|q: int| 0 <= q < ms@.len() implies byte_len((#[trigger] ms@[q]).full_match@)
                    <= isize::MAX && ms@[q].start < isize::MAX by {
                    assert(matches_view(*ms)[q] == match_view(ms@[q]));
                }
            }
            let ghost mv = matches_view(*ms);
            let ghost e0 = errors_view(errors@);
            let mut k: usize = 0;
            while k < ms.len()
                invariant
                    k <= ms@.len(),
                    li < n,
                    mv == matches_view(*ms),
                    pref == preferred@,
                    asterisk == (pref == "asterisk"@),
                    forall|q: int| 0 <= q < ms@.len() ==> byte_len((#[trigger] ms@[q]).full_match@) <= isize::MAX
                        && ms@[q].start < isize::MAX,
                    names_view(names@) == md049_meta().names,
                    errors_view(errors@) == e0 + line_errors(mv, li + 1, pref, k as int),
                decreases ms@.len() - k,
            {
                let m = &ms[k];
                assert(mv[k as int] == match_view(*m));
                let sv = chars_of(m.style.as_str());
                if !crate::text::eq_vec(&sv, &preferred) {
                    let full = chars_of(m.full_match.as_str());
                    let len = utf8_byte_len(&full);
                    let inner = if full.len() >= 2 {
                        slice_chars(&full, 1, full.len() - 1)
                    } else {
                        Vec::new()
                    };
                    let mut corrected = if asterisk {
                        text("*")
                    } else {
                        text("_")
                    };
                    push_chars(&mut corrected, &inner);
                    push_str(&mut corrected, if asterisk {
                        "*"
                    } else {
                        "_"
                    });
                    let mut d = text("Expected: ");
                    push_chars(&mut d, &preferred);
                    push_str(&mut d, "; Actual: ");
                    push_str(&mut d, m.style.as_str());
                    let mut e = LintError::new(li + 1, &names, self.description(), self.information());
                    e.error_detail = Some(d);
                    e.error_context = Some(string_of(&full));
                    e.error_range = Some((m.start + 1, len));
                    e.fix_info = Some(
                        FixInfo {
                            line_number: None,
                            edit_column: Some(m.start + 1),
                            delete_count: Some(len as i32),
                            insert_text: Some(corrected),
                        },
                    );
                    let ghost b = errors_view(errors@);
                    errors.push(e);
                    assert(errors_view(errors@) =~= b.push(md049_error((li + 1) as int, mv[k as int], pref)));
                }
                k = k + 1;
            }
            li = li + 1;
            assert(errors_view(errors@) =~= md049_report(ls, pref, li as int));
        }
        errors
    }
}

/// An emphasis `(first, last)` of `s`: a marker, then a character that is no
/// space, line feed or the same marker, ..., a character other than the
/// marker, then the same marker not followed by another.
pub open spec fn em_ok(s: Seq<char>, m: (int, int)) -> bool {
    &&& 0 <= m.0
    &&& m.0 + 1 < m.1 < s.len()
    &&& is_marker(s[m.0])
    &&& s[m.1] == s[m.0]
    &&& s[m.0 + 1] != ' ' && s[m.0 + 1] != '\n' && s[m.0 + 1] != s[m.0]
    &&& s[m.1 - 1] != s[m.0]
    &&& m.1 + 1 < s.len() ==> s[m.1 + 1] != s[m.0]
}

/// The emphases are well formed, start at `i` or later, and each ends
/// before the next begins.
pub open spec fn em_ordered(s: Seq<char>, ms: Seq<(int, int)>, i: int) -> bool {
    &&& forall|j: int| 0 <= j < ms.len() ==> em_ok(s, #[trigger] ms[j]) && i <= ms[j].0
    &&& forall|j: int| 0 < j < ms.len() ==> ms[j - 1].1 < (#[trigger] ms[j]).0
}

proof fn lemma_em_close(s: Seq<char>, ch: char, j: int)
    requires
        0 <= j,
    ensures
        em_close(s, ch, j) matches Some(e) ==> {
            &&& j <= e < s.len()
            &&& s[e] == ch
            &&& !(e > 0 && s[e - 1] == ch)
            &&& !(e + 1 < s.len() && s[e + 1] == ch)
        },
    decreases s.len() - j,
{
    if 0 <= j < s.len() {
        if !(s[j] == ch && !(j > 0 && s[j - 1] == ch) && !(j + 1 < s.len() && s[j + 1] == ch)) && s[j] != '\n' {
            lemma_em_close(s, ch, j + 1);
        }
    }
}

/// The emphases found in a line are well formed and come in order, each
/// ending before the next begins.
pub proof fn lemma_em_scan_ordered(s: Seq<char>, i: int)
    requires
        0 <= i,
    ensures
        em_ordered(s, em_scan(s, i), i),
    decreases s.len() - i,
{
    if 0 <= i < s.len() {
        let ch = s[i];
        if is_marker(ch) {
            if i + 1 < s.len() && s[i + 1] == ch {
                let next = em_skip_double(s, ch, i + 2);
                if i < next <= s.len() {
                    lemma_em_scan_ordered(s, next);
                }
            } else {
                let j = i + 1;
                if j >= s.len() || s[j] == ' ' || s[j] == '\n' || s[j] == ch {
                    lemma_em_scan_ordered(s, i + 1);
                } else {
                    lemma_em_close(s, ch, j);
                    match em_close(s, ch, j) {
                        Some(e) => {
                            if i < e < s.len() {
                                lemma_em_scan_ordered(s, e + 1);
                                let rest = em_scan(s, e + 1);
                                let ms = em_scan(s, i);
                                assert(ms == seq![(i, e)] + rest);
                                assert(e != j);
                                assert forall|k: int| 0 <= k < ms.len() implies em_ok(s, #[trigger] ms[k]) && i <= ms[k].0 by {
                                    if k > 0 {
                                        assert(ms[k] == rest[k - 1]);
                                    }
                                }
                                assert forall|k: int| 0 < k < ms.len() implies ms[k - 1].1 < (#[trigger] ms[k]).0 by {
                                    assert(ms[k] == rest[k - 1]);
                                    if k > 1 {
                                        assert(ms[k - 1] == rest[k - 2]);
                                    }
                                }
                            }
                        },
                        None => {
                            lemma_em_scan_ordered(s, i + 1);
                        },
                    }
                }
            }
        } else {
            lemma_em_scan_ordered(s, i + 1);
        }
    }
}

} // verus!
