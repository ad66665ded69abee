//! MD050 - Strong style should be consistent.
//!
//! Strong emphasis is written `**text**` or `__text__`. The `style` option
//! is "consistent" (the default: the style of the first one in the
//! document), "asterisk" or "underscore"; strong emphasis of the other style
//! is reported with a fix that rewrites it.

use vstd::prelude::*;
use crate::text::{
    byte_len, chars_of, eq_str, push_chars, push_str, slice_chars, string_of, text, utf8_byte_len,
    views,
};
use crate::types::{
    base_error, errors_view, fix_view, lines_fit, names_view, opt_str, FixInfo, LintError,
    LintErrorView, ParserType, RuleMeta, RuleParams,
};
use crate::config::{value_as_str, Config};

verus! {

pub struct MD050;

pub open spec fn md050_meta() -> RuleMeta {
    RuleMeta {
        names: seq!["MD050"@, "strong-style"@],
        description: "Strong style should be consistent"@,
        information: Some("https://github.com/DavidAnson/markdownlint/blob/main/doc/md050.md"@),
    }
}

/// One strong emphasis in a line.
pub struct StrongMatch {
    /// The matched text, markers included.
    pub full_match: String,
    /// "asterisk" or "underscore".
    pub style: String,
    /// The byte offset of the match in the line.
    pub start: usize,
}

pub open spec fn is_marker(c: char) -> bool {
    c == '*' || c == '_'
}

/// The start of the closing marker of a strong emphasis opened before `j`:
/// a doubled `ch` (not tripled) before any line feed.
pub open spec fn st_close(s: Seq<char>, ch: char, j: int) -> Option<int>
    decreases s.len() - j,
{
    if 0 <= j && j + 1 < s.len() {
        if s[j] == ch && s[j + 1] == ch && !(j + 2 < s.len() && s[j + 2] == ch) {
            Some(j)
        } else if s[j] == '\n' {
            None
        } else {
            st_close(s, ch, j + 1)
        }
    } else {
        None
    }
}

/// The strong emphases from character `i` on, as (first, last) character
/// indices.
pub open spec fn st_scan(s: Seq<char>, i: int) -> Seq<(int, int)>
    decreases s.len() - i,
{
    if i < 0 || i + 1 >= s.len() {
        seq![]
    } else {
        let ch = s[i];
        if is_marker(ch) && s[i + 1] == ch {
            if i + 2 < s.len() && s[i + 2] == ch {
                st_scan(s, i + 1)
            } else {
                let j = i + 2;
                if j >= s.len() || s[j] == ch || s[j] == '\n' {
                    st_scan(s, i + 2)
                } else {
                    match st_close(s, ch, j) {
                        Some(e) => if i < e && e + 1 < s.len() {
                            seq![(i, e + 1)] + st_scan(s, e + 2)
                        } else {
                            seq![]
                        },
                        None => st_scan(s, i + 2),
                    }
                }
            }
        } else {
            st_scan(s, i + 1)
        }
    }
}

pub open spec fn style_name(c: char) -> Seq<char> {
    if c == '*' {
        "asterisk"@
    } else {
        "underscore"@
    }
}

/// The match view: text, style and byte offset.
pub open spec fn st_match(s: Seq<char>, m: (int, int)) -> (Seq<char>, Seq<char>, int) {
    (s.subrange(m.0, m.1 + 1), style_name(s[m.0]), byte_len(s.take(m.0)) as int)
}

pub open spec fn match_view(m: StrongMatch) -> (Seq<char>, Seq<char>, int) {
    (m.full_match@, m.style@, m.start as int)
}

proof fn lemma_close(s: Seq<char>, ch: char, j: int)
    requires
        0 <= j,
    ensures
        st_close(s, ch, j) matches Some(e) ==> j <= e && e + 1 < s.len(),
    decreases s.len() - j,
{
    if j + 1 < s.len() && !(s[j] == ch && s[j + 1] == ch && !(j + 2 < s.len() && s[j + 2] == ch))
        && s[j] != '\n' {
        lemma_close(s, ch, j + 1);
    }
}

/// Find all strong-emphasis patterns in a line: `**text**` and `__text__`,
/// but not `*text*` or `_text_`.
pub fn find_strong_matches(line: &str) -> (r: Vec<StrongMatch>)
    requires
        byte_len(line@) <= isize::MAX,
    ensures
        r@.map_values(|m: StrongMatch| match_view(m)) == st_scan(line@, 0).map_values(
            |m: (int, int)| st_match(line@, m),
        ),
{
    let s = chars_of(line);
    let n = s.len();
    let mut r: Vec<StrongMatch> = Vec::new();
    let mut i: usize = 0;
    let ghost total = st_scan(s@, 0);
    assert(r@.map_values(|m: StrongMatch| match_view(m)) + st_scan(s@, 0).map_values(
        |m: (int, int)| st_match(s@, m),
    ) =~= total.map_values(|m: (int, int)| st_match(s@, m)));
    while i < n && i + 1 < n
        invariant
            n == s@.len(),
            i <= n,
            s@ == line@,
            byte_len(s@) <= isize::MAX,
            total == st_scan(s@, 0),
            r@.map_values(|m: StrongMatch| match_view(m)) + st_scan(s@, i as int).map_values(
                |m: (int, int)| st_match(s@, m),
            ) == total.map_values(|m: (int, int)| st_match(s@, m)),
        decreases n - i,
    {
        let ghost r0 = r@.map_values(|m: StrongMatch| match_view(m));
        let ch = s[i];
        if (ch == '*' || ch == '_') && s[i + 1] == ch {
            if i + 2 < n && s[i + 2] == ch {
                i = i + 1;
            } else {
                let j0 = i + 2;
                if j0 >= n || s[j0] == ch || s[j0] == '\n' {
                    i = i + 2;
                } else {
                    let mut j = j0;
                    let mut found: Option<usize> = None;
                    while j < n - 1 && found.is_none()
                        invariant
                            j0 <= j <= n,
                            j0 == i + 2,
                            n >= 2,
                            n == s@.len(),
                            match found {
                                Some(e) => st_close(s@, ch, j0 as int) == Some(e as int) && e + 1 < n,
                                None => st_close(s@, ch, j0 as int) == st_close(s@, ch, j as int),
                            },
                        decreases n - j + (if found.is_none() {
                            1int
                        } else {
                            0int
                        }),
                    {
                        let tripled = j + 2 < n && s[j + 2] == ch;
                        if s[j] == ch && s[j + 1] == ch && !tripled {
                            found = Some(j);
                        } else if s[j] == '\n' {
                            j = n;
                        } else {
                            j = j + 1;
                        }
                    }
                    proof {
                        lemma_close(s@, ch, j0 as int);
                    }
                    match found {
                        Some(e) => {
                            let full = slice_chars(&s, i, e + 2);
                            let pre = slice_chars(&s, 0, i);
                            proof {
                                crate::text::lemma_byte_len_take(s@, i as int);
                                assert(pre@ =~= s@.take(i as int));
                            }
                            let start = utf8_byte_len(&pre);
                            let style = if ch == '*' {
                                text("asterisk")
                            } else {
                                text("underscore")
                            };
                            let m = StrongMatch { full_match: string_of(&full), style, start };
                            r.push(m);
                            assert(r@.map_values(|m: StrongMatch| match_view(m)) =~= r0.push(
                                st_match(s@, (i as int, e + 1)),
                            ));
                            assert(st_scan(s@, i as int).map_values(|m: (int, int)| st_match(s@, m))
                                =~= seq![st_match(s@, (i as int, e + 1))] + st_scan(
                                s@,
                                e + 2,
                            ).map_values(|m: (int, int)| st_match(s@, m)));
                            i = e + 2;
                        },
                        None => {
                            i = i + 2;
                        },
                    }
                }
            }
        } else {
            i = i + 1;
        }
        assert(r@.map_values(|m: StrongMatch| match_view(m)) + st_scan(s@, i as int).map_values(
            |m: (int, int)| st_match(s@, m),
        ) =~= total.map_values(|m: (int, int)| st_match(s@, m)));
    }
    assert(st_scan(s@, i as int) =~= seq![]);
    assert(r@.map_values(|m: StrongMatch| match_view(m)) =~= total.map_values(
        |m: (int, int)| st_match(s@, m),
    ));
    r
}

/// The strong emphases of a line, as text, style and byte offset.
pub open spec fn line_matches(line: Seq<char>) -> Seq<(Seq<char>, Seq<char>, int)> {
    st_scan(line, 0).map_values(|m: (int, int)| st_match(line, m))
}

/// The style of the first strong emphasis in lines `k` on.
pub open spec fn first_style(ls: Seq<Seq<char>>, k: int) -> Option<Seq<char>>
    decreases ls.len() - k,
{
    if k < 0 || k >= ls.len() {
        None
    } else if line_matches(ls[k]).len() > 0 {
        Some(line_matches(ls[k])[0].1)
    } else {
        first_style(ls, k + 1)
    }
}

pub open spec fn md050_configured(c: Config) -> Seq<char> {
    match value_as_str(c.lookup("style"@)) {
        Some(s) => s,
        None => "consistent"@,
    }
}

/// The text with its outer markers replaced by those of `preferred`.
pub open spec fn md050_corrected(full: Seq<char>, preferred: Seq<char>) -> Seq<char> {
    let inner = if full.len() >= 4 {
        full.subrange(2, full.len() - 2)
    } else {
        seq![]
    };
    if preferred == "asterisk"@ {
        "**"@ + inner + "**"@
    } else {
        "__"@ + inner + "__"@
    }
}

pub open spec fn md050_error(ln: int, m: (Seq<char>, Seq<char>, int), preferred: Seq<char>) -> LintErrorView {
    LintErrorView {
        detail: Some("Expected: "@ + preferred + "; Actual: "@ + m.1),
        context: Some(m.0),
        range: Some(((m.2 + 1) as usize, byte_len(m.0) as usize)),
        fix: Some(
            fix_view(
                None,
                Some((m.2 + 1) as usize),
                Some(byte_len(m.0) as i32),
                Some(md050_corrected(m.0, preferred)),
            ),
        ),
        suggestion: Some("Use consistent strong emphasis style"@),
        ..base_error(md050_meta(), ln)
    }
}

/// The findings for the first `k` strong emphases `ms` of line `ln`.
pub open spec fn line_errors(ms: Seq<(Seq<char>, Seq<char>, int)>, ln: int, preferred: Seq<char>, k: int) -> Seq<LintErrorView>
    decreases k,
{
    if k <= 0 {
        seq![]
    } else {
        let prev = line_errors(ms, ln, preferred, k - 1);
        if ms[k - 1].1 != preferred {
            prev.push(md050_error(ln, ms[k - 1], preferred))
        } else {
            prev
        }
    }
}

pub open spec fn md050_report(ls: Seq<Seq<char>>, preferred: Seq<char>, n: int) -> Seq<LintErrorView>
    decreases n,
{
    if n <= 0 {
        seq![]
    } else {
        let ms = line_matches(ls[n - 1]);
        md050_report(ls, preferred, n - 1) + line_errors(ms, n, preferred, ms.len() as int)
    }
}

/// The findings of MD050.
pub open spec fn md050_errors(ls: Seq<Seq<char>>, c: Config) -> Seq<LintErrorView> {
    match first_style(ls, 0) {
        None => seq![],
        Some(fs) => {
            let preferred = if md050_configured(c) == "consistent"@ {
                fs
            } else {
                md050_configured(c)
            };
            md050_report(ls, preferred, ls.len() as int)
        },
    }
}

proof fn lemma_st_scan_range(s: Seq<char>, i: int)
    requires
        0 <= i,
    ensures
        forall|q: int|
            0 <= q < st_scan(s, i).len() ==> i <= (#[trigger] st_scan(s, i)[q]).0 < st_scan(s, i)[q].1
                < s.len(),
    decreases s.len() - i,
{
    if i + 1 < s.len() {
        let ch = s[i];
        if is_marker(ch) && s[i + 1] == ch {
            if i + 2 < s.len() && s[i + 2] == ch {
                lemma_st_scan_range(s, i + 1);
                assert(st_scan(s, i) == st_scan(s, i + 1));
            } else {
                let j = i + 2;
                if j >= s.len() || s[j] == ch || s[j] == '\n' {
                    lemma_st_scan_range(s, i + 2);
                    assert(st_scan(s, i) == st_scan(s, i + 2));
                } else {
                    match st_close(s, ch, j) {
                        Some(e) => if i < e && e + 1 < s.len() {
                            lemma_st_scan_range(s, e + 2);
                            let rest = st_scan(s, e + 2);
                            assert(st_scan(s, i) == seq![(i, e + 1)] + rest);
                            assert forall|q: int| 0 <= q < st_scan(s, i).len() implies i <= (#[trigger] st_scan(
                                s,
                                i,
                            )[q]).0 < st_scan(s, i)[q].1 < s.len() by {
                                if q > 0 {
                                    assert(st_scan(s, i)[q] == rest[q - 1]);
                                }
                            }
                        },
                        None => {
                            lemma_st_scan_range(s, i + 2);
                            assert(st_scan(s, i) == st_scan(s, i + 2));
                        },
                    }
                }
            }
        } else {
            lemma_st_scan_range(s, i + 1);
            assert(st_scan(s, i) == st_scan(s, i + 1));
        }
    }
}

/// Every strong emphasis lies within its line.
proof fn lemma_matches_fit(line: Seq<char>)
    ensures
        forall|q: int|
            0 <= q < line_matches(line).len() ==> byte_len((#[trigger] line_matches(line)[q]).0) <= byte_len(line)
                && line_matches(line)[q].2 < byte_len(line),
{
    lemma_st_scan_range(line, 0);
    assert forall|q: int| 0 <= q < line_matches(line).len() implies byte_len((#[trigger] line_matches(line)[q]).0)
        <= byte_len(line) && line_matches(line)[q].2 < byte_len(line) by {
        let m = st_scan(line, 0)[q];
        crate::text::lemma_byte_len_subrange(line, m.0, m.1 + 1);
        crate::text::lemma_byte_len_take_strict(line, m.0, line.len() as int);
        assert(line.take(line.len() as int) =~= line);
    }
}

pub open spec fn matches_view(v: Vec<StrongMatch>) -> Seq<(Seq<char>, Seq<char>, int)> {
    v@.map_values(|m: StrongMatch| match_view(m))
}

impl MD050 {
    pub fn names(&self) -> (r: Vec<&'static str>)
        ensures
            names_view(r@) == md050_meta().names,
    {
        let r = vec!["MD050", "strong-style"];
        assert(names_view(r@) =~= md050_meta().names);
        r
    }

    pub fn description(&self) -> (r: &'static str)
        ensures
            r@ == md050_meta().description,
    {
        "Strong style should be consistent"
    }

    pub fn tags(&self) -> (r: Vec<&'static str>)
        ensures
            names_view(r@) == seq!["emphasis"@, "fixable"@],
    {
        let r = vec!["emphasis", "fixable"];
        assert(names_view(r@) =~= seq!["emphasis"@, "fixable"@]);
        r
    }

    pub fn parser_type(&self) -> (r: ParserType)
        ensures
            r == ParserType::Plain,
    {
        ParserType::Plain
    }

    pub fn information(&self) -> (r: Option<&'static str>)
        ensures
            opt_str(r) == md050_meta().information,
    {
        Some("https://github.com/DavidAnson/markdownlint/blob/main/doc/md050.md")
    }

    pub fn lint(&self, params: &RuleParams) -> (errors: Vec<LintError>)
        requires
            lines_fit(params.lines@),
        ensures
            errors_view(errors@) == md050_errors(views(params.lines@), *params.config),
    {
        let lines = params.lines;
        let ghost ls = views(lines@);
        let configured: Vec<char> = match params.config.get_str("style") {
            Some(v) => v,
            None => chars_of("consistent"),
        };
        assert(configured@ == md050_configured(*params.config));
        let mut per_line: Vec<Vec<StrongMatch>> = Vec::new();
        let n = lines.len();
        let mut i: usize = 0;
        while i < n
            invariant
                n == lines@.len(),
                i <= n,
                ls == views(lines@),
                lines_fit(lines@),
                per_line@.len() == i,
                forall|j: int| 0 <= j < i ==> matches_view(#[trigger] per_line@[j]) == line_matches(ls[j]),
            decreases n - i,
        {
            assert(byte_len(lines@[i as int]@) <= isize::MAX);
            let ms = find_strong_matches(lines[i]);
            per_line.push(ms);
            i = i + 1;
        }
        let mut errors: Vec<LintError> = Vec::new();
        let mut first: Option<usize> = None;
        let mut li: usize = n;
        while li > 0
            invariant
                li <= n,
                n == per_line@.len(),
                n == ls.len(),
                forall|j: int| 0 <= j < n ==> matches_view(#[trigger] per_line@[j]) == line_matches(ls[j]),
                match first {
                    Some(f) => f < n && per_line@[f as int]@.len() > 0 && first_style(ls, li as int) == Some(line_matches(ls[f as int])[0].1),
                    None => first_style(ls, li as int).is_none(),
                },
            decreases li,
        {
            assert(matches_view(per_line@[li - 1]) == line_matches(ls[li - 1]));
            if per_line[li - 1].len() > 0 {
                first = Some(li - 1);
            }
            li = li - 1;
        }
        let f = match first {
            Some(f) => f,
            None => {
                assert(errors_view(errors@) =~= seq![]);
                return errors;
            },
        };
        assert(matches_view(per_line@[f as int]) == line_matches(ls[f as int]));
        let fs = &per_line[f][0].style;
        let preferred: Vec<char> = if crate::text::eq_str(&configured, "consistent") {
            chars_of(fs.as_str())
        } else {
            configured
        };
        let ghost pref = preferred@;
        let asterisk = crate::text::eq_str(&preferred, "asterisk");
        let names = self.names();
        let mut li: usize = 0;
        assert(errors_view(errors@) =~= seq![]);
        while li < n
            invariant
                li <= n,
                n == per_line@.len(),
                n == ls.len(),
                lines_fit(lines@),
                ls == views(lines@),
                pref == preferred@,
                asterisk == (pref == "asterisk"@),
                forall|j: int| 0 <= j < n ==> matches_view(#[trigger] per_line@[j]) == line_matches(ls[j]),
                names_view(names@) == md050_meta().names,
                errors_view(errors@) == md050_report(ls, pref, li as int),
            decreases n - li,
        {
            let ms = &per_line[li];
            assert(matches_view(per_line@[li as int]) == line_matches(ls[li as int]));
            proof {
                lemma_matches_fit(ls[li as int]);
                assert(byte_len(lines@[li as int]@) <= isize::MAX);
                assert forall|q: int| 0 <= q < ms@.len() implies byte_len((#[trigger] ms@[q]).full_match@)
                    <= isize::MAX && ms@[q].start < isize::MAX by {
                    assert(matches_view(*ms)[q] == match_view(ms@[q]));
                }
            }
            let ghost mv = matches_view(*ms);
            let ghost e0 = errors_view(errors@);
            let mut k: usize = 0;
            while k < ms.len()
                invariant
                    k <= ms@.len(),
                    li < n,
                    mv == matches_view(*ms),
                    pref == preferred@,
                    asterisk == (pref == "asterisk"@),
                    forall|q: int| 0 <= q < ms@.len() ==> byte_len((#[trigger] ms@[q]).full_match@) <= isize::MAX
                        && ms@[q].start < isize::MAX,
                    names_view(names@) == md050_meta().names,
                    errors_view(errors@) == e0 + line_errors(mv, li + 1, pref, k as int),
                decreases ms@.len() - k,
            {
                let m = &ms[k];
                assert(mv[k as int] == match_view(*m));
                let sv = chars_of(m.style.as_str());
                if !crate::text::eq_vec(&sv, &preferred) {
                    let full = chars_of(m.full_match.as_str());
                    let len = utf8_byte_len(&full);
                    let inner = if full.len() >= 4 {
                        slice_chars(&full, 2, full.len() - 2)
                    } else {
                        Vec::new()
                    };
                    let mut corrected = if asterisk {
                        text("**")
                    } else {
                        text("__")
                    };
                    push_chars(&mut corrected, &inner);
                    push_str(&mut corrected, if asterisk {
                        "**"
                    } else {
                        "__"
                    });
                    let mut d = text("Expected: ");
                    push_chars(&mut d, &preferred);
                    push_str(&mut d, "; Actual: ");
                    push_str(&mut d, m.style.as_str());
                    let mut e = LintError::new(li + 1, &names, self.description(), self.information());
                    e.error_detail = Some(d);
                    e.error_context = Some(string_of(&full));
                    e.error_range = Some((m.start + 1, len));
                    e.fix_info = Some(
                        FixInfo {
                            line_number: None,
                            edit_column: Some(m.start + 1),
                            delete_count: Some(len as i32),
                            insert_text: Some(corrected),
                        },
                    );
                    e.suggestion = Some(text("Use consistent strong emphasis style"));
                    let ghost b = errors_view(errors@);
                    errors.push(e);
                    assert(errors_view(errors@) =~= b.push(md050_error((li + 1) as int, mv[k as int], pref)));
                }
                k = k + 1;
            }
            li = li + 1;
            assert(errors_view(errors@) =~= md050_report(ls, pref, li as int));
        }
        errors
    }
}

} // verus!
