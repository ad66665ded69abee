//! Applying the fixes of findings to a document.
//!
//! The document is split into lines after each `\n`. A fix targets its own
//! line number, or else the line of its finding; fixes for lines outside the
//! document are ignored. A delete count of -1 removes the target line. On a
//! line that stays, columns and delete counts are byte offsets into the line
//! without its line ending (a delete count of `None` or below 0 deletes
//! nothing, one past the end deletes to the end). The line is rebuilt from
//! left to right: where a fix starts, the first such fix (in the order of the
//! findings) inserts its text and deletes its range; fixes that start inside
//! a deleted range are dropped. The line ending is kept.

use vstd::prelude::*;
use crate::text::{
    trim_end_char, char_at_byte, char_index_at_byte, chars_of, strip_eol, strip_eol_vec, byte_len,
    string_of, lemma_strip_eol_prefix,
};
use crate::types::{errors_view, LintError, LintErrorView};

verus! {

/// The lines of `s` from character `p` on, each with its `\n`.
pub open spec fn split_from(s: Seq<char>, p: int) -> Seq<Seq<char>>
    decreases s.len() - p,
{
    if p < 0 || p >= s.len() {
        seq![]
    } else {
        let i = first_newline(s, p);
        proof {
            lemma_first_newline(s, p);
        }
        if i >= s.len() {
            seq![s.subrange(p, s.len() as int)]
        } else {
            seq![s.subrange(p, i + 1)] + split_from(s, i + 1)
        }
    }
}

/// The lines of `s`, each with its `\n` (`str::split_inclusive('\n')`).
pub open spec fn split_lines(s: Seq<char>) -> Seq<Seq<char>> {
    split_from(s, 0)
}

/// The index of the first `\n` in `s` from `k` on, the length when none.
pub open spec fn first_newline(s: Seq<char>, k: int) -> int
    decreases s.len() - k,
{
    if k < 0 || k >= s.len() {
        s.len() as int
    } else if s[k] == '\n' {
        k
    } else {
        first_newline(s, k + 1)
    }
}

pub proof fn lemma_first_newline(s: Seq<char>, k: int)
    requires
        0 <= k <= s.len(),
    ensures
        k <= first_newline(s, k) <= s.len(),
        first_newline(s, k) < s.len() ==> s[first_newline(s, k)] == '\n',
    decreases s.len() - k,
{
    if k < s.len() && s[k] != '\n' {
        lemma_first_newline(s, k + 1);
    }
}

/// The concatenation of `ls`.
pub open spec fn join(ls: Seq<Seq<char>>) -> Seq<char>
    decreases ls.len(),
{
    if ls.len() == 0 {
        seq![]
    } else {
        join(ls.drop_last()) + ls.last()
    }
}

/// The line a finding's fix targets, 0 when it has no fix.
pub open spec fn fix_line(e: LintErrorView) -> int {
    match e.fix {
        Some(f) => match f.line_number {
            Some(l) => l as int,
            None => e.line_number,
        },
        None => 0,
    }
}

/// Some fix for line `ln` deletes it.
pub open spec fn line_deleted(es: Seq<LintErrorView>, ln: int) -> bool {
    exists|k: int|
        0 <= k < es.len() && fix_line(#[trigger] es[k]) == ln && es[k].fix is Some
            && es[k].fix.unwrap().delete_count == Some(-1i32)
}

/// An edit of a line's text: the character range it replaces and its text.
pub open spec fn edit_of(t: Seq<char>, e: LintErrorView) -> (int, int, Seq<char>) {
    let f = e.fix.unwrap();
    let col: int = match f.edit_column {
        Some(c) => if c >= 1 {
            c as int
        } else {
            1
        },
        None => 1,
    };
    let del: int = match f.delete_count {
        Some(d) => if d > 0 {
            d as int
        } else {
            0
        },
        None => 0,
    };
    let ins = match f.insert_text {
        Some(x) => x,
        None => seq![],
    };
    (char_at_byte(t, col - 1, 0), char_at_byte(t, col - 1 + del, 0), ins)
}

/// The edits of the first `k` findings that target line `ln`, in order.
pub open spec fn line_edits(es: Seq<LintErrorView>, ln: int, t: Seq<char>, k: int) -> Seq<(int, int, Seq<char>)>
    decreases k,
{
    if k <= 0 {
        seq![]
    } else {
        let prev = line_edits(es, ln, t, k - 1);
        if es[k - 1].fix is Some && fix_line(es[k - 1]) == ln {
            prev.push(edit_of(t, es[k - 1]))
        } else {
            prev
        }
    }
}

/// The index of the first edit from `k` on that starts at `i`, -1 when none.
pub open spec fn edit_at(edits: Seq<(int, int, Seq<char>)>, i: int, k: int) -> int
    decreases edits.len() - k,
{
    if k < 0 || k >= edits.len() {
        -1
    } else if edits[k].0 == i {
        k
    } else {
        edit_at(edits, i, k + 1)
    }
}

/// The text from character `i` on, with the edits applied.
pub open spec fn merge_from(t: Seq<char>, edits: Seq<(int, int, Seq<char>)>, i: int) -> Seq<char>
    decreases t.len() + 1 - i,
{
    if i < 0 || i > t.len() {
        seq![]
    } else {
        let j = edit_at(edits, i, 0);
        if j >= 0 {
            let e = edits[j];
            let next = if e.1 > t.len() {
                t.len() as int
            } else {
                e.1
            };
            if next > i {
                e.2 + merge_from(t, edits, next)
            } else if i < t.len() {
                e.2 + seq![t[i]] + merge_from(t, edits, i + 1)
            } else {
                e.2
            }
        } else if i < t.len() {
            seq![t[i]] + merge_from(t, edits, i + 1)
        } else {
            seq![]
        }
    }
}

/// Line `ln` (1-based) after its fixes.
pub open spec fn fixed_line(es: Seq<LintErrorView>, ln: int, line: Seq<char>) -> Seq<char> {
    if line_deleted(es, ln) {
        seq![]
    } else {
        let t = strip_eol(line);
        merge_from(t, line_edits(es, ln, t, es.len() as int), 0) + line.skip(t.len() as int)
    }
}

/// The document after the fixes of the findings `es`.
pub open spec fn fixed_document(content: Seq<char>, es: Seq<LintErrorView>) -> Seq<char> {
    let ls = split_lines(content);
    join(Seq::new(ls.len(), |k: int| fixed_line(es, k + 1, ls[k])))
}

pub proof fn lemma_char_at_past_end(t: Seq<char>, b: int, k: int)
    requires
        0 <= k <= t.len(),
        b > byte_len(t),
    ensures
        char_at_byte(t, b, k) == t.len(),
    decreases t.len() - k,
{
    if k < t.len() {
        crate::text::lemma_byte_len_take(t, k);
        lemma_char_at_past_end(t, b, k + 1);
    }
}

/// The lines of `s`.
fn split_content(s: &Vec<char>) -> (r: Vec<Vec<char>>)
    ensures
        r@.map_values(|l: Vec<char>| l@) == split_lines(s@),
        forall|k: int| 0 <= k < r@.len() ==> byte_len(#[trigger] r@[k]@) <= byte_len(s@),
{
    let n = s.len();
    let mut r: Vec<Vec<char>> = Vec::new();
    let mut p: usize = 0;
    assert(r@.map_values(|l: Vec<char>| l@) + split_from(s@, 0) =~= split_lines(s@));
    while p < n
        invariant
            n == s@.len(),
            p <= n,
            r@.map_values(|l: Vec<char>| l@) + split_from(s@, p as int) == split_lines(s@),
            forall|k: int| 0 <= k < r@.len() ==> byte_len(#[trigger] r@[k]@) <= byte_len(s@),
        decreases n - p,
    {
        let ghost r0 = r@.map_values(|l: Vec<char>| l@);
        let mut i = p;
        while i < n && s[i] != '\n'
            invariant
                p <= i <= n,
                n == s@.len(),
                first_newline(s@, p as int) == first_newline(s@, i as int),
            decreases n - i,
        {
            i = i + 1;
        }
        proof {
            lemma_first_newline(s@, p as int);
        }
        let end = if i < n {
            i + 1
        } else {
            n
        };
        let line = crate::text::slice_chars(s, p, end);
        proof {
            crate::text::lemma_byte_len_subrange(s@, p as int, end as int);
        }
        r.push(line);
        assert(r@.map_values(|l: Vec<char>| l@) =~= r0.push(s@.subrange(p as int, end as int)));
        assert(r0 + split_from(s@, p as int) =~= r0.push(s@.subrange(p as int, end as int)) + split_from(s@, end as int));
        p = end;
    }
    assert(split_from(s@, p as int) =~= Seq::<Seq<char>>::empty());
    assert(r@.map_values(|l: Vec<char>| l@) =~= split_lines(s@));
    r
}

pub open spec fn edits_view(v: Seq<(usize, usize, Vec<char>)>) -> Seq<(int, int, Seq<char>)> {
    v.map_values(|e: (usize, usize, Vec<char>)| (e.0 as int, e.1 as int, e.2@))
}

/// The line a finding's fix targets, 0 when it has no fix.
fn target_line(e: &LintError) -> (r: usize)
    ensures
        r as int == fix_line(e@),
{
    match &e.fix_info {
        Some(f) => match f.line_number {
            Some(l) => l,
            None => e.line_number,
        },
        None => 0,
    }
}

/// Some fix for line `ln` deletes it.
fn is_line_deleted(errors: &[LintError], ln: usize) -> (r: bool)
    ensures
        r == line_deleted(errors_view(errors@), ln as int),
{
    let ghost es = errors_view(errors@);
    let mut k: usize = 0;
    while k < errors.len()
        invariant
            k <= errors@.len(),
            es == errors_view(errors@),
            forall|j: int|
                0 <= j < k ==> !(fix_line(#[trigger] es[j]) == ln && es[j].fix is Some
                    && es[j].fix.unwrap().delete_count == Some(-1i32)),
        decreases errors@.len() - k,
    {
        let e = &errors[k];
        assert(es[k as int] == e@);
        if target_line(e) == ln {
            match &e.fix_info {
                Some(f) => {
                    if f.delete_count == Some(-1i32) {
                        return true;
                    }
                },
                None => {},
            }
        }
        k = k + 1;
    }
    false
}

/// The edit that a fix makes to the line text `t`.
fn edit_for(t: &Vec<char>, e: &LintError) -> (r: (usize, usize, Vec<char>))
    requires
        byte_len(t@) <= isize::MAX,
        e.fix_info.is_some(),
    ensures
        (r.0 as int, r.1 as int, r.2@) == edit_of(t@, e@),
{
    let f = match &e.fix_info {
        Some(f) => f,
        None => {
            return (0, 0, Vec::new());
        },
    };
    let col: usize = match f.edit_column {
        Some(c) => if c >= 1 {
            c
        } else {
            1
        },
        None => 1,
    };
    let del: usize = match f.delete_count {
        Some(d) => if d > 0 {
            d as usize
        } else {
            0
        },
        None => 0,
    };
    let start = col - 1;
    let a = char_index_at_byte(t, start);
    let z = if start <= usize::MAX - del {
        char_index_at_byte(t, start + del)
    } else {
        proof {
            lemma_char_at_past_end(t@, start + del, 0);
        }
        t.len()
    };
    let ins = match &f.insert_text {
        Some(x) => chars_of(x.as_str()),
        None => Vec::new(),
    };
    (a, z, ins)
}

/// The edits of the findings that target line `ln`, in order.
fn edits_for_line(errors: &[LintError], ln: usize, t: &Vec<char>) -> (r: Vec<(usize, usize, Vec<char>)>)
    requires
        byte_len(t@) <= isize::MAX,
    ensures
        edits_view(r@) == line_edits(errors_view(errors@), ln as int, t@, errors@.len() as int),
{
    let ghost es = errors_view(errors@);
    let mut r: Vec<(usize, usize, Vec<char>)> = Vec::new();
    let mut k: usize = 0;
    while k < errors.len()
        invariant
            k <= errors@.len(),
            es == errors_view(errors@),
            byte_len(t@) <= isize::MAX,
            edits_view(r@) == line_edits(es, ln as int, t@, k as int),
        decreases errors@.len() - k,
    {
        let e = &errors[k];
        assert(es[k as int] == e@);
        if target_line(e) == ln && e.fix_info.is_some() {
            let ed = edit_for(t, e);
            r.push(ed);
        }
        k = k + 1;
        assert(edits_view(r@) =~= line_edits(es, ln as int, t@, k as int));
    }
    r
}

/// The first edit that starts at `i`.
fn find_edit(edits: &Vec<(usize, usize, Vec<char>)>, i: usize) -> (r: Option<usize>)
    ensures
        match r {
            Some(j) => j as int == edit_at(edits_view(edits@), i as int, 0) && j < edits@.len(),
            None => edit_at(edits_view(edits@), i as int, 0) == -1,
        },
{
    let ghost ev = edits_view(edits@);
    let mut k: usize = 0;
    while k < edits.len()
        invariant
            k <= edits@.len(),
            ev == edits_view(edits@),
            edit_at(ev, i as int, 0) == edit_at(ev, i as int, k as int),
        decreases edits@.len() - k,
    {
        if edits[k].0 == i {
            return Some(k);
        }
        k = k + 1;
    }
    None
}

/// Appends the characters of `v`.
fn extend(out: &mut Vec<char>, v: &Vec<char>)
    ensures
        final(out)@ == old(out)@ + v@,
{
    let ghost o0 = out@;
    let mut k: usize = 0;
    while k < v.len()
        invariant
            k <= v@.len(),
            out@ == o0 + v@.take(k as int),
        decreases v@.len() - k,
    {
        out.push(v[k]);
        k = k + 1;
        assert(out@ =~= o0 + v@.take(k as int));
    }
    assert(v@.take(v@.len() as int) =~= v@);
}

/// The line text with the edits applied.
fn merge(t: &Vec<char>, edits: &Vec<(usize, usize, Vec<char>)>) -> (r: Vec<char>)
    ensures
        r@ == merge_from(t@, edits_view(edits@), 0),
{
    let ghost ev = edits_view(edits@);
    let n = t.len();
    let mut out: Vec<char> = Vec::new();
    let mut i: usize = 0;
    let mut done = false;
    while !done
        invariant
            n == t@.len(),
            i <= n,
            ev == edits_view(edits@),
            out@ + (if done {
                seq![]
            } else {
                merge_from(t@, ev, i as int)
            }) == merge_from(t@, ev, 0),
        decreases (if done {
            0
        } else {
            n + 2 - i
        }),
    {
        let ghost o0 = out@;
        match find_edit(edits, i) {
            Some(j) => {
                let e = &edits[j];
                assert(ev[j as int] == (e.0 as int, e.1 as int, e.2@));
                let next = if e.1 > n {
                    n
                } else {
                    e.1
                };
                extend(&mut out, &e.2);
                if next > i {
                    i = next;
                } else if i < n {
                    out.push(t[i]);
                    i = i + 1;
                } else {
                    done = true;
                }
            },
            None => {
                if i < n {
                    out.push(t[i]);
                    i = i + 1;
                } else {
                    done = true;
                }
            },
        }
        assert(out@ + (if done {
            seq![]
        } else {
            merge_from(t@, ev, i as int)
        }) =~= merge_from(t@, ev, 0));
    }
    out
}

/// Applies the fixes of `errors` to `content`.
pub fn apply_fixes(content: &str, errors: &[LintError]) -> (r: String)
    requires
        byte_len(content@) <= isize::MAX,
    ensures
        r@ == fixed_document(content@, errors_view(errors@)),
{
    let ghost es = errors_view(errors@);
    let s = chars_of(content);
    let lines = split_content(&s);
    let ghost ls = split_lines(content@);
    assert(lines@.map_values(|l: Vec<char>| l@) == ls);
    let ghost f = |k: int| fixed_line(es, k + 1, ls[k]);
    let mut out: Vec<char> = Vec::new();
    let m = lines.len();
    let mut k: usize = 0;
    assert(out@ =~= join(Seq::new(0, f)));
    while k < m
        invariant
            m == lines@.len(),
            k <= m,
            es == errors_view(errors@),
            ls == split_lines(content@),
            lines@.map_values(|l: Vec<char>| l@) == ls,
            forall|j: int| 0 <= j < lines@.len() ==> byte_len(#[trigger] lines@[j]@) <= byte_len(content@),
            byte_len(content@) <= isize::MAX,
            f == (|j: int| fixed_line(es, j + 1, ls[j])),
            out@ == join(Seq::new(k as nat, f)),
        decreases m - k,
    {
        let line = &lines[k];
        assert(ls[k as int] == line@);
        assert(byte_len(lines@[k as int]@) <= byte_len(content@));
        let ghost o0 = out@;
        if !is_line_deleted(errors, k + 1) {
            let t = strip_eol_vec(line);
            proof {
                lemma_strip_eol_prefix(line@);
            }
            let edits = edits_for_line(errors, k + 1, &t);
            let merged = merge(&t, &edits);
            extend(&mut out, &merged);
            let ending = crate::text::slice_chars(line, t.len(), line.len());
            extend(&mut out, &ending);
            assert(ending@ =~= line@.skip(t@.len() as int));
        }
        assert(Seq::new((k + 1) as nat, f).drop_last() =~= Seq::new(k as nat, f));
        k = k + 1;
        assert(out@ =~= join(Seq::new(k as nat, f)));
    }
    string_of(&out)
}

proof fn lemma_join_prepend(a: Seq<char>, rest: Seq<Seq<char>>)
    ensures
        join(seq![a] + rest) == a + join(rest),
    decreases rest.len(),
{
    if rest.len() == 0 {
        assert((seq![a] + rest).drop_last() =~= Seq::<Seq<char>>::empty());
        assert(a + join(rest) =~= a);
        assert(join(seq![a] + rest) =~= join(Seq::<Seq<char>>::empty()) + a);
    } else {
        lemma_join_prepend(a, rest.drop_last());
        assert((seq![a] + rest).drop_last() =~= seq![a] + rest.drop_last());
        assert(a + join(rest) =~= a + join(rest.drop_last()) + rest.last());
    }
}

proof fn lemma_join_split(s: Seq<char>, p: int)
    requires
        0 <= p <= s.len(),
    ensures
        join(split_from(s, p)) == s.skip(p),
    decreases s.len() - p,
{
    if p >= s.len() {
        assert(s.skip(p) =~= Seq::<char>::empty());
    } else {
        let i = first_newline(s, p);
        lemma_first_newline(s, p);
        if i >= s.len() {
            lemma_join_prepend(s.subrange(p, s.len() as int), seq![]);
            assert(s.subrange(p, s.len() as int) + join(Seq::<Seq<char>>::empty()) =~= s.skip(p));
        } else {
            lemma_join_split(s, i + 1);
            lemma_join_prepend(s.subrange(p, i + 1), split_from(s, i + 1));
            assert(s.subrange(p, i + 1) + s.skip(i + 1) =~= s.skip(p));
        }
    }
}

pub proof fn lemma_merge_none(t: Seq<char>, edits: Seq<(int, int, Seq<char>)>, i: int)
    requires
        edits.len() == 0,
        0 <= i <= t.len(),
    ensures
        merge_from(t, edits, i) == t.skip(i),
    decreases t.len() - i,
{
    if i < t.len() {
        lemma_merge_none(t, edits, i + 1);
        assert(seq![t[i]] + t.skip(i + 1) =~= t.skip(i));
    } else {
        assert(t.skip(i) =~= Seq::<char>::empty());
    }
}

pub proof fn lemma_char_at_end(t: Seq<char>, k: int)
    requires
        0 <= k <= t.len(),
    ensures
        char_at_byte(t, byte_len(t) as int, k) == t.len(),
    decreases t.len() - k,
{
    if k < t.len() {
        crate::text::lemma_byte_len_take_strict(t, k, t.len() as int);
        assert(t.take(t.len() as int) =~= t);
        lemma_char_at_end(t, k + 1);
    }
}

/// Inserting `x` at the end of `t` (and nowhere else) appends it.
pub proof fn lemma_merge_append(t: Seq<char>, x: Seq<char>, i: int)
    requires
        0 <= i <= t.len(),
    ensures
        merge_from(t, seq![(t.len() as int, t.len() as int, x)], i) == t.skip(i) + x,
    decreases t.len() - i,
{
    let edits = seq![(t.len() as int, t.len() as int, x)];
    if i < t.len() {
        assert(edit_at(edits, i, 1) == -1);
        assert(edit_at(edits, i, 0) == -1);
        lemma_merge_append(t, x, i + 1);
        assert(seq![t[i]] + (t.skip(i + 1) + x) =~= t.skip(i) + x);
    } else {
        assert(edit_at(edits, i, 0) == 0);
        assert(t.skip(i) + x =~= x);
    }
}

/// The last line of text that ends with a line feed ends with one too.
pub proof fn lemma_split_last_newline(s: Seq<char>, p: int)
    requires
        0 <= p < s.len(),
        s[s.len() - 1] == '\n',
    ensures
        split_from(s, p).len() > 0,
        split_from(s, p).last().len() > 0,
        split_from(s, p).last().last() == '\n',
    decreases s.len() - p,
{
    let i = first_newline(s, p);
    lemma_first_newline(s, p);
    if i >= s.len() {
        lemma_no_newline_before(s, p, s.len() - 1);
    } else if i + 1 < s.len() {
        lemma_split_last_newline(s, i + 1);
        assert((seq![s.subrange(p, i + 1)] + split_from(s, i + 1)).last() == split_from(s, i + 1).last());
    } else {
        assert(split_from(s, i + 1) =~= Seq::<Seq<char>>::empty());
        assert((seq![s.subrange(p, i + 1)] + split_from(s, i + 1)) =~= seq![s.subrange(p, i + 1)]);
    }
}

proof fn lemma_no_newline_before(s: Seq<char>, p: int, q: int)
    requires
        0 <= p <= q < s.len(),
        first_newline(s, p) >= s.len(),
    ensures
        s[q] != '\n',
    decreases q - p,
{
    if p < q {
        lemma_no_newline_before(s, p + 1, q);
    }
}

/// There are no more lines than characters.
pub proof fn lemma_split_len(s: Seq<char>, p: int)
    requires
        0 <= p <= s.len(),
    ensures
        split_from(s, p).len() <= s.len() - p,
    decreases s.len() - p,
{
    if p < s.len() {
        let i = first_newline(s, p);
        lemma_first_newline(s, p);
        if i < s.len() {
            lemma_split_len(s, i + 1);
        }
    }
}

/// No line is longer than the text.
pub proof fn lemma_split_bytes(s: Seq<char>, p: int)
    requires
        0 <= p <= s.len(),
    ensures
        forall|k: int|
            0 <= k < split_from(s, p).len() ==> byte_len(#[trigger] split_from(s, p)[k]) <= byte_len(s),
    decreases s.len() - p,
{
    if p < s.len() {
        let i = first_newline(s, p);
        lemma_first_newline(s, p);
        if i >= s.len() {
            crate::text::lemma_byte_len_subrange(s, p, s.len() as int);
        } else {
            lemma_split_bytes(s, i + 1);
            crate::text::lemma_byte_len_subrange(s, p, i + 1);
            let rest = split_from(s, i + 1);
            assert forall|k: int| 0 <= k < split_from(s, p).len() implies byte_len(
                #[trigger] split_from(s, p)[k],
            ) <= byte_len(s) by {
                if k > 0 {
                    assert(split_from(s, p)[k] == rest[k - 1]);
                }
            }
        }
    }
}

/// The concatenation ends with the last character of the last part.
pub proof fn lemma_join_last(ls: Seq<Seq<char>>)
    requires
        ls.len() > 0,
        ls.last().len() > 0,
    ensures
        join(ls).len() > 0,
        join(ls).last() == ls.last().last(),
{
}

/// Lines as `split_lines` gives them: none empty, each ending with its
/// only line feed, but for the last, which may have none.
pub open spec fn well_split(xs: Seq<Seq<char>>) -> bool {
    forall|k: int|
        0 <= k < xs.len() ==> {
            &&& (#[trigger] xs[k]).len() > 0
            &&& forall|j: int| 0 <= j < xs[k].len() - 1 ==> xs[k][j] != '\n'
            &&& k < xs.len() - 1 ==> xs[k].last() == '\n'
        }
}

proof fn lemma_first_newline_at(s: Seq<char>, k: int, m: int)
    requires
        0 <= k <= m <= s.len(),
        forall|j: int| k <= j < m ==> s[j] != '\n',
        m == s.len() || s[m] == '\n',
    ensures
        first_newline(s, k) == m,
    decreases m - k,
{
    if k < m {
        lemma_first_newline_at(s, k + 1, m);
    }
}

proof fn lemma_split_shift(a: Seq<char>, b: Seq<char>, p: int)
    requires
        0 <= p <= b.len(),
    ensures
        split_from(a + b, a.len() + p) == split_from(b, p),
    decreases b.len() - p,
{
    let s = a + b;
    if p < b.len() {
        let i = first_newline(b, p);
        lemma_first_newline(b, p);
        assert forall|j: int| a.len() + p <= j < a.len() + i implies s[j] != '\n' by {
            if s[j] == '\n' {
                assert(b[j - a.len()] == '\n');
                lemma_newline_not_before(b, p, j - a.len());
            }
        }
        lemma_first_newline_at(s, a.len() + p, a.len() + i);
        if i < b.len() {
            lemma_split_shift(a, b, i + 1);
            assert(s.subrange(a.len() + p, a.len() + i + 1) =~= b.subrange(p, i + 1));
        } else {
            assert(s.subrange(a.len() + p, s.len() as int) =~= b.subrange(p, b.len() as int));
        }
    } else {
        assert(a.len() + p >= s.len());
    }
}

proof fn lemma_newline_not_before(b: Seq<char>, p: int, q: int)
    requires
        0 <= p <= q < b.len(),
        b[q] == '\n',
    ensures
        first_newline(b, p) <= q,
    decreases q - p,
{
    if p < q && b[p] != '\n' {
        lemma_newline_not_before(b, p + 1, q);
    }
}

/// Splitting the concatenation of well-split lines gives them back.
pub proof fn lemma_split_join(xs: Seq<Seq<char>>)
    requires
        well_split(xs),
    ensures
        split_lines(join(xs)) == xs,
    decreases xs.len(),
{
    if xs.len() == 0 {
        assert(join(xs) =~= Seq::<char>::empty());
    } else {
        let a = xs[0];
        let rest = xs.skip(1);
        assert(xs =~= seq![a] + rest);
        lemma_join_prepend(a, rest);
        assert(well_split(rest)) by {
            assert forall|k: int| 0 <= k < rest.len() implies {
                &&& (#[trigger] rest[k]).len() > 0
                &&& forall|j: int| 0 <= j < rest[k].len() - 1 ==> rest[k][j] != '\n'
                &&& k < rest.len() - 1 ==> rest[k].last() == '\n'
            } by {
                assert(rest[k] == xs[k + 1]);
            }
        }
        lemma_split_join(rest);
        let b = join(rest);
        let s = a + b;
        assert(a.len() > 0);
        if xs.len() > 1 {
            assert(a.last() == '\n');
            assert forall|j: int| 0 <= j < a.len() - 1 implies s[j] != '\n' by {
                assert(s[j] == a[j]);
            }
            lemma_first_newline_at(s, 0, a.len() - 1);
            lemma_split_shift(a, b, 0);
            assert(s.subrange(0, a.len() as int) =~= a);
            assert(split_from(s, 0) == seq![s.subrange(0, a.len() as int)] + split_from(s, a.len() as int));
        } else {
            assert(rest.len() == 0);
            assert(b =~= Seq::<char>::empty());
            assert(s =~= a);
            if a.last() == '\n' {
                assert forall|j: int| 0 <= j < a.len() - 1 implies s[j] != '\n' by {
                    assert(s[j] == a[j]);
                }
                lemma_first_newline_at(s, 0, a.len() - 1);
                assert(split_from(s, a.len() as int) =~= Seq::<Seq<char>>::empty());
                assert(s.subrange(0, a.len() as int) =~= a);
            } else {
                assert forall|j: int| 0 <= j < a.len() implies s[j] != '\n' by {
                    assert(s[j] == a[j]);
                }
                lemma_first_newline_at(s, 0, a.len() as int);
                assert(s.subrange(0, s.len() as int) =~= a);
            }
        }
    }
}

/// The lines of a text are well split.
pub proof fn lemma_split_well(s: Seq<char>, p: int)
    requires
        0 <= p <= s.len(),
    ensures
        well_split(split_from(s, p)),
    decreases s.len() - p,
{
    if p < s.len() {
        let i = first_newline(s, p);
        lemma_first_newline(s, p);
        let xs = split_from(s, p);
        if i >= s.len() {
            let a = s.subrange(p, s.len() as int);
            assert forall|j: int| 0 <= j < a.len() - 1 implies a[j] != '\n' by {
                if a[j] == '\n' {
                    lemma_newline_not_before(s, p, p + j);
                }
            }
        } else {
            lemma_split_well(s, i + 1);
            let a = s.subrange(p, i + 1);
            let rest = split_from(s, i + 1);
            assert forall|j: int| 0 <= j < a.len() - 1 implies a[j] != '\n' by {
                if a[j] == '\n' {
                    lemma_newline_not_before(s, p, p + j);
                }
            }
            assert forall|k: int| 0 <= k < xs.len() implies {
                &&& (#[trigger] xs[k]).len() > 0
                &&& forall|j: int| 0 <= j < xs[k].len() - 1 ==> xs[k][j] != '\n'
                &&& k < xs.len() - 1 ==> xs[k].last() == '\n'
            } by {
                if k > 0 {
                    assert(xs[k] == rest[k - 1]);
                }
            }
        }
    }
}

/// A line holds a line feed at most as its last character.
pub open spec fn one_line(y: Seq<char>) -> bool {
    forall|j: int| 0 <= j < y.len() - 1 ==> y[j] != '\n'
}

/// The line ending of a line: what `strip_eol` removes.
pub open spec fn eol_of(y: Seq<char>) -> Seq<char> {
    y.skip(strip_eol(y).len() as int)
}

/// A line is its body and its ending; the body holds no line feed, and
/// the ending holds one at most as its last character (the last of a line
/// that ends with one).
pub proof fn lemma_eol_shape(y: Seq<char>)
    requires
        one_line(y),
    ensures
        strip_eol(y) + eol_of(y) == y,
        forall|j: int| 0 <= j < strip_eol(y).len() ==> strip_eol(y)[j] != '\n',
        one_line(eol_of(y)),
        y.len() > 0 && y.last() == '\n' ==> eol_of(y).len() > 0 && eol_of(y).last() == '\n',
{
    let a1 = trim_end_char(y, '\n');
    crate::text::lemma_trim_end_char_all(y, '\n');
    crate::text::lemma_trim_end_char_all(a1, '\r');
    lemma_strip_eol_prefix(y);
    let t = strip_eol(y);
    assert(t + y.skip(t.len() as int) =~= y);
    assert forall|j: int| 0 <= j < t.len() implies t[j] != '\n' by {
        assert(t[j] == y[j]);
        if j == y.len() - 1 {
            assert(a1.len() == y.len());
            assert(a1 =~= y);
        }
    }
    let e = eol_of(y);
    assert forall|j: int| 0 <= j < e.len() - 1 implies e[j] != '\n' by {
        assert(e[j] == y[t.len() + j]);
    }
    if y.len() > 0 && y.last() == '\n' {
        assert(a1.len() < y.len());
        assert(e.last() == y.last());
    }
}

/// A body without a trailing line feed or carriage return, followed by a
/// line's ending, is read back as that body.
pub proof fn lemma_strip_eol_reattach(u: Seq<char>, y: Seq<char>)
    requires
        u.len() == 0 || (u.last() != '\n' && u.last() != '\r'),
    ensures
        strip_eol(u + eol_of(y)) == u,
{
    let a1 = trim_end_char(y, '\n');
    crate::text::lemma_trim_end_char_all(y, '\n');
    crate::text::lemma_trim_end_char_all(a1, '\r');
    let m1 = a1.len() as int;
    let m2 = strip_eol(y).len() as int;
    let e1 = y.subrange(m2, m1);
    let e2 = y.skip(m1);
    assert(eol_of(y) =~= e1 + e2);
    assert forall|j: int| 0 <= j < e1.len() implies e1[j] == '\r' by {
        assert(e1[j] == a1[m2 + j]);
    }
    assert(u + eol_of(y) =~= (u + e1) + e2);
    crate::text::lemma_trim_end_char_append(u + e1, e2, '\n');
    assert(trim_end_char(u + e1, '\n') == u + e1);
    crate::text::lemma_trim_end_char_append(u, e1, '\r');
    assert(trim_end_char(u, '\r') == u);
}

proof fn lemma_merge_tail(t: Seq<char>, m: int, e: int, x: Seq<char>, j: int)
    requires
        0 <= m < j <= t.len(),
    ensures
        merge_from(t, seq![(m, e, x)], j) == t.skip(j),
    decreases t.len() - j,
{
    let edits = seq![(m, e, x)];
    assert(edit_at(edits, j, 1) == -1);
    assert(edit_at(edits, j, 0) == -1);
    if j < t.len() {
        lemma_merge_tail(t, m, e, x, j + 1);
        assert(seq![t[j]] + t.skip(j + 1) =~= t.skip(j));
    } else {
        assert(t.skip(j) =~= Seq::<char>::empty());
    }
}

/// One edit that replaces the characters from `m` to `e` with `x`.
pub proof fn lemma_merge_replace(t: Seq<char>, m: int, e: int, x: Seq<char>, i: int)
    requires
        0 <= i <= m < e <= t.len(),
    ensures
        merge_from(t, seq![(m, e, x)], i) == t.subrange(i, m) + x + t.skip(e),
    decreases m - i,
{
    let edits = seq![(m, e, x)];
    if i < m {
        assert(edit_at(edits, i, 1) == -1);
        assert(edit_at(edits, i, 0) == -1);
        lemma_merge_replace(t, m, e, x, i + 1);
        assert(seq![t[i]] + (t.subrange(i + 1, m) + x + t.skip(e)) =~= t.subrange(i, m) + x + t.skip(e));
    } else {
        assert(edit_at(edits, i, 0) == 0);
        lemma_merge_tail(t, m, e, x, e);
        assert(t.subrange(i, m) =~= Seq::<char>::empty());
        assert(x + t.skip(e) =~= t.subrange(i, m) + x + t.skip(e));
    }
}

/// The edits of a line read only the findings they are given.
pub proof fn lemma_line_edits_push(es: Seq<LintErrorView>, y: LintErrorView, ln: int, t: Seq<char>, k: int)
    requires
        0 <= k <= es.len(),
    ensures
        line_edits(es.push(y), ln, t, k) == line_edits(es, ln, t, k),
    decreases k,
{
    if k > 0 {
        lemma_line_edits_push(es, y, ln, t, k - 1);
        assert(es.push(y)[k - 1] == es[k - 1]);
    }
}

/// No finding with a fix targets line `ln`.
pub open spec fn untouched(es: Seq<LintErrorView>, ln: int) -> bool {
    forall|k: int| 0 <= k < es.len() && (#[trigger] es[k]).fix is Some ==> fix_line(es[k]) != ln
}

proof fn lemma_no_edits(es: Seq<LintErrorView>, ln: int, t: Seq<char>, k: int)
    requires
        0 <= k <= es.len(),
        untouched(es, ln),
    ensures
        line_edits(es, ln, t, k).len() == 0,
    decreases k,
{
    if k > 0 {
        lemma_no_edits(es, ln, t, k - 1);
    }
}

/// A line that no fix targets is kept as it is.
pub proof fn lemma_untouched_line_kept(es: Seq<LintErrorView>, ln: int, line: Seq<char>)
    requires
        untouched(es, ln),
    ensures
        fixed_line(es, ln, line) == line,
{
    assert(!line_deleted(es, ln));
    let t = strip_eol(line);
    lemma_no_edits(es, ln, t, es.len() as int);
    lemma_merge_none(t, line_edits(es, ln, t, es.len() as int), 0);
    lemma_strip_eol_prefix(line);
    assert(t.skip(0) + line.skip(t.len() as int) =~= line);
}

/// Findings that carry no fix leave the document as it was: applying them
/// gives back the content unchanged.
pub proof fn lemma_no_fixes_identity(content: Seq<char>, es: Seq<LintErrorView>)
    requires
        forall|k: int| 0 <= k < es.len() ==> (#[trigger] es[k]).fix is None,
    ensures
        fixed_document(content, es) == content,
{
    let ls = split_lines(content);
    let f = |k: int| fixed_line(es, k + 1, ls[k]);
    assert forall|k: int| 0 <= k < ls.len() implies #[trigger] f(k) == ls[k] by {
        lemma_untouched_line_kept(es, k + 1, ls[k]);
    }
    assert(Seq::new(ls.len(), f) =~= ls);
    lemma_join_split(content, 0);
    assert(content.skip(0) =~= content);
}

/// `edit_at` finds an edit that starts at `i` exactly when one does.
pub proof fn lemma_edit_at(edits: Seq<(int, int, Seq<char>)>, i: int, k: int)
    requires
        0 <= k <= edits.len(),
    ensures
        edit_at(edits, i, k) == -1 <==> (forall|j: int| k <= j < edits.len() ==> (#[trigger] edits[j]).0 != i),
        edit_at(edits, i, k) != -1 ==> k <= edit_at(edits, i, k) < edits.len() && edits[edit_at(edits, i, k)].0 == i,
    decreases edits.len() - k,
{
    if k < edits.len() && edits[k].0 != i {
        lemma_edit_at(edits, i, k + 1);
    }
}

/// Some finding among the first `k` carries a fix for line `ln` whose edit
/// is `x`.
pub open spec fn edit_from(es: Seq<LintErrorView>, ln: int, t: Seq<char>, k: int, x: (int, int, Seq<char>)) -> bool {
    exists|r: int| 0 <= r < k && (#[trigger] es[r]).fix is Some && fix_line(es[r]) == ln && x == edit_of(t, es[r])
}

/// Each edit of line `ln` comes from a finding with a fix for that line,
/// and each such finding gives one.
pub proof fn lemma_line_edits_members(es: Seq<LintErrorView>, ln: int, t: Seq<char>, k: int)
    requires
        0 <= k <= es.len(),
    ensures
        forall|q: int|
            0 <= q < line_edits(es, ln, t, k).len() ==> edit_from(es, ln, t, k, #[trigger] line_edits(es, ln, t, k)[q]),
        forall|r: int|
            0 <= r < k && (#[trigger] es[r]).fix is Some && fix_line(es[r]) == ln ==> line_edits(es, ln, t, k).contains(
                edit_of(t, es[r]),
            ),
    decreases k,
{
    if k > 0 {
        lemma_line_edits_members(es, ln, t, k - 1);
        let prev = line_edits(es, ln, t, k - 1);
        let cur = line_edits(es, ln, t, k);
        assert forall|q: int| 0 <= q < prev.len() implies edit_from(es, ln, t, k, #[trigger] prev[q]) by {
            assert(edit_from(es, ln, t, k - 1, prev[q]));
            let r = choose|r: int|
                0 <= r < k - 1 && (#[trigger] es[r]).fix is Some && fix_line(es[r]) == ln && prev[q] == edit_of(t, es[r]);
            assert(es[r].fix is Some);
        }
        if es[k - 1].fix is Some && fix_line(es[k - 1]) == ln {
            assert(cur == prev.push(edit_of(t, es[k - 1])));
            assert forall|q: int| 0 <= q < cur.len() implies edit_from(es, ln, t, k, #[trigger] cur[q]) by {
                if q < prev.len() {
                    assert(cur[q] == prev[q]);
                } else {
                    assert(cur[q] == edit_of(t, es[k - 1]));
                    assert(es[k - 1].fix is Some);
                }
            }
            assert forall|r: int| 0 <= r < k && (#[trigger] es[r]).fix is Some && fix_line(es[r]) == ln implies cur.contains(
                edit_of(t, es[r]),
            ) by {
                if r < k - 1 {
                    let q = choose|q: int| 0 <= q < prev.len() && prev[q] == edit_of(t, es[r]);
                    assert(cur[q] == prev[q]);
                } else {
                    assert(cur[prev.len() as int] == edit_of(t, es[r]));
                }
            }
        } else {
            assert(cur == prev);
        }
    }
}

} // verus!
