//! Character-level text helpers shared by the rules.
//!
//! Lines are handled as sequences of `char`; every helper is specified over
//! `Seq<char>` so that the rules can state their contracts over views.

use vstd::prelude::*;

verus! {

/// Rust's `char::is_whitespace`: the Unicode `White_Space` property.
pub open spec fn is_ws(c: char) -> bool {
    let u = c as u32;
    ||| u == 0x20
    ||| 0x09 <= u <= 0x0D
    ||| u == 0x85
    ||| u == 0xA0
    ||| u == 0x1680
    ||| 0x2000 <= u <= 0x200A
    ||| u == 0x2028
    ||| u == 0x2029
    ||| u == 0x202F
    ||| u == 0x205F
    ||| u == 0x3000
}

/// `s` with every trailing whitespace character removed (`str::trim_end`).
pub open spec fn trim_end(s: Seq<char>) -> Seq<char>
    decreases s.len(),
{
    if s.len() > 0 && is_ws(s.last()) {
        trim_end(s.drop_last())
    } else {
        s
    }
}

/// `s` with every leading whitespace character removed (`str::trim_start`).
pub open spec fn trim_start(s: Seq<char>) -> Seq<char>
    decreases s.len(),
{
    if s.len() > 0 && is_ws(s[0]) {
        trim_start(s.drop_first())
    } else {
        s
    }
}

/// `str::trim`: whitespace removed at both ends.
pub open spec fn trim(s: Seq<char>) -> Seq<char> {
    trim_start(trim_end(s))
}

/// `s` with every trailing `c` removed (`str::trim_end_matches(c)`).
pub open spec fn trim_end_char(s: Seq<char>, c: char) -> Seq<char>
    decreases s.len(),
{
    if s.len() > 0 && s.last() == c {
        trim_end_char(s.drop_last(), c)
    } else {
        s
    }
}

/// The line without its line ending:
/// `line.trim_end_matches('\n').trim_end_matches('\r')`.
pub open spec fn strip_eol(s: Seq<char>) -> Seq<char> {
    trim_end_char(trim_end_char(s, '\n'), '\r')
}

/// `s` begins with `p`.
pub open spec fn starts_with(s: Seq<char>, p: Seq<char>) -> bool {
    p.len() <= s.len() && s.take(p.len() as int) == p
}

/// `s` ends with `p`.
pub open spec fn ends_with(s: Seq<char>, p: Seq<char>) -> bool {
    p.len() <= s.len() && s.skip(s.len() - p.len()) == p
}

/// `s` contains the character `c`.
pub open spec fn has_char(s: Seq<char>, c: char) -> bool {
    exists|i: int| 0 <= i < s.len() && s[i] == c
}

/// Number of bytes of the UTF-8 encoding of `c` (`char::len_utf8`).
pub open spec fn utf8_len(c: char) -> nat {
    let u = c as u32;
    if u < 0x80 {
        1
    } else if u < 0x800 {
        2
    } else if u < 0x10000 {
        3
    } else {
        4
    }
}

/// Number of bytes of the UTF-8 encoding of `s` (`str::len`).
pub open spec fn byte_len(s: Seq<char>) -> nat
    decreases s.len(),
{
    if s.len() == 0 {
        0
    } else {
        byte_len(s.drop_last()) + utf8_len(s.last())
    }
}

/// The decimal digit character for `d < 10`.
pub open spec fn digit_char(d: nat) -> char {
    if d == 0 {
        '0'
    } else if d == 1 {
        '1'
    } else if d == 2 {
        '2'
    } else if d == 3 {
        '3'
    } else if d == 4 {
        '4'
    } else if d == 5 {
        '5'
    } else if d == 6 {
        '6'
    } else if d == 7 {
        '7'
    } else if d == 8 {
        '8'
    } else {
        '9'
    }
}

/// The decimal rendering of `n`, as `format!("{}", n)` writes it.
pub open spec fn decimal(n: nat) -> Seq<char>
    decreases n,
{
    if n < 10 {
        seq![digit_char(n)]
    } else {
        decimal(n / 10).push(digit_char(n % 10))
    }
}

/// The view of each line.
pub open spec fn views(lines: Seq<&str>) -> Seq<Seq<char>> {
    lines.map_values(|l: &str| l@)
}

pub fn is_whitespace(c: char) -> (r: bool)
    ensures
        r == is_ws(c),
{
    let u = c as u32;
    u == 0x20 || (0x09 <= u && u <= 0x0D) || u == 0x85 || u == 0xA0 || u == 0x1680 || (0x2000
        <= u && u <= 0x200A) || u == 0x2028 || u == 0x2029 || u == 0x202F || u == 0x205F || u
        == 0x3000
}

pub fn char_utf8_len(c: char) -> (r: usize)
    ensures
        r == utf8_len(c),
{
    let u = c as u32;
    if u < 0x80 {
        1
    } else if u < 0x800 {
        2
    } else if u < 0x10000 {
        3
    } else {
        4
    }
}

/// The characters of `s`, in order.
pub fn chars_of(s: &str) -> (v: Vec<char>)
    ensures
        v@ == s@,
{
    let mut v: Vec<char> = Vec::new();
    for c in it: s.chars()
        invariant
            v@ == it.seq().take(it.index() as int),
    {
        v.push(c);
    }
    v
}

/// A copy of `s[lo..hi]`.
pub fn slice_chars(s: &Vec<char>, lo: usize, hi: usize) -> (r: Vec<char>)
    requires
        lo <= hi <= s@.len(),
    ensures
        r@ == s@.subrange(lo as int, hi as int),
{
    let mut r: Vec<char> = Vec::new();
    let mut i = lo;
    while i < hi
        invariant
            lo <= i <= hi <= s@.len(),
            r@ == s@.subrange(lo as int, i as int),
        decreases hi - i,
    {
        r.push(s[i]);
        i = i + 1;
        assert(r@ =~= s@.subrange(lo as int, i as int));
    }
    r
}

proof fn lemma_trim_end_take(s: Seq<char>, k: int)
    requires
        0 < k <= s.len(),
        is_ws(s[k - 1]),
    ensures
        trim_end(s.take(k)) == trim_end(s.take(k - 1)),
{
    assert(s.take(k).drop_last() =~= s.take(k - 1));
}

/// Length of `trim_end(s)`.
pub fn trim_end_len(s: &Vec<char>) -> (n: usize)
    ensures
        n <= s@.len(),
        trim_end(s@) == s@.take(n as int),
{
    let mut n = s.len();
    assert(s@.take(n as int) =~= s@);
    while n > 0 && is_whitespace(s[n - 1])
        invariant
            n <= s@.len(),
            trim_end(s@) == trim_end(s@.take(n as int)),
        decreases n,
    {
        proof {
            lemma_trim_end_take(s@, n as int);
        }
        n = n - 1;
    }
    n
}

proof fn lemma_trim_start_skip(s: Seq<char>, k: int)
    requires
        0 <= k < s.len(),
        is_ws(s[k]),
    ensures
        trim_start(s.skip(k)) == trim_start(s.skip(k + 1)),
{
    assert(s.skip(k).drop_first() =~= s.skip(k + 1));
}

/// Number of leading whitespace characters of `s`.
pub fn trim_start_len(s: &Vec<char>) -> (n: usize)
    ensures
        n <= s@.len(),
        trim_start(s@) == s@.skip(n as int),
{
    let mut n: usize = 0;
    assert(s@.skip(0) =~= s@);
    while n < s.len() && is_whitespace(s[n])
        invariant
            n <= s@.len(),
            trim_start(s@) == trim_start(s@.skip(n as int)),
        decreases s@.len() - n,
    {
        proof {
            lemma_trim_start_skip(s@, n as int);
        }
        n = n + 1;
    }
    n
}

pub fn trim_end_vec(s: &Vec<char>) -> (r: Vec<char>)
    ensures
        r@ == trim_end(s@),
{
    let n = trim_end_len(s);
    slice_chars(s, 0, n)
}

pub fn trim_start_vec(s: &Vec<char>) -> (r: Vec<char>)
    ensures
        r@ == trim_start(s@),
{
    let n = trim_start_len(s);
    let r = slice_chars(s, n, s.len());
    assert(r@ =~= s@.skip(n as int));
    r
}

pub fn trim_vec(s: &Vec<char>) -> (r: Vec<char>)
    ensures
        r@ == trim(s@),
{
    let e = trim_end_vec(s);
    trim_start_vec(&e)
}

proof fn lemma_trim_end_char_take(s: Seq<char>, k: int, c: char)
    requires
        0 < k <= s.len(),
        s[k - 1] == c,
    ensures
        trim_end_char(s.take(k), c) == trim_end_char(s.take(k - 1), c),
{
    assert(s.take(k).drop_last() =~= s.take(k - 1));
}

pub fn trim_end_char_vec(s: &Vec<char>, c: char) -> (r: Vec<char>)
    ensures
        r@ == trim_end_char(s@, c),
{
    let mut n = s.len();
    assert(s@.take(n as int) =~= s@);
    while n > 0 && s[n - 1] == c
        invariant
            n <= s@.len(),
            trim_end_char(s@, c) == trim_end_char(s@.take(n as int), c),
        decreases n,
    {
        proof {
            lemma_trim_end_char_take(s@, n as int, c);
        }
        n = n - 1;
    }
    slice_chars(s, 0, n)
}

/// The line without its line ending.
pub fn strip_eol_vec(s: &Vec<char>) -> (r: Vec<char>)
    ensures
        r@ == strip_eol(s@),
{
    let a = trim_end_char_vec(s, '\n');
    trim_end_char_vec(&a, '\r')
}

/// The characters of line `i`, without its line ending.
pub fn line_body(lines: &[&str], i: usize) -> (r: Vec<char>)
    requires
        i < lines@.len(),
    ensures
        r@ == strip_eol(lines@[i as int]@),
{
    let l = chars_of(lines[i]);
    strip_eol_vec(&l)
}

/// `s` begins with the characters of `p`.
pub fn starts_with_str(s: &Vec<char>, p: &str) -> (r: bool)
    ensures
        r == starts_with(s@, p@),
{
    let pv = chars_of(p);
    if pv.len() > s.len() {
        return false;
    }
    let mut i: usize = 0;
    while i < pv.len()
        invariant
            pv@ == p@,
            pv@.len() <= s@.len(),
            i <= pv@.len(),
            forall|j: int| 0 <= j < i ==> s@[j] == pv@[j],
        decreases pv@.len() - i,
    {
        if s[i] != pv[i] {
            assert(s@.take(pv@.len() as int)[i as int] != pv@[i as int]);
            return false;
        }
        i = i + 1;
    }
    assert(s@.take(pv@.len() as int) =~= pv@);
    true
}

/// `s` ends with the characters of `p`.
pub fn ends_with_str(s: &Vec<char>, p: &str) -> (r: bool)
    ensures
        r == ends_with(s@, p@),
{
    let pv = chars_of(p);
    if pv.len() > s.len() {
        return false;
    }
    let off = s.len() - pv.len();
    let mut i: usize = 0;
    while i < pv.len()
        invariant
            pv@ == p@,
            off + pv@.len() == s@.len(),
            s@.len() <= usize::MAX,
            i <= pv@.len(),
            forall|j: int| 0 <= j < i ==> s@[off + j] == pv@[j],
        decreases pv@.len() - i,
    {
        if s[off + i] != pv[i] {
            assert(s@.skip(off as int)[i as int] != pv@[i as int]);
            return false;
        }
        i = i + 1;
    }
    assert(s@.skip(off as int) =~= pv@);
    true
}

/// `s` is exactly the characters of `p`.
pub fn eq_str(s: &Vec<char>, p: &str) -> (r: bool)
    ensures
        r == (s@ == p@),
{
    let b = starts_with_str(s, p);
    if b && s.len() == p.unicode_len() {
        assert(s@ =~= s@.take(p@.len() as int));
        true
    } else {
        proof {
            if s@ == p@ {
                assert(s@.take(p@.len() as int) =~= p@);
            }
        }
        false
    }
}

/// Two character vectors are equal.
pub fn eq_vec(a: &Vec<char>, b: &Vec<char>) -> (r: bool)
    ensures
        r == (a@ == b@),
{
    if a.len() != b.len() {
        return false;
    }
    let mut i: usize = 0;
    while i < a.len()
        invariant
            a@.len() == b@.len(),
            i <= a@.len(),
            forall|j: int| 0 <= j < i ==> a@[j] == b@[j],
        decreases a@.len() - i,
    {
        if a[i] != b[i] {
            return false;
        }
        i = i + 1;
    }
    assert(a@ =~= b@);
    true
}

/// `s` contains `c`.
pub fn contains_char(s: &Vec<char>, c: char) -> (r: bool)
    ensures
        r == has_char(s@, c),
{
    let mut i: usize = 0;
    while i < s.len()
        invariant
            i <= s@.len(),
            forall|j: int| 0 <= j < i ==> s@[j] != c,
        decreases s@.len() - i,
    {
        if s[i] == c {
            return true;
        }
        i = i + 1;
    }
    false
}

pub proof fn lemma_byte_len_take(s: Seq<char>, k: int)
    requires
        0 <= k <= s.len(),
    ensures
        byte_len(s.take(k)) <= byte_len(s),
    decreases s.len() - k,
{
    if k == s.len() {
        assert(s.take(k) =~= s);
    } else {
        lemma_byte_len_take(s, k + 1);
        assert(s.take(k + 1).drop_last() =~= s.take(k));
    }
}

pub proof fn lemma_trim_end_char_prefix(s: Seq<char>, c: char)
    ensures
        trim_end_char(s, c).len() <= s.len(),
        trim_end_char(s, c) == s.take(trim_end_char(s, c).len() as int),
    decreases s.len(),
{
    if s.len() > 0 && s.last() == c {
        lemma_trim_end_char_prefix(s.drop_last(), c);
        assert(s.drop_last().take(trim_end_char(s, c).len() as int) =~= s.take(
            trim_end_char(s, c).len() as int,
        ));
    } else {
        assert(s.take(s.len() as int) =~= s);
    }
}

/// `trim_end` keeps a prefix that does not end in whitespace, and removes
/// a trailing whitespace character.
pub proof fn lemma_trim_end_shape(s: Seq<char>)
    ensures
        trim_end(s).len() <= s.len(),
        trim_end(s) == s.take(trim_end(s).len() as int),
        trim_end(s).len() == 0 || !is_ws(trim_end(s).last()),
        s.len() > 0 && is_ws(s.last()) ==> trim_end(s).len() < s.len(),
    decreases s.len(),
{
    if s.len() > 0 && is_ws(s.last()) {
        lemma_trim_end_shape(s.drop_last());
        assert(s.drop_last().take(trim_end(s).len() as int) =~= s.take(trim_end(s).len() as int));
    } else {
        assert(s.take(s.len() as int) =~= s);
    }
}

/// `trim_start` keeps a suffix that does not start with whitespace, and
/// removes only whitespace.
pub proof fn lemma_trim_start_shape(s: Seq<char>)
    ensures
        trim_start(s).len() <= s.len(),
        trim_start(s) == s.skip(s.len() - trim_start(s).len()),
        trim_start(s).len() == 0 || !is_ws(trim_start(s)[0]),
        forall|j: int| 0 <= j < s.len() - trim_start(s).len() ==> is_ws(s[j]),
    decreases s.len(),
{
    if s.len() > 0 && is_ws(s[0]) {
        lemma_trim_start_shape(s.drop_first());
        let k = s.len() - trim_start(s).len();
        assert(s.drop_first().skip(k - 1) =~= s.skip(k));
        assert forall|j: int| 0 <= j < s.len() - trim_start(s).len() implies is_ws(s[j]) by {
            if j > 0 {
                assert(s.drop_first()[j - 1] == s[j]);
            }
        }
    } else {
        assert(s.skip(0) =~= s);
    }
}

/// `trim_end_char` keeps a prefix not ending in `c`, and removes only `c`.
pub proof fn lemma_trim_end_char_all(s: Seq<char>, c: char)
    ensures
        trim_end_char(s, c).len() <= s.len(),
        trim_end_char(s, c) == s.take(trim_end_char(s, c).len() as int),
        trim_end_char(s, c).len() == 0 || trim_end_char(s, c).last() != c,
        forall|j: int| trim_end_char(s, c).len() <= j < s.len() ==> s[j] == c,
    decreases s.len(),
{
    if s.len() > 0 && s.last() == c {
        lemma_trim_end_char_all(s.drop_last(), c);
        assert(s.drop_last().take(trim_end_char(s, c).len() as int) =~= s.take(
            trim_end_char(s, c).len() as int,
        ));
        assert forall|j: int| trim_end_char(s, c).len() <= j < s.len() implies s[j] == c by {
            if j < s.len() - 1 {
                assert(s.drop_last()[j] == s[j]);
            }
        }
    } else {
        assert(s.take(s.len() as int) =~= s);
    }
}

/// Appending only `c`s does not change what `trim_end_char` keeps.
pub proof fn lemma_trim_end_char_append(x: Seq<char>, w: Seq<char>, c: char)
    requires
        forall|j: int| 0 <= j < w.len() ==> w[j] == c,
    ensures
        trim_end_char(x + w, c) == trim_end_char(x, c),
    decreases w.len(),
{
    if w.len() > 0 {
        assert((x + w).drop_last() =~= x + w.drop_last());
        lemma_trim_end_char_append(x, w.drop_last(), c);
    } else {
        assert(x + w =~= x);
    }
}

/// The line body is a prefix of the line.
pub proof fn lemma_strip_eol_prefix(s: Seq<char>)
    ensures
        strip_eol(s).len() <= s.len(),
        strip_eol(s) == s.take(strip_eol(s).len() as int),
        byte_len(strip_eol(s)) <= byte_len(s),
{
    let a = trim_end_char(s, '\n');
    lemma_trim_end_char_prefix(s, '\n');
    lemma_trim_end_char_prefix(a, '\r');
    let b = trim_end_char(a, '\r');
    assert(a.take(b.len() as int) =~= s.take(b.len() as int));
    lemma_byte_len_take(s, b.len() as int);
}

/// Byte length of the UTF-8 encoding of `s`.
pub fn utf8_byte_len(s: &Vec<char>) -> (n: usize)
    requires
        byte_len(s@) <= usize::MAX,
    ensures
        n == byte_len(s@),
{
    let mut n: usize = 0;
    let mut i: usize = 0;
    while i < s.len()
        invariant
            i <= s@.len(),
            byte_len(s@) <= usize::MAX,
            n == byte_len(s@.take(i as int)),
        decreases s@.len() - i,
    {
        assert(s@.take(i + 1).drop_last() =~= s@.take(i as int));
        proof {
            lemma_byte_len_take(s@, i + 1);
        }
        n = n + char_utf8_len(s[i]);
        i = i + 1;
    }
    assert(s@.take(s@.len() as int) =~= s@);
    n
}


/// `s` with every leading `c` removed (`str::trim_start_matches(c)`).
pub open spec fn trim_start_char(s: Seq<char>, c: char) -> Seq<char>
    decreases s.len(),
{
    if s.len() > 0 && s[0] == c {
        trim_start_char(s.drop_first(), c)
    } else {
        s
    }
}

/// Every character of `s` is `c`.
pub open spec fn all_char(s: Seq<char>, c: char) -> bool {
    forall|i: int| 0 <= i < s.len() ==> s[i] == c
}

/// `n` copies of `c`.
pub open spec fn repeat_char(c: char, n: nat) -> Seq<char> {
    Seq::new(n, |i: int| c)
}

/// Number of leading `c` characters of `s`.
pub open spec fn leading_count(s: Seq<char>, c: char) -> nat
    decreases s.len(),
{
    if s.len() > 0 && s[0] == c {
        leading_count(s.drop_first(), c) + 1
    } else {
        0
    }
}

pub proof fn lemma_byte_len_concat(a: Seq<char>, b: Seq<char>)
    ensures
        byte_len(a + b) == byte_len(a) + byte_len(b),
    decreases b.len(),
{
    if b.len() == 0 {
        assert(a + b =~= a);
    } else {
        lemma_byte_len_concat(a, b.drop_last());
        assert((a + b).drop_last() =~= a + b.drop_last());
    }
}

pub proof fn lemma_byte_len_subrange(s: Seq<char>, lo: int, hi: int)
    requires
        0 <= lo <= hi <= s.len(),
    ensures
        byte_len(s.subrange(lo, hi)) <= byte_len(s),
{
    lemma_byte_len_concat(s.take(lo), s.subrange(lo, hi));
    assert(s.take(lo) + s.subrange(lo, hi) =~= s.take(hi));
    lemma_byte_len_take(s, hi);
}

proof fn lemma_trim_start_char_skip(s: Seq<char>, k: int, c: char)
    requires
        0 <= k < s.len(),
        s[k] == c,
    ensures
        trim_start_char(s.skip(k), c) == trim_start_char(s.skip(k + 1), c),
        leading_count(s.skip(k), c) == leading_count(s.skip(k + 1), c) + 1,
{
    assert(s.skip(k).drop_first() =~= s.skip(k + 1));
}

/// Number of leading `c` characters of `s`; `trim_start_char(s, c)` is
/// what follows them.
pub fn leading_len(s: &Vec<char>, c: char) -> (n: usize)
    ensures
        n <= s@.len(),
        n == leading_count(s@, c),
        trim_start_char(s@, c) == s@.skip(n as int),
{
    let mut n: usize = 0;
    assert(s@.skip(0) =~= s@);
    while n < s.len() && s[n] == c
        invariant
            n <= s@.len(),
            trim_start_char(s@, c) == trim_start_char(s@.skip(n as int), c),
            leading_count(s@, c) == leading_count(s@.skip(n as int), c) + n,
        decreases s@.len() - n,
    {
        proof {
            lemma_trim_start_char_skip(s@, n as int, c);
        }
        n = n + 1;
    }
    if n < s.len() {
        assert(s@.skip(n as int)[0] == s@[n as int]);
    } else {
        assert(s@.skip(n as int).len() == 0);
    }
    n
}

pub fn trim_start_char_vec(s: &Vec<char>, c: char) -> (r: Vec<char>)
    ensures
        r@ == trim_start_char(s@, c),
{
    let n = leading_len(s, c);
    let r = slice_chars(s, n, s.len());
    assert(r@ =~= s@.skip(n as int));
    r
}

pub fn all_chars_are(s: &Vec<char>, c: char) -> (r: bool)
    ensures
        r == all_char(s@, c),
{
    let mut i: usize = 0;
    while i < s.len()
        invariant
            i <= s@.len(),
            forall|j: int| 0 <= j < i ==> s@[j] == c,
        decreases s@.len() - i,
    {
        if s[i] != c {
            return false;
        }
        i = i + 1;
    }
    true
}

/// Appends `n` copies of `c` to `s`.
pub fn push_repeat(s: &mut String, c: char, n: usize)
    ensures
        final(s)@ == old(s)@ + repeat_char(c, n as nat),
{
    let ghost s0 = s@;
    let mut i: usize = 0;
    while i < n
        invariant
            i <= n,
            s@ == s0 + repeat_char(c, i as nat),
        decreases n - i,
    {
        push_char(s, c);
        i = i + 1;
        assert(s@ =~= s0 + repeat_char(c, i as nat));
    }
}


pub proof fn lemma_byte_len_drop_first(s: Seq<char>)
    requires
        s.len() > 0,
    ensures
        byte_len(s.drop_first()) + utf8_len(s[0]) == byte_len(s),
{
    lemma_byte_len_concat(seq![s[0]], s.drop_first());
    assert(seq![s[0]] + s.drop_first() =~= s);
    assert(seq![s[0]].drop_last() =~= Seq::<char>::empty());
    assert(byte_len(Seq::<char>::empty()) == 0);
    assert(byte_len(seq![s[0]]) == utf8_len(s[0]));
}

proof fn lemma_byte_len_trims_one(s: Seq<char>, c: char)
    ensures
        byte_len(trim_end(s)) <= byte_len(s),
        byte_len(trim_start(s)) <= byte_len(s),
        byte_len(trim_end_char(s, c)) <= byte_len(s),
        byte_len(trim_start_char(s, c)) <= byte_len(s),
    decreases s.len(),
{
    if s.len() > 0 {
        lemma_byte_len_trims_one(s.drop_last(), c);
        lemma_byte_len_trims_one(s.drop_first(), c);
        lemma_byte_len_drop_first(s);
    }
}

/// Trimming never lengthens the UTF-8 encoding.
pub proof fn lemma_byte_len_trims(s: Seq<char>, c: char)
    ensures
        byte_len(trim_end(s)) <= byte_len(s),
        byte_len(trim_start(s)) <= byte_len(s),
        byte_len(trim(s)) <= byte_len(s),
        byte_len(trim_end_char(s, c)) <= byte_len(s),
        byte_len(trim_start_char(s, c)) <= byte_len(s),
{
    lemma_byte_len_trims_one(s, c);
    lemma_byte_len_trims_one(trim_end(s), c);
}


/// From index `k` on, the first character index at which the UTF-8 prefix
/// of `t` reaches `b` bytes; the length of `t` when it never does.
pub open spec fn char_at_byte(t: Seq<char>, b: int, k: int) -> int
    decreases t.len() - k,
{
    if k < 0 || k >= t.len() || byte_len(t.take(k)) >= b {
        k
    } else {
        char_at_byte(t, b, k + 1)
    }
}

/// The characters of `t` between the byte offsets `s` and `e`.
pub open spec fn byte_slice(t: Seq<char>, s: int, e: int) -> Seq<char> {
    let a = char_at_byte(t, s, 0);
    let z = char_at_byte(t, e, 0);
    if a <= z {
        t.subrange(a, z)
    } else {
        seq![]
    }
}

/// `p` occurs in `s`.
pub open spec fn contains_seq(s: Seq<char>, p: Seq<char>) -> bool {
    exists|k: int| 0 <= k && k + p.len() <= s.len() && #[trigger] s.subrange(k, k + p.len()) == p
}

proof fn lemma_char_at_byte_range(t: Seq<char>, b: int, k: int)
    requires
        0 <= k <= t.len(),
    ensures
        k <= char_at_byte(t, b, k) <= t.len(),
    decreases t.len() - k,
{
    if !(k >= t.len() || byte_len(t.take(k)) >= b) {
        lemma_char_at_byte_range(t, b, k + 1);
    }
}

/// The character index at which the UTF-8 prefix of `t` reaches `b` bytes.
pub fn char_index_at_byte(t: &Vec<char>, b: usize) -> (r: usize)
    requires
        byte_len(t@) <= isize::MAX,
    ensures
        r == char_at_byte(t@, b as int, 0),
        r <= t@.len(),
{
    let mut k: usize = 0;
    let mut acc: usize = 0;
    assert(t@.take(0) =~= Seq::<char>::empty());
    while k < t.len() && acc < b
        invariant
            k <= t@.len(),
            byte_len(t@) <= isize::MAX,
            acc == byte_len(t@.take(k as int)),
            char_at_byte(t@, b as int, 0) == char_at_byte(t@, b as int, k as int),
        decreases t@.len() - k,
    {
        assert(t@.take(k + 1).drop_last() =~= t@.take(k as int));
        proof {
            lemma_byte_len_take(t@, k + 1);
        }
        acc = acc + char_utf8_len(t[k]);
        k = k + 1;
    }
    proof {
        lemma_char_at_byte_range(t@, b as int, k as int);
    }
    k
}

/// The characters of `t` between the byte offsets `s` and `e`.
pub fn byte_slice_chars(t: &Vec<char>, s: usize, e: usize) -> (r: Vec<char>)
    requires
        byte_len(t@) <= isize::MAX,
    ensures
        r@ == byte_slice(t@, s as int, e as int),
{
    let a = char_index_at_byte(t, s);
    let z = char_index_at_byte(t, e);
    if a <= z {
        slice_chars(t, a, z)
    } else {
        Vec::new()
    }
}

/// `p` occurs in `s`.
pub fn contains_str(s: &Vec<char>, p: &str) -> (r: bool)
    ensures
        r == contains_seq(s@, p@),
{
    let pv = chars_of(p);
    let m = pv.len();
    if m > s.len() {
        return false;
    }
    let mut k: usize = 0;
    let n = s.len();
    while k <= n - m
        invariant
            n == s@.len(),
            pv@ == p@,
            m == pv@.len(),
            m <= s@.len(),
            k <= s@.len() - m + 1,
            forall|j: int| 0 <= j < k ==> #[trigger] s@.subrange(j, j + m) != pv@,
        decreases s@.len() - k,
    {
        let mut i: usize = 0;
        let mut same = true;
        while i < m
            invariant
                i <= m,
                k + m <= s@.len(),
                n == s@.len(),
                m == pv@.len(),
                same == (forall|q: int| 0 <= q < i ==> s@[k + q] == pv@[q]),
            decreases m - i,
        {
            if s[k + i] != pv[i] {
                same = false;
            }
            i = i + 1;
        }
        if same {
            assert(s@.subrange(k as int, k + m) =~= pv@);
            return true;
        }
        assert(s@.subrange(k as int, k + m) != pv@) by {
            let q = choose|q: int| 0 <= q < m && s@[k + q] != pv@[q];
            assert(s@.subrange(k as int, k + m)[q] != pv@[q]);
        }
        k = k + 1;
    }
    false
}


/// `s` with every leading occurrence of `p` removed
/// (`str::trim_start_matches(p)`).
pub open spec fn trim_start_seq(s: Seq<char>, p: Seq<char>) -> Seq<char>
    decreases s.len(),
{
    if p.len() > 0 && starts_with(s, p) {
        trim_start_seq(s.skip(p.len() as int), p)
    } else {
        s
    }
}

pub fn trim_start_str_vec(s: &Vec<char>, p: &str) -> (r: Vec<char>)
    ensures
        r@ == trim_start_seq(s@, p@),
{
    let pl = p.unicode_len();
    let mut cur = slice_chars(s, 0, s.len());
    assert(cur@ =~= s@);
    while pl > 0 && starts_with_str(&cur, p)
        invariant
            pl == p@.len(),
            trim_start_seq(s@, p@) == trim_start_seq(cur@, p@),
        decreases cur@.len(),
    {
        let next = slice_chars(&cur, pl, cur.len());
        assert(next@ =~= cur@.skip(pl as int));
        cur = next;
    }
    cur
}

/// Whether byte offset `b` falls between two characters of `t`.
pub open spec fn char_boundary(t: Seq<char>, b: int) -> bool {
    exists|k: int| 0 <= k <= t.len() && #[trigger] byte_len(t.take(k)) == b
}


/// The UTF-8 length of a prefix grows with every character.
/// Every character takes at least one byte.
pub proof fn lemma_len_le_byte_len(s: Seq<char>)
    ensures
        s.len() <= byte_len(s),
    decreases s.len(),
{
    if s.len() > 0 {
        lemma_len_le_byte_len(s.drop_first());
        lemma_byte_len_drop_first(s);
    }
}

pub proof fn lemma_byte_len_take_strict(t: Seq<char>, i: int, j: int)
    requires
        0 <= i < j <= t.len(),
    ensures
        byte_len(t.take(i)) < byte_len(t.take(j)),
    decreases j - i,
{
    assert(t.take(j).drop_last() =~= t.take(j - 1));
    if i < j - 1 {
        lemma_byte_len_take_strict(t, i, j - 1);
    }
}

proof fn lemma_char_at_boundary_from(t: Seq<char>, b: int, k: int, j: int)
    requires
        0 <= j <= k <= t.len(),
        byte_len(t.take(k)) == b,
    ensures
        char_at_byte(t, b, j) == k,
    decreases k - j,
{
    if j < k {
        lemma_byte_len_take_strict(t, j, k);
        lemma_char_at_boundary_from(t, b, k, j + 1);
    }
}

/// At a character boundary, `char_at_byte` finds the index of that boundary.
pub proof fn lemma_char_at_boundary(t: Seq<char>, b: int, k: int)
    requires
        0 <= k <= t.len(),
        byte_len(t.take(k)) == b,
    ensures
        char_at_byte(t, b, 0) == k,
{
    lemma_char_at_boundary_from(t, b, k, 0);
}

/// Between two character boundaries, the slice has as many bytes as the
/// offsets are apart.
pub proof fn lemma_byte_slice_len(t: Seq<char>, x: int, y: int)
    requires
        char_boundary(t, x),
        char_boundary(t, y),
        x <= y,
    ensures
        byte_len(byte_slice(t, x, y)) == y - x,
{
    let kx = choose|k: int| 0 <= k <= t.len() && #[trigger] byte_len(t.take(k)) == x;
    let ky = choose|k: int| 0 <= k <= t.len() && #[trigger] byte_len(t.take(k)) == y;
    lemma_char_at_boundary(t, x, kx);
    lemma_char_at_boundary(t, y, ky);
    if ky < kx {
        lemma_byte_len_take_strict(t, ky, kx);
    }
    lemma_byte_len_concat(t.take(kx), t.subrange(kx, ky));
    assert(t.take(kx) + t.subrange(kx, ky) =~= t.take(ky));
}

/// A slice by byte offsets is no longer than the text.
pub proof fn lemma_byte_slice_bound(t: Seq<char>, x: int, y: int)
    ensures
        byte_len(byte_slice(t, x, y)) <= byte_len(t),
{
    lemma_char_at_byte_range(t, x, 0);
    lemma_char_at_byte_range(t, y, 0);
    let a = char_at_byte(t, x, 0);
    let z = char_at_byte(t, y, 0);
    if a <= z {
        lemma_byte_len_subrange(t, a, z);
    }
}

/// Spaces take one byte each.
pub proof fn lemma_byte_len_spaces(n: nat)
    ensures
        byte_len(repeat_char(' ', n)) == n,
    decreases n,
{
    if n > 0 {
        assert(repeat_char(' ', n).drop_last() =~= repeat_char(' ', (n - 1) as nat));
        lemma_byte_len_spaces((n - 1) as nat);
    }
}

/// Offset 0 and the full length are character boundaries.
pub proof fn lemma_boundary_ends(t: Seq<char>)
    ensures
        char_boundary(t, 0),
        char_boundary(t, byte_len(t) as int),
{
    assert(t.take(0) =~= Seq::<char>::empty());
    assert(byte_len(t.take(0)) == 0);
    assert(t.take(t.len() as int) =~= t);
    assert(byte_len(t.take(t.len() as int)) == byte_len(t));
}

/// The first index from `k` on at which `p` occurs in `s`, -1 when none
/// (`str::find`, counted in characters).
pub open spec fn find_from(s: Seq<char>, p: Seq<char>, k: int) -> int
    decreases s.len() + 1 - k,
{
    if k < 0 || k + p.len() > s.len() {
        -1
    } else if s.subrange(k, k + p.len()) == p {
        k
    } else {
        find_from(s, p, k + 1)
    }
}

pub proof fn lemma_find_from_bounds(s: Seq<char>, p: Seq<char>, k: int)
    ensures
        find_from(s, p, k) == -1 || (k <= find_from(s, p, k) && find_from(s, p, k) + p.len()
            <= s.len() && s.subrange(find_from(s, p, k), find_from(s, p, k) + p.len()) == p),
    decreases s.len() + 1 - k,
{
    if !(k < 0 || k + p.len() > s.len()) && s.subrange(k, k + p.len()) != p {
        lemma_find_from_bounds(s, p, k + 1);
    }
}

/// The first index at which `p` occurs in `s`.
pub fn find_in(s: &Vec<char>, p: &str) -> (r: Option<usize>)
    ensures
        match r {
            Some(i) => i == find_from(s@, p@, 0) && i + p@.len() <= s@.len(),
            None => find_from(s@, p@, 0) == -1,
        },
{
    find_in_from(s, p, 0)
}

/// The first index from `start` on at which `p` occurs in `s`.
pub fn find_in_from(s: &Vec<char>, p: &str, start: usize) -> (r: Option<usize>)
    ensures
        match r {
            Some(i) => i == find_from(s@, p@, start as int) && start <= i && i + p@.len() <= s@.len(),
            None => find_from(s@, p@, start as int) == -1,
        },
{
    let pv = chars_of(p);
    let n = s.len();
    let m = pv.len();
    if m > n || start > n - m {
        return None;
    }
    let mut k: usize = start;
    while k <= n - m
        invariant
            m == pv@.len(),
            n == s@.len(),
            m <= n,
            start <= k <= n - m + 1,
            pv@ == p@,
            find_from(s@, p@, start as int) == find_from(s@, p@, k as int),
        decreases n - k,
    {
        let mut j: usize = 0;
        let mut same = true;
        assert(s@.subrange(k as int, k as int) =~= pv@.take(0));
        while j < m && same
            invariant
                j <= m,
                k + m <= n,
                m == pv@.len(),
                n == s@.len(),
                same == (s@.subrange(k as int, k + j) == pv@.take(j as int)),
            decreases m - j,
        {
            if s[k + j] != pv[j] {
                same = false;
                assert(s@.subrange(k as int, k + j + 1)[j as int] != pv@.take(j + 1)[j as int]);
            } else {
                assert(s@.subrange(k as int, k + j + 1) =~= s@.subrange(k as int, k + j).push(s@[k + j]));
                assert(pv@.take(j + 1) =~= pv@.take(j as int).push(pv@[j as int]));
            }
            j = j + 1;
        }
        if same {
            assert(pv@.take(m as int) =~= pv@);
            return Some(k);
        }
        assert(pv@.take(m as int) =~= pv@);
        assert(s@.subrange(k as int, k + m).take(j as int) =~= s@.subrange(k as int, k + j));
        assert(pv@.take(j as int) =~= pv@.take(j as int));
        assert(s@.subrange(k as int, k + m) != pv@);
        k = k + 1;
    }
    None
}

/// Number of occurrences of `c` in `s`.
pub open spec fn count_char(s: Seq<char>, c: char) -> nat
    decreases s.len(),
{
    if s.len() == 0 {
        0
    } else {
        count_char(s.drop_last(), c) + if s.last() == c {
            1nat
        } else {
            0nat
        }
    }
}

pub proof fn lemma_count_char_has(s: Seq<char>, c: char)
    ensures
        (count_char(s, c) > 0) == has_char(s, c),
        count_char(s, c) <= s.len(),
    decreases s.len(),
{
    if s.len() > 0 {
        lemma_count_char_has(s.drop_last(), c);
        if has_char(s, c) && s.last() != c {
            let i = choose|i: int| 0 <= i < s.len() && s[i] == c;
            assert(s.drop_last()[i] == c);
        }
        if has_char(s.drop_last(), c) {
            let i = choose|i: int| 0 <= i < s.drop_last().len() && s.drop_last()[i] == c;
            assert(s[i] == c);
        }
    }
}

pub fn count_chars(s: &Vec<char>, c: char) -> (n: usize)
    ensures
        n == count_char(s@, c),
{
    let mut n: usize = 0;
    let mut i: usize = 0;
    while i < s.len()
        invariant
            i <= s@.len(),
            n == count_char(s@.take(i as int), c),
            n <= i,
        decreases s@.len() - i,
    {
        assert(s@.take(i + 1).drop_last() =~= s@.take(i as int));
        if s[i] == c {
            n = n + 1;
        }
        i = i + 1;
    }
    assert(s@.take(s@.len() as int) =~= s@);
    n
}

/// Appends `c` to `s`.
/// Wraps `String::push`, whose documentation says that it appends the
/// character at the end; the contract claims exactly that.
#[verifier::external_body]
pub fn push_char(s: &mut String, c: char)
    ensures
        final(s)@ == old(s)@.push(c),
{
    s.push(c)
}

/// A `String` holding the characters of `v`.
pub fn string_of(v: &Vec<char>) -> (s: String)
    ensures
        s@ == v@,
{
    let mut s = String::new();
    let mut i: usize = 0;
    while i < v.len()
        invariant
            i <= v@.len(),
            s@ == v@.take(i as int),
        decreases v@.len() - i,
    {
        push_char(&mut s, v[i]);
        i = i + 1;
        assert(s@ =~= v@.take(i as int));
    }
    assert(v@.take(v@.len() as int) =~= v@);
    s
}

/// Appends the characters of `v` to `s`.
pub fn push_chars(s: &mut String, v: &Vec<char>)
    ensures
        final(s)@ == old(s)@ + v@,
{
    let ghost s0 = s@;
    let mut i: usize = 0;
    while i < v.len()
        invariant
            i <= v@.len(),
            s@ == s0 + v@.take(i as int),
        decreases v@.len() - i,
    {
        push_char(s, v[i]);
        i = i + 1;
        assert(s@ =~= s0 + v@.take(i as int));
    }
    assert(v@.take(v@.len() as int) =~= v@);
}

/// Appends `p` to `s`.
pub fn push_str(s: &mut String, p: &str)
    ensures
        final(s)@ == old(s)@ + p@,
{
    s.append(p);
}

pub fn digit(d: usize) -> (c: char)
    requires
        d < 10,
    ensures
        c == digit_char(d as nat),
{
    if d == 0 {
        '0'
    } else if d == 1 {
        '1'
    } else if d == 2 {
        '2'
    } else if d == 3 {
        '3'
    } else if d == 4 {
        '4'
    } else if d == 5 {
        '5'
    } else if d == 6 {
        '6'
    } else if d == 7 {
        '7'
    } else if d == 8 {
        '8'
    } else {
        '9'
    }
}

/// Appends the decimal rendering of `n` to `s`.
pub fn push_decimal_u64(s: &mut String, n: u64)
    ensures
        final(s)@ == old(s)@ + decimal(n as nat),
    decreases n,
{
    if n >= 10 {
        push_decimal_u64(s, n / 10);
    }
    let d = (n % 10) as usize;
    push_char(s, digit(d));
    assert(final(s)@ =~= old(s)@ + decimal(n as nat));
}

/// Appends the decimal rendering of `n` to `s`.
pub fn push_decimal(s: &mut String, n: usize)
    ensures
        final(s)@ == old(s)@ + decimal(n as nat),
{
    push_decimal_u64(s, n as u64);
}

/// `str::to_lowercase`: the lowercase mapping of every character, as the
/// Unicode tables of the standard library give it.
pub uninterp spec fn lowercase(s: Seq<char>) -> Seq<char>;

/// Wraps `str::to_lowercase`; the contract names the result, a function of
/// the text alone, and bounds its UTF-8 length as that of any `String`
/// (at most `isize::MAX` bytes).
#[verifier::external_body]
pub fn to_lowercase(s: &str) -> (r: String)
    ensures
        r@ == lowercase(s@),
        byte_len(r@) <= isize::MAX,
{
    s.to_lowercase()
}

/// `char::is_alphanumeric`: the character is alphabetic or numeric by the
/// Unicode tables of the standard library.
pub uninterp spec fn char_is_alphanumeric(c: char) -> bool;

/// Wraps `char::is_alphanumeric`; the contract names the result.
#[verifier::external_body]
pub fn is_alphanumeric(c: char) -> (r: bool)
    ensures
        r == char_is_alphanumeric(c),
{
    c.is_alphanumeric()
}

/// `char::to_lowercase`: the characters of the lowercase mapping of `c`.
pub uninterp spec fn char_lowercase(c: char) -> Seq<char>;

/// Wraps `char::to_lowercase`, collecting its characters; the contract
/// names the result.
#[verifier::external_body]
pub fn lowercase_char(c: char) -> (r: Vec<char>)
    ensures
        r@ == char_lowercase(c),
{
    c.to_lowercase().collect()
}

/// The view of each element.
pub open spec fn vec_views(v: Seq<Vec<char>>) -> Seq<Seq<char>> {
    v.map_values(|x: Vec<char>| x@)
}

/// `x` is one of `set`.
pub fn contains_vec(set: &Vec<Vec<char>>, x: &Vec<char>) -> (r: bool)
    ensures
        r == vec_views(set@).contains(x@),
{
    let mut i: usize = 0;
    while i < set.len()
        invariant
            i <= set@.len(),
            forall|j: int| 0 <= j < i ==> (#[trigger] set@[j])@ != x@,
        decreases set@.len() - i,
    {
        if eq_vec(&set[i], x) {
            assert(vec_views(set@)[i as int] == x@);
            return true;
        }
        i = i + 1;
    }
    proof {
        if vec_views(set@).contains(x@) {
            let j = choose|j: int| 0 <= j < vec_views(set@).len() && vec_views(set@)[j] == x@;
            assert(set@[j]@ == x@);
        }
    }
    false
}

/// The lowercase form of `v`.
pub fn lowercase_vec(v: &Vec<char>) -> (r: Vec<char>)
    ensures
        r@ == lowercase(v@),
{
    let s = string_of(v);
    let l = to_lowercase(s.as_str());
    chars_of(l.as_str())
}

/// `str::parse::<usize>`: the value of the text as a decimal number.
pub uninterp spec fn parse_usize(s: Seq<char>) -> Option<usize>;

/// Wraps `str::parse::<usize>`, keeping the value and dropping the error;
/// the contract names the result, a function of the text alone.
#[verifier::external_body]
pub fn parse_usize_str(s: &str) -> (r: Option<usize>)
    ensures
        r == parse_usize(s@),
{
    s.parse::<usize>().ok()
}

/// `str::parse::<u8>`: the value of the text as a decimal number below 256.
pub uninterp spec fn parse_u8(s: Seq<char>) -> Option<u8>;

/// Wraps `str::parse::<u8>`, keeping the value and dropping the error;
/// the contract names the result, a function of the text alone.
#[verifier::external_body]
pub fn parse_u8_str(s: &str) -> (r: Option<u8>)
    ensures
        r == parse_u8(s@),
{
    s.parse::<u8>().ok()
}

/// A `String` with the characters of the literal `p`.
pub fn text(p: &str) -> (s: String)
    ensures
        s@ == p@,
{
    String::from_str(p)
}

/// A text whose first `m` characters are ASCII has one byte per
/// character there.
pub proof fn lemma_ascii_take(t: Seq<char>, m: int)
    requires
        0 <= m <= t.len(),
        forall|q: int| 0 <= q < m ==> (#[trigger] t[q] as u32) < 0x80,
    ensures
        forall|i: int| 0 <= i <= m ==> byte_len(#[trigger] t.take(i)) == i,
    decreases m,
{
    if m > 0 {
        lemma_ascii_take(t, m - 1);
        assert(t.take(m).drop_last() =~= t.take(m - 1));
        assert(utf8_len(t[m - 1]) == 1);
    } else {
        assert(t.take(0) =~= Seq::<char>::empty());
    }
}

/// Over an ASCII prefix, a byte offset is a character index.
pub proof fn lemma_char_at_ascii(t: Seq<char>, b: int, k: int, m: int)
    requires
        0 <= k <= b <= m <= t.len(),
        forall|i: int| 0 <= i <= m ==> byte_len(#[trigger] t.take(i)) == i,
    ensures
        char_at_byte(t, b, k) == b,
    decreases b - k,
{
    if k < b {
        assert(byte_len(t.take(k)) == k);
        lemma_char_at_ascii(t, b, k + 1, m);
    } else {
        assert(byte_len(t.take(k)) == k);
    }
}

/// What `strip_eol` removes are line feeds and carriage returns.
pub proof fn lemma_strip_eol_tail(line: Seq<char>)
    ensures
        forall|j: int| strip_eol(line).len() <= j < line.len() ==> (#[trigger] line[j] == '\n' || line[j] == '\r'),
{
    let a = trim_end_char(line, '\n');
    lemma_trim_end_char_all(line, '\n');
    lemma_trim_end_char_all(a, '\r');
    assert forall|j: int| strip_eol(line).len() <= j < line.len() implies (#[trigger] line[j] == '\n' || line[j] == '\r') by {
        if j < a.len() {
            assert(a[j] == '\r');
            assert(line[j] == a[j]);
        }
    }
}

/// `leading_count` counts the run of `c` that starts `s`.
pub proof fn lemma_leading_count_shape(s: Seq<char>, c: char)
    ensures
        leading_count(s, c) <= s.len(),
        forall|j: int| 0 <= j < leading_count(s, c) ==> #[trigger] s[j] == c,
        leading_count(s, c) < s.len() ==> s[leading_count(s, c) as int] != c,
    decreases s.len(),
{
    if s.len() > 0 && s[0] == c {
        let r = s.drop_first();
        lemma_leading_count_shape(r, c);
        assert forall|j: int| 0 <= j < leading_count(s, c) implies #[trigger] s[j] == c by {
            if j > 0 {
                assert(s[j] == r[j - 1]);
            }
        }
        if leading_count(s, c) < s.len() {
            assert(s[leading_count(s, c) as int] == r[leading_count(r, c) as int]);
        }
    }
}

/// A run of `m` characters `c` not followed by another is counted as `m`.
pub proof fn lemma_leading_count_at(s: Seq<char>, c: char, m: int)
    requires
        0 <= m <= s.len(),
        forall|j: int| 0 <= j < m ==> #[trigger] s[j] == c,
        m == s.len() || s[m] != c,
    ensures
        leading_count(s, c) == m,
    decreases m,
{
    if m > 0 {
        let r = s.drop_first();
        assert forall|j: int| 0 <= j < m - 1 implies #[trigger] r[j] == c by {
            assert(r[j] == s[j + 1]);
        }
        if m < s.len() {
            assert(r[m - 1] == s[m]);
        }
        lemma_leading_count_at(r, c, m - 1);
    }
}

/// Whether the byte offset `b` falls between two characters of `t` (or at
/// either end), as `str::is_char_boundary` tells.
pub fn is_char_boundary_at(t: &Vec<char>, b: usize) -> (r: bool)
    requires
        byte_len(t@) <= isize::MAX,
    ensures
        r == char_boundary(t@, b as int),
{
    let k = char_index_at_byte(t, b);
    let pre = slice_chars(t, 0, k);
    proof {
        assert(pre@ =~= t@.take(k as int));
        lemma_byte_len_take(t@, k as int);
    }
    let n = utf8_byte_len(&pre);
    if n == b {
        true
    } else {
        proof {
            if char_boundary(t@, b as int) {
                let j = choose|j: int| 0 <= j <= t@.len() && #[trigger] byte_len(t@.take(j)) == b;
                lemma_char_at_boundary(t@, b as int, j);
            }
        }
        false
    }
}

/// `trim_start_char` keeps a suffix that does not start with `c`.
pub proof fn lemma_trim_start_char_shape(s: Seq<char>, c: char)
    ensures
        trim_start_char(s, c).len() <= s.len(),
        trim_start_char(s, c) == s.skip(s.len() - trim_start_char(s, c).len()),
        trim_start_char(s, c).len() == 0 || trim_start_char(s, c)[0] != c,
    decreases s.len(),
{
    if s.len() > 0 && s[0] == c {
        lemma_trim_start_char_shape(s.drop_first(), c);
        let k = s.len() - trim_start_char(s, c).len();
        assert(s.drop_first().skip(k - 1) =~= s.skip(k));
    } else {
        assert(s.skip(0) =~= s);
    }
}

} // verus!
