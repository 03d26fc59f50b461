//! Character-level helpers over `[char]` text: whitespace classes, trims,
//! runs, prefix tests, and owned copies. Every function is pinned by its
//! contract to the exact index or sequence it computes.

use vstd::prelude::*;

verus! {

/// `char::is_whitespace` restricted to ASCII (note: includes VT `0x0B`,
/// which `u8::is_ascii_whitespace` omits).
pub open spec fn is_ascii_ws(c: char) -> bool {
    c == ' ' || c == '\t' || c == '\n' || c == '\x0b' || c == '\x0c' || c == '\r'
}

/// Unicode `White_Space` (the property `char::is_whitespace` tests).
pub open spec fn is_uni_ws(c: char) -> bool {
    ||| is_ascii_ws(c)
    ||| c == '\u{85}'
    ||| c == '\u{a0}'
    ||| c == '\u{1680}'
    ||| ('\u{2000}' <= c && c <= '\u{200a}')
    ||| c == '\u{2028}'
    ||| c == '\u{2029}'
    ||| c == '\u{202f}'
    ||| c == '\u{205f}'
    ||| c == '\u{3000}'
}

/// Space or tab.
pub open spec fn is_sp_tab(c: char) -> bool {
    c == ' ' || c == '\t'
}

pub open spec fn is_ascii_digit(c: char) -> bool {
    '0' <= c && c <= '9'
}

pub open spec fn is_ascii_upper(c: char) -> bool {
    'A' <= c && c <= 'Z'
}

pub open spec fn is_ascii_lower(c: char) -> bool {
    'a' <= c && c <= 'z'
}

pub open spec fn is_ascii_alpha(c: char) -> bool {
    is_ascii_upper(c) || is_ascii_lower(c)
}

pub open spec fn is_ascii_alnum(c: char) -> bool {
    is_ascii_alpha(c) || is_ascii_digit(c)
}

/// A char of plain prose: an ASCII letter or digit, a space, or one of
/// `, ; : ? ( ) / % @`.
pub open spec fn word_char(c: char) -> bool {
    is_ascii_alnum(c) || c == ' ' || c == ',' || c == ';' || c == ':' || c == '?' || c == '('
        || c == ')' || c == '/' || c == '%' || c == '@'
}

/// A line of plain words: prose chars, beginning and ending with an ASCII
/// letter or digit.
pub open spec fn word_line(s: Seq<char>) -> bool {
    &&& s.len() > 0
    &&& is_ascii_alnum(s[0])
    &&& is_ascii_alnum(s[s.len() - 1])
    &&& forall|k: int| 0 <= k < s.len() ==> word_char(#[trigger] s[k])
}

/// The lowercase of an ASCII letter; every other char is unchanged.
pub open spec fn ascii_lower(c: char) -> char {
    if is_ascii_upper(c) {
        ((c as u32) + 32) as char
    } else {
        c
    }
}

pub fn ascii_ws(c: char) -> (r: bool)
    ensures
        r == is_ascii_ws(c),
{
    c == ' ' || c == '\t' || c == '\n' || c == '\x0b' || c == '\x0c' || c == '\r'
}

pub fn uni_ws(c: char) -> (r: bool)
    ensures
        r == is_uni_ws(c),
{
    ascii_ws(c) || c == '\u{85}' || c == '\u{a0}' || c == '\u{1680}' || ('\u{2000}' <= c && c
        <= '\u{200a}') || c == '\u{2028}' || c == '\u{2029}' || c == '\u{202f}' || c == '\u{205f}'
        || c == '\u{3000}'
}

pub fn sp_tab(c: char) -> (r: bool)
    ensures
        r == is_sp_tab(c),
{
    c == ' ' || c == '\t'
}

pub fn ascii_digit(c: char) -> (r: bool)
    ensures
        r == is_ascii_digit(c),
{
    '0' <= c && c <= '9'
}

pub fn ascii_alpha(c: char) -> (r: bool)
    ensures
        r == is_ascii_alpha(c),
{
    ('A' <= c && c <= 'Z') || ('a' <= c && c <= 'z')
}

pub fn ascii_alnum(c: char) -> (r: bool)
    ensures
        r == is_ascii_alnum(c),
{
    ascii_alpha(c) || ascii_digit(c)
}

pub fn to_ascii_lower(c: char) -> (r: char)
    ensures
        r == ascii_lower(c),
{
    if 'A' <= c && c <= 'Z' {
        let u: u32 = c as u32;
        assert(65 <= u <= 90);
        char_from_ascii(u + 32)
    } else {
        c
    }
}

/// The char of an ASCII code (every value below 128 is a valid char).
pub fn char_from_ascii(u: u32) -> (r: char)
    requires
        u < 128,
    ensures
        r as u32 == u,
        r == u as char,
{
    let b: u8 = u as u8;
    b as char
}

/// Lowercase every ASCII letter of `s` (`str::to_ascii_lowercase`).
pub fn lower_ascii(s: &[char]) -> (r: Vec<char>)
    ensures
        r@.len() == s@.len(),
        forall|i: int| 0 <= i < s@.len() ==> #[trigger] r@[i] == ascii_lower(s@[i]),
{
    let mut r: Vec<char> = Vec::new();
    let mut i: usize = 0;
    while i < s.len()
        invariant
            i <= s@.len(),
            r@.len() == i,
            forall|k: int| 0 <= k < i ==> #[trigger] r@[k] == ascii_lower(s@[k]),
        decreases s@.len() - i,
    {
        r.push(to_ascii_lower(s[i]));
        i = i + 1;
    }
    r
}

/// An owned copy of `s`.
pub fn to_vec(s: &[char]) -> (r: Vec<char>)
    ensures
        r@ == s@,
{
    let mut r: Vec<char> = Vec::new();
    let mut i: usize = 0;
    while i < s.len()
        invariant
            i <= s@.len(),
            r@ == s@.subrange(0, i as int),
        decreases s@.len() - i,
    {
        r.push(s[i]);
        i = i + 1;
    }
    r
}

/// Append `s` to `out`.
pub fn push_all(out: &mut Vec<char>, s: &[char])
    ensures
        final(out)@ == old(out)@ + s@,
        extends(final(out)@, old(out)@),
{
    let ghost start = out@;
    let mut i: usize = 0;
    while i < s.len()
        invariant
            i <= s@.len(),
            out@ == start + s@.subrange(0, i as int),
        decreases s@.len() - i,
    {
        out.push(s[i]);
        i = i + 1;
    }
    assert(s@.subrange(0, s@.len() as int) =~= s@);
    assert(out@.subrange(0, start.len() as int) =~= start);
}

/// Append one char to `out`.
pub fn push_char(out: &mut Vec<char>, c: char)
    ensures
        final(out)@ == old(out)@.push(c),
        extends(final(out)@, old(out)@),
{
    out.push(c);
    assert(out@.subrange(0, old(out)@.len() as int) =~= old(out)@);
}

/// Append the chars of a string literal (or any `&str`) to `out`.
pub fn push_str(out: &mut Vec<char>, s: &str)
    ensures
        final(out)@ == old(out)@ + s@,
        extends(final(out)@, old(out)@),
{
    let ghost start = out@;
    for c in it: s.chars()
        invariant
            out@ == start + it.seq().take(it.index() as int),
    {
        out.push(c);
    }
    assert(out@.subrange(0, start.len() as int) =~= start);
}

/// The chars of `s` as an owned vector.
pub fn chars_of(s: &str) -> (r: Vec<char>)
    ensures
        r@ == s@,
{
    let mut r: Vec<char> = Vec::new();
    push_str(&mut r, s);
    r
}

/// Do `a` and `b` hold the same chars?
pub fn eq_chars(a: &[char], b: &[char]) -> (r: bool)
    ensures
        r == (a@ == b@),
{
    if a.len() != b.len() {
        return false;
    }
    let mut i: usize = 0;
    while i < a.len()
        invariant
            i <= a@.len(),
            a@.len() == b@.len(),
            forall|k: int| 0 <= k < i ==> a@[k] == b@[k],
        decreases a@.len() - i,
    {
        if a[i] != b[i] {
            return false;
        }
        i = i + 1;
    }
    assert(a@ =~= b@);
    true
}

/// Does `s` hold exactly the chars of the literal `lit`?
pub fn eq_str(s: &[char], lit: &str) -> (r: bool)
    ensures
        r == (s@ == lit@),
{
    let l = chars_of(lit);
    eq_chars(s, l.as_slice())
}

/// Does `s` begin with `p`?
pub open spec fn has_prefix(s: Seq<char>, p: Seq<char>) -> bool {
    p.len() <= s.len() && s.subrange(0, p.len() as int) == p
}

/// Does `s` end with `p`?
pub open spec fn has_suffix(s: Seq<char>, p: Seq<char>) -> bool {
    p.len() <= s.len() && s.subrange(s.len() - p.len(), s.len() as int) == p
}

pub fn starts_with_chars(s: &[char], p: &[char]) -> (r: bool)
    ensures
        r == has_prefix(s@, p@),
{
    if p.len() > s.len() {
        return false;
    }
    let mut i: usize = 0;
    while i < p.len()
        invariant
            i <= p@.len(),
            p@.len() <= s@.len(),
            forall|k: int| 0 <= k < i ==> s@[k] == p@[k],
        decreases p@.len() - i,
    {
        if s[i] != p[i] {
            return false;
        }
        i = i + 1;
    }
    assert(s@.subrange(0, p@.len() as int) =~= p@);
    true
}

/// Does `s` begin with the literal `lit`?
pub fn starts_with(s: &[char], lit: &str) -> (r: bool)
    ensures
        r == has_prefix(s@, lit@),
{
    let l = chars_of(lit);
    starts_with_chars(s, l.as_slice())
}

/// Does `s` end with the literal `lit`?
pub fn ends_with(s: &[char], lit: &str) -> (r: bool)
    ensures
        r == has_suffix(s@, lit@),
{
    let l = chars_of(lit);
    if l.len() > s.len() {
        return false;
    }
    let off = s.len() - l.len();
    let r = eq_chars(&s[off..s.len()], l.as_slice());
    r
}

/// Does `s` begin with the char `c`?
pub fn starts_with_char(s: &[char], c: char) -> (r: bool)
    ensures
        r == (s@.len() > 0 && s@[0] == c),
{
    s.len() > 0 && s[0] == c
}

/// Does `s` hold the char `c` anywhere?
pub fn contains_char(s: &[char], c: char) -> (r: bool)
    ensures
        r == s@.contains(c),
{
    let mut i: usize = 0;
    while i < s.len()
        invariant
            i <= s@.len(),
            forall|k: int| 0 <= k < i ==> s@[k] != c,
        decreases s@.len() - i,
    {
        if s[i] == c {
            assert(s@[i as int] == c);
            return true;
        }
        i = i + 1;
    }
    false
}

/// Index of the first `c` in `s` at or after `from`.
pub fn find_char_from(s: &[char], from: usize, c: char) -> (r: Option<usize>)
    requires
        from <= s@.len(),
    ensures
        match r {
            Some(k) => from <= k < s@.len() && s@[k as int] == c && forall|j: int|
                from <= j < k ==> s@[j] != c,
            None => forall|j: int| from <= j < s@.len() ==> s@[j] != c,
        },
{
    let mut i: usize = from;
    while i < s.len()
        invariant
            from <= i <= s@.len(),
            forall|k: int| from <= k < i ==> s@[k] != c,
        decreases s@.len() - i,
    {
        if s[i] == c {
            return Some(i);
        }
        i = i + 1;
    }
    None
}

/// Index of the first `c` in `s`.
pub fn find_char(s: &[char], c: char) -> (r: Option<usize>)
    ensures
        match r {
            Some(k) => k < s@.len() && s@[k as int] == c && forall|j: int| 0 <= j < k ==> s@[j]
                != c,
            None => forall|j: int| 0 <= j < s@.len() ==> s@[j] != c,
        },
{
    find_char_from(s, 0, c)
}

/// Does `p` occur in `s` at position `at`?
pub open spec fn occurs_at(s: Seq<char>, p: Seq<char>, at: int) -> bool {
    0 <= at && at + p.len() <= s.len() && s.subrange(at, at + p.len()) == p
}

/// Index of the first occurrence of `p` in `s` (`str::find` with a string
/// pattern).
pub fn find_seq(s: &[char], p: &[char]) -> (r: Option<usize>)
    ensures
        match r {
            Some(k) => occurs_at(s@, p@, k as int) && forall|j: int|
                0 <= j < k ==> !occurs_at(s@, p@, j),
            None => forall|j: int| !occurs_at(s@, p@, j),
        },
{
    if p.len() > s.len() {
        return None;
    }
    let last = s.len() - p.len();
    let mut i: usize = 0;
    while i <= last
        invariant
            last + p@.len() == s@.len(),
            forall|j: int| 0 <= j < i ==> !occurs_at(s@, p@, j),
        decreases last + 1 - i,
    {
        if starts_with_chars(&s[i..s.len()], p) {
            assert(s@.subrange(i as int, s@.len() as int).subrange(0, p@.len() as int)
                =~= s@.subrange(i as int, i + p@.len()));
            return Some(i);
        }
        assert(s@.subrange(i as int, s@.len() as int).subrange(0, p@.len() as int)
            =~= s@.subrange(i as int, i + p@.len()));
        if i == last {
            return None;
        }
        i = i + 1;
    }
    None
}

/// Index of the last occurrence of `p` in `s` (`str::rfind`).
pub fn rfind_seq(s: &[char], p: &[char]) -> (r: Option<usize>)
    ensures
        match r {
            Some(k) => occurs_at(s@, p@, k as int) && forall|j: int|
                k < j ==> !occurs_at(s@, p@, j),
            None => forall|j: int| !occurs_at(s@, p@, j),
        },
{
    if p.len() > s.len() {
        return None;
    }
    let mut k: usize = s.len() - p.len();
    loop
        invariant
            k + p@.len() <= s@.len(),
            forall|j: int| k < j ==> !occurs_at(s@, p@, j),
        decreases k,
    {
        if starts_with_chars(&s[k..s.len()], p) {
            assert(s@.subrange(k as int, s@.len() as int).subrange(0, p@.len() as int)
                =~= s@.subrange(k as int, k + p@.len()));
            return Some(k);
        }
        assert(s@.subrange(k as int, s@.len() as int).subrange(0, p@.len() as int)
            =~= s@.subrange(k as int, k + p@.len()));
        if k == 0 {
            return None;
        }
        k = k - 1;
    }
}

/// Length of the run of `c` starting at `i` (0 when `i` is past the end).
pub fn run_len(s: &[char], i: usize, c: char) -> (n: usize)
    ensures
        i <= s@.len() ==> i + n <= s@.len(),
        i > s@.len() ==> n == 0,
        forall|k: int| i <= k < i + n ==> s@[k] == c,
        i + n < s@.len() ==> s@[i + n] != c,
{
    if i > s.len() {
        return 0;
    }
    let mut j: usize = i;
    while j < s.len() && s[j] == c
        invariant
            i <= j <= s@.len(),
            forall|k: int| i <= k < j ==> s@[k] == c,
        decreases s@.len() - j,
    {
        j = j + 1;
    }
    j - i
}

/// Number of leading chars of `s` satisfying the space/tab class when
/// `tabs`, else only spaces.
pub open spec fn is_lead(c: char, tabs: bool) -> bool {
    c == ' ' || (tabs && c == '\t')
}

/// First index at or after `from` that is not a space (or tab, when
/// `tabs`).
pub open spec fn lead_run(s: Seq<char>, from: int, tabs: bool) -> int
    decreases s.len() - from,
{
    if 0 <= from < s.len() && is_lead(s[from], tabs) {
        lead_run(s, from + 1, tabs)
    } else {
        from
    }
}

/// End of `s[..to]` once its trailing spaces (and tabs, when `tabs`) are
/// cut.
pub open spec fn trail_run(s: Seq<char>, to: int, tabs: bool) -> int
    decreases to,
{
    if 0 < to <= s.len() && is_lead(s[to - 1], tabs) {
        trail_run(s, to - 1, tabs)
    } else {
        to
    }
}

/// `s` without its leading spaces (and tabs, when `tabs`).
pub open spec fn strip_lead(s: Seq<char>, tabs: bool) -> Seq<char> {
    s.subrange(lead_run(s, 0, tabs), s.len() as int)
}

/// `s` without its trailing spaces (and tabs, when `tabs`).
pub open spec fn strip_trail(s: Seq<char>, tabs: bool) -> Seq<char> {
    s.subrange(0, trail_run(s, s.len() as int, tabs))
}

/// `s` without spaces (and tabs, when `tabs`) at either end.
pub open spec fn strip_both(s: Seq<char>, tabs: bool) -> Seq<char> {
    strip_trail(strip_lead(s, tabs), tabs)
}

/// A word line has no space, tab or other whitespace at either end.
pub proof fn lemma_word_line_trimmed(s: Seq<char>)
    requires
        word_line(s),
    ensures
        strip_lead(s, true) == s,
        strip_lead(s, false) == s,
        strip_trail(s, true) == s,
        strip_trail(s, false) == s,
        strip_both(s, true) == s,
        trim_ws_spec(s) == s,
{
    assert(s.subrange(0, s.len() as int) =~= s);
}

pub proof fn lemma_lead_run(s: Seq<char>, from: int, a: int, tabs: bool)
    requires
        0 <= from <= a <= s.len(),
        forall|k: int| from <= k < a ==> is_lead(#[trigger] s[k], tabs),
        a < s.len() ==> !is_lead(s[a], tabs),
    ensures
        lead_run(s, from, tabs) == a,
    decreases a - from,
{
    if from < a {
        lemma_lead_run(s, from + 1, a, tabs);
    }
}

pub proof fn lemma_trail_run(s: Seq<char>, to: int, b: int, tabs: bool)
    requires
        0 <= b <= to <= s.len(),
        forall|k: int| b <= k < to ==> is_lead(#[trigger] s[k], tabs),
        b > 0 ==> !is_lead(s[b - 1], tabs),
    ensures
        trail_run(s, to, tabs) == b,
    decreases to - b,
{
    if b < to {
        lemma_trail_run(s, to - 1, b, tabs);
    }
}

/// Count of leading spaces (and tabs, when `tabs`): the `s.len() -
/// s.trim_start_matches(..).len()` idiom.
pub fn lead_count(s: &[char], tabs: bool) -> (n: usize)
    ensures
        n == lead_run(s@, 0, tabs),
        n <= s@.len(),
        forall|k: int| 0 <= k < n ==> is_lead(#[trigger] s@[k], tabs),
        n < s@.len() ==> !is_lead(s@[n as int], tabs),
{
    let mut j: usize = 0;
    while j < s.len() && (s[j] == ' ' || (tabs && s[j] == '\t'))
        invariant
            j <= s@.len(),
            forall|k: int| 0 <= k < j ==> is_lead(#[trigger] s@[k], tabs),
        decreases s@.len() - j,
    {
        j = j + 1;
    }
    proof {
        lemma_lead_run(s@, 0, j as int, tabs);
    }
    j
}

/// Count of trailing spaces (and tabs, when `tabs`).
pub fn trail_count(s: &[char], tabs: bool) -> (n: usize)
    ensures
        s@.len() - n == trail_run(s@, s@.len() as int, tabs),
        n <= s@.len(),
        forall|k: int| s@.len() - n <= k < s@.len() ==> is_lead(#[trigger] s@[k], tabs),
        n < s@.len() ==> !is_lead(s@[s@.len() - n - 1], tabs),
{
    let mut j: usize = 0;
    while j < s.len() && (s[s.len() - j - 1] == ' ' || (tabs && s[s.len() - j - 1] == '\t'))
        invariant
            j <= s@.len(),
            forall|k: int| s@.len() - j <= k < s@.len() ==> is_lead(#[trigger] s@[k], tabs),
        decreases s@.len() - j,
    {
        j = j + 1;
    }
    proof {
        lemma_trail_run(s@, s@.len() as int, s@.len() - j, tabs);
    }
    j
}

/// `s` with leading spaces (and tabs, when `tabs`) removed.
pub fn trim_start_sp(s: &[char], tabs: bool) -> (r: &[char])
    ensures
        r@ == strip_lead(s@, tabs),
        r@.len() <= s@.len(),
        r@ == s@.subrange(s@.len() - r@.len(), s@.len() as int),
        forall|k: int| 0 <= k < s@.len() - r@.len() ==> is_lead(#[trigger] s@[k], tabs),
        r@.len() > 0 ==> !is_lead(r@[0], tabs),
{
    let n = lead_count(s, tabs);
    &s[n..s.len()]
}

/// `s` with trailing spaces (and tabs, when `tabs`) removed.
pub fn trim_end_sp(s: &[char], tabs: bool) -> (r: &[char])
    ensures
        r@ == strip_trail(s@, tabs),
        r@.len() <= s@.len(),
        r@ == s@.subrange(0, r@.len() as int),
        forall|k: int| r@.len() <= k < s@.len() ==> is_lead(#[trigger] s@[k], tabs),
        r@.len() > 0 ==> !is_lead(r@[r@.len() - 1], tabs),
{
    let n = trail_count(s, tabs);
    &s[0..s.len() - n]
}

/// `r` is `s[a..a + r.len()]` with only spaces (and tabs, when `tabs`)
/// cut from either end.
pub open spec fn sp_trimmed_at(s: Seq<char>, r: Seq<char>, a: int, tabs: bool) -> bool {
    &&& 0 <= a && a + r.len() <= s.len()
    &&& r == s.subrange(a, a + r.len())
    &&& forall|k: int| 0 <= k < a ==> is_lead(#[trigger] s[k], tabs)
    &&& forall|k: int| a + r.len() <= k < s.len() ==> is_lead(#[trigger] s[k], tabs)
}

/// `r` is `s[a..a + r.len()]` with only Unicode whitespace cut from either
/// end.
pub open spec fn ws_trimmed_at(s: Seq<char>, r: Seq<char>, a: int) -> bool {
    &&& 0 <= a && a + r.len() <= s.len()
    &&& r == s.subrange(a, a + r.len())
    &&& forall|k: int| 0 <= k < a ==> is_uni_ws(#[trigger] s[k])
    &&& forall|k: int| a + r.len() <= k < s.len() ==> is_uni_ws(#[trigger] s[k])
}

/// `s` with spaces (and tabs, when `tabs`) removed from both ends.
pub fn trim_sp(s: &[char], tabs: bool) -> (r: &[char])
    ensures
        r@ == strip_both(s@, tabs),
        exists|a: int| #[trigger] sp_trimmed_at(s@, r@, a, tabs),
        r@.len() > 0 ==> !is_lead(r@[0], tabs) && !is_lead(r@[r@.len() - 1], tabs),
{
    let a = trim_start_sp(s, tabs);
    let r = trim_end_sp(a, tabs);
    let ghost off = s@.len() - a@.len();
    assert forall|i: int| 0 <= i < r@.len() implies r@[i] == s@[off + i] by {
        assert(r@[i] == a@[i]);
        assert(a@[i] == s@[off + i]);
    }
    assert(r@ =~= s@.subrange(off, off + r@.len()));
    assert forall|k: int| off + r@.len() <= k < s@.len() implies is_lead(#[trigger] s@[k], tabs) by {
        assert(s@[k] == a@[k - off]);
    }
    assert(sp_trimmed_at(s@, r@, off, tabs));
    r
}

/// Index of the first char of `s` that is not Unicode whitespace
/// (`s.len()` when there is none).
pub fn first_non_ws(s: &[char]) -> (n: usize)
    ensures
        n <= s@.len(),
        forall|k: int| 0 <= k < n ==> is_uni_ws(#[trigger] s@[k]),
        n < s@.len() ==> !is_uni_ws(s@[n as int]),
{
    let mut j: usize = 0;
    while j < s.len() && uni_ws(s[j])
        invariant
            j <= s@.len(),
            forall|k: int| 0 <= k < j ==> is_uni_ws(#[trigger] s@[k]),
        decreases s@.len() - j,
    {
        j = j + 1;
    }
    j
}

/// Number of trailing Unicode whitespace chars of `s`.
pub fn trailing_ws(s: &[char]) -> (n: usize)
    ensures
        n <= s@.len(),
        forall|k: int| s@.len() - n <= k < s@.len() ==> is_uni_ws(#[trigger] s@[k]),
        n < s@.len() ==> !is_uni_ws(s@[s@.len() - n - 1]),
{
    let mut j: usize = 0;
    while j < s.len() && uni_ws(s[s.len() - j - 1])
        invariant
            j <= s@.len(),
            forall|k: int| s@.len() - j <= k < s@.len() ==> is_uni_ws(#[trigger] s@[k]),
        decreases s@.len() - j,
    {
        j = j + 1;
    }
    j
}

/// `line.trim().is_empty()`: every char is whitespace.
pub fn is_blank(line: &[char]) -> (r: bool)
    ensures
        r == (forall|k: int| 0 <= k < line@.len() ==> is_uni_ws(#[trigger] line@[k])),
{
    let n = first_non_ws(line);
    n == line.len()
}

/// `str::trim_start`.
pub fn trim_start_ws(s: &[char]) -> (r: &[char])
    ensures
        r@ == s@.subrange(lead_ws(s@, 0), s@.len() as int),
        r@.len() <= s@.len(),
        r@ == s@.subrange(s@.len() - r@.len(), s@.len() as int),
        forall|k: int| 0 <= k < s@.len() - r@.len() ==> is_uni_ws(#[trigger] s@[k]),
        r@.len() > 0 ==> !is_uni_ws(r@[0]),
{
    let n = first_non_ws(s);
    proof {
        lemma_lead_ws(s@, 0, n as int);
    }
    &s[n..s.len()]
}

/// `str::trim_end`.
pub fn trim_end_ws(s: &[char]) -> (r: &[char])
    ensures
        r@ == s@.subrange(0, trail_ws_end(s@, s@.len() as int)),
        r@.len() <= s@.len(),
        r@ == s@.subrange(0, r@.len() as int),
        forall|k: int| r@.len() <= k < s@.len() ==> is_uni_ws(#[trigger] s@[k]),
        r@.len() > 0 ==> !is_uni_ws(r@[r@.len() - 1]),
{
    let n = trailing_ws(s);
    proof {
        lemma_trail_ws(s@, s@.len() as int, s@.len() - n);
    }
    &s[0..s.len() - n]
}

/// `str::trim`.
pub fn trim_ws(s: &[char]) -> (r: &[char])
    ensures
        r@ == trim_ws_spec(s@),
        exists|a: int| #[trigger] ws_trimmed_at(s@, r@, a),
        r@.len() > 0 ==> !is_uni_ws(r@[0]) && !is_uni_ws(r@[r@.len() - 1]),
{
    let a = trim_start_ws(s);
    let r = trim_end_ws(a);
    let ghost off = s@.len() - a@.len();
    assert forall|i: int| 0 <= i < r@.len() implies r@[i] == s@[off + i] by {
        assert(r@[i] == a@[i]);
        assert(a@[i] == s@[off + i]);
    }
    assert(r@ =~= s@.subrange(off, off + r@.len()));
    assert forall|k: int| off + r@.len() <= k < s@.len() implies is_uni_ws(#[trigger] s@[k]) by {
        assert(s@[k] == a@[k - off]);
    }
    assert(ws_trimmed_at(s@, r@, off));
    proof {
        lemma_trim_ws_spec(s@, r@);
    }
    r
}

/// `str::trim` as a function of the text (the unique trimmed slice).
pub open spec fn trim_ws_spec(s: Seq<char>) -> Seq<char> {
    let a = lead_ws(s, 0);
    let b = trail_ws_end(s, s.len() as int);
    if a >= b {
        Seq::empty()
    } else {
        s.subrange(a, b)
    }
}

/// First index at or after `from` that is not Unicode whitespace.
pub open spec fn lead_ws(s: Seq<char>, from: int) -> int
    decreases s.len() - from,
{
    if 0 <= from < s.len() && is_uni_ws(s[from]) {
        lead_ws(s, from + 1)
    } else {
        from
    }
}

/// End of `s[..to]` with its trailing Unicode whitespace removed.
pub open spec fn trail_ws_end(s: Seq<char>, to: int) -> int
    decreases to,
{
    if 0 < to <= s.len() && is_uni_ws(s[to - 1]) {
        trail_ws_end(s, to - 1)
    } else {
        to
    }
}

proof fn lemma_lead_ws(s: Seq<char>, from: int, a: int)
    requires
        0 <= from <= a <= s.len(),
        forall|k: int| from <= k < a ==> is_uni_ws(#[trigger] s[k]),
        a < s.len() ==> !is_uni_ws(s[a]),
    ensures
        lead_ws(s, from) == a,
    decreases a - from,
{
    if from < a {
        lemma_lead_ws(s, from + 1, a);
    }
}

proof fn lemma_trail_ws(s: Seq<char>, to: int, b: int)
    requires
        0 <= b <= to <= s.len(),
        forall|k: int| b <= k < to ==> is_uni_ws(#[trigger] s[k]),
        b > 0 ==> !is_uni_ws(s[b - 1]),
    ensures
        trail_ws_end(s, to) == b,
    decreases to - b,
{
    if b < to {
        lemma_trail_ws(s, to - 1, b);
    }
}

/// The slice `trim_ws` returns is the spec's trimmed text.
pub proof fn lemma_trim_ws_spec(s: Seq<char>, t: Seq<char>)
    requires
        exists|a: int| #[trigger] ws_trimmed_at(s, t, a),
        t.len() > 0 ==> !is_uni_ws(t[0]) && !is_uni_ws(t[t.len() - 1]),
    ensures
        t == trim_ws_spec(s),
{
    let a = choose|a: int| #[trigger] ws_trimmed_at(s, t, a);
    if t.len() > 0 {
        assert(s[a] == t[0]);
        assert(s[a + t.len() - 1] == t[t.len() - 1]);
        lemma_lead_ws(s, 0, a);
        lemma_trail_ws(s, s.len() as int, a + t.len());
        assert(t =~= s.subrange(a, a + t.len()));
    } else {
        // All of `s` is whitespace.
        assert forall|k: int| 0 <= k < s.len() implies is_uni_ws(#[trigger] s[k]) by {
            if k < a {
            } else {
            }
        }
        lemma_lead_ws(s, 0, s.len() as int);
        lemma_trail_ws(s, s.len() as int, 0);
    }
}

/// `a` begins with all of `b` (output only ever grows at its end).
pub open spec fn extends(a: Seq<char>, b: Seq<char>) -> bool {
    b.len() <= a.len() && a.subrange(0, b.len() as int) == b
}

pub broadcast proof fn lemma_extends_trans(a: Seq<char>, b: Seq<char>, c: Seq<char>)
    requires
        #[trigger] extends(a, b),
        #[trigger] extends(b, c),
    ensures
        extends(a, c),
{
    assert(a.subrange(0, c.len() as int) =~= b.subrange(0, c.len() as int));
}

pub broadcast proof fn lemma_extends_concat(a: Seq<char>, s: Seq<char>)
    ensures
        #[trigger] extends(a + s, a),
{
    assert((a + s).subrange(0, a.len() as int) =~= a);
}

pub broadcast proof fn lemma_extends_push(a: Seq<char>, c: char)
    ensures
        #[trigger] extends(a.push(c), a),
{
    assert(a.push(c).subrange(0, a.len() as int) =~= a);
}

pub broadcast proof fn lemma_extends_refl(a: Seq<char>)
    ensures
        #[trigger] extends(a, a),
{
    assert(a.subrange(0, a.len() as int) =~= a);
}

pub broadcast group group_extends {
    lemma_extends_trans,
    lemma_extends_concat,
    lemma_extends_push,
    lemma_extends_refl,
}

/// Concatenate `lines`, each followed by a `\n` except the last when
/// `trailing_nl` is false.
pub open spec fn join_lines(lines: Seq<Seq<char>>, trailing_nl: bool) -> Seq<char>
    decreases lines.len(),
{
    if lines.len() == 0 {
        Seq::empty()
    } else if lines.len() == 1 {
        if trailing_nl {
            lines[0].push('\n')
        } else {
            lines[0]
        }
    } else {
        lines[0].push('\n') + join_lines(lines.drop_first(), trailing_nl)
    }
}

} // verus!
