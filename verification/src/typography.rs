//! kramdown smart typography: smart quotes (`lsquo,rsquo,ldquo,rdquo`)
//! plus the typographic symbols `--`/`---`/`...`, rendered with
//! `entity_output: as_char` — i.e. the Unicode characters themselves.
//! Quote contexts we cannot classify with certainty decline instead of
//! guessing.

use vstd::prelude::*;
use crate::Error;
use crate::text::{is_uni_ws, uni_ws, ascii_alnum, ascii_digit, is_ascii_alnum, is_ascii_digit};

verus! {

pub const NDASH: char = '\u{2013}';

pub const MDASH: char = '\u{2014}';

pub const HELLIP: char = '\u{2026}';

pub const LSQUO: char = '\u{2018}';

pub const RSQUO: char = '\u{2019}';

pub const LDQUO: char = '\u{201C}';

pub const RDQUO: char = '\u{201D}';

/// Ruby `\w` in ASCII mode: `[A-Za-z0-9_]`.
pub open spec fn is_word_spec(c: char) -> bool {
    is_ascii_alnum(c) || c == '_'
}

/// ASCII punctuation (`!`..`/`, `:`..`@`, `[`..`` ` ``, `{`..`~`).
pub open spec fn is_ascii_punct(c: char) -> bool {
    ('!' <= c && c <= '/') || (':' <= c && c <= '@') || ('[' <= c && c <= '`') || ('{' <= c
        && c <= '~')
}

/// kramdown's `SQ_PUNCT` class: ASCII punctuation minus `&`.
pub open spec fn is_sq_punct_spec(c: char) -> bool {
    is_ascii_punct(c) && c != '&'
}

/// kramdown's `SQ_CLOSE`: any char except space, tab, CR, LF, `[`, `{`, `(`,
/// `-`, or a backslash.
pub open spec fn is_close_spec(c: char) -> bool {
    !(c == ' ' || c == '\t' || c == '\r' || c == '\n' || c == '[' || c == '{' || c == '('
        || c == '-' || c == '\\')
}

pub fn is_word(c: char) -> (r: bool)
    ensures
        r == is_word_spec(c),
{
    ascii_alnum(c) || c == '_'
}

pub fn is_sq_punct(c: char) -> (r: bool)
    ensures
        r == is_sq_punct_spec(c),
{
    (('!' <= c && c <= '/') || (':' <= c && c <= '@') || ('[' <= c && c <= '`') || ('{' <= c
        && c <= '~')) && c != '&'
}

pub fn is_close(c: char) -> (r: bool)
    ensures
        r == is_close_spec(c),
{
    !(c == ' ' || c == '\t' || c == '\r' || c == '\n' || c == '[' || c == '{' || c == '(' || c
        == '-' || c == '\\')
}

/// The `k`-th char of `s`, if any.
pub open spec fn nth(s: Seq<char>, k: int) -> Option<char> {
    if 0 <= k < s.len() {
        Some(s[k])
    } else {
        None
    }
}

pub open spec fn opt_is(o: Option<char>, p: spec_fn(char) -> bool) -> bool {
    match o {
        Some(c) => p(c),
        None => false,
    }
}

pub open spec fn is_emph_mark(o: Option<char>) -> bool {
    o == Some('_') || o == Some('*')
}

/// kramdown's `SQ_RULES` (SmartyPants) as an ordered rule table over the char
/// before the quote (`prev`) and the text after it (`rest`). `None` is the
/// nested-quote pair (`"'`/`'"` before a word), which is declined.
pub open spec fn smart_quote_spec(prev: Option<char>, is_single: bool, rest: Seq<char>) -> Option<
    char,
> {
    let lq = if is_single {
        LSQUO
    } else {
        LDQUO
    };
    let rq = if is_single {
        RSQUO
    } else {
        RDQUO
    };
    let at_start = prev == None::<char> || prev == Some('\\');
    let sp = opt_is(prev, |c: char| is_uni_ws(c));
    let c0 = nth(rest, 0);
    let c1 = nth(rest, 1);
    let c2 = nth(rest, 2);
    let after = if is_emph_mark(c1) {
        c2
    } else {
        c1
    };
    if at_start && is_emph_mark(c0) && opt_is(after, |c: char| !is_uni_ws(c)) {
        Some(lq)
    } else if at_start && opt_is(c0, |c: char| is_sq_punct_spec(c)) && !(c0 == Some('.') && c1
        == Some('.')) && !opt_is(c1, |c: char| is_word_spec(c)) {
        Some(rq)
    } else if (sp || at_start) && opt_is(c1, |c: char| is_word_spec(c)) && ((!is_single && c0
        == Some('\'')) || (is_single && c0 == Some('"'))) {
        None
    } else if is_single && (sp || at_start) && opt_is(c0, |c: char| is_ascii_digit(c)) && opt_is(
        c1,
        |c: char| is_ascii_digit(c),
    ) && c2 == Some('s') {
        Some(RSQUO)
    } else if sp && opt_is(c0, |c: char| is_word_spec(c)) {
        Some(lq)
    } else if opt_is(prev, |c: char| is_close_spec(c)) {
        Some(rq)
    } else if at_start && (c0 == None::<char> || opt_is(c0, |c: char| is_uni_ws(c)) || (c0 == Some(
        's',
    ) && !opt_is(c1, |c: char| is_word_spec(c)))) {
        Some(rq)
    } else {
        Some(lq)
    }
}

fn nth_char(s: &[char], k: usize) -> (r: Option<char>)
    ensures
        r == nth(s@, k as int),
{
    if k < s.len() {
        Some(s[k])
    } else {
        None
    }
}

/// Smart-quote classification (kramdown's `SQ_RULES`): the curly quote for a
/// `'` (`is_single`) or `"` with `prev` before it and `rest` after it, or a
/// decline for the two-char nested-quote forms.
pub fn smart_quote(prev: Option<char>, is_single: bool, rest: &[char]) -> (r: Result<char, Error>)
    ensures
        match smart_quote_spec(prev, is_single, rest@) {
            Some(q) => r == Ok::<char, Error>(q),
            None => r matches Err(Error::Declined(w)) && w == "nested-quote",
        },
{
    let lq = if is_single {
        LSQUO
    } else {
        LDQUO
    };
    let rq = if is_single {
        RSQUO
    } else {
        RDQUO
    };
    let at_start = match prev {
        None => true,
        Some(p) => p == '\\',
    };
    let sp = match prev {
        Some(p) => uni_ws(p),
        None => false,
    };
    let c0 = nth_char(rest, 0);
    let c1 = nth_char(rest, 1);
    let c2 = nth_char(rest, 2);
    let emph0 = c0 == Some('_') || c0 == Some('*');
    let emph1 = c1 == Some('_') || c1 == Some('*');
    let after = if emph1 {
        c2
    } else {
        c1
    };
    let after_ok = match after {
        Some(c) => !uni_ws(c),
        None => false,
    };
    let c0_punct = match c0 {
        Some(c) => is_sq_punct(c),
        None => false,
    };
    let c0_word = match c0 {
        Some(c) => is_word(c),
        None => false,
    };
    let c1_word = match c1 {
        Some(c) => is_word(c),
        None => false,
    };
    let c0_digit = match c0 {
        Some(c) => ascii_digit(c),
        None => false,
    };
    let c1_digit = match c1 {
        Some(c) => ascii_digit(c),
        None => false,
    };
    let c0_ws = match c0 {
        Some(c) => uni_ws(c),
        None => false,
    };
    let prev_close = match prev {
        Some(c) => is_close(c),
        None => false,
    };
    if at_start && emph0 && after_ok {
        return Ok(lq);
    }
    if at_start && c0_punct && !(c0 == Some('.') && c1 == Some('.')) && !c1_word {
        return Ok(rq);
    }
    if (sp || at_start) && c1_word && ((!is_single && c0 == Some('\'')) || (is_single && c0 == Some(
        '"',
    ))) {
        return Err(Error::Declined("nested-quote"));
    }
    if is_single && (sp || at_start) && c0_digit && c1_digit && c2 == Some('s') {
        return Ok(RSQUO);
    }
    if sp && c0_word {
        return Ok(lq);
    }
    if prev_close {
        return Ok(rq);
    }
    if at_start && (c0.is_none() || c0_ws || (c0 == Some('s') && !c1_word)) {
        return Ok(rq);
    }
    Ok(lq)
}

} // verus!
