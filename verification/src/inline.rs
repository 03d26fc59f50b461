//! Span parsing: a recursive-descent parser mirroring kramdown's
//! `parse_spans` + `parse_emphasis`, with typography, entities, escapes,
//! code spans, links, images, inline HTML, autolinks, strikethrough and
//! span IALs. Anything outside the implemented subset declines.

use vstd::prelude::*;
use crate::Error;
use crate::ast::{Span, LinkDef};
use crate::ial::{Attr, parse_ial, merge_ial};
use crate::text::{is_ascii_ws, ascii_ws, uni_ws, is_uni_ws, to_vec, push_all, push_char, run_len,
    find_char, find_char_from, find_seq, contains_char, trim_sp, trim_start_ws, is_sp_tab,
    ascii_alpha, eq_chars, starts_with_char, strip_both, lead_ws};
use crate::unicode::{is_alphabetic, is_alphanumeric, to_lowercase, char_from_u32, uni_lowercase,
    uni_alphabetic};
use crate::entities::parse_entity;
use crate::render::opt_vec;
use crate::html_block::{inline_at, autolink_at, Inline};
use crate::typography::{smart_quote, NDASH, MDASH, HELLIP};
use crate::ial::attrs_view;
use crate::html_block::lemma_first_occ;
use crate::lines::{run_spec, lemma_run_spec};
use crate::span_model::{SpanV, spans_v, span_v, ScanState, flush_v, scan_spec, scan_from,
    step_spec, esc_step, code_step, emph_step, bracket_step, image_step, angle_step, amp_step,
    tilde_step, ial_step, quote_step, dash_step, dot_step, plain_step, plain_from, sp_count,
    is_escapable, link_close, lemma_spans_v_push, lemma_spans_v_add, lemma_spans_v_index,
    lemma_spans_v_drop_last, lemma_entity_fn, lemma_inline_fn, lemma_trig_from};

verus! {

fn declined(what: &'static str) -> (e: Error)
    ensures
        e == Error::Declined(what),
{
    Error::Declined(what)
}

/// Bytes that begin a span-parser match arm (markup delimiters, typography
/// triggers, escapes); everything else is ordinary text.
pub open spec fn is_trigger_spec(c: char) -> bool {
    c == '\\' || c == '`' || c == '*' || c == '_' || c == '[' || c == '!' || c == '<' || c == '>'
        || c == '&' || c == '~' || c == '{' || c == '\'' || c == '"' || c == '-' || c == '.'
}

pub fn is_trigger(c: char) -> (r: bool)
    ensures
        r == is_trigger_spec(c),
{
    c == '\\' || c == '`' || c == '*' || c == '_' || c == '[' || c == '!' || c == '<' || c == '>'
        || c == '&' || c == '~' || c == '{' || c == '\'' || c == '"' || c == '-' || c == '.'
}

/// Index of the first trigger char of `hay` at or after `from` (`hay.len()`
/// when there is none).
pub fn next_trigger(hay: &[char], from: usize) -> (r: usize)
    requires
        from <= hay@.len(),
    ensures
        from <= r <= hay@.len(),
        forall|k: int| from <= k < r ==> !is_trigger_spec(#[trigger] hay@[k]),
        r < hay@.len() ==> is_trigger_spec(hay@[r as int]),
{
    let mut j = from;
    while j < hay.len() && !is_trigger(hay[j])
        invariant
            from <= j <= hay@.len(),
            forall|k: int| from <= k < j ==> !is_trigger_spec(#[trigger] hay@[k]),
        decreases hay@.len() - j,
    {
        j = j + 1;
    }
    j
}

/// The lowercase a reference id takes for `c`: its Unicode lowercase
/// mapping, or `c` itself where that mapping is empty.
pub open spec fn id_lower(c: char) -> Seq<char> {
    if uni_lowercase(c).len() == 0 {
        seq![c]
    } else {
        uni_lowercase(c)
    }
}

/// The normalized id of `s` so far, and whether whitespace was last seen
/// (before anything, it counts as seen).
pub open spec fn norm_state(s: Seq<char>) -> (Seq<char>, bool)
    decreases s.len(),
{
    if s.len() == 0 {
        (Seq::empty(), true)
    } else {
        let (o, p) = norm_state(s.drop_last());
        let c = s.last();
        if is_uni_ws(c) {
            (o, true)
        } else {
            let o2 = if p && o.len() > 0 {
                o.push(' ')
            } else {
                o
            };
            (o2 + id_lower(c), false)
        }
    }
}

/// Normalize a link-reference id the way kramdown does: lowercase, with
/// internal whitespace runs collapsed to one space and the ends trimmed.
pub fn normalize_ref_id(s: &[char]) -> (r: Vec<char>)
    ensures
        r@ == norm_state(s@).0,
        r@.len() == 0 ==> forall|k: int| 0 <= k < s@.len() ==> is_uni_ws(#[trigger] s@[k]),
{
    let mut out: Vec<char> = Vec::new();
    let mut prev_ws = true;
    let mut i: usize = 0;
    while i < s.len()
        invariant
            i <= s@.len(),
            out@.len() == 0 ==> forall|k: int| 0 <= k < i ==> is_uni_ws(#[trigger] s@[k]),
            (out@, prev_ws) == norm_state(s@.subrange(0, i as int)),
        decreases s@.len() - i,
    {
        proof {
            assert(s@.subrange(0, i + 1).drop_last() =~= s@.subrange(0, i as int));
        }
        let c = s[i];
        if uni_ws(c) {
            prev_ws = true;
        } else {
            if prev_ws && out.len() > 0 {
                out.push(' ');
            }
            let low = to_lowercase(c);
            if low.len() == 0 {
                // A char with an empty lowercase mapping does not occur; keep
                // the char itself so the id stays non-empty.
                out.push(c);
            } else {
                push_all(&mut out, low.as_slice());
            }
            prev_ws = false;
        }
        i = i + 1;
    }
    assert(s@.subrange(0, s@.len() as int) =~= s@);
    out
}

/// Index of the first definition at or after `from` with id `id`.
pub open spec fn first_def(defs: Seq<LinkDef>, id: Seq<char>, from: int) -> Option<int>
    decreases defs.len() - from,
{
    if from < 0 || from >= defs.len() {
        None
    } else if defs[from].id@ == id {
        Some(from)
    } else {
        first_def(defs, id, from + 1)
    }
}

/// The first definition with id `id`: its url and title.
pub fn lookup_def(defs: &Vec<LinkDef>, id: &[char]) -> (r: Option<(Vec<char>, Option<Vec<char>>)>)
    ensures
        match r {
            Some((u, t)) => exists|i: int|
                0 <= i < defs@.len() && #[trigger] defs@[i].id@ == id@ && defs@[i].url@ == u@
                    && (forall|j: int| 0 <= j < i ==> defs@[j].id@ != id@),
            None => forall|i: int| 0 <= i < defs@.len() ==> #[trigger] defs@[i].id@ != id@,
        },
        match first_def(defs@, id@, 0) {
            None => r is None,
            Some(i) => r matches Some((u, t)) && u@ == defs@[i].url@ && opt_vec(t) == opt_vec(
                defs@[i].title,
            ),
        },
{
    let mut i: usize = 0;
    while i < defs.len()
        invariant
            i <= defs@.len(),
            forall|j: int| 0 <= j < i ==> #[trigger] defs@[j].id@ != id@,
            first_def(defs@, id@, 0) == first_def(defs@, id@, i as int),
        decreases defs@.len() - i,
    {
        if eq_chars(defs[i].id.as_slice(), id) {
            let url = to_vec(defs[i].url.as_slice());
            let title = match &defs[i].title {
                Some(t) => Some(to_vec(t.as_slice())),
                None => None,
            };
            assert(defs@[i as int].id@ == id@);
            return Some((url, title));
        }
        i = i + 1;
    }
    None
}

/// Ruby `/\s/`-style ASCII whitespace of `u8::is_ascii_whitespace` (no VT).
pub open spec fn is_u8_ws(c: char) -> bool {
    c == ' ' || c == '\t' || c == '\n' || c == '\x0c' || c == '\r'
}

/// Where a title opens: the first `j` in `from..len - 1` holding the quote
/// `q` right after a whitespace char.
pub open spec fn title_open(s: Seq<char>, q: char, j: int) -> Option<int>
    decreases s.len() - j,
{
    if j < 1 || j >= s.len() - 1 {
        None
    } else if s[j] == q && is_u8_ws(s[j - 1]) {
        Some(j)
    } else {
        title_open(s, q, j + 1)
    }
}

/// The `(href, title)` of a destination body: without a closing quote the
/// trimmed body (no quote anywhere), else the trimmed text before the
/// opening quote and the text between the quotes (neither holding a stray
/// quote).
pub open spec fn href_title_spec(inner: Seq<char>) -> Option<(Seq<char>, Option<Seq<char>>)> {
    if inner.len() == 0 {
        Some((Seq::empty(), None))
    } else {
        let q = inner.last();
        if q != '"' && q != '\'' {
            if inner.contains('"') || inner.contains('\'') {
                None
            } else {
                Some((strip_both(inner, true), None))
            }
        } else {
            match title_open(inner, q, 1) {
                None => None,
                Some(o) => {
                    let href = strip_both(inner.subrange(0, o), true);
                    let title = inner.subrange(o + 1, inner.len() - 1);
                    if title.contains(q) || href.contains('"') || href.contains('\'') {
                        None
                    } else {
                        Some((href, Some(title)))
                    }
                },
            }
        }
    }
}

/// Split a link destination `(…)` body into `(href, optional title)`,
/// matching kramdown: `url`, `url "title"`, `url 'title'`. A bare space
/// with no quote stays in the href. `None` when a quote is present but the
/// title is malformed.
pub fn split_href_title(inner: &[char]) -> (r: Option<(Vec<char>, Option<Vec<char>>)>)
    ensures
        r matches Some((h, t)) ==> h@.len() <= inner@.len(),
        match href_title_spec(inner@) {
            None => r is None,
            Some((h, t)) => r matches Some((h2, t2)) && h2@ == h && opt_vec(t2) == t,
        },
{
    if inner.len() == 0 {
        return Some((Vec::new(), None));
    }
    let last = inner[inner.len() - 1];
    if last != '"' && last != '\'' {
        if contains_char(inner, '"') || contains_char(inner, '\'') {
            return None;
        }
        let h = trim_sp(inner, true);
        proof {
            let a = choose|a: int| #[trigger] crate::text::sp_trimmed_at(inner@, h@, a, true);
        }
        return Some((to_vec(h), None));
    }
    let q = last;
    let mut open: Option<usize> = None;
    let mut j: usize = 1;
    while j < inner.len() - 1 && open.is_none()
        invariant
            1 <= j <= inner@.len(),
            inner@.len() > 0,
            q == inner@.last(),
            open matches Some(o) ==> 1 <= o < inner@.len() - 1 && title_open(inner@, q, 1) == Some(
                o as int,
            ),
            open is None ==> title_open(inner@, q, 1) == title_open(inner@, q, j as int),
        decreases inner@.len() - j, if open is None { 1int } else { 0int },
    {
        let p = inner[j - 1];
        if inner[j] == q && (p == ' ' || p == '\t' || p == '\n' || p == '\x0c' || p == '\r') {
            open = Some(j);
        } else {
            j = j + 1;
        }
    }
    let open = match open {
        Some(o) => o,
        None => {
            return None;
        },
    };
    let href = trim_sp(&inner[0..open], true);
    let title = &inner[open + 1..inner.len() - 1];
    if contains_char(title, q) || contains_char(href, '"') || contains_char(href, '\'') {
        return None;
    }
    proof {
        let a = choose|a: int| #[trigger] crate::text::sp_trimmed_at(inner@.subrange(0, open as int), href@, a, true);
    }
    Some((to_vec(href), Some(to_vec(title))))
}

/// From `k` on, the first quote `q` followed (past spaces and tabs) by
/// `)`: the position of that `)`.
pub open spec fn title_close(s: Seq<char>, q: char, k: int) -> Option<int>
    decreases s.len() - k,
{
    if k < 0 || k >= s.len() {
        None
    } else if s[k] == q && crate::text::lead_run(s, k + 1, true) < s.len() && s[crate::text::lead_run(
        s,
        k + 1,
        true,
    )] == ')' {
        Some(crate::text::lead_run(s, k + 1, true))
    } else {
        title_close(s, q, k + 1)
    }
}

/// The `)` closing a destination scanned from `j` at paren depth `depth`:
/// parens nest, and a quote after whitespace that a closing quote and `)`
/// follow ends it there.
pub open spec fn dest_close_spec(s: Seq<char>, j: int, depth: int) -> Option<int>
    decreases s.len() - j,
{
    if j < 0 || j >= s.len() {
        None
    } else {
        let c = s[j];
        let t = if (c == '"' || c == '\'') && j > 0 && is_u8_ws(s[j - 1]) {
            title_close(s, c, j + 1)
        } else {
            None
        };
        if t is Some {
            t
        } else if c == '(' {
            dest_close_spec(
                s,
                j + 1,
                if depth < usize::MAX {
                    depth + 1
                } else {
                    depth
                },
            )
        } else if c == ')' {
            if depth == 0 {
                Some(j)
            } else {
                dest_close_spec(s, j + 1, depth - 1)
            }
        } else {
            dest_close_spec(s, j + 1, depth)
        }
    }
}

fn title_close_at(s: &[char], q: char, from: usize) -> (r: Option<usize>)
    requires
        from <= s@.len(),
    ensures
        r matches Some(m) ==> m < s@.len() && s@[m as int] == ')',
        match title_close(s@, q, from as int) {
            None => r is None,
            Some(m) => r matches Some(m2) && m2 == m,
        },
{
    let mut k = from;
    while k < s.len()
        invariant
            from <= k <= s@.len(),
            title_close(s@, q, from as int) == title_close(s@, q, k as int),
        decreases s@.len() - k,
    {
        if s[k] == q {
            let mut m = k + 1;
            while m < s.len() && (s[m] == ' ' || s[m] == '\t')
                invariant
                    k < m <= s@.len(),
                    crate::text::lead_run(s@, k + 1, true) == crate::text::lead_run(s@, m as int, true),
                decreases s@.len() - m,
            {
                m = m + 1;
            }
            if m < s.len() && s[m] == ')' {
                return Some(m);
            }
        }
        k = k + 1;
    }
    None
}

/// The closing `)` of an inline link destination starting at `s[0]`:
/// parens nest, and a quote after whitespace opens a title whose matching
/// quote (followed only by spaces/tabs) precedes the closing `)`.
pub fn dest_close(s: &[char]) -> (r: Option<usize>)
    ensures
        r matches Some(k) ==> k < s@.len() && s@[k as int] == ')',
        match dest_close_spec(s@, 0, 0) {
            None => r is None,
            Some(k) => r matches Some(k2) && k2 == k,
        },
{
    let mut depth: usize = 0;
    let mut j: usize = 0;
    while j < s.len()
        invariant
            j <= s@.len(),
            dest_close_spec(s@, 0, 0) == dest_close_spec(s@, j as int, depth as int),
        decreases s@.len() - j,
    {
        let c = s[j];
        if (c == '"' || c == '\'') && j > 0 && (s[j - 1] == ' ' || s[j - 1] == '\t' || s[j - 1]
            == '\n' || s[j - 1] == '\x0c' || s[j - 1] == '\r') {
            match title_close_at(s, c, j + 1) {
                Some(m) => {
                    return Some(m);
                },
                None => {},
            }
        }
        if c == '(' {
            if depth < usize::MAX {
                depth = depth + 1;
            }
        } else if c == ')' {
            if depth == 0 {
                return Some(j);
            }
            depth = depth - 1;
        }
        j = j + 1;
    }
    None
}

/// `s[..e]` without its trailing underscores: where they start.
pub open spec fn trail_us(s: Seq<char>, e: int) -> int
    decreases e,
{
    if 0 < e <= s.len() && s[e - 1] == '_' {
        trail_us(s, e - 1)
    } else {
        e
    }
}

/// `s[..e]` without its trailing alphabetic chars: where they start.
pub open spec fn trail_alpha(s: Seq<char>, e: int) -> int
    decreases e,
{
    if 0 < e <= s.len() && uni_alphabetic(s[e - 1]) {
        trail_alpha(s, e - 1)
    } else {
        e
    }
}

/// `pre` ends in a word (letters, optionally `x-` joined, then
/// underscores); with no local text, the char before it is a letter.
pub open spec fn intraword_spec(pre: Seq<char>, prev: Option<char>) -> bool {
    if pre.len() == 0 {
        match prev {
            Some(c) => uni_alphabetic(c),
            None => false,
        }
    } else {
        let e = trail_us(pre, pre.len() as int);
        let e2 = trail_alpha(pre, e);
        e2 < e || (e2 > 0 && pre[e2 - 1] == '-' && e2 - 1 > 0 && uni_alphabetic(pre[e2 - 2]))
    }
}

/// kramdown's intra-word underscore bail:
/// `pre_match =~ /[[:alpha:]]-?[[:alpha:]]*_*\z/`. `pre` is the local
/// text before the delimiter; at a recursion boundary (`pre` empty) the
/// cross-span `prev` char approximates the lookback.
pub fn underscore_intraword(pre: &[char], prev: Option<char>) -> (r: bool)
    ensures
        r == intraword_spec(pre@, prev),
{
    if pre.len() == 0 {
        return match prev {
            Some(c) => is_alphabetic(c),
            None => false,
        };
    }
    // trim trailing underscores
    let mut e = pre.len();
    while e > 0 && pre[e - 1] == '_'
        invariant
            e <= pre@.len(),
            trail_us(pre@, pre@.len() as int) == trail_us(pre@, e as int),
        decreases e,
    {
        e = e - 1;
    }
    // trim trailing alphabetic chars
    let mut e2 = e;
    while e2 > 0 && is_alphabetic(pre[e2 - 1])
        invariant
            e2 <= e <= pre@.len(),
            e == trail_us(pre@, pre@.len() as int),
            trail_alpha(pre@, e as int) == trail_alpha(pre@, e2 as int),
        decreases e2,
    {
        e2 = e2 - 1;
    }
    if e2 < e {
        return true;
    }
    if e2 > 0 && pre[e2 - 1] == '-' {
        let b = e2 - 1;
        return b > 0 && is_alphabetic(pre[b - 1]);
    }
    false
}

/// Span element kinds — kramdown blocks same-type nesting and gates the
/// strong→em retry on the immediate parent.
#[derive(Clone, Copy, PartialEq, Eq, Structural)]
pub enum Elem {
    Em,
    Strong,
    Del,
    Link,
}

/// The emphasis close a `parse_spans_until` invocation watches for:
/// `delim_len` (1 or 2) copies of `type_char`.
#[derive(Clone, Copy)]
pub struct Stop {
    pub type_char: char,
    pub delim_len: usize,
    pub elem: Elem,
}

/// Whether `s[i..]` opens with `stop`'s delimiter run.
fn matches_at(stop: &Stop, s: &[char], i: usize) -> (r: bool)
    requires
        i <= s@.len(),
    ensures
        r ==> i + stop.delim_len <= s@.len(),
        r == (i + stop.delim_len <= s@.len() && forall|k: int|
            i <= k < i + stop.delim_len ==> #[trigger] s@[k] == stop.type_char),
{
    if stop.delim_len > s.len() - i {
        return false;
    }
    let mut k: usize = 0;
    while k < stop.delim_len
        invariant
            k <= stop.delim_len,
            i + stop.delim_len <= s@.len(),
            s@.len() <= usize::MAX,
            forall|m: int| i <= m < i + k ==> #[trigger] s@[m] == stop.type_char,
        decreases stop.delim_len - k,
    {
        if s[i + k] != stop.type_char {
            return false;
        }
        k = k + 1;
    }
    true
}

/// Move the accumulated text (if any) into `chain` as a `Text` span.
fn flush(acc: &mut Vec<char>, chain: &mut Vec<Span>)
    ensures
        final(acc)@ == Seq::<char>::empty(),
        spans_v(final(chain)@) == flush_v(spans_v(old(chain)@), old(acc)@),
{
    if acc.len() > 0 {
        let mut t: Vec<char> = Vec::new();
        std::mem::swap(acc, &mut t);
        push_span(chain, Span::Text(t));
    }
    assert(acc@ =~= Seq::<char>::empty());
}

/// Append one span.
fn push_span(chain: &mut Vec<Span>, sp: Span)
    ensures
        spans_v(final(chain)@) == spans_v(old(chain)@).push(span_v(sp)),
{
    let ghost c0 = chain@;
    let ghost g = sp;
    chain.push(sp);
    proof {
        lemma_spans_v_push(c0, g);
    }
}

/// Append a verbatim HTML span.
fn push_raw_str(chain: &mut Vec<Span>, s: &str)
    ensures
        spans_v(final(chain)@) == spans_v(old(chain)@).push(SpanV::Raw(s@)),
{
    let mut v: Vec<char> = Vec::new();
    crate::text::push_str(&mut v, s);
    push_span(chain, Span::Raw(v));
}

/// Append a span sequence.
fn append_spans(chain: &mut Vec<Span>, more: Vec<Span>)
    ensures
        spans_v(final(chain)@) == spans_v(old(chain)@) + spans_v(more@),
{
    let ghost c0 = chain@;
    let ghost m0 = more@;
    let mut more = more;
    chain.append(&mut more);
    proof {
        lemma_spans_v_add(c0, m0);
    }
}

/// Text the span parser passes through unchanged: no markup, typography
/// or escape trigger, and no newline right after two spaces (so no hard
/// line break).
pub open spec fn plain_text(t: Seq<char>) -> bool {
    forall|k: int|
        0 <= k < t.len() ==> !is_trigger_spec(#[trigger] t[k]) && (t[k] == '\n' ==> !(2 <= k
            && t[k - 1] == ' ' && t[k - 2] == ' '))
}

/// A watched close's position as an integer.
pub open spec fn opt_pos(p: Option<usize>) -> Option<int> {
    match p {
        Some(k) => Some(k as int),
        None => None,
    }
}

/// One step as the model states it: the new position with the spans,
/// pending text and previous char after it, or `Err` for a decline.
pub open spec fn step_out(
    r: Result<usize, Error>,
    chain: Seq<Span>,
    acc: Seq<char>,
    prev: Option<char>,
) -> Result<ScanState, &'static str> {
    match r {
        Ok(j) => Ok((j as int, spans_v(chain), acc, prev)),
        Err(Error::Declined(w)) => Err(w),
    }
}

/// `r` is a decline naming `w`.
pub open spec fn declines_as<T>(r: Result<T, Error>, w: &'static str) -> bool {
    r matches Err(Error::Declined(x)) && x == w
}

/// Plain text scans to itself as one text span (none when empty).
pub proof fn lemma_scan_plain(defs: Seq<LinkDef>, text: Seq<char>, in_em: bool, in_strong: bool, parent: Option<Elem>)
    requires
        plain_text(text),
    ensures
        scan_spec(defs, text, None, in_em, in_strong, parent) == Ok::<(Seq<SpanV>, Option<int>), &'static str>(
            (if text.len() > 0 {
                seq![SpanV::Text(text)]
            } else {
                Seq::empty()
            }, None),
        ),
{
    let n = text.len() as int;
    if n > 0 {
        assert(!is_trigger_spec(text[0]));
        lemma_trig_from(text, 1, n);
        lemma_plain_from(text, n, 0);
        assert(Seq::<char>::empty() + text.subrange(0, n) =~= text);
        assert(step_spec(defs, text, 0, in_em, in_strong, parent, Seq::empty(), Seq::empty(), None)
            == Ok::<ScanState, &'static str>((n, Seq::<SpanV>::empty(), text, Some(text[n - 1]))));
    }
}

proof fn lemma_plain_from(text: Seq<char>, n: int, p: int)
    requires
        plain_text(text),
        n == text.len(),
        0 <= p <= n,
    ensures
        plain_from(text, 0, n, p, 0, Seq::empty(), Seq::empty()) == (
            Seq::<SpanV>::empty(),
            Seq::<char>::empty() + text.subrange(0, n),
        ),
    decreases n - p,
{
    if p < n {
        if text[p] == '\n' {
            if p > 0 && text[p - 1] == ' ' {
                assert(sp_count(text, 0, p - 1) == 0);
            }
            assert(sp_count(text, 0, p) < 2);
        }
        lemma_plain_from(text, n, p + 1);
    }
}

/// Parse `text` into spans.
pub fn parse_spans(defs: &Vec<LinkDef>, text: &[char]) -> (r: Result<Vec<Span>, Error>)
    ensures
        match scan_spec(defs@, text@, None, false, false, None) {
            Err(w) => declines_as(r, w),
            Ok((sp, _)) => r matches Ok(v) && spans_v(v@) == sp,
        },
        plain_text(text@) ==> (r matches Ok(spans) && (text@.len() == 0 ==> spans@.len() == 0) && (
        text@.len() > 0 ==> spans@.len() == 1 && (spans@[0] matches Span::Text(t) && t@ == text@))),
    decreases text@.len(), 6nat,
{
    match parse_spans_until(defs, text, None, false, false, None) {
        Ok((spans, _)) => Ok(spans),
        Err(e) => Err(e),
    }
}

/// Recursive-descent span parser: scans `text`, optionally watching for an
/// emphasis `stop` delimiter. Returns the spans plus `Some(pos)` where the
/// accepted close begins, or `None` if the text ran out (the caller then
/// reverts to literal delimiters, like kramdown's `revert_pos`).
pub fn parse_spans_until(
    defs: &Vec<LinkDef>,
    text: &[char],
    stop: Option<Stop>,
    in_em: bool,
    in_strong: bool,
    parent: Option<Elem>,
) -> (r: Result<(Vec<Span>, Option<usize>), Error>)
    ensures
        r matches Ok((_, Some(p))) ==> stop matches Some(st) && p + st.delim_len <= text@.len(),
        match scan_spec(defs@, text@, stop, in_em, in_strong, parent) {
            Err(w) => declines_as(r, w),
            Ok((sp, p)) => r matches Ok((v, p2)) && spans_v(v@) == sp && opt_pos(p2) == p,
        },
        (stop is None && plain_text(text@)) ==> (r matches Ok((spans, None)) && (text@.len() == 0
            ==> spans@.len() == 0) && (text@.len() > 0 ==> spans@.len() == 1 && (spans@[0] matches Span::Text(
            t,
        ) && t@ == text@))),
    decreases text@.len(), 5nat,
{
    let mut chain: Vec<Span> = Vec::new();
    let mut acc: Vec<char> = Vec::new();
    let n = text.len();
    let mut i: usize = 0;
    let mut prev: Option<char> = None;
    proof {
        assert(spans_v(chain@) =~= Seq::<SpanV>::empty());
        if stop is None && plain_text(text@) {
            lemma_scan_plain(defs@, text@, in_em, in_strong, parent);
        }
    }
    while i < n
        invariant
            n == text@.len(),
            i <= n,
            scan_spec(defs@, text@, stop, in_em, in_strong, parent) == scan_from(
                defs@,
                text@,
                stop,
                in_em,
                in_strong,
                parent,
                i as int,
                spans_v(chain@),
                acc@,
                prev,
            ),
        decreases n - i,
    {
        proof {
            lemma_spans_v_index(chain@);
        }
        if let Some(st) = stop {
            if matches_at(&st, text, i) {
                let content_nonempty = chain.len() > 0 || acc.len() > 0;
                let prev_ok = match prev {
                    Some(c) => !ascii_ws(c),
                    None => false,
                };
                let em_ok = st.elem != Elem::Em || run_at(text, i, st.type_char) != 2;
                let underscore_ok = st.type_char != '_' || !(i + st.delim_len < n
                    && is_alphanumeric(text[i + st.delim_len]));
                if content_nonempty && prev_ok && em_ok && underscore_ok {
                    flush(&mut acc, &mut chain);
                    return Ok((chain, Some(i)));
                }
            }
        }
        let j = match scan_step(defs, text, i, in_em, in_strong, parent, &mut chain, &mut acc, &mut prev) {
            Ok(j) => j,
            Err(e) => {
                return Err(e);
            },
        };
        i = j;
    }
    flush(&mut acc, &mut chain);
    proof {
        lemma_spans_v_index(chain@);
        if stop is None && plain_text(text@) && n > 0 {
            assert(spans_v(chain@)[0] == SpanV::Text(text@));
            assert(chain@[0] is Text);
        }
    }
    Ok((chain, None))
}

/// `run_len` at a position inside the text, with its model.
fn run_at(s: &[char], i: usize, c: char) -> (n: usize)
    requires
        i < s@.len(),
    ensures
        n == run_spec(s@, i as int, c),
        i + n <= s@.len(),
{
    let n = run_len(s, i, c);
    proof {
        lemma_run_spec(s@, i as int, c, n as int);
    }
    n
}

fn escapable(c: char) -> (r: bool)
    ensures
        r == is_escapable(c),
{
    c == '\\' || c == '.' || c == '*' || c == '_' || c == '+' || c == '`' || c == '<' || c == '>'
        || c == '(' || c == ')' || c == '[' || c == ']' || c == '{' || c == '}' || c == '#' || c
        == '!' || c == ':' || c == '|' || c == '"' || c == '\'' || c == '$' || c == '=' || c == '-'
}

/// A backslash with a char after it.
fn esc_at(
    text: &[char],
    i: usize,
    chain: &mut Vec<Span>,
    acc: &mut Vec<char>,
    prev: &mut Option<char>,
) -> (r: usize)
    requires
        i + 1 < text@.len(),
    ensures
        i < r <= text@.len(),
        Ok::<ScanState, &'static str>((r as int, spans_v(final(chain)@), final(acc)@, *final(prev)))
            == esc_step(text@, i as int, spans_v(old(chain)@), old(acc)@),
{
    let n = text.len();
    let next = text[i + 1];
    if next == '\n' {
        flush(acc, chain);
        push_raw_str(chain, "<br />");
        *prev = Some('\n');
        i + 1
    } else if escapable(next) {
        acc.push(next);
        *prev = Some(next);
        i + 2
    } else {
        acc.push('\\');
        *prev = Some('\\');
        i + 1
    }
}

/// A backtick run.
fn code_at(
    text: &[char],
    i: usize,
    chain: &mut Vec<Span>,
    acc: &mut Vec<char>,
    prev: &mut Option<char>,
) -> (r: usize)
    requires
        i < text@.len(),
        text@[i as int] == '`',
    ensures
        i < r <= text@.len(),
        Ok::<ScanState, &'static str>((r as int, spans_v(final(chain)@), final(acc)@, *final(prev)))
            == code_step(text@, i as int, spans_v(old(chain)@), old(acc)@, *old(prev)),
{
    let n = text.len();
    let open = run_at(text, i, '`');
    let rest_start = i + open;
    let at_ws_start = match *prev {
        None => true,
        Some(p) => uni_ws(p),
    };
    if open == 1 && at_ws_start && rest_start < n && uni_ws(text[rest_start]) {
        acc.push('`');
        *prev = Some('`');
        return i + 1;
    }
    let rest = &text[rest_start..n];
    let delim = &text[i..rest_start];
    let found = find_seq(rest, delim);
    proof {
        lemma_first_occ(rest@, delim@, found);
    }
    match found {
        None => {
            push_all(acc, delim);
            *prev = Some('`');
            rest_start
        },
        Some(close_rel) => {
            flush(acc, chain);
            let mut a = rest_start;
            let mut b = rest_start + close_rel;
            if open > 1 {
                if a < b && text[a] == ' ' {
                    a = a + 1;
                }
                if a < b && text[b - 1] == ' ' {
                    b = b - 1;
                }
            }
            push_span(chain, Span::Code(to_vec(&text[a..b])));
            *prev = Some('`');
            rest_start + close_rel + open
        },
    }
}

/// An emphasis delimiter run.
fn emph_at(
    defs: &Vec<LinkDef>,
    text: &[char],
    i: usize,
    in_em: bool,
    in_strong: bool,
    parent: Option<Elem>,
    chain: &mut Vec<Span>,
    acc: &mut Vec<char>,
    prev: &mut Option<char>,
) -> (r: Result<usize, Error>)
    requires
        i < text@.len(),
        text@[i as int] == '*' || text@[i as int] == '_',
    ensures
        r matches Ok(j) ==> i < j <= text@.len(),
        step_out(r, final(chain)@, final(acc)@, *final(prev)) == emph_step(
            defs@,
            text@,
            i as int,
            in_em,
            in_strong,
            parent,
            spans_v(old(chain)@),
            old(acc)@,
            *old(prev),
        ),
    decreases text@.len(), 3nat,
{
    let n = text.len();
    let c = text[i];
    let run = run_at(text, i, c);
    let take: usize = if run >= 2 {
        2
    } else {
        1
    };
    if c == '_' && underscore_intraword(&text[0..i], *prev) {
        push_all(acc, &text[i..i + take]);
        *prev = Some('_');
        return Ok(i + take);
    }
    let elem = if take == 2 {
        Elem::Strong
    } else {
        Elem::Em
    };
    let same_type = (elem == Elem::Em && in_em) || (elem == Elem::Strong && in_strong);
    let opens_on_space = i + take < n && ascii_ws(text[i + take]);
    if same_type || opens_on_space {
        push_all(acc, &text[i..i + take]);
        *prev = Some(c);
        return Ok(i + take);
    }
    let attempt = Stop { type_char: c, delim_len: take, elem };
    let (inner, close) = match parse_spans_until(
        defs,
        &text[i + take..n],
        Some(attempt),
        in_em || elem == Elem::Em,
        in_strong || elem == Elem::Strong,
        Some(elem),
    ) {
        Ok(x) => x,
        Err(e) => {
            return Err(e);
        },
    };
    if let Some(close) = close {
        flush(acc, chain);
        let no_ial: Vec<Attr> = Vec::new();
        proof {
            assert(attrs_view(no_ial@) =~= Seq::empty());
        }
        if take == 2 {
            push_span(chain, Span::Strong(inner, no_ial));
        } else {
            push_span(chain, Span::Em(inner, no_ial));
        }
        *prev = Some(c);
        return Ok(i + take + close + take);
    }
    if elem == Elem::Strong && parent != Some(Elem::Em) {
        let retry = Stop { type_char: c, delim_len: 1, elem: Elem::Em };
        let (inner2, close2) = match parse_spans_until(
            defs,
            &text[i + 1..n],
            Some(retry),
            true,
            in_strong,
            Some(Elem::Em),
        ) {
            Ok(x) => x,
            Err(e) => {
                return Err(e);
            },
        };
        if let Some(close2) = close2 {
            flush(acc, chain);
            let no_ial: Vec<Attr> = Vec::new();
            proof {
                assert(attrs_view(no_ial@) =~= Seq::empty());
            }
            push_span(chain, Span::Em(inner2, no_ial));
            *prev = Some(c);
            return Ok(i + 1 + close2 + 1);
        }
    }
    push_all(acc, &text[i..i + take]);
    *prev = Some(c);
    Ok(i + take)
}

/// A `[`: a link or a literal bracket.
fn bracket_at(
    defs: &Vec<LinkDef>,
    text: &[char],
    i: usize,
    in_em: bool,
    in_strong: bool,
    parent: Option<Elem>,
    chain: &mut Vec<Span>,
    acc: &mut Vec<char>,
    prev: &mut Option<char>,
) -> (r: Result<usize, Error>)
    requires
        i < text@.len(),
    ensures
        r matches Ok(j) ==> i < j <= text@.len(),
        step_out(r, final(chain)@, final(acc)@, *final(prev)) == bracket_step(
            defs@,
            text@,
            i as int,
            in_em,
            in_strong,
            parent,
            spans_v(old(chain)@),
            old(acc)@,
        ),
    decreases text@.len(), 3nat,
{
    let n = text.len();
    flush(acc, chain);
    if parent != Some(Elem::Link) {
        let rest = &text[i..n];
        proof {
            if text_close(rest@, 1, 0) is Some {
                lemma_text_close_bounds(rest@, 1, 0);
            }
        }
        match parse_link(defs, rest, in_em, in_strong) {
            Err(e) => {
                return Err(e);
            },
            Ok(Some((spans, href, title, len))) => {
                let no_ial: Vec<Attr> = Vec::new();
                proof {
                    assert(attrs_view(no_ial@) =~= Seq::empty());
                }
                push_span(chain, Span::Link { spans, href, title, ial: no_ial });
                *prev = Some(')');
                return Ok(i + len);
            },
            Ok(None) => {},
        }
    }
    acc.push('[');
    *prev = Some('[');
    proof {
        assert(acc@ =~= seq!['[']);
    }
    Ok(i + 1)
}

/// `![`: an image or a literal `!`.
fn image_at(
    defs: &Vec<LinkDef>,
    text: &[char],
    i: usize,
    chain: &mut Vec<Span>,
    acc: &mut Vec<char>,
    prev: &mut Option<char>,
) -> (r: Result<usize, Error>)
    requires
        i < text@.len(),
    ensures
        r matches Ok(j) ==> i < j <= text@.len(),
        step_out(r, final(chain)@, final(acc)@, *final(prev)) == image_step(
            defs@,
            text@,
            i as int,
            spans_v(old(chain)@),
            old(acc)@,
        ),
{
    let n = text.len();
    flush(acc, chain);
    match parse_image(defs, &text[i..n]) {
        Err(e) => Err(e),
        Ok(Some((src, alt, title, len))) => {
            let no_ial: Vec<Attr> = Vec::new();
            proof {
                assert(attrs_view(no_ial@) =~= Seq::empty());
            }
            push_span(chain, Span::Image { src, alt, title, ial: no_ial });
            *prev = Some(')');
            Ok(i + len)
        },
        Ok(None) => {
            acc.push('!');
            *prev = Some('!');
            proof {
                assert(acc@ =~= seq!['!']);
            }
            Ok(i + 1)
        },
    }
}

/// A `<`: an autolink, inline HTML, a decline, or a literal `<`.
fn angle_at(
    defs: &Vec<LinkDef>,
    text: &[char],
    i: usize,
    chain: &mut Vec<Span>,
    acc: &mut Vec<char>,
    prev: &mut Option<char>,
) -> (r: Result<usize, Error>)
    requires
        i < text@.len(),
    ensures
        r matches Ok(j) ==> i < j <= text@.len(),
        step_out(r, final(chain)@, final(acc)@, *final(prev)) == angle_step(
            defs@,
            text@,
            i as int,
            spans_v(old(chain)@),
            old(acc)@,
        ),
    decreases text@.len(), 3nat,
{
    let n = text.len();
    let next_alpha = i + 1 < n && ascii_alpha(text[i + 1]);
    if let Some((html, len)) = autolink_at(&text[i..n]) {
        flush(acc, chain);
        push_span(chain, Span::Raw(html));
        *prev = Some('>');
        return Ok(i + len);
    }
    if next_alpha {
        let il = inline_at(&text[i..n]);
        proof {
            lemma_inline_fn(text@.subrange(i as int, n as int), il);
        }
        if let Some((el, len)) = il {
            flush(acc, chain);
            match el {
                Inline::Void(html) => push_span(chain, Span::Raw(html)),
                Inline::Raw(html) => push_span(chain, Span::Raw(html)),
                Inline::Markdown { open, content_start, content_end, close } => {
                    push_span(chain, Span::Raw(open));
                    let inner = match parse_spans(
                        defs,
                        &text[i + content_start..i + content_end],
                    ) {
                        Ok(v) => v,
                        Err(e) => {
                            return Err(e);
                        },
                    };
                    append_spans(chain, inner);
                    push_span(chain, Span::Raw(close));
                },
            }
            *prev = Some('>');
            return Ok(i + len);
        }
    }
    if i + 1 < n && (ascii_alpha(text[i + 1]) || text[i + 1] == '/' || text[i + 1] == '!') {
        return Err(declined("inline-html-or-autolink"));
    }
    if i + 1 < n && text[i + 1] == '<' {
        return Err(declined("guillemets"));
    }
    acc.push('<');
    *prev = Some('<');
    Ok(i + 1)
}

/// An `&`: an entity's char, a decline, or a literal `&`.
fn amp_at(
    text: &[char],
    i: usize,
    chain: &mut Vec<Span>,
    acc: &mut Vec<char>,
    prev: &mut Option<char>,
) -> (r: Result<usize, Error>)
    requires
        i < text@.len(),
        text@[i as int] == '&',
    ensures
        r matches Ok(j) ==> i < j <= text@.len(),
        step_out(r, final(chain)@, final(acc)@, *final(prev)) == amp_step(
            text@,
            i as int,
            spans_v(old(chain)@),
            old(acc)@,
        ),
{
    let n = text.len();
    let found = parse_entity(&text[i..n]);
    proof {
        lemma_entity_fn(text@.subrange(i as int, n as int), found);
    }
    match found {
        Some((cp, len)) => {
            if (cp == 0x26 || cp == 0x3C || cp == 0x3E) && text[i + 1] == '#' {
                return Err(declined("numeric-special-entity"));
            }
            match char_from_u32(cp) {
                Some(ch) => {
                    proof {
                        vstd::utf8::char_u32_cast(ch, cp);
                    }
                    acc.push(ch);
                    *prev = Some(ch);
                    Ok(i + len)
                },
                None => Err(declined("invalid-entity-codepoint")),
            }
        },
        None => {
            acc.push('&');
            *prev = Some('&');
            Ok(i + 1)
        },
    }
}

/// A `~~`: strikethrough, literal tildes, or a decline.
fn tilde_at(
    defs: &Vec<LinkDef>,
    text: &[char],
    i: usize,
    in_em: bool,
    in_strong: bool,
    parent: Option<Elem>,
    chain: &mut Vec<Span>,
    acc: &mut Vec<char>,
    prev: &mut Option<char>,
) -> (r: Result<usize, Error>)
    requires
        i + 1 < text@.len(),
        text@[i as int] == '~',
        text@[i + 1] == '~',
    ensures
        r matches Ok(j) ==> i < j <= text@.len(),
        step_out(r, final(chain)@, final(acc)@, *final(prev)) == tilde_step(
            defs@,
            text@,
            i as int,
            in_em,
            in_strong,
            parent,
            spans_v(old(chain)@),
            old(acc)@,
        ),
    decreases text@.len(), 3nat,
{
    let n = text.len();
    let run = run_at(text, i, '~');
    if run != 2 {
        if strike_could_close(text, i, run) {
            return Err(declined("strikethrough"));
        }
        push_all(acc, &text[i..i + run]);
        *prev = Some('~');
        return Ok(i + run);
    }
    let opens_on_space = i + 2 < n && ascii_ws(text[i + 2]);
    if parent == Some(Elem::Del) || opens_on_space {
        acc.push('~');
        acc.push('~');
        *prev = Some('~');
        proof {
            assert(acc@ =~= old(acc)@ + seq!['~', '~']);
        }
        return Ok(i + 2);
    }
    let attempt = Stop { type_char: '~', delim_len: 2, elem: Elem::Del };
    let (inner, close) = match parse_spans_until(
        defs,
        &text[i + 2..n],
        Some(attempt),
        in_em,
        in_strong,
        Some(Elem::Del),
    ) {
        Ok(x) => x,
        Err(e) => {
            return Err(e);
        },
    };
    if let Some(close) = close {
        flush(acc, chain);
        push_span(chain, Span::Del(inner));
        *prev = Some('~');
        return Ok(i + 2 + close + 2);
    }
    acc.push('~');
    acc.push('~');
    *prev = Some('~');
    proof {
        assert(acc@ =~= old(acc)@ + seq!['~', '~']);
    }
    Ok(i + 2)
}

/// `{:`: a span IAL merged into the span before it, or a decline.
fn ial_at(
    text: &[char],
    i: usize,
    chain: &mut Vec<Span>,
    acc: &mut Vec<char>,
    prev: &mut Option<char>,
) -> (r: Result<usize, Error>)
    requires
        i + 1 < text@.len(),
    ensures
        r matches Ok(j) ==> i < j <= text@.len(),
        step_out(r, final(chain)@, final(acc)@, *final(prev)) == ial_step(
            text@,
            i as int,
            spans_v(old(chain)@),
            old(acc)@,
            *old(prev),
        ),
{
    let n = text.len();
    proof {
        lemma_spans_v_index(chain@);
    }
    if !(i + 2 < n && text[i + 2] == ':') && acc.len() == 0 && chain.len() > 0 {
        proof {
            lemma_spans_v_drop_last(chain@);
        }
        let last_ok = match &chain[chain.len() - 1] {
            Span::Link { .. } => true,
            Span::Image { .. } => true,
            Span::Em(..) => true,
            Span::Strong(..) => true,
            _ => false,
        };
        if last_ok {
            let found = find_char_from(text, i + 2, '}');
            proof {
                lemma_first_at(text@, i + 2, '}', found);
            }
            if let Some(close_rel) = found {
                if let Some(attrs) = parse_ial(&text[i + 2..close_rel]) {
                    let ghost c0 = chain@;
                    let last = chain.pop().unwrap();
                    proof {
                        assert(chain@ == c0.drop_last());
                    }
                    let updated = match last {
                        Span::Link { spans, href, title, ial } => {
                            let mut ial = ial;
                            merge_ial(&mut ial, attrs);
                            Span::Link { spans, href, title, ial }
                        },
                        Span::Image { src, alt, title, ial } => {
                            let mut ial = ial;
                            merge_ial(&mut ial, attrs);
                            Span::Image { src, alt, title, ial }
                        },
                        Span::Em(sp, ial) => {
                            let mut ial = ial;
                            merge_ial(&mut ial, attrs);
                            Span::Em(sp, ial)
                        },
                        Span::Strong(sp, ial) => {
                            let mut ial = ial;
                            merge_ial(&mut ial, attrs);
                            Span::Strong(sp, ial)
                        },
                        other => other,
                    };
                    push_span(chain, updated);
                    return Ok(close_rel + 1);
                }
            }
        }
    }
    Err(declined("ial-or-extension"))
}

/// A quote: its curly form, or a decline.
fn quote_at(
    text: &[char],
    i: usize,
    chain: &mut Vec<Span>,
    acc: &mut Vec<char>,
    prev: &mut Option<char>,
) -> (r: Result<usize, Error>)
    requires
        i < text@.len(),
    ensures
        r matches Ok(j) ==> i < j <= text@.len(),
        step_out(r, final(chain)@, final(acc)@, *final(prev)) == quote_step(
            text@,
            i as int,
            spans_v(old(chain)@),
            old(acc)@,
            *old(prev),
        ),
{
    let n = text.len();
    let c = text[i];
    if run_at(text, i, c) > 1 {
        return Err(declined("quote-run"));
    }
    proof {
        lemma_spans_v_index(chain@);
    }
    if acc.len() == 0 && chain.len() > 0 {
        proof {
            lemma_spans_v_drop_last(chain@);
        }
        let after_code = match &chain[chain.len() - 1] {
            Span::Code(_) => true,
            _ => false,
        };
        if after_code {
            return Err(declined("quote-after-code"));
        }
    }
    let q = match smart_quote(*prev, c == '\'', &text[i + 1..n]) {
        Ok(q) => q,
        Err(e) => {
            return Err(e);
        },
    };
    acc.push(q);
    *prev = Some(q);
    Ok(i + 1)
}

/// A dash run: hyphen, en dash, em dash, or a decline.
fn dash_at(
    text: &[char],
    i: usize,
    chain: &mut Vec<Span>,
    acc: &mut Vec<char>,
    prev: &mut Option<char>,
) -> (r: Result<usize, Error>)
    requires
        i < text@.len(),
        text@[i as int] == '-',
    ensures
        r matches Ok(j) ==> i < j <= text@.len(),
        step_out(r, final(chain)@, final(acc)@, *final(prev)) == dash_step(
            text@,
            i as int,
            spans_v(old(chain)@),
            old(acc)@,
        ),
{
    let n = text.len();
    let dash_run = run_at(text, i, '-');
    let x = if dash_run == 1 {
        '-'
    } else if dash_run == 2 {
        NDASH
    } else if dash_run == 3 {
        MDASH
    } else {
        return Err(declined("dash-run"));
    };
    acc.push(x);
    *prev = Some(x);
    Ok(i + dash_run)
}

/// A dot run: dots, an ellipsis, or a decline.
fn dot_at(
    text: &[char],
    i: usize,
    chain: &mut Vec<Span>,
    acc: &mut Vec<char>,
    prev: &mut Option<char>,
) -> (r: Result<usize, Error>)
    requires
        i < text@.len(),
        text@[i as int] == '.',
    ensures
        r matches Ok(j) ==> i < j <= text@.len(),
        step_out(r, final(chain)@, final(acc)@, *final(prev)) == dot_step(
            text@,
            i as int,
            spans_v(old(chain)@),
            old(acc)@,
        ),
{
    let n = text.len();
    let dot_run = run_at(text, i, '.');
    if dot_run == 1 || dot_run == 2 {
        push_all(acc, &text[i..i + dot_run]);
        *prev = Some('.');
        Ok(i + dot_run)
    } else if dot_run == 3 {
        acc.push(HELLIP);
        *prev = Some(HELLIP);
        Ok(i + 3)
    } else {
        Err(declined("ellipsis-run"))
    }
}

/// Ordinary text up to the next trigger, with hard breaks.
fn plain_at(
    text: &[char],
    i: usize,
    chain: &mut Vec<Span>,
    acc: &mut Vec<char>,
    prev: &mut Option<char>,
) -> (r: usize)
    requires
        i < text@.len(),
    ensures
        i < r <= text@.len(),
        Ok::<ScanState, &'static str>((r as int, spans_v(final(chain)@), final(acc)@, *final(prev)))
            == plain_step(text@, i as int, spans_v(old(chain)@), old(acc)@),
{
    let n = text.len();
    let start = i;
    let run_end = next_trigger(text, i + 1);
    proof {
        lemma_trig_from(text@, i + 1, run_end as int);
    }
    let ghost c0 = spans_v(chain@);
    let ghost a0 = acc@;
    let mut seg = start;
    let mut p = start;
    while p < run_end
        invariant
            start <= seg <= p <= run_end <= n,
            start < run_end,
            n == text@.len(),
            plain_from(text@, start as int, run_end as int, start as int, start as int, c0, a0)
                == plain_from(
                text@,
                start as int,
                run_end as int,
                p as int,
                seg as int,
                spans_v(chain@),
                acc@,
            ),
        decreases run_end - p,
    {
        if text[p] == '\n' {
            let mut sp: usize = 0;
            while p > start + sp && text[p - 1 - sp] == ' '
                invariant
                    start + sp <= p,
                    p < n,
                    n == text@.len(),
                    sp_count(text@, start as int, p as int) == sp + sp_count(
                        text@,
                        start as int,
                        p - sp,
                    ),
                decreases p - sp,
            {
                sp = sp + 1;
            }
            if sp >= 2 && seg <= p - 2 {
                push_all(acc, &text[seg..p - 2]);
                flush(acc, chain);
                push_raw_str(chain, "<br />");
                seg = p;
            }
        }
        p = p + 1;
    }
    push_all(acc, &text[seg..run_end]);
    *prev = Some(text[run_end - 1]);
    run_end
}

/// One step of the span scan at `i`, chosen by the char there.
fn scan_step(
    defs: &Vec<LinkDef>,
    text: &[char],
    i: usize,
    in_em: bool,
    in_strong: bool,
    parent: Option<Elem>,
    chain: &mut Vec<Span>,
    acc: &mut Vec<char>,
    prev: &mut Option<char>,
) -> (r: Result<usize, Error>)
    requires
        i < text@.len(),
    ensures
        r matches Ok(j) ==> i < j <= text@.len(),
        step_out(r, final(chain)@, final(acc)@, *final(prev)) == step_spec(
            defs@,
            text@,
            i as int,
            in_em,
            in_strong,
            parent,
            spans_v(old(chain)@),
            old(acc)@,
            *old(prev),
        ),
    decreases text@.len(), 4nat,
{
    let n = text.len();
    let c = text[i];
    if c == '\\' && i + 1 < n {
        Ok(esc_at(text, i, chain, acc, prev))
    } else if c == '`' {
        Ok(code_at(text, i, chain, acc, prev))
    } else if c == '*' || c == '_' {
        emph_at(defs, text, i, in_em, in_strong, parent, chain, acc, prev)
    } else if c == '[' {
        bracket_at(defs, text, i, in_em, in_strong, parent, chain, acc, prev)
    } else if c == '!' && i + 1 < n && text[i + 1] == '[' {
        image_at(defs, text, i, chain, acc, prev)
    } else if c == '<' {
        angle_at(defs, text, i, chain, acc, prev)
    } else if c == '>' && i + 1 < n && text[i + 1] == '>' {
        Err(declined("guillemets"))
    } else if c == '&' {
        amp_at(text, i, chain, acc, prev)
    } else if c == '~' && i + 1 < n && text[i + 1] == '~' {
        tilde_at(defs, text, i, in_em, in_strong, parent, chain, acc, prev)
    } else if c == '{' && i + 1 < n && text[i + 1] == ':' {
        ial_at(text, i, chain, acc, prev)
    } else if c == '\'' || c == '"' {
        quote_at(text, i, chain, acc, prev)
    } else if c == '-' {
        dash_at(text, i, chain, acc, prev)
    } else if c == '.' {
        dot_at(text, i, chain, acc, prev)
    } else if is_trigger(c) {
        acc.push(c);
        *prev = Some(c);
        Ok(i + 1)
    } else {
        Ok(plain_at(text, i, chain, acc, prev))
    }
}

/// Whether a run of `run` (≥ 3) tildes at `i` could open a GFM
/// strikethrough that closes later: some `~~` of the run followed by a char
/// that is neither whitespace nor `~`, and a later `~~` preceded by such a
/// char.
fn strike_could_close(text: &[char], i: usize, run: usize) -> (r: bool)
    requires
        i + run <= text@.len(),
    ensures
        r == (i + run < text@.len() && !is_ascii_ws(text@[i + run]) && exists|k: int|
            i + run < k && k + 1 < text@.len() && #[trigger] strike_close_at(text@, k)),
{
    let tl = text.len();
    let end = i + run;
    if end >= tl || ascii_ws(text[end]) {
        return false;
    }
    let mut k = end + 1;
    while k < tl && k + 1 < tl
        invariant
            end < k <= text@.len(),
            tl == text@.len(),
            end == i + run,
            end < tl && !is_ascii_ws(text@[end as int]),
            forall|j: int| end < j < k ==> !#[trigger] strike_close_at(text@, j),
        decreases text@.len() - k,
    {
        if text[k] == '~' && text[k + 1] == '~' && !ascii_ws(text[k - 1]) && text[k - 1] != '~' {
            assert(strike_close_at(text@, k as int));
            return true;
        }
        k = k + 1;
    }
    assert forall|j: int| end < j && j + 1 < text@.len() implies !#[trigger] strike_close_at(text@, j) by {
        if j >= k {
            assert(j + 1 >= tl);
        }
    }
    false
}

/// A `~~` at `k` preceded by a char that is neither whitespace nor `~`.
pub open spec fn strike_close_at(t: Seq<char>, k: int) -> bool {
    &&& 0 < k
    &&& k + 1 < t.len()
    &&& t[k] == '~'
    &&& t[k + 1] == '~'
    &&& !is_ascii_ws(t[k - 1])
    &&& t[k - 1] != '~'
}

/// The `]` closing a link text scanned from `k` at bracket depth `depth`:
/// brackets nest, a backslash escapes the next char, a code span is
/// skipped whole.
pub open spec fn text_close(s: Seq<char>, k: int, depth: int) -> Option<int>
    decreases s.len() - k,
{
    let n = s.len() as int;
    if k < 1 || k >= n {
        None
    } else if s[k] == '\\' {
        text_close(
            s,
            if n - k > 2 {
                k + 2
            } else {
                n
            },
            depth,
        )
    } else if s[k] == '`' {
        let e = crate::lines::code_span_end(s, k).0;
        if k < e <= n {
            text_close(s, e, depth)
        } else {
            None
        }
    } else if s[k] == '[' {
        text_close(
            s,
            k + 1,
            if depth < usize::MAX {
                depth + 1
            } else {
                depth
            },
        )
    } else if s[k] == ']' {
        if depth == 0 {
            Some(k)
        } else {
            text_close(s, k + 1, depth - 1)
        }
    } else {
        text_close(s, k + 1, depth)
    }
}

/// A link text's close lies inside the text, at or after where the scan
/// began.
pub proof fn lemma_text_close_bounds(s: Seq<char>, k: int, depth: int)
    requires
        text_close(s, k, depth) is Some,
    ensures
        1 <= k <= text_close(s, k, depth)->0 < s.len(),
    decreases s.len() - k,
{
    let n = s.len() as int;
    if s[k] == '\\' {
        lemma_text_close_bounds(
            s,
            if n - k > 2 {
                k + 2
            } else {
                n
            },
            depth,
        );
    } else if s[k] == '`' {
        let e = crate::lines::code_span_end(s, k).0;
        lemma_text_close_bounds(s, e, depth);
    } else if s[k] == '[' {
        lemma_text_close_bounds(
            s,
            k + 1,
            if depth < usize::MAX {
                depth + 1
            } else {
                depth
            },
        );
    } else if s[k] == ']' {
        if depth != 0 {
            lemma_text_close_bounds(s, k + 1, depth - 1);
        }
    } else {
        lemma_text_close_bounds(s, k + 1, depth);
    }
}

/// Find the `]` closing a link text at `rest[0] == '['`, tracking bracket
/// depth and skipping code spans and escaped chars.
fn link_text_close(rest: &[char]) -> (r: Option<usize>)
    ensures
        r matches Some(k) ==> 0 < k < rest@.len() && rest@[k as int] == ']',
        match text_close(rest@, 1, 0) {
            None => r is None,
            Some(k) => r matches Some(k2) && k2 == k,
        },
{
    let n = rest.len();
    let mut depth: usize = 0;
    let mut k: usize = 1;
    while k < n
        invariant
            1 <= k,
            n == rest@.len(),
            text_close(rest@, 1, 0) == text_close(rest@, k as int, depth as int),
        decreases n - k,
    {
        let c = rest[k];
        if c == '\\' {
            k = if n - k > 2 {
                k + 2
            } else {
                n
            };
            continue;
        }
        if c == '`' {
            let (e, _) = crate::lines::skip_code_span(rest, k);
            k = e;
            continue;
        }
        if c == '[' {
            if depth < usize::MAX {
                depth = depth + 1;
            }
        } else if c == ']' {
            if depth == 0 {
                return Some(k);
            }
            depth = depth - 1;
        }
        k = k + 1;
    }
    None
}

/// Where an image's alt text stops: the first `\\`, `[` or `]` at or after
/// `k` (the end when there is none).
pub open spec fn alt_stop(s: Seq<char>, k: int) -> int
    decreases s.len() - k,
{
    if k < 0 || k >= s.len() {
        s.len() as int
    } else if s[k] == '\\' || s[k] == '[' || s[k] == ']' {
        k
    } else {
        alt_stop(s, k + 1)
    }
}

/// Index of the first `c` at or after `from`.
pub open spec fn first_at(s: Seq<char>, from: int, c: char) -> Option<int>
    decreases s.len() - from,
{
    if from < 0 || from >= s.len() {
        None
    } else if s[from] == c {
        Some(from)
    } else {
        first_at(s, from + 1, c)
    }
}

/// `find_char_from`'s answer is `first_at`.
pub proof fn lemma_first_at(s: Seq<char>, from: int, c: char, r: Option<usize>)
    requires
        0 <= from <= s.len(),
        match r {
            Some(k) => from <= k < s.len() && s[k as int] == c && forall|j: int|
                from <= j < k ==> s[j] != c,
            None => forall|j: int| from <= j < s.len() ==> s[j] != c,
        },
    ensures
        first_at(s, from, c) == match r {
            Some(k) => Some(k as int),
            None => None::<int>,
        },
    decreases s.len() - from,
{
    if from < s.len() {
        match r {
            Some(k) => {
                if k as int != from {
                    lemma_first_at(s, from + 1, c, r);
                }
            },
            None => {
                lemma_first_at(s, from + 1, c, r);
            },
        }
    }
}

/// A reference resolved against the definitions: the first one with `id`
/// gives its url and title; `consumed` is carried along.
pub open spec fn def_target(defs: Seq<LinkDef>, id: Seq<char>, consumed: int) -> Result<
    Option<(Seq<char>, Option<Seq<char>>, int)>,
    &'static str,
> {
    match first_def(defs, id, 0) {
        None => Ok(None),
        Some(i) => Ok(Some((defs[i].url@, opt_vec(defs[i].title), consumed))),
    }
}

/// The reference after a bracketed `text` closing at `close` (not followed
/// by `(`): full `[text][id]`, collapsed `[text][]` or shortcut `[text]`,
/// resolved to `(url, title, length)`; `Ok(None)` when it is unresolved or
/// the id never closes, `Err` when a space separates a second bracket.
pub open spec fn ref_part(defs: Seq<LinkDef>, rest: Seq<char>, close: int, text: Seq<char>) -> Result<
    Option<(Seq<char>, Option<Seq<char>>, int)>,
    &'static str,
> {
    let n = rest.len() as int;
    if close + 1 < n && rest[close + 1] == '[' {
        match first_at(rest, close + 2, ']') {
            None => Ok(None),
            Some(idc) => {
                let explicit = rest.subrange(close + 2, idc);
                let id = if strip_both(explicit, true).len() == 0 {
                    norm_state(text).0
                } else {
                    norm_state(explicit).0
                };
                def_target(defs, id, idc + 1)
            },
        }
    } else {
        let tail = rest.subrange(close + 1, n);
        let t = tail.subrange(lead_ws(tail, 0), tail.len() as int);
        if tail.len() > 0 && is_sp_tab(tail[0]) && t.len() > 0 && t[0] == '[' {
            Err("ref-space-separated")
        } else {
            def_target(defs, norm_state(text).0, close + 1)
        }
    }
}

/// What `![…]` at the start of `rest` is: an inline image `![alt](src
/// "title")`, a full `![alt][id]`, collapsed `![alt][]` or shortcut
/// `![alt]` reference, `Ok(None)` when it is none of them (the `!` is then
/// literal), `Err` where it is out of subset (an escape or bracket in the
/// alt text, a space before a reference's `[`, a destination holding `(` or
/// opening with `<`). Each image is `(src, alt, title, length)`.
pub open spec fn image_spec(defs: Seq<LinkDef>, rest: Seq<char>) -> Result<
    Option<(Seq<char>, Seq<char>, Option<Seq<char>>, int)>,
    &'static str,
> {
    let n = rest.len() as int;
    let c = alt_stop(rest, 2);
    if c >= n {
        Ok(None)
    } else if rest[c] == '\\' {
        Err("image-alt-escape")
    } else if rest[c] == '[' {
        Err("image-alt-nested")
    } else {
        let alt = rest.subrange(2, c);
        if c + 1 < n && rest[c + 1] == '(' {
            match first_at(rest, c + 2, ')') {
                None => Ok(None),
                Some(p) => match href_title_spec(rest.subrange(c + 2, p)) {
                    None => Ok(None),
                    Some((src, title)) => if src.contains('(') || (src.len() > 0 && src[0] == '<') {
                        Err("image-dest")
                    } else {
                        Ok(Some((src, alt, title, p + 1)))
                    },
                },
            }
        } else {
            match ref_part(defs, rest, c, alt) {
                Err(w) => Err(w),
                Ok(None) => Ok(None),
                Ok(Some((u, t, l))) => Ok(Some((u, alt, t, l))),
            }
        }
    }
}

/// Parse `![alt](src "title")` at the start of `rest` (`rest` begins with
/// `![`). `alt` is the RAW bracket text. Anything that isn't a clean inline
/// or resolvable reference image yields `None` (the `!` is literal).
pub fn parse_image(defs: &Vec<LinkDef>, rest: &[char]) -> (r: Result<
    Option<(Vec<char>, Vec<char>, Option<Vec<char>>, usize)>,
    Error,
>)
    ensures
        r matches Ok(Some((_, _, _, len))) ==> 0 < len <= rest@.len(),
        match image_spec(defs@, rest@) {
            Err(w) => declines_as(r, w),
            Ok(None) => r matches Ok(None),
            Ok(Some((s, a, t, l))) => r matches Ok(Some((s2, a2, t2, l2))) && s2@ == s && a2@ == a
                && opt_vec(t2) == t && l2 == l,
        },
{
    let n = rest.len();
    let mut close: Option<usize> = None;
    let mut k: usize = 2;
    while k < n && close.is_none()
        invariant
            2 <= k,
            n == rest@.len(),
            close matches Some(c) ==> 2 <= c < n && alt_stop(rest@, 2) == c && rest@[c as int]
                == ']',
            close is None ==> alt_stop(rest@, 2) == alt_stop(rest@, k as int),
        decreases n - k, if close is None { 1int } else { 0int },
    {
        let c = rest[k];
        if c == '\\' {
            return Err(declined("image-alt-escape"));
        }
        if c == '[' {
            return Err(declined("image-alt-nested"));
        }
        if c == ']' {
            close = Some(k);
        } else {
            k = k + 1;
        }
    }
    let close = match close {
        Some(c) => c,
        None => {
            return Ok(None);
        },
    };
    let alt = &rest[2..close];
    if !(close + 1 < n && rest[close + 1] == '(') {
        let id: Vec<char>;
        let consumed: usize;
        if close + 1 < n && rest[close + 1] == '[' {
            let found = find_char_from(rest, close + 2, ']');
            proof {
                lemma_first_at(rest@, close + 2, ']', found);
            }
            let idc = match found {
                Some(x) => x,
                None => {
                    return Ok(None);
                },
            };
            let explicit = &rest[close + 2..idc];
            if trim_sp(explicit, true).len() == 0 {
                id = normalize_ref_id(alt);
            } else {
                id = normalize_ref_id(explicit);
            }
            consumed = idc + 1;
        } else {
            let tail = &rest[close + 1..n];
            if tail.len() > 0 && (tail[0] == ' ' || tail[0] == '\t') {
                let t = trim_start_ws(tail);
                if t.len() > 0 && t[0] == '[' {
                    return Err(declined("ref-space-separated"));
                }
            }
            id = normalize_ref_id(alt);
            consumed = close + 1;
        }
        match lookup_def(defs, id.as_slice()) {
            Some((src, title)) => {
                return Ok(Some((src, to_vec(alt), title, consumed)));
            },
            None => {
                return Ok(None);
            },
        }
    }
    let after_start = close + 2;
    let found = find_char_from(rest, after_start, ')');
    proof {
        lemma_first_at(rest@, after_start as int, ')', found);
    }
    let paren_rel = match found {
        Some(p) => p,
        None => {
            return Ok(None);
        },
    };
    let (src, title) = match split_href_title(&rest[after_start..paren_rel]) {
        Some(x) => x,
        None => {
            return Ok(None);
        },
    };
    if contains_char(src.as_slice(), '(') || starts_with_char(src.as_slice(), '<') {
        return Err(declined("image-dest"));
    }
    Ok(Some((src, to_vec(alt), title, paren_rel + 1)))
}

/// What `[…]` at the start of `rest` links to, as `(href, title, length)`:
/// inline, `[text](href "title")` up to the destination's closing `)` (an
/// href in `<…>` or an empty title out of subset); else the reference
/// after the text. `Ok(None)` when it is no link (the `[` is literal).
pub open spec fn link_spec(defs: Seq<LinkDef>, rest: Seq<char>) -> Result<
    Option<(Seq<char>, Option<Seq<char>>, int)>,
    &'static str,
> {
    let n = rest.len() as int;
    match text_close(rest, 1, 0) {
        None => Ok(None),
        Some(close) => if !(close + 1 < n && rest[close + 1] == '(') {
            ref_part(defs, rest, close, rest.subrange(1, close))
        } else {
            let a = close + 2;
            match dest_close_spec(rest.subrange(a, n), 0, 0) {
                None => Ok(None),
                Some(p0) => {
                    let paren = a + p0;
                    match href_title_spec(rest.subrange(a, paren)) {
                        None => Ok(None),
                        Some((h, t)) => if h.len() > 0 && h[0] == '<' {
                            Err("link-dest")
                        } else if t is Some && t->0.len() == 0 {
                            Err("link-empty-title")
                        } else {
                            Ok(Some((h, t, paren + 1)))
                        },
                    }
                },
            }
        },
    }
}

/// Parse `[text](href)` or a reference link at the start of `rest`. The
/// enclosing-emphasis flags thread through so same-type nesting stays
/// blocked inside link text.
pub fn parse_link(defs: &Vec<LinkDef>, rest: &[char], in_em: bool, in_strong: bool) -> (r: Result<
    Option<(Vec<Span>, Vec<char>, Option<Vec<char>>, usize)>,
    Error,
>)
    ensures
        r matches Ok(Some((_, _, _, len))) ==> 0 < len <= rest@.len(),
        match link_spec(defs@, rest@) {
            Err(w) => declines_as(r, w),
            Ok(None) => r matches Ok(None),
            Ok(Some((h, t, l))) => match scan_spec(
                defs@,
                rest@.subrange(1, link_close(rest@)),
                None,
                in_em,
                in_strong,
                Some(Elem::Link),
            ) {
                Err(w) => declines_as(r, w),
                Ok((sp, _)) => r matches Ok(Some((s2, h2, t2, l2))) && spans_v(s2@) == sp && h2@
                    == h && opt_vec(t2) == t && l2 == l,
            },
        },
    decreases rest@.len(), 2nat,
{
    let n = rest.len();
    let close = match link_text_close(rest) {
        Some(c) => c,
        None => {
            return Ok(None);
        },
    };
    if !(close + 1 < n && rest[close + 1] == '(') {
        return resolve_ref_link(defs, rest, close, in_em, in_strong);
    }
    let after_start = close + 2;
    let paren = match dest_close(&rest[after_start..n]) {
        Some(p) => after_start + p,
        None => {
            return Ok(None);
        },
    };
    let (href, title) = match split_href_title(&rest[after_start..paren]) {
        Some(x) => x,
        None => {
            return Ok(None);
        },
    };
    if starts_with_char(href.as_slice(), '<') {
        return Err(declined("link-dest"));
    }
    match &title {
        Some(t) => {
            if t.len() == 0 {
                return Err(declined("link-empty-title"));
            }
        },
        None => {},
    }
    let spans = match parse_spans_until(
        defs,
        &rest[1..close],
        None,
        in_em,
        in_strong,
        Some(Elem::Link),
    ) {
        Ok((s, _)) => s,
        Err(e) => {
            return Err(e);
        },
    };
    Ok(Some((spans, href, title, paren + 1)))
}

/// Resolve a reference link at `rest` whose text closes at `close` (the
/// `]`), which is NOT followed by `(`: full `[text][id]`, collapsed
/// `[text][]`, or shortcut `[text]`.
pub fn resolve_ref_link(
    defs: &Vec<LinkDef>,
    rest: &[char],
    close: usize,
    in_em: bool,
    in_strong: bool,
) -> (r: Result<Option<(Vec<Span>, Vec<char>, Option<Vec<char>>, usize)>, Error>)
    requires
        0 < close < rest@.len(),
    ensures
        r matches Ok(Some((_, _, _, len))) ==> 0 < len <= rest@.len(),
        match ref_part(defs@, rest@, close as int, rest@.subrange(1, close as int)) {
            Err(w) => declines_as(r, w),
            Ok(None) => r matches Ok(None),
            Ok(Some((h, t, l))) => match scan_spec(
                defs@,
                rest@.subrange(1, close as int),
                None,
                in_em,
                in_strong,
                Some(Elem::Link),
            ) {
                Err(w) => declines_as(r, w),
                Ok((sp, _)) => r matches Ok(Some((s2, h2, t2, l2))) && spans_v(s2@) == sp && h2@
                    == h && opt_vec(t2) == t && l2 == l,
            },
        },
    decreases rest@.len(), 1nat,
{
    let n = rest.len();
    let text = &rest[1..close];
    let id: Vec<char>;
    let consumed: usize;
    if close + 1 < n && rest[close + 1] == '[' {
        let found = find_char_from(rest, close + 2, ']');
        proof {
            lemma_first_at(rest@, close + 2, ']', found);
        }
        let idc = match found {
            Some(x) => x,
            None => {
                return Ok(None);
            },
        };
        let explicit = &rest[close + 2..idc];
        if trim_sp(explicit, true).len() == 0 {
            id = normalize_ref_id(text);
        } else {
            id = normalize_ref_id(explicit);
        }
        consumed = idc + 1;
    } else {
        let tail = &rest[close + 1..n];
        if tail.len() > 0 && (tail[0] == ' ' || tail[0] == '\t') {
            let t = trim_start_ws(tail);
            if t.len() > 0 && t[0] == '[' {
                return Err(declined("ref-space-separated"));
            }
        }
        id = normalize_ref_id(text);
        consumed = close + 1;
    }
    let (href, title) = match lookup_def(defs, id.as_slice()) {
        Some(x) => x,
        None => {
            return Ok(None);
        },
    };
    let spans = match parse_spans_until(defs, text, None, in_em, in_strong, Some(Elem::Link)) {
        Ok((s, _)) => s,
        Err(e) => {
            return Err(e);
        },
    };
    Ok(Some((spans, href, title, consumed)))
}

} // verus!
