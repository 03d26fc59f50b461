//! The span parser as mathematics: a view of the span tree with plain
//! sequences in place of vectors, and the scan that `parse_spans_until`
//! performs, written as a function of the text.

use vstd::prelude::*;
use crate::ast::Span;
use crate::ial::attrs_view;
use crate::render::opt_vec;
use crate::text::{is_ascii_alnum, is_ascii_alpha};
use crate::entities::{entity_at_spec, digits_then_semi, name_then_semi, digits_start, radix_of,
    digit_spec, numeric_code, num_value, entity_code};
use crate::html_block::{Inline, inline_rel, name_run, lower_seq, is_inline_spec,
    is_escaped_raw_spec, element_spec, attrs_spec, is_void_spec, inline_close};
use crate::inline::{is_trigger_spec, Stop, Elem, intraword_spec, link_spec, image_spec,
    text_close, strike_close_at, first_at};
use crate::ast::LinkDef;
use crate::text::{is_uni_ws, is_ascii_ws};
use crate::html_block::{first_occ, autolink_spec};
use crate::lines::run_spec;
use crate::ial::{parse_ial_spec, merge_spec};
use crate::typography::{smart_quote_spec, NDASH, MDASH, HELLIP};
use crate::unicode::{uni_alphanumeric, is_scalar};

verus! {

/// An attribute list as name/value pairs.
pub type AttrsV = Seq<(Seq<char>, Seq<char>)>;

/// A span with its text, children and attributes as sequences.
pub enum SpanV {
    Text(Seq<char>),
    Raw(Seq<char>),
    Em(Seq<SpanV>, AttrsV),
    Strong(Seq<SpanV>, AttrsV),
    Del(Seq<SpanV>),
    Code(Seq<char>),
    Link { spans: Seq<SpanV>, href: Seq<char>, title: Option<Seq<char>>, ial: AttrsV },
    Image { src: Seq<char>, alt: Seq<char>, title: Option<Seq<char>>, ial: AttrsV },
}

/// The view of one span.
pub open spec fn span_v(sp: Span) -> SpanV
    decreases sp,
{
    match sp {
        Span::Text(t) => SpanV::Text(t@),
        Span::Raw(h) => SpanV::Raw(h@),
        Span::Em(inner, ial) => SpanV::Em(spans_v(inner@), attrs_view(ial@)),
        Span::Strong(inner, ial) => SpanV::Strong(spans_v(inner@), attrs_view(ial@)),
        Span::Del(inner) => SpanV::Del(spans_v(inner@)),
        Span::Code(t) => SpanV::Code(t@),
        Span::Link { spans, href, title, ial } => SpanV::Link {
            spans: spans_v(spans@),
            href: href@,
            title: opt_vec(title),
            ial: attrs_view(ial@),
        },
        Span::Image { src, alt, title, ial } => SpanV::Image {
            src: src@,
            alt: alt@,
            title: opt_vec(title),
            ial: attrs_view(ial@),
        },
    }
}

/// The view of a span sequence, span by span.
pub open spec fn spans_v(s: Seq<Span>) -> Seq<SpanV>
    decreases s,
{
    if s.len() == 0 {
        Seq::empty()
    } else {
        spans_v(s.drop_last()).push(span_v(s.last()))
    }
}

/// The raw text of a span tree: text and code verbatim, the children of
/// emphasis, strikethrough and links, nothing of raw HTML and images.
pub open spec fn raw_text_v(s: Seq<SpanV>) -> Seq<char>
    decreases s,
{
    if s.len() == 0 {
        Seq::empty()
    } else {
        raw_text_v(s.drop_last()) + match s.last() {
            SpanV::Text(t) => t,
            SpanV::Code(t) => t,
            SpanV::Raw(_) => Seq::empty(),
            SpanV::Image { .. } => Seq::empty(),
            SpanV::Em(inner, _) => raw_text_v(inner),
            SpanV::Strong(inner, _) => raw_text_v(inner),
            SpanV::Del(inner) => raw_text_v(inner),
            SpanV::Link { spans: inner, .. } => raw_text_v(inner),
        }
    }
}

/// `spans_v` keeps the length and maps each span.
pub proof fn lemma_spans_v_index(s: Seq<Span>)
    ensures
        spans_v(s).len() == s.len(),
        forall|k: int| 0 <= k < s.len() ==> #[trigger] spans_v(s)[k] == span_v(s[k]),
    decreases s.len(),
{
    if s.len() > 0 {
        lemma_spans_v_index(s.drop_last());
    }
}

/// Pushing a span pushes its view.
pub proof fn lemma_spans_v_push(s: Seq<Span>, x: Span)
    ensures
        spans_v(s.push(x)) == spans_v(s).push(span_v(x)),
{
    assert(s.push(x).drop_last() =~= s);
}

/// The view of a concatenation is the concatenation of the views.
pub proof fn lemma_spans_v_add(a: Seq<Span>, b: Seq<Span>)
    ensures
        spans_v(a + b) == spans_v(a) + spans_v(b),
    decreases b.len(),
{
    if b.len() == 0 {
        assert(a + b =~= a);
        assert(spans_v(a) + spans_v(b) =~= spans_v(a));
    } else {
        lemma_spans_v_add(a, b.drop_last());
        assert((a + b).drop_last() =~= a + b.drop_last());
        assert((a + b).last() == b.last());
        assert(spans_v(a) + spans_v(b) =~= (spans_v(a) + spans_v(b.drop_last())).push(
            span_v(b.last()),
        ));
    }
}

/// Dropping the last span drops its view.
pub proof fn lemma_spans_v_drop_last(s: Seq<Span>)
    requires
        s.len() > 0,
    ensures
        spans_v(s.drop_last()) == spans_v(s).drop_last(),
        spans_v(s).last() == span_v(s.last()),
{
    lemma_spans_v_index(s);
    assert(spans_v(s).drop_last() =~= spans_v(s.drop_last()));
}

/// The end of the run of `radix` digits from `k`.
pub open spec fn digit_end(s: Seq<char>, k: int, radix: u32) -> int
    decreases s.len() - k,
{
    if 0 <= k < s.len() && digit_spec(s[k], radix) is Some {
        digit_end(s, k + 1, radix)
    } else {
        k
    }
}

/// The end of the run of ASCII letters and digits from `k`.
pub open spec fn alnum_end(s: Seq<char>, k: int) -> int
    decreases s.len() - k,
{
    if 0 <= k < s.len() && is_ascii_alnum(s[k]) {
        alnum_end(s, k + 1)
    } else {
        k
    }
}

/// The entity reference opening `s` (which begins with `&`): its code point
/// and its length through the `;`.
pub open spec fn entity_fn(s: Seq<char>) -> Option<(u32, int)> {
    if s.len() > 1 && s[1] == '#' {
        let st = digits_start(s);
        let rdx = radix_of(s);
        let e = digit_end(s, st, rdx);
        if st < e < s.len() && s[e] == ';' {
            Some((numeric_code(num_value(s.subrange(st, e), rdx)), e + 1))
        } else {
            None
        }
    } else {
        let e = alnum_end(s, 1);
        if 1 < e < s.len() && s[e] == ';' {
            match entity_code(s.subrange(1, e)) {
                Some(cp) => Some((cp, e + 1)),
                None => None,
            }
        } else {
            None
        }
    }
}

proof fn lemma_digit_end(s: Seq<char>, k: int, radix: u32)
    requires
        0 <= k,
    ensures
        k <= digit_end(s, k, radix),
        forall|j: int| k <= j < digit_end(s, k, radix) ==> (#[trigger] digit_spec(s[j], radix)) is Some,
        digit_end(s, k, radix) < s.len() ==> digit_spec(s[digit_end(s, k, radix)], radix) is None,
        digit_end(s, k, radix) <= s.len() || digit_end(s, k, radix) == k,
    decreases s.len() - k,
{
    if 0 <= k < s.len() && digit_spec(s[k], radix) is Some {
        lemma_digit_end(s, k + 1, radix);
    }
}

proof fn lemma_alnum_end(s: Seq<char>, k: int)
    requires
        0 <= k,
    ensures
        k <= alnum_end(s, k),
        forall|j: int| k <= j < alnum_end(s, k) ==> is_ascii_alnum(#[trigger] s[j]),
        alnum_end(s, k) < s.len() ==> !is_ascii_alnum(s[alnum_end(s, k)]),
        alnum_end(s, k) <= s.len() || alnum_end(s, k) == k,
    decreases s.len() - k,
{
    if 0 <= k < s.len() && is_ascii_alnum(s[k]) {
        lemma_alnum_end(s, k + 1);
    }
}

/// What `parse_entity` answers is `entity_fn`.
pub proof fn lemma_entity_fn(s: Seq<char>, r: Option<(u32, usize)>)
    requires
        entity_at_spec(s, r),
    ensures
        entity_fn(s) == match r {
            Some((cp, len)) => Some((cp, len as int)),
            None => None::<(u32, int)>,
        },
{
    if s.len() > 1 && s[1] == '#' {
        let st = digits_start(s);
        let rdx = radix_of(s);
        lemma_digit_end(s, st, rdx);
        let e = digit_end(s, st, rdx);
        assert(digit_spec(';', rdx) is None);
        match r {
            Some((cp, len)) => {
                assert(digits_then_semi(s, st, len - 1, rdx));
                if e < len - 1 {
                    assert(digit_spec(s[e], rdx) is Some);
                }
                if e > len - 1 {
                    assert(digit_spec(s[len - 1], rdx) is Some);
                }
                assert(e == len - 1);
            },
            None => {
                if st < e < s.len() && s[e] == ';' {
                    assert(digits_then_semi(s, st, e, rdx));
                }
            },
        }
    } else {
        lemma_alnum_end(s, 1);
        let e = alnum_end(s, 1);
        match r {
            Some((cp, len)) => {
                assert(name_then_semi(s, len - 1));
                if e < len - 1 {
                    assert(is_ascii_alnum(s[e]));
                }
                if e > len - 1 {
                    assert(is_ascii_alnum(s[len - 1]));
                }
                assert(e == len - 1);
            },
            None => {
                if 1 < e < s.len() && s[e] == ';' {
                    assert(name_then_semi(s, e));
                }
            },
        }
    }
}

/// An inline HTML element with its serialized parts as sequences.
pub enum InlineV {
    Void(Seq<char>),
    Raw(Seq<char>),
    Markdown { open: Seq<char>, content_start: int, content_end: int, close: Seq<char> },
}

/// The view of `inline_at`'s answer.
pub open spec fn inline_v(r: Option<(Inline, usize)>) -> Option<(InlineV, int)> {
    match r {
        None => None,
        Some((Inline::Void(v), e)) => Some((InlineV::Void(v@), e as int)),
        Some((Inline::Raw(v), e)) => Some((InlineV::Raw(v@), e as int)),
        Some((Inline::Markdown { open, content_start, content_end, close }, e)) => Some(
            (
                InlineV::Markdown {
                    open: open@,
                    content_start: content_start as int,
                    content_end: content_end as int,
                    close: close@,
                },
                e as int,
            ),
        ),
    }
}

/// The inline HTML element opening `s`, as `inline_rel` describes it.
pub open spec fn inline_fn(s: Seq<char>) -> Option<(InlineV, int)> {
    if s.len() < 2 || s[0] != '<' || !is_ascii_alpha(s[1]) {
        None
    } else {
        let ne = name_run(s, 1);
        let name = lower_seq(s.subrange(1, ne));
        if !is_inline_spec(name) {
            None
        } else if is_escaped_raw_spec(name) {
            match element_spec(s, 0) {
                None => None,
                Some((h, e)) => Some((InlineV::Raw(h), e as int)),
            }
        } else {
            match attrs_spec(s, ne) {
                None => None,
                Some((attrs, sc, p)) => if is_void_spec(name) {
                    Some((InlineV::Void("<"@ + name + attrs + " />"@), p as int))
                } else if sc {
                    None
                } else {
                    match inline_close(s, p, name) {
                        None => None,
                        Some((ce, ac)) => Some(
                            (
                                InlineV::Markdown {
                                    open: "<"@ + name + attrs + ">"@,
                                    content_start: p as int,
                                    content_end: ce as int,
                                    close: "</"@ + name + ">"@,
                                },
                                ac as int,
                            ),
                        ),
                    }
                },
            }
        }
    }
}

/// What `inline_at` answers is `inline_fn`.
pub proof fn lemma_inline_fn(s: Seq<char>, r: Option<(Inline, usize)>)
    requires
        inline_rel(s, r),
    ensures
        inline_v(r) == inline_fn(s),
{
}

/// The first span-parser trigger at or after `k` (the end when none).
pub open spec fn trig_from(s: Seq<char>, k: int) -> int
    decreases s.len() - k,
{
    if 0 <= k < s.len() && !is_trigger_spec(s[k]) {
        trig_from(s, k + 1)
    } else {
        k
    }
}

/// `next_trigger`'s answer is `trig_from`.
pub proof fn lemma_trig_from(s: Seq<char>, k: int, r: int)
    requires
        0 <= k <= r <= s.len(),
        forall|j: int| k <= j < r ==> !is_trigger_spec(#[trigger] s[j]),
        r < s.len() ==> is_trigger_spec(s[r]),
    ensures
        trig_from(s, k) == r,
    decreases r - k,
{
    if k < r {
        lemma_trig_from(s, k + 1, r);
    }
}

/// Chars a backslash escapes.
pub open spec fn is_escapable(c: char) -> bool {
    c == '\\' || c == '.' || c == '*' || c == '_' || c == '+' || c == '`' || c == '<' || c == '>'
        || c == '(' || c == ')' || c == '[' || c == ']' || c == '{' || c == '}' || c == '#' || c
        == '!' || c == ':' || c == '|' || c == '"' || c == '\'' || c == '$' || c == '=' || c == '-'
}

/// Where the scan stands: the position, the spans finished so far, the
/// pending text, and the char before the position.
pub type ScanState = (int, Seq<SpanV>, Seq<char>, Option<char>);

/// The finished spans with the pending text (if any) closed as a text span.
pub open spec fn flush_v(chain: Seq<SpanV>, acc: Seq<char>) -> Seq<SpanV> {
    if acc.len() > 0 {
        chain.push(SpanV::Text(acc))
    } else {
        chain
    }
}

/// The `<br />` of a hard line break.
pub open spec fn br_v() -> SpanV {
    SpanV::Raw("<br />"@)
}

/// Whether the watched emphasis closes at `i`: its delimiter run is there,
/// something precedes it, the char before is no whitespace, a single `*`
/// or `_` is not half of a double, and a `_` close is not inside a word.
pub open spec fn stop_fires(
    text: Seq<char>,
    i: int,
    stop: Option<Stop>,
    chain: Seq<SpanV>,
    acc: Seq<char>,
    prev: Option<char>,
) -> bool {
    match stop {
        None => false,
        Some(st) => {
            &&& i + st.delim_len <= text.len()
            &&& forall|k: int| i <= k < i + st.delim_len ==> #[trigger] text[k] == st.type_char
            &&& (chain.len() > 0 || acc.len() > 0)
            &&& (prev matches Some(c) && !is_ascii_ws(c))
            &&& (st.elem != Elem::Em || run_spec(text, i, st.type_char) != 2)
            &&& (st.type_char != '_' || !(i + st.delim_len < text.len() && uni_alphanumeric(
                text[i + st.delim_len],
            )))
        },
    }
}

/// A backslash at `i` with a char after it: a hard break before a newline,
/// the escaped char, or a literal backslash.
pub open spec fn esc_step(text: Seq<char>, i: int, chain: Seq<SpanV>, acc: Seq<char>) -> Result<
    ScanState,
    &'static str,
> {
    let next = text[i + 1];
    if next == '\n' {
        Ok((i + 1, flush_v(chain, acc).push(br_v()), Seq::empty(), Some('\n')))
    } else if is_escapable(next) {
        Ok((i + 2, chain, acc.push(next), Some(next)))
    } else {
        Ok((i + 1, chain, acc.push('\\'), Some('\\')))
    }
}

/// The bounds of a code span's text between `a` and `b`: with a multi-
/// backtick delimiter one leading and one trailing space are dropped.
pub open spec fn code_bounds(text: Seq<char>, a: int, b: int, open: int) -> (int, int) {
    if open > 1 {
        let a2 = if a < b && text[a] == ' ' {
            a + 1
        } else {
            a
        };
        let b2 = if a2 < b && text[b - 1] == ' ' {
            b - 1
        } else {
            b
        };
        (a2, b2)
    } else {
        (a, b)
    }
}

/// A backtick run at `i`: a code span up to the same run, or literal
/// backticks.
pub open spec fn code_step(
    text: Seq<char>,
    i: int,
    chain: Seq<SpanV>,
    acc: Seq<char>,
    prev: Option<char>,
) -> Result<ScanState, &'static str> {
    let n = text.len() as int;
    let open = run_spec(text, i, '`') as int;
    let rs = i + open;
    let at_ws_start = match prev {
        None => true,
        Some(p) => is_uni_ws(p),
    };
    if open == 1 && at_ws_start && rs < n && is_uni_ws(text[rs]) {
        Ok((i + 1, chain, acc.push('`'), Some('`')))
    } else {
        match first_occ(text.subrange(rs, n), text.subrange(i, rs)) {
            None => Ok((rs, chain, acc + text.subrange(i, rs), Some('`'))),
            Some(cr) => {
                let (a, b) = code_bounds(text, rs, rs + cr, open);
                Ok(
                    (
                        rs + cr + open,
                        flush_v(chain, acc).push(SpanV::Code(text.subrange(a, b))),
                        Seq::empty(),
                        Some('`'),
                    ),
                )
            },
        }
    }
}

/// An emphasis delimiter run at `i`: emphasis up to its close (a failed
/// `**` retried as `*`), or literal delimiters.
pub open spec fn emph_step(
    defs: Seq<LinkDef>,
    text: Seq<char>,
    i: int,
    in_em: bool,
    in_strong: bool,
    parent: Option<Elem>,
    chain: Seq<SpanV>,
    acc: Seq<char>,
    prev: Option<char>,
) -> Result<ScanState, &'static str>
    decreases text.len(), 0int, 0int,
{
    let n = text.len() as int;
    let c = text[i];
    let take: int = if run_spec(text, i, c) >= 2 {
        2
    } else {
        1
    };
    if !(0 <= i && i + take <= n) {
        Err("scan-bounds")
    } else if c == '_' && intraword_spec(text.subrange(0, i), prev) {
        Ok((i + take, chain, acc + text.subrange(i, i + take), Some('_')))
    } else {
        let elem = if take == 2 {
            Elem::Strong
        } else {
            Elem::Em
        };
        let same = (elem == Elem::Em && in_em) || (elem == Elem::Strong && in_strong);
        let oos = i + take < n && is_ascii_ws(text[i + take]);
        let lit = Ok((i + take, chain, acc + text.subrange(i, i + take), Some(c)));
        if same || oos {
            lit
        } else {
            let st = Stop { type_char: c, delim_len: take as usize, elem };
            match scan_spec(
                defs,
                text.subrange(i + take, n),
                Some(st),
                in_em || elem == Elem::Em,
                in_strong || elem == Elem::Strong,
                Some(elem),
            ) {
                Err(w) => Err(w),
                Ok((inner, Some(close))) => Ok(
                    (
                        i + take + close + take,
                        flush_v(chain, acc).push(
                            if take == 2 {
                                SpanV::Strong(inner, Seq::empty())
                            } else {
                                SpanV::Em(inner, Seq::empty())
                            },
                        ),
                        Seq::empty(),
                        Some(c),
                    ),
                ),
                Ok((_, None)) => if elem == Elem::Strong && parent != Some(Elem::Em) {
                    let st1 = Stop { type_char: c, delim_len: 1, elem: Elem::Em };
                    match scan_spec(
                        defs,
                        text.subrange(i + 1, n),
                        Some(st1),
                        true,
                        in_strong,
                        Some(Elem::Em),
                    ) {
                        Err(w) => Err(w),
                        Ok((inner2, Some(c2))) => Ok(
                            (
                                i + 1 + c2 + 1,
                                flush_v(chain, acc).push(SpanV::Em(inner2, Seq::empty())),
                                Seq::empty(),
                                Some(c),
                            ),
                        ),
                        Ok((_, None)) => lit,
                    }
                } else {
                    lit
                },
            }
        }
    }
}

/// The `]` that closes the link text opening `rest` (0 when none does).
pub open spec fn link_close(rest: Seq<char>) -> int {
    match text_close(rest, 1, 0) {
        Some(c) => c,
        None => 0,
    }
}

/// A `[` at `i`: a link (its text parsed as spans) or a literal bracket.
/// The pending text is closed first either way.
pub open spec fn bracket_step(
    defs: Seq<LinkDef>,
    text: Seq<char>,
    i: int,
    in_em: bool,
    in_strong: bool,
    parent: Option<Elem>,
    chain: Seq<SpanV>,
    acc: Seq<char>,
) -> Result<ScanState, &'static str>
    decreases text.len(), 0int, 0int,
{
    let n = text.len() as int;
    let ch = flush_v(chain, acc);
    let lit = Ok((i + 1, ch, seq!['['], Some('[')));
    if !(0 <= i < n) {
        Err("scan-bounds")
    } else if parent == Some(Elem::Link) {
        lit
    } else {
        let rest = text.subrange(i, n);
        match link_spec(defs, rest) {
            Err(w) => Err(w),
            Ok(None) => lit,
            Ok(Some((h, t, l))) => {
                let lc = link_close(rest);
                if !(1 <= lc < rest.len()) {
                    Err("scan-bounds")
                } else {
                    match scan_spec(
                        defs,
                        rest.subrange(1, lc),
                        None,
                        in_em,
                        in_strong,
                        Some(Elem::Link),
                    ) {
                        Err(w) => Err(w),
                        Ok((sp, _)) => Ok(
                            (
                                i + l,
                                ch.push(
                                    SpanV::Link { spans: sp, href: h, title: t, ial: Seq::empty() },
                                ),
                                Seq::empty(),
                                Some(')'),
                            ),
                        ),
                    }
                }
            },
        }
    }
}

/// `![` at `i`: an image or a literal `!`. The pending text is closed first.
pub open spec fn image_step(
    defs: Seq<LinkDef>,
    text: Seq<char>,
    i: int,
    chain: Seq<SpanV>,
    acc: Seq<char>,
) -> Result<ScanState, &'static str> {
    let ch = flush_v(chain, acc);
    match image_spec(defs, text.subrange(i, text.len() as int)) {
        Err(w) => Err(w),
        Ok(None) => Ok((i + 1, ch, seq!['!'], Some('!'))),
        Ok(Some((s, a, t, l))) => Ok(
            (
                i + l,
                ch.push(SpanV::Image { src: s, alt: a, title: t, ial: Seq::empty() }),
                Seq::empty(),
                Some(')'),
            ),
        ),
    }
}

/// A `<` at `i`: an autolink, an inline HTML element (its content parsed as
/// spans where markdown is allowed), a decline for other tags, or a
/// literal `<`.
pub open spec fn angle_step(
    defs: Seq<LinkDef>,
    text: Seq<char>,
    i: int,
    chain: Seq<SpanV>,
    acc: Seq<char>,
) -> Result<ScanState, &'static str>
    decreases text.len(), 0int, 0int,
{
    let n = text.len() as int;
    let rest = text.subrange(i, n);
    let next_alpha = i + 1 < n && is_ascii_alpha(text[i + 1]);
    match autolink_spec(rest) {
        Some((h, len)) => Ok((i + len, flush_v(chain, acc).push(SpanV::Raw(h)), Seq::empty(), Some('>'))),
        None => {
            let il = if next_alpha {
                inline_fn(rest)
            } else {
                None
            };
            match il {
                Some((InlineV::Void(h), len)) => Ok(
                    (i + len, flush_v(chain, acc).push(SpanV::Raw(h)), Seq::empty(), Some('>')),
                ),
                Some((InlineV::Raw(h), len)) => Ok(
                    (i + len, flush_v(chain, acc).push(SpanV::Raw(h)), Seq::empty(), Some('>')),
                ),
                Some((InlineV::Markdown { open, content_start: cs, content_end: ce, close }, len)) => {
                    if !(0 <= i && 0 < cs <= ce < len && i + len <= n) {
                        Err("scan-bounds")
                    } else {
                        match scan_spec(defs, text.subrange(i + cs, i + ce), None, false, false, None) {
                            Err(w) => Err(w),
                            Ok((inner, _)) => Ok(
                                (
                                    i + len,
                                    (flush_v(chain, acc).push(SpanV::Raw(open)) + inner).push(
                                        SpanV::Raw(close),
                                    ),
                                    Seq::empty(),
                                    Some('>'),
                                ),
                            ),
                        }
                    }
                },
                None => if i + 1 < n && (is_ascii_alpha(text[i + 1]) || text[i + 1] == '/'
                    || text[i + 1] == '!') {
                    Err("inline-html-or-autolink")
                } else if i + 1 < n && text[i + 1] == '<' {
                    Err("guillemets")
                } else {
                    Ok((i + 1, chain, acc.push('<'), Some('<')))
                },
            }
        },
    }
}

/// An `&` at `i`: the char an entity reference stands for, a decline for
/// numeric references to `&`, `<`, `>` and for non-scalar code points, or
/// a literal `&`.
pub open spec fn amp_step(text: Seq<char>, i: int, chain: Seq<SpanV>, acc: Seq<char>) -> Result<
    ScanState,
    &'static str,
> {
    match entity_fn(text.subrange(i, text.len() as int)) {
        Some((cp, len)) => if (cp == 0x26 || cp == 0x3C || cp == 0x3E) && text[i + 1] == '#' {
            Err("numeric-special-entity")
        } else if !is_scalar(cp) {
            Err("invalid-entity-codepoint")
        } else {
            Ok((i + len, chain, acc.push(cp as char), Some(cp as char)))
        },
        None => Ok((i + 1, chain, acc.push('&'), Some('&'))),
    }
}

/// A `~~` at `i`: strikethrough up to its close, literal tildes, or a
/// decline for a longer run that could close later.
pub open spec fn tilde_step(
    defs: Seq<LinkDef>,
    text: Seq<char>,
    i: int,
    in_em: bool,
    in_strong: bool,
    parent: Option<Elem>,
    chain: Seq<SpanV>,
    acc: Seq<char>,
) -> Result<ScanState, &'static str>
    decreases text.len(), 0int, 0int,
{
    let n = text.len() as int;
    let run = run_spec(text, i, '~') as int;
    if !(0 <= i && i + run <= n) {
        Err("scan-bounds")
    } else if run != 2 {
        if i + run < n && !is_ascii_ws(text[i + run]) && exists|k: int|
            i + run < k && k + 1 < n && #[trigger] strike_close_at(text, k) {
            Err("strikethrough")
        } else {
            Ok((i + run, chain, acc + text.subrange(i, i + run), Some('~')))
        }
    } else {
        let oos = i + 2 < n && is_ascii_ws(text[i + 2]);
        let lit = Ok((i + 2, chain, acc + seq!['~', '~'], Some('~')));
        if parent == Some(Elem::Del) || oos {
            lit
        } else {
            let st = Stop { type_char: '~', delim_len: 2, elem: Elem::Del };
            match scan_spec(defs, text.subrange(i + 2, n), Some(st), in_em, in_strong, Some(Elem::Del)) {
                Err(w) => Err(w),
                Ok((inner, Some(cl))) => Ok(
                    (i + 2 + cl + 2, flush_v(chain, acc).push(SpanV::Del(inner)), Seq::empty(), Some('~')),
                ),
                Ok((_, None)) => lit,
            }
        }
    }
}

/// Whether a span IAL may attach to this span.
pub open spec fn ial_target(sp: SpanV) -> bool {
    sp is Link || sp is Image || sp is Em || sp is Strong
}

/// The span with `more` merged into its IAL.
pub open spec fn with_ial(sp: SpanV, more: AttrsV) -> SpanV {
    match sp {
        SpanV::Link { spans, href, title, ial } => SpanV::Link {
            spans,
            href,
            title,
            ial: merge_spec(ial, more),
        },
        SpanV::Image { src, alt, title, ial } => SpanV::Image {
            src,
            alt,
            title,
            ial: merge_spec(ial, more),
        },
        SpanV::Em(s, ial) => SpanV::Em(s, merge_spec(ial, more)),
        SpanV::Strong(s, ial) => SpanV::Strong(s, merge_spec(ial, more)),
        other => other,
    }
}

/// `{:` at `i`: a span IAL right after a link, image or emphasis, merged
/// into it; anything else declines.
pub open spec fn ial_step(
    text: Seq<char>,
    i: int,
    chain: Seq<SpanV>,
    acc: Seq<char>,
    prev: Option<char>,
) -> Result<ScanState, &'static str> {
    let n = text.len() as int;
    if !(i + 2 < n && text[i + 2] == ':') && acc.len() == 0 && chain.len() > 0 && ial_target(
        chain.last(),
    ) {
        match first_at(text, i + 2, '}') {
            Some(cr) => match parse_ial_spec(text.subrange(i + 2, cr)) {
                Some(attrs) => Ok(
                    (cr + 1, chain.drop_last().push(with_ial(chain.last(), attrs)), acc, prev),
                ),
                None => Err("ial-or-extension"),
            },
            None => Err("ial-or-extension"),
        }
    } else {
        Err("ial-or-extension")
    }
}

/// A quote at `i`: its curly form, or a decline for a run of quotes, a
/// quote right after a code span, or a nested-quote pair.
pub open spec fn quote_step(
    text: Seq<char>,
    i: int,
    chain: Seq<SpanV>,
    acc: Seq<char>,
    prev: Option<char>,
) -> Result<ScanState, &'static str> {
    let c = text[i];
    if run_spec(text, i, c) > 1 {
        Err("quote-run")
    } else if acc.len() == 0 && chain.len() > 0 && chain.last() is Code {
        Err("quote-after-code")
    } else {
        match smart_quote_spec(prev, c == '\'', text.subrange(i + 1, text.len() as int)) {
            None => Err("nested-quote"),
            Some(q) => Ok((i + 1, chain, acc.push(q), Some(q))),
        }
    }
}

/// A dash run at `i`: `-`, en dash, em dash; longer runs decline.
pub open spec fn dash_step(text: Seq<char>, i: int, chain: Seq<SpanV>, acc: Seq<char>) -> Result<
    ScanState,
    &'static str,
> {
    let run = run_spec(text, i, '-') as int;
    let x = if run == 1 {
        '-'
    } else if run == 2 {
        NDASH
    } else {
        MDASH
    };
    if 1 <= run <= 3 {
        Ok((i + run, chain, acc.push(x), Some(x)))
    } else {
        Err("dash-run")
    }
}

/// A dot run at `i`: one or two dots stay, three become an ellipsis,
/// longer runs decline.
pub open spec fn dot_step(text: Seq<char>, i: int, chain: Seq<SpanV>, acc: Seq<char>) -> Result<
    ScanState,
    &'static str,
> {
    let run = run_spec(text, i, '.') as int;
    if run == 1 || run == 2 {
        Ok((i + run, chain, acc + text.subrange(i, i + run), Some('.')))
    } else if run == 3 {
        Ok((i + 3, chain, acc.push(HELLIP), Some(HELLIP)))
    } else {
        Err("ellipsis-run")
    }
}

/// The spaces right before `q`, not counting back past `start`.
pub open spec fn sp_count(text: Seq<char>, start: int, q: int) -> int
    decreases q - start,
{
    if q > start && text[q - 1] == ' ' {
        1 + sp_count(text, start, q - 1)
    } else {
        0
    }
}

/// Ordinary text from `p` to `end` (begun at `start`, pending since `seg`):
/// a newline after two or more spaces becomes a hard break, the two
/// spaces before it dropped.
pub open spec fn plain_from(
    text: Seq<char>,
    start: int,
    end: int,
    p: int,
    seg: int,
    chain: Seq<SpanV>,
    acc: Seq<char>,
) -> (Seq<SpanV>, Seq<char>)
    decreases end - p,
{
    if p >= end {
        (chain, acc + text.subrange(seg, end))
    } else if text[p] == '\n' && sp_count(text, start, p) >= 2 && seg <= p - 2 {
        plain_from(
            text,
            start,
            end,
            p + 1,
            p,
            flush_v(chain, acc + text.subrange(seg, p - 2)).push(br_v()),
            Seq::empty(),
        )
    } else {
        plain_from(text, start, end, p + 1, seg, chain, acc)
    }
}

/// Ordinary text from `i` up to the next trigger.
pub open spec fn plain_step(text: Seq<char>, i: int, chain: Seq<SpanV>, acc: Seq<char>) -> Result<
    ScanState,
    &'static str,
> {
    let e = trig_from(text, i + 1);
    let (c2, a2) = plain_from(text, i, e, i, i, chain, acc);
    Ok((e, c2, a2, Some(text[e - 1])))
}

/// One step of the scan at `i` (where the watched close does not fire),
/// chosen by the char there.
pub open spec fn step_spec(
    defs: Seq<LinkDef>,
    text: Seq<char>,
    i: int,
    in_em: bool,
    in_strong: bool,
    parent: Option<Elem>,
    chain: Seq<SpanV>,
    acc: Seq<char>,
    prev: Option<char>,
) -> Result<ScanState, &'static str>
    decreases text.len(), 1int, 0int,
{
    let n = text.len() as int;
    let c = text[i];
    if !(0 <= i < n) {
        Err("scan-bounds")
    } else if c == '\\' && i + 1 < n {
        esc_step(text, i, chain, acc)
    } else if c == '`' {
        code_step(text, i, chain, acc, prev)
    } else if c == '*' || c == '_' {
        emph_step(defs, text, i, in_em, in_strong, parent, chain, acc, prev)
    } else if c == '[' {
        bracket_step(defs, text, i, in_em, in_strong, parent, chain, acc)
    } else if c == '!' && i + 1 < n && text[i + 1] == '[' {
        image_step(defs, text, i, chain, acc)
    } else if c == '<' {
        angle_step(defs, text, i, chain, acc)
    } else if c == '>' && i + 1 < n && text[i + 1] == '>' {
        Err("guillemets")
    } else if c == '&' {
        amp_step(text, i, chain, acc)
    } else if c == '~' && i + 1 < n && text[i + 1] == '~' {
        tilde_step(defs, text, i, in_em, in_strong, parent, chain, acc)
    } else if c == '{' && i + 1 < n && text[i + 1] == ':' {
        ial_step(text, i, chain, acc, prev)
    } else if c == '\'' || c == '"' {
        quote_step(text, i, chain, acc, prev)
    } else if c == '-' {
        dash_step(text, i, chain, acc)
    } else if c == '.' {
        dot_step(text, i, chain, acc)
    } else if is_trigger_spec(c) {
        Ok((i + 1, chain, acc.push(c), Some(c)))
    } else {
        plain_step(text, i, chain, acc)
    }
}

/// The scan from state `(i, chain, acc, prev)` to its end: the spans and
/// where the watched close fired, or `Err` for a decline.
pub open spec fn scan_from(
    defs: Seq<LinkDef>,
    text: Seq<char>,
    stop: Option<Stop>,
    in_em: bool,
    in_strong: bool,
    parent: Option<Elem>,
    i: int,
    chain: Seq<SpanV>,
    acc: Seq<char>,
    prev: Option<char>,
) -> Result<(Seq<SpanV>, Option<int>), &'static str>
    decreases text.len(), 2int, text.len() - i,
{
    if i < 0 || i >= text.len() {
        Ok((flush_v(chain, acc), None))
    } else if stop_fires(text, i, stop, chain, acc, prev) {
        Ok((flush_v(chain, acc), Some(i)))
    } else {
        match step_spec(defs, text, i, in_em, in_strong, parent, chain, acc, prev) {
            Err(w) => Err(w),
            Ok((i2, c2, a2, p2)) => if i < i2 <= text.len() {
                scan_from(defs, text, stop, in_em, in_strong, parent, i2, c2, a2, p2)
            } else {
                Err("scan-bounds")
            },
        }
    }
}

/// The spans `text` parses into (watching for `stop`, inside emphasis of
/// the flagged kinds, under `parent`), with where the close fired; `Err`
/// where the parser declines.
pub open spec fn scan_spec(
    defs: Seq<LinkDef>,
    text: Seq<char>,
    stop: Option<Stop>,
    in_em: bool,
    in_strong: bool,
    parent: Option<Elem>,
) -> Result<(Seq<SpanV>, Option<int>), &'static str>
    decreases text.len(), 3int, 0int,
{
    scan_from(defs, text, stop, in_em, in_strong, parent, 0, Seq::empty(), Seq::empty(), None)
}

} // verus!
