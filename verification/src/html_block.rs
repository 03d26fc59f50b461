//! Raw HTML re-serialization, matching kramdown's default
//! (`parse_block_html: false`) HTML parser + `Converter::Html`. kramdown
//! does NOT pass an HTML block through verbatim — it parses it into a tree
//! and re-serializes: tag/attr names lowercased, attribute values
//! re-quoted with `"` and HTML-attribute-escaped, attribute order
//! preserved, boolean attributes written `name=""`, void elements closed
//! ` />`, and text content HTML-escaped (`<`/`>`/bare `&`) with recognized
//! entities kept verbatim. Markdown inside is NOT parsed.
//!
//! A conservative subset is reproduced and the rest declined: the block
//! must start at column 0 with a block-level element and close at a line
//! boundary; comments, `script`/`style` raw text and the ordinary element
//! tree are handled, while `pre`/`textarea`/`title`/`option`/`math`, a
//! `markdown=` attribute, and malformed / unclosed / mismatched structure
//! bail to `None`.

use vstd::prelude::*;
use crate::text::{push_char, extends, group_extends, eq_str, eq_chars, has_prefix, starts_with, chars_of, to_vec, push_all, push_str, lower_ascii, ascii_lower, ascii_alpha, ascii_alnum, is_ascii_alnum, is_ascii_alpha, contains_char, find_char, find_char_from, find_seq, is_blank, occurs_at};
use crate::entities::{parse_entity, entity_at_spec, digits_then_semi, name_then_semi, digits_start, radix_of, digit_spec};

verus! {

broadcast use group_extends;

/// `name` equals one of the literals in `set`.
fn name_is_one_of(name: &[char], set: &Vec<&str>) -> (r: bool)
    ensures
        r == exists|i: int| 0 <= i < set@.len() && #[trigger] set@[i]@ == name@,
{
    let mut i: usize = 0;
    while i < set.len()
        invariant
            i <= set@.len(),
            forall|k: int| 0 <= k < i ==> #[trigger] set@[k]@ != name@,
        decreases set@.len() - i,
    {
        if eq_str(name, set[i]) {
            return true;
        }
        i = i + 1;
    }
    false
}

/// kramdown `HTML_ELEMENTS_WITHOUT_BODY` — serialized ` />`, no close tag.
pub open spec fn is_void_spec(n: Seq<char>) -> bool {
    n == "area"@ || n == "base"@ || n == "br"@ || n == "col"@ || n == "command"@ || n == "embed"@
        || n == "hr"@ || n == "img"@ || n == "input"@ || n == "keygen"@ || n == "link"@ || n
        == "meta"@ || n == "param"@ || n == "source"@ || n == "track"@ || n == "wbr"@
}

pub fn is_void(name: &[char]) -> (r: bool)
    ensures
        r == is_void_spec(name@),
{
    eq_str(name, "area") || eq_str(name, "base") || eq_str(name, "br") || eq_str(name, "col")
        || eq_str(name, "command") || eq_str(name, "embed") || eq_str(name, "hr") || eq_str(
        name,
        "img",
    ) || eq_str(name, "input") || eq_str(name, "keygen") || eq_str(name, "link") || eq_str(
        name,
        "meta",
    ) || eq_str(name, "param") || eq_str(name, "source") || eq_str(name, "track") || eq_str(
        name,
        "wbr",
    )
}

/// Span-content elements (`code`/`kbd`/`samp`/`var`) whose body kramdown
/// parses for nested HTML but NOT markdown.
pub open spec fn is_escaped_raw_spec(n: Seq<char>) -> bool {
    n == "code"@ || n == "kbd"@ || n == "samp"@ || n == "var"@
}

pub fn is_escaped_raw(name: &[char]) -> (r: bool)
    ensures
        r == is_escaped_raw_spec(name@),
{
    eq_str(name, "code") || eq_str(name, "kbd") || eq_str(name, "samp") || eq_str(name, "var")
}

/// Raw-text elements whose content kramdown keeps verbatim.
pub open spec fn is_raw_text_spec(n: Seq<char>) -> bool {
    n == "script"@ || n == "style"@
}

pub fn is_raw_text(name: &[char]) -> (r: bool)
    ensures
        r == is_raw_text_spec(name@),
{
    eq_str(name, "script") || eq_str(name, "style")
}

/// Raw-content elements with bespoke whitespace / escaping rules that are
/// not reproduced — out of subset.
pub open spec fn is_decline_raw_spec(n: Seq<char>) -> bool {
    n == "math"@ || n == "textarea"@ || n == "title"@ || n == "option"@ || n == "pre"@
}

pub fn is_decline_raw(name: &[char]) -> (r: bool)
    ensures
        r == is_decline_raw_spec(name@),
{
    eq_str(name, "math") || eq_str(name, "textarea") || eq_str(name, "title") || eq_str(
        name,
        "option",
    ) || eq_str(name, "pre")
}

/// The non-void, non-escaped span-level element names.
pub open spec fn is_span_name_spec(n: Seq<char>) -> bool {
    ||| n == "a"@ || n == "abbr"@ || n == "acronym"@ || n == "b"@ || n == "bdo"@ || n == "big"@
    ||| n == "button"@ || n == "cite"@ || n == "del"@ || n == "dfn"@ || n == "em"@ || n == "i"@
    ||| n == "ins"@ || n == "label"@ || n == "mark"@ || n == "q"@ || n == "rb"@ || n == "rbc"@
    ||| n == "rp"@ || n == "rt"@ || n == "rtc"@ || n == "ruby"@ || n == "s"@ || n == "small"@
    ||| n == "span"@ || n == "strike"@ || n == "strong"@ || n == "sub"@ || n == "sup"@
    ||| n == "time"@ || n == "tt"@ || n == "u"@
}

/// Inline (span-level) HTML elements kramdown re-serializes in span context
/// while parsing markdown inside them.
pub open spec fn is_inline_spec(n: Seq<char>) -> bool {
    is_void_spec(n) || is_escaped_raw_spec(n) || is_span_name_spec(n)
}

pub fn is_inline(name: &[char]) -> (r: bool)
    ensures
        r == is_inline_spec(name@),
{
    if is_void(name) || is_escaped_raw(name) {
        return true;
    }
    eq_str(name, "a") || eq_str(name, "abbr") || eq_str(name, "acronym") || eq_str(name, "b")
        || eq_str(name, "bdo") || eq_str(name, "big") || eq_str(name, "button") || eq_str(
        name,
        "cite",
    ) || eq_str(name, "del") || eq_str(name, "dfn") || eq_str(name, "em") || eq_str(name, "i")
        || eq_str(name, "ins") || eq_str(name, "label") || eq_str(name, "mark") || eq_str(
        name,
        "q",
    ) || eq_str(name, "rb") || eq_str(name, "rbc") || eq_str(name, "rp") || eq_str(name, "rt")
        || eq_str(name, "rtc") || eq_str(name, "ruby") || eq_str(name, "s") || eq_str(
        name,
        "small",
    ) || eq_str(name, "span") || eq_str(name, "strike") || eq_str(name, "strong") || eq_str(
        name,
        "sub",
    ) || eq_str(name, "sup") || eq_str(name, "time") || eq_str(name, "tt") || eq_str(name, "u")
}

/// Whether `name` starts a top-level HTML block: a known block element or an
/// unknown/custom element, but not a span element or a bespoke raw one.
pub open spec fn is_block_start_spec(n: Seq<char>) -> bool {
    !is_decline_raw_spec(n) && !is_inline_spec(n)
}

pub fn is_block_start(name: &[char]) -> (r: bool)
    ensures
        r == is_block_start_spec(name@),
{
    !is_decline_raw(name) && !is_inline(name)
}

/// A tag-name char: ASCII alphanumeric or `-`.
pub open spec fn is_name_char(c: char) -> bool {
    is_ascii_alnum(c) || c == '-'
}

pub fn name_char(c: char) -> (r: bool)
    ensures
        r == is_name_char(c),
{
    ascii_alnum(c) || c == '-'
}

/// End of the run of tag-name chars of `s` starting at `from`.
pub open spec fn name_run(s: Seq<char>, from: int) -> int
    decreases s.len() - from,
{
    if 0 <= from < s.len() && is_name_char(s[from]) {
        name_run(s, from + 1)
    } else {
        from
    }
}

/// End of the run of tag-name chars of `s` starting at `from`.
pub fn name_end(s: &[char], from: usize) -> (j: usize)
    requires
        from <= s@.len(),
    ensures
        j == name_run(s@, from as int),
        from <= j <= s@.len(),
        forall|k: int| from <= k < j ==> is_name_char(#[trigger] s@[k]),
        j < s@.len() ==> !is_name_char(s@[j as int]),
{
    let mut j = from;
    while j < s.len() && name_char(s[j])
        invariant
            from <= j <= s@.len(),
            name_run(s@, from as int) == name_run(s@, j as int),
            forall|k: int| from <= k < j ==> is_name_char(#[trigger] s@[k]),
        decreases s@.len() - j,
    {
        j = j + 1;
    }
    j
}

/// The ASCII-lowercase of a sequence.
pub open spec fn lower_seq(s: Seq<char>) -> Seq<char> {
    Seq::new(s.len(), |i: int| ascii_lower(s[i]))
}

/// The tag name opening `line` (`<name` ended by whitespace, `>`, `/` or the
/// end), lowercased.
pub open spec fn leading_tag_spec(line: Seq<char>) -> Option<Seq<char>> {
    if line.len() == 0 || line[0] != '<' {
        None
    } else {
        let j = name_run(line, 1);
        if j == 1 {
            None
        } else if j < line.len() && !(line[j] == ' ' || line[j] == '\t' || line[j] == '>' || line[j]
            == '/') {
            None
        } else {
            Some(lower_seq(line.subrange(1, j)))
        }
    }
}

/// If `line` begins with a tag-name token `<name` (terminated by whitespace,
/// `>`, or `/`), return the lowercased `name`; else `None`.
pub fn leading_tag_name(line: &[char]) -> (r: Option<Vec<char>>)
    ensures
        match leading_tag_spec(line@) {
            Some(n) => r matches Some(v) && v@ == n,
            None => r is None,
        },
{
    if line.len() == 0 || line[0] != '<' {
        return None;
    }
    let j = name_end(line, 1);
    if j == 1 {
        return None;
    }
    if j < line.len() && !(line[j] == ' ' || line[j] == '\t' || line[j] == '>' || line[j] == '/') {
        return None;
    }
    let r = lower_ascii(&line[1..j]);
    assert(r@ =~= lower_seq(line@.subrange(1, j as int)));
    Some(r)
}

/// Whether `line` begins a supported HTML block: a comment, or `<name` with
/// `name` a block-start element.
/// The line opens a raw HTML block: a comment, or a block-level start tag.
pub open spec fn html_block_start_spec(line: Seq<char>) -> bool {
    has_prefix(line, "<!--"@) || match leading_tag_spec(line) {
        Some(n) => is_block_start_spec(n),
        None => false,
    }
}

pub fn starts_html_block(line: &[char]) -> (r: bool)
    ensures
        r == html_block_start_spec(line@),
{
    if starts_with(line, "<!--") {
        return true;
    }
    match leading_tag_name(line) {
        Some(n) => is_block_start(n.as_slice()),
        None => false,
    }
}

/// Whether `line` begins with a span-level element that opens a paragraph:
/// a non-void inline element, or one of the span-level voids `br`/`img`/`input`.
/// `line` opens with a span-level element's start tag (a non-void inline
/// element, or `br`/`img`/`input`).
pub open spec fn span_open_spec(line: Seq<char>) -> bool {
    match leading_tag_spec(line) {
        Some(n) => (is_inline_spec(n) && !is_void_spec(n)) || n == "br"@ || n == "img"@ || n
            == "input"@,
        None => false,
    }
}

pub fn starts_span_element(line: &[char]) -> (r: bool)
    ensures
        r == span_open_spec(line@),
{
    match leading_tag_name(line) {
        Some(n) => {
            let s = n.as_slice();
            (is_inline(s) && !is_void(s)) || eq_str(s, "br") || eq_str(s, "img") || eq_str(
                s,
                "input",
            )
        },
        None => false,
    }
}

/// Whether `line` begins with the closing tag of a non-void span-level
/// element (`</em>`, `</a>`, …).
pub fn starts_span_element_close(line: &[char]) -> (r: bool)
    ensures
        r ==> line@.len() > 2 && line@[0] == '<' && line@[1] == '/',
        r == span_close_spec(line@),
{
    if line.len() < 2 || line[0] != '<' || line[1] != '/' {
        return false;
    }
    let j = name_end(line, 2);
    if j == 2 {
        return false;
    }
    let name = lower_ascii(&line[2..j]);
    assert(name@ =~= lower_seq(line@.subrange(2, j as int)));
    is_inline(name.as_slice()) && !is_void(name.as_slice())
}

/// `</name` opening `line`, `name` (lowercased) a non-void span-level
/// element.
pub open spec fn span_close_spec(line: Seq<char>) -> bool {
    &&& line.len() >= 2 && line[0] == '<' && line[1] == '/'
    &&& name_run(line, 2) > 2
    &&& is_inline_spec(lower_seq(line.subrange(2, name_run(line, 2))))
    &&& !is_void_spec(lower_seq(line.subrange(2, name_run(line, 2))))
}

/// Length of the entity reference opening `s` (which begins with `&`),
/// when it opens with a recognized one.
pub open spec fn entity_len(s: Seq<char>) -> Option<int> {
    if exists|r: (u32, usize)| #[trigger] entity_at_spec(s, Some(r)) {
        Some((choose|r: (u32, usize)| #[trigger] entity_at_spec(s, Some(r))).1 as int)
    } else {
        None
    }
}

/// What the entity parser reports fixes `entity_len`.
proof fn lemma_entity_len(s: Seq<char>, r: Option<(u32, usize)>)
    requires
        s.len() >= 1,
        entity_at_spec(s, r),
    ensures
        match r {
            Some((_, len)) => entity_len(s) == Some(len as int) && 1 <= len <= s.len(),
            None => entity_len(s) is None,
        },
{
    match r {
        Some((cp, len)) => {
            assert(entity_at_spec(s, Some((cp, len))));
            let o = choose|x: (u32, usize)| #[trigger] entity_at_spec(s, Some(x));
            assert(entity_at_spec(s, Some(o)));
            if s.len() > 1 && s[1] == '#' {
                let start = digits_start(s);
                let radix = radix_of(s);
                if (o.1 as int) < (len as int) {
                    assert(digit_spec(s[o.1 - 1], radix).is_some());
                } else if (len as int) < (o.1 as int) {
                    assert(digit_spec(s[len - 1], radix).is_some());
                }
            } else {
                if (o.1 as int) < (len as int) {
                    assert(crate::text::is_ascii_alnum(s[o.1 - 1]));
                } else if (len as int) < (o.1 as int) {
                    assert(crate::text::is_ascii_alnum(s[len - 1]));
                }
            }
        },
        None => {
            assert forall|x: (u32, usize)| !#[trigger] entity_at_spec(s, Some(x)) by {
                if entity_at_spec(s, Some(x)) {
                    if s.len() > 1 && s[1] == '#' {
                        assert(digits_then_semi(s, digits_start(s), x.1 - 1, radix_of(s)));
                    } else {
                        assert(name_then_semi(s, x.1 - 1));
                    }
                }
            }
        },
    }
}

/// kramdown's text-node escape: `<` and `>` escaped, a recognized entity
/// reference kept verbatim, any other `&` escaped.
pub open spec fn node_text(s: Seq<char>) -> Seq<char>
    decreases s.len(),
{
    if s.len() == 0 {
        Seq::empty()
    } else {
        let rest = s.subrange(1, s.len() as int);
        if s[0] == '<' {
            "&lt;"@ + node_text(rest)
        } else if s[0] == '>' {
            "&gt;"@ + node_text(rest)
        } else if s[0] == '&' {
            match entity_len(s) {
                Some(n) => if 1 <= n <= s.len() {
                    s.subrange(0, n) + node_text(s.subrange(n, s.len() as int))
                } else {
                    "&amp;"@ + node_text(rest)
                },
                None => "&amp;"@ + node_text(rest),
            }
        } else {
            seq![s[0]] + node_text(rest)
        }
    }
}

/// kramdown's attribute escape: as a text node, and `"` escaped too.
pub open spec fn node_attr(s: Seq<char>) -> Seq<char>
    decreases s.len(),
{
    if s.len() == 0 {
        Seq::empty()
    } else {
        let rest = s.subrange(1, s.len() as int);
        if s[0] == '<' {
            "&lt;"@ + node_attr(rest)
        } else if s[0] == '>' {
            "&gt;"@ + node_attr(rest)
        } else if s[0] == '"' {
            "&quot;"@ + node_attr(rest)
        } else if s[0] == '&' {
            match entity_len(s) {
                Some(n) => if 1 <= n <= s.len() {
                    s.subrange(0, n) + node_attr(s.subrange(n, s.len() as int))
                } else {
                    "&amp;"@ + node_attr(rest)
                },
                None => "&amp;"@ + node_attr(rest),
            }
        } else {
            seq![s[0]] + node_attr(rest)
        }
    }
}

/// Append `text` HTML-escaped (`<`/`>`/bare-`&`), keeping a recognized
/// entity reference verbatim — kramdown's text-node output.
pub fn push_escaped_text(out: &mut Vec<char>, text: &[char])
    ensures
        final(out)@ == old(out)@ + node_text(text@),
        extends(final(out)@, old(out)@),
{
    let ghost start = out@;
    let mut k: usize = 0;
    assert(text@.subrange(0, text@.len() as int) =~= text@);
    while k < text.len()
        invariant
            k <= text@.len(),
            extends(out@, start),
            out@ + node_text(text@.subrange(k as int, text@.len() as int)) == start + node_text(text@),
        decreases text@.len() - k,
    {
        let ghost before = out@;
        let ghost rest = text@.subrange(k as int, text@.len() as int);
        assert(rest.subrange(1, rest.len() as int) =~= text@.subrange(k + 1, text@.len() as int));
        let c = text[k];
        if c == '<' {
            push_str(out, "&lt;");
            k = k + 1;
        } else if c == '>' {
            push_str(out, "&gt;");
            k = k + 1;
        } else if c == '&' {
            let r = parse_entity(&text[k..text.len()]);
            proof {
                lemma_entity_len(rest, r);
            }
            match r {
                Some((_, len)) => {
                    assert(rest.subrange(0, len as int) =~= text@.subrange(k as int, k + len));
                    assert(rest.subrange(len as int, rest.len() as int) =~= text@.subrange(
                        k + len,
                        text@.len() as int,
                    ));
                    push_all(out, &text[k..k + len]);
                    k = k + len;
                },
                None => {
                    push_str(out, "&amp;");
                    k = k + 1;
                },
            }
        } else {
            push_char(out, c);
            k = k + 1;
        }
        assert(out@ + node_text(text@.subrange(k as int, text@.len() as int)) =~= start + node_text(
            text@,
        ));
    }
    assert(node_text(text@.subrange(k as int, text@.len() as int)) =~= Seq::<char>::empty());
    assert(out@ =~= start + node_text(text@));
}

/// Append `value` HTML-attribute-escaped (`&`/`<`/`>`/`"`), entities kept
/// verbatim — kramdown's `escape_html(:attribute)`.
pub fn push_escaped_attr(out: &mut Vec<char>, value: &[char])
    ensures
        final(out)@ == old(out)@ + node_attr(value@),
        extends(final(out)@, old(out)@),
{
    let ghost start = out@;
    let mut k: usize = 0;
    assert(value@.subrange(0, value@.len() as int) =~= value@);
    while k < value.len()
        invariant
            k <= value@.len(),
            extends(out@, start),
            out@ + node_attr(value@.subrange(k as int, value@.len() as int)) == start + node_attr(value@),
        decreases value@.len() - k,
    {
        let ghost before = out@;
        let ghost rest = value@.subrange(k as int, value@.len() as int);
        assert(rest.subrange(1, rest.len() as int) =~= value@.subrange(k + 1, value@.len() as int));
        let c = value[k];
        if c == '<' {
            push_str(out, "&lt;");
            k = k + 1;
        } else if c == '>' {
            push_str(out, "&gt;");
            k = k + 1;
        } else if c == '"' {
            push_str(out, "&quot;");
            k = k + 1;
        } else if c == '&' {
            let r = parse_entity(&value[k..value.len()]);
            proof {
                lemma_entity_len(rest, r);
            }
            match r {
                Some((_, len)) => {
                    assert(rest.subrange(0, len as int) =~= value@.subrange(k as int, k + len));
                    assert(rest.subrange(len as int, rest.len() as int) =~= value@.subrange(
                        k + len,
                        value@.len() as int,
                    ));
                    push_all(out, &value[k..k + len]);
                    k = k + len;
                },
                None => {
                    push_str(out, "&amp;");
                    k = k + 1;
                },
            }
        } else {
            push_char(out, c);
            k = k + 1;
        }
        assert(out@ + node_attr(value@.subrange(k as int, value@.len() as int)) =~= start + node_attr(
            value@,
        ));
    }
    assert(node_attr(value@.subrange(k as int, value@.len() as int)) =~= Seq::<char>::empty());
    assert(out@ =~= start + node_attr(value@));
}

/// The first index at or after `p` that is not a space, tab or newline.
pub open spec fn ws_run(s: Seq<char>, p: int) -> int
    decreases s.len() - p,
{
    if 0 <= p < s.len() && (s[p] == ' ' || s[p] == '\t' || s[p] == '\n') {
        ws_run(s, p + 1)
    } else {
        p
    }
}

/// The end of the attribute-name chars from `p`.
pub open spec fn attr_run(s: Seq<char>, p: int) -> int
    decreases s.len() - p,
{
    if 0 <= p < s.len() && is_attr_char(s[p]) {
        attr_run(s, p + 1)
    } else {
        p
    }
}

/// The end of a bare attribute value from `p`: the first whitespace, `>`
/// or `/`.
pub open spec fn bare_run(s: Seq<char>, p: int) -> int
    decreases s.len() - p,
{
    if 0 <= p < s.len() && !(s[p] == ' ' || s[p] == '\t' || s[p] == '\n' || s[p] == '>' || s[p]
        == '/') {
        bare_run(s, p + 1)
    } else {
        p
    }
}

/// An attribute value at `pos`: quoted (up to the matching quote) or bare
/// (non-empty); its range and the position after it.
pub open spec fn attr_value_spec(s: Seq<char>, pos: int) -> Option<(int, int, int)> {
    if pos < 0 || pos >= s.len() {
        None
    } else {
        let q = s[pos];
        if q == '"' || q == '\'' {
            match crate::inline::first_at(s, pos + 1, q) {
                None => None,
                Some(p) => Some((pos + 1, p, p + 1)),
            }
        } else {
            let p = bare_run(s, pos);
            if p == pos {
                None
            } else {
                Some((pos, p, p))
            }
        }
    }
}

/// One attribute whose name starts at `q`: ` name="value"` (name
/// lowercased, value attribute-escaped, a bare name given an empty value)
/// and the position after it; `None` for `markdown`, a value with a
/// newline, or a malformed value.
pub open spec fn attr_item_spec(s: Seq<char>, q: int) -> Option<(Seq<char>, int)> {
    let ne = attr_run(s, q);
    let aname = lower_seq(s.subrange(q, ne));
    if aname == "markdown"@ {
        None
    } else {
        let p2 = ws_run(s, ne);
        let head = " "@ + aname + "=\""@;
        if p2 < s.len() && s[p2] == '=' {
            match attr_value_spec(s, ws_run(s, p2 + 1)) {
                None => None,
                Some((a, b, next)) => if s.subrange(a, b).contains('\n') {
                    None
                } else {
                    Some((head + node_attr(s.subrange(a, b)) + "\""@, next))
                },
            }
        } else {
            Some((head + "\""@, p2))
        }
    }
}

/// `x` put before what an attribute list serializes to.
pub open spec fn prefix_attrs(x: Seq<char>, o: Option<(Seq<char>, bool, int)>) -> Option<
    (Seq<char>, bool, int),
> {
    match o {
        None => None,
        Some((r, sc, e)) => Some((x + r, sc, e)),
    }
}

/// The attribute list from `p` up to the tag's end: each `name[=value]`
/// as ` name="value"` (name lowercased, value attribute-escaped, a bare
/// name given an empty value), then whether the tag self-closed (`/>`) and
/// the position past it. `None` for a `markdown` attribute, a value with a
/// newline, or anything malformed.
pub open spec fn attrs_spec(s: Seq<char>, p: int) -> Option<(Seq<char>, bool, int)>
    decreases s.len() - p,
{
    if p < 0 {
        None
    } else {
        let q = ws_run(s, p);
        if q >= s.len() {
            None
        } else if s[q] == '>' {
            Some((Seq::empty(), false, q + 1))
        } else if s[q] == '/' {
            if q + 1 < s.len() && s[q + 1] == '>' {
                Some((Seq::empty(), true, q + 2))
            } else {
                None
            }
        } else if is_ascii_alpha(s[q]) || s[q] == '_' || s[q] == ':' {
            match attr_item_spec(s, q) {
                None => None,
                Some((item, p3)) => if p3 == q || p3 <= p || p3 > s.len() {
                    None
                } else {
                    prefix_attrs(item, attrs_spec(s, p3))
                },
            }
        } else {
            None
        }
    }
}

proof fn lemma_ws_run(s: Seq<char>, p: int)
    requires
        0 <= p <= s.len(),
    ensures
        p <= ws_run(s, p) <= s.len(),
    decreases s.len() - p,
{
    if p < s.len() && (s[p] == ' ' || s[p] == '\t' || s[p] == '\n') {
        lemma_ws_run(s, p + 1);
    }
}

/// Skip spaces, tabs and newlines from `pos`.
pub fn skip_ws(s: &[char], pos: usize) -> (r: usize)
    requires
        pos <= s@.len(),
    ensures
        r == ws_run(s@, pos as int),
        pos <= r <= s@.len(),
        forall|k: int| pos <= k < r ==> (#[trigger] s@[k] == ' ' || s@[k] == '\t' || s@[k] == '\n'),
        r < s@.len() ==> !(s@[r as int] == ' ' || s@[r as int] == '\t' || s@[r as int] == '\n'),
{
    let mut p = pos;
    while p < s.len() && (s[p] == ' ' || s[p] == '\t' || s[p] == '\n')
        invariant
            pos <= p <= s@.len(),
            ws_run(s@, pos as int) == ws_run(s@, p as int),
            forall|k: int| pos <= k < p ==> (#[trigger] s@[k] == ' ' || s@[k] == '\t' || s@[k] == '\n'),
        decreases s@.len() - p,
    {
        p = p + 1;
    }
    p
}

/// Parse an attribute value at `pos` (quoted or bare), returning the value's
/// range and the position after it.
pub fn attr_value(s: &[char], pos: usize) -> (r: Option<(usize, usize, usize)>)
    requires
        pos <= s@.len(),
    ensures
        r matches Some((a, b, next)) ==> pos <= a <= b <= next <= s@.len() && pos < next,
        match attr_value_spec(s@, pos as int) {
            None => r is None,
            Some((a, b, next)) => r matches Some((a2, b2, n2)) && a2 == a && b2 == b && n2 == next,
        },
{
    if pos >= s.len() {
        return None;
    }
    let q = s[pos];
    if q == '"' || q == '\'' {
        let start = pos + 1;
        let mut p = start;
        while p < s.len() && s[p] != q
            invariant
                start <= p <= s@.len(),
                crate::inline::first_at(s@, start as int, q) == crate::inline::first_at(s@, p as int, q),
            decreases s@.len() - p,
        {
            p = p + 1;
        }
        if p >= s.len() {
            return None;
        }
        Some((start, p, p + 1))
    } else {
        let start = pos;
        let mut p = pos;
        while p < s.len() && !(s[p] == ' ' || s[p] == '\t' || s[p] == '\n' || s[p] == '>' || s[p]
            == '/')
            invariant
                start <= p <= s@.len(),
                bare_run(s@, start as int) == bare_run(s@, p as int),
            decreases s@.len() - p,
        {
            p = p + 1;
        }
        if p == start {
            return None;
        }
        Some((start, p, p))
    }
}

/// An attribute-name char: ASCII alphanumeric or `-`, `_`, `:`, `.`.
pub open spec fn is_attr_char(c: char) -> bool {
    is_ascii_alnum(c) || c == '-' || c == '_' || c == ':' || c == '.'
}

/// Serialize the attribute list at `pos`, returning whether the tag
/// self-closed (`/>`) and the position just past the `>`.
/// Serialize the one attribute whose name starts at `q`, returning the
/// position after it.
fn attr_item(s: &[char], q: usize, out: &mut Vec<char>) -> (r: Option<usize>)
    requires
        q < s@.len(),
        is_attr_char(s@[q as int]),
    ensures
        extends(final(out)@, old(out)@),
        r matches Some(p3) ==> q < p3 <= s@.len(),
        match attr_item_spec(s@, q as int) {
            None => r is None,
            Some((item, p3)) => r matches Some(p4) && p4 == p3 && final(out)@ == old(out)@ + item,
        },
{
    let ghost o0 = out@;
    let mut p = q;
    while p < s.len() && (ascii_alnum(s[p]) || s[p] == '-' || s[p] == '_' || s[p] == ':' || s[p]
        == '.')
        invariant
            q <= p <= s@.len(),
            attr_run(s@, q as int) == attr_run(s@, p as int),
        decreases s@.len() - p,
    {
        p = p + 1;
    }
    let aname = lower_ascii(&s[q..p]);
    assert(aname@ =~= lower_seq(s@.subrange(q as int, p as int)));
    if eq_str(aname.as_slice(), "markdown") {
        return None;
    }
    p = skip_ws(s, p);
    push_char(out, ' ');
    push_all(out, aname.as_slice());
    push_str(out, "=\"");
    proof {
        reveal_strlit(" ");
        reveal_strlit("\"");
    }
    let ghost head = " "@ + aname@ + "=\""@;
    assert(out@ =~= o0 + head);
    if p < s.len() && s[p] == '=' {
        p = skip_ws(s, p + 1);
        match attr_value(s, p) {
            Some((a, b, next)) => {
                if contains_char(&s[a..b], '\n') {
                    return None;
                }
                push_escaped_attr(out, &s[a..b]);
                push_char(out, '"');
                assert(out@ =~= o0 + (head + node_attr(s@.subrange(a as int, b as int)) + "\""@));
                return Some(next);
            },
            None => {
                return None;
            },
        }
    }
    push_char(out, '"');
    assert(out@ =~= o0 + (head + "\""@));
    Some(p)
}

/// Serialize the attribute list at `pos`, returning whether the tag
/// self-closed (`/>`) and the position just past the `>`.
pub fn attributes(s: &[char], pos: usize, out: &mut Vec<char>) -> (r: Option<(bool, usize)>)
    requires
        pos <= s@.len(),
    ensures
        r matches Some((_, next)) ==> pos < next <= s@.len(),
        extends(final(out)@, old(out)@),
        match attrs_spec(s@, pos as int) {
            None => r is None,
            Some((o, sc, e)) => r matches Some((sc2, e2)) && sc2 == sc && e2 == e && final(out)@
                == old(out)@ + o,
        },
{
    let ghost start = out@;
    let mut p = pos;
    assert(out@.subrange(start.len() as int, out@.len() as int) =~= Seq::<char>::empty());
    assert(prefix_attrs(Seq::empty(), attrs_spec(s@, pos as int)) =~= attrs_spec(s@, pos as int)) by {
        match attrs_spec(s@, pos as int) {
            Some((o, sc, e)) => {
                assert(Seq::<char>::empty() + o =~= o);
            },
            None => {},
        }
    }
    loop
        invariant
            pos <= p <= s@.len(),
            start == old(out)@,
            extends(out@, start),
            out@ == start + out@.subrange(start.len() as int, out@.len() as int),
            attrs_spec(s@, pos as int) == prefix_attrs(
                out@.subrange(start.len() as int, out@.len() as int),
                attrs_spec(s@, p as int),
            ),
        decreases s@.len() - p,
    {
        let ghost p0 = p;
        let ghost x0 = out@.subrange(start.len() as int, out@.len() as int);
        let ghost o1 = out@;
        p = skip_ws(s, p);
        if p >= s.len() {
            return None;
        }
        let c = s[p];
        if c == '>' {
            assert(x0 + Seq::<char>::empty() =~= x0);
            return Some((false, p + 1));
        } else if c == '/' {
            if p + 1 < s.len() && s[p + 1] == '>' {
                assert(x0 + Seq::<char>::empty() =~= x0);
                return Some((true, p + 2));
            }
            return None;
        } else if ascii_alpha(c) || c == '_' || c == ':' {
            let ns = p;
            match attr_item(s, p, out) {
                None => {
                    return None;
                },
                Some(np) => {
                    p = np;
                },
            }
            proof {
                let item = out@.subrange(o1.len() as int, out@.len() as int);
                assert(out@ =~= o1 + item);
                assert(out@.subrange(start.len() as int, out@.len() as int) =~= x0 + item);
                match attrs_spec(s@, p as int) {
                    Some((rr, sc, e)) => {
                        assert(x0 + (item + rr) =~= (x0 + item) + rr);
                    },
                    None => {},
                }
            }
        } else {
            return None;
        }
    }
}

/// A close tag `</name ...>` at `i` (only spaces and tabs before the `>`)
/// whose name matches `name` case-insensitively: the position past it.
pub open spec fn close_tag_spec(s: Seq<char>, i: int, name: Seq<char>) -> Option<int> {
    let nend = name_run(s, i + 2);
    if lower_seq(s.subrange(i + 2, nend)) != name {
        None
    } else {
        let p = crate::text::lead_run(s, nend, true);
        if p < s.len() && s[p] == '>' {
            Some(p + 1)
        } else {
            None
        }
    }
}

/// The position just past a close tag `</name ... >` (only spaces/tabs
/// before the `>`) at `i` (where `s[i..]` starts with `</`), when its name
/// equals `name` case-insensitively.
fn close_tag_at(s: &[char], i: usize, name: &[char]) -> (r: Option<usize>)
    requires
        i + 2 <= s.len(),
    ensures
        r matches Some(p) ==> i < p <= s@.len(),
        match close_tag_spec(s@, i as int, name@) {
            None => r is None,
            Some(p) => r matches Some(p2) && p2 == p,
        },
{
    let nend = name_end(s, i + 2);
    let cand = lower_ascii(&s[i + 2..nend]);
    assert(cand@ =~= lower_seq(s@.subrange(i + 2, nend as int)));
    if !eq_chars(cand.as_slice(), name) {
        return None;
    }
    let mut p = nend;
    while p < s.len() && (s[p] == ' ' || s[p] == '\t')
        invariant
            nend <= p <= s@.len(),
            crate::text::lead_run(s@, nend as int, true) == crate::text::lead_run(s@, p as int, true),
        decreases s@.len() - p,
    {
        p = p + 1;
    }
    if p < s.len() && s[p] == '>' {
        Some(p + 1)
    } else {
        None
    }
}

/// The first `<` at or after `p` (the end when there is none).
pub open spec fn lt_run(s: Seq<char>, p: int) -> int
    decreases s.len() - p,
{
    if 0 <= p < s.len() && s[p] != '<' {
        lt_run(s, p + 1)
    } else {
        p
    }
}

proof fn lemma_lt_run(s: Seq<char>, p: int)
    requires
        0 <= p <= s.len(),
    ensures
        p <= lt_run(s, p) <= s.len(),
    decreases s.len() - p,
{
    if p < s.len() && s[p] != '<' {
        lemma_lt_run(s, p + 1);
    }
}

/// In raw-text content from `p`: the first matching close tag, its start
/// and the position past it.
pub open spec fn raw_close(s: Seq<char>, p: int, name: Seq<char>) -> Option<(int, int)>
    decreases s.len() - p,
{
    if p < 0 || p >= s.len() {
        None
    } else if s[p] == '<' && p + 1 < s.len() && s[p + 1] == '/' && close_tag_spec(s, p, name) is Some {
        Some((p, close_tag_spec(s, p, name)->0))
    } else {
        raw_close(s, p + 1, name)
    }
}

/// `x` put before a serialization.
pub open spec fn prefix_ser(x: Seq<char>, o: Option<(Seq<char>, int)>) -> Option<(Seq<char>, int)> {
    match o {
        None => None,
        Some((r, e)) => Some((x + r, e)),
    }
}

/// The element at `pos` (`s[pos] == '<'`, then a letter), serialized the
/// way kramdown's HTML converter writes it back: the lowercased name and
/// attributes, ` />` for a void or self-closed element, raw text
/// (`script`/`style`) verbatim, other content recursively (text escaped,
/// entities kept, a stray `<` escaped) up to the matching close tag. Gives
/// the HTML and the position past the element; `None` for an element this
/// library declines (`pre`, `textarea`, …), a `markdown` attribute, or
/// anything malformed or unclosed.
pub open spec fn element_spec(s: Seq<char>, pos: int) -> Option<(Seq<char>, int)>
    decreases s.len() - pos, 0int,
{
    if pos < 0 || pos + 1 >= s.len() || !is_ascii_alpha(s[pos + 1]) {
        None
    } else {
        let ne = name_run(s, pos + 1);
        let name = lower_seq(s.subrange(pos + 1, ne));
        if is_decline_raw_spec(name) {
            None
        } else {
            match attrs_spec(s, ne) {
                None => None,
                Some((attrs, sc, after)) => {
                    let open = "<"@ + name + attrs;
                    if is_void_spec(name) || sc {
                        Some((open + " />"@, after))
                    } else if after <= pos || after > s.len() {
                        None
                    } else if is_raw_text_spec(name) {
                        match raw_close(s, after, name) {
                            None => None,
                            Some((cp, end)) => Some(
                                (open + ">"@ + s.subrange(after, cp) + "</"@ + name + ">"@, end),
                            ),
                        }
                    } else {
                        prefix_ser(open + ">"@, content_spec(s, after, name))
                    }
                },
            }
        }
    }
}

/// An element's content from `p` through its close tag `</name>`.
pub open spec fn content_spec(s: Seq<char>, p: int, name: Seq<char>) -> Option<(Seq<char>, int)>
    decreases s.len() - p, 1int,
{
    if p < 0 || p >= s.len() {
        None
    } else if s[p] == '<' {
        if p + 1 < s.len() && s[p + 1] == '/' {
            match close_tag_spec(s, p, name) {
                None => None,
                Some(end) => Some(("</"@ + name + ">"@, end)),
            }
        } else if p + 1 < s.len() && is_ascii_alpha(s[p + 1]) {
            match element_spec(s, p) {
                None => None,
                Some((h, np)) => if np <= p || np > s.len() {
                    None
                } else {
                    prefix_ser(h, content_spec(s, np, name))
                },
            }
        } else {
            prefix_ser("&lt;"@, content_spec(s, p + 1, name))
        }
    } else {
        let t = lt_run(s, p);
        if t <= p || t > s.len() {
            None
        } else {
            prefix_ser(node_text(s.subrange(p, t)), content_spec(s, t, name))
        }
    }
}

proof fn lemma_prefix_ser(x: Seq<char>, y: Seq<char>, o: Option<(Seq<char>, int)>)
    ensures
        prefix_ser(x, prefix_ser(y, o)) == prefix_ser(x + y, o),
{
    match o {
        Some((r, e)) => {
            assert(x + (y + r) =~= (x + y) + r);
        },
        None => {},
    }
}

/// Parse and serialize one element at `pos` (`s[pos] == '<'`, not a close
/// tag), returning the position just past it. `None` ⇒ out of subset.
pub fn element(s: &[char], pos: usize, out: &mut Vec<char>) -> (r: Option<usize>)
    requires
        pos < s@.len(),
    ensures
        r matches Some(p) ==> pos < p <= s@.len(),
        extends(final(out)@, old(out)@),
        match element_spec(s@, pos as int) {
            None => r is None,
            Some((h, e)) => r matches Some(e2) && e2 == e && final(out)@ == old(out)@ + h,
        },
    decreases s@.len() - pos,
{
    let ghost start = out@;
    let _slen = s.len();
    let mut p = pos + 1;
    if p >= s.len() || !ascii_alpha(s[p]) {
        return None;
    }
    let name_start = p;
    p = name_end(s, p);
    let name = lower_ascii(&s[name_start..p]);
    assert(name@ =~= lower_seq(s@.subrange(name_start as int, p as int)));
    if is_decline_raw(name.as_slice()) {
        return None;
    }
    push_char(out, '<');
    push_all(out, name.as_slice());
    let ghost o1 = out@;
    let (self_closed, after) = match attributes(s, p, out) {
        Some(x) => x,
        None => {
            return None;
        },
    };
    let ghost attrs = out@.subrange(o1.len() as int, out@.len() as int);
    proof {
        reveal_strlit("<");
        reveal_strlit(" />");
        reveal_strlit(">");
        reveal_strlit("</");
        assert(out@ =~= start + ("<"@ + name@ + attrs));
    }
    let ghost open = "<"@ + name@ + attrs;
    p = after;
    if is_void(name.as_slice()) || self_closed {
        push_str(out, " />");
        assert(out@ =~= start + (open + " />"@));
        return Some(p);
    }
    push_char(out, '>');
    assert(out@ =~= start + (open + ">"@));
    if is_raw_text(name.as_slice()) {
        let content_start = p;
        assert(element_spec(s@, pos as int) == match raw_close(s@, content_start as int, name@) {
            None => None,
            Some((cp, end)) => Some(
                (open + ">"@ + s@.subrange(content_start as int, cp) + "</"@ + name@ + ">"@, end),
            ),
        });
        while p < s.len()
            invariant
                pos < content_start <= p <= s@.len(),
                start == old(out)@,
                extends(out@, start),
                out@ == start + (open + ">"@),
                element_spec(s@, pos as int) == match raw_close(s@, content_start as int, name@) {
                    None => None,
                    Some((cp, end)) => Some(
                        (open + ">"@ + s@.subrange(content_start as int, cp) + "</"@ + name@ + ">"@,
                        end),
                    ),
                },
                raw_close(s@, content_start as int, name@) == raw_close(s@, p as int, name@),
            decreases s@.len() - p,
        {
            if s[p] == '<' && p + 1 < s.len() && s[p + 1] == '/' {
                if let Some(end) = close_tag_at(s, p, name.as_slice()) {
                    push_all(out, &s[content_start..p]);
                    push_str(out, "</");
                    push_all(out, name.as_slice());
                    push_char(out, '>');
                    proof {
                        reveal_strlit("</");
                        reveal_strlit(">");
                    }
                    assert(out@ =~= start + (open + ">"@ + s@.subrange(content_start as int, p as int)
                        + "</"@ + name@ + ">"@));
                    return Some(end);
                }
            }
            p = p + 1;
        }
        return None;
    }
    assert(element_spec(s@, pos as int) == prefix_ser(open + ">"@, content_spec(s@, p as int, name@)));
    loop
        invariant
            pos < p <= s@.len(),
            start == old(out)@,
            extends(out@, start),
            out@ == start + out@.subrange(start.len() as int, out@.len() as int),
            element_spec(s@, pos as int) == prefix_ser(
                out@.subrange(start.len() as int, out@.len() as int),
                content_spec(s@, p as int, name@),
            ),
        decreases s@.len() - p,
    {
        let ghost x0 = out@.subrange(start.len() as int, out@.len() as int);
        let ghost o4 = out@;
        let ghost p0 = p;
        if p >= s.len() {
            return None;
        }
        if s[p] == '<' {
            if p + 1 < s.len() && s[p + 1] == '/' {
                match close_tag_at(s, p, name.as_slice()) {
                    Some(end) => {
                        push_str(out, "</");
                        push_all(out, name.as_slice());
                        push_char(out, '>');
                        proof {
                            reveal_strlit("</");
                            reveal_strlit(">");
                        }
                        assert(out@ =~= start + (x0 + ("</"@ + name@ + ">"@)));
                        return Some(end);
                    },
                    None => {
                        return None;
                    },
                }
            } else if p + 1 < s.len() && ascii_alpha(s[p + 1]) {
                match element(s, p, out) {
                    Some(np) => {
                        p = np;
                    },
                    None => {
                        return None;
                    },
                }
                proof {
                    let h = out@.subrange(o4.len() as int, out@.len() as int);
                    assert(out@ =~= o4 + h);
                    assert(out@.subrange(start.len() as int, out@.len() as int) =~= x0 + h);
                    lemma_prefix_ser(x0, h, content_spec(s@, p as int, name@));
                }
            } else {
                push_str(out, "&lt;");
                p = p + 1;
                proof {
                    reveal_strlit("&lt;");
                    assert(out@.subrange(start.len() as int, out@.len() as int) =~= x0 + "&lt;"@);
                    lemma_prefix_ser(x0, "&lt;"@, content_spec(s@, p as int, name@));
                }
            }
        } else {
            let ts = p;
            while p < s.len() && s[p] != '<'
                invariant
                    ts <= p <= s@.len(),
                    lt_run(s@, ts as int) == lt_run(s@, p as int),
                decreases s@.len() - p,
            {
                p = p + 1;
            }
            push_escaped_text(out, &s[ts..p]);
            proof {
                let t = node_text(s@.subrange(ts as int, p as int));
                assert(out@.subrange(start.len() as int, out@.len() as int) =~= x0 + t);
                lemma_prefix_ser(x0, t, content_spec(s@, p as int, name@));
            }
        }
    }
}

/// One inline HTML element parsed at a `<` in span context.
pub enum Inline {
    /// Void element (`<br>` → `<br />`): emit verbatim.
    Void(Vec<char>),
    /// Span-content element with markdown NOT parsed inside
    /// (`code`/`kbd`/`samp`/`var`): already serialized — emit verbatim.
    Raw(Vec<char>),
    /// Normal element: emit `open`, then the markdown-parsed content
    /// `s[content_start..content_end]`, then `close`.
    Markdown { open: Vec<char>, content_start: usize, content_end: usize, close: Vec<char> },
}

/// Where an inline element's content from `i` closes: the first close tag
/// `</name>` (its start and the position past it); `None` when a tag of
/// the same name opens first, a close-tag name runs to the end, or none
/// closes.
pub open spec fn inline_close(s: Seq<char>, i: int, name: Seq<char>) -> Option<(int, int)>
    decreases s.len() - i,
{
    if i < 0 || i + 1 >= s.len() {
        None
    } else if s[i] == '<' && s[i + 1] == '/' {
        if name_run(s, i + 2) == s.len() {
            None
        } else {
            match close_tag_spec(s, i, name) {
                Some(e) => Some((i, e)),
                None => inline_close(s, i + 1, name),
            }
        }
    } else if s[i] == '<' && is_ascii_alpha(s[i + 1]) && lower_seq(
        s.subrange(i + 1, name_run(s, i + 1)),
    ) == name {
        None
    } else {
        inline_close(s, i + 1, name)
    }
}

/// Find the matching `</name>` for an inline element whose content starts at
/// `start`, returning `(content_end, after_close)`. Declines on a nested
/// same-name open tag or a missing close.
pub fn find_inline_close(s: &[char], start: usize, name: &[char]) -> (r: Option<(usize, usize)>)
    requires
        start <= s@.len(),
    ensures
        r matches Some((a, b)) ==> start <= a < b <= s@.len(),
        match inline_close(s@, start as int, name@) {
            None => r is None,
            Some((a, b)) => r matches Some((a2, b2)) && a2 == a && b2 == b,
        },
{
    let mut i = start;
    while i < s.len() && i + 1 < s.len()
        invariant
            start <= i <= s@.len(),
            inline_close(s@, start as int, name@) == inline_close(s@, i as int, name@),
        decreases s@.len() - i,
    {
        if s[i] == '<' {
            if s[i + 1] == '/' {
                let nend = name_end(s, i + 2);
                if nend == s.len() {
                    return None;
                }
                let cand = lower_ascii(&s[i + 2..nend]);
                assert(cand@ =~= lower_seq(s@.subrange(i + 2, nend as int)));
                if eq_chars(cand.as_slice(), name) {
                    let mut p = nend;
                    while p < s.len() && (s[p] == ' ' || s[p] == '\t')
                        invariant
                            nend <= p <= s@.len(),
                            crate::text::lead_run(s@, nend as int, true) == crate::text::lead_run(
                                s@,
                                p as int,
                                true,
                            ),
                        decreases s@.len() - p,
                    {
                        p = p + 1;
                    }
                    if p < s.len() && s[p] == '>' {
                        return Some((i, p + 1));
                    }
                }
            } else if ascii_alpha(s[i + 1]) {
                let nend = name_end(s, i + 1);
                let cand = lower_ascii(&s[i + 1..nend]);
                assert(cand@ =~= lower_seq(s@.subrange(i + 1, nend as int)));
                if eq_chars(cand.as_slice(), name) {
                    return None;
                }
            }
        }
        i = i + 1;
    }
    None
}

/// What an inline element at the start of `s` is: a code-like element
/// (`code`/`kbd`/…) serialized whole, a void element serialized with
/// ` />`, or an element whose content the caller parses as markdown — its
/// serialized open tag, content range and close tag; each with the length
/// consumed. `None` for a name that is not an inline element, a
/// self-closed non-void element, or content that never closes.
pub open spec fn inline_rel(s: Seq<char>, r: Option<(Inline, usize)>) -> bool {
    if s.len() < 2 || s[0] != '<' || !is_ascii_alpha(s[1]) {
        r is None
    } else {
        let ne = name_run(s, 1);
        let name = lower_seq(s.subrange(1, ne));
        if !is_inline_spec(name) {
            r is None
        } else if is_escaped_raw_spec(name) {
            match element_spec(s, 0) {
                None => r is None,
                Some((h, e)) => (r matches Some((Inline::Raw(v), e2)) && v@ == h && e2 == e),
            }
        } else {
            match attrs_spec(s, ne) {
                None => r is None,
                Some((attrs, sc, p)) => if is_void_spec(name) {
                    (r matches Some((Inline::Void(v), e2)) && v@ == "<"@ + name + attrs + " />"@ && e2
                        == p)
                } else if sc {
                    r is None
                } else {
                    match inline_close(s, p, name) {
                        None => r is None,
                        Some((ce, ac)) => (r matches Some(
                            (Inline::Markdown { open, content_start, content_end, close }, e2),
                        ) && open@ == "<"@ + name + attrs + ">"@ && content_start == p && content_end
                            == ce && close@ == "</"@ + name + ">"@ && e2 == ac),
                    }
                },
            }
        }
    }
}

/// Parse one inline HTML element at the start of `s` (`s[0] == '<'`, next a
/// letter), returning the parsed element and the length consumed. `None` if
/// it isn't a clean inline element.
pub fn inline_at(s: &[char]) -> (r: Option<(Inline, usize)>)
    ensures
        r matches Some((el, len)) ==> 0 < len <= s@.len() && (el matches Inline::Markdown {
            content_start,
            content_end,
            ..
        } ==> 0 < content_start <= content_end < len),
        inline_rel(s@, r),
{
    if s.len() < 2 || s[0] != '<' || !ascii_alpha(s[1]) {
        return None;
    }
    let p0 = name_end(s, 1);
    let name = lower_ascii(&s[1..p0]);
    assert(name@ =~= lower_seq(s@.subrange(1, p0 as int)));
    proof {
        reveal_strlit("<");
        reveal_strlit(" />");
        reveal_strlit(">");
        reveal_strlit("</");
    }
    if !is_inline(name.as_slice()) {
        return None;
    }
    if is_escaped_raw(name.as_slice()) {
        let mut whole: Vec<char> = Vec::new();
        match element(s, 0, &mut whole) {
            Some(end) => {
                return Some((Inline::Raw(whole), end));
            },
            None => {
                return None;
            },
        }
    }
    let mut open: Vec<char> = Vec::new();
    push_char(&mut open, '<');
    push_all(&mut open, name.as_slice());
    let (self_closed, p) = match attributes(s, p0, &mut open) {
        Some(x) => x,
        None => {
            return None;
        },
    };
    let ghost attrs = open@.subrange(1 + name@.len() as int, open@.len() as int);
    proof {
        match attrs_spec(s@, p0 as int) {
            Some((o, sc, e)) => {
                assert(attrs =~= o);
            },
            None => {},
        }
    }
    assert(open@ =~= "<"@ + name@ + attrs);
    if is_void(name.as_slice()) {
        push_str(&mut open, " />");
        assert(open@ =~= "<"@ + name@ + attrs + " />"@);
        return Some((Inline::Void(open), p));
    }
    if self_closed {
        return None;
    }
    push_char(&mut open, '>');
    assert(open@ =~= "<"@ + name@ + attrs + ">"@);
    let mut close: Vec<char> = Vec::new();
    push_str(&mut close, "</");
    push_all(&mut close, name.as_slice());
    push_char(&mut close, '>');
    assert(close@ =~= "</"@ + name@ + ">"@);
    match find_inline_close(s, p, name.as_slice()) {
        Some((content_end, after_close)) => Some(
            (Inline::Markdown { open, content_start: p, content_end, close }, after_close),
        ),
        None => None,
    }
}

/// The first place `p` occurs in `s`.
pub open spec fn first_occ(s: Seq<char>, p: Seq<char>) -> Option<int> {
    if exists|k: int| #[trigger] occurs_at(s, p, k) && forall|j: int| 0 <= j < k ==> !occurs_at(s, p, j) {
        Some(choose|k: int| #[trigger] occurs_at(s, p, k) && forall|j: int| 0 <= j < k ==> !occurs_at(s, p, j))
    } else {
        None
    }
}

/// `find_seq`'s answer is `first_occ`.
pub proof fn lemma_first_occ(s: Seq<char>, p: Seq<char>, r: Option<usize>)
    requires
        match r {
            Some(k) => occurs_at(s, p, k as int) && forall|j: int| 0 <= j < k ==> !occurs_at(s, p, j),
            None => forall|j: int| !occurs_at(s, p, j),
        },
    ensures
        first_occ(s, p) == match r {
            Some(k) => Some(k as int),
            None => None::<int>,
        },
{
    match r {
        Some(k) => {
            assert(occurs_at(s, p, k as int) && forall|j: int| 0 <= j < k ==> !occurs_at(s, p, j));
            let o = choose|x: int| #[trigger] occurs_at(s, p, x) && forall|j: int| 0 <= j < x ==> !occurs_at(s, p, j);
            if o < k {
                assert(occurs_at(s, p, o));
            } else if o > k {
                assert(occurs_at(s, p, k as int));
            }
        },
        None => {},
    }
}

/// A top-level HTML block at the start of `src`: a comment through its
/// `-->`, or a block-level element serialized by `element_spec` (a raw-text
/// one followed by a newline, swallowing one following blank line); either
/// must end at a line boundary. Gives the HTML and the length consumed.
pub open spec fn serialize_spec(src: Seq<char>) -> Option<(Seq<char>, int)> {
    if has_prefix(src, "<!--"@) {
        match first_occ(src.subrange(4, src.len() as int), "-->"@) {
            None => None,
            Some(end) => {
                let close = 4 + end + 3;
                if close < src.len() && src[close] != '\n' {
                    None
                } else {
                    Some((src.subrange(0, close), close))
                }
            },
        }
    } else if !html_block_start_spec(src) {
        None
    } else {
        match element_spec(src, 0) {
            None => None,
            Some((h, p)) => if p != src.len() && src[p] != '\n' {
                None
            } else {
                let raw = match leading_tag_spec(src) {
                    Some(n) => is_raw_text_spec(n),
                    None => false,
                };
                if raw {
                    let p2 = if p < src.len() && src[p] == '\n' {
                        let ns = p + 1;
                        let ne = match crate::inline::first_at(src, ns, '\n') {
                            Some(x) => x,
                            None => src.len() as int,
                        };
                        if forall|k: int| ns <= k < ne ==> crate::text::is_uni_ws(#[trigger] src[k]) {
                            ns
                        } else {
                            p
                        }
                    } else {
                        p
                    };
                    Some((h + "\n"@, p2))
                } else {
                    Some((h, p))
                }
            },
        }
    }
}

/// Serialize one top-level HTML block at the start of `src` (which begins at
/// column 0 with a block-start tag or a comment). Returns the serialized
/// HTML and the number of chars consumed, requiring the block to end at a
/// line boundary. `None` ⇒ out of subset → decline.
pub fn serialize(src: &[char]) -> (r: Option<(Vec<char>, usize)>)
    ensures
        match serialize_spec(src@) {
            None => r is None,
            Some((h, n)) => r matches Some((h2, n2)) && h2@ == h && n2 == n,
        },
        r matches Some((_, n)) ==> 0 < n <= src@.len(),
        r is Some ==> has_prefix(src@, "<!--"@) || (match leading_tag_spec(src@) {
            Some(n) => is_block_start_spec(n),
            None => false,
        }),
{
    if starts_with(src, "<!--") {
        proof {
            reveal_strlit("<!--");
            reveal_strlit("-->");
        }
        let endm = chars_of("-->");
        let rest = &src[4..src.len()];
        let found = find_seq(rest, endm.as_slice());
        proof {
            lemma_first_occ(rest@, endm@, found);
        }
        match found {
            Some(end) => {
                let close = 4 + end + 3;
                if close < src.len() && src[close] != '\n' {
                    return None;
                }
                return Some((to_vec(&src[0..close]), close));
            },
            None => {
                return None;
            },
        }
    }
    if !starts_html_block(src) {
        return None;
    }
    let mut out: Vec<char> = Vec::new();
    let mut p = match element(src, 0, &mut out) {
        Some(p) => p,
        None => {
            return None;
        },
    };
    if p != src.len() && src[p] != '\n' {
        return None;
    }
    let raw = match leading_tag_name(src) {
        Some(n) => is_raw_text(n.as_slice()),
        None => false,
    };
    if raw {
        push_char(&mut out, '\n');
        proof {
            reveal_strlit("\n");
        }
        if p < src.len() && src[p] == '\n' {
            let next_start = p + 1;
            let found = find_char_from(src, next_start, '\n');
            proof {
                crate::inline::lemma_first_at(src@, next_start as int, '\n', found);
            }
            let next_end = match found {
                Some(x) => x,
                None => src.len(),
            };
            let blank = is_blank(&src[next_start..next_end]);
            proof {
                let sl = src@.subrange(next_start as int, next_end as int);
                if blank {
                    assert forall|k: int| next_start <= k < next_end implies crate::text::is_uni_ws(
                        #[trigger] src@[k],
                    ) by {
                        assert(src@[k] == sl[k - next_start]);
                    }
                } else {
                    let j = choose|j: int| 0 <= j < sl.len() && !crate::text::is_uni_ws(#[trigger] sl[j]);
                    assert(src@[next_start + j] == sl[j]);
                }
            }
            if blank {
                p = next_start;
            }
        }
    }
    Some((out, p))
}

/// An autolink address char: ASCII alphanumeric or `-`, `_`, `.`.
pub open spec fn is_achar(c: char) -> bool {
    is_ascii_alnum(c) || c == '-' || c == '_' || c == '.'
}

/// `[[:alnum:]-_.]+@[[:alnum:]-_.]+` over ASCII: a first `@` with a
/// non-empty side before and after it, every other char an address char.
pub open spec fn is_email_spec(s: Seq<char>) -> bool {
    exists|at: int|
        0 < at < s.len() - 1 && #[trigger] s[at] == '@' && (forall|k: int|
            0 <= k < s.len() && k != at ==> is_achar(#[trigger] s[k]))
}

pub fn is_autolink_email(inner: &[char]) -> (r: bool)
    ensures
        r == is_email_spec(inner@),
{
    let n = inner.len();
    let at = match find_char(inner, '@') {
        Some(a) => a,
        None => {
            return false;
        },
    };
    if at == 0 || at + 1 >= n {
        proof {
            assert forall|a: int|
                0 < a < inner@.len() - 1 && #[trigger] inner@[a] == '@' implies !(forall|k: int|
                0 <= k < inner@.len() && k != a ==> is_achar(#[trigger] inner@[k])) by {
                assert(!is_achar(inner@[at as int]));
            }
        }
        return false;
    }
    let mut k: usize = 0;
    while k < inner.len()
        invariant
            k <= inner@.len(),
            at < inner@.len(),
            inner@[at as int] == '@',
            forall|j: int| 0 <= j < k && j != at ==> is_achar(#[trigger] inner@[j]),
        decreases inner@.len() - k,
    {
        if k != at && !(ascii_alnum(inner[k]) || inner[k] == '-' || inner[k] == '_' || inner[k]
            == '.') {
            proof {
                assert forall|a: int|
                    0 < a < inner@.len() - 1 && #[trigger] inner@[a] == '@' implies !(forall|
                    kk: int,
                | 0 <= kk < inner@.len() && kk != a ==> is_achar(#[trigger] inner@[kk])) by {
                    if a != k {
                        assert(!is_achar(inner@[k as int]));
                    } else {
                        assert(!is_achar(inner@[at as int]));
                    }
                }
            }
            return false;
        }
        k = k + 1;
    }
    true
}

/// The first `>` or newline at or after `k` (the end when there is none).
pub open spec fn angle_stop(s: Seq<char>, k: int) -> int
    decreases s.len() - k,
{
    if k < 0 || k >= s.len() {
        s.len() as int
    } else if s[k] == '>' || s[k] == '\n' {
        k
    } else {
        angle_stop(s, k + 1)
    }
}

/// How many leading chars of an autolink's text its scheme hides
/// (`mailto:`), or `None` when it has no supported scheme.
pub open spec fn scheme_strip(inner: Seq<char>) -> Option<int> {
    if has_prefix(inner, "mailto:"@) && inner.len() > 7 {
        Some(7)
    } else if (has_prefix(inner, "https:"@) && inner.len() > 6) || (has_prefix(inner, "http:"@)
        && inner.len() > 5) || (has_prefix(inner, "ftps:"@) && inner.len() > 5) || (has_prefix(
        inner,
        "ftp:"@,
    ) && inner.len() > 4) {
        Some(0)
    } else {
        None
    }
}

/// An autolink `<…>` (no newline inside) at the start of `s`: a supported
/// scheme links to the text as written (a `mailto:` scheme hidden from the
/// shown text), an email address links through `mailto:`. Gives the
/// `<a href="…">…</a>` and the length consumed.
pub open spec fn autolink_spec(s: Seq<char>) -> Option<(Seq<char>, int)> {
    if s.len() == 0 || s[0] != '<' {
        None
    } else {
        let gt = angle_stop(s, 1);
        if gt >= s.len() || s[gt] != '>' || gt == 1 {
            None
        } else {
            let inner = s.subrange(1, gt);
            let (href, strip): (Seq<char>, int) = match scheme_strip(inner) {
                Some(k) => (inner, k),
                None => ("mailto:"@ + inner, 0),
            };
            if scheme_strip(inner) is None && !is_email_spec(inner) {
                None
            } else {
                Some(
                    (
                        "<a href=\""@ + node_attr(href) + "\">"@ + node_text(
                            inner.subrange(strip, inner.len() as int),
                        ) + "</a>"@,
                        gt + 1,
                    ),
                )
            }
        }
    }
}

/// kramdown autolink at the start of `s` (`s[0] == '<'`): `<scheme:…>` with
/// scheme ∈ `mailto`/`http`/`https`/`ftp`/`ftps`, or `<user@host>`. Returns
/// the serialized `<a href="…">text</a>` and the length consumed.
pub fn autolink_at(s: &[char]) -> (r: Option<(Vec<char>, usize)>)
    ensures
        r matches Some((_, n)) ==> 2 < n <= s@.len(),
        match autolink_spec(s@) {
            Some((h, n)) => r matches Some((h2, n2)) && h2@ == h && n2 == n,
            None => r is None,
        },
{
    if s.len() == 0 || s[0] != '<' {
        return None;
    }
    let mut gt: usize = 1;
    while gt < s.len() && s[gt] != '>' && s[gt] != '\n'
        invariant
            1 <= gt <= s@.len(),
            angle_stop(s@, 1) == angle_stop(s@, gt as int),
        decreases s@.len() - gt,
    {
        gt = gt + 1;
    }
    proof {
        reveal_strlit("mailto:");
        reveal_strlit("https:");
        reveal_strlit("http:");
        reveal_strlit("ftps:");
        reveal_strlit("ftp:");
    }
    if gt >= s.len() || s[gt] != '>' || gt == 1 {
        return None;
    }
    let inner = &s[1..gt];
    let consumed = gt + 1;
    let mut is_scheme = false;
    let mut strip: usize = 0;
    if starts_with(inner, "mailto:") && inner.len() > 7 {
        is_scheme = true;
        strip = 7;
    } else if (starts_with(inner, "https:") && inner.len() > 6) || (starts_with(inner, "http:")
        && inner.len() > 5) || (starts_with(inner, "ftps:") && inner.len() > 5) || (starts_with(
        inner,
        "ftp:",
    ) && inner.len() > 4) {
        is_scheme = true;
    }
    let mut href: Vec<char> = Vec::new();
    if is_scheme {
        push_all(&mut href, inner);
    } else if is_autolink_email(inner) {
        push_str(&mut href, "mailto:");
        push_all(&mut href, inner);
    } else {
        return None;
    }
    let text = &inner[strip..inner.len()];
    let mut out: Vec<char> = Vec::new();
    push_str(&mut out, "<a href=\"");
    push_escaped_attr(&mut out, href.as_slice());
    push_str(&mut out, "\">");
    push_escaped_text(&mut out, text);
    push_str(&mut out, "</a>");
    Some((out, consumed))
}

} // verus!
