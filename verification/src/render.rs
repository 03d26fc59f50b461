//! HTML conversion, byte-faithful to kramdown's HTML converter for the
//! supported subset: one `"\n"` per blank run between blocks, child blocks
//! indented by 2, heading ids with kramdown's slug rules, `<pre><code
//! class="language-…">` for plain code blocks and the `<div
//! class="language-… highlighter-…">` wrapper for highlighted ones.

use vstd::prelude::*;
use crate::Error;
use crate::ast::{Align, Block, BlockKind, Item, Span};
use crate::ial::{Attr, attrs_html, emit_attrs};
use crate::escape::{esc_text, esc_attr, escape_text, escape_attr};
use crate::text::{push_all, push_char, push_str, chars_of, eq_str, extends, group_extends};

verus! {

broadcast use group_extends;

fn declined(what: &'static str) -> (e: Error)
    ensures
        e == Error::Declined(what),
{
    Error::Declined(what)
}

/// The opening `<code…>` of a code span, with the highlighter's class.
pub open spec fn code_open(cls: Option<Seq<char>>) -> Seq<char> {
    match cls {
        Some(c) => "<code class=\""@ + c + "\">"@,
        None => "<code>"@,
    }
}

/// ` title="…"` when a title is present.
pub open spec fn title_html(t: Option<Vec<char>>) -> Seq<char> {
    match t {
        Some(t) => " title=\""@ + esc_attr(t@) + "\""@,
        None => Seq::empty(),
    }
}

/// The HTML of a span sequence (kramdown's span conversion).
pub open spec fn spans_html(spans: Seq<Span>, cls: Option<Seq<char>>) -> Seq<char>
    decreases spans,
{
    if spans.len() == 0 {
        Seq::empty()
    } else {
        spans_html(spans.drop_last(), cls) + span_html(spans.last(), cls)
    }
}

/// The HTML of one span.
pub open spec fn span_html(sp: Span, cls: Option<Seq<char>>) -> Seq<char>
    decreases sp,
{
    match sp {
        Span::Text(t) => esc_text(t@),
        Span::Raw(h) => h@,
        Span::Em(inner, ial) => "<em"@ + attrs_html(ial@) + ">"@ + spans_html(inner@, cls)
            + "</em>"@,
        Span::Strong(inner, ial) => "<strong"@ + attrs_html(ial@) + ">"@ + spans_html(inner@, cls)
            + "</strong>"@,
        Span::Del(inner) => "<del>"@ + spans_html(inner@, cls) + "</del>"@,
        Span::Code(t) => code_open(cls) + esc_text(t@) + "</code>"@,
        Span::Link { spans: inner, href, title, ial } => "<a href=\""@ + esc_attr(href@) + "\""@
            + title_html(title) + attrs_html(ial@) + ">"@ + spans_html(inner@, cls) + "</a>"@,
        Span::Image { src, alt, title, ial } => "<img src=\""@ + esc_attr(src@) + "\" alt=\""@
            + esc_attr(alt@) + "\""@ + title_html(title) + attrs_html(ial@) + " />"@,
    }
}

pub open spec fn opt_vec(o: Option<Vec<char>>) -> Option<Seq<char>> {
    match o {
        Some(s) => Some(s@),
        None => None,
    }
}

fn emit_title(out: &mut Vec<char>, title: &Option<Vec<char>>)
    ensures
        final(out)@ == old(out)@ + title_html(*title),
{
    match title {
        Some(t) => {
            push_str(out, " title=\"");
            escape_attr(out, t.as_slice());
            push_str(out, "\"");
        },
        None => {},
    }
}

/// Append the HTML of `spans`.
pub fn convert_spans(out: &mut Vec<char>, spans: &Vec<Span>, cls: &Option<Vec<char>>)
    ensures
        final(out)@ == old(out)@ + spans_html(spans@, opt_vec(*cls)),
        extends(final(out)@, old(out)@),
    decreases spans@,
{
    let ghost start = out@;
    let mut k: usize = 0;
    while k < spans.len()
        invariant
            k <= spans@.len(),
            out@ == start + spans_html(spans@.subrange(0, k as int), opt_vec(*cls)),
        decreases spans@.len() - k,
    {
        proof {
            assert(spans@.subrange(0, k + 1).drop_last() =~= spans@.subrange(0, k as int));
            assert(spans@.subrange(0, k + 1).last() == spans@[k as int]);
        }
        assert(decreases_to!(spans@ => spans@[k as int]));
        convert_span(out, &spans[k], cls);
        proof {
            assert(out@ =~= start + spans_html(spans@.subrange(0, k + 1), opt_vec(*cls)));
        }
        k = k + 1;
    }
    proof {
        assert(spans@.subrange(0, spans@.len() as int) =~= spans@);
    }
}

/// Append the HTML of one span.
#[verifier::rlimit(60)]
#[verifier::spinoff_prover]
pub fn convert_span(out: &mut Vec<char>, sp: &Span, cls: &Option<Vec<char>>)
    ensures
        final(out)@ == old(out)@ + span_html(*sp, opt_vec(*cls)),
        extends(final(out)@, old(out)@),
    decreases *sp,
{
    let ghost before = out@;
    let ghost c = opt_vec(*cls);
    match sp {
        Span::Text(t) => escape_text(out, t.as_slice()),
        Span::Raw(h) => push_all(out, h.as_slice()),
        Span::Em(inner, ial) => {
            push_str(out, "<em");
            emit_attrs(out, ial);
            push_str(out, ">");
            convert_spans(out, inner, cls);
            push_str(out, "</em>");
            assert(out@ =~= before + ("<em"@ + attrs_html(ial@) + ">"@ + spans_html(inner@, c)
                + "</em>"@));
        },
        Span::Strong(inner, ial) => {
            push_str(out, "<strong");
            emit_attrs(out, ial);
            push_str(out, ">");
            convert_spans(out, inner, cls);
            push_str(out, "</strong>");
            assert(out@ =~= before + ("<strong"@ + attrs_html(ial@) + ">"@ + spans_html(inner@, c)
                + "</strong>"@));
        },
        Span::Del(inner) => {
            push_str(out, "<del>");
            convert_spans(out, inner, cls);
            push_str(out, "</del>");
            assert(out@ =~= before + ("<del>"@ + spans_html(inner@, c) + "</del>"@));
        },
        Span::Code(t) => emit_code(out, t, cls),
        Span::Link { spans: inner, href, title, ial } => {
            emit_link_open(out, href, title, ial);
            convert_spans(out, inner, cls);
            push_str(out, "</a>");
            assert(out@ =~= before + ("<a href=\""@ + esc_attr(href@) + "\""@ + title_html(*title)
                + attrs_html(ial@) + ">"@ + spans_html(inner@, c) + "</a>"@));
        },
        Span::Image { src, alt, title, ial } => emit_image(out, src, alt, title, ial),
    }
}


fn emit_code(out: &mut Vec<char>, t: &Vec<char>, cls: &Option<Vec<char>>)
    ensures
        final(out)@ == old(out)@ + (code_open(opt_vec(*cls)) + esc_text(t@) + "</code>"@),
{
    let ghost before = out@;
    match cls {
        Some(class) => {
            push_str(out, "<code class=\"");
            push_all(out, class.as_slice());
            push_str(out, "\">");
        },
        None => push_str(out, "<code>"),
    }
    escape_text(out, t.as_slice());
    push_str(out, "</code>");
    assert(out@ =~= before + (code_open(opt_vec(*cls)) + esc_text(t@) + "</code>"@));
}

fn emit_link_open(out: &mut Vec<char>, href: &Vec<char>, title: &Option<Vec<char>>, ial: &Vec<Attr>)
    ensures
        final(out)@ == old(out)@ + ("<a href=\""@ + esc_attr(href@) + "\""@ + title_html(*title)
            + attrs_html(ial@) + ">"@),
{
    let ghost before = out@;
    push_str(out, "<a href=\"");
    escape_attr(out, href.as_slice());
    push_str(out, "\"");
    emit_title(out, title);
    emit_attrs(out, ial);
    push_str(out, ">");
    assert(out@ =~= before + ("<a href=\""@ + esc_attr(href@) + "\""@ + title_html(*title)
        + attrs_html(ial@) + ">"@));
}

fn emit_image(
    out: &mut Vec<char>,
    src: &Vec<char>,
    alt: &Vec<char>,
    title: &Option<Vec<char>>,
    ial: &Vec<Attr>,
)
    ensures
        final(out)@ == old(out)@ + ("<img src=\""@ + esc_attr(src@) + "\" alt=\""@ + esc_attr(alt@)
            + "\""@ + title_html(*title) + attrs_html(ial@) + " />"@),
{
    let ghost before = out@;
    push_str(out, "<img src=\"");
    escape_attr(out, src.as_slice());
    push_str(out, "\" alt=\"");
    escape_attr(out, alt.as_slice());
    push_str(out, "\"");
    emit_title(out, title);
    emit_attrs(out, ial);
    push_str(out, " />");
    assert(out@ =~= before + ("<img src=\""@ + esc_attr(src@) + "\" alt=\""@ + esc_attr(alt@)
        + "\""@ + title_html(*title) + attrs_html(ial@) + " />"@));
}

/// `String` from chars, through `String`'s `FromIterator<char>`: the string
/// holds exactly those chars in order.
#[verifier::external_body]
pub(crate) fn collect_string(v: &[char]) -> (r: String)
    ensures
        r@ == v@,
{
    v.iter().collect()
}

/// One table-of-contents entry: heading level, anchor id, and the heading's
/// rendered inline HTML.
pub struct TocEntry {
    pub level: u8,
    pub id: Vec<char>,
    pub html: Vec<char>,
}

/// What block conversion needs beyond the tree: the code-span class, the
/// highlighter's name, and the table of contents.
pub struct RenderCx {
    pub cls: Option<Vec<char>>,
    pub name: Vec<char>,
    pub toc: Vec<TocEntry>,
}

/// `n` spaces.
pub open spec fn pad(n: usize) -> Seq<char> {
    Seq::new(n as nat, |i: int| ' ')
}

/// `a + b`, saturating at `usize::MAX`.
pub open spec fn sat(a: usize, b: usize) -> usize {
    if a + b > usize::MAX {
        usize::MAX
    } else {
        (a + b) as usize
    }
}

/// An attribute named `key` is present.
pub open spec fn has_key(a: Seq<Attr>, key: Seq<char>) -> bool {
    exists|i: int| 0 <= i < a.len() && #[trigger] a[i].key@ == key
}

/// The heading tag's level digit.
pub open spec fn level_digit(level: u8) -> char {
    (48 + if level < 10 {
        level as int
    } else {
        9
    }) as char
}

/// ` id="…"` when the heading has an id and its IAL set none.
pub open spec fn id_attr(id: Option<Vec<char>>, ial: Seq<Attr>) -> Seq<char> {
    match id {
        Some(v) => if has_key(ial, "id"@) {
            Seq::empty()
        } else {
            " id=\""@ + v@ + "\""@
        },
        None => Seq::empty(),
    }
}

pub open spec fn heading_html(
    level: u8,
    spans: Seq<Span>,
    id: Option<Vec<char>>,
    ial: Seq<Attr>,
    indent: usize,
    cls: Option<Seq<char>>,
) -> Seq<char> {
    let d = level_digit(level);
    pad(indent) + "<h"@ + seq![d] + attrs_html(ial) + id_attr(id, ial) + ">"@ + spans_html(spans, cls)
        + "</h"@ + seq![d] + ">\n"@
}

/// `<pre><code>` with the text escaped and exactly one trailing newline, or
/// the highlighter's HTML in kramdown's wrapper.
pub open spec fn code_html(
    lang: Option<Vec<char>>,
    text: Seq<char>,
    hl: Option<(Vec<char>, Vec<char>)>,
    ial: Seq<Attr>,
    indent: usize,
    name: Seq<char>,
) -> Seq<char> {
    match hl {
        Some((l, h)) => pad(indent) + "<div class=\"language-"@ + l@ + " highlighter-"@ + name + "\">"@
            + h@ + pad(indent) + "</div>\n"@,
        None => pad(indent) + "<pre"@ + attrs_html(ial) + "><code"@ + match lang {
            Some(l) => " class=\"language-"@ + l@ + "\""@,
            None => Seq::empty(),
        } + ">"@ + esc_text(text) + if text.len() == 0 || text.last() != '\n' {
            seq!['\n']
        } else {
            Seq::empty()
        } + "</code></pre>\n"@,
    }
}

pub open spec fn align_at(aligns: Seq<Align>, k: int) -> Align {
    if 0 <= k < aligns.len() {
        aligns[k]
    } else {
        Align::Unset
    }
}

pub open spec fn style_html(a: Align) -> Seq<char> {
    match a {
        Align::Unset => Seq::empty(),
        Align::Left => " style=\"text-align: left\""@,
        Align::Center => " style=\"text-align: center\""@,
        Align::Right => " style=\"text-align: right\""@,
    }
}

pub open spec fn cell_tag(head: bool) -> Seq<char> {
    if head {
        "th"@
    } else {
        "td"@
    }
}

/// One table cell; an empty cell holds a no-break space.
pub open spec fn cell_html(cell: Seq<Span>, a: Align, head: bool, indent: usize, cls: Option<Seq<char>>) -> Seq<
    char,
> {
    let h = spans_html(cell, cls);
    pad(indent) + "<"@ + cell_tag(head) + style_html(a) + ">"@ + if h.len() == 0 {
        seq!['\u{a0}']
    } else {
        h
    } + "</"@ + cell_tag(head) + ">\n"@
}

/// The first `k` cells of a row.
pub open spec fn cells_html(
    cells: Seq<Vec<Span>>,
    k: int,
    aligns: Seq<Align>,
    head: bool,
    indent: usize,
    cls: Option<Seq<char>>,
) -> Seq<char>
    decreases k,
{
    if k <= 0 {
        Seq::empty()
    } else {
        cells_html(cells, k - 1, aligns, head, indent, cls) + cell_html(
            cells[k - 1]@,
            align_at(aligns, k - 1),
            head,
            indent,
            cls,
        )
    }
}

pub open spec fn row_html(
    cells: Seq<Vec<Span>>,
    aligns: Seq<Align>,
    head: bool,
    indent: usize,
    cls: Option<Seq<char>>,
) -> Seq<char> {
    pad(indent) + "<tr>\n"@ + cells_html(cells, cells.len() as int, aligns, head, sat(indent, 2), cls)
        + pad(indent) + "</tr>\n"@
}

/// The first `k` body rows.
pub open spec fn rows_html(
    body: Seq<Vec<Vec<Span>>>,
    k: int,
    aligns: Seq<Align>,
    indent: usize,
    cls: Option<Seq<char>>,
) -> Seq<char>
    decreases k,
{
    if k <= 0 {
        Seq::empty()
    } else {
        rows_html(body, k - 1, aligns, indent, cls) + row_html(body[k - 1]@, aligns, false, indent, cls)
    }
}

/// kramdown's `<table>`: `<thead>` only with a header row, then `<tbody>`.
pub open spec fn table_html(
    aligns: Seq<Align>,
    header: Option<Vec<Vec<Span>>>,
    body: Seq<Vec<Vec<Span>>>,
    ial: Seq<Attr>,
    indent: usize,
    cls: Option<Seq<char>>,
) -> Seq<char> {
    let i2 = sat(indent, 2);
    let i4 = sat(indent, 4);
    pad(indent) + "<table"@ + attrs_html(ial) + ">\n"@ + match header {
        Some(h) => pad(i2) + "<thead>\n"@ + row_html(h@, aligns, true, i4, cls) + pad(i2)
            + "</thead>\n"@,
        None => Seq::empty(),
    } + pad(i2) + "<tbody>\n"@ + rows_html(body, body.len() as int, aligns, i4, cls) + pad(i2)
        + "</tbody>\n"@ + pad(indent) + "</table>\n"@
}

/// End of the subtree of TOC entry `s` within `[s, e)`: the first later
/// entry whose level is not deeper.
pub open spec fn subtree_end(toc: Seq<TocEntry>, s: int, j: int, e: int) -> int
    decreases e - j,
{
    if j < e && 0 <= j < toc.len() && 0 <= s < toc.len() && toc[j].level > toc[s].level {
        subtree_end(toc, s, j + 1, e)
    } else {
        j
    }
}

pub proof fn lemma_subtree_end(toc: Seq<TocEntry>, s: int, j: int, e: int)
    requires
        s < j <= e <= toc.len(),
        0 <= s,
    ensures
        j <= subtree_end(toc, s, j, e) <= e,
    decreases e - j,
{
    if j < e && toc[j].level > toc[s].level {
        lemma_subtree_end(toc, s, j + 1, e);
    }
}

pub open spec fn list_tag(ordered: bool) -> Seq<char> {
    if ordered {
        "ol"@
    } else {
        "ul"@
    }
}

/// The head of a TOC node: its `<li>` and link.
pub open spec fn toc_head(entry: TocEntry, toc_id: Seq<char>, li: usize) -> Seq<char> {
    pad(li) + "<li><a href=\"#"@ + esc_attr(entry.id@) + "\" id=\""@ + toc_id + "-"@ + esc_attr(entry.id@)
        + "\">"@ + entry.html@ + "</a>"@
}

/// The TOC nodes `toc[s..e]` as sibling `<li>` items; a node's deeper-level
/// successors nest in a list on the same line as its link.
pub open spec fn toc_nodes_html(
    toc: Seq<TocEntry>,
    s: int,
    e: int,
    toc_id: Seq<char>,
    tag: Seq<char>,
    li: usize,
) -> Seq<char>
    decreases e - s, 1nat,
{
    if s < 0 || s >= e || e > toc.len() {
        Seq::empty()
    } else {
        let se = subtree_end(toc, s, s + 1, e);
        proof {
            lemma_subtree_end(toc, s, s + 1, e);
        }
        toc_head(toc[s], toc_id, li) + toc_tail(toc, s, se, toc_id, tag, li) + toc_nodes_html(
            toc,
            se,
            e,
            toc_id,
            tag,
            li,
        )
    }
}

/// The rest of a TOC node after its link: `</li>`, or its subtree
/// `toc[s + 1..se]` in a nested list first.
pub open spec fn toc_tail(toc: Seq<TocEntry>, s: int, se: int, toc_id: Seq<char>, tag: Seq<char>, li: usize) -> Seq<
    char,
>
    decreases se - s, 0nat,
{
    if se <= s + 1 {
        "</li>\n"@
    } else {
        pad(sat(li, 2)) + "<"@ + tag + ">\n"@ + toc_nodes_html(toc, s + 1, se, toc_id, tag, sat(li, 4))
            + pad(sat(li, 2)) + "</"@ + tag + ">\n"@ + pad(li) + "</li>\n"@
    }
}

/// The value of the first attribute named `key`.
pub open spec fn first_val(a: Seq<Attr>, key: Seq<char>) -> Seq<char>
    decreases a.len(),
{
    if a.len() == 0 {
        Seq::empty()
    } else if a[0].key@ == key {
        a[0].val@
    } else {
        first_val(a.drop_first(), key)
    }
}

/// kramdown's `{:toc}`: a list (of the marked list's type) of links to every
/// heading, its IAL on the outer tag with `id` defaulting to
/// `markdown-toc`, which also prefixes each entry's own id. No headings:
/// nothing.
pub open spec fn toc_html(toc: Seq<TocEntry>, ial: Seq<Attr>, ordered: bool, indent: usize) -> Seq<
    char,
> {
    if toc.len() == 0 {
        Seq::empty()
    } else {
        let tag = list_tag(ordered);
        let toc_id = if has_key(ial, "id"@) {
            first_val(ial, "id"@)
        } else {
            "markdown-toc"@
        };
        let extra = if has_key(ial, "id"@) {
            Seq::empty()
        } else {
            " id=\"markdown-toc\""@
        };
        pad(indent) + "<"@ + tag + attrs_html(ial) + extra + ">\n"@ + toc_nodes_html(
            toc,
            0,
            toc.len() as int,
            toc_id,
            tag,
            sat(indent, 2),
        ) + pad(indent) + "</"@ + tag + ">\n"@
    }
}

/// The spans of a paragraph block.
pub open spec fn para_spans(k: BlockKind) -> Seq<Span> {
    match k {
        BlockKind::Para(s) => s@,
        _ => Seq::empty(),
    }
}

/// The HTML of a block sequence at `indent` (kramdown's block conversion).
pub open spec fn blocks_html(bs: Seq<Block>, indent: usize, cx: RenderCx) -> Seq<char>
    decreases bs,
{
    if bs.len() == 0 {
        Seq::empty()
    } else {
        blocks_html(bs.drop_last(), indent, cx) + block_html(bs.last(), indent, cx)
    }
}

/// The HTML of one block.
pub open spec fn block_html(b: Block, indent: usize, cx: RenderCx) -> Seq<char>
    decreases b,
{
    let cls = opt_vec(cx.cls);
    match b.kind {
        BlockKind::Blank => "\n"@,
        BlockKind::Heading { level, spans, id, .. } => heading_html(level, spans@, id, b.ial@, indent, cls),
        BlockKind::Para(spans) => pad(indent) + "<p"@ + attrs_html(b.ial@) + ">"@ + spans_html(spans@, cls)
            + "</p>\n"@,
        BlockKind::List { ordered, loose, items, toc } => if toc {
            toc_html(cx.toc@, b.ial@, ordered, indent)
        } else {
            pad(indent) + "<"@ + list_tag(ordered) + attrs_html(b.ial@) + ">\n"@ + items_html(
                items@,
                loose,
                sat(indent, 2),
                sat(indent, 4),
                cx,
            ) + pad(indent) + "</"@ + list_tag(ordered) + ">\n"@
        },
        BlockKind::Quote(inner) => pad(indent) + "<blockquote"@ + attrs_html(b.ial@) + ">\n"@ + blocks_html(
            inner@,
            sat(indent, 2),
            cx,
        ) + pad(indent) + "</blockquote>\n"@,
        BlockKind::Code { lang, text, highlighted } => code_html(lang, text@, highlighted, b.ial@, indent, cx.name@),
        BlockKind::RawHtml(h) => h@ + "\n"@,
        BlockKind::Hr => pad(indent) + "<hr />\n"@,
        BlockKind::Table { aligns, header, body } => table_html(aligns@, header, body@, b.ial@, indent, cls),
    }
}

/// The list items of a list.
pub open spec fn items_html(items: Seq<Item>, loose: bool, i2: usize, i4: usize, cx: RenderCx) -> Seq<char>
    decreases items,
{
    if items.len() == 0 {
        Seq::empty()
    } else {
        items_html(items.drop_last(), loose, i2, i4, cx) + item_html(items.last(), loose, i2, i4, cx)
    }
}

/// One list item: a tight item led by a paragraph renders inline
/// (`<li>text</li>`, further blocks one level deeper before `</li>`); other
/// items render their blocks in block form.
pub open spec fn item_html(it: Item, loose: bool, i2: usize, i4: usize, cx: RenderCx) -> Seq<char>
    decreases it,
{
    let bs = it.blocks@;
    if !loose && bs.len() > 0 && bs[0].kind is Para {
        pad(i2) + "<li>"@ + spans_html(para_spans(bs[0].kind), opt_vec(cx.cls)) + if bs.len() > 1 {
            "\n"@ + blocks_html(bs.subrange(1, bs.len() as int), i4, cx) + pad(i2)
        } else {
            Seq::empty()
        } + "</li>\n"@
    } else if bs.len() == 0 {
        pad(i2) + "<li></li>\n"@
    } else {
        pad(i2) + "<li>\n"@ + blocks_html(bs, i4, cx) + pad(i2) + "</li>\n"@
    }
}

/// `n` spaces.
pub fn push_pad(out: &mut Vec<char>, n: usize)
    ensures
        final(out)@ == old(out)@ + pad(n),
        extends(final(out)@, old(out)@),
{
    let ghost start = out@;
    let mut k: usize = 0;
    while k < n
        invariant
            k <= n,
            out@ == start + Seq::new(k as nat, |i: int| ' '),
        decreases n - k,
    {
        push_char(out, ' ');
        assert(out@ =~= start + Seq::new((k + 1) as nat, |i: int| ' '));
        k = k + 1;
    }
    assert(out@ =~= start + pad(n));
}

/// Whether an attribute named `key` is present.
fn has_attr(attrs: &Vec<Attr>, key: &str) -> (r: bool)
    ensures
        r == has_key(attrs@, key@),
{
    let k = chars_of(key);
    match crate::ial::find_attr(attrs, k.as_slice()) {
        Some(i) => {
            assert(attrs@[i as int].key@ == key@);
            true
        },
        None => false,
    }
}

/// A heading: `<hN` + its IAL + its id (when it has one and the IAL set
/// none) + the inline HTML.
fn emit_heading(
    out: &mut Vec<char>,
    level: u8,
    spans: &Vec<Span>,
    id: &Option<Vec<char>>,
    ial: &Vec<Attr>,
    indent: usize,
    cls: &Option<Vec<char>>,
)
    ensures
        final(out)@ == old(out)@ + heading_html(level, spans@, *id, ial@, indent, opt_vec(*cls)),
{
    let ghost start = out@;
    let lv: u32 = if level < 10 {
        level as u32
    } else {
        9
    };
    let digit = crate::text::char_from_ascii(48 + lv);
    assert(digit == level_digit(level));
    push_pad(out, indent);
    push_str(out, "<h");
    push_char(out, digit);
    emit_attrs(out, ial);
    let ghost mid = out@;
    if !has_attr(ial, "id") {
        match id {
            Some(v) => {
                push_str(out, " id=\"");
                push_all(out, v.as_slice());
                push_str(out, "\"");
            },
            None => {},
        }
    }
    assert(out@ =~= mid + id_attr(*id, ial@));
    push_str(out, ">");
    convert_spans(out, spans, cls);
    push_str(out, "</h");
    push_char(out, digit);
    push_str(out, ">\n");
    assert(out@ =~= start + heading_html(level, spans@, *id, ial@, indent, opt_vec(*cls)));
}

/// A code block, highlighted or plain.
#[verifier::rlimit(100)]
fn emit_code_block(
    out: &mut Vec<char>,
    lang: &Option<Vec<char>>,
    text: &Vec<char>,
    highlighted: &Option<(Vec<char>, Vec<char>)>,
    ial: &Vec<Attr>,
    indent: usize,
    name: &Vec<char>,
)
    ensures
        final(out)@ == old(out)@ + code_html(*lang, text@, *highlighted, ial@, indent, name@),
{
    let ghost start = out@;
    match highlighted {
        Some((l, h)) => {
            push_pad(out, indent);
            push_str(out, "<div class=\"language-");
            push_all(out, l.as_slice());
            push_str(out, " highlighter-");
            push_all(out, name.as_slice());
            push_str(out, "\">");
            push_all(out, h.as_slice());
            push_pad(out, indent);
            push_str(out, "</div>\n");
        },
        None => {
            push_pad(out, indent);
            push_str(out, "<pre");
            emit_attrs(out, ial);
            push_str(out, "><code");
            let ghost m1 = out@;
            match lang {
                Some(l) => {
                    push_str(out, " class=\"language-");
                    push_all(out, l.as_slice());
                    push_str(out, "\"");
                },
                None => {},
            }
            let ghost m2 = out@;
            assert(m2 =~= m1 + match *lang {
                Some(l) => " class=\"language-"@ + l@ + "\""@,
                None => Seq::empty(),
            });
            push_str(out, ">");
            escape_text(out, text.as_slice());
            let ghost m3 = out@;
            if text.len() == 0 || text[text.len() - 1] != '\n' {
                push_char(out, '\n');
            }
            assert(out@ =~= m3 + if text@.len() == 0 || text@.last() != '\n' {
                seq!['\n']
            } else {
                Seq::empty()
            });
            push_str(out, "</code></pre>\n");
        },
    }
    assert(out@ =~= start + code_html(*lang, text@, *highlighted, ial@, indent, name@));
}

/// One table cell.
#[verifier::rlimit(100)]
fn emit_cell(out: &mut Vec<char>, cell: &Vec<Span>, a: Align, head: bool, indent: usize, cls: &Option<Vec<char>>)
    ensures
        final(out)@ == old(out)@ + cell_html(cell@, a, head, indent, opt_vec(*cls)),
{
    let ghost start = out@;
    let tag = if head {
        "th"
    } else {
        "td"
    };
    push_pad(out, indent);
    push_str(out, "<");
    push_str(out, tag);
    let ghost m1 = out@;
    match a {
        Align::Unset => {},
        Align::Left => push_str(out, " style=\"text-align: left\""),
        Align::Center => push_str(out, " style=\"text-align: center\""),
        Align::Right => push_str(out, " style=\"text-align: right\""),
    }
    assert(out@ =~= m1 + style_html(a));
    push_str(out, ">");
    let ghost m2 = out@;
    let before = out.len();
    convert_spans(out, cell, cls);
    if out.len() == before {
        push_char(out, '\u{a0}');
    }
    let ghost h = spans_html(cell@, opt_vec(*cls));
    assert(out@ =~= m2 + if h.len() == 0 {
        seq!['\u{a0}']
    } else {
        h
    });
    push_str(out, "</");
    push_str(out, tag);
    push_str(out, ">\n");
    assert(tag@ == cell_tag(head));
    assert(out@ =~= start + cell_html(cell@, a, head, indent, opt_vec(*cls)));
}

/// kramdown's `<tr>`: one `<th>`/`<td>` per cell two past the row's
/// indent, with the column's alignment.
fn emit_table_row(
    out: &mut Vec<char>,
    cells: &Vec<Vec<Span>>,
    aligns: &Vec<Align>,
    head: bool,
    indent: usize,
    cls: &Option<Vec<char>>,
)
    ensures
        final(out)@ == old(out)@ + row_html(cells@, aligns@, head, indent, opt_vec(*cls)),
{
    let ghost start = out@;
    push_pad(out, indent);
    push_str(out, "<tr>\n");
    let ghost m = out@;
    let i2 = indent.saturating_add(2);
    let mut col: usize = 0;
    while col < cells.len()
        invariant
            col <= cells@.len(),
            i2 == sat(indent, 2),
            out@ == m + cells_html(cells@, col as int, aligns@, head, i2, opt_vec(*cls)),
        decreases cells@.len() - col,
    {
        let a = if col < aligns.len() {
            aligns[col]
        } else {
            Align::Unset
        };
        emit_cell(out, &cells[col], a, head, i2, cls);
        col = col + 1;
    }
    push_pad(out, indent);
    push_str(out, "</tr>\n");
    assert(out@ =~= start + row_html(cells@, aligns@, head, indent, opt_vec(*cls)));
}

/// kramdown's `<table>`.
#[verifier::rlimit(100)]
fn emit_table(
    out: &mut Vec<char>,
    aligns: &Vec<Align>,
    header: &Option<Vec<Vec<Span>>>,
    body: &Vec<Vec<Vec<Span>>>,
    ial: &Vec<Attr>,
    indent: usize,
    cls: &Option<Vec<char>>,
)
    ensures
        final(out)@ == old(out)@ + table_html(aligns@, *header, body@, ial@, indent, opt_vec(*cls)),
{
    let ghost start = out@;
    let i2 = indent.saturating_add(2);
    let i4 = indent.saturating_add(4);
    push_pad(out, indent);
    push_str(out, "<table");
    emit_attrs(out, ial);
    push_str(out, ">\n");
    let ghost m1 = out@;
    match header {
        Some(h) => {
            push_pad(out, i2);
            push_str(out, "<thead>\n");
            emit_table_row(out, h, aligns, true, i4, cls);
            push_pad(out, i2);
            push_str(out, "</thead>\n");
        },
        None => {},
    }
    assert(out@ =~= m1 + match *header {
        Some(h) => pad(i2) + "<thead>\n"@ + row_html(h@, aligns@, true, i4, opt_vec(*cls)) + pad(i2)
            + "</thead>\n"@,
        None => Seq::empty(),
    });
    push_pad(out, i2);
    push_str(out, "<tbody>\n");
    let ghost m2 = out@;
    let mut r: usize = 0;
    while r < body.len()
        invariant
            r <= body@.len(),
            i4 == sat(indent, 4),
            out@ == m2 + rows_html(body@, r as int, aligns@, i4, opt_vec(*cls)),
        decreases body@.len() - r,
    {
        emit_table_row(out, &body[r], aligns, false, i4, cls);
        r = r + 1;
    }
    push_pad(out, i2);
    push_str(out, "</tbody>\n");
    push_pad(out, indent);
    push_str(out, "</table>\n");
    assert(out@ =~= start + table_html(aligns@, *header, body@, ial@, indent, opt_vec(*cls)));
}

/// End of the subtree of the TOC entry at `start` within `[start, end)`.
fn toc_subtree_end(toc: &Vec<TocEntry>, start: usize, end: usize) -> (r: usize)
    requires
        start < end <= toc@.len(),
    ensures
        start < r <= end,
        r == subtree_end(toc@, start as int, start + 1, end as int),
{
    let lvl = toc[start].level;
    let mut j = start + 1;
    while j < end && toc[j].level > lvl
        invariant
            start < j <= end,
            end <= toc@.len(),
            lvl == toc@[start as int].level,
            subtree_end(toc@, start as int, start + 1, end as int) == subtree_end(
                toc@,
                start as int,
                j as int,
                end as int,
            ),
        decreases end - j,
    {
        j = j + 1;
    }
    j
}

/// Render the sibling TOC nodes of `toc[start..end]`.
fn emit_toc_nodes(
    out: &mut Vec<char>,
    toc: &Vec<TocEntry>,
    start: usize,
    end: usize,
    toc_id: &Vec<char>,
    tag: &str,
    li: usize,
)
    requires
        start <= end <= toc@.len(),
    ensures
        final(out)@ == old(out)@ + toc_nodes_html(toc@, start as int, end as int, toc_id@, tag@, li),
    decreases end - start, 1nat,
{
    let ghost out0 = out@;
    let mut s = start;
    while s < end
        invariant
            start <= s <= end,
            end <= toc@.len(),
            out@ + toc_nodes_html(toc@, s as int, end as int, toc_id@, tag@, li) == out0
                + toc_nodes_html(toc@, start as int, end as int, toc_id@, tag@, li),
        decreases end - s,
    {
        let ghost before = out@;
        let e = toc_subtree_end(toc, s, end);
        emit_toc_node(out, toc, s, e, toc_id, tag, li);
        proof {
            let hd = toc_head(toc@[s as int], toc_id@, li);
            let tl = toc_tail(toc@, s as int, e as int, toc_id@, tag@, li);
            let rest = toc_nodes_html(toc@, e as int, end as int, toc_id@, tag@, li);
            assert(toc_nodes_html(toc@, s as int, end as int, toc_id@, tag@, li) == hd + tl + rest);
            assert(out@ + rest =~= before + (hd + tl + rest));
        }
        s = e;
    }
    assert(out@ =~= out0 + toc_nodes_html(toc@, start as int, end as int, toc_id@, tag@, li));
}

/// The link of a TOC node.
#[verifier::rlimit(50)]
fn emit_toc_head(out: &mut Vec<char>, entry: &TocEntry, toc_id: &Vec<char>, li: usize)
    ensures
        final(out)@ == old(out)@ + toc_head(*entry, toc_id@, li),
{
    let ghost before = out@;
    push_pad(out, li);
    push_str(out, "<li><a href=\"#");
    escape_attr(out, entry.id.as_slice());
    push_str(out, "\" id=\"");
    push_all(out, toc_id.as_slice());
    push_str(out, "-");
    escape_attr(out, entry.id.as_slice());
    push_str(out, "\">");
    push_all(out, entry.html.as_slice());
    push_str(out, "</a>");
    assert(out@ =~= before + toc_head(*entry, toc_id@, li));
}

/// One TOC node: its link, then its subtree `toc[s + 1..e]` nested.
#[verifier::rlimit(50)]
fn emit_toc_node(
    out: &mut Vec<char>,
    toc: &Vec<TocEntry>,
    s: usize,
    e: usize,
    toc_id: &Vec<char>,
    tag: &str,
    li: usize,
)
    requires
        s < e <= toc@.len(),
    ensures
        final(out)@ == old(out)@ + toc_head(toc@[s as int], toc_id@, li) + toc_tail(
            toc@,
            s as int,
            e as int,
            toc_id@,
            tag@,
            li,
        ),
    decreases e - s, 0nat,
{
    let ghost before = out@;
    emit_toc_head(out, &toc[s], toc_id, li);
    let ghost head = out@;
    if e == s + 1 {
        push_str(out, "</li>\n");
    } else {
        push_pad(out, li.saturating_add(2));
        push_str(out, "<");
        push_str(out, tag);
        push_str(out, ">\n");
        emit_toc_nodes(out, toc, s + 1, e, toc_id, tag, li.saturating_add(4));
        push_pad(out, li.saturating_add(2));
        push_str(out, "</");
        push_str(out, tag);
        push_str(out, ">\n");
        push_pad(out, li);
        push_str(out, "</li>\n");
    }
    assert(out@ =~= head + toc_tail(toc@, s as int, e as int, toc_id@, tag@, li));
}

/// The table of contents for a `{:toc}` list.
#[verifier::rlimit(100)]
pub fn emit_toc(out: &mut Vec<char>, toc: &Vec<TocEntry>, list_ial: &Vec<Attr>, ordered: bool, indent: usize)
    ensures
        final(out)@ == old(out)@ + toc_html(toc@, list_ial@, ordered, indent),
{
    let ghost start = out@;
    if toc.len() == 0 {
        assert(out@ =~= start + toc_html(toc@, list_ial@, ordered, indent));
        return;
    }
    let tag = if ordered {
        "ol"
    } else {
        "ul"
    };
    assert(tag@ == list_tag(ordered));
    let has_id = has_attr(list_ial, "id");
    let toc_id = if has_id {
        first_attr_val(list_ial, "id")
    } else {
        chars_of("markdown-toc")
    };
    let ghost extra = if has_id {
        Seq::<char>::empty()
    } else {
        " id=\"markdown-toc\""@
    };
    push_pad(out, indent);
    push_str(out, "<");
    push_str(out, tag);
    emit_attrs(out, list_ial);
    let ghost m0 = out@;
    if !has_id {
        push_str(out, " id=\"markdown-toc\"");
    }
    assert(out@ =~= m0 + extra);
    push_str(out, ">\n");
    let ghost m1 = out@;
    assert(m1 =~= start + (pad(indent) + "<"@ + tag@ + attrs_html(list_ial@) + extra + ">\n"@));
    let i2 = indent.saturating_add(2);
    emit_toc_nodes(out, toc, 0, toc.len(), &toc_id, tag, i2);
    let ghost nodes = toc_nodes_html(toc@, 0, toc@.len() as int, toc_id@, tag@, i2);
    assert(out@ == m1 + nodes);
    push_pad(out, indent);
    push_str(out, "</");
    push_str(out, tag);
    push_str(out, ">\n");
    assert(out@ =~= m1 + nodes + (pad(indent) + "</"@ + tag@ + ">\n"@));
    assert(toc_html(toc@, list_ial@, ordered, indent) == (pad(indent) + "<"@ + tag@ + attrs_html(
        list_ial@,
    ) + extra + ">\n"@) + nodes + (pad(indent) + "</"@ + tag@ + ">\n"@));
    assert(out@ =~= start + toc_html(toc@, list_ial@, ordered, indent));
}

/// The value of the first attribute named `key`.
fn first_attr_val(attrs: &Vec<Attr>, key: &str) -> (r: Vec<char>)
    ensures
        r@ == first_val(attrs@, key@),
{
    let k = chars_of(key);
    let mut i: usize = 0;
    assert(attrs@.subrange(0, attrs@.len() as int) =~= attrs@);
    while i < attrs.len()
        invariant
            i <= attrs@.len(),
            k@ == key@,
            first_val(attrs@, key@) == first_val(attrs@.subrange(i as int, attrs@.len() as int), key@),
        decreases attrs@.len() - i,
    {
        proof {
            assert(attrs@.subrange(i as int, attrs@.len() as int).drop_first() =~= attrs@.subrange(
                i + 1,
                attrs@.len() as int,
            ));
        }
        if crate::text::eq_chars(attrs[i].key.as_slice(), k.as_slice()) {
            return crate::text::to_vec(attrs[i].val.as_slice());
        }
        i = i + 1;
    }
    Vec::new()
}

/// Render `blocks[from..]` at `indent`.
pub fn render_blocks(out: &mut Vec<char>, blocks: &Vec<Block>, from: usize, indent: usize, cx: &RenderCx)
    requires
        from <= blocks@.len(),
    ensures
        final(out)@ == old(out)@ + blocks_html(
            blocks@.subrange(from as int, blocks@.len() as int),
            indent,
            *cx,
        ),
    decreases blocks@, 1nat,
{
    let ghost start = out@;
    let mut k = from;
    while k < blocks.len()
        invariant
            from <= k <= blocks@.len(),
            out@ == start + blocks_html(blocks@.subrange(from as int, k as int), indent, *cx),
        decreases blocks@.len() - k,
    {
        proof {
            assert(blocks@.subrange(from as int, k + 1).drop_last() =~= blocks@.subrange(
                from as int,
                k as int,
            ));
        }
        assert(decreases_to!(blocks@ => blocks@[k as int]));
        emit_block(out, &blocks[k], indent, cx);
        k = k + 1;
    }
}

/// Render one block.
#[verifier::rlimit(100)]
pub fn emit_block(out: &mut Vec<char>, b: &Block, indent: usize, cx: &RenderCx)
    ensures
        final(out)@ == old(out)@ + block_html(*b, indent, *cx),
    decreases *b, 0nat,
{
    let ghost start = out@;
    match &b.kind {
        BlockKind::Blank => push_str(out, "\n"),
        BlockKind::Heading { level, spans, id, .. } => {
            emit_heading(out, *level, spans, id, &b.ial, indent, &cx.cls);
        },
        BlockKind::Para(spans) => {
            emit_para(out, spans, &b.ial, indent, &cx.cls);
        },
        BlockKind::List { ordered, loose, items, toc: is_toc } => {
            if *is_toc {
                emit_toc(out, &cx.toc, &b.ial, *ordered, indent);
            } else {
                emit_list(out, items, *ordered, *loose, &b.ial, indent, cx);
            }
        },
        BlockKind::Quote(inner) => {
            emit_quote(out, inner, &b.ial, indent, cx);
        },
        BlockKind::Code { lang, text, highlighted } => {
            emit_code_block(out, lang, text, highlighted, &b.ial, indent, &cx.name);
        },
        BlockKind::RawHtml(html) => {
            push_all(out, html.as_slice());
            push_str(out, "\n");
        },
        BlockKind::Hr => {
            push_pad(out, indent);
            push_str(out, "<hr />\n");
        },
        BlockKind::Table { aligns, header, body } => {
            emit_table(out, aligns, header, body, &b.ial, indent, &cx.cls);
        },
    }
    assert(out@ =~= start + block_html(*b, indent, *cx));
}

/// A paragraph.
fn emit_para(out: &mut Vec<char>, spans: &Vec<Span>, ial: &Vec<Attr>, indent: usize, cls: &Option<Vec<char>>)
    ensures
        final(out)@ == old(out)@ + (pad(indent) + "<p"@ + attrs_html(ial@) + ">"@ + spans_html(
            spans@,
            opt_vec(*cls),
        ) + "</p>\n"@),
{
    let ghost start = out@;
    push_pad(out, indent);
    push_str(out, "<p");
    emit_attrs(out, ial);
    push_str(out, ">");
    convert_spans(out, spans, cls);
    push_str(out, "</p>\n");
    assert(out@ =~= start + (pad(indent) + "<p"@ + attrs_html(ial@) + ">"@ + spans_html(
        spans@,
        opt_vec(*cls),
    ) + "</p>\n"@));
}

/// A blockquote: its blocks two deeper.
fn emit_quote(out: &mut Vec<char>, inner: &Vec<Block>, ial: &Vec<Attr>, indent: usize, cx: &RenderCx)
    ensures
        final(out)@ == old(out)@ + (pad(indent) + "<blockquote"@ + attrs_html(ial@) + ">\n"@
            + blocks_html(inner@, sat(indent, 2), *cx) + pad(indent) + "</blockquote>\n"@),
    decreases inner@, 2nat,
{
    let ghost start = out@;
    push_pad(out, indent);
    push_str(out, "<blockquote");
    emit_attrs(out, ial);
    push_str(out, ">\n");
    render_blocks(out, inner, 0, indent.saturating_add(2), cx);
    assert(inner@.subrange(0, inner@.len() as int) =~= inner@);
    push_pad(out, indent);
    push_str(out, "</blockquote>\n");
    assert(out@ =~= start + (pad(indent) + "<blockquote"@ + attrs_html(ial@) + ">\n"@
        + blocks_html(inner@, sat(indent, 2), *cx) + pad(indent) + "</blockquote>\n"@));
}

/// A list: its tag with the IAL, the items, the closing tag.
#[verifier::rlimit(40)]
fn emit_list(
    out: &mut Vec<char>,
    items: &Vec<Item>,
    ordered: bool,
    loose: bool,
    ial: &Vec<Attr>,
    indent: usize,
    cx: &RenderCx,
)
    ensures
        final(out)@ == old(out)@ + (pad(indent) + "<"@ + list_tag(ordered) + attrs_html(ial@) + ">\n"@
            + items_html(items@, loose, sat(indent, 2), sat(indent, 4), *cx) + pad(indent) + "</"@
            + list_tag(ordered) + ">\n"@),
    decreases items@, 2nat,
{
    let ghost start = out@;
    let tag = if ordered {
        "ol"
    } else {
        "ul"
    };
    assert(tag@ == list_tag(ordered));
    push_pad(out, indent);
    push_str(out, "<");
    push_str(out, tag);
    emit_attrs(out, ial);
    push_str(out, ">\n");
    emit_items(out, items, loose, indent.saturating_add(2), indent.saturating_add(4), cx);
    push_pad(out, indent);
    push_str(out, "</");
    push_str(out, tag);
    push_str(out, ">\n");
    assert(out@ =~= start + (pad(indent) + "<"@ + list_tag(ordered) + attrs_html(ial@) + ">\n"@
        + items_html(items@, loose, sat(indent, 2), sat(indent, 4), *cx) + pad(indent) + "</"@
        + list_tag(ordered) + ">\n"@));
}

/// Render the items of a list.
fn emit_items(out: &mut Vec<char>, items: &Vec<Item>, loose: bool, i2: usize, i4: usize, cx: &RenderCx)
    ensures
        final(out)@ == old(out)@ + items_html(items@, loose, i2, i4, *cx),
    decreases items@, 1nat,
{
    let ghost start = out@;
    let mut k: usize = 0;
    while k < items.len()
        invariant
            k <= items@.len(),
            out@ == start + items_html(items@.subrange(0, k as int), loose, i2, i4, *cx),
        decreases items@.len() - k,
    {
        proof {
            assert(items@.subrange(0, k + 1).drop_last() =~= items@.subrange(0, k as int));
        }
        assert(decreases_to!(items@ => items@[k as int]));
        emit_item(out, &items[k], loose, i2, i4, cx);
        k = k + 1;
    }
    assert(items@.subrange(0, items@.len() as int) =~= items@);
}

/// Render one list item.
#[verifier::rlimit(40)]
fn emit_item(out: &mut Vec<char>, it: &Item, loose: bool, i2: usize, i4: usize, cx: &RenderCx)
    ensures
        final(out)@ == old(out)@ + item_html(*it, loose, i2, i4, *cx),
    decreases *it, 0nat,
{
    let ghost start = out@;
    let blocks = &it.blocks;
    let para_first = blocks.len() > 0 && match &blocks[0].kind {
        BlockKind::Para(_) => true,
        _ => false,
    };
    if !loose && para_first {
        push_pad(out, i2);
        push_str(out, "<li>");
        match &blocks[0].kind {
            BlockKind::Para(spans) => convert_spans(out, spans, &cx.cls),
            _ => {},
        }
        let ghost m = out@;
        if blocks.len() > 1 {
            push_str(out, "\n");
            render_blocks(out, blocks, 1, i4, cx);
            push_pad(out, i2);
        }
        assert(out@ =~= m + if blocks@.len() > 1 {
            "\n"@ + blocks_html(blocks@.subrange(1, blocks@.len() as int), i4, *cx) + pad(i2)
        } else {
            Seq::empty()
        });
        push_str(out, "</li>\n");
    } else if blocks.len() == 0 {
        push_pad(out, i2);
        push_str(out, "<li></li>\n");
    } else {
        push_pad(out, i2);
        push_str(out, "<li>\n");
        render_blocks(out, blocks, 0, i4, cx);
        assert(blocks@.subrange(0, blocks@.len() as int) =~= blocks@);
        push_pad(out, i2);
        push_str(out, "</li>\n");
    }
    assert(out@ =~= start + item_html(*it, loose, i2, i4, *cx));
}

} // verus!
