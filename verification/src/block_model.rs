//! The block grammar as a relation: what the block parser makes of a
//! sequence of lines, stated one step at a time from the first line, with
//! the block built so far and the leading IAL waiting for the next block.
//! Each step tries the constructs in kramdown's order; the first that
//! applies decides the step.

use vstd::prelude::*;
use crate::Options;
use crate::Error;
use crate::ast::{Block, BlockKind, LinkDef};
use crate::ial::{Attr, attrs_view, parse_ial_spec, attrs_html};
use crate::text::{strip_both, has_prefix, lead_run, lead_ws, trim_ws_spec};
use crate::lines::{count_char, is_hr_trimmed, list_marker_spec, scan_reason, opt_space_spec,
    table_pipe_from};
use crate::html_block::{html_block_start_spec, serialize_spec};
use crate::inline::declines_as;
use crate::span_model::{scan_spec, spans_v};
use crate::block::{blank_spec, ial_inner_spec, attachable_spec, attach_start_spec,
    table_cells_rel, table_decision_rel, table_shape_ok, table_end, table_layout, lines_text,
    bare_root_end, all_pipe_from, code_end, code_text, heading_spans_rel, atx_shape, heading_parts,
    raw_text_spec, closed_fence_rel, fence_open_spec, quote_end, quote_line, blank_head, blank_tail,
    list_chain_rel, items_ok, item_shape_spec, para_rel, para_text};
use crate::render::opt_vec;

verus! {

/// `o2` is `out` with one more block, of `kind`, carrying `ial`.
pub open spec fn appended(out: Seq<Block>, kind: BlockKind, ial: Seq<Attr>, o2: Seq<Block>) -> bool {
    &&& o2.len() == out.len() + 1
    &&& o2.drop_last() == out
    &&& o2.last().kind == kind
    &&& o2.last().ial@ == ial
}

/// `o2` is `out` with its last block's IAL set to `a`.
pub open spec fn reattributed(out: Seq<Block>, a: Seq<(Seq<char>, Seq<char>)>, o2: Seq<Block>) -> bool {
    &&& out.len() > 0
    &&& o2.len() == out.len()
    &&& o2.drop_last() == out.drop_last()
    &&& o2.last().kind == out.last().kind
    &&& attrs_view(o2.last().ial@) == a
}

/// `o2` is `out` with its last block, a list, made the table of contents.
pub open spec fn toc_marked(out: Seq<Block>, o2: Seq<Block>) -> bool {
    &&& out.len() > 0
    &&& o2.len() == out.len()
    &&& o2.drop_last() == out.drop_last()
    &&& o2.last().ial == out.last().ial
    &&& out.last().kind matches BlockKind::List { ordered, loose, items, .. } && o2.last().kind == (
    BlockKind::List { ordered, loose, items, toc: true })
}

/// `v` holds the characters `h`.
pub open spec fn has_chars(v: Vec<char>, h: Seq<char>) -> bool {
    v@ == h
}

/// `v` holds the blocks `bs`.
pub open spec fn has_blocks(v: Vec<Block>, bs: Seq<Block>) -> bool {
    v@ == bs
}

/// `k` is a code block of language `lang` and text `text`, not yet
/// highlighted.
pub open spec fn is_code(k: BlockKind, lang: Option<Vec<char>>, text: Seq<char>) -> bool {
    k matches BlockKind::Code { lang: l, text: t, highlighted } && l == lang && highlighted is None
        && t@ == text
}

/// `k` is a paragraph of the spans `sp`.
pub open spec fn is_para(k: BlockKind, sp: Seq<crate::span_model::SpanV>) -> bool {
    k matches BlockKind::Para(v) && spans_v(v@) == sp
}

/// The lines of the blockquote opening at `i`, each without its marker.
pub open spec fn quote_inner(lines: Seq<Vec<char>>, i: int, inner: Seq<Vec<char>>) -> bool {
    &&& inner.len() == quote_end(lines, i + 1) - i
    &&& forall|k: int| 0 <= k < inner.len() ==> #[trigger] inner[k]@ == quote_line(lines[i + k]@)
}

/// Any parse answer.
pub open spec fn some_res(r: Result<Seq<Block>, Error>) -> bool {
    r is Ok || r is Err
}

/// The line after an HTML block that consumed `c` characters of the text
/// from line `i` on.
pub open spec fn html_next(lines: Seq<Vec<char>>, i: int, c: int) -> int {
    let n = lines.len() as int;
    let nl = count_char(lines_text(lines, i, n).subrange(0, c), '\n');
    let used = if nl < n {
        nl + 1int
    } else {
        n
    };
    if used >= n - i {
        n
    } else {
        i + used
    }
}

/// A serialized HTML block with a pending IAL injected into its root tag.
pub open spec fn html_text(h: Seq<char>, pending: Seq<Attr>) -> Seq<char> {
    if pending.len() > 0 {
        let ne = bare_root_end(h)->0;
        h.subrange(0, ne) + attrs_html(pending) + h.subrange(ne, h.len() as int)
    } else {
        h
    }
}

/// The first line at or after `j` that is not blank (or the end).
pub open spec fn blank_run(lines: Seq<Vec<char>>, j: int) -> int
    decreases lines.len() - j,
{
    if 0 <= j < lines.len() && blank_spec(lines[j]@) {
        blank_run(lines, j + 1)
    } else {
        j
    }
}

/// The blank run from `j` ends between `j` and the last line.
pub proof fn lemma_blank_run(lines: Seq<Vec<char>>, j: int)
    requires
        0 <= j <= lines.len(),
    ensures
        j <= blank_run(lines, j) <= lines.len(),
    decreases lines.len() - j,
{
    if j < lines.len() && blank_spec(lines[j]@) {
        lemma_blank_run(lines, j + 1);
    }
}

/// A `{:toc}` line.
pub open spec fn toc_line(l: Seq<char>) -> bool {
    ial_inner_spec(l) matches Some(inner) && strip_both(inner, true) == "toc"@
}

/// The attributes of a block IAL line other than `{:toc}`.
pub open spec fn ial_attrs(l: Seq<char>) -> Option<Seq<(Seq<char>, Seq<char>)>> {
    match ial_inner_spec(l) {
        Some(inner) => if strip_both(inner, true) == "toc"@ {
            None
        } else {
            parse_ial_spec(inner)
        },
        None => None,
    }
}

/// A block sequence without its leading and trailing blank-run markers.
pub open spec fn trimmed(bs: Seq<Block>) -> Seq<Block> {
    let e = blank_tail(bs, bs.len() as int);
    bs.subrange(blank_head(bs, 0, e), e)
}

/// What a pipe table attempt at `i` may answer.
pub open spec fn table_res(
    defs: Seq<LinkDef>,
    lines: Seq<Vec<char>>,
    i: int,
    gfm: bool,
    t: Result<Option<(BlockKind, usize)>, Error>,
) -> bool {
    &&& table_cells_rel(defs, lines, i, t)
    &&& table_decision_rel(defs, lines, i, gfm, t)
    &&& t matches Ok(Some((k, e))) ==> i < e <= lines.len() && table_shape_ok(k) && e == table_end(
        lines,
        i,
        i,
        gfm,
    ) && (k matches BlockKind::Table { aligns, header, body } && table_layout(
        lines,
        i,
        e as int,
        aligns@,
        header is Some,
        body@.len() as int,
    ))
}

/// What an ATX heading line may parse to.
pub open spec fn heading_res(
    defs: Seq<LinkDef>,
    l: Seq<char>,
    opts: Options,
    h: Result<(BlockKind, Option<Vec<char>>), Error>,
) -> bool {
    &&& heading_spans_rel(defs, l, opts, h)
    &&& h matches Ok((k, explicit)) ==> atx_shape(l) && (k matches BlockKind::Heading {
        level,
        raw,
        span_text,
        spans,
        id,
    } && 1 <= level <= 6 && level == crate::lines::run_spec(l, 0, '#') && raw@ == heading_parts(l).0
        && opt_vec(explicit) == heading_parts(l).1 && span_text@ == raw_text_spec(spans@)
        && id is None)
}

/// `a` is the attribute `id` with the value `id`.
pub open spec fn id_attr(a: Attr, id: Seq<char>) -> bool {
    a.key@ == "id"@ && a.val@ == id
}

/// `bs` is what a list item of the lines `ls` holds: the parse of those
/// lines one level deeper, trimmed of blank-run markers.
pub open spec fn item_parse(defs: Seq<LinkDef>, opts: Options, fuel: usize, ls: Seq<Seq<char>>, bs: Seq<Block>) -> bool {
    exists|iv: Seq<Vec<char>>, all: Seq<Block>|
        #![trigger crate::lines::views(iv), some_res(Ok::<Seq<Block>, Error>(all))]
        crate::lines::views(iv) == ls && some_res(Ok::<Seq<Block>, Error>(all)) && blocks_rel(
            defs,
            iv,
            opts,
            true,
            fuel,
            Ok::<Seq<Block>, Error>(all),
        ) && bs == trimmed(all)
}

/// A list item parsed from the lines `iv` holds the trimmed parse.
pub(crate) proof fn lemma_item_parse(
    defs: Seq<LinkDef>,
    opts: Options,
    fuel: usize,
    iv: Seq<Vec<char>>,
    all: Seq<Block>,
    bs: Seq<Block>,
)
    requires
        blocks_rel(defs, iv, opts, true, fuel, Ok::<Seq<Block>, Error>(all)),
        bs == trimmed(all),
    ensures
        item_parse(defs, opts, fuel, crate::lines::views(iv), bs),
{
    assert(some_res(Ok::<Seq<Block>, Error>(all)));
}

/// `bs` is what a list item of the lines `ls` holds, as the block
/// relation states it: the parse of those lines one level deeper, trimmed
/// of blank-run markers.
pub open spec fn item_blocks(defs: Seq<LinkDef>, opts: Options, fuel: usize, ls: Seq<Seq<char>>, bs: Seq<Block>) -> bool
    decreases fuel + 1, 0int, 0nat,
{
    exists|iv: Seq<Vec<char>>, all: Seq<Block>|
        #![trigger crate::lines::views(iv), some_res(Ok::<Seq<Block>, Error>(all))]
        crate::lines::views(iv) == ls && some_res(Ok::<Seq<Block>, Error>(all)) && blocks_from(
            defs,
            iv,
            opts,
            true,
            fuel,
            0,
            Seq::empty(),
            Seq::empty(),
            Ok::<Seq<Block>, Error>(all),
        ) && bs == trimmed(all)
}

/// An item parsed as `parse_list` states it is one as the block relation
/// states it.
pub(crate) proof fn lemma_item_blocks(defs: Seq<LinkDef>, opts: Options, fuel: usize, ls: Seq<Seq<char>>, bs: Seq<Block>)
    requires
        item_parse(defs, opts, fuel, ls, bs),
    ensures
        item_blocks(defs, opts, fuel, ls, bs),
{
    reveal(blocks_rel);
    let (iv, all) = choose|iv: Seq<Vec<char>>, all: Seq<Block>|
        #![trigger crate::lines::views(iv), some_res(Ok::<Seq<Block>, Error>(all))]
        crate::lines::views(iv) == ls && some_res(Ok::<Seq<Block>, Error>(all)) && blocks_rel(
            defs,
            iv,
            opts,
            true,
            fuel,
            Ok::<Seq<Block>, Error>(all),
        ) && bs == trimmed(all);
    assert(crate::lines::views(iv) == ls && some_res(Ok::<Seq<Block>, Error>(all)));
}

/// Any block sequence.
pub open spec fn any_blocks(bs: Seq<Block>) -> bool {
    bs.len() >= 0
}

/// What the block relation lets a list from line `i` decline with: the
/// nesting depth when none is left; the reason of the first item the chain
/// cannot collect; the decline of an item's lines; `mixed-loose-tight-list`
/// when the items are not evenly loose; `list-item-shape` when an item's
/// blocks take a shape outside the subset.
pub open spec fn list_decline(
    defs: Seq<LinkDef>,
    opts: Options,
    lines: Seq<Vec<char>>,
    i: int,
    base: int,
    ordered: bool,
    fuel: usize,
    e: Error,
) -> bool
    decreases fuel, 0int, 1nat,
{
    let ils = crate::block::list_item_lines(lines, i, base, ordered, true);
    let chain = crate::block::list_chain(lines, i, base, ordered, false, true);
    if fuel == 0 {
        e == Error::Declined("nesting-depth")
    } else {
        ||| chain matches Err(w) && e == Error::Declined(w)
        ||| !crate::block::evenly_loose(lines, i, base, ordered) && e == Error::Declined(
            "mixed-loose-tight-list",
        )
        ||| exists|iv: Seq<Vec<char>>|
            #![trigger crate::lines::views(iv)]
            some_res(Err::<Seq<Block>, Error>(e)) && ils.contains(crate::lines::views(iv)) && blocks_from(
                defs,
                iv,
                opts,
                true,
                (fuel - 1) as usize,
                0,
                Seq::empty(),
                Seq::empty(),
                Err::<Seq<Block>, Error>(e),
            )
        ||| (exists|j: int, bs: Seq<Block>|
            #![trigger crate::block::list_item_lines(lines, i, base, ordered, true)[j], any_blocks(bs)]
            0 <= j < ils.len() && any_blocks(bs) && item_blocks(
                defs,
                opts,
                (fuel - 1) as usize,
                crate::block::list_item_lines(lines, i, base, ordered, true)[j],
                bs,
            ) && !item_shape_spec(bs, chain->Ok_0.0[0])) && e == Error::Declined("list-item-shape")
    }
}

/// What a list opening at line `i` may parse to.
pub open spec fn list_res(
    defs: Seq<LinkDef>,
    opts: Options,
    lines: Seq<Vec<char>>,
    i: int,
    base: int,
    ordered: bool,
    fuel: usize,
    x: Result<(BlockKind, usize), Error>,
) -> bool
    decreases fuel, lines.len() - i, 2nat,
{
    &&& list_chain_rel(lines, i, base, ordered, fuel, x)
    &&& x matches Ok((k, e)) ==> i < e <= lines.len() && items_ok(k) && (k matches BlockKind::List {
        ordered: o,
        loose,
        items,
        toc,
    } && o == ordered && !toc && items@.len() >= 1 && forall|j: int|
        0 <= j < items@.len() ==> #[trigger] item_shape_spec(items@[j].blocks@, loose))
    &&& (0 <= i < lines.len() && fuel > 0) ==> (x matches Ok((k, _)) ==> (k matches BlockKind::List {
        items,
        ..
    } && forall|j: int|
        0 <= j < items@.len() ==> #[trigger] item_blocks(
            defs,
            opts,
            (fuel - 1) as usize,
            crate::block::list_item_lines(lines, i, base, ordered, true)[j],
            items@[j].blocks@,
        )))
    &&& 0 <= i < lines.len() ==> (x matches Err(e) ==> list_decline(defs, opts, lines, i, base, ordered, fuel, e))
}

/// What `parse_list` states of its answer is what the block relation
/// asks of a list.
pub(crate) proof fn lemma_list_res(
    defs: Seq<LinkDef>,
    opts: Options,
    lines: Seq<Vec<char>>,
    i: int,
    base: int,
    ordered: bool,
    fuel: usize,
    x: Result<(BlockKind, usize), Error>,
)
    requires
        list_chain_rel(lines, i, base, ordered, fuel, x),
        x matches Ok((k, e)) ==> i < e <= lines.len() && (k matches BlockKind::List { toc, .. } && !toc)
            && items_ok(k),
        x matches Ok((k, _)) ==> (k matches BlockKind::List { ordered: o, loose, items, .. } && o
            == ordered && items@.len() >= 1 && forall|j: int|
            0 <= j < items@.len() ==> #[trigger] item_shape_spec(items@[j].blocks@, loose)),
        x matches Ok((k, _)) ==> (k matches BlockKind::List { items, .. } && forall|j: int|
            0 <= j < items@.len() ==> #[trigger] item_parse(
                defs,
                opts,
                (fuel - 1) as usize,
                crate::block::list_item_lines(lines, i, base, ordered, true)[j],
                items@[j].blocks@,
            )),
        x matches Err(e) ==> crate::block::list_decline_reason(defs, opts, lines, i, base, ordered, fuel, e),
    ensures
        list_res(defs, opts, lines, i, base, ordered, fuel, x),
{
    let ils = crate::block::list_item_lines(lines, i, base, ordered, true);
    let chain = crate::block::list_chain(lines, i, base, ordered, false, true);
    match x {
        Err(e) => {
            if fuel > 0 {
                if exists|iv: Seq<Vec<char>>|
                    #[trigger] blocks_rel(defs, iv, opts, true, (fuel - 1) as usize, Err::<Seq<Block>, Error>(e))
                        && ils.contains(crate::lines::views(iv)) {
                    let iv = choose|iv: Seq<Vec<char>>|
                        #[trigger] blocks_rel(defs, iv, opts, true, (fuel - 1) as usize, Err::<Seq<Block>, Error>(e))
                            && ils.contains(crate::lines::views(iv));
                    lemma_decline_item(defs, opts, lines, i, base, ordered, fuel, e, iv);
                } else if e == Error::Declined("list-item-shape") && exists|j: int, bs: Seq<Block>|
                    0 <= j < ils.len() && #[trigger] item_parse(
                        defs,
                        opts,
                        (fuel - 1) as usize,
                        crate::block::list_item_lines(lines, i, base, ordered, true)[j],
                        bs,
                    ) && !item_shape_spec(bs, chain->Ok_0.0[0]) {
                    let (j, bs) = choose|j: int, bs: Seq<Block>|
                        0 <= j < ils.len() && #[trigger] item_parse(
                            defs,
                            opts,
                            (fuel - 1) as usize,
                            crate::block::list_item_lines(lines, i, base, ordered, true)[j],
                            bs,
                        ) && !item_shape_spec(bs, chain->Ok_0.0[0]);
                    lemma_decline_shape(defs, opts, lines, i, base, ordered, fuel, j, bs);
                } else {
                    lemma_decline_chain(defs, opts, lines, i, base, ordered, fuel, e);
                }
            } else {
                lemma_decline_depth(defs, opts, lines, i, base, ordered, fuel, e);
            }
        },
        _ => {},
    }
    match x {
        Ok((k, _)) => {
            match k {
                BlockKind::List { items, .. } => {
                    assert forall|j: int| #![trigger items@[j]] 0 <= j < items@.len() implies item_blocks(
                        defs,
                        opts,
                        (fuel - 1) as usize,
                        crate::block::list_item_lines(lines, i, base, ordered, true)[j],
                        items@[j].blocks@,
                    ) by {
                        lemma_item_blocks(
                            defs,
                            opts,
                            (fuel - 1) as usize,
                            crate::block::list_item_lines(lines, i, base, ordered, true)[j],
                            items@[j].blocks@,
                        );
                    }
                },
                _ => {},
            }
        },
        Err(_) => {},
    }
}

/// A list whose item lines decline with `e` may decline with `e`.
proof fn lemma_decline_item(
    defs: Seq<LinkDef>,
    opts: Options,
    lines: Seq<Vec<char>>,
    i: int,
    base: int,
    ordered: bool,
    fuel: usize,
    e: Error,
    iv: Seq<Vec<char>>,
)
    requires
        fuel > 0,
        blocks_rel(defs, iv, opts, true, (fuel - 1) as usize, Err::<Seq<Block>, Error>(e)),
        crate::block::list_item_lines(lines, i, base, ordered, true).contains(crate::lines::views(iv)),
    ensures
        list_decline(defs, opts, lines, i, base, ordered, fuel, e),
{
    reveal(blocks_rel);
    assert(some_res(Err::<Seq<Block>, Error>(e)));
    assert(crate::lines::views(iv) == crate::lines::views(iv));
}

/// A list with an item of a shape outside the subset may decline as such.
proof fn lemma_decline_shape(
    defs: Seq<LinkDef>,
    opts: Options,
    lines: Seq<Vec<char>>,
    i: int,
    base: int,
    ordered: bool,
    fuel: usize,
    j: int,
    bs: Seq<Block>,
)
    requires
        fuel > 0,
        0 <= j < crate::block::list_item_lines(lines, i, base, ordered, true).len(),
        item_parse(defs, opts, (fuel - 1) as usize, crate::block::list_item_lines(lines, i, base, ordered, true)[j], bs),
        !item_shape_spec(bs, crate::block::list_chain(lines, i, base, ordered, false, true)->Ok_0.0[0]),
    ensures
        list_decline(defs, opts, lines, i, base, ordered, fuel, Error::Declined("list-item-shape")),
{
    lemma_item_blocks(defs, opts, (fuel - 1) as usize, crate::block::list_item_lines(lines, i, base, ordered, true)[j], bs);
    assert(any_blocks(bs));
}

/// A list whose chain breaks, or whose items are not evenly loose, may
/// decline for it.
proof fn lemma_decline_chain(
    defs: Seq<LinkDef>,
    opts: Options,
    lines: Seq<Vec<char>>,
    i: int,
    base: int,
    ordered: bool,
    fuel: usize,
    e: Error,
)
    requires
        fuel > 0,
        (crate::block::list_chain(lines, i, base, ordered, false, true) matches Err(w) && e == Error::Declined(w))
            || (!crate::block::evenly_loose(lines, i, base, ordered) && e == Error::Declined(
            "mixed-loose-tight-list",
        )),
    ensures
        list_decline(defs, opts, lines, i, base, ordered, fuel, e),
{
}

/// With no nesting depth left a list declines as such.
proof fn lemma_decline_depth(
    defs: Seq<LinkDef>,
    opts: Options,
    lines: Seq<Vec<char>>,
    i: int,
    base: int,
    ordered: bool,
    fuel: usize,
    e: Error,
)
    requires
        fuel == 0,
        e == Error::Declined("nesting-depth"),
    ensures
        list_decline(defs, opts, lines, i, base, ordered, fuel, e),
{
}

/// Any list parse answer.
pub open spec fn list_answer(x: Result<(BlockKind, usize), Error>) -> bool {
    x is Ok || x is Err
}

/// The blocks parsed from `lines[i..]`, given the blocks `out` so far and
/// the IAL `pending` for the next block: `r` is the whole parse's answer.
pub open spec fn blocks_from(
    defs: Seq<LinkDef>,
    lines: Seq<Vec<char>>,
    opts: Options,
    nested: bool,
    fuel: usize,
    i: int,
    out: Seq<Block>,
    pending: Seq<Attr>,
    r: Result<Seq<Block>, Error>,
) -> bool
    decreases fuel, lines.len() - i, 9nat,
{
    if i < 0 || i >= lines.len() {
        if pending.len() > 0 {
            declines_as(r, "block-ial")
        } else {
            r == Ok::<Seq<Block>, Error>(out)
        }
    } else {
        let l = lines[i]@;
        if blank_spec(l) {
            if pending.len() > 0 {
                declines_as(r, "block-ial")
            } else {
                proof {
                    lemma_blank_run(lines, i + 1);
                }
                exists|o2: Seq<Block>|
                    #[trigger] appended(out, BlockKind::Blank, Seq::empty(), o2) && blocks_from(
                        defs,
                        lines,
                        opts,
                        nested,
                        fuel,
                        blank_run(lines, i + 1),
                        o2,
                        pending,
                        r,
                    )
            }
        } else if toc_line(l) && pending.len() == 0 && out.len() > 0 {
            if out.last().kind matches BlockKind::List { toc, .. } && !toc && out.last().ial@.len()
                == 0 {
                exists|o2: Seq<Block>|
                    #[trigger] toc_marked(out, o2) && blocks_from(
                        defs,
                        lines,
                        opts,
                        nested,
                        fuel,
                        i + 1,
                        o2,
                        pending,
                        r,
                    )
            } else {
                declines_as(r, "toc")
            }
        } else if ial_attrs(l) is Some && pending.len() == 0 && out.len() > 0 && attachable_spec(
            out.last().kind,
        ) && out.last().ial@.len() == 0 {
            exists|o2: Seq<Block>|
                #[trigger] reattributed(out, ial_attrs(l)->0, o2) && blocks_from(
                    defs,
                    lines,
                    opts,
                    nested,
                    fuel,
                    i + 1,
                    o2,
                    pending,
                    r,
                )
        } else if ial_attrs(l) is Some && pending.len() == 0 && attach_start_spec(lines, i + 1) {
            exists|p: Seq<Attr>|
                #[trigger] attrs_view(p) == ial_attrs(l)->0 && p.len() > 0 && blocks_from(
                    defs,
                    lines,
                    opts,
                    nested,
                    fuel,
                    i + 1,
                    out,
                    p,
                    r,
                )
        } else {
            table_step(defs, lines, opts, nested, fuel, i, out, pending, r)
        }
    }
}

/// Append a block of `kind` (with `extra` attributes after the pending
/// ones) and go on at line `j`; a pending IAL the block cannot carry
/// declines.
pub open spec fn then_emit(
    defs: Seq<LinkDef>,
    lines: Seq<Vec<char>>,
    opts: Options,
    nested: bool,
    fuel: usize,
    i: int,
    j: int,
    out: Seq<Block>,
    pending: Seq<Attr>,
    kind: BlockKind,
    extra: Seq<Attr>,
    r: Result<Seq<Block>, Error>,
) -> bool
    decreases fuel, lines.len() - i, 1nat,
{
    if !(0 <= i < j <= lines.len()) {
        false
    } else if pending.len() > 0 && !attachable_spec(kind) {
        declines_as(r, "block-ial")
    } else {
        exists|o2: Seq<Block>|
            #[trigger] appended(out, kind, pending + extra, o2) && blocks_from(
                defs,
                lines,
                opts,
                nested,
                fuel,
                j,
                o2,
                Seq::empty(),
                r,
            )
    }
}

/// A pipe table, else the next step.
pub open spec fn table_step(
    defs: Seq<LinkDef>,
    lines: Seq<Vec<char>>,
    opts: Options,
    nested: bool,
    fuel: usize,
    i: int,
    out: Seq<Block>,
    pending: Seq<Attr>,
    r: Result<Seq<Block>, Error>,
) -> bool
    decreases fuel, lines.len() - i, 8nat,
{
    exists|t: Result<Option<(BlockKind, usize)>, Error>|
        #[trigger] table_res(defs, lines, i, opts.gfm, t) && match t {
            Err(x) => r == Err::<Seq<Block>, Error>(x),
            Ok(Some((k, e))) => if nested {
                declines_as(r, "table")
            } else {
                then_emit(defs, lines, opts, nested, fuel, i, e as int, out, pending, k, Seq::empty(), r)
            },
            Ok(None) => html_step(defs, lines, opts, nested, fuel, i, out, pending, r),
        }
}

/// A raw HTML block at column 0 (GFM, top level), else the next step.
pub open spec fn html_step(
    defs: Seq<LinkDef>,
    lines: Seq<Vec<char>>,
    opts: Options,
    nested: bool,
    fuel: usize,
    i: int,
    out: Seq<Block>,
    pending: Seq<Attr>,
    r: Result<Seq<Block>, Error>,
) -> bool
    decreases fuel, lines.len() - i, 7nat,
{
    let n = lines.len() as int;
    if opts.gfm && 0 <= i < n && html_block_start_spec(lines[i]@) {
        if nested {
            declines_as(r, "html-block")
        } else {
            let rest = lines_text(lines, i, n);
            match serialize_spec(rest) {
                None => code_step(defs, lines, opts, nested, fuel, i, out, pending, r),
                Some((h, c)) => if pending.len() > 0 && bare_root_end(h) is None {
                    declines_as(r, "html-block-ial")
                } else {
                    exists|v: Vec<char>|
                        #[trigger] has_chars(v, html_text(h, pending)) && then_emit(
                            defs,
                            lines,
                            opts,
                            nested,
                            fuel,
                            i,
                            html_next(lines, i, c),
                            out,
                            Seq::empty(),
                            BlockKind::RawHtml(v),
                            Seq::empty(),
                            r,
                        )
                },
            }
        }
    } else {
        code_step(defs, lines, opts, nested, fuel, i, out, pending, r)
    }
}

/// A block of pipe lines that makes no table declines; indented code
/// (GFM); a line opening a construct outside the subset declines; else the
/// next step.
pub open spec fn code_step(
    defs: Seq<LinkDef>,
    lines: Seq<Vec<char>>,
    opts: Options,
    nested: bool,
    fuel: usize,
    i: int,
    out: Seq<Block>,
    pending: Seq<Attr>,
    r: Result<Seq<Block>, Error>,
) -> bool
    decreases fuel, lines.len() - i, 6nat,
{
    if !(0 <= i < lines.len()) {
        false
    } else {
        let l = lines[i]@;
        if table_pipe_from(l.subrange(lead_ws(l, 0), l.len() as int), 0, false) && all_pipe_from(
            lines,
            i,
            i,
            opts.gfm,
        ) {
            declines_as(r, "table")
        } else if opts.gfm && has_prefix(l, "    "@) {
            let e = code_end(lines, i + 1, i + 1);
            exists|k: BlockKind|
                #[trigger] is_code(k, None, code_text(lines, i, e)) && then_emit(
                    defs,
                    lines,
                    opts,
                    nested,
                    fuel,
                    i,
                    e,
                    out,
                    pending,
                    k,
                    Seq::empty(),
                    r,
                )
        } else {
            match scan_reason(l) {
                Some(w) => declines_as(r, w),
                None => heading_step(defs, lines, opts, nested, fuel, i, out, pending, r),
            }
        }
    }
}

/// An ATX heading (its explicit `{#id}` appended to its IAL); a rule;
/// else the next step.
pub open spec fn heading_step(
    defs: Seq<LinkDef>,
    lines: Seq<Vec<char>>,
    opts: Options,
    nested: bool,
    fuel: usize,
    i: int,
    out: Seq<Block>,
    pending: Seq<Attr>,
    r: Result<Seq<Block>, Error>,
) -> bool
    decreases fuel, lines.len() - i, 5nat,
{
    if !(0 <= i < lines.len()) {
        false
    } else {
        let l = lines[i]@;
        if l.len() > 0 && l[0] == '#' {
            exists|h: Result<(BlockKind, Option<Vec<char>>), Error>|
                #[trigger] heading_res(defs, l, opts, h) && match h {
                    Err(x) => r == Err::<Seq<Block>, Error>(x),
                    Ok((k, None)) => then_emit(
                        defs,
                        lines,
                        opts,
                        nested,
                        fuel,
                        i,
                        i + 1,
                        out,
                        pending,
                        k,
                        Seq::empty(),
                        r,
                    ),
                    Ok((k, Some(id))) => exists|a: Attr|
                        #[trigger] id_attr(a, id@) && then_emit(
                            defs,
                            lines,
                            opts,
                            nested,
                            fuel,
                            i,
                            i + 1,
                            out,
                            pending,
                            k,
                            seq![a],
                            r,
                        ),
                }
        } else if is_hr_trimmed(trim_ws_spec(l)) {
            then_emit(defs, lines, opts, nested, fuel, i, i + 1, out, pending, BlockKind::Hr, Seq::empty(), r)
        } else {
            fence_step(defs, lines, opts, nested, fuel, i, out, pending, r)
        }
    }
}

/// A closed code fence; an opener never closed declines; else the next
/// step.
pub open spec fn fence_step(
    defs: Seq<LinkDef>,
    lines: Seq<Vec<char>>,
    opts: Options,
    nested: bool,
    fuel: usize,
    i: int,
    out: Seq<Block>,
    pending: Seq<Attr>,
    r: Result<Seq<Block>, Error>,
) -> bool
    decreases fuel, lines.len() - i, 4nat,
{
    if !(0 <= i < lines.len()) {
        false
    } else {
        exists|c: Result<Option<(crate::block::FenceOpen, usize)>, Error>|
            #[trigger] closed_fence_rel(lines, i, opts.gfm, c) && match c {
                Err(x) => r == Err::<Seq<Block>, Error>(x),
                Ok(Some((f, cl))) => exists|k: BlockKind|
                    #[trigger] is_code(k, f.lang, lines_text(lines, i + 1, cl as int)) && then_emit(
                        defs,
                        lines,
                        opts,
                        nested,
                        fuel,
                        i,
                        cl + 1,
                        out,
                        pending,
                        k,
                        Seq::empty(),
                        r,
                    ),
                Ok(None) => if fence_open_spec(lines[i]@, opts.gfm) matches Ok(Some(_)) {
                    declines_as(r, "unclosed-fence")
                } else {
                    nest_step(defs, lines, opts, nested, fuel, i, out, pending, r)
                },
            }
    }
}

/// A blockquote (its lines parsed one level deeper, blank-run markers at
/// its edges dropped), a list, an opener kramdown would read with an
/// optional space (declines), else a paragraph.
pub open spec fn nest_step(
    defs: Seq<LinkDef>,
    lines: Seq<Vec<char>>,
    opts: Options,
    nested: bool,
    fuel: usize,
    i: int,
    out: Seq<Block>,
    pending: Seq<Attr>,
    r: Result<Seq<Block>, Error>,
) -> bool
    decreases fuel, lines.len() - i, 3nat,
{
    if !(0 <= i < lines.len()) {
        false
    } else {
        let l = lines[i]@;
        let base = lead_run(l, 0, false);
        if l.len() > 0 && l[0] == '>' {
            if fuel == 0 {
                declines_as(r, "nesting-depth")
            } else {
                let e = quote_end(lines, i + 1);
                exists|inner: Seq<Vec<char>>, body: Result<Seq<Block>, Error>|
                    #![trigger quote_inner(lines, i, inner), some_res(body)]
                    quote_inner(lines, i, inner) && blocks_from(
                        defs,
                        inner,
                        opts,
                        true,
                        (fuel - 1) as usize,
                        0,
                        Seq::empty(),
                        Seq::empty(),
                        body,
                    ) && match body {
                        Err(x) => r == Err::<Seq<Block>, Error>(x),
                        Ok(bs) => exists|v: Vec<Block>|
                            #[trigger] has_blocks(v, trimmed(bs)) && then_emit(
                                defs,
                                lines,
                                opts,
                                nested,
                                fuel,
                                i,
                                e,
                                out,
                                pending,
                                BlockKind::Quote(v),
                                Seq::empty(),
                                r,
                            ),
                    }
            }
        } else if base <= 3 && list_marker_spec(l.subrange(base, l.len() as int)) is Some {
            exists|x: Result<(BlockKind, usize), Error>|
                #[trigger] list_answer(x) && list_res(
                    defs,
                    opts,
                    lines,
                    i,
                    base,
                    list_marker_spec(l.subrange(base, l.len() as int))->0,
                    fuel,
                    x,
                ) && match x {
                    Err(y) => r == Err::<Seq<Block>, Error>(y),
                    Ok((k, e)) => then_emit(
                        defs,
                        lines,
                        opts,
                        nested,
                        fuel,
                        i,
                        e as int,
                        out,
                        pending,
                        k,
                        Seq::empty(),
                        r,
                    ),
                }
        } else if opt_space_spec(l, opts.gfm) {
            declines_as(r, "opt-space-block")
        } else {
            exists|g: Result<(Vec<char>, usize), Error>|
                #[trigger] para_rel(lines, i, opts.gfm, g) && (g matches Ok((jn, e)) ==> i < e
                    <= lines.len() && jn@ == para_text(lines, i, e as int, e as int)) && match g {
                    Err(x) => r == Err::<Seq<Block>, Error>(x),
                    Ok((jn, e)) => match scan_spec(defs, jn@, None, false, false, None) {
                        Err(w) => declines_as(r, w),
                        Ok((sp, _)) => exists|k: BlockKind|
                            #[trigger] is_para(k, sp) && then_emit(
                                defs,
                                lines,
                                opts,
                                nested,
                                fuel,
                                i,
                                e as int,
                                out,
                                pending,
                                k,
                                Seq::empty(),
                                r,
                            ),
                    },
                }
        }
    }
}

/// Past the last line the parse ends: with the blocks so far, or declining a dangling IAL.
pub(crate) proof fn lemma_bf_end(
    defs: Seq<LinkDef>,
    lines: Seq<Vec<char>>,
    opts: Options,
    nested: bool,
    fuel: usize,
    i: int,
    out: Seq<Block>,
    p: Seq<Attr>,
    r: Result<Seq<Block>, Error>,
)
    requires
        i >= lines.len(),
        p.len() > 0 ==> declines_as(r, "block-ial"),
        p.len() == 0 ==> r == Ok::<Seq<Block>, Error>(out),
    ensures
        blocks_from(defs, lines, opts, nested, fuel, i, out, p, r),
{
}

/// A blank line with an IAL pending declines.
pub(crate) proof fn lemma_bf_blank_err(
    defs: Seq<LinkDef>,
    lines: Seq<Vec<char>>,
    opts: Options,
    nested: bool,
    fuel: usize,
    i: int,
    out: Seq<Block>,
    p: Seq<Attr>,
    r: Result<Seq<Block>, Error>,
)
    requires
        0 <= i < lines.len(),
        blank_spec(lines[i]@),
        p.len() > 0,
        declines_as(r, "block-ial"),
    ensures
        blocks_from(defs, lines, opts, nested, fuel, i, out, p, r),
{
}

/// A run of blank lines adds one blank-run marker.
pub(crate) proof fn lemma_bf_blank(
    defs: Seq<LinkDef>,
    lines: Seq<Vec<char>>,
    opts: Options,
    nested: bool,
    fuel: usize,
    i: int,
    out: Seq<Block>,
    p: Seq<Attr>,
    o2: Seq<Block>,
)
    requires
        0 <= i < lines.len(),
        blank_spec(lines[i]@),
        p.len() == 0,
        appended(out, BlockKind::Blank, Seq::empty(), o2),
    ensures
        forall|r: Result<Seq<Block>, Error>| #[trigger] blocks_from(defs, lines, opts, nested, fuel, blank_run(lines, i + 1), o2, p, r) ==> blocks_from(defs, lines, opts, nested, fuel, i, out, p, r),
{
}

/// `{:toc}` after a plain list makes it the table of contents.
pub(crate) proof fn lemma_bf_toc(
    defs: Seq<LinkDef>,
    lines: Seq<Vec<char>>,
    opts: Options,
    nested: bool,
    fuel: usize,
    i: int,
    out: Seq<Block>,
    p: Seq<Attr>,
    o2: Seq<Block>,
)
    requires
        0 <= i < lines.len(),
        !blank_spec(lines[i]@),
        toc_line(lines[i]@),
        p.len() == 0,
        out.len() > 0,
        out.last().kind matches BlockKind::List { toc, .. } && !toc && out.last().ial@.len() == 0,
        toc_marked(out, o2),
    ensures
        forall|r: Result<Seq<Block>, Error>| #[trigger] blocks_from(defs, lines, opts, nested, fuel, i + 1, o2, p, r) ==> blocks_from(defs, lines, opts, nested, fuel, i, out, p, r),
{
}

/// `{:toc}` after anything but a plain list declines.
pub(crate) proof fn lemma_bf_toc_err(
    defs: Seq<LinkDef>,
    lines: Seq<Vec<char>>,
    opts: Options,
    nested: bool,
    fuel: usize,
    i: int,
    out: Seq<Block>,
    p: Seq<Attr>,
    r: Result<Seq<Block>, Error>,
)
    requires
        0 <= i < lines.len(),
        !blank_spec(lines[i]@),
        toc_line(lines[i]@),
        p.len() == 0,
        out.len() > 0,
        !(out.last().kind matches BlockKind::List { toc, .. } && !toc && out.last().ial@.len() == 0),
        declines_as(r, "toc"),
    ensures
        blocks_from(defs, lines, opts, nested, fuel, i, out, p, r),
{
}

/// A trailing IAL line sets the attributes of the block before it.
pub(crate) proof fn lemma_bf_trailing(
    defs: Seq<LinkDef>,
    lines: Seq<Vec<char>>,
    opts: Options,
    nested: bool,
    fuel: usize,
    i: int,
    out: Seq<Block>,
    p: Seq<Attr>,
    o2: Seq<Block>,
)
    requires
        0 <= i < lines.len(),
        !blank_spec(lines[i]@),
        ial_attrs(lines[i]@) is Some,
        p.len() == 0,
        out.len() > 0,
        attachable_spec(out.last().kind),
        out.last().ial@.len() == 0,
        reattributed(out, ial_attrs(lines[i]@)->0, o2),
    ensures
        forall|r: Result<Seq<Block>, Error>| #[trigger] blocks_from(defs, lines, opts, nested, fuel, i + 1, o2, p, r) ==> blocks_from(defs, lines, opts, nested, fuel, i, out, p, r),
{
}

/// A leading IAL line waits for the block that follows.
pub(crate) proof fn lemma_bf_leading(
    defs: Seq<LinkDef>,
    lines: Seq<Vec<char>>,
    opts: Options,
    nested: bool,
    fuel: usize,
    i: int,
    out: Seq<Block>,
    p: Seq<Attr>,
    p2: Seq<Attr>,
)
    requires
        0 <= i < lines.len(),
        !blank_spec(lines[i]@),
        ial_attrs(lines[i]@) is Some,
        p.len() == 0,
        !(out.len() > 0 && attachable_spec(out.last().kind) && out.last().ial@.len() == 0),
        attach_start_spec(lines, i + 1),
        attrs_view(p2) == ial_attrs(lines[i]@)->0,
        p2.len() > 0,
    ensures
        forall|r: Result<Seq<Block>, Error>| #[trigger] blocks_from(defs, lines, opts, nested, fuel, i + 1, out, p2, r) ==> blocks_from(defs, lines, opts, nested, fuel, i, out, p, r),
{
    assert forall|r: Result<Seq<Block>, Error>| #[trigger] blocks_from(defs, lines, opts, nested, fuel, i + 1, out, p2, r) implies blocks_from(defs, lines, opts, nested, fuel, i, out, p, r) by {
        assert(blocks_from(defs, lines, opts, nested, fuel, i + 1, out, p2, r));
    }
}

/// Any other line goes on to the table step.
pub(crate) proof fn lemma_bf_rest(
    defs: Seq<LinkDef>,
    lines: Seq<Vec<char>>,
    opts: Options,
    nested: bool,
    fuel: usize,
    i: int,
    out: Seq<Block>,
    p: Seq<Attr>,
)
    requires
        0 <= i < lines.len(),
        !blank_spec(lines[i]@),
        !(toc_line(lines[i]@) && p.len() == 0 && out.len() > 0),
        !(ial_attrs(lines[i]@) is Some && p.len() == 0 && out.len() > 0 && attachable_spec(out.last().kind) && out.last().ial@.len() == 0),
        !(ial_attrs(lines[i]@) is Some && p.len() == 0 && attach_start_spec(lines, i + 1)),
    ensures
        forall|r: Result<Seq<Block>, Error>| #[trigger] table_step(defs, lines, opts, nested, fuel, i, out, p, r) ==> blocks_from(defs, lines, opts, nested, fuel, i, out, p, r),
{
}

/// The table step follows what the table attempt answered.
pub(crate) proof fn lemma_ts(
    defs: Seq<LinkDef>,
    lines: Seq<Vec<char>>,
    opts: Options,
    nested: bool,
    fuel: usize,
    i: int,
    out: Seq<Block>,
    p: Seq<Attr>,
    t: Result<Option<(BlockKind, usize)>, Error>,
)
    requires
        table_res(defs, lines, i, opts.gfm, t),
    ensures
        forall|r: Result<Seq<Block>, Error>| (match t {
            Err(x) => r == Err::<Seq<Block>, Error>(x),
            Ok(Some((k, e))) => if nested {
                declines_as(r, "table")
            } else {
                then_emit(defs, lines, opts, nested, fuel, i, e as int, out, p, k, Seq::empty(), r)
            },
            Ok(None) => html_step(defs, lines, opts, nested, fuel, i, out, p, r),
        }) ==> #[trigger] table_step(defs, lines, opts, nested, fuel, i, out, p, r),
{
    assert forall|r: Result<Seq<Block>, Error>| (match t {
            Err(x) => r == Err::<Seq<Block>, Error>(x),
            Ok(Some((k, e))) => if nested {
                declines_as(r, "table")
            } else {
                then_emit(defs, lines, opts, nested, fuel, i, e as int, out, p, k, Seq::empty(), r)
            },
            Ok(None) => html_step(defs, lines, opts, nested, fuel, i, out, p, r),
        }) implies #[trigger] table_step(defs, lines, opts, nested, fuel, i, out, p, r) by {
        assert(table_res(defs, lines, i, opts.gfm, t));
    }
}

/// An HTML block inside a blockquote or list item declines.
pub(crate) proof fn lemma_hs_nested(
    defs: Seq<LinkDef>,
    lines: Seq<Vec<char>>,
    opts: Options,
    nested: bool,
    fuel: usize,
    i: int,
    out: Seq<Block>,
    p: Seq<Attr>,
    r: Result<Seq<Block>, Error>,
)
    requires
        0 <= i < lines.len(),
        opts.gfm,
        html_block_start_spec(lines[i]@),
        nested,
        declines_as(r, "html-block"),
    ensures
        html_step(defs, lines, opts, nested, fuel, i, out, p, r),
{
}

/// A serialized HTML block is appended verbatim, a pending IAL injected into its root tag.
pub(crate) proof fn lemma_hs_block(
    defs: Seq<LinkDef>,
    lines: Seq<Vec<char>>,
    opts: Options,
    nested: bool,
    fuel: usize,
    i: int,
    out: Seq<Block>,
    p: Seq<Attr>,
    h: Seq<char>,
    c: int,
    j: int,
    v: Vec<char>,
)
    requires
        0 <= i < lines.len(),
        opts.gfm,
        html_block_start_spec(lines[i]@),
        !nested,
        serialize_spec(lines_text(lines, i, lines.len() as int)) == Some((h, c)),
        j == html_next(lines, i, c),
        p.len() > 0 ==> bare_root_end(h) is Some,
        v@ == html_text(h, p),
    ensures
        forall|r: Result<Seq<Block>, Error>| #[trigger] then_emit(defs, lines, opts, nested, fuel, i, j, out, Seq::empty(), BlockKind::RawHtml(v), Seq::empty(), r) ==> html_step(defs, lines, opts, nested, fuel, i, out, p, r),
{
    assert(has_chars(v, html_text(h, p)));

}

/// An IAL pending before an HTML block whose root tag has attributes declines.
pub(crate) proof fn lemma_hs_ial_err(
    defs: Seq<LinkDef>,
    lines: Seq<Vec<char>>,
    opts: Options,
    nested: bool,
    fuel: usize,
    i: int,
    out: Seq<Block>,
    p: Seq<Attr>,
    h: Seq<char>,
    c: int,
    r: Result<Seq<Block>, Error>,
)
    requires
        0 <= i < lines.len(),
        opts.gfm,
        html_block_start_spec(lines[i]@),
        !nested,
        serialize_spec(lines_text(lines, i, lines.len() as int)) == Some((h, c)),
        p.len() > 0,
        bare_root_end(h) is None,
        declines_as(r, "html-block-ial"),
    ensures
        html_step(defs, lines, opts, nested, fuel, i, out, p, r),
{
}

/// A line that opens no HTML block goes on to the code step.
pub(crate) proof fn lemma_hs_rest(
    defs: Seq<LinkDef>,
    lines: Seq<Vec<char>>,
    opts: Options,
    nested: bool,
    fuel: usize,
    i: int,
    out: Seq<Block>,
    p: Seq<Attr>,
)
    requires
        0 <= i < lines.len(),
        (opts.gfm && html_block_start_spec(lines[i]@)) ==> !nested && serialize_spec(lines_text(lines, i, lines.len() as int)) is None,
    ensures
        forall|r: Result<Seq<Block>, Error>| #[trigger] code_step(defs, lines, opts, nested, fuel, i, out, p, r) ==> html_step(defs, lines, opts, nested, fuel, i, out, p, r),
{
}

/// Pipe lines that make no table decline.
pub(crate) proof fn lemma_cs_pipe(
    defs: Seq<LinkDef>,
    lines: Seq<Vec<char>>,
    opts: Options,
    nested: bool,
    fuel: usize,
    i: int,
    out: Seq<Block>,
    p: Seq<Attr>,
    r: Result<Seq<Block>, Error>,
)
    requires
        0 <= i < lines.len(),
        table_pipe_from(lines[i]@.subrange(lead_ws(lines[i]@, 0), lines[i]@.len() as int), 0, false) && all_pipe_from(lines, i, i, opts.gfm),
        declines_as(r, "table"),
    ensures
        code_step(defs, lines, opts, nested, fuel, i, out, p, r),
{
}

/// A four-space line opens an indented code block (GFM).
pub(crate) proof fn lemma_cs_code(
    defs: Seq<LinkDef>,
    lines: Seq<Vec<char>>,
    opts: Options,
    nested: bool,
    fuel: usize,
    i: int,
    out: Seq<Block>,
    p: Seq<Attr>,
    k: BlockKind,
)
    requires
        0 <= i < lines.len(),
        !(table_pipe_from(lines[i]@.subrange(lead_ws(lines[i]@, 0), lines[i]@.len() as int), 0, false) && all_pipe_from(lines, i, i, opts.gfm)),
        opts.gfm,
        has_prefix(lines[i]@, "    "@),
        is_code(k, None, code_text(lines, i, code_end(lines, i + 1, i + 1))),
    ensures
        forall|r: Result<Seq<Block>, Error>| #[trigger] then_emit(defs, lines, opts, nested, fuel, i, code_end(lines, i + 1, i + 1), out, p, k, Seq::empty(), r) ==> code_step(defs, lines, opts, nested, fuel, i, out, p, r),
{
    assert(is_code(k, None, code_text(lines, i, code_end(lines, i + 1, i + 1))));

}

/// A line opening a construct outside the subset declines with its reason.
pub(crate) proof fn lemma_cs_scan(
    defs: Seq<LinkDef>,
    lines: Seq<Vec<char>>,
    opts: Options,
    nested: bool,
    fuel: usize,
    i: int,
    out: Seq<Block>,
    p: Seq<Attr>,
    w: &'static str,
    r: Result<Seq<Block>, Error>,
)
    requires
        0 <= i < lines.len(),
        !(table_pipe_from(lines[i]@.subrange(lead_ws(lines[i]@, 0), lines[i]@.len() as int), 0, false) && all_pipe_from(lines, i, i, opts.gfm)),
        !(opts.gfm && has_prefix(lines[i]@, "    "@)),
        scan_reason(lines[i]@) == Some(w),
        declines_as(r, w),
    ensures
        code_step(defs, lines, opts, nested, fuel, i, out, p, r),
{
}

/// Any other line goes on to the heading step.
pub(crate) proof fn lemma_cs_rest(
    defs: Seq<LinkDef>,
    lines: Seq<Vec<char>>,
    opts: Options,
    nested: bool,
    fuel: usize,
    i: int,
    out: Seq<Block>,
    p: Seq<Attr>,
)
    requires
        0 <= i < lines.len(),
        !(table_pipe_from(lines[i]@.subrange(lead_ws(lines[i]@, 0), lines[i]@.len() as int), 0, false) && all_pipe_from(lines, i, i, opts.gfm)),
        !(opts.gfm && has_prefix(lines[i]@, "    "@)),
        scan_reason(lines[i]@) is None,
    ensures
        forall|r: Result<Seq<Block>, Error>| #[trigger] heading_step(defs, lines, opts, nested, fuel, i, out, p, r) ==> code_step(defs, lines, opts, nested, fuel, i, out, p, r),
{
}

/// An ATX heading line follows what the heading parse answered; an explicit id joins its IAL last.
pub(crate) proof fn lemma_hd(
    defs: Seq<LinkDef>,
    lines: Seq<Vec<char>>,
    opts: Options,
    nested: bool,
    fuel: usize,
    i: int,
    out: Seq<Block>,
    p: Seq<Attr>,
    h: Result<(BlockKind, Option<Vec<char>>), Error>,
    a: Attr,
)
    requires
        0 <= i < lines.len(),
        lines[i]@.len() > 0 && lines[i]@[0] == '#',
        heading_res(defs, lines[i]@, opts, h),
        h matches Ok((_, Some(id))) ==> id_attr(a, id@),
    ensures
        forall|r: Result<Seq<Block>, Error>| (match h {
            Err(x) => r == Err::<Seq<Block>, Error>(x),
            Ok((k, None)) => then_emit(defs, lines, opts, nested, fuel, i, i + 1, out, p, k, Seq::empty(), r),
            Ok((k, Some(_))) => then_emit(defs, lines, opts, nested, fuel, i, i + 1, out, p, k, seq![a], r),
        }) ==> #[trigger] heading_step(defs, lines, opts, nested, fuel, i, out, p, r),
{
    assert forall|r: Result<Seq<Block>, Error>| (match h {
            Err(x) => r == Err::<Seq<Block>, Error>(x),
            Ok((k, None)) => then_emit(defs, lines, opts, nested, fuel, i, i + 1, out, p, k, Seq::empty(), r),
            Ok((k, Some(_))) => then_emit(defs, lines, opts, nested, fuel, i, i + 1, out, p, k, seq![a], r),
        }) implies #[trigger] heading_step(defs, lines, opts, nested, fuel, i, out, p, r) by {
        assert(heading_res(defs, lines[i]@, opts, h));
        match h {
            Ok((k, Some(id))) => {
                assert(id_attr(a, id@));
                assert(then_emit(defs, lines, opts, nested, fuel, i, i + 1, out, p, k, seq![a], r));
            },
            _ => {},
        }
    }
}

/// A rule line appends a rule.
pub(crate) proof fn lemma_hd_hr(
    defs: Seq<LinkDef>,
    lines: Seq<Vec<char>>,
    opts: Options,
    nested: bool,
    fuel: usize,
    i: int,
    out: Seq<Block>,
    p: Seq<Attr>,
)
    requires
        0 <= i < lines.len(),
        !(lines[i]@.len() > 0 && lines[i]@[0] == '#'),
        is_hr_trimmed(trim_ws_spec(lines[i]@)),
    ensures
        forall|r: Result<Seq<Block>, Error>| #[trigger] then_emit(defs, lines, opts, nested, fuel, i, i + 1, out, p, BlockKind::Hr, Seq::empty(), r) ==> heading_step(defs, lines, opts, nested, fuel, i, out, p, r),
{
}

/// Any other line goes on to the fence step.
pub(crate) proof fn lemma_hd_rest(
    defs: Seq<LinkDef>,
    lines: Seq<Vec<char>>,
    opts: Options,
    nested: bool,
    fuel: usize,
    i: int,
    out: Seq<Block>,
    p: Seq<Attr>,
)
    requires
        0 <= i < lines.len(),
        !(lines[i]@.len() > 0 && lines[i]@[0] == '#'),
        !is_hr_trimmed(trim_ws_spec(lines[i]@)),
    ensures
        forall|r: Result<Seq<Block>, Error>| #[trigger] fence_step(defs, lines, opts, nested, fuel, i, out, p, r) ==> heading_step(defs, lines, opts, nested, fuel, i, out, p, r),
{
}

/// The fence step follows what the fence search answered.
pub(crate) proof fn lemma_fs(
    defs: Seq<LinkDef>,
    lines: Seq<Vec<char>>,
    opts: Options,
    nested: bool,
    fuel: usize,
    i: int,
    out: Seq<Block>,
    p: Seq<Attr>,
    c: Result<Option<(crate::block::FenceOpen, usize)>, Error>,
    k: BlockKind,
)
    requires
        0 <= i < lines.len(),
        closed_fence_rel(lines, i, opts.gfm, c),
        c matches Ok(Some((f, cl))) ==> is_code(k, f.lang, lines_text(lines, i + 1, cl as int)),
    ensures
        forall|r: Result<Seq<Block>, Error>| (match c {
            Err(x) => r == Err::<Seq<Block>, Error>(x),
            Ok(Some((_, cl))) => then_emit(defs, lines, opts, nested, fuel, i, cl + 1, out, p, k, Seq::empty(), r),
            Ok(None) => if fence_open_spec(lines[i]@, opts.gfm) matches Ok(Some(_)) {
                declines_as(r, "unclosed-fence")
            } else {
                nest_step(defs, lines, opts, nested, fuel, i, out, p, r)
            },
        }) ==> #[trigger] fence_step(defs, lines, opts, nested, fuel, i, out, p, r),
{
    assert forall|r: Result<Seq<Block>, Error>| (match c {
            Err(x) => r == Err::<Seq<Block>, Error>(x),
            Ok(Some((_, cl))) => then_emit(defs, lines, opts, nested, fuel, i, cl + 1, out, p, k, Seq::empty(), r),
            Ok(None) => if fence_open_spec(lines[i]@, opts.gfm) matches Ok(Some(_)) {
                declines_as(r, "unclosed-fence")
            } else {
                nest_step(defs, lines, opts, nested, fuel, i, out, p, r)
            },
        }) implies #[trigger] fence_step(defs, lines, opts, nested, fuel, i, out, p, r) by {
        assert(closed_fence_rel(lines, i, opts.gfm, c));
        match c {
            Ok(Some((f, cl))) => {
                assert(is_code(k, f.lang, lines_text(lines, i + 1, cl as int)));
                assert(then_emit(defs, lines, opts, nested, fuel, i, cl + 1, out, p, k, Seq::empty(), r));
            },
            _ => {},
        }
    }
}

/// A blockquote with no nesting depth left declines.
pub(crate) proof fn lemma_ns_depth(
    defs: Seq<LinkDef>,
    lines: Seq<Vec<char>>,
    opts: Options,
    nested: bool,
    fuel: usize,
    i: int,
    out: Seq<Block>,
    p: Seq<Attr>,
    r: Result<Seq<Block>, Error>,
)
    requires
        0 <= i < lines.len(),
        lines[i]@.len() > 0 && lines[i]@[0] == '>',
        fuel == 0,
        declines_as(r, "nesting-depth"),
    ensures
        nest_step(defs, lines, opts, nested, fuel, i, out, p, r),
{
}

/// A blockquote holds the parse of its lines one level deeper, trimmed of blank-run markers.
pub(crate) proof fn lemma_ns_quote(
    defs: Seq<LinkDef>,
    lines: Seq<Vec<char>>,
    opts: Options,
    nested: bool,
    fuel: usize,
    i: int,
    out: Seq<Block>,
    p: Seq<Attr>,
    inner: Seq<Vec<char>>,
    body: Result<Seq<Block>, Error>,
    v: Vec<Block>,
)
    requires
        0 <= i < lines.len(),
        lines[i]@.len() > 0 && lines[i]@[0] == '>',
        fuel > 0,
        quote_inner(lines, i, inner),
        blocks_from(defs, inner, opts, true, (fuel - 1) as usize, 0, Seq::empty(), Seq::empty(), body),
        body matches Ok(bs) ==> has_blocks(v, trimmed(bs)),
    ensures
        forall|r: Result<Seq<Block>, Error>| (match body {
            Err(x) => r == Err::<Seq<Block>, Error>(x),
            Ok(_) => then_emit(defs, lines, opts, nested, fuel, i, quote_end(lines, i + 1), out, p, BlockKind::Quote(v), Seq::empty(), r),
        }) ==> #[trigger] nest_step(defs, lines, opts, nested, fuel, i, out, p, r),
{
    assert forall|r: Result<Seq<Block>, Error>| (match body {
            Err(x) => r == Err::<Seq<Block>, Error>(x),
            Ok(_) => then_emit(defs, lines, opts, nested, fuel, i, quote_end(lines, i + 1), out, p, BlockKind::Quote(v), Seq::empty(), r),
        }) implies #[trigger] nest_step(defs, lines, opts, nested, fuel, i, out, p, r) by {
        assert(blocks_from(defs, inner, opts, true, (fuel - 1) as usize, 0, Seq::empty(), Seq::empty(), body));
        assert(quote_inner(lines, i, inner));
        assert(some_res(body));
        if body is Ok {
            assert(has_blocks(v, trimmed(body->Ok_0)));
            assert(then_emit(defs, lines, opts, nested, fuel, i, quote_end(lines, i + 1), out, p, BlockKind::Quote(v), Seq::empty(), r));
        }
    }
}

/// A list follows what the list parse answered.
pub(crate) proof fn lemma_ns_list(
    defs: Seq<LinkDef>,
    lines: Seq<Vec<char>>,
    opts: Options,
    nested: bool,
    fuel: usize,
    i: int,
    out: Seq<Block>,
    p: Seq<Attr>,
    x: Result<(BlockKind, usize), Error>,
)
    requires
        0 <= i < lines.len(),
        !(lines[i]@.len() > 0 && lines[i]@[0] == '>'),
        lead_run(lines[i]@, 0, false) <= 3 && list_marker_spec(lines[i]@.subrange(lead_run(lines[i]@, 0, false), lines[i]@.len() as int)) is Some,
        list_res(defs, opts, lines, i, lead_run(lines[i]@, 0, false), list_marker_spec(lines[i]@.subrange(lead_run(lines[i]@, 0, false), lines[i]@.len() as int))->0, fuel, x),
    ensures
        forall|r: Result<Seq<Block>, Error>| (match x {
            Err(y) => r == Err::<Seq<Block>, Error>(y),
            Ok((k, e)) => then_emit(defs, lines, opts, nested, fuel, i, e as int, out, p, k, Seq::empty(), r),
        }) ==> #[trigger] nest_step(defs, lines, opts, nested, fuel, i, out, p, r),
{
    assert forall|r: Result<Seq<Block>, Error>| (match x {
            Err(y) => r == Err::<Seq<Block>, Error>(y),
            Ok((k, e)) => then_emit(defs, lines, opts, nested, fuel, i, e as int, out, p, k, Seq::empty(), r),
        }) implies #[trigger] nest_step(defs, lines, opts, nested, fuel, i, out, p, r) by {
        assert(list_answer(x));
        assert(list_res(defs, opts, lines, i, lead_run(lines[i]@, 0, false), list_marker_spec(lines[i]@.subrange(lead_run(lines[i]@, 0, false), lines[i]@.len() as int))->0, fuel, x));
    }
}

/// An opener kramdown reads with an optional space declines.
pub(crate) proof fn lemma_ns_opt(
    defs: Seq<LinkDef>,
    lines: Seq<Vec<char>>,
    opts: Options,
    nested: bool,
    fuel: usize,
    i: int,
    out: Seq<Block>,
    p: Seq<Attr>,
    r: Result<Seq<Block>, Error>,
)
    requires
        0 <= i < lines.len(),
        !(lines[i]@.len() > 0 && lines[i]@[0] == '>'),
        !(lead_run(lines[i]@, 0, false) <= 3 && list_marker_spec(lines[i]@.subrange(lead_run(lines[i]@, 0, false), lines[i]@.len() as int)) is Some),
        opt_space_spec(lines[i]@, opts.gfm),
        declines_as(r, "opt-space-block"),
    ensures
        nest_step(defs, lines, opts, nested, fuel, i, out, p, r),
{
}

/// Any other line opens a paragraph: its joined lines parsed as spans.
pub(crate) proof fn lemma_ns_para(
    defs: Seq<LinkDef>,
    lines: Seq<Vec<char>>,
    opts: Options,
    nested: bool,
    fuel: usize,
    i: int,
    out: Seq<Block>,
    p: Seq<Attr>,
    g: Result<(Vec<char>, usize), Error>,
    k: BlockKind,
)
    requires
        0 <= i < lines.len(),
        !(lines[i]@.len() > 0 && lines[i]@[0] == '>'),
        !(lead_run(lines[i]@, 0, false) <= 3 && list_marker_spec(lines[i]@.subrange(lead_run(lines[i]@, 0, false), lines[i]@.len() as int)) is Some),
        !opt_space_spec(lines[i]@, opts.gfm),
        para_rel(lines, i, opts.gfm, g),
        g matches Ok((jn, e)) ==> i < e <= lines.len() && jn@ == para_text(lines, i, e as int, e as int),
        g matches Ok((jn, _)) ==> (scan_spec(defs, jn@, None, false, false, None) matches Ok((sp, _)) ==> is_para(k, sp)),
    ensures
        forall|r: Result<Seq<Block>, Error>| (match g {
            Err(x) => r == Err::<Seq<Block>, Error>(x),
            Ok((jn, e)) => match scan_spec(defs, jn@, None, false, false, None) {
                Err(w) => declines_as(r, w),
                Ok(_) => then_emit(defs, lines, opts, nested, fuel, i, e as int, out, p, k, Seq::empty(), r),
            },
        }) ==> #[trigger] nest_step(defs, lines, opts, nested, fuel, i, out, p, r),
{
    assert forall|r: Result<Seq<Block>, Error>| (match g {
            Err(x) => r == Err::<Seq<Block>, Error>(x),
            Ok((jn, e)) => match scan_spec(defs, jn@, None, false, false, None) {
                Err(w) => declines_as(r, w),
                Ok(_) => then_emit(defs, lines, opts, nested, fuel, i, e as int, out, p, k, Seq::empty(), r),
            },
        }) implies #[trigger] nest_step(defs, lines, opts, nested, fuel, i, out, p, r) by {
        assert(para_rel(lines, i, opts.gfm, g));
        match g {
            Ok((jn, e)) => {
                if scan_spec(defs, jn@, None, false, false, None) is Ok {
                    assert(is_para(k, scan_spec(defs, jn@, None, false, false, None)->Ok_0.0));
                    assert(then_emit(defs, lines, opts, nested, fuel, i, e as int, out, p, k, Seq::empty(), r));
                }
            },
            _ => {},
        }
    }
}

/// Emitting a block that can carry the pending IAL continues with the
/// grown block sequence.
pub(crate) proof fn lemma_emit_cont(
    defs: Seq<LinkDef>,
    lines: Seq<Vec<char>>,
    opts: Options,
    nested: bool,
    fuel: usize,
    i: int,
    j: int,
    out: Seq<Block>,
    pending: Seq<Attr>,
    kind: BlockKind,
    extra: Seq<Attr>,
    o2: Seq<Block>,
)
    requires
        0 <= i < j <= lines.len(),
        !(pending.len() > 0 && !attachable_spec(kind)),
        appended(out, kind, pending + extra, o2),
    ensures
        forall|r: Result<Seq<Block>, Error>|
            #[trigger] blocks_from(defs, lines, opts, nested, fuel, j, o2, Seq::empty(), r) ==> then_emit(
                defs,
                lines,
                opts,
                nested,
                fuel,
                i,
                j,
                out,
                pending,
                kind,
                extra,
                r,
            ),
{
    assert forall|r: Result<Seq<Block>, Error>|
        #[trigger] blocks_from(defs, lines, opts, nested, fuel, j, o2, Seq::empty(), r) implies then_emit(
            defs,
            lines,
            opts,
            nested,
            fuel,
            i,
            j,
            out,
            pending,
            kind,
            extra,
            r,
        ) by {
        assert(appended(out, kind, pending + extra, o2));
    }
}

/// Emitting a block that cannot carry the pending IAL declines.
pub(crate) proof fn lemma_emit_err(
    defs: Seq<LinkDef>,
    lines: Seq<Vec<char>>,
    opts: Options,
    nested: bool,
    fuel: usize,
    i: int,
    j: int,
    out: Seq<Block>,
    pending: Seq<Attr>,
    kind: BlockKind,
    extra: Seq<Attr>,
    r: Result<Seq<Block>, Error>,
)
    requires
        0 <= i < j <= lines.len(),
        pending.len() > 0 && !attachable_spec(kind),
        declines_as(r, "block-ial"),
    ensures
        then_emit(defs, lines, opts, nested, fuel, i, j, out, pending, kind, extra, r),
{
}

/// What the block parser makes of `lines`: `Ok` with the block sequence,
/// or the decline.
#[verifier::opaque]
pub open spec fn blocks_rel(
    defs: Seq<LinkDef>,
    lines: Seq<Vec<char>>,
    opts: Options,
    nested: bool,
    fuel: usize,
    r: Result<Seq<Block>, Error>,
) -> bool {
    blocks_from(defs, lines, opts, nested, fuel, 0, Seq::empty(), Seq::empty(), r)
}

/// The lines of `ls` whose mask entry is unset.
pub open spec fn unmasked(ls: Seq<Seq<char>>, m: Seq<bool>) -> Seq<Seq<char>>
    decreases ls.len(),
{
    if ls.len() == 0 || m.len() != ls.len() {
        Seq::empty()
    } else if m.last() {
        unmasked(ls.drop_last(), m.drop_last())
    } else {
        unmasked(ls.drop_last(), m.drop_last()).push(ls.last())
    }
}

/// What the parser makes of a whole document `src`: its lines (a final
/// newline ends the last line), the block link definitions lifted out of
/// them, and the remaining lines parsed as blocks at the top level.
pub open spec fn document_rel(src: Seq<char>, opts: Options, r: Result<Seq<Block>, Error>) -> bool {
    exists|lines: Seq<Vec<char>>|
        #[trigger] crate::lines::views(lines) == crate::block::doc_lines(src) && match crate::lines::defs_scan(
            lines,
            0,
            true,
            Seq::empty(),
            Seq::empty(),
        ) {
            Err(_) => declines_as(r, "link-definition"),
            Ok((ds, m)) => exists|defs: Seq<LinkDef>, kept: Seq<Vec<char>>|
                #![trigger crate::lines::defs_v(defs), crate::lines::views(kept)]
                crate::lines::defs_v(defs) == ds && crate::lines::views(kept) == unmasked(
                    crate::lines::views(lines),
                    m,
                ) && blocks_rel(defs, kept, opts, false, src.len() as usize, r),
        }
}

/// A parse result with its block sequence viewed.
pub open spec fn res_seq(r: Result<Vec<Block>, Error>) -> Result<Seq<Block>, Error> {
    match r {
        Ok(v) => Ok(v@),
        Err(e) => Err(e),
    }
}

} // verus!
