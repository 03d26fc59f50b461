//! Preparing a parsed tree for conversion: heading ids, the table of
//! contents, and code highlighting — the steps that consult the options,
//! the id counter and the highlighter — then rendering it.

use vstd::prelude::*;
use crate::{CodeHighlighter, Error, Options};
use crate::ast::{Block, BlockKind, Item, Span};
use crate::ial::Attr;
use crate::text::chars_of;
use crate::slug::{IdCounter, dedup_id, basic_generate_id, gfm_slug};
use crate::render::{RenderCx, TocEntry, blocks_html, collect_string, convert_spans, render_blocks, has_key,
    first_val};
use crate::slug::{gfm_slug_spec, dedup_result, bump, first_alpha, basic_id};

verus! {

fn declined(what: &'static str) -> (e: Error)
    ensures
        e == Error::Declined(what),
{
    Error::Declined(what)
}

/// A span tree holds a link.
pub open spec fn spans_link(spans: Seq<Span>) -> bool
    decreases spans,
{
    if spans.len() == 0 {
        false
    } else {
        spans_link(spans.drop_last()) || match spans.last() {
            Span::Link { .. } => true,
            Span::Em(inner, _) => spans_link(inner@),
            Span::Strong(inner, _) => spans_link(inner@),
            Span::Del(inner) => spans_link(inner@),
            _ => false,
        }
    }
}

/// Whether a span tree holds a link.
pub fn spans_have_link(spans: &Vec<Span>) -> (r: bool)
    ensures
        r == spans_link(spans@),
    decreases spans@,
{
    let mut k: usize = 0;
    while k < spans.len()
        invariant
            k <= spans@.len(),
            !spans_link(spans@.subrange(0, k as int)),
        decreases spans@.len() - k,
    {
        proof {
            assert(spans@.subrange(0, k + 1).drop_last() =~= spans@.subrange(0, k as int));
        }
        assert(decreases_to!(spans@ => spans@[k as int]));
        let found = match &spans[k] {
            Span::Link { .. } => true,
            Span::Em(inner, _) => spans_have_link(inner),
            Span::Strong(inner, _) => spans_have_link(inner),
            Span::Del(inner) => spans_have_link(inner),
            _ => false,
        };
        if found {
            proof {
                lemma_link_prefix(spans@, k + 1);
            }
            return true;
        }
        k = k + 1;
    }
    assert(spans@.subrange(0, spans@.len() as int) =~= spans@);
    false
}

/// A link in a prefix is a link in the whole.
proof fn lemma_link_prefix(s: Seq<Span>, k: int)
    requires
        0 <= k <= s.len(),
        spans_link(s.subrange(0, k)),
    ensures
        spans_link(s),
    decreases s.len() - k,
{
    if k < s.len() {
        assert(s.subrange(0, k + 1).drop_last() =~= s.subrange(0, k));
        lemma_link_prefix(s, k + 1);
    } else {
        assert(s.subrange(0, k) =~= s);
    }
}

/// Some list in the tree is marked as the table of contents.
pub open spec fn tree_toc(bs: Seq<Block>) -> bool
    decreases bs,
{
    if bs.len() == 0 {
        false
    } else {
        tree_toc(bs.drop_last()) || match bs.last().kind {
            BlockKind::List { toc, items, .. } => toc || items_toc(items@),
            BlockKind::Quote(inner) => tree_toc(inner@),
            _ => false,
        }
    }
}

pub open spec fn items_toc(items: Seq<Item>) -> bool
    decreases items,
{
    if items.len() == 0 {
        false
    } else {
        items_toc(items.drop_last()) || tree_toc(items.last().blocks@)
    }
}

proof fn lemma_toc_prefix(s: Seq<Block>, k: int)
    requires
        0 <= k <= s.len(),
        tree_toc(s.subrange(0, k)),
    ensures
        tree_toc(s),
    decreases s.len() - k,
{
    if k < s.len() {
        assert(s.subrange(0, k + 1).drop_last() =~= s.subrange(0, k));
        lemma_toc_prefix(s, k + 1);
    } else {
        assert(s.subrange(0, k) =~= s);
    }
}

proof fn lemma_items_toc_prefix(s: Seq<Item>, k: int)
    requires
        0 <= k <= s.len(),
        items_toc(s.subrange(0, k)),
    ensures
        items_toc(s),
    decreases s.len() - k,
{
    if k < s.len() {
        assert(s.subrange(0, k + 1).drop_last() =~= s.subrange(0, k));
        lemma_items_toc_prefix(s, k + 1);
    } else {
        assert(s.subrange(0, k) =~= s);
    }
}

/// The first heading of the tree (in document order, descending into
/// blockquotes and the items of lists other than a `{:toc}` list) that is
/// out of subset under a table of contents: what it declines as, or `None`
/// when there is none.
pub fn toc_reason(blocks: &Vec<Block>, opts: Options) -> (r: Option<&'static str>)
    ensures
        r is Some <==> toc_bad(blocks@, opts),
    decreases blocks@,
{
    let mut k: usize = 0;
    while k < blocks.len()
        invariant
            k <= blocks@.len(),
            !toc_bad(blocks@.subrange(0, k as int), opts),
        decreases blocks@.len() - k,
    {
        proof {
            assert(blocks@.subrange(0, k + 1).drop_last() =~= blocks@.subrange(0, k as int));
        }
        assert(decreases_to!(blocks@ => blocks@[k as int]));
        let b = &blocks[k];
        let found: Option<&'static str> = match &b.kind {
            BlockKind::Heading { spans, .. } => {
                let ikey = chars_of("id");
                let ckey = chars_of("class");
                let has_id = crate::ial::find_attr(&b.ial, ikey.as_slice()).is_some();
                if has_id || opts.auto_ids {
                    if spans_have_link(spans) {
                        Some("toc-heading-link")
                    } else if crate::ial::find_attr(&b.ial, ckey.as_slice()).is_some() {
                        Some("toc-heading-class")
                    } else {
                        None
                    }
                } else {
                    None
                }
            },
            BlockKind::List { toc, items, .. } => {
                if *toc {
                    None
                } else {
                    items_toc_reason(items, opts)
                }
            },
            BlockKind::Quote(inner) => toc_reason(inner, opts),
            _ => None,
        };
        proof {
            reveal_strlit("id");
            reveal_strlit("class");
        }
        if found.is_some() {
            proof {
                lemma_toc_bad_prefix(blocks@, k + 1, opts);
            }
            return found;
        }
        k = k + 1;
    }
    assert(blocks@.subrange(0, blocks@.len() as int) =~= blocks@);
    None
}

fn items_toc_reason(items: &Vec<Item>, opts: Options) -> (r: Option<&'static str>)
    ensures
        r is Some <==> items_bad(items@, opts),
    decreases items@,
{
    let mut k: usize = 0;
    while k < items.len()
        invariant
            k <= items@.len(),
            !items_bad(items@.subrange(0, k as int), opts),
        decreases items@.len() - k,
    {
        proof {
            assert(items@.subrange(0, k + 1).drop_last() =~= items@.subrange(0, k as int));
        }
        assert(decreases_to!(items@ => items@[k as int]));
        let found = toc_reason(&items[k].blocks, opts);
        if found.is_some() {
            proof {
                lemma_items_bad_prefix(items@, k + 1, opts);
            }
            return found;
        }
        k = k + 1;
    }
    assert(items@.subrange(0, items@.len() as int) =~= items@);
    None
}

/// Whether any list in the tree is marked as the table of contents.
pub fn has_toc(blocks: &Vec<Block>) -> (r: bool)
    ensures
        r == tree_toc(blocks@),
    decreases blocks@,
{
    let mut k: usize = 0;
    while k < blocks.len()
        invariant
            k <= blocks@.len(),
            !tree_toc(blocks@.subrange(0, k as int)),
        decreases blocks@.len() - k,
    {
        proof {
            assert(blocks@.subrange(0, k + 1).drop_last() =~= blocks@.subrange(0, k as int));
        }
        assert(decreases_to!(blocks@ => blocks@[k as int]));
        let found = match &blocks[k].kind {
            BlockKind::List { toc, items, .. } => {
                if *toc {
                    true
                } else {
                    items_have_toc(items)
                }
            },
            BlockKind::Quote(inner) => has_toc(inner),
            _ => false,
        };
        if found {
            proof {
                lemma_toc_prefix(blocks@, k + 1);
            }
            return true;
        }
        k = k + 1;
    }
    assert(blocks@.subrange(0, blocks@.len() as int) =~= blocks@);
    false
}

fn items_have_toc(items: &Vec<Item>) -> (r: bool)
    ensures
        r == items_toc(items@),
    decreases items@,
{
    let mut k: usize = 0;
    while k < items.len()
        invariant
            k <= items@.len(),
            !items_toc(items@.subrange(0, k as int)),
        decreases items@.len() - k,
    {
        proof {
            assert(items@.subrange(0, k + 1).drop_last() =~= items@.subrange(0, k as int));
        }
        assert(decreases_to!(items@ => items@[k as int]));
        if has_toc(&items[k].blocks) {
            proof {
                lemma_items_toc_prefix(items@, k + 1);
            }
            return true;
        }
        k = k + 1;
    }
    assert(items@.subrange(0, items@.len() as int) =~= items@);
    false
}

/// The first attribute with `key` is at `k`: its value is `first_val`.
proof fn lemma_first_val(a: Seq<Attr>, key: Seq<char>, k: int)
    requires
        0 <= k < a.len(),
        a[k].key@ == key,
        forall|j: int| 0 <= j < k ==> a[j].key@ != key,
    ensures
        first_val(a, key) == a[k].val@,
    decreases k,
{
    if k > 0 {
        lemma_first_val(a.drop_first(), key, k - 1);
    }
}

/// No id handed out yet.
pub open spec fn no_ids() -> spec_fn(Seq<char>) -> Option<u32> {
    |k: Seq<char>| None::<u32>
}

/// The repeat counts an id counter has recorded, as a function of the id.
pub open spec fn cnt_of(u: IdCounter) -> spec_fn(Seq<char>) -> Option<u32> {
    |k: Seq<char>| u.lookup(k)
}

/// The counts after handing out an id based on `id`.
pub open spec fn cnt_bump(c: spec_fn(Seq<char>) -> Option<u32>, id: Seq<char>) -> spec_fn(
    Seq<char>,
) -> Option<u32> {
    |k: Seq<char>|
        if k == id {
            Some(
                match c(id) {
                    None => 0u32,
                    Some(x) => bump(x),
                },
            )
        } else {
            c(k)
        }
}

/// The index of the first ASCII letter of `raw` (its length when none).
pub open spec fn first_alpha_at(raw: Seq<char>) -> int {
    choose|k: int| first_alpha(raw, k)
}

/// The id an auto id is based on: the GFM slug of the heading's parsed
/// text where GFM gives one, else the basic id of its raw text.
pub open spec fn auto_base(raw: Seq<char>, span_text: Seq<char>, opts: Options) -> Seq<char> {
    if opts.gfm && gfm_slug_spec(span_text) is Some {
        gfm_slug_spec(span_text)->0
    } else {
        basic_id(raw, first_alpha_at(raw))
    }
}

/// The id a heading gets, given the counts so far, and the counts after:
/// an IAL `id` verbatim, else (with `auto_ids`) its auto base deduplicated
/// against the ids handed out before, else none.
pub open spec fn id_step(
    ial: Seq<Attr>,
    raw: Seq<char>,
    span_text: Seq<char>,
    opts: Options,
    c: spec_fn(Seq<char>) -> Option<u32>,
) -> (Option<Seq<char>>, spec_fn(Seq<char>) -> Option<u32>) {
    if has_key(ial, "id"@) {
        (Some(first_val(ial, "id"@)), c)
    } else if !opts.auto_ids {
        (None, c)
    } else {
        let base = auto_base(raw, span_text, opts);
        (Some(dedup_result(base, c(base))), cnt_bump(c, base))
    }
}

proof fn lemma_first_alpha_unique(s: Seq<char>, k: int)
    requires
        first_alpha(s, k),
    ensures
        first_alpha_at(s) == k,
{
    let j = first_alpha_at(s);
    assert(first_alpha(s, j));
    if j < k {
        assert(crate::text::is_ascii_alpha(s[j]));
    } else if j > k {
        assert(crate::text::is_ascii_alpha(s[k]));
    }
}

/// The id a heading gets: an IAL `id` verbatim, else (with `auto_ids`) the
/// GFM slug of its parsed text (core: the basic id of its raw text),
/// deduplicated against the ids handed out before.
pub fn heading_id(
    ial: &Vec<Attr>,
    raw: &Vec<char>,
    span_text: &Vec<char>,
    opts: Options,
    used: &mut IdCounter,
) -> (r: Option<Vec<char>>)
    ensures
        has_key(ial@, "id"@) ==> (r matches Some(v) && v@ == first_val(ial@, "id"@)) && *final(used)
            == *old(used),
        (!has_key(ial@, "id"@) && !opts.auto_ids) ==> r is None && *final(used) == *old(used),
        heading_id_ok(ial@, r, opts),
        (!has_key(ial@, "id"@) && opts.auto_ids && opts.gfm && gfm_slug_spec(span_text@) is Some) ==> (
        r matches Some(v) && v@ == dedup_result(
            gfm_slug_spec(span_text@)->0,
            old(used).lookup(gfm_slug_spec(span_text@)->0),
        )),
        (!has_key(ial@, "id"@) && opts.auto_ids && !(opts.gfm && gfm_slug_spec(span_text@) is Some))
            ==> (r matches Some(v) && exists|k: int|
            #[trigger] crate::slug::first_alpha(raw@, k) && v@ == dedup_result(
                crate::slug::basic_id(raw@, k),
                old(used).lookup(crate::slug::basic_id(raw@, k)),
            )),
        crate::render::opt_vec(r) == id_step(ial@, raw@, span_text@, opts, cnt_of(*old(used))).0,
        cnt_of(*final(used)) == id_step(ial@, raw@, span_text@, opts, cnt_of(*old(used))).1,
{
    let key = chars_of("id");
    match crate::ial::find_attr(ial, key.as_slice()) {
        Some(k) => {
            proof {
                lemma_first_val(ial@, "id"@, k as int);
            }
            Some(crate::text::to_vec(ial[k].val.as_slice()))
        },
        None => {
            assert(!has_key(ial@, "id"@));
            if opts.auto_ids {
                let base = if opts.gfm {
                    match gfm_slug(span_text.as_slice()) {
                        Some(s) => s,
                        None => basic_generate_id(raw.as_slice()),
                    }
                } else {
                    basic_generate_id(raw.as_slice())
                };
                proof {
                    if !(opts.gfm && gfm_slug_spec(span_text@) is Some) {
                        let k = choose|k: int|
                            #[trigger] crate::slug::first_alpha(raw@, k) && base@
                                == crate::slug::basic_id(raw@, k);
                        lemma_first_alpha_unique(raw@, k);
                    }
                    assert(base@ == auto_base(raw@, span_text@, opts));
                }
                let ghost u0 = *used;
                let r = dedup_id(base, used);
                proof {
                    assert(cnt_of(*used) =~= cnt_bump(cnt_of(u0), auto_base(raw@, span_text@, opts)));
                }
                Some(r)
            } else {
                None
            }
        },
    }
}

/// A heading's id after preparation: it has one exactly when its IAL sets
/// `id` or `auto_ids` is on, and an IAL `id` is kept verbatim.
pub open spec fn heading_id_ok(ial: Seq<Attr>, id: Option<Vec<char>>, opts: Options) -> bool {
    &&& (id is Some <==> (has_key(ial, "id"@) || opts.auto_ids))
    &&& (has_key(ial, "id"@) ==> id->0@ == first_val(ial, "id"@))
}

/// What a highlighter of type `H` may answer for a language and code: some
/// state of it answers so.
pub open spec fn hl_answers<H: CodeHighlighter + ?Sized>() -> spec_fn(Seq<char>, Seq<char>, Option<Seq<char>>) -> bool {
    |l: Seq<char>, c: Seq<char>, o: Option<Seq<char>>| exists|s: &H| #[trigger] s.answers(l, c, o)
}

/// A code block's highlighting after preparation: none without a resolved
/// language; otherwise the highlighter was asked for the resolved language
/// (the fence's, else the highlighter's default) and the block's text, and
/// the block holds that language with the HTML it answered, or nothing
/// where it declined (`ans` says what it may answer).
pub open spec fn code_hl_ok(
    lang: Option<Vec<char>>,
    text: Vec<char>,
    dflt: Option<Vec<char>>,
    h: Option<(Vec<char>, Vec<char>)>,
    ans: spec_fn(Seq<char>, Seq<char>, Option<Seq<char>>) -> bool,
) -> bool {
    &&& ((lang is None && dflt is None) ==> h is None)
    &&& (h matches Some((l, _)) ==> l@ == match lang {
        Some(x) => x@,
        None => dflt->0@,
    })
    &&& match hl_request_spec(crate::render::opt_vec(lang), text@, crate::render::opt_vec(dflt)) {
        None => h is None,
        Some((l, c)) => match h {
            Some((l2, x)) => l2@ == l && ans(l, c, Some(x@)),
            None => ans(l, c, None),
        },
    }
}

/// The id counts after preparing the tree `a` from counts `c`: each
/// heading, in document order (descending into blockquotes and the items
/// of lists other than a `{:toc}` list), takes its id.
pub open spec fn prep_counter(a: Seq<Block>, opts: Options, c: spec_fn(Seq<char>) -> Option<u32>) -> spec_fn(
    Seq<char>,
) -> Option<u32>
    decreases a,
{
    if a.len() == 0 {
        c
    } else {
        let m = prep_counter(a.drop_last(), opts, c);
        match a.last().kind {
            BlockKind::Heading { raw, span_text, .. } => id_step(
                a.last().ial@,
                raw@,
                span_text@,
                opts,
                m,
            ).1,
            BlockKind::Quote(x) => prep_counter(x@, opts, m),
            BlockKind::List { items, toc, .. } => if toc {
                m
            } else {
                items_counter(items@, opts, m)
            },
            _ => m,
        }
    }
}

pub open spec fn items_counter(a: Seq<Item>, opts: Options, c: spec_fn(Seq<char>) -> Option<u32>) -> spec_fn(
    Seq<char>,
) -> Option<u32>
    decreases a,
{
    if a.len() == 0 {
        c
    } else {
        prep_counter(a.last().blocks@, opts, items_counter(a.drop_last(), opts, c))
    }
}

/// `b` is `a` prepared from id counts `c`: the same blocks in the same
/// order with the same IALs, each heading given its id (its IAL id, else
/// with `auto_ids` its auto id deduplicated against the ids before it in
/// document order) and each code block its highlighting, blockquote bodies
/// and list items (but not a `{:toc}` list) prepared throughout,
/// everything else untouched.
pub open spec fn prep_seq(
    a: Seq<Block>,
    b: Seq<Block>,
    opts: Options,
    dflt: Option<Vec<char>>,
    c: spec_fn(Seq<char>) -> Option<u32>,
    ans: spec_fn(Seq<char>, Seq<char>, Option<Seq<char>>) -> bool,
) -> bool
    decreases a,
{
    if a.len() == 0 {
        b.len() == 0
    } else {
        let m = prep_counter(a.drop_last(), opts, c);
        &&& b.len() == a.len()
        &&& prep_seq(a.drop_last(), b.drop_last(), opts, dflt, c, ans)
        &&& b.last().ial == a.last().ial
        &&& match a.last().kind {
            BlockKind::Heading { level, raw, span_text, spans, id: _ } => (b.last().kind matches BlockKind::Heading {
                level: l2,
                raw: r2,
                span_text: t2,
                spans: s2,
                id,
            } && l2 == level && r2 == raw && t2 == span_text && s2 == spans && heading_id_ok(
                a.last().ial@,
                id,
                opts,
            ) && crate::render::opt_vec(id) == id_step(a.last().ial@, raw@, span_text@, opts, m).0),
            BlockKind::Code { lang, text, highlighted: _ } => (b.last().kind matches BlockKind::Code {
                lang: g2,
                text: x2,
                highlighted,
            } && g2 == lang && x2 == text && code_hl_ok(lang, text, dflt, highlighted, ans)),
            BlockKind::Quote(x) => (b.last().kind matches BlockKind::Quote(y) && prep_seq(
                x@,
                y@,
                opts,
                dflt,
                m,
                ans,
            )),
            BlockKind::List { ordered, loose, items, toc } => (b.last().kind matches BlockKind::List {
                ordered: o2,
                loose: l2,
                items: i2,
                toc: t2,
            } && o2 == ordered && l2 == loose && t2 == toc && if toc {
                i2 == items
            } else {
                prep_items(items@, i2@, opts, dflt, m, ans)
            }),
            _ => b.last().kind == a.last().kind,
        }
    }
}

/// `b` is the list items `a`, each prepared in turn from id counts `c`.
pub open spec fn prep_items(
    a: Seq<Item>,
    b: Seq<Item>,
    opts: Options,
    dflt: Option<Vec<char>>,
    c: spec_fn(Seq<char>) -> Option<u32>,
    ans: spec_fn(Seq<char>, Seq<char>, Option<Seq<char>>) -> bool,
) -> bool
    decreases a,
{
    if a.len() == 0 {
        b.len() == 0
    } else {
        &&& b.len() == a.len()
        &&& prep_items(a.drop_last(), b.drop_last(), opts, dflt, c, ans)
        &&& prep_seq(a.last().blocks@, b.last().blocks@, opts, dflt, items_counter(a.drop_last(), opts, c), ans)
    }
}

/// A heading that gets an id while holding a link or carrying a class: with
/// a table of contents in the document, it is out of subset.
pub open spec fn toc_bad_block(b: Block, opts: Options) -> bool {
    b.kind matches BlockKind::Heading { spans, .. } && (has_key(b.ial@, "id"@) || opts.auto_ids) && (
    spans_link(spans@) || has_key(b.ial@, "class"@))
}

/// Some heading of the tree (descending into blockquotes and the items of
/// lists other than a `{:toc}` list) is out of subset under a TOC.
pub open spec fn toc_bad(bs: Seq<Block>, opts: Options) -> bool
    decreases bs,
{
    if bs.len() == 0 {
        false
    } else {
        toc_bad(bs.drop_last(), opts) || toc_bad_block(bs.last(), opts) || match bs.last().kind {
            BlockKind::Quote(inner) => toc_bad(inner@, opts),
            BlockKind::List { items, toc, .. } => !toc && items_bad(items@, opts),
            _ => false,
        }
    }
}

pub open spec fn items_bad(items: Seq<Item>, opts: Options) -> bool
    decreases items,
{
    if items.len() == 0 {
        false
    } else {
        items_bad(items.drop_last(), opts) || toc_bad(items.last().blocks@, opts)
    }
}

proof fn lemma_toc_bad_prefix(s: Seq<Block>, k: int, opts: Options)
    requires
        0 <= k <= s.len(),
        toc_bad(s.subrange(0, k), opts),
    ensures
        toc_bad(s, opts),
    decreases s.len() - k,
{
    if k < s.len() {
        assert(s.subrange(0, k + 1).drop_last() =~= s.subrange(0, k));
        lemma_toc_bad_prefix(s, k + 1, opts);
    } else {
        assert(s.subrange(0, k) =~= s);
    }
}

proof fn lemma_items_bad_prefix(s: Seq<Item>, k: int, opts: Options)
    requires
        0 <= k <= s.len(),
        items_bad(s.subrange(0, k), opts),
    ensures
        items_bad(s, opts),
    decreases s.len() - k,
{
    if k < s.len() {
        assert(s.subrange(0, k + 1).drop_last() =~= s.subrange(0, k));
        lemma_items_bad_prefix(s, k + 1, opts);
    } else {
        assert(s.subrange(0, k) =~= s);
    }
}

/// A table-of-contents entry as values: level, id and the heading's HTML.
pub open spec fn entry_view(e: TocEntry) -> (u8, Seq<char>, Seq<char>) {
    (e.level, e.id@, e.html@)
}

pub open spec fn toc_view(v: Seq<TocEntry>) -> Seq<(u8, Seq<char>, Seq<char>)> {
    v.map_values(|e: TocEntry| entry_view(e))
}

/// The table-of-contents entries of a prepared tree, in document order:
/// every heading that has an id (with its level, id and span HTML),
/// descending into blockquotes and the items of lists other than a
/// `{:toc}` list.
pub open spec fn toc_of(bs: Seq<Block>, cls: Option<Seq<char>>) -> Seq<(u8, Seq<char>, Seq<char>)>
    decreases bs,
{
    if bs.len() == 0 {
        Seq::empty()
    } else {
        toc_of(bs.drop_last(), cls) + match bs.last().kind {
            BlockKind::Heading { level, spans, id, .. } => match id {
                Some(v) => seq![(level, v@, crate::render::spans_html(spans@, cls))],
                None => Seq::empty(),
            },
            BlockKind::Quote(inner) => toc_of(inner@, cls),
            BlockKind::List { items, toc, .. } => if toc {
                Seq::empty()
            } else {
                items_toc_of(items@, cls)
            },
            _ => Seq::empty(),
        }
    }
}

pub open spec fn items_toc_of(items: Seq<Item>, cls: Option<Seq<char>>) -> Seq<
    (u8, Seq<char>, Seq<char>),
>
    decreases items,
{
    if items.len() == 0 {
        Seq::empty()
    } else {
        items_toc_of(items.drop_last(), cls) + toc_of(items.last().blocks@, cls)
    }
}

/// Prepare a parsed tree for conversion, in document order (descending into
/// blockquotes and list items): give each heading its id and collect the
/// table-of-contents entries, and run the highlighter on each code block
/// whose language resolves (the fence's, else the highlighter's default).
/// With a TOC in the document, a heading holding a link or carrying a class
/// declines.
pub fn prepare<H: CodeHighlighter + ?Sized>(
    blocks: &mut Vec<Block>,
    opts: Options,
    used: &mut IdCounter,
    toc: &mut Vec<TocEntry>,
    with_toc: bool,
    cls: &Option<Vec<char>>,
    dflt: &Option<Vec<char>>,
    hl: &mut H,
) -> (r: Result<(), Error>)
    ensures
        r is Ok <==> !(with_toc && toc_bad(old(blocks)@, opts)),
        r is Ok ==> prep_seq(old(blocks)@, final(blocks)@, opts, *dflt, cnt_of(*old(used)), hl_answers::<H>()),
        r is Ok ==> cnt_of(*final(used)) == prep_counter(old(blocks)@, opts, cnt_of(*old(used))),
        r is Ok ==> toc_view(final(toc)@) == toc_view(old(toc)@) + toc_of(
            final(blocks)@,
            crate::render::opt_vec(*cls),
        ),
    decreases old(blocks)@,
{
    let ghost toc0 = toc@;
    let ghost c = crate::render::opt_vec(*cls);
    let ghost orig = blocks@;
    let ghost c0 = cnt_of(*used);
    let mut rev: Vec<Block> = Vec::new();
    while blocks.len() > 0
        invariant
            blocks@.len() + rev@.len() == orig.len(),
            blocks@ == orig.subrange(0, blocks@.len() as int),
            forall|j: int| 0 <= j < rev@.len() ==> #[trigger] rev@[j] == orig[orig.len() - 1 - j],
        decreases blocks@.len(),
    {
        let b = blocks.pop().unwrap();
        rev.push(b);
    }
    while rev.len() > 0
        invariant
            orig == old(blocks)@,
            blocks@.len() + rev@.len() == orig.len(),
            forall|j: int| 0 <= j < rev@.len() ==> #[trigger] rev@[j] == orig[orig.len() - 1 - j],
            prep_seq(orig.subrange(0, blocks@.len() as int), blocks@, opts, *dflt, c0, hl_answers::<H>()),
            cnt_of(*used) == prep_counter(orig.subrange(0, blocks@.len() as int), opts, c0),
            c0 == cnt_of(*old(used)),
            with_toc ==> !toc_bad(orig.subrange(0, blocks@.len() as int), opts),
            c == crate::render::opt_vec(*cls),
            toc_view(toc@) == toc_view(toc0) + toc_of(blocks@, c),
        decreases rev@.len(),
    {
        let ghost d = blocks@.len() as int;
        let ghost before = blocks@;
        let ghost tb = toc@;
        let b = rev.pop().unwrap();
        assert(b == orig[d]);
        assert(decreases_to!(orig => orig[d]));
        let ghost pre = orig.subrange(0, d + 1);
        assert(pre.drop_last() =~= orig.subrange(0, d));
        let Block { kind, ial } = b;
        let kind2 = match kind {
            BlockKind::Heading { level, raw, span_text, spans, id: _ } => {
                let id = heading_id(&ial, &raw, &span_text, opts, used);
                if let Some(the_id) = &id {
                    if with_toc {
                        if spans_have_link(&spans) {
                            proof {
                                lemma_toc_bad_prefix(orig, d + 1, opts);
                            }
                            return Err(declined("toc-heading-link"));
                        }
                        let ckey = chars_of("class");
                        match crate::ial::find_attr(&ial, ckey.as_slice()) {
                            Some(_) => {
                                proof {
                                    lemma_toc_bad_prefix(orig, d + 1, opts);
                                }
                                return Err(declined("toc-heading-class"));
                            },
                            None => {
                                assert(!has_key(ial@, "class"@));
                            },
                        }
                    }
                    let mut html: Vec<char> = Vec::new();
                    convert_spans(&mut html, &spans, cls);
                    assert(html@ =~= crate::render::spans_html(spans@, c));
                    toc.push(
                        TocEntry { level, id: crate::text::to_vec(the_id.as_slice()), html },
                    );
                    assert(toc_view(toc@) =~= toc_view(tb).push(
                        (level, the_id@, crate::render::spans_html(spans@, c)),
                    ));
                }
                BlockKind::Heading { level, raw, span_text, spans, id }
            },
            BlockKind::Code { lang, text, highlighted: _ } => {
                let highlighted = highlight_code(&lang, &text, dflt, hl);
                BlockKind::Code { lang, text, highlighted }
            },
            BlockKind::Quote(inner) => {
                let mut inner = inner;
                match prepare(&mut inner, opts, used, toc, with_toc, cls, dflt, hl) {
                    Err(e) => {
                        proof {
                            lemma_toc_bad_prefix(orig, d + 1, opts);
                        }
                        return Err(e);
                    },
                    Ok(()) => {},
                }
                BlockKind::Quote(inner)
            },
            BlockKind::List { ordered, loose, items, toc: is_toc } => {
                if is_toc {
                    BlockKind::List { ordered, loose, items, toc: is_toc }
                } else {
                    let mut items = items;
                    match prepare_items(&mut items, opts, used, toc, with_toc, cls, dflt, hl) {
                        Err(e) => {
                            proof {
                                lemma_toc_bad_prefix(orig, d + 1, opts);
                            }
                            return Err(e);
                        },
                        Ok(()) => {},
                    }
                    BlockKind::List { ordered, loose, items, toc: is_toc }
                }
            },
            other => other,
        };
        blocks.push(Block { kind: kind2, ial });
        assert(blocks@.drop_last() =~= before);
        proof {
            assert(toc_of(blocks@, c) == toc_of(before, c) + match blocks@.last().kind {
                BlockKind::Heading { level, spans, id, .. } => match id {
                    Some(v) => seq![(level, v@, crate::render::spans_html(spans@, c))],
                    None => Seq::empty(),
                },
                BlockKind::Quote(inner) => toc_of(inner@, c),
                BlockKind::List { items, toc, .. } => if toc {
                    Seq::empty()
                } else {
                    items_toc_of(items@, c)
                },
                _ => Seq::empty(),
            });
            assert(toc_view(toc@) =~= toc_view(toc0) + toc_of(blocks@, c));
        }
    }
    assert(orig.subrange(0, orig.len() as int) =~= orig);
    Ok(())
}

/// Prepare each list item's blocks, in order.
fn prepare_items<H: CodeHighlighter + ?Sized>(
    items: &mut Vec<Item>,
    opts: Options,
    used: &mut IdCounter,
    toc: &mut Vec<TocEntry>,
    with_toc: bool,
    cls: &Option<Vec<char>>,
    dflt: &Option<Vec<char>>,
    hl: &mut H,
) -> (r: Result<(), Error>)
    ensures
        r is Ok <==> !(with_toc && items_bad(old(items)@, opts)),
        r is Ok ==> prep_items(old(items)@, final(items)@, opts, *dflt, cnt_of(*old(used)), hl_answers::<H>()),
        r is Ok ==> cnt_of(*final(used)) == items_counter(old(items)@, opts, cnt_of(*old(used))),
        r is Ok ==> toc_view(final(toc)@) == toc_view(old(toc)@) + items_toc_of(
            final(items)@,
            crate::render::opt_vec(*cls),
        ),
    decreases old(items)@,
{
    let ghost toc0 = toc@;
    let ghost c = crate::render::opt_vec(*cls);
    let ghost orig = items@;
    let ghost c0 = cnt_of(*used);
    let mut rev: Vec<Item> = Vec::new();
    while items.len() > 0
        invariant
            items@.len() + rev@.len() == orig.len(),
            items@ == orig.subrange(0, items@.len() as int),
            forall|j: int| 0 <= j < rev@.len() ==> #[trigger] rev@[j] == orig[orig.len() - 1 - j],
        decreases items@.len(),
    {
        let it = items.pop().unwrap();
        rev.push(it);
    }
    while rev.len() > 0
        invariant
            orig == old(items)@,
            items@.len() + rev@.len() == orig.len(),
            forall|j: int| 0 <= j < rev@.len() ==> #[trigger] rev@[j] == orig[orig.len() - 1 - j],
            prep_items(orig.subrange(0, items@.len() as int), items@, opts, *dflt, c0, hl_answers::<H>()),
            cnt_of(*used) == items_counter(orig.subrange(0, items@.len() as int), opts, c0),
            c0 == cnt_of(*old(used)),
            with_toc ==> !items_bad(orig.subrange(0, items@.len() as int), opts),
            c == crate::render::opt_vec(*cls),
            toc_view(toc@) == toc_view(toc0) + items_toc_of(items@, c),
        decreases rev@.len(),
    {
        let ghost d = items@.len() as int;
        let ghost before = items@;
        let it = rev.pop().unwrap();
        assert(it == orig[d]);
        assert(decreases_to!(orig => orig[d]));
        let ghost pre = orig.subrange(0, d + 1);
        assert(pre.drop_last() =~= orig.subrange(0, d));
        let mut ib = it.blocks;
        match prepare(&mut ib, opts, used, toc, with_toc, cls, dflt, hl) {
            Err(e) => {
                proof {
                    lemma_items_bad_prefix(orig, d + 1, opts);
                }
                return Err(e);
            },
            Ok(()) => {},
        }
        items.push(Item { blocks: ib });
        assert(items@.drop_last() =~= before);
        assert(toc_view(toc@) =~= toc_view(toc0) + items_toc_of(items@, c));
    }
    assert(orig.subrange(0, orig.len() as int) =~= orig);
    Ok(())
}

/// The HTML of prose blocks: a blank-run marker is a newline, a paragraph
/// its text in `<p>…</p>`.
pub open spec fn chunks_html(c: Seq<Option<Seq<char>>>) -> Seq<char>
    decreases c.len(),
{
    if c.len() == 0 {
        Seq::empty()
    } else {
        chunks_html(c.drop_last()) + match c.last() {
            None => "\n"@,
            Some(t) => "<p>"@ + t + "</p>\n"@,
        }
    }
}

/// Prose blocks hold no table of contents, prepare to themselves and
/// render as their chunks' HTML.
pub proof fn lemma_prose_rendered(
    bs: Seq<Block>,
    ps: Seq<Block>,
    opts: Options,
    d: Option<Vec<char>>,
    cx: RenderCx,
    c: spec_fn(Seq<char>) -> Option<u32>,
    ans: spec_fn(Seq<char>, Seq<char>, Option<Seq<char>>) -> bool,
)
    requires
        forall|k: int| 0 <= k < bs.len() ==> #[trigger] crate::block::prose_block(bs[k]),
    ensures
        !tree_toc(bs),
        prep_seq(bs, ps, opts, d, c, ans) ==> blocks_html(ps, 0, cx) == chunks_html(
            crate::block::chunks_of(bs),
        ),
    decreases bs.len(),
{
    if bs.len() > 0 {
        let bd = bs.drop_last();
        assert forall|k: int| 0 <= k < bd.len() implies #[trigger] crate::block::prose_block(bd[k]) by {
            assert(bd[k] == bs[k]);
        }
        lemma_prose_rendered(bd, ps.drop_last(), opts, d, cx, c, ans);
        let b = bs.last();
        assert(crate::block::prose_block(bs[bs.len() - 1]));
        assert(crate::block::chunks_of(bs).drop_last() =~= crate::block::chunks_of(bd));
        if prep_seq(bs, ps, opts, d, c, ans) {
            let q = ps.last();
            assert(q.kind == b.kind && q.ial == b.ial);
            assert(crate::ial::attrs_html(q.ial@) =~= Seq::<char>::empty());
            assert(crate::render::pad(0) =~= Seq::<char>::empty());
            match b.kind {
                BlockKind::Para(sp) => {
                    let t = match sp@[0] {
                        Span::Text(x) => x@,
                        _ => Seq::empty(),
                    };
                    crate::escape::lemma_esc_text_plain(t);
                    let cls = crate::render::opt_vec(cx.cls);
                    assert(sp@.drop_last().len() == 0);
                    assert(crate::render::spans_html(sp@.drop_last(), cls) =~= Seq::<char>::empty());
                    assert(sp@.last() == sp@[0]);
                    assert(sp@[0] is Text);
                    assert(crate::render::span_html(sp@[0], cls) == crate::escape::esc_text(t));
                    assert(crate::render::spans_html(sp@, cls) == crate::render::spans_html(
                        sp@.drop_last(),
                        cls,
                    ) + crate::render::span_html(sp@.last(), cls));
                    assert(crate::render::spans_html(sp@, cls) =~= t);
                    reveal_strlit("<p");
                    reveal_strlit(">");
                    reveal_strlit("<p>");
                    assert(crate::render::block_html(q, 0, cx) =~= "<p>"@ + t + "</p>\n"@);
                    assert(crate::block::chunk_of(b) == Some(t));
                },
                _ => {
                    assert(crate::render::block_html(q, 0, cx) == "\n"@);
                    assert(crate::block::chunk_of(b) == None::<Seq<char>>);
                },
            }
            let cb = crate::block::chunks_of(bs);
            assert(cb.last() == crate::block::chunk_of(b));
            assert(blocks_html(ps, 0, cx) == blocks_html(ps.drop_last(), 0, cx) + crate::render::block_html(
                ps.last(),
                0,
                cx,
            ));
            assert(chunks_html(cb) == chunks_html(cb.drop_last()) + match cb.last() {
                None => "\n"@,
                Some(t) => "<p>"@ + t + "</p>\n"@,
            });
        }
    }
}

/// What a code block asks of the highlighter: its resolved language (the
/// fence's, else the highlighter's default `dflt`) and its text; nothing
/// when it has no language either way.
pub open spec fn hl_request_spec(
    lang: Option<Seq<char>>,
    text: Seq<char>,
    dflt: Option<Seq<char>>,
) -> Option<(Seq<char>, Seq<char>)> {
    match lang {
        Some(x) => Some((x, text)),
        None => match dflt {
            Some(d) => Some((d, text)),
            None => None,
        },
    }
}

/// The language and text a code block hands the highlighter, or `None`
/// when it has no language.
pub fn highlight_request(lang: &Option<Vec<char>>, text: &Vec<char>, dflt: &Option<Vec<char>>) -> (r:
    Option<(Vec<char>, Vec<char>)>)
    ensures
        r is None <==> (lang is None && dflt is None),
        match hl_request_spec(crate::render::opt_vec(*lang), text@, crate::render::opt_vec(*dflt)) {
            None => r is None,
            Some((l, c)) => r matches Some((a, b)) && a@ == l && b@ == c,
        },
{
    let eff: Vec<char> = match lang {
        Some(l) => crate::text::to_vec(l.as_slice()),
        None => match dflt {
            Some(d) => crate::text::to_vec(d.as_slice()),
            None => {
                return None;
            },
        },
    };
    Some((eff, crate::text::to_vec(text.as_slice())))
}

/// The highlighter's rendering of a code block: the request of
/// `highlight_request` handed to the highlighter as it stands, and the
/// requested language with the highlighter's HTML when it accepts; `None`
/// without a language or when it declines.
pub fn highlight_code<H: CodeHighlighter + ?Sized>(
    lang: &Option<Vec<char>>,
    text: &Vec<char>,
    dflt: &Option<Vec<char>>,
    hl: &mut H,
) -> (r: Option<(Vec<char>, Vec<char>)>)
    ensures
        hl_request_spec(crate::render::opt_vec(*lang), text@, crate::render::opt_vec(*dflt)) is None
            ==> r is None,
        r matches Some((l, _)) ==> hl_request_spec(
            crate::render::opt_vec(*lang),
            text@,
            crate::render::opt_vec(*dflt),
        ) matches Some((l2, _)) && l@ == l2,
        (lang is None && dflt is None) ==> r is None,
        r matches Some((l, _)) ==> l@ == match *lang {
            Some(x) => x@,
            None => dflt->0@,
        },
        code_hl_ok(*lang, *text, *dflt, r, hl_answers::<H>()),
{
    let (l, c) = match highlight_request(lang, text, dflt) {
        Some(req) => req,
        None => {
            return None;
        },
    };
    let ls = collect_string(l.as_slice());
    let cs = collect_string(c.as_slice());
    match hl.highlight(ls.as_str(), cs.as_str()) {
        Some(h) => Some((l, chars_of(h.as_str()))),
        None => None,
    }
}

/// The captured highlighter settings and the prepared tree's HTML.
pub fn render_prepared(blocks: &Vec<Block>, cx: &RenderCx) -> (r: Vec<char>)
    ensures
        r@ == blocks_html(blocks@, 0, *cx),
{
    let mut out: Vec<char> = Vec::new();
    render_blocks(&mut out, blocks, 0, 0, cx);
    assert(blocks@.subrange(0, blocks@.len() as int) =~= blocks@);
    out
}

/// Convert a parsed document with the highlighter settings given: the
/// class of inline code spans `cls`, the highlighter's `name` and the
/// language `dflt` of fenced blocks without an info string. A table of
/// contents with an out-of-subset heading declines before any block is
/// highlighted; otherwise the tree is prepared (ids, table of contents,
/// highlighting) and rendered in exactly that context.
pub fn render_with<H: CodeHighlighter + ?Sized>(
    blocks: Vec<Block>,
    opts: Options,
    cls: Option<Vec<char>>,
    name: Vec<char>,
    dflt: Option<Vec<char>>,
    hl: &mut H,
) -> (r: Result<Vec<char>, Error>)
    ensures
        r is Ok <==> !(tree_toc(blocks@) && toc_bad(blocks@, opts)),
        r matches Ok(s) ==> exists|ps: Seq<Block>, toc: Vec<TocEntry>|
            #![trigger prep_seq(blocks@, ps, opts, dflt, no_ids(), hl_answers::<H>()), toc_view(toc@)]
            prep_seq(blocks@, ps, opts, dflt, no_ids(), hl_answers::<H>()) && toc_view(toc@) == toc_of(
                ps,
                crate::render::opt_vec(cls),
            ) && blocks_html(ps, 0, (RenderCx { cls, name, toc })) == s@,
{
    let ghost orig = blocks@;
    let ghost gcls = cls;
    let ghost gname = name;
    let mut blocks = blocks;
    let with_toc = has_toc(&blocks);
    if with_toc {
        if let Some(w) = toc_reason(&blocks, opts) {
            return Err(declined(w));
        }
    }
    let mut used = IdCounter::new();
    assert(cnt_of(used) =~= no_ids());
    let mut toc: Vec<TocEntry> = Vec::new();
    match prepare(&mut blocks, opts, &mut used, &mut toc, with_toc, &cls, &dflt, hl) {
        Err(e) => {
            return Err(e);
        },
        Ok(()) => {},
    }
    assert(toc_view(toc@) =~= toc_of(blocks@, crate::render::opt_vec(cls)));
    let ghost gtoc = toc;
    let cx = RenderCx { cls, name, toc };
    let html = render_prepared(&blocks, &cx);
    assert(cx == (RenderCx { cls: gcls, name: gname, toc: gtoc }));
    assert(prep_seq(orig, blocks@, opts, dflt, no_ids(), hl_answers::<H>()) && toc_view(gtoc@) == toc_of(
        blocks@,
        crate::render::opt_vec(gcls),
    ) && blocks_html(blocks@, 0, (RenderCx { cls: gcls, name: gname, toc: gtoc })) == html@);
    Ok(html)
}

/// Convert a parsed document: decline a table of contents with an
/// out-of-subset heading before the highlighter is consulted at all, then
/// capture the highlighter's settings (its codespan class, name and
/// default language) and convert the tree with them (`render_with`).
pub fn render_document<H: CodeHighlighter + ?Sized>(blocks: Vec<Block>, opts: Options, hl: &mut H) -> (r:
    Result<Vec<char>, Error>)
    ensures
        r is Ok <==> !(tree_toc(blocks@) && toc_bad(blocks@, opts)),
        r matches Ok(s) ==> exists|ps: Seq<Block>, cx: RenderCx, d: Option<Vec<char>>|
            #![trigger prep_seq(blocks@, ps, opts, d, no_ids(), hl_answers::<H>()), blocks_html(ps, 0, cx)]
            prep_seq(blocks@, ps, opts, d, no_ids(), hl_answers::<H>()) && toc_view(cx.toc@) == toc_of(
                ps,
                crate::render::opt_vec(cx.cls),
            ) && blocks_html(ps, 0, cx) == s@,
{
    let ghost orig = blocks@;
    if has_toc(&blocks) {
        if let Some(w) = toc_reason(&blocks, opts) {
            return Err(declined(w));
        }
    }
    let cls: Option<Vec<char>> = match hl.codespan_class() {
        Some(c) => Some(chars_of(c)),
        None => None,
    };
    let name = chars_of(hl.name());
    let dflt: Option<Vec<char>> = match hl.default_lang() {
        Some(d) => Some(chars_of(d)),
        None => None,
    };
    let ghost gcls = cls;
    let ghost gname = name;
    let ghost gd = dflt;
    let r = render_with(blocks, opts, cls, name, dflt, hl);
    proof {
        if r is Ok {
            let s = r->Ok_0;
            let (ps, toc) = choose|ps: Seq<Block>, toc: Vec<TocEntry>|
                #![trigger prep_seq(orig, ps, opts, gd, no_ids(), hl_answers::<H>()), toc_view(toc@)]
                prep_seq(orig, ps, opts, gd, no_ids(), hl_answers::<H>()) && toc_view(toc@) == toc_of(
                    ps,
                    crate::render::opt_vec(gcls),
                ) && blocks_html(ps, 0, (RenderCx { cls: gcls, name: gname, toc })) == s@;
            let cx = RenderCx { cls: gcls, name: gname, toc };
            assert(prep_seq(orig, ps, opts, gd, no_ids(), hl_answers::<H>()) && toc_view(cx.toc@) == toc_of(
                ps,
                crate::render::opt_vec(cx.cls),
            ) && blocks_html(ps, 0, cx) == s@);
        }
    }
    r
}

} // verus!
