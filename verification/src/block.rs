//! Block-level parsing: the line stream becomes a tree of blocks. The whole
//! document is parsed before anything is emitted, so a construct outside the
//! subset declines without partial output.

use vstd::prelude::*;
use crate::{Error, Options};
use crate::ast::{Align, Block, BlockKind, Item, LinkDef, Span};
use crate::ial::{Attr, parse_ial};
use crate::text::{lead_run, strip_lead, strip_both, has_prefix, trail_ws_end, trim_ws_spec,
    is_sp_tab, is_uni_ws, is_blank, trim_ws, trim_sp, trim_start_sp, trim_end_sp,
    trim_start_ws, trim_end_ws, lead_count, starts_with, starts_with_char, eq_str, run_len,
    to_vec, push_all, push_char, uni_ws, contains_char, find_char, is_ascii_alnum, word_line,
    lemma_word_line_trimmed};
use crate::lines::{is_hr, list_marker, strip_marker, decline_block_scan, opt_space_opener,
    decline_eol, has_table_pipe, split_table_cells, is_table_sep_line, sep_align_cells,
    extract_header_id, split_cells_spec, table_pipe_from, lemma_word_line_no_cells, list_marker_spec,
    opt_space_spec};
use crate::inline::{parse_spans, plain_text, is_trigger_spec};
use crate::render::opt_vec;
use crate::span_model::{scan_spec, spans_v};
use crate::inline::opt_pos;
use crate::html_block::starts_html_block;
use crate::block_model::{blocks_from, blocks_rel, res_seq};

verus! {

fn declined(what: &'static str) -> (e: Error)
    ensures
        e == Error::Declined(what),
{
    Error::Declined(what)
}

/// A line holding only Unicode whitespace.
pub open spec fn blank_spec(l: Seq<char>) -> bool {
    forall|k: int| 0 <= k < l.len() ==> is_uni_ws(#[trigger] l[k])
}

/// A block IAL opening: `{:` (not `{::`) behind at most three spaces (tabs
/// may follow them).
pub open spec fn ial_start_spec(l: Seq<char>) -> bool {
    &&& lead_run(l, 0, false) <= 3
    &&& has_prefix(strip_lead(l, true), "{:"@)
    &&& !has_prefix(strip_lead(l, true), "{::"@)
}

/// The inner text of a whole-line block IAL `{:…}`.
pub open spec fn ial_inner_spec(l: Seq<char>) -> Option<Seq<char>> {
    let t = strip_both(l, true);
    if ial_start_spec(l) && t.len() >= 3 && t[0] == '{' && t[1] == ':' && t[t.len() - 1] == '}' {
        Some(t.subrange(2, t.len() - 1))
    } else {
        None
    }
}

/// The line opens a block IAL.
pub fn is_ial_start(line: &[char]) -> (r: bool)
    ensures
        r == ial_start_spec(line@),
{
    let t = trim_start_sp(line, true);
    lead_count(line, false) <= 3 && starts_with(t, "{:") && !starts_with(t, "{::")
}

/// The inner text of a whole-line block IAL `{:…}`, if the line is one.
pub fn ial_inner(line: &[char]) -> (r: Option<Vec<char>>)
    ensures
        match ial_inner_spec(line@) {
            Some(v) => r matches Some(w) && w@ == v,
            None => r is None,
        },
{
    if !is_ial_start(line) {
        return None;
    }
    let t = trim_sp(line, true);
    if t.len() >= 3 && t[0] == '{' && t[1] == ':' && t[t.len() - 1] == '}' {
        Some(to_vec(&t[2..t.len() - 1]))
    } else {
        None
    }
}

/// Block kinds a block IAL may attach to from either side.
pub open spec fn attachable_spec(k: BlockKind) -> bool {
    match k {
        BlockKind::Para(_) => true,
        BlockKind::Heading { .. } => true,
        BlockKind::List { toc, .. } => !toc,
        BlockKind::Quote(_) => true,
        BlockKind::Code { .. } => true,
        BlockKind::Table { .. } => true,
        _ => false,
    }
}

pub fn attachable(k: &BlockKind) -> (r: bool)
    ensures
        r == attachable_spec(*k),
{
    match k {
        BlockKind::Para(_) => true,
        BlockKind::Heading { .. } => true,
        BlockKind::List { toc, .. } => !*toc,
        BlockKind::Quote(_) => true,
        BlockKind::Code { .. } => true,
        BlockKind::Table { .. } => true,
        _ => false,
    }
}

/// The line a leading IAL would attach to exists and is no blank, indented
/// code, IAL or rule.
pub open spec fn attach_start_spec(lines: Seq<Vec<char>>, idx: int) -> bool {
    &&& 0 <= idx < lines.len()
    &&& !blank_spec(lines[idx]@)
    &&& !has_prefix(lines[idx]@, "    "@)
    &&& !(lines[idx]@.len() > 0 && lines[idx]@[0] == '\t')
    &&& !has_prefix(lines[idx]@.subrange(crate::text::lead_ws(lines[idx]@, 0), lines[idx]@.len() as int), "{:"@)
    &&& !crate::lines::is_hr_trimmed(trim_ws_spec(lines[idx]@))
}

/// Whether `lines[idx]` begins a block a leading IAL can attach to: not a
/// blank, another IAL, indented code or a horizontal rule.
pub fn starts_attachable(lines: &Vec<Vec<char>>, idx: usize) -> (r: bool)
    ensures
        r ==> idx < lines@.len() && !blank_spec(lines@[idx as int]@),
        r == attach_start_spec(lines@, idx as int),
{
    if idx >= lines.len() {
        return false;
    }
    let l = lines[idx].as_slice();
    if is_blank(l) || starts_with(l, "    ") || starts_with_char(l, '\t') {
        return false;
    }
    let t = trim_start_ws(l);
    !(starts_with(t, "{:") || is_hr(l))
}

/// An opening code fence: its char, run length and language.
pub struct FenceOpen {
    pub ch: char,
    pub len: usize,
    pub lang: Option<Vec<char>>,
}

/// What an opening fence line holds: its char, run length and language
/// (`Ok(None)` for no opener, `Err` for an info string out of subset).
pub open spec fn fence_open_spec(line: Seq<char>, gfm: bool) -> Result<
    Option<(char, nat, Option<Seq<char>>)>,
    (),
> {
    let indent = lead_run(line, 0, false);
    let f = line.subrange(indent, line.len() as int);
    if !((indent == 0 || gfm) && indent <= 3) || f.len() == 0 {
        Ok(None)
    } else {
        let ch = f[0];
        let n = crate::lines::run_spec(f, 0, ch);
        if !((ch == '`' && gfm) || ch == '~') || n < 3 {
            Ok(None)
        } else {
            let info = trim_ws_spec(f.subrange(n as int, f.len() as int));
            if has_uni_ws(info) {
                Ok(None)
            } else if info.contains('`') {
                Err(())
            } else if info.len() == 0 {
                Ok(Some((ch, n, None)))
            } else {
                let cut = match crate::inline::first_at(info, 0, '?') {
                    Some(q) => q,
                    None => info.len() as int,
                };
                if cut == 0 {
                    Err(())
                } else {
                    Ok(Some((ch, n, Some(info.subrange(0, cut)))))
                }
            }
        }
    }
}

/// `s` holds some Unicode whitespace.
pub open spec fn has_uni_ws(s: Seq<char>) -> bool {
    exists|k: int| 0 <= k < s.len() && is_uni_ws(#[trigger] s[k])
}

fn any_uni_ws(s: &[char]) -> (r: bool)
    ensures
        r == has_uni_ws(s@),
{
    let mut k: usize = 0;
    while k < s.len()
        invariant
            k <= s@.len(),
            forall|j: int| 0 <= j < k ==> !is_uni_ws(#[trigger] s@[j]),
        decreases s@.len() - k,
    {
        if uni_ws(s[k]) {
            return true;
        }
        k = k + 1;
    }
    false
}

/// `r` is what `fence_open` answers for `line`.
#[verifier::opaque]
pub open spec fn fence_open_rel(line: Seq<char>, gfm: bool, r: Result<Option<FenceOpen>, Error>) -> bool {
    match fence_open_spec(line, gfm) {
        Err(_) => crate::inline::declines_as(r, "fence-info"),
        Ok(None) => r matches Ok(None),
        Ok(Some(v)) => r matches Ok(Some(f)) && fence_v(f) == v,
    }
}

/// The view of a recognized opener.
pub open spec fn fence_v(f: FenceOpen) -> (char, nat, Option<Seq<char>>) {
    (f.ch, f.len as nat, opt_vec(f.lang))
}

/// Recognize an opening fence: a run of ≥3 backticks (GFM) or tildes behind
/// 0–3 spaces (only column 0 under core), then an optional single-token info
/// string whose `?query` is dropped. `Ok(None)` when the line is not an
/// opener; an info string holding a backtick declines.
pub fn fence_open(line: &[char], gfm: bool) -> (r: Result<Option<FenceOpen>, Error>)
    ensures
        r matches Ok(Some(f)) ==> f.len >= 3 && (f.ch == '`' || f.ch == '~'),
        (line@.len() > 0 && is_ascii_alnum(line@[0])) ==> r matches Ok(None),
        fence_open_rel(line@, gfm, r),
{
    reveal(fence_open_rel);
    let indent = lead_count(line, false);
    if !((indent == 0 || gfm) && indent <= 3) {
        return Ok(None);
    }
    let f = &line[indent..line.len()];
    if f.len() == 0 {
        return Ok(None);
    }
    let ch = f[0];
    if !((ch == '`' && gfm) || ch == '~') {
        return Ok(None);
    }
    let n = run_len(f, 0, ch);
    proof {
        crate::lines::lemma_run_spec(f@, 0, ch, n as int);
    }
    if n < 3 {
        return Ok(None);
    }
    let info = trim_ws(&f[n..f.len()]);
    let ghost fs = line@.subrange(indent as int, line@.len() as int);
    assert(f@ == fs);
    assert(info@ == trim_ws_spec(fs.subrange(n as int, fs.len() as int)));
    if any_uni_ws(info) {
        return Ok(None);
    }
    if contains_char(info, '`') {
        return Err(declined("fence-info"));
    }
    let lang = if info.len() == 0 {
        None
    } else {
        let found = find_char(info, '?');
        proof {
            crate::inline::lemma_first_at(info@, 0, '?', found);
        }
        let cut = match found {
            Some(q) => q,
            None => info.len(),
        };
        if cut == 0 {
            return Err(declined("fence-info"));
        }
        Some(to_vec(&info[0..cut]))
    };
    Ok(Some(FenceOpen { ch, len: n, lang }))
}

/// A closing fence line: a run of the fence char at least as long as the
/// opener and nothing else (under GFM behind 0–3 spaces).
pub open spec fn fence_close_spec(l: Seq<char>, ch: char, len: nat, gfm: bool) -> bool {
    let t = close_candidate(l, gfm);
    t.len() >= len && forall|k: int| 0 <= k < t.len() ==> #[trigger] t[k] == ch
}

/// The text a closing fence is read from: the line without its 0–3
/// leading spaces (GFM) and its trailing whitespace.
pub open spec fn close_candidate(l: Seq<char>, gfm: bool) -> Seq<char> {
    let lead = lead_run(l, 0, false);
    let cl = if gfm && lead <= 3 {
        l.subrange(lead, l.len() as int)
    } else {
        l
    };
    cl.subrange(0, trail_ws_end(cl, cl.len() as int))
}

pub fn is_fence_close(l: &[char], ch: char, len: usize, gfm: bool) -> (r: bool)
    ensures
        r == fence_close_spec(l@, ch, len as nat, gfm),
{
    let lead = lead_count(l, false);
    let cl = if gfm && lead <= 3 {
        &l[lead..l.len()]
    } else {
        l
    };
    let t = trim_end_ws(cl);
    assert(t@ == close_candidate(l@, gfm));
    if t.len() < len {
        return false;
    }
    let ghost spec = fence_close_spec(l@, ch, len as nat, gfm);
    assert(spec == (forall|j: int| 0 <= j < t@.len() ==> #[trigger] t@[j] == ch));
    let mut k: usize = 0;
    while k < t.len()
        invariant
            k <= t@.len(),
            spec == fence_close_spec(l@, ch, len as nat, gfm),
            spec == (forall|j: int| 0 <= j < t@.len() ==> #[trigger] t@[j] == ch),
            forall|j: int| 0 <= j < k ==> #[trigger] t@[j] == ch,
        decreases t@.len() - k,
    {
        if t[k] != ch {
            assert(!(t@[k as int] == ch));
            return false;
        }
        k = k + 1;
    }
    true
}

/// The first closing fence line at or after `j`.
pub open spec fn fence_close_from(lines: Seq<Vec<char>>, j: int, ch: char, len: nat, gfm: bool) -> Option<int>
    decreases lines.len() - j,
{
    if j < 0 || j >= lines.len() {
        None
    } else if fence_close_spec(lines[j]@, ch, len, gfm) {
        Some(j)
    } else {
        fence_close_from(lines, j + 1, ch, len, gfm)
    }
}

/// Index of the first closing fence line at or after `from`.
pub fn fence_close_at(lines: &Vec<Vec<char>>, from: usize, ch: char, len: usize, gfm: bool) -> (r:
    Option<usize>)
    ensures
        r matches Some(j) ==> from <= j < lines@.len(),
        opt_pos(r) == fence_close_from(lines@, from as int, ch, len as nat, gfm),
{
    let mut j = from;
    while j < lines.len()
        invariant
            from <= j,
            fence_close_from(lines@, from as int, ch, len as nat, gfm) == fence_close_from(
                lines@,
                j as int,
                ch,
                len as nat,
                gfm,
            ),
        decreases lines@.len() - j,
    {
        if is_fence_close(lines[j].as_slice(), ch, len, gfm) {
            return Some(j);
        }
        j = j + 1;
    }
    None
}

/// `r` is the complete fenced block opening at `lines[i]`: the opener and
/// the first closing line after it; `Ok(None)` for no opener or none
/// closing it; `Err` where the opener declines.
#[verifier::opaque]
pub open spec fn closed_fence_rel(
    lines: Seq<Vec<char>>,
    i: int,
    gfm: bool,
    r: Result<Option<(FenceOpen, usize)>, Error>,
) -> bool {
    match fence_open_spec(lines[i]@, gfm) {
        Err(_) => crate::inline::declines_as(r, "fence-info"),
        Ok(None) => r matches Ok(None),
        Ok(Some(v)) => match fence_close_from(lines, i + 1, v.0, v.1, gfm) {
            None => r matches Ok(None),
            Some(c) => r matches Ok(Some((f, c2))) && fence_v(f) == v && c2 == c,
        },
    }
}

/// A complete fenced code block opening at `lines[i]`: the opener and the
/// index of its closing line. `Ok(None)` when the line opens none (not an
/// opener, or never closed).
pub fn closed_fence_at(lines: &Vec<Vec<char>>, i: usize, gfm: bool) -> (r: Result<
    Option<(FenceOpen, usize)>,
    Error,
>)
    requires
        i < lines@.len(),
    ensures
        r matches Ok(Some((_, c))) ==> i < c < lines@.len(),
        (lines@[i as int]@.len() > 0 && is_ascii_alnum(lines@[i as int]@[0])) ==> r matches Ok(None),
        closed_fence_rel(lines@, i as int, gfm, r),
{
    reveal(closed_fence_rel);
    reveal(fence_open_rel);
    let _n = lines.len();
    match fence_open(lines[i].as_slice(), gfm) {
        Err(e) => Err(e),
        Ok(None) => Ok(None),
        Ok(Some(f)) => match fence_close_at(lines, i + 1, f.ch, f.len, gfm) {
            Some(c) => Ok(Some((f, c))),
            None => Ok(None),
        },
    }
}

/// Lines `from..to`, each followed by a newline.
pub open spec fn lines_text(lines: Seq<Vec<char>>, from: int, to: int) -> Seq<char>
    decreases to - from,
{
    if to <= from {
        Seq::empty()
    } else {
        lines_text(lines, from, to - 1) + lines[to - 1]@ + seq!['\n']
    }
}

/// The body of a fence: each content line plus a newline.
pub fn fence_body(lines: &Vec<Vec<char>>, from: usize, to: usize) -> (r: Vec<char>)
    requires
        from <= to <= lines@.len(),
    ensures
        r@ == lines_text(lines@, from as int, to as int),
{
    let mut text: Vec<char> = Vec::new();
    let mut k = from;
    while k < to
        invariant
            from <= k <= to,
            to <= lines@.len(),
            text@ == lines_text(lines@, from as int, k as int),
        decreases to - k,
    {
        push_all(&mut text, lines[k].as_slice());
        push_char(&mut text, '\n');
        k = k + 1;
    }
    text
}

/// A GFM block boundary inside a paragraph or table run: a heading,
/// blockquote or list start, or a fence run.
pub open spec fn gfm_boundary_spec(l: Seq<char>) -> bool {
    (l.len() > 0 && (l[0] == '#' || l[0] == '>')) || crate::lines::list_marker_spec(l) is Some
        || has_prefix(l, "```"@) || has_prefix(l, "~~~"@)
}

pub fn gfm_boundary(l: &[char]) -> (r: bool)
    ensures
        r == gfm_boundary_spec(l@),
{

    starts_with_char(l, '#') || starts_with_char(l, '>') || list_marker(l).is_some() || starts_with(
        l,
        "```",
    ) || starts_with(l, "~~~")
}

/// Whether the fenced block opening at `lines[i]` closes.
pub open spec fn fence_closes(lines: Seq<Vec<char>>, i: int, gfm: bool) -> bool {
    fence_open_spec(lines[i]@, gfm) matches Ok(Some(v)) && fence_close_from(
        lines,
        i + 1,
        v.0,
        v.1,
        gfm,
    ) is Some
}

/// What a continuation line does to a paragraph: `Some(true)` ends it
/// before the line, `Some(false)` declines, `None` lets it continue.
pub open spec fn para_stop(lines: Seq<Vec<char>>, i: int, gfm: bool) -> Option<bool> {
    let l = lines[i]@;
    let hash = l.len() > 0 && l[0] == '#';
    let quote = l.len() > 0 && l[0] == '>';
    if gfm && (hash || quote || list_marker_spec(l) is Some
        || crate::html_block::html_block_start_spec(l)) {
        Some(true)
    } else if gfm && (has_prefix(l, "```"@) || has_prefix(l, "~~~"@)) && fence_closes(lines, i, true) {
        Some(true)
    } else if ial_start_spec(l) {
        Some(true)
    } else if !gfm && (quote || list_marker_spec(l) is Some) {
        Some(false)
    } else if opt_space_spec(l, gfm) {
        Some(gfm)
    } else {
        None
    }
}

/// A line of only `=` or only `-` (a setext underline, out of subset).
pub open spec fn setext_under(s: Seq<char>) -> bool {
    let t = s.subrange(0, trail_ws_end(s, s.len() as int));
    t.len() > 0 && ((forall|k: int| 0 <= k < t.len() ==> #[trigger] t[k] == '=') || (forall|k: int|
        0 <= k < t.len() ==> #[trigger] t[k] == '-'))
}

/// Where the paragraph begun at `start` ends, scanning from `i`; `Err` where
/// a line declines.
pub open spec fn para_scan(lines: Seq<Vec<char>>, start: int, i: int, gfm: bool) -> Result<
    int,
    &'static str,
>
    decreases lines.len() - i,
{
    let n = lines.len() as int;
    if i < start || i >= n {
        Ok(i)
    } else {
        let l = lines[i]@;
        let first = i == start;
        if blank_spec(l) {
            Ok(i)
        } else if !first && para_stop(lines, i, gfm) == Some(true) {
            Ok(i)
        } else if !first && para_stop(lines, i, gfm) == Some(false) {
            Err(
                if !gfm && ((l.len() > 0 && l[0] == '>') || list_marker_spec(l) is Some) {
                    "core-paragraph-swallow"
                } else {
                    "opt-space-block"
                },
            )
        } else if i + 1 < n && setext_under(lines[i + 1]@) {
            Err("setext-heading")
        } else if crate::lines::scan_decline(l) {
            Err(crate::lines::scan_reason(l)->0)
        } else if !first && crate::lines::eol_corner(lines[i - 1]@) {
            Err(crate::lines::eol_reason(lines[i - 1]@))
        } else {
            para_scan(lines, start, i + 1, gfm)
        }
    }
}

/// `r` ends the paragraph where `para_end` says, or declines with it.
#[verifier::opaque]
pub open spec fn para_rel(
    lines: Seq<Vec<char>>,
    start: int,
    gfm: bool,
    r: Result<(Vec<char>, usize), Error>,
) -> bool {
    match para_end(lines, start, gfm) {
        Err(w) => crate::inline::declines_as(r, w),
        Ok(e) => r matches Ok((_, e2)) && e2 == e,
    }
}

/// The end of the paragraph begun at `start` (past at least its first
/// line), or `Err` where it declines.
pub open spec fn para_end(lines: Seq<Vec<char>>, start: int, gfm: bool) -> Result<int, &'static str> {
    match para_scan(lines, start, start, gfm) {
        Err(w) => Err(w),
        Ok(e) => Ok(if e == start {
            start + 1
        } else {
            e
        }),
    }
}

/// Collect the paragraph starting at `lines[start]` (a non-blank line) and
/// join it the way kramdown does: the first line loses its leading spaces,
/// interior lines stay verbatim, the last line is right-stripped. Returns the
/// joined text and the index after the paragraph.
pub fn gather_paragraph(lines: &Vec<Vec<char>>, start: usize, opts: Options) -> (r: Result<
    (Vec<char>, usize),
    Error,
>)
    requires
        start < lines@.len(),
    ensures
        r matches Ok((j, e)) ==> start < e <= lines@.len() && j@ == para_text(
            lines@,
            start as int,
            e as int,
            e as int,
        ),
        para_rel(lines@, start as int, opts.gfm, r),
        (prose_lines(crate::lines::views(lines@)) && word_line(lines@[start as int]@)) ==> (r matches Ok(
            (j, e),
        ) && e == word_run_end(crate::lines::views(lines@), start as int) && j@ == join_nl(
            crate::lines::views(lines@).subrange(start as int, e as int),
        )),
{
    reveal(para_rel);
    let n = lines.len();
    let ghost ls = crate::lines::views(lines@);
    let ghost prose = prose_lines(ls) && word_line(lines@[start as int]@);
    proof {
        if prose {
            lemma_word_run(ls, start as int);
        }
    }
    let mut i = start;
    while i < n
        invariant
            start <= i <= n,
            n == lines@.len(),
            ls == crate::lines::views(lines@),
            prose == (prose_lines(ls) && word_line(lines@[start as int]@)),
            prose ==> i <= word_run_end(ls, start as int) && start <= word_run_end(ls, start as int)
                <= n && (forall|k: int|
                start <= k < word_run_end(ls, start as int) ==> word_line(#[trigger] ls[k])) && (
            word_run_end(ls, start as int) < n ==> !word_line(ls[word_run_end(ls, start as int)])),
            para_scan(lines@, start as int, start as int, opts.gfm) == para_scan(
                lines@,
                start as int,
                i as int,
                opts.gfm,
            ),
        ensures
            prose ==> i == word_run_end(ls, start as int),
            start <= i <= n,
            para_scan(lines@, start as int, start as int, opts.gfm) == Ok::<int, &'static str>(i as int),
        decreases n - i,
    {
        proof {
            reveal(para_rel);
            if prose && i < word_run_end(ls, start as int) {
                let l = ls[i as int];
                assert(word_line(l));
                lemma_word_line_block(l);
                if i + 1 < n {
                    assert(word_line(ls[i + 1]) || ls[i + 1].len() == 0);
                }
                if i > start {
                    assert(word_line(ls[i - 1]));
                    lemma_word_line_trimmed(ls[i - 1]);
                }
            }
            if prose && i == word_run_end(ls, start as int) && i < n {
                assert(ls[i as int].len() == 0);
            }
        }
        let l = lines[i].as_slice();
        let first = i == start;
        if is_blank(l) {
            break;
        }
        if !first {
            if opts.gfm {
                if starts_with_char(l, '#') || starts_with_char(l, '>') || list_marker(l).is_some()
                    || starts_html_block(l) {
                    break;
                }
                if starts_with(l, "```") || starts_with(l, "~~~") {
                    let cf = closed_fence_at(lines, i, true);
                    proof {
                        reveal(closed_fence_rel);
                    }
                    if let Ok(Some(_)) = cf {
                        break;
                    }
                }
            }
            if is_ial_start(l) {
                break;
            }
            if !opts.gfm && (starts_with_char(l, '>') || list_marker(l).is_some()) {
                return Err(declined("core-paragraph-swallow"));
            }
            if opt_space_opener(l, opts.gfm) {
                if opts.gfm {
                    break;
                }
                return Err(declined("opt-space-block"));
            }
        }
        if i + 1 < n {
            let t = trim_end_ws(lines[i + 1].as_slice());
            if t.len() > 0 && (all_char(t, '=') || all_char(t, '-')) {
                return Err(declined("setext-heading"));
            }
        }
        match decline_block_scan(l) {
            Err(e) => {
                return Err(e);
            },
            Ok(()) => {},
        }
        if !first {
            match decline_eol(lines[i - 1].as_slice()) {
                Err(e) => {
                    return Err(e);
                },
                Ok(()) => {},
            }
        }
        i = i + 1;
    }
    if i == start {
        i = start + 1;
    }
    proof {
        if prose {
            assert(i == word_run_end(ls, start as int));
        }
    }
    let mut joined: Vec<char> = Vec::new();
    let mut k = start;
    while k < i
        invariant
            start <= k <= i,
            i <= n,
            n == lines@.len(),
            joined@ == para_text(lines@, start as int, k as int, i as int),
        decreases i - k,
    {
        let l = lines[k].as_slice();
        let seg0 = if k == start {
            trim_start_sp(l, false)
        } else {
            l
        };
        let seg = if k + 1 == i {
            trim_end_sp(seg0, true)
        } else {
            seg0
        };
        if k != start {
            push_char(&mut joined, '\n');
        }
        push_all(&mut joined, seg);
        assert(joined@ =~= para_text(lines@, start as int, k + 1, i as int));
        k = k + 1;
    }
    proof {
        if prose {
            assert forall|m: int| start <= m < i implies word_line(#[trigger] lines@[m]@) by {
                assert(ls[m] == lines@[m]@);
            }
            lemma_para_text_words(lines@, start as int, i as int, i as int);
        }
    }
    Ok((joined, i))
}

/// One paragraph line as joined: the first loses its leading spaces, the
/// last its trailing spaces and tabs, interior lines stay verbatim.
pub open spec fn para_seg(lines: Seq<Vec<char>>, start: int, k: int, e: int) -> Seq<char> {
    let a = if k == start {
        strip_lead(lines[k]@, false)
    } else {
        lines[k]@
    };
    if k + 1 == e {
        crate::text::strip_trail(a, true)
    } else {
        a
    }
}

/// The paragraph lines `start..k` (of a paragraph ending at `e`) joined with
/// newlines.
pub open spec fn para_text(lines: Seq<Vec<char>>, start: int, k: int, e: int) -> Seq<char>
    decreases k - start,
{
    if k <= start {
        Seq::empty()
    } else if k == start + 1 {
        para_seg(lines, start, start, e)
    } else {
        para_text(lines, start, k - 1, e) + seq!['\n'] + para_seg(lines, start, k - 1, e)
    }
}

/// Every char of `t` is `c`.
pub fn all_char(t: &[char], c: char) -> (r: bool)
    ensures
        r == (forall|k: int| 0 <= k < t@.len() ==> #[trigger] t@[k] == c),
{
    let mut k: usize = 0;
    while k < t.len()
        invariant
            k <= t@.len(),
            forall|j: int| 0 <= j < k ==> #[trigger] t@[j] == c,
        decreases t@.len() - k,
    {
        if t[k] != c {
            return false;
        }
        k = k + 1;
    }
    true
}

/// Where a block run stops: a blank line, or (GFM, past its first line) a
/// block boundary or an HTML block opener.
pub open spec fn run_stop(l: Seq<char>, first: bool, gfm: bool) -> bool {
    blank_spec(l) || (!first && gfm && (gfm_boundary_spec(l)
        || crate::html_block::html_block_start_spec(l)))
}

/// Every line of the run from `e` (up to its stop) carries a table pipe.
pub open spec fn all_pipe_from(lines: Seq<Vec<char>>, start: int, e: int, gfm: bool) -> bool
    decreases lines.len() - e,
{
    if e < 0 || e >= lines.len() {
        true
    } else {
        let l = lines[e]@;
        if run_stop(l, e <= start, gfm) {
            true
        } else {
            table_pipe_from(l.subrange(crate::text::lead_ws(l, 0), l.len() as int), 0, false)
                && all_pipe_from(lines, start, e + 1, gfm)
        }
    }
}

/// Whether every line of the block from `start` (to a blank or GFM
/// boundary) carries a table pipe: kramdown's condition for a table.
pub fn block_all_pipe(lines: &Vec<Vec<char>>, start: usize, opts: Options) -> (r: bool)
    ensures
        r == all_pipe_from(lines@, start as int, start as int, opts.gfm),
{
    let mut e = start;
    let mut done = false;
    while e < lines.len() && !done
        invariant
            start <= e,
            all_pipe_from(lines@, start as int, start as int, opts.gfm) == (done || all_pipe_from(
                lines@,
                start as int,
                e as int,
                opts.gfm,
            )),
        decreases lines@.len() - e, if done { 0int } else { 1int },
    {
        let l = lines[e].as_slice();
        if is_blank(l) {
            done = true;
        } else if e > start && opts.gfm && (gfm_boundary(l) || starts_html_block(l)) {
            done = true;
        } else {
            if !has_table_pipe(trim_start_ws(l)) {
                return false;
            }
            e = e + 1;
        }
    }
    true
}

/// The spans a cell's text parses into.
pub open spec fn cell_scan(defs: Seq<LinkDef>, cell: Seq<char>) -> Result<
    (Seq<crate::span_model::SpanV>, Option<int>),
    &'static str,
> {
    scan_spec(defs, cell, None, false, false, None)
}

/// `row` holds, cell by cell, the spans of the cells of `line`.
pub open spec fn row_cells_ok(defs: Seq<LinkDef>, line: Seq<char>, row: Seq<Vec<Span>>) -> bool {
    match split_cells_spec(line) {
        Some(cs) => cs.len() == row.len() && forall|k: int|
            0 <= k < row.len() ==> ((#[trigger] cell_scan(defs, cs[k])) matches Ok((sp, _)) && sp
                == spans_v(row[k]@)),
        None => false,
    }
}

/// Some cell of `line` declines in the span parser.
pub open spec fn row_declines(defs: Seq<LinkDef>, line: Seq<char>) -> bool {
    split_cells_spec(line) matches Some(cs) && exists|k: int|
        0 <= k < cs.len() && (#[trigger] cell_scan(defs, cs[k])) is Err
}

/// Why the first declining cell of `cs` from the `k`-th on declines, if
/// one does.
pub open spec fn cells_reason(defs: Seq<LinkDef>, cs: Seq<Seq<char>>, k: int) -> Option<&'static str>
    decreases cs.len() - k,
{
    if k < 0 || k >= cs.len() {
        None
    } else {
        match cell_scan(defs, cs[k]) {
            Err(w) => Some(w),
            Ok(_) => cells_reason(defs, cs, k + 1),
        }
    }
}

/// Why the first declining cell of the row `line` declines, if one does.
pub open spec fn row_reason(defs: Seq<LinkDef>, line: Seq<char>) -> Option<&'static str> {
    match split_cells_spec(line) {
        Some(cs) => cells_reason(defs, cs, 0),
        None => None,
    }
}

/// Parse one table row into per-cell spans; `None` when the line isn't a
/// row of exactly `ncols` cells.
fn table_row(defs: &Vec<LinkDef>, line: &[char], ncols: usize) -> (r: Result<
    Option<Vec<Vec<Span>>>,
    Error,
>)
    ensures
        r matches Ok(Some(row)) ==> row@.len() == ncols && row_cells_ok(defs@, line@, row@),
        (split_cells_spec(line@) is None || split_cells_spec(line@)->0.len() != ncols) ==> r matches Ok(
            None,
        ),
        r matches Ok(None) ==> (split_cells_spec(line@) is None || split_cells_spec(line@)->0.len()
            != ncols),
        r is Err <==> (split_cells_spec(line@) is Some && split_cells_spec(line@)->0.len() == ncols
            && row_declines(defs@, line@)),
        r matches Err(e) ==> row_reason(defs@, line@) matches Some(w) && e == Error::Declined(w),
{
    let cells = match split_table_cells(line) {
        Some(c) => c,
        None => {
            return Ok(None);
        },
    };
    assert(crate::lines::views(cells@).len() == cells@.len());
    if cells.len() != ncols {
        return Ok(None);
    }
    let ghost cs = split_cells_spec(line@)->0;
    let mut row: Vec<Vec<Span>> = Vec::new();
    let mut k: usize = 0;
    while k < cells.len()
        invariant
            k <= cells@.len(),
            row@.len() == k,
            cells@.len() == ncols,
            split_cells_spec(line@) == Some(cs),
            crate::lines::views(cells@) == cs,
            cs.len() == ncols,
            forall|j: int|
                0 <= j < k ==> ((#[trigger] cell_scan(defs@, cs[j])) matches Ok((sp, _)) && sp
                    == spans_v(row@[j]@)),
            cells_reason(defs@, cs, 0) == cells_reason(defs@, cs, k as int),
        decreases cells@.len() - k,
    {
        assert(cs[k as int] == cells@[k as int]@);
        match parse_spans(defs, cells[k].as_slice()) {
            Ok(s) => {
                let ghost r0 = row@;
                row.push(s);
                proof {
                    assert forall|j: int| 0 <= j < k + 1 implies ((#[trigger] cell_scan(
                        defs@,
                        cs[j],
                    )) matches Ok((sp, _)) && sp == spans_v(row@[j]@)) by {
                        if j < k {
                            assert(row@[j] == r0[j]);
                        }
                    }
                }
            },
            Err(e) => {
                assert(cell_scan(defs@, cs[k as int]) is Err);
                return Err(e);
            },
        }
        assert(cell_scan(defs@, cs[k as int]) is Ok);
        k = k + 1;
    }
    assert(!row_declines(defs@, line@)) by {
        if row_declines(defs@, line@) {
            let j = choose|j: int| 0 <= j < cs.len() && (#[trigger] cell_scan(defs@, cs[j])) is Err;
            assert(cell_scan(defs@, cs[j]) matches Ok(_));
        }
    }
    Ok(Some(row))
}

/// A table is rectangular: every row (header included) has one cell per
/// column alignment, and there is at least one column and one body row.
pub open spec fn table_shape_ok(k: BlockKind) -> bool {
    match k {
        BlockKind::Table { aligns, header, body } => {
            &&& aligns@.len() >= 1
            &&& body@.len() >= 1
            &&& header matches Some(h) ==> h@.len() == aligns@.len()
            &&& forall|r: int| 0 <= r < body@.len() ==> #[trigger] body@[r]@.len() == aligns@.len()
        },
        _ => false,
    }
}

/// Where a table run from `start` stops: at the first blank or IAL line,
/// or (GFM, past its first line) a block boundary; else at the end.
pub open spec fn table_end(lines: Seq<Vec<char>>, start: int, e: int, gfm: bool) -> int
    decreases lines.len() - e,
{
    if e < 0 || e >= lines.len() {
        lines.len() as int
    } else {
        let l = lines[e]@;
        if blank_spec(l) || ial_start_spec(l) || (e > start && gfm && gfm_boundary_spec(l)) {
            e
        } else {
            table_end(lines, start, e + 1, gfm)
        }
    }
}

/// The alignments of a separator line's cells.
pub open spec fn sep_aligns(l: Seq<char>) -> Seq<Align> {
    crate::lines::pipe_split(crate::lines::sep_body(l)).map_values(|c: Seq<char>| crate::lines::align_of(c))
}

/// A table over `lines[start..e]`: a separator on its second line makes
/// its first line the header; the column count is that of the header line
/// (else of the first line); each column takes the separator's alignment,
/// `Unset` past it; the other lines are the body.
pub open spec fn table_layout(
    lines: Seq<Vec<char>>,
    start: int,
    e: int,
    aligns: Seq<Align>,
    has_header: bool,
    nbody: int,
) -> bool {
    let sep = start + 1 < e && crate::lines::is_sep_spec(lines[start + 1]@);
    let body_start = if sep {
        start + 2
    } else {
        start
    };
    let ncols = match split_cells_spec(lines[start]@) {
        Some(cs) => cs.len() as int,
        None => 0,
    };
    let al = if sep {
        sep_aligns(lines[start + 1]@)
    } else {
        Seq::empty()
    };
    &&& has_header == sep
    &&& nbody == e - body_start
    &&& aligns.len() == ncols
    &&& forall|c: int| 0 <= c < ncols ==> #[trigger] aligns[c] == if c < al.len() {
        al[c]
    } else {
        Align::Unset
    }
}

/// `s` without its leading Unicode whitespace.
pub open spec fn ws_stripped(s: Seq<char>) -> Seq<char> {
    s.subrange(crate::text::lead_ws(s, 0), s.len() as int)
}

/// A first line that cannot open a table: indented code, or (behind its
/// whitespace) a heading, quote, list item, fence, rule, separator or IAL.
pub open spec fn table_first_refused(first: Seq<char>) -> bool {
    let f = ws_stripped(first);
    ||| has_prefix(first, "    "@)
    ||| (first.len() > 0 && first[0] == '\t')
    ||| (f.len() > 0 && (f[0] == '#' || f[0] == '>'))
    ||| crate::lines::list_marker_spec(first) is Some
    ||| has_prefix(f, "```"@)
    ||| has_prefix(f, "~~~"@)
    ||| crate::lines::is_hr_trimmed(trim_ws_spec(first))
    ||| crate::lines::is_sep_spec(first)
    ||| ial_start_spec(first)
}

/// A line inside a table run: no `+` opener behind whitespace, and a
/// separator or a row of cells.
pub open spec fn table_line_ok(l: Seq<char>) -> bool {
    let f = ws_stripped(l);
    !(f.len() > 0 && f[0] == '+') && (crate::lines::is_sep_spec(l) || split_cells_spec(l) is Some)
}

/// Whether the lines from `start` have the shape of a table (before any
/// cell is parsed): an acceptable first row, every line of the run a row
/// or separator, at most one separator and only as the second line, and
/// at least one body row.
pub open spec fn table_shape_pre(lines: Seq<Vec<char>>, start: int, gfm: bool) -> bool {
    let e = table_end(lines, start, start, gfm);
    let sep = start + 1 < e && crate::lines::is_sep_spec(lines[start + 1]@);
    &&& !table_first_refused(lines[start]@)
    &&& split_cells_spec(lines[start]@) is Some
    &&& forall|b: int| start <= b < e ==> #[trigger] table_line_ok(lines[b]@)
    &&& e > start
    &&& forall|b: int| start <= b < e && crate::lines::is_sep_spec(#[trigger] lines[b]@) ==> b == start + 1
    &&& (if sep {
        start + 2
    } else {
        start
    }) < e
}

/// How the body rows from `b` to `e` go: `None` when each is a row of
/// `ncols` cells that parse, `Some(true)` when one first has another cell
/// count (no table), `Some(false)` when one first declines in a cell.
pub open spec fn rows_outcome(
    defs: Seq<LinkDef>,
    lines: Seq<Vec<char>>,
    b: int,
    e: int,
    ncols: int,
) -> Option<bool>
    decreases e - b,
{
    if b < 0 || b >= e {
        None
    } else {
        match split_cells_spec(lines[b]@) {
            None => Some(true),
            Some(cs) => if cs.len() != ncols {
                Some(true)
            } else if row_declines(defs, lines[b]@) {
                Some(false)
            } else {
                rows_outcome(defs, lines, b + 1, e, ncols)
            },
        }
    }
}

/// The row of `lines[b..e]` at which `rows_outcome` stops.
pub open spec fn stop_row(defs: Seq<LinkDef>, lines: Seq<Vec<char>>, b: int, e: int, ncols: int) -> int
    decreases e - b,
{
    if b < 0 || b >= e {
        b
    } else {
        match split_cells_spec(lines[b]@) {
            None => b,
            Some(cs) => if cs.len() != ncols || row_declines(defs, lines[b]@) {
                b
            } else {
                stop_row(defs, lines, b + 1, e, ncols)
            },
        }
    }
}

/// `r` declines for the reason the first declining cell of `line` gives.
pub open spec fn declines_for_row<T>(r: Result<T, Error>, defs: Seq<LinkDef>, line: Seq<char>) -> bool {
    r matches Err(x) && row_reason(defs, line) matches Some(w) && x == Error::Declined(w)
}

/// Whether `try_table` finds a table (`Ok(Some)`), none (`Ok(None)`) or
/// declines, as the shape, the header row and the body rows decide; a
/// decline gives the reason of the first declining cell of the row that
/// decides it.
#[verifier::opaque]
pub open spec fn table_decision_rel(
    defs: Seq<LinkDef>,
    lines: Seq<Vec<char>>,
    start: int,
    gfm: bool,
    r: Result<Option<(BlockKind, usize)>, Error>,
) -> bool {
    if !table_shape_pre(lines, start, gfm) {
        r matches Ok(None)
    } else {
        let e = table_end(lines, start, start, gfm);
        let sep = start + 1 < e && crate::lines::is_sep_spec(lines[start + 1]@);
        let ncols = split_cells_spec(lines[start]@)->0.len() as int;
        let first = if sep {
            start + 2
        } else {
            start
        };
        if sep && row_declines(defs, lines[start]@) {
            declines_for_row(r, defs, lines[start]@)
        } else {
            match rows_outcome(defs, lines, first, e, ncols) {
                None => r matches Ok(Some(_)),
                Some(true) => r matches Ok(None),
                Some(false) => declines_for_row(r, defs, lines[stop_row(defs, lines, first, e, ncols)]@),
            }
        }
    }
}

proof fn lemma_no_table_shape(
    defs: Seq<LinkDef>,
    lines: Seq<Vec<char>>,
    start: int,
    gfm: bool,
    r: Result<Option<(BlockKind, usize)>, Error>,
)
    requires
        !table_shape_pre(lines, start, gfm),
        r matches Ok(None),
    ensures
        table_decision_rel(defs, lines, start, gfm, r),
{
    reveal(table_decision_rel);
}

proof fn lemma_table_end_ge(lines: Seq<Vec<char>>, start: int, e: int, gfm: bool)
    requires
        0 <= e,
    ensures
        e <= lines.len() ==> e <= table_end(lines, start, e, gfm) <= lines.len(),
        e > lines.len() ==> table_end(lines, start, e, gfm) == lines.len(),
    decreases lines.len() - e,
{
    if e < lines.len() {
        lemma_table_end_ge(lines, start, e + 1, gfm);
    }
}

/// A parsed table's cells hold the spans of its lines' cells; a decline
/// comes from a cell of one of its lines.
#[verifier::opaque]
pub open spec fn table_cells_rel(
    defs: Seq<LinkDef>,
    lines: Seq<Vec<char>>,
    start: int,
    r: Result<Option<(BlockKind, usize)>, Error>,
) -> bool {
    &&& r matches Ok(Some((k, _))) ==> (k matches BlockKind::Table { header, body, .. } && (
    header matches Some(h) ==> row_cells_ok(defs, lines[start]@, h@)) && forall|q: int|
        0 <= q < body@.len() ==> #[trigger] row_cells_ok(
            defs,
            lines[body_line(start, header is Some, q)]@,
            body@[q]@,
        ))
    &&& r is Err ==> exists|b: int| start <= b < lines.len() && #[trigger] row_declines(defs, lines[b]@)
}

/// The line of a table's `q`-th body row.
pub open spec fn body_line(start: int, has_header: bool, q: int) -> int {
    (if has_header {
        start + 2
    } else {
        start
    }) + q
}

/// Try to parse a pipe table at `lines[start]`: `Ok(Some((table, end)))` for
/// a table in the common shape (every line a row, at most one separator and
/// only as the second line, equal cell counts); `Ok(None)` otherwise.
pub fn try_table(defs: &Vec<LinkDef>, lines: &Vec<Vec<char>>, start: usize, opts: Options) -> (r:
    Result<Option<(BlockKind, usize)>, Error>)
    requires
        start < lines@.len(),
    ensures
        r matches Ok(Some((k, e))) ==> start < e <= lines@.len() && table_shape_ok(k),
        split_cells_spec(lines@[start as int]@) is None ==> r matches Ok(None),
        r matches Ok(Some((k, e))) ==> e == table_end(lines@, start as int, start as int, opts.gfm)
            && (k matches BlockKind::Table { aligns, header, body } && table_layout(
            lines@,
            start as int,
            e as int,
            aligns@,
            header is Some,
            body@.len() as int,
        )),
        table_cells_rel(defs@, lines@, start as int, r),
        table_decision_rel(defs@, lines@, start as int, opts.gfm, r),
{
    reveal(table_cells_rel);
    reveal(table_decision_rel);
    let first = lines[start].as_slice();
    if starts_with(first, "    ") || starts_with_char(first, '\t') {
        return Ok(None);
    }
    let f = trim_start_ws(first);
    if starts_with_char(f, '#') || starts_with_char(f, '>') || list_marker(first).is_some()
        || starts_with(f, "```") || starts_with(f, "~~~") || is_hr(first) || is_table_sep_line(
        first,
    ) || is_ial_start(first) {
        return Ok(None);
    }
    if split_table_cells(first).is_none() {
        return Ok(None);
    }
    let mut end = start;
    let mut stop = false;
    while end < lines.len() && !stop
        invariant
            start <= end <= lines@.len(),
            split_cells_spec(lines@[start as int]@) is Some,
            !table_first_refused(lines@[start as int]@),
            forall|b: int| start <= b < end ==> #[trigger] table_line_ok(lines@[b]@),
            stop ==> end < lines@.len(),
            table_end(lines@, start as int, start as int, opts.gfm) == if stop {
                end as int
            } else {
                table_end(lines@, start as int, end as int, opts.gfm)
            },
        decreases lines@.len() - end, if stop { 0int } else { 1int },
    {
        proof {
            reveal(table_cells_rel);
            lemma_table_end_ge(lines@, start as int, end as int, opts.gfm);
        }
        let l = lines[end].as_slice();
        if is_blank(l) || is_ial_start(l) {
            stop = true;
        } else if end > start && opts.gfm && gfm_boundary(l) {
            stop = true;
        } else {
            if starts_with_char(trim_start_ws(l), '+') {
                proof {
                    lemma_table_end_ge(lines@, start as int, end + 1, opts.gfm);
                    assert(end < table_end(lines@, start as int, start as int, opts.gfm));
                    assert(!table_line_ok(lines@[end as int]@));
                    lemma_no_table_shape(defs@, lines@, start as int, opts.gfm, Ok(None));
                }
                return Ok(None);
            }
            if !is_table_sep_line(l) && split_table_cells(l).is_none() {
                proof {
                    lemma_table_end_ge(lines@, start as int, end + 1, opts.gfm);
                    assert(end < table_end(lines@, start as int, start as int, opts.gfm));
                    assert(!table_line_ok(lines@[end as int]@));
                    lemma_no_table_shape(defs@, lines@, start as int, opts.gfm, Ok(None));
                }
                return Ok(None);
            }
            end = end + 1;
        }
    }
    if end == start {
        return Ok(None);
    }
    assert(end == table_end(lines@, start as int, start as int, opts.gfm));
    let mut sep: Option<usize> = None;
    let mut k = start;
    while k < end
        invariant
            start <= k <= end,
            end <= lines@.len(),
            split_cells_spec(lines@[start as int]@) is Some,
            end == table_end(lines@, start as int, start as int, opts.gfm),
            start < end,
            !table_first_refused(lines@[start as int]@),
            forall|b: int| start <= b < end ==> #[trigger] table_line_ok(lines@[b]@),
            sep matches Some(s) ==> start <= s < k && crate::lines::is_sep_spec(lines@[s as int]@)
                && forall|j: int|
                start <= j < k && j != s ==> !crate::lines::is_sep_spec(#[trigger] lines@[j]@),
            sep is None ==> forall|j: int|
                start <= j < k ==> !crate::lines::is_sep_spec(#[trigger] lines@[j]@),
        decreases end - k,
    {
        proof {
            reveal(table_cells_rel);
        }
        if is_table_sep_line(lines[k].as_slice()) {
            if sep.is_some() {
                proof {
                    let s0 = sep->0;
                    if s0 == start + 1 {
                        assert(crate::lines::is_sep_spec(lines@[k as int]@) && k != start + 1);
                    } else {
                        assert(crate::lines::is_sep_spec(lines@[s0 as int]@));
                    }
                    lemma_no_table_shape(defs@, lines@, start as int, opts.gfm, Ok(None));
                }
                return Ok(None);
            }
            sep = Some(k);
        }
        k = k + 1;
    }
    let body_start = match sep {
        None => start,
        Some(s) => {
            if s != start + 1 {
                assert(crate::lines::is_sep_spec(lines@[s as int]@));
                return Ok(None);
            }
            start + 2
        },
    };
    let ghost is_sep = start + 1 < end && crate::lines::is_sep_spec(lines@[start + 1]@);
    assert(sep.is_some() == is_sep);
    if body_start >= end {
        return Ok(None);
    }
    assert(table_shape_pre(lines@, start as int, opts.gfm));
    let head_line = if sep.is_some() {
        start
    } else {
        body_start
    };
    let ncols = match split_table_cells(lines[head_line].as_slice()) {
        Some(c) => c.len(),
        None => {
            return Ok(None);
        },
    };
    proof {
        let cs = split_cells_spec(lines@[start as int]@)->0;
        assert(ncols == cs.len());
    }
    assert(ncols >= 1);
    let mut aligns: Vec<Align> = Vec::new();
    let al = if sep.is_some() {
        sep_align_cells(lines[start + 1].as_slice())
    } else {
        Vec::new()
    };
    let ghost alv = if is_sep {
        sep_aligns(lines@[start + 1]@)
    } else {
        Seq::<Align>::empty()
    };
    assert(al@ == alv);
    let mut c: usize = 0;
    while c < ncols
        invariant
            c <= ncols,
            aligns@.len() == c,
            split_cells_spec(lines@[start as int]@) is Some,
            al@ == alv,
            forall|j: int| 0 <= j < c ==> #[trigger] aligns@[j] == if j < alv.len() {
                alv[j]
            } else {
                Align::Unset
            },
        decreases ncols - c,
    {
        if c < al.len() {
            aligns.push(al[c]);
        } else {
            aligns.push(Align::Unset);
        }
        c = c + 1;
    }
    let header = if sep.is_some() {
        match table_row(defs, lines[start].as_slice(), ncols) {
            Err(e) => {
                assert(row_declines(defs@, lines@[start as int]@));
                return Err(e);
            },
            Ok(None) => {
                return Ok(None);
            },
            Ok(Some(r)) => Some(r),
        }
    } else {
        None
    };
    let mut body: Vec<Vec<Vec<Span>>> = Vec::new();
    let mut b = body_start;
    while b < end
        invariant
            body_start <= b <= end,
            end <= lines@.len(),
            split_cells_spec(lines@[start as int]@) is Some,
            body@.len() == b - body_start,
            forall|r: int| 0 <= r < body@.len() ==> #[trigger] body@[r]@.len() == ncols,
            body_start == body_line(start as int, sep is Some, 0),
            end == table_end(lines@, start as int, start as int, opts.gfm),
            table_shape_pre(lines@, start as int, opts.gfm),
            sep.is_some() == is_sep,
            is_sep == (start + 1 < end && crate::lines::is_sep_spec(lines@[start + 1]@)),
            ncols == split_cells_spec(lines@[start as int]@)->0.len(),
            !(is_sep && row_declines(defs@, lines@[start as int]@)),
            rows_outcome(defs@, lines@, body_start as int, end as int, ncols as int) == rows_outcome(
                defs@,
                lines@,
                b as int,
                end as int,
                ncols as int,
            ),
            stop_row(defs@, lines@, body_start as int, end as int, ncols as int) == stop_row(
                defs@,
                lines@,
                b as int,
                end as int,
                ncols as int,
            ),
            forall|q: int|
                0 <= q < body@.len() ==> #[trigger] row_cells_ok(
                    defs@,
                    lines@[body_line(start as int, sep is Some, q)]@,
                    body@[q]@,
                ),
        decreases end - b,
    {
        proof {
            reveal(table_cells_rel);
            reveal(table_decision_rel);
        }
        match table_row(defs, lines[b].as_slice(), ncols) {
            Err(e) => {
                assert(row_declines(defs@, lines@[b as int]@));
                return Err(e);
            },
            Ok(None) => {
                return Ok(None);
            },
            Ok(Some(r)) => {
                let ghost b0 = body@;
                body.push(r);
                proof {
                    assert forall|q: int| 0 <= q < body@.len() implies #[trigger] row_cells_ok(
                        defs@,
                        lines@[body_line(start as int, sep is Some, q)]@,
                        body@[q]@,
                    ) by {
                        if q < b0.len() {
                            assert(body@[q] == b0[q]);
                        } else {
                            assert(body_line(start as int, sep is Some, q) == b);
                        }
                    }
                }
            },
        }
        b = b + 1;
    }
    Ok(Some((BlockKind::Table { aligns, header, body }, end)))
}

/// `s` with trailing `c`s removed.
pub fn trim_end_char(s: &[char], c: char) -> (r: &[char])
    ensures
        r@ == strip_trail_char(s@, c),
        r@ == s@.subrange(0, r@.len() as int),
        forall|k: int| r@.len() <= k < s@.len() ==> s@[k] == c,
        r@.len() > 0 ==> r@[r@.len() - 1] != c,
{
    let mut e = s.len();
    assert(s@.subrange(0, s@.len() as int) =~= s@);
    while e > 0 && s[e - 1] == c
        invariant
            e <= s@.len(),
            forall|k: int| e <= k < s@.len() ==> s@[k] == c,
            strip_trail_char(s@, c) == strip_trail_char(s@.subrange(0, e as int), c),
        decreases e,
    {
        assert(s@.subrange(0, e as int).drop_last() =~= s@.subrange(0, e - 1));
        e = e - 1;
    }
    &s[0..e]
}

/// `s` without its trailing `c`s.
pub open spec fn strip_trail_char(s: Seq<char>, c: char) -> Seq<char>
    decreases s.len(),
{
    if s.len() > 0 && s.last() == c {
        strip_trail_char(s.drop_last(), c)
    } else {
        s
    }
}

/// Text of a span tree the way kramdown-parser-gfm collects a heading's
/// raw text: text and code values verbatim, other elements contribute
/// their children's text; raw HTML and images contribute nothing.
pub open spec fn raw_text_spec(spans: Seq<Span>) -> Seq<char>
    decreases spans,
{
    if spans.len() == 0 {
        Seq::empty()
    } else {
        let last = spans.last();
        raw_text_spec(spans.drop_last()) + match last {
            Span::Text(t) => t@,
            Span::Code(t) => t@,
            Span::Raw(_) => Seq::empty(),
            Span::Image { .. } => Seq::empty(),
            Span::Em(inner, _) => raw_text_spec(inner@),
            Span::Strong(inner, _) => raw_text_spec(inner@),
            Span::Del(inner) => raw_text_spec(inner@),
            Span::Link { spans: inner, .. } => raw_text_spec(inner@),
        }
    }
}

/// The raw text of a span tree is that of its view.
pub proof fn lemma_raw_text_v(s: Seq<Span>)
    ensures
        raw_text_spec(s) == crate::span_model::raw_text_v(spans_v(s)),
    decreases s,
{
    if s.len() > 0 {
        lemma_raw_text_v(s.drop_last());
        crate::span_model::lemma_spans_v_push(s.drop_last(), s.last());
        assert(s.drop_last().push(s.last()) =~= s);
        let v = spans_v(s);
        assert(v.drop_last() =~= spans_v(s.drop_last()));
        match s.last() {
            Span::Em(inner, _) => {
                lemma_raw_text_v(inner@);
            },
            Span::Strong(inner, _) => {
                lemma_raw_text_v(inner@);
            },
            Span::Del(inner) => {
                lemma_raw_text_v(inner@);
            },
            Span::Link { spans: inner, .. } => {
                lemma_raw_text_v(inner@);
            },
            _ => {},
        }
    }
}

/// Append the raw text of `spans` to `out`.
pub fn spans_raw_text(spans: &Vec<Span>, out: &mut Vec<char>)
    ensures
        final(out)@ == old(out)@ + raw_text_spec(spans@),
    decreases spans@,
{
    let ghost start = out@;
    let mut k: usize = 0;
    while k < spans.len()
        invariant
            k <= spans@.len(),
            out@ == start + raw_text_spec(spans@.subrange(0, k as int)),
        decreases spans@.len() - k,
    {
        let ghost before = out@;
        proof {
            assert(spans@.subrange(0, k + 1).drop_last() =~= spans@.subrange(0, k as int));
            assert(spans@.subrange(0, k + 1).last() == spans@[k as int]);
        }
        match &spans[k] {
            Span::Text(t) => push_all(out, t.as_slice()),
            Span::Code(t) => push_all(out, t.as_slice()),
            Span::Raw(_) => {},
            Span::Image { .. } => {},
            Span::Em(inner, _) => {
                assert(decreases_to!(spans@ => spans@[k as int]));
                spans_raw_text(inner, out);
            },
            Span::Strong(inner, _) => {
                assert(decreases_to!(spans@ => spans@[k as int]));
                spans_raw_text(inner, out);
            },
            Span::Del(inner) => {
                assert(decreases_to!(spans@ => spans@[k as int]));
                spans_raw_text(inner, out);
            },
            Span::Link { spans: inner, .. } => {
                assert(decreases_to!(spans@ => spans@[k as int]));
                spans_raw_text(inner, out);
            },
        }
        proof {
            assert(out@ == start + raw_text_spec(spans@.subrange(0, k + 1)));
        }
        k = k + 1;
    }
    proof {
        assert(spans@.subrange(0, spans@.len() as int) =~= spans@);
    }
}

/// An ATX heading's shape: one to six `#`s, then a space or tab.
pub open spec fn atx_shape(line: Seq<char>) -> bool {
    let h = crate::lines::run_spec(line, 0, '#');
    1 <= h <= 6 && h < line.len() && is_sp_tab(line[h as int])
}

/// An ATX heading's text: after the `#`s and the gap, right-trimmed.
pub open spec fn heading_text(line: Seq<char>) -> Seq<char> {
    let rest = line.subrange(crate::lines::run_spec(line, 0, '#') as int, line.len() as int);
    let a = strip_lead(rest, true);
    a.subrange(0, trail_ws_end(a, a.len() as int))
}

/// A heading's content and explicit id: the ` {#id}` shorthand split off,
/// else the text with a closing `#` run (and the whitespace before it)
/// removed.
pub open spec fn heading_parts(line: Seq<char>) -> (Seq<char>, Option<Seq<char>>) {
    let t = heading_text(line);
    match crate::lines::header_id_spec(t) {
        Some((b, id)) => (b, Some(id)),
        None => {
            let u = strip_trail_char(t, '#');
            (u.subrange(0, trail_ws_end(u, u.len() as int)), None)
        },
    }
}

/// An ATX heading line (`line` starts with `#`): its kind and an explicit
/// `{#id}`, if any. A shape other than `#{1,6}[ \t]+text` declines, and so
/// does a GFM auto-id slug this library can't reproduce.
pub fn parse_heading(defs: &Vec<LinkDef>, line: &[char], opts: Options) -> (r: Result<
    (BlockKind, Option<Vec<char>>),
    Error,
>)
    ensures
        !atx_shape(line@) ==> r is Err,
        r matches Ok((k, explicit)) ==> atx_shape(line@) && (k matches BlockKind::Heading {
            level,
            raw,
            span_text,
            spans,
            id,
        } && 1 <= level <= 6 && level == crate::lines::run_spec(line@, 0, '#') && raw@
            == heading_parts(line@).0 && opt_vec(explicit) == heading_parts(line@).1 && span_text@
            == raw_text_spec(spans@) && id is None),
        r matches Ok((k, explicit)) ==> ((explicit is None && opts.gfm && opts.auto_ids) ==> (
        k matches BlockKind::Heading { span_text, .. } && crate::slug::gfm_slug_spec(span_text@) is Some)),
        heading_spans_rel(defs@, line@, opts, r),
{
    reveal(heading_spans_rel);
    let _n = line.len();
    let hashes = run_len(line, 0, '#');
    proof {
        crate::lines::lemma_run_spec(line@, 0, '#', hashes as int);
    }
    if hashes == 0 || hashes > 6 {
        return Err(declined("atx-heading-shape"));
    }
    let rest = &line[hashes..line.len()];
    if !(rest.len() > 0 && (rest[0] == ' ' || rest[0] == '\t')) {
        return Err(declined("atx-heading-shape"));
    }
    let text = trim_end_ws(trim_start_sp(rest, true));
    let (body, explicit) = match extract_header_id(text) {
        Some((stripped, id)) => (stripped, Some(id)),
        None => (to_vec(trim_end_ws(trim_end_char(text, '#'))), None),
    };
    let spans = match parse_spans(defs, body.as_slice()) {
        Ok(s) => s,
        Err(e) => {
            return Err(e);
        },
    };
    let mut span_text: Vec<char> = Vec::new();
    spans_raw_text(&spans, &mut span_text);
    proof {
        lemma_raw_text_v(spans@);
        assert(span_text@ =~= raw_text_spec(spans@));
    }
    if explicit.is_none() && opts.gfm && opts.auto_ids && !crate::slug::gfm_slug_ok(
        span_text.as_slice(),
    ) {
        return Err(declined("heading-gfm-slug"));
    }
    let level: u8 = hashes as u8;
    Ok((BlockKind::Heading { level, raw: body, span_text, spans, id: None }, explicit))
}

/// A line not in ATX shape declines as such. A heading's spans are those
/// its text parses into; where that text declines, so does the heading,
/// for the same reason, and otherwise it is refused exactly when a GFM
/// auto id is owed and its raw text has no slug.
#[verifier::opaque]
pub open spec fn heading_spans_rel(
    defs: Seq<LinkDef>,
    line: Seq<char>,
    opts: Options,
    r: Result<(BlockKind, Option<Vec<char>>), Error>,
) -> bool {
    &&& !atx_shape(line) ==> crate::inline::declines_as(r, "atx-heading-shape")
    &&& atx_shape(line) ==> match scan_spec(defs, heading_parts(line).0, None, false, false, None) {
        Err(w) => crate::inline::declines_as(r, w),
        Ok((sp, _)) => (if heading_parts(line).1 is None && opts.gfm && opts.auto_ids
            && crate::slug::gfm_slug_spec(crate::span_model::raw_text_v(sp)) is None {
            crate::inline::declines_as(r, "heading-gfm-slug")
        } else {
            r is Ok
        }) && (r matches Ok((k, _)) ==> (k matches BlockKind::Heading { spans, .. } && spans_v(
            spans@,
        ) == sp)),
    }
}

/// Where the trailing blank-run markers of `bs[..e]` begin.
pub open spec fn blank_tail(bs: Seq<Block>, e: int) -> int
    decreases e,
{
    if 0 < e <= bs.len() && bs[e - 1].kind is Blank {
        blank_tail(bs, e - 1)
    } else {
        e
    }
}

/// Where the leading blank-run markers of `bs[a..e]` end.
pub open spec fn blank_head(bs: Seq<Block>, a: int, e: int) -> int
    decreases e - a,
{
    if 0 <= a < e && bs[a].kind is Blank {
        blank_head(bs, a + 1, e)
    } else {
        a
    }
}

/// Drop leading and trailing `Blank` blocks.
pub fn strip_blanks(blocks: &mut Vec<Block>)
    ensures
        final(blocks)@ == old(blocks)@.subrange(
            blank_head(old(blocks)@, 0, blank_tail(old(blocks)@, old(blocks)@.len() as int)),
            blank_tail(old(blocks)@, old(blocks)@.len() as int),
        ),
        final(blocks)@.len() <= old(blocks)@.len(),
        final(blocks)@.len() > 0 ==> !(final(blocks)@[0].kind is Blank),
        final(blocks)@.len() > 0 ==> !(final(blocks)@.last().kind is Blank),
{
    let ghost orig = blocks@;
    assert(orig.subrange(0, orig.len() as int) =~= orig);
    while blocks.len() > 0 && blocks[blocks.len() - 1].kind.is_blank()
        invariant
            blocks@.len() <= orig.len(),
            blocks@ == orig.subrange(0, blocks@.len() as int),
            blank_tail(orig, orig.len() as int) == blank_tail(orig, blocks@.len() as int),
        decreases blocks@.len(),
    {
        blocks.pop();
        assert(blocks@ =~= orig.subrange(0, blocks@.len() as int));
    }
    let ghost b = blocks@.len() as int;
    assert(b == blank_tail(orig, orig.len() as int));
    assert(orig.subrange(0, b) =~= orig.subrange(b - blocks@.len(), b));
    while blocks.len() > 0 && blocks[0].kind.is_blank()
        invariant
            blocks@.len() <= b,
            b <= orig.len(),
            b == blank_tail(orig, orig.len() as int),
            blocks@ == orig.subrange(b - blocks@.len(), b),
            blank_head(orig, 0, b) == blank_head(orig, b - blocks@.len(), b),
            blocks@.len() > 0 ==> !(blocks@.last().kind is Blank),
        decreases blocks@.len(),
    {
        blocks.remove(0);
        assert(blocks@ =~= orig.subrange(b - blocks@.len(), b));
    }
}


/// A heading's level is 1–6.
pub open spec fn heading_ok(k: BlockKind) -> bool {
    k matches BlockKind::Heading { level, .. } ==> 1 <= level <= 6
}

/// A blockquote's body neither starts nor ends with a blank-run marker.
pub open spec fn quote_ok(k: BlockKind) -> bool {
    k matches BlockKind::Quote(inner) ==> (inner@.len() > 0 ==> !(inner@[0].kind is Blank) && !(
    inner@.last().kind is Blank))
}

/// Each list item's blocks neither start nor end with a blank-run marker.
pub open spec fn items_ok(k: BlockKind) -> bool {
    k matches BlockKind::List { items, .. } ==> forall|j: int|
        0 <= j < items@.len() ==> #[trigger] edges_ok(items@[j].blocks@)
}

pub open spec fn edges_ok(bs: Seq<Block>) -> bool {
    bs.len() > 0 ==> !(bs[0].kind is Blank) && !(bs.last().kind is Blank)
}

pub open spec fn is_blank_kind(k: BlockKind) -> bool {
    k is Blank
}

/// The shape the block parser guarantees of a block sequence: one `Blank`
/// per run of blank lines (never two in a row), heading levels 1–6, and
/// blockquote bodies and list items trimmed of blank-run markers.
pub open spec fn blocks_wf(bs: Seq<Block>) -> bool {
    &&& forall|k: int| 0 < k < bs.len() ==> !(is_blank_kind(#[trigger] bs[k].kind) && is_blank_kind(
        bs[k - 1].kind,
    ))
    &&& forall|k: int|
        0 <= k < bs.len() ==> heading_ok(#[trigger] bs[k].kind) && quote_ok(bs[k].kind) && items_ok(
            bs[k].kind,
        )
}

/// Append a block, applying a pending leading IAL when the kind can carry
/// one; a pending IAL the block can't carry declines.
fn emit(out: &mut Vec<Block>, pending: &mut Vec<Attr>, kind: BlockKind) -> (r: Result<(), Error>)
    requires
        blocks_wf(old(out)@),
        !is_blank_kind(kind),
        heading_ok(kind) && quote_ok(kind) && items_ok(kind),
    ensures
        blocks_wf(final(out)@),
        r is Ok ==> final(out)@.len() == old(out)@.len() + 1 && final(out)@.last().kind == kind
            && final(pending)@.len() == 0,
        r is Ok ==> final(out)@.drop_last() == old(out)@ && final(out)@.last().ial@ == old(pending)@,
        r is Err ==> final(out)@ == old(out)@,
        old(pending)@.len() == 0 ==> r is Ok,
        r is Ok <==> !(old(pending)@.len() > 0 && !attachable_spec(kind)),
        r is Err ==> crate::inline::declines_as(r, "block-ial"),
{
    if pending.len() > 0 && !attachable(&kind) {
        return Err(declined("block-ial"));
    }
    let mut ial: Vec<Attr> = Vec::new();
    std::mem::swap(&mut ial, pending);
    out.push(Block { kind, ial });
    Ok(())
}

/// Where the root tag of a serialized HTML block ends its name, when it
/// carries no attributes (`<name>` or `<name />`).
pub open spec fn bare_root_end(h: Seq<char>) -> Option<int> {
    let ne = crate::html_block::name_run(h, 1);
    if h.len() >= 2 && h[0] == '<' && ne > 1 && ((ne < h.len() && h[ne] == '>') || has_prefix(
        h.subrange(ne, h.len() as int),
        " />"@,
    )) {
        Some(ne)
    } else {
        None
    }
}

/// Insert a leading block IAL's attributes into a serialized HTML block's
/// root tag. `None` when the root tag already carries attributes (merging
/// is out of subset) or the block is not an element.
pub fn inject_ial(html: &[char], attrs: &Vec<Attr>) -> (r: Option<Vec<char>>)
    ensures
        match bare_root_end(html@) {
            Some(ne) => r matches Some(v) && v@ == html@.subrange(0, ne) + crate::ial::attrs_html(
                attrs@,
            ) + html@.subrange(ne, html@.len() as int),
            None => r is None,
        },
{

    if html.len() < 2 || html[0] != '<' {
        return None;
    }
    let ne = crate::html_block::name_end(html, 1);
    if ne == 1 {
        return None;
    }
    let tail = &html[ne..html.len()];
    if !(starts_with_char(tail, '>') || starts_with(tail, " />")) {
        return None;
    }
    let mut out: Vec<char> = to_vec(&html[0..ne]);
    crate::ial::emit_attrs(&mut out, attrs);
    push_all(&mut out, tail);
    Some(out)
}

/// The remaining lines from `from`, each followed by a newline.
fn join_from(lines: &Vec<Vec<char>>, from: usize) -> (r: Vec<char>)
    requires
        from <= lines@.len(),
    ensures
        r@ == lines_text(lines@, from as int, lines@.len() as int),
{
    fence_body(lines, from, lines.len())
}

/// Number of newlines in `s`.
fn count_newlines(s: &[char]) -> (r: usize)
    ensures
        r == crate::lines::count_char(s@, '\n'),
        r <= s@.len(),
{
    let mut c: usize = 0;
    let mut k: usize = 0;
    while k < s.len()
        invariant
            k <= s@.len(),
            c <= k,
            c == crate::lines::count_char(s@.subrange(0, k as int), '\n'),
        decreases s@.len() - k,
    {
        proof {
            assert(s@.subrange(0, k + 1).drop_last() =~= s@.subrange(0, k as int));
        }
        if s[k] == '\n' {
            c = c + 1;
        }
        k = k + 1;
    }
    proof {
        assert(s@.subrange(0, s@.len() as int) =~= s@);
    }
    c
}

/// A line of a blockquote's body: a `>` line without the `>` and one
/// optional space after it; a lazy continuation line verbatim.
pub open spec fn quote_line(l: Seq<char>) -> Seq<char> {
    if l.len() > 0 && l[0] == '>' {
        let r = l.subrange(1, l.len() as int);
        if r.len() > 0 && r[0] == ' ' {
            r.subrange(1, r.len() as int)
        } else {
            r
        }
    } else {
        l
    }
}

/// Collect a blockquote starting at `lines[start]`: `>`-prefixed lines
/// (one optional space after `>` removed) plus lazy continuations, up to a
/// blank line or a block IAL line. Returns the de-prefixed lines and the
/// index after the quote.
pub fn collect_quote(lines: &Vec<Vec<char>>, start: usize) -> (r: (Vec<Vec<char>>, usize))
    requires
        start < lines@.len(),
        lines@[start as int]@.len() > 0 && lines@[start as int]@[0] == '>',
    ensures
        start < r.1 <= lines@.len(),
        r.1 == quote_end(lines@, start + 1),
        r.0@.len() == r.1 - start,
        forall|k: int| 0 <= k < r.0@.len() ==> #[trigger] r.0@[k]@ == quote_line(lines@[start + k]@),
{
    let _n = lines.len();
    let mut inner: Vec<Vec<char>> = Vec::new();
    let first = lines[start].as_slice();
    let rest0 = &first[1..first.len()];
    inner.push(to_vec(
        if starts_with_char(rest0, ' ') {
            &rest0[1..rest0.len()]
        } else {
            rest0
        },
    ));
    let mut i = start + 1;
    while i < lines.len()
        invariant
            start < i <= lines@.len(),
            inner@.len() == i - start,
            quote_end(lines@, start + 1) == quote_end(lines@, i as int),
            forall|k: int| 0 <= k < inner@.len() ==> #[trigger] inner@[k]@ == quote_line(
                lines@[start + k]@,
            ),
        ensures
            start < i <= lines@.len(),
            inner@.len() == i - start,
            forall|k: int| 0 <= k < inner@.len() ==> #[trigger] inner@[k]@ == quote_line(
                lines@[start + k]@,
            ),
            quote_end(lines@, start + 1) == i as int,
        decreases lines@.len() - i,
    {
        let l = lines[i].as_slice();
        if starts_with_char(l, '>') {
            let rest = &l[1..l.len()];
            let r = if starts_with_char(rest, ' ') {
                &rest[1..rest.len()]
            } else {
                rest
            };
            inner.push(to_vec(r));
            i = i + 1;
        } else if !is_blank(l) && inner.len() > 0 {
            if is_ial_start(l) {
                break;
            }
            inner.push(to_vec(l));
            i = i + 1;
        } else {
            break;
        }
    }
    (inner, i)
}

/// Where a blockquote's lines end, scanning from `i`: `>` lines and lazy
/// continuation lines (not blank, not an IAL) belong to it.
pub open spec fn quote_end(lines: Seq<Vec<char>>, i: int) -> int
    decreases lines.len() - i,
{
    if i < 0 || i >= lines.len() {
        i
    } else {
        let l = lines[i]@;
        if (l.len() > 0 && l[0] == '>') || (!blank_spec(l) && !ial_start_spec(l)) {
            quote_end(lines, i + 1)
        } else {
            i
        }
    }
}

/// Where an indented code block ends, scanning from `j` with its last code
/// line ending at `last`: blank lines are kept only when code follows.
pub open spec fn code_end(lines: Seq<Vec<char>>, j: int, last: int) -> int
    decreases lines.len() - j,
{
    if j < 0 || j >= lines.len() {
        last
    } else {
        let l = lines[j]@;
        if blank_spec(l) {
            code_end(lines, j + 1, last)
        } else if !has_prefix(l, "    "@) {
            last
        } else {
            code_end(lines, j + 1, j + 1)
        }
    }
}

/// One line of an indented code block: four spaces stripped; a blank line
/// contributes nothing but its newline.
pub open spec fn code_line(l: Seq<char>) -> Seq<char> {
    if blank_spec(l) {
        Seq::empty()
    } else {
        l.subrange(4, l.len() as int)
    }
}

/// Lines `from..to` as indented-code text, each followed by a newline.
pub open spec fn code_text(lines: Seq<Vec<char>>, from: int, to: int) -> Seq<char>
    decreases to - from,
{
    if to <= from {
        Seq::empty()
    } else {
        code_text(lines, from, to - 1) + code_line(lines[to - 1]@) + seq!['\n']
    }
}

/// A GFM indented code block at `lines[start]` (which begins with four
/// spaces): the run of lines indented by four, interior blank lines kept
/// when more code follows. Returns the text and the index after it.
pub fn indented_code(lines: &Vec<Vec<char>>, start: usize) -> (r: (Vec<char>, usize))
    requires
        start < lines@.len(),
    ensures
        start < r.1 <= lines@.len(),
        (!blank_spec(lines@[start as int]@) && has_prefix(lines@[start as int]@, "    "@)) ==> r.0@
            == code_text(lines@, start as int, r.1 as int) && r.1 == code_end(
            lines@,
            start + 1,
            start + 1,
        ),
{
    proof {
        reveal_strlit("    ");
    }
    let _n = lines.len();
    let mut text: Vec<char> = Vec::new();
    let first = lines[start].as_slice();
    if is_blank(first) || !starts_with(first, "    ") {
        return (text, start + 1);
    }
    push_all(&mut text, &first[4..first.len()]);
    push_char(&mut text, '\n');
    assert(code_text(lines@, start as int, start as int) == Seq::<char>::empty());
    assert(text@ =~= code_text(lines@, start as int, start + 1));
    let mut j = start + 1;
    let mut pending: usize = 0;
    while j < lines.len()
        invariant
            start < j <= lines@.len(),
            pending < j - start,
            text@ == code_text(lines@, start as int, j - pending),
            forall|k: int| j - pending <= k < j ==> blank_spec(#[trigger] lines@[k]@),
            code_end(lines@, start + 1, start + 1) == code_end(lines@, j as int, j - pending),
        ensures
            start < j <= lines@.len(),
            pending < j - start,
            text@ == code_text(lines@, start as int, j - pending),
            code_end(lines@, start + 1, start + 1) == j - pending,
        decreases lines@.len() - j,
    {
        let l = lines[j].as_slice();
        if is_blank(l) {
            pending = pending + 1;
            j = j + 1;
            continue;
        }
        if !starts_with(l, "    ") {
            break;
        }
        proof {
            reveal_strlit("    ");
        }
        let mut b: usize = 0;
        while b < pending
            invariant
                b <= pending,
                pending < j - start,
                j < lines@.len(),
                text@ == code_text(lines@, start as int, j - pending + b),
                forall|k: int| j - pending <= k < j ==> blank_spec(#[trigger] lines@[k]@),
            decreases pending - b,
        {
            assert(blank_spec(lines@[j - pending + b]@));
            push_char(&mut text, '\n');
            assert(text@ =~= code_text(lines@, start as int, j - pending + b + 1));
            b = b + 1;
        }
        pending = 0;
        push_all(&mut text, &l[4..l.len()]);
        push_char(&mut text, '\n');
        assert(text@ =~= code_text(lines@, start as int, j + 1));
        j = j + 1;
    }
    (text, j - pending)
}

/// A list-item marker line of this list: the marker of the list's kind at
/// exactly the base indent, and not a horizontal rule.
pub fn is_item_line(l: &[char], base: usize, ordered: bool) -> (r: bool)
    ensures
        r == (lead_run(l@, 0, false) == base && list_marker_spec(l@.subrange(base as int, l@.len() as int))
            == Some(ordered) && !crate::lines::is_hr_trimmed(trim_ws_spec(l@))),
{
    lead_count(l, false) == base && base <= l.len() && list_marker(&l[base..l.len()]) == Some(
        ordered,
    ) && !is_hr(l)
}

/// A line with a leading tab: a tab before a list marker reads as four
/// spaces; a tab before anything else is out of subset.
fn expand_tab(l: &[char]) -> (r: Result<Vec<char>, Error>)
    ensures
        !(l@.len() > 0 && l@[0] == '\t') ==> (r matches Ok(v) && v@ == l@),
        (l@.len() > 0 && l@[0] == '\t') ==> match list_marker_spec(l@.subrange(1, l@.len() as int)) {
            Some(_) => r matches Ok(v) && v@ == "    "@ + l@.subrange(1, l@.len() as int),
            None => crate::inline::declines_as(r, "list-tab-indent"),
        },
{
    if starts_with_char(l, '\t') {
        let rest = &l[1..l.len()];
        if list_marker(rest).is_some() {
            let mut v: Vec<char> = Vec::new();
            crate::text::push_str(&mut v, "    ");
            push_all(&mut v, rest);
            Ok(v)
        } else {
            Err(declined("list-tab-indent"))
        }
    } else {
        Ok(to_vec(l))
    }
}

/// A list-item marker line of a list of this kind at indent `base`.
pub open spec fn item_line_spec(l: Seq<char>, base: int, ordered: bool) -> bool {
    lead_run(l, 0, false) == base && list_marker_spec(l.subrange(base, l.len() as int)) == Some(
        ordered,
    ) && !crate::lines::is_hr_trimmed(trim_ws_spec(l))
}

/// A line with a leading tab before a list marker read as four spaces;
/// `None` for a leading tab before anything else.
pub open spec fn expand_spec(l: Seq<char>) -> Option<Seq<char>> {
    if l.len() > 0 && l[0] == '\t' {
        if list_marker_spec(l.subrange(1, l.len() as int)) is Some {
            Some("    "@ + l.subrange(1, l.len() as int))
        } else {
            None
        }
    } else {
        Some(l)
    }
}

/// The first non-blank line at or after `i` (the end when there is none).
pub open spec fn blank_run_end(lines: Seq<Vec<char>>, i: int) -> int
    decreases lines.len() - i,
{
    if 0 <= i < lines.len() && blank_spec(lines[i]@) {
        blank_run_end(lines, i + 1)
    } else {
        i
    }
}

proof fn lemma_blank_run_end(lines: Seq<Vec<char>>, i: int)
    requires
        0 <= i <= lines.len(),
    ensures
        i <= blank_run_end(lines, i) <= lines.len(),
    decreases lines.len() - i,
{
    if i < lines.len() && blank_spec(lines[i]@) {
        lemma_blank_run_end(lines, i + 1);
    }
}

/// `l` put before the rest of an item.
pub open spec fn prefix_line(
    l: Seq<Seq<char>>,
    ib: bool,
    o: Result<(Seq<Seq<char>>, bool, bool, bool, int), &'static str>,
) -> Result<(Seq<Seq<char>>, bool, bool, bool, int), &'static str> {
    match o {
        Err(w) => Err(w),
        Ok((ls, b, ni, ba, e)) => Ok((l + ls, ib || b, ni, ba, e)),
    }
}

/// The rest of a list item from `lines[i]`, its content starting at column
/// `col`: its lines, whether a kept blank line separates blocks in it,
/// whether another item of the list follows (and across blank lines), and
/// where it ends. A blank run stays in the item only when the next line is
/// indented to the content; a marker line of the list ends it; a rule, IAL
/// or HTML block line less indented than the content ends it; a deeper
/// line loses the content indent; a shallower one (a lazy continuation, or
/// a nested marker at one consistent indent) stays verbatim. `Err` on a
/// tab before non-marker text, a marker of the list's kind at its indent
/// inside (mixed markers), or a continuation marker out of place.
pub open spec fn item_rest(
    lines: Seq<Vec<char>>,
    i: int,
    base: int,
    ordered: bool,
    col: int,
    shallow: Option<int>,
) -> Result<(Seq<Seq<char>>, bool, bool, bool, int), &'static str>
    decreases lines.len() - i,
{
    let n = lines.len() as int;
    if i < 0 || i >= n {
        Ok((Seq::empty(), false, false, false, i))
    } else {
        let raw = lines[i]@;
        if blank_spec(raw) {
            let j = blank_run_end(lines, i);
            if j < n && item_line_spec(lines[j]@, base, ordered) {
                Ok((Seq::empty(), false, true, true, j))
            } else if j < n && !(lines[j]@.len() > 0 && lines[j]@[0] == '\t') && lead_run(
                lines[j]@,
                0,
                false,
            ) >= col && i < j {
                prefix_line(
                    Seq::new((j - i) as nat, |k: int| Seq::<char>::empty()),
                    true,
                    item_rest(lines, j, base, ordered, col, shallow),
                )
            } else {
                Ok((Seq::empty(), false, false, false, i))
            }
        } else {
            match expand_spec(raw) {
                None => Err("list-tab-indent"),
                Some(l) => {
                    let lead = lead_run(l, 0, false);
                    let marker = list_marker_spec(l.subrange(lead, l.len() as int));
                    if item_line_spec(l, base, ordered) {
                        Ok((Seq::empty(), false, true, false, i))
                    } else if lead < col && (crate::lines::is_hr_trimmed(trim_ws_spec(l))
                        || ial_start_spec(l) || crate::html_block::html_block_start_spec(l)) {
                        Ok((Seq::empty(), false, false, false, i))
                    } else if lead == base && marker is Some {
                        Err("mixed-list-markers")
                    } else if lead >= col {
                        prefix_line(
                            seq![l.subrange(col, l.len() as int)],
                            false,
                            item_rest(lines, i + 1, base, ordered, col, shallow),
                        )
                    } else if marker is Some && (lead < base || marker == Some(ordered)) {
                        Err("list-continuation")
                    } else if marker is Some && shallow is Some && shallow->0 != lead {
                        Err("list-indent-mixed")
                    } else {
                        let sh2 = if marker is Some && shallow is None {
                            Some(lead)
                        } else {
                            shallow
                        };
                        prefix_line(seq![l], false, item_rest(lines, i + 1, base, ordered, col, sh2))
                    }
                },
            }
        }
    }
}

/// The list item whose marker line is `lines[start]`: its first line is the
/// text after the marker, the rest as `item_rest` reads them.
pub open spec fn item_spec(lines: Seq<Vec<char>>, start: int, base: int, ordered: bool) -> Result<
    (Seq<Seq<char>>, bool, bool, bool, int),
    &'static str,
> {
    let first = lines[start]@;
    if !(base <= first.len() && list_marker_spec(first.subrange(base, first.len() as int)) == Some(
        ordered,
    )) {
        Err("list")
    } else {
        let lb = first.subrange(base, first.len() as int);
        let content = strip_lead(lb.subrange(crate::lines::marker_len(lb, ordered), lb.len() as int), true);
        let col = base + lb.len() - content.len();
        prefix_line(seq![content], false, item_rest(lines, start + 1, base, ordered, col, None))
    }
}

/// The lines of one list item starting at `lines[start]` (a marker line of
/// the list): the de-indented content lines, lazy continuations verbatim,
/// and interior blank lines. Returns the item's lines, whether a blank line
/// separates blocks inside it, whether another item follows (and whether
/// across a blank line), and the index after the item.
/// Append `count` empty lines.
fn push_empty_lines(item: &mut Vec<Vec<char>>, count: usize)
    ensures
        crate::lines::views(final(item)@) == crate::lines::views(old(item)@) + Seq::new(
            count as nat,
            |k: int| Seq::<char>::empty(),
        ),
{
    let ghost pre = crate::lines::views(item@);
    let mut b: usize = 0;
    assert(pre + Seq::new(0, |k: int| Seq::<char>::empty()) =~= pre);
    while b < count
        invariant
            b <= count,
            crate::lines::views(item@) == pre + Seq::new(b as nat, |k: int| Seq::<char>::empty()),
        decreases count - b,
    {
        let ghost before = item@;
        let e: Vec<char> = Vec::new();
        assert(e@ =~= Seq::<char>::empty());
        item.push(e);
        b = b + 1;
        proof {
            assert(crate::lines::views(item@) =~= crate::lines::views(before).push(
                Seq::<char>::empty(),
            ));
            assert(crate::lines::views(item@) =~= pre + Seq::new(
                b as nat,
                |k: int| Seq::<char>::empty(),
            ));
        }
    }
}

#[verifier::rlimit(100)]
#[verifier::spinoff_prover]
pub fn collect_item(lines: &Vec<Vec<char>>, start: usize, base: usize, ordered: bool) -> (r: Result<
    (Vec<Vec<char>>, bool, bool, bool, usize),
    Error,
>)
    requires
        start < lines@.len(),
    ensures
        r matches Ok((_, _, _, _, e)) ==> start < e <= lines@.len(),
        match item_spec(lines@, start as int, base as int, ordered) {
            Err(w) => crate::inline::declines_as(r, w),
            Ok((ls, ib, ni, ba, e)) => r matches Ok((v, ib2, ni2, ba2, e2)) && crate::lines::views(v@)
                == ls && ib2 == ib && ni2 == ni && ba2 == ba && e2 == e,
        },
{
    let n = lines.len();
    let first = lines[start].as_slice();
    if !(base <= first.len() && list_marker(&first[base..first.len()]) == Some(ordered)) {
        return Err(declined("list"));
    }
    let lb = &first[base..first.len()];
    let content = strip_marker(lb, ordered);
    let content_col = base + (lb.len() - content.len());
    let mut item: Vec<Vec<char>> = Vec::new();
    item.push(to_vec(content));
    let ghost total = item_spec(lines@, start as int, base as int, ordered);
    let mut i = start + 1;
    let mut internal_blank = false;
    let mut next_item = false;
    let mut blank_after = false;
    let mut shallow: Option<usize> = None;
    let mut done = false;
    proof {
        assert(crate::lines::views(item@) =~= seq![content@]);
    }
    while i < n && !done
        invariant
            start < i <= n,
            n == lines@.len(),
            total == item_spec(lines@, start as int, base as int, ordered),
            !done ==> total == prefix_line(
                crate::lines::views(item@),
                internal_blank,
                item_rest(
                    lines@,
                    i as int,
                    base as int,
                    ordered,
                    content_col as int,
                    match shallow {
                        Some(x) => Some(x as int),
                        None => None,
                    },
                ),
            ),
            done ==> total == Ok::<_, &'static str>(
                (crate::lines::views(item@), internal_blank, next_item, blank_after, i as int),
            ),
            !done ==> !next_item && !blank_after,
        decreases n - i, if done { 0int } else { 1int },
    {
        let ghost sh = match shallow {
            Some(x) => Some(x as int),
            None => None::<int>,
        };
        let ghost pre = crate::lines::views(item@);
        let raw = lines[i].as_slice();
        if is_blank(raw) {
            let mut j = i;
            while j < n && is_blank(lines[j].as_slice())
                invariant
                    i <= j <= n,
                    n == lines@.len(),
                    blank_run_end(lines@, i as int) == blank_run_end(lines@, j as int),
                decreases n - j,
            {
                j = j + 1;
            }
            if j < n && is_item_line(lines[j].as_slice(), base, ordered) {
                next_item = true;
                blank_after = true;
                i = j;
                done = true;
                proof {
                    assert(pre + Seq::<Seq<char>>::empty() =~= pre);
                }
            } else if j < n && !starts_with_char(lines[j].as_slice(), '\t') && lead_count(
                lines[j].as_slice(),
                false,
            ) >= content_col {
                push_empty_lines(&mut item, j - i);
                proof {
                    match item_rest(lines@, j as int, base as int, ordered, content_col as int, sh) {
                        Ok((ls, bb, ni, ba, e)) => {
                            assert(pre + (Seq::new((j - i) as nat, |k: int| Seq::<char>::empty()) + ls)
                                =~= (pre + Seq::new((j - i) as nat, |k: int| Seq::<char>::empty()))
                                + ls);
                        },
                        Err(_) => {},
                    }
                }
                internal_blank = true;
                i = j;
            } else {
                done = true;
                proof {
                    assert(pre + Seq::<Seq<char>>::empty() =~= pre);
                }
            }
        } else {
            let lv = match expand_tab(raw) {
                Ok(v) => v,
                Err(e) => {
                    return Err(e);
                },
            };
            let l = lv.as_slice();
            let lead = lead_count(l, false);
            if is_item_line(l, base, ordered) {
                next_item = true;
                done = true;
                proof {
                    assert(pre + Seq::<Seq<char>>::empty() =~= pre);
                }
            } else if lead < content_col && (is_hr(l) || is_ial_start(l) || starts_html_block(l)) {
                done = true;
                proof {
                    assert(pre + Seq::<Seq<char>>::empty() =~= pre);
                }
            } else {
                let rest = &l[lead..l.len()];
                let marker = list_marker(rest);
                if lead == base && marker.is_some() {
                    return Err(declined("mixed-list-markers"));
                }
                if lead >= content_col {
                    let piece = to_vec(&l[content_col..l.len()]);
                    let ghost pv = piece@;
                    item.push(piece);
                    i = i + 1;
                    proof {
                        assert(crate::lines::views(item@) =~= pre + seq![pv]);
                        match item_rest(lines@, i as int, base as int, ordered, content_col as int, sh) {
                            Ok((ls, bb, ni, ba, e)) => {
                                assert(pre + (seq![pv] + ls) =~= (pre + seq![pv]) + ls);
                            },
                            Err(_) => {},
                        }
                    }
                } else {
                    if marker.is_some() {
                        if lead < base || marker == Some(ordered) {
                            return Err(declined("list-continuation"));
                        }
                        match shallow {
                            Some(s) => {
                                if s != lead {
                                    return Err(declined("list-indent-mixed"));
                                }
                            },
                            None => {
                                shallow = Some(lead);
                            },
                        }
                    }
                    let ghost pv = lv@;
                    item.push(lv);
                    i = i + 1;
                    proof {
                        assert(crate::lines::views(item@) =~= pre + seq![pv]);
                        let sh2 = match shallow {
                            Some(x) => Some(x as int),
                            None => None::<int>,
                        };
                        match item_rest(lines@, i as int, base as int, ordered, content_col as int, sh2) {
                            Ok((ls, bb, ni, ba, e)) => {
                                assert(pre + (seq![pv] + ls) =~= (pre + seq![pv]) + ls);
                            },
                            Err(_) => {},
                        }
                    }
                }
            }
        }
    }
    proof {
        if !done {
            assert(crate::lines::views(item@) + Seq::<Seq<char>>::empty() =~= crate::lines::views(item@));
        }
    }
    Ok((item, internal_blank, next_item, blank_after, i))
}

/// The paragraph rule at `k`: a paragraph there is followed only by a
/// blank-run marker or nothing (loose), or stands first (tight).
pub open spec fn para_placed(bs: Seq<Block>, k: int, loose: bool) -> bool {
    bs[k].kind is Para ==> if loose {
        k + 1 >= bs.len() || bs[k + 1].kind is Blank
    } else {
        k == 0
    }
}

pub open spec fn item_shape_spec(bs: Seq<Block>, loose: bool) -> bool {
    forall|k: int| 0 <= k < bs.len() ==> #[trigger] para_placed(bs, k, loose)
}

/// Kramdown's per-item shape rules this library renders uniformly: in a
/// loose list a paragraph is followed only by a blank-run marker (or
/// nothing); in a tight list only an item's first block may be a
/// paragraph.
pub fn item_shape_ok(blocks: &Vec<Block>, loose: bool) -> (r: bool)
    ensures
        r == item_shape_spec(blocks@, loose),
{
    let mut k: usize = 0;
    while k < blocks.len()
        invariant
            k <= blocks@.len(),
            forall|j: int| 0 <= j < k ==> #[trigger] para_placed(blocks@, j, loose),
        decreases blocks@.len() - k,
    {
        let is_para = match &blocks[k].kind {
            BlockKind::Para(_) => true,
            _ => false,
        };
        if is_para {
            if loose {
                if k + 1 < blocks.len() && !blocks[k + 1].kind.is_blank() {
                    assert(!para_placed(blocks@, k as int, loose));
                    return false;
                }
            } else if k > 0 {
                assert(!para_placed(blocks@, k as int, loose));
                return false;
            }
        }
        k = k + 1;
    }
    true
}

/// The items of a list from line `i` (`bb`: a blank line came before the
/// item; `more`: another item follows): each item's looseness (a blank
/// inside, before or after it) and where the list ends; `Err` where an
/// item cannot be collected.
pub open spec fn list_chain(
    lines: Seq<Vec<char>>,
    i: int,
    base: int,
    ordered: bool,
    bb: bool,
    more: bool,
) -> Result<(Seq<bool>, int), &'static str>
    decreases lines.len() - i,
{
    if !(more && 0 <= i < lines.len()) {
        Ok((Seq::empty(), i))
    } else {
        match item_spec(lines, i, base, ordered) {
            Err(w) => Err(w),
            Ok((_, ib, ni, ba, e)) => if i < e <= lines.len() {
                match list_chain(lines, e, base, ordered, ba, ni) {
                    Err(w) => Err(w),
                    Ok((ls, end)) => Ok((seq![ib || bb || ba] + ls, end)),
                }
            } else {
                Err("list")
            },
        }
    }
}

/// For each item of the list from line `i`, whether a blank line comes
/// before it (`bb` for the first); an item without one abuts the item
/// before it.
pub open spec fn list_befores(
    lines: Seq<Vec<char>>,
    i: int,
    base: int,
    ordered: bool,
    bb: bool,
    more: bool,
) -> Seq<bool>
    decreases lines.len() - i,
{
    if !(more && 0 <= i < lines.len()) {
        Seq::empty()
    } else {
        match item_spec(lines, i, base, ordered) {
            Err(_) => Seq::empty(),
            Ok((_, _, ni, ba, e)) => if i < e <= lines.len() {
                seq![bb] + list_befores(lines, e, base, ordered, ba, ni)
            } else {
                Seq::empty()
            },
        }
    }
}

/// The lines of each item of the list from line `i`.
pub open spec fn list_item_lines(
    lines: Seq<Vec<char>>,
    i: int,
    base: int,
    ordered: bool,
    more: bool,
) -> Seq<Seq<Seq<char>>>
    decreases lines.len() - i,
{
    if !(more && 0 <= i < lines.len()) {
        Seq::empty()
    } else {
        match item_spec(lines, i, base, ordered) {
            Err(_) => Seq::empty(),
            Ok((ls, _, ni, _, e)) => if i < e <= lines.len() {
                seq![ls] + list_item_lines(lines, e, base, ordered, ni)
            } else {
                Seq::empty()
            },
        }
    }
}

/// An item of prose: one or more lines, each a line of words.
pub open spec fn prose_item(ls: Seq<Seq<char>>) -> bool {
    ls.len() > 0 && forall|k: int| 0 <= k < ls.len() ==> word_line(#[trigger] ls[k])
}

proof fn lemma_list_rel_err(
    lines: Seq<Vec<char>>,
    start: int,
    base: int,
    ordered: bool,
    fuel: usize,
    r: Result<(BlockKind, usize), Error>,
)
    requires
        r is Err,
        fuel > 0,
        !prose_items(lines, start, base, ordered),
    ensures
        list_chain_rel(lines, start, base, ordered, fuel, r),
{
    reveal(list_chain_rel);
}

/// An item of prose parses as one paragraph of its lines joined.
proof fn lemma_prose_item_chunks(ls: Seq<Seq<char>>)
    requires
        prose_item(ls),
    ensures
        prose_lines(ls),
        prose_chunks(ls, 0) == seq![Some(join_nl(ls))],
{
    lemma_word_run(ls, 0);
    let j = word_run_end(ls, 0);
    if j < ls.len() {
        assert(word_line(ls[j]));
    }
    assert(ls.subrange(0, j) =~= ls);
    assert(prose_chunks(ls, j) == Seq::<Option<Seq<char>>>::empty());
    assert(seq![Some(join_nl(ls))] + Seq::<Option<Seq<char>>>::empty() =~= seq![Some(join_nl(ls))]);
}

/// A list's looseness flags before the chain from some item on.
pub open spec fn chain_after(pre: Seq<bool>, c: Result<(Seq<bool>, int), &'static str>) -> Result<
    (Seq<bool>, int),
    &'static str,
> {
    match c {
        Err(w) => Err(w),
        Ok((ls, end)) => Ok((pre + ls, end)),
    }
}

/// A parsed list spans the item chain from `start`: one item per chain
/// entry, all equally loose, ending where the chain ends, and in a loose
/// list no item abuts the one before it. A list whose items are all prose,
/// equally loose and (when loose) blank-separated parses, each item one
/// paragraph of its lines joined; a list of prose items that mixes loose
/// and tight items declines as such. Where the chain
/// breaks, or no nesting depth is left, the list declines.
#[verifier::opaque]
pub open spec fn list_chain_rel(
    lines: Seq<Vec<char>>,
    start: int,
    base: int,
    ordered: bool,
    fuel: usize,
    r: Result<(BlockKind, usize), Error>,
) -> bool {
    &&& fuel == 0 ==> crate::inline::declines_as(r, "nesting-depth")
    &&& list_chain(lines, start, base, ordered, false, true) is Err ==> r is Err
    &&& (list_chain(lines, start, base, ordered, false, true) matches Ok((ls, _)) && !((forall|j: int|
        0 <= j < ls.len() ==> #[trigger] ls[j] == ls[0]) && (ls[0] ==> forall|j: int|
        0 < j < ls.len() ==> #[trigger] list_befores(lines, start, base, ordered, false, true)[j])))
        ==> r is Err
    &&& r matches Ok((k, e)) ==> (list_chain(lines, start, base, ordered, false, true) matches Ok(
        (ls, end),
    ) && e == end && (k matches BlockKind::List { loose, items, .. } && items@.len() == ls.len()
        && ls.len() > 0 && (forall|j: int| 0 <= j < ls.len() ==> ls[j] == loose) && (loose
        ==> forall|j: int|
        0 < j < ls.len() ==> #[trigger] list_befores(lines, start, base, ordered, false, true)[j])))
    &&& (fuel > 0 && prose_items(lines, start, base, ordered) && !evenly_loose(lines, start, base, ordered))
        ==> crate::inline::declines_as(r, "mixed-loose-tight-list")
    &&& (fuel > 0 && prose_list(lines, start, base, ordered)) ==> (r matches Ok((k, _)) && (
    k matches BlockKind::List { items, .. } && forall|j: int|
        0 <= j < items@.len() ==> #[trigger] chunks_of(items@[j].blocks@) == seq![
            Some(join_nl(list_item_lines(lines, start, base, ordered, true)[j])),
        ]))
}

/// The list from `start` has an item chain, and every item is prose.
pub open spec fn prose_items(lines: Seq<Vec<char>>, start: int, base: int, ordered: bool) -> bool {
    let ils = list_item_lines(lines, start, base, ordered, true);
    &&& list_chain(lines, start, base, ordered, false, true) is Ok
    &&& forall|j: int| 0 <= j < ils.len() ==> #[trigger] prose_item(ils[j])
}

/// The items of the chain from `start` are all equally loose and, when
/// loose, each after the first has a blank line before it.
pub open spec fn evenly_loose(lines: Seq<Vec<char>>, start: int, base: int, ordered: bool) -> bool {
    let bef = list_befores(lines, start, base, ordered, false, true);
    list_chain(lines, start, base, ordered, false, true) matches Ok((ls, _)) && (forall|j: int|
        0 <= j < ls.len() ==> #[trigger] ls[j] == ls[0]) && (ls[0] ==> forall|j: int|
        0 < j < ls.len() ==> #[trigger] bef[j])
}

/// The list from `start` is a clean list of prose: its item chain holds,
/// all items are equally loose and (when loose) blank-separated, and every
/// item is prose.
pub open spec fn prose_list(lines: Seq<Vec<char>>, start: int, base: int, ordered: bool) -> bool {
    prose_items(lines, start, base, ordered) && evenly_loose(lines, start, base, ordered)
}

/// What a list from `start` may decline with: the nesting depth when
/// none is left; the reason of the first item the chain cannot collect;
/// the decline of an item's lines; `mixed-loose-tight-list` when the items
/// are not evenly loose; `list-item-shape` when an item's blocks take a
/// shape outside the subset.
pub open spec fn list_decline_reason(
    defs: Seq<LinkDef>,
    opts: Options,
    lines: Seq<Vec<char>>,
    start: int,
    base: int,
    ordered: bool,
    fuel: usize,
    e: Error,
) -> bool {
    let ils = list_item_lines(lines, start, base, ordered, true);
    let chain = list_chain(lines, start, base, ordered, false, true);
    ||| fuel == 0 && e == Error::Declined("nesting-depth")
    ||| fuel > 0 && (chain matches Err(w) && e == Error::Declined(w))
    ||| fuel > 0 && exists|iv: Seq<Vec<char>>|
        #[trigger] blocks_rel(defs, iv, opts, true, (fuel - 1) as usize, Err::<Seq<Block>, Error>(e))
            && ils.contains(crate::lines::views(iv))
    ||| fuel > 0 && !evenly_loose(lines, start, base, ordered) && e == Error::Declined("mixed-loose-tight-list")
    ||| fuel > 0 && (exists|j: int, bs: Seq<Block>|
        0 <= j < ils.len() && #[trigger] crate::block_model::item_parse(
            defs,
            opts,
            (fuel - 1) as usize,
            list_item_lines(lines, start, base, ordered, true)[j],
            bs,
        ) && !item_shape_spec(bs, chain->Ok_0.0[0])) && e == Error::Declined("list-item-shape")
}

/// Parse a list whose first marker line is `lines[start]` at indent `base`.
/// Items are parsed recursively as block sequences. A list mixing loose
/// (blank-separated) and tight items, or with item shapes outside the
/// subset, declines.
#[verifier::rlimit(80)]
#[verifier::spinoff_prover]
pub fn parse_list(
    defs: &Vec<LinkDef>,
    lines: &Vec<Vec<char>>,
    start: usize,
    base: usize,
    ordered: bool,
    opts: Options,
    fuel: usize,
) -> (r: Result<(BlockKind, usize), Error>)
    requires
        start < lines@.len(),
    ensures
        r matches Ok((k, e)) ==> start < e <= lines@.len() && (k matches BlockKind::List {
            toc,
            ..
        } && !toc) && items_ok(k),
        r matches Ok((k, _)) ==> (k matches BlockKind::List { ordered: o, loose, items, .. } && o
            == ordered && items@.len() >= 1 && forall|j: int|
            0 <= j < items@.len() ==> #[trigger] item_shape_spec(items@[j].blocks@, loose)),
        list_chain_rel(lines@, start as int, base as int, ordered, fuel, r),
        r matches Ok((k, _)) ==> (k matches BlockKind::List { items, .. } && forall|j: int|
            0 <= j < items@.len() ==> #[trigger] crate::block_model::item_parse(
                defs@,
                opts,
                (fuel - 1) as usize,
                list_item_lines(lines@, start as int, base as int, ordered, true)[j],
                items@[j].blocks@,
            )),
        r matches Err(e) ==> list_decline_reason(defs@, opts, lines@, start as int, base as int, ordered, fuel, e),
    decreases fuel, 0nat,
{
    reveal(list_chain_rel);
    if fuel == 0 {
        return Err(declined("nesting-depth"));
    }
    let n = lines.len();
    let mut items: Vec<Item> = Vec::new();
    let mut looses: Vec<bool> = Vec::new();
    let mut befores: Vec<bool> = Vec::new();
    let mut blank_before = false;
    let mut i = start;
    let mut more = true;
    assert(befores@ + list_befores(lines@, i as int, base as int, ordered, blank_before, more)
        =~= list_befores(lines@, i as int, base as int, ordered, blank_before, more));
    let ghost ils = list_item_lines(lines@, start as int, base as int, ordered, true);
    let ghost chain0 = list_chain(lines@, start as int, base as int, ordered, false, true);
    let ghost bef0 = list_befores(lines@, start as int, base as int, ordered, false, true);
    let ghost good = prose_list(lines@, start as int, base as int, ordered);
    let ghost pit = prose_items(lines@, start as int, base as int, ordered);
    let ghost mut pre: Seq<Seq<Seq<char>>> = Seq::empty();
    assert(pre + ils =~= ils);
    while more && i < n
        invariant
            ils == list_item_lines(lines@, start as int, base as int, ordered, true),
            chain0 == list_chain(lines@, start as int, base as int, ordered, false, true),
            bef0 == list_befores(lines@, start as int, base as int, ordered, false, true),
            good == prose_list(lines@, start as int, base as int, ordered),
            pit == prose_items(lines@, start as int, base as int, ordered),
            pre.len() == items@.len(),
            ils == pre + list_item_lines(lines@, i as int, base as int, ordered, more),
            forall|j: int|
                0 <= j < items@.len() ==> #[trigger] crate::block_model::item_parse(
                    defs@,
                    opts,
                    (fuel - 1) as usize,
                    pre[j],
                    items@[j].blocks@,
                ),
            pit ==> forall|j: int|
                0 <= j < items@.len() ==> (#[trigger] items@[j]).blocks@.len() == 1
                    && items@[j].blocks@[0].kind is Para && chunks_of(items@[j].blocks@) == seq![
                    Some(join_nl(pre[j])),
                ],
            start <= i <= n,
            n == lines@.len(),
            fuel > 0,
            i == start ==> more,
            (items@.len() == 0) == (i == start),
            looses@.len() == items@.len(),
            befores@.len() == items@.len(),
            list_befores(lines@, start as int, base as int, ordered, false, true) == befores@
                + list_befores(lines@, i as int, base as int, ordered, blank_before, more),
            forall|j: int| 0 <= j < items@.len() ==> #[trigger] edges_ok(items@[j].blocks@),
            list_chain(lines@, start as int, base as int, ordered, false, true) == chain_after(
                looses@,
                list_chain(lines@, i as int, base as int, ordered, blank_before, more),
            ),
        decreases n - i,
    {
        let (item_lines, internal_blank, next_item, blank_after, e) = match collect_item(
            lines,
            i,
            base,
            ordered,
        ) {
            Ok(x) => x,
            Err(err) => {
                proof {
                    lemma_list_rel_err(lines@, start as int, base as int, ordered, fuel, Err(err));
                    assert(list_chain(lines@, start as int, base as int, ordered, false, true) is Err);
                }
                return Err(err);
            },
        };
        let ghost il = crate::lines::views(item_lines@);
        proof {
            assert(list_item_lines(lines@, i as int, base as int, ordered, more) =~= seq![il]
                + list_item_lines(lines@, e as int, base as int, ordered, next_item));
            assert(ils[pre.len() as int] == il);
            if pit {
                assert(prose_item(ils[pre.len() as int]));
                lemma_prose_item_chunks(il);
            }
        }
        let mut blocks = match parse_blocks(defs, &item_lines, opts, true, fuel - 1) {
            Ok(b) => b,
            Err(err) => {
                proof {
                    lemma_list_rel_err(lines@, start as int, base as int, ordered, fuel, Err(err));
                    assert(ils[pre.len() as int] == crate::lines::views(item_lines@));
                    assert(ils.contains(crate::lines::views(item_lines@)));
                    assert(blocks_rel(defs@, item_lines@, opts, true, (fuel - 1) as usize, Err::<Seq<Block>, Error>(err)));
                }
                return Err(err);
            },
        };
        let ghost bs0 = blocks@;
        proof {
            assert(crate::lines::views(item_lines@) == il);
            if pit {
                assert(chunks_of(bs0).len() == bs0.len());
                assert(chunks_of(bs0)[0] == chunk_of(bs0[0]));
                assert(crate::block::prose_block(bs0[0]));
                assert(bs0[0].kind is Para);
                assert(blank_tail(bs0, 1) == 1);
                assert(blank_head(bs0, 0, 1) == 0);
            }
        }
        strip_blanks(&mut blocks);
        proof {
            if pit {
                assert(blocks@ =~= bs0);
            }
            assert(blocks@ == crate::block_model::trimmed(bs0));
            crate::block_model::lemma_item_parse(defs@, opts, (fuel - 1) as usize, item_lines@, bs0, blocks@);
        }
        let ghost old_items = items@;
        let ghost bl = blocks@;
        assert(edges_ok(bl));
        items.push(Item { blocks });
        proof {
            assert(items@[old_items.len() as int].blocks@ == bl);
            assert forall|j: int| 0 <= j < items@.len() implies #[trigger] edges_ok(
                items@[j].blocks@,
            ) by {
                if j < old_items.len() {
                    assert(items@[j] == old_items[j]);
                    assert(edges_ok(old_items[j].blocks@));
                }
            }
        }
        let ghost l0 = looses@;
        let ghost c1 = list_chain(lines@, e as int, base as int, ordered, blank_after, next_item);
        looses.push(internal_blank || blank_before || blank_after);
        let ghost b0 = befores@;
        befores.push(blank_before);
        proof {
            assert(befores@ + list_befores(lines@, e as int, base as int, ordered, blank_after, next_item)
                =~= b0 + (seq![blank_before] + list_befores(
                lines@,
                e as int,
                base as int,
                ordered,
                blank_after,
                next_item,
            )));
            match c1 {
                Ok((ls, end)) => {
                    assert(looses@ + ls =~= l0 + (seq![internal_blank || blank_before || blank_after]
                        + ls));
                },
                Err(_) => {},
            }
        }
        proof {
            let p0 = pre;
            pre = pre.push(il);
            assert(ils =~= pre + list_item_lines(lines@, e as int, base as int, ordered, next_item));
            assert forall|j: int| 0 <= j < items@.len() implies #[trigger] crate::block_model::item_parse(
                defs@,
                opts,
                (fuel - 1) as usize,
                pre[j],
                items@[j].blocks@,
            ) by {
                if j < old_items.len() {
                    assert(items@[j] == old_items[j]);
                    assert(pre[j] == p0[j]);
                }
            }
            if pit {
                assert forall|j: int| 0 <= j < items@.len() implies (#[trigger] items@[j]).blocks@.len()
                    == 1 && items@[j].blocks@[0].kind is Para && chunks_of(items@[j].blocks@) == seq![
                    Some(join_nl(pre[j])),
                ] by {
                    if j < old_items.len() {
                        assert(items@[j] == old_items[j]);
                        assert(pre[j] == p0[j]);
                    }
                }
            }
        }
        blank_before = blank_after;
        more = next_item;
        i = e;
    }
    assert(list_chain(lines@, i as int, base as int, ordered, blank_before, more) == Ok::<
        (Seq<bool>, int),
        &'static str,
    >((Seq::empty(), i as int)));
    assert(looses@ + Seq::<bool>::empty() =~= looses@);
    assert(befores@ + Seq::<bool>::empty() =~= befores@);
    assert(list_befores(lines@, start as int, base as int, ordered, false, true) == befores@);
    proof {
        if looses.len() == 0 {
            assert(evenly_loose(lines@, start as int, base as int, ordered));
        }
    }
    if i == start || looses.len() == 0 {
        proof {
            assert(false);
        }
        return Err(declined("list"));
    }
    let loose = looses[0];
    let mut k: usize = 0;
    while k < items.len()
        invariant
            k <= items@.len(),
            looses@.len() == items@.len(),
            forall|j: int| 0 <= j < k ==> #[trigger] item_shape_spec(items@[j].blocks@, loose),
            forall|j: int| 0 <= j < k ==> #[trigger] looses@[j] == loose,
            list_chain(lines@, start as int, base as int, ordered, false, true) == Ok::<
                (Seq<bool>, int),
                &'static str,
            >((looses@, i as int)),
            loose == looses@[0],
            befores@.len() == items@.len(),
            list_befores(lines@, start as int, base as int, ordered, false, true) == befores@,
            loose ==> forall|j: int| 0 < j < k ==> #[trigger] befores@[j],
            bef0 == befores@,
            fuel > 0,
            ils == list_item_lines(lines@, start as int, base as int, ordered, true),
            pre =~= ils,
            good == prose_list(lines@, start as int, base as int, ordered),
            pit == prose_items(lines@, start as int, base as int, ordered),
            chain0 == Ok::<(Seq<bool>, int), &'static str>((looses@, i as int)),
            pre.len() == items@.len(),
            forall|j: int|
                0 <= j < items@.len() ==> #[trigger] crate::block_model::item_parse(
                    defs@,
                    opts,
                    (fuel - 1) as usize,
                    pre[j],
                    items@[j].blocks@,
                ),
            pit ==> forall|j: int|
                0 <= j < items@.len() ==> (#[trigger] items@[j]).blocks@.len() == 1
                    && items@[j].blocks@[0].kind is Para && chunks_of(items@[j].blocks@) == seq![
                    Some(join_nl(pre[j])),
                ],
        decreases items@.len() - k,
    {
        proof {
            reveal(list_chain_rel);
        }
        proof {
            if good {
                assert(looses@[k as int] == looses@[0]);
                if loose && k > 0 {
                    assert(bef0[k as int]);
                }
            }
            if pit {
                let bl = items@[k as int].blocks@;
                assert(bl.len() == 1);
                assert(item_shape_spec(bl, loose)) by {
                    assert forall|q: int| 0 <= q < bl.len() implies #[trigger] para_placed(
                        bl,
                        q,
                        loose,
                    ) by {
                        assert(q == 0);
                    }
                }
            }
        }
        if looses[k] != loose || (loose && k > 0 && !befores[k]) {
            proof {
                assert(bef0[k as int] == befores@[k as int]);
                assert(!evenly_loose(lines@, start as int, base as int, ordered));
            }
            return Err(declined("mixed-loose-tight-list"));
        }
        if !item_shape_ok(&items[k].blocks, loose) {
            proof {
                assert(pre[k as int] == ils[k as int]);
                assert(0 <= k < ils.len());
                assert(!item_shape_spec(items@[k as int].blocks@, loose));
                assert(list_chain(lines@, start as int, base as int, ordered, false, true)->Ok_0.0[0] == loose);
                assert(crate::block_model::item_parse(defs@, opts, (fuel - 1) as usize, ils[k as int], items@[k as int].blocks@));
                assert(list_decline_reason(defs@, opts, lines@, start as int, base as int, ordered, fuel, Error::Declined("list-item-shape")));
            }
            return Err(declined("list-item-shape"));
        }
        k = k + 1;
    }
    proof {
        assert(evenly_loose(lines@, start as int, base as int, ordered));
        assert forall|j: int| 0 <= j < items@.len() implies #[trigger] crate::block_model::item_parse(
            defs@,
            opts,
            (fuel - 1) as usize,
            ils[j],
            items@[j].blocks@,
        ) by {
            assert(pre[j] == ils[j]);
        }
    }
    Ok((BlockKind::List { ordered, loose, items, toc: false }, i))
}

/// What the block parser sees of a line of words: no blank, IAL, table,
/// HTML block, indented code, rule, fence, quote or list opener, and as a
/// paragraph it joins to itself.
proof fn lemma_word_line_block(l: Seq<char>)
    requires
        word_line(l),
    ensures
        !blank_spec(l),
        !ial_start_spec(l),
        ial_inner_spec(l) is None,
        split_cells_spec(l) is None,
        !table_pipe_from(l, 0, false),
        !has_prefix(l, "    "@),
        !has_prefix(l, "<!--"@),
        crate::html_block::leading_tag_spec(l) is None,
        !is_hr_trimmed_of(l),
        list_marker_spec(l) is None,
        !opt_space_spec(l, true),
        !opt_space_spec(l, false),
        lead_run(l, 0, false) == 0,
        crate::text::lead_ws(l, 0) == 0,
        l.subrange(0, l.len() as int) == l,
        crate::text::strip_trail(strip_lead(l, false), true) == l,
        plain_text(l),
{
    lemma_word_line_trimmed(l);
    lemma_word_line_no_cells(l);
    assert(!is_uni_ws(l[0]));
    reveal_strlit("    ");
    reveal_strlit("<!--");
    reveal_strlit("{:");
    reveal_strlit("{::");
    if l.len() >= 4 {
        assert(l.subrange(0, 4)[0] == l[0]);
    }
    if l.len() >= 2 {
        assert(l.subrange(0, 2)[0] == l[0]);
    }
    assert(l.subrange(0, l.len() as int) =~= l);
    assert forall|k: int| 0 <= k < l.len() implies !is_trigger_spec(#[trigger] l[k]) && l[k] != '\n' by {
        assert(crate::text::word_char(l[k]));
    }
}

/// Each line is a line of words or empty.
pub open spec fn prose_lines(ls: Seq<Seq<char>>) -> bool {
    forall|k: int| 0 <= k < ls.len() ==> word_line(#[trigger] ls[k]) || ls[k].len() == 0
}

/// The end of the run of word lines from `i`.
pub open spec fn word_run_end(ls: Seq<Seq<char>>, i: int) -> int
    decreases ls.len() - i,
{
    if 0 <= i < ls.len() && word_line(ls[i]) {
        word_run_end(ls, i + 1)
    } else {
        i
    }
}

/// The end of the run of empty lines from `i`.
pub open spec fn empty_run_end(ls: Seq<Seq<char>>, i: int) -> int
    decreases ls.len() - i,
{
    if 0 <= i < ls.len() && ls[i].len() == 0 {
        empty_run_end(ls, i + 1)
    } else {
        i
    }
}

proof fn lemma_word_run(ls: Seq<Seq<char>>, i: int)
    requires
        0 <= i <= ls.len(),
    ensures
        i <= word_run_end(ls, i) <= ls.len(),
        forall|k: int| i <= k < word_run_end(ls, i) ==> word_line(#[trigger] ls[k]),
        word_run_end(ls, i) < ls.len() ==> !word_line(ls[word_run_end(ls, i)]),
    decreases ls.len() - i,
{
    if i < ls.len() && word_line(ls[i]) {
        lemma_word_run(ls, i + 1);
    }
}

proof fn lemma_empty_run(ls: Seq<Seq<char>>, i: int)
    requires
        0 <= i <= ls.len(),
    ensures
        i <= empty_run_end(ls, i) <= ls.len(),
        forall|k: int| i <= k < empty_run_end(ls, i) ==> (#[trigger] ls[k]).len() == 0,
        empty_run_end(ls, i) < ls.len() ==> ls[empty_run_end(ls, i)].len() != 0,
    decreases ls.len() - i,
{
    if i < ls.len() && ls[i].len() == 0 {
        lemma_empty_run(ls, i + 1);
    }
}

/// Lines joined with newlines.
pub open spec fn join_nl(ls: Seq<Seq<char>>) -> Seq<char>
    decreases ls.len(),
{
    if ls.len() == 0 {
        Seq::empty()
    } else if ls.len() == 1 {
        ls[0]
    } else {
        join_nl(ls.drop_last()) + seq!['\n'] + ls.last()
    }
}

/// A paragraph gathered from word lines is their text joined with
/// newlines.
proof fn lemma_para_text_words(lines: Seq<Vec<char>>, start: int, k: int, e: int)
    requires
        0 <= start < k <= e <= lines.len(),
        forall|m: int| start <= m < e ==> word_line(#[trigger] lines[m]@),
    ensures
        para_text(lines, start, k, e) == join_nl(crate::lines::views(lines).subrange(start, k)),
    decreases k - start,
{
    let ls = crate::lines::views(lines);
    lemma_word_line_trimmed(lines[k - 1]@);
    assert(para_seg(lines, start, k - 1, e) == lines[k - 1]@);
    if k == start + 1 {
        assert(ls.subrange(start, k) =~= seq![lines[start]@]);
    } else {
        lemma_para_text_words(lines, start, k - 1, e);
        assert(ls.subrange(start, k).drop_last() =~= ls.subrange(start, k - 1));
    }
}

/// Text with no `&`, `<` or `>` (it escapes to itself).
pub open spec fn no_specials(t: Seq<char>) -> bool {
    forall|k: int| 0 <= k < t.len() ==> #[trigger] t[k] != '&' && t[k] != '<' && t[k] != '>'
}

/// A block of prose: a blank-run marker, or a paragraph of one text span
/// free of HTML specials; without attributes.
pub open spec fn prose_block(b: Block) -> bool {
    &&& b.ial@.len() == 0
    &&& (b.kind is Blank || (b.kind matches BlockKind::Para(sp) && sp@.len() == 1 && (sp@[0] matches Span::Text(
        t,
    ) && no_specials(t@))))
}

/// The prose chunk a block stands for: `None` for a blank-run marker, the
/// text of a paragraph.
pub open spec fn chunk_of(b: Block) -> Option<Seq<char>> {
    match b.kind {
        BlockKind::Para(sp) => match sp@[0] {
            Span::Text(t) => Some(t@),
            _ => None,
        },
        _ => None,
    }
}

pub open spec fn chunks_of(bs: Seq<Block>) -> Seq<Option<Seq<char>>> {
    bs.map_values(|b: Block| chunk_of(b))
}

/// The blocks of prose from line `i`: a run of empty lines is a blank-run
/// marker (`None`), a run of word lines one paragraph of their text joined
/// with newlines.
pub open spec fn prose_chunks(ls: Seq<Seq<char>>, i: int) -> Seq<Option<Seq<char>>>
    decreases ls.len() - i,
{
    if i < 0 || i >= ls.len() {
        Seq::empty()
    } else if ls[i].len() == 0 {
        let j = empty_run_end(ls, i);
        if j <= i || j > ls.len() {
            Seq::empty()
        } else {
            seq![None::<Seq<char>>] + prose_chunks(ls, j)
        }
    } else {
        let j = word_run_end(ls, i);
        if j <= i || j > ls.len() {
            Seq::empty()
        } else {
            seq![Some(join_nl(ls.subrange(i, j)))] + prose_chunks(ls, j)
        }
    }
}

/// No trigger char, and each newline right after a char other than a
/// space.
pub open spec fn joined_plain(t: Seq<char>) -> bool {
    forall|k: int|
        0 <= k < t.len() ==> !is_trigger_spec(#[trigger] t[k]) && (t[k] == '\n' ==> 0 < k && t[k
            - 1] != ' ')
}

proof fn lemma_joined_plain(t: Seq<char>)
    requires
        joined_plain(t),
    ensures
        plain_text(t),
{
    assert forall|k: int| 0 <= k < t.len() implies !is_trigger_spec(#[trigger] t[k]) && (t[k]
        == '\n' ==> !(2 <= k && t[k - 1] == ' ' && t[k - 2] == ' ')) by {
        assert(!is_trigger_spec(t[k]));
    }
}

/// Word lines joined with newlines are plain text (no span markup, no
/// hard break) without HTML specials, and not empty.
proof fn lemma_join_words(ls: Seq<Seq<char>>)
    requires
        ls.len() >= 1,
        forall|k: int| 0 <= k < ls.len() ==> word_line(#[trigger] ls[k]),
    ensures
        joined_plain(join_nl(ls)),
        plain_text(join_nl(ls)),
        no_specials(join_nl(ls)),
        join_nl(ls).len() > 0,
        is_ascii_alnum(join_nl(ls)[join_nl(ls).len() - 1]),
    decreases ls.len(),
{
    let j = join_nl(ls);
    let last = ls[ls.len() - 1];
    assert(word_line(last));
    if ls.len() == 1 {
        assert(j == last);
        assert forall|k: int| 0 <= k < j.len() implies !is_trigger_spec(#[trigger] j[k]) && (j[k]
            == '\n' ==> 0 < k && j[k - 1] != ' ') by {
            assert(crate::text::word_char(last[k]));
        }
        assert forall|k: int| 0 <= k < j.len() implies #[trigger] j[k] != '&' && j[k] != '<' && j[k]
            != '>' by {
            assert(crate::text::word_char(last[k]));
        }
    } else {
        let d = ls.drop_last();
        assert forall|k: int| 0 <= k < d.len() implies word_line(#[trigger] d[k]) by {
            assert(d[k] == ls[k]);
        }
        lemma_join_words(d);
        let a = join_nl(d);
        assert(j == a + seq!['\n'] + last);
        assert forall|k: int| 0 <= k < j.len() implies !is_trigger_spec(#[trigger] j[k]) && (j[k]
            == '\n' ==> 0 < k && j[k - 1] != ' ') by {
            if k < a.len() {
                assert(j[k] == a[k]);
                if a[k] == '\n' {
                    assert(!is_trigger_spec(a[k]) && (a[k] == '\n' ==> 0 < k && a[k - 1] != ' '));
                    assert(j[k - 1] == a[k - 1]);
                }
            } else if k == a.len() {
                assert(j[k - 1] == a[a.len() - 1]);
            } else {
                assert(j[k] == last[k - a.len() - 1]);
                assert(crate::text::word_char(last[k - a.len() - 1]));
            }
        }
        assert forall|k: int| 0 <= k < j.len() implies #[trigger] j[k] != '&' && j[k] != '<' && j[k]
            != '>' by {
            if k < a.len() {
                assert(j[k] == a[k]);
            } else if k > a.len() {
                assert(j[k] == last[k - a.len() - 1]);
                assert(crate::text::word_char(last[k - a.len() - 1]));
            }
        }
    }
    assert(joined_plain(j));
    lemma_joined_plain(j);
}

/// A rule line, read from the trimmed text.
spec fn is_hr_trimmed_of(l: Seq<char>) -> bool {
    crate::lines::is_hr_trimmed(trim_ws_spec(l))
}

/// Parse a sequence of lines into blocks. `nested` marks the body of a
/// blockquote or list item, where tables and HTML blocks are out of subset;
/// `fuel` bounds the nesting depth. The answer is the one the block grammar
/// (`block_model::blocks_rel`) relates to the lines.
#[verifier::rlimit(100)]
#[verifier::spinoff_prover]
pub fn parse_blocks(
    defs: &Vec<LinkDef>,
    lines: &Vec<Vec<char>>,
    opts: Options,
    nested: bool,
    fuel: usize,
) -> (r: Result<Vec<Block>, Error>)
    ensures
        r matches Ok(bs) ==> blocks_wf(bs@),
        lines@.len() == 0 ==> (r matches Ok(bs) && bs@.len() == 0),
        prose_lines(crate::lines::views(lines@)) ==> (r matches Ok(bs) && (forall|k: int|
            0 <= k < bs@.len() ==> #[trigger] prose_block(bs@[k])) && chunks_of(bs@) == prose_chunks(
            crate::lines::views(lines@),
            0,
        )),
        blocks_rel(defs@, lines@, opts, nested, fuel, res_seq(r)),
    decreases fuel, 1nat,
{
    let n = lines.len();
    let mut out: Vec<Block> = Vec::new();
    let mut pending: Vec<Attr> = Vec::new();
    let mut i: usize = 0;
    let ghost ls = crate::lines::views(lines@);
    let ghost prose = prose_lines(ls);
    let ghost dd = defs@;
    let ghost ll = lines@;
    proof {
        assert(chunks_of(out@) =~= Seq::<Option<Seq<char>>>::empty());
        assert(prose_chunks(ls, 0) =~= chunks_of(out@) + prose_chunks(ls, 0));
        assert(out@ =~= Seq::<Block>::empty());
        assert(pending@ =~= Seq::<Attr>::empty());
        reveal(blocks_rel);
        assert forall|rr: Result<Seq<Block>, Error>|
            #[trigger] blocks_from(dd, ll, opts, nested, fuel, 0, out@, pending@, rr)
                implies blocks_rel(dd, ll, opts, nested, fuel, rr) by {}
    }
    while i < n
        invariant
            i <= n,
            n == lines@.len(),
            blocks_wf(out@),
            (out@.len() > 0 && is_blank_kind(out@.last().kind) && i < n) ==> !blank_spec(
                lines@[i as int]@,
            ),
            n == 0 ==> out@.len() == 0 && pending@.len() == 0,
            ls == crate::lines::views(lines@),
            prose == prose_lines(ls),
            prose ==> pending@.len() == 0 && (forall|k: int|
                0 <= k < out@.len() ==> #[trigger] prose_block(out@[k])) && prose_chunks(ls, 0)
                == chunks_of(out@) + prose_chunks(ls, i as int),
            dd == defs@,
            ll == lines@,
            forall|rr: Result<Seq<Block>, Error>|
                #[trigger] blocks_from(dd, ll, opts, nested, fuel, i as int, out@, pending@, rr)
                    ==> blocks_rel(dd, ll, opts, nested, fuel, rr),
        decreases n - i,
    {
        let ghost out0 = out@;
        let ghost p0 = pending@;
        let ghost i0 = i as int;
        let ghost l = ll[i0]@;
        proof {
            if prose {
                let l = ls[i as int];
                assert(l == lines@[i as int]@);
                if word_line(l) {
                    lemma_word_line_block(l);
                    lemma_word_run(ls, i as int);
                } else {
                    assert(l.len() == 0);
                    lemma_empty_run(ls, i as int);
                }
            }
        }
        let line = lines[i].as_slice();
        if is_blank(line) {
            i = i + 1;
            while i < n && is_blank(lines[i].as_slice())
                invariant
                    i0 < i <= n,
                    n == lines@.len(),
                    ls == crate::lines::views(lines@),
                    prose == prose_lines(ls),
                    prose ==> ls[i0 as int].len() == 0 && empty_run_end(ls, i0 as int) == empty_run_end(
                        ls,
                        i as int,
                    ),
                    ll == lines@,
                    crate::block_model::blank_run(ll, i0 + 1) == crate::block_model::blank_run(
                        ll,
                        i as int,
                    ),
                decreases n - i,
            {
                proof {
                    if prose {
                        assert(ls[i as int] == lines@[i as int]@);
                        if word_line(ls[i as int]) {
                            lemma_word_line_block(ls[i as int]);
                        }
                    }
                }
                i = i + 1;
            }
            proof {
                if prose && i < n {
                    assert(ls[i as int] == lines@[i as int]@);
                    if ls[i as int].len() == 0 {
                        assert(blank_spec(lines@[i as int]@));
                    }
                }
                assert(crate::block_model::blank_run(ll, i as int) == i);
            }
            if pending.len() > 0 {
                proof {
                    crate::block_model::lemma_bf_blank_err(dd, ll, opts, nested, fuel, i0, out0, p0, Err(Error::Declined("block-ial")));
                    assert(blocks_from(dd, ll, opts, nested, fuel, i0, out0, p0, Err(Error::Declined("block-ial"))));
                }
                return Err(declined("block-ial"));
            }
            out.push(Block { kind: BlockKind::Blank, ial: Vec::new() });
            proof {
                if prose {
                    assert(chunks_of(out@) =~= chunks_of(out0).push(None));
                    assert(prose_chunks(ls, i0 as int) =~= seq![None::<Seq<char>>] + prose_chunks(
                        ls,
                        i as int,
                    ));
                    assert(prose_chunks(ls, 0) =~= chunks_of(out@) + prose_chunks(ls, i as int));
                }
                assert(out@.last().ial@ =~= Seq::<Attr>::empty());
                assert(out@.drop_last() =~= out0);
                assert(crate::block_model::appended(out0, BlockKind::Blank, Seq::empty(), out@));
                crate::block_model::lemma_bf_blank(dd, ll, opts, nested, fuel, i0, out0, p0, out@);
                assert forall|rr: Result<Seq<Block>, Error>|
                    #[trigger] blocks_from(dd, ll, opts, nested, fuel, i as int, out@, pending@, rr)
                        implies blocks_rel(dd, ll, opts, nested, fuel, rr) by {
                    assert(blocks_from(dd, ll, opts, nested, fuel, i0, out0, p0, rr));
                }
            }
            continue;
        }
        // A block IAL line: `{:toc}` after a list, or attributes for the
        // preceding block (trailing) or the following one (leading).
        if let Some(inner) = ial_inner(line) {
            if eq_str(trim_sp(inner.as_slice(), true), "toc") {
                if pending.len() == 0 && out.len() > 0 {
                    let last = out.pop().unwrap();
                    let Block { kind, ial } = last;
                    match kind {
                        BlockKind::List { ordered, loose, items, toc } => {
                            if !toc && ial.len() == 0 {
                                out.push(
                                    Block {
                                        kind: BlockKind::List { ordered, loose, items, toc: true },
                                        ial,
                                    },
                                );
                                i = i + 1;
                                proof {
                                    assert(out@.drop_last() =~= out0.drop_last());
                                    assert(crate::block_model::toc_marked(out0, out@));
                                    crate::block_model::lemma_bf_toc(dd, ll, opts, nested, fuel, i0, out0, p0, out@);
                                    assert forall|rr: Result<Seq<Block>, Error>|
                                        #[trigger] blocks_from(dd, ll, opts, nested, fuel, i as int, out@, pending@, rr)
                                            implies blocks_rel(dd, ll, opts, nested, fuel, rr) by {
                                        assert(blocks_from(dd, ll, opts, nested, fuel, i0, out0, p0, rr));
                                    }
                                }
                                continue;
                            }
                            proof {
                                crate::block_model::lemma_bf_toc_err(dd, ll, opts, nested, fuel, i0, out0, p0, Err(Error::Declined("toc")));
                                assert(blocks_from(dd, ll, opts, nested, fuel, i0, out0, p0, Err(Error::Declined("toc"))));
                            }
                            return Err(declined("toc"));
                        },
                        _ => {
                            proof {
                                crate::block_model::lemma_bf_toc_err(dd, ll, opts, nested, fuel, i0, out0, p0, Err(Error::Declined("toc")));
                                assert(blocks_from(dd, ll, opts, nested, fuel, i0, out0, p0, Err(Error::Declined("toc"))));
                            }
                            return Err(declined("toc"));
                        },
                    }
                }
            } else if let Some(attrs) = parse_ial(inner.as_slice()) {
                if pending.len() == 0 && out.len() > 0 && attachable(&out[out.len() - 1].kind)
                    && out[out.len() - 1].ial.len() == 0 {
                    let last = out.pop().unwrap();
                    let Block { kind, ial: _ } = last;
                    out.push(Block { kind, ial: attrs });
                    i = i + 1;
                    proof {
                        assert(out@.drop_last() =~= out0.drop_last());
                        assert(crate::block_model::reattributed(
                            out0,
                            crate::block_model::ial_attrs(l)->0,
                            out@,
                        ));
                        crate::block_model::lemma_bf_trailing(dd, ll, opts, nested, fuel, i0, out0, p0, out@);
                        assert forall|rr: Result<Seq<Block>, Error>|
                            #[trigger] blocks_from(dd, ll, opts, nested, fuel, i as int, out@, pending@, rr)
                                implies blocks_rel(dd, ll, opts, nested, fuel, rr) by {
                            assert(blocks_from(dd, ll, opts, nested, fuel, i0, out0, p0, rr));
                        }
                    }
                    continue;
                }
                if pending.len() == 0 && starts_attachable(lines, i + 1) {
                    pending = attrs;
                    i = i + 1;
                    proof {
                        crate::block_model::lemma_bf_leading(dd, ll, opts, nested, fuel, i0, out0, p0, pending@);
                        assert forall|rr: Result<Seq<Block>, Error>|
                            #[trigger] blocks_from(dd, ll, opts, nested, fuel, i as int, out@, pending@, rr)
                                implies blocks_rel(dd, ll, opts, nested, fuel, rr) by {
                            assert(blocks_from(dd, ll, opts, nested, fuel, i0, out0, p0, rr));
                        }
                    }
                    continue;
                }
            }
        }
        proof {
            assert(!blank_spec(l));
            assert(!(crate::block_model::toc_line(l) && p0.len() == 0 && out0.len() > 0));
            assert(!(crate::block_model::ial_attrs(l) is Some && p0.len() == 0 && out0.len() > 0
                && attachable_spec(out0.last().kind) && out0.last().ial@.len() == 0));
            assert(!(crate::block_model::ial_attrs(l) is Some && p0.len() == 0 && attach_start_spec(ll, i0 + 1)));
            crate::block_model::lemma_bf_rest(dd, ll, opts, nested, fuel, i0, out0, p0);
        }
        // A pipe table.
        let tr = try_table(defs, lines, i, opts);
        let ghost t0 = tr;
        proof {
            assert(crate::block_model::table_res(dd, ll, i0, opts.gfm, t0));
            crate::block_model::lemma_ts(dd, ll, opts, nested, fuel, i0, out0, p0, t0);
        }
        match tr {
            Err(e) => {
                proof {
                    assert(crate::block_model::table_step(dd, ll, opts, nested, fuel, i0, out0, p0, Err(e)));
                    assert(blocks_from(dd, ll, opts, nested, fuel, i0, out0, p0, Err(e)));
                }
                return Err(e);
            },
            Ok(Some((kind, end))) => {
                if nested {
                    proof {
                        assert(crate::block_model::table_step(dd, ll, opts, nested, fuel, i0, out0, p0, Err(Error::Declined("table"))));
                        assert(blocks_from(dd, ll, opts, nested, fuel, i0, out0, p0, Err(Error::Declined("table"))));
                    }
                    return Err(declined("table"));
                }
                let ghost gk = kind;
                match emit(&mut out, &mut pending, kind) {
                    Err(e) => {
                        proof {
                            crate::block_model::lemma_emit_err(dd, ll, opts, nested, fuel, i0, end as int, out0, p0, gk, Seq::empty(), Err(e));
                            assert(crate::block_model::table_step(dd, ll, opts, nested, fuel, i0, out0, p0, Err(e)));
                            assert(blocks_from(dd, ll, opts, nested, fuel, i0, out0, p0, Err(e)));
                        }
                        return Err(e);
                    },
                    Ok(()) => {},
                }
                i = end;
                proof {
                    assert(p0 + Seq::<Attr>::empty() =~= p0);
                    assert(pending@ =~= Seq::<Attr>::empty());
                    crate::block_model::lemma_emit_cont(dd, ll, opts, nested, fuel, i0, end as int, out0, p0, gk, Seq::empty(), out@);
                    assert forall|rr: Result<Seq<Block>, Error>|
                        #[trigger] blocks_from(dd, ll, opts, nested, fuel, i as int, out@, pending@, rr)
                            implies blocks_rel(dd, ll, opts, nested, fuel, rr) by {
                        assert(crate::block_model::table_step(dd, ll, opts, nested, fuel, i0, out0, p0, rr));
                        assert(blocks_from(dd, ll, opts, nested, fuel, i0, out0, p0, rr));
                    }
                }
                continue;
            },
            Ok(None) => {},
        }
        // A raw HTML block at column 0 (GFM, top level only).
        if opts.gfm && starts_html_block(line) {
            if nested {
                proof {
                    crate::block_model::lemma_hs_nested(dd, ll, opts, nested, fuel, i0, out0, p0, Err(Error::Declined("html-block")));
                    assert(crate::block_model::html_step(dd, ll, opts, nested, fuel, i0, out0, p0, Err(Error::Declined("html-block"))));
                    assert(crate::block_model::table_step(dd, ll, opts, nested, fuel, i0, out0, p0, Err(Error::Declined("html-block"))));
                    assert(blocks_from(dd, ll, opts, nested, fuel, i0, out0, p0, Err(Error::Declined("html-block"))));
                }
                return Err(declined("html-block"));
            }
            let rest = join_from(lines, i);
            if let Some((html, consumed)) = crate::html_block::serialize(rest.as_slice()) {
                let head = &rest.as_slice()[0..consumed];
                let nl = count_newlines(head);
                proof {
                    assert(head@ == rest@.subrange(0, consumed as int));
                }
                let used = if nl < n {
                    nl + 1
                } else {
                    n
                };
                let html2 = if pending.len() > 0 {
                    match inject_ial(html.as_slice(), &pending) {
                        Some(h) => h,
                        None => {
                            proof {
                                crate::block_model::lemma_hs_ial_err(dd, ll, opts, nested, fuel, i0, out0, p0, html@, consumed as int, Err(Error::Declined("html-block-ial")));
                                assert(crate::block_model::html_step(dd, ll, opts, nested, fuel, i0, out0, p0, Err(Error::Declined("html-block-ial"))));
                                assert(crate::block_model::table_step(dd, ll, opts, nested, fuel, i0, out0, p0, Err(Error::Declined("html-block-ial"))));
                                assert(blocks_from(dd, ll, opts, nested, fuel, i0, out0, p0, Err(Error::Declined("html-block-ial"))));
                            }
                            return Err(declined("html-block-ial"));
                        },
                    }
                } else {
                    html
                };
                pending = Vec::new();
                let ghost gv = html2;
                let ghost gk = BlockKind::RawHtml(html2);
                proof {
                    assert(html2@ == crate::block_model::html_text(html@, p0));
                }
                out.push(Block { kind: BlockKind::RawHtml(html2), ial: Vec::new() });
                i = if used >= n - i {
                    n
                } else {
                    i + used
                };
                proof {
                    assert(Seq::<Attr>::empty() + Seq::<Attr>::empty() =~= Seq::<Attr>::empty());
                    assert(out@.last().ial@ =~= Seq::<Attr>::empty());
                    assert(out@.drop_last() =~= out0);
                    crate::block_model::lemma_emit_cont(dd, ll, opts, nested, fuel, i0, i as int, out0, Seq::empty(), gk, Seq::empty(), out@);
                    assert(i as int == crate::block_model::html_next(ll, i0, consumed as int));
                    crate::block_model::lemma_hs_block(dd, ll, opts, nested, fuel, i0, out0, p0, html@, consumed as int, i as int, gv);
                    assert forall|rr: Result<Seq<Block>, Error>|
                        #[trigger] blocks_from(dd, ll, opts, nested, fuel, i as int, out@, pending@, rr)
                            implies blocks_rel(dd, ll, opts, nested, fuel, rr) by {
                        assert(pending@ =~= Seq::<Attr>::empty());
                        assert(crate::block_model::then_emit(dd, ll, opts, nested, fuel, i0, i as int, out0, Seq::empty(), gk, Seq::empty(), rr));
                        assert(crate::block_model::html_step(dd, ll, opts, nested, fuel, i0, out0, p0, rr));
                        assert(crate::block_model::table_step(dd, ll, opts, nested, fuel, i0, out0, p0, rr));
                        assert(blocks_from(dd, ll, opts, nested, fuel, i0, out0, p0, rr));
                    }
                }
                continue;
            }
        }
        proof {
            crate::block_model::lemma_hs_rest(dd, ll, opts, nested, fuel, i0, out0, p0);
        }
        if has_table_pipe(trim_start_ws(line)) && block_all_pipe(lines, i, opts) {
            proof {
                crate::block_model::lemma_cs_pipe(dd, ll, opts, nested, fuel, i0, out0, p0, Err(Error::Declined("table")));
                assert(crate::block_model::code_step(dd, ll, opts, nested, fuel, i0, out0, p0, Err(Error::Declined("table"))));
                assert(crate::block_model::html_step(dd, ll, opts, nested, fuel, i0, out0, p0, Err(Error::Declined("table"))));
                assert(crate::block_model::table_step(dd, ll, opts, nested, fuel, i0, out0, p0, Err(Error::Declined("table"))));
                assert(blocks_from(dd, ll, opts, nested, fuel, i0, out0, p0, Err(Error::Declined("table"))));
            }
            return Err(declined("table"));
        }
        // Indented code (GFM).
        if opts.gfm && starts_with(line, "    ") {
            let (text, end) = indented_code(lines, i);
            let kind = BlockKind::Code { lang: None, text, highlighted: None };
            let ghost gk = kind;
            proof {
                assert(crate::block_model::is_code(gk, None, crate::block::code_text(ll, i0, crate::block::code_end(ll, i0 + 1, i0 + 1))));
                crate::block_model::lemma_cs_code(dd, ll, opts, nested, fuel, i0, out0, p0, gk);
            }
            match emit(&mut out, &mut pending, kind) {
                Err(e) => {
                    proof {
                        crate::block_model::lemma_emit_err(dd, ll, opts, nested, fuel, i0, end as int, out0, p0, gk, Seq::empty(), Err(e));
                        assert(crate::block_model::code_step(dd, ll, opts, nested, fuel, i0, out0, p0, Err(e)));
                        assert(crate::block_model::html_step(dd, ll, opts, nested, fuel, i0, out0, p0, Err(e)));
                        assert(crate::block_model::table_step(dd, ll, opts, nested, fuel, i0, out0, p0, Err(e)));
                        assert(blocks_from(dd, ll, opts, nested, fuel, i0, out0, p0, Err(e)));
                    }
                    return Err(e);
                },
                Ok(()) => {},
            }
            i = end;
            proof {
                assert(p0 + Seq::<Attr>::empty() =~= p0);
                assert(pending@ =~= Seq::<Attr>::empty());
                crate::block_model::lemma_emit_cont(dd, ll, opts, nested, fuel, i0, end as int, out0, p0, gk, Seq::empty(), out@);
                assert forall|rr: Result<Seq<Block>, Error>|
                    #[trigger] blocks_from(dd, ll, opts, nested, fuel, i as int, out@, pending@, rr)
                        implies blocks_rel(dd, ll, opts, nested, fuel, rr) by {
                    assert(crate::block_model::then_emit(dd, ll, opts, nested, fuel, i0, end as int, out0, p0, gk, Seq::empty(), rr));
                    assert(crate::block_model::code_step(dd, ll, opts, nested, fuel, i0, out0, p0, rr));
                    assert(crate::block_model::html_step(dd, ll, opts, nested, fuel, i0, out0, p0, rr));
                    assert(crate::block_model::table_step(dd, ll, opts, nested, fuel, i0, out0, p0, rr));
                    assert(blocks_from(dd, ll, opts, nested, fuel, i0, out0, p0, rr));
                }
            }
            continue;
        }
        match decline_block_scan(line) {
            Err(e) => {
                proof {
                    crate::block_model::lemma_cs_scan(dd, ll, opts, nested, fuel, i0, out0, p0, crate::lines::scan_reason(l)->0, Err(e));
                    assert(crate::block_model::code_step(dd, ll, opts, nested, fuel, i0, out0, p0, Err(e)));
                    assert(crate::block_model::html_step(dd, ll, opts, nested, fuel, i0, out0, p0, Err(e)));
                    assert(crate::block_model::table_step(dd, ll, opts, nested, fuel, i0, out0, p0, Err(e)));
                    assert(blocks_from(dd, ll, opts, nested, fuel, i0, out0, p0, Err(e)));
                }
                return Err(e);
            },
            Ok(()) => {},
        }
        proof {
            crate::block_model::lemma_cs_rest(dd, ll, opts, nested, fuel, i0, out0, p0);
        }
        // ATX heading.
        if starts_with_char(line, '#') {
            let hr = parse_heading(defs, line, opts);
            let ghost h0 = hr;
            proof {
                assert(crate::block_model::heading_res(dd, l, opts, h0));
            }
            let (kind, explicit) = match hr {
                Ok(x) => x,
                Err(e) => {
                    proof {
                        crate::block_model::lemma_hd(dd, ll, opts, nested, fuel, i0, out0, p0, h0, vstd::pervasive::arbitrary());
                        assert(crate::block_model::heading_step(dd, ll, opts, nested, fuel, i0, out0, p0, Err(e)));
                        assert(crate::block_model::code_step(dd, ll, opts, nested, fuel, i0, out0, p0, Err(e)));
                        assert(crate::block_model::html_step(dd, ll, opts, nested, fuel, i0, out0, p0, Err(e)));
                        assert(crate::block_model::table_step(dd, ll, opts, nested, fuel, i0, out0, p0, Err(e)));
                        assert(blocks_from(dd, ll, opts, nested, fuel, i0, out0, p0, Err(e)));
                    }
                    return Err(e);
                },
            };
            let ghost gk = kind;
            match emit(&mut out, &mut pending, kind) {
                Err(e) => {
                    proof {
                        assert(attachable_spec(gk));
                    }
                    return Err(e);
                },
                Ok(()) => {},
            }
            let ghost out1 = out@;
            i = i + 1;
            match explicit {
                Some(id) => {
                    let last = out.pop().unwrap();
                    let Block { kind, mut ial } = last;
                    let at = Attr { key: crate::text::chars_of("id"), val: id };
                    let ghost ga = at;
                    ial.push(at);
                    out.push(Block { kind, ial });
                    proof {
                        assert(out@.drop_last() =~= out0);
                        assert(out@.last().ial@ =~= p0 + seq![ga]);
                        assert(crate::block_model::id_attr(ga, id@));
                        assert(pending@ =~= Seq::<Attr>::empty());
                        crate::block_model::lemma_emit_cont(dd, ll, opts, nested, fuel, i0, i as int, out0, p0, gk, seq![ga], out@);
                        crate::block_model::lemma_hd(dd, ll, opts, nested, fuel, i0, out0, p0, h0, ga);
                        assert forall|rr: Result<Seq<Block>, Error>|
                            #[trigger] blocks_from(dd, ll, opts, nested, fuel, i as int, out@, pending@, rr)
                                implies blocks_rel(dd, ll, opts, nested, fuel, rr) by {
                            assert(crate::block_model::then_emit(dd, ll, opts, nested, fuel, i0, i as int, out0, p0, gk, seq![ga], rr));
                            assert(crate::block_model::heading_step(dd, ll, opts, nested, fuel, i0, out0, p0, rr));
                            assert(crate::block_model::code_step(dd, ll, opts, nested, fuel, i0, out0, p0, rr));
                            assert(crate::block_model::html_step(dd, ll, opts, nested, fuel, i0, out0, p0, rr));
                            assert(crate::block_model::table_step(dd, ll, opts, nested, fuel, i0, out0, p0, rr));
                            assert(blocks_from(dd, ll, opts, nested, fuel, i0, out0, p0, rr));
                        }
                    }
                },
                None => {
                    proof {
                        assert(p0 + Seq::<Attr>::empty() =~= p0);
                        assert(pending@ =~= Seq::<Attr>::empty());
                        crate::block_model::lemma_emit_cont(dd, ll, opts, nested, fuel, i0, i as int, out0, p0, gk, Seq::empty(), out@);
                        crate::block_model::lemma_hd(dd, ll, opts, nested, fuel, i0, out0, p0, h0, vstd::pervasive::arbitrary());
                        assert forall|rr: Result<Seq<Block>, Error>|
                            #[trigger] blocks_from(dd, ll, opts, nested, fuel, i as int, out@, pending@, rr)
                                implies blocks_rel(dd, ll, opts, nested, fuel, rr) by {
                            assert(crate::block_model::then_emit(dd, ll, opts, nested, fuel, i0, i as int, out0, p0, gk, Seq::empty(), rr));
                            assert(crate::block_model::heading_step(dd, ll, opts, nested, fuel, i0, out0, p0, rr));
                            assert(crate::block_model::code_step(dd, ll, opts, nested, fuel, i0, out0, p0, rr));
                            assert(crate::block_model::html_step(dd, ll, opts, nested, fuel, i0, out0, p0, rr));
                            assert(crate::block_model::table_step(dd, ll, opts, nested, fuel, i0, out0, p0, rr));
                            assert(blocks_from(dd, ll, opts, nested, fuel, i0, out0, p0, rr));
                        }
                    }
                },
            }
            continue;
        }
        if is_hr(line) {
            match emit(&mut out, &mut pending, BlockKind::Hr) {
                Err(e) => {
                    proof {
                        crate::block_model::lemma_emit_err(dd, ll, opts, nested, fuel, i0, i0 + 1, out0, p0, BlockKind::Hr, Seq::empty(), Err(e));
                        crate::block_model::lemma_hd_hr(dd, ll, opts, nested, fuel, i0, out0, p0);
                        assert(crate::block_model::heading_step(dd, ll, opts, nested, fuel, i0, out0, p0, Err(e)));
                        assert(crate::block_model::code_step(dd, ll, opts, nested, fuel, i0, out0, p0, Err(e)));
                        assert(crate::block_model::html_step(dd, ll, opts, nested, fuel, i0, out0, p0, Err(e)));
                        assert(crate::block_model::table_step(dd, ll, opts, nested, fuel, i0, out0, p0, Err(e)));
                        assert(blocks_from(dd, ll, opts, nested, fuel, i0, out0, p0, Err(e)));
                    }
                    return Err(e);
                },
                Ok(()) => {},
            }
            i = i + 1;
            proof {
                assert(p0 + Seq::<Attr>::empty() =~= p0);
                assert(pending@ =~= Seq::<Attr>::empty());
                crate::block_model::lemma_emit_cont(dd, ll, opts, nested, fuel, i0, i as int, out0, p0, BlockKind::Hr, Seq::empty(), out@);
                crate::block_model::lemma_hd_hr(dd, ll, opts, nested, fuel, i0, out0, p0);
                assert forall|rr: Result<Seq<Block>, Error>|
                    #[trigger] blocks_from(dd, ll, opts, nested, fuel, i as int, out@, pending@, rr)
                        implies blocks_rel(dd, ll, opts, nested, fuel, rr) by {
                    assert(crate::block_model::heading_step(dd, ll, opts, nested, fuel, i0, out0, p0, rr));
                    assert(crate::block_model::code_step(dd, ll, opts, nested, fuel, i0, out0, p0, rr));
                    assert(crate::block_model::html_step(dd, ll, opts, nested, fuel, i0, out0, p0, rr));
                    assert(crate::block_model::table_step(dd, ll, opts, nested, fuel, i0, out0, p0, rr));
                    assert(blocks_from(dd, ll, opts, nested, fuel, i0, out0, p0, rr));
                }
            }
            continue;
        }
        proof {
            crate::block_model::lemma_hd_rest(dd, ll, opts, nested, fuel, i0, out0, p0);
        }
        // Fenced code.
        let fr = closed_fence_at(lines, i, opts.gfm);
        let ghost c0 = fr;
        proof {
            assert(closed_fence_rel(ll, i0, opts.gfm, c0));
        }
        match fr {
            Err(e) => {
                proof {
                    crate::block_model::lemma_fs(dd, ll, opts, nested, fuel, i0, out0, p0, c0, vstd::pervasive::arbitrary());
                    assert(crate::block_model::fence_step(dd, ll, opts, nested, fuel, i0, out0, p0, Err(e)));
                    assert(crate::block_model::heading_step(dd, ll, opts, nested, fuel, i0, out0, p0, Err(e)));
                    assert(crate::block_model::code_step(dd, ll, opts, nested, fuel, i0, out0, p0, Err(e)));
                    assert(crate::block_model::html_step(dd, ll, opts, nested, fuel, i0, out0, p0, Err(e)));
                    assert(crate::block_model::table_step(dd, ll, opts, nested, fuel, i0, out0, p0, Err(e)));
                    assert(blocks_from(dd, ll, opts, nested, fuel, i0, out0, p0, Err(e)));
                }
                return Err(e);
            },
            Ok(Some((f, close))) => {
                let text = fence_body(lines, i + 1, close);
                let ghost glang = f.lang;
                let kind = BlockKind::Code { lang: f.lang, text, highlighted: None };
                let ghost gk = kind;
                proof {
                    assert(crate::block_model::is_code(gk, glang, crate::block::lines_text(ll, i0 + 1, close as int)));
                    crate::block_model::lemma_fs(dd, ll, opts, nested, fuel, i0, out0, p0, c0, gk);
                }
                match emit(&mut out, &mut pending, kind) {
                    Err(e) => {
                        proof {
                            crate::block_model::lemma_emit_err(dd, ll, opts, nested, fuel, i0, close + 1, out0, p0, gk, Seq::empty(), Err(e));
                            assert(crate::block_model::fence_step(dd, ll, opts, nested, fuel, i0, out0, p0, Err(e)));
                            assert(crate::block_model::heading_step(dd, ll, opts, nested, fuel, i0, out0, p0, Err(e)));
                            assert(crate::block_model::code_step(dd, ll, opts, nested, fuel, i0, out0, p0, Err(e)));
                            assert(crate::block_model::html_step(dd, ll, opts, nested, fuel, i0, out0, p0, Err(e)));
                            assert(crate::block_model::table_step(dd, ll, opts, nested, fuel, i0, out0, p0, Err(e)));
                            assert(blocks_from(dd, ll, opts, nested, fuel, i0, out0, p0, Err(e)));
                        }
                        return Err(e);
                    },
                    Ok(()) => {},
                }
                i = close + 1;
                proof {
                    assert(p0 + Seq::<Attr>::empty() =~= p0);
                    assert(pending@ =~= Seq::<Attr>::empty());
                    crate::block_model::lemma_emit_cont(dd, ll, opts, nested, fuel, i0, i as int, out0, p0, gk, Seq::empty(), out@);
                    assert forall|rr: Result<Seq<Block>, Error>|
                        #[trigger] blocks_from(dd, ll, opts, nested, fuel, i as int, out@, pending@, rr)
                            implies blocks_rel(dd, ll, opts, nested, fuel, rr) by {
                        assert(crate::block_model::then_emit(dd, ll, opts, nested, fuel, i0, i as int, out0, p0, gk, Seq::empty(), rr));
                        assert(crate::block_model::fence_step(dd, ll, opts, nested, fuel, i0, out0, p0, rr));
                        assert(crate::block_model::heading_step(dd, ll, opts, nested, fuel, i0, out0, p0, rr));
                        assert(crate::block_model::code_step(dd, ll, opts, nested, fuel, i0, out0, p0, rr));
                        assert(crate::block_model::html_step(dd, ll, opts, nested, fuel, i0, out0, p0, rr));
                        assert(crate::block_model::table_step(dd, ll, opts, nested, fuel, i0, out0, p0, rr));
                        assert(blocks_from(dd, ll, opts, nested, fuel, i0, out0, p0, rr));
                    }
                }
                continue;
            },
            Ok(None) => {
                let fo = fence_open(line, opts.gfm);
                proof {
                    reveal(fence_open_rel);
                    crate::block_model::lemma_fs(dd, ll, opts, nested, fuel, i0, out0, p0, c0, vstd::pervasive::arbitrary());
                }
                if let Ok(Some(_)) = fo {
                    proof {
                        assert(crate::block_model::fence_step(dd, ll, opts, nested, fuel, i0, out0, p0, Err(Error::Declined("unclosed-fence"))));
                        assert(crate::block_model::heading_step(dd, ll, opts, nested, fuel, i0, out0, p0, Err(Error::Declined("unclosed-fence"))));
                        assert(crate::block_model::code_step(dd, ll, opts, nested, fuel, i0, out0, p0, Err(Error::Declined("unclosed-fence"))));
                        assert(crate::block_model::html_step(dd, ll, opts, nested, fuel, i0, out0, p0, Err(Error::Declined("unclosed-fence"))));
                        assert(crate::block_model::table_step(dd, ll, opts, nested, fuel, i0, out0, p0, Err(Error::Declined("unclosed-fence"))));
                        assert(blocks_from(dd, ll, opts, nested, fuel, i0, out0, p0, Err(Error::Declined("unclosed-fence"))));
                    }
                    return Err(declined("unclosed-fence"));
                }
            },
        }
        // Blockquote.
        if starts_with_char(line, '>') {
            if fuel == 0 {
                proof {
                    crate::block_model::lemma_ns_depth(dd, ll, opts, nested, fuel, i0, out0, p0, Err(Error::Declined("nesting-depth")));
                    assert(crate::block_model::nest_step(dd, ll, opts, nested, fuel, i0, out0, p0, Err(Error::Declined("nesting-depth"))));
                    assert(crate::block_model::fence_step(dd, ll, opts, nested, fuel, i0, out0, p0, Err(Error::Declined("nesting-depth"))));
                    assert(crate::block_model::heading_step(dd, ll, opts, nested, fuel, i0, out0, p0, Err(Error::Declined("nesting-depth"))));
                    assert(crate::block_model::code_step(dd, ll, opts, nested, fuel, i0, out0, p0, Err(Error::Declined("nesting-depth"))));
                    assert(crate::block_model::html_step(dd, ll, opts, nested, fuel, i0, out0, p0, Err(Error::Declined("nesting-depth"))));
                    assert(crate::block_model::table_step(dd, ll, opts, nested, fuel, i0, out0, p0, Err(Error::Declined("nesting-depth"))));
                    assert(blocks_from(dd, ll, opts, nested, fuel, i0, out0, p0, Err(Error::Declined("nesting-depth"))));
                }
                return Err(declined("nesting-depth"));
            }
            let (inner, end) = collect_quote(lines, i);
            let rb = parse_blocks(defs, &inner, opts, true, fuel - 1);
            let ghost b0 = res_seq(rb);
            proof {
                reveal(blocks_rel);
                assert(blocks_from(dd, inner@, opts, true, (fuel - 1) as usize, 0, Seq::empty(), Seq::empty(), b0));
                assert(crate::block_model::quote_inner(ll, i0, inner@));
            }
            let mut body = match rb {
                Ok(b) => b,
                Err(e) => {
                    proof {
                        crate::block_model::lemma_ns_quote(dd, ll, opts, nested, fuel, i0, out0, p0, inner@, b0, vstd::pervasive::arbitrary());
                        assert(crate::block_model::nest_step(dd, ll, opts, nested, fuel, i0, out0, p0, Err(e)));
                        assert(crate::block_model::fence_step(dd, ll, opts, nested, fuel, i0, out0, p0, Err(e)));
                        assert(crate::block_model::heading_step(dd, ll, opts, nested, fuel, i0, out0, p0, Err(e)));
                        assert(crate::block_model::code_step(dd, ll, opts, nested, fuel, i0, out0, p0, Err(e)));
                        assert(crate::block_model::html_step(dd, ll, opts, nested, fuel, i0, out0, p0, Err(e)));
                        assert(crate::block_model::table_step(dd, ll, opts, nested, fuel, i0, out0, p0, Err(e)));
                        assert(blocks_from(dd, ll, opts, nested, fuel, i0, out0, p0, Err(e)));
                    }
                    return Err(e);
                },
            };
            strip_blanks(&mut body);
            let ghost gv = body;
            let ghost gk = BlockKind::Quote(body);
            proof {
                assert(body@ == crate::block_model::trimmed(b0->Ok_0));
                assert(crate::block_model::has_blocks(gv, crate::block_model::trimmed(b0->Ok_0)));
                crate::block_model::lemma_ns_quote(dd, ll, opts, nested, fuel, i0, out0, p0, inner@, b0, gv);
            }
            match emit(&mut out, &mut pending, BlockKind::Quote(body)) {
                Err(e) => {
                    proof {
                        crate::block_model::lemma_emit_err(dd, ll, opts, nested, fuel, i0, end as int, out0, p0, gk, Seq::empty(), Err(e));
                        assert(crate::block_model::nest_step(dd, ll, opts, nested, fuel, i0, out0, p0, Err(e)));
                        assert(crate::block_model::fence_step(dd, ll, opts, nested, fuel, i0, out0, p0, Err(e)));
                        assert(crate::block_model::heading_step(dd, ll, opts, nested, fuel, i0, out0, p0, Err(e)));
                        assert(crate::block_model::code_step(dd, ll, opts, nested, fuel, i0, out0, p0, Err(e)));
                        assert(crate::block_model::html_step(dd, ll, opts, nested, fuel, i0, out0, p0, Err(e)));
                        assert(crate::block_model::table_step(dd, ll, opts, nested, fuel, i0, out0, p0, Err(e)));
                        assert(blocks_from(dd, ll, opts, nested, fuel, i0, out0, p0, Err(e)));
                    }
                    return Err(e);
                },
                Ok(()) => {},
            }
            i = end;
            proof {
                assert(p0 + Seq::<Attr>::empty() =~= p0);
                assert(pending@ =~= Seq::<Attr>::empty());
                crate::block_model::lemma_emit_cont(dd, ll, opts, nested, fuel, i0, i as int, out0, p0, gk, Seq::empty(), out@);
                assert forall|rr: Result<Seq<Block>, Error>|
                    #[trigger] blocks_from(dd, ll, opts, nested, fuel, i as int, out@, pending@, rr)
                        implies blocks_rel(dd, ll, opts, nested, fuel, rr) by {
                    assert(crate::block_model::then_emit(dd, ll, opts, nested, fuel, i0, i as int, out0, p0, gk, Seq::empty(), rr));
                    assert(crate::block_model::nest_step(dd, ll, opts, nested, fuel, i0, out0, p0, rr));
                    assert(crate::block_model::fence_step(dd, ll, opts, nested, fuel, i0, out0, p0, rr));
                    assert(crate::block_model::heading_step(dd, ll, opts, nested, fuel, i0, out0, p0, rr));
                    assert(crate::block_model::code_step(dd, ll, opts, nested, fuel, i0, out0, p0, rr));
                    assert(crate::block_model::html_step(dd, ll, opts, nested, fuel, i0, out0, p0, rr));
                    assert(crate::block_model::table_step(dd, ll, opts, nested, fuel, i0, out0, p0, rr));
                    assert(blocks_from(dd, ll, opts, nested, fuel, i0, out0, p0, rr));
                }
            }
            continue;
        }
        // Lists: at column 0, or behind a 1–3-space base indent.
        let base = lead_count(line, false);
        if base <= 3 {
            let tail = &line[base..line.len()];
            proof {
                assert(tail@ == l.subrange(base as int, l.len() as int));
            }
            if let Some(ordered) = list_marker(tail) {
                let xr = parse_list(defs, lines, i, base, ordered, opts, fuel);
                let ghost x0 = xr;
                proof {
                    crate::block_model::lemma_list_res(dd, opts, ll, i0, base as int, ordered, fuel, x0);
                    crate::block_model::lemma_ns_list(dd, ll, opts, nested, fuel, i0, out0, p0, x0);
                }
                let (kind, end) = match xr {
                    Ok(x) => x,
                    Err(e) => {
                        proof {
                            assert(crate::block_model::nest_step(dd, ll, opts, nested, fuel, i0, out0, p0, Err(e)));
                            assert(crate::block_model::fence_step(dd, ll, opts, nested, fuel, i0, out0, p0, Err(e)));
                            assert(crate::block_model::heading_step(dd, ll, opts, nested, fuel, i0, out0, p0, Err(e)));
                            assert(crate::block_model::code_step(dd, ll, opts, nested, fuel, i0, out0, p0, Err(e)));
                            assert(crate::block_model::html_step(dd, ll, opts, nested, fuel, i0, out0, p0, Err(e)));
                            assert(crate::block_model::table_step(dd, ll, opts, nested, fuel, i0, out0, p0, Err(e)));
                            assert(blocks_from(dd, ll, opts, nested, fuel, i0, out0, p0, Err(e)));
                        }
                        return Err(e);
                    },
                };
                let ghost gk = kind;
                match emit(&mut out, &mut pending, kind) {
                    Err(e) => {
                        proof {
                            crate::block_model::lemma_emit_err(dd, ll, opts, nested, fuel, i0, end as int, out0, p0, gk, Seq::empty(), Err(e));
                            assert(crate::block_model::nest_step(dd, ll, opts, nested, fuel, i0, out0, p0, Err(e)));
                            assert(crate::block_model::fence_step(dd, ll, opts, nested, fuel, i0, out0, p0, Err(e)));
                            assert(crate::block_model::heading_step(dd, ll, opts, nested, fuel, i0, out0, p0, Err(e)));
                            assert(crate::block_model::code_step(dd, ll, opts, nested, fuel, i0, out0, p0, Err(e)));
                            assert(crate::block_model::html_step(dd, ll, opts, nested, fuel, i0, out0, p0, Err(e)));
                            assert(crate::block_model::table_step(dd, ll, opts, nested, fuel, i0, out0, p0, Err(e)));
                            assert(blocks_from(dd, ll, opts, nested, fuel, i0, out0, p0, Err(e)));
                        }
                        return Err(e);
                    },
                    Ok(()) => {},
                }
                i = end;
                proof {
                    assert(p0 + Seq::<Attr>::empty() =~= p0);
                    assert(pending@ =~= Seq::<Attr>::empty());
                    crate::block_model::lemma_emit_cont(dd, ll, opts, nested, fuel, i0, i as int, out0, p0, gk, Seq::empty(), out@);
                    assert forall|rr: Result<Seq<Block>, Error>|
                        #[trigger] blocks_from(dd, ll, opts, nested, fuel, i as int, out@, pending@, rr)
                            implies blocks_rel(dd, ll, opts, nested, fuel, rr) by {
                        assert(crate::block_model::nest_step(dd, ll, opts, nested, fuel, i0, out0, p0, rr));
                        assert(crate::block_model::fence_step(dd, ll, opts, nested, fuel, i0, out0, p0, rr));
                        assert(crate::block_model::heading_step(dd, ll, opts, nested, fuel, i0, out0, p0, rr));
                        assert(crate::block_model::code_step(dd, ll, opts, nested, fuel, i0, out0, p0, rr));
                        assert(crate::block_model::html_step(dd, ll, opts, nested, fuel, i0, out0, p0, rr));
                        assert(crate::block_model::table_step(dd, ll, opts, nested, fuel, i0, out0, p0, rr));
                        assert(blocks_from(dd, ll, opts, nested, fuel, i0, out0, p0, rr));
                    }
                }
                continue;
            }
        }
        if opt_space_opener(line, opts.gfm) {
            proof {
                crate::block_model::lemma_ns_opt(dd, ll, opts, nested, fuel, i0, out0, p0, Err(Error::Declined("opt-space-block")));
                assert(crate::block_model::nest_step(dd, ll, opts, nested, fuel, i0, out0, p0, Err(Error::Declined("opt-space-block"))));
                assert(crate::block_model::fence_step(dd, ll, opts, nested, fuel, i0, out0, p0, Err(Error::Declined("opt-space-block"))));
                assert(crate::block_model::heading_step(dd, ll, opts, nested, fuel, i0, out0, p0, Err(Error::Declined("opt-space-block"))));
                assert(crate::block_model::code_step(dd, ll, opts, nested, fuel, i0, out0, p0, Err(Error::Declined("opt-space-block"))));
                assert(crate::block_model::html_step(dd, ll, opts, nested, fuel, i0, out0, p0, Err(Error::Declined("opt-space-block"))));
                assert(crate::block_model::table_step(dd, ll, opts, nested, fuel, i0, out0, p0, Err(Error::Declined("opt-space-block"))));
                assert(blocks_from(dd, ll, opts, nested, fuel, i0, out0, p0, Err(Error::Declined("opt-space-block"))));
            }
            return Err(declined("opt-space-block"));
        }
        // Paragraph.
        let gr = gather_paragraph(lines, i, opts);
        let ghost g0 = gr;
        proof {
            assert(!(l.len() > 0 && l[0] == '>'));
            assert(!(crate::text::lead_run(l, 0, false) <= 3 && list_marker_spec(l.subrange(crate::text::lead_run(l, 0, false), l.len() as int)) is Some));
        }
        let (joined, end) = match gr {
            Ok(x) => x,
            Err(e) => {
                proof {
                    crate::block_model::lemma_ns_para(dd, ll, opts, nested, fuel, i0, out0, p0, g0, vstd::pervasive::arbitrary());
                    assert(crate::block_model::nest_step(dd, ll, opts, nested, fuel, i0, out0, p0, Err(e)));
                    assert(crate::block_model::fence_step(dd, ll, opts, nested, fuel, i0, out0, p0, Err(e)));
                    assert(crate::block_model::heading_step(dd, ll, opts, nested, fuel, i0, out0, p0, Err(e)));
                    assert(crate::block_model::code_step(dd, ll, opts, nested, fuel, i0, out0, p0, Err(e)));
                    assert(crate::block_model::html_step(dd, ll, opts, nested, fuel, i0, out0, p0, Err(e)));
                    assert(crate::block_model::table_step(dd, ll, opts, nested, fuel, i0, out0, p0, Err(e)));
                    assert(blocks_from(dd, ll, opts, nested, fuel, i0, out0, p0, Err(e)));
                }
                return Err(e);
            },
        };
        proof {
            if prose {
                let wre = word_run_end(ls, i as int);
                assert forall|k: int| 0 <= k < ls.subrange(i as int, wre).len() implies word_line(
                    #[trigger] ls.subrange(i as int, wre)[k],
                ) by {
                    assert(ls.subrange(i as int, wre)[k] == ls[i + k]);
                }
                lemma_join_words(ls.subrange(i as int, wre));
            }
        }
        let spans = match parse_spans(defs, joined.as_slice()) {
            Ok(s) => s,
            Err(e) => {
                proof {
                    crate::block_model::lemma_ns_para(dd, ll, opts, nested, fuel, i0, out0, p0, g0, vstd::pervasive::arbitrary());
                    assert(crate::block_model::nest_step(dd, ll, opts, nested, fuel, i0, out0, p0, Err(e)));
                    assert(crate::block_model::fence_step(dd, ll, opts, nested, fuel, i0, out0, p0, Err(e)));
                    assert(crate::block_model::heading_step(dd, ll, opts, nested, fuel, i0, out0, p0, Err(e)));
                    assert(crate::block_model::code_step(dd, ll, opts, nested, fuel, i0, out0, p0, Err(e)));
                    assert(crate::block_model::html_step(dd, ll, opts, nested, fuel, i0, out0, p0, Err(e)));
                    assert(crate::block_model::table_step(dd, ll, opts, nested, fuel, i0, out0, p0, Err(e)));
                    assert(blocks_from(dd, ll, opts, nested, fuel, i0, out0, p0, Err(e)));
                }
                return Err(e);
            },
        };
        let ghost sp = spans@;
        let ghost gk = BlockKind::Para(spans);
        proof {
            assert(crate::block_model::is_para(gk, scan_spec(dd, joined@, None, false, false, None)->Ok_0.0));
            crate::block_model::lemma_ns_para(dd, ll, opts, nested, fuel, i0, out0, p0, g0, gk);
        }
        match emit(&mut out, &mut pending, BlockKind::Para(spans)) {
            Err(e) => {
                proof {
                    crate::block_model::lemma_emit_err(dd, ll, opts, nested, fuel, i0, end as int, out0, p0, gk, Seq::empty(), Err(e));
                    assert(crate::block_model::nest_step(dd, ll, opts, nested, fuel, i0, out0, p0, Err(e)));
                    assert(crate::block_model::fence_step(dd, ll, opts, nested, fuel, i0, out0, p0, Err(e)));
                    assert(crate::block_model::heading_step(dd, ll, opts, nested, fuel, i0, out0, p0, Err(e)));
                    assert(crate::block_model::code_step(dd, ll, opts, nested, fuel, i0, out0, p0, Err(e)));
                    assert(crate::block_model::html_step(dd, ll, opts, nested, fuel, i0, out0, p0, Err(e)));
                    assert(crate::block_model::table_step(dd, ll, opts, nested, fuel, i0, out0, p0, Err(e)));
                    assert(blocks_from(dd, ll, opts, nested, fuel, i0, out0, p0, Err(e)));
                }
                return Err(e);
            },
            Ok(()) => {},
        }
        proof {
            if prose {
                let wre = word_run_end(ls, i as int);
                assert(prose_block(out@.last()));
                assert forall|k: int| 0 <= k < out@.len() implies #[trigger] prose_block(out@[k]) by {
                    if k < out0.len() {
                        assert(out@[k] == out0[k]);
                    }
                }
                assert(chunks_of(out@) =~= chunks_of(out0).push(Some(joined@)));
                assert(prose_chunks(ls, i as int) =~= seq![Some(joined@)] + prose_chunks(ls, end as int));
                assert(prose_chunks(ls, 0) =~= chunks_of(out@) + prose_chunks(ls, end as int));
            }
        }
        i = end;
        proof {
            assert(p0 + Seq::<Attr>::empty() =~= p0);
            assert(pending@ =~= Seq::<Attr>::empty());
            crate::block_model::lemma_emit_cont(dd, ll, opts, nested, fuel, i0, i as int, out0, p0, gk, Seq::empty(), out@);
            assert forall|rr: Result<Seq<Block>, Error>|
                #[trigger] blocks_from(dd, ll, opts, nested, fuel, i as int, out@, pending@, rr)
                    implies blocks_rel(dd, ll, opts, nested, fuel, rr) by {
                assert(crate::block_model::then_emit(dd, ll, opts, nested, fuel, i0, i as int, out0, p0, gk, Seq::empty(), rr));
                assert(crate::block_model::nest_step(dd, ll, opts, nested, fuel, i0, out0, p0, rr));
                assert(crate::block_model::fence_step(dd, ll, opts, nested, fuel, i0, out0, p0, rr));
                assert(crate::block_model::heading_step(dd, ll, opts, nested, fuel, i0, out0, p0, rr));
                assert(crate::block_model::code_step(dd, ll, opts, nested, fuel, i0, out0, p0, rr));
                assert(crate::block_model::html_step(dd, ll, opts, nested, fuel, i0, out0, p0, rr));
                assert(crate::block_model::table_step(dd, ll, opts, nested, fuel, i0, out0, p0, rr));
                assert(blocks_from(dd, ll, opts, nested, fuel, i0, out0, p0, rr));
            }
        }
    }
    proof {
        if prose {
            assert(chunks_of(out@) + prose_chunks(ls, i as int) =~= chunks_of(out@));
        }
    }
    if pending.len() > 0 {
        proof {
            assert(blocks_from(dd, ll, opts, nested, fuel, i as int, out@, pending@, Err(Error::Declined("block-ial"))));
        }
        return Err(declined("block-ial"));
    }
    proof {
        assert(blocks_from(dd, ll, opts, nested, fuel, i as int, out@, pending@, Ok(out@)));
    }
    Ok(out)
}


/// Parse a whole document: split it into lines (a final newline ends the
/// last line rather than opening an empty one), lift out the block link
/// reference definitions, and parse the remaining lines into blocks
/// (`block_model::document_rel`).
pub fn parse_document(src: &[char], opts: Options) -> (r: Result<Vec<Block>, Error>)
    ensures
        r matches Ok(bs) ==> blocks_wf(bs@),
        src@.len() == 0 ==> (r matches Ok(bs) && bs@.len() == 0),
        prose_lines(doc_lines(src@)) ==> (r matches Ok(bs) && (forall|k: int|
            0 <= k < bs@.len() ==> #[trigger] prose_block(bs@[k])) && chunks_of(bs@) == prose_chunks(
            doc_lines(src@),
            0,
        )),
        crate::block_model::document_rel(src@, opts, res_seq(r)),
{
    let mut lines = crate::lines::split_lines(src);
    proof {
        crate::lines::lemma_split_nonempty(src@);
        if src@.len() == 0 {
            assert(lines@.len() == 1 && lines@[0]@.len() == 0);
        }
    }
    if lines.len() > 0 && lines[lines.len() - 1].len() == 0 {
        lines.pop();
    }
    let ghost dl = doc_lines(src@);
    assert(crate::lines::views(lines@) =~= dl);
    let ghost prose = prose_lines(dl);
    proof {
        if prose {
            assert forall|k: int| 0 <= k < lines@.len() implies !crate::lines::def_opener(
                #[trigger] lines@[k]@,
            ) by {
                assert(lines@[k]@ == dl[k]);
                if word_line(dl[k]) {
                    lemma_word_line_trimmed(dl[k]);
                }
            }
        }
    }
    let cr = crate::lines::collect_link_defs(&lines);
    let ghost c0 = cr;
    let (defs, mask) = match cr {
        Ok(x) => x,
        Err(e) => {
            proof {
                assert(crate::lines::views(lines@) == doc_lines(src@));
            }
            return Err(e);
        },
    };
    let ghost all_kept = forall|j: int| 0 <= j < lines@.len() ==> !#[trigger] mask@[j];
    proof {
        if prose {
            assert forall|j: int| 0 <= j < lines@.len() implies !#[trigger] mask@[j] by {
                assert(!crate::lines::def_opener(lines@[j]@));
            }
        }
    }
    let mut kept: Vec<Vec<char>> = Vec::new();
    let mut k: usize = 0;
    while k < lines.len()
        invariant
            k <= lines@.len(),
            mask@.len() == lines@.len(),
            all_kept == (forall|j: int| 0 <= j < lines@.len() ==> !#[trigger] mask@[j]),
            all_kept ==> kept@.len() == k && forall|j: int|
                0 <= j < k ==> #[trigger] kept@[j]@ == lines@[j]@,
            crate::lines::views(kept@) == crate::block_model::unmasked(
                crate::lines::views(lines@).take(k as int),
                mask@.take(k as int),
            ),
        decreases lines@.len() - k,
    {
        let ghost kv = crate::lines::views(kept@);
        proof {
            assert(crate::lines::views(lines@).take(k + 1).drop_last() =~= crate::lines::views(lines@).take(k as int));
            assert(mask@.take(k + 1).drop_last() =~= mask@.take(k as int));
        }
        if !mask[k] {
            kept.push(to_vec(lines[k].as_slice()));
            proof {
                assert(crate::lines::views(kept@) =~= kv.push(lines@[k as int]@));
            }
        }
        k = k + 1;
    }
    proof {
        assert(crate::lines::views(lines@).take(k as int) =~= crate::lines::views(lines@));
        assert(mask@.take(k as int) =~= mask@);
    }
    proof {
        if prose {
            assert(crate::lines::views(kept@) =~= dl);
        }
    }
    let rb = parse_blocks(&defs, &kept, opts, false, src.len());
    proof {
        let m = mask@;
        assert(crate::lines::defs_scan(lines@, 0, true, Seq::empty(), Seq::empty()) == Ok::<
            (Seq<crate::lines::DefV>, Seq<bool>),
            (),
        >((crate::lines::defs_v(defs@), m)));
        assert(crate::lines::views(kept@) == crate::block_model::unmasked(crate::lines::views(lines@), m));
        assert(crate::lines::views(lines@) == doc_lines(src@));
    }
    rb
}

/// The lines of a document: split at newlines, a final newline ending the
/// last line rather than opening an empty one.
pub open spec fn doc_lines(src: Seq<char>) -> Seq<Seq<char>> {
    let l = crate::lines::split_spec(src);
    if l.len() > 0 && l[l.len() - 1].len() == 0 {
        l.drop_last()
    } else {
        l
    }
}

} // verus!
