//! Line classifiers for the block parser: rules, list markers, table rows
//! and separators, header ids, hard-break corners, the block-level
//! constructs declined outright, and link reference definitions.

use vstd::prelude::*;
use crate::Error;
use crate::ast::{Align, LinkDef};
use crate::text::{lead_run, strip_lead, strip_trail, strip_both, trim_ws_spec, is_ascii_digit, ascii_digit, is_sp_tab, sp_tab, trim_ws, trim_sp, trim_start_sp,
    trim_end_sp, trim_start_ws, trim_end_ws, lead_count, trail_count, is_blank, starts_with,
    starts_with_char, eq_str, run_len, to_vec, find_char, find_char_from, rfind_seq, chars_of,
    ascii_alnum, is_ascii_alnum, has_prefix, is_uni_ws, push_char, word_line, lemma_word_line_trimmed, occurs_at, trail_ws_end};
use crate::inline::{normalize_ref_id};
use crate::html_block::{starts_span_element, starts_span_element_close};

verus! {

fn declined(what: &'static str) -> (e: Error)
    ensures
        e == Error::Declined(what),
{
    Error::Declined(what)
}

/// Number of occurrences of `c` in `s`.
pub open spec fn count_char(s: Seq<char>, c: char) -> nat
    decreases s.len(),
{
    if s.len() == 0 {
        0
    } else {
        count_char(s.drop_last(), c) + if s.last() == c {
            1nat
        } else {
            0nat
        }
    }
}

/// A horizontal rule: after trimming, one marker char (`-`/`*`/`_`) at
/// least three times, with only spaces/tabs between.
pub open spec fn is_hr_trimmed(t: Seq<char>) -> bool {
    &&& t.len() > 0
    &&& (t[0] == '-' || t[0] == '*' || t[0] == '_')
    &&& forall|k: int| 0 <= k < t.len() ==> (#[trigger] t[k] == t[0] || is_sp_tab(t[k]))
    &&& count_char(t, t[0]) >= 3
}

#[verifier::rlimit(30)]
pub fn is_hr(line: &[char]) -> (r: bool)
    ensures
        r == is_hr_trimmed(trim_ws_spec(line@)),
{
    let t = trim_ws(line);
    if t.len() == 0 {
        return false;
    }
    let marker = t[0];
    if !(marker == '-' || marker == '*' || marker == '_') {
        return false;
    }
    let mut count: usize = 0;
    let mut k: usize = 0;
    while k < t.len()
        invariant
            k <= t@.len(),
            count as nat == count_char(t@.subrange(0, k as int), marker),
            count <= k,
            marker == t@[0],
            t@ == trim_ws_spec(line@),
            forall|j: int| 0 <= j < k ==> (#[trigger] t@[j] == marker || is_sp_tab(t@[j])),
        decreases t@.len() - k,
    {
        let b = t[k];
        proof {
            assert(t@.subrange(0, k + 1).drop_last() =~= t@.subrange(0, k as int));
        }
        if b == marker {
            count = count + 1;
        } else if b != ' ' && b != '\t' {
            assert(!(t@[k as int] == t@[0] || is_sp_tab(t@[k as int])));
            return false;
        }
        k = k + 1;
    }
    assert(t@.subrange(0, t@.len() as int) =~= t@);
    count >= 3
}

/// End of the run of ASCII digits of `s` starting at `from`.
pub open spec fn digit_run(s: Seq<char>, from: int) -> int
    decreases s.len() - from,
{
    if 0 <= from < s.len() && is_ascii_digit(s[from]) {
        digit_run(s, from + 1)
    } else {
        from
    }
}

pub fn digit_end(s: &[char], from: usize) -> (j: usize)
    requires
        from <= s@.len(),
    ensures
        j == digit_run(s@, from as int),
        from <= j <= s@.len(),
        forall|k: int| from <= k < j ==> is_ascii_digit(#[trigger] s@[k]),
{
    let mut j = from;
    while j < s.len() && ascii_digit(s[j])
        invariant
            from <= j <= s@.len(),
            digit_run(s@, from as int) == digit_run(s@, j as int),
            forall|k: int| from <= k < j ==> is_ascii_digit(#[trigger] s@[k]),
        decreases s@.len() - j,
    {
        j = j + 1;
    }
    j
}

/// `Some(ordered?)` when the line opens a list item: `*`/`+`/`-` then a
/// space or tab, or digits, `.`, then a space or tab.
pub open spec fn list_marker_spec(s: Seq<char>) -> Option<bool> {
    if s.len() >= 2 && (s[0] == '*' || s[0] == '+' || s[0] == '-') && is_sp_tab(s[1]) {
        Some(false)
    } else {
        let d = digit_run(s, 0);
        if d > 0 && s.len() > d + 1 && s[d] == '.' && is_sp_tab(s[d + 1]) {
            Some(true)
        } else {
            None
        }
    }
}

pub fn list_marker(line: &[char]) -> (r: Option<bool>)
    ensures
        r == list_marker_spec(line@),
{
    if line.len() >= 2 && (line[0] == '*' || line[0] == '+' || line[0] == '-') && (line[1] == ' '
        || line[1] == '\t') {
        return Some(false);
    }
    let digits = digit_end(line, 0);
    if digits > 0 && line.len() - digits > 1 && line[digits] == '.' && (line[digits + 1] == ' '
        || line[digits + 1] == '\t') {
        return Some(true);
    }
    None
}

/// Length of a list marker: one char, or the digits and the `.`.
pub open spec fn marker_len(s: Seq<char>, ordered: bool) -> int {
    if ordered {
        digit_run(s, 0) + 1
    } else {
        1
    }
}

/// The item content after a list marker: past the marker char (or the
/// digits and `.`), with leading spaces/tabs removed.
pub fn strip_marker(line: &[char], ordered: bool) -> (r: &[char])
    requires
        list_marker_spec(line@) == Some(ordered),
    ensures
        r@ == strip_lead(line@.subrange(marker_len(line@, ordered), line@.len() as int), true),
        r@.len() < line@.len(),
        r@ == line@.subrange(line@.len() - r@.len(), line@.len() as int),
{
    let _n = line.len();
    let from = if ordered {
        let d = digit_end(line, 0);
        d + 1
    } else {
        1
    };
    let rest = &line[from..line.len()];
    let t = trim_start_sp(rest, true);
    t
}

/// Constructs recognized well enough to refuse: indented code, extension
/// and IAL lines, footnotes, abbreviations, math, end-of-block markers,
/// definition lists, and raw HTML block openers (a span element or its
/// close tag opens a paragraph instead).
/// The constructs `decline_block_scan` refuses: an indented or tabbed
/// line, and after the leading whitespace an extension or IAL (`{:`), a
/// footnote (`[^`), an abbreviation (`*[`), math (`$$`), an end-of-block
/// marker (`^`), a definition (`: ` or a lone `:`), or an HTML tag that
/// is not a span-level element's.
pub open spec fn scan_decline(line: Seq<char>) -> bool {
    let t = line.subrange(crate::text::lead_ws(line, 0), line.len() as int);
    ||| has_prefix(line, "    "@)
    ||| (line.len() > 0 && line[0] == '\t')
    ||| has_prefix(t, "{:"@)
    ||| has_prefix(t, "{::"@)
    ||| has_prefix(t, "[^"@)
    ||| has_prefix(t, "*["@)
    ||| has_prefix(t, "$$"@)
    ||| t == "^"@
    ||| has_prefix(t, ": "@)
    ||| t == ":"@
    ||| (t.len() > 1 && t[0] == '<' && (crate::text::is_ascii_alpha(t[1]) || t[1] == '/' || t[1]
        == '!' || t[1] == '?') && !(crate::html_block::span_open_spec(t)
        || crate::html_block::span_close_spec(t)))
}

/// The construct a line declines as, in the order the scan tests them.
pub open spec fn scan_reason(line: Seq<char>) -> Option<&'static str> {
    let t = line.subrange(crate::text::lead_ws(line, 0), line.len() as int);
    if has_prefix(line, "    "@) || (line.len() > 0 && line[0] == '\t') {
        Some("indented-code")
    } else if has_prefix(t, "{:"@) || has_prefix(t, "{::"@) {
        Some("ald-ial-extension")
    } else if has_prefix(t, "[^"@) {
        Some("footnote")
    } else if has_prefix(t, "*["@) {
        Some("abbreviation")
    } else if has_prefix(t, "$$"@) {
        Some("math")
    } else if t == "^"@ {
        Some("eob-marker")
    } else if has_prefix(t, ": "@) || t == ":"@ {
        Some("definition-list")
    } else if t.len() > 1 && t[0] == '<' && (crate::text::is_ascii_alpha(t[1]) || t[1] == '/' || t[1]
        == '!' || t[1] == '?') && !(crate::html_block::span_open_spec(t)
        || crate::html_block::span_close_spec(t)) {
        Some("html-block")
    } else {
        None
    }
}

pub fn decline_block_scan(line: &[char]) -> (r: Result<(), Error>)
    ensures
        r is Err <==> scan_decline(line@),
        match scan_reason(line@) {
            Some(w) => crate::inline::declines_as(r, w),
            None => r is Ok,
        },
        starts_with_spec4(line@) ==> r is Err,
        (line@.len() > 0 && line@[0] == '\t') ==> r is Err,
        (line@.len() > 0 && is_ascii_alnum(line@[0])) ==> r is Ok,
{
    proof {
        reveal_strlit("    ");
        if line@.len() > 0 && is_ascii_alnum(line@[0]) && has_prefix(line@, "    "@) {
            assert(line@.subrange(0, 4)[0] == line@[0]);
        }
    }
    if starts_with(line, "    ") || (line.len() > 0 && line[0] == '\t') {
        return Err(declined("indented-code"));
    }
    let t = trim_start_ws(line);
    proof {
        if line@.len() > 0 && is_ascii_alnum(line@[0]) {
            assert(!is_uni_ws(line@[0]));
            assert(t@.len() == line@.len());
            assert(t@ =~= line@);
            reveal_strlit("{:");
            reveal_strlit("{::");
            reveal_strlit("[^");
            reveal_strlit("*[");
            reveal_strlit("$$");
            reveal_strlit("^");
            reveal_strlit(": ");
            reveal_strlit(":");
            assert(!has_prefix(t@, "{:"@));
            assert(!has_prefix(t@, "{::"@));
            assert(!has_prefix(t@, "[^"@));
            assert(!has_prefix(t@, "*["@));
            assert(!has_prefix(t@, "$$"@));
            assert(!has_prefix(t@, ": "@));
            assert(t@ != "^"@);
            assert(t@ != ":"@);
        }
    }
    if starts_with(t, "{:") || starts_with(t, "{::") {
        return Err(declined("ald-ial-extension"));
    }
    if starts_with(t, "[^") {
        return Err(declined("footnote"));
    }
    if starts_with(t, "*[") {
        return Err(declined("abbreviation"));
    }
    if starts_with(t, "$$") {
        return Err(declined("math"));
    }
    if eq_str(t, "^") {
        return Err(declined("eob-marker"));
    }
    if starts_with(t, ": ") || eq_str(t, ":") {
        return Err(declined("definition-list"));
    }
    if t.len() > 1 && t[0] == '<' && (crate::text::ascii_alpha(t[1]) || t[1] == '/' || t[1] == '!'
        || t[1] == '?') {
        if !(starts_span_element(t) || starts_span_element_close(t)) {
            return Err(declined("html-block"));
        }
    }
    Ok(())
}

/// The line begins with four spaces.
pub open spec fn starts_with_spec4(s: Seq<char>) -> bool {
    has_prefix(s, "    "@)
}

/// Block openers kramdown accepts behind 1–3 leading spaces (OPT_SPACE):
/// a blockquote, a list marker, a fence.
pub open spec fn opt_space_spec(l: Seq<char>, gfm: bool) -> bool {
    let n = lead_run(l, 0, false);
    let s = l.subrange(n, l.len() as int);
    &&& 1 <= n <= 3
    &&& (s.len() > 0 && s[0] == '>') || list_marker_spec(s) is Some || (gfm && has_prefix(
        s,
        "```"@,
    )) || has_prefix(s, "~~~"@)
}

pub fn opt_space_opener(line: &[char], gfm: bool) -> (r: bool)
    ensures
        r == opt_space_spec(line@, gfm),
{
    let n = lead_count(line, false);
    if !(1 <= n && n <= 3) {
        return false;
    }
    let s = &line[n..line.len()];
    starts_with_char(s, '>') || list_marker(s).is_some() || (gfm && starts_with(s, "```"))
        || starts_with(s, "~~~")
}

/// Start of the run of `c` that ends `s[..to]`.
pub open spec fn trail_char_start(s: Seq<char>, to: int, c: char) -> int
    decreases to,
{
    if 0 < to <= s.len() && s[to - 1] == c {
        trail_char_start(s, to - 1, c)
    } else {
        to
    }
}

/// Interior paragraph line endings that are kramdown corners: after the
/// trailing spaces, two or more backslashes, or a tab.
pub open spec fn eol_corner(l: Seq<char>) -> bool {
    let t = strip_trail(l, false);
    t.len() - trail_char_start(t, t.len() as int, '\\') >= 2 || (t.len() > 0 && t.last() == '\t')
}

/// The corner a line end declines as.
pub open spec fn eol_reason(l: Seq<char>) -> &'static str {
    let t = strip_trail(l, false);
    if t.len() - trail_char_start(t, t.len() as int, '\\') >= 2 {
        "eol-backslash"
    } else {
        "eol-tab"
    }
}

pub fn decline_eol(last: &[char]) -> (r: Result<(), Error>)
    ensures
        r is Err <==> eol_corner(last@),
        r is Err ==> crate::inline::declines_as(r, eol_reason(last@)),
{
    let stripped = trim_end_sp(last, false);
    let mut k: usize = stripped.len();
    while k > 0 && stripped[k - 1] == '\\'
        invariant
            k <= stripped@.len(),
            trail_char_start(stripped@, k as int, '\\') == trail_char_start(
                stripped@,
                stripped@.len() as int,
                '\\',
            ),
        decreases k,
    {
        k = k - 1;
    }
    if stripped.len() - k >= 2 {
        return Err(declined("eol-backslash"));
    }
    if stripped.len() > 0 && stripped[stripped.len() - 1] == '\t' {
        return Err(declined("eol-tab"));
    }
    Ok(())
}

/// Length of the run of `c` at `i`.
pub open spec fn run_spec(s: Seq<char>, i: int, c: char) -> nat
    decreases s.len() - i,
{
    if 0 <= i < s.len() && s[i] == c {
        1 + run_spec(s, i + 1, c)
    } else {
        0
    }
}

pub proof fn lemma_run_spec(s: Seq<char>, i: int, c: char, n: int)
    requires
        0 <= i <= i + n <= s.len(),
        forall|k: int| i <= k < i + n ==> s[k] == c,
        i + n < s.len() ==> s[i + n] != c,
    ensures
        run_spec(s, i, c) == n,
    decreases n,
{
    if n > 0 {
        lemma_run_spec(s, i + 1, c, n - 1);
    }
}

/// From `j` on, where a backtick run of exactly `run` begins (other runs
/// are skipped whole).
pub open spec fn code_close_from(s: Seq<char>, j: int, run: nat) -> Option<int>
    decreases s.len() - j,
{
    if j < 0 || j >= s.len() {
        None
    } else if s[j] == '`' {
        let r2 = run_spec(s, j, '`');
        if r2 == run {
            Some(j)
        } else if 0 < r2 && j + r2 <= s.len() {
            code_close_from(s, j + r2, run)
        } else {
            None
        }
    } else {
        code_close_from(s, j + 1, run)
    }
}

/// A code span opening at `i`: the position past its close and whether it
/// closed (else past the opening run only).
pub open spec fn code_span_end(s: Seq<char>, i: int) -> (int, bool) {
    let run = run_spec(s, i, '`');
    match code_close_from(s, i + run, run) {
        Some(j) => (j + run, true),
        None => (i + run, false),
    }
}

/// Skip a backtick code span opening at `i` (`s[i] == '`'`).
pub fn skip_code_span(s: &[char], i: usize) -> (r: (usize, bool))
    requires
        i < s@.len(),
        s@[i as int] == '`',
    ensures
        i < r.0 <= s@.len(),
        (r.0 as int, r.1) == code_span_end(s@, i as int),
{
    let _n = s.len();
    let run = run_len(s, i, '`');
    proof {
        lemma_run_spec(s@, i as int, '`', run as int);
    }
    let mut j = i + run;
    while j < s.len()
        invariant
            i < j <= s@.len(),
            run == run_spec(s@, i as int, '`'),
            run > 0,
            code_close_from(s@, (i + run) as int, run as nat) == code_close_from(s@, j as int, run as nat),
        decreases s@.len() - j,
    {
        if s[j] == '`' {
            let r2 = run_len(s, j, '`');
            proof {
                lemma_run_spec(s@, j as int, '`', r2 as int);
            }
            if r2 == run {
                return (j + run, true);
            }
            j = j + r2;
        } else {
            j = j + 1;
        }
    }
    (i + run, false)
}

/// Whether a `|` stands outside escapes and balanced code spans, scanning
/// from `i` (`esc`: the previous char was an escaping backslash).
pub open spec fn table_pipe_from(s: Seq<char>, i: int, esc: bool) -> bool
    decreases s.len() - i,
{
    if i < 0 || i >= s.len() {
        false
    } else if esc {
        table_pipe_from(s, i + 1, false)
    } else if s[i] == '\\' {
        table_pipe_from(s, i + 1, true)
    } else if s[i] == '`' {
        let e = code_span_end(s, i).0;
        if i < e <= s.len() {
            table_pipe_from(s, e, false)
        } else {
            false
        }
    } else if s[i] == '|' {
        true
    } else {
        table_pipe_from(s, i + 1, false)
    }
}

/// Does `t` hold an unescaped `|` that is NOT inside a balanced backtick
/// code span? Such a pipe is kramdown's table trigger.
pub fn has_table_pipe(t: &[char]) -> (r: bool)
    ensures
        r == table_pipe_from(t@, 0, false),
{
    let mut i: usize = 0;
    let mut esc = false;
    while i < t.len()
        invariant
            i <= t@.len(),
            table_pipe_from(t@, 0, false) == table_pipe_from(t@, i as int, esc),
        decreases t@.len() - i,
    {
        if esc {
            esc = false;
            i = i + 1;
            continue;
        }
        let c = t[i];
        if c == '\\' {
            esc = true;
            i = i + 1;
        } else if c == '`' {
            let (j, _) = skip_code_span(t, i);
            i = j;
        } else if c == '|' {
            return true;
        } else {
            i = i + 1;
        }
    }
    false
}

/// The views of a vector of lines.
pub open spec fn views(v: Seq<Vec<char>>) -> Seq<Seq<char>> {
    Seq::new(v.len(), |k: int| v[k]@)
}

/// The raw cells of `s` from `i` on, the current cell starting at
/// `start`: split at each `|` outside escapes and code spans, each cell
/// trimmed of spaces/tabs. `None` on an unclosed code span.
pub open spec fn cells_from(s: Seq<char>, i: int, start: int, esc: bool) -> Option<
    Seq<Seq<char>>,
>
    decreases s.len() - i,
{
    if i < 0 || i >= s.len() {
        Some(seq![strip_both(s.subrange(start, s.len() as int), true)])
    } else if esc {
        cells_from(s, i + 1, start, false)
    } else if s[i] == '\\' {
        cells_from(s, i + 1, start, true)
    } else if s[i] == '`' {
        let (e, closed) = code_span_end(s, i);
        if closed && i < e <= s.len() {
            cells_from(s, e, start, false)
        } else {
            None
        }
    } else if s[i] == '|' {
        match cells_from(s, i + 1, i + 1, false) {
            Some(rest) => Some(seq![strip_both(s.subrange(start, i), true)] + rest),
            None => None,
        }
    } else {
        cells_from(s, i + 1, start, false)
    }
}

/// The cells of a table row: the trimmed line split at its top-level pipes,
/// an empty first and last cell (outer pipes) dropped. `None` without a
/// top-level pipe or with an unclosed code span.
pub open spec fn split_cells_spec(line: Seq<char>) -> Option<Seq<Seq<char>>> {
    match cells_from(strip_both(line, true), 0, 0, false) {
        None => None,
        Some(raw) => if raw.len() < 2 {
            None
        } else {
            let a = if raw[0].len() == 0 {
                raw.drop_first()
            } else {
                raw
            };
            Some(
                if a.len() > 1 && a.last().len() == 0 {
                    a.drop_last()
                } else {
                    a
                },
            )
        },
    }
}

pub open spec fn prepend_cells(p: Seq<Seq<char>>, r: Option<Seq<Seq<char>>>) -> Option<
    Seq<Seq<char>>,
> {
    match r {
        Some(x) => Some(p + x),
        None => None,
    }
}

proof fn lemma_cells_len(s: Seq<char>, i: int, start: int, esc: bool)
    ensures
        cells_from(s, i, start, esc) matches Some(c) ==> c.len() >= 1,
    decreases s.len() - i,
{
    if i < 0 || i >= s.len() {
    } else if esc {
        lemma_cells_len(s, i + 1, start, false);
    } else if s[i] == '\\' {
        lemma_cells_len(s, i + 1, start, true);
    } else if s[i] == '`' {
        let (e, closed) = code_span_end(s, i);
        if closed && i < e <= s.len() {
            lemma_cells_len(s, e, start, false);
        }
    } else if s[i] == '|' {
    } else {
        lemma_cells_len(s, i + 1, start, false);
    }
}

/// Text free of `\`, backticks and pipes.
pub open spec fn no_cell_marks(s: Seq<char>, i: int) -> bool {
    forall|k: int| i <= k < s.len() ==> #[trigger] s[k] != '\\' && s[k] != '`' && s[k] != '|'
}

/// Without escapes, code spans or pipes there is no table pipe.
pub proof fn lemma_no_pipe(s: Seq<char>, i: int)
    requires
        0 <= i,
        no_cell_marks(s, i),
    ensures
        !table_pipe_from(s, i, false),
    decreases s.len() - i,
{
    if i < s.len() {
        lemma_no_pipe(s, i + 1);
    }
}

/// Without escapes, code spans or pipes the rest is one cell.
proof fn lemma_one_cell(s: Seq<char>, i: int, start: int)
    requires
        0 <= i,
        no_cell_marks(s, i),
    ensures
        cells_from(s, i, start, false) == Some(seq![strip_both(s.subrange(start, s.len() as int), true)]),
    decreases s.len() - i,
{
    if i < s.len() {
        lemma_one_cell(s, i + 1, start);
    }
}

/// A line of words is no table row.
pub proof fn lemma_word_line_no_cells(l: Seq<char>)
    requires
        word_line(l),
    ensures
        split_cells_spec(l) is None,
        !table_pipe_from(l, 0, false),
{
    lemma_word_line_trimmed(l);
    assert(no_cell_marks(l, 0));
    lemma_one_cell(l, 0, 0);
    lemma_no_pipe(l, 0);
}

/// Split a table row into trimmed cells, honouring `\|` escapes and
/// backtick code spans.
pub fn split_table_cells(line: &[char]) -> (r: Option<Vec<Vec<char>>>)
    ensures
        match split_cells_spec(line@) {
            Some(cs) => r matches Some(v) && views(v@) == cs,
            None => r is None,
        },
        r matches Some(cells) ==> cells@.len() >= 1,
{
    let s = trim_sp(line, true);
    let mut cells: Vec<Vec<char>> = Vec::new();
    let mut start: usize = 0;
    let mut i: usize = 0;
    let mut esc = false;
    while i < s.len()
        invariant
            start <= s@.len(),
            i <= s@.len(),
            start <= i,
            s@ == strip_both(line@, true),
            cells_from(s@, 0, 0, false) == prepend_cells(views(cells@), cells_from(
                s@,
                i as int,
                start as int,
                esc,
            )),
        decreases s@.len() - i,
    {
        if esc {
            esc = false;
            i = i + 1;
            continue;
        }
        let c = s[i];
        if c == '\\' {
            esc = true;
            i = i + 1;
        } else if c == '`' {
            let (j, closed) = skip_code_span(s, i);
            if !closed {
                return None;
            }
            i = j;
        } else if c == '|' {
            let cell = to_vec(trim_sp(&s[start..i], true));
            proof {
                let rest = cells_from(s@, i + 1, i + 1, false);
                assert(views(cells@.push(cell)) =~= views(cells@) + seq![cell@]);
                match rest {
                    Some(x) => {
                        assert(views(cells@) + seq![cell@] + x =~= views(cells@) + (seq![cell@]
                            + x));
                    },
                    None => {},
                }
            }
            cells.push(cell);
            start = i + 1;
            i = i + 1;
        } else {
            i = i + 1;
        }
    }
    let last = to_vec(trim_sp(&s[start..s.len()], true));
    proof {
        assert(views(cells@.push(last)) =~= views(cells@) + seq![last@]);
    }
    cells.push(last);
    assert(cells_from(s@, 0, 0, false) == Some(views(cells@)));
    if cells.len() < 2 {
        return None;
    }
    if cells[0].len() == 0 {
        proof {
            assert(views(cells@.remove(0)) =~= views(cells@).drop_first());
        }
        cells.remove(0);
    }
    if cells.len() > 1 && cells[cells.len() - 1].len() == 0 {
        proof {
            assert(views(cells@.drop_last()) =~= views(cells@).drop_last());
        }
        cells.pop();
    }
    Some(cells)
}

/// A table separator line (`---`, `:--`, `--:`, `:-:`, optional `|`):
/// after trimming, at least one `-` and only `-:| \t`.
pub open spec fn is_sep_spec(t: Seq<char>) -> bool {
    &&& t.len() > 0
    &&& exists|k: int| 0 <= k < t.len() && #[trigger] t[k] == '-'
    &&& forall|k: int|
        0 <= k < t.len() ==> (#[trigger] t[k] == '-' || t[k] == ':' || t[k] == '|' || t[k] == ' '
            || t[k] == '\t')
}

/// Trimming only removes spaces and tabs, which a separator may hold
/// anyway, so the test reads the whole line.
/// Trimming only removes spaces and tabs, which a separator may hold
/// anyway, so the test reads the whole line.
pub fn is_table_sep_line(line: &[char]) -> (r: bool)
    ensures
        r == is_sep_spec(line@),
{
    let t = trim_sp(line, true);
    let ghost a = choose|a: int| #[trigger] crate::text::sp_trimmed_at(line@, t@, a, true);
    let r = sep_chars(t);
    proof {
        lemma_sep_trim(line@, t@, a);
    }
    r
}

proof fn lemma_sep_trim(s: Seq<char>, t: Seq<char>, a: int)
    requires
        crate::text::sp_trimmed_at(s, t, a, true),
    ensures
        is_sep_spec(t) == is_sep_spec(s),
{
    assert forall|k: int| 0 <= k < s.len() && !(a <= k < a + t.len()) implies #[trigger] is_sp_tab(
        s[k],
    ) by {
        assert(crate::text::is_lead(s[k], true));
    }
    if is_sep_spec(t) {
        let j = choose|j: int| 0 <= j < t.len() && #[trigger] t[j] == '-';
        assert(s[a + j] == t[j]);
        assert forall|k: int| 0 <= k < s.len() implies (#[trigger] s[k] == '-' || s[k] == ':' || s[k]
            == '|' || s[k] == ' ' || s[k] == '\t') by {
            if a <= k < a + t.len() {
                assert(t[k - a] == s[k]);
            } else {
                assert(is_sp_tab(s[k]));
            }
        }
    }
    if is_sep_spec(s) {
        let j = choose|j: int| 0 <= j < s.len() && #[trigger] s[j] == '-';
        if !(a <= j < a + t.len()) {
            assert(is_sp_tab(s[j]));
        }
        assert(t[j - a] == s[j]);
        assert forall|k: int| 0 <= k < t.len() implies (#[trigger] t[k] == '-' || t[k] == ':' || t[k]
            == '|' || t[k] == ' ' || t[k] == '\t') by {
            assert(t[k] == s[a + k]);
        }
    }
}

fn sep_chars(t: &[char]) -> (r: bool)
    ensures
        r == is_sep_spec(t@),
{
    if t.len() == 0 {
        return false;
    }
    let mut dash = false;
    let mut k: usize = 0;
    while k < t.len()
        invariant
            k <= t@.len(),
            dash == exists|j: int| 0 <= j < k && #[trigger] t@[j] == '-',
            forall|j: int|
                0 <= j < k ==> (#[trigger] t@[j] == '-' || t@[j] == ':' || t@[j] == '|' || t@[j]
                    == ' ' || t@[j] == '\t'),
        decreases t@.len() - k,
    {
        let b = t[k];
        if b == '-' {
            dash = true;
        } else if !(b == ':' || b == '|' || b == ' ' || b == '\t') {
            return false;
        }
        k = k + 1;
    }
    dash
}

/// `s` split at every `|` (`str::split('|')`).
pub open spec fn pipe_split(s: Seq<char>) -> Seq<Seq<char>>
    decreases s.len(),
{
    if s.len() == 0 {
        seq![Seq::empty()]
    } else {
        let r = pipe_split(s.drop_last());
        if s.last() == '|' {
            r.push(Seq::empty())
        } else {
            r.update(r.len() - 1, r.last().push(s.last()))
        }
    }
}

proof fn lemma_pipe_split_nonempty(s: Seq<char>)
    ensures
        pipe_split(s).len() >= 1,
    decreases s.len(),
{
    if s.len() > 0 {
        lemma_pipe_split_nonempty(s.drop_last());
    }
}

/// A separator cell's alignment: colons at both ends center it, a leading
/// one aligns left, a trailing one right.
pub open spec fn align_of(c: Seq<char>) -> Align {
    let t = strip_both(c, true);
    let l = t.len() > 0 && t[0] == ':';
    let r = t.len() > 0 && t[t.len() - 1] == ':';
    if l && r {
        Align::Center
    } else if l {
        Align::Left
    } else if r {
        Align::Right
    } else {
        Align::Unset
    }
}

/// A separator line's cell text: trimmed, without one outer `|` at each
/// end.
pub open spec fn sep_body(line: Seq<char>) -> Seq<char> {
    let s0 = strip_both(line, true);
    let a: int = if s0.len() > 0 && s0[0] == '|' {
        1
    } else {
        0
    };
    let b: int = if s0.len() > a && s0[s0.len() - 1] == '|' {
        s0.len() - 1
    } else {
        s0.len() as int
    };
    s0.subrange(a, b)
}

fn align_cell(c: &[char]) -> (r: Align)
    ensures
        r == align_of(c@),
{
    let t = trim_sp(c, true);
    let l = t.len() > 0 && t[0] == ':';
    let r = t.len() > 0 && t[t.len() - 1] == ':';
    if l && r {
        Align::Center
    } else if l {
        Align::Left
    } else if r {
        Align::Right
    } else {
        Align::Unset
    }
}

/// Per-column alignment from a separator line's cells.
pub fn sep_align_cells(line: &[char]) -> (r: Vec<Align>)
    ensures
        r@ == pipe_split(sep_body(line@)).map_values(|c: Seq<char>| align_of(c)),
{
    let s0 = trim_sp(line, true);
    let mut a: usize = 0;
    let mut b: usize = s0.len();
    if b > a && s0[a] == '|' {
        a = a + 1;
    }
    if b > a && s0[b - 1] == '|' {
        b = b - 1;
    }
    let s = &s0[a..b];
    assert(s@ == sep_body(line@));
    let mut out: Vec<Align> = Vec::new();
    let mut start: usize = 0;
    let mut i: usize = 0;
    assert(s@.subrange(0, 0) =~= Seq::<char>::empty());
    while i < s.len()
        invariant
            start <= i <= s@.len(),
            pipe_split(s@.subrange(0, i as int)).len() >= 1,
            out@ == pipe_split(s@.subrange(0, i as int)).drop_last().map_values(
                |c: Seq<char>| align_of(c),
            ),
            pipe_split(s@.subrange(0, i as int)).last() == s@.subrange(start as int, i as int),
        decreases s@.len() - i,
    {
        let ghost p = s@.subrange(0, i as int);
        let ghost q = s@.subrange(0, i + 1);
        assert(q.drop_last() =~= p);
        assert(q.last() == s@[i as int]);
        if s[i] == '|' {
            let al = align_cell(&s[start..i]);
            out.push(al);
            start = i + 1;
            assert(pipe_split(q).drop_last() =~= pipe_split(p));
            assert(out@ =~= pipe_split(q).drop_last().map_values(|c: Seq<char>| align_of(c)));
            assert(s@.subrange(start as int, i + 1) =~= Seq::<char>::empty());
        } else {
            assert(pipe_split(q).drop_last() =~= pipe_split(p).drop_last());
            assert(s@.subrange(start as int, i + 1) =~= s@.subrange(start as int, i as int).push(
                s@[i as int],
            ));
        }
        i = i + 1;
    }
    let al = align_cell(&s[start..s.len()]);
    out.push(al);
    proof {
        let full = pipe_split(s@.subrange(0, s@.len() as int));
        assert(s@.subrange(0, s@.len() as int) =~= s@);
        assert(full.drop_last().push(full.last()) =~= full);
        assert(out@ =~= full.map_values(|c: Seq<char>| align_of(c)));
    }
    out
}

/// The last place `p` occurs in `s`.
pub open spec fn last_occ(s: Seq<char>, p: Seq<char>) -> Option<int> {
    if exists|k: int| #[trigger] occurs_at(s, p, k) && forall|j: int| k < j ==> !occurs_at(s, p, j) {
        Some(choose|k: int| #[trigger] occurs_at(s, p, k) && forall|j: int| k < j ==> !occurs_at(s, p, j))
    } else {
        None
    }
}

proof fn lemma_last_occ(s: Seq<char>, p: Seq<char>, r: Option<usize>)
    requires
        match r {
            Some(k) => occurs_at(s, p, k as int) && forall|j: int| k < j ==> !occurs_at(s, p, j),
            None => forall|j: int| !occurs_at(s, p, j),
        },
    ensures
        last_occ(s, p) == match r {
            Some(k) => Some(k as int),
            None => None::<int>,
        },
{
    match r {
        Some(k) => {
            assert(occurs_at(s, p, k as int) && forall|j: int| k < j ==> !occurs_at(s, p, j));
            let o = choose|x: int| #[trigger] occurs_at(s, p, x) && forall|j: int| x < j ==> !occurs_at(s, p, j);
            if o < k {
                assert(occurs_at(s, p, k as int));
            } else if o > k {
                assert(occurs_at(s, p, o));
            }
        },
        None => {},
    }
}

/// A header-id char: ASCII letter or digit, `-` or `_`.
pub open spec fn id_char(c: char) -> bool {
    is_ascii_alnum(c) || c == '-' || c == '_'
}

/// The ` {#id}` shorthand ending an ATX heading's text: the text (right-
/// trimmed) ends in `}`, the last `{#` before it opens a non-empty id of
/// id chars, and before it stands whitespace and then non-empty text.
/// Gives that text and the id.
pub open spec fn header_id_spec(text: Seq<char>) -> Option<(Seq<char>, Seq<char>)> {
    let t = text.subrange(0, trail_ws_end(text, text.len() as int));
    if t.len() == 0 || t[t.len() - 1] != '}' {
        None
    } else {
        let inner = t.subrange(0, t.len() - 1);
        match last_occ(inner, "{#"@) {
            None => None,
            Some(o) => {
                let id = inner.subrange(o + 2, inner.len() as int);
                let before = inner.subrange(0, o);
                let bt = before.subrange(0, trail_ws_end(before, before.len() as int));
                if id.len() == 0 || !(forall|k: int| 0 <= k < id.len() ==> #[trigger] id_char(id[k]))
                    || bt.len() == 0 || before.len() == bt.len() {
                    None
                } else {
                    Some((bt, id))
                }
            },
        }
    }
}

/// Every char of `id` is an id char.
fn all_id_chars(id: &[char]) -> (r: bool)
    ensures
        r == forall|k: int| 0 <= k < id@.len() ==> #[trigger] id_char(id@[k]),
{
    let mut k: usize = 0;
    while k < id.len()
        invariant
            k <= id@.len(),
            forall|m: int| 0 <= m < k ==> #[trigger] id_char(id@[m]),
        decreases id@.len() - k,
    {
        if !(ascii_alnum(id[k]) || id[k] == '-' || id[k] == '_') {
            assert(!id_char(id@[k as int]));
            return false;
        }
        k = k + 1;
    }
    true
}

/// kramdown's ATX header-id shorthand: a trailing ` {#id}` (whitespace
/// before `{#`, non-empty preceding text, id of `[A-Za-z0-9_-]`) sets the
/// heading's id and is stripped from the text. Returns `(text_without_id,
/// id)`.
pub fn extract_header_id(text: &[char]) -> (r: Option<(Vec<char>, Vec<char>)>)
    ensures
        match header_id_spec(text@) {
            Some((b, id)) => r matches Some((b2, id2)) && b2@ == b && id2@ == id,
            None => r is None,
        },
{
    let t = trim_end_ws(text);
    if t.len() == 0 || t[t.len() - 1] != '}' {
        return None;
    }
    let inner = &t[0..t.len() - 1];
    let pat = chars_of("{#");
    let found = rfind_seq(inner, pat.as_slice());
    proof {
        lemma_last_occ(inner@, pat@, found);
    }
    let open = match found {
        Some(o) => o,
        None => {
            return None;
        },
    };
    proof {
        reveal_strlit("{#");
    }
    let id = &inner[open + 2..inner.len()];
    if id.len() == 0 {
        return None;
    }
    if !all_id_chars(id) {
        return None;
    }
    let before = &inner[0..open];
    let before_trimmed = trim_end_ws(before);
    if before_trimmed.len() == 0 || before.len() == before_trimmed.len() {
        return None;
    }
    Some((to_vec(before_trimmed), to_vec(id)))
}

/// From `from` to the end, only spaces and tabs.
pub open spec fn sp_tab_to_end(s: Seq<char>, from: int) -> bool {
    forall|k: int| from <= k < s.len() ==> is_sp_tab(#[trigger] s[k])
}

/// The first `j` from `j` on holding the quote `q` with only spaces and
/// tabs after it.
pub open spec fn def_title_close(s: Seq<char>, q: char, j: int) -> Option<int>
    decreases s.len() - j,
{
    if j < 2 || j >= s.len() {
        None
    } else if s[j] == q && sp_tab_to_end(s, j + 1) {
        Some(j)
    } else {
        def_title_close(s, q, j + 1)
    }
}

/// A definition's quoted title: `s` opens with `"` or `'`, and the text up
/// to the first matching quote (after at least one char) that only spaces
/// and tabs follow.
pub open spec fn def_title_spec(s: Seq<char>) -> Option<Seq<char>> {
    if s.len() == 0 || (s[0] != '"' && s[0] != '\'') {
        None
    } else {
        match def_title_close(s, s[0], 2) {
            Some(j) => Some(s.subrange(1, j)),
            None => None,
        }
    }
}

/// A trailing `"…"` / `'…'` title in a link definition: `s` begins with the
/// quote, and the first matching quote (after at least one char) must be
/// followed only by spaces/tabs.
pub fn parse_def_title(s: &[char]) -> (r: Option<Vec<char>>)
    ensures
        match def_title_spec(s@) {
            Some(t) => r matches Some(v) && v@ == t,
            None => r is None,
        },
{
    if s.len() == 0 {
        return None;
    }
    let q = s[0];
    if q != '"' && q != '\'' {
        return None;
    }
    let mut j: usize = 2;
    while j < s.len()
        invariant
            2 <= j,
            s@.len() > 0,
            q == s@[0],
            q == '"' || q == '\'',
            def_title_close(s@, q, 2) == def_title_close(s@, q, j as int),
        decreases s@.len() - j,
    {
        if s[j] == q {
            let mut k = j + 1;
            while k < s.len() && (s[k] == ' ' || s[k] == '\t')
                invariant
                    j < k <= s@.len(),
                    forall|m: int| j < m < k ==> is_sp_tab(#[trigger] s@[m]),
                decreases s@.len() - k,
            {
                k = k + 1;
            }
            if k == s.len() {
                assert(sp_tab_to_end(s@, j + 1));
                return Some(to_vec(&s[1..j]));
            }
            assert(!is_sp_tab(s@[k as int]));
            assert(!sp_tab_to_end(s@, j + 1));
        }
        j = j + 1;
    }
    None
}

/// A line opening a link definition: `[` behind at most three spaces.
pub open spec fn def_opener(l: Seq<char>) -> bool {
    let n = lead_run(l, 0, false);
    n <= 3 && n < l.len() && l[n] == '['
}

/// Where a definition's title opens: the first `q >= 1` holding a quote
/// right after a space or tab.
pub open spec fn def_title_open(s: Seq<char>, q: int) -> Option<int>
    decreases s.len() - q,
{
    if q < 1 || q >= s.len() {
        None
    } else if (s[q] == '"' || s[q] == '\'') && is_sp_tab(s[q - 1]) {
        Some(q)
    } else {
        def_title_open(s, q + 1)
    }
}

/// A clean single-line link definition `[id]: dest "title"` behind at
/// most three spaces: its normalized id, destination (bare, or in `<…>`)
/// and optional title.
pub open spec fn link_def_spec(line: Seq<char>) -> Option<(Seq<char>, Seq<char>, Option<Seq<char>>)> {
    let lead = lead_run(line, 0, false);
    let l = line.subrange(lead, line.len() as int);
    let t = l.subrange(1, l.len() as int);
    if lead > 3 || l.len() == 0 || l[0] != '[' || (t.len() > 0 && t[0] == '^') {
        None
    } else {
        match crate::inline::first_at(t, 0, ']') {
            None => None,
            Some(close) => {
                let id = crate::inline::norm_state(t.subrange(0, close)).0;
                let after = t.subrange(close + 1, t.len() as int);
                if id.len() == 0 || after.len() == 0 || after[0] != ':' {
                    None
                } else {
                    let rest = strip_both(after.subrange(1, after.len() as int), true);
                    if rest.len() == 0 {
                        None
                    } else if rest[0] == '<' {
                        let r = rest.subrange(1, rest.len() as int);
                        match crate::inline::first_at(r, 0, '>') {
                            None => None,
                            Some(end) => {
                                let aft = strip_lead(r.subrange(end + 1, r.len() as int), true);
                                if aft.len() == 0 {
                                    Some((id, r.subrange(0, end), None))
                                } else {
                                    match def_title_spec(aft) {
                                        None => None,
                                        Some(tt) => Some((id, r.subrange(0, end), Some(tt))),
                                    }
                                }
                            },
                        }
                    } else {
                        match def_title_open(rest, 1) {
                            None => Some((id, rest, None)),
                            Some(q) => {
                                let dest = strip_trail(rest.subrange(0, q), true);
                                if dest.len() == 0 {
                                    None
                                } else {
                                    match def_title_spec(rest.subrange(q, rest.len() as int)) {
                                        None => None,
                                        Some(tt) => Some((id, dest, Some(tt))),
                                    }
                                }
                            },
                        }
                    }
                }
            },
        }
    }
}

/// Parse a link reference definition: `[id]: dest`, the destination bare or
/// in `<…>`, with an optional trailing quoted title, behind ≤3 spaces.
/// `None` unless the whole line is a clean single-line definition.
pub fn parse_link_def(line: &[char]) -> (r: Option<LinkDef>)
    ensures
        r is Some ==> def_opener(line@),
        match link_def_spec(line@) {
            None => r is None,
            Some((id, url, title)) => r matches Some(d) && d.id@ == id && d.url@ == url
                && crate::render::opt_vec(d.title) == title,
        },
{
    let lead = lead_count(line, false);
    if lead > 3 {
        return None;
    }
    let l = &line[lead..line.len()];
    if l.len() == 0 || l[0] != '[' {
        return None;
    }
    assert(def_opener(line@));
    let t = &l[1..l.len()];
    if t.len() > 0 && t[0] == '^' {
        return None;
    }
    let found = find_char(t, ']');
    proof {
        crate::inline::lemma_first_at(t@, 0, ']', found);
    }
    let close = match found {
        Some(c) => c,
        None => {
            return None;
        },
    };
    let id = normalize_ref_id(&t[0..close]);
    if id.len() == 0 {
        return None;
    }
    let after = &t[close + 1..t.len()];
    if after.len() == 0 || after[0] != ':' {
        return None;
    }
    let rest = trim_sp(&after[1..after.len()], true);
    if rest.len() == 0 {
        return None;
    }
    if rest[0] == '<' {
        let r = &rest[1..rest.len()];
        let found2 = find_char(r, '>');
        proof {
            crate::inline::lemma_first_at(r@, 0, '>', found2);
        }
        let end = match found2 {
            Some(e) => e,
            None => {
                return None;
            },
        };
        let aft = trim_start_sp(&r[end + 1..r.len()], true);
        let title = if aft.len() == 0 {
            None
        } else {
            match parse_def_title(aft) {
                Some(t) => Some(t),
                None => {
                    return None;
                },
            }
        };
        return Some(LinkDef { id, url: to_vec(&r[0..end]), title });
    }
    let mut q: usize = 1;
    while q < rest.len()
        invariant
            1 <= q,
            def_opener(line@),
            def_title_open(rest@, 1) == def_title_open(rest@, q as int),
            link_def_spec(line@) == match def_title_open(rest@, 1) {
                None => Some((id@, rest@, None)),
                Some(q) => {
                    let dest = strip_trail(rest@.subrange(0, q), true);
                    if dest.len() == 0 {
                        None
                    } else {
                        match def_title_spec(rest@.subrange(q, rest@.len() as int)) {
                            None => None,
                            Some(tt) => Some((id@, dest, Some(tt))),
                        }
                    }
                },
            },
        decreases rest@.len() - q,
    {
        if (rest[q] == '"' || rest[q] == '\'') && (rest[q - 1] == ' ' || rest[q - 1] == '\t') {
            let dest = trim_end_sp(&rest[0..q], true);
            if dest.len() == 0 {
                return None;
            }
            let title = match parse_def_title(&rest[q..rest.len()]) {
                Some(t) => t,
                None => {
                    return None;
                },
            };
            return Some(LinkDef { id, url: to_vec(dest), title: Some(title) });
        }
        q = q + 1;
    }
    Some(LinkDef { id, url: to_vec(rest), title: None })
}

/// The block link-definition shape `[id]:`: behind at most three spaces,
/// a bracketed id (not a footnote `[^`) with more than whitespace in it,
/// then a colon.
pub open spec fn def_shape(line: Seq<char>) -> bool {
    let lead = lead_run(line, 0, false);
    let l = line.subrange(lead, line.len() as int);
    let t = l.subrange(1, l.len() as int);
    &&& lead <= 3
    &&& l.len() > 0 && l[0] == '['
    &&& !(t.len() > 0 && t[0] == '^')
    &&& match crate::inline::first_at(t, 0, ']') {
        None => false,
        Some(close) => strip_both(t.subrange(0, close), true).len() > 0 && close + 1 < t.len()
            && t[close + 1] == ':',
    }
}

/// Whether `line` has the block link-definition SHAPE `[id]:` (≤3-space
/// indent, non-empty bracket id, then a colon).
pub fn looks_like_link_def(line: &[char]) -> (r: bool)
    ensures
        r ==> def_opener(line@),
        r == def_shape(line@),
{
    let lead = lead_count(line, false);
    if lead > 3 {
        return false;
    }
    let l = &line[lead..line.len()];
    if l.len() == 0 || l[0] != '[' {
        return false;
    }
    let t = &l[1..l.len()];
    if t.len() > 0 && t[0] == '^' {
        return false;
    }
    let found = find_char(t, ']');
    proof {
        crate::inline::lemma_first_at(t@, 0, ']', found);
    }
    let close = match found {
        Some(c) => c,
        None => {
            return false;
        },
    };
    trim_sp(&t[0..close], true).len() > 0 && close + 1 < t.len() && t[close + 1] == ':'
}

/// A definition as its id, url and title.
pub type DefV = (Seq<char>, Seq<char>, Option<Seq<char>>);

/// The views of a definition list.
pub open spec fn defs_v(ds: Seq<LinkDef>) -> Seq<DefV> {
    Seq::new(ds.len(), |i: int| (ds[i].id@, ds[i].url@, crate::render::opt_vec(ds[i].title)))
}

/// Some definition in `acc` has id `id`.
pub open spec fn has_def_id(acc: Seq<DefV>, id: Seq<char>) -> bool {
    exists|i: int| 0 <= i < acc.len() && (#[trigger] acc[i]).0 == id
}

/// The definition pre-pass from line `idx` on (`at_b`: a definition may
/// open here): the definitions kept (the first of each id) and the line
/// mask, or `Err` for a boundary line of definition shape that does not
/// parse.
pub open spec fn defs_scan(
    lines: Seq<Vec<char>>,
    idx: int,
    at_b: bool,
    acc: Seq<DefV>,
    mask: Seq<bool>,
) -> Result<(Seq<DefV>, Seq<bool>), ()>
    decreases lines.len() - idx,
{
    if idx < 0 || idx >= lines.len() {
        Ok((acc, mask))
    } else {
        let l = lines[idx]@;
        if crate::block::blank_spec(l) {
            defs_scan(lines, idx + 1, true, acc, mask.push(false))
        } else if at_b && link_def_spec(l) is Some {
            let d = link_def_spec(l)->0;
            defs_scan(
                lines,
                idx + 1,
                true,
                if has_def_id(acc, d.0) {
                    acc
                } else {
                    acc.push(d)
                },
                mask.push(true),
            )
        } else if at_b && def_shape(l) {
            Err(())
        } else {
            defs_scan(lines, idx + 1, false, acc, mask.push(false))
        }
    }
}

/// Pre-pass: collect block-level link reference definitions and mark each
/// definition's line for removal from the block stream. A definition is
/// recognized only at a block boundary (document start, after a blank, or
/// after another definition); the first definition of an id wins. A
/// boundary line with the definition SHAPE that doesn't parse declines.
pub fn collect_link_defs(lines: &Vec<Vec<char>>) -> (r: Result<(Vec<LinkDef>, Vec<bool>), Error>)
    ensures
        r matches Ok((_, mask)) ==> mask@.len() == lines@.len(),
        r matches Ok((_, mask)) ==> forall|k: int|
            0 <= k < lines@.len() && #[trigger] mask@[k] ==> def_opener(lines@[k]@),
        r matches Ok((defs, _)) ==> forall|i: int, j: int|
            0 <= i < j < defs@.len() ==> #[trigger] defs@[i].id@ != #[trigger] defs@[j].id@,
        r is Err ==> exists|k: int| 0 <= k < lines@.len() && def_opener(#[trigger] lines@[k]@),
        match defs_scan(lines@, 0, true, Seq::empty(), Seq::empty()) {
            Err(_) => crate::inline::declines_as(r, "link-definition"),
            Ok((ds, m)) => r matches Ok((defs, mask)) && defs_v(defs@) == ds && mask@ == m,
        },
{
    let mut defs: Vec<LinkDef> = Vec::new();
    let mut mask: Vec<bool> = Vec::new();
    let mut at_boundary = true;
    let mut idx: usize = 0;
    assert(defs_v(defs@) =~= Seq::<DefV>::empty());
    assert(mask@ =~= Seq::<bool>::empty());
    while idx < lines.len()
        invariant
            idx <= lines@.len(),
            mask@.len() == idx,
            forall|k: int| 0 <= k < idx && #[trigger] mask@[k] ==> def_opener(lines@[k]@),
            forall|i: int, j: int|
                0 <= i < j < defs@.len() ==> #[trigger] defs@[i].id@ != #[trigger] defs@[j].id@,
            defs_scan(lines@, 0, true, Seq::empty(), Seq::empty()) == defs_scan(
                lines@,
                idx as int,
                at_boundary,
                defs_v(defs@),
                mask@,
            ),
        decreases lines@.len() - idx,
    {
        let line = lines[idx].as_slice();
        if is_blank(line) {
            at_boundary = true;
            mask.push(false);
            idx = idx + 1;
            continue;
        }
        if at_boundary {
            match parse_link_def(line) {
                Some(d) => {
                    let found = crate::inline::lookup_def(&defs, d.id.as_slice());
                    let ghost dv = defs_v(defs@);
                    proof {
                        if found is None {
                            assert(!has_def_id(dv, d.id@)) by {
                                if has_def_id(dv, d.id@) {
                                    let i = choose|i: int| 0 <= i < dv.len() && (#[trigger] dv[i]).0 == d.id@;
                                    assert(defs@[i].id@ == d.id@);
                                }
                            }
                        } else {
                            let i = choose|i: int|
                                0 <= i < defs@.len() && #[trigger] defs@[i].id@ == d.id@;
                            assert(dv[i].0 == d.id@);
                        }
                    }
                    if found.is_none() {
                        let ghost d0 = d;
                        defs.push(d);
                        proof {
                            assert(defs_v(defs@) =~= dv.push(
                                (d0.id@, d0.url@, crate::render::opt_vec(d0.title)),
                            ));
                        }
                    }
                    mask.push(true);
                    idx = idx + 1;
                    continue;
                },
                None => {
                    if looks_like_link_def(line) {
                        assert(def_opener(lines@[idx as int]@));
                        return Err(declined("link-definition"));
                    }
                },
            }
        }
        at_boundary = false;
        mask.push(false);
        idx = idx + 1;
    }
    Ok((defs, mask))
}

/// Split `src` on `\n` into lines — a trailing `\n` yields a final empty
/// line (`str::split('\n')`).
pub open spec fn split_spec(s: Seq<char>) -> Seq<Seq<char>>
    decreases s.len(),
{
    if s.len() == 0 {
        seq![Seq::empty()]
    } else {
        let rest = split_spec(s.drop_last());
        if s.last() == '\n' {
            rest.push(Seq::empty())
        } else {
            rest.update(rest.len() - 1, rest.last().push(s.last()))
        }
    }
}

/// Text without a newline is one line.
pub proof fn lemma_split_one_line(s: Seq<char>)
    requires
        forall|k: int| 0 <= k < s.len() ==> #[trigger] s[k] != '\n',
    ensures
        split_spec(s) == seq![s],
    decreases s.len(),
{
    if s.len() > 0 {
        lemma_split_one_line(s.drop_last());
        assert(s.last() != '\n');
        assert(s.drop_last().push(s.last()) =~= s);
        assert(seq![s.drop_last()].update(0, s.drop_last().push(s.last())) =~= seq![s]);
    } else {
        assert(s =~= Seq::<char>::empty());
    }
}

pub proof fn lemma_split_nonempty(s: Seq<char>)
    ensures
        split_spec(s).len() >= 1,
    decreases s.len(),
{
    if s.len() > 0 {
        lemma_split_nonempty(s.drop_last());
    }
}

/// The lines of `src`, split on `\n` exactly as `str::split('\n')`.
pub fn split_lines(src: &[char]) -> (r: Vec<Vec<char>>)
    ensures
        r@.len() == split_spec(src@).len(),
        forall|k: int| 0 <= k < r@.len() ==> #[trigger] r@[k]@ == split_spec(src@)[k],
{
    let mut out: Vec<Vec<char>> = Vec::new();
    let mut cur: Vec<char> = Vec::new();
    let mut i: usize = 0;
    proof {
        assert(src@.subrange(0, 0) =~= Seq::<char>::empty());
    }
    while i < src.len()
        invariant
            i <= src@.len(),
            out@.len() + 1 == split_spec(src@.subrange(0, i as int)).len(),
            forall|k: int| 0 <= k < out@.len() ==> #[trigger] out@[k]@ == split_spec(
                src@.subrange(0, i as int),
            )[k],
            cur@ == split_spec(src@.subrange(0, i as int)).last(),
        decreases src@.len() - i,
    {
        let c = src[i];
        let ghost pre = src@.subrange(0, i as int);
        proof {
            assert(src@.subrange(0, i + 1).drop_last() =~= pre);
            lemma_split_nonempty(pre);
        }
        if c == '\n' {
            let mut done: Vec<char> = Vec::new();
            std::mem::swap(&mut done, &mut cur);
            out.push(done);
        } else {
            cur.push(c);
        }
        i = i + 1;
    }
    proof {
        assert(src@.subrange(0, src@.len() as int) =~= src@);
        lemma_split_nonempty(src@);
    }
    out.push(cur);
    out
}

} // verus!
