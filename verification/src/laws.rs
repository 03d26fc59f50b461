//! Properties of the library as a whole, stated over the spec functions the
//! executable code is proved against.

use vstd::prelude::*;
use crate::escape::{esc_text, esc_attr, esc_text_char, esc_attr_char};
use crate::lines::{split_spec, lemma_split_nonempty};
use crate::render::spans_html;
use crate::ast::Span;
use crate::text::{is_lead, lead_run, trail_run, strip_both, strip_lead, is_uni_ws};
use crate::lines::{link_def_spec, def_shape};
use crate::inline::{norm_state, id_lower};
use crate::slug::dedup_result;
use crate::escape::decimal;
use crate::prepare::{cnt_bump, no_ids};
use crate::ast::Align;
use crate::ial::Attr;
use crate::render::{cell_html, pad, span_html};
use crate::lines::align_of;
use crate::slug::{gfm_slug_spec, slug_body, slug_char_spec, SlugChar, has_unsupported};
use crate::typography::{smart_quote_spec, is_word_spec};
use crate::span_model::{code_step, flush_v, SpanV};
use crate::html_block::first_occ;
use crate::text::occurs_at;

verus! {

/// Escaped text never holds a raw `<` or `>`: whatever a text node holds,
/// it cannot open or close a tag in the output.
pub proof fn law_escaped_text_has_no_angle_brackets(s: Seq<char>)
    ensures
        forall|k: int| 0 <= k < esc_text(s).len() ==> #[trigger] esc_text(s)[k] != '<' && esc_text(
            s,
        )[k] != '>',
    decreases s.len(),
{
    reveal_strlit("&amp;");
    reveal_strlit("&lt;");
    reveal_strlit("&gt;");
    if s.len() > 0 {
        law_escaped_text_has_no_angle_brackets(s.drop_last());
        let a = esc_text(s.drop_last());
        let b = esc_text_char(s.last());
        assert(esc_text(s) == a + b);
        assert forall|k: int| 0 <= k < esc_text(s).len() implies #[trigger] esc_text(s)[k] != '<'
            && esc_text(s)[k] != '>' by {
            if k < a.len() {
                assert(esc_text(s)[k] == a[k]);
            } else {
                assert(esc_text(s)[k] == b[k - a.len()]);
            }
        }
    }
}

/// An escaped attribute value never holds a raw `"`, `<` or `>`: it cannot
/// end the quoted attribute or the tag it sits in.
pub proof fn law_escaped_attr_stays_quoted(s: Seq<char>)
    ensures
        forall|k: int|
            0 <= k < esc_attr(s).len() ==> #[trigger] esc_attr(s)[k] != '"' && esc_attr(s)[k] != '<'
                && esc_attr(s)[k] != '>',
    decreases s.len(),
{
    reveal_strlit("&amp;");
    reveal_strlit("&lt;");
    reveal_strlit("&gt;");
    reveal_strlit("&quot;");
    if s.len() > 0 {
        law_escaped_attr_stays_quoted(s.drop_last());
        let a = esc_attr(s.drop_last());
        let b = esc_attr_char(s.last());
        assert(esc_attr(s) == a + b);
        assert forall|k: int| 0 <= k < esc_attr(s).len() implies #[trigger] esc_attr(s)[k] != '"'
            && esc_attr(s)[k] != '<' && esc_attr(s)[k] != '>' by {
            if k < a.len() {
                assert(esc_attr(s)[k] == a[k]);
            } else {
                assert(esc_attr(s)[k] == b[k - a.len()]);
            }
        }
    }
}

/// Escaping works char by char: escaping a concatenation is the
/// concatenation of the escapes.
pub proof fn law_escape_text_concat(a: Seq<char>, b: Seq<char>)
    ensures
        esc_text(a + b) == esc_text(a) + esc_text(b),
    decreases b.len(),
{
    if b.len() == 0 {
        assert(a + b =~= a);
        assert(esc_text(a) + esc_text(b) =~= esc_text(a));
    } else {
        law_escape_text_concat(a, b.drop_last());
        assert((a + b).drop_last() =~= a + b.drop_last());
        assert((a + b).last() == b.last());
        assert(esc_text(a) + esc_text(b) =~= esc_text(a) + esc_text(b.drop_last()) + esc_text_char(
            b.last(),
        ));
    }
}

/// Inline conversion works span by span: the HTML of a concatenation of
/// span sequences is the concatenation of their HTML.
pub proof fn law_spans_html_concat(a: Seq<Span>, b: Seq<Span>, cls: Option<Seq<char>>)
    ensures
        spans_html(a + b, cls) == spans_html(a, cls) + spans_html(b, cls),
    decreases b.len(),
{
    if b.len() == 0 {
        assert(a + b =~= a);
        assert(spans_html(a, cls) + spans_html(b, cls) =~= spans_html(a, cls));
    } else {
        law_spans_html_concat(a, b.drop_last(), cls);
        assert((a + b).drop_last() =~= a + b.drop_last());
        assert((a + b).last() == b.last());
        assert(spans_html(a, cls) + spans_html(b, cls) =~= spans_html(a, cls) + spans_html(
            b.drop_last(),
            cls,
        ) + crate::render::span_html(b.last(), cls));
    }
}

/// Lines joined back with `\n` between them.
pub open spec fn join_lines_nl(ls: Seq<Seq<char>>) -> Seq<char>
    decreases ls.len(),
{
    if ls.len() == 0 {
        Seq::empty()
    } else if ls.len() == 1 {
        ls[0]
    } else {
        join_lines_nl(ls.drop_last()) + seq!['\n'] + ls.last()
    }
}

/// Splitting the source into lines loses nothing: joining the lines with
/// `\n` gives the source back.
pub proof fn law_split_lines_rejoin(s: Seq<char>)
    ensures
        join_lines_nl(split_spec(s)) == s,
    decreases s.len(),
{
    if s.len() == 0 {
        assert(split_spec(s) =~= seq![Seq::<char>::empty()]);
    } else {
        let p = s.drop_last();
        law_split_lines_rejoin(p);
        lemma_split_nonempty(p);
        let rest = split_spec(p);
        if s.last() == '\n' {
            assert(split_spec(s) == rest.push(Seq::empty()));
            assert(rest.push(Seq::<char>::empty()).drop_last() =~= rest);
            assert(join_lines_nl(split_spec(s)) =~= p + seq!['\n']);
            assert(p + seq!['\n'] =~= s);
        } else {
            let upd = rest.update(rest.len() - 1, rest.last().push(s.last()));
            assert(split_spec(s) == upd);
            if rest.len() == 1 {
                assert(join_lines_nl(upd) == upd[0]);
                assert(join_lines_nl(rest) == rest[0]);
            } else {
                assert(upd.drop_last() =~= rest.drop_last());
                assert(join_lines_nl(upd) == join_lines_nl(rest.drop_last()) + seq!['\n']
                    + rest.last().push(s.last()));
            }
            assert(join_lines_nl(split_spec(s)) =~= p.push(s.last()));
        }
        assert(p.push(s.last()) =~= s);
    }
}

proof fn lemma_lead_prefix(s: Seq<char>, from: int, tabs: bool)
    requires
        0 <= from <= s.len(),
    ensures
        from <= lead_run(s, from, tabs) <= s.len(),
        forall|k: int| from <= k < lead_run(s, from, tabs) ==> is_lead(#[trigger] s[k], tabs),
    decreases s.len() - from,
{
    if from < s.len() && is_lead(s[from], tabs) {
        lemma_lead_prefix(s, from + 1, tabs);
    }
}

proof fn lemma_trail_suffix(s: Seq<char>, to: int, tabs: bool)
    requires
        0 <= to <= s.len(),
    ensures
        0 <= trail_run(s, to, tabs) <= to,
        forall|k: int| trail_run(s, to, tabs) <= k < to ==> is_lead(#[trigger] s[k], tabs),
    decreases to,
{
    if 0 < to && is_lead(s[to - 1], tabs) {
        lemma_trail_suffix(s, to - 1, tabs);
    }
}

proof fn lemma_norm_of_ws(x: Seq<char>)
    requires
        forall|k: int| 0 <= k < x.len() ==> is_uni_ws(#[trigger] x[k]),
    ensures
        norm_state(x).0.len() == 0,
    decreases x.len(),
{
    if x.len() > 0 {
        assert(is_uni_ws(x[x.len() - 1]));
        lemma_norm_of_ws(x.drop_last());
    }
}

proof fn lemma_stripped_empty(x: Seq<char>)
    requires
        strip_both(x, true).len() == 0,
    ensures
        forall|k: int| 0 <= k < x.len() ==> is_lead(#[trigger] x[k], true),
{
    lemma_lead_prefix(x, 0, true);
    let a = lead_run(x, 0, true);
    let u = strip_lead(x, true);
    lemma_trail_suffix(u, u.len() as int, true);
    assert forall|k: int| 0 <= k < x.len() implies is_lead(#[trigger] x[k], true) by {
        if k >= a {
            assert(u[k - a] == x[k]);
        }
    }
}

proof fn lemma_first_at_bounds(s: Seq<char>, from: int, c: char)
    requires
        crate::inline::first_at(s, from, c) is Some,
    ensures
        from <= crate::inline::first_at(s, from, c)->0 < s.len(),
    decreases s.len() - from,
{
    if !(from < 0 || from >= s.len()) && s[from] != c {
        lemma_first_at_bounds(s, from + 1, c);
    }
}

/// A line that parses as a link definition has the definition shape, so
/// the shape test never refuses a definition the parser accepts.
pub proof fn law_link_def_has_shape(line: Seq<char>)
    requires
        link_def_spec(line) is Some,
    ensures
        def_shape(line),
{
    let lead = lead_run(line, 0, false);
    let l = line.subrange(lead, line.len() as int);
    let t = l.subrange(1, l.len() as int);
    let close = crate::inline::first_at(t, 0, ']')->0;
    lemma_first_at_bounds(t, 0, ']');
    let x = t.subrange(0, close);
    if strip_both(x, true).len() == 0 {
        lemma_stripped_empty(x);
        assert forall|k: int| 0 <= k < x.len() implies is_uni_ws(#[trigger] x[k]) by {
            assert(is_lead(x[k], true));
        }
        lemma_norm_of_ws(x);
    }
}

/// The counts after handing out `j` ids based on `id`.
pub open spec fn bumps(id: Seq<char>, j: nat) -> spec_fn(Seq<char>) -> Option<u32>
    decreases j,
{
    if j == 0 {
        no_ids()
    } else {
        cnt_bump(bumps(id, (j - 1) as nat), id)
    }
}

/// Handing out ids based on one slug, again and again, gives the slug,
/// then the slug with `-1`, `-2`, … appended.
pub proof fn law_dedup_sequence(id: Seq<char>, j: nat)
    requires
        j < u32::MAX,
    ensures
        dedup_result(id, bumps(id, j)(id)) == if j == 0 {
            id
        } else {
            id + seq!['-'] + decimal(j)
        },
        j > 0 ==> bumps(id, j)(id) == Some((j - 1) as u32),
    decreases j,
{
    if j > 0 {
        law_dedup_sequence(id, (j - 1) as nat);
    }
}


/// A character an id keeps as it is: no whitespace, its own lowercase.
pub open spec fn id_fixed(d: char) -> bool {
    !is_uni_ws(d) && id_lower(d) == seq![d]
}

/// The shape of a normalized reference id (bar a final space): no
/// leading whitespace, whitespace only as single spaces, every other
/// character kept as it is.
pub open spec fn spaced_id(t: Seq<char>) -> bool {
    &&& forall|k: int|
        0 <= k < t.len() ==> (is_uni_ws(#[trigger] t[k]) ==> t[k] == ' ') && (!is_uni_ws(t[k])
            ==> id_fixed(t[k]))
    &&& t.len() > 0 ==> !is_uni_ws(t[0])
    &&& forall|k: int| 0 < k < t.len() && is_uni_ws(#[trigger] t[k]) ==> !is_uni_ws(t[k - 1])
}

proof fn lemma_norm_spaced(t: Seq<char>)
    requires
        spaced_id(t),
    ensures
        norm_state(t) == (if t.len() > 0 && t.last() == ' ' {
            (t.drop_last(), true)
        } else {
            (t, t.len() == 0)
        }),
    decreases t.len(),
{
    if t.len() > 0 {
        let u = t.drop_last();
        assert forall|k: int| 0 <= k < u.len() implies (is_uni_ws(#[trigger] u[k]) ==> u[k] == ' ') && (
        !is_uni_ws(u[k]) ==> id_fixed(u[k])) by {
            assert(u[k] == t[k]);
        }
        assert forall|k: int| 0 < k < u.len() && is_uni_ws(#[trigger] u[k]) implies !is_uni_ws(
            u[k - 1],
        ) by {
            assert(u[k] == t[k]);
        }
        if u.len() > 0 {
            assert(u[0] == t[0]);
        }
        lemma_norm_spaced(u);
        let c = t.last();
        assert(t[t.len() - 1] == c);
        if is_uni_ws(c) {
            assert(c == ' ');
            assert(t.len() > 1);
            assert(!is_uni_ws(u.last()));
        } else {
            assert(id_fixed(c));
            if u.len() > 0 && u.last() == ' ' {
                assert(u.len() > 1);
                assert(u.drop_last().push(' ') =~= u);
            }
            assert(u + seq![c] =~= t);
        }
    }
}

proof fn lemma_norm_shape(s: Seq<char>)
    requires
        forall|k: int|
            0 <= k < s.len() && !is_uni_ws(s[k]) ==> forall|j: int|
                0 <= j < id_lower(s[k]).len() ==> #[trigger] id_fixed(id_lower(s[k])[j]),
    ensures
        spaced_id(norm_state(s).0),
        norm_state(s).0.len() > 0 ==> !is_uni_ws(norm_state(s).0.last()),
        norm_state(s).0.len() == 0 ==> norm_state(s).1,
    decreases s.len(),
{
    if s.len() > 0 {
        let u = s.drop_last();
        assert forall|k: int| 0 <= k < u.len() && !is_uni_ws(u[k]) implies forall|j: int|
            0 <= j < id_lower(u[k]).len() ==> #[trigger] id_fixed(id_lower(u[k])[j]) by {
            assert(u[k] == s[k]);
        }
        lemma_norm_shape(u);
        let (o, p) = norm_state(u);
        let c = s.last();
        assert(s[s.len() - 1] == c);
        if !is_uni_ws(c) {
            let low = id_lower(c);
            let o2 = if p && o.len() > 0 {
                o.push(' ')
            } else {
                o
            };
            let t = o2 + low;
            assert(low.len() > 0);
            assert forall|j: int| 0 <= j < low.len() implies id_fixed(#[trigger] low[j]) by {
                assert(id_fixed(id_lower(s[s.len() - 1])[j]));
            }
            assert forall|k: int| 0 <= k < t.len() implies (is_uni_ws(#[trigger] t[k]) ==> t[k] == ' ')
                && (!is_uni_ws(t[k]) ==> id_fixed(t[k])) by {
                if k < o2.len() {
                    if k < o.len() {
                        assert(t[k] == o[k]);
                    } else {
                        assert(t[k] == ' ');
                    }
                } else {
                    assert(t[k] == low[k - o2.len()]);
                    assert(id_fixed(low[k - o2.len()]));
                }
            }
            assert forall|k: int| 0 < k < t.len() && is_uni_ws(#[trigger] t[k]) implies !is_uni_ws(
                t[k - 1],
            ) by {
                if k < o2.len() {
                    if k < o.len() {
                        assert(t[k] == o[k]);
                        assert(t[k - 1] == o[k - 1]);
                    } else {
                        assert(t[k - 1] == o[k - 1]);
                        assert(o[k - 1] == o.last());
                    }
                } else {
                    assert(t[k] == low[k - o2.len()]);
                    assert(id_fixed(low[k - o2.len()]));
                }
            }
            if t.len() > 0 {
                if o2.len() > 0 {
                    assert(t[0] == o2[0]);
                    if o.len() > 0 {
                        assert(o2[0] == o[0]);
                    }
                } else {
                    assert(t[0] == low[0]);
                    assert(id_fixed(low[0]));
                }
            }
            assert(t.last() == low.last());
            assert(id_fixed(low[low.len() - 1]));
        }
    }
}

/// Normalizing a link reference id twice gives what normalizing it once
/// gives, wherever the lowercase of each of its characters is its own
/// lowercase and holds no whitespace (what the lowercase mapping holds is
/// std's, and the library does not restate it).
pub proof fn law_normalize_ref_id_idempotent(s: Seq<char>)
    requires
        forall|k: int|
            0 <= k < s.len() && !is_uni_ws(s[k]) ==> forall|j: int|
                0 <= j < id_lower(s[k]).len() ==> #[trigger] id_fixed(id_lower(s[k])[j]),
    ensures
        norm_state(norm_state(s).0).0 == norm_state(s).0,
{
    lemma_norm_shape(s);
    lemma_norm_spaced(norm_state(s).0);
}


/// A table cell of a column whose separator cell reads `:` … `-` (a
/// leading colon only) carries `style="text-align: left"`, and one whose
/// separator cell reads `-` … `:` (a trailing colon only) carries
/// `style="text-align: right"`, in its `<th>` or `<td>` tag.
pub proof fn law_table_alignment_style(
    sep: Seq<char>,
    cell: Seq<Span>,
    head: bool,
    indent: usize,
    cls: Option<Seq<char>>,
)
    requires
        sep.len() >= 2,
    ensures
        (sep[0] == ':' && sep[sep.len() - 1] == '-') ==> cell_html(cell, align_of(sep), head, indent, cls).subrange(
            0,
            indent + 29,
        ) == pad(indent) + (if head {
            "<th style=\"text-align: left\">"@
        } else {
            "<td style=\"text-align: left\">"@
        }),
        (sep[0] == '-' && sep[sep.len() - 1] == ':') ==> cell_html(cell, align_of(sep), head, indent, cls).subrange(
            0,
            indent + 30,
        ) == pad(indent) + (if head {
            "<th style=\"text-align: right\">"@
        } else {
            "<td style=\"text-align: right\">"@
        }),
{
    reveal_strlit("<th style=\"text-align: left\">");
    reveal_strlit("<td style=\"text-align: left\">");
    reveal_strlit("<th style=\"text-align: right\">");
    reveal_strlit("<td style=\"text-align: right\">");
    reveal_strlit(" style=\"text-align: left\"");
    reveal_strlit(" style=\"text-align: right\"");
    reveal_strlit("<");
    reveal_strlit(">");
    reveal_strlit("th");
    reveal_strlit("td");
    if (sep[0] == ':' && sep[sep.len() - 1] == '-') || (sep[0] == '-' && sep[sep.len() - 1] == ':') {
        assert(lead_run(sep, 0, true) == 0);
        assert(strip_lead(sep, true) =~= sep);
        assert(trail_run(sep, sep.len() as int, true) == sep.len());
        assert(strip_both(sep, true) =~= sep);
        let a = align_of(sep);
        let tag = crate::render::cell_tag(head);
        let h = crate::render::spans_html(cell, cls);
        let body = if h.len() == 0 {
            seq!['\u{a0}']
        } else {
            h
        };
        let open = "<"@ + tag + crate::render::style_html(a) + ">"@;
        let rest = body + "</"@ + tag + ">\n"@;
        assert(cell_html(cell, a, head, indent, cls) =~= (pad(indent) + open) + rest);
        assert(((pad(indent) + open) + rest).subrange(0, (pad(indent) + open).len() as int) =~= pad(
            indent,
        ) + open);
        if sep[0] == ':' {
            assert(a == Align::Left);
            assert(open =~= (if head {
                "<th style=\"text-align: left\">"@
            } else {
                "<td style=\"text-align: left\">"@
            }));
        } else {
            assert(a == Align::Right);
            assert(open =~= (if head {
                "<th style=\"text-align: right\">"@
            } else {
                "<td style=\"text-align: right\">"@
            }));
        }
    }
}

/// A char the GFM slug keeps as it is: an ASCII lowercase letter, a
/// digit, `_` or `-`.
pub open spec fn slug_plain(c: char) -> bool {
    ('a' <= c && c <= 'z') || ('0' <= c && c <= '9') || c == '_' || c == '-'
}

/// The GFM slug works char by char: the slug of a concatenation is the
/// concatenation of the slugs.
pub proof fn law_gfm_slug_concat(a: Seq<char>, b: Seq<char>)
    ensures
        slug_body(a + b) == slug_body(a) + slug_body(b),
    decreases b.len(),
{
    if b.len() == 0 {
        assert(a + b =~= a);
        assert(slug_body(a) + slug_body(b) =~= slug_body(a));
    } else {
        law_gfm_slug_concat(a, b.drop_last());
        assert((a + b).drop_last() =~= a + b.drop_last());
        assert((a + b).last() == b.last());
        assert(slug_body(a) + slug_body(b) =~= slug_body(a) + slug_body(b.drop_last()) + match slug_char_spec(
            b.last(),
        ) {
            SlugChar::Keep(k) => seq![k],
            _ => Seq::<char>::empty(),
        });
    }
}

/// The GFM slug keeps every ASCII lowercase letter, digit, `_` and `-` of
/// the heading text unchanged and in place: such a char between two parts
/// of the text stands between their slugs.
pub proof fn law_gfm_slug_keeps_plain_chars(a: Seq<char>, c: char, b: Seq<char>)
    requires
        slug_plain(c),
    ensures
        slug_body(a + seq![c] + b) == slug_body(a) + seq![c] + slug_body(b),
{
    law_gfm_slug_concat(a + seq![c], b);
    law_gfm_slug_concat(a, seq![c]);
    assert(seq![c].drop_last() =~= Seq::<char>::empty());
    assert(seq![c].last() == c);
    assert(slug_char_spec(c) == SlugChar::Keep(c));
    assert(slug_body(Seq::<char>::empty()) == Seq::<char>::empty());
    assert(slug_body(seq![c]) =~= seq![c]);
}

/// A heading text made of ASCII lowercase letters, digits, `_` and `-`
/// only is its own GFM id.
pub proof fn law_gfm_slug_of_plain_text(t: Seq<char>)
    requires
        t.len() > 0,
        forall|k: int| 0 <= k < t.len() ==> slug_plain(#[trigger] t[k]),
    ensures
        gfm_slug_spec(t) == Some(t),
    decreases t.len(),
{
    lemma_plain_slug_body(t);
    assert(!has_unsupported(t)) by {
        if has_unsupported(t) {
            let i = choose|i: int| 0 <= i < t.len() && #[trigger] slug_char_spec(t[i]) == SlugChar::Unsupported;
            assert(slug_plain(t[i]));
        }
    }
}

proof fn lemma_plain_slug_body(t: Seq<char>)
    requires
        forall|k: int| 0 <= k < t.len() ==> slug_plain(#[trigger] t[k]),
    ensures
        slug_body(t) == t,
    decreases t.len(),
{
    if t.len() > 0 {
        let u = t.drop_last();
        assert forall|k: int| 0 <= k < u.len() implies slug_plain(#[trigger] u[k]) by {
            assert(u[k] == t[k]);
        }
        lemma_plain_slug_body(u);
        assert(slug_plain(t[t.len() - 1]));
        assert(u.push(t.last()) =~= t);
    }
}

/// A quote preceded by whitespace and followed by a word character opens:
/// `‘` for `'` and `“` for `"` (kramdown's one exception is `'` before two
/// digits and an `s`, as in ` '90s`, which is an apostrophe).
pub proof fn law_quote_after_space_before_word_opens(w: char, is_single: bool, rest: Seq<char>)
    requires
        is_uni_ws(w),
        rest.len() > 0,
        is_word_spec(rest[0]),
        !(is_single && rest.len() >= 3 && '0' <= rest[0] && rest[0] <= '9' && '0' <= rest[1]
            && rest[1] <= '9' && rest[2] == 's'),
    ensures
        smart_quote_spec(Some(w), is_single, rest) == Some(if is_single {
            '\u{2018}'
        } else {
            '\u{201C}'
        }),
{
}

/// A code span delimited by two backticks drops one leading and one
/// trailing space of its content: at a `` `` `` run opening `` `` x `` ``
/// (no backtick in `x`) the span parser closes the pending text and adds
/// a code span of exactly `x`, going on after the closing run.
pub proof fn law_double_backtick_code_span_drops_padding(
    text: Seq<char>,
    i: int,
    x: Seq<char>,
    chain: Seq<SpanV>,
    acc: Seq<char>,
    prev: Option<char>,
)
    requires
        0 <= i,
        i + x.len() + 6 <= text.len(),
        text.subrange(i, i + x.len() + 6) == seq!['`', '`', ' '] + x + seq![' ', '`', '`'],
        forall|k: int| 0 <= k < x.len() ==> #[trigger] x[k] != '`',
    ensures
        code_step(text, i, chain, acc, prev) == Ok::<crate::span_model::ScanState, &'static str>(
            (i + x.len() + 6, flush_v(chain, acc).push(SpanV::Code(x)), Seq::empty(), Some('`')),
        ),
{
    let n = text.len() as int;
    let m = x.len() as int;
    let seg = seq!['`', '`', ' '] + x + seq![' ', '`', '`'];
    assert(text[i] == seg[0]);
    assert(text[i + 1] == seg[1]);
    assert(text[i + 2] == seg[2]);
    assert(crate::lines::run_spec(text, i + 2, '`') == 0);
    assert(crate::lines::run_spec(text, i + 1, '`') == 1);
    assert(crate::lines::run_spec(text, i, '`') == 2);
    let s = text.subrange(i + 2, n);
    let p = text.subrange(i, i + 2);
    assert(p =~= seq!['`', '`']);
    let k = m + 2;
    assert forall|j: int| 0 <= j < s.len() && j < k implies s[j] != '`' by {
        assert(s[j] == text[i + 2 + j]);
        assert(text[i + 2 + j] == seg[2 + j]);
        if j == 0 {
        } else if j <= m {
            assert(seg[2 + j] == x[j - 1]);
        } else {
            assert(seg[2 + j] == ' ');
        }
    }
    assert(s[k] == text[i + 2 + k] && text[i + 2 + k] == seg[2 + k]);
    assert(s[k + 1] == text[i + 3 + k] && text[i + 3 + k] == seg[3 + k]);
    assert(occurs_at(s, p, k)) by {
        assert(s.subrange(k, k + 2) =~= p);
    }
    assert forall|j: int| 0 <= j < k implies !occurs_at(s, p, j) by {
        if occurs_at(s, p, j) {
            assert(s.subrange(j, j + 2)[0] == p[0]);
        }
    }
    assert(first_occ(s, p) == Some(k)) by {
        let k2 = choose|q: int| #[trigger] occurs_at(s, p, q) && forall|j: int| 0 <= j < q ==> !occurs_at(s, p, j);
        if k2 < k {
        } else if k2 > k {
            assert(!occurs_at(s, p, k));
        }
    }
    let a = i + 2;
    let b = i + 2 + k;
    assert(text[a] == seg[2]);
    assert(text[b - 1] == seg[k + 1]);
    assert(crate::span_model::code_bounds(text, a, b, 2) == (a + 1, b - 1));
    assert(text.subrange(a + 1, b - 1) =~= x) by {
        assert forall|j: int| 0 <= j < m implies text.subrange(a + 1, b - 1)[j] == x[j] by {
            assert(text[a + 1 + j] == seg[3 + j]);
        }
    }
}

/// An image's title reaches the output as `title="…"` with the title
/// escaped, exactly as a link's does.
pub proof fn law_image_title_in_output(
    src: Vec<char>,
    alt: Vec<char>,
    href: Vec<char>,
    t: Vec<char>,
    spans: Vec<Span>,
    ial: Vec<Attr>,
    cls: Option<Seq<char>>,
)
    ensures
        span_html(Span::Image { src, alt, title: Some(t), ial }, cls) == "<img src=\""@ + esc_attr(
            src@,
        ) + "\" alt=\""@ + esc_attr(alt@) + "\" title=\""@ + esc_attr(t@) + "\""@
            + crate::ial::attrs_html(ial@) + " />"@,
        span_html(Span::Link { spans, href, title: Some(t), ial }, cls) == "<a href=\""@ + esc_attr(
            href@,
        ) + "\" title=\""@ + esc_attr(t@) + "\""@ + crate::ial::attrs_html(ial@) + ">"@ + spans_html(
            spans@,
            cls,
        ) + "</a>"@,
{
    reveal_strlit("\" alt=\"");
    reveal_strlit("\" title=\"");
    reveal_strlit(" title=\"");
    reveal_strlit("\"");
    assert(span_html(Span::Image { src, alt, title: Some(t), ial }, cls) =~= "<img src=\""@ + esc_attr(
        src@,
    ) + "\" alt=\""@ + esc_attr(alt@) + "\" title=\""@ + esc_attr(t@) + "\""@
        + crate::ial::attrs_html(ial@) + " />"@);
    assert(span_html(Span::Link { spans, href, title: Some(t), ial }, cls) =~= "<a href=\""@ + esc_attr(
        href@,
    ) + "\" title=\""@ + esc_attr(t@) + "\""@ + crate::ial::attrs_html(ial@) + ">"@ + spans_html(
        spans@,
        cls,
    ) + "</a>"@);
}

} // verus!
