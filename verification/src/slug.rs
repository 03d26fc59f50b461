//! Heading `id` generation: kramdown core's `basic_generate_id`,
//! kramdown-parser-gfm's `generate_gfm_header_id`, and the shared
//! duplicate-id suffixing.

use vstd::prelude::*;
use crate::text::{ascii_lower, is_ascii_alpha, is_ascii_digit, is_ascii_lower, is_ascii_upper,
    ascii_alpha, push_str, to_ascii_lower, to_vec, eq_chars};
use crate::escape::{decimal, push_decimal};

verus! {

/// What `basic_generate_id` keeps of one char (after the leading
/// non-letters are stripped).
pub open spec fn basic_char(c: char) -> Seq<char> {
    if is_ascii_lower(c) || is_ascii_digit(c) || c == '-' {
        seq![c]
    } else if is_ascii_upper(c) {
        seq![ascii_lower(c)]
    } else if c == ' ' {
        seq!['-']
    } else {
        Seq::empty()
    }
}

pub open spec fn basic_map(s: Seq<char>) -> Seq<char>
    decreases s.len(),
{
    if s.len() == 0 {
        Seq::empty()
    } else {
        basic_map(s.drop_last()) + basic_char(s.last())
    }
}

/// Index of the first ASCII letter of `s` (`s.len()` when none).
pub open spec fn first_alpha(s: Seq<char>, k: int) -> bool {
    &&& 0 <= k <= s.len()
    &&& forall|j: int| 0 <= j < k ==> !is_ascii_alpha(#[trigger] s[j])
    &&& k < s.len() ==> is_ascii_alpha(s[k])
}

/// kramdown core's `basic_generate_id` of `raw` given the index `k` of its
/// first ASCII letter.
pub open spec fn basic_id(raw: Seq<char>, k: int) -> Seq<char> {
    let body = basic_map(raw.subrange(k, raw.len() as int));
    if body.len() == 0 {
        "section"@
    } else {
        body
    }
}

/// kramdown CORE `Converter::Base#basic_generate_id`: strip leading
/// non-ASCII-letters, delete everything outside `[a-zA-Z0-9 -]`,
/// spaces → hyphens, downcase; empty → "section".
pub fn basic_generate_id(raw: &[char]) -> (r: Vec<char>)
    ensures
        exists|k: int| #[trigger] first_alpha(raw@, k) && r@ == basic_id(raw@, k),
{
    let mut k: usize = 0;
    while k < raw.len() && !ascii_alpha(raw[k])
        invariant
            k <= raw@.len(),
            forall|j: int| 0 <= j < k ==> !is_ascii_alpha(#[trigger] raw@[j]),
        decreases raw@.len() - k,
    {
        k = k + 1;
    }
    let ghost rest = raw@.subrange(k as int, raw@.len() as int);
    let mut id: Vec<char> = Vec::new();
    let mut i: usize = k;
    while i < raw.len()
        invariant
            k <= i <= raw@.len(),
            rest == raw@.subrange(k as int, raw@.len() as int),
            id@ == basic_map(rest.subrange(0, i - k)),
        decreases raw@.len() - i,
    {
        let ch = raw[i];
        proof {
            assert(rest.subrange(0, i - k + 1).drop_last() =~= rest.subrange(0, i - k));
            assert(rest[i - k] == ch);
        }
        if ('a' <= ch && ch <= 'z') || ('0' <= ch && ch <= '9') || ch == '-' {
            id.push(ch);
        } else if 'A' <= ch && ch <= 'Z' {
            id.push(to_ascii_lower(ch));
        } else if ch == ' ' {
            id.push('-');
        }
        proof {
            assert(id@ =~= basic_map(rest.subrange(0, i - k)) + basic_char(ch));
        }
        i = i + 1;
    }
    assert(rest.subrange(0, rest.len() as int) =~= rest);
    if id.len() == 0 {
        push_str(&mut id, "section");
    }
    assert(first_alpha(raw@, k as int));
    id
}

/// How a single character maps under kramdown-parser-gfm
/// `generate_gfm_header_id`: Unicode downcase, delete `[^\p{Word}\- \t]`,
/// then ` `/`\t` → `-` (one hyphen EACH, no collapsing; leading digits
/// kept, unlike core).
pub enum SlugChar {
    /// A `\p{Word}` char (or a space → `-`) that lands in the slug.
    Keep(char),
    /// Outside `\p{Word}`, `-`, ` ` — deleted (ASCII punctuation, the
    /// typography codepoints, and the symbol/emoji blocks).
    Drop,
    /// A char whose `\p{Word}` membership we don't classify exactly (most
    /// non-ASCII letters/marks) — the caller declines rather than risk a
    /// wrong id.
    Unsupported,
}

/// Symbol-category blocks kramdown's `\p{Word}` excludes: Arrows, Misc
/// Technical, Misc Symbols + Dingbats, Misc Symbols & Arrows, and the
/// emoji/pictograph planes — plus the typography codepoints.
pub open spec fn is_slug_symbol(c: char) -> bool {
    ||| c == '\u{2018}' || c == '\u{2019}' || c == '\u{201C}' || c == '\u{201D}'
    ||| c == '\u{2013}' || c == '\u{2014}' || c == '\u{2026}'
    ||| ('\u{2190}' <= c && c <= '\u{21FF}')
    ||| ('\u{2300}' <= c && c <= '\u{23FF}')
    ||| ('\u{2600}' <= c && c <= '\u{27BF}')
    ||| ('\u{2B00}' <= c && c <= '\u{2BFF}')
    ||| ('\u{1F000}' <= c && c <= '\u{1FAFF}')
}

/// Caseless `\p{Word}` ranges kept verbatim: CJK, kana, hangul.
pub open spec fn is_slug_caseless(c: char) -> bool {
    ||| ('\u{4E00}' <= c && c <= '\u{9FFF}')
    ||| ('\u{3400}' <= c && c <= '\u{4DBF}')
    ||| ('\u{3040}' <= c && c <= '\u{30FF}')
    ||| ('\u{AC00}' <= c && c <= '\u{D7AF}')
}

pub open spec fn slug_char_spec(c: char) -> SlugChar {
    if is_ascii_lower(c) || is_ascii_digit(c) || c == '_' || c == '-' {
        SlugChar::Keep(c)
    } else if is_ascii_upper(c) {
        SlugChar::Keep(ascii_lower(c))
    } else if c == ' ' || c == '\t' {
        SlugChar::Keep('-')
    } else if (c as u32) < 128 {
        SlugChar::Drop
    } else if is_slug_symbol(c) {
        SlugChar::Drop
    } else if is_slug_caseless(c) {
        SlugChar::Keep(c)
    } else {
        SlugChar::Unsupported
    }
}

/// Classify one char for the GFM slug.
pub fn slug_char(ch: char) -> (r: SlugChar)
    ensures
        r == slug_char_spec(ch),
{
    if ('a' <= ch && ch <= 'z') || ('0' <= ch && ch <= '9') || ch == '_' || ch == '-' {
        SlugChar::Keep(ch)
    } else if 'A' <= ch && ch <= 'Z' {
        SlugChar::Keep(to_ascii_lower(ch))
    } else if ch == ' ' || ch == '\t' {
        SlugChar::Keep('-')
    } else if (ch as u32) < 128 {
        SlugChar::Drop
    } else if ch == '\u{2018}' || ch == '\u{2019}' || ch == '\u{201C}' || ch == '\u{201D}' || ch
        == '\u{2013}' || ch == '\u{2014}' || ch == '\u{2026}' || ('\u{2190}' <= ch && ch
        <= '\u{21FF}') || ('\u{2300}' <= ch && ch <= '\u{23FF}') || ('\u{2600}' <= ch && ch
        <= '\u{27BF}') || ('\u{2B00}' <= ch && ch <= '\u{2BFF}') || ('\u{1F000}' <= ch && ch
        <= '\u{1FAFF}') {
        SlugChar::Drop
    } else if ('\u{4E00}' <= ch && ch <= '\u{9FFF}') || ('\u{3400}' <= ch && ch <= '\u{4DBF}') || (
    '\u{3040}' <= ch && ch <= '\u{30FF}') || ('\u{AC00}' <= ch && ch <= '\u{D7AF}') {
        SlugChar::Keep(ch)
    } else {
        SlugChar::Unsupported
    }
}

/// The chars a GFM slug keeps of `s`.
pub open spec fn slug_body(s: Seq<char>) -> Seq<char>
    decreases s.len(),
{
    if s.len() == 0 {
        Seq::empty()
    } else {
        slug_body(s.drop_last()) + match slug_char_spec(s.last()) {
            SlugChar::Keep(k) => seq![k],
            _ => Seq::empty(),
        }
    }
}

/// Some char of `s` is one the slug rules don't classify exactly.
pub open spec fn has_unsupported(s: Seq<char>) -> bool {
    exists|i: int| 0 <= i < s.len() && #[trigger] slug_char_spec(s[i]) == SlugChar::Unsupported
}

/// kramdown-parser-gfm's header id of `s`, or `None` where it is not
/// reproduced exactly (an unsupported char, or an empty slug).
pub open spec fn gfm_slug_spec(s: Seq<char>) -> Option<Seq<char>> {
    if has_unsupported(s) || slug_body(s).len() == 0 {
        None
    } else {
        Some(slug_body(s))
    }
}

proof fn lemma_slug_step(s: Seq<char>, i: int)
    requires
        0 <= i < s.len(),
    ensures
        slug_body(s.subrange(0, i + 1)) == slug_body(s.subrange(0, i)) + match slug_char_spec(
            s[i],
        ) {
            SlugChar::Keep(k) => seq![k],
            _ => Seq::empty(),
        },
{
    assert(s.subrange(0, i + 1).drop_last() =~= s.subrange(0, i));
}

/// The GFM header id of `span_text`, or `None` (decline) when a char is
/// unsupported or the slug comes out empty.
pub fn gfm_slug(span_text: &[char]) -> (r: Option<Vec<char>>)
    ensures
        match gfm_slug_spec(span_text@) {
            Some(v) => r matches Some(id) && id@ == v,
            None => r is None,
        },
{
    let mut id: Vec<char> = Vec::new();
    let mut i: usize = 0;
    while i < span_text.len()
        invariant
            i <= span_text@.len(),
            id@ == slug_body(span_text@.subrange(0, i as int)),
            forall|k: int| 0 <= k < i ==> #[trigger] slug_char_spec(span_text@[k])
                != SlugChar::Unsupported,
        decreases span_text@.len() - i,
    {
        proof {
            lemma_slug_step(span_text@, i as int);
        }
        match slug_char(span_text[i]) {
            SlugChar::Keep(c) => id.push(c),
            SlugChar::Drop => {},
            SlugChar::Unsupported => {
                assert(has_unsupported(span_text@));
                return None;
            },
        }
        i = i + 1;
    }
    assert(span_text@.subrange(0, span_text@.len() as int) =~= span_text@);
    if id.len() == 0 {
        None
    } else {
        Some(id)
    }
}

/// Whether [`gfm_slug`] would produce `Some` for `span_text`, without
/// building the slug.
pub fn gfm_slug_ok(span_text: &[char]) -> (r: bool)
    ensures
        r == gfm_slug_spec(span_text@).is_some(),
{
    let mut non_empty = false;
    let mut i: usize = 0;
    while i < span_text.len()
        invariant
            i <= span_text@.len(),
            non_empty == (slug_body(span_text@.subrange(0, i as int)).len() > 0),
            forall|k: int| 0 <= k < i ==> #[trigger] slug_char_spec(span_text@[k])
                != SlugChar::Unsupported,
        decreases span_text@.len() - i,
    {
        proof {
            lemma_slug_step(span_text@, i as int);
        }
        match slug_char(span_text[i]) {
            SlugChar::Keep(_) => {
                non_empty = true;
            },
            SlugChar::Drop => {},
            SlugChar::Unsupported => {
                assert(has_unsupported(span_text@));
                return false;
            },
        }
        i = i + 1;
    }
    assert(span_text@.subrange(0, span_text@.len() as int) =~= span_text@);
    non_empty
}

/// The GFM slug check and the slug builder agree on every text: the
/// parser's yes/no gate accepts exactly the headings the converter can
/// give an id.
pub proof fn law_slug_ok_agrees(s: Seq<char>)
    ensures
        gfm_slug_spec(s).is_some() <==> (!has_unsupported(s) && slug_body(s).len() > 0),
{
}

/// The ids handed out so far: each base id with how many times it repeated.
pub struct IdCounter {
    pub entries: Vec<(Vec<char>, u32)>,
}

/// The repeat count recorded for `key` (the first entry with that key).
pub open spec fn count_lookup(e: Seq<(Vec<char>, u32)>, key: Seq<char>) -> Option<u32>
    decreases e.len(),
{
    if e.len() == 0 {
        None
    } else if e[0].0@ == key {
        Some(e[0].1)
    } else {
        count_lookup(e.drop_first(), key)
    }
}

impl IdCounter {
    pub open spec fn lookup(&self, key: Seq<char>) -> Option<u32> {
        count_lookup(self.entries@, key)
    }

    pub fn new() -> (r: Self)
        ensures
            forall|k: Seq<char>| r.lookup(k) is None,
    {
        IdCounter { entries: Vec::new() }
    }
}

/// The id `dedup_id` hands out for `id` given its recorded count.
pub open spec fn dedup_result(id: Seq<char>, count: Option<u32>) -> Seq<char> {
    match count {
        None => id,
        Some(c) => id + seq!['-'] + decimal(bump(c) as nat),
    }
}

/// The next repeat count (saturating).
pub open spec fn bump(c: u32) -> u32 {
    if c < u32::MAX {
        (c + 1) as u32
    } else {
        c
    }
}

proof fn lemma_lookup_skip(e: Seq<(Vec<char>, u32)>, key: Seq<char>, i: int)
    requires
        0 <= i < e.len(),
    ensures
        count_lookup(e.subrange(i, e.len() as int), key) == if e[i].0@ == key {
            Some(e[i].1)
        } else {
            count_lookup(e.subrange(i + 1, e.len() as int), key)
        },
{
    assert(e.subrange(i, e.len() as int).drop_first() =~= e.subrange(i + 1, e.len() as int));
}

proof fn lemma_lookup_update(e: Seq<(Vec<char>, u32)>, i: int, v: (Vec<char>, u32), key: Seq<char>)
    requires
        0 <= i < e.len(),
        v.0@ == e[i].0@,
        forall|j: int| 0 <= j < i ==> e[j].0@ != e[i].0@,
    ensures
        count_lookup(e.update(i, v), key) == if key == e[i].0@ {
            Some(v.1)
        } else {
            count_lookup(e, key)
        },
    decreases i,
{
    if i == 0 {
        assert(e.update(i, v).drop_first() =~= e.drop_first());
    } else {
        assert(e.update(i, v).drop_first() =~= e.drop_first().update(i - 1, v));
        lemma_lookup_update(e.drop_first(), i - 1, v, key);
    }
}

proof fn lemma_lookup_push(e: Seq<(Vec<char>, u32)>, v: (Vec<char>, u32), key: Seq<char>)
    requires
        count_lookup(e, v.0@) is None,
    ensures
        count_lookup(e.push(v), key) == if key == v.0@ {
            Some(v.1)
        } else {
            count_lookup(e, key)
        },
    decreases e.len(),
{
    let ep = e.push(v);
    if e.len() > 0 {
        assert(ep[0] == e[0]);
        assert(ep.drop_first() =~= e.drop_first().push(v));
        assert(e[0].0@ != v.0@);
        lemma_lookup_push(e.drop_first(), v, key);
        if e[0].0@ == key {
            assert(count_lookup(ep, key) == Some(e[0].1));
        } else {
            assert(count_lookup(ep, key) == count_lookup(ep.drop_first(), key));
        }
    } else {
        assert(ep[0] == v);
        assert(ep.drop_first() =~= Seq::<(Vec<char>, u32)>::empty());
        assert(count_lookup(ep.drop_first(), key) is None);
    }
}

/// Duplicate-id suffixing, shared by both algorithms (kramdown core's
/// `@used_ids` and GFM's `@id_counter` behave identically): first use
/// is bare, repeats get `-1`, `-2`, …
pub fn dedup_id(id: Vec<char>, used: &mut IdCounter) -> (r: Vec<char>)
    ensures
        r@ == dedup_result(id@, old(used).lookup(id@)),
        forall|k: Seq<char>| #[trigger]
            final(used).lookup(k) == if k == id@ {
                Some(
                    match old(used).lookup(id@) {
                        None => 0,
                        Some(c) => bump(c),
                    },
                )
            } else {
                old(used).lookup(k)
            },
{
    let ghost e0 = used.entries@;
    let ghost idv = id@;
    assert(e0.subrange(0, e0.len() as int) =~= e0);
    let mut i: usize = 0;
    while i < used.entries.len()
        invariant
            i <= used.entries@.len(),
            used.entries@ == e0,
            e0 == old(used).entries@,
            idv == id@,
            count_lookup(e0, id@) == count_lookup(e0.subrange(i as int, e0.len() as int), id@),
            forall|j: int| 0 <= j < i ==> e0[j].0@ != id@,
        decreases used.entries@.len() - i,
    {
        proof {
            lemma_lookup_skip(e0, id@, i as int);
        }
        if eq_chars(used.entries[i].0.as_slice(), id.as_slice()) {
            let c = used.entries[i].1;
            let nc: u32 = if c < u32::MAX {
                c + 1
            } else {
                c
            };
            let key = to_vec(id.as_slice());
            proof {
                assert forall|j: int| 0 <= j < i implies e0[j].0@ != e0[i as int].0@ by {}
                assert forall|k: Seq<char>| true implies count_lookup(e0.update(i as int, (key, nc)), k)
                    == if k == e0[i as int].0@ {
                    Some(nc)
                } else {
                    count_lookup(e0, k)
                } by {
                    lemma_lookup_update(e0, i as int, (key, nc), k);
                }
            }
            used.entries.set(i, (key, nc));
            assert(used.entries@ == e0.update(i as int, (key, nc)));
            assert(count_lookup(e0, id@) == Some(c));
            let mut r = id;
            r.push('-');
            push_decimal(&mut r, nc as u64);
            assert(r@ =~= idv + seq!['-'] + decimal(nc as nat));
            assert(old(used).lookup(idv) == Some(c));
            assert(bump(c) == nc);
            return r;
        }
        i = i + 1;
    }
    proof {
        assert(e0.subrange(e0.len() as int, e0.len() as int).len() == 0);
    }
    let key = to_vec(id.as_slice());
    proof {
        assert forall|k: Seq<char>| true implies count_lookup(e0.push((key, 0u32)), k) == if k
            == id@ {
            Some(0u32)
        } else {
            count_lookup(e0, k)
        } by {
            lemma_lookup_push(e0, (key, 0u32), k);
        }
    }
    used.entries.push((key, 0));
    id
}

} // verus!
