//! kramdown's HTML escaping: `escape_html(…, :text)` escapes `&`, `<`, `>`;
//! `escape_html(…, :attribute)` also escapes `"`. Also the decimal
//! rendering of counters used in ids.

use vstd::prelude::*;
use crate::text::{push_str, extends, lemma_extends_concat};

verus! {

/// The text-escape of one char.
pub open spec fn esc_text_char(c: char) -> Seq<char> {
    if c == '&' {
        "&amp;"@
    } else if c == '<' {
        "&lt;"@
    } else if c == '>' {
        "&gt;"@
    } else {
        seq![c]
    }
}

/// The attribute-escape of one char.
pub open spec fn esc_attr_char(c: char) -> Seq<char> {
    if c == '"' {
        "&quot;"@
    } else {
        esc_text_char(c)
    }
}

/// `escape_html(s, :text)`.
pub open spec fn esc_text(s: Seq<char>) -> Seq<char>
    decreases s.len(),
{
    if s.len() == 0 {
        Seq::empty()
    } else {
        esc_text(s.drop_last()) + esc_text_char(s.last())
    }
}

/// `escape_html(s, :attribute)`.
pub open spec fn esc_attr(s: Seq<char>) -> Seq<char>
    decreases s.len(),
{
    if s.len() == 0 {
        Seq::empty()
    } else {
        esc_attr(s.drop_last()) + esc_attr_char(s.last())
    }
}

/// Text with no `&`, `<` or `>` escapes to itself.
pub proof fn lemma_esc_text_plain(s: Seq<char>)
    requires
        forall|k: int| 0 <= k < s.len() ==> #[trigger] s[k] != '&' && s[k] != '<' && s[k] != '>',
    ensures
        esc_text(s) == s,
    decreases s.len(),
{
    if s.len() > 0 {
        lemma_esc_text_plain(s.drop_last());
        assert(s.drop_last().push(s.last()) =~= s);
    }
}

proof fn lemma_esc_text_step(s: Seq<char>, i: int)
    requires
        0 <= i < s.len(),
    ensures
        esc_text(s.subrange(0, i + 1)) == esc_text(s.subrange(0, i)) + esc_text_char(s[i]),
{
    assert(s.subrange(0, i + 1).drop_last() =~= s.subrange(0, i));
}

proof fn lemma_esc_attr_step(s: Seq<char>, i: int)
    requires
        0 <= i < s.len(),
    ensures
        esc_attr(s.subrange(0, i + 1)) == esc_attr(s.subrange(0, i)) + esc_attr_char(s[i]),
{
    assert(s.subrange(0, i + 1).drop_last() =~= s.subrange(0, i));
}

/// Append `text` HTML-text-escaped (`&`, `<`, `>`).
pub fn escape_text(out: &mut Vec<char>, text: &[char])
    ensures
        final(out)@ == old(out)@ + esc_text(text@),
        extends(final(out)@, old(out)@),
{
    let ghost start = out@;
    let mut i: usize = 0;
    while i < text.len()
        invariant
            i <= text@.len(),
            out@ == start + esc_text(text@.subrange(0, i as int)),
        decreases text@.len() - i,
    {
        let c = text[i];
        proof {
            lemma_esc_text_step(text@, i as int);
        }
        if c == '&' {
            push_str(out, "&amp;");
        } else if c == '<' {
            push_str(out, "&lt;");
        } else if c == '>' {
            push_str(out, "&gt;");
        } else {
            out.push(c);
        }
        i = i + 1;
    }
    assert(text@.subrange(0, text@.len() as int) =~= text@);
    proof {
        lemma_extends_concat(start, esc_text(text@));
    }
}

/// Append `text` HTML-attribute-escaped (`&`, `<`, `>`, `"`).
pub fn escape_attr(out: &mut Vec<char>, text: &[char])
    ensures
        final(out)@ == old(out)@ + esc_attr(text@),
        extends(final(out)@, old(out)@),
{
    let ghost start = out@;
    let mut i: usize = 0;
    while i < text.len()
        invariant
            i <= text@.len(),
            out@ == start + esc_attr(text@.subrange(0, i as int)),
        decreases text@.len() - i,
    {
        let c = text[i];
        proof {
            lemma_esc_attr_step(text@, i as int);
        }
        if c == '&' {
            push_str(out, "&amp;");
        } else if c == '<' {
            push_str(out, "&lt;");
        } else if c == '>' {
            push_str(out, "&gt;");
        } else if c == '"' {
            push_str(out, "&quot;");
        } else {
            out.push(c);
        }
        i = i + 1;
    }
    assert(text@.subrange(0, text@.len() as int) =~= text@);
    proof {
        lemma_extends_concat(start, esc_attr(text@));
    }
}

/// The decimal digits of `n`.
pub open spec fn decimal(n: nat) -> Seq<char>
    decreases n,
{
    if n < 10 {
        seq![((n + 48) as u32) as char]
    } else {
        decimal(n / 10).push((((n % 10) + 48) as u32) as char)
    }
}

/// Append the decimal digits of `n`.
pub fn push_decimal(out: &mut Vec<char>, n: u64)
    ensures
        final(out)@ == old(out)@ + decimal(n as nat),
        extends(final(out)@, old(out)@),
    decreases n,
{
    if n < 10 {
        let b: u8 = (n as u8) + 48;
        out.push(b as char);
        assert((b as char) == ((n + 48) as u32) as char);
    } else {
        push_decimal(out, n / 10);
        let b: u8 = ((n % 10) as u8) + 48;
        out.push(b as char);
        assert((b as char) == (((n % 10) + 48) as u32) as char);
    }
    proof {
        lemma_extends_concat(old(out)@, decimal(n as nat));
    }
}

} // verus!
