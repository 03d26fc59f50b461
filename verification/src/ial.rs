//! Inline attribute lists (`{:.class #id key="v"}`) — kramdown's IALs, kept
//! as insertion-ordered `(name, value)` pairs with classes accumulated under
//! `class`.

use vstd::prelude::*;
use crate::text::{eq_chars, eq_str, find_char_from, to_vec, chars_of, push_char, push_all, push_str, extends, group_extends};
use crate::escape::{esc_attr, escape_attr};

verus! {

/// One attribute: a name and its value.
pub struct Attr {
    pub key: Vec<char>,
    pub val: Vec<char>,
}

/// The name/value views of an attribute list.
pub open spec fn attrs_view(a: Seq<Attr>) -> Seq<(Seq<char>, Seq<char>)> {
    Seq::new(a.len(), |i: int| (a[i].key@, a[i].val@))
}

/// Index of the attribute named `key`, if any.
pub fn find_attr(attrs: &Vec<Attr>, key: &[char]) -> (r: Option<usize>)
    ensures
        match r {
            Some(i) => i < attrs@.len() && attrs@[i as int].key@ == key@ && forall|j: int|
                0 <= j < i ==> attrs@[j].key@ != key@,
            None => forall|j: int| 0 <= j < attrs@.len() ==> attrs@[j].key@ != key@,
        },
{
    let mut i: usize = 0;
    while i < attrs.len()
        invariant
            i <= attrs@.len(),
            forall|j: int| 0 <= j < i ==> attrs@[j].key@ != key@,
        decreases attrs@.len() - i,
    {
        if eq_chars(attrs[i].key.as_slice(), key) {
            return Some(i);
        }
        i = i + 1;
    }
    None
}

/// The list after setting `key` to `val`: the existing entry's value is
/// replaced in place, else the pair is appended.
pub open spec fn set_attr_spec(a: Seq<(Seq<char>, Seq<char>)>, key: Seq<char>, val: Seq<char>) -> Seq<
    (Seq<char>, Seq<char>),
> {
    if exists|i: int| 0 <= i < a.len() && #[trigger] a[i].0 == key {
        let i = choose|i: int|
            0 <= i < a.len() && #[trigger] a[i].0 == key && forall|j: int|
                0 <= j < i ==> a[j].0 != key;
        a.update(i, (key, val))
    } else {
        a.push((key, val))
    }
}

/// Insert or update `key` in an insertion-ordered attribute list.
pub fn set_attr(attrs: &mut Vec<Attr>, key: Vec<char>, val: Vec<char>)
    ensures
        attrs_view(final(attrs)@) == set_attr_spec(attrs_view(old(attrs)@), key@, val@),
        final(attrs)@.len() >= old(attrs)@.len(),
{
    let ghost a0 = attrs_view(attrs@);
    match find_attr(attrs, key.as_slice()) {
        Some(i) => {
            proof {
                assert(a0[i as int].0 == key@);
                let ii = choose|ii: int|
                    0 <= ii < a0.len() && #[trigger] a0[ii].0 == key@ && forall|j: int|
                        0 <= j < ii ==> a0[j].0 != key@;
                if ii < i {
                    assert(attrs@[ii].key@ == key@);
                } else if ii > i {
                    assert(a0[i as int].0 == key@);
                }
                assert(ii == i);
            }
            attrs.set(i, Attr { key, val });
            assert(attrs_view(attrs@) =~= a0.update(i as int, (key@, val@)));
        },
        None => {
            proof {
                assert forall|i: int| 0 <= i < a0.len() implies #[trigger] a0[i].0 != key@ by {
                    assert(attrs@[i].key@ != key@);
                }
            }
            attrs.push(Attr { key, val });
            assert(attrs_view(attrs@) =~= a0.push((key@, val@)));
        },
    }
}

/// The list after adding class `cls`: appended (space-separated) to the
/// existing `class` value, else a new `class` pair at the end.
pub open spec fn add_class_spec(a: Seq<(Seq<char>, Seq<char>)>, cls: Seq<char>) -> Seq<
    (Seq<char>, Seq<char>),
> {
    if exists|i: int| 0 <= i < a.len() && #[trigger] a[i].0 == "class"@ {
        let i = choose|i: int|
            0 <= i < a.len() && #[trigger] a[i].0 == "class"@ && forall|j: int|
                0 <= j < i ==> a[j].0 != "class"@;
        a.update(i, ("class"@, a[i].1 + seq![' '] + cls))
    } else {
        a.push(("class"@, cls))
    }
}

/// Append ` ` and `cls` to the `class` attribute (creating it when absent).
pub fn add_class(attrs: &mut Vec<Attr>, cls: &[char])
    ensures
        attrs_view(final(attrs)@) == add_class_spec(attrs_view(old(attrs)@), cls@),
        final(attrs)@.len() >= old(attrs)@.len(),
{
    let ghost a0 = attrs_view(attrs@);
    let class = chars_of("class");
    match find_attr(attrs, class.as_slice()) {
        Some(i) => {
            proof {
                assert(a0[i as int].0 == "class"@);
                let ii = choose|ii: int|
                    0 <= ii < a0.len() && #[trigger] a0[ii].0 == "class"@ && forall|j: int|
                        0 <= j < ii ==> a0[j].0 != "class"@;
                if ii < i {
                    assert(attrs@[ii].key@ == class@);
                } else if ii > i {
                    assert(a0[i as int].0 == "class"@);
                }
                assert(ii == i);
            }
            let mut v = to_vec(attrs[i].val.as_slice());
            push_char(&mut v, ' ');
            push_all(&mut v, cls);
            assert(v@ =~= a0[i as int].1 + seq![' '] + cls@);
            assert(class@ == "class"@);
            let ghost vv = v@;
            attrs.set(i, Attr { key: class, val: v });
            assert(attrs@[i as int].val@ == vv);
            assert(attrs_view(attrs@) =~= a0.update(
                i as int,
                ("class"@, a0[i as int].1 + seq![' '] + cls@),
            ));
        },
        None => {
            proof {
                assert forall|i: int| 0 <= i < a0.len() implies #[trigger] a0[i].0 != "class"@ by {
                    assert(attrs@[i].key@ != class@);
                }
            }
            attrs.push(Attr { key: class, val: to_vec(cls) });
            assert(attrs_view(attrs@) =~= a0.push(("class"@, cls@)));
        },
    }
}

/// A char that ends an IAL token: space, tab, and for `.`/`#` tokens also
/// `.`/`#`; for `key=` tokens `=`.
pub open spec fn is_tok_stop(c: char, dotted: bool) -> bool {
    c == ' ' || c == '\t' || (dotted && (c == '.' || c == '#')) || (!dotted && c == '=')
}

/// The end of the token starting at `s`.
pub open spec fn tok_end_spec(b: Seq<char>, s: int, dotted: bool) -> int
    decreases b.len() - s,
{
    if 0 <= s < b.len() && !is_tok_stop(b[s], dotted) {
        tok_end_spec(b, s + 1, dotted)
    } else {
        s
    }
}

proof fn lemma_tok_end(b: Seq<char>, s: int, j: int, dotted: bool)
    requires
        0 <= s <= j <= b.len(),
        forall|k: int| s <= k < j ==> !is_tok_stop(#[trigger] b[k], dotted),
        j < b.len() ==> is_tok_stop(b[j], dotted),
    ensures
        tok_end_spec(b, s, dotted) == j,
    decreases j - s,
{
    if s < j {
        lemma_tok_end(b, s + 1, j, dotted);
    }
}

pub proof fn lemma_tok_end_ge(b: Seq<char>, s: int, dotted: bool)
    ensures
        tok_end_spec(b, s, dotted) >= s,
    decreases b.len() - s,
{
    if 0 <= s < b.len() && !is_tok_stop(b[s], dotted) {
        lemma_tok_end_ge(b, s + 1, dotted);
    }
}

/// The first `q` at or after `k`.
pub open spec fn find_from_spec(b: Seq<char>, k: int, q: char) -> Option<int>
    decreases b.len() - k,
{
    if k < 0 || k >= b.len() {
        None
    } else if b[k] == q {
        Some(k)
    } else {
        find_from_spec(b, k + 1, q)
    }
}

proof fn lemma_find_from(b: Seq<char>, k: int, q: char, r: Option<int>)
    requires
        0 <= k <= b.len(),
        match r {
            Some(e) => k <= e < b.len() && b[e] == q && forall|j: int| k <= j < e ==> b[j] != q,
            None => forall|j: int| k <= j < b.len() ==> b[j] != q,
        },
    ensures
        find_from_spec(b, k, q) == r,
    decreases b.len() - k,
{
    if k < b.len() && b[k] != q {
        lemma_find_from(b, k + 1, q, r);
    }
}

pub proof fn lemma_find_from_ge(b: Seq<char>, k: int, q: char)
    ensures
        find_from_spec(b, k, q) matches Some(e) ==> e >= k,
    decreases b.len() - k,
{
    if 0 <= k < b.len() && b[k] != q {
        lemma_find_from_ge(b, k + 1, q);
    }
}

pub proof fn lemma_lead_ge(b: Seq<char>, i: int)
    ensures
        crate::text::lead_run(b, i, true) >= i,
    decreases b.len() - i,
{
    if 0 <= i < b.len() && crate::text::is_lead(b[i], true) {
        lemma_lead_ge(b, i + 1);
    }
}

/// The attribute list of IAL content `b` from `i` on, `acc` holding the
/// attributes so far; `None` for a bare name or a malformed token.
pub open spec fn ial_from(b: Seq<char>, i: int, acc: Seq<(Seq<char>, Seq<char>)>) -> Option<
    Seq<(Seq<char>, Seq<char>)>,
>
    decreases b.len() - i,
{
    let i2 = crate::text::lead_run(b, i, true);
    if i < 0 || i2 >= b.len() {
        Some(acc)
    } else if b[i2] == '.' || b[i2] == '#' {
        let j = tok_end_spec(b, i2 + 1, true);
        if j <= i2 + 1 || j > b.len() {
            None
        } else {
            proof {
                lemma_lead_ge(b, i);
            }
            ial_from(
                b,
                j,
                if b[i2] == '.' {
                    add_class_spec(acc, b.subrange(i2 + 1, j))
                } else {
                    set_attr_spec(acc, "id"@, b.subrange(i2 + 1, j))
                },
            )
        }
    } else {
        let j = tok_end_spec(b, i2, false);
        if j <= i2 || j >= b.len() || b[j] != '=' {
            None
        } else {
            proof {
                lemma_lead_ge(b, i);
            }
            let key = b.subrange(i2, j);
            let vs = j + 1;
            if vs < b.len() && (b[vs] == '"' || b[vs] == '\'') {
                match find_from_spec(b, vs + 1, b[vs]) {
                    Some(end) => if end < b.len() {
                        proof {
                            lemma_find_from_ge(b, vs + 1, b[vs]);
                        }
                        ial_from(b, end + 1, set_attr_spec(acc, key, b.subrange(vs + 1, end)))
                    } else {
                        None
                    },
                    None => None,
                }
            } else {
                let k = value_end(b, vs);
                if k <= b.len() {
                    proof {
                        lemma_value_end_ge(b, vs);
                    }
                    ial_from(b, k, set_attr_spec(acc, key, b.subrange(vs, k)))
                } else {
                    None
                }
            }
        }
    }
}

/// The end of a bare attribute value: the first space or tab.
pub open spec fn value_end(b: Seq<char>, k: int) -> int
    decreases b.len() - k,
{
    if 0 <= k < b.len() && !(b[k] == ' ' || b[k] == '\t') {
        value_end(b, k + 1)
    } else {
        k
    }
}

pub proof fn lemma_value_end_ge(b: Seq<char>, k: int)
    ensures
        value_end(b, k) >= k,
    decreases b.len() - k,
{
    if 0 <= k < b.len() && !(b[k] == ' ' || b[k] == '\t') {
        lemma_value_end_ge(b, k + 1);
    }
}

proof fn lemma_value_end(b: Seq<char>, s: int, j: int)
    requires
        0 <= s <= j <= b.len(),
        forall|k: int| s <= k < j ==> !(#[trigger] b[k] == ' ' || b[k] == '\t'),
        j < b.len() ==> (b[j] == ' ' || b[j] == '\t'),
    ensures
        value_end(b, s) == j,
    decreases j - s,
{
    if s < j {
        lemma_value_end(b, s + 1, j);
    }
}

/// kramdown's IAL: the attribute list, when the content parses and sets at
/// least one attribute.
pub open spec fn parse_ial_spec(b: Seq<char>) -> Option<Seq<(Seq<char>, Seq<char>)>> {
    match ial_from(b, 0, Seq::empty()) {
        Some(a) => if a.len() > 0 {
            Some(a)
        } else {
            None
        },
        None => None,
    }
}

/// The end of an IAL token starting at `s`.
fn token_end(b: &[char], s: usize, dotted: bool) -> (j: usize)
    requires
        s <= b@.len(),
    ensures
        s <= j <= b@.len(),
        j == tok_end_spec(b@, s as int, dotted),
{
    let mut j = s;
    while j < b.len() && !(b[j] == ' ' || b[j] == '\t' || (dotted && (b[j] == '.' || b[j] == '#'))
        || (!dotted && b[j] == '='))
        invariant
            s <= j <= b@.len(),
            forall|k: int| s <= k < j ==> !is_tok_stop(#[trigger] b@[k], dotted),
        decreases b@.len() - j,
    {
        j = j + 1;
    }
    proof {
        lemma_tok_end(b@, s as int, j as int, dotted);
    }
    j
}

/// Parse a block IAL's inner content (between `{:` and `}`) into kramdown's
/// insertion-ordered attribute list: `.class` (dot- or space-separated)
/// accumulates under `class`, `#id` sets `id`, and `key="v"` / `key='v'` /
/// `key=v` set arbitrary attributes. `None` for a bare name (an ALD
/// reference / `{:toc}`) or a malformed token — those decline.
pub fn parse_ial(content: &[char]) -> (r: Option<Vec<Attr>>)
    ensures
        match parse_ial_spec(content@) {
            Some(a) => r matches Some(v) && attrs_view(v@) == a,
            None => r is None,
        },
        r matches Some(v) ==> v@.len() > 0,
{
    let mut attrs: Vec<Attr> = Vec::new();
    let mut i: usize = 0;
    proof {
        assert(attrs_view(attrs@) =~= Seq::<(Seq<char>, Seq<char>)>::empty());
    }
    while i < content.len()
        invariant
            i <= content@.len(),
            ial_from(content@, 0, Seq::empty()) == ial_from(content@, i as int, attrs_view(attrs@)),
        ensures
            i == content@.len(),
            ial_from(content@, 0, Seq::empty()) == ial_from(content@, i as int, attrs_view(attrs@)),
        decreases content@.len() - i,
    {
        let ghost i0 = i;
        let ghost acc = attrs_view(attrs@);
        while i < content.len() && (content[i] == ' ' || content[i] == '\t')
            invariant
                i0 <= i <= content@.len(),
                forall|k: int| i0 <= k < i ==> crate::text::is_lead(#[trigger] content@[k], true),
                ial_from(content@, 0, Seq::empty()) == ial_from(content@, i0 as int, acc),
                acc == attrs_view(attrs@),
            decreases content@.len() - i,
        {
            i = i + 1;
        }
        proof {
            crate::text::lemma_lead_run(content@, i0 as int, i as int, true);
        }
        if i >= content.len() {
            break;
        }
        assert(crate::text::lead_run(content@, i0 as int, true) == i);
        if content[i] == '.' {
            let s = i + 1;
            let j = token_end(content, s, true);
            if j == s {
                return None;
            }
            add_class(&mut attrs, &content[s..j]);
            i = j;
        } else if content[i] == '#' {
            let s = i + 1;
            let j = token_end(content, s, true);
            if j == s {
                return None;
            }
            let idk = chars_of("id");
            set_attr(&mut attrs, idk, to_vec(&content[s..j]));
            i = j;
        } else {
            let s = i;
            let j = token_end(content, s, false);
            if j == s || j >= content.len() || content[j] != '=' {
                return None;
            }
            let key = to_vec(&content[s..j]);
            let vs = j + 1;
            if vs < content.len() && (content[vs] == '"' || content[vs] == '\'') {
                let q = content[vs];
                let found = find_char_from(content, vs + 1, q);
                proof {
                    lemma_find_from(content@, vs + 1, q, match found {
                        Some(e) => Some(e as int),
                        None => None,
                    });
                }
                match found {
                    Some(end) => {
                        set_attr(&mut attrs, key, to_vec(&content[vs + 1..end]));
                        i = end + 1;
                    },
                    None => {
                        return None;
                    },
                }
            } else {
                let mut k = vs;
                while k < content.len() && !(content[k] == ' ' || content[k] == '\t')
                    invariant
                        vs <= k <= content@.len(),
                        forall|m: int| vs <= m < k ==> !(#[trigger] content@[m] == ' ' || content@[m] == '\t'),
                    decreases content@.len() - k,
                {
                    k = k + 1;
                }
                proof {
                    lemma_value_end(content@, vs as int, k as int);
                }
                set_attr(&mut attrs, key, to_vec(&content[vs..k]));
                i = k;
            }
        }
    }
    assert(ial_from(content@, i as int, attrs_view(attrs@)) == Some(attrs_view(attrs@)));
    if attrs.len() == 0 {
        None
    } else {
        Some(attrs)
    }
}

/// Chaining IALs: each attribute of `more` in turn, `class` accumulating
/// and any other key overriding in place (new keys appended).
pub open spec fn merge_spec(a: Seq<(Seq<char>, Seq<char>)>, more: Seq<(Seq<char>, Seq<char>)>) -> Seq<
    (Seq<char>, Seq<char>),
>
    decreases more.len(),
{
    if more.len() == 0 {
        a
    } else {
        let m = merge_spec(a, more.drop_last());
        let last = more.last();
        if last.0 == "class"@ {
            add_class_spec(m, last.1)
        } else {
            set_attr_spec(m, last.0, last.1)
        }
    }
}

/// Merge a second IAL into an element's attributes the way kramdown chains
/// them: `class` accumulates (space-joined), every other key overrides in
/// place, new keys append.
pub fn merge_ial(attrs: &mut Vec<Attr>, more: Vec<Attr>)
    ensures
        attrs_view(final(attrs)@) == merge_spec(attrs_view(old(attrs)@), attrs_view(more@)),
        final(attrs)@.len() >= old(attrs)@.len(),
{
    let ghost a0 = attrs_view(attrs@);
    let mut k: usize = 0;
    while k < more.len()
        invariant
            k <= more@.len(),
            attrs@.len() >= old(attrs)@.len(),
            a0 == attrs_view(old(attrs)@),
            attrs_view(attrs@) == merge_spec(a0, attrs_view(more@).subrange(0, k as int)),
        decreases more@.len() - k,
    {
        let a = &more[k];
        proof {
            assert(attrs_view(more@).subrange(0, k + 1).drop_last() =~= attrs_view(more@).subrange(
                0,
                k as int,
            ));
            assert(attrs_view(more@).subrange(0, k + 1).last() == (a.key@, a.val@));
        }
        if eq_str(a.key.as_slice(), "class") {
            add_class(attrs, a.val.as_slice());
        } else {
            set_attr(attrs, to_vec(a.key.as_slice()), to_vec(a.val.as_slice()));
        }
        k = k + 1;
    }
    proof {
        assert(attrs_view(more@).subrange(0, more@.len() as int) =~= attrs_view(more@));
    }
}

broadcast use group_extends;

/// ` key="value"` for each attribute in order, values attribute-escaped.
pub open spec fn attrs_html(a: Seq<Attr>) -> Seq<char>
    decreases a.len(),
{
    if a.len() == 0 {
        Seq::empty()
    } else {
        attrs_html(a.drop_last()) + " "@ + a.last().key@ + "=\""@ + esc_attr(a.last().val@) + "\""@
    }
}

/// Append the attributes' HTML.
pub fn emit_attrs(out: &mut Vec<char>, attrs: &Vec<Attr>)
    ensures
        final(out)@ == old(out)@ + attrs_html(attrs@),
        extends(final(out)@, old(out)@),
{
    let ghost start = out@;
    let mut k: usize = 0;
    while k < attrs.len()
        invariant
            k <= attrs@.len(),
            out@ == start + attrs_html(attrs@.subrange(0, k as int)),
        decreases attrs@.len() - k,
    {
        proof {
            assert(attrs@.subrange(0, k + 1).drop_last() =~= attrs@.subrange(0, k as int));
        }
        push_str(out, " ");
        push_all(out, attrs[k].key.as_slice());
        push_str(out, "=\"");
        escape_attr(out, attrs[k].val.as_slice());
        push_str(out, "\"");
        proof {
            assert(out@ =~= start + attrs_html(attrs@.subrange(0, k + 1)));
        }
        k = k + 1;
    }
    proof {
        assert(attrs@.subrange(0, attrs@.len() as int) =~= attrs@);
    }
}

} // verus!
