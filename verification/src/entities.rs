//! HTML entity references as kramdown resolves them for `entity_output:
//! as_char`: the HTML 4 named-entity table, numeric references (decimal and
//! hex) with HTML5's C1 remap, and the parser that recognizes a reference at
//! the start of a text.

use vstd::prelude::*;
use crate::text::{eq_str, is_ascii_alnum, ascii_alnum};

verus! {

/// HTML5's remap of the C1 range `0x80..=0x9F` to the Windows-1252 chars a
/// numeric reference there means; every other code point is itself.
pub open spec fn remap_spec(cp: u32) -> u32 {
    if cp == 0x80 { 0x20AC }
    else if cp == 0x82 { 0x201A }
    else if cp == 0x83 { 0x0192 }
    else if cp == 0x84 { 0x201E }
    else if cp == 0x85 { 0x2026 }
    else if cp == 0x86 { 0x2020 }
    else if cp == 0x87 { 0x2021 }
    else if cp == 0x88 { 0x02C6 }
    else if cp == 0x89 { 0x2030 }
    else if cp == 0x8A { 0x0160 }
    else if cp == 0x8B { 0x2039 }
    else if cp == 0x8C { 0x0152 }
    else if cp == 0x8E { 0x017D }
    else if cp == 0x91 { 0x2018 }
    else if cp == 0x92 { 0x2019 }
    else if cp == 0x93 { 0x201C }
    else if cp == 0x94 { 0x201D }
    else if cp == 0x95 { 0x2022 }
    else if cp == 0x96 { 0x2013 }
    else if cp == 0x97 { 0x2014 }
    else if cp == 0x98 { 0x02DC }
    else if cp == 0x99 { 0x2122 }
    else if cp == 0x9A { 0x0161 }
    else if cp == 0x9B { 0x203A }
    else if cp == 0x9C { 0x0153 }
    else if cp == 0x9E { 0x017E }
    else if cp == 0x9F { 0x0178 }
    else { cp }
}

pub fn remap_numeric(cp: u32) -> (r: u32)
    ensures
        r == remap_spec(cp),
{
    if cp == 0x80 { 0x20AC }
    else if cp == 0x82 { 0x201A }
    else if cp == 0x83 { 0x0192 }
    else if cp == 0x84 { 0x201E }
    else if cp == 0x85 { 0x2026 }
    else if cp == 0x86 { 0x2020 }
    else if cp == 0x87 { 0x2021 }
    else if cp == 0x88 { 0x02C6 }
    else if cp == 0x89 { 0x2030 }
    else if cp == 0x8A { 0x0160 }
    else if cp == 0x8B { 0x2039 }
    else if cp == 0x8C { 0x0152 }
    else if cp == 0x8E { 0x017D }
    else if cp == 0x91 { 0x2018 }
    else if cp == 0x92 { 0x2019 }
    else if cp == 0x93 { 0x201C }
    else if cp == 0x94 { 0x201D }
    else if cp == 0x95 { 0x2022 }
    else if cp == 0x96 { 0x2013 }
    else if cp == 0x97 { 0x2014 }
    else if cp == 0x98 { 0x02DC }
    else if cp == 0x99 { 0x2122 }
    else if cp == 0x9A { 0x0161 }
    else if cp == 0x9B { 0x203A }
    else if cp == 0x9C { 0x0153 }
    else if cp == 0x9E { 0x017E }
    else if cp == 0x9F { 0x0178 }
    else { cp }
}

/// The value of `c` as a digit in `radix` (10 or 16), if it is one.
pub open spec fn digit_spec(c: char, radix: u32) -> Option<nat> {
    if '0' <= c && c <= '9' {
        Some((c as u32 - '0' as u32) as nat)
    } else if radix == 16 && 'a' <= c && c <= 'f' {
        Some((c as u32 - 'a' as u32 + 10) as nat)
    } else if radix == 16 && 'A' <= c && c <= 'F' {
        Some((c as u32 - 'A' as u32 + 10) as nat)
    } else {
        None
    }
}

/// The number written by the digits `s` in `radix` (0 for no digits).
pub open spec fn num_value(s: Seq<char>, radix: u32) -> nat
    decreases s.len(),
{
    if s.len() == 0 {
        0
    } else {
        num_value(s.drop_last(), radix) * (radix as nat) + match digit_spec(s.last(), radix) {
            Some(d) => d,
            None => 0,
        }
    }
}

pub fn digit_of(c: char, radix: u32) -> (r: Option<u32>)
    ensures
        match digit_spec(c, radix) {
            Some(d) => r == Some(d as u32) && d < 16,
            None => r is None,
        },
{
    if '0' <= c && c <= '9' {
        Some(c as u32 - '0' as u32)
    } else if radix == 16 && 'a' <= c && c <= 'f' {
        Some(c as u32 - 'a' as u32 + 10)
    } else if radix == 16 && 'A' <= c && c <= 'F' {
        Some(c as u32 - 'A' as u32 + 10)
    } else {
        None
    }
}

/// The code point a numeric reference's value resolves to: the C1 remap
/// in range, `0x110000` (an invalid code point the caller declines) beyond.
pub open spec fn numeric_code(v: nat) -> u32 {
    if v <= 0x10FFFF {
        remap_spec(v as u32)
    } else {
        0x110000
    }
}

/// Where a numeric reference's digits start: after `&#x`/`&#X`, else `&#`.
pub open spec fn digits_start(s: Seq<char>) -> int {
    if s.len() > 2 && (s[2] == 'x' || s[2] == 'X') {
        3
    } else {
        2
    }
}

pub open spec fn radix_of(s: Seq<char>) -> u32 {
    if digits_start(s) == 3 {
        16
    } else {
        10
    }
}

/// `s[start..j]` is a non-empty digit run closed by a `;` at `j`.
pub open spec fn digits_then_semi(s: Seq<char>, start: int, j: int, radix: u32) -> bool {
    &&& start < j < s.len()
    &&& s[j] == ';'
    &&& forall|k: int| start <= k < j ==> (#[trigger] digit_spec(s[k], radix)).is_some()
}

/// `s[1..j]` is a non-empty ASCII-alphanumeric name closed by a `;` at `j`.
pub open spec fn name_then_semi(s: Seq<char>, j: int) -> bool {
    &&& 1 < j < s.len()
    &&& s[j] == ';'
    &&& forall|k: int| 1 <= k < j ==> is_ascii_alnum(#[trigger] s[k])
}

/// The entity reference at the start of `s` (which begins with `&`): its
/// resolved code point and length through the `;`, or `None` when `s` does
/// not open with a recognized reference.
pub open spec fn entity_at_spec(s: Seq<char>, r: Option<(u32, usize)>) -> bool {
    if s.len() > 1 && s[1] == '#' {
        let start = digits_start(s);
        let radix = radix_of(s);
        match r {
            Some((cp, len)) => len >= 1 && digits_then_semi(s, start, len - 1, radix) && cp
                == numeric_code(num_value(s.subrange(start, len - 1), radix)),
            None => forall|j: int| !digits_then_semi(s, start, j, radix),
        }
    } else {
        match r {
            Some((cp, len)) => len >= 1 && name_then_semi(s, len - 1) && entity_code(
                s.subrange(1, len - 1),
            ) == Some(cp),
            None => forall|j: int| #[trigger]
                name_then_semi(s, j) ==> entity_code(s.subrange(1, j)) is None,
        }
    }
}

proof fn lemma_num_value_push(p: Seq<char>, c: char, radix: u32)
    ensures
        num_value(p.push(c), radix) == num_value(p, radix) * (radix as nat) + match digit_spec(
            c,
            radix,
        ) {
            Some(d) => d,
            None => 0,
        },
{
    assert(p.push(c).drop_last() =~= p);
}

/// Parse an HTML entity at the start of `s` (`s` begins with `&`), returning
/// its resolved code point and the length consumed (through the `;`).
/// `None` ⇒ not a recognized entity, so the caller leaves the `&` literal.
/// A well-formed numeric reference that is out of range still returns
/// `Some` with an invalid code point so the caller declines.
pub fn parse_entity(s: &[char]) -> (r: Option<(u32, usize)>)
    requires
        s@.len() >= 1,
    ensures
        entity_at_spec(s@, r),
{
    if s.len() > 1 && s[1] == '#' {
        let hex = s.len() > 2 && (s[2] == 'x' || s[2] == 'X');
        let radix: u32 = if hex {
            16
        } else {
            10
        };
        let start: usize = if hex {
            3
        } else {
            2
        };
        let mut j: usize = start;
        // `val` is the digits' value, capped at 0x110000.
        let mut val: u64 = 0;
        while j < s.len() && s[j] != ';'
            invariant
                s@.len() > 1 && s@[1] == '#',
                start <= j <= s@.len(),
                start == digits_start(s@),
                radix == radix_of(s@),
                radix == 10 || radix == 16,
                forall|k: int| start <= k < j ==> (#[trigger] digit_spec(s@[k], radix)).is_some(),
                val as nat == if num_value(s@.subrange(start as int, j as int), radix)
                    < 0x110000 {
                    num_value(s@.subrange(start as int, j as int), radix)
                } else {
                    0x110000
                },
            decreases s@.len() - j,
        {
            let d = match digit_of(s[j], radix) {
                Some(d) => d,
                None => {
                    proof {
                        assert forall|jj: int| !digits_then_semi(s@, start as int, jj, radix) by {
                            if digits_then_semi(s@, start as int, jj, radix) {
                                if jj > j {
                                    assert(digit_spec(s@[j as int], radix).is_some());
                                } else if jj < j {
                                    assert(digit_spec(s@[jj], radix).is_some());
                                }
                            }
                        }
                    }
                    return None;
                },
            };
            let ghost before = s@.subrange(start as int, j as int);
            proof {
                assert(s@.subrange(start as int, j + 1) =~= before.push(s@[j as int]));
                lemma_num_value_push(before, s@[j as int], radix);
            }
            if val >= 0x110000 {
                proof {
                    assert(num_value(before, radix) >= 0x110000);
                    assert(num_value(before, radix) * (radix as nat) >= num_value(before, radix))
                        by (nonlinear_arith)
                        requires
                            radix >= 10,
                    ;
                }
            } else {
                let nv: u64 = val * (radix as u64) + (d as u64);
                proof {
                    assert(val * (radix as nat) == num_value(before, radix) * (radix as nat));
                }
                val = if nv < 0x110000 {
                    nv
                } else {
                    0x110000
                };
            }
            j = j + 1;
        }
        if j == start || j >= s.len() {
            proof {
                assert forall|jj: int| !digits_then_semi(s@, start as int, jj, radix) by {
                    if digits_then_semi(s@, start as int, jj, radix) {
                        if jj < j {
                            assert(digit_spec(s@[jj], radix).is_some());
                        }
                    }
                }
            }
            return None;
        }
        let cp: u32 = if val <= 0x10FFFF {
            remap_numeric(val as u32)
        } else {
            0x110000
        };
        Some((cp, j + 1))
    } else {
        let mut j: usize = 1;
        while j < s.len() && s[j] != ';'
            invariant
                !(s@.len() > 1 && s@[1] == '#'),
                1 <= j <= s@.len(),
                forall|k: int| 1 <= k < j ==> is_ascii_alnum(#[trigger] s@[k]),
            decreases s@.len() - j,
        {
            if !ascii_alnum(s[j]) {
                proof {
                    assert forall|jj: int| #[trigger] name_then_semi(s@, jj) implies entity_code(
                        s@.subrange(1, jj),
                    ) is None by {
                        if jj > j {
                            assert(is_ascii_alnum(s@[j as int]));
                        }
                    }
                }
                return None;
            }
            j = j + 1;
        }
        if j == 1 || j >= s.len() {
            proof {
                assert forall|jj: int| #[trigger] name_then_semi(s@, jj) implies entity_code(
                    s@.subrange(1, jj),
                ) is None by {
                    if jj < j {
                        assert(is_ascii_alnum(s@[jj]));
                    }
                }
            }
            return None;
        }
        let cp = named(&s[1..j]);
        match cp {
            Some(c) => Some((c, j + 1)),
            None => {
                proof {
                    assert forall|jj: int| #[trigger] name_then_semi(s@, jj) implies entity_code(
                        s@.subrange(1, jj),
                    ) is None by {
                        if jj < j {
                            assert(is_ascii_alnum(s@[jj]));
                        } else if jj > j {
                            assert(is_ascii_alnum(s@[j as int]));
                        }
                    }
                }
                None
            },
        }
    }
}

pub open spec fn entity_code(name: Seq<char>) -> Option<u32> {
    if name == "nbsp"@ {
        Some(160u32)
    } else if name == "iexcl"@ {
        Some(161u32)
    } else if name == "cent"@ {
        Some(162u32)
    } else if name == "pound"@ {
        Some(163u32)
    } else if name == "curren"@ {
        Some(164u32)
    } else if name == "yen"@ {
        Some(165u32)
    } else if name == "brvbar"@ {
        Some(166u32)
    } else if name == "sect"@ {
        Some(167u32)
    } else if name == "uml"@ {
        Some(168u32)
    } else if name == "copy"@ {
        Some(169u32)
    } else if name == "ordf"@ {
        Some(170u32)
    } else if name == "laquo"@ {
        Some(171u32)
    } else if name == "not"@ {
        Some(172u32)
    } else if name == "shy"@ {
        Some(173u32)
    } else if name == "reg"@ {
        Some(174u32)
    } else if name == "macr"@ {
        Some(175u32)
    } else if name == "deg"@ {
        Some(176u32)
    } else if name == "plusmn"@ {
        Some(177u32)
    } else if name == "sup2"@ {
        Some(178u32)
    } else if name == "sup3"@ {
        Some(179u32)
    } else if name == "acute"@ {
        Some(180u32)
    } else if name == "micro"@ {
        Some(181u32)
    } else if name == "para"@ {
        Some(182u32)
    } else if name == "middot"@ {
        Some(183u32)
    } else if name == "cedil"@ {
        Some(184u32)
    } else if name == "sup1"@ {
        Some(185u32)
    } else if name == "ordm"@ {
        Some(186u32)
    } else if name == "raquo"@ {
        Some(187u32)
    } else if name == "frac14"@ {
        Some(188u32)
    } else if name == "frac12"@ {
        Some(189u32)
    } else if name == "frac34"@ {
        Some(190u32)
    } else if name == "iquest"@ {
        Some(191u32)
    } else if name == "Agrave"@ {
        Some(192u32)
    } else if name == "Aacute"@ {
        Some(193u32)
    } else if name == "Acirc"@ {
        Some(194u32)
    } else if name == "Atilde"@ {
        Some(195u32)
    } else if name == "Auml"@ {
        Some(196u32)
    } else if name == "Aring"@ {
        Some(197u32)
    } else if name == "AElig"@ {
        Some(198u32)
    } else if name == "Ccedil"@ {
        Some(199u32)
    } else if name == "Egrave"@ {
        Some(200u32)
    } else if name == "Eacute"@ {
        Some(201u32)
    } else if name == "Ecirc"@ {
        Some(202u32)
    } else if name == "Euml"@ {
        Some(203u32)
    } else if name == "Igrave"@ {
        Some(204u32)
    } else if name == "Iacute"@ {
        Some(205u32)
    } else if name == "Icirc"@ {
        Some(206u32)
    } else if name == "Iuml"@ {
        Some(207u32)
    } else if name == "ETH"@ {
        Some(208u32)
    } else if name == "Ntilde"@ {
        Some(209u32)
    } else if name == "Ograve"@ {
        Some(210u32)
    } else if name == "Oacute"@ {
        Some(211u32)
    } else if name == "Ocirc"@ {
        Some(212u32)
    } else if name == "Otilde"@ {
        Some(213u32)
    } else if name == "Ouml"@ {
        Some(214u32)
    } else if name == "times"@ {
        Some(215u32)
    } else if name == "Oslash"@ {
        Some(216u32)
    } else if name == "Ugrave"@ {
        Some(217u32)
    } else if name == "Uacute"@ {
        Some(218u32)
    } else if name == "Ucirc"@ {
        Some(219u32)
    } else if name == "Uuml"@ {
        Some(220u32)
    } else if name == "Yacute"@ {
        Some(221u32)
    } else if name == "THORN"@ {
        Some(222u32)
    } else if name == "szlig"@ {
        Some(223u32)
    } else if name == "agrave"@ {
        Some(224u32)
    } else if name == "aacute"@ {
        Some(225u32)
    } else if name == "acirc"@ {
        Some(226u32)
    } else if name == "atilde"@ {
        Some(227u32)
    } else if name == "auml"@ {
        Some(228u32)
    } else if name == "aring"@ {
        Some(229u32)
    } else if name == "aelig"@ {
        Some(230u32)
    } else if name == "ccedil"@ {
        Some(231u32)
    } else if name == "egrave"@ {
        Some(232u32)
    } else if name == "eacute"@ {
        Some(233u32)
    } else if name == "ecirc"@ {
        Some(234u32)
    } else if name == "euml"@ {
        Some(235u32)
    } else if name == "igrave"@ {
        Some(236u32)
    } else if name == "iacute"@ {
        Some(237u32)
    } else if name == "icirc"@ {
        Some(238u32)
    } else if name == "iuml"@ {
        Some(239u32)
    } else if name == "eth"@ {
        Some(240u32)
    } else if name == "ntilde"@ {
        Some(241u32)
    } else if name == "ograve"@ {
        Some(242u32)
    } else if name == "oacute"@ {
        Some(243u32)
    } else if name == "ocirc"@ {
        Some(244u32)
    } else if name == "otilde"@ {
        Some(245u32)
    } else if name == "ouml"@ {
        Some(246u32)
    } else if name == "divide"@ {
        Some(247u32)
    } else if name == "oslash"@ {
        Some(248u32)
    } else if name == "ugrave"@ {
        Some(249u32)
    } else if name == "uacute"@ {
        Some(250u32)
    } else if name == "ucirc"@ {
        Some(251u32)
    } else if name == "uuml"@ {
        Some(252u32)
    } else if name == "yacute"@ {
        Some(253u32)
    } else if name == "thorn"@ {
        Some(254u32)
    } else if name == "yuml"@ {
        Some(255u32)
    } else if name == "quot"@ {
        Some(34u32)
    } else if name == "amp"@ {
        Some(38u32)
    } else if name == "apos"@ {
        Some(39u32)
    } else if name == "lt"@ {
        Some(60u32)
    } else if name == "gt"@ {
        Some(62u32)
    } else if name == "OElig"@ {
        Some(338u32)
    } else if name == "oelig"@ {
        Some(339u32)
    } else if name == "Scaron"@ {
        Some(352u32)
    } else if name == "scaron"@ {
        Some(353u32)
    } else if name == "Yuml"@ {
        Some(376u32)
    } else if name == "circ"@ {
        Some(710u32)
    } else if name == "tilde"@ {
        Some(732u32)
    } else if name == "ensp"@ {
        Some(8194u32)
    } else if name == "emsp"@ {
        Some(8195u32)
    } else if name == "thinsp"@ {
        Some(8201u32)
    } else if name == "zwnj"@ {
        Some(8204u32)
    } else if name == "zwj"@ {
        Some(8205u32)
    } else if name == "lrm"@ {
        Some(8206u32)
    } else if name == "rlm"@ {
        Some(8207u32)
    } else if name == "ndash"@ {
        Some(8211u32)
    } else if name == "mdash"@ {
        Some(8212u32)
    } else if name == "lsquo"@ {
        Some(8216u32)
    } else if name == "rsquo"@ {
        Some(8217u32)
    } else if name == "sbquo"@ {
        Some(8218u32)
    } else if name == "ldquo"@ {
        Some(8220u32)
    } else if name == "rdquo"@ {
        Some(8221u32)
    } else if name == "bdquo"@ {
        Some(8222u32)
    } else if name == "dagger"@ {
        Some(8224u32)
    } else if name == "Dagger"@ {
        Some(8225u32)
    } else if name == "permil"@ {
        Some(8240u32)
    } else if name == "lsaquo"@ {
        Some(8249u32)
    } else if name == "rsaquo"@ {
        Some(8250u32)
    } else if name == "euro"@ {
        Some(8364u32)
    } else if name == "fnof"@ {
        Some(402u32)
    } else if name == "Alpha"@ {
        Some(913u32)
    } else if name == "Beta"@ {
        Some(914u32)
    } else if name == "Gamma"@ {
        Some(915u32)
    } else if name == "Delta"@ {
        Some(916u32)
    } else if name == "Epsilon"@ {
        Some(917u32)
    } else if name == "Zeta"@ {
        Some(918u32)
    } else if name == "Eta"@ {
        Some(919u32)
    } else if name == "Theta"@ {
        Some(920u32)
    } else if name == "Iota"@ {
        Some(921u32)
    } else if name == "Kappa"@ {
        Some(922u32)
    } else if name == "Lambda"@ {
        Some(923u32)
    } else if name == "Mu"@ {
        Some(924u32)
    } else if name == "Nu"@ {
        Some(925u32)
    } else if name == "Xi"@ {
        Some(926u32)
    } else if name == "Omicron"@ {
        Some(927u32)
    } else if name == "Pi"@ {
        Some(928u32)
    } else if name == "Rho"@ {
        Some(929u32)
    } else if name == "Sigma"@ {
        Some(931u32)
    } else if name == "Tau"@ {
        Some(932u32)
    } else if name == "Upsilon"@ {
        Some(933u32)
    } else if name == "Phi"@ {
        Some(934u32)
    } else if name == "Chi"@ {
        Some(935u32)
    } else if name == "Psi"@ {
        Some(936u32)
    } else if name == "Omega"@ {
        Some(937u32)
    } else if name == "alpha"@ {
        Some(945u32)
    } else if name == "beta"@ {
        Some(946u32)
    } else if name == "gamma"@ {
        Some(947u32)
    } else if name == "delta"@ {
        Some(948u32)
    } else if name == "epsilon"@ {
        Some(949u32)
    } else if name == "zeta"@ {
        Some(950u32)
    } else if name == "eta"@ {
        Some(951u32)
    } else if name == "theta"@ {
        Some(952u32)
    } else if name == "iota"@ {
        Some(953u32)
    } else if name == "kappa"@ {
        Some(954u32)
    } else if name == "lambda"@ {
        Some(955u32)
    } else if name == "mu"@ {
        Some(956u32)
    } else if name == "nu"@ {
        Some(957u32)
    } else if name == "xi"@ {
        Some(958u32)
    } else if name == "omicron"@ {
        Some(959u32)
    } else if name == "pi"@ {
        Some(960u32)
    } else if name == "rho"@ {
        Some(961u32)
    } else if name == "sigmaf"@ {
        Some(962u32)
    } else if name == "sigma"@ {
        Some(963u32)
    } else if name == "tau"@ {
        Some(964u32)
    } else if name == "upsilon"@ {
        Some(965u32)
    } else if name == "phi"@ {
        Some(966u32)
    } else if name == "chi"@ {
        Some(967u32)
    } else if name == "psi"@ {
        Some(968u32)
    } else if name == "omega"@ {
        Some(969u32)
    } else if name == "thetasym"@ {
        Some(977u32)
    } else if name == "upsih"@ {
        Some(978u32)
    } else if name == "piv"@ {
        Some(982u32)
    } else if name == "bull"@ {
        Some(8226u32)
    } else if name == "hellip"@ {
        Some(8230u32)
    } else if name == "prime"@ {
        Some(8242u32)
    } else if name == "Prime"@ {
        Some(8243u32)
    } else if name == "oline"@ {
        Some(8254u32)
    } else if name == "frasl"@ {
        Some(8260u32)
    } else if name == "weierp"@ {
        Some(8472u32)
    } else if name == "image"@ {
        Some(8465u32)
    } else if name == "real"@ {
        Some(8476u32)
    } else if name == "trade"@ {
        Some(8482u32)
    } else if name == "alefsym"@ {
        Some(8501u32)
    } else if name == "larr"@ {
        Some(8592u32)
    } else if name == "uarr"@ {
        Some(8593u32)
    } else if name == "rarr"@ {
        Some(8594u32)
    } else if name == "darr"@ {
        Some(8595u32)
    } else if name == "harr"@ {
        Some(8596u32)
    } else if name == "crarr"@ {
        Some(8629u32)
    } else if name == "lArr"@ {
        Some(8656u32)
    } else if name == "uArr"@ {
        Some(8657u32)
    } else if name == "rArr"@ {
        Some(8658u32)
    } else if name == "dArr"@ {
        Some(8659u32)
    } else if name == "hArr"@ {
        Some(8660u32)
    } else if name == "forall"@ {
        Some(8704u32)
    } else if name == "part"@ {
        Some(8706u32)
    } else if name == "exist"@ {
        Some(8707u32)
    } else if name == "empty"@ {
        Some(8709u32)
    } else if name == "nabla"@ {
        Some(8711u32)
    } else if name == "isin"@ {
        Some(8712u32)
    } else if name == "notin"@ {
        Some(8713u32)
    } else if name == "ni"@ {
        Some(8715u32)
    } else if name == "prod"@ {
        Some(8719u32)
    } else if name == "sum"@ {
        Some(8721u32)
    } else if name == "minus"@ {
        Some(8722u32)
    } else if name == "lowast"@ {
        Some(8727u32)
    } else if name == "radic"@ {
        Some(8730u32)
    } else if name == "prop"@ {
        Some(8733u32)
    } else if name == "infin"@ {
        Some(8734u32)
    } else if name == "ang"@ {
        Some(8736u32)
    } else if name == "and"@ {
        Some(8743u32)
    } else if name == "or"@ {
        Some(8744u32)
    } else if name == "cap"@ {
        Some(8745u32)
    } else if name == "cup"@ {
        Some(8746u32)
    } else if name == "int"@ {
        Some(8747u32)
    } else if name == "there4"@ {
        Some(8756u32)
    } else if name == "sim"@ {
        Some(8764u32)
    } else if name == "cong"@ {
        Some(8773u32)
    } else if name == "asymp"@ {
        Some(8776u32)
    } else if name == "ne"@ {
        Some(8800u32)
    } else if name == "equiv"@ {
        Some(8801u32)
    } else if name == "le"@ {
        Some(8804u32)
    } else if name == "ge"@ {
        Some(8805u32)
    } else if name == "sub"@ {
        Some(8834u32)
    } else if name == "sup"@ {
        Some(8835u32)
    } else if name == "nsub"@ {
        Some(8836u32)
    } else if name == "sube"@ {
        Some(8838u32)
    } else if name == "supe"@ {
        Some(8839u32)
    } else if name == "oplus"@ {
        Some(8853u32)
    } else if name == "otimes"@ {
        Some(8855u32)
    } else if name == "perp"@ {
        Some(8869u32)
    } else if name == "sdot"@ {
        Some(8901u32)
    } else if name == "lceil"@ {
        Some(8968u32)
    } else if name == "rceil"@ {
        Some(8969u32)
    } else if name == "lfloor"@ {
        Some(8970u32)
    } else if name == "rfloor"@ {
        Some(8971u32)
    } else if name == "lang"@ {
        Some(9001u32)
    } else if name == "rang"@ {
        Some(9002u32)
    } else if name == "loz"@ {
        Some(9674u32)
    } else if name == "spades"@ {
        Some(9824u32)
    } else if name == "clubs"@ {
        Some(9827u32)
    } else if name == "hearts"@ {
        Some(9829u32)
    } else if name == "diams"@ {
        Some(9830u32)
    } else {
        None
    }
}

/// kramdown's named-entity table: the code point of `&name;`.
pub fn named(name: &[char]) -> (r: Option<u32>)
    ensures
        r == entity_code(name@),
{
    if eq_str(name, "nbsp") {
        Some(160)
    } else if eq_str(name, "iexcl") {
        Some(161)
    } else if eq_str(name, "cent") {
        Some(162)
    } else if eq_str(name, "pound") {
        Some(163)
    } else if eq_str(name, "curren") {
        Some(164)
    } else if eq_str(name, "yen") {
        Some(165)
    } else if eq_str(name, "brvbar") {
        Some(166)
    } else if eq_str(name, "sect") {
        Some(167)
    } else if eq_str(name, "uml") {
        Some(168)
    } else if eq_str(name, "copy") {
        Some(169)
    } else if eq_str(name, "ordf") {
        Some(170)
    } else if eq_str(name, "laquo") {
        Some(171)
    } else if eq_str(name, "not") {
        Some(172)
    } else if eq_str(name, "shy") {
        Some(173)
    } else if eq_str(name, "reg") {
        Some(174)
    } else if eq_str(name, "macr") {
        Some(175)
    } else if eq_str(name, "deg") {
        Some(176)
    } else if eq_str(name, "plusmn") {
        Some(177)
    } else if eq_str(name, "sup2") {
        Some(178)
    } else if eq_str(name, "sup3") {
        Some(179)
    } else if eq_str(name, "acute") {
        Some(180)
    } else if eq_str(name, "micro") {
        Some(181)
    } else if eq_str(name, "para") {
        Some(182)
    } else if eq_str(name, "middot") {
        Some(183)
    } else if eq_str(name, "cedil") {
        Some(184)
    } else if eq_str(name, "sup1") {
        Some(185)
    } else if eq_str(name, "ordm") {
        Some(186)
    } else if eq_str(name, "raquo") {
        Some(187)
    } else if eq_str(name, "frac14") {
        Some(188)
    } else if eq_str(name, "frac12") {
        Some(189)
    } else if eq_str(name, "frac34") {
        Some(190)
    } else if eq_str(name, "iquest") {
        Some(191)
    } else if eq_str(name, "Agrave") {
        Some(192)
    } else if eq_str(name, "Aacute") {
        Some(193)
    } else if eq_str(name, "Acirc") {
        Some(194)
    } else if eq_str(name, "Atilde") {
        Some(195)
    } else if eq_str(name, "Auml") {
        Some(196)
    } else if eq_str(name, "Aring") {
        Some(197)
    } else if eq_str(name, "AElig") {
        Some(198)
    } else if eq_str(name, "Ccedil") {
        Some(199)
    } else if eq_str(name, "Egrave") {
        Some(200)
    } else if eq_str(name, "Eacute") {
        Some(201)
    } else if eq_str(name, "Ecirc") {
        Some(202)
    } else if eq_str(name, "Euml") {
        Some(203)
    } else if eq_str(name, "Igrave") {
        Some(204)
    } else if eq_str(name, "Iacute") {
        Some(205)
    } else if eq_str(name, "Icirc") {
        Some(206)
    } else if eq_str(name, "Iuml") {
        Some(207)
    } else if eq_str(name, "ETH") {
        Some(208)
    } else if eq_str(name, "Ntilde") {
        Some(209)
    } else if eq_str(name, "Ograve") {
        Some(210)
    } else if eq_str(name, "Oacute") {
        Some(211)
    } else if eq_str(name, "Ocirc") {
        Some(212)
    } else if eq_str(name, "Otilde") {
        Some(213)
    } else if eq_str(name, "Ouml") {
        Some(214)
    } else if eq_str(name, "times") {
        Some(215)
    } else if eq_str(name, "Oslash") {
        Some(216)
    } else if eq_str(name, "Ugrave") {
        Some(217)
    } else if eq_str(name, "Uacute") {
        Some(218)
    } else if eq_str(name, "Ucirc") {
        Some(219)
    } else if eq_str(name, "Uuml") {
        Some(220)
    } else if eq_str(name, "Yacute") {
        Some(221)
    } else if eq_str(name, "THORN") {
        Some(222)
    } else if eq_str(name, "szlig") {
        Some(223)
    } else if eq_str(name, "agrave") {
        Some(224)
    } else if eq_str(name, "aacute") {
        Some(225)
    } else if eq_str(name, "acirc") {
        Some(226)
    } else if eq_str(name, "atilde") {
        Some(227)
    } else if eq_str(name, "auml") {
        Some(228)
    } else if eq_str(name, "aring") {
        Some(229)
    } else if eq_str(name, "aelig") {
        Some(230)
    } else if eq_str(name, "ccedil") {
        Some(231)
    } else if eq_str(name, "egrave") {
        Some(232)
    } else if eq_str(name, "eacute") {
        Some(233)
    } else if eq_str(name, "ecirc") {
        Some(234)
    } else if eq_str(name, "euml") {
        Some(235)
    } else if eq_str(name, "igrave") {
        Some(236)
    } else if eq_str(name, "iacute") {
        Some(237)
    } else if eq_str(name, "icirc") {
        Some(238)
    } else if eq_str(name, "iuml") {
        Some(239)
    } else if eq_str(name, "eth") {
        Some(240)
    } else if eq_str(name, "ntilde") {
        Some(241)
    } else if eq_str(name, "ograve") {
        Some(242)
    } else if eq_str(name, "oacute") {
        Some(243)
    } else if eq_str(name, "ocirc") {
        Some(244)
    } else if eq_str(name, "otilde") {
        Some(245)
    } else if eq_str(name, "ouml") {
        Some(246)
    } else if eq_str(name, "divide") {
        Some(247)
    } else if eq_str(name, "oslash") {
        Some(248)
    } else if eq_str(name, "ugrave") {
        Some(249)
    } else if eq_str(name, "uacute") {
        Some(250)
    } else if eq_str(name, "ucirc") {
        Some(251)
    } else if eq_str(name, "uuml") {
        Some(252)
    } else if eq_str(name, "yacute") {
        Some(253)
    } else if eq_str(name, "thorn") {
        Some(254)
    } else if eq_str(name, "yuml") {
        Some(255)
    } else if eq_str(name, "quot") {
        Some(34)
    } else if eq_str(name, "amp") {
        Some(38)
    } else if eq_str(name, "apos") {
        Some(39)
    } else if eq_str(name, "lt") {
        Some(60)
    } else if eq_str(name, "gt") {
        Some(62)
    } else if eq_str(name, "OElig") {
        Some(338)
    } else if eq_str(name, "oelig") {
        Some(339)
    } else if eq_str(name, "Scaron") {
        Some(352)
    } else if eq_str(name, "scaron") {
        Some(353)
    } else if eq_str(name, "Yuml") {
        Some(376)
    } else if eq_str(name, "circ") {
        Some(710)
    } else if eq_str(name, "tilde") {
        Some(732)
    } else if eq_str(name, "ensp") {
        Some(8194)
    } else if eq_str(name, "emsp") {
        Some(8195)
    } else if eq_str(name, "thinsp") {
        Some(8201)
    } else if eq_str(name, "zwnj") {
        Some(8204)
    } else if eq_str(name, "zwj") {
        Some(8205)
    } else if eq_str(name, "lrm") {
        Some(8206)
    } else if eq_str(name, "rlm") {
        Some(8207)
    } else if eq_str(name, "ndash") {
        Some(8211)
    } else if eq_str(name, "mdash") {
        Some(8212)
    } else if eq_str(name, "lsquo") {
        Some(8216)
    } else if eq_str(name, "rsquo") {
        Some(8217)
    } else if eq_str(name, "sbquo") {
        Some(8218)
    } else if eq_str(name, "ldquo") {
        Some(8220)
    } else if eq_str(name, "rdquo") {
        Some(8221)
    } else if eq_str(name, "bdquo") {
        Some(8222)
    } else if eq_str(name, "dagger") {
        Some(8224)
    } else if eq_str(name, "Dagger") {
        Some(8225)
    } else if eq_str(name, "permil") {
        Some(8240)
    } else if eq_str(name, "lsaquo") {
        Some(8249)
    } else if eq_str(name, "rsaquo") {
        Some(8250)
    } else if eq_str(name, "euro") {
        Some(8364)
    } else if eq_str(name, "fnof") {
        Some(402)
    } else if eq_str(name, "Alpha") {
        Some(913)
    } else if eq_str(name, "Beta") {
        Some(914)
    } else if eq_str(name, "Gamma") {
        Some(915)
    } else if eq_str(name, "Delta") {
        Some(916)
    } else if eq_str(name, "Epsilon") {
        Some(917)
    } else if eq_str(name, "Zeta") {
        Some(918)
    } else if eq_str(name, "Eta") {
        Some(919)
    } else if eq_str(name, "Theta") {
        Some(920)
    } else if eq_str(name, "Iota") {
        Some(921)
    } else if eq_str(name, "Kappa") {
        Some(922)
    } else if eq_str(name, "Lambda") {
        Some(923)
    } else if eq_str(name, "Mu") {
        Some(924)
    } else if eq_str(name, "Nu") {
        Some(925)
    } else if eq_str(name, "Xi") {
        Some(926)
    } else if eq_str(name, "Omicron") {
        Some(927)
    } else if eq_str(name, "Pi") {
        Some(928)
    } else if eq_str(name, "Rho") {
        Some(929)
    } else if eq_str(name, "Sigma") {
        Some(931)
    } else if eq_str(name, "Tau") {
        Some(932)
    } else if eq_str(name, "Upsilon") {
        Some(933)
    } else if eq_str(name, "Phi") {
        Some(934)
    } else if eq_str(name, "Chi") {
        Some(935)
    } else if eq_str(name, "Psi") {
        Some(936)
    } else if eq_str(name, "Omega") {
        Some(937)
    } else if eq_str(name, "alpha") {
        Some(945)
    } else if eq_str(name, "beta") {
        Some(946)
    } else if eq_str(name, "gamma") {
        Some(947)
    } else if eq_str(name, "delta") {
        Some(948)
    } else if eq_str(name, "epsilon") {
        Some(949)
    } else if eq_str(name, "zeta") {
        Some(950)
    } else if eq_str(name, "eta") {
        Some(951)
    } else if eq_str(name, "theta") {
        Some(952)
    } else if eq_str(name, "iota") {
        Some(953)
    } else if eq_str(name, "kappa") {
        Some(954)
    } else if eq_str(name, "lambda") {
        Some(955)
    } else if eq_str(name, "mu") {
        Some(956)
    } else if eq_str(name, "nu") {
        Some(957)
    } else if eq_str(name, "xi") {
        Some(958)
    } else if eq_str(name, "omicron") {
        Some(959)
    } else if eq_str(name, "pi") {
        Some(960)
    } else if eq_str(name, "rho") {
        Some(961)
    } else if eq_str(name, "sigmaf") {
        Some(962)
    } else if eq_str(name, "sigma") {
        Some(963)
    } else if eq_str(name, "tau") {
        Some(964)
    } else if eq_str(name, "upsilon") {
        Some(965)
    } else if eq_str(name, "phi") {
        Some(966)
    } else if eq_str(name, "chi") {
        Some(967)
    } else if eq_str(name, "psi") {
        Some(968)
    } else if eq_str(name, "omega") {
        Some(969)
    } else if eq_str(name, "thetasym") {
        Some(977)
    } else if eq_str(name, "upsih") {
        Some(978)
    } else if eq_str(name, "piv") {
        Some(982)
    } else if eq_str(name, "bull") {
        Some(8226)
    } else if eq_str(name, "hellip") {
        Some(8230)
    } else if eq_str(name, "prime") {
        Some(8242)
    } else if eq_str(name, "Prime") {
        Some(8243)
    } else if eq_str(name, "oline") {
        Some(8254)
    } else if eq_str(name, "frasl") {
        Some(8260)
    } else if eq_str(name, "weierp") {
        Some(8472)
    } else if eq_str(name, "image") {
        Some(8465)
    } else if eq_str(name, "real") {
        Some(8476)
    } else if eq_str(name, "trade") {
        Some(8482)
    } else if eq_str(name, "alefsym") {
        Some(8501)
    } else if eq_str(name, "larr") {
        Some(8592)
    } else if eq_str(name, "uarr") {
        Some(8593)
    } else if eq_str(name, "rarr") {
        Some(8594)
    } else if eq_str(name, "darr") {
        Some(8595)
    } else if eq_str(name, "harr") {
        Some(8596)
    } else if eq_str(name, "crarr") {
        Some(8629)
    } else if eq_str(name, "lArr") {
        Some(8656)
    } else if eq_str(name, "uArr") {
        Some(8657)
    } else if eq_str(name, "rArr") {
        Some(8658)
    } else if eq_str(name, "dArr") {
        Some(8659)
    } else if eq_str(name, "hArr") {
        Some(8660)
    } else if eq_str(name, "forall") {
        Some(8704)
    } else if eq_str(name, "part") {
        Some(8706)
    } else if eq_str(name, "exist") {
        Some(8707)
    } else if eq_str(name, "empty") {
        Some(8709)
    } else if eq_str(name, "nabla") {
        Some(8711)
    } else if eq_str(name, "isin") {
        Some(8712)
    } else if eq_str(name, "notin") {
        Some(8713)
    } else if eq_str(name, "ni") {
        Some(8715)
    } else if eq_str(name, "prod") {
        Some(8719)
    } else if eq_str(name, "sum") {
        Some(8721)
    } else if eq_str(name, "minus") {
        Some(8722)
    } else if eq_str(name, "lowast") {
        Some(8727)
    } else if eq_str(name, "radic") {
        Some(8730)
    } else if eq_str(name, "prop") {
        Some(8733)
    } else if eq_str(name, "infin") {
        Some(8734)
    } else if eq_str(name, "ang") {
        Some(8736)
    } else if eq_str(name, "and") {
        Some(8743)
    } else if eq_str(name, "or") {
        Some(8744)
    } else if eq_str(name, "cap") {
        Some(8745)
    } else if eq_str(name, "cup") {
        Some(8746)
    } else if eq_str(name, "int") {
        Some(8747)
    } else if eq_str(name, "there4") {
        Some(8756)
    } else if eq_str(name, "sim") {
        Some(8764)
    } else if eq_str(name, "cong") {
        Some(8773)
    } else if eq_str(name, "asymp") {
        Some(8776)
    } else if eq_str(name, "ne") {
        Some(8800)
    } else if eq_str(name, "equiv") {
        Some(8801)
    } else if eq_str(name, "le") {
        Some(8804)
    } else if eq_str(name, "ge") {
        Some(8805)
    } else if eq_str(name, "sub") {
        Some(8834)
    } else if eq_str(name, "sup") {
        Some(8835)
    } else if eq_str(name, "nsub") {
        Some(8836)
    } else if eq_str(name, "sube") {
        Some(8838)
    } else if eq_str(name, "supe") {
        Some(8839)
    } else if eq_str(name, "oplus") {
        Some(8853)
    } else if eq_str(name, "otimes") {
        Some(8855)
    } else if eq_str(name, "perp") {
        Some(8869)
    } else if eq_str(name, "sdot") {
        Some(8901)
    } else if eq_str(name, "lceil") {
        Some(8968)
    } else if eq_str(name, "rceil") {
        Some(8969)
    } else if eq_str(name, "lfloor") {
        Some(8970)
    } else if eq_str(name, "rfloor") {
        Some(8971)
    } else if eq_str(name, "lang") {
        Some(9001)
    } else if eq_str(name, "rang") {
        Some(9002)
    } else if eq_str(name, "loz") {
        Some(9674)
    } else if eq_str(name, "spades") {
        Some(9824)
    } else if eq_str(name, "clubs") {
        Some(9827)
    } else if eq_str(name, "hearts") {
        Some(9829)
    } else if eq_str(name, "diams") {
        Some(9830)
    } else {
        None
    }
}

} // verus!
