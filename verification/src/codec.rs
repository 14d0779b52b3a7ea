//! The config file's wire form, owned by this crate. The encoder writes one
//! canonical JSON object, `{"unit": <string>, "loc": [{"City": <string>} |
//! {"Zip": <number>}, ...], "key": <string>}`, with no whitespace between
//! tokens. The reader is lenient, as a JSON reader should be: insignificant
//! whitespace is allowed between tokens, the known members may come in any
//! order, unknown members are skipped and ignored, and a missing `key`
//! defaults to the empty string; `unit` and `loc` are required, and a
//! duplicated known member is malformed. Anything unreadable makes loading
//! fall back to the built-in default.

use vstd::prelude::*;
use crate::config::{Config, ConfigView, spec_default_config};
use crate::location::{Location, LocationView};
use crate::numbers::{
    digit_char, digit_val, digits_value, is_digit_char, sp_digits_end, spec_dec, u64_to_dec,
    lemma_dec_props, lemma_digits_end, lemma_digits_value_extend, scan_digits, char_to_digit,
};
use crate::text::push_char;

verus! {

// ---------------------------------------------------------------------------
// Literal tokens of the canonical wire form, and the member and tag names.
// ---------------------------------------------------------------------------

pub open spec fn lit_head() -> Seq<char> {
    seq!['{', '"', 'u', 'n', 'i', 't', '"', ':', '"']
}

pub open spec fn lit_loc() -> Seq<char> {
    seq![',', '"', 'l', 'o', 'c', '"', ':', '[']
}

pub open spec fn lit_key() -> Seq<char> {
    seq![',', '"', 'k', 'e', 'y', '"', ':', '"']
}

pub open spec fn lit_city() -> Seq<char> {
    seq!['{', '"', 'C', 'i', 't', 'y', '"', ':', '"']
}

pub open spec fn lit_zip() -> Seq<char> {
    seq!['{', '"', 'Z', 'i', 'p', '"', ':']
}

pub open spec fn name_unit() -> Seq<char> {
    seq!['u', 'n', 'i', 't']
}

pub open spec fn name_loc() -> Seq<char> {
    seq!['l', 'o', 'c']
}

pub open spec fn name_key() -> Seq<char> {
    seq!['k', 'e', 'y']
}

pub open spec fn tag_city() -> Seq<char> {
    seq!['C', 'i', 't', 'y']
}

pub open spec fn tag_zip() -> Seq<char> {
    seq!['Z', 'i', 'p']
}

pub open spec fn kw_true() -> Seq<char> {
    seq!['t', 'r', 'u', 'e']
}

pub open spec fn kw_false() -> Seq<char> {
    seq!['f', 'a', 'l', 's', 'e']
}

pub open spec fn kw_null() -> Seq<char> {
    seq!['n', 'u', 'l', 'l']
}

// ---------------------------------------------------------------------------
// String escaping.
// ---------------------------------------------------------------------------

pub open spec fn is_hex_char(c: char) -> bool {
    is_digit_char(c) || c == 'a' || c == 'b' || c == 'c' || c == 'd' || c == 'e' || c == 'f'
        || c == 'A' || c == 'B' || c == 'C' || c == 'D' || c == 'E' || c == 'F'
}

pub open spec fn hex_val(c: char) -> nat {
    if is_digit_char(c) { digit_val(c) }
    else if c == 'a' || c == 'A' { 10 }
    else if c == 'b' || c == 'B' { 11 }
    else if c == 'c' || c == 'C' { 12 }
    else if c == 'd' || c == 'D' { 13 }
    else if c == 'e' || c == 'E' { 14 }
    else { 15 }
}

pub open spec fn hex_digit_char(d: nat) -> char {
    if d < 10 { digit_char(d) }
    else if d == 10 { 'a' }
    else if d == 11 { 'b' }
    else if d == 12 { 'c' }
    else if d == 13 { 'd' }
    else if d == 14 { 'e' }
    else { 'f' }
}

/// How one character is written inside a JSON string: quote, backslash and
/// the named control characters get a two-character escape, the remaining
/// control characters the six-character `\u00..` form JSON requires, and
/// everything else is written as itself.
pub open spec fn esc_char(c: char) -> Seq<char> {
    if c == '"' { seq!['\\', '"'] }
    else if c == '\\' { seq!['\\', '\\'] }
    else if c == '\n' { seq!['\\', 'n'] }
    else if c == '\t' { seq!['\\', 't'] }
    else if c == '\r' { seq!['\\', 'r'] }
    else if (c as u32) < 0x20 {
        seq!['\\', 'u', '0', '0', hex_digit_char(((c as u32) / 16) as nat), hex_digit_char(
            ((c as u32) % 16) as nat,
        )]
    }
    else { seq![c] }
}

pub open spec fn esc(s: Seq<char>) -> Seq<char>
    decreases s.len(),
{
    if s.len() == 0 {
        Seq::<char>::empty()
    } else {
        esc_char(s[0]) + esc(s.skip(1))
    }
}

/// What a two-character escape stands for; `None` for an unknown code.
pub open spec fn unesc_char(c: char) -> Option<char> {
    if c == '"' { Some('"') }
    else if c == '\\' { Some('\\') }
    else if c == '/' { Some('/') }
    else if c == 'n' { Some('\n') }
    else if c == 't' { Some('\t') }
    else if c == 'r' { Some('\r') }
    else if c == 'b' { Some('\u{0008}') }
    else if c == 'f' { Some('\u{000C}') }
    else { None }
}

// ---------------------------------------------------------------------------
// The canonical encoding.
// ---------------------------------------------------------------------------

pub open spec fn spec_encode_loc(v: LocationView) -> Seq<char> {
    match v {
        LocationView::City(name) => lit_city() + esc(name) + seq!['"', '}'],
        LocationView::Zip(z) => lit_zip() + spec_dec(z as nat) + seq!['}'],
    }
}

pub open spec fn spec_encode_locs(l: Seq<LocationView>) -> Seq<char>
    decreases l.len(),
{
    if l.len() == 0 {
        Seq::<char>::empty()
    } else if l.len() == 1 {
        spec_encode_loc(l[0])
    } else {
        spec_encode_loc(l[0]) + seq![','] + spec_encode_locs(l.skip(1))
    }
}

/// The exact text the encoder writes for a config.
pub open spec fn spec_encode_config(c: ConfigView) -> Seq<char> {
    lit_head() + esc(c.unit) + seq!['"'] + lit_loc() + spec_encode_locs(c.loc) + seq![']']
        + lit_key() + esc(c.key) + seq!['"', '}']
}

// ---------------------------------------------------------------------------
// The reader, at the specification level. Each function reads from position
// `i` and answers the parsed value and the position after it, or `None`.
// ---------------------------------------------------------------------------

pub open spec fn is_ws_char(c: char) -> bool {
    c == ' ' || c == '\t' || c == '\n' || c == '\r'
}

/// The first position at or after `i` that carries no whitespace.
pub open spec fn sp_ws(s: Seq<char>, i: int) -> int
    decreases s.len() - i,
{
    if i < 0 || i >= s.len() || !is_ws_char(s[i]) {
        i
    } else {
        sp_ws(s, i + 1)
    }
}

/// The position after the literal `pat`, when `s` carries it at `i`.
pub open spec fn sp_lit(s: Seq<char>, i: int, pat: Seq<char>) -> Option<int> {
    if 0 <= i && i + pat.len() <= s.len() && s.subrange(i, i + pat.len()) == pat {
        Some(i + pat.len())
    } else {
        None
    }
}

/// String body read from just after the opening quote up to the closing one:
/// the named escapes, `\u00..` forms below 0x80, and raw characters.
pub open spec fn sp_string(s: Seq<char>, i: int) -> Option<(Seq<char>, int)>
    decreases s.len() - i,
{
    if i < 0 || i >= s.len() {
        None
    } else if s[i] == '"' {
        Some((Seq::<char>::empty(), i + 1))
    } else if s[i] == '\\' {
        if i + 1 < s.len() && s[i + 1] == 'u' {
            if i + 6 <= s.len() && is_hex_char(s[i + 2]) && is_hex_char(s[i + 3]) && is_hex_char(
                s[i + 4],
            ) && is_hex_char(s[i + 5]) {
                let v: u32 = (hex_val(s[i + 2]) * 4096 + hex_val(s[i + 3]) * 256 + hex_val(
                    s[i + 4],
                ) * 16 + hex_val(s[i + 5])) as u32;
                if v < 0x80 {
                    match sp_string(s, i + 6) {
                        None => None,
                        Some((t, j)) => Some((seq![(v as char)] + t, j)),
                    }
                } else {
                    None
                }
            } else {
                None
            }
        } else if i + 1 < s.len() {
            match unesc_char(s[i + 1]) {
                None => None,
                Some(c) => match sp_string(s, i + 2) {
                    None => None,
                    Some((t, j)) => Some((seq![c] + t, j)),
                },
            }
        } else {
            None
        }
    } else {
        match sp_string(s, i + 1) {
            None => None,
            Some((t, j)) => Some((seq![s[i]] + t, j)),
        }
    }
}

/// A whole quoted string token at `i`.
pub open spec fn sp_qstring(s: Seq<char>, i: int) -> Option<(Seq<char>, int)> {
    if 0 <= i && i < s.len() && s[i] == '"' {
        sp_string(s, i + 1)
    } else {
        None
    }
}

/// A number: one or more digits whose value fits in a `u32`.
pub open spec fn sp_u32(s: Seq<char>, i: int) -> Option<(u32, int)> {
    let j = sp_digits_end(s, i);
    if 0 <= i && i < j && digits_value(s.subrange(i, j)) <= u32::MAX {
        Some((digits_value(s.subrange(i, j)) as u32, j))
    } else {
        None
    }
}

/// The characters a number token may carry; used only to skip one.
pub open spec fn is_number_char(c: char) -> bool {
    is_digit_char(c) || c == '-' || c == '+' || c == '.' || c == 'e' || c == 'E'
}

pub open spec fn sp_numchars_end(s: Seq<char>, i: int) -> int
    decreases s.len() - i,
{
    if i < 0 || i >= s.len() || !is_number_char(s[i]) {
        i
    } else {
        sp_numchars_end(s, i + 1)
    }
}

/// Skips one arbitrary JSON value (an ignored member's) starting at `i`;
/// answers the position after it.
pub open spec fn sp_skip_value(s: Seq<char>, i: int) -> Option<int>
    decreases s.len() - i, 0int,
{
    if i < 0 || i >= s.len() {
        None
    } else if s[i] == '"' {
        match sp_string(s, i + 1) {
            None => None,
            Some((t, j)) => Some(j),
        }
    } else if s[i] == '[' {
        sp_skip_arr(s, i + 1)
    } else if s[i] == '{' {
        sp_skip_obj(s, i + 1)
    } else if is_number_char(s[i]) {
        Some(sp_numchars_end(s, i))
    } else if s[i] == 't' {
        sp_lit(s, i, kw_true())
    } else if s[i] == 'f' {
        sp_lit(s, i, kw_false())
    } else if s[i] == 'n' {
        sp_lit(s, i, kw_null())
    } else {
        None
    }
}

/// Skips the rest of an array, from just after its opening bracket.
pub open spec fn sp_skip_arr(s: Seq<char>, i: int) -> Option<int>
    decreases s.len() - i, 1int,
{
    if i < 0 || i > s.len() {
        None
    } else {
        let a = sp_ws(s, i);
        if a < i || a >= s.len() {
            None
        } else if s[a] == ']' {
            Some(a + 1)
        } else {
            match sp_skip_value(s, a) {
                None => None,
                Some(j) => {
                    if j <= a || j > s.len() {
                        None
                    } else {
                        let b = sp_ws(s, j);
                        if b < j || b >= s.len() {
                            None
                        } else if s[b] == ',' {
                            sp_skip_arr(s, b + 1)
                        } else if s[b] == ']' {
                            Some(b + 1)
                        } else {
                            None
                        }
                    }
                },
            }
        }
    }
}

/// Skips the rest of an object, from just after its opening brace.
pub open spec fn sp_skip_obj(s: Seq<char>, i: int) -> Option<int>
    decreases s.len() - i, 1int,
{
    if i < 0 || i > s.len() {
        None
    } else {
        let a = sp_ws(s, i);
        if a < i || a >= s.len() {
            None
        } else if s[a] == '}' {
            Some(a + 1)
        } else {
            match sp_qstring(s, a) {
                None => None,
                Some((name, k)) => {
                    if k <= a || k > s.len() {
                        None
                    } else {
                        let c = sp_ws(s, k);
                        if c < k || c >= s.len() || s[c] != ':' {
                            None
                        } else {
                            let d = sp_ws(s, c + 1);
                            if d < c + 1 || d > s.len() {
                                None
                            } else {
                                match sp_skip_value(s, d) {
                                    None => None,
                                    Some(j) => {
                                        if j <= d || j > s.len() {
                                            None
                                        } else {
                                            let b = sp_ws(s, j);
                                            if b < j || b >= s.len() {
                                                None
                                            } else if s[b] == ',' {
                                                sp_skip_obj(s, b + 1)
                                            } else if s[b] == '}' {
                                                Some(b + 1)
                                            } else {
                                                None
                                            }
                                        }
                                    },
                                }
                            }
                        }
                    }
                },
            }
        }
    }
}

/// One location object at `i`, either variant, whitespace tolerated.
pub open spec fn sp_location(s: Seq<char>, i: int) -> Option<(LocationView, int)> {
    if i < 0 || i >= s.len() || s[i] != '{' {
        None
    } else {
        let a = sp_ws(s, i + 1);
        match sp_qstring(s, a) {
            None => None,
            Some((tag, k)) => {
                if k > s.len() {
                    None
                } else {
                    let c = sp_ws(s, k);
                    if c >= s.len() || s[c] != ':' {
                        None
                    } else {
                        let d = sp_ws(s, c + 1);
                        if tag == tag_city() {
                            match sp_qstring(s, d) {
                                None => None,
                                Some((name, j)) => {
                                    let e = sp_ws(s, j);
                                    if e < s.len() && s[e] == '}' {
                                        Some((LocationView::City(name), e + 1))
                                    } else {
                                        None
                                    }
                                },
                            }
                        } else if tag == tag_zip() {
                            match sp_u32(s, d) {
                                None => None,
                                Some((z, j)) => {
                                    let e = sp_ws(s, j);
                                    if e < s.len() && s[e] == '}' {
                                        Some((LocationView::Zip(z), e + 1))
                                    } else {
                                        None
                                    }
                                },
                            }
                        } else {
                            None
                        }
                    }
                }
            },
        }
    }
}

/// A non-empty comma-separated run of locations, up to and including the
/// closing bracket.
pub open spec fn sp_locs_tail(s: Seq<char>, i: int) -> Option<(Seq<LocationView>, int)>
    decreases s.len() - i,
{
    match sp_location(s, i) {
        None => None,
        Some((v, j)) => {
            if j <= i || j > s.len() {
                None
            } else {
                let b = sp_ws(s, j);
                if b < j || b >= s.len() {
                    None
                } else if s[b] == ',' {
                    let c = sp_ws(s, b + 1);
                    if c < b + 1 || c > s.len() {
                        None
                    } else {
                        match sp_locs_tail(s, c) {
                            None => None,
                            Some((rest, m)) => Some((seq![v] + rest, m)),
                        }
                    }
                } else if s[b] == ']' {
                    Some((seq![v], b + 1))
                } else {
                    None
                }
            }
        },
    }
}

/// The location array read from just after the opening bracket, up to and
/// including the closing one.
pub open spec fn sp_locs(s: Seq<char>, i: int) -> Option<(Seq<LocationView>, int)> {
    let a = sp_ws(s, i);
    if a < i || a >= s.len() {
        None
    } else if s[a] == ']' {
        Some((Seq::<LocationView>::empty(), a + 1))
    } else {
        sp_locs_tail(s, a)
    }
}

/// What the reader has gathered of the three known members so far.
pub struct PartConfig {
    pub unit: Option<Seq<char>>,
    pub loc: Option<Seq<LocationView>>,
    pub key: Option<Seq<char>>,
}

/// One member's value at `d`, dispatched on the member's name: a known
/// member must have its own shape and may not repeat; an unknown member's
/// value is skipped and ignored.
pub open spec fn sp_member_value(s: Seq<char>, d: int, kname: Seq<char>, st: PartConfig) -> Option<
    (PartConfig, int),
> {
    if kname == name_unit() {
        if st.unit is Some {
            None
        } else {
            match sp_qstring(s, d) {
                None => None,
                Some((u, j)) => Some((PartConfig { unit: Some(u), loc: st.loc, key: st.key }, j)),
            }
        }
    } else if kname == name_loc() {
        if st.loc is Some {
            None
        } else {
            if 0 <= d && d < s.len() && s[d] == '[' {
                match sp_locs(s, d + 1) {
                    None => None,
                    Some((l, j)) => Some(
                        (PartConfig { unit: st.unit, loc: Some(l), key: st.key }, j),
                    ),
                }
            } else {
                None
            }
        }
    } else if kname == name_key() {
        if st.key is Some {
            None
        } else {
            match sp_qstring(s, d) {
                None => None,
                Some((kv, j)) => Some(
                    (PartConfig { unit: st.unit, loc: st.loc, key: Some(kv) }, j),
                ),
            }
        }
    } else {
        match sp_skip_value(s, d) {
            None => None,
            Some(j) => Some((st, j)),
        }
    }
}

/// The object's members from `i` (at a member's opening quote) to the
/// closing brace: when the brace comes, `unit` and `loc` must have been
/// seen, and a missing `key` defaults to the empty string.
pub open spec fn sp_members(s: Seq<char>, i: int, st: PartConfig) -> Option<(ConfigView, int)>
    decreases s.len() - i,
{
    match sp_qstring(s, i) {
        None => None,
        Some((kname, k)) => {
            if k <= i || k > s.len() {
                None
            } else {
                let c = sp_ws(s, k);
                if c < k || c >= s.len() || s[c] != ':' {
                    None
                } else {
                    let d = sp_ws(s, c + 1);
                    if d < c + 1 {
                        None
                    } else {
                        match sp_member_value(s, d, kname, st) {
                            None => None,
                            Some((st2, j)) => {
                                if j <= d || j > s.len() {
                                    None
                                } else {
                                    let b = sp_ws(s, j);
                                    if b < j || b >= s.len() {
                                        None
                                    } else if s[b] == ',' {
                                        let e = sp_ws(s, b + 1);
                                        if e < b + 1 || e > s.len() {
                                            None
                                        } else {
                                            sp_members(s, e, st2)
                                        }
                                    } else if s[b] == '}' {
                                        match (st2.unit, st2.loc) {
                                            (Some(u), Some(l)) => Some(
                                                (
                                                    ConfigView {
                                                        unit: u,
                                                        loc: l,
                                                        key: (match st2.key {
                                                            Some(kv) => kv,
                                                            None => Seq::<char>::empty(),
                                                        }),
                                                    },
                                                    b + 1,
                                                ),
                                            ),
                                            _ => None,
                                        }
                                    } else {
                                        None
                                    }
                                }
                            },
                        }
                    }
                }
            }
        },
    }
}

/// The whole config text: one object carrying `unit` and `loc` (and
/// optionally `key`) among any ignored members, then only whitespace to the
/// end of the text.
pub open spec fn sp_config(s: Seq<char>) -> Option<ConfigView> {
    let a = sp_ws(s, 0);
    if a < 0 || a >= s.len() || s[a] != '{' {
        None
    } else {
        let b = sp_ws(s, a + 1);
        if b < a + 1 || b >= s.len() || s[b] == '}' {
            None
        } else {
            match sp_members(s, b, PartConfig { unit: None, loc: None, key: None }) {
                None => None,
                Some((c, j)) => {
                    if sp_ws(s, j) == s.len() {
                        Some(c)
                    } else {
                        None
                    }
                },
            }
        }
    }
}

// ---------------------------------------------------------------------------
// Round trip: the reader reads back exactly what the encoder wrote.
// ---------------------------------------------------------------------------

proof fn lemma_rt_string(pre: Seq<char>, t: Seq<char>, tail: Seq<char>)
    ensures
        sp_string(pre + esc(t) + seq!['"'] + tail, pre.len() as int)
            == Some((t, (pre.len() + esc(t).len() + 1) as int)),
    decreases t.len(),
{
    let s = pre + esc(t) + seq!['"'] + tail;
    let i = pre.len() as int;
    if t.len() == 0 {
        assert(esc(t) =~= Seq::<char>::empty());
        assert(s[i] == '"');
    } else {
        let c = t[0];
        let e = esc_char(c);
        assert(esc(t) == e + esc(t.skip(1)));
        let pre2 = pre + e;
        assert(s =~= pre2 + esc(t.skip(1)) + seq!['"'] + tail);
        lemma_rt_string(pre2, t.skip(1), tail);
        if c == '"' || c == '\\' || c == '\n' || c == '\t' || c == '\r' {
            assert(e.len() == 2 && e[0] == '\\');
            assert(s[i] == '\\');
            assert(s[i + 1] == e[1]);
            assert(e[1] != 'u');
            assert(unesc_char(e[1]) == Some(c));
            assert(sp_string(s, i + 2) == Some(
                (t.skip(1), (pre2.len() + esc(t.skip(1)).len() + 1) as int),
            ));
            assert(seq![c] + t.skip(1) =~= t);
        } else if (c as u32) < 0x20 {
            let hi = ((c as u32) / 16) as nat;
            let lo = ((c as u32) % 16) as nat;
            assert(e.len() == 6);
            assert(s[i] == '\\');
            assert(s[i + 1] == 'u');
            assert(s[i + 2] == '0');
            assert(s[i + 3] == '0');
            assert(s[i + 4] == hex_digit_char(hi));
            assert(s[i + 5] == hex_digit_char(lo));
            assert(hi < 2 && lo < 16);
            assert(is_hex_char(hex_digit_char(hi)) && hex_val(hex_digit_char(hi)) == hi);
            assert(is_hex_char(hex_digit_char(lo)) && hex_val(hex_digit_char(lo)) == lo);
            let v: u32 = (hex_val(s[i + 2]) * 4096 + hex_val(s[i + 3]) * 256 + hex_val(s[i + 4])
                * 16 + hex_val(s[i + 5])) as u32;
            vstd::arithmetic::div_mod::lemma_fundamental_div_mod((c as u32) as int, 16);
            assert(v == c as u32);
            assert(v < 0x20);
            vstd::utf8::char_u32_cast(c, v);
            assert((v as char) == c);
            assert(sp_string(s, i + 6) == Some(
                (t.skip(1), (pre2.len() + esc(t.skip(1)).len() + 1) as int),
            ));
            assert(seq![(v as char)] + t.skip(1) =~= t);
        } else {
            assert(e.len() == 1 && e[0] == c);
            assert(s[i] == c);
            assert(c != '"' && c != '\\');
            assert(sp_string(s, i + 1) == Some(
                (t.skip(1), (pre2.len() + esc(t.skip(1)).len() + 1) as int),
            ));
            assert(seq![s[i]] + t.skip(1) =~= t);
        }
    }
}

proof fn lemma_rt_qstring(pre: Seq<char>, t: Seq<char>, tail: Seq<char>)
    ensures
        sp_qstring(pre + seq!['"'] + esc(t) + seq!['"'] + tail, pre.len() as int)
            == Some((t, (pre.len() + esc(t).len() + 2) as int)),
{
    let s = pre + seq!['"'] + esc(t) + seq!['"'] + tail;
    assert(s[pre.len() as int] == '"');
    assert(s =~= (pre + seq!['"']) + esc(t) + seq!['"'] + tail);
    lemma_rt_string(pre + seq!['"'], t, tail);
}

/// Characters the escaper leaves alone are spelled as themselves.
proof fn lemma_esc_plain(t: Seq<char>)
    requires
        forall|i: int| 0 <= i < t.len() ==> esc_char(#[trigger] t[i]) == seq![t[i]],
    ensures
        esc(t) == t,
    decreases t.len(),
{
    if t.len() == 0 {
        assert(esc(t) =~= t);
    } else {
        assert forall|j: int| 0 <= j < t.skip(1).len() implies esc_char(#[trigger] t.skip(1)[j])
            == seq![t.skip(1)[j]] by {
            assert(t.skip(1)[j] == t[j + 1]);
        }
        lemma_esc_plain(t.skip(1));
        assert(esc(t) =~= t);
    }
}

proof fn lemma_rt_u32(pre: Seq<char>, z: u32, tail: Seq<char>)
    requires
        tail.len() >= 1,
        !is_digit_char(tail[0]),
    ensures
        sp_u32(pre + spec_dec(z as nat) + tail, pre.len() as int)
            == Some((z, (pre.len() + spec_dec(z as nat).len()) as int)),
{
    let d = spec_dec(z as nat);
    let s = pre + d + tail;
    let i = pre.len() as int;
    let j = (pre.len() + d.len()) as int;
    lemma_dec_props(z as nat);
    assert forall|k: int| i <= k < j implies is_digit_char(#[trigger] s[k]) by {
        assert(s[k] == d[k - i]);
    }
    assert(s[j] == tail[0]);
    lemma_digits_end(s, i, j);
    assert(s.subrange(i, j) =~= d);
}

proof fn lemma_enc_loc_shape(v: LocationView)
    ensures
        spec_encode_loc(v).len() >= 9,
        spec_encode_loc(v)[0] == '{',
{
    match v {
        LocationView::City(name) => {
            assert(spec_encode_loc(v)[0] == lit_city()[0]);
        },
        LocationView::Zip(z) => {
            lemma_dec_props(z as nat);
            assert(spec_encode_loc(v)[0] == lit_zip()[0]);
        },
    }
}

/// The member and tag names carry nothing the escaper would rewrite.
proof fn lemma_names_plain()
    ensures
        esc(tag_city()) == tag_city(),
        esc(tag_zip()) == tag_zip(),
        esc(name_unit()) == name_unit(),
        esc(name_loc()) == name_loc(),
        esc(name_key()) == name_key(),
{
    assert forall|i: int| 0 <= i < tag_city().len() implies esc_char(#[trigger] tag_city()[i])
        == seq![tag_city()[i]] by {}
    lemma_esc_plain(tag_city());
    assert forall|i: int| 0 <= i < tag_zip().len() implies esc_char(#[trigger] tag_zip()[i])
        == seq![tag_zip()[i]] by {}
    lemma_esc_plain(tag_zip());
    assert forall|i: int| 0 <= i < name_unit().len() implies esc_char(#[trigger] name_unit()[i])
        == seq![name_unit()[i]] by {}
    lemma_esc_plain(name_unit());
    assert forall|i: int| 0 <= i < name_loc().len() implies esc_char(#[trigger] name_loc()[i])
        == seq![name_loc()[i]] by {}
    lemma_esc_plain(name_loc());
    assert forall|i: int| 0 <= i < name_key().len() implies esc_char(#[trigger] name_key()[i])
        == seq![name_key()[i]] by {}
    lemma_esc_plain(name_key());
}

#[verifier::rlimit(60)]
proof fn lemma_rt_loc(pre: Seq<char>, v: LocationView, tail: Seq<char>)
    ensures
        sp_location(pre + spec_encode_loc(v) + tail, pre.len() as int)
            == Some((v, (pre.len() + spec_encode_loc(v).len()) as int)),
{
    let enc = spec_encode_loc(v);
    let s = pre + enc + tail;
    let i = pre.len() as int;
    lemma_enc_loc_shape(v);
    lemma_names_plain();
    assert(s[i] == '{');
    match v {
        LocationView::City(name) => {
            assert(lit_city() =~= seq!['{'] + seq!['"'] + tag_city() + seq!['"'] + (seq![':']
                + seq!['"']));
            assert(s[i + 1] == '"');
            assert(!is_ws_char('"'));
            assert(sp_ws(s, i + 1) == i + 1);
            let tail1 = seq![':'] + seq!['"'] + esc(name) + seq!['"', '}'] + tail;
            assert(s =~= (pre + seq!['{']) + seq!['"'] + esc(tag_city()) + seq!['"'] + tail1);
            lemma_rt_qstring(pre + seq!['{'], tag_city(), tail1);
            let k = i + 7;
            assert(sp_qstring(s, i + 1) == Some((tag_city(), k)));
            assert(s[k] == ':');
            assert(!is_ws_char(':'));
            assert(sp_ws(s, k) == k);
            assert(s[k + 1] == '"');
            assert(sp_ws(s, k + 1) == k + 1);
            let tail2 = seq!['}'] + tail;
            assert(s =~= s.subrange(0, k + 1) + seq!['"'] + esc(name) + seq!['"'] + tail2);
            lemma_rt_qstring(s.subrange(0, k + 1), name, tail2);
            let j = k + 1 + esc(name).len() + 2;
            assert(sp_qstring(s, k + 1) == Some((name, j)));
            assert(s[j] == '}');
            assert(!is_ws_char('}'));
            assert(sp_ws(s, j) == j);
            assert(j + 1 == i + enc.len());
        },
        LocationView::Zip(z) => {
            lemma_dec_props(z as nat);
            assert(lit_zip() =~= seq!['{'] + seq!['"'] + tag_zip() + seq!['"'] + seq![':']);
            assert(s[i + 1] == '"');
            assert(!is_ws_char('"'));
            assert(sp_ws(s, i + 1) == i + 1);
            let tail1 = seq![':'] + spec_dec(z as nat) + seq!['}'] + tail;
            assert(s =~= (pre + seq!['{']) + seq!['"'] + esc(tag_zip()) + seq!['"'] + tail1);
            lemma_rt_qstring(pre + seq!['{'], tag_zip(), tail1);
            let k = i + 6;
            assert(sp_qstring(s, i + 1) == Some((tag_zip(), k)));
            assert(s[k] == ':');
            assert(!is_ws_char(':'));
            assert(sp_ws(s, k) == k);
            assert(s[k + 1] == spec_dec(z as nat)[0]);
            assert(is_digit_char(s[k + 1]));
            assert(!is_ws_char(s[k + 1]));
            assert(sp_ws(s, k + 1) == k + 1);
            assert(tag_zip() != tag_city());
            let tail2 = seq!['}'] + tail;
            assert(s =~= s.subrange(0, k + 1) + spec_dec(z as nat) + tail2);
            lemma_rt_u32(s.subrange(0, k + 1), z, tail2);
            let j = k + 1 + spec_dec(z as nat).len();
            assert(sp_u32(s, k + 1) == Some((z, j)));
            assert(s[j] == '}');
            assert(!is_ws_char('}'));
            assert(sp_ws(s, j) == j);
            assert(j + 1 == i + enc.len());
        },
    }
}

#[verifier::rlimit(60)]
proof fn lemma_rt_locs_tail(pre: Seq<char>, l: Seq<LocationView>, tail: Seq<char>)
    requires
        l.len() >= 1,
    ensures
        sp_locs_tail(pre + spec_encode_locs(l) + seq![']'] + tail, pre.len() as int)
            == Some((l, (pre.len() + spec_encode_locs(l).len() + 1) as int)),
    decreases l.len(),
{
    let enc = spec_encode_locs(l);
    let s = pre + enc + seq![']'] + tail;
    let i = pre.len() as int;
    lemma_enc_loc_shape(l[0]);
    if l.len() == 1 {
        assert(enc == spec_encode_loc(l[0]));
        assert(s =~= pre + spec_encode_loc(l[0]) + (seq![']'] + tail));
        lemma_rt_loc(pre, l[0], seq![']'] + tail);
        let j = i + spec_encode_loc(l[0]).len() as int;
        assert(s[j] == ']');
        assert(!is_ws_char(']'));
        assert(sp_ws(s, j) == j);
        assert(seq![l[0]] =~= l);
    } else {
        let rest = spec_encode_locs(l.skip(1));
        assert(enc == spec_encode_loc(l[0]) + seq![','] + rest);
        assert(s =~= pre + spec_encode_loc(l[0]) + (seq![','] + rest + seq![']'] + tail));
        lemma_rt_loc(pre, l[0], seq![','] + rest + seq![']'] + tail);
        let j = i + spec_encode_loc(l[0]).len() as int;
        assert(s[j] == ',');
        assert(!is_ws_char(','));
        assert(sp_ws(s, j) == j);
        lemma_enc_loc_shape(l.skip(1)[0]);
        assert(rest[0] == spec_encode_loc(l.skip(1)[0])[0]);
        assert(s[j + 1] == rest[0]);
        assert(!is_ws_char(s[j + 1]));
        assert(sp_ws(s, j + 1) == j + 1);
        let pre3 = pre + spec_encode_loc(l[0]) + seq![','];
        assert(s =~= pre3 + rest + seq![']'] + tail);
        lemma_rt_locs_tail(pre3, l.skip(1), tail);
        assert(sp_locs_tail(s, j + 1) == Some((l.skip(1), (pre3.len() + rest.len() + 1) as int)));
        assert(seq![l[0]] + l.skip(1) =~= l);
        assert((pre3.len() + rest.len() + 1) as int == (pre.len() + enc.len() + 1) as int);
    }
}

proof fn lemma_rt_locs(pre: Seq<char>, l: Seq<LocationView>, tail: Seq<char>)
    ensures
        sp_locs(pre + spec_encode_locs(l) + seq![']'] + tail, pre.len() as int)
            == Some((l, (pre.len() + spec_encode_locs(l).len() + 1) as int)),
{
    let enc = spec_encode_locs(l);
    let s = pre + enc + seq![']'] + tail;
    let i = pre.len() as int;
    if l.len() == 0 {
        assert(enc =~= Seq::<char>::empty());
        assert(s =~= pre + seq![']'] + tail);
        assert(s[i] == ']');
        assert(!is_ws_char(']'));
        assert(sp_ws(s, i) == i);
        assert(Seq::<LocationView>::empty() =~= l);
    } else {
        lemma_enc_loc_shape(l[0]);
        assert(s[i] == enc[0]);
        assert(enc[0] == spec_encode_loc(l[0])[0]);
        assert(!is_ws_char('{'));
        assert(sp_ws(s, i) == i);
        lemma_rt_locs_tail(pre, l, tail);
    }
}

/// The canonical text of the `key` member, closing brace included.
spec fn member_key_text(key: Seq<char>) -> Seq<char> {
    seq!['"'] + name_key() + seq!['"'] + seq![':'] + seq!['"'] + esc(key) + seq!['"'] + seq!['}']
}

/// The canonical text of the `loc` member and what follows it.
spec fn member_loc_text(locs: Seq<LocationView>, key: Seq<char>) -> Seq<char> {
    seq!['"'] + name_loc() + seq!['"'] + seq![':'] + seq!['['] + spec_encode_locs(locs)
        + seq![']'] + seq![','] + member_key_text(key)
}

/// The canonical text of the `unit` member and what follows it.
spec fn member_unit_text(c: ConfigView) -> Seq<char> {
    seq!['"'] + name_unit() + seq!['"'] + seq![':'] + seq!['"'] + esc(c.unit) + seq!['"']
        + seq![','] + member_loc_text(c.loc, c.key)
}

#[verifier::rlimit(80)]
proof fn lemma_rt_member_key(pre: Seq<char>, st: PartConfig, c: ConfigView)
    requires
        st.unit == Some(c.unit),
        st.loc == Some(c.loc),
        st.key is None,
    ensures
        sp_members(pre + member_key_text(c.key), pre.len() as int, st) == Some(
            (c, (pre + member_key_text(c.key)).len() as int),
        ),
{
    let s = pre + member_key_text(c.key);
    let i = pre.len() as int;
    lemma_names_plain();
    let tail1 = seq![':'] + seq!['"'] + esc(c.key) + seq!['"'] + seq!['}'];
    assert(s =~= pre + seq!['"'] + esc(name_key()) + seq!['"'] + tail1);
    lemma_rt_qstring(pre, name_key(), tail1);
    let k = i + 5;
    assert(sp_qstring(s, i) == Some((name_key(), k)));
    assert(s[k] == ':' && s[k + 1] == '"');
    assert(!is_ws_char(':') && !is_ws_char('"'));
    assert(sp_ws(s, k) == k);
    assert(sp_ws(s, k + 1) == k + 1);
    let tail2 = seq!['}'];
    assert(s =~= s.subrange(0, k + 1) + seq!['"'] + esc(c.key) + seq!['"'] + tail2);
    lemma_rt_qstring(s.subrange(0, k + 1), c.key, tail2);
    let j = k + 1 + esc(c.key).len() + 2;
    assert(sp_qstring(s, k + 1) == Some((c.key, j)));
    assert(name_key() != name_unit() && name_key() != name_loc());
    let st2 = PartConfig { unit: st.unit, loc: st.loc, key: Some(c.key) };
    assert(sp_member_value(s, k + 1, name_key(), st) == Some((st2, j)));
    assert(s[j] == '}');
    assert(!is_ws_char('}'));
    assert(sp_ws(s, j) == j);
    assert(j + 1 == s.len());
    assert(ConfigView { unit: c.unit, loc: c.loc, key: c.key } == c);
}

#[verifier::rlimit(80)]
proof fn lemma_rt_member_loc(pre: Seq<char>, st: PartConfig, c: ConfigView)
    requires
        st.unit == Some(c.unit),
        st.loc is None,
        st.key is None,
    ensures
        sp_members(pre + member_loc_text(c.loc, c.key), pre.len() as int, st) == Some(
            (c, (pre + member_loc_text(c.loc, c.key)).len() as int),
        ),
{
    let s = pre + member_loc_text(c.loc, c.key);
    let i = pre.len() as int;
    let encl = spec_encode_locs(c.loc);
    lemma_names_plain();
    let tail1 = seq![':'] + seq!['['] + encl + seq![']'] + seq![','] + member_key_text(c.key);
    assert(s =~= pre + seq!['"'] + esc(name_loc()) + seq!['"'] + tail1);
    lemma_rt_qstring(pre, name_loc(), tail1);
    let k = i + 5;
    assert(sp_qstring(s, i) == Some((name_loc(), k)));
    assert(s[k] == ':' && s[k + 1] == '[');
    assert(!is_ws_char(':') && !is_ws_char('['));
    assert(sp_ws(s, k) == k);
    assert(sp_ws(s, k + 1) == k + 1);
    assert(name_loc() != name_unit() && name_loc() != name_key());
    let tail2 = seq![','] + member_key_text(c.key);
    assert(s =~= s.subrange(0, k + 2) + encl + seq![']'] + tail2);
    lemma_rt_locs(s.subrange(0, k + 2), c.loc, tail2);
    let j = k + 2 + encl.len() + 1;
    assert(sp_locs(s, k + 2) == Some((c.loc, j)));
    let st2 = PartConfig { unit: st.unit, loc: Some(c.loc), key: st.key };
    assert(sp_member_value(s, k + 1, name_loc(), st) == Some((st2, j)));
    assert(s[j] == ',' && s[j + 1] == '"');
    assert(!is_ws_char(',') && !is_ws_char('"'));
    assert(sp_ws(s, j) == j);
    assert(sp_ws(s, j + 1) == j + 1);
    assert(s =~= s.subrange(0, j + 1) + member_key_text(c.key));
    lemma_rt_member_key(s.subrange(0, j + 1), st2, c);
    assert(sp_members(s, j + 1, st2) == Some((c, s.len() as int)));
}

#[verifier::rlimit(80)]
proof fn lemma_rt_member_unit(pre: Seq<char>, st: PartConfig, c: ConfigView)
    requires
        st.unit is None,
        st.loc is None,
        st.key is None,
    ensures
        sp_members(pre + member_unit_text(c), pre.len() as int, st) == Some(
            (c, (pre + member_unit_text(c)).len() as int),
        ),
{
    let s = pre + member_unit_text(c);
    let i = pre.len() as int;
    let encu = esc(c.unit);
    lemma_names_plain();
    let tail1 = seq![':'] + seq!['"'] + encu + seq!['"'] + seq![','] + member_loc_text(
        c.loc,
        c.key,
    );
    assert(s =~= pre + seq!['"'] + esc(name_unit()) + seq!['"'] + tail1);
    lemma_rt_qstring(pre, name_unit(), tail1);
    let k = i + 6;
    assert(sp_qstring(s, i) == Some((name_unit(), k)));
    assert(s[k] == ':' && s[k + 1] == '"');
    assert(!is_ws_char(':') && !is_ws_char('"'));
    assert(sp_ws(s, k) == k);
    assert(sp_ws(s, k + 1) == k + 1);
    let tail2 = seq![','] + member_loc_text(c.loc, c.key);
    assert(s =~= s.subrange(0, k + 1) + seq!['"'] + encu + seq!['"'] + tail2);
    lemma_rt_qstring(s.subrange(0, k + 1), c.unit, tail2);
    let j = k + 1 + encu.len() + 2;
    assert(sp_qstring(s, k + 1) == Some((c.unit, j)));
    assert(name_unit() != name_loc() && name_unit() != name_key());
    let st1 = PartConfig { unit: Some(c.unit), loc: st.loc, key: st.key };
    assert(sp_member_value(s, k + 1, name_unit(), st) == Some((st1, j)));
    assert(s[j] == ',' && s[j + 1] == '"');
    assert(!is_ws_char(','));
    assert(sp_ws(s, j) == j);
    assert(sp_ws(s, j + 1) == j + 1);
    assert(s =~= s.subrange(0, j + 1) + member_loc_text(c.loc, c.key));
    lemma_rt_member_loc(s.subrange(0, j + 1), st1, c);
    assert(sp_members(s, j + 1, st1) == Some((c, s.len() as int)));
}

/// Law (round trip): decoding what the encoder wrote for any config yields
/// that config back, unchanged.
#[verifier::rlimit(80)]
pub proof fn lemma_config_round_trip(c: ConfigView)
    ensures
        sp_config(spec_encode_config(c)) == Some(c),
{
    let s = spec_encode_config(c);
    assert(s =~= seq!['{'] + member_unit_text(c));
    assert(s[0] == '{' && s[1] == '"');
    assert(!is_ws_char('{') && !is_ws_char('"'));
    assert(sp_ws(s, 0) == 0);
    assert(sp_ws(s, 1) == 1);
    assert(s[1] != '}');
    let st0 = PartConfig { unit: None, loc: None, key: None };
    lemma_rt_member_unit(seq!['{'], st0, c);
    assert(seq!['{'] + member_unit_text(c) == s);
    assert(sp_members(s, 1, st0) == Some((c, s.len() as int)));
    assert(sp_ws(s, s.len() as int) == s.len());
}

/// Law (default fallback): the built-in default, once persisted, reads back
/// as itself.
pub proof fn lemma_default_fallback_round_trip()
    ensures
        sp_config(spec_encode_config(spec_default_config())) == Some(spec_default_config()),
{
    lemma_config_round_trip(spec_default_config());
}

// ---------------------------------------------------------------------------
// The reader, executable. Each function mirrors its specification twin.
// ---------------------------------------------------------------------------

fn ws_char(c: char) -> (r: bool)
    ensures
        r == is_ws_char(c),
{
    c == ' ' || c == '\t' || c == '\n' || c == '\r'
}

proof fn lemma_ws_end(s: Seq<char>, i: int, j: int)
    requires
        0 <= i <= j <= s.len(),
        forall|k: int| i <= k < j ==> is_ws_char(#[trigger] s[k]),
        j == s.len() || !is_ws_char(s[j]),
    ensures
        sp_ws(s, i) == j,
    decreases j - i,
{
    if i < j {
        lemma_ws_end(s, i + 1, j);
    }
}

fn p_ws(s: &str, i: usize) -> (j: usize)
    requires
        i <= s@.len(),
    ensures
        i <= j <= s@.len(),
        sp_ws(s@, i as int) == j as int,
{
    let n = s.unicode_len();
    let mut j: usize = i;
    while j < n
        invariant
            i <= j <= n,
            n == s@.len(),
            forall|k: int| i <= k < j ==> is_ws_char(#[trigger] s@[k]),
        decreases n - j,
    {
        if !ws_char(s.get_char(j)) {
            proof {
                lemma_ws_end(s@, i as int, j as int);
            }
            return j;
        }
        j = j + 1;
    }
    proof {
        lemma_ws_end(s@, i as int, j as int);
    }
    j
}

fn hex_to_val(c: char) -> (r: Option<u8>)
    ensures
        match r {
            Some(d) => is_hex_char(c) && d < 16 && d as nat == hex_val(c),
            None => !is_hex_char(c),
        },
{
    match char_to_digit(c) {
        Some(d) => Some(d),
        None => {
            if c == 'a' || c == 'A' { Some(10) }
            else if c == 'b' || c == 'B' { Some(11) }
            else if c == 'c' || c == 'C' { Some(12) }
            else if c == 'd' || c == 'D' { Some(13) }
            else if c == 'e' || c == 'E' { Some(14) }
            else if c == 'f' || c == 'F' { Some(15) }
            else { None }
        },
    }
}

fn p_lit(s: &str, i: usize, pat: &str) -> (r: Option<usize>)
    ensures
        match r {
            Some(j) => sp_lit(s@, i as int, pat@) == Some(j as int) && j <= s@.len(),
            None => sp_lit(s@, i as int, pat@) is None,
        },
{
    let n = s.unicode_len();
    let m = pat.unicode_len();
    if i > n || m > n - i {
        return None;
    }
    let mut k: usize = 0;
    while k < m
        invariant
            0 <= k <= m,
            i + m <= n,
            n == s@.len(),
            m == pat@.len(),
            forall|j: int| 0 <= j < k ==> s@[i + j] == pat@[j],
        decreases m - k,
    {
        if s.get_char(i + k) != pat.get_char(k) {
            proof {
                if sp_lit(s@, i as int, pat@) is Some {
                    assert(s@.subrange(i as int, i + pat@.len() as int) == pat@);
                    assert(s@.subrange(i as int, i + pat@.len() as int)[k as int] == pat@[k as int]);
                    assert(false);
                }
            }
            return None;
        }
        k = k + 1;
    }
    proof {
        assert(s@.subrange(i as int, i + pat@.len() as int) =~= pat@);
    }
    Some(i + m)
}

fn unescape_char(c: char) -> (r: Option<char>)
    ensures
        r == unesc_char(c),
{
    if c == '"' { Some('"') }
    else if c == '\\' { Some('\\') }
    else if c == '/' { Some('/') }
    else if c == 'n' { Some('\n') }
    else if c == 't' { Some('\t') }
    else if c == 'r' { Some('\r') }
    else if c == 'b' { Some('\u{0008}') }
    else if c == 'f' { Some('\u{000C}') }
    else { None }
}

fn p_string(s: &str, i: usize) -> (r: Option<(String, usize)>)
    ensures
        match r {
            Some(p) => sp_string(s@, i as int) == Some((p.0@, p.1 as int)) && p.1 <= s@.len(),
            None => sp_string(s@, i as int) is None,
        },
    decreases s@.len() - i,
{
    let n = s.unicode_len();
    if i >= n {
        return None;
    }
    let c = s.get_char(i);
    if c == '"' {
        Some((String::new(), i + 1))
    } else if c == '\\' {
        if i + 1 < n && s.get_char(i + 1) == 'u' {
            if n - i >= 6 {
                let h2 = hex_to_val(s.get_char(i + 2));
                let h3 = hex_to_val(s.get_char(i + 3));
                let h4 = hex_to_val(s.get_char(i + 4));
                let h5 = hex_to_val(s.get_char(i + 5));
                match (h2, h3, h4, h5) {
                    (Some(a), Some(b), Some(x), Some(y)) => {
                        let v: u32 = (a as u32) * 4096 + (b as u32) * 256 + (x as u32) * 16 + (
                        y as u32);
                        if v < 0x80 {
                            let u: char = (v as u8) as char;
                            match p_string(s, i + 6) {
                                None => None,
                                Some((t, j)) => {
                                    let mut out = String::new();
                                    push_char(&mut out, u);
                                    out.append(t.as_str());
                                    proof {
                                        assert(out@ =~= seq![u] + t@);
                                    }
                                    Some((out, j))
                                },
                            }
                        } else {
                            None
                        }
                    },
                    _ => None,
                }
            } else {
                None
            }
        } else if i + 1 < n && s.get_char(i + 1) != 'u' {
            let e = s.get_char(i + 1);
            match unescape_char(e) {
                None => None,
                Some(u) => match p_string(s, i + 2) {
                    None => None,
                    Some((t, j)) => {
                        let mut out = String::new();
                        push_char(&mut out, u);
                        out.append(t.as_str());
                        proof {
                            assert(out@ =~= seq![u] + t@);
                        }
                        Some((out, j))
                    },
                },
            }
        } else {
            None
        }
    } else {
        match p_string(s, i + 1) {
            None => None,
            Some((t, j)) => {
                let mut out = String::new();
                push_char(&mut out, c);
                out.append(t.as_str());
                proof {
                    assert(out@ =~= seq![c] + t@);
                }
                Some((out, j))
            },
        }
    }
}

fn p_qstring(s: &str, i: usize) -> (r: Option<(String, usize)>)
    ensures
        match r {
            Some(p) => sp_qstring(s@, i as int) == Some((p.0@, p.1 as int)) && p.1 <= s@.len(),
            None => sp_qstring(s@, i as int) is None,
        },
{
    let n = s.unicode_len();
    if i < n && s.get_char(i) == '"' {
        p_string(s, i + 1)
    } else {
        None
    }
}

fn digits_to_u32(s: &str, i: usize, j: usize) -> (r: Option<u32>)
    requires
        i <= j <= s@.len(),
        forall|k: int| i <= k < j ==> is_digit_char(#[trigger] s@[k]),
    ensures
        match r {
            Some(v) => digits_value(s@.subrange(i as int, j as int)) <= u32::MAX
                && v == digits_value(s@.subrange(i as int, j as int)),
            None => digits_value(s@.subrange(i as int, j as int)) > u32::MAX,
        },
{
    let mut k: usize = i;
    let mut acc: u64 = 0;
    proof {
        assert(s@.subrange(i as int, i as int) =~= Seq::<char>::empty());
    }
    while k < j
        invariant
            i <= k <= j <= s@.len(),
            forall|t: int| i <= t < j ==> is_digit_char(#[trigger] s@[t]),
            acc == digits_value(s@.subrange(i as int, k as int)),
            acc <= u32::MAX,
        decreases j - k,
    {
        let c = s.get_char(k);
        let d = char_to_digit(c).unwrap();
        let next: u64 = acc * 10 + (d as u64);
        proof {
            assert(s@.subrange(i as int, k + 1 as int).drop_last() =~= s@.subrange(
                i as int,
                k as int,
            ));
            assert(s@.subrange(i as int, k + 1 as int).last() == s@[k as int]);
        }
        if next > 0xFFFF_FFFF {
            proof {
                let full = s@.subrange(i as int, j as int);
                lemma_digits_value_extend(full, k + 1 - i as int);
                assert(full.subrange(0, k + 1 - i as int) =~= s@.subrange(i as int, k + 1 as int));
            }
            return None;
        }
        acc = next;
        k = k + 1;
    }
    Some(acc as u32)
}

fn p_u32_at(s: &str, i: usize) -> (r: Option<(u32, usize)>)
    ensures
        match r {
            Some(p) => sp_u32(s@, i as int) == Some((p.0, p.1 as int)) && p.1 <= s@.len(),
            None => sp_u32(s@, i as int) is None,
        },
{
    let n = s.unicode_len();
    if i > n {
        return None;
    }
    let j = scan_digits(s, i);
    if j == i {
        return None;
    }
    match digits_to_u32(s, i, j) {
        Some(v) => Some((v, j)),
        None => None,
    }
}

fn number_char(c: char) -> (r: bool)
    ensures
        r == is_number_char(c),
{
    char_to_digit(c).is_some() || c == '-' || c == '+' || c == '.' || c == 'e' || c == 'E'
}

proof fn lemma_numchars_end(s: Seq<char>, i: int, j: int)
    requires
        0 <= i <= j <= s.len(),
        forall|k: int| i <= k < j ==> is_number_char(#[trigger] s[k]),
        j == s.len() || !is_number_char(s[j]),
    ensures
        sp_numchars_end(s, i) == j,
    decreases j - i,
{
    if i < j {
        lemma_numchars_end(s, i + 1, j);
    }
}

fn scan_numchars(s: &str, i: usize) -> (j: usize)
    requires
        i <= s@.len(),
    ensures
        i <= j <= s@.len(),
        sp_numchars_end(s@, i as int) == j as int,
{
    let n = s.unicode_len();
    let mut j: usize = i;
    while j < n
        invariant
            i <= j <= n,
            n == s@.len(),
            forall|k: int| i <= k < j ==> is_number_char(#[trigger] s@[k]),
        decreases n - j,
    {
        if !number_char(s.get_char(j)) {
            proof {
                lemma_numchars_end(s@, i as int, j as int);
            }
            return j;
        }
        j = j + 1;
    }
    proof {
        lemma_numchars_end(s@, i as int, j as int);
    }
    j
}

fn p_skip_value(s: &str, i: usize) -> (r: Option<usize>)
    ensures
        match r {
            Some(j) => sp_skip_value(s@, i as int) == Some(j as int) && j <= s@.len(),
            None => sp_skip_value(s@, i as int) is None,
        },
    decreases s@.len() - i, 0int,
{
    proof {
        reveal_strlit("true");
        assert("true"@ =~= kw_true());
        reveal_strlit("false");
        assert("false"@ =~= kw_false());
        reveal_strlit("null");
        assert("null"@ =~= kw_null());
    }
    let n = s.unicode_len();
    if i >= n {
        return None;
    }
    let c = s.get_char(i);
    if c == '"' {
        match p_string(s, i + 1) {
            None => None,
            Some((_t, j)) => Some(j),
        }
    } else if c == '[' {
        p_skip_arr(s, i + 1)
    } else if c == '{' {
        p_skip_obj(s, i + 1)
    } else if number_char(c) {
        Some(scan_numchars(s, i))
    } else if c == 't' {
        p_lit(s, i, "true")
    } else if c == 'f' {
        p_lit(s, i, "false")
    } else if c == 'n' {
        p_lit(s, i, "null")
    } else {
        None
    }
}

fn p_skip_arr(s: &str, i: usize) -> (r: Option<usize>)
    requires
        i <= s@.len(),
    ensures
        match r {
            Some(j) => sp_skip_arr(s@, i as int) == Some(j as int) && j <= s@.len(),
            None => sp_skip_arr(s@, i as int) is None,
        },
    decreases s@.len() - i, 1int,
{
    let n = s.unicode_len();
    let a = p_ws(s, i);
    if a >= n {
        return None;
    }
    if s.get_char(a) == ']' {
        return Some(a + 1);
    }
    match p_skip_value(s, a) {
        None => None,
        Some(j) => {
            if j <= a {
                return None;
            }
            let b = p_ws(s, j);
            if b >= n {
                return None;
            }
            let cb = s.get_char(b);
            if cb == ',' {
                p_skip_arr(s, b + 1)
            } else if cb == ']' {
                Some(b + 1)
            } else {
                None
            }
        },
    }
}

fn p_skip_obj(s: &str, i: usize) -> (r: Option<usize>)
    requires
        i <= s@.len(),
    ensures
        match r {
            Some(j) => sp_skip_obj(s@, i as int) == Some(j as int) && j <= s@.len(),
            None => sp_skip_obj(s@, i as int) is None,
        },
    decreases s@.len() - i, 1int,
{
    let n = s.unicode_len();
    let a = p_ws(s, i);
    if a >= n {
        return None;
    }
    if s.get_char(a) == '}' {
        return Some(a + 1);
    }
    match p_qstring(s, a) {
        None => None,
        Some((_k, k)) => {
            if k <= a {
                return None;
            }
            let c = p_ws(s, k);
            if c >= n || s.get_char(c) != ':' {
                return None;
            }
            let d = p_ws(s, c + 1);
            match p_skip_value(s, d) {
                None => None,
                Some(j) => {
                    if j <= d {
                        return None;
                    }
                    let b = p_ws(s, j);
                    if b >= n {
                        return None;
                    }
                    let cb = s.get_char(b);
                    if cb == ',' {
                        p_skip_obj(s, b + 1)
                    } else if cb == '}' {
                        Some(b + 1)
                    } else {
                        None
                    }
                },
            }
        },
    }
}

fn p_location(s: &str, i: usize) -> (r: Option<(Location, usize)>)
    ensures
        match r {
            Some(p) => sp_location(s@, i as int) == Some((p.0@, p.1 as int)) && p.1 <= s@.len(),
            None => sp_location(s@, i as int) is None,
        },
{
    proof {
        reveal_strlit("City");
        assert("City"@ =~= tag_city());
        reveal_strlit("Zip");
        assert("Zip"@ =~= tag_zip());
    }
    let n = s.unicode_len();
    if i >= n || s.get_char(i) != '{' {
        return None;
    }
    let a = p_ws(s, i + 1);
    match p_qstring(s, a) {
        None => None,
        Some((tag, k)) => {
            let c = p_ws(s, k);
            if c >= n || s.get_char(c) != ':' {
                return None;
            }
            let d = p_ws(s, c + 1);
            let city_lit = String::from_str("City");
            let zip_lit = String::from_str("Zip");
            if tag == city_lit {
                match p_qstring(s, d) {
                    None => None,
                    Some((name, j)) => {
                        let e = p_ws(s, j);
                        if e < n && s.get_char(e) == '}' {
                            Some((Location::City(name), e + 1))
                        } else {
                            None
                        }
                    },
                }
            } else if tag == zip_lit {
                match p_u32_at(s, d) {
                    None => None,
                    Some((z, j)) => {
                        let e = p_ws(s, j);
                        if e < n && s.get_char(e) == '}' {
                            Some((Location::Zip(z), e + 1))
                        } else {
                            None
                        }
                    },
                }
            } else {
                None
            }
        },
    }
}

fn p_locs_tail(s: &str, i: usize) -> (r: Option<(Vec<Location>, usize)>)
    ensures
        match r {
            Some(p) => sp_locs_tail(s@, i as int) == Some((p.0.deep_view(), p.1 as int)) && p.1
                <= s@.len(),
            None => sp_locs_tail(s@, i as int) is None,
        },
    decreases s@.len() - i,
{
    let n = s.unicode_len();
    match p_location(s, i) {
        None => None,
        Some((v, j)) => {
            if j <= i {
                return None;
            }
            let b = p_ws(s, j);
            if b >= n {
                return None;
            }
            let cb = s.get_char(b);
            if cb == ',' {
                let c = p_ws(s, b + 1);
                match p_locs_tail(s, c) {
                    None => None,
                    Some((mut rest, m)) => {
                        let ghost rest0 = rest.deep_view();
                        rest.insert(0, v);
                        proof {
                            assert(rest.deep_view() =~= seq![v@] + rest0);
                        }
                        Some((rest, m))
                    },
                }
            } else if cb == ']' {
                let mut one: Vec<Location> = Vec::new();
                one.push(v);
                proof {
                    assert(one.deep_view() =~= seq![v@]);
                }
                Some((one, b + 1))
            } else {
                None
            }
        },
    }
}

fn p_locs(s: &str, i: usize) -> (r: Option<(Vec<Location>, usize)>)
    requires
        i <= s@.len(),
    ensures
        match r {
            Some(p) => sp_locs(s@, i as int) == Some((p.0.deep_view(), p.1 as int)) && p.1
                <= s@.len(),
            None => sp_locs(s@, i as int) is None,
        },
{
    let n = s.unicode_len();
    let a = p_ws(s, i);
    if a >= n {
        return None;
    }
    if s.get_char(a) == ']' {
        let empty: Vec<Location> = Vec::new();
        proof {
            assert(empty.deep_view() =~= Seq::<LocationView>::empty());
        }
        return Some((empty, a + 1));
    }
    p_locs_tail(s, a)
}

/// What the executable reader has gathered of the three known members.
struct ReadState {
    unit: Option<String>,
    loc: Option<Vec<Location>>,
    key: Option<String>,
}

impl View for ReadState {
    type V = PartConfig;

    closed spec fn view(&self) -> PartConfig {
        PartConfig {
            unit: self.unit.deep_view(),
            loc: self.loc.deep_view(),
            key: self.key.deep_view(),
        }
    }
}

fn p_member_value(s: &str, d: usize, kname: &String, st: ReadState) -> (r: Option<
    (ReadState, usize),
>)
    ensures
        match r {
            Some(p) => sp_member_value(s@, d as int, kname@, st@) == Some((p.0@, p.1 as int))
                && p.1 <= s@.len(),
            None => sp_member_value(s@, d as int, kname@, st@) is None,
        },
{
    proof {
        reveal_strlit("unit");
        assert("unit"@ =~= name_unit());
        reveal_strlit("loc");
        assert("loc"@ =~= name_loc());
        reveal_strlit("key");
        assert("key"@ =~= name_key());
    }
    let unit_lit = String::from_str("unit");
    let loc_lit = String::from_str("loc");
    let key_lit = String::from_str("key");
    if *kname == unit_lit {
        if st.unit.is_some() {
            return None;
        }
        match p_qstring(s, d) {
            None => None,
            Some((u, j)) => Some((ReadState { unit: Some(u), loc: st.loc, key: st.key }, j)),
        }
    } else if *kname == loc_lit {
        if st.loc.is_some() {
            return None;
        }
        let n = s.unicode_len();
        if d < n && s.get_char(d) == '[' {
            match p_locs(s, d + 1) {
                None => None,
                Some((l, j)) => Some((ReadState { unit: st.unit, loc: Some(l), key: st.key }, j)),
            }
        } else {
            None
        }
    } else if *kname == key_lit {
        if st.key.is_some() {
            return None;
        }
        match p_qstring(s, d) {
            None => None,
            Some((kv, j)) => Some((ReadState { unit: st.unit, loc: st.loc, key: Some(kv) }, j)),
        }
    } else {
        let n = s.unicode_len();
        if d > n {
            return None;
        }
        match p_skip_value(s, d) {
            None => None,
            Some(j) => Some((st, j)),
        }
    }
}

fn p_members(s: &str, i: usize, st: ReadState) -> (r: Option<(Config, usize)>)
    ensures
        match r {
            Some(p) => sp_members(s@, i as int, st@) == Some((p.0@, p.1 as int)) && p.1
                <= s@.len(),
            None => sp_members(s@, i as int, st@) is None,
        },
    decreases s@.len() - i,
{
    let n = s.unicode_len();
    match p_qstring(s, i) {
        None => None,
        Some((kname, k)) => {
            if k <= i {
                return None;
            }
            let c = p_ws(s, k);
            if c >= n || s.get_char(c) != ':' {
                return None;
            }
            let d = p_ws(s, c + 1);
            match p_member_value(s, d, &kname, st) {
                None => None,
                Some((st2, j)) => {
                    if j <= d {
                        return None;
                    }
                    let b = p_ws(s, j);
                    if b >= n {
                        return None;
                    }
                    let cb = s.get_char(b);
                    if cb == ',' {
                        let e = p_ws(s, b + 1);
                        p_members(s, e, st2)
                    } else if cb == '}' {
                        match (st2.unit, st2.loc) {
                            (Some(u), Some(l)) => {
                                let kv = match st2.key {
                                    Some(kv) => kv,
                                    None => String::new(),
                                };
                                let conf = Config { unit: u, loc: l, key: kv };
                                Some((conf, b + 1))
                            },
                            _ => None,
                        }
                    } else {
                        None
                    }
                },
            }
        },
    }
}

/// Deserializes a config from its wire form, leniently as the module
/// documentation says; `None` on anything unreadable.
pub fn decode_config(s: &str) -> (r: Option<Config>)
    ensures
        match r {
            Some(c) => sp_config(s@) == Some(c@),
            None => sp_config(s@) is None,
        },
{
    let n = s.unicode_len();
    let a = p_ws(s, 0);
    if a >= n || s.get_char(a) != '{' {
        return None;
    }
    let b = p_ws(s, a + 1);
    if b >= n || s.get_char(b) == '}' {
        return None;
    }
    let st = ReadState { unit: None, loc: None, key: None };
    proof {
        assert(st@ == PartConfig { unit: None, loc: None, key: None });
    }
    match p_members(s, b, st) {
        None => None,
        Some((c, j)) => {
            let e = p_ws(s, j);
            if e == n {
                Some(c)
            } else {
                None
            }
        },
    }
}

/// Load policy: present, readable content is the sole source of truth;
/// missing or unreadable content yields the built-in default instead, and
/// the second component then asks the caller to persist that default.
pub fn resolve_loaded(content: Option<&str>) -> (r: (Config, bool))
    ensures
        match content {
            Some(s) => match sp_config(s@) {
                Some(v) => r.0@ == v && r.1 == false,
                None => r.0@ == spec_default_config() && r.1 == true,
            },
            None => r.0@ == spec_default_config() && r.1 == true,
        },
{
    match content {
        Some(s) => match decode_config(s) {
            Some(c) => (c, false),
            None => (Config::default(), true),
        },
        None => (Config::default(), true),
    }
}

// ---------------------------------------------------------------------------
// The encoder.
// ---------------------------------------------------------------------------

proof fn lemma_esc_snoc(s: Seq<char>, c: char)
    ensures
        esc(s.push(c)) == esc(s) + esc_char(c),
    decreases s.len(),
{
    if s.len() == 0 {
        assert(s.push(c)[0] == c);
        assert(s.push(c).skip(1) =~= Seq::<char>::empty());
        assert(esc(Seq::<char>::empty()) =~= Seq::<char>::empty());
        assert(esc(s.push(c)) == esc_char(c) + esc(Seq::<char>::empty()));
        assert(esc(s.push(c)) =~= esc(s) + esc_char(c));
    } else {
        assert(s.push(c)[0] == s[0]);
        assert(s.push(c).skip(1) =~= s.skip(1).push(c));
        lemma_esc_snoc(s.skip(1), c);
        assert(esc(s.push(c)) =~= esc(s) + esc_char(c));
    }
}

fn hex_digit_to_char(d: u8) -> (c: char)
    requires
        d < 16,
    ensures
        c == hex_digit_char(d as nat),
{
    if d == 0 { '0' }
    else if d == 1 { '1' }
    else if d == 2 { '2' }
    else if d == 3 { '3' }
    else if d == 4 { '4' }
    else if d == 5 { '5' }
    else if d == 6 { '6' }
    else if d == 7 { '7' }
    else if d == 8 { '8' }
    else if d == 9 { '9' }
    else if d == 10 { 'a' }
    else if d == 11 { 'b' }
    else if d == 12 { 'c' }
    else if d == 13 { 'd' }
    else if d == 14 { 'e' }
    else { 'f' }
}

/// Appends the escaped form of `t` to `out`.
fn encode_string_into(out: &mut String, t: &str)
    ensures
        final(out)@ == old(out)@ + esc(t@),
{
    let n = t.unicode_len();
    let mut i: usize = 0;
    proof {
        assert(t@.subrange(0, 0) =~= Seq::<char>::empty());
        assert(out@ =~= old(out)@ + esc(t@.subrange(0, 0)));
    }
    while i < n
        invariant
            0 <= i <= n,
            n == t@.len(),
            out@ == old(out)@ + esc(t@.subrange(0, i as int)),
        decreases n - i,
    {
        let c = t.get_char(i);
        if c == '"' {
            push_char(out, '\\');
            push_char(out, '"');
        } else if c == '\\' {
            push_char(out, '\\');
            push_char(out, '\\');
        } else if c == '\n' {
            push_char(out, '\\');
            push_char(out, 'n');
        } else if c == '\t' {
            push_char(out, '\\');
            push_char(out, 't');
        } else if c == '\r' {
            push_char(out, '\\');
            push_char(out, 'r');
        } else if (c as u32) < 0x20 {
            let u = c as u32;
            push_char(out, '\\');
            push_char(out, 'u');
            push_char(out, '0');
            push_char(out, '0');
            push_char(out, hex_digit_to_char((u / 16) as u8));
            push_char(out, hex_digit_to_char((u % 16) as u8));
        } else {
            push_char(out, c);
        }
        proof {
            let pre = t@.subrange(0, i as int);
            assert(t@.subrange(0, i + 1 as int) =~= pre.push(t@[i as int]));
            lemma_esc_snoc(pre, t@[i as int]);
            assert(out@ =~= old(out)@ + esc(t@.subrange(0, i + 1 as int)));
        }
        i = i + 1;
    }
    proof {
        assert(t@.subrange(0, n as int) =~= t@);
    }
}

/// Appends one encoded location to `out`.
fn encode_loc_into(out: &mut String, v: &Location)
    ensures
        final(out)@ == old(out)@ + spec_encode_loc(v@),
{
    match v {
        Location::City(name) => {
            out.append("{\"City\":\"");
            proof {
                reveal_strlit("{\"City\":\"");
                assert("{\"City\":\""@ =~= lit_city());
            }
            encode_string_into(out, name.as_str());
            out.append("\"}");
            proof {
                reveal_strlit("\"}");
                assert("\"}"@ =~= seq!['"', '}']);
                assert(out@ =~= old(out)@ + spec_encode_loc(v@));
            }
        },
        Location::Zip(z) => {
            out.append("{\"Zip\":");
            proof {
                reveal_strlit("{\"Zip\":");
                assert("{\"Zip\":"@ =~= lit_zip());
            }
            let digits = u64_to_dec(*z as u64);
            out.append(digits.as_str());
            out.append("}");
            proof {
                reveal_strlit("}");
                assert("}"@ =~= seq!['}']);
                assert(out@ =~= old(out)@ + spec_encode_loc(v@));
            }
        },
    }
}

/// Appends the encoded location list, from index `from` on, to `out`.
fn encode_locs_into(out: &mut String, locs: &Vec<Location>, from: usize)
    requires
        from <= locs@.len(),
    ensures
        final(out)@ == old(out)@ + spec_encode_locs(
            locs.deep_view().subrange(from as int, locs@.len() as int),
        ),
    decreases locs@.len() - from,
{
    let ghost tail = locs.deep_view().subrange(from as int, locs@.len() as int);
    if from == locs.len() {
        proof {
            assert(tail =~= Seq::<LocationView>::empty());
            assert(out@ =~= old(out)@ + spec_encode_locs(tail));
        }
    } else {
        encode_loc_into(out, &locs[from]);
        proof {
            assert(tail[0] == locs.deep_view()[from as int]);
        }
        if from + 1 == locs.len() {
            proof {
                assert(tail.len() == 1);
                assert(out@ =~= old(out)@ + spec_encode_locs(tail));
            }
        } else {
            out.append(",");
            encode_locs_into(out, locs, from + 1);
            proof {
                reveal_strlit(",");
                assert(","@ =~= seq![',']);
                assert(tail.skip(1) =~= locs.deep_view().subrange(
                    from + 1 as int,
                    locs@.len() as int,
                ));
                assert(out@ =~= old(out)@ + spec_encode_locs(tail));
            }
        }
    }
}

/// Serializes the full config into the canonical wire form.
pub fn encode_config(c: &Config) -> (r: String)
    ensures
        r@ == spec_encode_config(c@),
{
    let mut out = String::new();
    out.append("{\"unit\":\"");
    proof {
        reveal_strlit("{\"unit\":\"");
        assert("{\"unit\":\""@ =~= lit_head());
    }
    encode_string_into(&mut out, c.unit.as_str());
    out.append("\",\"loc\":[");
    proof {
        reveal_strlit("\",\"loc\":[");
        assert("\",\"loc\":["@ =~= seq!['"'] + lit_loc());
    }
    encode_locs_into(&mut out, &c.loc, 0);
    out.append("],\"key\":\"");
    proof {
        reveal_strlit("],\"key\":\"");
        assert("],\"key\":\""@ =~= seq![']'] + lit_key());
        assert(c.loc.deep_view().subrange(0, c.loc@.len() as int) =~= c@.loc);
    }
    encode_string_into(&mut out, c.key.as_str());
    out.append("\"}");
    proof {
        reveal_strlit("\"}");
        assert("\"}"@ =~= seq!['"', '}']);
        assert(out@ =~= spec_encode_config(c@));
    }
    out
}

} // verus!
