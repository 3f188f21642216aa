//! A verified JSON parser.
//!
//! The grammar is stated as a family of specification functions over byte
//! sequences ([`sp_value`] and its helpers); the executable parser mirrors
//! them exactly, fuel included, so its result is pinned to the
//! specification on every input.  Recursion is bounded by a fuel that the
//! top entry point sets high enough for any input that fits in memory.

use crate::json::{dec_digits, esc_byte, esc_bytes, hex_digit, ser_elems, ser_int, ser_member, ser_members, ser_text, Json, JsonV, jview, jview_elems, jview_members};
use vstd::prelude::*;
use vstd::utf8::{codepoint_width_1, decode_utf8, encode_scalar, is_leading_byte_width_1, pop_first_scalar, valid_first_scalar, valid_utf8};

verus! {

broadcast use vstd::seq::group_seq_axioms, vstd::std_specs::vec::group_vec_axioms;

/// JSON insignificant whitespace.
pub open spec fn is_ws(b: u8) -> bool {
    b == 32 || b == 9 || b == 10 || b == 13
}

/// An ASCII decimal digit.
pub open spec fn is_digit(b: u8) -> bool {
    48 <= b <= 57
}

/// The first position at or after `i` holding no whitespace.
pub open spec fn skip_ws(s: Seq<u8>, i: int) -> int
    decreases s.len() - i,
{
    if 0 <= i < s.len() && is_ws(s[i]) {
        skip_ws(s, i + 1)
    } else {
        i
    }
}

/// The value of an ASCII hexadecimal digit, or -1.
pub open spec fn hex_v(b: u8) -> int {
    if 48 <= b <= 57 {
        b - 48
    } else if 97 <= b <= 102 {
        b - 87
    } else if 65 <= b <= 70 {
        b - 55
    } else {
        -1
    }
}

/// The value of the four hexadecimal digits at `i`, or -1.
pub open spec fn hex4(s: Seq<u8>, i: int) -> int {
    if 0 <= i && i + 4 <= s.len() && hex_v(s[i]) >= 0 && hex_v(s[i + 1]) >= 0 && hex_v(s[i + 2])
        >= 0 && hex_v(s[i + 3]) >= 0 {
        hex_v(s[i]) * 4096 + hex_v(s[i + 1]) * 256 + hex_v(s[i + 2]) * 16 + hex_v(s[i + 3])
    } else {
        -1
    }
}

/// The result of parsing string content: the collected UTF-8 bytes and the
/// position after the closing quote, or a failure.
pub ghost enum PStr {
    Val { bytes: Seq<u8>, next: int },
    Fail,
}

/// Prepends already-collected bytes to a string-content result.
pub open spec fn pstr_prepend(pre: Seq<u8>, r: PStr) -> PStr {
    match r {
        PStr::Val { bytes, next } => PStr::Val { bytes: pre + bytes, next },
        PStr::Fail => PStr::Fail,
    }
}

/// Parses JSON string content starting inside the quotes at `i`, up to and
/// including the closing quote.  Escapes are decoded; a `\uXXXX` escape
/// yields the UTF-8 encoding of its scalar, with surrogate pairs combined.
pub open spec fn sp_str(s: Seq<u8>, i: int) -> PStr
    decreases s.len() - i,
{
    if i < 0 || i >= s.len() {
        PStr::Fail
    } else if s[i] == 34 {
        PStr::Val { bytes: Seq::empty(), next: i + 1 }
    } else if s[i] == 92 {
        if i + 1 >= s.len() {
            PStr::Fail
        } else {
            let e = s[i + 1];
            if e == 34 || e == 92 || e == 47 {
                pstr_prepend(seq![e], sp_str(s, i + 2))
            } else if e == 98 {
                pstr_prepend(seq![8u8], sp_str(s, i + 2))
            } else if e == 102 {
                pstr_prepend(seq![12u8], sp_str(s, i + 2))
            } else if e == 110 {
                pstr_prepend(seq![10u8], sp_str(s, i + 2))
            } else if e == 114 {
                pstr_prepend(seq![13u8], sp_str(s, i + 2))
            } else if e == 116 {
                pstr_prepend(seq![9u8], sp_str(s, i + 2))
            } else if e == 117 {
                let c = hex4(s, i + 2);
                if c < 0 {
                    PStr::Fail
                } else if 0xD800 <= c < 0xDC00 {
                    if i + 8 <= s.len() && s[i + 6] == 92 && s[i + 7] == 117 {
                        let c2 = hex4(s, i + 8);
                        if 0xDC00 <= c2 < 0xE000 {
                            let scalar = 0x10000 + (c - 0xD800) * 1024 + (c2 - 0xDC00);
                            pstr_prepend(encode_scalar(scalar as u32), sp_str(s, i + 12))
                        } else {
                            PStr::Fail
                        }
                    } else {
                        PStr::Fail
                    }
                } else if 0xDC00 <= c < 0xE000 {
                    PStr::Fail
                } else {
                    pstr_prepend(encode_scalar(c as u32), sp_str(s, i + 6))
                }
            } else {
                PStr::Fail
            }
        }
    } else if s[i] < 0x20 {
        PStr::Fail
    } else {
        pstr_prepend(seq![s[i]], sp_str(s, i + 1))
    }
}

pub proof fn lemma_sp_str_next(s: Seq<u8>, i: int)
    requires
        0 <= i,
    ensures
        sp_str(s, i) matches PStr::Val { next, .. } ==> i < next <= s.len(),
    decreases s.len() - i,
{
    if i < s.len() && s[i] != 34 {
        if s[i] == 92 && i + 1 < s.len() {
            let e = s[i + 1];
            if e == 117 {
                if i + 6 <= s.len() {
                    lemma_sp_str_next(s, i + 6);
                }
                if i + 12 <= s.len() {
                    lemma_sp_str_next(s, i + 12);
                }
            } else {
                lemma_sp_str_next(s, i + 2);
            }
        } else {
            lemma_sp_str_next(s, i + 1);
        }
    }
}

/// The first position at or after `i` holding no decimal digit.
pub open spec fn digits_end(s: Seq<u8>, i: int) -> int
    decreases s.len() - i,
{
    if 0 <= i < s.len() && is_digit(s[i]) {
        digits_end(s, i + 1)
    } else {
        i
    }
}

pub proof fn lemma_digits_end(s: Seq<u8>, i: int)
    requires
        0 <= i <= s.len(),
    ensures
        i <= digits_end(s, i) <= s.len(),
        forall|k: int| i <= k < digits_end(s, i) ==> is_digit(#[trigger] s[k]),
    decreases s.len() - i,
{
    if i < s.len() && is_digit(s[i]) {
        lemma_digits_end(s, i + 1);
    }
}

/// The value of the decimal digits `s[i..j)`.
pub open spec fn dec_val(s: Seq<u8>, i: int, j: int) -> int
    decreases j - i,
{
    if i >= j {
        0
    } else {
        dec_val(s, i, j - 1) * 10 + (s[j - 1] - 48)
    }
}

pub proof fn lemma_dec_val_nonneg(s: Seq<u8>, i: int, j: int)
    requires
        forall|m: int| i <= m < j ==> is_digit(#[trigger] s[m]),
    ensures
        dec_val(s, i, j) >= 0,
    decreases j - i,
{
    if i < j {
        lemma_dec_val_nonneg(s, i, j - 1);
    }
}

/// The result of parsing a number, or a failure.
pub ghost enum PNum {
    Val { v: JsonV, next: int },
    Fail,
}

/// The largest magnitude stored as a JSON integer; larger literals are kept
/// verbatim.
pub open spec fn int_cap() -> int {
    0x7fff_ffff_ffff_ffff
}

/// Parses a number at `i`: an optional minus sign, digits without a
/// superfluous leading zero, then an optional fraction and exponent.  A
/// plain integer within `i64` range becomes [`JsonV::Int`]; anything else
/// keeps its literal text as [`JsonV::Num`].
pub open spec fn sp_num(s: Seq<u8>, i: int) -> PNum {
    let d0 = if 0 <= i < s.len() && s[i] == 45 {
        i + 1
    } else {
        i
    };
    if !(0 <= d0 < s.len() && is_digit(s[d0])) {
        PNum::Fail
    } else if s[d0] == 48 && d0 + 1 < s.len() && is_digit(s[d0 + 1]) {
        PNum::Fail
    } else {
        let de = digits_end(s, d0);
        let fe = if de < s.len() && s[de] == 46 {
            digits_end(s, de + 1)
        } else {
            de
        };
        if de < s.len() && s[de] == 46 && fe == de + 1 {
            PNum::Fail
        } else {
            let ee = if fe < s.len() && (s[fe] == 101 || s[fe] == 69) {
                let es = if fe + 1 < s.len() && (s[fe + 1] == 43 || s[fe + 1] == 45) {
                    fe + 2
                } else {
                    fe + 1
                };
                digits_end(s, es)
            } else {
                fe
            };
            if fe < s.len() && (s[fe] == 101 || s[fe] == 69) && ee == (if fe + 1 < s.len() && (s[fe
                + 1] == 43 || s[fe + 1] == 45) {
                fe + 2
            } else {
                fe + 1
            }) {
                PNum::Fail
            } else if fe == de && ee == de {
                let mag = dec_val(s, d0, de);
                let v = if d0 == i + 1 {
                    -mag
                } else {
                    mag
                };
                if -int_cap() <= v <= int_cap() {
                    PNum::Val { v: JsonV::Int(v), next: de }
                } else {
                    PNum::Val {
                        v: JsonV::Num(s.subrange(i, de).map_values(|b: u8| b as char)),
                        next: de,
                    }
                }
            } else {
                PNum::Val {
                    v: JsonV::Num(s.subrange(i, ee).map_values(|b: u8| b as char)),
                    next: ee,
                }
            }
        }
    }
}

/// The result of parsing a value: the value and the position after it, a
/// failure, or fuel exhaustion.
pub ghost enum PVal {
    Val { v: JsonV, next: int },
    Fail,
    Short,
}

/// The result of parsing the elements after `[`.
pub ghost enum PElems {
    Val { vs: Seq<JsonV>, next: int },
    Fail,
    Short,
}

/// The result of parsing the members after `{`.
pub ghost enum PMembers {
    Val { ms: Seq<(Seq<char>, JsonV)>, next: int },
    Fail,
    Short,
}

/// Parses one JSON value at `i`, after optional whitespace.
pub open spec fn sp_value(s: Seq<u8>, i: int, f: nat) -> PVal
    decreases f, 0int,
{
    let i0 = skip_ws(s, i);
    if !(0 <= i0 < s.len()) {
        PVal::Fail
    } else {
        let b = s[i0];
        if b == 110 {
            if i0 + 4 <= s.len() && s[i0 + 1] == 117 && s[i0 + 2] == 108 && s[i0 + 3] == 108 {
                PVal::Val { v: JsonV::Null, next: i0 + 4 }
            } else {
                PVal::Fail
            }
        } else if b == 116 {
            if i0 + 4 <= s.len() && s[i0 + 1] == 114 && s[i0 + 2] == 117 && s[i0 + 3] == 101 {
                PVal::Val { v: JsonV::Bool(true), next: i0 + 4 }
            } else {
                PVal::Fail
            }
        } else if b == 102 {
            if i0 + 5 <= s.len() && s[i0 + 1] == 97 && s[i0 + 2] == 108 && s[i0 + 3] == 115 && s[i0
                + 4] == 101 {
                PVal::Val { v: JsonV::Bool(false), next: i0 + 5 }
            } else {
                PVal::Fail
            }
        } else if b == 34 {
            match sp_str(s, i0 + 1) {
                PStr::Val { bytes, next } => {
                    if valid_utf8(bytes) {
                        PVal::Val { v: JsonV::Text(decode_utf8(bytes)), next }
                    } else {
                        PVal::Fail
                    }
                },
                PStr::Fail => PVal::Fail,
            }
        } else if b == 45 || is_digit(b) {
            match sp_num(s, i0) {
                PNum::Val { v, next } => PVal::Val { v, next },
                PNum::Fail => PVal::Fail,
            }
        } else if b == 91 {
            let i1 = skip_ws(s, i0 + 1);
            if 0 <= i1 < s.len() && s[i1] == 93 {
                PVal::Val { v: JsonV::Arr(Seq::empty()), next: i1 + 1 }
            } else if f == 0 {
                PVal::Short
            } else {
                match sp_elems(s, i0 + 1, (f - 1) as nat) {
                    PElems::Val { vs, next } => PVal::Val { v: JsonV::Arr(vs), next },
                    PElems::Fail => PVal::Fail,
                    PElems::Short => PVal::Short,
                }
            }
        } else if b == 123 {
            let i1 = skip_ws(s, i0 + 1);
            if 0 <= i1 < s.len() && s[i1] == 125 {
                PVal::Val { v: JsonV::Obj(Seq::empty()), next: i1 + 1 }
            } else if f == 0 {
                PVal::Short
            } else {
                match sp_members(s, i0 + 1, (f - 1) as nat) {
                    PMembers::Val { ms, next } => PVal::Val { v: JsonV::Obj(ms), next },
                    PMembers::Fail => PVal::Fail,
                    PMembers::Short => PVal::Short,
                }
            }
        } else {
            PVal::Fail
        }
    }
}

/// Parses the non-empty element list of an array, up to and including `]`.
pub open spec fn sp_elems(s: Seq<u8>, i: int, f: nat) -> PElems
    decreases f, 1int,
{
    match sp_value(s, i, f) {
        PVal::Short => PElems::Short,
        PVal::Fail => PElems::Fail,
        PVal::Val { v, next } => {
            let i1 = skip_ws(s, next);
            if !(0 <= i1 < s.len()) {
                PElems::Fail
            } else if s[i1] == 93 {
                PElems::Val { vs: seq![v], next: i1 + 1 }
            } else if s[i1] == 44 {
                if f == 0 {
                    PElems::Short
                } else {
                    match sp_elems(s, i1 + 1, (f - 1) as nat) {
                        PElems::Val { vs, next } => PElems::Val { vs: seq![v] + vs, next },
                        PElems::Fail => PElems::Fail,
                        PElems::Short => PElems::Short,
                    }
                }
            } else {
                PElems::Fail
            }
        },
    }
}

/// Parses the non-empty member list of an object, up to and including `}`.
pub open spec fn sp_members(s: Seq<u8>, i: int, f: nat) -> PMembers
    decreases f, 1int,
{
    let k0 = skip_ws(s, i);
    if !(0 <= k0 < s.len() && s[k0] == 34) {
        PMembers::Fail
    } else {
        match sp_str(s, k0 + 1) {
            PStr::Fail => PMembers::Fail,
            PStr::Val { bytes, next } => {
                if !valid_utf8(bytes) {
                    PMembers::Fail
                } else {
                    let key = decode_utf8(bytes);
                    let c0 = skip_ws(s, next);
                    if !(0 <= c0 < s.len() && s[c0] == 58) {
                        PMembers::Fail
                    } else if f == 0 {
                        PMembers::Short
                    } else {
                        match sp_value(s, c0 + 1, (f - 1) as nat) {
                            PVal::Short => PMembers::Short,
                            PVal::Fail => PMembers::Fail,
                            PVal::Val { v, next } => {
                                let i1 = skip_ws(s, next);
                                if !(0 <= i1 < s.len()) {
                                    PMembers::Fail
                                } else if s[i1] == 125 {
                                    PMembers::Val { ms: seq![(key, v)], next: i1 + 1 }
                                } else if s[i1] == 44 {
                                    if f == 0 {
                                        PMembers::Short
                                    } else {
                                        match sp_members(s, i1 + 1, (f - 1) as nat) {
                                            PMembers::Val { ms, next } => PMembers::Val {
                                                ms: seq![(key, v)] + ms,
                                                next,
                                            },
                                            PMembers::Fail => PMembers::Fail,
                                            PMembers::Short => PMembers::Short,
                                        }
                                    }
                                } else {
                                    PMembers::Fail
                                }
                            },
                        }
                    }
                }
            },
        }
    }
}

/// The fuel the top-level parse grants: more than any input can use.
pub open spec fn fuel_for(s: Seq<u8>) -> nat {
    (2 * s.len() + 2) as nat
}

/// ASCII bytes are valid UTF-8 and decode to themselves.
pub proof fn lemma_ascii_decode(b: Seq<u8>)
    requires
        forall|k: int| 0 <= k < b.len() ==> #[trigger] b[k] < 0x80,
    ensures
        valid_utf8(b),
        decode_utf8(b) == b.map_values(|x: u8| x as char),
    decreases b.len(),
{
    if b.len() > 0 {
        let b0 = b[0];
        assert(is_leading_byte_width_1(b0) && codepoint_width_1(b0) == b0 as u32) by (bit_vector)
            requires
                b0 < 0x80,
        ;
        assert(valid_first_scalar(b));
        assert(pop_first_scalar(b) =~= b.drop_first());
        lemma_ascii_decode(b.drop_first());
        assert(decode_utf8(b) =~= b.map_values(|x: u8| x as char));
    } else {
        assert(decode_utf8(b) =~= b.map_values(|x: u8| x as char));
    }
}

/// The first position at or after `i` holding no whitespace.
fn skip_ws_at(s: &[u8], i: usize) -> (r: usize)
    requires
        i <= s@.len(),
    ensures
        r as int == skip_ws(s@, i as int),
        i <= r <= s@.len(),
    decreases s@.len() - i,
{
    if i < s.len() && (s[i] == 32 || s[i] == 9 || s[i] == 10 || s[i] == 13) {
        skip_ws_at(s, i + 1)
    } else {
        i
    }
}

/// The value of one hexadecimal digit, where the specification gives a
/// non-negative value.
fn hexv(b: u8) -> (r: Option<u8>)
    ensures
        hex_v(b) >= 0 ==> (r matches Some(d) && d as int == hex_v(b) && d < 16),
        hex_v(b) < 0 ==> r is None,
{
    if 48 <= b && b <= 57 {
        Some(b - 48)
    } else if 97 <= b && b <= 102 {
        Some(b - 87)
    } else if 65 <= b && b <= 70 {
        Some(b - 55)
    } else {
        None
    }
}

/// The four-hexadecimal-digit value at `i`, where the specification gives a
/// non-negative value.
fn hex4_at(s: &[u8], i: usize) -> (r: Option<u32>)
    ensures
        hex4(s@, i as int) >= 0 ==> (r matches Some(c) && c as int == hex4(s@, i as int) && c
            < 0x10000),
        hex4(s@, i as int) < 0 ==> r is None,
{
    if i >= s.len() || s.len() - i < 4 {
        return None;
    }
    let d0 = match hexv(s[i]) {
        Some(d) => d,
        None => {
            return None;
        },
    };
    let d1 = match hexv(s[i + 1]) {
        Some(d) => d,
        None => {
            return None;
        },
    };
    let d2 = match hexv(s[i + 2]) {
        Some(d) => d,
        None => {
            return None;
        },
    };
    let d3 = match hexv(s[i + 3]) {
        Some(d) => d,
        None => {
            return None;
        },
    };
    Some((d0 as u32) * 4096 + (d1 as u32) * 256 + (d2 as u32) * 16 + (d3 as u32))
}

/// Appends the UTF-8 encoding of a Unicode scalar.
fn push_scalar(c: u32, acc: &mut Vec<u8>)
    requires
        c <= 0x10FFFF,
        !(0xD800 <= c <= 0xDFFF),
    ensures
        final(acc)@ == old(acc)@ + encode_scalar(c),
{
    if c < 0x80 {
        acc.push((c & 0x7F) as u8);
        proof {
            assert(acc@ =~= old(acc)@ + encode_scalar(c));
        }
    } else if c < 0x800 {
        acc.push(0xC0u8 | ((c >> 6) & 0x1F) as u8);
        acc.push(0x80u8 | (c & 0x3F) as u8);
        proof {
            assert(acc@ =~= old(acc)@ + encode_scalar(c));
        }
    } else if c < 0x10000 {
        acc.push(0xE0u8 | ((c >> 12) & 0x0F) as u8);
        acc.push(0x80u8 | ((c >> 6) & 0x3F) as u8);
        acc.push(0x80u8 | (c & 0x3F) as u8);
        proof {
            assert(acc@ =~= old(acc)@ + encode_scalar(c));
        }
    } else {
        acc.push(0xF0u8 | ((c >> 18) & 0x7) as u8);
        acc.push(0x80u8 | ((c >> 12) & 0x3F) as u8);
        acc.push(0x80u8 | ((c >> 6) & 0x3F) as u8);
        acc.push(0x80u8 | (c & 0x3F) as u8);
        proof {
            assert(acc@ =~= old(acc)@ + encode_scalar(c));
        }
    }
}

pub proof fn lemma_pstr_prepend_assoc(a: Seq<u8>, b: Seq<u8>, r: PStr)
    ensures
        pstr_prepend(a, pstr_prepend(b, r)) == pstr_prepend(a + b, r),
{
    match r {
        PStr::Val { bytes, next } => {
            assert(a + (b + bytes) =~= (a + b) + bytes);
        },
        PStr::Fail => {},
    }
}

/// Parses string content starting inside the quotes at `i`; on success the
/// collected bytes and the position after the closing quote.
#[verifier::rlimit(100)]
fn str_content(s: &[u8], i: usize) -> (r: Option<(Vec<u8>, usize)>)
    requires
        i <= s@.len(),
    ensures
        (match sp_str(s@, i as int) {
            PStr::Val { bytes, next } => r matches Some(p) && p.0@ == bytes && p.1 as int == next
                && p.1 <= s@.len(),
            PStr::Fail => r is None,
        }),
{
    let mut acc: Vec<u8> = Vec::new();
    let mut cur: usize = i;
    loop
        invariant
            i <= cur <= s@.len(),
            pstr_prepend(acc@, sp_str(s@, cur as int)) == sp_str(s@, i as int),
        decreases s@.len() - cur,
    {
        if cur >= s.len() {
            return None;
        }
        let b = s[cur];
        if b == 34 {
            proof {
                assert(sp_str(s@, cur as int) == PStr::Val {
                    bytes: Seq::<u8>::empty(),
                    next: cur + 1 as int,
                });
                assert(acc@ + Seq::<u8>::empty() =~= acc@);
                lemma_sp_str_next(s@, i as int);
            }
            return Some((acc, cur + 1));
        } else if b == 92 {
            if cur + 1 >= s.len() {
                return None;
            }
            let e = s[cur + 1];
            if e == 34 || e == 92 || e == 47 {
                let ghost pre = acc@;
                acc.push(e);
                proof {
                    lemma_pstr_prepend_assoc(pre, seq![e], sp_str(s@, cur + 2 as int));
                    assert(pre.push(e) =~= pre + seq![e]);
                }
                cur = cur + 2;
            } else if e == 98 || e == 102 || e == 110 || e == 114 || e == 116 {
                let d: u8 = if e == 98 {
                    8
                } else if e == 102 {
                    12
                } else if e == 110 {
                    10
                } else if e == 114 {
                    13
                } else {
                    9
                };
                let ghost pre = acc@;
                acc.push(d);
                proof {
                    lemma_pstr_prepend_assoc(pre, seq![d], sp_str(s@, cur + 2 as int));
                    assert(pre.push(d) =~= pre + seq![d]);
                }
                cur = cur + 2;
            } else if e == 117 {
                let c = match hex4_at(s, cur + 2) {
                    Some(c) => c,
                    None => {
                        return None;
                    },
                };
                if 0xD800 <= c && c < 0xDC00 {
                    if s.len() - cur >= 8 && s[cur + 6] == 92 && s[cur + 7] == 117 {
                        let c2 = match hex4_at(s, cur + 8) {
                            Some(c2) => c2,
                            None => {
                                return None;
                            },
                        };
                        if 0xDC00 <= c2 && c2 < 0xE000 {
                            let scalar: u32 = 0x10000 + (c - 0xD800) * 1024 + (c2 - 0xDC00);
                            let ghost pre = acc@;
                            push_scalar(scalar, &mut acc);
                            proof {
                                lemma_pstr_prepend_assoc(
                                    pre,
                                    encode_scalar(scalar),
                                    sp_str(s@, cur + 12 as int),
                                );
                            }
                            cur = cur + 12;
                        } else {
                            return None;
                        }
                    } else {
                        return None;
                    }
                } else if 0xDC00 <= c && c < 0xE000 {
                    return None;
                } else {
                    let ghost pre = acc@;
                    push_scalar(c, &mut acc);
                    proof {
                        lemma_pstr_prepend_assoc(pre, encode_scalar(c), sp_str(s@, cur + 6 as int));
                    }
                    cur = cur + 6;
                }
            } else {
                return None;
            }
        } else if b < 0x20 {
            return None;
        } else {
            let ghost pre = acc@;
            acc.push(b);
            proof {
                lemma_pstr_prepend_assoc(pre, seq![b], sp_str(s@, cur + 1 as int));
                assert(pre.push(b) =~= pre + seq![b]);
            }
            cur = cur + 1;
        }
    }
}

/// The first position at or after `i` holding no decimal digit.
fn digits_end_at(s: &[u8], i: usize) -> (r: usize)
    requires
        i <= s@.len(),
    ensures
        r as int == digits_end(s@, i as int),
        i <= r <= s@.len(),
    decreases s@.len() - i,
{
    if i < s.len() && 48 <= s[i] && s[i] <= 57 {
        digits_end_at(s, i + 1)
    } else {
        i
    }
}

/// Builds a string from the ASCII bytes `s[i..j)`.
fn ascii_slice_string(s: &[u8], i: usize, j: usize) -> (st: String)
    requires
        i <= j <= s@.len(),
        forall|k: int| i <= k < j ==> #[trigger] s@[k] < 0x80,
    ensures
        st@ == s@.subrange(i as int, j as int).map_values(|b: u8| b as char),
{
    let mut bytes: Vec<u8> = Vec::new();
    let mut k: usize = i;
    while k < j
        invariant
            i <= k <= j <= s@.len(),
            bytes@ == s@.subrange(i as int, k as int),
            forall|m: int| i <= m < j ==> #[trigger] s@[m] < 0x80,
        decreases j - k,
    {
        bytes.push(s[k]);
        proof {
            assert(s@.subrange(i as int, k + 1 as int) =~= s@.subrange(i as int, k as int).push(
                s@[k as int],
            ));
        }
        k = k + 1;
    }
    proof {
        lemma_ascii_decode(bytes@);
    }
    match crate::text::bytes_to_string(bytes) {
        Some(st) => st,
        None => vstd::pervasive::unreached(),
    }
}

/// Parses a number at `i`, as the specification [`sp_num`] gives it.
#[verifier::rlimit(100)]
fn num_at(s: &[u8], i: usize) -> (r: Option<(Json, usize)>)
    requires
        i <= s@.len(),
    ensures
        (match sp_num(s@, i as int) {
            PNum::Val { v, next } => r matches Some(p) && jview(p.0) == v && p.1 as int == next
                && p.1 <= s@.len(),
            PNum::Fail => r is None,
        }),
{
    let neg = i < s.len() && s[i] == 45;
    let d0 = if neg {
        i + 1
    } else {
        i
    };
    if d0 >= s.len() || !(48 <= s[d0] && s[d0] <= 57) {
        return None;
    }
    if s[d0] == 48 && d0 + 1 < s.len() && 48 <= s[d0 + 1] && s[d0 + 1] <= 57 {
        return None;
    }
    let de = digits_end_at(s, d0);
    proof {
        lemma_digits_end(s@, d0 as int);
    }
    let has_frac = de < s.len() && s[de] == 46;
    let fe = if has_frac {
        digits_end_at(s, de + 1)
    } else {
        de
    };
    proof {
        if has_frac {
            lemma_digits_end(s@, de + 1 as int);
        }
    }
    if has_frac && fe == de + 1 {
        return None;
    }
    let has_exp = fe < s.len() && (s[fe] == 101 || s[fe] == 69);
    let mut ee = fe;
    let ghost mut es_g: int = fe as int;
    if has_exp {
        let es = if fe + 1 < s.len() && (s[fe + 1] == 43 || s[fe + 1] == 45) {
            fe + 2
        } else {
            fe + 1
        };
        proof {
            es_g = es as int;
            lemma_digits_end(s@, es as int);
        }
        ee = digits_end_at(s, es);
        if ee == es {
            return None;
        }
    }
    if !has_frac && !has_exp {
        let mut acc: u64 = 0;
        let mut over = false;
        let mut k = d0;
        while k < de
            invariant
                d0 <= k <= de <= s@.len(),
                de as int == digits_end(s@, d0 as int),
                forall|m: int| d0 <= m < de ==> is_digit(#[trigger] s@[m]),
                !over ==> acc as int == dec_val(s@, d0 as int, k as int),
                over ==> dec_val(s@, d0 as int, k as int) > int_cap(),
            decreases de - k,
        {
            let d = (s[k] - 48) as u64;
            if !over {
                let m10 = acc.checked_mul(10);
                match m10 {
                    Some(m) => {
                        match m.checked_add(d) {
                            Some(v) => {
                                acc = v;
                            },
                            None => {
                                over = true;
                            },
                        }
                    },
                    None => {
                        over = true;
                    },
                }
            } else {
                proof {
                    lemma_dec_val_nonneg(s@, d0 as int, k as int);
                }
            }
            k = k + 1;
        }
        if !over && acc <= 0x7fff_ffff_ffff_ffff {
            let mag = acc as i64;
            let val = if neg {
                -mag
            } else {
                mag
            };
            return Some((Json::Int(val), de));
        }
        proof {
            if !over {
                lemma_dec_val_nonneg(s@, d0 as int, de as int);
            }
            assert forall|k: int| i <= k < de implies #[trigger] s@[k] < 0x80 by {
                if k == i && neg {
                } else {
                    assert(is_digit(s@[k]));
                }
            }
        }
        let st = ascii_slice_string(s, i, de);
        return Some((Json::Num(st), de));
    }
    proof {
        assert forall|k: int| i <= k < ee implies #[trigger] s@[k] < 0x80 by {
            if k == i && neg {
            } else if k < de {
                assert(is_digit(s@[k]));
            } else if has_frac && k == de {
            } else if has_frac && de + 1 <= k < fe {
                assert(is_digit(s@[k]));
            } else if has_exp && k == fe {
            } else if has_exp && fe < k < es_g {
            } else {
                assert(is_digit(s@[k]));
            }
        }
    }
    let st = ascii_slice_string(s, i, ee);
    Some((Json::Num(st), ee))
}

/// How an executable parse result must reflect a specified one.
pub open spec fn pv_matches(r: Option<(Json, usize)>, pv: PVal, len: int) -> bool {
    match pv {
        PVal::Val { v, next } => r matches Some(p) && jview(p.0) == v && p.1 as int == next && next
            <= len,
        PVal::Fail => r is None,
        PVal::Short => r is None,
    }
}

/// Parses one JSON value at `i`, as the specification [`sp_value`] gives it.
#[verifier::rlimit(100)]
fn value_at(s: &[u8], i: usize, f: usize) -> (r: Option<(Json, usize)>)
    requires
        i <= s@.len(),
    ensures
        pv_matches(r, sp_value(s@, i as int, f as nat), s@.len() as int),
    decreases f, 0int,
{
    let i0 = skip_ws_at(s, i);
    if i0 >= s.len() {
        return None;
    }
    let b = s[i0];
    if b == 110 {
        if s.len() - i0 >= 4 && s[i0 + 1] == 117 && s[i0 + 2] == 108 && s[i0 + 3] == 108 {
            Some((Json::Null, i0 + 4))
        } else {
            None
        }
    } else if b == 116 {
        if s.len() - i0 >= 4 && s[i0 + 1] == 114 && s[i0 + 2] == 117 && s[i0 + 3] == 101 {
            Some((Json::Bool(true), i0 + 4))
        } else {
            None
        }
    } else if b == 102 {
        if s.len() - i0 >= 5 && s[i0 + 1] == 97 && s[i0 + 2] == 108 && s[i0 + 3] == 115 && s[i0 + 4]
            == 101 {
            Some((Json::Bool(false), i0 + 5))
        } else {
            None
        }
    } else if b == 34 {
        match str_content(s, i0 + 1) {
            None => None,
            Some((bytes, next)) => {
                let ghost bs = bytes@;
                match crate::text::bytes_to_string(bytes) {
                    Some(st) => Some((Json::Text(st), next)),
                    None => None,
                }
            },
        }
    } else if b == 45 || (48 <= b && b <= 57) {
        num_at(s, i0)
    } else if b == 91 {
        let i1 = skip_ws_at(s, i0 + 1);
        if i1 < s.len() && s[i1] == 93 {
            let vs: Vec<Json> = Vec::new();
            proof {
                assert(jview_elems(vs@) =~= Seq::<JsonV>::empty());
            }
            Some((Json::Arr(vs), i1 + 1))
        } else if f == 0 {
            None
        } else {
            match elems_at(s, i0 + 1, f - 1) {
                Some(p) => Some((Json::Arr(p.0), p.1)),
                None => None,
            }
        }
    } else if b == 123 {
        let i1 = skip_ws_at(s, i0 + 1);
        if i1 < s.len() && s[i1] == 125 {
            let ms: Vec<(String, Json)> = Vec::new();
            proof {
                assert(jview_members(ms@) =~= Seq::<(Seq<char>, JsonV)>::empty());
            }
            Some((Json::Obj(ms), i1 + 1))
        } else if f == 0 {
            None
        } else {
            match members_at(s, i0 + 1, f - 1) {
                Some(p) => Some((Json::Obj(p.0), p.1)),
                None => None,
            }
        }
    } else {
        None
    }
}

/// Parses the non-empty element list of an array, as [`sp_elems`] gives it.
#[verifier::rlimit(100)]
fn elems_at(s: &[u8], i: usize, f: usize) -> (r: Option<(Vec<Json>, usize)>)
    requires
        i <= s@.len(),
    ensures
        (match sp_elems(s@, i as int, f as nat) {
            PElems::Val { vs, next } => r matches Some(p) && jview_elems(p.0@) == vs && p.1 as int
                == next && p.1 <= s@.len(),
            PElems::Fail => r is None,
            PElems::Short => r is None,
        }),
    decreases f, 1int,
{
    match value_at(s, i, f) {
        None => None,
        Some((j, next)) => {
            let i1 = skip_ws_at(s, next);
            if i1 >= s.len() {
                None
            } else if s[i1] == 93 {
                let mut vs: Vec<Json> = Vec::new();
                vs.push(j);
                proof {
                    assert(vs@ =~= seq![j]);
                    lemma_jview_elems_singleton(j);
                }
                Some((vs, i1 + 1))
            } else if s[i1] == 44 {
                if f == 0 {
                    None
                } else {
                    match elems_at(s, i1 + 1, f - 1) {
                        None => None,
                        Some((rest, next2)) => {
                            let ghost tail = rest@;
                            let mut rest = rest;
                            rest.insert(0, j);
                            proof {
                                assert(rest@ =~= seq![j] + tail);
                                lemma_jview_elems_cons(j, tail);
                            }
                            Some((rest, next2))
                        },
                    }
                }
            } else {
                None
            }
        },
    }
}

/// Parses the non-empty member list of an object, as [`sp_members`] gives it.
#[verifier::rlimit(100)]
#[verifier::spinoff_prover]
fn members_at(s: &[u8], i: usize, f: usize) -> (r: Option<(Vec<(String, Json)>, usize)>)
    requires
        i <= s@.len(),
    ensures
        (match sp_members(s@, i as int, f as nat) {
            PMembers::Val { ms, next } => r matches Some(p) && jview_members(p.0@) == ms
                && p.1 as int == next && p.1 <= s@.len(),
            PMembers::Fail => r is None,
            PMembers::Short => r is None,
        }),
    decreases f, 1int,
{
    let k0 = skip_ws_at(s, i);
    if k0 >= s.len() || s[k0] != 34 {
        return None;
    }
    let (kbytes, knext) = match str_content(s, k0 + 1) {
        Some(p) => p,
        None => {
            return None;
        },
    };
    let ghost kbs = kbytes@;
    let key = match crate::text::bytes_to_string(kbytes) {
        Some(st) => st,
        None => {
            return None;
        },
    };
    let c0 = skip_ws_at(s, knext);
    if c0 >= s.len() || s[c0] != 58 {
        return None;
    }
    if f == 0 {
        return None;
    }
    match value_at(s, c0 + 1, f - 1) {
        None => None,
        Some((j, next)) => {
            let i1 = skip_ws_at(s, next);
            if i1 >= s.len() {
                None
            } else if s[i1] == 125 {
                let mut ms: Vec<(String, Json)> = Vec::new();
                ms.push((key, j));
                proof {
                    assert(ms@ =~= seq![ms@[0]]);
                    lemma_jview_members_singleton(ms@[0]);
                }
                Some((ms, i1 + 1))
            } else if s[i1] == 44 {
                if f == 0 {
                    None
                } else {
                    match members_at(s, i1 + 1, f - 1) {
                        None => None,
                        Some((rest, next2)) => {
                            let ghost tail = rest@;
                            let mut rest = rest;
                            rest.insert(0, (key, j));
                            proof {
                                assert(rest@ =~= seq![rest@[0]] + tail);
                                lemma_jview_members_cons(rest@[0], tail);
                            }
                            Some((rest, next2))
                        },
                    }
                }
            } else {
                None
            }
        },
    }
}

pub proof fn lemma_jview_elems_singleton(x: Json)
    ensures
        jview_elems(seq![x]) == seq![jview(x)],
{
    let e = Seq::<Json>::empty();
    assert(jview_elems(e) == Seq::<JsonV>::empty());
    assert(seq![x].drop_first() =~= e);
    assert(jview_elems(seq![x]) =~= seq![jview(x)]);
}

pub proof fn lemma_jview_members_singleton(x: (String, Json))
    ensures
        jview_members(seq![x]) == seq![(x.0@, jview(x.1))],
{
    let e = Seq::<(String, Json)>::empty();
    assert(jview_members(e) == Seq::<(Seq<char>, JsonV)>::empty());
    assert(seq![x].drop_first() =~= e);
    assert(jview_members(seq![x]) =~= seq![(x.0@, jview(x.1))]);
}

pub proof fn lemma_jview_elems_cons(x: Json, t: Seq<Json>)
    ensures
        jview_elems(seq![x] + t) == seq![jview(x)] + jview_elems(t),
{
    assert((seq![x] + t).drop_first() =~= t);
    assert((seq![x] + t)[0] == x);
}

pub proof fn lemma_jview_members_cons(x: (String, Json), t: Seq<(String, Json)>)
    ensures
        jview_members(seq![x] + t) == seq![(x.0@, jview(x.1))] + jview_members(t),
{
    assert((seq![x] + t).drop_first() =~= t);
    assert((seq![x] + t)[0] == x);
}

/// Parses a whole JSON document, as [`parse_json_spec`] gives it.
pub fn parse_json(s: &[u8]) -> (r: Option<Json>)
    ensures
        (match parse_json_spec(s@) {
            Some(v) => r matches Some(j) && jview(j) == v,
            None => r is None,
        }),
{
    let f = match s.len().checked_mul(2) {
        Some(m) => match m.checked_add(2) {
            Some(t) => t,
            None => {
                return None;
            },
        },
        None => {
            return None;
        },
    };
    match value_at(s, 0, f) {
        None => None,
        Some((j, next)) => {
            let t = skip_ws_at(s, next);
            if t == s.len() {
                Some(j)
            } else {
                None
            }
        },
    }
}

/// The parse of a whole JSON document: one value, with only whitespace
/// around it.  Inputs so large that the fuel bound cannot be computed in a
/// `usize` are rejected.
pub open spec fn parse_json_spec(s: Seq<u8>) -> Option<JsonV> {
    if 2 * s.len() + 2 > usize::MAX {
        None
    } else {
        match sp_value(s, 0, fuel_for(s)) {
            PVal::Val { v, next } => if skip_ws(s, next) == s.len() {
                Some(v)
            } else {
                None
            },
            PVal::Fail => None,
            PVal::Short => None,
        }
    }
}

/// Escaping decomposes from the front as well as from the back.
proof fn lemma_esc_bytes_front(bs: Seq<u8>)
    requires
        bs.len() > 0,
    ensures
        esc_bytes(bs) == esc_byte(bs[0]) + esc_bytes(bs.drop_first()),
    decreases bs.len(),
{
    if bs.len() == 1 {
        assert(bs.drop_last() =~= Seq::<u8>::empty());
        assert(bs.drop_first() =~= Seq::<u8>::empty());
        assert(esc_bytes(Seq::<u8>::empty()) == Seq::<u8>::empty());
        assert(esc_bytes(bs) =~= esc_byte(bs[0]) + esc_bytes(bs.drop_first()));
    } else {
        lemma_esc_bytes_front(bs.drop_last());
        assert(bs.drop_last()[0] == bs[0]);
        assert(bs.drop_last().drop_first() =~= bs.drop_first().drop_last());
        assert(bs.drop_first().last() == bs.last());
        assert(esc_bytes(bs) == (esc_byte(bs[0]) + esc_bytes(bs.drop_first().drop_last()))
            + esc_byte(bs.drop_first().last()));
        assert(esc_bytes(bs) =~= esc_byte(bs[0]) + esc_bytes(bs.drop_first()));
    }
}

/// Parsing string content undoes the serializer's escaping: escaped bytes
/// followed by a closing quote come back exactly.
#[verifier::rlimit(100)]
#[verifier::spinoff_prover]
proof fn lemma_sp_str_unescape(bs: Seq<u8>, s: Seq<u8>, i: int)
    requires
        0 <= i,
        i + esc_bytes(bs).len() < s.len(),
        s.subrange(i, i + esc_bytes(bs).len()) == esc_bytes(bs),
        s[i + esc_bytes(bs).len()] == 34,
    ensures
        sp_str(s, i) == (PStr::Val { bytes: bs, next: i + esc_bytes(bs).len() + 1 }),
    decreases bs.len(),
{
    let e = esc_bytes(bs);
    assert forall|k: int| 0 <= k < e.len() implies s[i + k] == e[k] by {
        assert(s.subrange(i, i + e.len())[k] == s[i + k]);
    }
    if bs.len() == 0 {
        assert(s[i] == 34);
        assert(bs =~= Seq::<u8>::empty());
    } else {
        let b0 = bs[0];
        let rest = bs.drop_first();
        lemma_esc_bytes_front(bs);
        let d = esc_byte(b0).len();
        assert forall|k: int| 0 <= k < d implies s[i + k] == esc_byte(b0)[k] by {
            assert(e[k] == esc_byte(b0)[k]);
        }
        assert forall|k: int| 0 <= k < esc_bytes(rest).len() implies s[i + d + k] == esc_bytes(
            rest,
        )[k] by {
            assert(s[i + (d + k)] == e[d + k]);
            assert(e[d + k] == esc_bytes(rest)[k]);
        }
        assert(s.subrange(i + d, i + d + esc_bytes(rest).len() as int) =~= esc_bytes(rest));
        assert(s[i + d + esc_bytes(rest).len()] == 34);
        lemma_sp_str_unescape(rest, s, i + d);
        assert(e.len() == d + esc_bytes(rest).len());
        assert(seq![b0] + rest =~= bs);
        assert(sp_str(s, i + d) == (PStr::Val {
            bytes: rest,
            next: i + d + esc_bytes(rest).len() + 1,
        }));
        if b0 == 34 || b0 == 92 {
            assert(s[i] == 92 && s[i + 1] == b0);
        } else if b0 == 8 {
            assert(s[i] == 92 && s[i + 1] == 98);
        } else if b0 == 12 {
            assert(s[i] == 92 && s[i + 1] == 102);
        } else if b0 == 10 {
            assert(s[i] == 92 && s[i + 1] == 110);
        } else if b0 == 13 {
            assert(s[i] == 92 && s[i + 1] == 114);
        } else if b0 == 9 {
            assert(s[i] == 92 && s[i + 1] == 116);
        } else if b0 < 0x20 {
            assert(s[i] == 92 && s[i + 1] == 117 && s[i + 2] == 48 && s[i + 3] == 48 && s[i + 4]
                == hex_digit(b0 / 16) && s[i + 5] == hex_digit(b0 % 16));
            assert(hex_v(hex_digit(b0 / 16)) == b0 / 16);
            assert(hex_v(hex_digit(b0 % 16)) == b0 % 16);
            assert(hex4(s, i + 2) == (b0 / 16) * 16 + (b0 % 16));
            assert(hex4(s, i + 2) == b0);
            assert(encode_scalar(b0 as u32) =~= seq![b0]) by {
                assert((b0 as u32) & 0x7F == b0 as u32) by (bit_vector)
                    requires
                        b0 < 0x20,
                ;
            }
        } else {
            assert(s[i] == b0);
            assert(b0 >= 0x20 && b0 != 34 && b0 != 92);
        }
        assert(sp_str(s, i) == (PStr::Val { bytes: bs, next: i + e.len() + 1 }));
    }
}

/// The decimal digits of a non-negative integer are digits, start without
/// a superfluous zero, and are never empty.
proof fn lemma_dec_digits_shape(n: int)
    requires
        n >= 0,
    ensures
        dec_digits(n).len() >= 1,
        forall|k: int| 0 <= k < dec_digits(n).len() ==> is_digit(#[trigger] dec_digits(n)[k]),
        n >= 10 ==> dec_digits(n)[0] != 48,
        n < 10 ==> dec_digits(n) =~= seq![(48 + n) as u8],
    decreases n,
{
    if n >= 10 {
        lemma_dec_digits_shape(n / 10);
    }
}

/// A run of digits ending at a non-digit (or at the end) is exactly what
/// the digit scan finds.
proof fn lemma_digits_end_run(s: Seq<u8>, a: int, b: int)
    requires
        0 <= a <= b <= s.len(),
        forall|k: int| a <= k < b ==> is_digit(#[trigger] s[k]),
        b == s.len() || !is_digit(s[b]),
    ensures
        digits_end(s, a) == b,
    decreases b - a,
{
    if a < b {
        lemma_digits_end_run(s, a + 1, b);
    }
}

/// The value scanned back from the digits of `n` is `n`.
proof fn lemma_dec_val_of_digits(n: int, s: Seq<u8>, d0: int)
    requires
        n >= 0,
        0 <= d0,
        d0 + dec_digits(n).len() <= s.len(),
        s.subrange(d0, d0 + dec_digits(n).len() as int) == dec_digits(n),
    ensures
        dec_val(s, d0, d0 + dec_digits(n).len() as int) == n,
    decreases n,
{
    let ds = dec_digits(n);
    assert forall|k: int| 0 <= k < ds.len() implies s[d0 + k] == ds[k] by {
        assert(s.subrange(d0, d0 + ds.len() as int)[k] == s[d0 + k]);
    }
    if n < 10 {
        assert(ds =~= seq![(48 + n) as u8]) by {
            lemma_dec_digits_shape(n);
        }
        assert(dec_val(s, d0, d0) == 0);
        assert(s[d0] == ds[0]);
        assert(dec_val(s, d0, d0 + 1) == s[d0] - 48);
    } else {
        let m = n / 10;
        let pre = dec_digits(m);
        assert(ds == pre.push((48 + n % 10) as u8));
        assert forall|k: int| 0 <= k < pre.len() implies s.subrange(
            d0,
            d0 + pre.len() as int,
        )[k] == pre[k] by {
            assert(ds[k] == pre[k]);
            assert(s[d0 + k] == ds[k]);
        }
        assert(s.subrange(d0, d0 + pre.len() as int) =~= pre);
        lemma_dec_val_of_digits(m, s, d0);
        assert(ds[ds.len() - 1] == (48 + n % 10) as u8);
        assert(s[d0 + (ds.len() - 1)] == ds[ds.len() - 1]);
        assert(s[d0 + ds.len() - 1] == (48 + n % 10) as u8);
        assert(dec_val(s, d0, d0 + ds.len() as int) == dec_val(s, d0, d0 + ds.len() - 1) * 10 + (
        s[d0 + ds.len() - 1] - 48));
        assert(dec_val(s, d0, d0 + ds.len() as int) == m * 10 + n % 10);
        assert(n == m * 10 + n % 10);
    }
}

/// A JSON tree the serializer and parser are proved inverse on: no
/// verbatim number literals, and integers within range.
pub open spec fn wf_json(j: JsonV) -> bool
    decreases j, 0int,
{
    match j {
        JsonV::Null => true,
        JsonV::Bool(_) => true,
        JsonV::Int(i) => -0x7fff_ffff_ffff_ffff <= i <= 0x7fff_ffff_ffff_ffff,
        JsonV::Num(_) => false,
        JsonV::Text(_) => true,
        JsonV::Arr(es) => wf_elems(es),
        JsonV::Obj(ms) => wf_members(ms),
    }
}

pub open spec fn wf_elems(es: Seq<JsonV>) -> bool
    decreases es, 1int,
{
    es.len() == 0 || (wf_json(es[0]) && wf_elems(es.drop_first()))
}

pub open spec fn wf_members(ms: Seq<(Seq<char>, JsonV)>) -> bool
    decreases ms, 1int,
{
    ms.len() == 0 || (wf_json(ms[0].1) && wf_members(ms.drop_first()))
}

/// The parser fuel a value can use up.
pub open spec fn jfuel(j: JsonV) -> nat
    decreases j, 0int,
{
    match j {
        JsonV::Arr(es) => (1 + efuel(es)) as nat,
        JsonV::Obj(ms) => (1 + mfuel(ms)) as nat,
        _ => 0,
    }
}

pub open spec fn efuel(es: Seq<JsonV>) -> nat
    decreases es, 1int,
{
    if es.len() == 0 {
        0
    } else if es.len() == 1 {
        jfuel(es[0])
    } else if jfuel(es[0]) >= 1 + efuel(es.drop_first()) {
        jfuel(es[0])
    } else {
        (1 + efuel(es.drop_first())) as nat
    }
}

pub open spec fn mfuel(ms: Seq<(Seq<char>, JsonV)>) -> nat
    decreases ms, 1int,
{
    if ms.len() == 0 {
        0
    } else if ms.len() == 1 {
        (1 + jfuel(ms[0].1)) as nat
    } else if 1 + jfuel(ms[0].1) >= 1 + mfuel(ms.drop_first()) {
        (1 + jfuel(ms[0].1)) as nat
    } else {
        (1 + mfuel(ms.drop_first())) as nat
    }
}

/// Element serialization decomposes from the front.
proof fn lemma_ser_elems_front(es: Seq<JsonV>)
    requires
        es.len() >= 1,
    ensures
        es.len() == 1 ==> ser_elems(es) == crate::json::ser_json(es[0]),
        es.len() >= 2 ==> ser_elems(es) == crate::json::ser_json(es[0]) + seq![44u8] + ser_elems(
            es.drop_first(),
        ),
    decreases es.len(),
{
    if es.len() >= 2 {
        lemma_ser_elems_front(es.drop_last());
        assert(es.drop_last()[0] == es[0]);
        assert(es.drop_last().drop_first() =~= es.drop_first().drop_last());
        assert(es.drop_first().last() == es.last());
        if es.len() == 2 {
            assert(es.drop_first() =~= seq![es[1]]);
            assert(ser_elems(es.drop_first()) == crate::json::ser_json(es[1]));
            assert(ser_elems(es) =~= crate::json::ser_json(es[0]) + seq![44u8] + ser_elems(
                es.drop_first(),
            ));
        } else {
            assert(ser_elems(es) =~= crate::json::ser_json(es[0]) + seq![44u8] + ser_elems(
                es.drop_first(),
            ));
        }
    }
}

/// Member serialization decomposes from the front.
proof fn lemma_ser_members_front(ms: Seq<(Seq<char>, JsonV)>)
    requires
        ms.len() >= 1,
    ensures
        ms.len() == 1 ==> ser_members(ms) == ser_member(ms[0]),
        ms.len() >= 2 ==> ser_members(ms) == ser_member(ms[0]) + seq![44u8] + ser_members(
            ms.drop_first(),
        ),
    decreases ms.len(),
{
    if ms.len() >= 2 {
        lemma_ser_members_front(ms.drop_last());
        assert(ms.drop_last()[0] == ms[0]);
        assert(ms.drop_last().drop_first() =~= ms.drop_first().drop_last());
        assert(ms.drop_first().last() == ms.last());
        if ms.len() == 2 {
            assert(ms.drop_first() =~= seq![ms[1]]);
            assert(ser_members(ms.drop_first()) == ser_member(ms[1]));
            assert(ser_members(ms) =~= ser_member(ms[0]) + seq![44u8] + ser_members(
                ms.drop_first(),
            ));
        } else {
            assert(ser_members(ms) =~= ser_member(ms[0]) + seq![44u8] + ser_members(
                ms.drop_first(),
            ));
        }
    }
}

/// A serialized value is never empty, and its head byte names its
/// construct; in particular it is no whitespace and no separator.
proof fn lemma_ser_head(j: JsonV)
    requires
        wf_json(j),
    ensures
        crate::json::ser_json(j).len() >= 1,
        !is_ws(crate::json::ser_json(j)[0]),
        (j is Null ==> crate::json::ser_json(j)[0] == 110),
        (j matches JsonV::Bool(b) ==> crate::json::ser_json(j)[0] == (if b {
            116u8
        } else {
            102u8
        })),
        (j is Int ==> crate::json::ser_json(j)[0] == 45 || is_digit(crate::json::ser_json(j)[0])),
        (j is Text ==> crate::json::ser_json(j)[0] == 34),
        (j is Arr ==> crate::json::ser_json(j)[0] == 91),
        (j is Obj ==> crate::json::ser_json(j)[0] == 123),
        crate::json::ser_json(j)[0] != 44 && crate::json::ser_json(j)[0] != 93
            && crate::json::ser_json(j)[0] != 125 && crate::json::ser_json(j)[0] != 58,
{
    match j {
        JsonV::Int(i) => {
            let mag = if i < 0 {
                -i
            } else {
                i
            };
            lemma_dec_digits_shape(mag);
            if i >= 0 {
                assert(crate::json::ser_json(j)[0] == dec_digits(mag)[0]);
            }
        },
        _ => {},
    }
}

/// The fuel a value needs is at most its serialized length.
proof fn lemma_jfuel_bound(j: JsonV)
    ensures
        jfuel(j) <= crate::json::ser_json(j).len(),
    decreases j, 0int,
{
    match j {
        JsonV::Arr(es) => {
            lemma_efuel_bound(es);
        },
        JsonV::Obj(ms) => {
            lemma_mfuel_bound(ms);
        },
        _ => {},
    }
}

proof fn lemma_efuel_bound(es: Seq<JsonV>)
    ensures
        efuel(es) <= 1 + ser_elems(es).len(),
    decreases es, 1int,
{
    if es.len() == 1 {
        lemma_jfuel_bound(es[0]);
    } else if es.len() >= 2 {
        lemma_jfuel_bound(es[0]);
        lemma_efuel_bound(es.drop_first());
        lemma_ser_elems_front(es);
    }
}

proof fn lemma_mfuel_bound(ms: Seq<(Seq<char>, JsonV)>)
    ensures
        mfuel(ms) <= 1 + ser_members(ms).len(),
    decreases ms, 1int,
{
    if ms.len() == 1 {
        lemma_jfuel_bound(ms[0].1);
        assert(ser_members(ms) == ser_member(ms[0]));
    } else if ms.len() >= 2 {
        lemma_jfuel_bound(ms[0].1);
        lemma_mfuel_bound(ms.drop_first());
        lemma_ser_members_front(ms);
    }
}

/// Whether position `p` ends a value: the input ends there, or a
/// separator or closing bracket follows.
pub open spec fn ends_value(s: Seq<u8>, p: int) -> bool {
    p == s.len() || s[p] == 44 || s[p] == 93 || s[p] == 125
}

/// A serialized integer embedded before a value end scans back to itself.
#[verifier::rlimit(100)]
#[verifier::spinoff_prover]
proof fn lemma_sp_num_embed_int(i: int, s: Seq<u8>, pos: int)
    requires
        -0x7fff_ffff_ffff_ffff <= i <= 0x7fff_ffff_ffff_ffff,
        0 <= pos,
        pos + ser_int(i).len() <= s.len(),
        s.subrange(pos, pos + ser_int(i).len() as int) == ser_int(i),
        ends_value(s, pos + ser_int(i).len() as int),
    ensures
        sp_num(s, pos) == (PNum::Val { v: JsonV::Int(i), next: pos + ser_int(i).len() }),
{
    let u = ser_int(i);
    let e = pos + u.len() as int;
    assert forall|k: int| 0 <= k < u.len() implies s[pos + k] == u[k] by {
        assert(s.subrange(pos, pos + u.len() as int)[k] == s[pos + k]);
    }
    let mag = if i < 0 {
        -i
    } else {
        i
    };
    let ds = dec_digits(mag);
    lemma_dec_digits_shape(mag);
    let d0: int = if i < 0 {
        pos + 1
    } else {
        pos
    };
    assert forall|k: int| 0 <= k < ds.len() implies s[d0 + k] == ds[k] by {
        if i < 0 {
            assert(u == seq![45u8] + ds);
            assert(u[1 + k] == ds[k]);
            assert(s[pos + (1 + k)] == u[1 + k]);
        } else {
            assert(s[pos + k] == u[k]);
        }
    }
    assert(e == d0 + ds.len());
    assert(s.subrange(d0, d0 + ds.len() as int) =~= ds);
    assert forall|k: int| d0 <= k < e implies is_digit(#[trigger] s[k]) by {
        assert(s[d0 + (k - d0)] == ds[k - d0]);
        assert(is_digit(ds[k - d0]));
    }
    assert(e == s.len() || !is_digit(s[e]));
    lemma_digits_end_run(s, d0, e);
    lemma_dec_val_of_digits(mag, s, d0);
    if i < 0 {
        assert(u == seq![45u8] + ds);
        assert(u[0] == 45);
        assert(s[pos + 0] == u[0]);
        assert(s[pos] == 45);
    } else {
        assert(s[pos + 0] == u[0]);
        assert(s[pos] == ds[0]);
        assert(is_digit(s[pos]));
        assert(s[pos] != 45);
    }
    assert(is_digit(s[d0]));
    assert(mag >= 10 ==> s[d0] != 48);
    assert(mag < 10 ==> d0 + 1 == e);
    assert(e == s.len() || (s[e] != 46 && s[e] != 101 && s[e] != 69));
    assert(sp_num(s, pos) == (PNum::Val { v: JsonV::Int(i), next: e }));
}

/// A serialized string embedded in a document parses back to itself.
#[verifier::rlimit(100)]
#[verifier::spinoff_prover]
proof fn lemma_text_embed(cs: Seq<char>, s: Seq<u8>, i: int, f: nat)
    requires
        0 <= i,
        i + ser_text(cs).len() <= s.len(),
        s.subrange(i, i + ser_text(cs).len() as int) == ser_text(cs),
    ensures
        sp_value(s, i, f) == (PVal::Val { v: JsonV::Text(cs), next: i + ser_text(cs).len() }),
{
    broadcast use vstd::utf8::encode_utf8_valid_utf8, vstd::utf8::encode_utf8_decode_utf8;

    let u = ser_text(cs);
    assert forall|k: int| 0 <= k < u.len() implies s[i + k] == u[k] by {
        assert(s.subrange(i, i + u.len() as int)[k] == s[i + k]);
    }
    let bs = vstd::utf8::encode_utf8(cs);
    assert(u == seq![34u8] + esc_bytes(bs) + seq![34u8]);
    assert(s[i + 0] == u[0]);
    assert(u[0] == 34);
    assert(!is_ws(s[i]));
    assert(skip_ws(s, i) == i);
    assert forall|k: int| 0 <= k < esc_bytes(bs).len() implies s[i + 1 + k] == esc_bytes(bs)[k] by {
        assert(u[1 + k] == esc_bytes(bs)[k]);
        assert(s[i + (1 + k)] == u[1 + k]);
    }
    assert(s.subrange(i + 1, i + 1 + esc_bytes(bs).len() as int) =~= esc_bytes(bs));
    assert(s[i + 1 + esc_bytes(bs).len() as int] == u[u.len() - 1]);
    assert(u[u.len() - 1] == 34);
    lemma_sp_str_unescape(bs, s, i + 1);
    assert(vstd::utf8::decode_utf8(bs) == cs);
}

/// A serialized value embedded in a document parses back to exactly that
/// value, consuming exactly its own bytes.
#[verifier::rlimit(100)]
#[verifier::spinoff_prover]
proof fn lemma_val_embed(j: JsonV, s: Seq<u8>, i: int, f: nat)
    requires
        wf_json(j),
        0 <= i,
        i + crate::json::ser_json(j).len() <= s.len(),
        s.subrange(i, i + crate::json::ser_json(j).len() as int) == crate::json::ser_json(j),
        ends_value(s, i + crate::json::ser_json(j).len() as int),
        f >= jfuel(j),
    ensures
        sp_value(s, i, f) == (PVal::Val { v: j, next: i + crate::json::ser_json(j).len() }),
    decreases j, 0int,
{
    let u = crate::json::ser_json(j);
    assert forall|k: int| 0 <= k < u.len() implies s[i + k] == u[k] by {
        assert(s.subrange(i, i + u.len() as int)[k] == s[i + k]);
    }
    lemma_ser_head(j);
    assert(s[i] == u[0]);
    assert(skip_ws(s, i) == i);
    match j {
        JsonV::Null => {
            assert(s[i + 1] == 117 && s[i + 2] == 108 && s[i + 3] == 108);
        },
        JsonV::Bool(b) => {
            if b {
                assert(s[i + 1] == 114 && s[i + 2] == 117 && s[i + 3] == 101);
            } else {
                assert(s[i + 1] == 97 && s[i + 2] == 108 && s[i + 3] == 115 && s[i + 4] == 101);
            }
        },
        JsonV::Int(n) => {
            lemma_sp_num_embed_int(n, s, i);
        },
        JsonV::Num(_) => {},
        JsonV::Text(cs) => {
            lemma_text_embed(cs, s, i, f);
        },
        JsonV::Arr(es) => {
            assert(u == seq![91u8] + ser_elems(es) + seq![93u8]);
            let se = ser_elems(es);
            assert forall|k: int| 0 <= k < se.len() implies s[i + 1 + k] == se[k] by {
                assert(u[1 + k] == se[k]);
                assert(s[i + (1 + k)] == u[1 + k]);
            }
            assert(s[i + 1 + se.len() as int] == u[u.len() - 1]);
            assert(u[u.len() - 1] == 93);
            if es.len() == 0 {
                assert(se.len() == 0);
                assert(s[i + 1] == 93);
                assert(skip_ws(s, i + 1) == i + 1);
                assert(es =~= Seq::<JsonV>::empty());
                assert(sp_value(s, i, f) == (PVal::Val { v: JsonV::Arr(es), next: i + 2 }));
            } else {
                lemma_ser_elems_front(es);
                lemma_ser_head(es[0]);
                assert(se[0] == crate::json::ser_json(es[0])[0]);
                assert(s[i + 1] == se[0]);
                assert(!is_ws(s[i + 1]) && s[i + 1] != 93);
                assert(skip_ws(s, i + 1) == i + 1);
                assert(s.subrange(i + 1, i + 1 + se.len() as int) =~= se);
                lemma_elems_embed(es, s, i + 1, (f - 1) as nat);
                assert(sp_value(s, i, f) == (PVal::Val {
                    v: JsonV::Arr(es),
                    next: i + u.len() as int,
                }));
            }
        },
        JsonV::Obj(ms) => {
            assert(u == seq![123u8] + ser_members(ms) + seq![125u8]);
            let sm = ser_members(ms);
            assert forall|k: int| 0 <= k < sm.len() implies s[i + 1 + k] == sm[k] by {
                assert(u[1 + k] == sm[k]);
                assert(s[i + (1 + k)] == u[1 + k]);
            }
            assert(s[i + 1 + sm.len() as int] == u[u.len() - 1]);
            assert(u[u.len() - 1] == 125);
            if ms.len() == 0 {
                assert(sm.len() == 0);
                assert(s[i + 1] == 125);
                assert(skip_ws(s, i + 1) == i + 1);
                assert(ms =~= Seq::<(Seq<char>, JsonV)>::empty());
                assert(sp_value(s, i, f) == (PVal::Val { v: JsonV::Obj(ms), next: i + 2 }));
            } else {
                lemma_ser_members_front(ms);
                assert(ser_member(ms[0]) == ser_text(ms[0].0) + seq![58u8] + crate::json::ser_json(
                    ms[0].1,
                ));
                assert(sm[0] == ser_member(ms[0])[0]);
                assert(ser_member(ms[0])[0] == ser_text(ms[0].0)[0]);
                assert(ser_text(ms[0].0)[0] == 34);
                assert(s[i + 1] == 34);
                assert(skip_ws(s, i + 1) == i + 1);
                assert(s.subrange(i + 1, i + 1 + sm.len() as int) =~= sm);
                lemma_members_embed(ms, s, i + 1, (f - 1) as nat);
                assert(sp_value(s, i, f) == (PVal::Val {
                    v: JsonV::Obj(ms),
                    next: i + u.len() as int,
                }));
            }
        },
    }
}

/// A serialized non-empty element list, followed by `]`, parses back to
/// exactly those elements.
#[verifier::rlimit(100)]
#[verifier::spinoff_prover]
proof fn lemma_elems_embed(es: Seq<JsonV>, s: Seq<u8>, i: int, f: nat)
    requires
        es.len() >= 1,
        wf_elems(es),
        0 <= i,
        i + ser_elems(es).len() + 1 <= s.len(),
        s.subrange(i, i + ser_elems(es).len() as int) == ser_elems(es),
        s[i + ser_elems(es).len() as int] == 93,
        f >= efuel(es),
    ensures
        sp_elems(s, i, f) == (PElems::Val { vs: es, next: i + ser_elems(es).len() + 1 }),
    decreases es, 1int,
{
    let se = ser_elems(es);
    assert forall|k: int| 0 <= k < se.len() implies s[i + k] == se[k] by {
        assert(s.subrange(i, i + se.len() as int)[k] == s[i + k]);
    }
    lemma_ser_elems_front(es);
    let u0 = crate::json::ser_json(es[0]);
    assert(wf_json(es[0]));
    if es.len() == 1 {
        assert(se == u0);
        assert(s.subrange(i, i + u0.len() as int) =~= u0);
        assert(s[i + u0.len() as int] == 93);
        lemma_val_embed(es[0], s, i, f);
        let nxt = i + u0.len() as int;
        assert(skip_ws(s, nxt) == nxt);
        assert(s[nxt] == 93);
        assert(seq![es[0]] =~= es);
        assert(sp_elems(s, i, f) == (PElems::Val { vs: es, next: i + se.len() + 1 }));
    } else {
        let rest = es.drop_first();
        let sr = ser_elems(rest);
        assert(se == u0 + seq![44u8] + sr);
        assert forall|k: int| 0 <= k < u0.len() implies s[i + k] == u0[k] by {
            assert(se[k] == u0[k]);
        }
        assert(s.subrange(i, i + u0.len() as int) =~= u0);
        let nxt = i + u0.len() as int;
        assert(s[nxt] == se[u0.len() as int]);
        assert(se[u0.len() as int] == 44);
        lemma_val_embed(es[0], s, i, f);
        assert(skip_ws(s, nxt) == nxt);
        assert forall|k: int| 0 <= k < sr.len() implies s[nxt + 1 + k] == sr[k] by {
            assert(se[u0.len() + 1 + k] == sr[k]);
            assert(s[i + (u0.len() + 1 + k)] == se[u0.len() + 1 + k]);
        }
        assert(s.subrange(nxt + 1, nxt + 1 + sr.len() as int) =~= sr);
        assert(s[nxt + 1 + sr.len() as int] == s[i + se.len() as int]);
        lemma_elems_embed(rest, s, nxt + 1, (f - 1) as nat);
        assert(seq![es[0]] + rest =~= es);
        assert(sp_elems(s, i, f) == (PElems::Val { vs: es, next: i + se.len() + 1 }));
    }
}

/// A serialized non-empty member list, followed by `}`, parses back to
/// exactly those members.
#[verifier::rlimit(100)]
#[verifier::spinoff_prover]
proof fn lemma_members_embed(ms: Seq<(Seq<char>, JsonV)>, s: Seq<u8>, i: int, f: nat)
    requires
        ms.len() >= 1,
        wf_members(ms),
        0 <= i,
        i + ser_members(ms).len() + 1 <= s.len(),
        s.subrange(i, i + ser_members(ms).len() as int) == ser_members(ms),
        s[i + ser_members(ms).len() as int] == 125,
        f >= mfuel(ms),
    ensures
        sp_members(s, i, f) == (PMembers::Val { ms: ms, next: i + ser_members(ms).len() + 1 }),
    decreases ms, 1int,
{
    broadcast use vstd::utf8::encode_utf8_valid_utf8, vstd::utf8::encode_utf8_decode_utf8;

    let sm = ser_members(ms);
    assert forall|k: int| 0 <= k < sm.len() implies s[i + k] == sm[k] by {
        assert(s.subrange(i, i + sm.len() as int)[k] == s[i + k]);
    }
    lemma_ser_members_front(ms);
    let m0 = ser_member(ms[0]);
    let k0 = ms[0].0;
    let v0 = ms[0].1;
    let kb = vstd::utf8::encode_utf8(k0);
    let uv = crate::json::ser_json(v0);
    assert(m0 == ser_text(k0) + seq![58u8] + uv);
    assert(wf_json(v0));
    assert forall|k: int| 0 <= k < m0.len() implies s[i + k] == m0[k] by {
        if ms.len() == 1 {
            assert(sm == m0);
        } else {
            assert(sm == m0 + seq![44u8] + ser_members(ms.drop_first()));
            assert(sm[k] == m0[k]);
        }
    }
    assert(s[i] == m0[0]);
    assert(m0[0] == ser_text(k0)[0]);
    assert(s[i] == 34);
    assert(skip_ws(s, i) == i);
    let lk = ser_text(k0).len() as int;
    assert forall|k: int| 0 <= k < esc_bytes(kb).len() implies s[i + 1 + k] == esc_bytes(kb)[k] by {
        assert(m0[1 + k] == ser_text(k0)[1 + k]);
        assert(ser_text(k0)[1 + k] == esc_bytes(kb)[k]);
        assert(s[i + (1 + k)] == m0[1 + k]);
    }
    assert(s.subrange(i + 1, i + 1 + esc_bytes(kb).len() as int) =~= esc_bytes(kb));
    assert(s[i + 1 + esc_bytes(kb).len() as int] == m0[lk - 1]);
    assert(m0[lk - 1] == ser_text(k0)[lk - 1]);
    assert(ser_text(k0)[lk - 1] == 34);
    lemma_sp_str_unescape(kb, s, i + 1);
    assert(vstd::utf8::decode_utf8(kb) == k0);
    assert(s[i + lk] == m0[lk]);
    assert(m0[lk] == 58);
    assert(skip_ws(s, i + lk) == i + lk);
    let vp = i + lk + 1;
    assert forall|k: int| 0 <= k < uv.len() implies s[vp + k] == uv[k] by {
        assert(m0[lk + 1 + k] == uv[k]);
        assert(s[i + (lk + 1 + k)] == m0[lk + 1 + k]);
    }
    assert(s.subrange(vp, vp + uv.len() as int) =~= uv);
    let ve = vp + uv.len() as int;
    assert(ve == i + m0.len());
    if ms.len() == 1 {
        assert(sm == m0);
        assert(s[ve] == 125);
        lemma_val_embed(v0, s, vp, (f - 1) as nat);
        assert(skip_ws(s, ve) == ve);
        assert(seq![(k0, v0)] =~= ms);
        assert((k0, v0) == ms[0]);
        assert(sp_members(s, i, f) == (PMembers::Val { ms: ms, next: i + sm.len() + 1 }));
    } else {
        let rest = ms.drop_first();
        let sr = ser_members(rest);
        assert(sm == m0 + seq![44u8] + sr);
        assert(s[ve] == sm[m0.len() as int]);
        assert(sm[m0.len() as int] == 44);
        lemma_val_embed(v0, s, vp, (f - 1) as nat);
        assert(skip_ws(s, ve) == ve);
        assert forall|k: int| 0 <= k < sr.len() implies s[ve + 1 + k] == sr[k] by {
            assert(sm[m0.len() + 1 + k] == sr[k]);
            assert(s[i + (m0.len() + 1 + k)] == sm[m0.len() + 1 + k]);
        }
        assert(s.subrange(ve + 1, ve + 1 + sr.len() as int) =~= sr);
        assert(s[ve + 1 + sr.len() as int] == s[i + sm.len() as int]);
        lemma_members_embed(rest, s, ve + 1, (f - 1) as nat);
        assert(seq![(k0, v0)] + rest =~= ms);
        assert((k0, v0) == ms[0]);
        assert(sp_members(s, i, f) == (PMembers::Val { ms: ms, next: i + sm.len() + 1 }));
    }
}

/// Serialization then parsing is the identity on every well-formed JSON
/// value: the whole document comes back as exactly the value serialized.
pub proof fn lemma_document_roundtrip(j: JsonV)
    requires
        wf_json(j),
        2 * crate::json::ser_json(j).len() + 2 <= usize::MAX,
    ensures
        parse_json_spec(crate::json::ser_json(j)) == Some(j),
{
    let s = crate::json::ser_json(j);
    lemma_jfuel_bound(j);
    assert(s.subrange(0, s.len() as int) =~= s);
    lemma_val_embed(j, s, 0, fuel_for(s));
    assert(skip_ws(s, s.len() as int) == s.len());
}

} // verus!
