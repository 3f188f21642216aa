//! Small text helpers: ASCII lowercasing and UTF-8 decoding of byte buffers.

use vstd::prelude::*;
use vstd::utf8::{encode_scalar, encode_utf8};

verus! {

broadcast use vstd::seq::group_seq_axioms;

/// `'A'..='Z'` mapped to lower case; every other character unchanged.
pub open spec fn lower_char(c: char) -> char {
    if 'A' <= c && c <= 'Z' {
        ((c as u32) + 32) as char
    } else {
        c
    }
}

/// A whole character sequence lowercased, ASCII letters only.
pub open spec fn lower_chars(s: Seq<char>) -> Seq<char> {
    s.map_values(|c: char| lower_char(c))
}

/// ASCII lowercasing of one UTF-8 byte.
pub open spec fn lower_byte(b: u8) -> u8 {
    if 65 <= b <= 90 {
        (b + 32) as u8
    } else {
        b
    }
}

/// Lowercasing one character and lowercasing its UTF-8 bytes agree: an
/// ASCII letter encodes to the single byte it is, and every byte of a
/// multi-byte encoding lies above the ASCII range.
proof fn lemma_lower_scalar(c: char)
    ensures
        encode_scalar(lower_char(c) as u32) == encode_scalar(c as u32).map_values(
            |b: u8| lower_byte(b),
        ),
{
    broadcast use vstd::utf8::char_is_scalar;

    let v = c as u32;
    if v < 0x80 {
        assert((v & 0x7F) == v) by (bit_vector)
            requires
                v < 0x80,
        ;
        if 'A' <= c && c <= 'Z' {
            let w: u32 = (v + 32) as u32;
            assert(lower_char(c) == (w as char));
            assert((w as char) as u32 == w);
            assert((w & 0x7F) == w) by (bit_vector)
                requires
                    w < 0x80,
            ;
            assert(encode_scalar(lower_char(c) as u32) =~= encode_scalar(v).map_values(
                |b: u8| lower_byte(b),
            ));
        } else {
            assert(encode_scalar(lower_char(c) as u32) =~= encode_scalar(v).map_values(
                |b: u8| lower_byte(b),
            ));
        }
    } else {
        assert(lower_char(c) == c);
        assert(forall|x: u8| (0xC0u8 | x) >= 0x80) by (bit_vector);
        assert(forall|x: u8| (0xE0u8 | x) >= 0x80) by (bit_vector);
        assert(forall|x: u8| (0xF0u8 | x) >= 0x80) by (bit_vector);
        assert(forall|x: u8| (0x80u8 | x) >= 0x80) by (bit_vector);
        assert(encode_scalar(lower_char(c) as u32) =~= encode_scalar(v).map_values(
            |b: u8| lower_byte(b),
        ));
    }
}

/// Lowercasing a character sequence and lowercasing its UTF-8 bytes agree.
proof fn lemma_lower_encode(s: Seq<char>)
    ensures
        encode_utf8(lower_chars(s)) == encode_utf8(s).map_values(|b: u8| lower_byte(b)),
    decreases s.len(),
{
    if s.len() == 0 {
        assert(lower_chars(s) =~= Seq::<char>::empty());
        assert(encode_utf8(lower_chars(s)) =~= encode_utf8(s).map_values(|b: u8| lower_byte(b)));
    } else {
        let ls = lower_chars(s);
        assert(ls[0] == lower_char(s[0]));
        assert(ls.drop_first() =~= lower_chars(s.drop_first()));
        lemma_lower_scalar(s[0]);
        lemma_lower_encode(s.drop_first());
        assert(encode_utf8(ls) == encode_scalar(lower_char(s[0]) as u32) + encode_utf8(
            lower_chars(s.drop_first()),
        ));
        assert(encode_utf8(lower_chars(s)) =~= encode_utf8(s).map_values(|b: u8| lower_byte(b)));
    }
}

/// Lowercases the ASCII letters of a string, byte by byte over its UTF-8
/// encoding; every other character is unchanged.
pub(crate) fn ascii_lower(s: &str) -> (r: String)
    ensures
        r@ == lower_chars(s@),
{
    broadcast use vstd::utf8::encode_utf8_valid_utf8, vstd::utf8::encode_utf8_decode_utf8;

    let bv = s.as_bytes_vec();
    let mut out: Vec<u8> = Vec::new();
    let mut i: usize = 0;
    while i < bv.len()
        invariant
            i <= bv@.len(),
            out@.len() == i,
            forall|k: int| 0 <= k < i ==> #[trigger] out@[k] == lower_byte(bv@[k]),
        decreases bv@.len() - i,
    {
        let b = bv[i];
        out.push(
            if 65 <= b && b <= 90 {
                b + 32
            } else {
                b
            },
        );
        i = i + 1;
    }
    proof {
        lemma_lower_encode(s@);
        assert(out@ =~= encode_utf8(s@).map_values(|b: u8| lower_byte(b)));
        assert(out@ == encode_utf8(lower_chars(s@)));
    }
    match bytes_to_string(out) {
        Some(r) => r,
        None => vstd::pervasive::unreached(),
    }
}

/// Relies on `String::from_utf8`: it succeeds exactly on valid UTF-8 input,
/// and then the returned string holds the decoded characters of the bytes.
#[verifier::external_body]
pub(crate) fn bytes_to_string(v: Vec<u8>) -> (r: Option<String>)
    ensures
        r is Some <==> vstd::utf8::valid_utf8(v@),
        r is Some ==> r.unwrap()@ == vstd::utf8::decode_utf8(v@),
{
    String::from_utf8(v).ok()
}

} // verus!
