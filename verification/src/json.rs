//! A small JSON tree, with a verified canonical serializer.
//!
//! The wire format of the service is JSON carried inside SSE frames, so the
//! format lives here as the library's own logic: [`Json`] is the executable
//! tree, [`JsonV`] its mathematical view, and [`ser_json`] the byte-level
//! serialization that the executable writer is proved to produce.

use vstd::prelude::*;
use vstd::utf8::encode_utf8;

verus! {

broadcast use vstd::seq::group_seq_axioms, vstd::std_specs::vec::group_vec_axioms;

/// The mathematical view of a [`Json`] value.  Strings are character
/// sequences, integers unbounded.
pub ghost enum JsonV {
    Null,
    Bool(bool),
    Int(int),
    /// A number literal kept verbatim (a non-integer, or out of `i64` range).
    Num(Seq<char>),
    Text(Seq<char>),
    Arr(Seq<JsonV>),
    Obj(Seq<(Seq<char>, JsonV)>),
}

/// A JSON value: null, a boolean, a number (an integer, or a literal kept
/// verbatim), a string, an array, or an object with ordered members.
#[derive(Debug, PartialEq)]
pub enum Json {
    Null,
    Bool(bool),
    Int(i64),
    /// A number literal kept verbatim (a non-integer, or out of `i64` range).
    Num(String),
    Text(String),
    Arr(Vec<Json>),
    Obj(Vec<(String, Json)>),
}

/// The view of an executable JSON tree.
pub open spec fn jview(j: Json) -> JsonV
    decreases j, 0int,
{
    match j {
        Json::Null => JsonV::Null,
        Json::Bool(b) => JsonV::Bool(b),
        Json::Int(i) => JsonV::Int(i as int),
        Json::Num(s) => JsonV::Num(s@),
        Json::Text(s) => JsonV::Text(s@),
        Json::Arr(v) => JsonV::Arr(jview_elems(v@)),
        Json::Obj(m) => JsonV::Obj(jview_members(m@)),
    }
}

/// The views of the elements of an array, in order.
pub open spec fn jview_elems(s: Seq<Json>) -> Seq<JsonV>
    decreases s, 1int,
{
    if s.len() == 0 {
        Seq::empty()
    } else {
        seq![jview(s[0])] + jview_elems(s.drop_first())
    }
}

/// The views of the members of an object, in order.
pub open spec fn jview_members(s: Seq<(String, Json)>) -> Seq<(Seq<char>, JsonV)>
    decreases s, 1int,
{
    if s.len() == 0 {
        Seq::empty()
    } else {
        seq![(s[0].0@, jview(s[0].1))] + jview_members(s.drop_first())
    }
}

impl View for Json {
    type V = JsonV;

    open spec fn view(&self) -> JsonV {
        jview(*self)
    }
}

pub proof fn lemma_jview_elems(s: Seq<Json>)
    ensures
        jview_elems(s).len() == s.len(),
        forall|k: int| 0 <= k < s.len() ==> #[trigger] jview_elems(s)[k] == jview(s[k]),
    decreases s.len(),
{
    if s.len() > 0 {
        lemma_jview_elems(s.drop_first());
    }
}

pub proof fn lemma_jview_members(s: Seq<(String, Json)>)
    ensures
        jview_members(s).len() == s.len(),
        forall|k: int|
            0 <= k < s.len() ==> #[trigger] jview_members(s)[k] == (s[k].0@, jview(s[k].1)),
    decreases s.len(),
{
    if s.len() > 0 {
        lemma_jview_members(s.drop_first());
    }
}

/// The decimal digits of a non-negative integer, most significant first.
pub open spec fn dec_digits(n: int) -> Seq<u8>
    recommends
        n >= 0,
    decreases n,
{
    if n < 10 {
        seq![(48 + if n >= 0 { n } else { 0 }) as u8]
    } else {
        dec_digits(n / 10).push((48 + n % 10) as u8)
    }
}

/// The serialization of an integer: an optional minus sign, then digits.
pub open spec fn ser_int(i: int) -> Seq<u8> {
    if i < 0 {
        seq![45u8] + dec_digits(-i)
    } else {
        dec_digits(i)
    }
}

/// The lower-case hexadecimal digit for a value below 16.
pub open spec fn hex_digit(n: u8) -> u8 {
    if n < 10 {
        (48 + n) as u8
    } else {
        (87 + if n < 16 { n } else { 0 }) as u8
    }
}

/// How one byte of string content is escaped: quote, backslash and the
/// common control characters get two-character escapes, other control
/// characters a `\u00XX` escape, and everything else stands as itself.
pub open spec fn esc_byte(b: u8) -> Seq<u8> {
    if b == 34 {
        seq![92u8, 34u8]
    } else if b == 92 {
        seq![92u8, 92u8]
    } else if b == 0x08 {
        seq![92u8, 98u8]
    } else if b == 0x0c {
        seq![92u8, 102u8]
    } else if b == 0x0a {
        seq![92u8, 110u8]
    } else if b == 0x0d {
        seq![92u8, 114u8]
    } else if b == 0x09 {
        seq![92u8, 116u8]
    } else if b < 0x20 {
        seq![92u8, 117u8, 48u8, 48u8, hex_digit(b / 16), hex_digit(b % 16)]
    } else {
        seq![b]
    }
}

/// The escaped form of a whole byte sequence of string content.
pub open spec fn esc_bytes(s: Seq<u8>) -> Seq<u8>
    decreases s.len(),
{
    if s.len() == 0 {
        Seq::empty()
    } else {
        esc_bytes(s.drop_last()) + esc_byte(s.last())
    }
}

/// The serialization of a string: quoted, escaped UTF-8 bytes.
pub open spec fn ser_text(s: Seq<char>) -> Seq<u8> {
    seq![34u8] + esc_bytes(encode_utf8(s)) + seq![34u8]
}

/// The canonical byte serialization of a JSON value: no whitespace, members
/// and elements in order.
pub open spec fn ser_json(j: JsonV) -> Seq<u8>
    decreases j,
{
    match j {
        JsonV::Null => seq![110u8, 117u8, 108u8, 108u8],
        JsonV::Bool(b) => if b {
            seq![116u8, 114u8, 117u8, 101u8]
        } else {
            seq![102u8, 97u8, 108u8, 115u8, 101u8]
        },
        JsonV::Int(i) => ser_int(i),
        JsonV::Num(s) => encode_utf8(s),
        JsonV::Text(s) => ser_text(s),
        JsonV::Arr(elems) => seq![91u8] + ser_elems(elems) + seq![93u8],
        JsonV::Obj(members) => seq![123u8] + ser_members(members) + seq![125u8],
    }
}

/// The serialization of array elements, comma-separated.
pub open spec fn ser_elems(s: Seq<JsonV>) -> Seq<u8>
    decreases s,
{
    if s.len() == 0 {
        Seq::empty()
    } else if s.len() == 1 {
        ser_json(s[0])
    } else {
        ser_elems(s.drop_last()) + seq![44u8] + ser_json(s.last())
    }
}

/// The serialization of object members, comma-separated `"key":value` pairs.
pub open spec fn ser_members(s: Seq<(Seq<char>, JsonV)>) -> Seq<u8>
    decreases s,
{
    if s.len() == 0 {
        Seq::empty()
    } else if s.len() == 1 {
        ser_member(s[0])
    } else {
        ser_members(s.drop_last()) + seq![44u8] + ser_member(s.last())
    }
}

/// The serialization of one object member.
pub open spec fn ser_member(m: (Seq<char>, JsonV)) -> Seq<u8>
    decreases m,
{
    ser_text(m.0) + seq![58u8] + ser_json(m.1)
}

/// Appends the decimal digits of `n`.
fn write_dec(n: u64, out: &mut Vec<u8>)
    ensures
        final(out)@ == old(out)@ + dec_digits(n as int),
    decreases n,
{
    if n < 10 {
        out.push((48 + n) as u8);
    } else {
        write_dec(n / 10, out);
        out.push((48 + (n % 10)) as u8);
    }
}

/// Appends the serialization of an integer.
fn write_int(i: i64, out: &mut Vec<u8>)
    ensures
        final(out)@ == old(out)@ + ser_int(i as int),
{
    if i < 0 {
        out.push(45u8);
        let mag: u64 = ((-(i + 1)) as u64) + 1;
        write_dec(mag, out);
        proof {
            assert(out@ =~= old(out)@ + ser_int(i as int));
        }
    } else {
        write_dec(i as u64, out);
    }
}

/// Appends the quoted, escaped serialization of string content.
fn write_quoted(s: &str, out: &mut Vec<u8>)
    ensures
        final(out)@ == old(out)@ + ser_text(s@),
{
    let bv = s.as_bytes_vec();
    out.push(34u8);
    let ghost start = out@;
    let mut i: usize = 0;
    while i < bv.len()
        invariant
            i <= bv.len(),
            out@ == start + esc_bytes(bv@.subrange(0, i as int)),
        decreases bv.len() - i,
    {
        let b = bv[i];
        if b == 34 {
            out.push(92u8);
            out.push(34u8);
        } else if b == 92 {
            out.push(92u8);
            out.push(92u8);
        } else if b == 0x08 {
            out.push(92u8);
            out.push(98u8);
        } else if b == 0x0c {
            out.push(92u8);
            out.push(102u8);
        } else if b == 0x0a {
            out.push(92u8);
            out.push(110u8);
        } else if b == 0x0d {
            out.push(92u8);
            out.push(114u8);
        } else if b == 0x09 {
            out.push(92u8);
            out.push(116u8);
        } else if b < 0x20 {
            out.push(92u8);
            out.push(117u8);
            out.push(48u8);
            out.push(48u8);
            let hi = b / 16;
            let lo = b % 16;
            out.push(if hi < 10 { 48 + hi } else { 87 + hi });
            out.push(if lo < 10 { 48 + lo } else { 87 + lo });
        } else {
            out.push(b);
        }
        proof {
            let pre = bv@.subrange(0, i as int);
            let cur = bv@.subrange(0, i + 1 as int);
            assert(cur.drop_last() =~= pre);
            assert(cur.last() == bv@[i as int]);
            assert(out@ =~= start + esc_bytes(cur));
        }
        i = i + 1;
    }
    out.push(34u8);
    proof {
        assert(bv@.subrange(0, bv@.len() as int) =~= bv@);
        assert(out@ =~= old(out)@ + ser_text(s@));
    }
}

/// Appends the raw bytes of a verbatim number literal.
fn write_raw(s: &str, out: &mut Vec<u8>)
    ensures
        final(out)@ == old(out)@ + encode_utf8(s@),
{
    let bv = s.as_bytes_vec();
    let mut i: usize = 0;
    while i < bv.len()
        invariant
            i <= bv.len(),
            out@ == old(out)@ + bv@.subrange(0, i as int),
        decreases bv.len() - i,
    {
        out.push(bv[i]);
        proof {
            assert(bv@.subrange(0, i + 1 as int) =~= bv@.subrange(0, i as int).push(bv@[i as int]));
        }
        i = i + 1;
    }
    proof {
        assert(bv@.subrange(0, bv@.len() as int) =~= bv@);
    }
}

/// Appends the canonical serialization of a JSON value.
#[verifier::loop_isolation(false)]
fn write_json(j: &Json, out: &mut Vec<u8>)
    ensures
        final(out)@ == old(out)@ + ser_json(jview(*j)),
    decreases *j,
{
    match j {
        Json::Null => {
            out.push(110u8);
            out.push(117u8);
            out.push(108u8);
            out.push(108u8);
            proof {
                assert(out@ =~= old(out)@ + ser_json(JsonV::Null));
            }
        },
        Json::Bool(b) => {
            if *b {
                out.push(116u8);
                out.push(114u8);
                out.push(117u8);
                out.push(101u8);
            } else {
                out.push(102u8);
                out.push(97u8);
                out.push(108u8);
                out.push(115u8);
                out.push(101u8);
            }
            proof {
                assert(out@ =~= old(out)@ + ser_json(JsonV::Bool(*b)));
            }
        },
        Json::Int(i) => {
            write_int(*i, out);
        },
        Json::Num(s) => {
            write_raw(s.as_str(), out);
        },
        Json::Text(s) => {
            write_quoted(s.as_str(), out);
        },
        Json::Arr(v) => {
            out.push(91u8);
            let ghost vs = jview_elems(v@);
            let ghost start = out@;
            proof {
                lemma_jview_elems(v@);
            }
            let mut i: usize = 0;
            while i < v.len()
                invariant
                    i <= v.len(),
                    vs == jview_elems(v@),
                    vs.len() == v@.len(),
                    forall|k: int| 0 <= k < v@.len() ==> #[trigger] vs[k] == jview(v@[k]),
                    out@ == start + ser_elems(vs.subrange(0, i as int)),
                decreases v.len() - i,
            {
                if i > 0 {
                    out.push(44u8);
                }
                write_json(&v[i], out);
                proof {
                    let cur = vs.subrange(0, i + 1 as int);
                    assert(cur.last() == vs[i as int]);
                    if i == 0 {
                        assert(cur.len() == 1);
                        assert(cur[0] == vs[0]);
                    } else {
                        assert(cur.drop_last() =~= vs.subrange(0, i as int));
                    }
                    assert(out@ =~= start + ser_elems(cur));
                }
                i = i + 1;
            }
            out.push(93u8);
            proof {
                assert(vs.subrange(0, vs.len() as int) =~= vs);
                assert(out@ =~= old(out)@ + ser_json(jview(*j)));
            }
        },
        Json::Obj(m) => {
            out.push(123u8);
            let ghost ms = jview_members(m@);
            let ghost start = out@;
            proof {
                lemma_jview_members(m@);
            }
            let mut i: usize = 0;
            while i < m.len()
                invariant
                    i <= m.len(),
                    ms == jview_members(m@),
                    ms.len() == m@.len(),
                    forall|k: int|
                        0 <= k < m@.len() ==> #[trigger] ms[k] == (m@[k].0@, jview(m@[k].1)),
                    out@ == start + ser_members(ms.subrange(0, i as int)),
                decreases m.len() - i,
            {
                if i > 0 {
                    out.push(44u8);
                }
                write_quoted(m[i].0.as_str(), out);
                out.push(58u8);
                write_json(&m[i].1, out);
                proof {
                    let cur = ms.subrange(0, i + 1 as int);
                    assert(cur.last() == ms[i as int]);
                    assert(ser_member(ms[i as int]) == ser_text(m@[i as int].0@) + seq![58u8]
                        + ser_json(jview(m@[i as int].1)));
                    if i == 0 {
                        assert(cur.len() == 1);
                        assert(cur[0] == ms[0]);
                    } else {
                        assert(cur.drop_last() =~= ms.subrange(0, i as int));
                    }
                    assert(out@ =~= start + ser_members(cur));
                }
                i = i + 1;
            }
            out.push(125u8);
            proof {
                assert(ms.subrange(0, ms.len() as int) =~= ms);
                assert(out@ =~= old(out)@ + ser_json(jview(*j)));
            }
        },
    }
}

/// The canonical byte serialization of a JSON value.
pub fn to_json_bytes(j: &Json) -> (out: Vec<u8>)
    ensures
        out@ == ser_json(j@),
{
    let mut out: Vec<u8> = Vec::new();
    write_json(j, &mut out);
    out
}

pub proof fn lemma_jview_elems_push(s: Seq<Json>, x: Json)
    ensures
        jview_elems(s.push(x)) == jview_elems(s).push(jview(x)),
    decreases s.len(),
{
    if s.len() == 0 {
        assert(s.push(x).drop_first() =~= Seq::<Json>::empty());
        assert(jview_elems(Seq::<Json>::empty()) == Seq::<JsonV>::empty());
        assert(jview_elems(s.push(x)) =~= jview_elems(s).push(jview(x)));
    } else {
        assert(s.push(x).drop_first() =~= s.drop_first().push(x));
        lemma_jview_elems_push(s.drop_first(), x);
        assert(jview_elems(s.push(x)) =~= jview_elems(s).push(jview(x)));
    }
}

pub proof fn lemma_jview_members_push(s: Seq<(String, Json)>, x: (String, Json))
    ensures
        jview_members(s.push(x)) == jview_members(s).push((x.0@, jview(x.1))),
    decreases s.len(),
{
    if s.len() == 0 {
        assert(s.push(x).drop_first() =~= Seq::<(String, Json)>::empty());
        assert(jview_members(Seq::<(String, Json)>::empty()) == Seq::<(Seq<char>, JsonV)>::empty());
        assert(jview_members(s.push(x)) =~= jview_members(s).push((x.0@, jview(x.1))));
    } else {
        assert(s.push(x).drop_first() =~= s.drop_first().push(x));
        lemma_jview_members_push(s.drop_first(), x);
        assert(jview_members(s.push(x)) =~= jview_members(s).push((x.0@, jview(x.1))));
    }
}

/// A deep copy of a JSON value, with the same view.
#[verifier::loop_isolation(false)]
pub fn clone_json(j: &Json) -> (r: Json)
    ensures
        jview(r) == jview(*j),
    decreases *j,
{
    match j {
        Json::Null => Json::Null,
        Json::Bool(b) => Json::Bool(*b),
        Json::Int(i) => Json::Int(*i),
        Json::Num(s) => Json::Num(s.clone()),
        Json::Text(s) => Json::Text(s.clone()),
        Json::Arr(v) => {
            let mut out: Vec<Json> = Vec::new();
            let mut i: usize = 0;
            while i < v.len()
                invariant
                    i <= v@.len(),
                    jview_elems(out@) == jview_elems(v@.subrange(0, i as int)),
                decreases v@.len() - i,
            {
                let ghost pre = out@;
                let c = clone_json(&v[i]);
                out.push(c);
                proof {
                    lemma_jview_elems_push(pre, c);
                    lemma_jview_elems_push_general(v@, i as int);
                }
                i = i + 1;
            }
            proof {
                assert(v@.subrange(0, v@.len() as int) =~= v@);
            }
            Json::Arr(out)
        },
        Json::Obj(m) => {
            let mut out: Vec<(String, Json)> = Vec::new();
            let mut i: usize = 0;
            while i < m.len()
                invariant
                    i <= m@.len(),
                    jview_members(out@) == jview_members(m@.subrange(0, i as int)),
                decreases m@.len() - i,
            {
                let ghost pre = out@;
                let k = m[i].0.clone();
                let c = clone_json(&m[i].1);
                out.push((k, c));
                proof {
                    lemma_jview_members_push(pre, (k, c));
                    lemma_jview_members_push_general(m@, i as int);
                }
                i = i + 1;
            }
            proof {
                assert(m@.subrange(0, m@.len() as int) =~= m@);
            }
            Json::Obj(out)
        },
    }
}

/// Extending the viewed prefix by one element extends its views by one.
pub proof fn lemma_jview_elems_push_general(s: Seq<Json>, i: int)
    requires
        0 <= i < s.len(),
    ensures
        jview_elems(s.subrange(0, i + 1)) == jview_elems(s.subrange(0, i)).push(jview(s[i])),
{
    assert(s.subrange(0, i + 1) =~= s.subrange(0, i).push(s[i]));
    lemma_jview_elems_push(s.subrange(0, i), s[i]);
}

/// Extending the viewed prefix by one member extends its views by one.
pub proof fn lemma_jview_members_push_general(s: Seq<(String, Json)>, i: int)
    requires
        0 <= i < s.len(),
    ensures
        jview_members(s.subrange(0, i + 1)) == jview_members(s.subrange(0, i)).push(
            (s[i].0@, jview(s[i].1)),
        ),
{
    assert(s.subrange(0, i + 1) =~= s.subrange(0, i).push(s[i]));
    lemma_jview_members_push(s.subrange(0, i), s[i]);
}

} // verus!
