//! The error taxonomy of the client.
//!
//! Failures are layered: local validation before any I/O, transport
//! failures, a non-success HTTP status from the remote service, and a
//! malformed JSON payload inside an otherwise valid frame.

use crate::text::{ascii_lower, lower_chars};
use vstd::prelude::*;

verus! {

/// Why a frame payload failed to decode: the JSON text itself is
/// malformed, or it parsed but does not fit the chunk record.
#[derive(Debug, Clone, Copy, PartialEq, Eq, Structural)]
pub enum DecodeCause {
    MalformedJson,
    UnexpectedShape,
}

impl DecodeCause {
    /// The cause in words, for diagnostics.
    pub fn text(&self) -> (r: String)
        ensures
            r@ == (match self {
                DecodeCause::MalformedJson => "malformed JSON"@,
                DecodeCause::UnexpectedShape => "JSON of an unexpected shape"@,
            }),
    {
        match self {
            DecodeCause::MalformedJson => String::from_str("malformed JSON"),
            DecodeCause::UnexpectedShape => String::from_str("JSON of an unexpected shape"),
        }
    }
}

/// The mathematical view of a [`GenAiError`] value.
pub enum ErrView {
    LocalValidation { message: Seq<char> },
    Transport { message: Seq<char> },
    Remote { status: u16, message: Seq<char>, headers: Seq<(Seq<char>, Seq<char>)> },
    PayloadDecode { raw: Seq<u8>, cause: DecodeCause },
}

/// Error variants returned by the client.
#[derive(Debug, Clone, PartialEq, Eq)]
pub enum GenAiError {
    /// Invalid caller input, detected before any request is sent.
    LocalValidation { message: String },
    /// A transport-level failure, before or during streaming.
    Transport { message: String },
    /// A non-success HTTP status from the remote service, with its body and
    /// its header map.  Header names are lowercase and unique; of repeated
    /// names the last value is kept.
    Remote { status: u16, message: String, headers: Vec<(String, String)> },
    /// A frame whose JSON payload did not decode; carries the raw payload
    /// and the parse cause.
    PayloadDecode { raw: Vec<u8>, cause: DecodeCause },
}

impl View for GenAiError {
    type V = ErrView;

    open spec fn view(&self) -> ErrView {
        match self {
            GenAiError::LocalValidation { message } => ErrView::LocalValidation {
                message: message@,
            },
            GenAiError::Transport { message } => ErrView::Transport { message: message@ },
            GenAiError::Remote { status, message, headers } => ErrView::Remote {
                status: *status,
                message: message@,
                headers: headers@.map_values(|p: (String, String)| (p.0@, p.1@)),
            },
            GenAiError::PayloadDecode { raw, cause } => ErrView::PayloadDecode {
                raw: raw@,
                cause: *cause,
            },
        }
    }
}

/// The views of a header list.
pub open spec fn headers_view(hs: Seq<(String, String)>) -> Seq<(Seq<char>, Seq<char>)> {
    hs.map_values(|p: (String, String)| (p.0@, p.1@))
}

/// One binding written into a header map: the first entry carrying the
/// name gets the new value; a fresh name is appended.
pub open spec fn header_update(
    acc: Seq<(Seq<char>, Seq<char>)>,
    k: Seq<char>,
    v: Seq<char>,
) -> Seq<(Seq<char>, Seq<char>)>
    decreases acc.len(),
{
    if acc.len() == 0 {
        seq![(k, v)]
    } else if acc[0].0 == k {
        seq![(k, v)] + acc.drop_first()
    } else {
        seq![acc[0]] + header_update(acc.drop_first(), k, v)
    }
}

/// The header map built from a header list, starting from `acc`: names
/// lowercased, one entry per name in order of first appearance, later
/// occurrences overwriting earlier values.
pub open spec fn header_map_from(
    acc: Seq<(Seq<char>, Seq<char>)>,
    hs: Seq<(Seq<char>, Seq<char>)>,
) -> Seq<(Seq<char>, Seq<char>)>
    decreases hs.len(),
{
    if hs.len() == 0 {
        acc
    } else {
        header_map_from(header_update(acc, lower_chars(hs[0].0), hs[0].1), hs.drop_first())
    }
}

/// The lower-cased header map of a header list.
pub open spec fn header_map(hs: Seq<(Seq<char>, Seq<char>)>) -> Seq<(Seq<char>, Seq<char>)> {
    header_map_from(Seq::empty(), hs)
}

/// Whether some entry carries the given name.
pub open spec fn has_name(hs: Seq<(Seq<char>, Seq<char>)>, n: Seq<char>) -> bool {
    exists|i: int| 0 <= i < hs.len() && hs[i].0 == n
}

/// Whether every entry carries a name of its own.
pub open spec fn unique_names(hs: Seq<(Seq<char>, Seq<char>)>) -> bool {
    forall|i: int, j: int| 0 <= i < j < hs.len() ==> hs[i].0 != hs[j].0
}

/// Writing one binding keeps the names unique and adds at most the
/// written name.
proof fn lemma_header_update_unique(acc: Seq<(Seq<char>, Seq<char>)>, k: Seq<char>, v: Seq<char>)
    requires
        unique_names(acc),
    ensures
        unique_names(header_update(acc, k, v)),
        forall|n: Seq<char>|
            #[trigger] has_name(header_update(acc, k, v), n) <==> (has_name(acc, n) || n == k),
    decreases acc.len(),
{
    let r = header_update(acc, k, v);
    if acc.len() == 0 {
        assert forall|n: Seq<char>| #[trigger] has_name(r, n) <==> (has_name(acc, n) || n == k) by {
            if n == k {
                assert(r[0].0 == n);
            }
            if has_name(r, n) {
                let i = choose|i: int| 0 <= i < r.len() && r[i].0 == n;
                assert(i == 0);
            }
        }
    } else if acc[0].0 == k {
        assert(r =~= seq![(k, v)] + acc.drop_first());
        assert forall|i: int, j: int| 0 <= i < j < r.len() implies r[i].0 != r[j].0 by {
            assert(r[j] == acc[j]);
            if i > 0 {
                assert(r[i] == acc[i]);
            }
        }
        assert forall|n: Seq<char>| #[trigger] has_name(r, n) <==> (has_name(acc, n) || n == k) by {
            if has_name(r, n) {
                let i = choose|i: int| 0 <= i < r.len() && r[i].0 == n;
                if i == 0 {
                    assert(acc[0].0 == n);
                } else {
                    assert(acc[i].0 == n);
                }
            }
            if has_name(acc, n) {
                let i = choose|i: int| 0 <= i < acc.len() && acc[i].0 == n;
                if i == 0 {
                    assert(r[0].0 == n);
                } else {
                    assert(r[i].0 == n);
                }
            }
            if n == k {
                assert(r[0].0 == n);
            }
        }
    } else {
        let tail = acc.drop_first();
        assert forall|i: int, j: int| 0 <= i < j < tail.len() implies tail[i].0 != tail[j].0 by {
            assert(acc[i + 1].0 != acc[j + 1].0);
        }
        lemma_header_update_unique(tail, k, v);
        let rt = header_update(tail, k, v);
        assert(r == seq![acc[0]] + rt);
        assert forall|n: Seq<char>| #[trigger] has_name(r, n) <==> (has_name(acc, n) || n == k) by {
            if has_name(r, n) {
                let i = choose|i: int| 0 <= i < r.len() && r[i].0 == n;
                if i == 0 {
                    assert(acc[0].0 == n);
                } else {
                    assert(rt[i - 1].0 == n);
                    assert(has_name(rt, n));
                }
            }
            if has_name(acc, n) {
                let i = choose|i: int| 0 <= i < acc.len() && acc[i].0 == n;
                if i == 0 {
                    assert(r[0].0 == n);
                } else {
                    assert(tail[i - 1].0 == n);
                    assert(has_name(tail, n));
                    assert(has_name(rt, n));
                    let m = choose|m: int| 0 <= m < rt.len() && rt[m].0 == n;
                    assert(r[m + 1] == rt[m]);
                    assert(r[m + 1].0 == n);
                }
            }
            if n == k {
                assert(has_name(rt, n));
                let m = choose|m: int| 0 <= m < rt.len() && rt[m].0 == n;
                assert(r[m + 1] == rt[m]);
                assert(r[m + 1].0 == n);
            }
        }
        assert forall|i: int, j: int| 0 <= i < j < r.len() implies r[i].0 != r[j].0 by {
            if i == 0 {
                assert(rt[j - 1].0 == r[j].0);
                assert(has_name(rt, r[j].0) ==> (has_name(tail, r[j].0) || r[j].0 == k));
                if r[0].0 == r[j].0 {
                    assert(has_name(rt, r[0].0));
                    if has_name(tail, r[0].0) {
                        let m = choose|m: int| 0 <= m < tail.len() && tail[m].0 == r[0].0;
                        assert(acc[m + 1].0 == acc[0].0);
                    }
                }
            } else {
                assert(r[i].0 == rt[i - 1].0 && r[j].0 == rt[j - 1].0);
            }
        }
    }
}

/// The header map carries each name at most once: it is a map.
pub proof fn lemma_header_map_unique(hs: Seq<(Seq<char>, Seq<char>)>)
    ensures
        unique_names(header_map(hs)),
{
    lemma_header_map_from_unique(Seq::empty(), hs);
}

proof fn lemma_header_map_from_unique(
    acc: Seq<(Seq<char>, Seq<char>)>,
    hs: Seq<(Seq<char>, Seq<char>)>,
)
    requires
        unique_names(acc),
    ensures
        unique_names(header_map_from(acc, hs)),
    decreases hs.len(),
{
    if hs.len() > 0 {
        lemma_header_update_unique(acc, lower_chars(hs[0].0), hs[0].1);
        lemma_header_map_from_unique(
            header_update(acc, lower_chars(hs[0].0), hs[0].1),
            hs.drop_first(),
        );
    }
}

/// Writing a name that the map already holds updates its first (and only)
/// entry in place.
proof fn lemma_header_update_hit(
    acc: Seq<(Seq<char>, Seq<char>)>,
    k: Seq<char>,
    v: Seq<char>,
    idx: int,
)
    requires
        0 <= idx < acc.len(),
        acc[idx].0 == k,
        forall|m: int| 0 <= m < idx ==> acc[m].0 != k,
    ensures
        header_update(acc, k, v) == acc.update(idx, (k, v)),
    decreases idx,
{
    if idx == 0 {
        assert(header_update(acc, k, v) =~= acc.update(0, (k, v)));
    } else {
        let tail = acc.drop_first();
        assert(tail[idx - 1].0 == k);
        assert(forall|m: int| 0 <= m < idx - 1 ==> #[trigger] tail[m].0 == acc[m + 1].0);
        lemma_header_update_hit(tail, k, v, idx - 1);
        assert(header_update(acc, k, v) =~= acc.update(idx, (k, v)));
    }
}

/// Writing a fresh name appends it.
proof fn lemma_header_update_miss(acc: Seq<(Seq<char>, Seq<char>)>, k: Seq<char>, v: Seq<char>)
    requires
        forall|m: int| 0 <= m < acc.len() ==> (#[trigger] acc[m].0) != k,
    ensures
        header_update(acc, k, v) == acc.push((k, v)),
    decreases acc.len(),
{
    if acc.len() == 0 {
        assert(header_update(acc, k, v) =~= acc.push((k, v)));
    } else {
        let tail = acc.drop_first();
        assert(forall|m: int| 0 <= m < tail.len() ==> #[trigger] tail[m].0 == acc[m + 1].0);
        lemma_header_update_miss(tail, k, v);
        assert(header_update(acc, k, v) =~= acc.push((k, v)));
    }
}

impl GenAiError {
    /// Builds the error for a non-success HTTP status, from the status code,
    /// the response headers and the response body.  The headers become a
    /// map: names case-normalized to lowercase and unique, entries in order
    /// of first appearance, a repeated name keeping its last value.
    pub fn from_response(status: u16, headers: Vec<(String, String)>, body: String) -> (r:
        GenAiError)
        ensures
            r@ matches ErrView::Remote { status: s, message: m, headers: h }
                && s == status
                && m == body@
                && h == header_map(headers_view(headers@)),
    {
        let ghost full = headers_view(headers@);
        let mut lowered: Vec<(String, String)> = Vec::new();
        let mut i: usize = 0;
        proof {
            assert(full.skip(0) =~= full);
        }
        while i < headers.len()
            invariant
                i <= headers.len(),
                full == headers_view(headers@),
                header_map_from(headers_view(lowered@), full.skip(i as int)) == header_map(full),
            decreases headers.len() - i,
        {
            let ghost acc = headers_view(lowered@);
            let name = ascii_lower(headers[i].0.as_str());
            let value = headers[i].1.clone();
            proof {
                assert(full.skip(i as int)[0] == full[i as int]);
                assert(full[i as int] == (headers@[i as int].0@, headers@[i as int].1@));
                assert(full.skip(i as int).drop_first() =~= full.skip(i + 1 as int));
            }
            let mut j: usize = 0;
            let mut found = false;
            while j < lowered.len() && !found
                invariant
                    j <= lowered@.len(),
                    acc == headers_view(lowered@),
                    acc.len() == lowered@.len(),
                    forall|m: int|
                        0 <= m < lowered@.len() ==> #[trigger] acc[m] == (
                            lowered@[m].0@,
                            lowered@[m].1@,
                        ),
                    name@ == lower_chars(headers@[i as int].0@),
                    !found ==> forall|m: int| 0 <= m < j ==> (#[trigger] acc[m].0) != name@,
                    found ==> j < lowered@.len() && acc[j as int].0 == name@ && (forall|m: int|
                        0 <= m < j ==> (#[trigger] acc[m].0) != name@),
                decreases lowered@.len() - j + (if found {
                    0int
                } else {
                    1int
                }),
            {
                if lowered[j].0 == name {
                    found = true;
                } else {
                    j = j + 1;
                }
            }
            if found {
                lowered.set(j, (name, value));
                proof {
                    lemma_header_update_hit(acc, name@, value@, j as int);
                    assert(headers_view(lowered@) =~= acc.update(j as int, (name@, value@)));
                }
            } else {
                lowered.push((name, value));
                proof {
                    lemma_header_update_miss(acc, name@, value@);
                    assert(headers_view(lowered@) =~= acc.push((name@, value@)));
                }
            }
            i = i + 1;
        }
        proof {
            assert(full.skip(headers@.len() as int).len() == 0);
        }
        GenAiError::Remote { status, message: body, headers: lowered }
    }
}

} // verus!
