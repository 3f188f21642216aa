//! The SSE frame decoder.
//!
//! Raw bytes arrive in chunks of arbitrary size; the decoder buffers them
//! and cuts out frames at blank-line boundaries (`"\n\n"`).  The
//! specification functions [`frames_of`] and [`rest_of`] describe the
//! complete frames and the buffered tail of any byte sequence, and
//! [`lemma_frames_chunking`] states that decoding is independent of how the
//! stream was chunked.  Within a frame, [`frame_data`] gives the joined
//! `data:` field contents.

use vstd::prelude::*;

verus! {

broadcast use vstd::seq::group_seq_axioms, vstd::std_specs::vec::group_vec_axioms;

/// The first position at or after `i` where a blank-line boundary
/// (`"\n\n"`) starts, or -1.
pub open spec fn boundary_from(s: Seq<u8>, i: int) -> int
    decreases s.len() - i,
{
    if i < 0 || i + 2 > s.len() {
        -1
    } else if s[i] == 10 && s[i + 1] == 10 {
        i
    } else {
        boundary_from(s, i + 1)
    }
}

pub proof fn lemma_boundary_from(s: Seq<u8>, i: int)
    requires
        0 <= i,
    ensures
        boundary_from(s, i) == -1 || (i <= boundary_from(s, i) && boundary_from(s, i) + 2
            <= s.len()),
    decreases s.len() - i,
{
    if i + 2 <= s.len() && !(s[i] == 10 && s[i + 1] == 10) {
        lemma_boundary_from(s, i + 1);
    }
}

/// Scanning a longer sequence finds the same boundary, as long as one lies
/// inside the prefix.
pub proof fn lemma_boundary_append(s: Seq<u8>, t: Seq<u8>, i: int)
    requires
        0 <= i,
        boundary_from(s, i) >= 0,
    ensures
        boundary_from(s + t, i) == boundary_from(s, i),
    decreases s.len() - i,
{
    lemma_boundary_from(s, i);
    if i + 2 <= s.len() && !(s[i] == 10 && s[i + 1] == 10) {
        lemma_boundary_append(s, t, i + 1);
    }
}

/// The complete frames of a byte sequence, in order: the contents between
/// blank-line boundaries, each without its terminator.
pub open spec fn frames_of(s: Seq<u8>) -> Seq<Seq<u8>>
    decreases s.len(),
    when true
    via frames_of_dec
{
    let b = boundary_from(s, 0);
    if b < 0 {
        Seq::empty()
    } else {
        seq![s.subrange(0, b)] + frames_of(s.subrange(b + 2, s.len() as int))
    }
}

#[via_fn]
proof fn frames_of_dec(s: Seq<u8>) {
    lemma_boundary_from(s, 0);
}

/// The buffered tail of a byte sequence: what follows its last complete
/// frame.
pub open spec fn rest_of(s: Seq<u8>) -> Seq<u8>
    decreases s.len(),
    when true
    via rest_of_dec
{
    let b = boundary_from(s, 0);
    if b < 0 {
        s
    } else {
        rest_of(s.subrange(b + 2, s.len() as int))
    }
}

#[via_fn]
proof fn rest_of_dec(s: Seq<u8>) {
    lemma_boundary_from(s, 0);
}

/// Frame decoding is independent of transport chunking: the frames of a
/// whole stream are the frames of any prefix followed by the frames of the
/// prefix's buffered tail joined with the remainder, and the buffered tails
/// agree as well.  Feeding bytes chunk by chunk therefore yields exactly
/// the frames of the concatenated stream, wherever the cuts fall.
pub proof fn lemma_frames_chunking(s: Seq<u8>, t: Seq<u8>)
    ensures
        frames_of(s + t) =~~= frames_of(s) + frames_of(rest_of(s) + t),
        rest_of(s + t) == rest_of(rest_of(s) + t),
    decreases s.len(),
{
    let b = boundary_from(s, 0);
    lemma_boundary_from(s, 0);
    if b < 0 {
        assert(rest_of(s) == s);
        assert(frames_of(s) =~~= Seq::<Seq<u8>>::empty());
        assert(rest_of(s) + t =~= s + t);
    } else {
        lemma_boundary_append(s, t, 0);
        let sub = s.subrange(b + 2, s.len() as int);
        assert((s + t).subrange(b + 2, (s + t).len() as int) =~= sub + t);
        assert((s + t).subrange(0, b) =~= s.subrange(0, b));
        lemma_frames_chunking(sub, t);
        assert(frames_of(s + t) =~~= frames_of(s) + frames_of(rest_of(s) + t));
    }
}

/// The first position at or after `i` holding a newline, or -1.
pub open spec fn nl_from(s: Seq<u8>, i: int) -> int
    decreases s.len() - i,
{
    if i < 0 || i >= s.len() {
        -1
    } else if s[i] == 10 {
        i
    } else {
        nl_from(s, i + 1)
    }
}

pub proof fn lemma_nl_from(s: Seq<u8>, i: int)
    requires
        0 <= i,
    ensures
        nl_from(s, i) == -1 || (i <= nl_from(s, i) && nl_from(s, i) < s.len()),
    decreases s.len() - i,
{
    if i < s.len() && s[i] != 10 {
        lemma_nl_from(s, i + 1);
    }
}

/// Whether a frame line carries the `data:` field.
pub open spec fn is_data_line(l: Seq<u8>) -> bool {
    l.len() >= 5 && l[0] == 100 && l[1] == 97 && l[2] == 116 && l[3] == 97 && l[4] == 58
}

/// The content of a `data:` line: the prefix and at most one following
/// space stripped.
pub open spec fn data_content(l: Seq<u8>) -> Seq<u8> {
    if l.len() > 5 && l[5] == 32 {
        l.subrange(6, l.len() as int)
    } else {
        l.subrange(5, l.len() as int)
    }
}

/// The data of one line: its content for a `data:` line, nothing for any
/// other line (comments and unrecognized fields are ignored).
pub open spec fn line_data(l: Seq<u8>) -> Option<Seq<u8>> {
    if is_data_line(l) {
        Some(data_content(l))
    } else {
        None
    }
}

/// Joins the data of a line with the data of the following lines, with a
/// newline between two present parts.
pub open spec fn merge_data(d: Option<Seq<u8>>, r: Option<Seq<u8>>) -> Option<Seq<u8>> {
    match (d, r) {
        (Option::None, r) => r,
        (Option::Some(x), Option::None) => Some(x),
        (Option::Some(x), Option::Some(y)) => Some(x + seq![10u8] + y),
    }
}

/// The accumulated `data:` content of a frame: the contents of its `data:`
/// lines joined with newlines, or nothing when the frame has no such line.
pub open spec fn frame_data(f: Seq<u8>) -> Option<Seq<u8>>
    decreases f.len(),
    when true
    via frame_data_dec
{
    let b = nl_from(f, 0);
    if b < 0 {
        line_data(f)
    } else {
        merge_data(line_data(f.subrange(0, b)), frame_data(f.subrange(b + 1, f.len() as int)))
    }
}

#[via_fn]
proof fn frame_data_dec(f: Seq<u8>) {
    lemma_nl_from(f, 0);
}

/// Copies the bytes `s[i..j)`.
fn subvec(s: &[u8], i: usize, j: usize) -> (v: Vec<u8>)
    requires
        i <= j <= s@.len(),
    ensures
        v@ == s@.subrange(i as int, j as int),
{
    let mut v: Vec<u8> = Vec::new();
    let mut k: usize = i;
    while k < j
        invariant
            i <= k <= j <= s@.len(),
            v@ == s@.subrange(i as int, k as int),
        decreases j - k,
    {
        v.push(s[k]);
        proof {
            assert(s@.subrange(i as int, k + 1 as int) =~= s@.subrange(i as int, k as int).push(
                s@[k as int],
            ));
        }
        k = k + 1;
    }
    v
}

/// A copy of a whole byte slice.
pub(crate) fn to_vec(s: &[u8]) -> (v: Vec<u8>)
    ensures
        v@ == s@,
{
    let v = subvec(s, 0, s.len());
    proof {
        assert(s@.subrange(0, s@.len() as int) =~= s@);
    }
    v
}

/// The first newline position at or after `i`.
fn find_nl(s: &[u8], i: usize) -> (r: Option<usize>)
    requires
        i <= s@.len(),
    ensures
        (match r {
            Some(b) => b as int == nl_from(s@, i as int) && i <= b < s@.len(),
            None => nl_from(s@, i as int) == -1,
        }),
    decreases s@.len() - i,
{
    if i >= s.len() {
        None
    } else if s[i] == 10 {
        Some(i)
    } else {
        find_nl(s, i + 1)
    }
}

/// The joined `data:` content of one frame, as [`frame_data`] gives it.
fn frame_data_at(f: &[u8]) -> (r: Option<Vec<u8>>)
    ensures
        (match frame_data(f@) {
            Some(d) => r matches Some(v) && v@ == d,
            None => r is None,
        }),
    decreases f@.len(),
{
    let nl = find_nl(f, 0);
    let line_end = match nl {
        Some(b) => b,
        None => f.len(),
    };
    let ghost line = if nl is Some {
        f@.subrange(0, line_end as int)
    } else {
        f@
    };
    let is_data = line_end >= 5 && f[0] == 100 && f[1] == 97 && f[2] == 116 && f[3] == 97 && f[4]
        == 58;
    let mut head: Option<Vec<u8>> = None;
    if is_data {
        let start = if line_end > 5 && f[5] == 32 {
            6
        } else {
            5
        };
        head = Some(subvec(f, start, line_end));
        proof {
            if line_end > 5 && f@[5] == 32 {
                assert(line.subrange(6, line.len() as int) =~= f@.subrange(6, line_end as int));
            } else {
                assert(line.subrange(5, line.len() as int) =~= f@.subrange(5, line_end as int));
            }
        }
    }
    proof {
        assert(line_data(line) == (match head {
            Some(v) => Some(v@),
            None => None::<Seq<u8>>,
        }));
    }
    match nl {
        None => head,
        Some(b) => {
            let rest = frame_data_at(&f[b + 1..f.len()]);
            proof {
                assert(f@.subrange(b + 1 as int, f@.len() as int) == f@.subrange(
                    b + 1 as int,
                    f@.len() as int,
                ));
            }
            match (head, rest) {
                (None, r) => r,
                (Some(x), None) => Some(x),
                (Some(x), Some(y)) => {
                    let ghost xs = x@;
                    let mut out = x;
                    out.push(10u8);
                    let mut k: usize = 0;
                    while k < y.len()
                        invariant
                            k <= y@.len(),
                            out@ == xs + seq![10u8] + y@.subrange(0, k as int),
                        decreases y@.len() - k,
                    {
                        out.push(y[k]);
                        proof {
                            assert(xs + seq![10u8] + y@.subrange(0, k + 1 as int) =~= (xs + seq![
                                10u8,
                            ] + y@.subrange(0, k as int)).push(y@[k as int]));
                        }
                        k = k + 1;
                    }
                    proof {
                        assert(y@.subrange(0, y@.len() as int) =~= y@);
                        assert(out@ == xs + seq![10u8] + y@);
                    }
                    Some(out)
                },
            }
        },
    }
}

/// The views of a sequence of byte vectors.
pub open spec fn vv_view(v: Seq<Vec<u8>>) -> Seq<Seq<u8>> {
    v.map_values(|x: Vec<u8>| x@)
}

/// The incremental SSE frame decoder: buffers bytes across chunk arrivals
/// and emits each frame exactly once, as soon as its blank-line terminator
/// has arrived.
pub struct FrameDecoder {
    buf: Vec<u8>,
    hist: Ghost<Seq<u8>>,
}

impl FrameDecoder {
    /// The decoder's buffer holds exactly the tail of everything fed so
    /// far, after the last complete frame.
    pub closed spec fn wf(&self) -> bool {
        self.buf@ == rest_of(self.hist@)
    }

    /// Everything fed to the decoder so far.
    pub closed spec fn history(&self) -> Seq<u8> {
        self.hist@
    }

    /// A fresh decoder with an empty buffer.
    pub fn new() -> (d: Self)
        ensures
            d.wf(),
            d.history() == Seq::<u8>::empty(),
    {
        let d = FrameDecoder { buf: Vec::new(), hist: Ghost(Seq::empty()) };
        proof {
            assert(rest_of(d.hist@) =~= Seq::<u8>::empty());
        }
        d
    }

    /// Feeds one chunk of bytes and returns the frames completed by it, in
    /// arrival order: exactly the frames of the buffered tail joined with
    /// the chunk, so that over a whole stream every frame of
    /// [`frames_of`] of the history is emitted exactly once.
    pub fn push_bytes(&mut self, chunk: &[u8]) -> (frames: Vec<Vec<u8>>)
        requires
            old(self).wf(),
        ensures
            final(self).wf(),
            final(self).history() == old(self).history() + chunk@,
            vv_view(frames@) == frames_of(rest_of(old(self).history()) + chunk@),
            frames_of(final(self).history()) == frames_of(old(self).history()) + vv_view(frames@),
    {
        proof {
            self.hist@ = self.hist@ + chunk@;
        }
        let mut k: usize = 0;
        let ghost buf0 = self.buf@;
        while k < chunk.len()
            invariant
                k <= chunk@.len(),
                self.buf@ == buf0 + chunk@.subrange(0, k as int),
                self.hist@ == old(self).hist@ + chunk@,
            decreases chunk@.len() - k,
        {
            let b = chunk[k];
            self.buf.push(b);
            proof {
                assert(buf0 + chunk@.subrange(0, k + 1 as int) =~= (buf0 + chunk@.subrange(
                    0,
                    k as int,
                )).push(chunk@[k as int]));
            }
            k = k + 1;
        }
        proof {
            assert(chunk@.subrange(0, chunk@.len() as int) =~= chunk@);
        }
        let ghost cat0 = self.buf@;
        let mut frames: Vec<Vec<u8>> = Vec::new();
        loop
            invariant
                self.hist@ == old(self).hist@ + chunk@,
                vv_view(frames@) + frames_of(self.buf@) =~~= frames_of(cat0),
                rest_of(self.buf@) == rest_of(cat0),
            ensures
                self.hist@ == old(self).hist@ + chunk@,
                vv_view(frames@) + frames_of(self.buf@) =~~= frames_of(cat0),
                rest_of(self.buf@) == rest_of(cat0),
                boundary_from(self.buf@, 0) == -1,
            decreases self.buf@.len(),
        {
            let b = match find_boundary(self.buf.as_slice()) {
                Some(b) => b,
                None => {
                    break ;
                },
            };
            proof {
                assert(b + 2 <= self.buf@.len());
            }
            let frame = subvec(self.buf.as_slice(), 0, b);
            let blen = self.buf.len();
            let rest = subvec(self.buf.as_slice(), b + 2, blen);
            let ghost pre = frames@;
            let ghost oldbuf = self.buf@;
            frames.push(frame);
            self.buf = rest;
            proof {
                assert(vv_view(pre.push(frame)) =~~= vv_view(pre).push(frame@));
                assert(frames_of(oldbuf) == seq![oldbuf.subrange(0, b as int)] + frames_of(
                    oldbuf.subrange(b + 2 as int, oldbuf.len() as int),
                ));
                assert(vv_view(frames@) + frames_of(self.buf@) =~~= frames_of(cat0));
            }
        }
        proof {
            assert(frames_of(self.buf@) =~~= Seq::<Seq<u8>>::empty());
            assert(vv_view(frames@) =~~= frames_of(cat0));
            lemma_frames_chunking(old(self).hist@, chunk@);
            assert(cat0 == rest_of(old(self).hist@) + chunk@);
            assert(rest_of(self.hist@) == rest_of(cat0));
            assert(frames_of(self.hist@) =~~= frames_of(old(self).hist@) + vv_view(frames@));
        }
        frames
    }

    /// The joined `data:` content of one frame; used by the classifier.
    pub fn frame_payload(frame: &Vec<u8>) -> (r: Option<Vec<u8>>)
        ensures
            (match frame_data(frame@) {
                Some(d) => r matches Some(v) && v@ == d,
                None => r is None,
            }),
    {
        frame_data_at(frame.as_slice())
    }
}

/// The first blank-line boundary in the buffer.
fn find_boundary(s: &[u8]) -> (r: Option<usize>)
    ensures
        (match r {
            Some(b) => b as int == boundary_from(s@, 0) && b + 2 <= s@.len(),
            None => boundary_from(s@, 0) == -1,
        }),
{
    let mut i: usize = 0;
    loop
        invariant
            i <= s@.len(),
            boundary_from(s@, 0) == boundary_from(s@, i as int),
        decreases s@.len() - i,
    {
        if i >= s.len() || s.len() - i < 2 {
            return None;
        }
        if s[i] == 10 && s[i + 1] == 10 {
            return Some(i);
        }
        i = i + 1;
    }
}

} // verus!
