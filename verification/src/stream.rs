//! The event classifier and the lazy response sequence's state machine.
//!
//! A caller (the transport loop) feeds transport signals in — an initial
//! non-success status, chunks of body bytes, a clean end, a transport
//! failure — and receives the classified outcomes: decoded chunks,
//! per-frame payload errors, and a terminal state.  A `[DONE]` sentinel
//! ends the sequence cleanly; frames after it are ignored.  A malformed
//! payload is reported as one failed item and the sequence continues.

use crate::codec::dec_chunk;
use crate::datatypes::{GenerateContentResponse, GenerateContentResponseView};
use crate::error::{header_map, headers_view, DecodeCause, ErrView, GenAiError};
use crate::parse::{parse_json, parse_json_spec};
use crate::sse::{frame_data, frames_of, rest_of, vv_view, FrameDecoder};
use vstd::prelude::*;

verus! {

broadcast use vstd::seq::group_seq_axioms, vstd::std_specs::vec::group_vec_axioms;

/// The view of a classified outcome.
pub ghost enum StreamOutcomeView {
    Chunk(GenerateContentResponseView),
    Done,
    PayloadError { raw: Seq<u8>, cause: DecodeCause },
}

/// The classifier's result for one frame payload: a decoded chunk, the
/// `[DONE]` sentinel, or a payload that did not decode.
#[derive(Debug, PartialEq)]
pub enum StreamOutcome {
    Chunk(GenerateContentResponse),
    Done,
    PayloadError { raw: Vec<u8>, cause: DecodeCause },
}

impl View for StreamOutcome {
    type V = StreamOutcomeView;

    open spec fn view(&self) -> StreamOutcomeView {
        match self {
            StreamOutcome::Chunk(c) => StreamOutcomeView::Chunk(c@),
            StreamOutcome::Done => StreamOutcomeView::Done,
            StreamOutcome::PayloadError { raw, cause } => StreamOutcomeView::PayloadError {
                raw: raw@,
                cause: *cause,
            },
        }
    }
}

/// The views of a list of outcomes.
pub open spec fn outcomes_view(s: Seq<StreamOutcome>) -> Seq<StreamOutcomeView> {
    s.map_values(|o: StreamOutcome| o@)
}

/// The bytes of the `[DONE]` sentinel.
pub open spec fn done_sentinel() -> Seq<u8> {
    seq![91u8, 68u8, 79u8, 78u8, 69u8, 93u8]
}

/// How one frame payload is classified: the sentinel ends the sequence; a
/// payload whose JSON parses and decodes is a chunk; anything else is a
/// payload error carrying the raw bytes and the parse cause.
pub open spec fn classify_payload(p: Seq<u8>) -> StreamOutcomeView {
    if p == done_sentinel() {
        StreamOutcomeView::Done
    } else {
        match parse_json_spec(p) {
            Option::Some(j) => match dec_chunk(j) {
                Option::Some(c) => StreamOutcomeView::Chunk(c),
                Option::None => StreamOutcomeView::PayloadError {
                    raw: p,
                    cause: DecodeCause::UnexpectedShape,
                },
            },
            Option::None => StreamOutcomeView::PayloadError {
                raw: p,
                cause: DecodeCause::MalformedJson,
            },
        }
    }
}

/// The items a run of frames yields, in arrival order, stopping at the
/// first `[DONE]`; frames without a `data:` field are dropped.
pub open spec fn frame_outcomes(frames: Seq<Seq<u8>>) -> Seq<StreamOutcomeView>
    decreases frames.len(),
{
    if frames.len() == 0 {
        Seq::empty()
    } else {
        match frame_data(frames[0]) {
            Option::None => frame_outcomes(frames.drop_first()),
            Option::Some(p) => {
                if classify_payload(p) is Done {
                    Seq::empty()
                } else {
                    seq![classify_payload(p)] + frame_outcomes(frames.drop_first())
                }
            },
        }
    }
}

/// Whether a run of frames holds a `[DONE]` sentinel.
pub open spec fn frames_done(frames: Seq<Seq<u8>>) -> bool
    decreases frames.len(),
{
    if frames.len() == 0 {
        false
    } else {
        match frame_data(frames[0]) {
            Option::None => frames_done(frames.drop_first()),
            Option::Some(p) => classify_payload(p) is Done || frames_done(frames.drop_first()),
        }
    }
}

/// Classifies one frame payload, as [`classify_payload`] states it.
pub fn classify(p: Vec<u8>) -> (r: StreamOutcome)
    ensures
        r@ == classify_payload(p@),
{
    if p.len() == 6 && p[0] == 91 && p[1] == 68 && p[2] == 79 && p[3] == 78 && p[4] == 69 && p[5]
        == 93 {
        proof {
            assert(p@ =~= done_sentinel());
        }
        return StreamOutcome::Done;
    }
    proof {
        assert(p@ != done_sentinel());
    }
    match parse_json(p.as_slice()) {
        Option::Some(j) => match crate::codec::decode_chunk_json(&j) {
            Option::Some(c) => StreamOutcome::Chunk(c),
            Option::None => StreamOutcome::PayloadError {
                raw: p,
                cause: DecodeCause::UnexpectedShape,
            },
        },
        Option::None => StreamOutcome::PayloadError { raw: p, cause: DecodeCause::MalformedJson },
    }
}

/// Decodes a whole response body, for the single-shot call: the JSON must
/// parse and decode, else the raw body comes back as a payload error with
/// its parse cause.
pub fn decode_response(body: &[u8]) -> (r: Result<GenerateContentResponse, GenAiError>)
    ensures
        (match parse_json_spec(body@) {
            Option::Some(j) => (match dec_chunk(j) {
                Option::Some(c) => r matches Ok(x) && x@ == c,
                Option::None => r matches Err(e) && e@ == (ErrView::PayloadDecode {
                    raw: body@,
                    cause: DecodeCause::UnexpectedShape,
                }),
            }),
            Option::None => r matches Err(e) && e@ == (ErrView::PayloadDecode {
                raw: body@,
                cause: DecodeCause::MalformedJson,
            }),
        }),
{
    match parse_json(body) {
        Option::Some(j) => match crate::codec::decode_chunk_json(&j) {
            Option::Some(c) => Ok(c),
            Option::None => Err(
                GenAiError::PayloadDecode {
                    raw: crate::sse::to_vec(body),
                    cause: DecodeCause::UnexpectedShape,
                },
            ),
        },
        Option::None => Err(
            GenAiError::PayloadDecode {
                raw: crate::sse::to_vec(body),
                cause: DecodeCause::MalformedJson,
            },
        ),
    }
}

/// Where the sequence stands: not yet started, streaming, or terminal.
#[derive(Debug, Clone, Copy, PartialEq, Eq, Structural)]
pub enum SequenceState {
    Idle,
    Streaming,
    Completed,
    Failed,
}

/// The state machine of one lazy response sequence.  The transport loop
/// drives it; it owns the frame decoder and classifies everything fed in.
/// No pull is valid after a terminal state.
pub struct StreamMachine {
    state: SequenceState,
    dec: FrameDecoder,
}

impl StreamMachine {
    /// The decoder buffer is consistent with everything fed so far.
    pub closed spec fn wf(&self) -> bool {
        self.dec.wf()
    }

    /// The machine's sequence state.
    pub closed spec fn phase(&self) -> SequenceState {
        self.state
    }

    /// All body bytes fed so far.
    pub closed spec fn history(&self) -> Seq<u8> {
        self.dec.history()
    }

    /// A fresh machine: idle, nothing fed.
    pub fn new() -> (m: Self)
        ensures
            m.wf(),
            m.phase() == SequenceState::Idle,
            m.history() == Seq::<u8>::empty(),
    {
        StreamMachine { state: SequenceState::Idle, dec: FrameDecoder::new() }
    }

    /// The machine's current sequence state, as a value.
    pub fn sequence_state(&self) -> (s: SequenceState)
        ensures
            s == self.phase(),
    {
        self.state
    }

    /// The transport connected with a success status: streaming begins.
    pub fn start(&mut self)
        requires
            old(self).wf(),
            old(self).phase() == SequenceState::Idle,
        ensures
            final(self).wf(),
            final(self).phase() == SequenceState::Streaming,
            final(self).history() == old(self).history(),
    {
        self.state = SequenceState::Streaming;
    }

    /// The transport reported a non-success HTTP status before any frame:
    /// the sequence fails at once with the remote error, headers as a
    /// lower-cased map, and no frame is ever parsed.
    pub fn on_initial_status(
        &mut self,
        status: u16,
        headers: Vec<(String, String)>,
        body: String,
    ) -> (e: GenAiError)
        requires
            old(self).wf(),
            old(self).phase() == SequenceState::Idle,
        ensures
            final(self).wf(),
            final(self).phase() == SequenceState::Failed,
            final(self).history() == old(self).history(),
            e@ matches ErrView::Remote { status: s, message: m, headers: h } && s == status && m
                == body@ && h == header_map(headers_view(headers@)),
    {
        self.state = SequenceState::Failed;
        GenAiError::from_response(status, headers, body)
    }

    /// Feeds one chunk of body bytes; yields one item per chunk or payload
    /// error among the newly completed frames, in arrival order, and
    /// completes the sequence if a `[DONE]` sentinel is among them.
    pub fn on_bytes(&mut self, chunk: &[u8]) -> (out: Vec<StreamOutcome>)
        requires
            old(self).wf(),
            old(self).phase() == SequenceState::Streaming,
        ensures
            final(self).wf(),
            final(self).history() == old(self).history() + chunk@,
            outcomes_view(out@) == frame_outcomes(
                frames_of(rest_of(old(self).history()) + chunk@),
            ),
            final(self).phase() == (if frames_done(
                frames_of(rest_of(old(self).history()) + chunk@),
            ) {
                SequenceState::Completed
            } else {
                SequenceState::Streaming
            }),
    {
        let frames = self.dec.push_bytes(chunk);
        let ghost fv = vv_view(frames@);
        let mut out: Vec<StreamOutcome> = Vec::new();
        let mut done = false;
        let mut i: usize = 0;
        proof {
            assert(fv.skip(0) =~= fv);
            assert(outcomes_view(out@) =~= Seq::<StreamOutcomeView>::empty());
        }
        while i < frames.len() && !done
            invariant
                i <= frames@.len(),
                fv == vv_view(frames@),
                fv.len() == frames@.len(),
                forall|k: int| 0 <= k < frames@.len() ==> #[trigger] fv[k] == frames@[k]@,
                !done ==> frame_outcomes(fv) == outcomes_view(out@) + frame_outcomes(
                    fv.skip(i as int),
                ) && frames_done(fv) == frames_done(fv.skip(i as int)),
                done ==> frame_outcomes(fv) == outcomes_view(out@) && frames_done(fv),
            decreases frames@.len() - i,
        {
            proof {
                assert(fv.skip(i as int)[0] == frames@[i as int]@);
                assert(fv.skip(i as int).drop_first() =~= fv.skip(i + 1 as int));
            }
            match FrameDecoder::frame_payload(&frames[i]) {
                Option::None => {},
                Option::Some(p) => {
                    let ghost pv = p@;
                    let o = classify(p);
                    match o {
                        StreamOutcome::Done => {
                            done = true;
                        },
                        _ => {
                            let ghost pre = out@;
                            out.push(o);
                            proof {
                                assert(outcomes_view(out@) =~= outcomes_view(pre).push(
                                    classify_payload(pv),
                                ));
                                assert(outcomes_view(pre) + (seq![classify_payload(pv)]
                                    + frame_outcomes(fv.skip(i + 1 as int))) =~= outcomes_view(out@)
                                    + frame_outcomes(fv.skip(i + 1 as int)));
                            }
                        },
                    }
                },
            }
            i = i + 1;
        }
        proof {
            if !done {
                assert(fv.skip(frames@.len() as int).len() == 0);
            }
        }
        if done {
            self.state = SequenceState::Completed;
        }
        out
    }

    /// The transport stream ended without a sentinel: a clean natural end,
    /// no item; partially buffered bytes are discarded.
    pub fn on_end(&mut self)
        requires
            old(self).wf(),
            old(self).phase() == SequenceState::Streaming,
        ensures
            final(self).wf(),
            final(self).phase() == SequenceState::Completed,
            final(self).history() == old(self).history(),
    {
        self.state = SequenceState::Completed;
    }

    /// A transport failure after streaming started: terminal, one error.
    pub fn on_transport_error(&mut self, message: String) -> (e: GenAiError)
        requires
            old(self).wf(),
            old(self).phase() == SequenceState::Streaming,
        ensures
            final(self).wf(),
            final(self).phase() == SequenceState::Failed,
            final(self).history() == old(self).history(),
            e@ == (ErrView::Transport { message: message@ }),
    {
        self.state = SequenceState::Failed;
        GenAiError::Transport { message }
    }
}

/// Turns a non-sentinel outcome into the item a caller sees: a decoded
/// chunk, or a payload-decode error carrying the raw bytes and the cause.
pub fn outcome_into_result(o: StreamOutcome) -> (r: Result<GenerateContentResponse, GenAiError>)
    requires
        !(o@ is Done),
    ensures
        o@ matches StreamOutcomeView::Chunk(c) ==> r matches Ok(x) && x@ == c,
        o@ matches StreamOutcomeView::PayloadError { raw, cause } ==> r matches Err(e) && e@
            == (ErrView::PayloadDecode { raw, cause }),
{
    match o {
        StreamOutcome::Chunk(c) => Ok(c),
        StreamOutcome::Done => vstd::pervasive::unreached(),
        StreamOutcome::PayloadError { raw, cause } => Err(
            GenAiError::PayloadDecode { raw, cause },
        ),
    }
}

/// The sequence yields exactly one item per chunk or error outcome and no
/// item for the sentinel: a `Done` never appears among the yielded items.
pub proof fn lemma_no_done_item(frames: Seq<Seq<u8>>)
    ensures
        forall|k: int|
            0 <= k < frame_outcomes(frames).len() ==> !((#[trigger] frame_outcomes(frames)[k])
                is Done),
    decreases frames.len(),
{
    if frames.len() > 0 {
        lemma_no_done_item(frames.drop_first());
    }
}

} // verus!
