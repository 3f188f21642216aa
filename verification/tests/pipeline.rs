use genai_client::error::GenAiError;
use genai_client::stream::{SequenceState, StreamMachine, StreamOutcome};

#[test]
fn done_frame_alone_yields_nothing_and_completes() {
    let mut m = StreamMachine::new();
    m.start();
    let out = m.on_bytes(b"data: [DONE]\n\n");
    assert!(out.is_empty());
    assert_eq!(m.sequence_state(), SequenceState::Completed);
}

#[test]
fn one_chunk_then_done_yields_one_chunk() {
    let mut m = StreamMachine::new();
    m.start();
    let out = m.on_bytes(b"data: {\"candidates\":[{\"index\":0}]}\n\ndata: [DONE]\n\n");
    assert_eq!(out.len(), 1);
    match &out[0] {
        StreamOutcome::Chunk(c) => {
            let cands = c.candidates.as_ref().unwrap();
            assert_eq!(cands.len(), 1);
            assert_eq!(cands[0].index, Some(0));
        }
        other => panic!("expected a chunk, got {:?}", other),
    }
    assert_eq!(m.sequence_state(), SequenceState::Completed);
}

#[test]
fn initial_429_yields_remote_error_and_no_chunks() {
    let mut m = StreamMachine::new();
    let headers = vec![(
        "Content-Type".to_string(),
        "text/plain".to_string(),
    )];
    let e = m.on_initial_status(429, headers, "quota exceeded".to_string());
    match e {
        GenAiError::Remote {
            status,
            message,
            headers,
        } => {
            assert_eq!(status, 429);
            assert_eq!(message, "quota exceeded");
            assert_eq!(headers[0].0, "content-type");
            assert_eq!(headers[0].1, "text/plain");
        }
        other => panic!("expected a remote error, got {:?}", other),
    }
    assert_eq!(m.sequence_state(), SequenceState::Failed);
}

#[test]
fn malformed_then_valid_yields_error_then_chunk() {
    let mut m = StreamMachine::new();
    m.start();
    let out = m.on_bytes(b"data: {broken\n\ndata: {\"model_version\":\"m1\"}\n\n");
    assert_eq!(out.len(), 2);
    match &out[0] {
        StreamOutcome::PayloadError { raw, cause } => {
            assert_eq!(raw, b"{broken");
            assert_eq!(*cause, genai_client::error::DecodeCause::MalformedJson);
        }
        other => panic!("expected a payload error, got {:?}", other),
    }
    match &out[1] {
        StreamOutcome::Chunk(c) => assert_eq!(c.model_version.as_deref(), Some("m1")),
        other => panic!("expected a chunk, got {:?}", other),
    }
    assert_eq!(m.sequence_state(), SequenceState::Streaming);
}

#[test]
fn natural_end_completes_without_items() {
    let mut m = StreamMachine::new();
    m.start();
    let out = m.on_bytes(b"data: {\"candidates\":[]}\n\n");
    assert_eq!(out.len(), 1);
    m.on_end();
    assert_eq!(m.sequence_state(), SequenceState::Completed);
}

#[test]
fn transport_error_is_terminal() {
    let mut m = StreamMachine::new();
    m.start();
    let e = m.on_transport_error("connection reset".to_string());
    match e {
        GenAiError::Transport { message } => assert_eq!(message, "connection reset"),
        other => panic!("expected a transport error, got {:?}", other),
    }
    assert_eq!(m.sequence_state(), SequenceState::Failed);
}

#[test]
fn frames_after_done_are_ignored() {
    let mut m = StreamMachine::new();
    m.start();
    let out = m.on_bytes(b"data: [DONE]\n\ndata: {\"candidates\":[]}\n\n");
    assert!(out.is_empty());
    assert_eq!(m.sequence_state(), SequenceState::Completed);
}

#[test]
fn chunks_keep_arrival_order() {
    let mut m = StreamMachine::new();
    m.start();
    let out = m.on_bytes(
        b"data: {\"model_version\":\"a\"}\n\ndata: {\"model_version\":\"b\"}\n\ndata: {\"model_version\":\"c\"}\n\n",
    );
    let versions: Vec<String> = out
        .iter()
        .map(|o| match o {
            StreamOutcome::Chunk(c) => c.model_version.clone().unwrap(),
            other => panic!("expected a chunk, got {:?}", other),
        })
        .collect();
    assert_eq!(versions, vec!["a", "b", "c"]);
}
