use genai_client::sse::FrameDecoder;

fn datas(dec: &mut FrameDecoder, bytes: &[u8]) -> Vec<Vec<u8>> {
    let frames = dec.push_bytes(bytes);
    frames
        .iter()
        .filter_map(|f| FrameDecoder::frame_payload(f))
        .collect()
}

#[test]
fn one_frame_one_chunk() {
    let mut dec = FrameDecoder::new();
    let out = datas(&mut dec, b"data: hello\n\n");
    assert_eq!(out, vec![b"hello".to_vec()]);
}

#[test]
fn frame_split_across_chunks_matches_whole() {
    let stream = b"data: alpha\n\ndata: beta\n\n";
    // decode in one piece
    let mut whole = FrameDecoder::new();
    let w = datas(&mut whole, stream);
    // decode byte by byte
    let mut split = FrameDecoder::new();
    let mut s: Vec<Vec<u8>> = Vec::new();
    for b in stream.iter() {
        s.extend(datas(&mut split, &[*b]));
    }
    assert_eq!(w, s);
    assert_eq!(w, vec![b"alpha".to_vec(), b"beta".to_vec()]);
}

#[test]
fn frame_split_at_every_cut_matches_whole() {
    let stream = b"data: {\"a\":1}\n\ndata: [DONE]\n\n";
    let mut whole = FrameDecoder::new();
    let expect = datas(&mut whole, stream);
    for cut in 0..stream.len() {
        let mut dec = FrameDecoder::new();
        let mut got = datas(&mut dec, &stream[..cut]);
        got.extend(datas(&mut dec, &stream[cut..]));
        assert_eq!(got, expect, "cut at {}", cut);
    }
}

#[test]
fn multiple_data_lines_joined_with_newline() {
    let mut dec = FrameDecoder::new();
    let out = datas(&mut dec, b"data: one\ndata: two\n\n");
    assert_eq!(out, vec![b"one\ntwo".to_vec()]);
}

#[test]
fn comment_and_unknown_fields_ignored() {
    let mut dec = FrameDecoder::new();
    let out = datas(&mut dec, b": a comment\nevent: message\nid: 7\ndata: x\n\n");
    assert_eq!(out, vec![b"x".to_vec()]);
}

#[test]
fn frame_without_data_is_dropped() {
    let mut dec = FrameDecoder::new();
    let out = datas(&mut dec, b"event: ping\n\ndata: y\n\n");
    assert_eq!(out, vec![b"y".to_vec()]);
}

#[test]
fn data_space_stripping_is_at_most_one_space() {
    let mut dec = FrameDecoder::new();
    let out = datas(&mut dec, b"data:  two spaces\n\ndata:none\n\n");
    assert_eq!(out, vec![b" two spaces".to_vec(), b"none".to_vec()]);
}

#[test]
fn partial_frame_stays_buffered() {
    let mut dec = FrameDecoder::new();
    assert!(datas(&mut dec, b"data: wai").is_empty());
    let out = datas(&mut dec, b"ting\n\n");
    assert_eq!(out, vec![b"waiting".to_vec()]);
}
