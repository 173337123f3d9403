use session_engine::framing::{encode_frame, FrameDecoder, FramingMode, LengthPrefixedDecoder, LineDecoder};

fn decode_all(mode: FramingMode, chunks: &[&[u8]]) -> Vec<Vec<u8>> {
    let mut d = FrameDecoder::new(mode);
    let mut out = Vec::new();
    for c in chunks {
        out.extend(d.feed(c));
    }
    out
}

#[test]
fn length_prefixed_single_read() {
    let input = b"Content-Length: 5\r\n\r\nhelloContent-Length: 2\r\n\r\nhi";
    let frames = decode_all(FramingMode::LengthPrefixed, &[input]);
    assert_eq!(frames, vec![b"hello".to_vec(), b"hi".to_vec()]);
}

#[test]
fn length_prefixed_split_reads_match_single_read() {
    let input: &[u8] = b"Content-Length: 5\r\nContent-Type: x\r\n\r\nhelloContent-Length: 3\r\n\r\nabc";
    let whole = decode_all(FramingMode::LengthPrefixed, &[input]);
    for cut in 0..input.len() {
        let (a, b) = input.split_at(cut);
        assert_eq!(decode_all(FramingMode::LengthPrefixed, &[a, b]), whole);
    }
    let bytes: Vec<&[u8]> = input.chunks(1).collect();
    assert_eq!(decode_all(FramingMode::LengthPrefixed, &bytes), whole);
    assert_eq!(whole, vec![b"hello".to_vec(), b"abc".to_vec()]);
}

#[test]
fn length_prefixed_skips_missing_zero_and_bad_lengths() {
    let input = b"X-Other: 1\r\n\r\nContent-Length: 0\r\n\r\nContent-Length: abc\r\n\r\nContent-Length: +3\r\n\r\nxyz";
    let frames = decode_all(FramingMode::LengthPrefixed, &[input]);
    assert_eq!(frames, vec![b"xyz".to_vec()]);
}

#[test]
fn length_prefixed_overflowing_length_is_skipped() {
    let input = b"Content-Length: 99999999999999999999999\r\n\r\nContent-Length: 1\r\n\r\nz";
    let frames = decode_all(FramingMode::LengthPrefixed, &[input]);
    assert_eq!(frames, vec![b"z".to_vec()]);
}

#[test]
fn length_prefixed_truncated_body_emits_nothing() {
    let mut d = LengthPrefixedDecoder::new();
    assert!(d.feed(b"Content-Length: 10\r\n\r\nabc").is_empty());
    assert_eq!(d.feed(b"defghij"), vec![b"abcdefghij".to_vec()]);
}

#[test]
fn length_prefixed_accepts_bare_newlines_and_spaces() {
    let frames = decode_all(FramingMode::LengthPrefixed, &[b"  Content-Length: 2  \n\n{}"]);
    assert_eq!(frames, vec![b"{}".to_vec()]);
}

#[test]
fn line_delimited_drops_partial_final_line() {
    let frames = decode_all(FramingMode::LineDelimited, &[b"one\ntwo\r\nthr", b"ee"]);
    assert_eq!(frames, vec![b"one".to_vec(), b"two".to_vec()]);
}

#[test]
fn line_delimited_keeps_partial_line_for_next_read() {
    let mut d = LineDecoder::new();
    assert!(d.feed(b"par").is_empty());
    assert_eq!(d.feed(b"tial\n\n"), vec![b"partial".to_vec(), b"".to_vec()]);
}

#[test]
fn raw_frames_are_reads() {
    let frames = decode_all(FramingMode::Raw, &[b"ab", b"", b"c\n"]);
    assert_eq!(frames, vec![b"ab".to_vec(), b"c\n".to_vec()]);
}

#[test]
fn encode_length_prefixed_exact_bytes() {
    assert_eq!(encode_frame(FramingMode::LengthPrefixed, b"{\"id\":1}"), b"Content-Length: 8\r\n\r\n{\"id\":1}".to_vec());
    assert_eq!(encode_frame(FramingMode::LengthPrefixed, b""), b"Content-Length: 0\r\n\r\n".to_vec());
    let body = vec![b'a'; 1234];
    let framed = encode_frame(FramingMode::LengthPrefixed, &body);
    assert!(framed.starts_with(b"Content-Length: 1234\r\n\r\n"));
}

#[test]
fn encode_raw_and_lines_pass_bytes_through() {
    assert_eq!(encode_frame(FramingMode::Raw, b"ls\n"), b"ls\n".to_vec());
    assert_eq!(encode_frame(FramingMode::LineDelimited, b"x"), b"x".to_vec());
}

#[test]
fn encode_then_decode_round_trip() {
    let payload = b"{\"jsonrpc\":\"2.0\"}";
    let framed = encode_frame(FramingMode::LengthPrefixed, payload);
    assert_eq!(decode_all(FramingMode::LengthPrefixed, &[&framed]), vec![payload.to_vec()]);
    let empty = encode_frame(FramingMode::LengthPrefixed, b"");
    assert!(decode_all(FramingMode::LengthPrefixed, &[&empty]).is_empty());
}

#[test]
fn sends_in_turn_never_interleave() {
    // An endpoint that records raw writes: each send is one whole write.
    let mut endpoint: Vec<u8> = Vec::new();
    let a = encode_frame(FramingMode::LengthPrefixed, b"first");
    let b = encode_frame(FramingMode::LengthPrefixed, b"second");
    endpoint.extend_from_slice(&a);
    endpoint.extend_from_slice(&b);
    let frames = decode_all(FramingMode::LengthPrefixed, &[&endpoint]);
    assert_eq!(frames, vec![b"first".to_vec(), b"second".to_vec()]);
}
