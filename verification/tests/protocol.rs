use bytes::BytesMut;
use tesseract_core::{Frame, MeierCodec, Status, TesseractError};

fn buffer_of(bytes: &[u8]) -> BytesMut {
    let mut buffer = BytesMut::new();
    buffer.extend_from_slice(bytes);
    buffer
}

fn drain(codec: &MeierCodec, buffer: &mut BytesMut, frames: &mut Vec<Vec<u8>>) {
    while let Ok(Some(payload)) = codec.decode(buffer) {
        frames.push(payload.to_vec());
    }
}

#[test]
fn codec_limits() {
    assert_eq!(MeierCodec::new().max_frame_length, 10 * 1024 * 1024);
    assert_eq!(MeierCodec::default().max_frame_length, 10 * 1024 * 1024);
    assert_eq!(MeierCodec::with_max_length(64).max_frame_length, 64);
}

#[test]
fn encode_puts_a_big_endian_length_in_front() {
    let codec = MeierCodec::new();
    let mut wire = BytesMut::new();
    assert_eq!(codec.encode(b"\"Ping\"", &mut wire), Ok(()));
    assert_eq!(&wire[..], b"\x00\x00\x00\x06\"Ping\"");
}

#[test]
fn encode_length_uses_all_four_bytes() {
    let codec = MeierCodec::new();
    let payload = vec![9u8; 0x01_02_03];
    let mut wire = BytesMut::new();
    codec.encode(&payload, &mut wire).unwrap();
    assert_eq!(&wire[..4], &[0x00, 0x01, 0x02, 0x03]);
    assert_eq!(wire.len(), 4 + 0x01_02_03);
}

#[test]
fn encode_appends_behind_what_is_there() {
    let codec = MeierCodec::new();
    let mut wire = buffer_of(b"xy");
    codec.encode(b"a", &mut wire).unwrap();
    codec.encode(b"", &mut wire).unwrap();
    assert_eq!(&wire[..], b"xy\x00\x00\x00\x01a\x00\x00\x00\x00");
}

#[test]
fn encode_refuses_a_payload_over_the_limit() {
    let codec = MeierCodec::with_max_length(3);
    let mut wire = buffer_of(b"xy");
    assert_eq!(codec.encode(b"abc", &mut wire), Ok(()));
    let refused = codec.encode(b"abcd", &mut wire);
    assert_eq!(
        refused,
        Err(TesseractError::Protocol("Frame too large: 4 bytes (max: 3)".to_string()))
    );
    assert_eq!(&wire[..], b"xy\x00\x00\x00\x03abc");
}

#[test]
fn decode_waits_for_the_length() {
    let codec = MeierCodec::new();
    for held in [&b""[..], &b"\x00"[..], &b"\x00\x00\x00"[..]] {
        let mut wire = buffer_of(held);
        assert!(matches!(codec.decode(&mut wire), Ok(None)));
        assert_eq!(&wire[..], held);
    }
}

#[test]
fn decode_waits_for_the_payload() {
    let codec = MeierCodec::new();
    let mut wire = buffer_of(b"\x00\x00\x00\x05abcd");
    assert!(matches!(codec.decode(&mut wire), Ok(None)));
    assert_eq!(&wire[..], b"\x00\x00\x00\x05abcd");
    wire.extend_from_slice(b"e");
    let payload = codec.decode(&mut wire).unwrap().unwrap();
    assert_eq!(&payload[..], b"abcde");
    assert!(wire.is_empty());
}

#[test]
fn decode_takes_one_frame_and_leaves_the_rest() {
    let codec = MeierCodec::new();
    let mut wire = buffer_of(b"\x00\x00\x00\x02hi\x00\x00\x00\x01!\x00");
    assert_eq!(&codec.decode(&mut wire).unwrap().unwrap()[..], b"hi");
    assert_eq!(&wire[..], b"\x00\x00\x00\x01!\x00");
    assert_eq!(&codec.decode(&mut wire).unwrap().unwrap()[..], b"!");
    assert_eq!(&wire[..], b"\x00");
    assert!(matches!(codec.decode(&mut wire), Ok(None)));
}

#[test]
fn decode_reads_the_length_most_significant_byte_first() {
    let codec = MeierCodec::new();
    let mut wire = buffer_of(&[0x00, 0x00, 0x01, 0x02]);
    wire.extend_from_slice(&vec![7u8; 0x0102]);
    let payload = codec.decode(&mut wire).unwrap().unwrap();
    assert_eq!(payload.len(), 258);
    assert!(wire.is_empty());
}

#[test]
fn decode_of_an_empty_frame() {
    let codec = MeierCodec::new();
    let mut wire = buffer_of(b"\x00\x00\x00\x00z");
    assert_eq!(codec.decode(&mut wire).unwrap().unwrap().len(), 0);
    assert_eq!(&wire[..], b"z");
}

#[test]
fn decode_refuses_an_oversized_header() {
    let codec = MeierCodec::with_max_length(16);
    let mut wire = buffer_of(b"\x00\x00\x00\x11abc");
    let refused = codec.decode(&mut wire);
    assert_eq!(
        refused.err(),
        Some(TesseractError::Protocol("Frame too large: 17, bytes (max: 16)".to_string()))
    );
    assert_eq!(&wire[..], b"\x00\x00\x00\x11abc");
    let mut fits = buffer_of(b"\x00\x00\x00\x10");
    assert!(matches!(codec.decode(&mut fits), Ok(None)));
}

#[test]
fn decode_gives_back_what_encode_took() {
    let codec = MeierCodec::new();
    let payloads: Vec<Vec<u8>> =
        vec![b"{\"a\":1}".to_vec(), Vec::new(), vec![0, 255, 7], vec![1u8; 70_000]];
    let mut wire = BytesMut::new();
    for payload in &payloads {
        codec.encode(payload, &mut wire).unwrap();
    }
    let mut frames = Vec::new();
    drain(&codec, &mut wire, &mut frames);
    assert_eq!(frames, payloads);
    assert!(wire.is_empty());
}

#[test]
fn chunking_does_not_change_the_frames() {
    let codec = MeierCodec::new();
    let payloads: Vec<Vec<u8>> = (0..9u8).map(|n| vec![n; (n as usize) * 3]).collect();
    let mut stream = BytesMut::new();
    for payload in &payloads {
        codec.encode(payload, &mut stream).unwrap();
    }
    let stream = stream.to_vec();
    for size in [1usize, 2, 3, 4, 5, 7, 11, 64, stream.len()] {
        let mut wire = BytesMut::new();
        let mut frames = Vec::new();
        for chunk in stream.chunks(size) {
            wire.extend_from_slice(chunk);
            drain(&codec, &mut wire, &mut frames);
        }
        assert_eq!(frames, payloads);
        assert!(wire.is_empty());
    }
}

#[test]
fn frame_constructors() {
    assert_eq!(
        Frame::produce("t".to_string(), vec![1, 2]),
        Frame::Produce { topic: "t".to_string(), message: vec![1, 2] }
    );
    assert_eq!(
        Frame::consume("t".to_string(), 2, 5),
        Frame::Consume { topic: "t".to_string(), partition_id: 2, offset: 5 }
    );
    assert_eq!(
        Frame::response_ok(Some(vec![9])),
        Frame::Response { status: Status::Success, data: Some(vec![9]), message: None }
    );
    assert_eq!(
        Frame::response_ok(None),
        Frame::Response { status: Status::Success, data: None, message: None }
    );
    assert_eq!(
        Frame::response_error("bad".to_string()),
        Frame::Response {
            status: Status::Error("bad".to_string()),
            data: None,
            message: Some("bad".to_string()),
        }
    );
    assert_eq!(
        Frame::response_ok_str("hé".to_string()),
        Frame::Response { status: Status::Success, data: Some(vec![0x68, 0xc3, 0xa9]), message: None }
    );
}

#[test]
fn status_constructors() {
    assert_eq!(Status::ok(), Status::Success);
    assert_eq!(Status::error("x".to_string()), Status::Error("x".to_string()));
}

#[test]
fn frame_clone_is_equal() {
    let frames = vec![
        Frame::produce("t".to_string(), vec![1, 2]),
        Frame::consume("t".to_string(), 1, 2),
        Frame::ConsumeNext { topic: "t".to_string(), partition_id: 1 },
        Frame::response_error("bad".to_string()),
        Frame::response_ok(Some(vec![3])),
        Frame::Ping,
        Frame::Pong,
    ];
    for frame in &frames {
        assert_eq!(&frame.clone(), frame);
    }
}

#[test]
fn encode_has_room_in_any_real_buffer() {
    let codec = MeierCodec::new();
    let wire = buffer_of(b"abc");
    assert!(codec.has_room_for(b"payload", &wire));
    assert!(codec.has_room_for(b"", &BytesMut::new()));
}
