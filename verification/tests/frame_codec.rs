//! The frame codec and the replay window.

use aetherlink::crypto::{DEFAULT_PAD_MULTIPLE, MAX_FRAME_PAYLOAD};
use aetherlink::frame::codec::{
    calculate_padding, decode_frame, encode_frame, Frame as SealedFrame, FrameHeader,
    ReplayWindow,
};
use aetherlink::frame::types::{Frame, FramePayload};
use aetherlink::frame::FRAME_HEADER_SIZE;
use aetherlink::protocol::FrameType;
use bytes::BytesMut;

#[test]
fn test_frame_header_encode_decode() {
    let header = FrameHeader {
        length: 100,
        frame_type: FrameType::Data,
        flags: 0,
        stream_id: 42,
        sequence: 1000,
    };

    let mut buf = BytesMut::new();
    header.encode(&mut buf);
    assert_eq!(buf.len(), FRAME_HEADER_SIZE);

    let decoded = FrameHeader::decode(&mut buf).unwrap();
    assert_eq!(decoded, header);
}

#[test]
fn test_encode_decode_data_frame() {
    let key = [0x42u8; 32];
    let nonce = [0x24u8; 12];
    let frame = Frame::data(1, 100, b"test payload".to_vec());

    let encoded = encode_frame(&frame, &key, &nonce, DEFAULT_PAD_MULTIPLE).unwrap();
    let decoded = decode_frame(&encoded, &key, &nonce).unwrap();

    assert_eq!(decoded.frame_type, FrameType::Data);
    assert_eq!(decoded.stream_id, 1);
    assert_eq!(decoded.sequence, 100);
    assert_eq!(
        decoded.payload,
        FramePayload::Data(b"test payload".to_vec())
    );
}

#[test]
fn test_encode_decode_open_tcp() {
    let key = [0x42u8; 32];
    let nonce = [0x24u8; 12];
    let frame = Frame::open_tcp(3, 1, "example.com".to_string(), 443);

    let encoded = encode_frame(&frame, &key, &nonce, DEFAULT_PAD_MULTIPLE).unwrap();
    let decoded = decode_frame(&encoded, &key, &nonce).unwrap();

    assert_eq!(decoded.frame_type, FrameType::OpenTcp);
    assert_eq!(decoded.stream_id, 3);
}

#[test]
fn test_reject_invalid_length() {
    let key = [0x42u8; 32];
    let nonce = [0x24u8; 12];

    // Create a frame that's too large
    let large_payload = vec![0u8; MAX_FRAME_PAYLOAD + 100];
    let frame = Frame::data(1, 1, large_payload);

    let result = encode_frame(&frame, &key, &nonce, DEFAULT_PAD_MULTIPLE);
    assert!(result.is_err());
}

#[test]
fn test_replay_window_basic() {
    let mut window = ReplayWindow::new(1024);

    // First sequence should be accepted
    assert!(window.check(1, 100).is_ok());

    // Duplicate should be rejected
    assert!(window.check(1, 100).is_err());

    // Higher sequence should be accepted
    assert!(window.check(1, 101).is_ok());

    // Out of order but within window should be accepted
    assert!(window.check(1, 99).is_ok()); // 101 - 99 = 2 < 1024

    // Duplicate of out-of-order should be rejected
    assert!(window.check(1, 99).is_err());
}

#[test]
fn test_replay_window_too_old() {
    let mut window = ReplayWindow::new(1024);

    assert!(window.check(1, 1000).is_ok());

    // Too old (diff >= 1024)
    assert!(window.check(1, 500).is_err());
}

#[test]
fn test_replay_window_per_stream() {
    let mut window = ReplayWindow::new(1024);

    assert!(window.check(1, 100).is_ok());
    assert!(window.check(2, 100).is_ok()); // Different stream, same sequence OK

    assert!(window.check(1, 100).is_err()); // Stream 1 duplicate
    assert!(window.check(2, 100).is_err()); // Stream 2 duplicate
}

#[test]
fn header_bytes_are_big_endian() {
    let header = FrameHeader {
        length: 0x01_0203,
        frame_type: FrameType::Rst,
        flags: 7,
        stream_id: 0x0405,
        sequence: 0x0607_0809,
    };
    let mut buf = BytesMut::new();
    header.encode(&mut buf);
    assert_eq!(buf[..11], [1, 2, 3, FrameType::Rst.code(), 7, 4, 5, 6, 7, 8, 9]);
    assert_eq!(buf[11..], [0u8; 13]);
}

#[test]
fn short_and_unknown_headers_are_named() {
    let mut short = BytesMut::from(&[0u8; 23][..]);
    let e = FrameHeader::decode(&mut short).unwrap_err();
    assert_eq!(e.message(), "Insufficient buffer: need 24, have 23");
    let mut raw = [0u8; 24];
    raw[3] = 0xee;
    let mut unknown = BytesMut::from(&raw[..]);
    assert!(FrameHeader::decode(&mut unknown).is_err());
}

#[test]
fn padding_reaches_the_multiple() {
    assert_eq!(calculate_padding(0, 128), 0);
    assert_eq!(calculate_padding(1, 128), 127);
    assert_eq!(calculate_padding(128, 128), 0);
    assert_eq!(calculate_padding(129, 128), 127);
    assert_eq!(calculate_padding(5, 0), 0);
}

#[test]
fn encoded_length_follows_the_padding() {
    let frame = Frame::data(1, 1, vec![1u8; 10]);
    let encoded = encode_frame(&frame, &[1u8; 32], &[2u8; 12], 64).unwrap();
    assert_eq!(encoded.len(), 24 + 64 + 16);
}

#[test]
fn tampered_frame_is_refused() {
    let frame = Frame::data(1, 1, vec![1u8; 10]);
    let mut encoded = encode_frame(&frame, &[1u8; 32], &[2u8; 12], 64).unwrap();
    encoded[30] ^= 1;
    assert!(decode_frame(&encoded, &[1u8; 32], &[2u8; 12]).is_err());
    assert!(decode_frame(&encoded[..20], &[1u8; 32], &[2u8; 12]).is_err());
}

#[test]
fn window_remembers_the_highest_number() {
    let mut window = ReplayWindow::new(64);
    assert_eq!(window.highest(1), None);
    window.check(1, 10).unwrap();
    window.check(1, 12).unwrap();
    assert_eq!(window.highest(1), Some(12));
    window.reset_stream(1);
    assert_eq!(window.highest(1), None);
    assert!(window.check(1, 10).is_ok());
}

#[test]
fn sizes_of_a_sealed_frame() {
    let header = FrameHeader {
        length: 5,
        frame_type: FrameType::Data,
        flags: 0,
        stream_id: 1,
        sequence: 1,
    };
    let frame = SealedFrame::new(header, vec![0u8; 5]);
    assert_eq!(frame.payload_size(), 5);
    assert_eq!(frame.total_size(), 29);
}

#[test]
fn first_number_of_a_stream_is_new_even_when_it_is_zero() {
    let mut window = ReplayWindow::new(1024);
    assert!(window.check(1, 0).is_ok());
    assert_eq!(window.highest(1), Some(0));
    let e = window.check(1, 0).unwrap_err();
    assert_eq!(e.message(), "Replay detected: sequence 0 for stream 1");
    assert!(window.check(1, 1).is_ok());
    assert!(window.check(2, 5).is_ok());
    assert!(window.check(2, 0).is_ok());
    assert!(window.check(2, 0).is_err());
}

#[test]
fn frame_too_long_for_its_length_field_is_refused() {
    let (key, nonce) = ([1u8; 32], [2u8; 12]);
    // Prefix, payload and tag together may take one byte less than 2^24.
    let most = 0x100_0000 - 1 - 16 - 4;
    let frame = Frame::data(1, 1, vec![7u8; most]);
    let encoded = encode_frame(&frame, &key, &nonce, 0).unwrap();
    assert_eq!(encoded.len(), 24 + 0x100_0000 - 1);
    let decoded = decode_frame(&encoded, &key, &nonce).unwrap();
    assert_eq!(decoded.payload, FramePayload::Data(vec![7u8; most]));
    let frame = Frame::data(1, 1, vec![7u8; most + 1]);
    let e = encode_frame(&frame, &key, &nonce, 0).unwrap_err();
    assert_eq!(e.message(), "Invalid frame length: 16777200 (max 16777216)");
}
