//! Frame payloads.

use aetherlink::frame::types::{Frame, FramePayload};
use aetherlink::protocol::{AddrType, FrameType};
use bytes::{BufMut, BytesMut};

#[test]
fn test_data_frame_serialization() {
    let frame = Frame::data(1, 100, b"hello".to_vec());
    let serialized = frame.serialize_payload();
    assert_eq!(serialized, b"hello");
}

#[test]
fn test_open_tcp_frame_domain() {
    let frame = Frame::open_tcp(3, 1, "example.com".to_string(), 443);
    let serialized = frame.serialize_payload();

    // Should be: addr_type(1) + addr_len(2) + addr + port(2)
    assert_eq!(serialized[0], AddrType::Domain.code());
    assert_eq!(u16::from_be_bytes([serialized[1], serialized[2]]), 11); // "example.com".len()
    assert_eq!(&serialized[3..14], b"example.com");
    assert_eq!(u16::from_be_bytes([serialized[14], serialized[15]]), 443);
}

#[test]
fn test_open_tcp_frame_ipv4() {
    let frame = Frame::open_tcp(3, 1, "192.168.1.1".to_string(), 80);
    let serialized = frame.serialize_payload();

    assert_eq!(serialized[0], AddrType::Ipv4.code());
}

#[test]
fn test_open_tcp_frame_ipv6() {
    let frame = Frame::open_tcp(3, 1, "::1".to_string(), 80);
    let serialized = frame.serialize_payload();

    assert_eq!(serialized[0], AddrType::Ipv6.code());
}

#[test]
fn test_auth_frame_serialization() {
    let nonce = [0x42u8; 32];
    let token = [0x24u8; 32];
    let frame = Frame::auth(nonce, token);
    let serialized = frame.serialize_payload();

    assert_eq!(serialized.len(), 64);
    assert_eq!(&serialized[0..32], &nonce);
    assert_eq!(&serialized[32..64], &token);
}

#[test]
fn test_window_update_frame() {
    let frame = Frame::window_update(1, 1024);
    let serialized = frame.serialize_payload();

    assert_eq!(serialized.len(), 4);
    assert_eq!(
        u32::from_be_bytes([serialized[0], serialized[1], serialized[2], serialized[3]]),
        1024
    );
}

#[test]
fn test_goaway_frame() {
    let frame = Frame::goaway(0);
    let serialized = frame.serialize_payload();

    assert_eq!(serialized.len(), 4);
    assert_eq!(
        u32::from_be_bytes([serialized[0], serialized[1], serialized[2], serialized[3]]),
        0
    );
}

#[test]
fn test_rst_frame() {
    let frame = Frame::rst(5, 7);
    let serialized = frame.serialize_payload();

    assert_eq!(serialized.len(), 4);
    assert_eq!(
        u32::from_be_bytes([serialized[0], serialized[1], serialized[2], serialized[3]]),
        7
    );
}

#[test]
fn test_open_udp_frame() {
    let frame = Frame::open_udp(7, "8.8.8.8".to_string(), 53);
    let serialized = frame.serialize_payload();

    assert_eq!(serialized[0], AddrType::Ipv4.code());
    assert_eq!(u16::from_be_bytes([serialized[1], serialized[2]]), 7); // "8.8.8.8".len()
}

#[test]
fn test_udp_datagram_frame() {
    let frame = Frame::udp_datagram(9, b"dns query".to_vec());
    let serialized = frame.serialize_payload();

    assert_eq!(serialized, b"dns query");
}

#[test]
fn test_deserialize_open_tcp() {
    let mut buf = BytesMut::new();
    buf.put_u8(AddrType::Domain.code());
    buf.put_u16(11);
    buf.put_slice(b"example.com");
    buf.put_u16(443);

    let payload = FramePayload::decode(FrameType::OpenTcp, &mut buf).unwrap();

    match payload {
        FramePayload::OpenTcp {
            addr_type,
            addr,
            port,
        } => {
            assert_eq!(addr_type, AddrType::Domain);
            assert_eq!(addr, "example.com");
            assert_eq!(port, 443);
        }
        _ => panic!("Wrong payload type"),
    }
}

#[test]
fn test_deserialize_auth() {
    let mut buf = BytesMut::new();
    buf.put_slice(&[0x42u8; 32]);
    buf.put_slice(&[0x24u8; 32]);

    let payload = FramePayload::decode(FrameType::Auth, &mut buf).unwrap();

    match payload {
        FramePayload::Auth {
            client_nonce,
            token,
        } => {
            assert_eq!(client_nonce, [0x42u8; 32]);
            assert_eq!(token, [0x24u8; 32]);
        }
        _ => panic!("Wrong payload type"),
    }
}

#[test]
fn short_payloads_are_named() {
    let e = Frame::deserialize_payload(FrameType::Auth, &[0u8; 63], 0, 0, 0).unwrap_err();
    assert_eq!(e.message(), "Insufficient buffer: need 64, have 63");
    let e = Frame::deserialize_payload(FrameType::Rst, &[0u8; 3], 0, 0, 0).unwrap_err();
    assert_eq!(e.message(), "Insufficient buffer: need 4, have 3");
}

#[test]
fn address_that_is_no_text_is_refused() {
    let raw = [AddrType::Domain.code(), 0, 2, 0xff, 0xfe, 0, 80];
    assert!(Frame::deserialize_payload(FrameType::OpenTcp, &raw, 0, 0, 0).is_err());
}

#[test]
fn payloads_are_read_back() {
    let frame = Frame::open_udp(7, "example.com".to_string(), 53);
    let bytes = frame.serialize_payload();
    let back = Frame::deserialize_payload(FrameType::OpenUdp, &bytes, 7, 0, 0).unwrap();
    assert_eq!(back.payload, frame.payload);
}
