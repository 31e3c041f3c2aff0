//! Packets read and built.

use aetherlink::net::Ipv4Addr;

use aetherlink::netstack::smoltcp_wrapper::{
    build_tcp_packet, build_tcp_packet_full, build_udp_packet, parse_ipv4_packet,
};

fn v4(a: u8, b: u8, c: u8, d: u8) -> Ipv4Addr {
    Ipv4Addr::new(a, b, c, d)
}

#[test]
fn parse_tcp_syn_fields() {
    // Given: SYN built by the pump itself
    let raw = build_tcp_packet(
        v4(10, 0, 0, 2),
        v4(93, 184, 216, 34),
        40001,
        443,
        true,
        false,
        false,
        0x1122_3344,
        0,
        &[],
    );
    // When: parsed back
    let pkt = parse_ipv4_packet(&raw).expect("parse");
    // Then: every field survives the roundtrip.
    assert_eq!((pkt.src, pkt.dst), (v4(10, 0, 0, 2), v4(93, 184, 216, 34)));
    let seg = pkt.tcp().expect("tcp segment");
    assert_eq!((seg.src_port, seg.dst_port), (40001, 443));
    assert!(seg.syn && !seg.ack && !seg.psh && !seg.rst && !seg.fin);
    assert_eq!(seg.seq, 0x1122_3344);
    assert!(seg.payload.is_empty());
}

#[test]
fn parse_udp_dns_query_transparent() {
    // Given: DNS query bytes as UDP payload
    let query = b"\xab\xcd\x01\x00\x00\x01\x00\x00\x00\x00\x00\x00";
    let raw = build_udp_packet(v4(10, 0, 0, 2), v4(10, 255, 0, 1), 53001, 53, query);
    // When: parsed back
    let pkt = parse_ipv4_packet(&raw).expect("parse");
    // Then: ports + payload byte-identical (DNS transparency).
    assert_eq!((pkt.src, pkt.dst), (v4(10, 0, 0, 2), v4(10, 255, 0, 1)));
    let dgram = pkt.udp().expect("udp datagram");
    assert_eq!((dgram.src_port, dgram.dst_port), (53001, 53));
    assert_eq!(dgram.payload, query);
}

#[test]
fn tcp_reply_swaps_endpoints() {
    // Given: inbound SYN-ACK built as a reply
    let raw = build_tcp_packet(
        v4(93, 184, 216, 34),
        v4(10, 0, 0, 2),
        443,
        40001,
        true,
        true,
        false,
        0x5566_7788,
        0x1122_3345,
        &[],
    );
    // When: parsed back → Then: swapped endpoints, SYN+ACK set.
    let pkt = parse_ipv4_packet(&raw).expect("parse");
    assert_eq!((pkt.src, pkt.dst), (v4(93, 184, 216, 34), v4(10, 0, 0, 2)));
    let seg = pkt.tcp().expect("tcp");
    assert!(seg.syn && seg.ack);
    assert_eq!(seg.seq, 0x5566_7788);
    assert_eq!(seg.ack_num, 0x1122_3345);
}

#[test]
fn tcp_data_payload_roundtrip() {
    // Given: PSH+ACK with payload
    let raw = build_tcp_packet(
        v4(10, 0, 0, 2),
        v4(93, 184, 216, 34),
        40001,
        443,
        false,
        true,
        true,
        1000,
        5000,
        b"GET / HTTP/1.0\r\n\r\n",
    );
    // When/Then: payload survives untouched.
    let pkt = parse_ipv4_packet(&raw).expect("parse");
    let seg = pkt.tcp().expect("tcp");
    assert!(seg.psh && seg.ack && !seg.syn);
    assert_eq!(seg.payload, b"GET / HTTP/1.0\r\n\r\n");
}

#[test]
fn rejects_non_ipv4_and_truncated() {
    // Given: version-6 first nibble → Then: BadVersion.
    let mut bad = build_udp_packet(v4(10, 0, 0, 2), v4(10, 255, 0, 1), 1, 53, b"q");
    bad[0] = (6 << 4) | (bad[0] & 0x0F);
    assert!(parse_ipv4_packet(&bad).is_err());
    // Given: truncated buffer → Then: Err, never a panic.
    assert!(parse_ipv4_packet(&[0u8; 10]).is_err());
    assert!(parse_ipv4_packet(&[]).is_err());
}

#[test]
fn rejects_tampered_tcp_checksum() {
    // Given: valid SYN with one flipped payload/checksum byte
    let mut raw = build_tcp_packet(
        v4(10, 0, 0, 2),
        v4(93, 184, 216, 34),
        40001,
        443,
        true,
        false,
        false,
        1,
        0,
        b"tamper-me",
    );
    let last = raw.len() - 1;
    raw[last] ^= 0xFF;
    // When/Then: checksum verification fails closed.
    assert!(parse_ipv4_packet(&raw).is_err());
}

#[test]
fn packet_bytes_are_exact() {
    let raw = build_udp_packet(v4(10, 0, 0, 2), v4(10, 255, 0, 1), 1, 53, b"q");
    assert_eq!(raw.len(), 29);
    // Version and header length, then the total length.
    assert_eq!(&raw[..4], &[0x45, 0, 0, 29]);
    assert_eq!(raw[9], 17);
    assert_eq!(&raw[12..20], &[10, 0, 0, 2, 10, 255, 0, 1]);
    assert_eq!(&raw[20..26], &[0, 1, 0, 53, 0, 9]);
    assert_eq!(raw[28], b'q');
    // The header's sixteen-bit words sum to all ones.
    let mut sum: u32 = raw[..20].chunks(2).map(|w| u32::from(w[0]) * 256 + u32::from(w[1])).sum();
    while sum > 0xffff {
        sum = (sum & 0xffff) + (sum >> 16);
    }
    assert_eq!(sum, 0xffff);
}

#[test]
fn header_checksum_is_checked() {
    let mut raw = build_udp_packet(v4(10, 0, 0, 2), v4(10, 255, 0, 1), 1, 53, b"q");
    raw[8] ^= 1;
    assert!(parse_ipv4_packet(&raw).is_err());
}

#[test]
fn fin_and_rst_survive() {
    let raw = build_tcp_packet_full(
        v4(10, 0, 0, 2), v4(10, 255, 0, 1), 1, 2, false, true, false, true, false, 7, 8, b"",
    );
    let pkt = parse_ipv4_packet(&raw).unwrap();
    let seg = pkt.tcp().unwrap();
    assert!(seg.fin && seg.ack && !seg.rst && !seg.syn && !seg.psh);
    assert!(pkt.udp().is_none());
}

#[test]
fn packet_with_one_changed_byte_is_refused() {
    let raw = build_tcp_packet_full(
        v4(10, 0, 0, 2),
        v4(93, 184, 216, 34),
        40001,
        443,
        false,
        true,
        true,
        false,
        false,
        7,
        9,
        b"payload",
    );
    assert!(parse_ipv4_packet(&raw).is_ok());
    for i in 1..raw.len() {
        for change in [0x01u8, 0x80, 0xff] {
            let mut changed = raw.clone();
            changed[i] ^= change;
            assert!(parse_ipv4_packet(&changed).is_err(), "byte {i}");
        }
    }
    let udp = build_udp_packet(v4(10, 0, 0, 2), v4(8, 8, 8, 8), 5000, 53, b"question");
    for i in 28..udp.len() {
        let mut changed = udp.clone();
        changed[i] ^= 0x10;
        assert!(parse_ipv4_packet(&changed).is_err(), "byte {i}");
    }
}
