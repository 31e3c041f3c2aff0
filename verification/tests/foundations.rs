//! Addresses, text tables and the names of errors.

use aetherlink::client::ClientError;
use aetherlink::crypto::CryptoError;
use aetherlink::engine::CoreError;
use aetherlink::frame::FrameError;
use aetherlink::mux::flow::UdpFlow;
use aetherlink::mux::stream::TcpStream;
use aetherlink::mux::MuxError;
use aetherlink::net::{mask_of, mask_prefix, parses_as_ipv6, Ipv4Addr, SocketAddrV4};
use aetherlink::netstack::sockets::{PumpEvent, Received, SockKind, SocketTable, TcpPhase};
use aetherlink::netstack::NetstackError;
use aetherlink::protocol::{AddrType, FrameType};
use aetherlink::table::TextMap;

#[test]
fn addresses_are_read_and_written() {
    for text in ["0.0.0.0", "1.2.3.4", "255.255.255.255", "192.168.31.95"] {
        assert_eq!(Ipv4Addr::parse(text).expect("address").to_text(), text);
    }
    for text in ["", "1.2.3", "1.2.3.4.5", "256.1.1.1", "01.2.3.4", "1.2.3.4 ", "a.b.c.d"] {
        assert!(Ipv4Addr::parse(text).is_none(), "{text}");
    }
}

#[test]
fn addresses_are_told_apart() {
    assert!(Ipv4Addr::new(172, 31, 0, 1).is_private());
    assert!(!Ipv4Addr::new(172, 32, 0, 1).is_private());
    assert!(Ipv4Addr::new(239, 0, 0, 1).is_multicast());
    assert!(!Ipv4Addr::new(240, 0, 0, 1).is_multicast());
    assert!(Ipv4Addr::new(10, 1, 2, 3).in_block(Ipv4Addr::new(10, 0, 0, 0), 8));
    assert!(!Ipv4Addr::new(11, 1, 2, 3).in_block(Ipv4Addr::new(10, 0, 0, 0), 8));
    assert!(Ipv4Addr::new(11, 1, 2, 3).in_block(Ipv4Addr::new(10, 0, 0, 0), 0));
    assert_eq!(Ipv4Addr::new(1, 2, 3, 4).to_bits(), 0x0102_0304);
    assert_eq!(Ipv4Addr::from_bits(0x0102_0304), Ipv4Addr::new(1, 2, 3, 4));
}

#[test]
fn masks() {
    assert_eq!(mask_of(30).to_text(), "255.255.255.252");
    assert_eq!(mask_of(0).to_text(), "0.0.0.0");
    assert_eq!(mask_prefix(mask_of(13)), 13);
}

#[test]
fn other_addresses() {
    assert!(parses_as_ipv6("::1"));
    assert!(parses_as_ipv6("2001:db8::1"));
    assert!(!parses_as_ipv6("1.2.3.4"));
    assert!(!parses_as_ipv6("example.com"));
}

#[test]
fn set_values_are_read_back() {
    let mut map = TextMap::new();
    map.insert("a", "1");
    map.insert("b", "2");
    map.insert("a", "3");
    assert_eq!(map.len(), 2);
    assert_eq!(map.get("a").map(String::as_str), Some("3"));
    assert_eq!(map.get("c"), None);
    assert_eq!(map.key_with("2").map(String::as_str), Some("b"));
    assert_eq!((map.key_at(1), map.value_at(1)), ("b", "2"));
}

#[test]
fn codes_are_read_back() {
    for code in 0u8..=255 {
        if let Some(t) = FrameType::from_code(code) {
            assert_eq!(t.code(), code);
        }
        if let Some(t) = AddrType::from_code(code) {
            assert_eq!(t.code(), code);
        }
    }
}

#[test]
fn targets_are_checked() {
    assert!(UdpFlow::new(1, "a", 53).is_ok());
    assert_eq!(UdpFlow::new(1, "", 53).err().expect("address").message().is_empty(), false);
    assert!(UdpFlow::new(1, "a", 0).is_err());
    assert!(TcpStream::new(1, "a", 0).is_err());
    assert!(TcpStream::new(1, "", 80).is_err());
}

#[test]
fn errors_inside_errors_are_told() {
    let crypto = CryptoError::InvalidKeyLength { expected: 32, actual: 5 };
    assert_eq!(crypto.message(), "Invalid key length: expected 32, got 5");
    let frame = FrameError::Crypto(crypto);
    assert_eq!(frame.message(), "Crypto error: Invalid key length: expected 32, got 5");
    let mux = MuxError::Frame(frame);
    assert_eq!(
        mux.message(),
        "Frame error: Crypto error: Invalid key length: expected 32, got 5"
    );
    assert!(ClientError::Mux(mux).message().ends_with("got 5"));
    assert_eq!(NetstackError::InterfaceNotConfigured.message(), "Interface not configured");
    assert!(CoreError::ConfigError("x".to_string()).message().ends_with("x"));
}

#[test]
fn sockets_report_what_came() {
    let mut table = SocketTable::new(Ipv4Addr::new(10, 255, 0, 2));
    table.register(1, SockKind::Tcp);
    table.register(2, SockKind::Udp);
    assert_eq!(table.addr(), Ipv4Addr::new(10, 255, 0, 2));
    assert!(matches!(table.kind(1), Some(SockKind::Tcp)));
    assert!(table.kind(3).is_none());
    let peer = SocketAddrV4 { ip: Ipv4Addr::new(10, 0, 0, 9), port: 40001 };
    let first = table.observe_tcp(1, TcpPhase::Established, Some(peer), vec![b"hi".to_vec()]);
    assert_eq!(first.len(), 2);
    assert!(matches!(&first[0], PumpEvent::TcpAccepted { handle: 1, peer: p } if p.port == 40001));
    assert!(matches!(&first[1], PumpEvent::TcpData { handle: 1, data } if data.as_slice() == b"hi"));
    assert!(table.observe_tcp(1, TcpPhase::Established, Some(peer), vec![]).is_empty());
    let closed = table.observe_tcp(1, TcpPhase::Closed, None, vec![]);
    assert!(matches!(&closed[..], [PumpEvent::TcpClosed { handle: 1 }]));
    assert!(table.observe_tcp(1, TcpPhase::Closed, None, vec![]).is_empty());
    let got = table.observe_udp(2, &vec![Received { data: b"q".to_vec(), from: Some(peer) }]);
    assert!(matches!(&got[..], [PumpEvent::UdpDatagram { handle: 2, .. }]));
    assert_eq!(table.advance(50), 50);
    assert_eq!(table.advance(50), 100);
}
