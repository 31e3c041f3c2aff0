//! OPEN frames.

use aetherlink::mux::manager::MuxManager;
use aetherlink::mux::stream::TcpStream;
use aetherlink::protocol::FrameType;

fn key() -> Vec<u8> {
    vec![0x77u8; 32]
}

#[test]
fn tcp_open_roundtrip() {
    // Given: locally opened TCP stream
    let mut mux = MuxManager::new();
    let id = mux.open_tcp("93.184.216.34", 443).expect("open");
    // When: sealing + parsing the OPEN frame
    let sealed = mux.seal_open_tcp(&key(), id, 128).expect("seal open");
    // Then: type + zero seq on the wire, descriptor back on parse.
    assert_eq!(sealed.header.frame_type, FrameType::OpenTcp);
    assert_eq!(sealed.header.sequence, 0);
    let target =
        MuxManager::parse_open_tcp(&key(), &sealed.header, &sealed.ciphertext).expect("parse");
    assert_eq!(
        target,
        TcpStream {
            id,
            addr: "93.184.216.34".to_string(),
            port: 443,
        }
    );
}

#[test]
fn udp_open_roundtrip_domain() {
    // Given: locally opened UDP flow to a name
    let mut mux = MuxManager::new();
    let id = mux.open_udp("example.com", 53).expect("open");
    // When: sealing + parsing the OPEN frame
    let sealed = mux.seal_open_udp(&key(), id, 128).expect("seal open");
    assert_eq!(sealed.header.frame_type, FrameType::OpenUdp);
    assert_eq!(sealed.header.sequence, 0);
    // Then: descriptor back, domain preserved.
    let flow =
        MuxManager::parse_open_udp(&key(), &sealed.header, &sealed.ciphertext).expect("parse");
    assert_eq!(flow.id, id);
    assert_eq!(flow.addr, "example.com");
    assert_eq!(flow.port, 53);
}

#[test]
fn open_rejects_wrong_types() {
    // Given: sealed TCP OPEN + sealed DATA
    let mut mux = MuxManager::new();
    let id = mux.open_tcp("10.0.0.9", 80).expect("open");
    let open = mux.seal_open_tcp(&key(), id, 128).expect("seal open");
    let data = mux.seal_data(&key(), id, b"x", 128).expect("seal data");
    // When/Then: cross-type and cross-frame parsing fails.
    assert!(MuxManager::parse_open_udp(&key(), &open.header, &open.ciphertext).is_err());
    assert!(MuxManager::parse_open_tcp(&key(), &data.header, &data.ciphertext).is_err());
}

#[test]
fn open_rejects_tamper() {
    // Given: valid sealed OPEN
    let mut mux = MuxManager::new();
    let id = mux.open_tcp("10.0.0.9", 80).expect("open");
    let mut sealed = mux.seal_open_tcp(&key(), id, 128).expect("seal open");
    // When: flipping a ciphertext byte → Then: rejected.
    let last = sealed.ciphertext.len() - 1;
    sealed.ciphertext[last] ^= 0x01;
    assert!(MuxManager::parse_open_tcp(&key(), &sealed.header, &sealed.ciphertext).is_err());
}

#[test]
fn seal_open_needs_known_id() {
    // Given: fresh manager, id never opened
    let mux = MuxManager::new();
    // When/Then: sealing OPEN for it fails (no phantom streams).
    assert!(mux.seal_open_tcp(&key(), 1, 128).is_err());
    assert!(mux.seal_open_udp(&key(), 1, 128).is_err());
}

#[test]
fn open_leaves_data_sequencing_alone() {
    // Given: opened stream
    let mut mux = MuxManager::new();
    let id = mux.open_tcp("10.0.0.9", 80).expect("open");
    // When: OPEN sealed first, then DATA
    mux.seal_open_tcp(&key(), id, 128).expect("seal open");
    let data = mux.seal_data(&key(), id, b"hi", 128).expect("seal data");
    // Then: DATA still starts at seq 1 (OPEN lives in seq 0 + own nonce).
    assert_eq!(data.header.sequence, 1);
}

#[test]
fn genuine_frame_passes_once_after_an_altered_copy() {
    let mut near = MuxManager::new();
    let id = near.open_tcp("10.0.0.9", 80).expect("open");
    let mut far = MuxManager::new();
    far.register_inbound(id, "10.0.0.9", 80, false).expect("register");
    let first = near.seal_data(&key(), id, b"first", 128).expect("seal");
    let second = near.seal_data(&key(), id, b"second", 128).expect("seal");
    let mut altered = first.clone();
    altered.ciphertext[0] ^= 1;
    assert!(far.open_data(&key(), &altered.header, &altered.ciphertext).is_err());
    assert_eq!(far.open_data(&key(), &second.header, &second.ciphertext).expect("open"), b"second");
    assert_eq!(far.open_data(&key(), &first.header, &first.ciphertext).expect("open"), b"first");
    assert!(far.open_data(&key(), &first.header, &first.ciphertext).is_err());
}

#[test]
fn frame_behind_the_window_is_refused() {
    let mut near = MuxManager::new();
    let id = near.open_tcp("10.0.0.9", 80).expect("open");
    let mut far = MuxManager::new();
    far.register_inbound(id, "10.0.0.9", 80, false).expect("register");
    let sealed: Vec<_> =
        (0..1026).map(|_| near.seal_data(&key(), id, b"x", 0).expect("seal")).collect();
    // Sequence numbers 1 to 1026; the highest comes first.
    assert!(far.open_data(&key(), &sealed[1025].header, &sealed[1025].ciphertext).is_ok());
    assert!(far.open_data(&key(), &sealed[1].header, &sealed[1].ciphertext).is_err());
    assert!(far.open_data(&key(), &sealed[2].header, &sealed[2].ciphertext).is_ok());
}

#[test]
fn id_is_open_from_its_opening_to_its_closing() {
    let mut mux = MuxManager::new();
    let id = mux.open_tcp("10.0.0.9", 80).expect("open");
    let other = mux.open_udp("10.0.0.8", 53).expect("open");
    mux.seal_data(&key(), id, b"x", 0).expect("seal");
    assert!(mux.is_open(id) && mux.target(id).is_some());
    assert!(mux.close(id).is_ok());
    assert!(!mux.is_open(id) && mux.target(id).is_none());
    assert!(mux.seal_data(&key(), id, b"x", 0).is_err());
    assert!(mux.seal_datagram(&key(), id, b"x", 0).is_err());
    assert!(mux.close(id).is_err());
    assert!(mux.is_open(other));
    assert_eq!(mux.target(other).expect("target").port, 53);
    mux.register_inbound(id, "10.0.0.7", 81, false).expect("register");
    assert!(mux.is_open(id));
    assert_eq!(mux.target(id).expect("target").addr, "10.0.0.7");
}
