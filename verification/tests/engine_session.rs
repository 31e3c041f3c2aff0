//! The handshake, with the bytes handed from one side to the other.

use aetherlink::client::threads::{
    after_poll, after_read, read_wire_header, sealed_bytes, Turn, WireRead, MAX_WIRE_BODY,
};
use aetherlink::crypto::auth::{generate_nonce, NonceCache};
use aetherlink::crypto::PROTOCOL_VERSION;
use aetherlink::engine::session::{
    check_psk, check_version, client_hello, client_session, let_in_at, read_auth_header,
    read_credentials, server_reply, server_session, session_salt, Credentials,
    ServerHandshake, AUTH_OK, REPLY_SIZE,
};
use aetherlink::engine::CoreError;
use aetherlink::frame::codec::FrameHeader;
use aetherlink::frame::FRAME_HEADER_SIZE;
use aetherlink::mux::manager::SealedFrame;

const PSK: &[u8] = b"phase-a-test-psk-32-bytes-long!!!!";

/// What the server reads out of a hello.
fn understood(hello: &[u8]) -> Result<Credentials, CoreError> {
    check_version(hello[0])?;
    let header = read_auth_header(&hello[1..1 + FRAME_HEADER_SIZE])?;
    read_credentials(&header, &hello[1 + FRAME_HEADER_SIZE..])
}

/// A server that reads bytes as far as it wants to.
fn served<'a>(
    psk: &'a [u8],
    bytes: &[u8],
    cache: &mut NonceCache,
) -> Result<ServerHandshake<'a>, CoreError> {
    let mut server = ServerHandshake::new(psk)?;
    let mut rest = bytes;
    while let Some(n) = server.wants() {
        let (now, later) = rest.split_at(n);
        server.take(now, cache)?;
        rest = later;
    }
    Ok(server)
}

fn reply_of(server_nonce: &[u8; 32]) -> [u8; 33] {
    server_reply(server_nonce).try_into().expect("reply size")
}

/// A frame over the wire and back.
fn over_the_wire(frame: &SealedFrame) -> (FrameHeader, Vec<u8>) {
    let bytes = sealed_bytes(&frame.header, &frame.ciphertext);
    let header = read_wire_header(&bytes[..FRAME_HEADER_SIZE]).expect("header");
    assert_eq!(bytes.len(), FRAME_HEADER_SIZE + header.length as usize);
    (header, bytes[FRAME_HEADER_SIZE..].to_vec())
}

#[test]
fn full_handshake_then_data_both_directions() {
    // Given: shared PSK and both nonces
    let mut cache = NonceCache::new();
    let nonce = [0xA1u8; 32];
    let hello = client_hello(PSK, &nonce).expect("hello");
    let server = served(PSK, &hello, &mut cache).expect("server hs");
    let (reply, mut sess) = server.answer(&[0x5Au8; 32]);
    let reply: [u8; 33] = reply.try_into().expect("reply size");
    let mut cli = client_session(PSK, &nonce, &reply).expect("client hs");
    sess.mux.open_tcp("10.0.0.9", 80).expect("server open stream");
    let id = cli.mux.open_tcp("10.0.0.9", 80).expect("client open stream");
    assert_eq!(id, 1);
    // When: client seals + sends DATA over the wire
    let sealed = cli
        .mux
        .seal_data(cli.keys.tx_key(), id, b"hello-server", 128)
        .expect("client seal");
    let (header, ct) = over_the_wire(&sealed);
    // Then: opens with the derived server-rx key
    let pt = sess.mux.open_data(sess.keys.rx_key(), &header, &ct).expect("server open");
    assert_eq!(pt, b"hello-server");
    // And the server reply seals under server-tx (= client-rx).
    let sealed = sess
        .mux
        .seal_data(sess.keys.tx_key(), 1, b"hello-client", 128)
        .expect("server seal");
    let (header, ct) = over_the_wire(&sealed);
    let back = cli.mux.open_data(cli.keys.rx_key(), &header, &ct).expect("client open");
    assert_eq!(back, b"hello-client");
}

#[test]
fn wrong_psk_rejected_both_sides() {
    // Given: server with PSK-A, client with PSK-B
    let mut cache = NonceCache::new();
    let nonce = [0xB2u8; 32];
    let hello = client_hello(b"wrong-psk-32-bytes-long-!!!!!!!!!", &nonce).expect("hello");
    // When: AUTH token does not verify → Then: fails closed
    assert!(served(PSK, &hello, &mut cache).is_err());
    // And: the nonce of a refused client is not used up.
    assert!(cache.is_empty());
}

#[test]
fn nonce_replay_rejected() {
    // Given: one NonceCache shared across connections
    let mut cache = NonceCache::new();
    let nonce = [0xC3u8; 32];
    let hello = client_hello(PSK, &nonce).expect("hello");
    // First handshake succeeds.
    assert!(served(PSK, &hello, &mut cache).is_ok());
    // When: nonce already seen → Then: rejected.
    assert!(served(PSK, &hello, &mut cache).is_err());
}

#[test]
fn bad_preface_version_rejected() {
    // When: version byte != PROTOCOL_VERSION → Then: rejected.
    let mut cache = NonceCache::new();
    let e = served(PSK, &[0xFF], &mut cache).err().expect("bad preface");
    assert!(e.message().contains("bad preface version 255"));
    assert!(check_version(PROTOCOL_VERSION).is_ok());
}

#[test]
fn connections_get_isolated_keys() {
    // Given: one server, one shared replay cache
    let mut cache = NonceCache::new();
    // When: client connects twice (fresh random nonce each time)
    let mut connect = || {
        let nonce = generate_nonce();
        let hello = client_hello(PSK, &nonce).expect("hello");
        let server = served(PSK, &hello, &mut cache).expect("server hs");
        let (reply, sess) = server.answer(&generate_nonce());
        let reply: [u8; 33] = reply.try_into().expect("reply size");
        (client_session(PSK, &nonce, &reply).expect("client hs"), sess)
    };
    let (mut up1, server1) = connect();
    let (mut up2, server2) = connect();
    // Then: traffic keys differ per connection...
    assert_ne!(up1.keys.tx_key(), up2.keys.tx_key());
    assert_ne!(server1.keys.tx_key(), server2.keys.tx_key());
    // ...and a frame sealed under conn-1 does not open under conn-2 keys.
    let id = up1.mux.open_tcp("10.9.9.9", 80).expect("open");
    let sealed = up1.mux.seal_data(up1.keys.tx_key(), id, b"secret", 128).expect("seal");
    up2.mux.open_tcp("10.9.9.9", 80).expect("open");
    assert!(
        up2.mux.open_data(up2.keys.rx_key(), &sealed.header, &sealed.ciphertext).is_err(),
        "cross-connection open must fail"
    );
}

#[test]
fn salt_is_both_nonces() {
    assert_eq!(session_salt(&[1u8; 32], &[2u8; 32]), [vec![1u8; 32], vec![2u8; 32]].concat());
    let one = server_session(PSK, &[1u8; 32], &[2u8; 32]);
    let two = server_session(PSK, &[1u8; 32], &[3u8; 32]);
    assert_ne!(one.keys.rx_key(), two.keys.rx_key());
}

#[test]
fn same_nonce_is_let_in_after_its_lifetime() {
    let mut cache = NonceCache::new();
    let who = understood(&client_hello(PSK, &[4u8; 32]).expect("hello")).expect("understood");
    assert!(let_in_at(PSK, &who, &mut cache, 0).is_ok());
    assert!(let_in_at(PSK, &who, &mut cache, 299_000_000_000).is_err());
    assert!(let_in_at(PSK, &who, &mut cache, 300_000_000_000).is_ok());
}

#[test]
fn refusing_reply_is_no_session() {
    let mut reply = reply_of(&[9u8; 32]);
    assert_eq!(reply.len(), REPLY_SIZE);
    assert_eq!(reply[32], AUTH_OK);
    reply[32] = 1;
    assert!(client_session(PSK, &[1u8; 32], &reply).is_err());
}

#[test]
fn empty_key_is_refused() {
    assert!(check_psk(b"").is_err());
    assert!(check_psk(b"x").is_ok());
    assert!(client_hello(b"", &[0u8; 32]).is_err());
    assert!(ServerHandshake::new(b"").is_err());
}

#[test]
fn hello_that_is_no_auth_frame_is_refused() {
    let mut hello = client_hello(PSK, &[6u8; 32]).expect("hello");
    hello[4] = 0;
    assert!(understood(&hello).is_err());
}

#[test]
fn body_that_is_too_long_is_refused() {
    let mut header = read_wire_header(&over_bytes(MAX_WIRE_BODY as u32)).expect("largest");
    assert_eq!(header.length as usize, MAX_WIRE_BODY);
    assert!(read_wire_header(&over_bytes(MAX_WIRE_BODY as u32 + 1)).is_err());
    header.length = 3;
    assert_eq!(sealed_bytes(&header, b"abc").len(), FRAME_HEADER_SIZE + 3);
    assert!(read_wire_header(&[0u8; 5]).is_err());
}

fn over_bytes(length: u32) -> Vec<u8> {
    let mut bytes = vec![0u8; FRAME_HEADER_SIZE];
    bytes[..3].copy_from_slice(&length.to_be_bytes()[1..]);
    bytes[3] = aetherlink::protocol::FrameType::Data.code();
    bytes
}

#[test]
fn pump_turns() {
    assert!(matches!(after_poll(None, true), Turn::Stop));
    assert!(matches!(after_poll(Some(0), true), Turn::Rest));
    assert!(matches!(after_poll(Some(2), true), Turn::Go));
    assert!(matches!(after_poll(Some(2), false), Turn::Stop));
    assert!(matches!(after_read(WireRead::Idle, true), Turn::Go));
    assert!(matches!(after_read(WireRead::Broken, true), Turn::Stop));
}

#[test]
fn stages_of_the_server() {
    let hello = client_hello(PSK, &[8u8; 32]).expect("hello");
    let mut cache = NonceCache::new();
    let mut server = ServerHandshake::new(PSK).expect("key");
    assert_eq!(server.wants(), Some(1));
    assert!(server.take_at(&hello[..1], &mut cache, 0).is_ok());
    assert_eq!(server.wants(), Some(24));
    assert!(server.take_at(&hello[1..25], &mut cache, 0).is_ok());
    assert_eq!(server.wants(), Some(64));
    assert!(server.take_at(&hello[25..], &mut cache, 0).is_ok());
    assert_eq!(server.wants(), None);
    assert_eq!(cache.len(), 1);
    let (reply, _) = server.answer(&[3u8; 32]);
    assert_eq!(reply, server_reply(&[3u8; 32]));
}
