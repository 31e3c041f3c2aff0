//! Packets moved between the device and the tunnel.

use std::collections::VecDeque;
use aetherlink::net::Ipv4Addr;

use aetherlink::client::pump::{is_discovery_noise, DataPump};
use aetherlink::frame::codec::FrameHeader;
use aetherlink::mux::manager::MuxManager;
use aetherlink::netstack::smoltcp_wrapper::{build_udp_packet, parse_ipv4_packet};
use aetherlink::netstack::tun::TunPackets;
use aetherlink::netstack::NetstackError;

const KEY: [u8; 32] = [7u8; 32];
const PAD: usize = 128;

fn client_ip() -> Ipv4Addr {
    Ipv4Addr::new(10, 255, 0, 2)
}

fn dns_upstream() -> Ipv4Addr {
    Ipv4Addr::new(8, 8, 8, 8)
}


/// In-memory TUN stand-in: `feed` pushes inbound, `outbound` drains writes.
#[derive(Debug, Default)]
struct FakeTun {
    inbound: VecDeque<Vec<u8>>,
    outbound: Vec<Vec<u8>>,
}

impl FakeTun {
    fn with_packets(pkts: Vec<Vec<u8>>) -> Self {
        Self {
            inbound: pkts.into(),
            outbound: Vec::new(),
        }
    }
}

impl TunPackets for FakeTun {
    fn try_recv(&mut self) -> Result<Option<Vec<u8>>, NetstackError> {
        Ok(self.inbound.pop_front())
    }

    fn send_packet(&mut self, pkt: &[u8]) -> Result<(), NetstackError> {
        self.outbound.push(pkt.to_vec());
        Ok(())
    }
}

#[test]
fn udp_dns_becomes_open_plus_datagram() {
    // Given: UDP DNS query from TUN toward upstream
    let query = vec![0x12, 0x34, 0x01, 0x00, 0x00, 0x01];
    let udp = build_udp_packet(client_ip(), dns_upstream(), 53000, 53, &query);
    let mut tun = FakeTun::with_packets(vec![udp]);
    let mut pump = DataPump::new(KEY, PAD);
    // When: polling once
    let frames = pump.poll_once(&mut tun).expect("poll");
    // Then: OPEN_UDP (seq 0) + DATAGRAM frames, both parseable server-side
    assert_eq!(frames.len(), 2, "UDP must yield OPEN + DATAGRAM");
    let mut server = MuxManager::new();
    let flow = MuxManager::parse_open_udp(&KEY, &frames[0].header, &frames[0].ciphertext)
        .expect("open parses");
    assert_eq!(flow.addr, dns_upstream().to_text());
    assert_eq!(flow.port, 53);
    server
        .register_inbound(flow.id, &flow.addr, flow.port, true)
        .expect("register");
    let dgram_hdr = FrameHeader {
        length: frames[1].header.length,
        frame_type: frames[1].header.frame_type,
        flags: 0,
        stream_id: flow.id,
        sequence: frames[1].header.sequence,
    };
    let payload = server
        .open_datagram(&KEY, &dgram_hdr, &frames[1].ciphertext)
        .expect("datagram opens");
    assert_eq!(payload, query);
}

#[test]
fn mux_datagram_becomes_udp_packet_in_tun() {
    // Given: established UDP flow via a prior poll
    let query = vec![0xAA, 0xBB, 0x01, 0x00];
    let udp = build_udp_packet(client_ip(), dns_upstream(), 53001, 53, &query);
    let mut tun = FakeTun::with_packets(vec![udp]);
    let mut pump = DataPump::new(KEY, PAD);
    let frames = pump.poll_once(&mut tun).expect("poll");
    let id = frames[0].header.stream_id;
    // When: DNS answer arrives via mux
    let mut peer = MuxManager::new();
    peer.register_inbound(id, &dns_upstream().to_text(), 53, true)
        .expect("register");
    let answer = vec![0xAA, 0xBB, 0x81, 0x80];
    let sealed = peer.seal_datagram(&KEY, id, &answer, PAD).expect("seal");
    pump.receive_mux(&sealed.header, &sealed.ciphertext, &mut tun)
        .expect("inject");
    // Then: one UDP packet toward TUN carries the answer
    assert_eq!(tun.outbound.len(), 1);
    let parsed = parse_ipv4_packet(&tun.outbound[0])
        .expect("valid ip");
    assert_eq!(parsed.dst, client_ip());
    let dgram = parsed.udp().expect("udp");
    assert_eq!(dgram.dst_port, 53001);
    assert_eq!(dgram.payload, answer);
}

#[test]
fn truncated_ip_packet_is_dropped() {
    // Given: garbage bytes in TUN
    let mut tun = FakeTun::with_packets(vec![vec![0x45, 0x00, 0x00]]);
    let mut pump = DataPump::new(KEY, PAD);
    // When: polling -> Then: dropped, no frames, no panic
    let frames = pump.poll_once(&mut tun).expect("poll");
    assert!(frames.is_empty());
}

#[test]
fn link_local_discovery_never_enters_tunnel() {
    // Given: LLMNR + mDNS + NetBIOS + SSDP packets from TUN
    let llmnr = build_udp_packet(
        client_ip(),
        Ipv4Addr::new(224, 0, 0, 252),
        55000,
        5355,
        b"llmnr?",
    );
    let mdns = build_udp_packet(
        client_ip(),
        Ipv4Addr::new(224, 0, 0, 251),
        5353,
        5353,
        b"mdns?",
    );
    let netbios = build_udp_packet(client_ip(), Ipv4Addr::new(10, 255, 0, 3), 137, 137, b"nbns?");
    let ssdp = build_udp_packet(
        client_ip(),
        Ipv4Addr::new(239, 255, 255, 250),
        1900,
        1900,
        b"ssdp?",
    );
    let mut tun = FakeTun::with_packets(vec![llmnr, mdns, netbios, ssdp]);
    let mut pump = DataPump::new(KEY, PAD);
    // When: polling -> Then: nothing sealed (link-local by design, TTL 1).
    let frames = pump.poll_once(&mut tun).expect("poll");
    assert!(frames.is_empty());
}

#[test]
fn unicast_dns_still_flows() {
    // Given: ordinary DNS query to the virtual resolver
    let query = build_udp_packet(client_ip(), Ipv4Addr::new(10, 255, 0, 1), 54000, 53, b"q?");
    let mut tun = FakeTun::with_packets(vec![query]);
    let mut pump = DataPump::new(KEY, PAD);
    // When: polling -> Then: OPEN + DATAGRAM as before.
    let frames = pump.poll_once(&mut tun).expect("poll");
    assert_eq!(frames.len(), 2);
}

/// A pump with one open UDP flow, and the flow's stream.
fn open_flow(tun: &mut FakeTun) -> (DataPump, u16) {
    tun.inbound.push_back(build_udp_packet(client_ip(), dns_upstream(), 53002, 53, b"q"));
    let mut pump = DataPump::new(KEY, PAD);
    let frames = pump.poll_once(tun).expect("poll");
    (pump, frames[0].header.stream_id)
}

fn answering(id: u16) -> MuxManager {
    let mut peer = MuxManager::new();
    peer.register_inbound(id, "8.8.8.8", 53, true).expect("register");
    peer
}

#[test]
fn tampered_datagram_is_refused_and_the_true_one_still_passes() {
    let mut tun = FakeTun::default();
    let (mut pump, id) = open_flow(&mut tun);
    let sealed = answering(id).seal_datagram(&KEY, id, b"answer", PAD).expect("seal");
    let mut bad = sealed.ciphertext.clone();
    bad[0] ^= 0xFF;
    assert!(pump.receive_mux(&sealed.header, &bad, &mut tun).is_err());
    assert!(tun.outbound.is_empty());
    assert!(pump.receive_mux(&sealed.header, &sealed.ciphertext, &mut tun).is_ok());
    assert_eq!(tun.outbound.len(), 1);
}

#[test]
fn accepted_datagram_is_not_accepted_again() {
    let mut tun = FakeTun::default();
    let (mut pump, id) = open_flow(&mut tun);
    let sealed = answering(id).seal_datagram(&KEY, id, b"answer", PAD).expect("seal");
    assert!(pump.receive_mux(&sealed.header, &sealed.ciphertext, &mut tun).is_ok());
    assert!(pump.receive_mux(&sealed.header, &sealed.ciphertext, &mut tun).is_err());
    assert_eq!(tun.outbound.len(), 1);
}

#[test]
fn flow_is_opened_once() {
    let mut tun = FakeTun::default();
    let (mut pump, id) = open_flow(&mut tun);
    tun.inbound.push_back(build_udp_packet(client_ip(), dns_upstream(), 53002, 53, b"again"));
    let frames = pump.poll_once(&mut tun).expect("poll");
    assert_eq!(frames.len(), 1);
    assert_eq!(frames[0].header.stream_id, id);
    assert_eq!(frames[0].header.sequence, 2);
}

#[test]
fn oversized_answer_is_left_alone() {
    let mut tun = FakeTun::default();
    let (mut pump, id) = open_flow(&mut tun);
    let big = vec![1u8; 70_000];
    let sealed = answering(id).seal_datagram(&KEY, id, &big, PAD).expect("seal");
    assert!(pump.try_receive_mux(&sealed.header, &sealed.ciphertext, &mut tun).is_none());
    let small = answering(id).seal_datagram(&KEY, id, b"answer", PAD).expect("seal");
    assert!(matches!(
        pump.try_receive_mux(&small.header, &small.ciphertext, &mut tun),
        Some(Ok(_))
    ));
    assert_eq!(tun.outbound.len(), 1);
}

#[test]
fn split_keys_seal_with_one_and_open_with_the_other() {
    let rx: [u8; 32] = [8u8; 32];
    let mut tun = FakeTun::with_packets(vec![build_udp_packet(
        client_ip(), dns_upstream(), 53003, 53, b"q",
    )]);
    let mut pump = DataPump::new_split(KEY, rx, PAD);
    let frames = pump.poll_once(&mut tun).expect("poll");
    let id = frames[0].header.stream_id;
    assert!(MuxManager::parse_open_udp(&KEY, &frames[0].header, &frames[0].ciphertext).is_ok());
    let sealed = answering(id).seal_datagram(&rx, id, b"a", PAD).expect("seal");
    assert!(pump.receive_mux(&sealed.header, &sealed.ciphertext, &mut tun).is_ok());
}

#[test]
fn noise_is_told_by_address_and_port() {
    assert!(is_discovery_noise(Ipv4Addr::new(224, 0, 0, 1), 80));
    assert!(is_discovery_noise(Ipv4Addr::new(255, 255, 255, 255), 80));
    assert!(is_discovery_noise(Ipv4Addr::new(10, 0, 0, 1), 5355));
    assert!(is_discovery_noise(Ipv4Addr::new(10, 0, 0, 1), 5353));
    assert!(!is_discovery_noise(Ipv4Addr::new(10, 0, 0, 1), 53));
}

#[test]
fn frames_of_a_poll_follow_the_packets() {
    let one = build_udp_packet(client_ip(), dns_upstream(), 53000, 53, b"one");
    let two = build_udp_packet(client_ip(), dns_upstream(), 53001, 5000, b"two");
    let three = build_udp_packet(client_ip(), dns_upstream(), 53000, 53, b"three");
    let mut tun = FakeTun::with_packets(vec![one, vec![0u8; 5], two, three]);
    let mut pump = DataPump::new(KEY, PAD);
    let frames = pump.poll_once(&mut tun).expect("poll");
    assert_eq!(frames.len(), 5);
    let mut server = MuxManager::new();
    let mut said = Vec::new();
    for f in &frames {
        if let Ok(flow) = MuxManager::parse_open_udp(&KEY, &f.header, &f.ciphertext) {
            server.register_inbound(flow.id, &flow.addr, flow.port, true).expect("register");
            said.push(format!("open {}:{}", flow.addr, flow.port));
        } else {
            let bytes = server.open_datagram(&KEY, &f.header, &f.ciphertext).expect("datagram");
            said.push(String::from_utf8(bytes).expect("text"));
        }
    }
    assert_eq!(said, ["open 8.8.8.8:53", "one", "open 8.8.8.8:5000", "two", "three"]);
}
