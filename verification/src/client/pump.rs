//! Bridge between TUN packets and sealed mux frames.
//!
//! TCP ends here: the pump answers the handshake and the close itself, and only
//! payload crosses the tunnel, one OPEN frame and then DATA frames per flow.
//! Datagrams are carried one by one. Whatever is malformed, unknown or tampered
//! with is refused, and nothing of it reaches the TUN device.

use std::collections::HashMap;

use vstd::prelude::*;
use vstd::string::*;

use crate::client::{ClientError, ClientFault};
use crate::frame::codec::{padded_len_fits, pads_within, FrameHeader};
use crate::frame::types::{plain_frame, PayloadModel};
use crate::mux::manager::{
    entries_after, following_id, following_seq, fresh_entry, open_frame, opens_to, received, sealed,
    EntryModel, MuxManager, SealedFrame, SealedModel,
};
use crate::mux::{flow, stream, MuxError, MuxFault};
use crate::net::Ipv4Addr;
use crate::netstack::smoltcp_wrapper::{
    build_tcp_packet_full, build_udp_packet, parse_ipv4_packet, parsed_packet, tcp_packet,
    udp_packet, L4Model, PacketModel, ParsedPacket, ParsedPayload, TcpHeader, TcpModel,
    TcpSegment, UdpModel,
};
use crate::netstack::tun::{delivered, taken, TunEvent, TunPackets};
use crate::netstack::{NetstackError, NetstackFault};
use crate::protocol::FrameType;
use crate::text::{decimal, decimal_of, joined};

pub mod laws;

verus! {

/// A flow, named from the side of the local application.
#[derive(Clone, Copy, Debug, PartialEq, Eq, Structural)]
pub struct FlowKey {
    pub src: Ipv4Addr,
    pub src_port: u16,
    pub dst: Ipv4Addr,
    pub dst_port: u16,
    pub is_udp: bool,
}

/// How far the TCP handshake of a flow has come.
#[derive(Clone, Copy, Debug, PartialEq, Eq, Structural)]
pub enum TcpState {
    /// The SYN was answered; the completing ACK is awaited.
    SynReceived,
    /// Payload flows.
    Established,
}

/// A TCP flow that ends here.
#[derive(Clone, Copy, Debug, PartialEq, Eq, Structural)]
pub struct TcpFlow {
    /// Stream of the flow, from its first payload on.
    pub id: Option<u16>,
    /// Initial sequence number of the application.
    pub client_isn: u32,
    /// Our initial sequence number.
    pub server_iss: u32,
    /// The next sequence number we send.
    pub server_next: u32,
    /// Payload bytes taken from the application so far.
    pub client_bytes: u32,
    pub state: TcpState,
}

impl FlowKey {
    /// The flow as a number.
    pub open spec fn spec_code(self) -> u128 {
        (self.src.spec_bits() * 0x2_0000_0000_0000_0000 + self.dst.spec_bits() * 0x2_0000_0000
            + self.src_port * 0x2_0000 + self.dst_port * 2 + if self.is_udp {
            1int
        } else {
            0int
        }) as u128
    }

    /// Different flows are different numbers.
    pub proof fn code_identifies_flow(self, other: FlowKey)
        requires
            self.spec_code() == other.spec_code(),
        ensures
            self == other,
    {
        self.src.bits_identify_address(other.src);
        self.dst.bits_identify_address(other.dst);
    }

    fn code(&self) -> (r: u128)
        ensures
            r == self.spec_code(),
    {
        self.src.to_bits() as u128 * 0x2_0000_0000_0000_0000 + self.dst.to_bits() as u128
            * 0x2_0000_0000 + self.src_port as u128 * 0x2_0000 + self.dst_port as u128 * 2
            + if self.is_udp {
            1u128
        } else {
            0u128
        }
    }
}

/// A table whose numbers are flows.
pub open spec fn by_flow<V>(table: Map<u128, V>) -> Map<FlowKey, V> {
    Map::new(
        |k: FlowKey| table.contains_key(k.spec_code()),
        |k: FlowKey| table[k.spec_code()],
    )
}

proof fn by_flow_insert<V>(table: Map<u128, V>, key: FlowKey, v: V)
    ensures
        by_flow(table.insert(key.spec_code(), v)) == by_flow(table).insert(key, v),
{
    let left = by_flow(table.insert(key.spec_code(), v));
    let right = by_flow(table).insert(key, v);
    assert forall|k: FlowKey| #[trigger] left.contains_key(k) == right.contains_key(k) by {
        if k.spec_code() == key.spec_code() {
            k.code_identifies_flow(key);
        }
    }
    assert forall|k: FlowKey| left.contains_key(k) implies #[trigger] left[k] == right[k] by {
        if k.spec_code() == key.spec_code() {
            k.code_identifies_flow(key);
        }
    }
    assert(left =~= right);
}

proof fn by_flow_remove<V>(table: Map<u128, V>, key: FlowKey)
    ensures
        by_flow(table.remove(key.spec_code())) == by_flow(table).remove(key),
{
    let left = by_flow(table.remove(key.spec_code()));
    let right = by_flow(table).remove(key);
    assert forall|k: FlowKey| left.contains_key(k) == right.contains_key(k) by {
        if k.spec_code() == key.spec_code() {
            k.code_identifies_flow(key);
        }
    }
    assert(left =~= right);
}

/// What a pump knows.
#[verifier::ext_equal]
pub struct PumpModel {
    /// The open mux ids.
    pub entries: Map<u16, EntryModel>,
    /// The mux id that is handed out next.
    pub next_id: u16,
    /// How many mux ids may be open at once.
    pub max: nat,
    /// Key that seals what goes to the server.
    pub tx: Seq<u8>,
    /// Key that opens what comes from the server.
    pub rx: Seq<u8>,
    /// Multiple that frames are padded to.
    pub pad: nat,
    /// The ids of the UDP flows.
    pub udp: Map<FlowKey, u16>,
    /// The flows of the ids.
    pub by_id: Map<u16, FlowKey>,
    /// The TCP flows.
    pub tcp: Map<FlowKey, TcpFlow>,
    /// The TCP flows of the ids.
    pub tcp_by_id: Map<u16, FlowKey>,
    /// The initial sequence number of the next TCP flow.
    pub iss_next: u32,
}

/// Whether an address names no single host: multicast, broadcast or unspecified.
pub open spec fn no_single_host(dst: Ipv4Addr) -> bool {
    ||| 0xe000_0000 <= dst.spec_bits() <= 0xefff_ffff
    ||| dst.spec_bits() == 0xffff_ffff
    ||| dst.spec_bits() == 0
}

/// Whether a datagram is link-local discovery chatter, which has no business in a
/// tunnel: it goes to no single host, or to the ports of NetBIOS, mDNS, LLMNR or
/// SSDP.
pub open spec fn is_noise(dst: Ipv4Addr, port: u16) -> bool {
    ||| no_single_host(dst)
    ||| port == 137
    ||| port == 138
    ||| port == 5353
    ||| port == 5355
    ||| port == 1900
}

fn names_no_single_host(dst: Ipv4Addr) -> (r: bool)
    ensures
        r == no_single_host(dst),
{
    dst.is_multicast() || dst.is_broadcast() || dst.is_unspecified()
}

/// Whether a datagram is link-local discovery chatter.
pub fn is_discovery_noise(dst: Ipv4Addr, port: u16) -> (r: bool)
    ensures
        r == is_noise(dst, port),
{
    names_no_single_host(dst) || port == 137 || port == 138 || port == 5353 || port == 5355 || port
        == 1900
}

/// The flow of a TCP segment.
pub open spec fn tcp_key(packet: PacketModel, seg: TcpModel) -> FlowKey {
    FlowKey {
        src: packet.src,
        src_port: seg.src_port,
        dst: packet.dst,
        dst_port: seg.dst_port,
        is_udp: false,
    }
}

/// The flow of a datagram.
pub open spec fn udp_key(packet: PacketModel, dgram: UdpModel) -> FlowKey {
    FlowKey {
        src: packet.src,
        src_port: dgram.src_port,
        dst: packet.dst,
        dst_port: dgram.dst_port,
        is_udp: true,
    }
}

/// What is done with a TCP segment.
#[derive(Clone, Copy, Debug, PartialEq, Eq, Structural)]
pub enum TcpMove {
    /// Nothing.
    Drop,
    /// The flow is forgotten.
    Forget,
    /// A SYN opens a flow, and is answered.
    Accept,
    /// The answer to the SYN is repeated.
    Repeat,
    /// A bare ACK, which may complete the handshake.
    Settle,
    /// The flow is closed, and the close is answered.
    Finish,
    /// Payload goes to the server.
    Forward,
}

/// Whether a segment completes the handshake of a flow.
pub open spec fn completes(flow: TcpFlow, seg: TcpModel) -> bool {
    seg.ack && !seg.syn && seg.ack_num == flow.server_iss.wrapping_add(1)
}

/// What is done with a TCP segment.
pub open spec fn tcp_move(tcp: Map<FlowKey, TcpFlow>, key: FlowKey, seg: TcpModel) -> TcpMove {
    if no_single_host(key.dst) {
        TcpMove::Drop
    } else if seg.rst {
        TcpMove::Forget
    } else if !tcp.contains_key(key) {
        if seg.syn && !seg.ack {
            TcpMove::Accept
        } else {
            TcpMove::Drop
        }
    } else {
        let flow = tcp[key];
        if seg.syn && !seg.ack && seg.seq == flow.client_isn {
            TcpMove::Repeat
        } else if flow.state == TcpState::SynReceived && !completes(flow, seg) {
            TcpMove::Drop
        } else if seg.fin {
            TcpMove::Finish
        } else if seg.payload.len() == 0 {
            TcpMove::Settle
        } else {
            TcpMove::Forward
        }
    }
}

/// A TCP packet to the application of a flow.
pub open spec fn tcp_reply(
    key: FlowKey,
    syn: bool,
    psh: bool,
    fin: bool,
    seq: u32,
    ack_num: u32,
    payload: Seq<u8>,
) -> Seq<u8> {
    tcp_packet(
        key.dst,
        key.src,
        TcpHeader {
            src_port: key.dst_port,
            dst_port: key.src_port,
            seq,
            ack_num,
            header_len: 20,
            syn,
            ack: true,
            psh,
            fin,
            rst: false,
            window: 0xffff,
        },
        payload,
    )
}

/// The answer to a SYN.
pub open spec fn syn_ack(key: FlowKey, iss: u32, isn: u32) -> Seq<u8> {
    tcp_reply(key, true, false, false, iss, isn.wrapping_add(1), Seq::empty())
}

/// The answer to a close.
pub open spec fn fin_ack(key: FlowKey, flow: TcpFlow, seg: TcpModel) -> Seq<u8> {
    tcp_reply(
        key,
        false,
        false,
        true,
        flow.server_next,
        seg.seq.wrapping_add(seg.payload.len() as u32).wrapping_add(1),
        Seq::empty(),
    )
}

/// The packet that answers a packet from the TUN device, if there is one.
pub open spec fn reply(m: PumpModel, packet: PacketModel) -> Option<Seq<u8>> {
    match packet.payload {
        L4Model::Tcp(seg) => {
            let key = tcp_key(packet, seg);
            match tcp_move(m.tcp, key, seg) {
                TcpMove::Accept => Some(syn_ack(key, m.iss_next, seg.seq)),
                TcpMove::Repeat => Some(
                    syn_ack(key, m.tcp[key].server_iss, m.tcp[key].client_isn),
                ),
                TcpMove::Finish => Some(fin_ack(key, m.tcp[key], seg)),
                _ => None,
            }
        },
        L4Model::Udp(_) => None,
    }
}

/// The id of a new stream or flow, or why there is none.
pub open spec fn opening(m: PumpModel, key: FlowKey) -> Result<u16, MuxFault> {
    let addr = key.dst.spec_text();
    let bad = if key.is_udp {
        match flow::target_fault(addr, key.dst_port) {
            Some(e) => Some(e.spec_message()),
            None => None,
        }
    } else {
        match stream::target_fault(addr, key.dst_port) {
            Some(e) => Some(e.spec_message()),
            None => None,
        }
    };
    match bad {
        Some(text) => Err(MuxFault::Internal(text)),
        None => if m.entries.len() >= m.max {
            Err(MuxFault::Internal("too many streams"@))
        } else {
            Ok(m.next_id)
        },
    }
}

/// What is known after a stream or flow was opened.
pub open spec fn opened(m: PumpModel, key: FlowKey, id: u16) -> PumpModel {
    PumpModel {
        entries: m.entries.insert(id, fresh_entry(key.is_udp, key.dst.spec_text(), key.dst_port)),
        next_id: following_id(id),
        by_id: m.by_id.insert(id, key),
        udp: if key.is_udp {
            m.udp.insert(key, id)
        } else {
            m.udp
        },
        tcp_by_id: if key.is_udp {
            m.tcp_by_id
        } else {
            m.tcp_by_id.insert(id, key)
        },
        ..m
    }
}

/// The OPEN frame of a stream or flow.
pub open spec fn announcement(m: PumpModel, key: FlowKey, id: u16) -> Result<
    SealedModel,
    MuxFault,
> {
    sealed(m.tx, id, 0, open_frame(key.is_udp, id, key.dst.spec_text(), key.dst_port), m.pad)
}

/// The frame that carries payload, or why there is none.
pub open spec fn outgoing(m: PumpModel, is_udp: bool, id: u16, payload: Seq<u8>) -> Result<
    SealedModel,
    MuxFault,
> {
    if m.entries.contains_key(id) && m.entries[id].is_udp == is_udp {
        let seq = m.entries[id].next_seq;
        let frame = if is_udp {
            plain_frame(FrameType::UdpDatagram, id, 0, PayloadModel::UdpDatagram(payload))
        } else {
            plain_frame(FrameType::Data, id, seq, PayloadModel::Data(payload))
        };
        sealed(m.tx, id, seq, frame, m.pad)
    } else if is_udp {
        Err(MuxFault::FlowClosed(id))
    } else {
        Err(MuxFault::StreamClosed(id))
    }
}

/// What is known after a frame was numbered, whether it could be sealed or not.
pub open spec fn numbered(m: PumpModel, is_udp: bool, id: u16) -> PumpModel {
    if m.entries.contains_key(id) && m.entries[id].is_udp == is_udp {
        let entry = m.entries[id];
        PumpModel {
            entries: m.entries.insert(
                id,
                EntryModel { next_seq: following_seq(entry.next_seq), ..entry },
            ),
            ..m
        }
    } else {
        m
    }
}

/// What is known with a TCP flow noted.
pub open spec fn with_flow(m: PumpModel, key: FlowKey, flow: TcpFlow) -> PumpModel {
    PumpModel { tcp: m.tcp.insert(key, flow), ..m }
}

/// What is known after a TCP flow was forgotten.
pub open spec fn forgotten(m: PumpModel, key: FlowKey) -> PumpModel {
    if m.tcp.contains_key(key) {
        let rest = PumpModel { tcp: m.tcp.remove(key), ..m };
        match m.tcp[key].id {
            Some(id) => PumpModel {
                tcp_by_id: m.tcp_by_id.remove(id),
                by_id: m.by_id.remove(id),
                ..rest
            },
            None => rest,
        }
    } else {
        m
    }
}

/// Sends payload on the stream of a flow, behind the frames in `first`.
pub open spec fn tcp_sent(
    m: PumpModel,
    key: FlowKey,
    flow: TcpFlow,
    id: u16,
    first: Seq<SealedModel>,
    payload: Seq<u8>,
) -> (PumpModel, Result<Seq<SealedModel>, ClientFault>) {
    let after = numbered(m, false, id);
    match outgoing(m, false, id, payload) {
        Err(fault) => (forgotten(with_flow(after, key, flow), key), Err(ClientFault::Mux(fault))),
        Ok(data) => (
            with_flow(
                after,
                key,
                TcpFlow {
                    client_bytes: flow.client_bytes.wrapping_add(payload.len() as u32),
                    ..flow
                },
            ),
            Ok(first.push(data)),
        ),
    }
}

/// Sends payload of a flow to the server. The first payload opens the stream. A
/// flow whose payload cannot be sent is forgotten.
pub open spec fn tcp_forwarded(m: PumpModel, key: FlowKey, flow: TcpFlow, payload: Seq<u8>) -> (
    PumpModel,
    Result<Seq<SealedModel>, ClientFault>,
) {
    match flow.id {
        Some(id) => tcp_sent(m, key, flow, id, Seq::empty(), payload),
        None => match opening(m, key) {
            Err(fault) => (forgotten(with_flow(m, key, flow), key), Err(ClientFault::Mux(fault))),
            Ok(id) => {
                let after = opened(m, key, id);
                let flow = TcpFlow { id: Some(id), ..flow };
                match announcement(after, key, id) {
                    Err(fault) => (
                        forgotten(with_flow(after, key, flow), key),
                        Err(ClientFault::Mux(fault)),
                    ),
                    Ok(open) => tcp_sent(after, key, flow, id, seq![open], payload),
                }
            },
        },
    }
}

/// Sends a datagram to the server. The first datagram opens the flow.
pub open spec fn udp_forwarded(m: PumpModel, key: FlowKey, payload: Seq<u8>) -> (
    PumpModel,
    Result<Seq<SealedModel>, ClientFault>,
) {
    if m.udp.contains_key(key) {
        let id = m.udp[key];
        (
            numbered(m, true, id),
            match outgoing(m, true, id, payload) {
                Err(fault) => Err(ClientFault::Mux(fault)),
                Ok(data) => Ok(seq![data]),
            },
        )
    } else {
        match opening(m, key) {
            Err(fault) => (m, Err(ClientFault::Mux(fault))),
            Ok(id) => {
                let after = opened(m, key, id);
                match announcement(after, key, id) {
                    Err(fault) => (after, Err(ClientFault::Mux(fault))),
                    Ok(open) => (
                        numbered(after, true, id),
                        match outgoing(after, true, id, payload) {
                            Err(fault) => Err(ClientFault::Mux(fault)),
                            Ok(data) => Ok(seq![open, data]),
                        },
                    ),
                }
            },
        }
    }
}

/// An outcome with frames.
pub open spec fn with_frames(out: (PumpModel, Result<Seq<SealedModel>, ClientFault>)) -> (
    PumpModel,
    Result<Option<Seq<SealedModel>>, ClientFault>,
) {
    (
        out.0,
        match out.1 {
            Ok(frames) => Ok(Some(frames)),
            Err(fault) => Err(fault),
        },
    )
}

/// A TCP flow after its SYN.
pub open spec fn fresh_flow(iss: u32, isn: u32) -> TcpFlow {
    TcpFlow {
        id: None,
        client_isn: isn,
        server_iss: iss,
        server_next: iss.wrapping_add(1),
        client_bytes: 0,
        state: TcpState::SynReceived,
    }
}

/// A TCP flow whose handshake is complete.
pub open spec fn established(flow: TcpFlow) -> TcpFlow {
    TcpFlow { state: TcpState::Established, ..flow }
}

/// What is known after a TCP segment, and the frames for the server. `handed` is
/// what became of the answer, where there is one.
pub open spec fn tcp_settled(
    m: PumpModel,
    key: FlowKey,
    seg: TcpModel,
    handed: Result<(), NetstackFault>,
) -> (PumpModel, Result<Option<Seq<SealedModel>>, ClientFault>) {
    match tcp_move(m.tcp, key, seg) {
        TcpMove::Drop => (m, Ok(None)),
        TcpMove::Forget => (forgotten(m, key), Ok(None)),
        TcpMove::Accept => {
            let after = PumpModel { iss_next: m.iss_next.wrapping_add(1), ..m };
            let flow = fresh_flow(m.iss_next, seg.seq);
            match handed {
                Err(fault) => (after, Err(ClientFault::Netstack(fault))),
                Ok(_) => if seg.payload.len() == 0 {
                    (with_flow(after, key, flow), Ok(None))
                } else {
                    with_frames(tcp_forwarded(after, key, flow, seg.payload))
                },
            }
        },
        TcpMove::Repeat => match handed {
            Err(fault) => (forgotten(m, key), Err(ClientFault::Netstack(fault))),
            Ok(_) => (m, Ok(None)),
        },
        TcpMove::Settle => (with_flow(m, key, established(m.tcp[key])), Ok(None)),
        TcpMove::Finish => (
            forgotten(m, key),
            match handed {
                Err(fault) => Err(ClientFault::Netstack(fault)),
                Ok(_) => Ok(None),
            },
        ),
        TcpMove::Forward => with_frames(
            tcp_forwarded(m, key, established(m.tcp[key]), seg.payload),
        ),
    }
}

/// What is known after a packet from the TUN device, and the frames for the
/// server. `handed` is what became of the answer, where there is one.
pub open spec fn settled(
    m: PumpModel,
    packet: PacketModel,
    handed: Result<(), NetstackFault>,
) -> (PumpModel, Result<Option<Seq<SealedModel>>, ClientFault>) {
    match packet.payload {
        L4Model::Tcp(seg) => tcp_settled(m, tcp_key(packet, seg), seg, handed),
        L4Model::Udp(dgram) => if is_noise(packet.dst, dgram.dst_port) {
            (m, Ok(None))
        } else {
            with_frames(udp_forwarded(m, udp_key(packet, dgram), dgram.payload))
        },
    }
}

/// The payload of a frame from the server, or why the frame is refused.
pub open spec fn inbound(m: PumpModel, frame: SealedModel) -> Result<Seq<u8>, ClientFault> {
    let id = frame.header.stream_id;
    let opened = match received(m.entries, m.rx, frame, frame.header.frame_type) {
        Ok(payload) => Ok(payload),
        Err(fault) => Err(ClientFault::Mux(fault)),
    };
    match frame.header.frame_type {
        FrameType::Data => if m.tcp_by_id.contains_key(id) {
            opened
        } else {
            Err(ClientFault::RoutingError("unknown stream "@ + decimal(id as nat)))
        },
        FrameType::UdpDatagram => if !m.by_id.contains_key(id) {
            Err(ClientFault::RoutingError("unknown flow "@ + decimal(id as nat)))
        } else if !m.by_id[id].is_udp {
            Err(
                ClientFault::RoutingError(
                    "flow "@ + decimal(id as nat) + " is tcp, got DATAGRAM"@,
                ),
            )
        } else {
            opened
        },
        other => Err(
            ClientFault::RoutingError("inbound frame type "@ + other.spec_name() + " not allowed"@),
        ),
    }
}

/// Whether the payload of a frame, if it has any, fits into an IPv4 packet.
pub open spec fn fits(m: PumpModel, frame: SealedModel) -> bool {
    inbound(m, frame) matches Ok(payload) ==> payload.len() + (if frame.header.frame_type
        == FrameType::Data {
        40int
    } else {
        28int
    }) <= 0xffff
}

/// The packet that carries the payload of a frame to its application.
pub open spec fn inbound_packet(m: PumpModel, frame: SealedModel, payload: Seq<u8>) -> Seq<u8> {
    if frame.header.frame_type == FrameType::Data {
        let key = m.tcp_by_id[frame.header.stream_id];
        let flow = m.tcp[key];
        tcp_reply(
            key,
            false,
            true,
            false,
            flow.server_next,
            flow.client_isn.wrapping_add(1).wrapping_add(flow.client_bytes),
            payload,
        )
    } else {
        let key = m.by_id[frame.header.stream_id];
        udp_packet(key.dst, key.src, key.dst_port, key.src_port, payload)
    }
}

/// What is known after the payload of a frame was handed to the TUN device, and
/// the outcome. A TCP flow whose payload is not taken is forgotten.
pub open spec fn accepted(
    m: PumpModel,
    frame: SealedModel,
    payload: Seq<u8>,
    handed: Result<(), NetstackFault>,
) -> (PumpModel, Result<(), ClientFault>) {
    let after = PumpModel {
        entries: entries_after(m.entries, m.rx, frame, frame.header.frame_type),
        ..m
    };
    let outcome = match handed {
        Ok(_) => Ok(()),
        Err(fault) => Err(ClientFault::Netstack(fault)),
    };
    if frame.header.frame_type == FrameType::Data {
        let key = m.tcp_by_id[frame.header.stream_id];
        let flow = m.tcp[key];
        match handed {
            Ok(_) => (
                with_flow(
                    after,
                    key,
                    TcpFlow {
                        server_next: flow.server_next.wrapping_add(payload.len() as u32),
                        ..flow
                    },
                ),
                outcome,
            ),
            Err(_) => (forgotten(after, key), outcome),
        }
    } else {
        (after, outcome)
    }
}

/// Whether each stream of a TCP flow is the stream that the flow knows.
pub open spec fn consistent(m: PumpModel) -> bool {
    forall|id: u16| #[trigger]
        m.tcp_by_id.contains_key(id) ==> m.tcp.contains_key(m.tcp_by_id[id])
            && m.tcp[m.tcp_by_id[id]].id == Some(id)
}

/// The bridge between a TUN device and a session.
pub struct DataPump {
    mux: MuxManager,
    tx: [u8; 32],
    rx: [u8; 32],
    pad: usize,
    udp: HashMap<u128, u16>,
    by_id: HashMap<u16, FlowKey>,
    tcp: HashMap<u128, TcpFlow>,
    tcp_by_id: HashMap<u16, FlowKey>,
    iss_next: u32,
}

impl View for DataPump {
    type V = PumpModel;

    closed spec fn view(&self) -> PumpModel {
        PumpModel {
            entries: self.mux.entries(),
            next_id: self.mux.spec_next_id(),
            max: self.mux.spec_max(),
            tx: self.tx@,
            rx: self.rx@,
            pad: self.pad as nat,
            udp: by_flow(self.udp@),
            by_id: self.by_id@,
            tcp: by_flow(self.tcp@),
            tcp_by_id: self.tcp_by_id@,
            iss_next: self.iss_next,
        }
    }
}

/// What a pump knows at first.
pub open spec fn fresh_pump(mux: MuxManager, tx: Seq<u8>, rx: Seq<u8>, pad: nat) -> PumpModel {
    PumpModel {
        entries: mux.entries(),
        next_id: mux.spec_next_id(),
        max: mux.spec_max(),
        tx,
        rx,
        pad,
        udp: Map::empty(),
        by_id: Map::empty(),
        tcp: Map::empty(),
        tcp_by_id: Map::empty(),
        iss_next: 1_000_000,
    }
}

/// What sealed frames hold.
pub open spec fn frames(list: Seq<SealedFrame>) -> Seq<SealedModel> {
    list.map_values(|f: SealedFrame| f@)
}

/// An outcome of frames.
pub open spec fn sent(r: Result<Vec<SealedFrame>, ClientError>) -> Result<
    Seq<SealedModel>,
    ClientFault,
> {
    match r {
        Ok(list) => Ok(frames(list@)),
        Err(e) => Err(e@),
    }
}

/// An outcome that may have frames.
pub open spec fn maybe_sent(r: Result<Option<Vec<SealedFrame>>, ClientError>) -> Result<
    Option<Seq<SealedModel>>,
    ClientFault,
> {
    match r {
        Ok(Some(list)) => Ok(Some(frames(list@))),
        Ok(None) => Ok(None),
        Err(e) => Err(e@),
    }
}

/// The payload of a frame that carries bytes.
pub open spec fn payload_of(is_udp: bool, bytes: Seq<u8>) -> PayloadModel {
    if is_udp {
        PayloadModel::UdpDatagram(bytes)
    } else {
        PayloadModel::Data(bytes)
    }
}

/// Whether frames convey bytes of a flow to who holds `key`: the last one opens to the
/// bytes, and where there is one before it, that is the OPEN frame of the same stream
/// and names the destination of the flow.
pub open spec fn conveys(
    list: Seq<SealedModel>,
    key: Seq<u8>,
    flow: FlowKey,
    bytes: Seq<u8>,
) -> bool {
    let n = list.len() as int;
    let open = open_frame(
        flow.is_udp,
        list[0].header.stream_id,
        flow.dst.spec_text(),
        flow.dst_port,
    );
    &&& n == 1 || n == 2
    &&& opens_to(key, list[n - 1], payload_of(flow.is_udp, bytes))
    &&& n == 2 ==> {
        &&& list[0].header.stream_id == list[1].header.stream_id
        &&& list[0].header.sequence == 0
        &&& list[0].header.frame_type == open.frame_type
        &&& opens_to(key, list[0], open.payload)
    }
}

/// The flow that a packet belongs to.
pub open spec fn flow_of(packet: PacketModel) -> FlowKey {
    match packet.payload {
        L4Model::Tcp(seg) => tcp_key(packet, seg),
        L4Model::Udp(dgram) => udp_key(packet, dgram),
    }
}

/// Whether frames convey what a raw packet carries, or there are none.
pub open spec fn conveys_packet(list: Seq<SealedModel>, key: Seq<u8>, raw: Seq<u8>) -> bool {
    list.len() > 0 ==> (parsed_packet(raw) matches Ok(packet) && conveys(
        list,
        key,
        flow_of(packet),
        carried(packet),
    ))
}

/// The packets that a device gave, first to last.
pub open spec fn packets_taken(events: Seq<TunEvent>) -> Seq<Seq<u8>>
    decreases events.len(),
{
    if events.len() == 0 {
        Seq::empty()
    } else {
        let before = packets_taken(events.drop_last());
        match events.last() {
            TunEvent::Took(Ok(Some(raw))) => before.push(raw),
            _ => before,
        }
    }
}

/// Whether frames convey what raw packets carry, packet by packet and in order.
pub open spec fn conveys_all(list: Seq<SealedModel>, key: Seq<u8>, raws: Seq<Seq<u8>>) -> bool
    decreases raws.len(),
{
    if raws.len() == 0 {
        list.len() == 0
    } else {
        exists|n: int|
            0 <= n <= list.len() && #[trigger] conveys_packet(list.skip(n), key, raws.last())
                && conveys_all(list.take(n), key, raws.drop_last())
    }
}

proof fn lemma_conveys_more(
    list: Seq<SealedModel>,
    more: Seq<SealedModel>,
    key: Seq<u8>,
    raws: Seq<Seq<u8>>,
    raw: Seq<u8>,
)
    requires
        conveys_all(list, key, raws),
        conveys_packet(more, key, raw),
    ensures
        conveys_all(list + more, key, raws.push(raw)),
{
    let all = list + more;
    let n = list.len() as int;
    assert(raws.push(raw).drop_last() =~= raws);
    assert(all.take(n) =~= list);
    assert(all.skip(n) =~= more);
    assert(conveys_packet(all.skip(n), key, raws.push(raw).last()));
}

proof fn lemma_packets_taken(done: Seq<TunEvent>, raw: Seq<u8>, inner: Seq<TunEvent>)
    requires
        forall|i: int| 0 <= i < inner.len() ==> (#[trigger] inner[i]) is Offered,
    ensures
        packets_taken(done.push(TunEvent::Took(Ok(Some(raw)))) + inner) == packets_taken(
            done,
        ).push(raw),
    decreases inner.len(),
{
    let first = done.push(TunEvent::Took(Ok(Some(raw))));
    if inner.len() == 0 {
        assert(first + inner =~= first);
        assert(first.drop_last() =~= done);
    } else {
        lemma_packets_taken(done, raw, inner.drop_last());
        assert((first + inner).drop_last() =~= first + inner.drop_last());
        assert((first + inner).last() == inner.last());
        assert(inner[inner.len() - 1] is Offered);
    }
}

impl DataPump {
    /// Whether the tables of the pump agree.
    pub open spec fn wf(&self) -> bool {
        consistent(self@)
    }

    /// A pump with one key for both directions.
    pub fn new(key: [u8; 32], pad_multiple: usize) -> (r: Self)
        ensures
            r.wf(),
            exists|mux: MuxManager|
                {
                    &&& mux.entries() == Map::<u16, EntryModel>::empty()
                    &&& mux.spec_next_id() == 1
                    &&& mux.spec_max() == 4096
                    &&& r@ == #[trigger] fresh_pump(mux, key@, key@, pad_multiple as nat)
                },
    {
        DataPump::new_split(key, key, pad_multiple)
    }

    /// A pump with the keys of a session: `tx` seals, `rx` opens.
    pub fn new_split(tx: [u8; 32], rx: [u8; 32], pad_multiple: usize) -> (r: Self)
        ensures
            r.wf(),
            exists|mux: MuxManager|
                {
                    &&& mux.entries() == Map::<u16, EntryModel>::empty()
                    &&& mux.spec_next_id() == 1
                    &&& mux.spec_max() == 4096
                    &&& r@ == #[trigger] fresh_pump(mux, tx@, rx@, pad_multiple as nat)
                },
    {
        DataPump::with_mux(MuxManager::new(), tx, rx, pad_multiple)
    }

    /// A pump over the mux of an established session.
    pub fn with_mux(mux: MuxManager, tx: [u8; 32], rx: [u8; 32], pad_multiple: usize) -> (r: Self)
        ensures
            r.wf(),
            r@ == fresh_pump(mux, tx@, rx@, pad_multiple as nat),
    {
        broadcast use vstd::std_specs::hash::group_hash_axioms;

        let r = DataPump {
            mux,
            tx,
            rx,
            pad: pad_multiple,
            udp: HashMap::new(),
            by_id: HashMap::new(),
            tcp: HashMap::new(),
            tcp_by_id: HashMap::new(),
            iss_next: 1_000_000,
        };
        assert(r@ =~= fresh_pump(mux, tx@, rx@, pad_multiple as nat));
        r
    }

    fn note_flow(&mut self, key: &FlowKey, flow: TcpFlow)
        ensures
            final(self)@ == with_flow(old(self)@, *key, flow),
    {
        broadcast use vstd::std_specs::hash::group_hash_axioms;

        proof {
            by_flow_insert(self.tcp@, *key, flow);
        }
        self.tcp.insert(key.code(), flow);
        assert(self@ =~= with_flow(old(self)@, *key, flow));
    }

    fn flow(&self, key: &FlowKey) -> (r: Option<TcpFlow>)
        ensures
            r == (if self@.tcp.contains_key(*key) {
                Some(self@.tcp[*key])
            } else {
                None
            }),
    {
        broadcast use vstd::std_specs::hash::group_hash_axioms;

        match self.tcp.get(&key.code()) {
            Some(flow) => Some(*flow),
            None => None,
        }
    }

    /// Forgets a TCP flow everywhere. The server is told nothing.
    fn forget_tcp(&mut self, key: &FlowKey)
        ensures
            final(self)@ == forgotten(old(self)@, *key),
    {
        broadcast use vstd::std_specs::hash::group_hash_axioms;

        proof {
            by_flow_remove(self.tcp@, *key);
        }
        match self.tcp.remove(&key.code()) {
            Some(flow) => match flow.id {
                Some(id) => {
                    self.tcp_by_id.remove(&id);
                    self.by_id.remove(&id);
                },
                None => {},
            },
            None => {},
        }
        assert(self@ =~= forgotten(old(self)@, *key));
    }

    /// Opens a stream or flow for `key` and notes it.
    fn open_flow(&mut self, key: &FlowKey) -> (r: Result<u16, MuxError>)
        ensures
            match (r, opening(old(self)@, *key)) {
                (Ok(id), Ok(m)) => id == m && final(self)@ == opened(old(self)@, *key, id),
                (Err(e), Err(fault)) => e@ == fault && final(self)@ == old(self)@,
                _ => false,
            },
    {
        broadcast use vstd::std_specs::hash::group_hash_axioms;

        let addr = key.dst.to_text();
        let opened_id = if key.is_udp {
            self.mux.open_udp(addr.as_str(), key.dst_port)
        } else {
            self.mux.open_tcp(addr.as_str(), key.dst_port)
        };
        match opened_id {
            Err(e) => {
                assert(self@ =~= old(self)@);
                Err(e)
            },
            Ok(id) => {
                if key.is_udp {
                    proof {
                        by_flow_insert(self.udp@, *key, id);
                    }
                    self.udp.insert(key.code(), id);
                } else {
                    self.tcp_by_id.insert(id, *key);
                }
                self.by_id.insert(id, *key);
                assert(self@ =~= opened(old(self)@, *key, id));
                Ok(id)
            },
        }
    }

    /// Seals the OPEN frame of a stream or flow that was just opened.
    fn announce(&self, key: &FlowKey, id: u16) -> (r: Result<SealedFrame, MuxError>)
        requires
            self@.entries.contains_key(id),
            self@.entries[id] == fresh_entry(key.is_udp, key.dst.spec_text(), key.dst_port),
        ensures
            match (r, announcement(self@, *key, id)) {
                (Ok(f), Ok(m)) => f@ == m && opens_to(
                    self@.tx,
                    f@,
                    open_frame(key.is_udp, id, key.dst.spec_text(), key.dst_port).payload,
                ),
                (Err(e), Err(fault)) => e@ == fault,
                _ => false,
            },
    {
        if key.is_udp {
            self.mux.seal_open_udp(&self.tx, id, self.pad)
        } else {
            self.mux.seal_open_tcp(&self.tx, id, self.pad)
        }
    }

    /// Seals payload for a stream or flow.
    fn send(&mut self, is_udp: bool, id: u16, payload: &[u8]) -> (r: Result<SealedFrame, MuxError>)
        requires
            pads_within(payload@.len(), old(self)@.pad),
        ensures
            final(self)@ == numbered(old(self)@, is_udp, id),
            match (r, outgoing(old(self)@, is_udp, id, payload@)) {
                (Ok(f), Ok(m)) => f@ == m && opens_to(
                    old(self)@.tx,
                    f@,
                    payload_of(is_udp, payload@),
                ),
                (Err(e), Err(fault)) => e@ == fault,
                _ => false,
            },
    {
        let r = if is_udp {
            self.mux.seal_datagram(&self.tx, id, payload, self.pad)
        } else {
            self.mux.seal_data(&self.tx, id, payload, self.pad)
        };
        assert(self@ =~= numbered(old(self)@, is_udp, id));
        r
    }

    fn send_tcp(
        &mut self,
        key: &FlowKey,
        flow: TcpFlow,
        id: u16,
        first: Vec<SealedFrame>,
        payload: &[u8],
    ) -> (r: Result<Vec<SealedFrame>, ClientError>)
        requires
            pads_within(payload@.len(), old(self)@.pad),
            !key.is_udp,
            first@.len() == 0 || first@.len() == 1 && {
                let open = open_frame(false, id, key.dst.spec_text(), key.dst_port);
                &&& first@[0]@.header.stream_id == id
                &&& first@[0]@.header.sequence == 0
                &&& first@[0]@.header.frame_type == open.frame_type
                &&& opens_to(old(self)@.tx, first@[0]@, open.payload)
            },
        ensures
            (final(self)@, sent(r)) == tcp_sent(
                old(self)@,
                *key,
                flow,
                id,
                frames(first@),
                payload@,
            ),
            r matches Ok(list) ==> conveys(frames(list@), old(self)@.tx, *key, payload@),
    {
        match self.send(false, id, payload) {
            Err(e) => {
                self.note_flow(key, flow);
                self.forget_tcp(key);
                Err(ClientError::Mux(e))
            },
            Ok(data) => {
                let mut flow = flow;
                flow.client_bytes = flow.client_bytes.wrapping_add(payload.len() as u32);
                self.note_flow(key, flow);
                let mut first = first;
                let ghost before = first@;
                first.push(data);
                assert(frames(first@) =~= frames(before).push(data@));
                Ok(first)
            },
        }
    }

    /// Sends payload of a TCP flow to the server. The first payload opens the
    /// stream.
    fn forward_tcp(&mut self, key: &FlowKey, flow: TcpFlow, payload: &[u8]) -> (r: Result<
        Vec<SealedFrame>,
        ClientError,
    >)
        requires
            !key.is_udp,
            pads_within(payload@.len(), old(self)@.pad),
        ensures
            (final(self)@, sent(r)) == tcp_forwarded(old(self)@, *key, flow, payload@),
            r matches Ok(list) ==> conveys(frames(list@), old(self)@.tx, *key, payload@),
    {
        match flow.id {
            Some(id) => {
                let first: Vec<SealedFrame> = Vec::new();
                assert(frames(first@) =~= Seq::<SealedModel>::empty());
                self.send_tcp(key, flow, id, first, payload)
            },
            None => match self.open_flow(key) {
                Err(e) => {
                    self.note_flow(key, flow);
                    self.forget_tcp(key);
                    Err(ClientError::Mux(e))
                },
                Ok(id) => {
                    let mut flow = flow;
                    flow.id = Some(id);
                    match self.announce(key, id) {
                        Err(e) => {
                            self.note_flow(key, flow);
                            self.forget_tcp(key);
                            Err(ClientError::Mux(e))
                        },
                        Ok(open) => {
                            let mut first: Vec<SealedFrame> = Vec::new();
                            first.push(open);
                            assert(frames(first@) =~= seq![open@]);
                            self.send_tcp(key, flow, id, first, payload)
                        },
                    }
                },
            },
        }
    }

    /// Sends a datagram to the server. The first datagram opens the flow.
    #[verifier::spinoff_prover]
    #[verifier::rlimit(40)]
    fn forward_udp(&mut self, key: &FlowKey, payload: &[u8]) -> (r: Result<
        Vec<SealedFrame>,
        ClientError,
    >)
        requires
            key.is_udp,
            pads_within(payload@.len(), old(self)@.pad),
        ensures
            (final(self)@, sent(r)) == udp_forwarded(old(self)@, *key, payload@),
            r matches Ok(list) ==> conveys(frames(list@), old(self)@.tx, *key, payload@),
    {
        broadcast use vstd::std_specs::hash::group_hash_axioms;

        let mut list: Vec<SealedFrame> = Vec::new();
        let known: Option<u16> = match self.udp.get(&key.code()) {
            Some(id) => Some(*id),
            None => None,
        };
        let id: u16 = match known {
            Some(id) => id,
            None => match self.open_flow(key) {
                Err(e) => {
                    return Err(ClientError::Mux(e));
                },
                Ok(id) => match self.announce(key, id) {
                    Err(e) => {
                        return Err(ClientError::Mux(e));
                    },
                    Ok(open) => {
                        list.push(open);
                        id
                    },
                },
            },
        };
        let ghost first = list@;
        match self.send(true, id, payload) {
            Err(e) => Err(ClientError::Mux(e)),
            Ok(data) => {
                list.push(data);
                assert(frames(list@) =~= if known is Some {
                    seq![data@]
                } else {
                    seq![first[0]@, data@]
                });
                Ok(list)
            },
        }
    }

    /// What is done with a TCP segment.
    fn classify(&self, key: &FlowKey, seg: &TcpSegment) -> (r: TcpMove)
        ensures
            r == tcp_move(self@.tcp, *key, seg@),
    {
        if names_no_single_host(key.dst) {
            return TcpMove::Drop;
        }
        if seg.rst {
            return TcpMove::Forget;
        }
        match self.flow(key) {
            None => if seg.syn && !seg.ack {
                TcpMove::Accept
            } else {
                TcpMove::Drop
            },
            Some(flow) => {
                if seg.syn && !seg.ack && seg.seq == flow.client_isn {
                    TcpMove::Repeat
                } else if flow.state == TcpState::SynReceived && !(seg.ack && !seg.syn
                    && seg.ack_num == flow.server_iss.wrapping_add(1)) {
                    TcpMove::Drop
                } else if seg.fin {
                    TcpMove::Finish
                } else if seg.payload.len() == 0 {
                    TcpMove::Settle
                } else {
                    TcpMove::Forward
                }
            },
        }
    }
}

/// A TCP packet to the application of a flow.
fn tcp_answer(
    key: &FlowKey,
    syn: bool,
    psh: bool,
    fin: bool,
    seq: u32,
    ack_num: u32,
    payload: &[u8],
) -> (r: Vec<u8>)
    requires
        40 + payload@.len() <= 0xffff,
    ensures
        r@ == tcp_reply(*key, syn, psh, fin, seq, ack_num, payload@),
{
    build_tcp_packet_full(
        key.dst,
        key.src,
        key.dst_port,
        key.src_port,
        syn,
        true,
        psh,
        fin,
        false,
        seq,
        ack_num,
        payload,
    )
}

fn key_of_tcp(packet: &ParsedPacket, seg: &TcpSegment) -> (r: FlowKey)
    ensures
        r == tcp_key(packet@, seg@),
{
    FlowKey {
        src: packet.src,
        src_port: seg.src_port,
        dst: packet.dst,
        dst_port: seg.dst_port,
        is_udp: false,
    }
}

/// The payload of a packet from the TUN device.
pub open spec fn carried(packet: PacketModel) -> Seq<u8> {
    match packet.payload {
        L4Model::Tcp(seg) => seg.payload,
        L4Model::Udp(dgram) => dgram.payload,
    }
}

impl DataPump {
    /// The packet that answers a packet from the TUN device, if there is one.
    pub fn reply(&self, packet: &ParsedPacket) -> (r: Option<Vec<u8>>)
        ensures
            match (r, reply(self@, packet@)) {
                (Some(pkt), Some(m)) => pkt@ == m,
                (None, None) => true,
                _ => false,
            },
    {
        let seg = match &packet.payload {
            ParsedPayload::Tcp(seg) => seg,
            ParsedPayload::Udp(_) => {
                return None;
            },
        };
        let key = key_of_tcp(packet, seg);
        let none: [u8; 0] = [];
        assert(none@ =~= Seq::<u8>::empty());
        match self.classify(&key, seg) {
            TcpMove::Accept => {
                let ack: u32 = seg.seq.wrapping_add(1);
                Some(tcp_answer(&key, true, false, false, self.iss_next, ack, &none))
            },
            TcpMove::Repeat => match self.flow(&key) {
                Some(flow) => {
                    let ack: u32 = flow.client_isn.wrapping_add(1);
                    Some(tcp_answer(&key, true, false, false, flow.server_iss, ack, &none))
                },
                None => None,
            },
            TcpMove::Finish => match self.flow(&key) {
                Some(flow) => {
                    let ack: u32 = seg.seq.wrapping_add(seg.payload.len() as u32).wrapping_add(1);
                    Some(tcp_answer(&key, false, false, true, flow.server_next, ack, &none))
                },
                None => None,
            },
            _ => None,
        }
    }

    fn settle_tcp(
        &mut self,
        key: &FlowKey,
        seg: &TcpSegment,
        handed: Result<(), NetstackError>,
    ) -> (r: Result<Option<Vec<SealedFrame>>, ClientError>)
        requires
            !key.is_udp,
            pads_within(seg@.payload.len(), old(self)@.pad),
        ensures
            (final(self)@, maybe_sent(r)) == tcp_settled(
                old(self)@,
                *key,
                seg@,
                delivered(handed),
            ),
            r matches Ok(Some(list)) ==> conveys(
                frames(list@),
                old(self)@.tx,
                *key,
                seg@.payload,
            ),
    {
        let known = self.flow(key);
        let out = match self.classify(key, seg) {
            TcpMove::Drop => {
                return Ok(None);
            },
            TcpMove::Forget => {
                self.forget_tcp(key);
                return Ok(None);
            },
            TcpMove::Accept => {
                let iss: u32 = self.iss_next;
                self.iss_next = iss.wrapping_add(1);
                assert(self@ =~= PumpModel { iss_next: iss.wrapping_add(1), ..old(self)@ });
                if let Err(e) = handed {
                    return Err(ClientError::Netstack(e));
                }
                let flow = TcpFlow {
                    id: None,
                    client_isn: seg.seq,
                    server_iss: iss,
                    server_next: iss.wrapping_add(1),
                    client_bytes: 0,
                    state: TcpState::SynReceived,
                };
                if seg.payload.len() == 0 {
                    self.note_flow(key, flow);
                    return Ok(None);
                }
                self.forward_tcp(key, flow, seg.payload.as_slice())
            },
            TcpMove::Repeat => {
                if let Err(e) = handed {
                    self.forget_tcp(key);
                    return Err(ClientError::Netstack(e));
                }
                return Ok(None);
            },
            TcpMove::Finish => {
                self.forget_tcp(key);
                if let Err(e) = handed {
                    return Err(ClientError::Netstack(e));
                }
                return Ok(None);
            },
            TcpMove::Settle => {
                if let Some(flow) = known {
                    let mut flow = flow;
                    flow.state = TcpState::Established;
                    self.note_flow(key, flow);
                }
                return Ok(None);
            },
            TcpMove::Forward => match known {
                Some(flow) => {
                    let mut flow = flow;
                    flow.state = TcpState::Established;
                    self.forward_tcp(key, flow, seg.payload.as_slice())
                },
                None => {
                    return Ok(None);
                },
            },
        };
        match out {
            Ok(list) => Ok(Some(list)),
            Err(e) => Err(e),
        }
    }

    /// Takes note of a packet from the TUN device and gives the frames for the
    /// server. `handed` is what became of the answer, where there is one.
    pub fn settle(&mut self, packet: &ParsedPacket, handed: Result<(), NetstackError>) -> (r: Result<
        Option<Vec<SealedFrame>>,
        ClientError,
    >)
        requires
            pads_within(carried(packet@).len(), old(self)@.pad),
        ensures
            (final(self)@, maybe_sent(r)) == settled(old(self)@, packet@, delivered(handed)),
            r matches Ok(Some(list)) ==> conveys(
                frames(list@),
                old(self)@.tx,
                flow_of(packet@),
                carried(packet@),
            ),
            old(self).wf() ==> final(self).wf(),
    {
        proof {
            settling_keeps_tables(self@, packet@, delivered(handed));
        }
        match &packet.payload {
            ParsedPayload::Tcp(seg) => {
                let key = key_of_tcp(packet, seg);
                self.settle_tcp(&key, seg, handed)
            },
            ParsedPayload::Udp(dgram) => {
                if is_discovery_noise(packet.dst, dgram.dst_port) {
                    return Ok(None);
                }
                let key = FlowKey {
                    src: packet.src,
                    src_port: dgram.src_port,
                    dst: packet.dst,
                    dst_port: dgram.dst_port,
                    is_udp: true,
                };
                match self.forward_udp(&key, dgram.payload.as_slice()) {
                    Ok(list) => Ok(Some(list)),
                    Err(e) => Err(e),
                }
            },
        }
    }
}

proof fn forwarding_keeps_tables(m: PumpModel, key: FlowKey, flow: TcpFlow, payload: Seq<u8>)
    requires
        consistent(m),
        !key.is_udp,
        !m.tcp.contains_key(key) ==> flow.id is None,
        m.tcp.contains_key(key) ==> flow.id == m.tcp[key].id,
    ensures
        consistent(tcp_forwarded(m, key, flow, payload).0),
{
}

/// Whatever packet comes, the tables of a pump agree afterwards.
pub proof fn settling_keeps_tables(
    m: PumpModel,
    packet: PacketModel,
    handed: Result<(), NetstackFault>,
)
    ensures
        consistent(m) ==> consistent(settled(m, packet, handed).0),
{
    if consistent(m) {
        match packet.payload {
            L4Model::Tcp(seg) => {
                let key = tcp_key(packet, seg);
                match tcp_move(m.tcp, key, seg) {
                    TcpMove::Accept => {
                        let after = PumpModel { iss_next: m.iss_next.wrapping_add(1), ..m };
                        forwarding_keeps_tables(
                            after,
                            key,
                            fresh_flow(m.iss_next, seg.seq),
                            seg.payload,
                        );
                    },
                    TcpMove::Forward => {
                        forwarding_keeps_tables(m, key, established(m.tcp[key]), seg.payload);
                    },
                    _ => {},
                }
            },
            L4Model::Udp(_) => {},
        }
    }
}

/// What is known after one packet from the TUN device, and the frames for the
/// server. `events` are the exchanges with the device that the packet leads to;
/// `None` where they are not the ones that it calls for.
pub open spec fn pumped(m: PumpModel, raw: Seq<u8>, events: Seq<TunEvent>) -> Option<
    (PumpModel, Result<Option<Seq<SealedModel>>, ClientFault>),
> {
    match parsed_packet(raw) {
        Err(_) => if events.len() == 0 {
            Some((m, Ok(None)))
        } else {
            None
        },
        Ok(packet) => match reply(m, packet) {
            None => if events.len() == 0 {
                Some(settled(m, packet, Ok(())))
            } else {
                None
            },
            Some(pkt) => if events.len() == 1 && events[0] is Offered && events[0]->Offered_0
                == pkt {
                Some(settled(m, packet, events[0]->Offered_1))
            } else {
                None
            },
        },
    }
}

/// Whatever packet comes, the keys and the padding of a pump stay.
pub proof fn pumping_keeps_keys(m: PumpModel, raw: Seq<u8>, events: Seq<TunEvent>)
    ensures
        pumped(m, raw, events) matches Some((after, _)) ==> after.tx == m.tx && after.rx == m.rx
            && after.pad == m.pad,
{
}

#[verifier::spinoff_prover]
#[verifier::rlimit(40)]
proof fn lemma_pumped_conveys(
    m: PumpModel,
    sofar: Seq<SealedModel>,
    done: Seq<TunEvent>,
    raw: Seq<u8>,
    inner: Seq<TunEvent>,
)
    requires
        conveys_all(sofar, m.tx, packets_taken(done)),
        pumped(m, raw, inner) matches Some((_, r)) && (r matches Ok(Some(list)) ==> conveys_packet(
            list,
            m.tx,
            raw,
        )),
    ensures
        pumped(m, raw, inner)->Some_0.0.tx == m.tx,
        ({
            let raws = packets_taken(done.push(TunEvent::Took(Ok(Some(raw)))) + inner);
            match pumped(m, raw, inner)->Some_0.1 {
                Ok(Some(more)) => conveys_all(sofar + more, m.tx, raws),
                _ => conveys_all(sofar, m.tx, raws),
            }
        }),
{
    pumping_keeps_keys(m, raw, inner);
    assert forall|i: int| 0 <= i < inner.len() implies (#[trigger] inner[i]) is Offered by {
        assert(i == 0);
    }
    lemma_packets_taken(done, raw, inner);
    let more = match pumped(m, raw, inner)->Some_0.1 {
        Ok(Some(more)) => more,
        _ => Seq::empty(),
    };
    lemma_conveys_more(sofar, more, m.tx, packets_taken(done), raw);
    assert(sofar + Seq::<SealedModel>::empty() =~= sofar);
}

/// How many exchanges one packet from the TUN device leads to.
pub open spec fn exchanges(m: PumpModel, raw: Seq<u8>) -> int {
    match parsed_packet(raw) {
        Ok(packet) => if reply(m, packet) is Some {
            1
        } else {
            0
        },
        Err(_) => 0,
    }
}

/// What is known after the device was drained, and the frames for the server,
/// behind the frames in `sofar`. `events` are the exchanges with the device;
/// `None` where they are not the ones that draining it calls for.
pub open spec fn polled(m: PumpModel, events: Seq<TunEvent>, sofar: Seq<SealedModel>) -> Option<
    (PumpModel, Result<Seq<SealedModel>, ClientFault>),
>
    decreases events.len(),
{
    if events.len() == 0 {
        None
    } else {
        match events[0] {
            TunEvent::Offered(_, _) => None,
            TunEvent::Took(Err(fault)) => if events.len() == 1 {
                Some((m, Err(ClientFault::Netstack(fault))))
            } else {
                None
            },
            TunEvent::Took(Ok(None)) => if events.len() == 1 {
                Some((m, Ok(sofar)))
            } else {
                None
            },
            TunEvent::Took(Ok(Some(raw))) => {
                let n = 1 + exchanges(m, raw);
                if events.len() < n {
                    None
                } else {
                    match pumped(m, raw, events.subrange(1, n)) {
                        None => None,
                        Some((after, Err(fault))) => if events.len() == n {
                            Some((after, Err(fault)))
                        } else {
                            None
                        },
                        Some((after, Ok(None))) => polled(after, events.skip(n), sofar),
                        Some((after, Ok(Some(more)))) => polled(
                            after,
                            events.skip(n),
                            sofar + more,
                        ),
                    }
                }
            },
        }
    }
}

/// Whether the exchanges in `done` lead from `m0` to `m1`, with the frames in
/// `sofar`.
#[verifier::opaque]
spec fn leads(
    m0: PumpModel,
    done: Seq<TunEvent>,
    m1: PumpModel,
    sofar: Seq<SealedModel>,
) -> bool {
    forall|rest: Seq<TunEvent>| #[trigger]
        polled(m0, done + rest, Seq::empty()) == polled(m1, rest, sofar)
}

proof fn leads_nowhere_at_first(m: PumpModel, done: Seq<TunEvent>)
    requires
        done.len() == 0,
    ensures
        leads(m, done, m, Seq::empty()),
{
    reveal(leads);
    assert forall|rest: Seq<TunEvent>| #[trigger]
        polled(m, done + rest, Seq::empty()) == polled(m, rest, Seq::empty()) by {
        assert(done + rest =~= rest);
    }
}

proof fn leads_to_end(
    m0: PumpModel,
    done: Seq<TunEvent>,
    m1: PumpModel,
    sofar: Seq<SealedModel>,
    end: Result<Option<Seq<u8>>, NetstackFault>,
)
    requires
        leads(m0, done, m1, sofar),
        !(end matches Ok(Some(_))),
    ensures
        polled(m0, done.push(TunEvent::Took(end)), Seq::empty()) == Some(
            (
                m1,
                match end {
                    Ok(_) => Ok(sofar),
                    Err(fault) => Err(ClientFault::Netstack(fault)),
                },
            ),
        ),
{
    reveal(leads);
    let rest = seq![TunEvent::Took(end)];
    assert(done.push(TunEvent::Took(end)) =~= done + rest);
    assert(polled(m0, done + rest, Seq::empty()) == polled(m1, rest, sofar));
}

/// How draining goes on after a packet: it ends where the packet failed, and else the
/// frames of the packet are added.
pub open spec fn past_packet(
    out: (PumpModel, Result<Option<Seq<SealedModel>>, ClientFault>),
    rest: Seq<TunEvent>,
    sofar: Seq<SealedModel>,
) -> Option<(PumpModel, Result<Seq<SealedModel>, ClientFault>)> {
    match out {
        (after, Err(fault)) => if rest.len() == 0 {
            Some((after, Err::<Seq<SealedModel>, ClientFault>(fault)))
        } else {
            None
        },
        (after, Ok(None)) => polled(after, rest, sofar),
        (after, Ok(Some(more))) => polled(after, rest, sofar + more),
    }
}

pub(crate) proof fn lemma_polled_past_packet(
    m: PumpModel,
    raw: Seq<u8>,
    inner: Seq<TunEvent>,
    rest: Seq<TunEvent>,
    sofar: Seq<SealedModel>,
)
    requires
        pumped(m, raw, inner) is Some,
    ensures
        polled(m, seq![TunEvent::Took(Ok(Some(raw)))] + inner + rest, sofar) == past_packet(
            pumped(m, raw, inner)->Some_0,
            rest,
            sofar,
        ),
{
    let tail = seq![TunEvent::Took(Ok(Some(raw)))] + inner + rest;
    let n = 1 + exchanges(m, raw);
    assert(inner.len() == exchanges(m, raw));
    assert(tail.subrange(1, n) =~= inner);
    assert(tail.skip(n) =~= rest);
}

#[verifier::spinoff_prover]
#[verifier::rlimit(40)]
proof fn leads_past_packet(
    m0: PumpModel,
    done: Seq<TunEvent>,
    m1: PumpModel,
    sofar: Seq<SealedModel>,
    raw: Seq<u8>,
    inner: Seq<TunEvent>,
)
    requires
        leads(m0, done, m1, sofar),
        pumped(m1, raw, inner) is Some,
    ensures
        ({
            let events = done.push(TunEvent::Took(Ok(Some(raw)))) + inner;
            match pumped(m1, raw, inner)->Some_0 {
                (after, Err(fault)) => polled(m0, events, Seq::empty()) == Some(
                    (after, Err::<Seq<SealedModel>, ClientFault>(fault)),
                ),
                (after, Ok(None)) => leads(m0, events, after, sofar),
                (after, Ok(Some(more))) => leads(m0, events, after, sofar + more),
            }
        }),
{
    reveal(leads);
    let events = done.push(TunEvent::Took(Ok(Some(raw)))) + inner;
    assert forall|rest: Seq<TunEvent>| #[trigger]
        polled(m0, events + rest, Seq::empty()) == past_packet(
            pumped(m1, raw, inner)->Some_0,
            rest,
            sofar,
        ) by {
        let tail = seq![TunEvent::Took(Ok(Some(raw)))] + inner + rest;
        assert(events + rest =~= done + tail);
        assert(polled(m0, done + tail, Seq::empty()) == polled(m1, tail, sofar));
        lemma_polled_past_packet(m1, raw, inner, rest, sofar);
    }
    assert(events + Seq::<TunEvent>::empty() =~= events);
}

impl DataPump {
    /// Takes one packet from the TUN device: answers it, takes note of it and
    /// gives the frames for the server. A packet that cannot be read is dropped.
    pub fn pump_one<T: TunPackets>(&mut self, raw: &[u8], tun: &mut T) -> (r: Result<
        Option<Vec<SealedFrame>>,
        ClientError,
    >)
        ensures
            final(tun).waiting() == old(tun).waiting(),
            old(tun).history().is_prefix_of(final(tun).history()),
            pumped(
                old(self)@,
                raw@,
                final(tun).history().skip(old(tun).history().len() as int),
            ) == Some((final(self)@, maybe_sent(r))),
            r matches Ok(Some(list)) ==> list@.len() > 0 && conveys_packet(
                frames(list@),
                old(self)@.tx,
                raw@,
            ),
            old(self).wf() ==> final(self).wf(),
    {
        let ghost before = tun.history();
        assert(before.skip(before.len() as int) =~= Seq::<TunEvent>::empty());
        let packet = match parse_ipv4_packet(raw) {
            Ok(packet) => packet,
            Err(_) => {
                return Ok(None);
            },
        };
        proof {
            payload_is_short(raw@);
            padded_len_fits(carried(packet@).len(), self.pad);
        }
        let answer = self.reply(&packet);
        let handed = match answer {
            Some(pkt) => {
                let handed = tun.send_packet(pkt.as_slice());
                assert(tun.history().skip(before.len() as int) =~= seq![
                    TunEvent::Offered(pkt@, delivered(handed)),
                ]);
                handed
            },
            None => Ok(()),
        };
        self.settle(&packet, handed)
    }

    /// Drains the TUN device and gives the frames for the server.
    ///
    /// A new flow gives an OPEN frame and the first payload; bare ACKs give
    /// nothing; packets that cannot be read are dropped.
    #[verifier::spinoff_prover]
    #[verifier::rlimit(40)]
    pub fn poll_once<T: TunPackets>(&mut self, tun: &mut T) -> (r: Result<
        Vec<SealedFrame>,
        ClientError,
    >)
        ensures
            old(tun).history().is_prefix_of(final(tun).history()),
            polled(
                old(self)@,
                final(tun).history().skip(old(tun).history().len() as int),
                Seq::empty(),
            ) == Some((final(self)@, sent(r))),
            r matches Ok(list) ==> conveys_all(
                frames(list@),
                old(self)@.tx,
                packets_taken(final(tun).history().skip(old(tun).history().len() as int)),
            ),
            old(self).wf() ==> final(self).wf(),
    {
        let ghost m0 = self@;
        let ghost before = tun.history();
        let ghost start = before.len() as int;
        let mut out: Vec<SealedFrame> = Vec::new();
        proof {
            assert(frames(out@) =~= Seq::<SealedModel>::empty());
            leads_nowhere_at_first(m0, before.skip(start));
        }
        loop
            invariant
                start == before.len(),
                before == old(tun).history(),
                m0 == old(self)@,
                before.is_prefix_of(tun.history()),
                old(self).wf() ==> self.wf(),
                leads(m0, tun.history().skip(start), self@, frames(out@)),
                self@.tx == m0.tx,
                conveys_all(frames(out@), m0.tx, packets_taken(tun.history().skip(start))),
            decreases tun.waiting(),
        {
            let ghost m1 = self@;
            let ghost done = tun.history().skip(start);
            let ghost sofar = frames(out@);
            let asked = tun.try_recv();
            let ghost event = TunEvent::Took(taken(asked));
            assert(tun.history().skip(start) =~= done.push(event));
            match asked {
                Err(e) => {
                    proof {
                        leads_to_end(m0, done, m1, sofar, taken(asked));
                    }
                    return Err(ClientError::Netstack(e));
                },
                Ok(None) => {
                    proof {
                        leads_to_end(m0, done, m1, sofar, taken(asked));
                        assert(done.push(event).drop_last() =~= done);
                    }
                    return Ok(out);
                },
                Ok(Some(raw)) => {
                    let ghost mid = tun.history();
                    let step = self.pump_one(raw.as_slice(), tun);
                    proof {
                        let inner = tun.history().skip(mid.len() as int);
                        assert(tun.history().skip(start) =~= done.push(event) + inner);
                        leads_past_packet(m0, done, m1, sofar, raw@, inner);
                        lemma_pumped_conveys(m1, sofar, done, raw@, inner);
                    }
                    match step {
                        Err(e) => {
                            return Err(e);
                        },
                        Ok(None) => {},
                        Ok(Some(list)) => {
                            let mut list = list;
                            let ghost more = list@;
                            let ghost had = out@;
                            out.append(&mut list);
                            assert(frames(out@) =~= frames(had) + frames(more));
                        },
                    }
                },
            }
        }
    }

    /// Injects one frame from the server: its payload goes to the TUN device as
    /// one IP packet.
    ///
    /// Only DATA of a TCP flow and datagrams of a UDP flow are accepted. Anything
    /// else, unknown ids and frames that do not open are refused, and nothing
    /// reaches the device.
    pub fn receive_mux<T: TunPackets>(
        &mut self,
        header: &FrameHeader,
        ciphertext: &[u8],
        tun: &mut T,
    ) -> (r: Result<(), ClientError>)
        requires
            old(self).wf(),
            fits(old(self)@, (SealedModel { header: *header, ciphertext: ciphertext@ })),
        ensures
            final(self).wf(),
            ({
                let m = old(self)@;
                let frame = SealedModel { header: *header, ciphertext: ciphertext@ };
                match inbound(m, frame) {
                    Err(fault) => {
                        &&& r matches Err(e) && e@ == fault
                        &&& final(self)@ == m
                        &&& final(tun).history() == old(tun).history()
                    },
                    Ok(payload) => {
                        let event = final(tun).history().last();
                        &&& event is Offered
                        &&& event->Offered_0 == inbound_packet(m, frame, payload)
                        &&& final(tun).history() == old(tun).history().push(event)
                        &&& final(self)@ == accepted(m, frame, payload, event->Offered_1).0
                        &&& match (r, accepted(m, frame, payload, event->Offered_1).1) {
                            (Ok(_), Ok(_)) => true,
                            (Err(e), Err(fault)) => e@ == fault,
                            _ => false,
                        }
                    },
                }
            }),
    {
        broadcast use vstd::std_specs::hash::group_hash_axioms;

        let ghost m = self@;
        let ghost frame = SealedModel { header: *header, ciphertext: ciphertext@ };
        let id: u16 = header.stream_id;
        match header.frame_type {
            FrameType::Data => {
                let key = match self.tcp_by_id.get(&id) {
                    Some(key) => *key,
                    None => {
                        return Err(
                            ClientError::RoutingError(
                                joined("unknown stream ", decimal_of(id as u64).as_str()),
                            ),
                        );
                    },
                };
                let opened = self.mux.open_data(&self.rx, header, ciphertext);
                assert(self@ =~= PumpModel {
                    entries: entries_after(m.entries, m.rx, frame, FrameType::Data),
                    ..m
                });
                let payload = match opened {
                    Ok(payload) => payload,
                    Err(e) => {
                        assert(self@ =~= m);
                        return Err(ClientError::Mux(e));
                    },
                };
                let mut flow = match self.flow(&key) {
                    Some(flow) => flow,
                    None => vstd::pervasive::unreached(),
                };
                let ack: u32 = flow.client_isn.wrapping_add(1).wrapping_add(flow.client_bytes);
                let pkt = tcp_answer(
                    &key,
                    false,
                    true,
                    false,
                    flow.server_next,
                    ack,
                    payload.as_slice(),
                );
                flow.server_next = flow.server_next.wrapping_add(payload.len() as u32);
                match tun.send_packet(pkt.as_slice()) {
                    Ok(_) => {
                        self.note_flow(&key, flow);
                        Ok(())
                    },
                    Err(e) => {
                        self.forget_tcp(&key);
                        Err(ClientError::Netstack(e))
                    },
                }
            },
            FrameType::UdpDatagram => {
                let key = match self.by_id.get(&id) {
                    Some(key) => *key,
                    None => {
                        return Err(
                            ClientError::RoutingError(
                                joined("unknown flow ", decimal_of(id as u64).as_str()),
                            ),
                        );
                    },
                };
                if !key.is_udp {
                    let mut text = joined("flow ", decimal_of(id as u64).as_str());
                    text.append(" is tcp, got DATAGRAM");
                    return Err(ClientError::RoutingError(text));
                }
                let opened = self.mux.open_datagram(&self.rx, header, ciphertext);
                assert(self@ =~= PumpModel {
                    entries: entries_after(m.entries, m.rx, frame, FrameType::UdpDatagram),
                    ..m
                });
                let payload = match opened {
                    Ok(payload) => payload,
                    Err(e) => {
                        assert(self@ =~= m);
                        return Err(ClientError::Mux(e));
                    },
                };
                let pkt = build_udp_packet(
                    key.dst,
                    key.src,
                    key.dst_port,
                    key.src_port,
                    payload.as_slice(),
                );
                match tun.send_packet(pkt.as_slice()) {
                    Ok(_) => Ok(()),
                    Err(e) => Err(ClientError::Netstack(e)),
                }
            },
            other => {
                let mut text = joined("inbound frame type ", other.name());
                text.append(" not allowed");
                Err(ClientError::RoutingError(text))
            },
        }
    }

    /// Injects one frame from the server if its payload fits into an IPv4 packet.
    /// Where it does not, the result is `None` and nothing changes.
    pub fn try_receive_mux<T: TunPackets>(
        &mut self,
        header: &FrameHeader,
        ciphertext: &[u8],
        tun: &mut T,
    ) -> (r: Option<Result<(), ClientError>>)
        requires
            old(self).wf(),
        ensures
            final(self).wf(),
            ({
                let m = old(self)@;
                let frame = SealedModel { header: *header, ciphertext: ciphertext@ };
                match (r, inbound(m, frame)) {
                    (None, _) => {
                        &&& !fits(m, frame)
                        &&& final(self)@ == m
                        &&& final(tun).history() == old(tun).history()
                    },
                    (Some(r), Err(fault)) => {
                        &&& r matches Err(e) && e@ == fault
                        &&& final(self)@ == m
                        &&& final(tun).history() == old(tun).history()
                    },
                    (Some(r), Ok(payload)) => {
                        let event = final(tun).history().last();
                        &&& fits(m, frame)
                        &&& event is Offered
                        &&& event->Offered_0 == inbound_packet(m, frame, payload)
                        &&& final(tun).history() == old(tun).history().push(event)
                        &&& final(self)@ == accepted(m, frame, payload, event->Offered_1).0
                        &&& match (r, accepted(m, frame, payload, event->Offered_1).1) {
                            (Ok(_), Ok(_)) => true,
                            (Err(e), Err(fault)) => e@ == fault,
                            _ => false,
                        }
                    },
                }
            }),
    {
        let header_len: usize = match header.frame_type {
            FrameType::Data => 40,
            FrameType::UdpDatagram => 28,
            _ => {
                return Some(self.receive_mux(header, ciphertext, tun));
            },
        };
        if let Ok(payload) = self.mux.inspect(&self.rx, header, ciphertext, header.frame_type) {
            if payload.len() > 0xffff - header_len {
                if self.is_routed(header) {
                    return None;
                }
            }
        }
        Some(self.receive_mux(header, ciphertext, tun))
    }

    /// Whether a frame belongs to a flow that takes frames of its type.
    fn is_routed(&self, header: &FrameHeader) -> (r: bool)
        ensures
            r == (match header.frame_type {
                FrameType::Data => self@.tcp_by_id.contains_key(header.stream_id),
                FrameType::UdpDatagram => self@.by_id.contains_key(header.stream_id)
                    && self@.by_id[header.stream_id].is_udp,
                _ => false,
            }),
    {
        broadcast use vstd::std_specs::hash::group_hash_axioms;

        match header.frame_type {
            FrameType::Data => self.tcp_by_id.get(&header.stream_id).is_some(),
            FrameType::UdpDatagram => match self.by_id.get(&header.stream_id) {
                Some(key) => key.is_udp,
                None => false,
            },
            _ => false,
        }
    }
}

/// Discovery chatter never enters the tunnel: nothing is answered, nothing is
/// sent, and nothing is remembered of it.
pub proof fn noise_never_enters_the_tunnel(
    m: PumpModel,
    packet: PacketModel,
    handed: Result<(), NetstackFault>,
)
    requires
        match packet.payload {
            L4Model::Tcp(_) => no_single_host(packet.dst),
            L4Model::Udp(dgram) => is_noise(packet.dst, dgram.dst_port),
        },
    ensures
        reply(m, packet) is None,
        settled(m, packet, handed) == (m, Ok::<Option<Seq<SealedModel>>, ClientFault>(None)),
{
}

/// The handshake stays here: a SYN without payload and the ACK that completes it
/// give no frames, the SYN is answered, and the flow is established after both.
pub proof fn handshake_stays_local(
    m: PumpModel,
    src: Ipv4Addr,
    dst: Ipv4Addr,
    syn: TcpModel,
    ack: TcpModel,
)
    requires
        !no_single_host(dst),
        syn.syn && !syn.ack && !syn.rst && syn.payload.len() == 0,
        ack.ack && !ack.syn && !ack.rst && !ack.fin && ack.payload.len() == 0,
        ack.src_port == syn.src_port && ack.dst_port == syn.dst_port,
        ack.ack_num == m.iss_next.wrapping_add(1),
        ({
            let packet = PacketModel { src, dst, payload: L4Model::Tcp(syn) };
            !m.tcp.contains_key(tcp_key(packet, syn))
        }),
    ensures
        ({
            let first = PacketModel { src, dst, payload: L4Model::Tcp(syn) };
            let second = PacketModel { src, dst, payload: L4Model::Tcp(ack) };
            let key = tcp_key(first, syn);
            let (m1, r1) = settled(m, first, Ok(()));
            let (m2, r2) = settled(m1, second, Ok(()));
            &&& reply(m, first) == Some(syn_ack(key, m.iss_next, syn.seq))
            &&& reply(m1, second) is None
            &&& r1 == Ok::<Option<Seq<SealedModel>>, ClientFault>(None)
            &&& r2 == Ok::<Option<Seq<SealedModel>>, ClientFault>(None)
            &&& m2.tcp.contains_key(key)
            &&& m2.tcp[key].state == TcpState::Established
        }),
{
}

/// A stream is opened once: after payload of a flow was sent, more payload gives
/// one frame.
pub proof fn stream_is_opened_once(
    m: PumpModel,
    key: FlowKey,
    flow: TcpFlow,
    payload: Seq<u8>,
    more: Seq<u8>,
)
    requires
        tcp_forwarded(m, key, flow, payload).1 is Ok,
    ensures
        ({
            let after = tcp_forwarded(m, key, flow, payload).0;
            &&& after.tcp.contains_key(key)
            &&& after.tcp[key].id is Some
            &&& tcp_forwarded(after, key, after.tcp[key], more).1 matches Ok(list) ==> list.len()
                == 1
        }),
{
}

/// A flow that was closed or reset is silent: no later segment but a new SYN is
/// answered or sent on.
pub proof fn closed_flow_is_silent(
    m: PumpModel,
    src: Ipv4Addr,
    dst: Ipv4Addr,
    last: TcpModel,
    later: TcpModel,
    handed: Result<(), NetstackFault>,
)
    requires
        ({
            let packet = PacketModel { src, dst, payload: L4Model::Tcp(last) };
            let mv = tcp_move(m.tcp, tcp_key(packet, last), last);
            mv == TcpMove::Finish || mv == TcpMove::Forget
        }),
        later.src_port == last.src_port && later.dst_port == last.dst_port,
        !(later.syn && !later.ack),
    ensures
        ({
            let packet = PacketModel { src, dst, payload: L4Model::Tcp(last) };
            let stray = PacketModel { src, dst, payload: L4Model::Tcp(later) };
            let after = settled(m, packet, handed).0;
            &&& reply(after, stray) is None
            &&& settled(after, stray, Ok(())) == (
                after,
                Ok::<Option<Seq<SealedModel>>, ClientFault>(None),
            )
        }),
{
}

/// Payload from the server leaves in one sequence: the numbers of the next packet
/// follow on the bytes of this one, and acknowledge the same bytes.
pub proof fn replies_form_a_sequence(
    m: PumpModel,
    frame: SealedModel,
    payload: Seq<u8>,
    next: SealedModel,
    more: Seq<u8>,
)
    requires
        consistent(m),
        frame.header.frame_type == FrameType::Data,
        next.header.frame_type == FrameType::Data,
        next.header.stream_id == frame.header.stream_id,
        inbound(m, frame) == Ok::<Seq<u8>, ClientFault>(payload),
    ensures
        ({
            let key = m.tcp_by_id[frame.header.stream_id];
            let flow = m.tcp[key];
            let after = accepted(m, frame, payload, Ok(())).0;
            let ack = flow.client_isn.wrapping_add(1).wrapping_add(flow.client_bytes);
            &&& inbound_packet(m, frame, payload) == tcp_reply(
                key,
                false,
                true,
                false,
                flow.server_next,
                ack,
                payload,
            )
            &&& inbound_packet(after, next, more) == tcp_reply(
                key,
                false,
                true,
                false,
                flow.server_next.wrapping_add(payload.len() as u32),
                ack,
                more,
            )
        }),
{
}

/// Whatever frame comes, the tables of a pump agree afterwards.
pub proof fn accepting_keeps_tables(
    m: PumpModel,
    frame: SealedModel,
    payload: Seq<u8>,
    handed: Result<(), NetstackFault>,
)
    requires
        consistent(m),
        inbound(m, frame) == Ok::<Seq<u8>, ClientFault>(payload),
    ensures
        consistent(accepted(m, frame, payload, handed).0),
{
}

/// A frame whose payload was accepted is refused when it comes again.
pub proof fn accepted_frame_is_not_accepted_again(
    m: PumpModel,
    frame: SealedModel,
    payload: Seq<u8>,
    handed: Result<(), NetstackFault>,
)
    requires
        inbound(m, frame) == Ok::<Seq<u8>, ClientFault>(payload),
    ensures
        inbound(accepted(m, frame, payload, handed).0, frame) is Err,
{
    crate::mux::manager::received_frame_is_never_received_again(
        m.entries,
        m.rx,
        frame,
        frame.header.frame_type,
        Seq::empty(),
    );
}

/// A packet that can be read is no longer than its length field can say.
proof fn payload_is_short(raw: Seq<u8>)
    ensures
        parsed_packet(raw) matches Ok(packet) ==> carried(packet).len() <= 0xffff,
{
}

} // verus!
