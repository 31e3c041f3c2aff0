//! What the pump does for an application, in terms of packets and frames.

use vstd::prelude::*;
use vstd::utf8::encode_utf8;

use crate::client::pump::{
    accepted, announcement, carried, conveys, flow_of, fresh_pump, inbound, inbound_packet, opened,
    opening, outgoing, polled, pumped, reply, settled, tcp_reply, FlowKey, PumpModel, TcpFlow,
    TcpState,
};
use crate::client::ClientFault;
use crate::crypto::aead::chacha20poly1305_seal;
use crate::frame::codec::{padded, padding_aligns};
use crate::frame::types::{payload_bytes, plain_frame, PayloadModel};
use crate::mux::manager::{
    nonce_bytes, open_frame, opens_to, received, sealed_frames_say_what_they_are, MuxManager,
    SealedModel,
};
use crate::mux::MuxFault;
use crate::net::Ipv4Addr;
use crate::netstack::smoltcp_wrapper::{
    parsed_packet, tcp_packet_round_trip, udp_packet, udp_packet_round_trip, L4Model, PacketModel,
    TcpHeader, TcpModel, UdpModel,
};
use crate::netstack::tun::TunEvent;
use crate::netstack::NetstackFault;
use crate::protocol::FrameType;
use crate::text::decimal;

verus! {

/// Whether an address is that of a single host: not 224.0.0.0 to 239.255.255.255, not
/// 255.255.255.255 and not 0.0.0.0.
pub open spec fn is_single_host(addr: Ipv4Addr) -> bool {
    let o = addr.spec_octets();
    &&& !(224 <= o[0] <= 239)
    &&& !(o[0] == 255 && o[1] == 255 && o[2] == 255 && o[3] == 255)
    &&& !(o[0] == 0 && o[1] == 0 && o[2] == 0 && o[3] == 0)
}

/// A packet with a TCP segment.
pub open spec fn tcp_of(src: Ipv4Addr, dst: Ipv4Addr, seg: TcpModel) -> PacketModel {
    PacketModel { src, dst, payload: L4Model::Tcp(seg) }
}

/// A packet with a datagram.
pub open spec fn udp_of(src: Ipv4Addr, dst: Ipv4Addr, dgram: UdpModel) -> PacketModel {
    PacketModel { src, dst, payload: L4Model::Udp(dgram) }
}

/// Whether a raw packet parses to a packet.
#[verifier::opaque]
pub open spec fn reads_as(raw: Seq<u8>, packet: PacketModel) -> bool {
    parsed_packet(raw) == Ok::<PacketModel, NetstackFault>(packet)
}

proof fn lemma_tcp_reply(
    flow: FlowKey,
    syn: bool,
    psh: bool,
    fin: bool,
    seq: u32,
    ack_num: u32,
    payload: Seq<u8>,
)
    requires
        40 + payload.len() <= 0xffff,
    ensures
        reads_as(
            tcp_reply(flow, syn, psh, fin, seq, ack_num, payload),
            tcp_of(
                flow.dst,
                flow.src,
                TcpModel {
                    src_port: flow.dst_port,
                    dst_port: flow.src_port,
                    syn,
                    ack: true,
                    psh,
                    rst: false,
                    fin,
                    seq,
                    ack_num,
                    payload,
                },
            ),
        ),
{
    reveal(reads_as);
    tcp_packet_round_trip(
        flow.dst,
        flow.src,
        TcpHeader {
            src_port: flow.dst_port,
            dst_port: flow.src_port,
            seq,
            ack_num,
            header_len: 20,
            syn,
            ack: true,
            psh,
            fin,
            rst: false,
            window: 0xffff,
        },
        payload,
    );
}

proof fn lemma_udp_reply(flow: FlowKey, payload: Seq<u8>)
    requires
        28 + payload.len() <= 0xffff,
    ensures
        reads_as(
            udp_packet(flow.dst, flow.src, flow.dst_port, flow.src_port, payload),
            udp_of(
                flow.dst,
                flow.src,
                UdpModel { src_port: flow.dst_port, dst_port: flow.src_port, payload },
            ),
        ),
{
    reveal(reads_as);
    udp_packet_round_trip(flow.dst, flow.src, flow.dst_port, flow.src_port, payload);
}

/// Whether a segment belongs to a flow whose handshake is complete, or completes it: it
/// acknowledges our initial sequence number.
pub open spec fn of_established_flow(m: PumpModel, flow: FlowKey, seg: TcpModel) -> bool {
    &&& m.tcp.contains_key(flow)
    &&& m.tcp[flow].state == TcpState::Established || seg.ack && !seg.syn && seg.ack_num == (
    m.tcp[flow].server_iss + 1) % 0x1_0000_0000
    &&& !(seg.syn && !seg.ack && seg.seq == m.tcp[flow].client_isn)
}

/// Payload of an established flow to a single host is never passed over in silence, whatever
/// its PSH flag: it gives frames, or a fault of the multiplexer. It is not answered here.
pub proof fn payload_is_never_passed_over(
    m: PumpModel,
    src: Ipv4Addr,
    dst: Ipv4Addr,
    seg: TcpModel,
    handed: Result<(), NetstackFault>,
        )
    requires
        ({
            let flow = FlowKey {
                src,
                src_port: seg.src_port,
                dst,
                dst_port: seg.dst_port,
                is_udp: false,
            };
            of_established_flow(m, flow, seg)
        }),
        is_single_host(dst),
        !seg.rst && !seg.fin,
        seg.payload.len() > 0,
    ensures
        reply(m, tcp_of(src, dst, seg)) is None,
        match settled(m, tcp_of(src, dst, seg), handed).1 {
            Ok(Some(list)) => list.len() == 1 || list.len() == 2,
            Ok(None) => false,
            Err(fault) => fault is Mux,
        },
{
}

proof fn lemma_short_text(s: Seq<char>)
    ensures
        encode_utf8(s).len() <= 4 * s.len(),
    decreases s.len(),
{
    if s.len() > 0 {
        lemma_short_text(s.drop_first());
    }
}

proof fn lemma_address_text(addr: Ipv4Addr)
    ensures
        0 < addr.spec_text().len() <= 15,
        encode_utf8(addr.spec_text()).len() <= 60,
{
    reveal_with_fuel(decimal, 4);
    lemma_short_text(addr.spec_text());
}

/// Short payload can be sealed under a key of 32 bytes.
proof fn lemma_sealable(m: PumpModel, is_udp: bool, id: u16, payload: Seq<u8>)
    requires
        m.tx.len() == 32,
        m.pad <= 0x80_0000,
        payload.len() <= 0xffff,
        m.entries.contains_key(id),
        m.entries[id].is_udp == is_udp,
    ensures
        outgoing(m, is_udp, id, payload) matches Ok(f) && f.header.stream_id == id
            && f.header.sequence == m.entries[id].next_seq && f.header.frame_type == (if is_udp {
            FrameType::UdpDatagram
        } else {
            FrameType::Data
        }) && f.ciphertext == chacha20poly1305_seal(
            m.tx,
            nonce_bytes(id, f.header.sequence, f.header.frame_type),
            padded(payload, m.pad),
            Seq::empty(),
        ),
{
    if m.pad > 0 {
        padding_aligns(4 + payload.len(), m.pad);
    }
    let seq = m.entries[id].next_seq;
    let frame = if is_udp {
        plain_frame(FrameType::UdpDatagram, id, 0, PayloadModel::UdpDatagram(payload))
    } else {
        plain_frame(FrameType::Data, id, seq, PayloadModel::Data(payload))
    };
    sealed_frames_say_what_they_are(m.tx, id, seq, frame, m.pad);
}

proof fn lemma_announceable(m: PumpModel, flow: FlowKey, id: u16)
    requires
        m.tx.len() == 32,
        m.pad <= 0x80_0000,
    ensures
        announcement(m, flow, id) matches Ok(f) && f.header.stream_id == id && f.header.sequence
            == 0 && f.header.frame_type == (if flow.is_udp {
            FrameType::OpenUdp
        } else {
            FrameType::OpenTcp
        }),
{
    lemma_address_text(flow.dst);
    let frame = open_frame(flow.is_udp, id, flow.dst.spec_text(), flow.dst_port);
    if m.pad > 0 {
        padding_aligns(4 + payload_bytes(frame.payload).len(), m.pad);
    }
}

/// Where a stream is open for a flow, or one can be opened, payload of the flow is sent: one
/// DATA frame on its stream, behind the OPEN frame of a new one, which holds exactly the
/// payload, padded and sealed under the number of the frame. The flow then has that stream, is established, and has taken that many bytes more from the application.
pub proof fn payload_is_sent(
    m: PumpModel,
    src: Ipv4Addr,
    dst: Ipv4Addr,
    seg: TcpModel,
    handed: Result<(), NetstackFault>,
)
    requires
        ({
            let flow = FlowKey {
                src,
                src_port: seg.src_port,
                dst,
                dst_port: seg.dst_port,
                is_udp: false,
            };
            &&& of_established_flow(m, flow, seg)
            &&& match m.tcp[flow].id {
                Some(id) => m.entries.contains_key(id) && !m.entries[id].is_udp,
                None => m.entries.len() < m.max && seg.dst_port != 0,
            }
        }),
        is_single_host(dst),
        !seg.rst && !seg.fin,
        0 < seg.payload.len() <= 0xffff,
        m.tx.len() == 32,
        m.pad <= 0x80_0000,
    ensures
        ({
            let flow = FlowKey {
                src,
                src_port: seg.src_port,
                dst,
                dst_port: seg.dst_port,
                is_udp: false,
            };
            let (after, r) = settled(m, tcp_of(src, dst, seg), handed);
            &&& r matches Ok(Some(list)) && {
                let data = list.last();
                &&& data.header.frame_type == FrameType::Data
                &&& data.ciphertext == chacha20poly1305_seal(
                    m.tx,
                    nonce_bytes(data.header.stream_id, data.header.sequence, FrameType::Data),
                    padded(seg.payload, m.pad),
                    Seq::empty(),
                )
                &&& after.tcp.contains_key(flow)
                &&& after.tcp[flow].id == Some(data.header.stream_id)
                &&& after.tcp[flow].state == TcpState::Established
                &&& after.tcp[flow].client_bytes == (m.tcp[flow].client_bytes
                    + seg.payload.len()) % 0x1_0000_0000
                &&& after.tcp_by_id.contains_key(data.header.stream_id) || m.tcp[flow].id is Some
                &&& match m.tcp[flow].id {
                    Some(id) => list.len() == 1 && data.header.stream_id == id,
                    None => {
                        &&& list.len() == 2
                        &&& list[0].header.frame_type == FrameType::OpenTcp
                        &&& list[0].header.stream_id == data.header.stream_id
                        &&& list[0].header.sequence == 0
                        &&& data.header.stream_id == m.next_id
                        &&& data.header.sequence == 1
                        &&& after.tcp_by_id[data.header.stream_id] == flow
                    },
                }
            }
        }),
{
    let flow = FlowKey {
        src,
        src_port: seg.src_port,
        dst,
        dst_port: seg.dst_port,
        is_udp: false,
    };
    match m.tcp[flow].id {
        Some(id) => {
            lemma_sealable(m, false, id, seg.payload);
        },
        None => {
            lemma_address_text(dst);
            let id = m.next_id;
            assert(opening(m, flow) == Ok::<u16, MuxFault>(id));
            let next = opened(m, flow, id);
            lemma_announceable(next, flow, id);
            lemma_sealable(next, false, id, seg.payload);
        },
    }
}

/// A SYN to a single host opens a flow and is answered by a SYN-ACK from the destination to
/// the source, which carries our next initial sequence number and acknowledges the one of
/// the application. Where the answer is taken, the flow is noted; its first byte from the
/// server will follow the initial number.
pub proof fn syn_is_answered(
    m: PumpModel,
    src: Ipv4Addr,
    dst: Ipv4Addr,
    seg: TcpModel,
    handed: Result<(), NetstackFault>,
)
    requires
        ({
            let flow = FlowKey {
                src,
                src_port: seg.src_port,
                dst,
                dst_port: seg.dst_port,
                is_udp: false,
            };
            !m.tcp.contains_key(flow)
        }),
        is_single_host(dst),
        seg.syn && !seg.ack && !seg.rst,
    ensures
        reply(m, tcp_of(src, dst, seg)) matches Some(raw) && reads_as(
            raw,
            tcp_of(
                dst,
                src,
                TcpModel {
                    src_port: seg.dst_port,
                    dst_port: seg.src_port,
                    syn: true,
                    ack: true,
                    psh: false,
                    rst: false,
                    fin: false,
                    seq: m.iss_next,
                    ack_num: ((seg.seq + 1) % 0x1_0000_0000) as u32,
                    payload: Seq::empty(),
                },
            ),
        ),
        ({
            let flow = FlowKey {
                src,
                src_port: seg.src_port,
                dst,
                dst_port: seg.dst_port,
                is_udp: false,
            };
            let (after, r) = settled(m, tcp_of(src, dst, seg), handed);
            &&& after.iss_next == (m.iss_next + 1) % 0x1_0000_0000
            &&& match handed {
                Err(fault) => {
                    &&& r == Err::<Option<Seq<SealedModel>>, _>(ClientFault::Netstack(fault))
                    &&& !after.tcp.contains_key(flow)
                },
                Ok(_) => if seg.payload.len() == 0 {
                    &&& r == Ok::<Option<Seq<SealedModel>>, ClientFault>(None)
                    &&& after.tcp.contains_key(flow)
                    &&& after.tcp[flow] == TcpFlow {
                        id: None,
                        client_isn: seg.seq,
                        server_iss: m.iss_next,
                        server_next: ((m.iss_next + 1) % 0x1_0000_0000) as u32,
                        client_bytes: 0,
                        state: TcpState::SynReceived,
                    }
                } else {
                    !(r matches Ok(None))
                },
            }
        }),
{
    let flow = FlowKey {
        src,
        src_port: seg.src_port,
        dst,
        dst_port: seg.dst_port,
        is_udp: false,
    };
    lemma_tcp_reply(
        flow,
        true,
        false,
        false,
        m.iss_next,
        seg.seq.wrapping_add(1),
        Seq::empty(),
    );
    assert(seg.seq.wrapping_add(1) == (seg.seq + 1) % 0x1_0000_0000);
}

/// A SYN that comes again gets the same answer as before, and changes nothing.
pub proof fn repeated_syn_gets_the_same_answer(
    m: PumpModel,
    src: Ipv4Addr,
    dst: Ipv4Addr,
    seg: TcpModel,
)
    requires
        ({
            let flow = FlowKey {
                src,
                src_port: seg.src_port,
                dst,
                dst_port: seg.dst_port,
                is_udp: false,
            };
            !m.tcp.contains_key(flow)
        }),
        is_single_host(dst),
        seg.syn && !seg.ack && !seg.rst && seg.payload.len() == 0,
    ensures
        ({
            let packet = tcp_of(src, dst, seg);
            let after = settled(m, packet, Ok(())).0;
            &&& reply(after, packet) == reply(m, packet)
            &&& reply(m, packet) is Some
            &&& settled(after, packet, Ok(())) == (
                after,
                Ok::<Option<Seq<SealedModel>>, ClientFault>(None),
            )
        }),
{
}

/// A FIN of an established flow is answered by a FIN-ACK from the destination to the source,
/// with our next sequence number and acknowledging the payload and the FIN, and the flow is
/// forgotten together with its stream.
pub proof fn fin_is_answered(
    m: PumpModel,
    src: Ipv4Addr,
    dst: Ipv4Addr,
    seg: TcpModel,
    handed: Result<(), NetstackFault>,
)
    requires
        ({
            let flow = FlowKey {
                src,
                src_port: seg.src_port,
                dst,
                dst_port: seg.dst_port,
                is_udp: false,
            };
            of_established_flow(m, flow, seg)
        }),
        is_single_host(dst),
        seg.fin && !seg.rst,
    ensures
        ({
            let flow = FlowKey {
                src,
                src_port: seg.src_port,
                dst,
                dst_port: seg.dst_port,
                is_udp: false,
            };
            let (after, r) = settled(m, tcp_of(src, dst, seg), handed);
            &&& reply(m, tcp_of(src, dst, seg)) matches Some(raw) && reads_as(
                raw,
                tcp_of(
                    dst,
                    src,
                    TcpModel {
                        src_port: seg.dst_port,
                        dst_port: seg.src_port,
                        syn: false,
                        ack: true,
                        psh: false,
                        rst: false,
                        fin: true,
                        seq: m.tcp[flow].server_next,
                        ack_num: ((seg.seq + (seg.payload.len() as u32) + 1)
                            % 0x1_0000_0000) as u32,
                        payload: Seq::empty(),
                    },
                ),
            )
            &&& !after.tcp.contains_key(flow)
            &&& m.tcp[flow].id matches Some(id) ==> !after.tcp_by_id.contains_key(id)
                && !after.by_id.contains_key(id)
            &&& match handed {
                Ok(_) => r == Ok::<Option<Seq<SealedModel>>, ClientFault>(None),
                Err(fault) => r == Err::<Option<Seq<SealedModel>>, _>(
                    ClientFault::Netstack(fault),
                ),
            }
        }),
{
    let flow = FlowKey {
        src,
        src_port: seg.src_port,
        dst,
        dst_port: seg.dst_port,
        is_udp: false,
    };
    let n = seg.payload.len() as u32;
    let ack = seg.seq.wrapping_add(n).wrapping_add(1);
    assert(ack == (seg.seq + n + 1) % 0x1_0000_0000);
    lemma_tcp_reply(flow, false, false, true, m.tcp[flow].server_next, ack, Seq::empty());
}

/// A RST to a single host is not answered; the flow is forgotten together with its stream.
pub proof fn rst_forgets_the_flow(
    m: PumpModel,
    src: Ipv4Addr,
    dst: Ipv4Addr,
    seg: TcpModel,
    handed: Result<(), NetstackFault>,
)
    requires
        is_single_host(dst),
        seg.rst,
    ensures
        ({
            let flow = FlowKey {
                src,
                src_port: seg.src_port,
                dst,
                dst_port: seg.dst_port,
                is_udp: false,
            };
            let (after, r) = settled(m, tcp_of(src, dst, seg), handed);
            &&& reply(m, tcp_of(src, dst, seg)) is None
            &&& r == Ok::<Option<Seq<SealedModel>>, ClientFault>(None)
            &&& !after.tcp.contains_key(flow)
            &&& m.tcp.contains_key(flow) && m.tcp[flow].id is Some ==> {
                &&& !after.tcp_by_id.contains_key(m.tcp[flow].id->Some_0)
                &&& !after.by_id.contains_key(m.tcp[flow].id->Some_0)
            }
        }),
{
}

/// A bare ACK of an established flow gives nothing; where it completes the handshake, the
/// flow is established from then on, and nothing else of it changes.
pub proof fn bare_ack_establishes_at_most(
    m: PumpModel,
    src: Ipv4Addr,
    dst: Ipv4Addr,
    seg: TcpModel,
    handed: Result<(), NetstackFault>,
)
    requires
        ({
            let flow = FlowKey {
                src,
                src_port: seg.src_port,
                dst,
                dst_port: seg.dst_port,
                is_udp: false,
            };
            of_established_flow(m, flow, seg)
        }),
        is_single_host(dst),
        !seg.rst && !seg.fin,
        seg.payload.len() == 0,
    ensures
        ({
            let flow = FlowKey {
                src,
                src_port: seg.src_port,
                dst,
                dst_port: seg.dst_port,
                is_udp: false,
            };
            let (after, r) = settled(m, tcp_of(src, dst, seg), handed);
            &&& reply(m, tcp_of(src, dst, seg)) is None
            &&& r == Ok::<Option<Seq<SealedModel>>, ClientFault>(None)
            &&& after == PumpModel {
                tcp: m.tcp.insert(
                    flow,
                    TcpFlow { state: TcpState::Established, ..m.tcp[flow] },
                ),
                ..m
            }
        }),
{
}

/// A segment that fits no flow changes nothing and is neither answered nor sent on: one that
/// is no SYN and whose flow is unknown, one before the handshake is complete that does not
/// complete it, and one to no single host.
pub proof fn stray_segments_change_nothing(
    m: PumpModel,
    src: Ipv4Addr,
    dst: Ipv4Addr,
    seg: TcpModel,
    handed: Result<(), NetstackFault>,
)
    requires
        ({
            let flow = FlowKey {
                src,
                src_port: seg.src_port,
                dst,
                dst_port: seg.dst_port,
                is_udp: false,
            };
            ||| !is_single_host(dst)
            ||| !seg.rst && !m.tcp.contains_key(flow) && !(seg.syn && !seg.ack)
            ||| {
                &&& !seg.rst
                &&& m.tcp.contains_key(flow)
                &&& m.tcp[flow].state == TcpState::SynReceived
                &&& !(seg.ack && !seg.syn && seg.ack_num == (m.tcp[flow].server_iss + 1)
                    % 0x1_0000_0000)
                &&& !(seg.syn && !seg.ack && seg.seq == m.tcp[flow].client_isn)
            }
        }),
    ensures
        reply(m, tcp_of(src, dst, seg)) is None,
        settled(m, tcp_of(src, dst, seg), handed) == (
            m,
            Ok::<Option<Seq<SealedModel>>, ClientFault>(None),
        ),
{
}

/// A TCP segment concerns its own flow alone: every other flow stays as it is, and so do the
/// keys and the padding.
pub proof fn segments_concern_their_own_flow(
    m: PumpModel,
    src: Ipv4Addr,
    dst: Ipv4Addr,
    seg: TcpModel,
    handed: Result<(), NetstackFault>,
    other: FlowKey,
)
    requires
        other != (FlowKey {
            src,
            src_port: seg.src_port,
            dst,
            dst_port: seg.dst_port,
            is_udp: false,
        }),
    ensures
        ({
            let after = settled(m, tcp_of(src, dst, seg), handed).0;
            &&& after.tcp.contains_key(other) == m.tcp.contains_key(other)
            &&& m.tcp.contains_key(other) ==> after.tcp[other] == m.tcp[other]
            &&& after.udp == m.udp
            &&& after.tx == m.tx
            &&& after.rx == m.rx
            &&& after.pad == m.pad
            &&& after.max == m.max
        }),
{
}

/// A datagram to a single host is never passed over in silence, unless it goes to the ports
/// of NetBIOS, mDNS, LLMNR or SSDP: it gives frames, or a fault of the multiplexer. No
/// datagram is answered here, and discovery chatter changes nothing.
pub proof fn datagrams_are_sent_but_for_chatter(
    m: PumpModel,
    src: Ipv4Addr,
    dst: Ipv4Addr,
    dgram: UdpModel,
    handed: Result<(), NetstackFault>,
)
    ensures
        reply(m, udp_of(src, dst, dgram)) is None,
        ({
            let port = dgram.dst_port;
            let (after, r) = settled(m, udp_of(src, dst, dgram), handed);
            if !is_single_host(dst) || port == 137 || port == 138 || port == 5353 || port == 5355
                || port == 1900 {
                after == m && r == Ok::<Option<Seq<SealedModel>>, ClientFault>(None)
            } else {
                match r {
                    Ok(Some(list)) => list.len() == 1 || list.len() == 2,
                    Ok(None) => false,
                    Err(fault) => fault is Mux,
                }
            }
        }),
{
}

/// A datagram of a flow goes out on the flow's id, which the first one opens: that gives an
/// OPEN frame and a DATAGRAM frame, every later one a DATAGRAM frame on the same id. What
/// comes back on the id belongs to the flow.
pub proof fn datagrams_share_the_id_of_their_flow(
    m: PumpModel,
    src: Ipv4Addr,
    dst: Ipv4Addr,
    dgram: UdpModel,
    more: UdpModel,
)
    requires
        is_single_host(dst),
        ({
            let port = dgram.dst_port;
            port != 0 && port != 137 && port != 138 && port != 5353 && port != 5355 && port != 1900
        }),
        more.src_port == dgram.src_port && more.dst_port == dgram.dst_port,
        dgram.payload.len() <= 0xffff && more.payload.len() <= 0xffff,
        m.tx.len() == 32,
        m.pad <= 0x80_0000,
        ({
            let flow = FlowKey {
                src,
                src_port: dgram.src_port,
                dst,
                dst_port: dgram.dst_port,
                is_udp: true,
            };
            !m.udp.contains_key(flow) && m.entries.len() < m.max
        }),
    ensures
        ({
            let flow = FlowKey {
                src,
                src_port: dgram.src_port,
                dst,
                dst_port: dgram.dst_port,
                is_udp: true,
            };
            let (m1, r1) = settled(m, udp_of(src, dst, dgram), Ok(()));
            let (m2, r2) = settled(m1, udp_of(src, dst, more), Ok(()));
            &&& r1 matches Ok(Some(list)) && {
                &&& list.len() == 2
                &&& list[0].header.frame_type == FrameType::OpenUdp
                &&& list[0].header.sequence == 0
                &&& list[0].header.stream_id == m.next_id
                &&& list[1].header.frame_type == FrameType::UdpDatagram
                &&& list[1].header.stream_id == m.next_id
                &&& list[1].header.sequence == 1
                &&& list[1].ciphertext == chacha20poly1305_seal(
                    m.tx,
                    nonce_bytes(m.next_id, 1, FrameType::UdpDatagram),
                    padded(dgram.payload, m.pad),
                    Seq::empty(),
                )
            }
            &&& r2 matches Ok(Some(list)) && {
                &&& list.len() == 1
                &&& list[0].header.frame_type == FrameType::UdpDatagram
                &&& list[0].header.stream_id == m.next_id
                &&& list[0].header.sequence == 2
                &&& list[0].ciphertext == chacha20poly1305_seal(
                    m.tx,
                    nonce_bytes(m.next_id, 2, FrameType::UdpDatagram),
                    padded(more.payload, m.pad),
                    Seq::empty(),
                )
            }
            &&& m2.by_id.contains_key(m.next_id)
            &&& m2.by_id[m.next_id] == flow
        }),
{
    let flow = FlowKey {
        src,
        src_port: dgram.src_port,
        dst,
        dst_port: dgram.dst_port,
        is_udp: true,
    };
    let id = m.next_id;
    lemma_address_text(dst);
    assert(opening(m, flow) == Ok::<u16, MuxFault>(id));
    let next = opened(m, flow, id);
    lemma_announceable(next, flow, id);
    lemma_sealable(next, true, id, dgram.payload);
    let m1 = settled(m, udp_of(src, dst, dgram), Ok(())).0;
    lemma_sealable(m1, true, id, more.payload);
}

/// What a datagram or a segment carries is its payload, and the flow it belongs to has its
/// addresses and ports.
pub proof fn packets_belong_to_the_flow_of_their_addresses(
    src: Ipv4Addr,
    dst: Ipv4Addr,
    seg: TcpModel,
    dgram: UdpModel,
)
    ensures
        carried(tcp_of(src, dst, seg)) == seg.payload,
        carried(udp_of(src, dst, dgram)) == dgram.payload,
        flow_of(tcp_of(src, dst, seg)) == (FlowKey {
            src,
            src_port: seg.src_port,
            dst,
            dst_port: seg.dst_port,
            is_udp: false,
        }),
        flow_of(udp_of(src, dst, dgram)) == (FlowKey {
            src,
            src_port: dgram.src_port,
            dst,
            dst_port: dgram.dst_port,
            is_udp: true,
        }),
{
}

/// Frames that convey bytes of a flow end with one that opens to exactly these bytes, as
/// stream data or as a datagram; in front of it may stand the OPEN frame of the same stream,
/// which opens to the destination of the flow.
pub proof fn conveying_frames_open_to_the_bytes(
    list: Seq<SealedModel>,
    key: Seq<u8>,
    flow: FlowKey,
    bytes: Seq<u8>,
)
    requires
        conveys(list, key, flow, bytes),
    ensures
        list.len() == 1 || list.len() == 2,
        opens_to(
            key,
            list.last(),
            if flow.is_udp {
                PayloadModel::UdpDatagram(bytes)
            } else {
                PayloadModel::Data(bytes)
            },
        ),
        list.len() == 2 ==> {
            &&& list[0].header.stream_id == list[1].header.stream_id
            &&& list[0].header.frame_type == (if flow.is_udp {
                FrameType::OpenUdp
            } else {
                FrameType::OpenTcp
            })
            &&& exists|payload: PayloadModel| #[trigger]
                opens_to(key, list[0], payload) && match payload {
                    PayloadModel::OpenUdp { addr, port, .. } => flow.is_udp && addr
                        == flow.dst.spec_text() && port == flow.dst_port,
                    PayloadModel::OpenTcp { addr, port, .. } => !flow.is_udp && addr
                        == flow.dst.spec_text() && port == flow.dst_port,
                    _ => false,
                }
        },
{
    if list.len() == 2 {
        let open = open_frame(
            flow.is_udp,
            list[0].header.stream_id,
            flow.dst.spec_text(),
            flow.dst_port,
        );
        assert(opens_to(key, list[0], open.payload));
    }
}

/// The packet that carries a datagram of a flow to the application is the mirror of the
/// packets of the flow: it comes from the flow's destination, address and port, goes to its
/// source, and carries the payload of the frame.
pub proof fn answers_mirror_the_flow(m: PumpModel, frame: SealedModel, payload: Seq<u8>)
    requires
        inbound(m, frame) == Ok::<Seq<u8>, ClientFault>(payload),
        frame.header.frame_type == FrameType::UdpDatagram,
        28 + payload.len() <= 0xffff,
    ensures
        m.by_id.contains_key(frame.header.stream_id),
        ({
            let flow = m.by_id[frame.header.stream_id];
            &&& flow.is_udp
            &&& reads_as(
                inbound_packet(m, frame, payload),
                udp_of(
                    flow.dst,
                    flow.src,
                    UdpModel { src_port: flow.dst_port, dst_port: flow.src_port, payload },
                ),
            )
        }),
{
    let flow = m.by_id[frame.header.stream_id];
    lemma_udp_reply(flow, payload);
}

/// The packet that carries stream data to the application is the mirror of the packets of
/// the flow: it comes from the flow's destination, goes to its source, carries the payload
/// of the frame at our next sequence number, and acknowledges every byte taken so far. Where
/// it is taken, our next number has moved on by the length of the payload.
pub proof fn stream_data_mirrors_the_flow(m: PumpModel, frame: SealedModel, payload: Seq<u8>)
    requires
        inbound(m, frame) == Ok::<Seq<u8>, ClientFault>(payload),
        frame.header.frame_type == FrameType::Data,
        40 + payload.len() <= 0xffff,
    ensures
        m.tcp_by_id.contains_key(frame.header.stream_id),
        ({
            let key = m.tcp_by_id[frame.header.stream_id];
            let flow = m.tcp[key];
            let after = accepted(m, frame, payload, Ok(())).0;
            &&& reads_as(
                inbound_packet(m, frame, payload),
                tcp_of(
                    key.dst,
                    key.src,
                    TcpModel {
                        src_port: key.dst_port,
                        dst_port: key.src_port,
                        syn: false,
                        ack: true,
                        psh: true,
                        rst: false,
                        fin: false,
                        seq: flow.server_next,
                        ack_num: ((flow.client_isn + 1 + flow.client_bytes) % 0x1_0000_0000) as u32,
                        payload,
                    },
                ),
            )
            &&& accepted(m, frame, payload, Ok(())).1 is Ok
            &&& after.tcp.contains_key(key)
            &&& after.tcp[key].server_next == (flow.server_next + payload.len()) % 0x1_0000_0000
            &&& after.tcp[key].client_bytes == flow.client_bytes
            &&& after.tcp[key].client_isn == flow.client_isn
            &&& after.tcp[key].id == flow.id
            &&& after.tcp[key].state == flow.state
        }),
{
    let key = m.tcp_by_id[frame.header.stream_id];
    let flow = m.tcp[key];
    let ack = flow.client_isn.wrapping_add(1).wrapping_add(flow.client_bytes);
    assert(ack == (flow.client_isn + 1 + flow.client_bytes) % 0x1_0000_0000);
    lemma_tcp_reply(key, false, true, false, flow.server_next, ack, payload);
}

/// A datagram that went out is answered to where it came from: what the server sends back on
/// its id reaches the application as a packet from the datagram's destination to its source.
pub proof fn answers_return_to_the_sender(
    m: PumpModel,
    src: Ipv4Addr,
    dst: Ipv4Addr,
    dgram: UdpModel,
    frame: SealedModel,
    answer: Seq<u8>,
)
    requires
        ({
            let (after, r) = settled(m, udp_of(src, dst, dgram), Ok(()));
            let flow = FlowKey {
                src,
                src_port: dgram.src_port,
                dst,
                dst_port: dgram.dst_port,
                is_udp: true,
            };
            &&& !m.udp.contains_key(flow)
            &&& r matches Ok(Some(list)) && frame.header.stream_id == list.last().header.stream_id
            &&& inbound(after, frame) == Ok::<Seq<u8>, ClientFault>(answer)
        }),
        frame.header.frame_type == FrameType::UdpDatagram,
        28 + answer.len() <= 0xffff,
    ensures
        ({
            let after = settled(m, udp_of(src, dst, dgram), Ok(())).0;
            reads_as(
                inbound_packet(after, frame, answer),
                udp_of(
                    dst,
                    src,
                    UdpModel {
                        src_port: dgram.dst_port,
                        dst_port: dgram.src_port,
                        payload: answer,
                    },
                ),
            )
        }),
{
    let after = settled(m, udp_of(src, dst, dgram), Ok(())).0;
    answers_mirror_the_flow(after, frame, answer);
}

/// Only stream data of a TCP flow and datagrams of a UDP flow are accepted, on an id that is
/// known, and only what the multiplexer receives: its bytes are the payload. Everything else
/// is refused.
pub proof fn only_traffic_of_known_flows_is_accepted(m: PumpModel, frame: SealedModel)
    ensures
        match inbound(m, frame) {
            Ok(payload) => {
                &&& received(m.entries, m.rx, frame, frame.header.frame_type) == Ok::<
                    Seq<u8>,
                    MuxFault,
                >(payload)
                &&& frame.header.frame_type == FrameType::Data && m.tcp_by_id.contains_key(
                    frame.header.stream_id,
                ) || frame.header.frame_type == FrameType::UdpDatagram && m.by_id.contains_key(
                    frame.header.stream_id,
                ) && m.by_id[frame.header.stream_id].is_udp
            },
            Err(fault) => {
                ||| fault is RoutingError && !(frame.header.frame_type == FrameType::Data
                    && m.tcp_by_id.contains_key(frame.header.stream_id)) && !(
                frame.header.frame_type == FrameType::UdpDatagram && m.by_id.contains_key(
                    frame.header.stream_id,
                ) && m.by_id[frame.header.stream_id].is_udp)
                ||| fault matches ClientFault::Mux(why) && received(
                    m.entries,
                    m.rx,
                    frame,
                    frame.header.frame_type,
                ) == Err::<Seq<u8>, MuxFault>(why)
            },
        },
{
}

/// A packet that cannot be read is dropped without a trace; every other one is settled as
/// its contents call for, once its answer, where it has one, was offered to the device.
pub proof fn packets_are_settled_one_by_one(m: PumpModel, raw: Seq<u8>, events: Seq<TunEvent>)
    ensures
        parsed_packet(raw) is Err ==> pumped(m, raw, Seq::empty()) == Some(
            (m, Ok::<Option<Seq<SealedModel>>, ClientFault>(None)),
        ),
        parsed_packet(raw) matches Ok(packet) ==> match reply(m, packet) {
            None => pumped(m, raw, Seq::empty()) == Some(settled(m, packet, Ok(()))),
            Some(answer) => forall|taken: Result<(), NetstackFault>| #[trigger]
                pumped(m, raw, seq![TunEvent::Offered(answer, taken)]) == Some(
                    settled(m, packet, taken),
                ),
        },
        pumped(m, raw, events) is Some ==> match parsed_packet(raw) {
            Ok(packet) => match reply(m, packet) {
                None => events.len() == 0,
                Some(answer) => events.len() == 1 && (events[0] matches TunEvent::Offered(pkt, _)
                    && pkt == answer),
            },
            Err(_) => events.len() == 0,
        },
{
}

/// Draining the device takes packet after packet: the frames of each come behind those of
/// the ones before, in order and none left out, until the device has no more.
pub proof fn draining_goes_packet_by_packet(
    m: PumpModel,
    raw: Seq<u8>,
    inner: Seq<TunEvent>,
    rest: Seq<TunEvent>,
    sofar: Seq<SealedModel>,
)
    requires
        pumped(m, raw, inner) is Some,
    ensures
        ({
            let events = seq![TunEvent::Took(Ok(Some(raw)))] + inner + rest;
            match pumped(m, raw, inner)->Some_0 {
                (after, Ok(Some(more))) => polled(m, events, sofar) == polled(
                    after,
                    rest,
                    sofar + more,
                ),
                (after, Ok(None)) => polled(m, events, sofar) == polled(after, rest, sofar),
                (after, Err(fault)) => rest.len() == 0 ==> polled(m, events, sofar) == Some(
                    (after, Err::<Seq<SealedModel>, ClientFault>(fault)),
                ),
            }
        }),
        polled(m, seq![TunEvent::Took(Ok(None))], sofar) == Some(
            (m, Ok::<Seq<SealedModel>, ClientFault>(sofar)),
        ),
{
    crate::client::pump::lemma_polled_past_packet(m, raw, inner, rest, sofar);
}

/// A new pump has the ids of its session and no flow, and counts initial sequence numbers from
/// a million.
pub proof fn pumps_start_without_flows(
    mux: MuxManager,
    tx: Seq<u8>,
    rx: Seq<u8>,
    pad: nat,
    flow: FlowKey,
    id: u16,
)
    ensures
        ({
            let m = fresh_pump(mux, tx, rx, pad);
            &&& !m.udp.contains_key(flow)
            &&& !m.tcp.contains_key(flow)
            &&& !m.by_id.contains_key(id)
            &&& !m.tcp_by_id.contains_key(id)
            &&& m.entries == mux.entries()
            &&& m.next_id == mux.spec_next_id()
            &&& m.max == mux.spec_max()
            &&& m.tx == tx
            &&& m.rx == rx
            &&& m.pad == pad
            &&& m.iss_next == 1_000_000
        }),
{
}

} // verus!
