//! IPv4 packets: parsing with checksum verification, and building.

use smoltcp::wire::{
    IpAddress, IpProtocol, Ipv4Address, Ipv4Packet, TcpPacket, TcpSeqNumber, UdpPacket,
};
use vstd::prelude::*;
use vstd::string::*;

use crate::buf::{be16, be32, from_be16, from_be32};
use crate::net::Ipv4Addr;
use crate::netstack::{NetstackError, NetstackFault};
use crate::text::{decimal, decimal_of, joined};

verus! {

/// What an IPv4 packet carries.
#[derive(Clone, Debug, PartialEq, Eq)]
pub enum ParsedPayload {
    Tcp(TcpSegment),
    Udp(UdpSegment),
}

/// An IPv4 packet, taken apart.
#[derive(Clone, Debug, PartialEq, Eq)]
pub struct ParsedPacket {
    /// Source address.
    pub src: Ipv4Addr,
    /// Destination address.
    pub dst: Ipv4Addr,
    /// What it carries.
    pub payload: ParsedPayload,
}

/// A TCP segment, taken apart.
#[derive(Clone, Debug, PartialEq, Eq)]
pub struct TcpSegment {
    pub src_port: u16,
    pub dst_port: u16,
    pub syn: bool,
    pub ack: bool,
    pub psh: bool,
    pub rst: bool,
    pub fin: bool,
    /// Sequence number.
    pub seq: u32,
    /// Acknowledgment number.
    pub ack_num: u32,
    pub payload: Vec<u8>,
}

/// A UDP datagram, taken apart.
#[derive(Clone, Debug, PartialEq, Eq)]
pub struct UdpSegment {
    pub src_port: u16,
    pub dst_port: u16,
    pub payload: Vec<u8>,
}

/// Mathematical counterpart of [`TcpSegment`].
pub struct TcpModel {
    pub src_port: u16,
    pub dst_port: u16,
    pub syn: bool,
    pub ack: bool,
    pub psh: bool,
    pub rst: bool,
    pub fin: bool,
    pub seq: u32,
    pub ack_num: u32,
    pub payload: Seq<u8>,
}

/// Mathematical counterpart of [`UdpSegment`].
pub struct UdpModel {
    pub src_port: u16,
    pub dst_port: u16,
    pub payload: Seq<u8>,
}

/// Mathematical counterpart of [`ParsedPayload`].
pub enum L4Model {
    Tcp(TcpModel),
    Udp(UdpModel),
}

/// Mathematical counterpart of [`ParsedPacket`].
pub struct PacketModel {
    pub src: Ipv4Addr,
    pub dst: Ipv4Addr,
    pub payload: L4Model,
}

impl View for TcpSegment {
    type V = TcpModel;

    open spec fn view(&self) -> TcpModel {
        TcpModel {
            src_port: self.src_port,
            dst_port: self.dst_port,
            syn: self.syn,
            ack: self.ack,
            psh: self.psh,
            rst: self.rst,
            fin: self.fin,
            seq: self.seq,
            ack_num: self.ack_num,
            payload: self.payload@,
        }
    }
}

impl View for UdpSegment {
    type V = UdpModel;

    open spec fn view(&self) -> UdpModel {
        UdpModel { src_port: self.src_port, dst_port: self.dst_port, payload: self.payload@ }
    }
}

impl View for ParsedPayload {
    type V = L4Model;

    open spec fn view(&self) -> L4Model {
        match *self {
            ParsedPayload::Tcp(t) => L4Model::Tcp(t@),
            ParsedPayload::Udp(u) => L4Model::Udp(u@),
        }
    }
}

impl View for ParsedPacket {
    type V = PacketModel;

    open spec fn view(&self) -> PacketModel {
        PacketModel { src: self.src, dst: self.dst, payload: self.payload@ }
    }
}

impl ParsedPacket {
    /// The TCP segment, if the packet carries one.
    pub fn tcp(&self) -> (r: Option<&TcpSegment>)
        ensures
            match (r, self.payload) {
                (Some(t), ParsedPayload::Tcp(m)) => *t == m,
                (None, ParsedPayload::Udp(_)) => true,
                _ => false,
            },
    {
        match &self.payload {
            ParsedPayload::Tcp(t) => Some(t),
            ParsedPayload::Udp(_) => None,
        }
    }

    /// The UDP datagram, if the packet carries one.
    pub fn udp(&self) -> (r: Option<&UdpSegment>)
        ensures
            match (r, self.payload) {
                (Some(u), ParsedPayload::Udp(m)) => *u == m,
                (None, ParsedPayload::Tcp(_)) => true,
                _ => false,
            },
    {
        match &self.payload {
            ParsedPayload::Udp(u) => Some(u),
            ParsedPayload::Tcp(_) => None,
        }
    }
}

/// Protocol number of TCP.
pub const PROTO_TCP: u8 = 6;

/// Protocol number of UDP.
pub const PROTO_UDP: u8 = 17;

/// Length of an IPv4 header without options.
pub const IPV4_HEADER: usize = 20;

/// Length of a TCP header without options.
pub const TCP_HEADER: usize = 20;

/// Length of a UDP header.
pub const UDP_HEADER: usize = 8;

/// Sum of the big-endian 16-bit words of `data`; an odd last byte is the high
/// half of a word.
pub open spec fn word_sum(data: Seq<u8>) -> nat
    decreases data.len(),
{
    if data.len() == 0 {
        0
    } else if data.len() == 1 {
        data[0] as nat * 0x100
    } else {
        (data[0] as nat * 0x100 + data[1] as nat) + word_sum(data.skip(2))
    }
}

/// A sum of words, with the carries added back in until it fits one word.
pub open spec fn folded(sum: nat) -> u16 {
    if sum == 0 {
        0
    } else {
        (1 + (sum - 1) % 0xffff) as u16
    }
}

/// The Internet checksum of `data` before complementing (RFC 1071).
pub open spec fn rfc1071(data: Seq<u8>) -> u16 {
    folded(word_sum(data))
}

/// The pseudo header that TCP and UDP checksums cover.
pub open spec fn pseudo_header(src: Seq<u8>, dst: Seq<u8>, protocol: u8, len: u16) -> Seq<u8> {
    src + dst + seq![0u8, protocol] + be16(len)
}

/// `data` with the two bytes at `at` replaced by `word`.
pub open spec fn with_word(data: Seq<u8>, at: int, word: u16) -> Seq<u8> {
    data.update(at, be16(word)[0]).update(at + 1, be16(word)[1])
}

/// What the fixed part of an IPv4 header says.
#[derive(Clone, Copy)]
pub struct Ipv4Header {
    pub version: u8,
    pub header_len: u8,
    pub total_len: u16,
    pub protocol: u8,
    pub src: [u8; 4],
    pub dst: [u8; 4],
}

/// Whether `raw` is long enough for the lengths that its IPv4 header states.
pub open spec fn ipv4_sized(raw: Seq<u8>) -> bool {
    let header_len = raw[0] % 16 * 4;
    let total_len = from_be16(raw.skip(2)) as int;
    raw.len() >= 20 && header_len <= raw.len() && header_len <= total_len <= raw.len()
}

/// Calls `Ipv4Packet::new_checked` and reads the header through its accessors.
///
/// Claimed of them: the check passes exactly on buffers of at least 20 bytes
/// that hold the stated total length, which covers the stated header length; the
/// accessors return the fields at their places in the header.
#[verifier::external_body]
fn ipv4_header(raw: &[u8]) -> (r: Option<Ipv4Header>)
    ensures
        r is Some <==> ipv4_sized(raw@),
        r matches Some(h) ==> {
            &&& h.version == raw@[0] / 16
            &&& h.header_len == raw@[0] % 16 * 4
            &&& h.total_len == from_be16(raw@.skip(2))
            &&& h.protocol == raw@[9]
            &&& h.src@ == raw@.subrange(12, 16)
            &&& h.dst@ == raw@.subrange(16, 20)
        },
{
    let ip = Ipv4Packet::new_checked(raw).ok()?;
    Some(Ipv4Header {
        version: ip.version(),
        header_len: ip.header_len(),
        total_len: ip.total_len(),
        protocol: ip.next_header().into(),
        src: ip.src_addr().0,
        dst: ip.dst_addr().0,
    })
}

/// Calls `Ipv4Packet::verify_checksum`.
///
/// Claimed of it: the answer is whether the header sums to all ones.
#[verifier::external_body]
fn ipv4_checksum_holds(raw: &[u8]) -> (r: bool)
    requires
        ipv4_sized(raw@),
    ensures
        r == (rfc1071(raw@.take(raw@[0] % 16 * 4)) == 0xffff),
{
    Ipv4Packet::new_unchecked(raw).verify_checksum()
}

/// What a TCP header says.
#[derive(Clone, Copy)]
pub struct TcpHeader {
    pub src_port: u16,
    pub dst_port: u16,
    pub seq: u32,
    pub ack_num: u32,
    pub header_len: u8,
    pub syn: bool,
    pub ack: bool,
    pub psh: bool,
    pub fin: bool,
    pub rst: bool,
    pub window: u16,
}

/// Whether a segment is long enough for the header length that it states.
pub open spec fn tcp_sized(body: Seq<u8>) -> bool {
    body.len() >= 20 && 20 <= body[12] / 16 * 4 <= body.len()
}

/// Whether a flag of the second flag byte is set; `mask` is its power of two.
pub open spec fn tcp_flag(body: Seq<u8>, mask: int) -> bool {
    body[13] as int / mask % 2 == 1
}

/// Calls `TcpPacket::new_checked` and reads the header through its accessors.
///
/// Claimed of them: the check passes exactly on segments of at least 20 bytes
/// that hold the stated header, which has at least 20 bytes; the accessors
/// return the fields at their places in the header.
#[verifier::external_body]
fn tcp_header(body: &[u8]) -> (r: Option<TcpHeader>)
    ensures
        r is Some <==> tcp_sized(body@),
        r matches Some(h) ==> {
            &&& h.src_port == from_be16(body@)
            &&& h.dst_port == from_be16(body@.skip(2))
            &&& h.seq == from_be32(body@.skip(4))
            &&& h.ack_num == from_be32(body@.skip(8))
            &&& h.header_len == body@[12] / 16 * 4
            &&& h.fin == tcp_flag(body@, 1)
            &&& h.syn == tcp_flag(body@, 2)
            &&& h.rst == tcp_flag(body@, 4)
            &&& h.psh == tcp_flag(body@, 8)
            &&& h.ack == tcp_flag(body@, 16)
            &&& h.window == from_be16(body@.skip(14))
        },
{
    let tcp = TcpPacket::new_checked(body).ok()?;
    let (src_port, dst_port, header_len) = (tcp.src_port(), tcp.dst_port(), tcp.header_len());
    let (seq, ack_num) = (tcp.seq_number().0 as u32, tcp.ack_number().0 as u32);
    let (syn, ack, psh) = (tcp.syn(), tcp.ack(), tcp.psh());
    let (fin, rst, window) = (tcp.fin(), tcp.rst(), tcp.window_len());
    Some(TcpHeader {
        src_port, dst_port, seq, ack_num, header_len, syn, ack, psh, fin, rst, window,
    })
}

/// Calls `TcpPacket::verify_checksum`.
///
/// Claimed of it: the answer is whether pseudo header and segment together sum
/// to all ones.
#[verifier::external_body]
fn tcp_checksum_holds(body: &[u8], src: [u8; 4], dst: [u8; 4]) -> (r: bool)
    requires
        tcp_sized(body@),
        body@.len() <= 0xffff,
    ensures
        r == (rfc1071(pseudo_header(src@, dst@, PROTO_TCP, body@.len() as u16) + body@)
            == 0xffff),
{
    let (src, dst) = (IpAddress::Ipv4(Ipv4Address(src)), IpAddress::Ipv4(Ipv4Address(dst)));
    TcpPacket::new_unchecked(body).verify_checksum(&src, &dst)
}

/// What a UDP header says.
#[derive(Clone, Copy)]
pub struct UdpHeader {
    pub src_port: u16,
    pub dst_port: u16,
    pub len: u16,
    pub checksum: u16,
}

/// Whether a datagram is long enough for the length that it states.
pub open spec fn udp_sized(body: Seq<u8>) -> bool {
    body.len() >= 8 && 8 <= from_be16(body.skip(4)) <= body.len()
}

/// Calls `UdpPacket::new_checked` and reads the header through its accessors.
///
/// Claimed of them: the check passes exactly on buffers of at least 8 bytes that
/// hold the stated length, which covers the header; the accessors return the
/// fields at their places in the header.
#[verifier::external_body]
fn udp_header(body: &[u8]) -> (r: Option<UdpHeader>)
    ensures
        r is Some <==> udp_sized(body@),
        r matches Some(h) ==> {
            &&& h.src_port == from_be16(body@)
            &&& h.dst_port == from_be16(body@.skip(2))
            &&& h.len == from_be16(body@.skip(4))
            &&& h.checksum == from_be16(body@.skip(6))
        },
{
    let udp = UdpPacket::new_checked(body).ok()?;
    Some(UdpHeader {
        src_port: udp.src_port(),
        dst_port: udp.dst_port(),
        len: udp.len(),
        checksum: udp.checksum(),
    })
}

/// Calls `UdpPacket::verify_checksum`.
///
/// Claimed of it: a checksum field of zero passes; any other passes exactly when
/// pseudo header and datagram together sum to all ones.
#[verifier::external_body]
fn udp_checksum_holds(body: &[u8], src: [u8; 4], dst: [u8; 4]) -> (r: bool)
    requires
        udp_sized(body@),
    ensures
        r == udp_summed(body@, src@, dst@),
{
    let (src, dst) = (IpAddress::Ipv4(Ipv4Address(src)), IpAddress::Ipv4(Ipv4Address(dst)));
    UdpPacket::new_unchecked(body).verify_checksum(&src, &dst)
}

/// Whether a datagram carries no checksum or the right one.
pub open spec fn udp_summed(body: Seq<u8>, src: Seq<u8>, dst: Seq<u8>) -> bool {
    let len = from_be16(body.skip(4));
    from_be16(body.skip(6)) == 0 || rfc1071(
        pseudo_header(src, dst, PROTO_UDP, len) + body.take(len as int),
    ) == 0xffff
}

/// The name of an IP protocol number.
pub open spec fn protocol_text(protocol: u8) -> Seq<char> {
    match protocol {
        0x00 => "HopByHop"@,
        0x01 => "Icmp"@,
        0x02 => "Igmp"@,
        0x06 => "Tcp"@,
        0x11 => "Udp"@,
        0x2b => "Ipv6Route"@,
        0x2c => "Ipv6Frag"@,
        0x32 => "IpSecEsp"@,
        0x33 => "IpSecAh"@,
        0x3a => "Icmpv6"@,
        0x3b => "Ipv6NoNxt"@,
        0x3c => "Ipv6Opts"@,
        _ => "Unknown("@ + decimal(protocol as nat) + ")"@,
    }
}

fn protocol_name(protocol: u8) -> (r: String)
    ensures
        r@ == protocol_text(protocol),
{
    match protocol {
        0x00 => "HopByHop".to_owned(),
        0x01 => "Icmp".to_owned(),
        0x02 => "Igmp".to_owned(),
        0x06 => "Tcp".to_owned(),
        0x11 => "Udp".to_owned(),
        0x2b => "Ipv6Route".to_owned(),
        0x2c => "Ipv6Frag".to_owned(),
        0x32 => "IpSecEsp".to_owned(),
        0x33 => "IpSecAh".to_owned(),
        0x3a => "Icmpv6".to_owned(),
        0x3b => "Ipv6NoNxt".to_owned(),
        0x3c => "Ipv6Opts".to_owned(),
        _ => {
            let mut r = joined("Unknown(", decimal_of(protocol as u64).as_str());
            r.append(")");
            r
        },
    }
}

/// The address that four bytes spell.
pub open spec fn address_of(octets: Seq<u8>) -> Ipv4Addr {
    Ipv4Addr::spec_new(octets[0], octets[1], octets[2], octets[3])
}

/// The segment in the body of a TCP packet, or why there is none.
pub open spec fn parsed_tcp(body: Seq<u8>, src: Seq<u8>, dst: Seq<u8>) -> Result<
    L4Model,
    NetstackFault,
> {
    if !tcp_sized(body) {
        Err(NetstackFault::InvalidPacket("truncated tcp"@))
    } else if rfc1071(pseudo_header(src, dst, PROTO_TCP, body.len() as u16) + body) != 0xffff {
        Err(NetstackFault::InvalidPacket("bad tcp checksum"@))
    } else {
        Ok(
            L4Model::Tcp(
                TcpModel {
                    src_port: from_be16(body),
                    dst_port: from_be16(body.skip(2)),
                    syn: tcp_flag(body, 2),
                    ack: tcp_flag(body, 16),
                    psh: tcp_flag(body, 8),
                    rst: tcp_flag(body, 4),
                    fin: tcp_flag(body, 1),
                    seq: from_be32(body.skip(4)),
                    ack_num: from_be32(body.skip(8)),
                    payload: body.skip(body[12] / 16 * 4),
                },
            ),
        )
    }
}

/// The datagram in the body of a UDP packet, or why there is none.
pub open spec fn parsed_udp(body: Seq<u8>, src: Seq<u8>, dst: Seq<u8>) -> Result<
    L4Model,
    NetstackFault,
> {
    if !udp_sized(body) {
        Err(NetstackFault::InvalidPacket("truncated udp"@))
    } else if !udp_summed(body, src, dst) {
        Err(NetstackFault::InvalidPacket("bad udp checksum"@))
    } else {
        Ok(
            L4Model::Udp(
                UdpModel {
                    src_port: from_be16(body),
                    dst_port: from_be16(body.skip(2)),
                    payload: body.subrange(8, from_be16(body.skip(4)) as int),
                },
            ),
        )
    }
}

/// What a raw packet carries, or why it is refused.
pub open spec fn parsed_packet(raw: Seq<u8>) -> Result<PacketModel, NetstackFault> {
    let header_len = raw[0] % 16 * 4;
    let total_len = from_be16(raw.skip(2)) as int;
    let src = raw.subrange(12, 16);
    let dst = raw.subrange(16, 20);
    let body = raw.subrange(header_len as int, total_len);
    if !ipv4_sized(raw) {
        Err(NetstackFault::InvalidPacket("truncated ip"@))
    } else if raw[0] / 16 != 4 {
        Err(NetstackFault::InvalidPacket("bad version "@ + decimal(raw[0] as nat / 16)))
    } else if rfc1071(raw.take(header_len as int)) != 0xffff {
        Err(NetstackFault::InvalidPacket("bad ip checksum"@))
    } else {
        let payload = if raw[9] == PROTO_TCP {
            parsed_tcp(body, src, dst)
        } else if raw[9] == PROTO_UDP {
            parsed_udp(body, src, dst)
        } else {
            Err(NetstackFault::InvalidPacket("unsupported protocol "@ + protocol_text(raw[9])))
        };
        match payload {
            Ok(p) => Ok(PacketModel { src: address_of(src), dst: address_of(dst), payload: p }),
            Err(fault) => Err(fault),
        }
    }
}

fn invalid(why: &str) -> (r: NetstackError)
    ensures
        r@ == NetstackFault::InvalidPacket(why@),
{
    NetstackError::InvalidPacket(why.to_owned())
}

fn parse_tcp(body: &[u8], src: [u8; 4], dst: [u8; 4]) -> (r: Result<ParsedPayload, NetstackError>)
    requires
        body@.len() <= 0xffff,
    ensures
        match (r, parsed_tcp(body@, src@, dst@)) {
            (Ok(p), Ok(m)) => p@ == m,
            (Err(e), Err(fault)) => e@ == fault,
            _ => false,
        },
{
    let h = match tcp_header(body) {
        Some(h) => h,
        None => {
            return Err(invalid("truncated tcp"));
        },
    };
    if !tcp_checksum_holds(body, src, dst) {
        return Err(invalid("bad tcp checksum"));
    }
    let payload = vstd::slice::slice_to_vec(&body[h.header_len as usize..body.len()]);
    assert(payload@ =~= body@.skip(h.header_len as int));
    Ok(
        ParsedPayload::Tcp(
            TcpSegment {
                src_port: h.src_port,
                dst_port: h.dst_port,
                syn: h.syn,
                ack: h.ack,
                psh: h.psh,
                rst: h.rst,
                fin: h.fin,
                seq: h.seq,
                ack_num: h.ack_num,
                payload,
            },
        ),
    )
}

fn parse_udp(body: &[u8], src: [u8; 4], dst: [u8; 4]) -> (r: Result<ParsedPayload, NetstackError>)
    ensures
        match (r, parsed_udp(body@, src@, dst@)) {
            (Ok(p), Ok(m)) => p@ == m,
            (Err(e), Err(fault)) => e@ == fault,
            _ => false,
        },
{
    let h = match udp_header(body) {
        Some(h) => h,
        None => {
            return Err(invalid("truncated udp"));
        },
    };
    // A checksum of zero means that the sender computed none (RFC 768).
    if h.checksum != 0 && !udp_checksum_holds(body, src, dst) {
        return Err(invalid("bad udp checksum"));
    }
    let payload = vstd::slice::slice_to_vec(&body[UDP_HEADER..h.len as usize]);
    Ok(
        ParsedPayload::Udp(UdpSegment { src_port: h.src_port, dst_port: h.dst_port, payload }),
    )
}

/// Takes a raw IPv4 packet apart. Anything malformed is refused.
pub fn parse_ipv4_packet(raw: &[u8]) -> (r: Result<ParsedPacket, NetstackError>)
    ensures
        match (r, parsed_packet(raw@)) {
            (Ok(p), Ok(m)) => p@ == m,
            (Err(e), Err(fault)) => e@ == fault,
            _ => false,
        },
{
    let ip = match ipv4_header(raw) {
        Some(h) => h,
        None => {
            return Err(invalid("truncated ip"));
        },
    };
    if ip.version != 4 {
        return Err(
            NetstackError::InvalidPacket(
                joined("bad version ", decimal_of(ip.version as u64).as_str()),
            ),
        );
    }
    if !ipv4_checksum_holds(raw) {
        return Err(invalid("bad ip checksum"));
    }
    let src = Ipv4Addr::new(ip.src[0], ip.src[1], ip.src[2], ip.src[3]);
    let dst = Ipv4Addr::new(ip.dst[0], ip.dst[1], ip.dst[2], ip.dst[3]);
    let body = &raw[ip.header_len as usize..ip.total_len as usize];
    let payload = if ip.protocol == PROTO_TCP {
        parse_tcp(body, ip.src, ip.dst)
    } else if ip.protocol == PROTO_UDP {
        parse_udp(body, ip.src, ip.dst)
    } else {
        Err(
            NetstackError::InvalidPacket(
                joined("unsupported protocol ", protocol_name(ip.protocol).as_str()),
            ),
        )
    };
    match payload {
        Ok(payload) => Ok(ParsedPacket { src, dst, payload }),
        Err(e) => Err(e),
    }
}

/// One where a flag is set.
pub open spec fn flag_bit(flag: bool) -> int {
    if flag {
        1
    } else {
        0
    }
}

/// The byte that holds the flags FIN, SYN, RST, PSH and ACK.
pub open spec fn tcp_flags(h: TcpHeader) -> u8 {
    (flag_bit(h.fin) + 2 * flag_bit(h.syn) + 4 * flag_bit(h.rst) + 8 * flag_bit(h.psh) + 16
        * flag_bit(h.ack)) as u8
}

/// The first sixteen bytes of a TCP header, up to the checksum.
pub open spec fn tcp_header_bytes(h: TcpHeader) -> Seq<u8> {
    be16(h.src_port) + be16(h.dst_port) + be32(h.seq) + be32(h.ack_num) + seq![
        (h.header_len / 4 * 16) as u8,
        tcp_flags(h),
    ] + be16(h.window)
}

/// The first twelve bytes of an IPv4 header over zeros, up to the checksum, which is zero.
pub open spec fn ipv4_header_bytes(h: Ipv4Header) -> Seq<u8> {
    seq![(h.version * 16 + h.header_len / 4) as u8, 0u8] + be16(h.total_len) + seq![
        0u8,
        0u8,
        0u8,
        0u8,
        0u8,
        h.protocol,
        0u8,
        0u8,
    ] + h.src@ + h.dst@
}

/// Writes a TCP header through the setters of `TcpPacket`.
///
/// Claimed of them: the fields are written at their places in the header, all
/// other flags are cleared, and the bytes from the checksum on stay as they are.
#[verifier::external_body]
fn put_tcp_header(segment: &mut Vec<u8>, h: &TcpHeader)
    requires
        old(segment)@.len() >= 20,
        h.header_len < 64,
    ensures
        final(segment)@ == tcp_header_bytes(*h) + old(segment)@.skip(16),
{
    let mut tcp = TcpPacket::new_unchecked(segment.as_mut_slice());
    tcp.clear_flags();
    tcp.set_src_port(h.src_port);
    tcp.set_dst_port(h.dst_port);
    tcp.set_seq_number(TcpSeqNumber(h.seq as i32));
    tcp.set_ack_number(TcpSeqNumber(h.ack_num as i32));
    tcp.set_header_len(h.header_len);
    tcp.set_window_len(h.window);
    tcp.set_syn(h.syn);
    tcp.set_ack(h.ack);
    tcp.set_psh(h.psh);
    tcp.set_fin(h.fin);
    tcp.set_rst(h.rst);
}

/// The checksum that goes over `data`: the complement of its sum.
pub open spec fn complement(data: Seq<u8>) -> u16 {
    (0xffff - rfc1071(data)) as u16
}

/// Calls `TcpPacket::fill_checksum`.
///
/// Claimed of it: it writes the complement of the sum of pseudo header and
/// segment, taken with a checksum field of zero.
#[verifier::external_body]
fn fill_tcp_checksum(segment: &mut Vec<u8>, src: [u8; 4], dst: [u8; 4])
    requires
        20 <= old(segment)@.len() <= 0xffff,
    ensures
        final(segment)@ == with_word(
            old(segment)@,
            16,
            complement(
                pseudo_header(src@, dst@, PROTO_TCP, old(segment)@.len() as u16) + with_word(
                    old(segment)@,
                    16,
                    0,
                ),
            ),
        ),
{
    let (src, dst) = (IpAddress::Ipv4(Ipv4Address(src)), IpAddress::Ipv4(Ipv4Address(dst)));
    TcpPacket::new_unchecked(segment.as_mut_slice()).fill_checksum(&src, &dst);
}

/// Writes a UDP header through the setters of `UdpPacket`.
///
/// Claimed of them: ports and length are written at their places, and the bytes
/// from the checksum on stay as they are.
#[verifier::external_body]
fn put_udp_header(datagram: &mut Vec<u8>, src_port: u16, dst_port: u16, len: u16)
    requires
        old(datagram)@.len() >= 8,
    ensures
        final(datagram)@ == be16(src_port) + be16(dst_port) + be16(len) + old(datagram)@.skip(6),
{
    let mut udp = UdpPacket::new_unchecked(datagram.as_mut_slice());
    udp.set_src_port(src_port);
    udp.set_dst_port(dst_port);
    udp.set_len(len);
}

/// The checksum field of a datagram: the complement of its sum, with all ones
/// standing for zero.
pub open spec fn udp_checksum(src: Seq<u8>, dst: Seq<u8>, datagram: Seq<u8>) -> u16 {
    let len = from_be16(datagram.skip(4));
    let sum = complement(
        pseudo_header(src, dst, PROTO_UDP, len) + with_word(datagram, 6, 0).take(len as int),
    );
    if sum == 0 {
        0xffff
    } else {
        sum
    }
}

/// Calls `UdpPacket::fill_checksum`.
///
/// Claimed of it: it writes the complement of the sum of pseudo header and
/// datagram, taken with a checksum field of zero, and all ones in place of zero.
#[verifier::external_body]
fn fill_udp_checksum(datagram: &mut Vec<u8>, src: [u8; 4], dst: [u8; 4])
    requires
        udp_sized(old(datagram)@),
    ensures
        final(datagram)@ == with_word(
            old(datagram)@,
            6,
            udp_checksum(src@, dst@, old(datagram)@),
        ),
{
    let (src, dst) = (IpAddress::Ipv4(Ipv4Address(src)), IpAddress::Ipv4(Ipv4Address(dst)));
    UdpPacket::new_unchecked(datagram.as_mut_slice()).fill_checksum(&src, &dst);
}

/// Writes an IPv4 header through the setters of `Ipv4Packet`.
///
/// Claimed of them: on a header of zeros, the fields are written at their places
/// and the rest of the header stays zero; the body is left alone.
#[verifier::external_body]
fn put_ipv4_header(packet: &mut Vec<u8>, h: &Ipv4Header)
    requires
        old(packet)@.len() >= 20,
        forall|i: int| 0 <= i < 20 ==> old(packet)@[i] == 0,
        h.version < 16,
        h.header_len < 64,
    ensures
        final(packet)@ == ipv4_header_bytes(*h) + old(packet)@.skip(20),
{
    let mut ip = Ipv4Packet::new_unchecked(packet.as_mut_slice());
    ip.set_version(h.version);
    ip.set_header_len(h.header_len);
    ip.set_total_len(h.total_len);
    ip.set_next_header(IpProtocol::from(h.protocol));
    ip.set_src_addr(Ipv4Address(h.src));
    ip.set_dst_addr(Ipv4Address(h.dst));
}

/// Calls `Ipv4Packet::fill_checksum`.
///
/// Claimed of it: it writes the complement of the sum of the header, taken with
/// a checksum field of zero.
#[verifier::external_body]
fn fill_ipv4_checksum(packet: &mut Vec<u8>)
    requires
        old(packet)@.len() >= 20,
        12 <= old(packet)@[0] % 16 * 4 <= old(packet)@.len(),
    ensures
        final(packet)@ == with_word(
            old(packet)@,
            10,
            complement(with_word(old(packet)@, 10, 0).take(old(packet)@[0] % 16 * 4)),
        ),
{
    Ipv4Packet::new_unchecked(packet.as_mut_slice()).fill_checksum();
}

proof fn lemma_word_sum_append(a: Seq<u8>, b: Seq<u8>)
    requires
        a.len() % 2 == 0,
    ensures
        word_sum(a + b) == word_sum(a) + word_sum(b),
    decreases a.len(),
{
    if a.len() == 0 {
        assert(a + b =~= b);
    } else {
        assert((a + b).skip(2) =~= a.skip(2) + b);
        lemma_word_sum_append(a.skip(2), b);
    }
}

proof fn lemma_word_sum_with_word(data: Seq<u8>, at: int, word: u16)
    requires
        at % 2 == 0,
        0 <= at,
        at + 2 <= data.len(),
    ensures
        word_sum(with_word(data, at, word)) == word_sum(with_word(data, at, 0)) + word,
    decreases at,
{
    let x = with_word(data, at, word);
    let z = with_word(data, at, 0);
    if at == 0 {
        assert(x.skip(2) =~= z.skip(2));
    } else {
        assert(x.skip(2) =~= with_word(data.skip(2), at - 2, word));
        assert(z.skip(2) =~= with_word(data.skip(2), at - 2, 0));
        lemma_word_sum_with_word(data.skip(2), at - 2, word);
    }
}

/// Data that carries the complement of its own sum sums to all ones.
proof fn lemma_filled_checksum_holds(front: Seq<u8>, data: Seq<u8>, at: int)
    requires
        front.len() % 2 == 0,
        at % 2 == 0,
        0 <= at,
        at + 2 <= data.len(),
        word_sum(front + with_word(data, at, 0)) > 0,
    ensures
        rfc1071(
            front + with_word(data, at, complement(front + with_word(data, at, 0))),
        ) == 0xffff,
        complement(front + with_word(data, at, 0)) == 0 ==> rfc1071(
            front + with_word(data, at, 0xffff),
        ) == 0xffff,
{
    let zeroed = with_word(data, at, 0);
    let c = complement(front + zeroed);
    lemma_word_sum_append(front, zeroed);
    lemma_word_sum_append(front, with_word(data, at, c));
    lemma_word_sum_append(front, with_word(data, at, 0xffff));
    lemma_word_sum_with_word(data, at, c);
    lemma_word_sum_with_word(data, at, 0xffff);
    let sum = word_sum(front + zeroed) as int;
    let m = (sum - 1) % 0xffff;
    assert((sum - 1 + c) % 0xffff == 0xfffe) by {
        assert(c == 0xfffe - m);
        assert(sum - 1 == 0xffff * ((sum - 1) / 0xffff) + m);
        assert(sum - 1 + c == 0xffff * ((sum - 1) / 0xffff) + 0xfffe);
    }
    if c == 0 {
        assert((sum - 1 + 0xffff) % 0xffff == 0xfffe);
    }
}

/// The TCP segment with a given header and payload.
pub open spec fn tcp_segment(src: Ipv4Addr, dst: Ipv4Addr, h: TcpHeader, payload: Seq<u8>) -> Seq<
    u8,
> {
    let plain = tcp_header_bytes(h) + seq![0u8, 0u8, 0u8, 0u8] + payload;
    let pseudo = pseudo_header(
        src.spec_octets(),
        dst.spec_octets(),
        PROTO_TCP,
        plain.len() as u16,
    );
    with_word(plain, 16, complement(pseudo + plain))
}

/// The raw TCP packet with a given header and payload.
pub open spec fn tcp_packet(src: Ipv4Addr, dst: Ipv4Addr, h: TcpHeader, payload: Seq<u8>) -> Seq<
    u8,
> {
    ipv4_packet(src, dst, PROTO_TCP, tcp_segment(src, dst, h, payload))
}

/// The raw UDP packet with given ports and payload.
pub open spec fn udp_packet(
    src: Ipv4Addr,
    dst: Ipv4Addr,
    src_port: u16,
    dst_port: u16,
    payload: Seq<u8>,
) -> Seq<u8> {
    let plain = be16(src_port) + be16(dst_port) + be16((8 + payload.len()) as u16) + seq![
        0u8,
        0u8,
    ] + payload;
    ipv4_packet(
        src,
        dst,
        PROTO_UDP,
        with_word(plain, 6, udp_checksum(src.spec_octets(), dst.spec_octets(), plain)),
    )
}

/// The twenty bytes of an IPv4 header without options, checksum zero.
pub open spec fn plain_ipv4_header(src: Ipv4Addr, dst: Ipv4Addr, protocol: u8, len: nat) -> Seq<
    u8,
> {
    seq![0x45u8, 0u8] + be16((20 + len) as u16) + seq![
        0u8,
        0u8,
        0u8,
        0u8,
        0u8,
        protocol,
        0u8,
        0u8,
    ] + src.spec_octets() + dst.spec_octets()
}

/// The raw IPv4 packet with a given body.
pub open spec fn ipv4_packet(src: Ipv4Addr, dst: Ipv4Addr, protocol: u8, body: Seq<u8>) -> Seq<u8> {
    let header = plain_ipv4_header(src, dst, protocol, body.len());
    with_word(header, 10, complement(header)) + body
}

fn wrap_ipv4(src: Ipv4Addr, dst: Ipv4Addr, protocol: u8, body: &[u8]) -> (r: Vec<u8>)
    requires
        20 + body@.len() <= 0xffff,
    ensures
        r@ == ipv4_packet(src, dst, protocol, body@),
{
    let mut packet: Vec<u8> = vec![0u8; IPV4_HEADER];
    packet.extend_from_slice(body);
    let h = Ipv4Header {
        version: 4,
        header_len: IPV4_HEADER as u8,
        total_len: (IPV4_HEADER + body.len()) as u16,
        protocol,
        src: src.octets(),
        dst: dst.octets(),
    };
    put_ipv4_header(&mut packet, &h);
    let ghost header = plain_ipv4_header(src, dst, protocol, body@.len());
    proof {
        assert(packet@ =~= header + body@);
        assert(packet@[0] == 0x45);
        assert(with_word(packet@, 10, 0) =~= packet@);
        assert(packet@.take(20) =~= header);
    }
    let ghost before = packet@;
    fill_ipv4_checksum(&mut packet);
    assert(packet@ =~= ipv4_packet(src, dst, protocol, body@));
    packet
}

/// Builds a raw IPv4/TCP packet with all flags under control.
pub fn build_tcp_packet_full(
    src: Ipv4Addr,
    dst: Ipv4Addr,
    src_port: u16,
    dst_port: u16,
    syn: bool,
    ack: bool,
    psh: bool,
    fin: bool,
    rst: bool,
    seq: u32,
    ack_num: u32,
    payload: &[u8],
) -> (r: Vec<u8>)
    requires
        40 + payload@.len() <= 0xffff,
    ensures
        r@ == tcp_packet(
            src,
            dst,
            (TcpHeader {
                src_port,
                dst_port,
                seq,
                ack_num,
                header_len: 20,
                syn,
                ack,
                psh,
                fin,
                rst,
                window: 0xffff,
            }),
            payload@,
        ),
{
    let mut segment: Vec<u8> = vec![0u8; TCP_HEADER];
    segment.extend_from_slice(payload);
    let h = TcpHeader {
        src_port,
        dst_port,
        seq,
        ack_num,
        header_len: TCP_HEADER as u8,
        syn,
        ack,
        psh,
        fin,
        rst,
        window: 0xffff,
    };
    put_tcp_header(&mut segment, &h);
    let ghost plain = tcp_header_bytes(h) + seq![0u8, 0u8, 0u8, 0u8] + payload@;
    assert(segment@ =~= plain);
    assert(with_word(plain, 16, 0) =~= plain);
    fill_tcp_checksum(&mut segment, src.octets(), dst.octets());
    wrap_ipv4(src, dst, PROTO_TCP, segment.as_slice())
}

/// Builds a raw IPv4/TCP packet without FIN and RST.
pub fn build_tcp_packet(
    src: Ipv4Addr,
    dst: Ipv4Addr,
    src_port: u16,
    dst_port: u16,
    syn: bool,
    ack: bool,
    psh: bool,
    seq: u32,
    ack_num: u32,
    payload: &[u8],
) -> (r: Vec<u8>)
    requires
        40 + payload@.len() <= 0xffff,
    ensures
        r@ == tcp_packet(
            src,
            dst,
            (TcpHeader {
                src_port,
                dst_port,
                seq,
                ack_num,
                header_len: 20,
                syn,
                ack,
                psh,
                fin: false,
                rst: false,
                window: 0xffff,
            }),
            payload@,
        ),
{
    build_tcp_packet_full(
        src,
        dst,
        src_port,
        dst_port,
        syn,
        ack,
        psh,
        false,
        false,
        seq,
        ack_num,
        payload,
    )
}

/// Builds a raw IPv4/UDP packet.
pub fn build_udp_packet(
    src: Ipv4Addr,
    dst: Ipv4Addr,
    src_port: u16,
    dst_port: u16,
    payload: &[u8],
) -> (r: Vec<u8>)
    requires
        28 + payload@.len() <= 0xffff,
    ensures
        r@ == udp_packet(src, dst, src_port, dst_port, payload@),
{
    let mut datagram: Vec<u8> = vec![0u8; UDP_HEADER];
    datagram.extend_from_slice(payload);
    let len: u16 = (UDP_HEADER + payload.len()) as u16;
    put_udp_header(&mut datagram, src_port, dst_port, len);
    let ghost plain = be16(src_port) + be16(dst_port) + be16(len) + seq![0u8, 0u8] + payload@;
    proof {
        assert(datagram@ =~= plain);
        crate::buf::be16_round_trip(len);
        assert(plain.skip(4)[0] == be16(len)[0]);
        assert(plain.skip(4)[1] == be16(len)[1]);
        assert(udp_sized(plain));
    }
    fill_udp_checksum(&mut datagram, src.octets(), dst.octets());
    wrap_ipv4(src, dst, PROTO_UDP, datagram.as_slice())
}

/// The IPv4 layer of a built packet: it is well-formed, its header sums to all
/// ones, and addresses, protocol and body are where they are looked for.
proof fn lemma_ipv4_layer(src: Ipv4Addr, dst: Ipv4Addr, protocol: u8, body: Seq<u8>)
    requires
        20 + body.len() <= 0xffff,
    ensures
        ({
            let raw = ipv4_packet(src, dst, protocol, body);
            &&& ipv4_sized(raw)
            &&& raw[0] == 0x45
            &&& raw[9] == protocol
            &&& from_be16(raw.skip(2)) == 20 + body.len()
            &&& rfc1071(raw.take(20)) == 0xffff
            &&& raw.subrange(12, 16) == src.spec_octets()
            &&& raw.subrange(16, 20) == dst.spec_octets()
            &&& raw.subrange(20, 20 + body.len() as int) == body
        }),
{
    let header = plain_ipv4_header(src, dst, protocol, body.len());
    let raw = ipv4_packet(src, dst, protocol, body);
    let total = (20 + body.len()) as u16;
    let empty = Seq::<u8>::empty();
    crate::buf::be16_round_trip(total);
    lemma_octets(src);
    lemma_octets(dst);
    assert(header.len() == 20);
    assert(with_word(header, 10, 0) =~= header);
    assert(empty + header =~= header);
    assert(word_sum(header) > 0) by {
        assert(header[0] == 0x45);
    }
    lemma_filled_checksum_holds(empty, header, 10);
    assert(empty + with_word(header, 10, complement(header)) =~= with_word(
        header,
        10,
        complement(header),
    ));
    assert(raw.take(20) =~= with_word(header, 10, complement(header)));
    assert(raw.skip(2)[0] == be16(total)[0]);
    assert(raw.skip(2)[1] == be16(total)[1]);
    assert(raw.subrange(12, 16) =~= src.spec_octets());
    assert(raw.subrange(16, 20) =~= dst.spec_octets());
    assert(raw.subrange(20, 20 + body.len() as int) =~= body);
}

proof fn lemma_octets(addr: Ipv4Addr)
    ensures
        addr.spec_octets().len() == 4,
        address_of(addr.spec_octets()) == addr,
{
    addr.octets_spell_address();
}

proof fn lemma_pseudo_header_sums(src: Ipv4Addr, dst: Ipv4Addr, protocol: u8, len: u16, data: Seq<u8>)
    requires
        protocol > 0,
    ensures
        pseudo_header(src.spec_octets(), dst.spec_octets(), protocol, len).len() == 12,
        word_sum(pseudo_header(src.spec_octets(), dst.spec_octets(), protocol, len) + data) > 0,
{
    lemma_octets(src);
    lemma_octets(dst);
    let front = src.spec_octets() + dst.spec_octets();
    let rest = seq![0u8, protocol] + (be16(len) + data);
    assert(pseudo_header(src.spec_octets(), dst.spec_octets(), protocol, len) + data =~= front
        + rest);
    lemma_word_sum_append(front, rest);
}

/// The fields of a TCP header are found where they were written.
proof fn lemma_tcp_fields(h: TcpHeader, payload: Seq<u8>, checksum: u16)
    requires
        h.header_len == 20,
    ensures
        ({
            let plain = tcp_header_bytes(h) + seq![0u8, 0u8, 0u8, 0u8] + payload;
            let body = with_word(plain, 16, checksum);
            &&& body.len() == 20 + payload.len()
            &&& from_be16(body) == h.src_port
            &&& from_be16(body.skip(2)) == h.dst_port
            &&& from_be32(body.skip(4)) == h.seq
            &&& from_be32(body.skip(8)) == h.ack_num
            &&& body[12] == 0x50
            &&& body[13] == tcp_flags(h)
            &&& body.skip(20) == payload
        }),
{
    let head = tcp_header_bytes(h);
    let plain = head + seq![0u8, 0u8, 0u8, 0u8] + payload;
    let body = with_word(plain, 16, checksum);
    crate::buf::be16_round_trip(h.src_port);
    crate::buf::be16_round_trip(h.dst_port);
    crate::buf::be32_round_trip(h.seq);
    crate::buf::be32_round_trip(h.ack_num);
    assert(head.len() == 16);
    assert(forall|i: int| 0 <= i < 16 ==> body[i] == head[i]);
    assert(body[0] == be16(h.src_port)[0] && body[1] == be16(h.src_port)[1]);
    let a = body.skip(2);
    assert(a[0] == be16(h.dst_port)[0] && a[1] == be16(h.dst_port)[1]);
    let b = body.skip(4);
    assert(b[0] == be32(h.seq)[0] && b[1] == be32(h.seq)[1] && b[2] == be32(h.seq)[2] && b[3]
        == be32(h.seq)[3]);
    let c = body.skip(8);
    assert(c[0] == be32(h.ack_num)[0] && c[1] == be32(h.ack_num)[1] && c[2] == be32(h.ack_num)[2]
        && c[3] == be32(h.ack_num)[3]);
    assert(body.skip(20) =~= payload);
}

/// The flags of a TCP header are read back from their byte.
proof fn lemma_tcp_flags(h: TcpHeader, body: Seq<u8>)
    requires
        body[13] == tcp_flags(h),
    ensures
        tcp_flag(body, 1) == h.fin,
        tcp_flag(body, 2) == h.syn,
        tcp_flag(body, 4) == h.rst,
        tcp_flag(body, 8) == h.psh,
        tcp_flag(body, 16) == h.ack,
{
}

/// A built TCP segment sums to all ones with its pseudo header.
proof fn lemma_tcp_sum(src: Ipv4Addr, dst: Ipv4Addr, plain: Seq<u8>)
    requires
        20 <= plain.len() <= 0xffff,
        plain[16] == 0,
        plain[17] == 0,
    ensures
        ({
            let pseudo = pseudo_header(
                src.spec_octets(),
                dst.spec_octets(),
                PROTO_TCP,
                plain.len() as u16,
            );
            rfc1071(pseudo + with_word(plain, 16, complement(pseudo + plain))) == 0xffff
        }),
{
    let len = plain.len() as u16;
    lemma_pseudo_header_sums(src, dst, PROTO_TCP, len, plain);
    assert(with_word(plain, 16, 0) =~= plain);
    lemma_filled_checksum_holds(
        pseudo_header(src.spec_octets(), dst.spec_octets(), PROTO_TCP, len),
        plain,
        16,
    );
}

/// What a TCP header and a payload say together.
pub open spec fn tcp_model(h: TcpHeader, payload: Seq<u8>) -> TcpModel {
    TcpModel {
        src_port: h.src_port,
        dst_port: h.dst_port,
        syn: h.syn,
        ack: h.ack,
        psh: h.psh,
        rst: h.rst,
        fin: h.fin,
        seq: h.seq,
        ack_num: h.ack_num,
        payload,
    }
}

proof fn lemma_tcp_segment(src: Ipv4Addr, dst: Ipv4Addr, h: TcpHeader, payload: Seq<u8>)
    requires
        h.header_len == 20,
        40 + payload.len() <= 0xffff,
    ensures
        tcp_segment(src, dst, h, payload).len() == 20 + payload.len(),
        parsed_tcp(
            tcp_segment(src, dst, h, payload),
            src.spec_octets(),
            dst.spec_octets(),
        ) == Ok::<L4Model, NetstackFault>(L4Model::Tcp(tcp_model(h, payload))),
{
    let plain = tcp_header_bytes(h) + seq![0u8, 0u8, 0u8, 0u8] + payload;
    let pseudo = pseudo_header(
        src.spec_octets(),
        dst.spec_octets(),
        PROTO_TCP,
        plain.len() as u16,
    );
    let checksum = complement(pseudo + plain);
    let body = with_word(plain, 16, checksum);
    lemma_tcp_fields(h, payload, checksum);
    lemma_tcp_flags(h, body);
    lemma_tcp_sum(src, dst, plain);
}

/// Every field of a built TCP packet is parsed back.
pub proof fn tcp_packet_round_trip(src: Ipv4Addr, dst: Ipv4Addr, h: TcpHeader, payload: Seq<u8>)
    requires
        h.header_len == 20,
        40 + payload.len() <= 0xffff,
    ensures
        parsed_packet(tcp_packet(src, dst, h, payload)) == Ok::<PacketModel, NetstackFault>(
            PacketModel { src, dst, payload: L4Model::Tcp(tcp_model(h, payload)) },
        ),
{
    let body = tcp_segment(src, dst, h, payload);
    lemma_tcp_segment(src, dst, h, payload);
    lemma_ipv4_layer(src, dst, PROTO_TCP, body);
    lemma_octets(src);
    lemma_octets(dst);
}

/// The fields of a UDP header are found where they were written.
proof fn lemma_udp_fields(src_port: u16, dst_port: u16, payload: Seq<u8>, checksum: u16)
    requires
        8 + payload.len() <= 0xffff,
    ensures
        ({
            let len = (8 + payload.len()) as u16;
            let plain = be16(src_port) + be16(dst_port) + be16(len) + seq![0u8, 0u8] + payload;
            let body = with_word(plain, 6, checksum);
            &&& plain.len() == len
            &&& plain[6] == 0
            &&& plain[7] == 0
            &&& body.len() == len
            &&& from_be16(body) == src_port
            &&& from_be16(body.skip(2)) == dst_port
            &&& from_be16(body.skip(4)) == len
            &&& from_be16(plain.skip(4)) == len
            &&& body.subrange(8, len as int) == payload
        }),
{
    let len = (8 + payload.len()) as u16;
    let plain = be16(src_port) + be16(dst_port) + be16(len) + seq![0u8, 0u8] + payload;
    let body = with_word(plain, 6, checksum);
    crate::buf::be16_round_trip(src_port);
    crate::buf::be16_round_trip(dst_port);
    crate::buf::be16_round_trip(len);
    assert(forall|i: int| 0 <= i < 6 ==> body[i] == plain[i]);
    assert(body[0] == be16(src_port)[0] && body[1] == be16(src_port)[1]);
    let a = body.skip(2);
    assert(a[0] == be16(dst_port)[0] && a[1] == be16(dst_port)[1]);
    let b = body.skip(4);
    assert(b[0] == be16(len)[0] && b[1] == be16(len)[1]);
    let c = plain.skip(4);
    assert(c[0] == be16(len)[0] && c[1] == be16(len)[1]);
    assert(body.subrange(8, len as int) =~= payload);
}

/// A built UDP datagram sums to all ones with its pseudo header.
proof fn lemma_udp_sum(src: Ipv4Addr, dst: Ipv4Addr, plain: Seq<u8>)
    requires
        8 <= plain.len() <= 0xffff,
        plain[6] == 0,
        plain[7] == 0,
        from_be16(plain.skip(4)) == plain.len(),
    ensures
        ({
            let pseudo = pseudo_header(
                src.spec_octets(),
                dst.spec_octets(),
                PROTO_UDP,
                plain.len() as u16,
            );
            let sum = udp_checksum(src.spec_octets(), dst.spec_octets(), plain);
            rfc1071(pseudo + with_word(plain, 6, sum)) == 0xffff
        }),
{
    let len = plain.len() as u16;
    lemma_pseudo_header_sums(src, dst, PROTO_UDP, len, plain);
    assert(with_word(plain, 6, 0) =~= plain);
    assert(plain.take(len as int) =~= plain);
    lemma_filled_checksum_holds(
        pseudo_header(src.spec_octets(), dst.spec_octets(), PROTO_UDP, len),
        plain,
        6,
    );
}

/// Every field of a built UDP packet is parsed back.
pub proof fn udp_packet_round_trip(
    src: Ipv4Addr,
    dst: Ipv4Addr,
    src_port: u16,
    dst_port: u16,
    payload: Seq<u8>,
)
    requires
        28 + payload.len() <= 0xffff,
    ensures
        parsed_packet(udp_packet(src, dst, src_port, dst_port, payload)) == Ok::<
            PacketModel,
            NetstackFault,
        >(
            PacketModel {
                src,
                dst,
                payload: L4Model::Udp(UdpModel { src_port, dst_port, payload }),
            },
        ),
{
    let len = (8 + payload.len()) as u16;
    let plain = be16(src_port) + be16(dst_port) + be16(len) + seq![0u8, 0u8] + payload;
    let sum = udp_checksum(src.spec_octets(), dst.spec_octets(), plain);
    let body = with_word(plain, 6, sum);
    lemma_udp_fields(src_port, dst_port, payload, sum);
    lemma_udp_sum(src, dst, plain);
    lemma_ipv4_layer(src, dst, PROTO_UDP, body);
    lemma_octets(src);
    lemma_octets(dst);
    assert(body.take(len as int) =~= body);
    assert(parsed_udp(body, src.spec_octets(), dst.spec_octets()) is Ok);
}

/// How much a byte at a position counts in a sum of words.
spec fn weight(i: int) -> int {
    if i % 2 == 0 {
        0x100
    } else {
        1
    }
}

proof fn lemma_word_sum_update(data: Seq<u8>, i: int, b: u8)
    requires
        0 <= i < data.len(),
    ensures
        word_sum(data.update(i, b)) == word_sum(data) + (b - data[i]) * weight(i),
    decreases data.len(),
{
    let changed = data.update(i, b);
    if i < 2 {
        if data.len() >= 2 {
            assert(changed.skip(2) =~= data.skip(2));
        }
    } else {
        assert(changed.skip(2) =~= data.skip(2).update(i - 2, b));
        lemma_word_sum_update(data.skip(2), i - 2, b);
        assert(weight(i) == weight(i - 2));
    }
}

/// Data that sums to all ones does so no more once a byte of it is changed.
proof fn lemma_changed_byte_shows(data: Seq<u8>, i: int, b: u8)
    requires
        0 <= i < data.len(),
        rfc1071(data) == 0xffff,
        b != data[i],
    ensures
        rfc1071(data.update(i, b)) != 0xffff,
{
    lemma_word_sum_update(data, i, b);
    let sum = word_sum(data) as int;
    let other = word_sum(data.update(i, b)) as int;
    let d = (b - data[i]) * weight(i);
    assert(-0xffff < d < 0xffff && d != 0);
    assert((sum - 1) % 0xffff == 0xfffe);
    if other > 0 && (other - 1) % 0xffff == 0xfffe {
        let p = (sum - 1) / 0xffff;
        let q = (other - 1) / 0xffff;
        assert(sum == 0xffff * p + 0xffff);
        assert(other == 0xffff * q + 0xffff);
        assert(d == 0xffff * (q - p));
        assert(false);
    }
}

/// A packet that parses is refused once any one byte of its IPv4 header behind the
/// first is changed.
pub proof fn changed_ipv4_header_is_refused(raw: Seq<u8>, i: int, b: u8)
    requires
        parsed_packet(raw) is Ok,
        1 <= i < raw[0] % 16 * 4,
        b != raw[i],
    ensures
        parsed_packet(raw.update(i, b)) is Err,
{
    let header = raw.take(raw[0] % 16 * 4);
    lemma_changed_byte_shows(header, i, b);
    assert(raw.update(i, b).take(raw[0] % 16 * 4) =~= header.update(i, b));
}

/// Where a byte behind an IPv4 header of at least twenty bytes is changed, the header
/// says the same, and the body differs in that byte.
proof fn lemma_changed_body(raw: Seq<u8>, i: int, b: u8)
    requires
        ipv4_sized(raw),
        20 <= raw[0] % 16 * 4 <= i < from_be16(raw.skip(2)),
    ensures
        ({
            let changed = raw.update(i, b);
            let header_len = raw[0] % 16 * 4;
            let total_len = from_be16(raw.skip(2)) as int;
            &&& changed[0] == raw[0]
            &&& changed[9] == raw[9]
            &&& from_be16(changed.skip(2)) == total_len
            &&& changed.subrange(12, 16) == raw.subrange(12, 16)
            &&& changed.subrange(16, 20) == raw.subrange(16, 20)
            &&& changed.take(header_len) == raw.take(header_len)
            &&& changed.subrange(header_len, total_len) == raw.subrange(
                header_len,
                total_len,
            ).update(i - header_len, b)
        }),
{
    let changed = raw.update(i, b);
    let header_len = raw[0] % 16 * 4;
    let total_len = from_be16(raw.skip(2)) as int;
    assert(changed.skip(2)[0] == raw.skip(2)[0] && changed.skip(2)[1] == raw.skip(2)[1]);
    assert(changed.subrange(12, 16) =~= raw.subrange(12, 16));
    assert(changed.subrange(16, 20) =~= raw.subrange(16, 20));
    assert(changed.take(header_len) =~= raw.take(header_len));
    assert(changed.subrange(header_len, total_len) =~= raw.subrange(
        header_len,
        total_len,
    ).update(i - header_len, b));
}

/// A TCP packet that parses is refused once any one byte of its segment, header or
/// payload, is changed.
pub proof fn changed_tcp_segment_is_refused(raw: Seq<u8>, i: int, b: u8)
    requires
        parsed_packet(raw) is Ok,
        raw[9] == PROTO_TCP,
        20 <= raw[0] % 16 * 4 <= i < from_be16(raw.skip(2)),
        b != raw[i],
    ensures
        parsed_packet(raw.update(i, b)) is Err,
{
    let header_len = raw[0] % 16 * 4;
    let total_len = from_be16(raw.skip(2)) as int;
    let src = raw.subrange(12, 16);
    let dst = raw.subrange(16, 20);
    let body = raw.subrange(header_len, total_len);
    let k = i - header_len;
    let pseudo = pseudo_header(src, dst, PROTO_TCP, body.len() as u16);
    lemma_changed_body(raw, i, b);
    assert(parsed_tcp(body, src, dst) is Ok);
    lemma_changed_byte_shows(pseudo + body, 12 + k, b);
    assert((pseudo + body).update(12 + k, b) =~= pseudo + body.update(k, b));
    assert(parsed_tcp(body.update(k, b), src, dst) is Err);
}

proof fn lemma_ipv4_len(src: Ipv4Addr, dst: Ipv4Addr, protocol: u8, body: Seq<u8>)
    ensures
        ipv4_packet(src, dst, protocol, body).len() == 20 + body.len(),
{
    lemma_octets(src);
    lemma_octets(dst);
}

/// A built TCP packet is refused once any one byte behind its IPv4 header is changed.
pub proof fn changed_tcp_packet_is_refused(
    src: Ipv4Addr,
    dst: Ipv4Addr,
    h: TcpHeader,
    payload: Seq<u8>,
    i: int,
    b: u8,
)
    requires
        h.header_len == 20,
        40 + payload.len() <= 0xffff,
        20 <= i < tcp_packet(src, dst, h, payload).len(),
        b != tcp_packet(src, dst, h, payload)[i],
    ensures
        parsed_packet(tcp_packet(src, dst, h, payload).update(i, b)) is Err,
{
    let raw = tcp_packet(src, dst, h, payload);
    assert(raw[0] == 0x45 && raw[9] == PROTO_TCP && from_be16(raw.skip(2)) == raw.len()) by {
        let body = tcp_segment(src, dst, h, payload);
        lemma_tcp_segment(src, dst, h, payload);
        lemma_ipv4_layer(src, dst, PROTO_TCP, body);
        lemma_ipv4_len(src, dst, PROTO_TCP, body);
    }
    assert(parsed_packet(raw) is Ok) by {
        tcp_packet_round_trip(src, dst, h, payload);
    }
    changed_tcp_segment_is_refused(raw, i, b);
}

/// A UDP packet with a checksum that parses is refused once any one byte of its
/// payload is changed.
pub proof fn changed_udp_payload_is_refused(raw: Seq<u8>, i: int, b: u8)
    requires
        parsed_packet(raw) is Ok,
        raw[9] == PROTO_UDP,
        20 <= raw[0] % 16 * 4,
        ({
            let body = raw.subrange(raw[0] % 16 * 4, from_be16(raw.skip(2)) as int);
            &&& from_be16(body.skip(6)) != 0
            &&& 8 <= i - raw[0] % 16 * 4 < from_be16(body.skip(4))
        }),
        b != raw[i],
    ensures
        parsed_packet(raw.update(i, b)) is Err,
{
    let header_len = raw[0] % 16 * 4;
    let total_len = from_be16(raw.skip(2)) as int;
    let src = raw.subrange(12, 16);
    let dst = raw.subrange(16, 20);
    let body = raw.subrange(header_len, total_len);
    let k = i - header_len;
    let len = from_be16(body.skip(4));
    let pseudo = pseudo_header(src, dst, PROTO_UDP, len);
    assert(parsed_udp(body, src, dst) is Ok);
    lemma_changed_body(raw, i, b);
    let changed = body.update(k, b);
    assert(changed.skip(4)[0] == body.skip(4)[0] && changed.skip(4)[1] == body.skip(4)[1]);
    assert(changed.skip(6)[0] == body.skip(6)[0] && changed.skip(6)[1] == body.skip(6)[1]);
    let summed = body.take(len as int);
    lemma_changed_byte_shows(pseudo + summed, 12 + k, b);
    assert((pseudo + summed).update(12 + k, b) =~= pseudo + summed.update(k, b));
    assert(changed.take(len as int) =~= summed.update(k, b));
    assert(parsed_udp(changed, src, dst) is Err);
}

/// What is read of a packet stands in it: the version 4, the protocol, the addresses, and
/// behind the header the ports, each with its most significant byte first.
pub proof fn packets_are_read_where_they_stand(raw: Seq<u8>)
    requires
        parsed_packet(raw) is Ok,
    ensures
        ({
            let packet = parsed_packet(raw)->Ok_0;
            let at = raw[0] % 16 * 4;
            &&& raw.len() >= 20
            &&& raw[0] / 16 == 4
            &&& packet.src == Ipv4Addr::spec_new(raw[12], raw[13], raw[14], raw[15])
            &&& packet.dst == Ipv4Addr::spec_new(raw[16], raw[17], raw[18], raw[19])
            &&& match packet.payload {
                L4Model::Tcp(seg) => {
                    &&& raw[9] == 6
                    &&& seg.src_port == raw[at] * 0x100 + raw[at + 1]
                    &&& seg.dst_port == raw[at + 2] * 0x100 + raw[at + 3]
                    &&& seg.seq == raw[at + 4] * 0x100_0000 + raw[at + 5] * 0x1_0000 + raw[at + 6]
                        * 0x100 + raw[at + 7]
                    &&& seg.ack_num == raw[at + 8] * 0x100_0000 + raw[at + 9] * 0x1_0000 + raw[at
                        + 10] * 0x100 + raw[at + 11]
                    &&& seg.fin == (raw[at + 13] % 2 == 1)
                    &&& seg.syn == (raw[at + 13] / 2 % 2 == 1)
                    &&& seg.rst == (raw[at + 13] / 4 % 2 == 1)
                    &&& seg.psh == (raw[at + 13] / 8 % 2 == 1)
                    &&& seg.ack == (raw[at + 13] / 16 % 2 == 1)
                    &&& seg.payload == raw.subrange(
                        at + raw[at + 12] / 16 * 4,
                        raw[2] * 0x100 + raw[3],
                    )
                },
                L4Model::Udp(dgram) => {
                    &&& raw[9] == 17
                    &&& dgram.src_port == raw[at] * 0x100 + raw[at + 1]
                    &&& dgram.dst_port == raw[at + 2] * 0x100 + raw[at + 3]
                    &&& dgram.payload == raw.subrange(
                        at + 8,
                        at + raw[at + 4] * 0x100 + raw[at + 5],
                    )
                },
            }
        }),
{
    let at = (raw[0] % 16 * 4) as int;
    let total = from_be16(raw.skip(2)) as int;
    assert(raw.skip(2)[0] == raw[2] && raw.skip(2)[1] == raw[3]);
    let body = raw.subrange(at, total);
    assert(forall|i: int| 0 <= i < body.len() ==> #[trigger] body[i] == raw[at + i]);
    let src = raw.subrange(12, 16);
    let dst = raw.subrange(16, 20);
    assert(src[0] == raw[12] && src[1] == raw[13] && src[2] == raw[14] && src[3] == raw[15]);
    assert(dst[0] == raw[16] && dst[1] == raw[17] && dst[2] == raw[18] && dst[3] == raw[19]);
    assert(body.skip(2)[0] == body[2] && body.skip(2)[1] == body[3]);
    if raw[9] == PROTO_TCP {
        lemma_tcp_places(raw, at, body);
    } else {
        assert(body.skip(4)[0] == body[4] && body.skip(4)[1] == body[5]);
        let len = from_be16(body.skip(4)) as int;
        assert(body.subrange(8, len) =~= raw.subrange(at + 8, at + len));
    }
}

proof fn lemma_tcp_places(raw: Seq<u8>, at: int, body: Seq<u8>)
    requires
        tcp_sized(body),
        0 <= at,
        at + body.len() <= raw.len(),
        body == raw.subrange(at, at + body.len()),
    ensures
        from_be32(body.skip(4)) == raw[at + 4] * 0x100_0000 + raw[at + 5] * 0x1_0000 + raw[at + 6]
            * 0x100 + raw[at + 7],
        from_be32(body.skip(8)) == raw[at + 8] * 0x100_0000 + raw[at + 9] * 0x1_0000 + raw[at + 10]
            * 0x100 + raw[at + 11],
        body[12] == raw[at + 12],
        body[13] == raw[at + 13],
        body.skip(body[12] / 16 * 4) == raw.subrange(at + body[12] / 16 * 4, at + body.len()),
{
    let a = body.skip(4);
    assert(a[0] == body[4] && a[1] == body[5] && a[2] == body[6] && a[3] == body[7]);
    let b = body.skip(8);
    assert(b[0] == body[8] && b[1] == body[9] && b[2] == body[10] && b[3] == body[11]);
    assert(body.skip(body[12] / 16 * 4) =~= raw.subrange(
        at + body[12] / 16 * 4,
        at + body.len(),
    ));
}

/// A checksum holds where the words of the data, the carries added back in, are all ones; it
/// is made so that it does.
pub proof fn checksums_sum_to_all_ones(data: Seq<u8>)
    ensures
        rfc1071(data) == 0xffff <==> word_sum(data) > 0 && word_sum(data) % 0xffff == 0,
        complement(data) == 0xffff - rfc1071(data),
{
    let n = word_sum(data) as int;
    if n > 0 {
        let q = (n - 1) / 0xffff;
        let m = (n - 1) % 0xffff;
        assert(n - 1 == 0xffff * q + m);
        if m == 0xfffe {
            assert(n == 0xffff * (q + 1));
        } else {
            assert(n == 0xffff * q + (m + 1));
        }
    }
}

} // verus!
