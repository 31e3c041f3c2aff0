//! Frame kinds and the layout of their payloads.

use bytes::BytesMut;
use vstd::prelude::*;
use vstd::utf8::{decode_utf8, encode_utf8, valid_utf8};

use crate::buf::{
    be16, be32, buffered, empty, from_be16, from_be32, from_slice, get_u16, get_u32, get_u8,
    put_slice, put_u16, put_u32, put_u8, remaining, split_to, to_vec,
};
use crate::frame::{FrameError, FrameFault};
use crate::net::{is_ipv6, parses_as_ipv6, Ipv4Addr};
use crate::protocol::FrameType;
use crate::text::utf8_string;

pub use crate::protocol::AddrType;

verus! {

/// A frame before encryption.
#[derive(Clone, Debug, PartialEq, Eq)]
pub struct Frame {
    pub frame_type: FrameType,
    pub flags: u8,
    pub stream_id: u16,
    pub sequence: u32,
    pub payload: FramePayload,
}

/// Payload of a frame.
#[derive(Clone, Debug, PartialEq, Eq)]
pub enum FramePayload {
    /// DATA: application bytes.
    Data(Vec<u8>),
    /// OPEN_TCP: address and port.
    OpenTcp { addr_type: AddrType, addr: String, port: u16 },
    /// PING: nothing.
    Empty,
    /// AUTH: client nonce and token.
    Auth { client_nonce: [u8; 32], token: [u8; 32] },
    /// WINDOW_UPDATE: window size.
    WindowUpdate(u32),
    /// GOAWAY: error code.
    GoAway(u32),
    /// RST: error code.
    Rst(u32),
    /// OPEN_UDP: address and port.
    OpenUdp { addr_type: AddrType, addr: String, port: u16 },
    /// UDP_DATAGRAM: one datagram.
    UdpDatagram(Vec<u8>),
}

/// Mathematical counterpart of [`FramePayload`].
pub enum PayloadModel {
    Data(Seq<u8>),
    OpenTcp { addr_type: AddrType, addr: Seq<char>, port: u16 },
    Empty,
    Auth { client_nonce: Seq<u8>, token: Seq<u8> },
    WindowUpdate(u32),
    GoAway(u32),
    Rst(u32),
    OpenUdp { addr_type: AddrType, addr: Seq<char>, port: u16 },
    UdpDatagram(Seq<u8>),
}

/// Mathematical counterpart of [`Frame`].
pub struct FrameModel {
    pub frame_type: FrameType,
    pub flags: u8,
    pub stream_id: u16,
    pub sequence: u32,
    pub payload: PayloadModel,
}

impl View for FramePayload {
    type V = PayloadModel;

    open spec fn view(&self) -> PayloadModel {
        match *self {
            FramePayload::Data(data) => PayloadModel::Data(data@),
            FramePayload::OpenTcp { addr_type, addr, port } => PayloadModel::OpenTcp {
                addr_type,
                addr: addr@,
                port,
            },
            FramePayload::Empty => PayloadModel::Empty,
            FramePayload::Auth { client_nonce, token } => PayloadModel::Auth {
                client_nonce: client_nonce@,
                token: token@,
            },
            FramePayload::WindowUpdate(n) => PayloadModel::WindowUpdate(n),
            FramePayload::GoAway(n) => PayloadModel::GoAway(n),
            FramePayload::Rst(n) => PayloadModel::Rst(n),
            FramePayload::OpenUdp { addr_type, addr, port } => PayloadModel::OpenUdp {
                addr_type,
                addr: addr@,
                port,
            },
            FramePayload::UdpDatagram(data) => PayloadModel::UdpDatagram(data@),
        }
    }
}

impl View for Frame {
    type V = FrameModel;

    open spec fn view(&self) -> FrameModel {
        FrameModel {
            frame_type: self.frame_type,
            flags: self.flags,
            stream_id: self.stream_id,
            sequence: self.sequence,
            payload: self.payload@,
        }
    }
}

/// How an address is written: as IPv4, as IPv6, or else as a name.
pub open spec fn addr_type_of(addr: Seq<char>) -> AddrType {
    if Ipv4Addr::spec_parse(addr) is Some {
        AddrType::Ipv4
    } else if is_ipv6(addr) {
        AddrType::Ipv6
    } else {
        AddrType::Domain
    }
}

fn classify(addr: &str) -> (r: AddrType)
    ensures
        r == addr_type_of(addr@),
{
    if Ipv4Addr::parse(addr).is_some() {
        AddrType::Ipv4
    } else if parses_as_ipv6(addr) {
        AddrType::Ipv6
    } else {
        AddrType::Domain
    }
}

/// A frame with no flags.
pub open spec fn plain_frame(
    frame_type: FrameType,
    stream_id: u16,
    sequence: u32,
    payload: PayloadModel,
) -> FrameModel {
    FrameModel { frame_type, flags: 0, stream_id, sequence, payload }
}

/// Bytes of an address and a port: type byte, 16-bit length, address, port. The
/// length field holds the address length modulo 2^16.
pub open spec fn target_bytes(addr_type: AddrType, addr: Seq<char>, port: u16) -> Seq<u8> {
    seq![addr_type.spec_code()] + be16((encode_utf8(addr).len() % 0x1_0000) as u16) + encode_utf8(
        addr,
    ) + be16(port)
}

/// Bytes of a payload.
pub open spec fn payload_bytes(payload: PayloadModel) -> Seq<u8> {
    match payload {
        PayloadModel::Data(data) => data,
        PayloadModel::OpenTcp { addr_type, addr, port } => target_bytes(addr_type, addr, port),
        PayloadModel::Empty => Seq::empty(),
        PayloadModel::Auth { client_nonce, token } => client_nonce + token,
        PayloadModel::WindowUpdate(n) => be32(n),
        PayloadModel::GoAway(n) => be32(n),
        PayloadModel::Rst(n) => be32(n),
        PayloadModel::OpenUdp { addr_type, addr, port } => target_bytes(addr_type, addr, port),
        PayloadModel::UdpDatagram(data) => data,
    }
}

/// The address and port that the front of `data` spells, or why it spells none.
pub open spec fn target_of(data: Seq<u8>) -> Result<(AddrType, Seq<char>, u16), FrameFault> {
    let len = from_be16(data.skip(1)) as int;
    if data.len() < 5 {
        Err(FrameFault::InsufficientBuffer { need: 5, have: data.len() as int })
    } else if AddrType::spec_from_code(data[0]) is None {
        Err(FrameFault::InvalidFrameType(data[0]))
    } else if data.len() - 3 < len + 2 {
        Err(FrameFault::InsufficientBuffer { need: len + 2, have: data.len() - 3 })
    } else if !valid_utf8(data.subrange(3, 3 + len)) {
        Err(FrameFault::InvalidPacket("Invalid UTF-8 in address"@))
    } else {
        Ok(
            (
                AddrType::spec_from_code(data[0])->0,
                decode_utf8(data.subrange(3, 3 + len)),
                from_be16(data.skip(3 + len)),
            ),
        )
    }
}

/// How many bytes are read to find out what [`target_of`] says.
pub open spec fn target_read(data: Seq<u8>) -> int {
    let len = from_be16(data.skip(1)) as int;
    if data.len() < 5 {
        0
    } else if AddrType::spec_from_code(data[0]) is None {
        1
    } else if data.len() - 3 < len + 2 {
        3
    } else if !valid_utf8(data.subrange(3, 3 + len)) {
        3 + len
    } else {
        5 + len
    }
}

/// The number that the front of `data` spells.
pub open spec fn number_at_front(data: Seq<u8>) -> Result<u32, FrameFault> {
    if data.len() < 4 {
        Err(FrameFault::InsufficientBuffer { need: 4, have: data.len() as int })
    } else {
        Ok(from_be32(data))
    }
}

/// The payload that a frame of type `frame_type` with these bytes carries.
pub open spec fn payload_of(frame_type: FrameType, data: Seq<u8>) -> Result<
    PayloadModel,
    FrameFault,
> {
    match frame_type {
        FrameType::Data => Ok(PayloadModel::Data(data)),
        FrameType::OpenTcp => match target_of(data) {
            Ok(t) => Ok(PayloadModel::OpenTcp { addr_type: t.0, addr: t.1, port: t.2 }),
            Err(e) => Err(e),
        },
        FrameType::Ping => Ok(PayloadModel::Empty),
        FrameType::Auth => if data.len() < 64 {
            Err(FrameFault::InsufficientBuffer { need: 64, have: data.len() as int })
        } else {
            Ok(
                PayloadModel::Auth {
                    client_nonce: data.subrange(0, 32),
                    token: data.subrange(32, 64),
                },
            )
        },
        FrameType::WindowUpdate => match number_at_front(data) {
            Ok(n) => Ok(PayloadModel::WindowUpdate(n)),
            Err(e) => Err(e),
        },
        FrameType::GoAway => match number_at_front(data) {
            Ok(n) => Ok(PayloadModel::GoAway(n)),
            Err(e) => Err(e),
        },
        FrameType::Rst => match number_at_front(data) {
            Ok(n) => Ok(PayloadModel::Rst(n)),
            Err(e) => Err(e),
        },
        FrameType::OpenUdp => match target_of(data) {
            Ok(t) => Ok(PayloadModel::OpenUdp { addr_type: t.0, addr: t.1, port: t.2 }),
            Err(e) => Err(e),
        },
        FrameType::UdpDatagram => Ok(PayloadModel::UdpDatagram(data)),
    }
}

/// How many bytes of `data` are taken off the buffer by decoding.
pub open spec fn payload_read(frame_type: FrameType, data: Seq<u8>) -> int {
    match frame_type {
        FrameType::Data | FrameType::Ping | FrameType::UdpDatagram => 0,
        FrameType::OpenTcp | FrameType::OpenUdp => target_read(data),
        FrameType::Auth => if data.len() < 64 {
            0
        } else {
            64
        },
        FrameType::WindowUpdate | FrameType::GoAway | FrameType::Rst => if data.len() < 4 {
            0
        } else {
            4
        },
    }
}

/// Whether a payload is of the kind that a frame type carries.
pub open spec fn carries(frame_type: FrameType, payload: PayloadModel) -> bool {
    match frame_type {
        FrameType::Data => payload is Data,
        FrameType::OpenTcp => payload is OpenTcp,
        FrameType::Ping => payload is Empty,
        FrameType::Auth => payload matches PayloadModel::Auth { client_nonce, token }
            && client_nonce.len() == 32 && token.len() == 32,
        FrameType::WindowUpdate => payload is WindowUpdate,
        FrameType::GoAway => payload is GoAway,
        FrameType::Rst => payload is Rst,
        FrameType::OpenUdp => payload is OpenUdp,
        FrameType::UdpDatagram => payload is UdpDatagram,
    }
}

/// Whether the address of an OPEN payload fits its 16-bit length field.
pub open spec fn addr_fits(payload: PayloadModel) -> bool {
    match payload {
        PayloadModel::OpenTcp { addr, .. } => encode_utf8(addr).len() < 0x1_0000,
        PayloadModel::OpenUdp { addr, .. } => encode_utf8(addr).len() < 0x1_0000,
        _ => true,
    }
}

impl Frame {
    /// DATA frame.
    pub fn data(stream_id: u16, sequence: u32, payload: Vec<u8>) -> (r: Self)
        ensures
            r@ == plain_frame(FrameType::Data, stream_id, sequence, PayloadModel::Data(payload@)),
    {
        Frame {
            frame_type: FrameType::Data,
            flags: 0,
            stream_id,
            sequence,
            payload: FramePayload::Data(payload),
        }
    }

    /// OPEN_TCP frame.
    pub fn open_tcp(stream_id: u16, sequence: u32, addr: String, port: u16) -> (r: Self)
        ensures
            r@ == plain_frame(
                FrameType::OpenTcp,
                stream_id,
                sequence,
                (PayloadModel::OpenTcp { addr_type: addr_type_of(addr@), addr: addr@, port }),
            ),
    {
        let addr_type = classify(addr.as_str());
        Frame {
            frame_type: FrameType::OpenTcp,
            flags: 0,
            stream_id,
            sequence,
            payload: FramePayload::OpenTcp { addr_type, addr, port },
        }
    }

    /// PING frame.
    pub fn ping(stream_id: u16) -> (r: Self)
        ensures
            r@ == plain_frame(FrameType::Ping, stream_id, 0, PayloadModel::Empty),
    {
        Frame {
            frame_type: FrameType::Ping,
            flags: 0,
            stream_id,
            sequence: 0,
            payload: FramePayload::Empty,
        }
    }

    /// AUTH frame.
    pub fn auth(client_nonce: [u8; 32], token: [u8; 32]) -> (r: Self)
        ensures
            r@ == plain_frame(
                FrameType::Auth,
                0,
                0,
                (PayloadModel::Auth { client_nonce: client_nonce@, token: token@ }),
            ),
    {
        Frame {
            frame_type: FrameType::Auth,
            flags: 0,
            stream_id: 0,
            sequence: 0,
            payload: FramePayload::Auth { client_nonce, token },
        }
    }

    /// WINDOW_UPDATE frame.
    pub fn window_update(stream_id: u16, window_size: u32) -> (r: Self)
        ensures
            r@ == plain_frame(
                FrameType::WindowUpdate,
                stream_id,
                0,
                PayloadModel::WindowUpdate(window_size),
            ),
    {
        Frame {
            frame_type: FrameType::WindowUpdate,
            flags: 0,
            stream_id,
            sequence: 0,
            payload: FramePayload::WindowUpdate(window_size),
        }
    }

    /// GOAWAY frame.
    pub fn goaway(error_code: u32) -> (r: Self)
        ensures
            r@ == plain_frame(FrameType::GoAway, 0, 0, PayloadModel::GoAway(error_code)),
    {
        Frame {
            frame_type: FrameType::GoAway,
            flags: 0,
            stream_id: 0,
            sequence: 0,
            payload: FramePayload::GoAway(error_code),
        }
    }

    /// RST frame.
    pub fn rst(stream_id: u16, error_code: u32) -> (r: Self)
        ensures
            r@ == plain_frame(FrameType::Rst, stream_id, 0, PayloadModel::Rst(error_code)),
    {
        Frame {
            frame_type: FrameType::Rst,
            flags: 0,
            stream_id,
            sequence: 0,
            payload: FramePayload::Rst(error_code),
        }
    }

    /// OPEN_UDP frame.
    pub fn open_udp(stream_id: u16, addr: String, port: u16) -> (r: Self)
        ensures
            r@ == plain_frame(
                FrameType::OpenUdp,
                stream_id,
                0,
                (PayloadModel::OpenUdp { addr_type: addr_type_of(addr@), addr: addr@, port }),
            ),
    {
        let addr_type = classify(addr.as_str());
        Frame {
            frame_type: FrameType::OpenUdp,
            flags: 0,
            stream_id,
            sequence: 0,
            payload: FramePayload::OpenUdp { addr_type, addr, port },
        }
    }

    /// UDP_DATAGRAM frame.
    pub fn udp_datagram(stream_id: u16, payload: Vec<u8>) -> (r: Self)
        ensures
            r@ == plain_frame(
                FrameType::UdpDatagram,
                stream_id,
                0,
                PayloadModel::UdpDatagram(payload@),
            ),
    {
        Frame {
            frame_type: FrameType::UdpDatagram,
            flags: 0,
            stream_id,
            sequence: 0,
            payload: FramePayload::UdpDatagram(payload),
        }
    }

    /// Bytes of the payload, before encryption.
    pub fn serialize_payload(&self) -> (r: Vec<u8>)
        ensures
            r@ == payload_bytes(self@.payload),
    {
        let mut buf = empty();
        self.payload.encode(&mut buf);
        let r = to_vec(&buf);
        assert(r@ =~= payload_bytes(self@.payload));
        r
    }

    /// The frame whose payload has these bytes.
    pub fn deserialize_payload(
        frame_type: FrameType,
        data: &[u8],
        stream_id: u16,
        sequence: u32,
        flags: u8,
    ) -> (r: Result<Self, FrameError>)
        ensures
            match (r, payload_of(frame_type, data@)) {
                (Ok(f), Ok(payload)) => f@ == (FrameModel {
                    frame_type,
                    flags,
                    stream_id,
                    sequence,
                    payload,
                }),
                (Err(e), Err(fault)) => e@ == fault,
                _ => false,
            },
    {
        let mut buf = from_slice(data);
        match FramePayload::decode(frame_type, &mut buf) {
            Ok(payload) => Ok(Frame { frame_type, flags, stream_id, sequence, payload }),
            Err(e) => Err(e),
        }
    }
}

fn put_target(buf: &mut BytesMut, addr_type: AddrType, addr: &str, port: u16)
    ensures
        buffered(*final(buf)) == buffered(*old(buf)) + target_bytes(addr_type, addr@, port),
{
    let ghost before = buffered(*buf);
    let addr_bytes = addr.as_bytes();
    put_u8(buf, addr_type.code());
    put_u16(buf, (addr_bytes.len() % 0x1_0000) as u16);
    put_slice(buf, addr_bytes);
    put_u16(buf, port);
    assert(buffered(*buf) =~= before + target_bytes(addr_type, addr@, port));
}

fn get_target(buf: &mut BytesMut) -> (r: Result<(AddrType, String, u16), FrameError>)
    ensures
        match (r, target_of(buffered(*old(buf)))) {
            (Ok(t), Ok(m)) => t.0 == m.0 && t.1@ == m.1 && t.2 == m.2,
            (Err(e), Err(fault)) => e@ == fault,
            _ => false,
        },
        buffered(*final(buf)) == buffered(*old(buf)).skip(target_read(buffered(*old(buf)))),
{
    let ghost data = buffered(*buf);
    assert(data.skip(0) =~= data);
    let have: usize = remaining(buf);
    if have < 5 {
        return Err(FrameError::InsufficientBuffer { need: 5, have });
    }
    let raw_addr_type: u8 = get_u8(buf);
    let addr_type = match AddrType::from_code(raw_addr_type) {
        Some(t) => t,
        None => {
            return Err(FrameError::InvalidFrameType(raw_addr_type));
        },
    };
    let addr_len: usize = get_u16(buf) as usize;
    assert(buffered(*buf) =~= data.skip(3));
    let have: usize = remaining(buf);
    if have < addr_len + 2 {
        return Err(FrameError::InsufficientBuffer { need: addr_len + 2, have });
    }
    let addr_bytes = split_to(buf, addr_len);
    assert(addr_bytes@ =~= data.subrange(3, 3 + addr_len));
    assert(buffered(*buf) =~= data.skip(3 + addr_len));
    let addr = match utf8_string(addr_bytes) {
        Ok(s) => s,
        Err(_) => {
            return Err(FrameError::InvalidPacket("Invalid UTF-8 in address".to_owned()));
        },
    };
    let port: u16 = get_u16(buf);
    assert(buffered(*buf) =~= data.skip(5 + addr_len));
    Ok((addr_type, addr, port))
}

fn get_number(buf: &mut BytesMut) -> (r: Result<u32, FrameError>)
    ensures
        match (r, number_at_front(buffered(*old(buf)))) {
            (Ok(n), Ok(m)) => n == m,
            (Err(e), Err(fault)) => e@ == fault,
            _ => false,
        },
        buffered(*final(buf)) == buffered(*old(buf)).skip(
            if buffered(*old(buf)).len() < 4 {
                0
            } else {
                4
            },
        ),
{
    assert(buffered(*buf).skip(0) =~= buffered(*buf));
    let have: usize = remaining(buf);
    if have < 4 {
        return Err(FrameError::InsufficientBuffer { need: 4, have });
    }
    Ok(get_u32(buf))
}

/// The first 32 bytes of a slice as an array.
pub(crate) fn array32(data: &[u8]) -> (r: [u8; 32])
    requires
        data@.len() >= 32,
    ensures
        r@ == data@.take(32),
{
    let mut r = [0u8; 32];
    let mut i: usize = 0;
    while i < 32
        invariant
            0 <= i <= 32,
            r@.len() == 32,
            data@.len() >= 32,
            forall|j: int| 0 <= j < i ==> r@[j] == data@[j],
        decreases 32 - i,
    {
        r[i] = data[i];
        i += 1;
    }
    assert(r@ =~= data@.take(32));
    r
}

impl FramePayload {
    /// Appends the bytes of the payload to `buf`.
    pub fn encode(&self, buf: &mut BytesMut)
        ensures
            buffered(*final(buf)) == buffered(*old(buf)) + payload_bytes(self@),
    {
        let ghost before = buffered(*buf);
        match self {
            FramePayload::Data(data) => {
                put_slice(buf, data.as_slice());
            },
            FramePayload::OpenTcp { addr_type, addr, port } => {
                put_target(buf, *addr_type, addr.as_str(), *port);
            },
            FramePayload::Empty => {
                assert(before + payload_bytes(self@) =~= before);
            },
            FramePayload::Auth { client_nonce, token } => {
                put_slice(buf, client_nonce.as_slice());
                put_slice(buf, token.as_slice());
                assert(buffered(*buf) =~= before + payload_bytes(self@));
            },
            FramePayload::WindowUpdate(window_size) => {
                put_u32(buf, *window_size);
            },
            FramePayload::GoAway(error_code) => {
                put_u32(buf, *error_code);
            },
            FramePayload::Rst(error_code) => {
                put_u32(buf, *error_code);
            },
            FramePayload::OpenUdp { addr_type, addr, port } => {
                put_target(buf, *addr_type, addr.as_str(), *port);
            },
            FramePayload::UdpDatagram(data) => {
                put_slice(buf, data.as_slice());
            },
        }
    }

    /// Reads the payload of a frame of type `frame_type` off the front of `buf`.
    pub fn decode(frame_type: FrameType, buf: &mut BytesMut) -> (r: Result<Self, FrameError>)
        ensures
            match (r, payload_of(frame_type, buffered(*old(buf)))) {
                (Ok(p), Ok(m)) => p@ == m,
                (Err(e), Err(fault)) => e@ == fault,
                _ => false,
            },
            buffered(*final(buf)) == buffered(*old(buf)).skip(
                payload_read(frame_type, buffered(*old(buf))),
            ),
    {
        let ghost data = buffered(*buf);
        assert(data.skip(0) =~= data);
        match frame_type {
            FrameType::Data => Ok(FramePayload::Data(to_vec(buf))),
            FrameType::OpenTcp => match get_target(buf) {
                Ok((addr_type, addr, port)) => Ok(FramePayload::OpenTcp { addr_type, addr, port }),
                Err(e) => Err(e),
            },
            FrameType::Ping => Ok(FramePayload::Empty),
            FrameType::Auth => {
                let have: usize = remaining(buf);
                if have < 64 {
                    return Err(FrameError::InsufficientBuffer { need: 64, have });
                }
                let client_nonce = array32(split_to(buf, 32).as_slice());
                let token = array32(split_to(buf, 32).as_slice());
                assert(client_nonce@ =~= data.subrange(0, 32));
                assert(token@ =~= data.subrange(32, 64));
                assert(buffered(*buf) =~= data.skip(64));
                Ok(FramePayload::Auth { client_nonce, token })
            },
            FrameType::WindowUpdate => match get_number(buf) {
                Ok(n) => Ok(FramePayload::WindowUpdate(n)),
                Err(e) => Err(e),
            },
            FrameType::GoAway => match get_number(buf) {
                Ok(n) => Ok(FramePayload::GoAway(n)),
                Err(e) => Err(e),
            },
            FrameType::Rst => match get_number(buf) {
                Ok(n) => Ok(FramePayload::Rst(n)),
                Err(e) => Err(e),
            },
            FrameType::OpenUdp => match get_target(buf) {
                Ok((addr_type, addr, port)) => Ok(FramePayload::OpenUdp { addr_type, addr, port }),
                Err(e) => Err(e),
            },
            FrameType::UdpDatagram => Ok(FramePayload::UdpDatagram(to_vec(buf))),
        }
    }
}

proof fn lemma_target_round_trip(addr_type: AddrType, addr: Seq<char>, port: u16)
    requires
        encode_utf8(addr).len() < 0x1_0000,
    ensures
        target_of(target_bytes(addr_type, addr, port)) == Ok::<
            (AddrType, Seq<char>, u16),
            FrameFault,
        >((addr_type, addr, port)),
{
    let text = encode_utf8(addr);
    let data = target_bytes(addr_type, addr, port);
    let len = text.len() as u16;
    vstd::utf8::encode_utf8_valid_utf8(addr);
    vstd::utf8::encode_utf8_decode_utf8(addr);
    crate::buf::be16_round_trip(len);
    crate::buf::be16_round_trip(port);
    assert(data.skip(1)[0] == be16(len)[0]);
    assert(data.skip(1)[1] == be16(len)[1]);
    assert(data.subrange(3, 3 + len) =~= text);
    assert(data.skip(3 + len) =~= be16(port));
}

/// A payload is read back from its own bytes, as long as its address fits the
/// length field.
pub proof fn payload_round_trip(frame_type: FrameType, payload: PayloadModel)
    requires
        carries(frame_type, payload),
        addr_fits(payload),
    ensures
        payload_of(frame_type, payload_bytes(payload)) == Ok::<PayloadModel, FrameFault>(payload),
{
    match payload {
        PayloadModel::OpenTcp { addr_type, addr, port } => {
            lemma_target_round_trip(addr_type, addr, port);
        },
        PayloadModel::OpenUdp { addr_type, addr, port } => {
            lemma_target_round_trip(addr_type, addr, port);
        },
        PayloadModel::Auth { client_nonce, token } => {
            assert((client_nonce + token).subrange(0, 32) =~= client_nonce);
            assert((client_nonce + token).subrange(32, 64) =~= token);
        },
        PayloadModel::WindowUpdate(n) => {
            crate::buf::be32_round_trip(n);
        },
        PayloadModel::GoAway(n) => {
            crate::buf::be32_round_trip(n);
        },
        PayloadModel::Rst(n) => {
            crate::buf::be32_round_trip(n);
        },
        _ => {},
    }
}

/// Where the fields of a payload stand: bytes of a stream and of a datagram as they are; of
/// a target the type of the address, its length, the address and the port; of a proof of
/// identity the nonce and the token; a number with its most significant byte first.
pub proof fn payload_layout(
    data: Seq<u8>,
    addr_type: AddrType,
    addr: Seq<char>,
    port: u16,
    nonce: Seq<u8>,
    token: Seq<u8>,
    n: u32,
)
    ensures
        payload_bytes(PayloadModel::Data(data)) == data,
        payload_bytes(PayloadModel::UdpDatagram(data)) == data,
        payload_bytes(PayloadModel::Empty).len() == 0,
        nonce.len() == 32 ==> payload_bytes(
            PayloadModel::Auth { client_nonce: nonce, token },
        ).take(32) == nonce,
        nonce.len() == 32 ==> payload_bytes(
            PayloadModel::Auth { client_nonce: nonce, token },
        ).skip(32) == token,
        payload_bytes(PayloadModel::WindowUpdate(n)) == be32(n),
        payload_bytes(PayloadModel::GoAway(n)) == be32(n),
        payload_bytes(PayloadModel::Rst(n)) == be32(n),
        payload_bytes(PayloadModel::OpenUdp { addr_type, addr, port }) == payload_bytes(
            PayloadModel::OpenTcp { addr_type, addr, port },
        ),
        encode_utf8(addr).len() < 0x1_0000 ==> {
            let bytes = payload_bytes(PayloadModel::OpenTcp { addr_type, addr, port });
            let len = encode_utf8(addr).len() as int;
            &&& bytes.len() == 5 + len
            &&& bytes[0] == addr_type.spec_code()
            &&& bytes[1] * 0x100 + bytes[2] == len
            &&& bytes.subrange(3, 3 + len) == encode_utf8(addr)
            &&& bytes[3 + len] * 0x100 + bytes[4 + len] == port
        },
{
    let auth = payload_bytes(PayloadModel::Auth { client_nonce: nonce, token });
    if nonce.len() == 32 {
        assert(auth.take(32) =~= nonce);
        assert(auth.skip(32) =~= token);
    }
    if encode_utf8(addr).len() < 0x1_0000 {
        let bytes = payload_bytes(PayloadModel::OpenTcp { addr_type, addr, port });
        let len = encode_utf8(addr).len() as int;
        crate::buf::most_significant_byte_first(len as u16, 0, Seq::empty());
        crate::buf::most_significant_byte_first(port, 0, Seq::empty());
        assert(bytes.subrange(3, 3 + len) =~= encode_utf8(addr));
        assert(bytes[1] == be16(len as u16)[0] && bytes[2] == be16(len as u16)[1]);
        assert(bytes[3 + len] == be16(port)[0] && bytes[4 + len] == be16(port)[1]);
    }
}

/// What is read of the bytes of a payload stands in them, and bytes that are too few are
/// refused.
pub proof fn payloads_are_read_where_they_stand(frame_type: FrameType, data: Seq<u8>)
    ensures
        match payload_of(frame_type, data) {
            Ok(PayloadModel::Data(v)) => frame_type == FrameType::Data && v == data,
            Ok(PayloadModel::UdpDatagram(v)) => frame_type == FrameType::UdpDatagram && v == data,
            Ok(PayloadModel::Empty) => frame_type == FrameType::Ping,
            Ok(PayloadModel::Auth { client_nonce, token }) => {
                &&& frame_type == FrameType::Auth
                &&& data.len() >= 64
                &&& client_nonce == data.subrange(0, 32)
                &&& token == data.subrange(32, 64)
            },
            Ok(PayloadModel::WindowUpdate(n)) => frame_type == FrameType::WindowUpdate
                && data.len() >= 4 && n == data[0] * 0x100_0000 + data[1] * 0x1_0000 + data[2]
                * 0x100 + data[3],
            Ok(PayloadModel::GoAway(n)) => frame_type == FrameType::GoAway && data.len() >= 4 && n
                == data[0] * 0x100_0000 + data[1] * 0x1_0000 + data[2] * 0x100 + data[3],
            Ok(PayloadModel::Rst(n)) => frame_type == FrameType::Rst && data.len() >= 4 && n
                == data[0] * 0x100_0000 + data[1] * 0x1_0000 + data[2] * 0x100 + data[3],
            Ok(PayloadModel::OpenTcp { addr_type, addr, port }) => {
                let len = data[1] * 0x100 + data[2];
                &&& frame_type == FrameType::OpenTcp
                &&& data.len() >= 5 + len
                &&& data[0] == addr_type.spec_code()
                &&& addr == decode_utf8(data.subrange(3, 3 + len))
                &&& port == data[3 + len] * 0x100 + data[4 + len]
            },
            Ok(PayloadModel::OpenUdp { addr_type, addr, port }) => {
                let len = data[1] * 0x100 + data[2];
                &&& frame_type == FrameType::OpenUdp
                &&& data.len() >= 5 + len
                &&& data[0] == addr_type.spec_code()
                &&& addr == decode_utf8(data.subrange(3, 3 + len))
                &&& port == data[3 + len] * 0x100 + data[4 + len]
            },
            Err(_) => frame_type != FrameType::Data && frame_type != FrameType::UdpDatagram
                && frame_type != FrameType::Ping && (frame_type == FrameType::Auth ==> data.len()
                < 64) && (frame_type == FrameType::WindowUpdate || frame_type == FrameType::GoAway
                || frame_type == FrameType::Rst ==> data.len() < 4),
        },
{
    crate::protocol::code_points_round_trip(frame_type, AddrType::Ipv4, data[0]);
    if data.len() >= 5 {
        let len = from_be16(data.skip(1)) as int;
        assert(data.skip(1)[0] == data[1] && data.skip(1)[1] == data[2]);
        if data.len() >= 5 + len {
            assert(data.skip(3 + len)[0] == data[3 + len]);
            assert(data.skip(3 + len)[1] == data[4 + len]);
        }
    }
}

/// A target is written as IPv4 exactly where it is four octets, and as a name where it is
/// neither that nor an IPv6 address.
pub proof fn targets_tell_how_they_are_written(addr: Seq<char>)
    ensures
        addr_type_of(addr) == AddrType::Ipv4 <==> Ipv4Addr::spec_parse(addr) is Some,
        addr_type_of(addr) == AddrType::Ipv6 ==> is_ipv6(addr),
        addr_type_of(addr) == AddrType::Domain ==> !is_ipv6(addr),
{
}

} // verus!
