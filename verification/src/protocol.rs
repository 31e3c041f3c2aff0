//! Wire-level constants and code points shared by every layer.

use vstd::prelude::*;

verus! {

/// Version byte that opens every connection.
pub const PROTOCOL_VERSION: u8 = 1;

/// ALPN name of HTTP/2.
pub const ALPN_H2: [u8; 2] = [0x68, 0x32];

/// ALPN name of HTTP/1.1.
pub const ALPN_HTTP11: [u8; 8] = [0x68, 0x74, 0x74, 0x70, 0x2f, 0x31, 0x2e, 0x31];

/// First identifier handed out to a client-initiated stream.
pub const CLIENT_STREAM_ID_START: u16 = 1;

/// First identifier handed out to a server-initiated stream.
pub const SERVER_STREAM_ID_START: u16 = 2;

/// Distance between two identifiers of the same side.
pub const STREAM_ID_INCREMENT: u16 = 2;

/// Address of the resolver that the tunnel answers on.
pub const VIRTUAL_DNS_IP: &'static str = "10.255.0.1";

/// Port of the resolver that the tunnel answers on.
pub const VIRTUAL_DNS_PORT: u16 = 53;

/// Resolvers that the far end asks, the first one first.
pub const DEFAULT_DNS_UPSTREAMS: [&'static str; 2] = ["1.1.1.1:53", "8.8.8.8:53"];

/// Kind of a frame.
#[derive(Clone, Copy, Debug, PartialEq, Eq, Structural)]
pub enum FrameType {
    Data,
    OpenTcp,
    Ping,
    Auth,
    WindowUpdate,
    GoAway,
    Rst,
    OpenUdp,
    UdpDatagram,
}

impl FrameType {
    /// The name of the type.
    pub open spec fn spec_name(self) -> Seq<char> {
        match self {
            FrameType::Data => "Data"@,
            FrameType::OpenTcp => "OpenTcp"@,
            FrameType::Ping => "Ping"@,
            FrameType::Auth => "Auth"@,
            FrameType::WindowUpdate => "WindowUpdate"@,
            FrameType::GoAway => "GoAway"@,
            FrameType::Rst => "Rst"@,
            FrameType::OpenUdp => "OpenUdp"@,
            FrameType::UdpDatagram => "UdpDatagram"@,
        }
    }

    /// The name of the type.
    pub fn name(self) -> (r: &'static str)
        ensures
            r@ == self.spec_name(),
    {
        match self {
            FrameType::Data => "Data",
            FrameType::OpenTcp => "OpenTcp",
            FrameType::Ping => "Ping",
            FrameType::Auth => "Auth",
            FrameType::WindowUpdate => "WindowUpdate",
            FrameType::GoAway => "GoAway",
            FrameType::Rst => "Rst",
            FrameType::OpenUdp => "OpenUdp",
            FrameType::UdpDatagram => "UdpDatagram",
        }
    }

    /// The byte that stands for the frame type on the wire.
    pub open spec fn spec_code(self) -> u8 {
        match self {
            FrameType::Data => 0,
            FrameType::OpenTcp => 1,
            FrameType::Ping => 2,
            FrameType::Auth => 3,
            FrameType::WindowUpdate => 4,
            FrameType::GoAway => 5,
            FrameType::Rst => 6,
            FrameType::OpenUdp => 7,
            FrameType::UdpDatagram => 8,
        }
    }

    /// The frame type that a byte stands for, if any.
    pub open spec fn spec_from_code(code: u8) -> Option<FrameType> {
        match code {
            0 => Some(FrameType::Data),
            1 => Some(FrameType::OpenTcp),
            2 => Some(FrameType::Ping),
            3 => Some(FrameType::Auth),
            4 => Some(FrameType::WindowUpdate),
            5 => Some(FrameType::GoAway),
            6 => Some(FrameType::Rst),
            7 => Some(FrameType::OpenUdp),
            8 => Some(FrameType::UdpDatagram),
            _ => None,
        }
    }

    /// Wire byte of this frame type.
    pub fn code(self) -> (r: u8)
        ensures
            r == self.spec_code(),
    {
        match self {
            FrameType::Data => 0,
            FrameType::OpenTcp => 1,
            FrameType::Ping => 2,
            FrameType::Auth => 3,
            FrameType::WindowUpdate => 4,
            FrameType::GoAway => 5,
            FrameType::Rst => 6,
            FrameType::OpenUdp => 7,
            FrameType::UdpDatagram => 8,
        }
    }

    /// Frame type of a wire byte, `None` for an unassigned byte.
    pub fn from_code(code: u8) -> (r: Option<FrameType>)
        ensures
            r == FrameType::spec_from_code(code),
    {
        match code {
            0 => Some(FrameType::Data),
            1 => Some(FrameType::OpenTcp),
            2 => Some(FrameType::Ping),
            3 => Some(FrameType::Auth),
            4 => Some(FrameType::WindowUpdate),
            5 => Some(FrameType::GoAway),
            6 => Some(FrameType::Rst),
            7 => Some(FrameType::OpenUdp),
            8 => Some(FrameType::UdpDatagram),
            _ => None,
        }
    }
}

/// How an address in an OPEN frame is written.
#[derive(Clone, Copy, Debug, PartialEq, Eq, Structural)]
pub enum AddrType {
    Ipv4,
    Ipv6,
    Domain,
}

impl AddrType {
    /// The byte that stands for the address type on the wire.
    pub open spec fn spec_code(self) -> u8 {
        match self {
            AddrType::Ipv4 => 0,
            AddrType::Ipv6 => 1,
            AddrType::Domain => 2,
        }
    }

    /// The address type that a byte stands for, if any.
    pub open spec fn spec_from_code(code: u8) -> Option<AddrType> {
        match code {
            0 => Some(AddrType::Ipv4),
            1 => Some(AddrType::Ipv6),
            2 => Some(AddrType::Domain),
            _ => None,
        }
    }

    /// Wire byte of this address type.
    pub fn code(self) -> (r: u8)
        ensures
            r == self.spec_code(),
    {
        match self {
            AddrType::Ipv4 => 0,
            AddrType::Ipv6 => 1,
            AddrType::Domain => 2,
        }
    }

    /// Address type of a wire byte, `None` for an unassigned byte.
    pub fn from_code(code: u8) -> (r: Option<AddrType>)
        ensures
            r == AddrType::spec_from_code(code),
    {
        match code {
            0 => Some(AddrType::Ipv4),
            1 => Some(AddrType::Ipv6),
            2 => Some(AddrType::Domain),
            _ => None,
        }
    }
}

/// Every frame type and every address type is read back from its own byte, and
/// no byte stands for two of them.
pub proof fn code_points_round_trip(frame_type: FrameType, addr_type: AddrType, code: u8)
    ensures
        FrameType::spec_from_code(frame_type.spec_code()) == Some(frame_type),
        AddrType::spec_from_code(addr_type.spec_code()) == Some(addr_type),
        FrameType::spec_from_code(code) matches Some(t) ==> t.spec_code() == code,
        AddrType::spec_from_code(code) matches Some(t) ==> t.spec_code() == code,
{
}

/// The bytes that stand for frame types and address types on the wire, in the order of the
/// protocol.
pub proof fn code_points_are_those_of_the_protocol(frame_type: FrameType, addr_type: AddrType)
    ensures
        frame_type.spec_code() == match frame_type {
            FrameType::Data => 0x00u8,
            FrameType::OpenTcp => 0x01u8,
            FrameType::Ping => 0x02u8,
            FrameType::Auth => 0x03u8,
            FrameType::WindowUpdate => 0x04u8,
            FrameType::GoAway => 0x05u8,
            FrameType::Rst => 0x06u8,
            FrameType::OpenUdp => 0x07u8,
            FrameType::UdpDatagram => 0x08u8,
        },
        addr_type.spec_code() == match addr_type {
            AddrType::Ipv4 => 0x00u8,
            AddrType::Ipv6 => 0x01u8,
            AddrType::Domain => 0x02u8,
        },
{
}

} // verus!
