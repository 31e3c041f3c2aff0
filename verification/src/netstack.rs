//! Userspace network stack: the TUN device and the packets that cross it.

use vstd::prelude::*;
use vstd::string::*;

use crate::text::joined;

pub mod debug;
pub mod manager;
pub mod smoltcp_wrapper;
pub mod sockets;
pub mod tun;

verus! {

/// What can go wrong in the network stack.
#[derive(Clone, Debug, PartialEq, Eq)]
pub enum NetstackError {
    TunError(String),
    SmoltcpError(String),
    InvalidPacket(String),
    InterfaceNotConfigured,
    RouteError(String),
    DnsError(String),
    /// An input or output operation failed; the text is the system's.
    Io(String),
}

/// Mathematical counterpart of [`NetstackError`].
pub enum NetstackFault {
    TunError(Seq<char>),
    SmoltcpError(Seq<char>),
    InvalidPacket(Seq<char>),
    InterfaceNotConfigured,
    RouteError(Seq<char>),
    DnsError(Seq<char>),
    Io(Seq<char>),
}

impl View for NetstackError {
    type V = NetstackFault;

    open spec fn view(&self) -> NetstackFault {
        match *self {
            NetstackError::TunError(m) => NetstackFault::TunError(m@),
            NetstackError::SmoltcpError(m) => NetstackFault::SmoltcpError(m@),
            NetstackError::InvalidPacket(m) => NetstackFault::InvalidPacket(m@),
            NetstackError::InterfaceNotConfigured => NetstackFault::InterfaceNotConfigured,
            NetstackError::RouteError(m) => NetstackFault::RouteError(m@),
            NetstackError::DnsError(m) => NetstackFault::DnsError(m@),
            NetstackError::Io(m) => NetstackFault::Io(m@),
        }
    }
}

/// The sentence that describes a fault.
pub open spec fn netstack_text(fault: NetstackFault) -> Seq<char> {
    match fault {
        NetstackFault::TunError(m) => "TUN device error: "@ + m,
        NetstackFault::SmoltcpError(m) => "smoltcp error: "@ + m,
        NetstackFault::InvalidPacket(m) => "Invalid packet: "@ + m,
        NetstackFault::InterfaceNotConfigured => "Interface not configured"@,
        NetstackFault::RouteError(m) => "Route error: "@ + m,
        NetstackFault::DnsError(m) => "DNS error: "@ + m,
        NetstackFault::Io(m) => "IO error: "@ + m,
    }
}

impl NetstackError {
    /// The sentence that describes the error.
    pub fn message(&self) -> (r: String)
        ensures
            r@ == netstack_text(self@),
    {
        match self {
            NetstackError::TunError(m) => joined("TUN device error: ", m.as_str()),
            NetstackError::SmoltcpError(m) => joined("smoltcp error: ", m.as_str()),
            NetstackError::InvalidPacket(m) => joined("Invalid packet: ", m.as_str()),
            NetstackError::InterfaceNotConfigured => "Interface not configured".to_owned(),
            NetstackError::RouteError(m) => joined("Route error: ", m.as_str()),
            NetstackError::DnsError(m) => joined("DNS error: ", m.as_str()),
            NetstackError::Io(m) => joined("IO error: ", m.as_str()),
        }
    }
}

/// Default MTU of the TUN device.
pub const DEFAULT_MTU: usize = 1400;

/// Subnet of the TUN device; the resolver has its first address.
pub const DEFAULT_TUN_SUBNET: &'static str = "10.255.0.0/30";

/// Address of the virtual resolver.
pub const VIRTUAL_DNS_IP: &'static str = "10.255.0.1";

/// Address of the virtual gateway.
pub const VIRTUAL_GATEWAY_IP: &'static str = "10.255.0.1";

} // verus!
