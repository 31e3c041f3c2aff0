//! UDP flow descriptors and target validation.

use vstd::prelude::*;
use vstd::utf8::encode_utf8;

verus! {

/// Why a target cannot be dialled.
#[derive(Clone, Copy, Debug, PartialEq, Eq, Structural)]
pub enum FlowError {
    /// The port is 0.
    BadPort,
    /// The address is empty or longer than 255 bytes.
    BadAddr,
}

impl FlowError {
    /// The words that describe the error.
    pub open spec fn spec_message(self) -> Seq<char> {
        match self {
            FlowError::BadPort => "bad port"@,
            FlowError::BadAddr => "bad address"@,
        }
    }

    /// The words that describe the error.
    pub fn message(&self) -> (r: String)
        ensures
            r@ == self.spec_message(),
    {
        match self {
            FlowError::BadPort => "bad port".to_owned(),
            FlowError::BadAddr => "bad address".to_owned(),
        }
    }
}

/// An opened UDP flow.
#[derive(Clone, Debug, PartialEq, Eq)]
pub struct UdpFlow {
    /// Identifier, odd on the client side.
    pub id: u16,
    /// Destination address.
    pub addr: String,
    /// Destination port.
    pub port: u16,
}

/// Why a target cannot be dialled, if it cannot. The port is looked at first.
pub open spec fn target_fault(addr: Seq<char>, port: u16) -> Option<FlowError> {
    if port == 0 {
        Some(FlowError::BadPort)
    } else if addr.len() == 0 || encode_utf8(addr).len() > 255 {
        Some(FlowError::BadAddr)
    } else {
        None
    }
}

impl UdpFlow {
    /// A descriptor of a valid target.
    pub fn new(id: u16, addr: &str, port: u16) -> (r: Result<Self, FlowError>)
        ensures
            match (r, target_fault(addr@, port)) {
                (Ok(d), None) => d.id == id && d.addr@ == addr@ && d.port == port,
                (Err(e), Some(fault)) => e == fault,
                _ => false,
            },
    {
        match validate_target(addr, port) {
            Ok(_) => Ok(UdpFlow { id, addr: addr.to_owned(), port }),
            Err(e) => Err(e),
        }
    }
}

/// Accepts a port other than 0 and an address of 1 to 255 bytes.
pub fn validate_target(addr: &str, port: u16) -> (r: Result<(), FlowError>)
    ensures
        match (r, target_fault(addr@, port)) {
            (Ok(_), None) => true,
            (Err(e), Some(fault)) => e == fault,
            _ => false,
        },
{
    if port == 0 {
        return Err(FlowError::BadPort);
    }
    if addr.is_empty() || addr.as_bytes().len() > 255 {
        return Err(FlowError::BadAddr);
    }
    Ok(())
}

} // verus!
