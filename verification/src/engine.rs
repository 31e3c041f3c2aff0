//! Configuration documents and the session handshake.

use vstd::prelude::*;
use vstd::string::*;

use crate::crypto::{crypto_text, CryptoError, CryptoFault};
use crate::frame::{frame_text, FrameError, FrameFault};
use crate::mux::{mux_text, MuxError, MuxFault};
use crate::netstack::{netstack_text, NetstackError, NetstackFault};
use crate::text::joined;

pub mod config;
pub mod session;
pub mod tls;

verus! {

/// What can go wrong in the core.
#[derive(Clone, Debug, PartialEq, Eq)]
pub enum CoreError {
    TlsError(String),
    SessionError(String),
    AuthError(String),
    Crypto(CryptoError),
    Frame(FrameError),
    Mux(MuxError),
    Netstack(NetstackError),
    ConfigError(String),
    /// An input or output operation failed; the text is the system's.
    Io(String),
}

/// Mathematical counterpart of [`CoreError`].
pub enum CoreFault {
    TlsError(Seq<char>),
    SessionError(Seq<char>),
    AuthError(Seq<char>),
    Crypto(CryptoFault),
    Frame(FrameFault),
    Mux(MuxFault),
    Netstack(NetstackFault),
    ConfigError(Seq<char>),
    Io(Seq<char>),
}

impl View for CoreError {
    type V = CoreFault;

    open spec fn view(&self) -> CoreFault {
        match *self {
            CoreError::TlsError(m) => CoreFault::TlsError(m@),
            CoreError::SessionError(m) => CoreFault::SessionError(m@),
            CoreError::AuthError(m) => CoreFault::AuthError(m@),
            CoreError::Crypto(e) => CoreFault::Crypto(e@),
            CoreError::Frame(e) => CoreFault::Frame(e@),
            CoreError::Mux(e) => CoreFault::Mux(e@),
            CoreError::Netstack(e) => CoreFault::Netstack(e@),
            CoreError::ConfigError(m) => CoreFault::ConfigError(m@),
            CoreError::Io(m) => CoreFault::Io(m@),
        }
    }
}

/// The sentence that describes a fault.
pub open spec fn core_text(fault: CoreFault) -> Seq<char> {
    match fault {
        CoreFault::TlsError(m) => "TLS error: "@ + m,
        CoreFault::SessionError(m) => "Session error: "@ + m,
        CoreFault::AuthError(m) => "Authentication error: "@ + m,
        CoreFault::Crypto(fault) => "Crypto error: "@ + crypto_text(fault),
        CoreFault::Frame(fault) => "Frame error: "@ + frame_text(fault),
        CoreFault::Mux(fault) => "Mux error: "@ + mux_text(fault),
        CoreFault::Netstack(fault) => "Netstack error: "@ + netstack_text(fault),
        CoreFault::ConfigError(m) => "Config error: "@ + m,
        CoreFault::Io(m) => "IO error: "@ + m,
    }
}

impl CoreError {
    /// The sentence that describes the error.
    pub fn message(&self) -> (r: String)
        ensures
            r@ == core_text(self@),
    {
        match self {
            CoreError::TlsError(m) => joined("TLS error: ", m.as_str()),
            CoreError::SessionError(m) => joined("Session error: ", m.as_str()),
            CoreError::AuthError(m) => joined("Authentication error: ", m.as_str()),
            CoreError::Crypto(e) => joined("Crypto error: ", e.message().as_str()),
            CoreError::Frame(e) => joined("Frame error: ", e.message().as_str()),
            CoreError::Mux(e) => joined("Mux error: ", e.message().as_str()),
            CoreError::Netstack(e) => joined("Netstack error: ", e.message().as_str()),
            CoreError::ConfigError(m) => joined("Config error: ", m.as_str()),
            CoreError::Io(m) => joined("IO error: ", m.as_str()),
        }
    }
}

} // verus!
