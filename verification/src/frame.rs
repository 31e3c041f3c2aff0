//! Frames: the unit of exchange on a connection.
//!
//! A frame is a 24-byte header followed by the encrypted payload and its tag:
//!
//! ```text
//!  bytes  0..3   payload length, tag included (24 bits, big-endian)
//!  byte   3      frame type
//!  byte   4      flags
//!  bytes  5..7   stream id (big-endian)
//!  bytes  7..11  sequence number (big-endian)
//!  bytes 11..24  reserved, zero
//! ```

use vstd::prelude::*;
use vstd::string::*;

use crate::crypto::{crypto_text, CryptoError, CryptoFault, AEAD_TAG_LEN, MAX_FRAME_PAYLOAD};
use crate::text::{decimal, decimal_of, joined};

pub mod codec;
pub mod types;

verus! {

/// What can go wrong in the frame layer.
#[derive(Clone, Debug, PartialEq, Eq)]
pub enum FrameError {
    /// A payload is too long for a frame.
    InvalidLength(usize),
    /// A type byte is not assigned.
    InvalidFrameType(u8),
    /// A packet is malformed.
    InvalidPacket(String),
    /// A stream id cannot be used.
    InvalidStreamId(u16),
    /// The cryptographic layer refused.
    Crypto(CryptoError),
    /// A buffer holds too few bytes.
    InsufficientBuffer { need: usize, have: usize },
    /// Padding is malformed.
    PaddingError(String),
    /// A sequence number was seen before, or is too old to tell.
    ReplayDetected { stream_id: u16, seq: u32 },
}

/// Mathematical counterpart of [`FrameError`].
pub enum FrameFault {
    InvalidLength(int),
    InvalidFrameType(u8),
    InvalidPacket(Seq<char>),
    InvalidStreamId(u16),
    Crypto(CryptoFault),
    InsufficientBuffer { need: int, have: int },
    PaddingError(Seq<char>),
    ReplayDetected { stream_id: u16, seq: u32 },
}

impl View for FrameError {
    type V = FrameFault;

    open spec fn view(&self) -> FrameFault {
        match *self {
            FrameError::InvalidLength(n) => FrameFault::InvalidLength(n as int),
            FrameError::InvalidFrameType(t) => FrameFault::InvalidFrameType(t),
            FrameError::InvalidPacket(m) => FrameFault::InvalidPacket(m@),
            FrameError::InvalidStreamId(id) => FrameFault::InvalidStreamId(id),
            FrameError::Crypto(e) => FrameFault::Crypto(e@),
            FrameError::InsufficientBuffer { need, have } => FrameFault::InsufficientBuffer {
                need: need as int,
                have: have as int,
            },
            FrameError::PaddingError(m) => FrameFault::PaddingError(m@),
            FrameError::ReplayDetected { stream_id, seq } => FrameFault::ReplayDetected {
                stream_id,
                seq,
            },
        }
    }
}

/// The sentence that describes a fault.
pub open spec fn frame_text(fault: FrameFault) -> Seq<char> {
    match fault {
        FrameFault::InvalidLength(n) => "Invalid frame length: "@ + decimal(n as nat) + " (max "@
            + decimal(MAX_FRAME_PAYLOAD as nat) + ")"@,
        FrameFault::InvalidFrameType(t) => "Invalid frame type: "@ + decimal(t as nat),
        FrameFault::InvalidPacket(m) => "Invalid packet: "@ + m,
        FrameFault::InvalidStreamId(id) => "Invalid stream ID: "@ + decimal(id as nat),
        FrameFault::Crypto(fault) => "Crypto error: "@ + crypto_text(fault),
        FrameFault::InsufficientBuffer { need, have } => "Insufficient buffer: need "@ + decimal(
            need as nat,
        ) + ", have "@ + decimal(have as nat),
        FrameFault::PaddingError(m) => "Padding error: "@ + m,
        FrameFault::ReplayDetected { stream_id, seq } => "Replay detected: sequence "@ + decimal(
            seq as nat,
        ) + " for stream "@ + decimal(stream_id as nat),
    }
}

impl FrameError {
    /// The sentence that describes the error.
    pub fn message(&self) -> (r: String)
        ensures
            r@ == frame_text(self@),
    {
        match self {
            FrameError::InvalidLength(n) => {
                let mut r = joined("Invalid frame length: ", decimal_of(*n as u64).as_str());
                r.append(" (max ");
                r.append(decimal_of(MAX_FRAME_PAYLOAD as u64).as_str());
                r.append(")");
                r
            },
            FrameError::InvalidFrameType(t) => joined(
                "Invalid frame type: ",
                decimal_of(*t as u64).as_str(),
            ),
            FrameError::InvalidPacket(m) => joined("Invalid packet: ", m.as_str()),
            FrameError::InvalidStreamId(id) => joined(
                "Invalid stream ID: ",
                decimal_of(*id as u64).as_str(),
            ),
            FrameError::Crypto(e) => joined("Crypto error: ", e.message().as_str()),
            FrameError::InsufficientBuffer { need, have } => {
                let mut r = joined("Insufficient buffer: need ", decimal_of(*need as u64).as_str());
                r.append(", have ");
                r.append(decimal_of(*have as u64).as_str());
                r
            },
            FrameError::PaddingError(m) => joined("Padding error: ", m.as_str()),
            FrameError::ReplayDetected { stream_id, seq } => {
                let mut r = joined("Replay detected: sequence ", decimal_of(*seq as u64).as_str());
                r.append(" for stream ");
                r.append(decimal_of(*stream_id as u64).as_str());
                r
            },
        }
    }
}

/// Length of a frame header.
pub const FRAME_HEADER_SIZE: usize = 24;

/// Largest frame, header and tag included.
pub const MAX_FRAME_SIZE: usize = MAX_FRAME_PAYLOAD + FRAME_HEADER_SIZE + AEAD_TAG_LEN;

} // verus!
