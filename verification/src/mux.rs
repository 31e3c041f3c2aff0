//! Multiplexing of TCP streams and UDP flows over one connection.

use vstd::prelude::*;
use vstd::string::*;

use crate::frame::{frame_text, FrameError, FrameFault};
use crate::text::{decimal, decimal_of, joined};

pub mod dns;
pub mod flow;
pub mod manager;
pub mod stream;

pub use crate::protocol::{CLIENT_STREAM_ID_START, SERVER_STREAM_ID_START, STREAM_ID_INCREMENT};

verus! {

/// What can go wrong in the multiplexing layer.
#[derive(Clone, Debug, PartialEq, Eq)]
pub enum MuxError {
    StreamNotFound(u16),
    FlowNotFound(u16),
    StreamClosed(u16),
    FlowClosed(u16),
    WindowExhausted(u16),
    InvalidStreamId(u16),
    Frame(FrameError),
    Internal(String),
}

/// Mathematical counterpart of [`MuxError`].
pub enum MuxFault {
    StreamNotFound(u16),
    FlowNotFound(u16),
    StreamClosed(u16),
    FlowClosed(u16),
    WindowExhausted(u16),
    InvalidStreamId(u16),
    Frame(FrameFault),
    Internal(Seq<char>),
}

impl View for MuxError {
    type V = MuxFault;

    open spec fn view(&self) -> MuxFault {
        match *self {
            MuxError::StreamNotFound(id) => MuxFault::StreamNotFound(id),
            MuxError::FlowNotFound(id) => MuxFault::FlowNotFound(id),
            MuxError::StreamClosed(id) => MuxFault::StreamClosed(id),
            MuxError::FlowClosed(id) => MuxFault::FlowClosed(id),
            MuxError::WindowExhausted(id) => MuxFault::WindowExhausted(id),
            MuxError::InvalidStreamId(id) => MuxFault::InvalidStreamId(id),
            MuxError::Frame(e) => MuxFault::Frame(e@),
            MuxError::Internal(m) => MuxFault::Internal(m@),
        }
    }
}

/// The sentence that describes a fault.
pub open spec fn mux_text(fault: MuxFault) -> Seq<char> {
    match fault {
        MuxFault::StreamNotFound(id) => "Stream not found: "@ + decimal(id as nat),
        MuxFault::FlowNotFound(id) => "Flow not found: "@ + decimal(id as nat),
        MuxFault::StreamClosed(id) => "Stream already closed: "@ + decimal(id as nat),
        MuxFault::FlowClosed(id) => "Flow already closed: "@ + decimal(id as nat),
        MuxFault::WindowExhausted(id) => "Window exhausted for stream "@ + decimal(id as nat),
        MuxFault::InvalidStreamId(id) => "Invalid stream ID: "@ + decimal(id as nat)
            + " (client streams must be odd, server even)"@,
        MuxFault::Frame(fault) => "Frame error: "@ + frame_text(fault),
        MuxFault::Internal(m) => "Internal error: "@ + m,
    }
}

impl MuxError {
    /// The sentence that describes the error.
    pub fn message(&self) -> (r: String)
        ensures
            r@ == mux_text(self@),
    {
        match self {
            MuxError::StreamNotFound(id) => joined(
                "Stream not found: ",
                decimal_of(*id as u64).as_str(),
            ),
            MuxError::FlowNotFound(id) => joined(
                "Flow not found: ",
                decimal_of(*id as u64).as_str(),
            ),
            MuxError::StreamClosed(id) => joined(
                "Stream already closed: ",
                decimal_of(*id as u64).as_str(),
            ),
            MuxError::FlowClosed(id) => joined(
                "Flow already closed: ",
                decimal_of(*id as u64).as_str(),
            ),
            MuxError::WindowExhausted(id) => joined(
                "Window exhausted for stream ",
                decimal_of(*id as u64).as_str(),
            ),
            MuxError::InvalidStreamId(id) => {
                let mut r = joined("Invalid stream ID: ", decimal_of(*id as u64).as_str());
                r.append(" (client streams must be odd, server even)");
                r
            },
            MuxError::Frame(e) => joined("Frame error: ", e.message().as_str()),
            MuxError::Internal(m) => joined("Internal error: ", m.as_str()),
        }
    }
}

} // verus!
