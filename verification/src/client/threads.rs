//! Frames on the wire, and what the pump threads do after each turn.

use vstd::prelude::*;
use vstd::string::*;

use crate::buf::{empty, from_slice, to_vec};
use crate::frame::codec::{header_bytes, header_of, header_round_trip, FrameHeader};
use crate::frame::frame_text;
use crate::text::{decimal, decimal_of, joined};

verus! {

/// Milliseconds that the wire is waited for, so that a stop is noticed.
pub const READ_TIMEOUT_MS: u64 = 200;

/// Milliseconds of rest when the TUN device has nothing.
pub const TUN_IDLE_MS: u64 = 10;

/// Longest ciphertext that is read from the wire.
pub const MAX_WIRE_BODY: usize = 66559;

/// A sealed frame as it is written to the wire.
pub fn sealed_bytes(header: &FrameHeader, ciphertext: &[u8]) -> (r: Vec<u8>)
    ensures
        r@ == header_bytes(*header) + ciphertext@,
{
    let mut buf = empty();
    header.encode(&mut buf);
    let mut bytes = to_vec(&buf);
    bytes.extend_from_slice(ciphertext);
    assert(bytes@ =~= header_bytes(*header) + ciphertext@);
    bytes
}

/// The header of a frame on the wire, or why it is refused: it cannot be read, or
/// it announces more than is ever sent. Nothing is waited for in that case.
pub open spec fn wire_header(bytes: Seq<u8>) -> Result<FrameHeader, Seq<char>> {
    match header_of(bytes) {
        Err(fault) => Err("bad frame header: "@ + frame_text(fault)),
        Ok(header) => if header.length > MAX_WIRE_BODY {
            Err("absurd frame length "@ + decimal(header.length as nat))
        } else {
            Ok(header)
        },
    }
}

/// Reads the header of a frame on the wire.
pub fn read_wire_header(bytes: &[u8]) -> (r: Result<FrameHeader, String>)
    ensures
        match (r, wire_header(bytes@)) {
            (Ok(h), Ok(m)) => h == m,
            (Err(text), Err(m)) => text@ == m,
            _ => false,
        },
{
    let mut buf = from_slice(bytes);
    match FrameHeader::decode(&mut buf) {
        Err(e) => Err(joined("bad frame header: ", e.message().as_str())),
        Ok(header) => if header.length as u64 > MAX_WIRE_BODY as u64 {
            Err(joined("absurd frame length ", decimal_of(header.length as u64).as_str()))
        } else {
            Ok(header)
        },
    }
}

/// A frame that is not too long is read back from the wire as it was written.
pub proof fn written_frames_are_read_back(header: FrameHeader, ciphertext: Seq<u8>)
    requires
        header.length == ciphertext.len(),
        header.length <= MAX_WIRE_BODY,
    ensures
        ({
            let wire = header_bytes(header) + ciphertext;
            &&& wire_header(wire.take(24)) == Ok::<FrameHeader, Seq<char>>(header)
            &&& wire.skip(24) == ciphertext
        }),
{
    header_round_trip(header, Seq::empty());
    let head = header_bytes(header);
    assert(head + Seq::<u8>::empty() =~= head);
    assert((head + ciphertext).take(24) =~= head);
    assert((head + ciphertext).skip(24) =~= ciphertext);
}

/// What a pump thread does next.
#[derive(Clone, Copy, Debug, PartialEq, Eq, Structural)]
pub enum Turn {
    /// The thread ends.
    Stop,
    /// The thread rests and goes on.
    Rest,
    /// The thread goes on.
    Go,
}

/// What a read from the wire came to.
#[derive(Clone, Copy, Debug, PartialEq, Eq, Structural)]
pub enum WireRead {
    /// A frame.
    Frame,
    /// Nothing within the time.
    Idle,
    /// The end of the stream, an error, or something that is no frame.
    Broken,
}

/// What follows after the TUN device was drained: `frames` is how many frames there
/// were, `None` where draining failed, and `written` whether all of them could be
/// written. Any failure ends the thread.
pub fn after_poll(frames: Option<usize>, written: bool) -> (r: Turn)
    ensures
        r == (match frames {
            None => Turn::Stop,
            Some(n) => if !written {
                Turn::Stop
            } else if n == 0 {
                Turn::Rest
            } else {
                Turn::Go
            },
        }),
{
    match frames {
        None => Turn::Stop,
        Some(n) => if !written {
            Turn::Stop
        } else if n == 0 {
            Turn::Rest
        } else {
            Turn::Go
        },
    }
}

/// What follows after a read from the wire. A frame that is refused is dropped and
/// the thread goes on; `reached` is whether the pump could be handed the frame at
/// all.
pub fn after_read(read: WireRead, reached: bool) -> (r: Turn)
    ensures
        r == (match read {
            WireRead::Frame => if reached {
                Turn::Go
            } else {
                Turn::Stop
            },
            WireRead::Idle => Turn::Go,
            WireRead::Broken => Turn::Stop,
        }),
{
    match read {
        WireRead::Frame => if reached {
            Turn::Go
        } else {
            Turn::Stop
        },
        WireRead::Idle => Turn::Go,
        WireRead::Broken => Turn::Stop,
    }
}

/// A header is taken from the wire exactly where it can be read and announces 66559 bytes at
/// most; it is then the header that the bytes spell.
pub proof fn wire_headers_are_bounded(bytes: Seq<u8>)
    ensures
        match wire_header(bytes) {
            Ok(h) => header_of(bytes) == Ok::<FrameHeader, crate::frame::FrameFault>(h) && h.length
                <= 66559,
            Err(_) => match header_of(bytes) {
                Ok(h) => h.length > 66559,
                Err(_) => true,
            },
        },
{
}

} // verus!
