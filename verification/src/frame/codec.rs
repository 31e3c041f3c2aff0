//! Frame headers, whole frames on the wire, and replay protection.

use bytes::BytesMut;
use std::collections::HashMap;
use vstd::prelude::*;

use crate::buf::{
    advance, be16, be24, be32, buffered, empty, from_be16, from_be24, from_be32, from_slice,
    get_u16, get_u32, get_u8, most_significant_byte_first, put_bytes, put_slice, put_u16, put_u32,
    put_u8, remaining, split_to, to_vec,
};
use crate::crypto::aead::{
    authentic, chacha20poly1305_seal, cipher_accepts, decrypt, decrypted, encrypt, AeadKey,
    AeadNonce,
};
use crate::crypto::{CryptoFault, AEAD_TAG_LEN, MAX_FRAME_PAYLOAD};
use crate::frame::types::{
    addr_fits, carries, payload_bytes, payload_of, payload_round_trip, FrameModel,
};
use crate::frame::{FrameError, FrameFault, FRAME_HEADER_SIZE};
use crate::protocol::FrameType;

verus! {

/// Header of a frame, sent in the clear.
#[derive(Clone, Copy, Debug, PartialEq, Eq, Structural)]
pub struct FrameHeader {
    /// Payload length with padding and tag; the wire holds its low 24 bits.
    pub length: u32,
    /// Frame type.
    pub frame_type: FrameType,
    /// Flags, reserved.
    pub flags: u8,
    /// Stream id, 0 for control frames.
    pub stream_id: u16,
    /// Sequence number.
    pub sequence: u32,
}

/// The 24 bytes of a header: 11 in use and 13 reserved zeros.
pub open spec fn header_bytes(header: FrameHeader) -> Seq<u8> {
    be24(header.length).push(header.frame_type.spec_code()).push(header.flags) + be16(
        header.stream_id,
    ) + be32(header.sequence) + Seq::new(13, |i: int| 0u8)
}

/// The header that the front of `data` spells, or why it spells none. The
/// reserved bytes are not looked at.
pub open spec fn header_of(data: Seq<u8>) -> Result<FrameHeader, FrameFault> {
    if data.len() < FRAME_HEADER_SIZE {
        Err(
            FrameFault::InsufficientBuffer {
                need: FRAME_HEADER_SIZE as int,
                have: data.len() as int,
            },
        )
    } else {
        match FrameType::spec_from_code(data[3]) {
            None => Err(FrameFault::InvalidFrameType(data[3])),
            Some(frame_type) => Ok(
                FrameHeader {
                    length: from_be24(data),
                    frame_type,
                    flags: data[4],
                    stream_id: from_be16(data.skip(5)),
                    sequence: from_be32(data.skip(7)),
                },
            ),
        }
    }
}

impl FrameHeader {
    /// Appends the 24 bytes of the header to `buf`.
    pub fn encode(&self, buf: &mut BytesMut)
        ensures
            buffered(*final(buf)) == buffered(*old(buf)) + header_bytes(*self),
    {
        let ghost before = buffered(*buf);
        put_u8(buf, (self.length / 0x1_0000 % 0x100) as u8);
        put_u8(buf, (self.length / 0x100 % 0x100) as u8);
        put_u8(buf, (self.length % 0x100) as u8);
        put_u8(buf, self.frame_type.code());
        put_u8(buf, self.flags);
        put_u16(buf, self.stream_id);
        put_u32(buf, self.sequence);
        put_bytes(buf, 0, FRAME_HEADER_SIZE - 11);
        assert(buffered(*buf) =~= before + header_bytes(*self));
    }

    /// Reads a header off the front of `buf`. An unassigned type byte is found
    /// after four bytes were taken.
    pub fn decode(buf: &mut BytesMut) -> (r: Result<Self, FrameError>)
        ensures
            match (r, header_of(buffered(*old(buf)))) {
                (Ok(h), Ok(m)) => h == m && buffered(*final(buf)) == buffered(*old(buf)).skip(24),
                (Err(e), Err(fault)) => e@ == fault && buffered(*final(buf)) == buffered(
                    *old(buf),
                ).skip(
                    if fault is InsufficientBuffer {
                        0
                    } else {
                        4
                    },
                ),
                _ => false,
            },
    {
        let ghost data = buffered(*buf);
        assert(data.skip(0) =~= data);
        let have: usize = remaining(buf);
        if have < FRAME_HEADER_SIZE {
            return Err(FrameError::InsufficientBuffer { need: FRAME_HEADER_SIZE, have });
        }
        let high: u8 = get_u8(buf);
        let middle: u8 = get_u8(buf);
        let low: u8 = get_u8(buf);
        let length: u32 = high as u32 * 0x1_0000 + middle as u32 * 0x100 + low as u32;
        assert(length == from_be24(data));
        let code: u8 = get_u8(buf);
        assert(buffered(*buf) =~= data.skip(4));
        let frame_type = match FrameType::from_code(code) {
            Some(t) => t,
            None => {
                return Err(FrameError::InvalidFrameType(code));
            },
        };
        let flags: u8 = get_u8(buf);
        assert(buffered(*buf) =~= data.skip(5));
        let stream_id: u16 = get_u16(buf);
        assert(buffered(*buf) =~= data.skip(7));
        let sequence: u32 = get_u32(buf);
        advance(buf, FRAME_HEADER_SIZE - 11);
        assert(buffered(*buf) =~= data.skip(24));
        Ok(FrameHeader { length, frame_type, flags, stream_id, sequence })
    }
}

/// A header is read back from its own bytes, whatever follows them, as long as
/// its length fits 24 bits.
pub proof fn header_round_trip(header: FrameHeader, rest: Seq<u8>)
    requires
        header.length < 0x100_0000,
    ensures
        header_bytes(header).len() == FRAME_HEADER_SIZE,
        header_of(header_bytes(header) + rest) == Ok::<FrameHeader, FrameFault>(header),
{
    let data = header_bytes(header) + rest;
    crate::buf::be24_round_trip(header.length);
    crate::buf::be16_round_trip(header.stream_id);
    crate::buf::be32_round_trip(header.sequence);
    crate::protocol::code_points_round_trip(
        header.frame_type,
        crate::protocol::AddrType::Ipv4,
        0,
    );
    assert(data[0] == be24(header.length)[0]);
    assert(data[1] == be24(header.length)[1]);
    assert(data[2] == be24(header.length)[2]);
    let id = data.skip(5);
    assert(id[0] == be16(header.stream_id)[0]);
    assert(id[1] == be16(header.stream_id)[1]);
    let seq = data.skip(7);
    assert(seq[0] == be32(header.sequence)[0]);
    assert(seq[1] == be32(header.sequence)[1]);
    assert(seq[2] == be32(header.sequence)[2]);
    assert(seq[3] == be32(header.sequence)[3]);
}

/// A frame as it stands on the wire: header and encrypted payload.
#[derive(Clone, Debug, PartialEq, Eq)]
pub struct Frame {
    pub header: FrameHeader,
    /// Ciphertext with its tag.
    pub encrypted_payload: Vec<u8>,
}

impl Frame {
    /// A frame of a header and an encrypted payload.
    pub fn new(header: FrameHeader, encrypted_payload: Vec<u8>) -> (r: Self)
        ensures
            r.header == header,
            r.encrypted_payload@ == encrypted_payload@,
    {
        Frame { header, encrypted_payload }
    }

    /// Length of header and payload together.
    pub fn total_size(&self) -> (r: usize)
        requires
            FRAME_HEADER_SIZE + self.encrypted_payload@.len() <= usize::MAX,
        ensures
            r == FRAME_HEADER_SIZE + self.encrypted_payload@.len(),
    {
        FRAME_HEADER_SIZE + self.encrypted_payload.len()
    }

    /// Length of the payload.
    pub fn payload_size(&self) -> (r: usize)
        ensures
            r == self.encrypted_payload@.len(),
    {
        self.encrypted_payload.len()
    }
}

/// The least number of bytes that brings `len` to a multiple of `pad_multiple`;
/// none where the multiple is 0.
pub open spec fn padding(len: nat, pad_multiple: nat) -> nat {
    if pad_multiple == 0 || len % pad_multiple == 0 {
        0
    } else {
        (pad_multiple - len % pad_multiple) as nat
    }
}

/// Padding needed to align `plaintext_len` to `pad_multiple`.
pub fn calculate_padding(plaintext_len: usize, pad_multiple: usize) -> (r: usize)
    ensures
        r == padding(plaintext_len as nat, pad_multiple as nat),
        pad_multiple > 0 ==> r < pad_multiple,
{
    if pad_multiple == 0 {
        return 0;
    }
    let remainder: usize = plaintext_len % pad_multiple;
    if remainder == 0 {
        0
    } else {
        pad_multiple - remainder
    }
}

/// Padding brings a length to a multiple, and is shorter than one multiple.
pub proof fn padding_aligns(len: nat, pad_multiple: nat)
    requires
        pad_multiple > 0,
    ensures
        (len + padding(len, pad_multiple)) % pad_multiple == 0,
        padding(len, pad_multiple) < pad_multiple,
{
    let q = len / pad_multiple;
    let m = len % pad_multiple;
    vstd::arithmetic::div_mod::lemma_fundamental_div_mod(len as int, pad_multiple as int);
    if m == 0 {
        assert(len + padding(len, pad_multiple) == len);
    } else {
        assert(len + padding(len, pad_multiple) == pad_multiple * q + pad_multiple);
        assert(pad_multiple * q + pad_multiple == pad_multiple * (q + 1)) by (nonlinear_arith);
        vstd::arithmetic::div_mod::lemma_mod_multiples_basic((q + 1) as int, pad_multiple as int);
        assert(pad_multiple * (q + 1) == (q + 1) * pad_multiple) by (nonlinear_arith);
    }
}

/// Length of the plaintext that is encrypted for a payload of `len` bytes: a
/// four-byte length, the payload, and padding.
pub open spec fn padded_len(len: nat, pad_multiple: nat) -> nat {
    4 + len + padding(4 + len, pad_multiple)
}

/// Whether the padded length of a payload is a length at all, as far as it is looked
/// at: a payload too long for its length prefix is refused before it is padded.
pub open spec fn pads_within(len: nat, pad_multiple: nat) -> bool {
    len <= u32::MAX ==> padded_len(len, pad_multiple) <= usize::MAX
}

/// The plaintext that is encrypted for a payload.
pub open spec fn padded(payload: Seq<u8>, pad_multiple: nat) -> Seq<u8> {
    be32(payload.len() as u32) + payload + Seq::new(
        padding(4 + payload.len(), pad_multiple),
        |i: int| 0u8,
    )
}

/// The payload inside a decrypted plaintext, or why there is none.
pub open spec fn unpadded(plain: Seq<u8>) -> Result<Seq<u8>, FrameFault> {
    if plain.len() < 4 {
        Err(FrameFault::InvalidPacket("missing length prefix"@))
    } else if plain.len() - 4 < from_be32(plain) {
        Err(FrameFault::InvalidPacket("length prefix exceeds buffer"@))
    } else {
        Ok(plain.subrange(4, 4 + from_be32(plain)))
    }
}

/// Padding is taken off again, whatever the multiple.
pub proof fn unpadded_of_padded(payload: Seq<u8>, pad_multiple: nat)
    requires
        payload.len() <= u32::MAX,
    ensures
        unpadded(padded(payload, pad_multiple)) == Ok::<Seq<u8>, FrameFault>(payload),
        padded(payload, pad_multiple).len() == padded_len(payload.len(), pad_multiple),
{
    let plain = padded(payload, pad_multiple);
    let prefix = be32(payload.len() as u32);
    crate::buf::be32_round_trip(payload.len() as u32);
    assert(plain.take(4) =~= prefix);
    assert(from_be32(plain) == from_be32(prefix)) by {
        assert(plain[0] == plain.take(4)[0] && plain[1] == plain.take(4)[1]);
        assert(plain[2] == plain.take(4)[2] && plain[3] == plain.take(4)[3]);
    }
    assert(plain.subrange(4, (4 + payload.len()) as int) =~= payload);
}

/// The header under which a frame is sent.
pub open spec fn sent_header(frame: FrameModel, length: u32) -> FrameHeader {
    FrameHeader {
        length,
        frame_type: frame.frame_type,
        flags: frame.flags,
        stream_id: frame.stream_id,
        sequence: frame.sequence,
    }
}

/// The bytes that a frame is sent as, or why it cannot be sent: its padded
/// payload is too long, or, with the tag, too long for the 24-bit length.
pub open spec fn encoded_frame(
    frame: FrameModel,
    key: Seq<u8>,
    nonce: Seq<u8>,
    pad_multiple: nat,
) -> Result<Seq<u8>, FrameFault> {
    let payload = payload_bytes(frame.payload);
    let total = padded_len(payload.len(), pad_multiple);
    if payload.len() > u32::MAX {
        Err(FrameFault::InvalidLength(payload.len() as int))
    } else if total > MAX_FRAME_PAYLOAD || total + AEAD_TAG_LEN >= 0x100_0000 {
        Err(FrameFault::InvalidLength(total as int))
    } else {
        Ok(
            header_bytes(sent_header(frame, (total + AEAD_TAG_LEN) as u32))
                + chacha20poly1305_seal(key, nonce, padded(payload, pad_multiple), Seq::empty()),
        )
    }
}

/// The frame that bytes carry, or why they carry none.
pub open spec fn decoded_frame(data: Seq<u8>, key: Seq<u8>, nonce: Seq<u8>) -> Result<
    FrameModel,
    FrameFault,
> {
    match header_of(data) {
        Err(fault) => Err(fault),
        Ok(header) => {
            let rest = data.skip(24);
            if rest.len() < header.length {
                Err(
                    FrameFault::InsufficientBuffer {
                        need: header.length as int,
                        have: rest.len() as int,
                    },
                )
            } else {
                match decrypted(key, nonce, rest.take(header.length as int), Seq::empty()) {
                    Err(fault) => Err(FrameFault::Crypto(fault)),
                    Ok(plain) => match unpadded(plain) {
                        Err(fault) => Err(fault),
                        Ok(payload) => match payload_of(header.frame_type, payload) {
                            Err(fault) => Err(fault),
                            Ok(model) => Ok(
                                FrameModel {
                                    frame_type: header.frame_type,
                                    flags: header.flags,
                                    stream_id: header.stream_id,
                                    sequence: header.sequence,
                                    payload: model,
                                },
                            ),
                        },
                    },
                }
            }
        },
    }
}

/// Whatever the multiple, the padded length of a payload below half of the
/// address space stays within it.
pub proof fn padded_len_fits(len: nat, pad_multiple: usize)
    requires
        2 * (4 + len) <= usize::MAX,
    ensures
        padded_len(len, pad_multiple as nat) <= usize::MAX,
{
    let framed = 4 + len;
    if pad_multiple > framed {
        vstd::arithmetic::div_mod::lemma_small_mod(framed, pad_multiple as nat);
    } else if pad_multiple > 0 {
        padding_aligns(framed, pad_multiple as nat);
    }
}

/// Prefixes a payload with its length and pads it with zeros.
pub(crate) fn pad(payload: &[u8], pad_multiple: usize) -> (r: Vec<u8>)
    requires
        payload@.len() <= u32::MAX,
        padded_len(payload@.len(), pad_multiple as nat) <= isize::MAX,
    ensures
        r@ == padded(payload@, pad_multiple as nat),
{
    let mut buf = empty();
    put_u32(&mut buf, payload.len() as u32);
    put_slice(&mut buf, payload);
    let padding_len: usize = calculate_padding(4 + payload.len(), pad_multiple);
    put_bytes(&mut buf, 0, padding_len);
    let r = to_vec(&buf);
    assert(r@ =~= padded(payload@, pad_multiple as nat));
    r
}

/// Takes the payload out of a decrypted plaintext.
pub(crate) fn unpad(plain: &[u8]) -> (r: Result<Vec<u8>, FrameError>)
    ensures
        match (r, unpadded(plain@)) {
            (Ok(p), Ok(m)) => p@ == m,
            (Err(e), Err(fault)) => e@ == fault,
            _ => false,
        },
{
    let mut buf = from_slice(plain);
    if remaining(&buf) < 4 {
        return Err(FrameError::InvalidPacket("missing length prefix".to_owned()));
    }
    let plain_len: usize = get_u32(&mut buf) as usize;
    if remaining(&buf) < plain_len {
        return Err(FrameError::InvalidPacket("length prefix exceeds buffer".to_owned()));
    }
    let r = split_to(&mut buf, plain_len);
    assert(r@ =~= plain@.subrange(4, 4 + plain_len));
    Ok(r)
}

/// Serialises, pads and encrypts a frame and puts the header in front.
///
/// Frames that are sent this way are decoded to the same frame.
pub fn encode_frame(
    frame: &crate::frame::types::Frame,
    key: &AeadKey,
    nonce: &AeadNonce,
    pad_multiple: usize,
) -> (r: Result<Vec<u8>, FrameError>)
    requires
        pads_within(payload_bytes(frame@.payload).len(), pad_multiple as nat),
    ensures
        match (r, encoded_frame(frame@, key@, nonce@, pad_multiple as nat)) {
            (Ok(data), Ok(m)) => data@ == m,
            (Err(e), Err(fault)) => e@ == fault,
            _ => false,
        },
        r matches Ok(data) ==> {
            &&& carries(frame@.frame_type, frame@.payload)
            &&& addr_fits(frame@.payload)
        } ==> decoded_frame(data@, key@, nonce@) == Ok::<FrameModel, FrameFault>(frame@),
        r matches Ok(data) ==> data@.len() == FRAME_HEADER_SIZE + padded_len(
            payload_bytes(frame@.payload).len(),
            pad_multiple as nat,
        ) + AEAD_TAG_LEN && data@.len() < FRAME_HEADER_SIZE + 0x100_0000,
        r matches Ok(data) ==> decrypted(key@, nonce@, data@.skip(24), Seq::empty()) == Ok::<
            Seq<u8>,
            CryptoFault,
        >(padded(payload_bytes(frame@.payload), pad_multiple as nat)),
{
    let plaintext = frame.serialize_payload();
    if plaintext.len() as u64 > u32::MAX as u64 {
        return Err(FrameError::InvalidLength(plaintext.len()));
    }
    let framed_len: usize = 4 + plaintext.len();
    let total: usize = framed_len + calculate_padding(framed_len, pad_multiple);
    if total > MAX_FRAME_PAYLOAD || total + AEAD_TAG_LEN >= 0x100_0000 {
        return Err(FrameError::InvalidLength(total));
    }
    let plain = pad(plaintext.as_slice(), pad_multiple);
    proof {
        unpadded_of_padded(plaintext@, pad_multiple as nat);
        assert(cipher_accepts(plain@.len()));
    }
    let no_aad: [u8; 0] = [];
    let ciphertext = encrypt(*key, *nonce, plain.as_slice(), no_aad.as_slice());
    assert(no_aad@ =~= Seq::<u8>::empty());
    let header = FrameHeader {
        length: ciphertext.len() as u32,
        frame_type: frame.frame_type,
        flags: frame.flags,
        stream_id: frame.stream_id,
        sequence: frame.sequence,
    };
    let mut buf = empty();
    header.encode(&mut buf);
    put_slice(&mut buf, ciphertext.as_slice());
    let data = to_vec(&buf);
    proof {
        assert(data@ =~= header_bytes(header) + ciphertext@);
        assert(data@.skip(24) =~= ciphertext@);
        if carries(frame@.frame_type, frame@.payload) && addr_fits(frame@.payload) {
            header_round_trip(header, ciphertext@);
            assert(ciphertext@.take(header.length as int) =~= ciphertext@);
            payload_round_trip(frame@.frame_type, frame@.payload);
        }
    }
    Ok(data)
}

/// Reads the header, decrypts, takes the padding off and reads the payload.
pub fn decode_frame(data: &[u8], key: &AeadKey, nonce: &AeadNonce) -> (r: Result<
    crate::frame::types::Frame,
    FrameError,
>)
    ensures
        match (r, decoded_frame(data@, key@, nonce@)) {
            (Ok(f), Ok(m)) => f@ == m,
            (Err(e), Err(fault)) => e@ == fault,
            _ => false,
        },
        r is Ok ==> authentic(
            key@,
            nonce@,
            data@.skip(24).take(header_of(data@)->Ok_0.length as int),
            Seq::empty(),
        ),
{
    let mut buf = from_slice(data);
    let header = match FrameHeader::decode(&mut buf) {
        Ok(h) => h,
        Err(e) => {
            return Err(e);
        },
    };
    let ciphertext_len: usize = header.length as usize;
    let have: usize = remaining(&buf);
    if have < ciphertext_len {
        return Err(FrameError::InsufficientBuffer { need: ciphertext_len, have });
    }
    let ciphertext = split_to(&mut buf, ciphertext_len);
    let no_aad: [u8; 0] = [];
    assert(no_aad@ =~= Seq::<u8>::empty());
    let plain = match decrypt(*key, *nonce, ciphertext.as_slice(), no_aad.as_slice()) {
        Ok(p) => p,
        Err(e) => {
            return Err(FrameError::Crypto(e));
        },
    };
    let payload = match unpad(plain.as_slice()) {
        Ok(p) => p,
        Err(e) => {
            return Err(e);
        },
    };
    crate::frame::types::Frame::deserialize_payload(
        header.frame_type,
        payload.as_slice(),
        header.stream_id,
        header.sequence,
        header.flags,
    )
}

/// What a replay window remembers of one stream.
#[verifier::ext_equal]
pub struct StreamHistory {
    /// Highest sequence number accepted, `None` before the first.
    pub highest: Option<u32>,
    /// Accepted numbers among the 64 up to the highest.
    pub seen: Set<u32>,
}

/// A stream of which nothing was accepted yet.
pub open spec fn fresh_history() -> StreamHistory {
    StreamHistory { highest: None, seen: Set::empty() }
}

/// The history of a stream, fresh where there is none.
pub open spec fn history_of(histories: Map<u16, StreamHistory>, stream_id: u16) -> StreamHistory {
    if histories.contains_key(stream_id) {
        histories[stream_id]
    } else {
        fresh_history()
    }
}

/// Whether a sequence number is new: the first of its stream, above the highest,
/// or below it by less than 64 and less than the window, and not accepted before.
pub open spec fn is_new(history: StreamHistory, window_size: u32, sequence: u32) -> bool {
    match history.highest {
        None => true,
        Some(highest) => {
            ||| sequence > highest
            ||| {
                &&& sequence < highest
                &&& highest - sequence < window_size
                &&& highest - sequence < 64
                &&& !history.seen.contains(sequence)
            }
        },
    }
}

/// The highest number once `sequence` was accepted.
pub open spec fn raised(history: StreamHistory, sequence: u32) -> u32 {
    match history.highest {
        Some(highest) if highest >= sequence => highest,
        _ => sequence,
    }
}

/// The history after a sequence number was accepted.
pub open spec fn accepted(history: StreamHistory, sequence: u32) -> StreamHistory {
    let highest = raised(history, sequence);
    StreamHistory {
        highest: Some(highest),
        seen: history.seen.insert(sequence).filter(|s: u32| highest - s < 64),
    }
}

/// The history after a sequence number was offered.
pub open spec fn after_check(history: StreamHistory, window_size: u32, sequence: u32) -> StreamHistory {
    if is_new(history, window_size, sequence) {
        accepted(history, sequence)
    } else {
        history
    }
}

/// The history after a run of sequence numbers was offered, first to last.
pub open spec fn after_checks(
    history: StreamHistory,
    window_size: u32,
    sequences: Seq<u32>,
) -> StreamHistory
    decreases sequences.len(),
{
    if sequences.len() == 0 {
        history
    } else {
        after_check(
            after_checks(history, window_size, sequences.drop_last()),
            window_size,
            sequences.last(),
        )
    }
}

/// Whether bit `k` of `bitmap` is set.
spec fn bit(bitmap: u64, k: int) -> bool {
    (bitmap >> (k as u64)) & 1 == 1
}

/// Recent sequence numbers of one stream. Bit `k` of the bitmap stands for the
/// number `k` below the highest.
#[derive(Clone, Copy, Debug)]
struct StreamWindow {
    highest: u32,
    bitmap: u64,
}

impl StreamWindow {
    spec fn history(self) -> StreamHistory {
        StreamHistory {
            highest: Some(self.highest),
            seen: Set::new(
                |s: u32|
                    s <= self.highest && self.highest - s < 64 && bit(
                        self.bitmap,
                        self.highest - s,
                    ),
            ),
        }
    }
}

/// Refuses frames whose sequence number was seen before on their stream.
#[derive(Clone, Debug)]
pub struct ReplayWindow {
    streams: HashMap<u16, StreamWindow>,
    window_size: u32,
}

/// Whether `n` is a power of two.
pub open spec fn power_of_two(n: u32) -> bool {
    exists|e: nat| n == #[trigger] vstd::arithmetic::power2::pow2(e)
}

impl ReplayWindow {
    /// What is remembered of each stream that a number was accepted on.
    pub closed spec fn histories(&self) -> Map<u16, StreamHistory> {
        self.streams@.map_values(|w: StreamWindow| w.history())
    }

    /// How far below the highest number a new one may be, at most 64.
    pub closed spec fn spec_window_size(&self) -> u32 {
        self.window_size
    }

    /// An empty window. The size is a power of two.
    pub fn new(window_size: u32) -> (r: Self)
        requires
            power_of_two(window_size),
        ensures
            r.histories() == Map::<u16, StreamHistory>::empty(),
            r.spec_window_size() == window_size,
    {
        broadcast use vstd::std_specs::hash::group_hash_axioms;

        let r = ReplayWindow { streams: HashMap::new(), window_size };
        assert(r.histories() =~= Map::<u16, StreamHistory>::empty());
        r
    }

    /// Accepts a new sequence number of a stream and remembers it.
    pub fn check(&mut self, stream_id: u16, sequence: u32) -> (r: Result<(), FrameError>)
        ensures
            r is Ok <==> is_new(
                history_of(old(self).histories(), stream_id),
                old(self).spec_window_size(),
                sequence,
            ),
            r matches Err(e) ==> e@ == (FrameFault::ReplayDetected { stream_id, seq: sequence }),
            final(self).histories() == old(self).histories().insert(
                stream_id,
                after_check(
                    history_of(old(self).histories(), stream_id),
                    old(self).spec_window_size(),
                    sequence,
                ),
            ),
            final(self).spec_window_size() == old(self).spec_window_size(),
    {
        broadcast use vstd::std_specs::hash::group_hash_axioms;

        let ghost history = history_of(self.histories(), stream_id);
        let (next, fresh) = match self.streams.get(&stream_id) {
            Some(w) => {
                assert(w.history() == history);
                offer(*w, self.window_size, sequence)
            },
            None => {
                let w = StreamWindow { highest: sequence, bitmap: 1 };
                proof {
                    assert forall|s: u32| w.history().seen.contains(s) <==> s == sequence by {
                        assert(forall|k: u64| k < 64 ==> ((1u64 >> k) & 1 == 1 <==> k == 0))
                            by (bit_vector);
                    }
                    assert(w.history() =~= accepted(history, sequence));
                }
                (w, true)
            },
        };
        let ghost before = self.histories();
        self.streams.insert(stream_id, next);
        assert(self.histories() =~= before.insert(
            stream_id,
            after_check(history, self.window_size, sequence),
        ));
        if fresh {
            Ok(())
        } else {
            Err(FrameError::ReplayDetected { stream_id, seq: sequence })
        }
    }

    /// Highest sequence number accepted on a stream, if there is one.
    pub fn highest(&self, stream_id: u16) -> (r: Option<u32>)
        ensures
            r == history_of(self.histories(), stream_id).highest,
    {
        broadcast use vstd::std_specs::hash::group_hash_axioms;

        match self.streams.get(&stream_id) {
            Some(w) => Some(w.highest),
            None => None,
        }
    }

    /// Forgets a stream.
    pub fn reset_stream(&mut self, stream_id: u16)
        ensures
            final(self).histories() == old(self).histories().remove(stream_id),
            final(self).spec_window_size() == old(self).spec_window_size(),
    {
        broadcast use vstd::std_specs::hash::group_hash_axioms;

        let ghost before = self.histories();
        self.streams.remove(&stream_id);
        assert(self.histories() =~= before.remove(stream_id));
    }
}

impl Default for ReplayWindow {
    fn default() -> (r: Self)
        ensures
            r.histories() == Map::<u16, StreamHistory>::empty(),
            r.spec_window_size() == 1024,
    {
        proof {
            vstd::arithmetic::power2::lemma2_to64();
            assert(1024 == vstd::arithmetic::power2::pow2(10));
        }
        ReplayWindow::new(1024)
    }
}

/// One stream's window after a number was offered, and whether it was new.
fn offer(window: StreamWindow, window_size: u32, sequence: u32) -> (r: (StreamWindow, bool))
    ensures
        r.1 == is_new(window.history(), window_size, sequence),
        r.0.history() == after_check(window.history(), window_size, sequence),
{
    let highest: u32 = window.highest;
    let bitmap: u64 = window.bitmap;
    if sequence > highest {
        let advance: u32 = sequence - highest;
        let shifted: u64 = if advance < 64 {
            bitmap << advance
        } else {
            0
        };
        let next = StreamWindow { highest: sequence, bitmap: shifted | 1 };
        proof {
            let seen = next.history().seen;
            let want = accepted(window.history(), sequence).seen;
            assert forall|s: u32| seen.contains(s) <==> want.contains(s) by {
                if s <= sequence && sequence - s < 64 {
                    let k = (sequence - s) as u64;
                    let a = advance as u64;
                    if advance < 64 {
                        assert(((bitmap << advance) | 1) >> k & 1 == 1 <==> (k == 0 || (k >= a && (
                        bitmap >> ((k - a) as u64)) & 1 == 1))) by (bit_vector)
                            requires
                                0 < a < 64,
                                a == advance as u64,
                                k < 64,
                        ;
                    } else {
                        assert((0u64 | 1) >> k & 1 == 1 <==> k == 0) by (bit_vector)
                            requires
                                k < 64,
                        ;
                    }
                }
            }
            assert(next.history() =~= accepted(window.history(), sequence));
        }
        (next, true)
    } else if sequence == highest {
        (window, false)
    } else {
        let diff: u32 = highest - sequence;
        if diff >= window_size || diff >= 64 {
            return (window, false);
        }
        assert(bit(bitmap, diff as int) == ((bitmap >> diff) & 1 == 1));
        if (bitmap >> diff) & 1 == 1 {
            return (window, false);
        }
        let next = StreamWindow { highest, bitmap: bitmap | (1u64 << diff) };
        proof {
            let seen = next.history().seen;
            let want = accepted(window.history(), sequence).seen;
            assert forall|s: u32| seen.contains(s) <==> want.contains(s) by {
                if s <= highest && highest - s < 64 {
                    let k = (highest - s) as u64;
                    assert((bitmap | (1u64 << diff)) >> k & 1 == 1 <==> (k == diff as u64 || (bitmap
                        >> k) & 1 == 1)) by (bit_vector)
                        requires
                            diff < 64,
                            k < 64,
                    ;
                }
            }
            assert(next.history() =~= accepted(window.history(), sequence));
        }
        (next, true)
    }
}

/// A number that was accepted, or has fallen out of the 64 that are remembered.
spec fn spent(history: StreamHistory, sequence: u32) -> bool {
    history.highest matches Some(highest) && sequence <= highest && (highest - sequence >= 64
        || history.seen.contains(sequence))
}

proof fn lemma_spent_stays_spent(
    history: StreamHistory,
    window_size: u32,
    sequence: u32,
    later: Seq<u32>,
)
    requires
        spent(history, sequence),
    ensures
        spent(after_checks(history, window_size, later), sequence),
    decreases later.len(),
{
    if later.len() > 0 {
        lemma_spent_stays_spent(history, window_size, sequence, later.drop_last());
    }
}

/// A sequence number that was accepted on a stream is never accepted on it again,
/// whatever numbers are offered in between.
pub proof fn accepted_number_is_never_new_again(
    history: StreamHistory,
    window_size: u32,
    sequence: u32,
    later: Seq<u32>,
)
    requires
        is_new(history, window_size, sequence),
    ensures
        !is_new(
            after_checks(after_check(history, window_size, sequence), window_size, later),
            window_size,
            sequence,
        ),
{
    lemma_spent_stays_spent(
        after_check(history, window_size, sequence),
        window_size,
        sequence,
        later,
    );
}

/// The first number offered on a stream is always new, 0 included, and becomes the
/// highest.
pub proof fn first_number_is_new(window_size: u32, sequence: u32)
    ensures
        is_new(fresh_history(), window_size, sequence),
        after_check(fresh_history(), window_size, sequence).highest == Some(sequence),
{
}

/// A number above everything seen on its stream is always new, and becomes the highest.
pub proof fn higher_number_is_new(history: StreamHistory, window_size: u32, sequence: u32)
    requires
        history.highest matches Some(highest) ==> sequence > highest,
    ensures
        is_new(history, window_size, sequence),
        after_check(history, window_size, sequence).highest == Some(sequence),
{
}

/// Where the fields of a header stand: three bytes of length, the type, the flags, two bytes
/// of stream id, four of sequence number, and thirteen zeros.
pub proof fn header_layout(header: FrameHeader)
    ensures
        ({
            let b = header_bytes(header);
            &&& b.len() == 24
            &&& b[0] * 0x1_0000 + b[1] * 0x100 + b[2] == header.length % 0x100_0000
            &&& b[3] == header.frame_type.spec_code()
            &&& b[4] == header.flags
            &&& b[5] * 0x100 + b[6] == header.stream_id
            &&& b[7] * 0x100_0000 + b[8] * 0x1_0000 + b[9] * 0x100 + b[10] == header.sequence
            &&& forall|i: int| 11 <= i < 24 ==> #[trigger] b[i] == 0
        }),
{
    most_significant_byte_first(header.stream_id, header.sequence, Seq::empty());
    most_significant_byte_first(0, header.length, Seq::empty());
    let b = header_bytes(header);
    assert(b[0] == be24(header.length)[0] && b[1] == be24(header.length)[1] && b[2] == be24(
        header.length,
    )[2]);
    assert(b[5] == be16(header.stream_id)[0] && b[6] == be16(header.stream_id)[1]);
    assert(b[7] == be32(header.sequence)[0] && b[8] == be32(header.sequence)[1]);
    assert(b[9] == be32(header.sequence)[2] && b[10] == be32(header.sequence)[3]);
}

/// A header is read of every 24 bytes with a known type, each field from its place.
pub proof fn headers_are_read_where_they_stand(data: Seq<u8>)
    ensures
        match header_of(data) {
            Ok(h) => {
                &&& data.len() >= 24
                &&& h.length == data[0] * 0x1_0000 + data[1] * 0x100 + data[2]
                &&& h.frame_type.spec_code() == data[3]
                &&& h.flags == data[4]
                &&& h.stream_id == data[5] * 0x100 + data[6]
                &&& h.sequence == data[7] * 0x100_0000 + data[8] * 0x1_0000 + data[9] * 0x100
                    + data[10]
            },
            Err(_) => data.len() < 24 || data[3] > 8,
        },
{
    crate::protocol::code_points_round_trip(
        FrameType::Data,
        crate::protocol::AddrType::Ipv4,
        data[3],
    );
    if data.len() >= 24 {
        assert(data.skip(5)[0] == data[5] && data.skip(5)[1] == data[6]);
        assert(data.skip(7)[0] == data[7] && data.skip(7)[1] == data[8]);
        assert(data.skip(7)[2] == data[9] && data.skip(7)[3] == data[10]);
    }
}

/// What is encrypted for a payload: its length in four bytes, the payload, and zeros up to a
/// multiple, which is the least that holds both.
pub proof fn padded_layout(payload: Seq<u8>, pad_multiple: nat)
    requires
        payload.len() <= u32::MAX,
    ensures
        ({
            let b = padded(payload, pad_multiple);
            let n = payload.len() as int;
            &&& b.len() >= 4 + n
            &&& b[0] * 0x100_0000 + b[1] * 0x1_0000 + b[2] * 0x100 + b[3] == n
            &&& b.subrange(4, 4 + n) == payload
            &&& forall|i: int| 4 + n <= i < b.len() ==> #[trigger] b[i] == 0
            &&& pad_multiple == 0 ==> b.len() == 4 + n
            &&& pad_multiple > 0 ==> b.len() % pad_multiple == 0 && b.len() < 4 + n + pad_multiple
        }),
{
    most_significant_byte_first(0, payload.len() as u32, Seq::empty());
    let b = padded(payload, pad_multiple);
    let n = payload.len() as int;
    assert(b[0] == be32(n as u32)[0] && b[1] == be32(n as u32)[1]);
    assert(b[2] == be32(n as u32)[2] && b[3] == be32(n as u32)[3]);
    assert(b.subrange(4, 4 + n) =~= payload);
    if pad_multiple > 0 {
        padding_aligns(4 + payload.len(), pad_multiple);
    }
}

/// What is sent of a frame: a header that names its type, flags, stream and number and the
/// length of what follows, and behind it the padded payload, sealed under the key and the
/// nonce. A frame is refused exactly where its payload is too long to be sent padded.
pub proof fn sent_frames_hold_header_and_sealed_payload(
    frame: FrameModel,
    key: Seq<u8>,
    nonce: Seq<u8>,
    pad_multiple: nat,
)
    ensures
        match encoded_frame(frame, key, nonce, pad_multiple) {
            Ok(data) => {
                let payload = payload_bytes(frame.payload);
                &&& payload.len() <= u32::MAX
                &&& data.len() >= 24
                &&& data.skip(24) == chacha20poly1305_seal(
                    key,
                    nonce,
                    padded(payload, pad_multiple),
                    Seq::empty(),
                )
                &&& header_of(data) matches Ok(h) && {
                    &&& h.frame_type == frame.frame_type
                    &&& h.flags == frame.flags
                    &&& h.stream_id == frame.stream_id
                    &&& h.sequence == frame.sequence
                    &&& h.length == padded(payload, pad_multiple).len() + 16
                }
            },
            Err(fault) => {
                let n = payload_bytes(frame.payload).len();
                n > u32::MAX || padded_len(n, pad_multiple) + 16 >= 0x100_0000
            },
        },
{
    let payload = payload_bytes(frame.payload);
    if encoded_frame(frame, key, nonce, pad_multiple) is Ok {
        let data = encoded_frame(frame, key, nonce, pad_multiple)->Ok_0;
        let total = padded_len(payload.len(), pad_multiple);
        unpadded_of_padded(payload, pad_multiple);
        let header = sent_header(frame, (total + AEAD_TAG_LEN) as u32);
        let sealed = chacha20poly1305_seal(
            key,
            nonce,
            padded(payload, pad_multiple),
            Seq::empty(),
        );
        header_round_trip(header, sealed);
        assert(data.skip(24) =~= sealed);
    }
}

/// A frame is read of data exactly where the header can be read, as many bytes as it says
/// follow, they are authentic, and what they hold is a payload of its type. The frame has
/// the type, flags, stream and number of the header.
pub proof fn frames_are_read_under_their_header(data: Seq<u8>, key: Seq<u8>, nonce: Seq<u8>)
    ensures
        match decoded_frame(data, key, nonce) {
            Ok(frame) => {
                &&& header_of(data) matches Ok(h) && {
                    &&& h.frame_type == frame.frame_type
                    &&& h.flags == frame.flags
                    &&& h.stream_id == frame.stream_id
                    &&& h.sequence == frame.sequence
                    &&& data.len() >= 24 + h.length
                    &&& decrypted(
                        key,
                        nonce,
                        data.subrange(24, 24 + h.length),
                        Seq::empty(),
                    ) matches Ok(plain) && {
                        let n = plain[0] * 0x100_0000 + plain[1] * 0x1_0000 + plain[2] * 0x100
                            + plain[3];
                        &&& plain.len() >= 4 + n
                        &&& payload_of(frame.frame_type, plain.subrange(4, 4 + n)) == Ok::<
                            crate::frame::types::PayloadModel,
                            FrameFault,
                        >(frame.payload)
                    }
                }
            },
            Err(_) => true,
        },
{
    if let Ok(frame) = decoded_frame(data, key, nonce) {
        let h = header_of(data)->Ok_0;
        assert(data.skip(24).take(h.length as int) =~= data.subrange(24, 24 + h.length));
    }
}

/// The numbers that a window accepted in a run of offers on a stream.
pub open spec fn accepted_numbers(window_size: u32, sequences: Seq<u32>) -> Set<u32>
    decreases sequences.len(),
{
    if sequences.len() == 0 {
        Set::empty()
    } else {
        let before = accepted_numbers(window_size, sequences.drop_last());
        if is_new(
            after_checks(fresh_history(), window_size, sequences.drop_last()),
            window_size,
            sequences.last(),
        ) {
            before.insert(sequences.last())
        } else {
            before
        }
    }
}

/// Whether a history tells of these numbers: the highest of them, and those of the 64 up to it.
spec fn tells_of(history: StreamHistory, numbers: Set<u32>) -> bool {
    match history.highest {
        None => history.seen == Set::<u32>::empty() && forall|n: u32| !#[trigger]
            numbers.contains(n),
        Some(highest) => {
            &&& numbers.contains(highest)
            &&& forall|n: u32| #[trigger] numbers.contains(n) ==> n <= highest
            &&& forall|n: u32| #[trigger]
                history.seen.contains(n) <==> numbers.contains(n) && highest - n < 64
        },
    }
}

proof fn lemma_accepted_numbers(window_size: u32, sequences: Seq<u32>)
    ensures
        tells_of(
            after_checks(fresh_history(), window_size, sequences),
            accepted_numbers(window_size, sequences),
        ),
    decreases sequences.len(),
{
    if sequences.len() > 0 {
        let fewer = sequences.drop_last();
        let s = sequences.last();
        lemma_accepted_numbers(window_size, fewer);
        let history = after_checks(fresh_history(), window_size, fewer);
        let numbers = accepted_numbers(window_size, fewer);
        if is_new(history, window_size, s) {
            let after = accepted(history, s);
            let highest = after.highest->Some_0;
            assert forall|n: u32| #[trigger]
                after.seen.contains(n) <==> numbers.insert(s).contains(n) && highest - n < 64 by {
                if let Some(old) = history.highest {
                    if n != s && numbers.contains(n) {
                        assert(history.seen.contains(n) <==> old - n < 64);
                    }
                }
                assert(history.seen.contains(n) ==> numbers.contains(n));
            }
        }
    }
}

/// Whatever was offered before, a number is new exactly where it was not accepted on the
/// stream and every accepted number is less than 64 and less than the window above it.
pub proof fn new_numbers_are_those_within_the_window(
    window_size: u32,
    sequences: Seq<u32>,
    sequence: u32,
)
    ensures
        ({
            let numbers = accepted_numbers(window_size, sequences);
            is_new(
                after_checks(fresh_history(), window_size, sequences),
                window_size,
                sequence,
            ) <==> !numbers.contains(sequence) && forall|n: u32| #[trigger]
                numbers.contains(n) ==> n - sequence < 64 && (n > sequence ==> n - sequence
                    < window_size)
        }),
{
    lemma_accepted_numbers(window_size, sequences);
}

} // verus!
