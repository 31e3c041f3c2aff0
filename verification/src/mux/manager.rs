//! The session's streams and flows: opening, closing, sealing and opening frames.
//!
//! Client ids are odd and shared by streams and flows. The nonce of a frame is
//! made of its id, its sequence number and its type, so it is unique under one
//! traffic key.

use std::collections::{HashMap, HashSet};
use vstd::prelude::*;
use vstd::utf8::encode_utf8;

use crate::buf::{be16, be16_round_trip, be32, be32_injective, most_significant_byte_first};
use crate::crypto::aead::{authentic, decrypted, AeadKey, AeadNonce};
use crate::crypto::CryptoFault;
use crate::frame::codec::{
    decode_frame, decoded_frame, encode_frame, encoded_frame, header_bytes, header_round_trip,
    padded, padded_len_fits, pads_within, unpadded_of_padded, FrameHeader,
};
use crate::frame::types::{
    addr_fits, addr_type_of, carries, payload_bytes, payload_round_trip, plain_frame, Frame,
    FrameModel, FramePayload, PayloadModel,
};
use crate::frame::{frame_text, FRAME_HEADER_SIZE};
use crate::mux::flow::{self, UdpFlow};
use crate::mux::stream::{self, TcpStream};
use crate::mux::{MuxError, MuxFault, CLIENT_STREAM_ID_START, STREAM_ID_INCREMENT};
use crate::protocol::FrameType;

verus! {

/// How far below the highest sequence number of an id a frame may still be.
pub const REPLAY_WINDOW: u32 = 1024;

/// A sealed frame, ready for transport.
#[derive(Clone, Debug)]
pub struct SealedFrame {
    /// Header; `length` is the length of the ciphertext.
    pub header: FrameHeader,
    /// Encrypted payload with its tag.
    pub ciphertext: Vec<u8>,
}

/// Mathematical counterpart of [`SealedFrame`].
pub struct SealedModel {
    pub header: FrameHeader,
    pub ciphertext: Seq<u8>,
}

impl View for SealedFrame {
    type V = SealedModel;

    open spec fn view(&self) -> SealedModel {
        SealedModel { header: self.header, ciphertext: self.ciphertext@ }
    }
}

/// Where a stream or flow leads to.
#[derive(Clone, Debug, PartialEq, Eq)]
pub struct Endpoint {
    /// Destination address.
    pub addr: String,
    /// Destination port.
    pub port: u16,
}

struct Entry {
    is_udp: bool,
    addr: String,
    port: u16,
    next_seq: u32,
    max_seen: u32,
    seen: HashSet<u32>,
}

/// What is known of an open id.
#[verifier::ext_equal]
pub struct EntryModel {
    /// A UDP flow, else a TCP stream.
    pub is_udp: bool,
    /// Destination address.
    pub addr: Seq<char>,
    /// Destination port.
    pub port: u16,
    /// Sequence number of the next frame sent.
    pub next_seq: u32,
    /// Highest sequence number received.
    pub max_seen: u32,
    /// Sequence numbers received, as far as they are remembered.
    pub seen: Set<u32>,
}

impl Entry {
    spec fn model(self) -> EntryModel {
        EntryModel {
            is_udp: self.is_udp,
            addr: self.addr@,
            port: self.port,
            next_seq: self.next_seq,
            max_seen: self.max_seen,
            seen: self.seen@,
        }
    }

    /// Only valid targets are booked.
    #[verifier::type_invariant]
    spec fn target_fits(self) -> bool {
        encode_utf8(self.addr@).len() <= 255
    }

    fn new(is_udp: bool, addr: &str, port: u16) -> (r: Entry)
        requires
            encode_utf8(addr@).len() <= 255,
        ensures
            r.model() == fresh_entry(is_udp, addr@, port),
    {
        broadcast use vstd::std_specs::hash::group_hash_axioms;

        let r = Entry {
            is_udp,
            addr: addr.to_owned(),
            port,
            next_seq: 1,
            max_seen: 0,
            seen: HashSet::new(),
        };
        assert(r.model() =~= fresh_entry(is_udp, addr@, port));
        r
    }
}

/// An id that was just opened.
pub open spec fn fresh_entry(is_udp: bool, addr: Seq<char>, port: u16) -> EntryModel {
    EntryModel { is_udp, addr, port, next_seq: 1, max_seen: 0, seen: Set::empty() }
}

/// Owner of the session's streams and flows.
pub struct MuxManager {
    next_id: u16,
    max: usize,
    entries: HashMap<u16, Entry>,
}

/// The client id after `id`: two further, starting over at the first one.
pub open spec fn following_id(id: u16) -> u16 {
    let next = (id + 2) % 0x1_0000;
    if next == 0 {
        CLIENT_STREAM_ID_START
    } else {
        next as u16
    }
}

/// The sequence number after `seq`: one further, starting over at 1.
pub open spec fn following_seq(seq: u32) -> u32 {
    if seq == u32::MAX {
        1
    } else {
        (seq + 1) as u32
    }
}

/// The nonce of a frame: id, sequence number and type, then zeros.
pub open spec fn nonce_bytes(id: u16, seq: u32, frame_type: FrameType) -> Seq<u8> {
    (be16(id) + be32(seq)).push(frame_type.spec_code()) + Seq::new(5, |i: int| 0u8)
}

/// Nonce of a frame.
pub fn build_nonce(id: u16, seq: u32, frame_type: FrameType) -> (r: AeadNonce)
    ensures
        r@ == nonce_bytes(id, seq, frame_type),
{
    let r = [
        (id / 0x100) as u8,
        (id % 0x100) as u8,
        (seq / 0x100_0000) as u8,
        (seq / 0x1_0000 % 0x100) as u8,
        (seq / 0x100 % 0x100) as u8,
        (seq % 0x100) as u8,
        frame_type.code(),
        0,
        0,
        0,
        0,
        0,
    ];
    assert(r@ =~= nonce_bytes(id, seq, frame_type));
    r
}

/// Two frames have the same nonce only when id, sequence number and type agree.
pub proof fn nonces_are_unique(
    id1: u16,
    seq1: u32,
    type1: FrameType,
    id2: u16,
    seq2: u32,
    type2: FrameType,
)
    requires
        nonce_bytes(id1, seq1, type1) == nonce_bytes(id2, seq2, type2),
    ensures
        id1 == id2,
        seq1 == seq2,
        type1 == type2,
{
    let a = nonce_bytes(id1, seq1, type1);
    let b = nonce_bytes(id2, seq2, type2);
    be16_round_trip(id1);
    be16_round_trip(id2);
    assert(a.subrange(0, 2) =~= be16(id1));
    assert(b.subrange(0, 2) =~= be16(id2));
    assert(a.subrange(2, 6) =~= be32(seq1));
    assert(b.subrange(2, 6) =~= be32(seq2));
    be32_injective(seq1, seq2);
    assert(a[6] == type1.spec_code());
    assert(b[6] == type2.spec_code());
}

/// The sequence number of the frame that is sealed after `n` others, counted
/// from `start`.
pub open spec fn seq_after(start: u32, n: nat) -> u32
    decreases n,
{
    if n == 0 {
        start
    } else {
        following_seq(seq_after(start, (n - 1) as nat))
    }
}

proof fn lemma_seq_after(start: u32, n: nat)
    requires
        start >= 1,
    ensures
        seq_after(start, n) == 1 + (start - 1 + n) % 0xffff_ffff,
    decreases n,
{
    if n > 0 {
        lemma_seq_after(start, (n - 1) as nat);
        let x = start - 1 + n - 1;
        let y = x % 0xffff_ffff;
        assert((x + 1) % 0xffff_ffff == (if y == 0xffff_fffe {
            0int
        } else {
            y + 1
        }));
    }
}

/// The frames of one id carry different sequence numbers, up to 2^32 - 1 of them.
pub proof fn sequence_numbers_are_distinct(start: u32, i: nat, j: nat)
    requires
        start >= 1,
        i < j < i + 0xffff_ffff,
    ensures
        seq_after(start, i) != seq_after(start, j),
        seq_after(start, i) != 0,
{
    lemma_seq_after(start, i);
    lemma_seq_after(start, j);
    let a = start - 1 + i;
    let b = start - 1 + j;
    if a % 0xffff_ffff == b % 0xffff_ffff {
        assert(0 < b - a < 0xffff_ffff);
        assert(b / 0xffff_ffff >= a / 0xffff_ffff);
    }
}

/// Client ids stay odd.
pub proof fn client_ids_stay_odd(id: u16)
    requires
        id % 2 == 1,
    ensures
        following_id(id) % 2 == 1,
{
}

/// The key, or why it is none.
pub open spec fn key_fault(key: Seq<u8>) -> Option<MuxFault> {
    if key.len() != 32 {
        Some(MuxFault::Internal("bad key length"@))
    } else {
        None
    }
}

/// A key of 32 bytes as an array.
pub fn to_key(key: &[u8]) -> (r: Result<AeadKey, MuxError>)
    ensures
        match (r, key_fault(key@)) {
            (Ok(k), None) => k@ == key@,
            (Err(e), Some(fault)) => e@ == fault,
            _ => false,
        },
{
    if key.len() != 32 {
        return Err(MuxError::Internal("bad key length".to_owned()));
    }
    let k = crate::frame::types::array32(key);
    assert(k@ =~= key@);
    Ok(k)
}

/// The frame that a plain frame is sealed to, or why it cannot be sealed.
///
/// The header names the id, the sequence number and the type that the nonce is
/// made of, and the true length of the ciphertext.
pub open spec fn sealed(
    key: Seq<u8>,
    id: u16,
    seq: u32,
    frame: FrameModel,
    pad_multiple: nat,
) -> Result<SealedModel, MuxFault> {
    match key_fault(key) {
        Some(fault) => Err(fault),
        None => match encoded_frame(
            frame,
            key,
            nonce_bytes(id, seq, frame.frame_type),
            pad_multiple,
        ) {
            Err(fault) => Err(MuxFault::Internal(frame_text(fault))),
            Ok(wire) => Ok(
                SealedModel {
                    header: FrameHeader {
                        length: (wire.len() - 24) as u32,
                        frame_type: frame.frame_type,
                        flags: 0,
                        stream_id: id,
                        sequence: seq,
                    },
                    ciphertext: wire.skip(24),
                },
            ),
        },
    }
}

/// The payload of a received frame, or why there is none.
pub open spec fn unsealed(key: Seq<u8>, frame: SealedModel) -> Result<PayloadModel, MuxFault> {
    match key_fault(key) {
        Some(fault) => Err(fault),
        None => match decoded_frame(
            header_bytes(frame.header) + frame.ciphertext,
            key,
            nonce_bytes(frame.header.stream_id, frame.header.sequence, frame.header.frame_type),
        ) {
            Err(fault) => Err(MuxFault::Internal(frame_text(fault))),
            Ok(model) => Ok(model.payload),
        },
    }
}

/// Whether a sealed frame opens to `payload` under `key`.
pub open spec fn opens_to(key: Seq<u8>, frame: SealedModel, payload: PayloadModel) -> bool {
    &&& frame.header.length == frame.ciphertext.len()
    &&& unsealed(key, frame) == Ok::<PayloadModel, MuxFault>(payload)
}

/// Whether the ciphertext of a frame is what its plaintext is sealed to under the
/// nonce of the frame. A ciphertext too long for the 24-bit length of a header is
/// read up to the length that the header can hold, and is left open here.
pub open spec fn genuine(key: Seq<u8>, frame: SealedModel) -> bool {
    frame.header.length == frame.ciphertext.len() < 0x100_0000 ==> authentic(
        key,
        nonce_bytes(frame.header.stream_id, frame.header.sequence, frame.header.frame_type),
        frame.ciphertext,
        Seq::empty(),
    )
}

fn seal_frame(key: &[u8], id: u16, seq: u32, frame: &Frame, pad_multiple: usize) -> (r: Result<
    SealedFrame,
    MuxError,
>)
    requires
        carries(frame@.frame_type, frame@.payload),
        addr_fits(frame@.payload),
        pads_within(payload_bytes(frame@.payload).len(), pad_multiple as nat),
    ensures
        match (r, sealed(key@, id, seq, frame@, pad_multiple as nat)) {
            (Ok(f), Ok(m)) => f@ == m,
            (Err(e), Err(fault)) => e@ == fault,
            _ => false,
        },
        r matches Ok(f) ==> opens_to(key@, f@, frame@.payload),
{
    let k = match to_key(key) {
        Ok(k) => k,
        Err(e) => {
            return Err(e);
        },
    };
    let nonce = build_nonce(id, seq, frame.frame_type);
    let wire = match encode_frame(frame, &k, &nonce, pad_multiple) {
        Ok(w) => w,
        Err(e) => {
            return Err(MuxError::Internal(e.message()));
        },
    };
    proof {
        unpadded_of_padded(payload_bytes(frame@.payload), pad_multiple as nat);
    }
    assert(wire@.len() >= 24);
    let header = FrameHeader {
        length: (wire.len() - FRAME_HEADER_SIZE) as u32,
        frame_type: frame.frame_type,
        flags: 0,
        stream_id: id,
        sequence: seq,
    };
    let ciphertext = vstd::slice::slice_to_vec(
        &wire.as_slice()[FRAME_HEADER_SIZE..wire.len()],
    );
    assert(ciphertext@ =~= wire@.skip(24));
    let r = SealedFrame { header, ciphertext };
    proof {
        lemma_reopens(key@, r@, frame@.payload, pad_multiple as nat);
    }
    Ok(r)
}

/// A ciphertext that decrypts to a padded payload opens to that payload.
proof fn lemma_reopens(key: Seq<u8>, frame: SealedModel, payload: PayloadModel, pad_multiple: nat)
    requires
        key.len() == 32,
        carries(frame.header.frame_type, payload),
        addr_fits(payload),
        payload_bytes(payload).len() <= u32::MAX,
        frame.header.length == frame.ciphertext.len(),
        frame.ciphertext.len() < 0x100_0000,
        decrypted(
            key,
            nonce_bytes(frame.header.stream_id, frame.header.sequence, frame.header.frame_type),
            frame.ciphertext,
            Seq::empty(),
        ) == Ok::<Seq<u8>, CryptoFault>(padded(payload_bytes(payload), pad_multiple)),
    ensures
        unsealed(key, frame) == Ok::<PayloadModel, MuxFault>(payload),
{
    header_round_trip(frame.header, frame.ciphertext);
    let data = header_bytes(frame.header) + frame.ciphertext;
    assert(data.skip(24) =~= frame.ciphertext);
    assert(frame.ciphertext.take(frame.header.length as int) =~= frame.ciphertext);
    unpadded_of_padded(payload_bytes(payload), pad_multiple);
    payload_round_trip(frame.header.frame_type, payload);
}

fn unseal_frame(key: &[u8], header: &FrameHeader, ciphertext: &[u8]) -> (r: Result<
    FramePayload,
    MuxError,
>)
    ensures
        match (r, unsealed(key@, SealedModel { header: *header, ciphertext: ciphertext@ })) {
            (Ok(p), Ok(m)) => p@ == m,
            (Err(e), Err(fault)) => e@ == fault,
            _ => false,
        },
        r is Ok ==> genuine(key@, (SealedModel { header: *header, ciphertext: ciphertext@ })),
{
    let k = match to_key(key) {
        Ok(k) => k,
        Err(e) => {
            return Err(e);
        },
    };
    let nonce = build_nonce(header.stream_id, header.sequence, header.frame_type);
    let mut buf = crate::buf::empty();
    header.encode(&mut buf);
    crate::buf::put_slice(&mut buf, ciphertext);
    let wire = crate::buf::to_vec(&buf);
    assert(wire@ =~= header_bytes(*header) + ciphertext@);
    proof {
        if header.length == ciphertext@.len() < 0x100_0000 {
            header_round_trip(*header, ciphertext@);
            assert(wire@.skip(24).take(header.length as int) =~= ciphertext@);
        }
    }
    match decode_frame(wire.as_slice(), &k, &nonce) {
        Ok(frame) => Ok(frame.payload),
        Err(e) => Err(MuxError::Internal(e.message())),
    }
}

/// Whether a received sequence number is taken for stale or replayed, and in
/// which words.
pub open spec fn replay_fault(entry: EntryModel, seq: u32) -> Option<MuxFault> {
    if seq == 0 {
        Some(MuxFault::Internal("stale seq"@))
    } else if entry.seen.contains(seq) {
        Some(MuxFault::Internal("replay seq"@))
    } else if seq <= entry.max_seen && entry.max_seen - seq >= REPLAY_WINDOW {
        Some(MuxFault::Internal("stale seq"@))
    } else {
        None
    }
}

/// An id after a frame with this sequence number was received. Numbers that the
/// window has left behind are forgotten when too many are remembered.
pub open spec fn after_receipt(entry: EntryModel, seq: u32) -> EntryModel {
    let max_seen = if seq > entry.max_seen {
        seq
    } else {
        entry.max_seen
    };
    let seen = entry.seen.insert(seq);
    EntryModel {
        max_seen,
        seen: if seen.len() > 2 * REPLAY_WINDOW {
            seen.filter(|s: u32| s >= max_seen - REPLAY_WINDOW)
        } else {
            seen
        },
        ..entry
    }
}

/// Bytes carried by a DATA or datagram payload of the expected type.
pub open spec fn carried_bytes(payload: PayloadModel, expect: FrameType) -> Result<
    Seq<u8>,
    MuxFault,
> {
    match (payload, expect) {
        (PayloadModel::Data(v), FrameType::Data) => Ok(v),
        (PayloadModel::UdpDatagram(v), FrameType::UdpDatagram) => Ok(v),
        _ => Err(MuxFault::Internal("wrong payload"@)),
    }
}

/// What receiving a frame gives, given the ids that are open.
pub open spec fn received(
    entries: Map<u16, EntryModel>,
    key: Seq<u8>,
    frame: SealedModel,
    expect: FrameType,
) -> Result<Seq<u8>, MuxFault> {
    let id = frame.header.stream_id;
    if frame.header.frame_type != expect {
        Err(MuxFault::Internal("wrong frame type"@))
    } else if frame.header.length != frame.ciphertext.len() {
        Err(MuxFault::Internal("length mismatch"@))
    } else if !entries.contains_key(id) || entries[id].is_udp != (expect
        == FrameType::UdpDatagram) {
        Err(MuxFault::StreamClosed(id))
    } else {
        match replay_fault(entries[id], frame.header.sequence) {
            Some(fault) => Err(fault),
            None => match unsealed(key, frame) {
                Err(fault) => Err(fault),
                Ok(payload) => carried_bytes(payload, expect),
            },
        }
    }
}

/// The open ids after a frame was received.
pub open spec fn entries_after(
    entries: Map<u16, EntryModel>,
    key: Seq<u8>,
    frame: SealedModel,
    expect: FrameType,
) -> Map<u16, EntryModel> {
    let id = frame.header.stream_id;
    match received(entries, key, frame, expect) {
        Ok(_) => entries.insert(id, after_receipt(entries[id], frame.header.sequence)),
        Err(_) => entries,
    }
}

/// The target that an OPEN frame names, or why it names none.
pub open spec fn announced(key: Seq<u8>, frame: SealedModel, expect: FrameType) -> Result<
    (Seq<char>, u16),
    MuxFault,
> {
    if frame.header.frame_type != expect {
        Err(MuxFault::Internal("wrong frame type"@))
    } else if frame.header.length != frame.ciphertext.len() {
        Err(MuxFault::Internal("length mismatch"@))
    } else if frame.header.sequence != 0 {
        Err(MuxFault::Internal("wrong open seq"@))
    } else {
        match unsealed(key, frame) {
            Err(fault) => Err(fault),
            Ok(payload) => match (payload, expect) {
                (PayloadModel::OpenTcp { addr, port, .. }, FrameType::OpenTcp) => {
                    match stream::target_fault(addr, port) {
                        Some(e) => Err(MuxFault::Internal(e.spec_message())),
                        None => Ok((addr, port)),
                    }
                },
                (PayloadModel::OpenUdp { addr, port, .. }, FrameType::OpenUdp) => {
                    match flow::target_fault(addr, port) {
                        Some(e) => Err(MuxFault::Internal(e.spec_message())),
                        None => Ok((addr, port)),
                    }
                },
                _ => Err(MuxFault::Internal("wrong payload"@)),
            },
        }
    }
}

/// The OPEN frame of a target.
pub open spec fn open_frame(is_udp: bool, id: u16, addr: Seq<char>, port: u16) -> FrameModel {
    if is_udp {
        plain_frame(
            FrameType::OpenUdp,
            id,
            0,
            PayloadModel::OpenUdp { addr_type: addr_type_of(addr), addr, port },
        )
    } else {
        plain_frame(
            FrameType::OpenTcp,
            id,
            0,
            PayloadModel::OpenTcp { addr_type: addr_type_of(addr), addr, port },
        )
    }
}

/// Why a target cannot be dialled, if it cannot, in words.
pub open spec fn target_fault(is_udp: bool, addr: Seq<char>, port: u16) -> Option<Seq<char>> {
    if is_udp {
        match flow::target_fault(addr, port) {
            Some(fault) => Some(fault.spec_message()),
            None => None,
        }
    } else {
        match stream::target_fault(addr, port) {
            Some(fault) => Some(fault.spec_message()),
            None => None,
        }
    }
}

/// The frame that carries bytes of a stream or flow, before it is sealed.
pub open spec fn data_frame(is_udp: bool, id: u16, seq: u32, bytes: Seq<u8>) -> FrameModel {
    if is_udp {
        plain_frame(FrameType::UdpDatagram, id, 0, PayloadModel::UdpDatagram(bytes))
    } else {
        plain_frame(FrameType::Data, id, seq, PayloadModel::Data(bytes))
    }
}

/// What a result of the manager holds.
pub open spec fn told<T>(r: Result<T, MuxError>) -> Result<T, MuxFault> {
    match r {
        Ok(v) => Ok(v),
        Err(e) => Err(e@),
    }
}

/// What an outcome of sealing holds.
pub open spec fn told_frame(r: Result<SealedFrame, MuxError>) -> Result<SealedModel, MuxFault> {
    match r {
        Ok(f) => Ok(f@),
        Err(e) => Err(e@),
    }
}

/// What an outcome of receiving holds.
pub open spec fn told_bytes(r: Result<Vec<u8>, MuxError>) -> Result<Seq<u8>, MuxFault> {
    match r {
        Ok(v) => Ok(v@),
        Err(e) => Err(e@),
    }
}

impl MuxManager {
    /// The open ids.
    pub closed spec fn entries(&self) -> Map<u16, EntryModel> {
        self.entries@.map_values(|e: Entry| e.model())
    }

    /// The id that is handed out next.
    pub closed spec fn spec_next_id(&self) -> u16 {
        self.next_id
    }

    /// How many ids may be open at once.
    pub closed spec fn spec_max(&self) -> nat {
        self.max as nat
    }

    /// Whether both managers hand out the same ids and have the same room.
    pub open spec fn same_allocation(&self, other: MuxManager) -> bool {
        self.spec_next_id() == other.spec_next_id() && self.spec_max() == other.spec_max()
    }

    /// Whether an id is open as a flow or as a stream.
    pub open spec fn serves(&self, id: u16, is_udp: bool) -> bool {
        self.entries().contains_key(id) && self.entries()[id].is_udp == is_udp
    }

    /// Whether this manager comes to be `after` when a stream or flow is opened with
    /// outcome `r`.
    pub open spec fn opened(
        self,
        after: Self,
        is_udp: bool,
        addr: Seq<char>,
        port: u16,
        r: Result<u16, MuxFault>,
    ) -> bool {
        &&& after.spec_max() == self.spec_max()
        &&& match r {
            Ok(id) => {
                &&& target_fault(is_udp, addr, port) is None
                &&& self.entries().len() < self.spec_max()
                &&& id == self.spec_next_id()
                &&& after.spec_next_id() == following_id(id)
                &&& after.entries() == self.entries().insert(id, fresh_entry(is_udp, addr, port))
            },
            Err(fault) => {
                &&& after.entries() == self.entries()
                &&& after.spec_next_id() == self.spec_next_id()
                &&& match target_fault(is_udp, addr, port) {
                    Some(why) => fault == MuxFault::Internal(why),
                    None => self.entries().len() >= self.spec_max() && fault
                        == MuxFault::Internal("too many streams"@),
                }
            },
        }
    }

    /// Whether this manager comes to be `after` when an id that the peer announced is
    /// booked with outcome `r`.
    pub open spec fn registered(
        self,
        after: Self,
        id: u16,
        addr: Seq<char>,
        port: u16,
        is_udp: bool,
        r: Result<(), MuxFault>,
    ) -> bool {
        &&& after.same_allocation(self)
        &&& if self.entries().contains_key(id) {
            r is Ok && after.entries() == self.entries()
        } else if self.entries().len() >= self.spec_max() {
            r == Err::<(), _>(MuxFault::Internal("too many streams"@)) && after.entries()
                == self.entries()
        } else {
            match target_fault(is_udp, addr, port) {
                Some(why) => r == Err::<(), _>(MuxFault::Internal(why)) && after.entries()
                    == self.entries(),
                None => r is Ok && after.entries() == self.entries().insert(
                    id,
                    fresh_entry(is_udp, addr, port),
                ),
            }
        }
    }

    /// Whether this manager comes to be `after` when an id is closed with outcome `r`.
    pub open spec fn closed(self, after: Self, id: u16, r: Result<(), MuxFault>) -> bool {
        &&& after.same_allocation(self)
        &&& if self.entries().contains_key(id) {
            r is Ok && after.entries() == self.entries().remove(id)
        } else {
            r == Err::<(), _>(MuxFault::StreamNotFound(id)) && after.entries() == self.entries()
        }
    }

    /// Whether this manager comes to be `after` when bytes are sealed for a stream or
    /// flow with outcome `r`.
    pub open spec fn sealed_for(
        self,
        after: Self,
        key: Seq<u8>,
        is_udp: bool,
        id: u16,
        bytes: Seq<u8>,
        pad_multiple: nat,
        r: Result<SealedModel, MuxFault>,
    ) -> bool {
        &&& after.same_allocation(self)
        &&& if self.serves(id, is_udp) {
            let entry = self.entries()[id];
            let frame = data_frame(is_udp, id, entry.next_seq, bytes);
            &&& after.entries() == self.entries().insert(
                id,
                EntryModel { next_seq: following_seq(entry.next_seq), ..entry },
            )
            &&& r == sealed(key, id, entry.next_seq, frame, pad_multiple)
            &&& r matches Ok(f) ==> opens_to(key, f, frame.payload)
        } else {
            &&& after.entries() == self.entries()
            &&& r == Err::<SealedModel, _>(
                if is_udp {
                    MuxFault::FlowClosed(id)
                } else {
                    MuxFault::StreamClosed(id)
                },
            )
        }
    }

    /// Whether this manager comes to be `after` when a frame of the expected type is
    /// received with outcome `r`.
    pub open spec fn received_as(
        self,
        after: Self,
        key: Seq<u8>,
        frame: SealedModel,
        expect: FrameType,
        r: Result<Seq<u8>, MuxFault>,
    ) -> bool {
        &&& after.same_allocation(self)
        &&& after.entries() == entries_after(self.entries(), key, frame, expect)
        &&& r == received(self.entries(), key, frame, expect)
        &&& r is Ok ==> genuine(key, frame)
    }

    /// Room for 4096 streams and flows.
    pub fn new() -> (r: Self)
        ensures
            r.entries() == Map::<u16, EntryModel>::empty(),
            r.spec_next_id() == 1,
            r.spec_max() == 4096,
    {
        MuxManager::with_max(4096)
    }

    /// Room for `max` streams and flows.
    pub fn with_max(max: usize) -> (r: Self)
        ensures
            r.entries() == Map::<u16, EntryModel>::empty(),
            r.spec_next_id() == 1,
            r.spec_max() == max,
    {
        broadcast use vstd::std_specs::hash::group_hash_axioms;

        let r = MuxManager { next_id: CLIENT_STREAM_ID_START, max, entries: HashMap::new() };
        assert(r.entries() =~= Map::<u16, EntryModel>::empty());
        r
    }

    /// Hands out the next id, as long as there is room.
    fn alloc_id(&mut self) -> (r: Result<u16, MuxError>)
        ensures
            final(self).entries() == old(self).entries(),
            final(self).spec_max() == old(self).spec_max(),
            r is Ok <==> old(self).entries().len() < old(self).spec_max(),
            match r {
                Ok(id) => id == old(self).spec_next_id() && final(self).spec_next_id()
                    == following_id(id),
                Err(e) => e@ == MuxFault::Internal("too many streams"@)
                    && final(self).spec_next_id() == old(self).spec_next_id(),
            },
    {
        broadcast use vstd::std_specs::hash::group_hash_axioms;

        assert(self.entries@.dom() =~= self.entries().dom());
        if self.entries.len() >= self.max {
            return Err(MuxError::Internal("too many streams".to_owned()));
        }
        let id: u16 = self.next_id;
        let next: u16 = id.wrapping_add(STREAM_ID_INCREMENT);
        self.next_id = if next == 0 {
            CLIENT_STREAM_ID_START
        } else {
            next
        };
        Ok(id)
    }

    fn book(&mut self, id: u16, is_udp: bool, addr: &str, port: u16)
        requires
            encode_utf8(addr@).len() <= 255,
        ensures
            final(self).entries() == old(self).entries().insert(
                id,
                fresh_entry(is_udp, addr@, port),
            ),
            final(self).same_allocation(*old(self)),
    {
        broadcast use vstd::std_specs::hash::group_hash_axioms;

        let ghost before = self.entries();
        self.entries.insert(id, Entry::new(is_udp, addr, port));
        assert(self.entries() =~= before.insert(id, fresh_entry(is_udp, addr@, port)));
    }

    /// Opens a TCP stream and returns its id.
    pub fn open_tcp(&mut self, addr: &str, port: u16) -> (r: Result<u16, MuxError>)
        ensures
            old(self).opened(*final(self), false, addr@, port, told(r)),
    {
        match stream::validate_target(addr, port) {
            Ok(_) => {},
            Err(e) => {
                return Err(MuxError::Internal(e.message()));
            },
        }
        match self.alloc_id() {
            Ok(id) => {
                self.book(id, false, addr, port);
                Ok(id)
            },
            Err(e) => Err(e),
        }
    }

    /// Opens a UDP flow and returns its id.
    pub fn open_udp(&mut self, addr: &str, port: u16) -> (r: Result<u16, MuxError>)
        ensures
            old(self).opened(*final(self), true, addr@, port, told(r)),
    {
        match flow::validate_target(addr, port) {
            Ok(_) => {},
            Err(e) => {
                return Err(MuxError::Internal(e.message()));
            },
        }
        match self.alloc_id() {
            Ok(id) => {
                self.book(id, true, addr, port);
                Ok(id)
            },
            Err(e) => Err(e),
        }
    }

    /// Whether an id is open.
    pub fn is_open(&self, id: u16) -> (r: bool)
        ensures
            r == self.entries().contains_key(id),
    {
        broadcast use vstd::std_specs::hash::group_hash_axioms;

        self.entries.contains_key(&id)
    }

    /// Books an id that the peer announced. Booking an open id changes nothing.
    pub fn register_inbound(&mut self, id: u16, addr: &str, port: u16, is_udp: bool) -> (r: Result<
        (),
        MuxError,
    >)
        ensures
            old(self).registered(*final(self), id, addr@, port, is_udp, told(r)),
    {
        broadcast use vstd::std_specs::hash::group_hash_axioms;

        if self.entries.contains_key(&id) {
            return Ok(());
        }
        assert(self.entries@.dom() =~= self.entries().dom());
        if self.entries.len() >= self.max {
            return Err(MuxError::Internal("too many streams".to_owned()));
        }
        if is_udp {
            if let Err(e) = flow::validate_target(addr, port) {
                return Err(MuxError::Internal(e.message()));
            }
        } else {
            if let Err(e) = stream::validate_target(addr, port) {
                return Err(MuxError::Internal(e.message()));
            }
        }
        self.book(id, is_udp, addr, port);
        Ok(())
    }

    /// Where an open id leads to.
    pub fn target(&self, id: u16) -> (r: Option<Endpoint>)
        ensures
            r is Some <==> self.entries().contains_key(id),
            match r {
                Some(t) => self.entries().contains_key(id) && t.addr@ == self.entries()[id].addr
                    && t.port == self.entries()[id].port,
                None => !self.entries().contains_key(id),
            },
    {
        broadcast use vstd::std_specs::hash::group_hash_axioms;

        match self.entries.get(&id) {
            Some(e) => Some(Endpoint { addr: e.addr.clone(), port: e.port }),
            None => None,
        }
    }

    /// Closes an id; nothing can be sealed or received for it any more.
    pub fn close(&mut self, id: u16) -> (r: Result<(), MuxError>)
        ensures
            old(self).closed(*final(self), id, told(r)),
    {
        broadcast use vstd::std_specs::hash::group_hash_axioms;

        let ghost before = self.entries();
        let gone = self.entries.remove(&id);
        assert(self.entries() =~= before.remove(id));
        assert(!before.contains_key(id) ==> before.remove(id) =~= before);
        match gone {
            Some(_) => Ok(()),
            None => Err(MuxError::StreamNotFound(id)),
        }
    }

    /// Takes the next sequence number of an open id of the given kind.
    fn take_seq(&mut self, id: u16, is_udp: bool) -> (r: Option<u32>)
        ensures
            final(self).same_allocation(*old(self)),
            match r {
                Some(seq) => {
                    &&& old(self).entries().contains_key(id)
                    &&& old(self).entries()[id].is_udp == is_udp
                    &&& seq == old(self).entries()[id].next_seq
                    &&& final(self).entries() == old(self).entries().insert(
                        id,
                        (EntryModel { next_seq: following_seq(seq), ..old(self).entries()[id] }),
                    )
                },
                None => {
                    &&& final(self).entries() == old(self).entries()
                    &&& !(old(self).entries().contains_key(id) && old(self).entries()[id].is_udp
                        == is_udp)
                },
            },
    {
        broadcast use vstd::std_specs::hash::group_hash_axioms;

        let ghost before = self.entries();
        match self.entries.remove(&id) {
            Some(mut entry) => {
                let ghost model = entry.model();
                assert(before[id] == model);
                if entry.is_udp != is_udp {
                    self.entries.insert(id, entry);
                    assert(self.entries() =~= before);
                    return None;
                }
                proof {
                    use_type_invariant(&entry);
                }
                let seq: u32 = entry.next_seq;
                entry.next_seq = if seq == u32::MAX {
                    1
                } else {
                    seq + 1
                };
                assert(entry.model() =~= (EntryModel { next_seq: following_seq(seq), ..model }));
                self.entries.insert(id, entry);
                assert(self.entries() =~= before.insert(
                    id,
                    EntryModel { next_seq: following_seq(seq), ..model },
                ));
                Some(seq)
            },
            None => {
                assert(self.entries() =~= before);
                None
            },
        }
    }

    /// Seals application bytes for a TCP stream. The sequence number is used up
    /// even where sealing fails.
    pub fn seal_data(&mut self, key: &[u8], id: u16, plaintext: &[u8], pad_multiple: usize) -> (r:
        Result<SealedFrame, MuxError>)
        requires
            old(self).serves(id, false) ==> pads_within(plaintext@.len(), pad_multiple as nat),
        ensures
            old(self).sealed_for(
                *final(self),
                key@,
                false,
                id,
                plaintext@,
                pad_multiple as nat,
                told_frame(r),
            ),
    {
        match self.take_seq(id, false) {
            Some(seq) => {
                let frame = Frame::data(id, seq, vstd::slice::slice_to_vec(plaintext));
                seal_frame(key, id, seq, &frame, pad_multiple)
            },
            None => Err(MuxError::StreamClosed(id)),
        }
    }

    /// Seals one datagram for a UDP flow. The sequence number is used up even
    /// where sealing fails.
    pub fn seal_datagram(&mut self, key: &[u8], id: u16, payload: &[u8], pad_multiple: usize) -> (r:
        Result<SealedFrame, MuxError>)
        requires
            old(self).serves(id, true) ==> pads_within(payload@.len(), pad_multiple as nat),
        ensures
            old(self).sealed_for(
                *final(self),
                key@,
                true,
                id,
                payload@,
                pad_multiple as nat,
                told_frame(r),
            ),
    {
        match self.take_seq(id, true) {
            Some(seq) => {
                let frame = Frame::udp_datagram(id, vstd::slice::slice_to_vec(payload));
                seal_frame(key, id, seq, &frame, pad_multiple)
            },
            None => Err(MuxError::FlowClosed(id)),
        }
    }

    /// What receiving a frame would give. Nothing is noted.
    pub fn inspect(&self, key: &[u8], header: &FrameHeader, ciphertext: &[u8], expect: FrameType) -> (r:
        Result<Vec<u8>, MuxError>)
        requires
            expect == FrameType::Data || expect == FrameType::UdpDatagram,
        ensures
            match (
                r,
                received(
                    self.entries(),
                    key@,
                    (SealedModel { header: *header, ciphertext: ciphertext@ }),
                    expect,
                ),
            ) {
                (Ok(v), Ok(m)) => v@ == m,
                (Err(e), Err(fault)) => e@ == fault,
                _ => false,
            },
            r is Ok ==> genuine(key@, (SealedModel { header: *header, ciphertext: ciphertext@ })),
    {
        broadcast use vstd::std_specs::hash::group_hash_axioms;

        if header.frame_type != expect {
            return Err(MuxError::Internal("wrong frame type".to_owned()));
        }
        if header.length as u64 != ciphertext.len() as u64 {
            return Err(MuxError::Internal("length mismatch".to_owned()));
        }
        let id: u16 = header.stream_id;
        let seq: u32 = header.sequence;
        match self.entries.get(&id) {
            None => {
                return Err(MuxError::StreamClosed(id));
            },
            Some(entry) => {
                assert(self.entries()[id] == entry.model());
                if entry.is_udp != (expect == FrameType::UdpDatagram) {
                    return Err(MuxError::StreamClosed(id));
                }
                if seq == 0 {
                    return Err(MuxError::Internal("stale seq".to_owned()));
                }
                if entry.seen.contains(&seq) {
                    return Err(MuxError::Internal("replay seq".to_owned()));
                }
                if seq <= entry.max_seen && entry.max_seen - seq >= REPLAY_WINDOW {
                    return Err(MuxError::Internal("stale seq".to_owned()));
                }
            },
        }
        let payload = match unseal_frame(key, header, ciphertext) {
            Ok(p) => p,
            Err(e) => {
                return Err(e);
            },
        };
        match payload {
            FramePayload::Data(v) => if expect == FrameType::Data {
                Ok(v)
            } else {
                Err(MuxError::Internal("wrong payload".to_owned()))
            },
            FramePayload::UdpDatagram(v) => if expect == FrameType::UdpDatagram {
                Ok(v)
            } else {
                Err(MuxError::Internal("wrong payload".to_owned()))
            },
            _ => Err(MuxError::Internal("wrong payload".to_owned())),
        }
    }

    fn open(&mut self, key: &[u8], header: &FrameHeader, ciphertext: &[u8], expect: FrameType) -> (r:
        Result<Vec<u8>, MuxError>)
        requires
            expect == FrameType::Data || expect == FrameType::UdpDatagram,
        ensures
            old(self).received_as(
                *final(self),
                key@,
                (SealedModel { header: *header, ciphertext: ciphertext@ }),
                expect,
                told_bytes(r),
            ),
    {
        broadcast use vstd::std_specs::hash::group_hash_axioms;

        let ghost before = self.entries();
        let data = match self.inspect(key, header, ciphertext, expect) {
            Ok(data) => data,
            Err(e) => {
                return Err(e);
            },
        };
        let id: u16 = header.stream_id;
        match self.entries.remove(&id) {
            Some(entry) => {
                let ghost model = entry.model();
                assert(before[id] == model);
                let next = note_receipt(entry, header.sequence);
                self.entries.insert(id, next);
                assert(self.entries() =~= before.insert(
                    id,
                    after_receipt(model, header.sequence),
                ));
            },
            None => {},
        }
        Ok(data)
    }

    /// Receives a DATA frame: checks it for replay, decrypts it and notes its
    /// sequence number. A frame that is refused changes nothing.
    pub fn open_data(&mut self, key: &[u8], header: &FrameHeader, ciphertext: &[u8]) -> (r: Result<
        Vec<u8>,
        MuxError,
    >)
        ensures
            old(self).received_as(
                *final(self),
                key@,
                (SealedModel { header: *header, ciphertext: ciphertext@ }),
                FrameType::Data,
                told_bytes(r),
            ),
    {
        self.open(key, header, ciphertext, FrameType::Data)
    }

    /// Receives a datagram frame: checks it for replay, decrypts it and notes its
    /// sequence number. A frame that is refused changes nothing.
    pub fn open_datagram(&mut self, key: &[u8], header: &FrameHeader, ciphertext: &[u8]) -> (r:
        Result<Vec<u8>, MuxError>)
        ensures
            old(self).received_as(
                *final(self),
                key@,
                (SealedModel { header: *header, ciphertext: ciphertext@ }),
                FrameType::UdpDatagram,
                told_bytes(r),
            ),
    {
        self.open(key, header, ciphertext, FrameType::UdpDatagram)
    }

    /// Seals the OPEN frame of a TCP stream, under sequence number 0. The
    /// numbering of DATA frames is not affected.
    pub fn seal_open_tcp(&self, key: &[u8], id: u16, pad_multiple: usize) -> (r: Result<
        SealedFrame,
        MuxError,
    >)
        ensures
            if self.entries().contains_key(id) && !self.entries()[id].is_udp {
                let entry = self.entries()[id];
                let frame = open_frame(false, id, entry.addr, entry.port);
                match (r, sealed(key@, id, 0, frame, pad_multiple as nat)) {
                    (Ok(f), Ok(m)) => f@ == m && opens_to(key@, f@, frame.payload),
                    (Err(e), Err(fault)) => e@ == fault,
                    _ => false,
                }
            } else {
                r matches Err(e) && e@ == MuxFault::StreamClosed(id)
            },
    {
        broadcast use vstd::std_specs::hash::group_hash_axioms;

        match self.entries.get(&id) {
            Some(entry) => {
                assert(self.entries()[id] == entry.model());
                if entry.is_udp {
                    return Err(MuxError::StreamClosed(id));
                }
                proof {
                    use_type_invariant(entry);
                }
                let frame = Frame::open_tcp(id, 0, entry.addr.clone(), entry.port);
                proof {
                    padded_len_fits(payload_bytes(frame@.payload).len(), pad_multiple);
                }
                seal_frame(key, id, 0, &frame, pad_multiple)
            },
            None => Err(MuxError::StreamClosed(id)),
        }
    }

    /// Seals the OPEN frame of a UDP flow, under sequence number 0. The numbering
    /// of datagrams is not affected.
    pub fn seal_open_udp(&self, key: &[u8], id: u16, pad_multiple: usize) -> (r: Result<
        SealedFrame,
        MuxError,
    >)
        ensures
            if self.entries().contains_key(id) && self.entries()[id].is_udp {
                let entry = self.entries()[id];
                let frame = open_frame(true, id, entry.addr, entry.port);
                match (r, sealed(key@, id, 0, frame, pad_multiple as nat)) {
                    (Ok(f), Ok(m)) => f@ == m && opens_to(key@, f@, frame.payload),
                    (Err(e), Err(fault)) => e@ == fault,
                    _ => false,
                }
            } else {
                r matches Err(e) && e@ == MuxFault::FlowClosed(id)
            },
    {
        broadcast use vstd::std_specs::hash::group_hash_axioms;

        match self.entries.get(&id) {
            Some(entry) => {
                assert(self.entries()[id] == entry.model());
                if !entry.is_udp {
                    return Err(MuxError::FlowClosed(id));
                }
                proof {
                    use_type_invariant(entry);
                }
                let frame = Frame::open_udp(id, entry.addr.clone(), entry.port);
                proof {
                    padded_len_fits(payload_bytes(frame@.payload).len(), pad_multiple);
                }
                seal_frame(key, id, 0, &frame, pad_multiple)
            },
            None => Err(MuxError::FlowClosed(id)),
        }
    }

    /// Reads the target of a TCP stream out of its OPEN frame.
    pub fn parse_open_tcp(key: &[u8], header: &FrameHeader, ciphertext: &[u8]) -> (r: Result<
        TcpStream,
        MuxError,
    >)
        ensures
            match (
                r,
                announced(
                    key@,
                    (SealedModel { header: *header, ciphertext: ciphertext@ }),
                    FrameType::OpenTcp,
                ),
            ) {
                (Ok(t), Ok(m)) => t.id == header.stream_id && t.addr@ == m.0 && t.port == m.1,
                (Err(e), Err(fault)) => e@ == fault,
                _ => false,
            },
    {
        if header.frame_type != FrameType::OpenTcp {
            return Err(MuxError::Internal("wrong frame type".to_owned()));
        }
        if header.length as u64 != ciphertext.len() as u64 {
            return Err(MuxError::Internal("length mismatch".to_owned()));
        }
        if header.sequence != 0 {
            return Err(MuxError::Internal("wrong open seq".to_owned()));
        }
        match unseal_frame(key, header, ciphertext) {
            Ok(payload) => match payload {
                FramePayload::OpenTcp { addr, port, .. } => {
                    match TcpStream::new(header.stream_id, addr.as_str(), port) {
                        Ok(t) => Ok(t),
                        Err(e) => Err(MuxError::Internal(e.message())),
                    }
                },
                _ => Err(MuxError::Internal("wrong payload".to_owned())),
            },
            Err(e) => Err(e),
        }
    }

    /// Reads the target of a UDP flow out of its OPEN frame.
    pub fn parse_open_udp(key: &[u8], header: &FrameHeader, ciphertext: &[u8]) -> (r: Result<
        UdpFlow,
        MuxError,
    >)
        ensures
            match (
                r,
                announced(
                    key@,
                    (SealedModel { header: *header, ciphertext: ciphertext@ }),
                    FrameType::OpenUdp,
                ),
            ) {
                (Ok(t), Ok(m)) => t.id == header.stream_id && t.addr@ == m.0 && t.port == m.1,
                (Err(e), Err(fault)) => e@ == fault,
                _ => false,
            },
    {
        if header.frame_type != FrameType::OpenUdp {
            return Err(MuxError::Internal("wrong frame type".to_owned()));
        }
        if header.length as u64 != ciphertext.len() as u64 {
            return Err(MuxError::Internal("length mismatch".to_owned()));
        }
        if header.sequence != 0 {
            return Err(MuxError::Internal("wrong open seq".to_owned()));
        }
        match unseal_frame(key, header, ciphertext) {
            Ok(payload) => match payload {
                FramePayload::OpenUdp { addr, port, .. } => {
                    match UdpFlow::new(header.stream_id, addr.as_str(), port) {
                        Ok(t) => Ok(t),
                        Err(e) => Err(MuxError::Internal(e.message())),
                    }
                },
                _ => Err(MuxError::Internal("wrong payload".to_owned())),
            },
            Err(e) => Err(e),
        }
    }
}

impl Default for MuxManager {
    fn default() -> (r: Self)
        ensures
            r.entries() == Map::<u16, EntryModel>::empty(),
            r.spec_next_id() == 1,
            r.spec_max() == 4096,
    {
        MuxManager::new()
    }
}

/// An entry after a frame with this sequence number was received.
fn note_receipt(entry: Entry, seq: u32) -> (r: Entry)
    ensures
        r.model() == after_receipt(entry.model(), seq),
{
    broadcast use vstd::std_specs::hash::group_hash_axioms;

    proof {
        use_type_invariant(&entry);
    }
    let ghost model = entry.model();
    let Entry { is_udp, addr, port, next_seq, max_seen, seen } = entry;
    let max_seen: u32 = if seq > max_seen {
        seq
    } else {
        max_seen
    };
    let mut seen = seen;
    seen.insert(seq);
    if seen.len() > REPLAY_WINDOW as usize * 2 {
        let min_keep: u32 = if max_seen >= REPLAY_WINDOW {
            max_seen - REPLAY_WINDOW
        } else {
            0
        };
        seen = recent(&seen, min_keep);
        assert(seen@ =~= model.seen.insert(seq).filter(
            |s: u32| s >= max_seen - REPLAY_WINDOW,
        ));
    }
    let r = Entry { is_udp, addr, port, next_seq, max_seen, seen };
    assert(r.model() =~= after_receipt(model, seq));
    r
}

broadcast proof fn lemma_listed(items: Seq<&u32>, x: u32)
    ensures
        #[trigger] items.unref().to_set().contains(x) <==> exists|i: int|
            0 <= i < items.len() && *(#[trigger] items[i]) == x,
{
    let plain = items.unref();
    if plain.to_set().contains(x) {
        assert(plain.contains(x));
        let i = choose|i: int| 0 <= i < plain.len() && plain[i] == x;
        assert(*items[i] == x);
    }
    if exists|i: int| 0 <= i < items.len() && *(#[trigger] items[i]) == x {
        let i = choose|i: int| 0 <= i < items.len() && *(#[trigger] items[i]) == x;
        assert(plain[i] == x);
        assert(plain.contains(x));
    }
}

/// The numbers of `seen` from `min_keep` on.
fn recent(seen: &HashSet<u32>, min_keep: u32) -> (r: HashSet<u32>)
    ensures
        r@ == seen@.filter(|s: u32| s >= min_keep),
{
    broadcast use vstd::std_specs::hash::group_hash_axioms;
    broadcast use lemma_listed;

    let mut kept: HashSet<u32> = HashSet::new();
    for s in it: seen.iter()
        invariant
            it.seq().unref().to_set() == seen@,
            forall|x: u32|
                kept@.contains(x) <==> x >= min_keep && exists|i: int|
                    0 <= i < it.index() && *(#[trigger] it.seq()[i]) == x,
    {
        if *s >= min_keep {
            kept.insert(*s);
        }
    }
    assert(kept@ =~= seen@.filter(|s: u32| s >= min_keep));
    kept
}

/// A sealed DATA frame or datagram gives its bytes back to a peer that has the
/// id open and has not received its sequence number yet.
pub proof fn sealed_frame_is_received(
    entries: Map<u16, EntryModel>,
    key: Seq<u8>,
    frame: SealedModel,
    payload: PayloadModel,
)
    requires
        opens_to(key, frame, payload),
        payload is Data && frame.header.frame_type == FrameType::Data || payload is UdpDatagram
            && frame.header.frame_type == FrameType::UdpDatagram,
        entries.contains_key(frame.header.stream_id),
        entries[frame.header.stream_id].is_udp == payload is UdpDatagram,
        replay_fault(entries[frame.header.stream_id], frame.header.sequence) is None,
    ensures
        received(entries, key, frame, frame.header.frame_type) == Ok::<Seq<u8>, MuxFault>(
            payload_bytes(payload),
        ),
{
}

/// An OPEN frame names the target that it was sealed for.
pub proof fn announced_target_is_the_one_opened(
    key: Seq<u8>,
    frame: SealedModel,
    is_udp: bool,
    addr: Seq<char>,
    port: u16,
)
    requires
        opens_to(key, frame, open_frame(is_udp, frame.header.stream_id, addr, port).payload),
        frame.header.frame_type == open_frame(is_udp, 0, addr, port).frame_type,
        frame.header.sequence == 0,
        stream::target_fault(addr, port) is None,
    ensures
        announced(key, frame, frame.header.frame_type) == Ok::<(Seq<char>, u16), MuxFault>(
            (addr, port),
        ),
{
}

/// A frame of another type is refused, both as traffic and as an announcement.
pub proof fn other_frame_types_are_refused(
    entries: Map<u16, EntryModel>,
    key: Seq<u8>,
    frame: SealedModel,
    expect: FrameType,
)
    requires
        frame.header.frame_type != expect,
    ensures
        received(entries, key, frame, expect) is Err,
        announced(key, frame, expect) is Err,
        entries_after(entries, key, frame, expect) == entries,
{
}

/// Nothing is received for an id that is not open.
pub proof fn closed_id_receives_nothing(
    entries: Map<u16, EntryModel>,
    key: Seq<u8>,
    frame: SealedModel,
    expect: FrameType,
)
    requires
        !entries.contains_key(frame.header.stream_id),
    ensures
        received(entries, key, frame, expect) is Err,
{
}

/// The open ids after a run of frames arrived, first to last.
pub open spec fn entries_after_all(
    entries: Map<u16, EntryModel>,
    key: Seq<u8>,
    frames: Seq<(SealedModel, FrameType)>,
) -> Map<u16, EntryModel>
    decreases frames.len(),
{
    if frames.len() == 0 {
        entries
    } else {
        entries_after(
            entries_after_all(entries, key, frames.drop_last()),
            key,
            frames.last().0,
            frames.last().1,
        )
    }
}

/// A number that was received, or that the window has left behind.
spec fn spent(entry: EntryModel, seq: u32) -> bool {
    entry.seen.contains(seq) || seq + REPLAY_WINDOW <= entry.max_seen
}

proof fn lemma_spent_stays_spent(
    entries: Map<u16, EntryModel>,
    key: Seq<u8>,
    frames: Seq<(SealedModel, FrameType)>,
    id: u16,
    seq: u32,
)
    requires
        entries.contains_key(id),
        spent(entries[id], seq),
    ensures
        entries_after_all(entries, key, frames).contains_key(id),
        spent(entries_after_all(entries, key, frames)[id], seq),
    decreases frames.len(),
{
    if frames.len() > 0 {
        lemma_spent_stays_spent(entries, key, frames.drop_last(), id, seq);
    }
}

/// A frame that was received once is refused ever after, whatever frames arrive
/// in between.
pub proof fn received_frame_is_never_received_again(
    entries: Map<u16, EntryModel>,
    key: Seq<u8>,
    frame: SealedModel,
    expect: FrameType,
    later: Seq<(SealedModel, FrameType)>,
)
    requires
        received(entries, key, frame, expect) is Ok,
    ensures
        received(
            entries_after_all(entries_after(entries, key, frame, expect), key, later),
            key,
            frame,
            expect,
        ) is Err,
{
    let id = frame.header.stream_id;
    let seq = frame.header.sequence;
    let after = entries_after(entries, key, frame, expect);
    assert(spent(after[id], seq));
    lemma_spent_stays_spent(after, key, later, id, seq);
}

/// The sequence numbers that were received on an id in a run of frames.
pub open spec fn received_numbers(
    entries: Map<u16, EntryModel>,
    key: Seq<u8>,
    frames: Seq<(SealedModel, FrameType)>,
    id: u16,
) -> Set<u32>
    decreases frames.len(),
{
    if frames.len() == 0 {
        Set::empty()
    } else {
        let before = received_numbers(entries, key, frames.drop_last(), id);
        let (frame, expect) = frames.last();
        if frame.header.stream_id == id && received(
            entries_after_all(entries, key, frames.drop_last()),
            key,
            frame,
            expect,
        ) is Ok {
            before.insert(frame.header.sequence)
        } else {
            before
        }
    }
}

/// Whether an id remembers exactly these numbers, as far as the window needs.
spec fn remembers(entry: EntryModel, numbers: Set<u32>) -> bool {
    &&& entry.max_seen == 0 || numbers.contains(entry.max_seen)
    &&& forall|n: u32| #[trigger] entry.seen.contains(n) ==> numbers.contains(n)
    &&& forall|n: u32| #[trigger] numbers.contains(n) ==> n <= entry.max_seen && spent(entry, n)
}

proof fn lemma_receipt_is_remembered(entry: EntryModel, numbers: Set<u32>, seq: u32)
    requires
        remembers(entry, numbers),
    ensures
        remembers(after_receipt(entry, seq), numbers.insert(seq)),
{
    let after = after_receipt(entry, seq);
    assert forall|n: u32| #[trigger]
        numbers.insert(seq).contains(n) implies n <= after.max_seen && spent(after, n) by {
        if n != seq {
            assert(numbers.contains(n));
        }
    }
    assert forall|n: u32| #[trigger] after.seen.contains(n) implies numbers.insert(seq).contains(
        n,
    ) by {
        assert(n == seq || entry.seen.contains(n));
    }
}

proof fn lemma_received_numbers(
    entries: Map<u16, EntryModel>,
    key: Seq<u8>,
    frames: Seq<(SealedModel, FrameType)>,
    id: u16,
)
    requires
        entries.contains_key(id),
        entries[id].max_seen == 0,
        entries[id].seen == Set::<u32>::empty(),
    ensures
        entries_after_all(entries, key, frames).contains_key(id),
        entries_after_all(entries, key, frames)[id].is_udp == entries[id].is_udp,
        remembers(
            entries_after_all(entries, key, frames)[id],
            received_numbers(entries, key, frames, id),
        ),
    decreases frames.len(),
{
    if frames.len() > 0 {
        lemma_received_numbers(entries, key, frames.drop_last(), id);
        let before = entries_after_all(entries, key, frames.drop_last());
        let (frame, expect) = frames.last();
        let outcome = received(before, key, frame, expect);
        lemma_receipt_is_remembered(
            before[id],
            received_numbers(entries, key, frames.drop_last(), id),
            frame.header.sequence,
        );
        if outcome is Ok && frame.header.stream_id == id {
            assert(entries_after_all(entries, key, frames)[id] == after_receipt(
                before[id],
                frame.header.sequence,
            ));
        } else {
            assert(entries_after_all(entries, key, frames)[id] == before[id]);
        }
    }
}

/// On an id that was opened afresh and stays open, a sealed frame gives its bytes
/// after any run of frames exactly where its sequence number is not 0, was not
/// received in the run, and is less than the window below every number that was.
pub proof fn sealed_frame_is_received_once_within_the_window(
    entries: Map<u16, EntryModel>,
    key: Seq<u8>,
    run: Seq<(SealedModel, FrameType)>,
    frame: SealedModel,
    payload: PayloadModel,
)
    requires
        opens_to(key, frame, payload),
        payload is Data && frame.header.frame_type == FrameType::Data || payload is UdpDatagram
            && frame.header.frame_type == FrameType::UdpDatagram,
        entries.contains_key(frame.header.stream_id),
        entries[frame.header.stream_id].max_seen == 0,
        entries[frame.header.stream_id].seen == Set::<u32>::empty(),
        entries[frame.header.stream_id].is_udp == payload is UdpDatagram,
    ensures
        ({
            let seq = frame.header.sequence;
            let numbers = received_numbers(entries, key, run, frame.header.stream_id);
            let outcome = received(
                entries_after_all(entries, key, run),
                key,
                frame,
                frame.header.frame_type,
            );
            if seq >= 1 && !numbers.contains(seq) && (forall|n: u32| #[trigger]
                numbers.contains(n) ==> n < seq + REPLAY_WINDOW) {
                outcome == Ok::<Seq<u8>, MuxFault>(payload_bytes(payload))
            } else {
                outcome is Err
            }
        }),
{
    lemma_received_numbers(entries, key, run, frame.header.stream_id);
}

/// A frame that is refused changes nothing: a genuine frame with the same sequence
/// number is received after it as it would have been before.
pub proof fn refused_frame_leaves_the_genuine_one(
    entries: Map<u16, EntryModel>,
    key: Seq<u8>,
    refused: SealedModel,
    frame: SealedModel,
    expect: FrameType,
)
    requires
        received(entries, key, refused, expect) is Err,
    ensures
        entries_after(entries, key, refused, expect) == entries,
        received(entries_after(entries, key, refused, expect), key, frame, expect) == received(
            entries,
            key,
            frame,
            expect,
        ),
{
}

/// A call that may change a manager, with its outcome.
pub enum MuxOp {
    Open { is_udp: bool, addr: Seq<char>, port: u16, r: Result<u16, MuxFault> },
    Register { id: u16, addr: Seq<char>, port: u16, is_udp: bool, r: Result<(), MuxFault> },
    Close { id: u16, r: Result<(), MuxFault> },
    Seal {
        key: Seq<u8>,
        is_udp: bool,
        id: u16,
        bytes: Seq<u8>,
        pad_multiple: nat,
        r: Result<SealedModel, MuxFault>,
    },
    Receive {
        key: Seq<u8>,
        frame: SealedModel,
        expect: FrameType,
        r: Result<Seq<u8>, MuxFault>,
    },
}

impl MuxOp {
    /// Whether the call leads from one manager to another.
    pub open spec fn leads(self, before: MuxManager, after: MuxManager) -> bool {
        match self {
            MuxOp::Open { is_udp, addr, port, r } => before.opened(after, is_udp, addr, port, r),
            MuxOp::Register { id, addr, port, is_udp, r } => before.registered(
                after,
                id,
                addr,
                port,
                is_udp,
                r,
            ),
            MuxOp::Close { id, r } => before.closed(after, id, r),
            MuxOp::Seal { key, is_udp, id, bytes, pad_multiple, r } => before.sealed_for(
                after,
                key,
                is_udp,
                id,
                bytes,
                pad_multiple,
                r,
            ),
            MuxOp::Receive { key, frame, expect, r } => before.received_as(
                after,
                key,
                frame,
                expect,
                r,
            ),
        }
    }

    /// Whether the call opened or booked an id.
    pub open spec fn opens(self, id: u16) -> bool {
        match self {
            MuxOp::Open { r, .. } => r == Ok::<u16, MuxFault>(id),
            MuxOp::Register { id: booked, r, .. } => booked == id && r is Ok,
            _ => false,
        }
    }

    /// Whether the call closed an id.
    pub open spec fn closes(self, id: u16) -> bool {
        self matches MuxOp::Close { id: gone, r } && gone == id && r is Ok
    }
}

/// A call opens, books or closes the id that it says; no other call, sealing and
/// receiving among them, changes whether an id is open.
pub proof fn only_opening_and_closing_count(
    before: MuxManager,
    after: MuxManager,
    op: MuxOp,
    id: u16,
)
    requires
        op.leads(before, after),
    ensures
        after.entries().contains_key(id) == (op.opens(id) || before.entries().contains_key(id)
            && !op.closes(id)),
{
}

/// After any run of calls an id is open exactly where one of them opened or booked it
/// and none after that closed it, or where it was open before and none did.
pub proof fn open_is_what_the_run_left(managers: Seq<MuxManager>, ops: Seq<MuxOp>, id: u16)
    requires
        managers.len() == ops.len() + 1,
        forall|i: int|
            0 <= i < ops.len() ==> (#[trigger] ops[i]).leads(managers[i], managers[i + 1]),
    ensures
        managers.last().entries().contains_key(id) <==> {
            ||| exists|i: int|
                #![trigger ops[i]]
                0 <= i < ops.len() && ops[i].opens(id) && forall|j: int|
                    i < j < ops.len() ==> !(#[trigger] ops[j]).closes(id)
            ||| managers[0].entries().contains_key(id) && forall|j: int|
                0 <= j < ops.len() ==> !(#[trigger] ops[j]).closes(id)
        },
    decreases ops.len(),
{
    if ops.len() > 0 {
        let n = ops.len() - 1;
        let fewer = ops.drop_last();
        let earlier = managers.drop_last();
        assert forall|i: int| 0 <= i < fewer.len() implies (#[trigger] fewer[i]).leads(
            earlier[i],
            earlier[i + 1],
        ) by {
            assert(ops[i] == fewer[i]);
        }
        open_is_what_the_run_left(earlier, fewer, id);
        let was = earlier.last().entries().contains_key(id);
        let op = ops[n];
        assert(op.leads(managers[n], managers[n + 1]));
        only_opening_and_closing_count(managers[n], managers[n + 1], op, id);
        assert(forall|j: int| 0 <= j < fewer.len() ==> #[trigger] fewer[j] == ops[j]);
        if was && !op.closes(id) {
            if managers[0].entries().contains_key(id) && forall|j: int|
                0 <= j < fewer.len() ==> !(#[trigger] fewer[j]).closes(id) {
                assert forall|j: int| 0 <= j < ops.len() implies !(#[trigger] ops[j]).closes(
                    id,
                ) by {
                    if j < n {
                        assert(fewer[j] == ops[j]);
                    }
                }
            } else {
                let i = choose|i: int|
                    #![trigger fewer[i]]
                    0 <= i < fewer.len() && fewer[i].opens(id) && forall|j: int|
                        i < j < fewer.len() ==> !(#[trigger] fewer[j]).closes(id);
                assert(ops[i].opens(id));
                assert forall|j: int| i < j < ops.len() implies !(#[trigger] ops[j]).closes(
                    id,
                ) by {
                    if j < n {
                        assert(fewer[j] == ops[j]);
                    }
                }
            }
        }
        assert forall|i: int|
            #![trigger ops[i]]
            0 <= i < n && ops[i].opens(id) && (forall|j: int|
                i < j < ops.len() ==> !(#[trigger] ops[j]).closes(id)) implies was by {
            assert(fewer[i] == ops[i]);
        }
    }
}

/// Closing an id silences it and nothing else: no bytes are sealed or received for it,
/// closing it again fails and changes nothing, and every other id keeps its target and
/// its numbers.
pub proof fn closed_id_is_silent(
    before: MuxManager,
    after: MuxManager,
    id: u16,
    later: MuxManager,
    op: MuxOp,
    other: u16,
)
    requires
        before.closed(after, id, Ok(())),
        op.leads(after, later),
        other != id,
    ensures
        !after.entries().contains_key(id),
        after.entries().contains_key(other) == before.entries().contains_key(other),
        before.entries().contains_key(other) ==> after.entries()[other]
            == before.entries()[other],
        op matches MuxOp::Seal { id: asked, r, .. } ==> asked == id ==> r is Err
            && later.entries() == after.entries(),
        op matches MuxOp::Receive { frame, r, .. } ==> frame.header.stream_id == id ==> r is Err
            && later.entries() == after.entries(),
        op matches MuxOp::Close { id: asked, r } ==> asked == id ==> r == Err::<(), _>(
            MuxFault::StreamNotFound(id),
        ) && later.entries() == after.entries() && later.same_allocation(after),
{
}

/// Ids are handed out in steps of two, from 1 to 65535 and then from 1 again; sequence
/// numbers in steps of one, up to 2^32 - 1 and then from 1 again.
pub proof fn ids_and_numbers_start_over_at_one(id: u16, seq: u32)
    ensures
        id % 2 == 1 ==> following_id(id) == (if id == 65535 {
            1
        } else {
            id + 2
        }),
        following_seq(seq) == (if seq == 0xffff_ffff {
            1
        } else {
            seq + 1
        }),
{
}

/// A new stream or flow numbers its frames from 1 and has received nothing.
pub proof fn new_ids_number_from_one(is_udp: bool, addr: Seq<char>, port: u16, seq: u32)
    ensures
        ({
            let e = fresh_entry(is_udp, addr, port);
            &&& e.is_udp == is_udp
            &&& e.addr == addr
            &&& e.port == port
            &&& e.next_seq == 1
            &&& replay_fault(e, seq) is None <==> seq >= 1
        }),
{
}

/// A target can be dialled exactly where it has a port and a name of 1 to 255 bytes.
pub proof fn targets_have_a_name_and_a_port(is_udp: bool, addr: Seq<char>, port: u16)
    ensures
        target_fault(is_udp, addr, port) is None <==> port >= 1 && addr.len() >= 1 && encode_utf8(
            addr,
        ).len() <= 255,
{
}

/// The nonce of a frame spells its id, its sequence number and its type, followed by zeros.
pub proof fn nonce_layout(id: u16, seq: u32, frame_type: FrameType)
    ensures
        ({
            let b = nonce_bytes(id, seq, frame_type);
            &&& b.len() == 12
            &&& b[0] * 0x100 + b[1] == id
            &&& b[2] * 0x100_0000 + b[3] * 0x1_0000 + b[4] * 0x100 + b[5] == seq
            &&& b[6] == frame_type.spec_code()
            &&& forall|i: int| 7 <= i < 12 ==> #[trigger] b[i] == 0
        }),
{
    most_significant_byte_first(id, seq, Seq::empty());
    let b = nonce_bytes(id, seq, frame_type);
    assert(b[0] == be16(id)[0] && b[1] == be16(id)[1]);
    assert(b[2] == be32(seq)[0] && b[3] == be32(seq)[1]);
    assert(b[4] == be32(seq)[2] && b[5] == be32(seq)[3]);
}

/// A sealed frame says on its header which id, number and type it has and how long it is, and
/// holds the padded payload sealed under the key and the nonce of these three. Sealing fails
/// only under a key that has not 32 bytes or for a payload that is too long.
pub proof fn sealed_frames_say_what_they_are(
    key: Seq<u8>,
    id: u16,
    seq: u32,
    frame: FrameModel,
    pad_multiple: nat,
)
    ensures
        match sealed(key, id, seq, frame, pad_multiple) {
            Ok(f) => {
                &&& key.len() == 32
                &&& f.header.stream_id == id
                &&& f.header.sequence == seq
                &&& f.header.frame_type == frame.frame_type
                &&& f.header.flags == 0
                &&& f.ciphertext.len() < 0xffff_ffff ==> f.header.length == f.ciphertext.len()
                &&& f.ciphertext == crate::crypto::aead::chacha20poly1305_seal(
                    key,
                    nonce_bytes(id, seq, frame.frame_type),
                    padded(payload_bytes(frame.payload), pad_multiple),
                    Seq::empty(),
                )
            },
            Err(_) => {
                let n = payload_bytes(frame.payload).len();
                key.len() != 32 || n > u32::MAX || crate::frame::codec::padded_len(
                    n,
                    pad_multiple,
                ) + 16 >= 0x100_0000
            },
        },
{
    crate::frame::codec::sent_frames_hold_header_and_sealed_payload(
        frame,
        key,
        nonce_bytes(id, seq, frame.frame_type),
        pad_multiple,
    );
}

/// What is received on an id: a frame of the expected type whose length is the one it says, on
/// an open id of that kind, with a number that is neither 0 nor received nor behind the window,
/// gives the bytes that it opens to. Each other frame is refused.
pub proof fn frames_are_received_on_open_ids(
    entries: Map<u16, EntryModel>,
    key: Seq<u8>,
    frame: SealedModel,
    expect: FrameType,
)
    requires
        expect == FrameType::Data || expect == FrameType::UdpDatagram,
    ensures
        ({
            let id = frame.header.stream_id;
            let seq = frame.header.sequence;
            match received(entries, key, frame, expect) {
                Ok(bytes) => {
                    &&& frame.header.frame_type == expect
                    &&& frame.header.length == frame.ciphertext.len()
                    &&& entries.contains_key(id)
                    &&& entries[id].is_udp == (expect == FrameType::UdpDatagram)
                    &&& seq >= 1
                    &&& !entries[id].seen.contains(seq)
                    &&& entries[id].max_seen < seq + 1024
                    &&& unsealed(key, frame) == Ok::<PayloadModel, MuxFault>(
                        if expect == FrameType::Data {
                            PayloadModel::Data(bytes)
                        } else {
                            PayloadModel::UdpDatagram(bytes)
                        },
                    )
                    &&& entries_after(entries, key, frame, expect).contains_key(id)
                    &&& entries_after(entries, key, frame, expect)[id].max_seen == (if seq
                        > entries[id].max_seen {
                        seq
                    } else {
                        entries[id].max_seen
                    })
                    &&& entries_after(entries, key, frame, expect)[id].next_seq
                        == entries[id].next_seq
                    &&& entries_after(entries, key, frame, expect)[id].addr == entries[id].addr
                    &&& entries_after(entries, key, frame, expect)[id].port == entries[id].port
                },
                Err(_) => entries_after(entries, key, frame, expect) == entries,
            }
        }),
{
}

/// Receiving on one id leaves every other id as it is.
pub proof fn receipt_concerns_its_own_id(
    entries: Map<u16, EntryModel>,
    key: Seq<u8>,
    frame: SealedModel,
    expect: FrameType,
    other: u16,
)
    requires
        other != frame.header.stream_id,
    ensures
        entries_after(entries, key, frame, expect).contains_key(other) == entries.contains_key(
            other,
        ),
        entries.contains_key(other) ==> entries_after(entries, key, frame, expect)[other]
            == entries[other],
{
}

/// An announcement names a target exactly where it is an OPEN frame of the expected type with
/// the number 0 and the length it says, which opens to a target that can be dialled.
pub proof fn announcements_open_to_their_target(key: Seq<u8>, frame: SealedModel, is_udp: bool)
    ensures
        ({
            let expect = if is_udp {
                FrameType::OpenUdp
            } else {
                FrameType::OpenTcp
            };
            announced(key, frame, expect) matches Ok((addr, port)) ==> {
                &&& frame.header.frame_type == expect
                &&& frame.header.sequence == 0
                &&& frame.header.length == frame.ciphertext.len()
                &&& port >= 1 && addr.len() >= 1 && encode_utf8(addr).len() <= 255
                &&& unsealed(key, frame) matches Ok(payload) && match payload {
                    PayloadModel::OpenUdp { addr: a, port: p, .. } => is_udp && a == addr && p
                        == port,
                    PayloadModel::OpenTcp { addr: a, port: p, .. } => !is_udp && a == addr && p
                        == port,
                    _ => false,
                }
            }
        }),
{
}

/// A stream or flow is opened exactly where its target can be dialled and there is room; it
/// gets the next id and leaves every other id as it is.
pub proof fn ids_are_handed_out_while_there_is_room(
    before: MuxManager,
    after: MuxManager,
    is_udp: bool,
    addr: Seq<char>,
    port: u16,
    r: Result<u16, MuxFault>,
    other: u16,
)
    requires
        before.opened(after, is_udp, addr, port, r),
    ensures
        r is Ok <==> port >= 1 && addr.len() >= 1 && encode_utf8(addr).len() <= 255
            && before.entries().len() < before.spec_max(),
        r matches Ok(id) ==> {
            &&& id == before.spec_next_id()
            &&& after.entries().contains_key(id)
            &&& after.entries()[id].is_udp == is_udp
            &&& after.entries()[id].addr == addr
            &&& after.entries()[id].port == port
            &&& after.entries()[id].next_seq == 1
            &&& other != id ==> (after.entries().contains_key(other)
                <==> before.entries().contains_key(other))
            &&& other != id && before.entries().contains_key(other) ==> after.entries()[other]
                == before.entries()[other]
        },
        r is Err ==> after.entries() == before.entries() && after.spec_next_id()
            == before.spec_next_id(),
{
}

/// An id that the peer announced is booked with its target, unless it is open already, which
/// changes nothing, or there is no room or no such target.
pub proof fn announced_ids_are_booked_once(
    before: MuxManager,
    after: MuxManager,
    id: u16,
    addr: Seq<char>,
    port: u16,
    is_udp: bool,
    r: Result<(), MuxFault>,
)
    requires
        before.registered(after, id, addr, port, is_udp, r),
    ensures
        before.entries().contains_key(id) ==> r is Ok && after.entries() == before.entries(),
        !before.entries().contains_key(id) ==> (r is Ok <==> before.entries().len()
            < before.spec_max() && port >= 1 && addr.len() >= 1 && encode_utf8(addr).len() <= 255),
        r is Ok && !before.entries().contains_key(id) ==> after.entries()
            == before.entries().insert(id, fresh_entry(is_udp, addr, port)),
        r is Err ==> after.entries() == before.entries(),
        after.spec_next_id() == before.spec_next_id(),
{
}

/// Sealing takes the next number of an open id of its kind, moves that on by one and leaves
/// every other id as it is; on any other id it fails and changes nothing. The frame opens to
/// the bytes for who has the key.
pub proof fn sealing_takes_the_next_number(
    before: MuxManager,
    after: MuxManager,
    key: Seq<u8>,
    is_udp: bool,
    id: u16,
    bytes: Seq<u8>,
    pad_multiple: nat,
    r: Result<SealedModel, MuxFault>,
    other: u16,
)
    requires
        before.sealed_for(after, key, is_udp, id, bytes, pad_multiple, r),
        other != id,
    ensures
        r matches Ok(f) ==> {
            &&& before.entries().contains_key(id)
            &&& before.entries()[id].is_udp == is_udp
            &&& f.header.stream_id == id
            &&& f.header.sequence == before.entries()[id].next_seq
            &&& f.header.frame_type == (if is_udp {
                FrameType::UdpDatagram
            } else {
                FrameType::Data
            })
            &&& unsealed(key, f) == Ok::<PayloadModel, MuxFault>(
                if is_udp {
                    PayloadModel::UdpDatagram(bytes)
                } else {
                    PayloadModel::Data(bytes)
                },
            )
        },
        before.entries().contains_key(id) && before.entries()[id].is_udp == is_udp ==> {
            &&& after.entries().contains_key(id)
            &&& after.entries()[id].next_seq == (if before.entries()[id].next_seq == 0xffff_ffff {
                1
            } else {
                before.entries()[id].next_seq + 1
            })
            &&& after.entries()[id].seen == before.entries()[id].seen
            &&& after.entries()[id].max_seen == before.entries()[id].max_seen
            &&& after.entries()[id].addr == before.entries()[id].addr
            &&& after.entries()[id].port == before.entries()[id].port
        },
        !(before.entries().contains_key(id) && before.entries()[id].is_udp == is_udp) ==> r is Err
            && after.entries() == before.entries(),
        after.entries().contains_key(other) == before.entries().contains_key(other),
        before.entries().contains_key(other) ==> after.entries()[other] == before.entries()[other],
{
}

} // verus!
