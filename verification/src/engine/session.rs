//! The handshake and the keys of a session.
//!
//! Inside the TLS stream the client sends the protocol version and a plain AUTH
//! frame with its nonce and token. The server answers with its own nonce and a
//! status byte. Both sides derive the traffic keys from the pre-shared key and the
//! two nonces; the server swaps them to its own perspective.

use vstd::prelude::*;
use vstd::string::*;

use crate::buf::{empty, from_slice, to_vec};
use crate::crypto::auth::{
    accepts, auth_token, generate_auth_token, verify_auth_token, AuthToken, ClientNonce,
    NonceCache,
};
use crate::crypto::keys::{peers_mirror_each_other, SessionKeys};
use crate::engine::{CoreError, CoreFault};
use crate::frame::codec::{header_bytes, header_of, header_round_trip, FrameHeader};
use crate::frame::types::{
    payload_bytes, payload_of, payload_round_trip, Frame, FramePayload, PayloadModel,
};
use crate::frame::FRAME_HEADER_SIZE;
use crate::mux::manager::{EntryModel, MuxManager};
use crate::protocol::{FrameType, PROTOCOL_VERSION};
use crate::text::{decimal, decimal_of, joined};

verus! {

/// Status byte of a server that accepts the client.
pub const AUTH_OK: u8 = 0;

/// Length of the server's answer: its nonce and the status byte.
pub const REPLY_SIZE: usize = 33;

/// What the client holds after the handshake.
pub struct ClientSession {
    /// A fresh mux.
    pub mux: MuxManager,
    /// Traffic keys: `tx` from client to server.
    pub keys: SessionKeys,
}

/// What the server holds after the handshake.
pub struct ServerSession {
    /// A fresh mux.
    pub mux: MuxManager,
    /// Traffic keys: `tx` from server to client.
    pub keys: SessionKeys,
}

/// Salt of the key derivation: the client's nonce and the server's.
pub fn session_salt(client_nonce: &ClientNonce, server_nonce: &ClientNonce) -> (r: Vec<u8>)
    ensures
        r@ == client_nonce@ + server_nonce@,
{
    let mut salt: Vec<u8> = Vec::with_capacity(64);
    salt.extend_from_slice(client_nonce.as_slice());
    salt.extend_from_slice(server_nonce.as_slice());
    assert(salt@ =~= client_nonce@ + server_nonce@);
    salt
}

/// Header of the AUTH frame.
pub open spec fn auth_header() -> FrameHeader {
    FrameHeader { length: 64, frame_type: FrameType::Auth, flags: 0, stream_id: 0, sequence: 0 }
}

/// What the client sends first: the version, and the AUTH frame.
pub open spec fn hello_bytes(nonce: Seq<u8>, token: Seq<u8>) -> Seq<u8> {
    seq![PROTOCOL_VERSION] + header_bytes(auth_header()) + payload_bytes(
        PayloadModel::Auth { client_nonce: nonce, token },
    )
}

/// What the client sends first. An empty key is refused.
pub fn client_hello(psk: &[u8], nonce: &ClientNonce) -> (r: Result<Vec<u8>, CoreError>)
    ensures
        if psk@.len() == 0 {
            r matches Err(e) && e@ == CoreFault::AuthError("empty psk"@)
        } else {
            r matches Ok(bytes) && bytes@ == hello_bytes(nonce@, auth_token(psk@, nonce@))
        },
{
    if psk.len() == 0 {
        return Err(CoreError::AuthError("empty psk".to_owned()));
    }
    let token = generate_auth_token(psk, nonce);
    let plaintext = Frame::auth(*nonce, token).serialize_payload();
    assert(plaintext@ =~= nonce@ + token@);
    let header = FrameHeader {
        length: plaintext.len() as u32,
        frame_type: FrameType::Auth,
        flags: 0,
        stream_id: 0,
        sequence: 0,
    };
    let mut buf = empty();
    header.encode(&mut buf);
    let mut bytes: Vec<u8> = Vec::new();
    bytes.push(PROTOCOL_VERSION);
    bytes.extend_from_slice(to_vec(&buf).as_slice());
    bytes.extend_from_slice(plaintext.as_slice());
    assert(bytes@ =~= hello_bytes(nonce@, token@));
    Ok(bytes)
}

/// Whether a mux is as it is at first.
pub open spec fn is_fresh(mux: MuxManager) -> bool {
    &&& mux.entries() == Map::<u16, EntryModel>::empty()
    &&& mux.spec_next_id() == 1
    &&& mux.spec_max() == 4096
}

/// The nonce in the server's answer, or why the client was refused.
pub open spec fn accepted_nonce(reply: Seq<u8>) -> Result<Seq<u8>, CoreFault> {
    if reply[32] != AUTH_OK {
        Err(CoreFault::AuthError("server rejected auth"@))
    } else {
        Ok(reply.take(32))
    }
}

/// The client's session after the server's answer.
pub fn client_session(psk: &[u8], nonce: &ClientNonce, reply: &[u8; 33]) -> (r: Result<
    ClientSession,
    CoreError,
>)
    ensures
        match (r, accepted_nonce(reply@)) {
            (Ok(s), Ok(server_nonce)) => is_fresh(s.mux) && s.keys.derived_from(
                psk@,
                nonce@ + server_nonce,
            ),
            (Err(e), Err(fault)) => e@ == fault,
            _ => false,
        },
{
    if reply[32] != AUTH_OK {
        return Err(CoreError::AuthError("server rejected auth".to_owned()));
    }
    let server_nonce = crate::frame::types::array32(&reply.as_slice()[0..32]);
    assert(server_nonce@ =~= reply@.take(32));
    let keys = SessionKeys::new_with_salt(psk, session_salt(nonce, &server_nonce).as_slice());
    Ok(ClientSession { mux: MuxManager::new(), keys })
}

/// Checks the key that a server was given.
pub fn check_psk(psk: &[u8]) -> (r: Result<(), CoreError>)
    ensures
        match r {
            Ok(_) => psk@.len() > 0,
            Err(e) => psk@.len() == 0 && e@ == CoreFault::AuthError("empty psk"@),
        },
{
    if psk.len() == 0 {
        Err(CoreError::AuthError("empty psk".to_owned()))
    } else {
        Ok(())
    }
}

/// Checks the version that a client speaks.
pub fn check_version(version: u8) -> (r: Result<(), CoreError>)
    ensures
        match r {
            Ok(_) => version == PROTOCOL_VERSION,
            Err(e) => version != PROTOCOL_VERSION && e@ == CoreFault::SessionError(
                "bad preface version "@ + decimal(version as nat),
            ),
        },
{
    if version != PROTOCOL_VERSION {
        Err(
            CoreError::SessionError(
                joined("bad preface version ", decimal_of(version as u64).as_str()),
            ),
        )
    } else {
        Ok(())
    }
}

/// The header of an AUTH frame, or why it is none.
pub open spec fn auth_header_of(bytes: Seq<u8>) -> Result<FrameHeader, CoreFault> {
    match header_of(bytes) {
        Err(fault) => Err(CoreFault::Frame(fault)),
        Ok(header) => if header.frame_type != FrameType::Auth {
            Err(CoreFault::SessionError("expected AUTH frame"@))
        } else {
            Ok(header)
        },
    }
}

/// Reads the header of an AUTH frame.
pub fn read_auth_header(bytes: &[u8]) -> (r: Result<FrameHeader, CoreError>)
    ensures
        match (r, auth_header_of(bytes@)) {
            (Ok(h), Ok(m)) => h == m,
            (Err(e), Err(fault)) => e@ == fault,
            _ => false,
        },
{
    let mut buf = from_slice(bytes);
    match FrameHeader::decode(&mut buf) {
        Err(e) => Err(CoreError::Frame(e)),
        Ok(header) => if header.frame_type != FrameType::Auth {
            Err(CoreError::SessionError("expected AUTH frame".to_owned()))
        } else {
            Ok(header)
        },
    }
}

/// Nonce and token of an AUTH frame, or why there are none.
pub open spec fn credentials_of(body: Seq<u8>) -> Result<(Seq<u8>, Seq<u8>), CoreFault> {
    match payload_of(FrameType::Auth, body) {
        Err(fault) => Err(CoreFault::Frame(fault)),
        Ok(PayloadModel::Auth { client_nonce, token }) => Ok((client_nonce, token)),
        Ok(_) => Err(CoreFault::SessionError("expected AUTH payload"@)),
    }
}

/// What a client proves itself with.
pub struct Credentials {
    pub nonce: ClientNonce,
    pub token: AuthToken,
}

/// Reads nonce and token of an AUTH frame.
pub fn read_credentials(header: &FrameHeader, body: &[u8]) -> (r: Result<Credentials, CoreError>)
    ensures
        match (r, credentials_of(body@)) {
            (Ok(c), Ok(m)) => c.nonce@ == m.0 && c.token@ == m.1,
            (Err(e), Err(fault)) => e@ == fault,
            _ => false,
        },
{
    match Frame::deserialize_payload(
        FrameType::Auth,
        body,
        header.stream_id,
        header.sequence,
        header.flags,
    ) {
        Err(e) => Err(CoreError::Frame(e)),
        Ok(frame) => match frame.payload {
            FramePayload::Auth { client_nonce, token } => Ok(
                Credentials { nonce: client_nonce, token },
            ),
            _ => Err(CoreError::SessionError("expected AUTH payload".to_owned())),
        },
    }
}

/// Whether a client is let in at `now`, and why not: its token must be that of its
/// nonce, and the nonce must not have been seen. A bad token leaves the cache as
/// it is.
pub open spec fn admission(
    psk: Seq<u8>,
    nonce: Seq<u8>,
    token: Seq<u8>,
    before: NonceCache,
    after: NonceCache,
    now: nat,
    r: Result<(), CoreFault>,
) -> bool {
    if token != auth_token(psk, nonce) {
        r == Err::<(), CoreFault>(CoreFault::AuthError("bad token"@)) && after == before
    } else {
        &&& before.offered(after, nonce, now, r is Ok)
        &&& r matches Err(fault) ==> fault == CoreFault::AuthError("nonce replay"@)
    }
}

/// An outcome without a value.
pub open spec fn outcome(r: Result<(), CoreError>) -> Result<(), CoreFault> {
    match r {
        Ok(_) => Ok(()),
        Err(e) => Err(e@),
    }
}

/// Lets a client in, or not, at a given time of the cache.
pub fn let_in_at(psk: &[u8], who: &Credentials, cache: &mut NonceCache, now: u128) -> (r: Result<
    (),
    CoreError,
>)
    requires
        old(cache).spec_max_entries() > 0,
    ensures
        admission(
            psk@,
            who.nonce@,
            who.token@,
            *old(cache),
            *final(cache),
            now as nat,
            outcome(r),
        ),
{
    if verify_auth_token(psk, &who.nonce, &who.token).is_err() {
        return Err(CoreError::AuthError("bad token".to_owned()));
    }
    match cache.check_and_insert_at(who.nonce, now) {
        Ok(_) => Ok(()),
        Err(_) => Err(CoreError::AuthError("nonce replay".to_owned())),
    }
}

/// Lets a client in, or not.
pub fn let_in(psk: &[u8], who: &Credentials, cache: &mut NonceCache) -> (r: Result<(), CoreError>)
    requires
        old(cache).spec_max_entries() > 0,
    ensures
        exists|now: u128| #[trigger]
            admission(
                psk@,
                who.nonce@,
                who.token@,
                *old(cache),
                *final(cache),
                now as nat,
                outcome(r),
            ),
{
    if verify_auth_token(psk, &who.nonce, &who.token).is_err() {
        let r = Err(CoreError::AuthError("bad token".to_owned()));
        assert(admission(
            psk@,
            who.nonce@,
            who.token@,
            *old(cache),
            *cache,
            0u128 as nat,
            outcome(r),
        ));
        return r;
    }
    let seen = cache.check_and_insert(who.nonce);
    let r = match seen {
        Ok(_) => Ok(()),
        Err(_) => Err(CoreError::AuthError("nonce replay".to_owned())),
    };
    proof {
        let now = choose|now: u128| #[trigger]
            old(cache).offered(*cache, who.nonce@, now as nat, seen is Ok);
        assert(admission(
            psk@,
            who.nonce@,
            who.token@,
            *old(cache),
            *cache,
            now as nat,
            outcome(r),
        ));
    }
    r
}

/// What the server answers to a client that it lets in.
pub fn server_reply(server_nonce: &ClientNonce) -> (r: Vec<u8>)
    ensures
        r@ == server_nonce@.push(AUTH_OK),
{
    let mut bytes: Vec<u8> = Vec::with_capacity(REPLY_SIZE);
    bytes.extend_from_slice(server_nonce.as_slice());
    bytes.push(AUTH_OK);
    assert(bytes@ =~= server_nonce@.push(AUTH_OK));
    bytes
}

/// The server's session with a client that it let in.
pub fn server_session(psk: &[u8], client_nonce: &ClientNonce, server_nonce: &ClientNonce) -> (r:
    ServerSession)
    ensures
        is_fresh(r.mux),
        r.keys.spec_swapped().derived_from(psk@, client_nonce@ + server_nonce@),
{
    let mut keys = SessionKeys::new_with_salt(
        psk,
        session_salt(client_nonce, server_nonce).as_slice(),
    );
    keys.swap();
    ServerSession { mux: MuxManager::new(), keys }
}

/// Where a server stands in a handshake.
#[derive(Clone, Copy)]
pub enum ServerStage {
    /// The version is read next.
    Version,
    /// The header of the AUTH frame is read next.
    Header,
    /// The body of the AUTH frame is read next.
    Body(FrameHeader),
    /// The client was let in; it used this nonce.
    Answer(ClientNonce),
}

/// Mathematical counterpart of [`ServerStage`].
pub enum StageModel {
    Version,
    Header,
    Body(FrameHeader),
    Answer(Seq<u8>),
}

impl View for ServerStage {
    type V = StageModel;

    open spec fn view(&self) -> StageModel {
        match *self {
            ServerStage::Version => StageModel::Version,
            ServerStage::Header => StageModel::Header,
            ServerStage::Body(header) => StageModel::Body(header),
            ServerStage::Answer(nonce) => StageModel::Answer(nonce@),
        }
    }
}

/// How many bytes are read at a stage.
pub open spec fn wanted(stage: StageModel) -> nat {
    match stage {
        StageModel::Version => 1,
        StageModel::Header => FRAME_HEADER_SIZE as nat,
        StageModel::Body(header) => header.length as nat,
        StageModel::Answer(_) => 0,
    }
}

/// Whether the bytes read at a stage lead on to `next`, or fail with `r`.
pub open spec fn stepped(
    psk: Seq<u8>,
    stage: StageModel,
    bytes: Seq<u8>,
    before: NonceCache,
    after: NonceCache,
    now: nat,
    r: Result<(), CoreFault>,
    next: StageModel,
) -> bool {
    match stage {
        StageModel::Version => {
            &&& after == before
            &&& if bytes[0] == PROTOCOL_VERSION {
                r is Ok && next == StageModel::Header
            } else {
                &&& r == Err::<(), _>(
                    CoreFault::SessionError("bad preface version "@ + decimal(bytes[0] as nat)),
                )
                &&& next == stage
            }
        },
        StageModel::Header => {
            &&& after == before
            &&& match auth_header_of(bytes) {
                Ok(header) => r is Ok && next == StageModel::Body(header),
                Err(fault) => r == Err::<(), _>(fault) && next == stage,
            }
        },
        StageModel::Body(_) => match credentials_of(bytes) {
            Err(fault) => after == before && r == Err::<(), _>(fault) && next == stage,
            Ok((nonce, token)) => {
                &&& admission(psk, nonce, token, before, after, now, r)
                &&& next == if r is Ok {
                    StageModel::Answer(nonce)
                } else {
                    stage
                }
            },
        },
        StageModel::Answer(_) => false,
    }
}

/// The server's side of a handshake: which bytes are read, and what they lead to.
pub struct ServerHandshake<'a> {
    psk: &'a [u8],
    stage: ServerStage,
}

impl<'a> ServerHandshake<'a> {
    /// The pre-shared key.
    pub closed spec fn spec_psk(&self) -> Seq<u8> {
        self.psk@
    }

    /// Where the handshake stands.
    pub closed spec fn spec_stage(&self) -> StageModel {
        self.stage@
    }

    /// A handshake before anything was read. An empty key is refused.
    pub fn new(psk: &'a [u8]) -> (r: Result<Self, CoreError>)
        ensures
            match r {
                Ok(h) => psk@.len() > 0 && h.spec_psk() == psk@ && h.spec_stage()
                    == StageModel::Version,
                Err(e) => psk@.len() == 0 && e@ == CoreFault::AuthError("empty psk"@),
            },
    {
        match check_psk(psk) {
            Ok(_) => Ok(ServerHandshake { psk, stage: ServerStage::Version }),
            Err(e) => Err(e),
        }
    }

    /// How many bytes are read next, `None` once the client was let in.
    pub fn wants(&self) -> (r: Option<usize>)
        ensures
            match r {
                Some(n) => self.spec_stage() !is Answer && n == wanted(self.spec_stage()),
                None => self.spec_stage() is Answer,
            },
    {
        match self.stage {
            ServerStage::Version => Some(1),
            ServerStage::Header => Some(FRAME_HEADER_SIZE),
            ServerStage::Body(header) => Some(header.length as usize),
            ServerStage::Answer(_) => None,
        }
    }

    /// Takes the bytes of the version or of the header.
    fn take_opening(&mut self, bytes: &[u8], cache: &NonceCache) -> (r: Result<(), CoreError>)
        requires
            old(self).spec_stage() is Version || old(self).spec_stage() is Header,
            bytes@.len() == wanted(old(self).spec_stage()),
        ensures
            final(self).spec_psk() == old(self).spec_psk(),
            forall|now: nat| #[trigger]
                stepped(
                    old(self).spec_psk(),
                    old(self).spec_stage(),
                    bytes@,
                    *cache,
                    *cache,
                    now,
                    outcome(r),
                    final(self).spec_stage(),
                ),
    {
        if let ServerStage::Version = self.stage {
            match check_version(bytes[0]) {
                Ok(_) => {
                    self.stage = ServerStage::Header;
                    Ok(())
                },
                Err(e) => Err(e),
            }
        } else {
            match read_auth_header(bytes) {
                Ok(header) => {
                    self.stage = ServerStage::Body(header);
                    Ok(())
                },
                Err(e) => Err(e),
            }
        }
    }

    /// Takes the bytes that were read, at a given time of the cache.
    pub fn take_at(&mut self, bytes: &[u8], cache: &mut NonceCache, now: u128) -> (r: Result<
        (),
        CoreError,
    >)
        requires
            old(self).spec_stage() !is Answer,
            bytes@.len() == wanted(old(self).spec_stage()),
            old(cache).spec_max_entries() > 0,
        ensures
            final(self).spec_psk() == old(self).spec_psk(),
            stepped(
                old(self).spec_psk(),
                old(self).spec_stage(),
                bytes@,
                *old(cache),
                *final(cache),
                now as nat,
                outcome(r),
                final(self).spec_stage(),
            ),
    {
        if let ServerStage::Body(header) = self.stage {
            let who = match read_credentials(&header, bytes) {
                Ok(who) => who,
                Err(e) => {
                    return Err(e);
                },
            };
            match let_in_at(self.psk, &who, cache, now) {
                Ok(_) => {
                    self.stage = ServerStage::Answer(who.nonce);
                    Ok(())
                },
                Err(e) => Err(e),
            }
        } else {
            self.take_opening(bytes, cache)
        }
    }

    /// Takes the bytes that were read.
    pub fn take(&mut self, bytes: &[u8], cache: &mut NonceCache) -> (r: Result<(), CoreError>)
        requires
            old(self).spec_stage() !is Answer,
            bytes@.len() == wanted(old(self).spec_stage()),
            old(cache).spec_max_entries() > 0,
        ensures
            final(self).spec_psk() == old(self).spec_psk(),
            exists|now: u128| #[trigger]
                stepped(
                    old(self).spec_psk(),
                    old(self).spec_stage(),
                    bytes@,
                    *old(cache),
                    *final(cache),
                    now as nat,
                    outcome(r),
                    final(self).spec_stage(),
                ),
    {
        if let ServerStage::Body(header) = self.stage {
            let who = match read_credentials(&header, bytes) {
                Ok(who) => who,
                Err(e) => {
                    let r = Err(e);
                    assert(stepped(
                        old(self).spec_psk(),
                        old(self).spec_stage(),
                        bytes@,
                        *old(cache),
                        *cache,
                        0u128 as nat,
                        outcome(r),
                        self.spec_stage(),
                    ));
                    return r;
                },
            };
            let done = let_in(self.psk, &who, cache);
            let ghost now = choose|now: u128| #[trigger]
                admission(
                    self.psk@,
                    who.nonce@,
                    who.token@,
                    *old(cache),
                    *cache,
                    now as nat,
                    outcome(done),
                );
            if done.is_ok() {
                self.stage = ServerStage::Answer(who.nonce);
            }
            assert(stepped(
                old(self).spec_psk(),
                old(self).spec_stage(),
                bytes@,
                *old(cache),
                *cache,
                now as nat,
                outcome(done),
                self.spec_stage(),
            ));
            done
        } else {
            let r = self.take_opening(bytes, cache);
            assert(stepped(
                old(self).spec_psk(),
                old(self).spec_stage(),
                bytes@,
                *old(cache),
                *cache,
                0u128 as nat,
                outcome(r),
                self.spec_stage(),
            ));
            r
        }
    }

    /// What is answered to a client that was let in, and the session with it.
    pub fn answer(&self, server_nonce: &ClientNonce) -> (r: (Vec<u8>, ServerSession))
        requires
            self.spec_stage() is Answer,
        ensures
            r.0@ == server_nonce@.push(AUTH_OK),
            is_fresh(r.1.mux),
            r.1.keys.spec_swapped().derived_from(
                self.spec_psk(),
                self.spec_stage()->Answer_0 + server_nonce@,
            ),
    {
        let nonce = match self.stage {
            ServerStage::Answer(nonce) => nonce,
            _ => *server_nonce,
        };
        (server_reply(server_nonce), server_session(self.psk, &nonce, server_nonce))
    }
}

/// The server reads what the client sent: the version is the one it checks, the
/// header is accepted, and nonce and token are the client's.
pub proof fn hello_is_understood(nonce: Seq<u8>, token: Seq<u8>)
    requires
        nonce.len() == 32,
        token.len() == 32,
    ensures
        ({
            let hello = hello_bytes(nonce, token);
            &&& hello.len() == 89
            &&& hello[0] == PROTOCOL_VERSION
            &&& auth_header_of(hello.subrange(1, 25)) == Ok::<FrameHeader, CoreFault>(
                auth_header(),
            )
            &&& credentials_of(hello.skip(25)) == Ok::<(Seq<u8>, Seq<u8>), CoreFault>(
                (nonce, token),
            )
        }),
{
    let hello = hello_bytes(nonce, token);
    header_round_trip(auth_header(), Seq::empty());
    let head = header_bytes(auth_header());
    assert(head + Seq::<u8>::empty() =~= head);
    assert(hello.subrange(1, 25) =~= head);
    assert(hello.skip(25) =~= nonce + token);
    let payload = PayloadModel::Auth { client_nonce: nonce, token };
    payload_round_trip(FrameType::Auth, payload);
}

/// A client that knows the key and uses a nonce of its own is let in.
pub proof fn known_key_and_fresh_nonce_are_let_in(
    psk: Seq<u8>,
    nonce: Seq<u8>,
    before: NonceCache,
    after: NonceCache,
    now: nat,
    r: Result<(), CoreFault>,
)
    requires
        admission(psk, nonce, auth_token(psk, nonce), before, after, now, r),
        !crate::crypto::auth::holds_nonce(before.spec_entries(), nonce),
    ensures
        r is Ok,
{
    let keep = |e: crate::crypto::auth::SeenNonce|
        crate::crypto::auth::remembered(e, now, before.spec_ttl_nanos());
    let kept = before.spec_entries().filter(keep);
    assert forall|i: int| 0 <= i < kept.len() implies (#[trigger] kept[i]).nonce != nonce by {
        assert(kept.contains(kept[i]));
        before.spec_entries().lemma_filter_contains_rev(keep, kept[i]);
    }
}

/// The server that reads the hello of a client with the key and a nonce of its own
/// gets through every stage, and answers to that nonce.
pub proof fn hello_leads_to_an_answer(
    psk: Seq<u8>,
    nonce: ClientNonce,
    token: AuthToken,
    stages: (StageModel, StageModel, StageModel),
    caches: (NonceCache, NonceCache, NonceCache, NonceCache),
    times: (nat, nat, nat),
    outcomes: (Result<(), CoreFault>, Result<(), CoreFault>, Result<(), CoreFault>),
)
    requires
        token@ == auth_token(psk, nonce@),
        !crate::crypto::auth::holds_nonce(caches.0.spec_entries(), nonce@),
        ({
            let hello = hello_bytes(nonce@, token@);
            &&& stepped(
                psk,
                StageModel::Version,
                hello.take(1),
                caches.0,
                caches.1,
                times.0,
                outcomes.0,
                stages.0,
            )
            &&& stepped(
                psk,
                stages.0,
                hello.subrange(1, 25),
                caches.1,
                caches.2,
                times.1,
                outcomes.1,
                stages.1,
            )
            &&& stepped(
                psk,
                stages.1,
                hello.skip(25),
                caches.2,
                caches.3,
                times.2,
                outcomes.2,
                stages.2,
            )
        }),
    ensures
        outcomes.0 is Ok && outcomes.1 is Ok && outcomes.2 is Ok,
        stages.0 == StageModel::Header,
        stages.1 == StageModel::Body(auth_header()),
        stages.2 == StageModel::Answer(nonce@),
{
    hello_is_understood(nonce@, token@);
    known_key_and_fresh_nonce_are_let_in(
        psk,
        nonce@,
        caches.2,
        caches.3,
        times.2,
        outcomes.2,
    );
}

/// A client that is answered has shown a token that only the key makes of its
/// nonce.
pub proof fn only_key_holders_are_answered(
    psk: Seq<u8>,
    stage: StageModel,
    bytes: Seq<u8>,
    before: NonceCache,
    after: NonceCache,
    now: nat,
    r: Result<(), CoreFault>,
    nonce: Seq<u8>,
)
    requires
        stepped(psk, stage, bytes, before, after, now, r, StageModel::Answer(nonce)),
    ensures
        r is Ok,
        credentials_of(bytes) == Ok::<(Seq<u8>, Seq<u8>), CoreFault>(
            (nonce, auth_token(psk, nonce)),
        ),
{
}

/// Both sides of a handshake agree: what one side seals with, the other one opens
/// with.
pub proof fn sides_agree_on_keys(
    psk: Seq<u8>,
    client_nonce: Seq<u8>,
    server_nonce: Seq<u8>,
    client: SessionKeys,
    server: SessionKeys,
)
    requires
        client_nonce.len() == 32,
        server_nonce.len() == 32,
        accepted_nonce(server_nonce.push(AUTH_OK)) matches Ok(heard) && client.derived_from(
            psk,
            client_nonce + heard,
        ),
        server.spec_swapped().derived_from(psk, client_nonce + server_nonce),
    ensures
        client.tx_key@ == server.rx_key@,
        client.rx_key@ == server.tx_key@,
{
    assert(server_nonce.push(AUTH_OK).take(32) =~= server_nonce);
    peers_mirror_each_other(client, server, psk, client_nonce + server_nonce);
}

/// Where the parts of the hello stand: the version 1, the header of an AUTH frame on stream 0
/// with a length of 64, the nonce, and the token.
pub proof fn hello_layout(nonce: Seq<u8>, token: Seq<u8>)
    requires
        nonce.len() == 32,
        token.len() == 32,
    ensures
        ({
            let hello = hello_bytes(nonce, token);
            &&& hello.len() == 89
            &&& hello[0] == 1
            &&& header_of(hello.subrange(1, 25)) == Ok::<
                FrameHeader,
                crate::frame::FrameFault,
            >(
                FrameHeader {
                    length: 64,
                    frame_type: FrameType::Auth,
                    flags: 0,
                    stream_id: 0,
                    sequence: 0,
                },
            )
            &&& hello.subrange(25, 57) == nonce
            &&& hello.subrange(57, 89) == token
        }),
{
    let hello = hello_bytes(nonce, token);
    hello_is_understood(nonce, token);
    let head = header_bytes(auth_header());
    header_round_trip(auth_header(), Seq::empty());
    assert(head + Seq::<u8>::empty() =~= head);
    assert(hello.subrange(1, 25) =~= head);
    assert(hello.subrange(25, 57) =~= nonce);
    assert(hello.subrange(57, 89) =~= token);
}

/// An answer accepts the client exactly where its last byte is 0, and the nonce in it is
/// what stands before that byte.
pub proof fn answers_end_in_their_status(reply: Seq<u8>)
    requires
        reply.len() == 33,
    ensures
        accepted_nonce(reply) is Ok <==> reply[32] == 0,
        accepted_nonce(reply) matches Ok(nonce) ==> nonce.len() == 32 && forall|i: int|
            0 <= i < 32 ==> #[trigger] nonce[i] == reply[i],
{
}

/// A client is let in exactly where its token is that of its nonce under the key and the
/// nonce was not seen within its lifetime; a wrong token leaves no trace, and a nonce that
/// was let in is remembered.
pub proof fn only_fresh_key_holders_are_let_in(
    psk: Seq<u8>,
    nonce: Seq<u8>,
    token: Seq<u8>,
    before: NonceCache,
    after: NonceCache,
    now: nat,
    r: Result<(), CoreFault>,
)
    requires
        admission(psk, nonce, token, before, after, now, r),
    ensures
        r is Ok <==> token == auth_token(psk, nonce) && accepts(
            before.spec_entries(),
            nonce,
            now,
            before.spec_ttl_nanos(),
        ),
        token != auth_token(psk, nonce) ==> after == before,
        r is Ok ==> after.spec_entries().len() > 0 && after.spec_entries().last().nonce == nonce
            && after.spec_entries().last().timestamp == now,
        r matches Err(fault) ==> fault is AuthError,
{
}

/// A server gets on stage by stage: a version other than 1, a header that is not that of an
/// AUTH frame and a client that is not let in leave it where it is, with an error. Only the
/// body of an AUTH frame leads to an answer.
pub proof fn handshake_goes_stage_by_stage(
    psk: Seq<u8>,
    stage: StageModel,
    bytes: Seq<u8>,
    before: NonceCache,
    after: NonceCache,
    now: nat,
    r: Result<(), CoreFault>,
    next: StageModel,
)
    requires
        stepped(psk, stage, bytes, before, after, now, r, next),
    ensures
        r is Err ==> next == stage,
        match stage {
            StageModel::Version => {
                &&& r is Ok <==> bytes[0] == 1
                &&& r is Ok ==> next == StageModel::Header
                &&& after == before
            },
            StageModel::Header => {
                &&& r is Ok <==> (header_of(bytes) matches Ok(h) && h.frame_type == FrameType::Auth)
                &&& r is Ok ==> next == StageModel::Body(header_of(bytes)->Ok_0)
                &&& after == before
            },
            StageModel::Body(_) => {
                &&& r is Ok <==> bytes.len() >= 64 && bytes.subrange(32, 64) == auth_token(
                    psk,
                    bytes.subrange(0, 32),
                ) && accepts(
                    before.spec_entries(),
                    bytes.subrange(0, 32),
                    now,
                    before.spec_ttl_nanos(),
                )
                &&& r is Ok ==> next == StageModel::Answer(bytes.subrange(0, 32))
            },
            StageModel::Answer(_) => false,
        },
{
}

/// How many bytes are read at each stage: one of version, a header, and as many as the header
/// says.
pub proof fn stages_read_what_was_announced(header: FrameHeader, nonce: Seq<u8>)
    ensures
        wanted(StageModel::Version) == 1,
        wanted(StageModel::Header) == 24,
        wanted(StageModel::Body(header)) == header.length,
        wanted(StageModel::Answer(nonce)) == 0,
{
}

/// A new session has no stream, hands out the id 1 first, and has room for 4096 streams.
pub proof fn sessions_start_without_streams(mux: MuxManager, id: u16)
    requires
        is_fresh(mux),
    ensures
        !mux.entries().contains_key(id),
        mux.spec_next_id() == 1,
        mux.spec_max() == 4096,
{
}

} // verus!
