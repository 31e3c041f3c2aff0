//! Authentication tokens and replay protection of the handshake.
//!
//! token = HMAC-SHA256(PSK, "aetherlink-auth-v1" || client_nonce)

use hmac::{Hmac, Mac};
use sha2::Sha256;
use subtle::ConstantTimeEq;
use vstd::prelude::*;

use crate::crypto::aead::random_bytes;
use crate::crypto::{
    CryptoError, CryptoFault, AUTH_PREFIX, AUTH_TOKEN_SIZE, DEFAULT_NONCE_TTL_SECS, NONCE_SIZE,
};

verus! {

/// Nonce that a client picks for one handshake.
pub type ClientNonce = [u8; NONCE_SIZE];

/// Token that proves knowledge of the pre-shared key.
pub type AuthToken = [u8; AUTH_TOKEN_SIZE];

/// HMAC-SHA256 of a message under a key.
pub uninterp spec fn hmac_sha256(key: Seq<u8>, message: Seq<u8>) -> Seq<u8>;

/// Calls `new_from_slice`, `update` and `finalize` of `Hmac<Sha256>`.
///
/// Claimed of them: the 32 bytes returned depend on key and message alone. HMAC
/// takes keys of every length, so `new_from_slice` never fails here.
#[verifier::external_body]
fn hmac_tag(key: &[u8], message: &[u8]) -> (tag: [u8; AUTH_TOKEN_SIZE])
    ensures
        tag@ == hmac_sha256(key@, message@),
{
    let mut mac = <Hmac<Sha256>>::new_from_slice(key).expect("HMAC takes keys of every length");
    mac.update(message);
    mac.finalize().into_bytes().into()
}

/// Calls `ConstantTimeEq::ct_eq` on two byte slices.
///
/// Claimed of it: the answer is whether the slices hold the same bytes.
#[verifier::external_body]
fn constant_time_eq(a: &[u8], b: &[u8]) -> (r: bool)
    ensures
        r == (a@ == b@),
{
    a.ct_eq(b).into()
}

/// The token of a nonce under a pre-shared key.
pub open spec fn auth_token(psk: Seq<u8>, client_nonce: Seq<u8>) -> Seq<u8> {
    hmac_sha256(psk, AUTH_PREFIX@ + client_nonce)
}

/// Token of a nonce under a pre-shared key.
pub fn generate_auth_token(psk: &[u8], client_nonce: &ClientNonce) -> (r: AuthToken)
    ensures
        r@ == auth_token(psk@, client_nonce@),
{
    let mut message: Vec<u8> = Vec::with_capacity(AUTH_PREFIX.len() + NONCE_SIZE);
    message.extend_from_slice(AUTH_PREFIX.as_slice());
    message.extend_from_slice(client_nonce.as_slice());
    assert(message@ =~= AUTH_PREFIX@ + client_nonce@);
    hmac_tag(psk, message.as_slice())
}

/// Accepts exactly the token of the nonce; compares in constant time.
pub fn verify_auth_token(
    psk: &[u8],
    client_nonce: &ClientNonce,
    provided_token: &AuthToken,
) -> (r: Result<(), CryptoError>)
    ensures
        r is Ok <==> provided_token@ == auth_token(psk@, client_nonce@),
        r matches Err(e) ==> e@ == CryptoFault::AuthenticationFailed("Invalid auth token"@),
{
    let expected = generate_auth_token(psk, client_nonce);
    if constant_time_eq(expected.as_slice(), provided_token.as_slice()) {
        Ok(())
    } else {
        Err(CryptoError::AuthenticationFailed("Invalid auth token".to_owned()))
    }
}

/// A fresh random nonce.
pub fn generate_nonce() -> (r: ClientNonce)
    ensures
        r@.len() == NONCE_SIZE,
{
    random_bytes::<NONCE_SIZE>()
}

/// The monotonic clock's instant.
#[verifier::external_type_specification]
#[verifier::external_body]
pub struct ExInstant(std::time::Instant);

/// Calls `Instant::now`. Nothing is claimed of the instant.
#[verifier::external_body]
fn clock_now() -> std::time::Instant {
    std::time::Instant::now()
}

/// Nanoseconds that `Instant::elapsed` reports since `start`. Nothing is claimed
/// of the number: it depends on the clock.
#[verifier::external_body]
fn nanos_since(start: &std::time::Instant) -> u128 {
    start.elapsed().as_nanos()
}

/// A nonce together with the time it was first seen.
#[derive(Clone, Copy, Debug)]
pub struct NonceEntry {
    pub nonce: ClientNonce,
    /// Nanoseconds since the cache was made.
    pub timestamp: u128,
}

/// Mathematical counterpart of [`NonceEntry`].
pub struct SeenNonce {
    pub nonce: Seq<u8>,
    pub timestamp: nat,
}

impl View for NonceEntry {
    type V = SeenNonce;

    open spec fn view(&self) -> SeenNonce {
        SeenNonce { nonce: self.nonce@, timestamp: self.timestamp as nat }
    }
}

/// Whether an entry is still remembered at `now`.
pub open spec fn remembered(entry: SeenNonce, now: nat, ttl_nanos: nat) -> bool {
    (if now >= entry.timestamp {
        now - entry.timestamp
    } else {
        0
    }) < ttl_nanos
}

/// The entries of `entries` that are still remembered at `now`, in order.
pub open spec fn unexpired(entries: Seq<SeenNonce>, now: nat, ttl_nanos: nat) -> Seq<SeenNonce> {
    entries.filter(|e: SeenNonce| remembered(e, now, ttl_nanos))
}

/// Whether one of the entries holds `nonce`.
pub open spec fn holds_nonce(entries: Seq<SeenNonce>, nonce: Seq<u8>) -> bool {
    exists|i: int| 0 <= i < entries.len() && (#[trigger] entries[i]).nonce == nonce
}

/// Whether `nonce` is accepted at `now`: no entry that is still remembered holds it.
pub open spec fn accepts(
    entries: Seq<SeenNonce>,
    nonce: Seq<u8>,
    now: nat,
    ttl_nanos: nat,
) -> bool {
    !holds_nonce(unexpired(entries, now, ttl_nanos), nonce)
}

/// The entries after `nonce` was offered at `now`: expired ones are dropped, a
/// fresh nonce is appended, and the oldest entry makes room when the cache is full.
pub open spec fn after_offer(
    entries: Seq<SeenNonce>,
    nonce: Seq<u8>,
    now: nat,
    ttl_nanos: nat,
    max_entries: nat,
) -> Seq<SeenNonce> {
    let kept = unexpired(entries, now, ttl_nanos);
    if holds_nonce(kept, nonce) {
        kept
    } else {
        let room = if kept.len() >= max_entries {
            kept.skip(1)
        } else {
            kept
        };
        room.push(SeenNonce { nonce, timestamp: now })
    }
}

/// Remembers recently seen nonces and refuses to see one twice.
pub struct NonceCache {
    entries: Vec<NonceEntry>,
    ttl_nanos: u128,
    max_entries: usize,
    started: std::time::Instant,
}

impl NonceCache {
    /// The remembered nonces, oldest first.
    pub closed spec fn spec_entries(&self) -> Seq<SeenNonce> {
        self.entries@.map_values(|e: NonceEntry| e@)
    }

    /// How long a nonce is remembered, in nanoseconds.
    pub closed spec fn spec_ttl_nanos(&self) -> nat {
        self.ttl_nanos as nat
    }

    /// How many nonces are remembered at most.
    pub closed spec fn spec_max_entries(&self) -> nat {
        self.max_entries as nat
    }

    /// Default lifetime and room for 10000 nonces.
    pub fn new() -> (r: Self)
        ensures
            r.spec_entries() == Seq::<SeenNonce>::empty(),
            r.spec_ttl_nanos() == DEFAULT_NONCE_TTL_SECS * 1_000_000_000,
            r.spec_max_entries() == 10000,
    {
        NonceCache::with_config(DEFAULT_NONCE_TTL_SECS, 10000)
    }

    /// Lifetime in seconds and number of nonces remembered at most.
    pub fn with_config(ttl_secs: u64, max_entries: usize) -> (r: Self)
        ensures
            r.spec_entries() == Seq::<SeenNonce>::empty(),
            r.spec_ttl_nanos() == ttl_secs * 1_000_000_000,
            r.spec_max_entries() == max_entries,
    {
        let r = NonceCache {
            entries: Vec::new(),
            ttl_nanos: ttl_secs as u128 * 1_000_000_000,
            max_entries,
            started: clock_now(),
        };
        assert(r.spec_entries() =~= Seq::<SeenNonce>::empty());
        r
    }

    /// Accepts a nonce that was not seen within the lifetime, and remembers it.
    pub fn check_and_insert(&mut self, nonce: ClientNonce) -> (r: Result<(), CryptoError>)
        requires
            old(self).spec_max_entries() > 0,
        ensures
            exists|now: u128| #[trigger]
                old(self).offered(*final(self), nonce@, now as nat, r is Ok),
            r matches Err(e) ==> e@ == CryptoFault::AuthenticationFailed("Nonce replay detected"@),
    {
        let now: u128 = nanos_since(&self.started);
        let r = self.check_and_insert_at(nonce, now);
        assert(old(self).offered(*self, nonce@, now as nat, r is Ok));
        r
    }

    /// Whether `after` is this cache after `nonce` was offered at `now`, and
    /// `accepted` the answer.
    pub open spec fn offered(
        &self,
        after: NonceCache,
        nonce: Seq<u8>,
        now: nat,
        accepted: bool,
    ) -> bool {
        &&& accepted <==> accepts(self.spec_entries(), nonce, now, self.spec_ttl_nanos())
        &&& after.spec_entries() == after_offer(
            self.spec_entries(),
            nonce,
            now,
            self.spec_ttl_nanos(),
            self.spec_max_entries(),
        )
        &&& after.spec_ttl_nanos() == self.spec_ttl_nanos()
        &&& after.spec_max_entries() == self.spec_max_entries()
    }

    /// [`check_and_insert`](NonceCache::check_and_insert) at a given time, in
    /// nanoseconds since the cache was made.
    pub fn check_and_insert_at(&mut self, nonce: ClientNonce, now: u128) -> (r: Result<
        (),
        CryptoError,
    >)
        requires
            old(self).spec_max_entries() > 0,
        ensures
            old(self).offered(*final(self), nonce@, now as nat, r is Ok),
            r matches Err(e) ==> e@ == CryptoFault::AuthenticationFailed("Nonce replay detected"@),
    {
        let ghost before = self.spec_entries();
        let ghost ttl = self.ttl_nanos as nat;
        let ghost live = |e: SeenNonce| remembered(e, now as nat, ttl);
        let mut kept: Vec<NonceEntry> = Vec::new();
        let mut replay = false;
        let mut i: usize = 0;
        while i < self.entries.len()
            invariant
                0 <= i <= self.entries@.len(),
                *self == *old(self),
                before == self.spec_entries(),
                ttl == self.ttl_nanos,
                live == |e: SeenNonce| remembered(e, now as nat, ttl),
                kept@.map_values(|e: NonceEntry| e@) == before.take(i as int).filter(live),
                replay <==> holds_nonce(kept@.map_values(|e: NonceEntry| e@), nonce@),
            decreases self.entries@.len() - i,
        {
            let entry = self.entries[i];
            let age: u128 = if now >= entry.timestamp {
                now - entry.timestamp
            } else {
                0
            };
            let ghost kept_before = kept@.map_values(|e: NonceEntry| e@);
            proof {
                let next = before.take(i + 1);
                assert(next.drop_last() =~= before.take(i as int));
                assert(next.last() == entry@);
                reveal(Seq::filter);
            }
            if age < self.ttl_nanos {
                let same = same_nonce(&entry.nonce, &nonce);
                kept.push(entry);
                let ghost kept_after = kept@.map_values(|e: NonceEntry| e@);
                assert(kept_after =~= kept_before.push(entry@));
                proof {
                    if same {
                        assert(kept_after[kept_before.len() as int].nonce == nonce@);
                    }
                    if holds_nonce(kept_before, nonce@) {
                        let k = choose|k: int|
                            0 <= k < kept_before.len() && (#[trigger] kept_before[k]).nonce
                                == nonce@;
                        assert(kept_after[k].nonce == nonce@);
                    }
                }
                if same {
                    replay = true;
                }
            }
            i += 1;
        }
        assert(before.take(i as int) =~= before);
        if replay {
            self.entries = kept;
            return Err(CryptoError::AuthenticationFailed("Nonce replay detected".to_owned()));
        }
        let ghost room = kept@.map_values(|e: NonceEntry| e@);
        if kept.len() >= self.max_entries {
            kept.remove(0);
            assert(kept@.map_values(|e: NonceEntry| e@) =~= room.skip(1));
        }
        let ghost room = kept@.map_values(|e: NonceEntry| e@);
        kept.push(NonceEntry { nonce, timestamp: now });
        assert(kept@.map_values(|e: NonceEntry| e@) =~= room.push(
            SeenNonce { nonce: nonce@, timestamp: now as nat },
        ));
        self.entries = kept;
        Ok(())
    }

    /// Number of nonces remembered, expired ones included.
    pub fn len(&self) -> (r: usize)
        ensures
            r == self.spec_entries().len(),
    {
        self.entries.len()
    }

    /// Whether no nonce is remembered.
    pub fn is_empty(&self) -> (r: bool)
        ensures
            r == (self.spec_entries().len() == 0),
    {
        self.len() == 0
    }
}

/// Whether two nonces are the same.
fn same_nonce(a: &ClientNonce, b: &ClientNonce) -> (r: bool)
    ensures
        r == (a@ == b@),
{
    let mut i: usize = 0;
    while i < NONCE_SIZE
        invariant
            0 <= i <= NONCE_SIZE,
            a@.len() == NONCE_SIZE,
            b@.len() == NONCE_SIZE,
            forall|j: int| 0 <= j < i ==> a@[j] == b@[j],
        decreases NONCE_SIZE - i,
    {
        if a[i] != b[i] {
            return false;
        }
        i += 1;
    }
    assert(a@ =~= b@);
    true
}

impl Default for NonceCache {
    fn default() -> (r: Self)
        ensures
            r.spec_entries() == Seq::<SeenNonce>::empty(),
            r.spec_ttl_nanos() == DEFAULT_NONCE_TTL_SECS * 1_000_000_000,
            r.spec_max_entries() == 10000,
    {
        NonceCache::new()
    }
}

/// The entries after a run of nonces was offered, each with its time, first to last.
pub open spec fn after_offers(
    entries: Seq<SeenNonce>,
    offers: Seq<(Seq<u8>, nat)>,
    ttl_nanos: nat,
    max_entries: nat,
) -> Seq<SeenNonce>
    decreases offers.len(),
{
    if offers.len() == 0 {
        entries
    } else {
        after_offer(
            after_offers(entries, offers.drop_last(), ttl_nanos, max_entries),
            offers.last().0,
            offers.last().1,
            ttl_nanos,
            max_entries,
        )
    }
}

/// An entry that passes a filter is found again, with no more entries behind it.
proof fn lemma_filter_keeps(
    entries: Seq<SeenNonce>,
    pred: spec_fn(SeenNonce) -> bool,
    i: int,
) -> (j: int)
    requires
        0 <= i < entries.len(),
        pred(entries[i]),
    ensures
        0 <= j < entries.filter(pred).len(),
        entries.filter(pred)[j] == entries[i],
        entries.filter(pred).len() - j <= entries.len() - i,
    decreases entries.len(),
{
    reveal(Seq::filter);
    if i == entries.len() - 1 {
        entries.filter(pred).len() - 1
    } else {
        assert(entries.drop_last()[i] == entries[i]);
        lemma_filter_keeps(entries.drop_last(), pred, i)
    }
}

/// The offers of a run that were accepted, each with its time, first to last.
pub open spec fn accepted_offers(
    entries: Seq<SeenNonce>,
    offers: Seq<(Seq<u8>, nat)>,
    ttl_nanos: nat,
    max_entries: nat,
) -> Seq<(Seq<u8>, nat)>
    decreases offers.len(),
{
    if offers.len() == 0 {
        Seq::empty()
    } else {
        let fewer = offers.drop_last();
        let (nonce, now) = offers.last();
        let before = accepted_offers(entries, fewer, ttl_nanos, max_entries);
        if accepts(after_offers(entries, fewer, ttl_nanos, max_entries), nonce, now, ttl_nanos) {
            before.push((nonce, now))
        } else {
            before
        }
    }
}

/// The position of the last offer of a nonce, -1 where there is none.
pub open spec fn last_offer(offers: Seq<(Seq<u8>, nat)>, nonce: Seq<u8>) -> int
    decreases offers.len(),
{
    if offers.len() == 0 {
        -1
    } else if offers.last().0 == nonce {
        offers.len() - 1
    } else {
        last_offer(offers.drop_last(), nonce)
    }
}

/// Whether the times of a run lie between two times and never go back.
pub open spec fn in_time(offers: Seq<(Seq<u8>, nat)>, first: nat, last: nat) -> bool {
    &&& forall|i: int| 0 <= i < offers.len() ==> first <= (#[trigger] offers[i]).1 <= last
    &&& forall|i: int, j: int|
        0 <= i < j < offers.len() ==> (#[trigger] offers[i]).1 <= (#[trigger] offers[j]).1
}

/// Whether entries tell of a nonce what the accepted offers up to `now` do: it is
/// held with the time of its last acceptance or not at all, and it is held within its
/// lifetime unless there are too many acceptances since.
spec fn tells_of(
    entries: Seq<SeenNonce>,
    log: Seq<(Seq<u8>, nat)>,
    nonce: Seq<u8>,
    now: nat,
    ttl_nanos: nat,
    max_entries: nat,
) -> bool {
    let p = last_offer(log, nonce);
    &&& p < log.len()
    &&& p >= 0 ==> log[p].1 <= now
    &&& forall|i: int|
        0 <= i < entries.len() && (#[trigger] entries[i]).nonce == nonce ==> p >= 0
            && entries[i].timestamp == log[p].1
    &&& p >= 0 && now < log[p].1 + ttl_nanos && log.len() - p <= max_entries ==> exists|i: int|
        0 <= i < entries.len() && (#[trigger] entries[i]).nonce == nonce && entries.len() - i
            <= log.len() - p
}

/// An entry of a filtered list is one of the list.
proof fn lemma_filter_source(
    entries: Seq<SeenNonce>,
    pred: spec_fn(SeenNonce) -> bool,
    i: int,
) -> (j: int)
    requires
        0 <= i < entries.filter(pred).len(),
    ensures
        0 <= j < entries.len(),
        entries[j] == entries.filter(pred)[i],
        pred(entries[j]),
{
    let left = entries.filter(pred);
    entries.lemma_filter_pred(pred, i);
    assert(left.contains(left[i]));
    entries.lemma_filter_contains_rev(pred, left[i]);
    choose|j: int| 0 <= j < entries.len() && entries[j] == left[i]
}

proof fn lemma_offer(
    entries: Seq<SeenNonce>,
    log: Seq<(Seq<u8>, nat)>,
    nonce: Seq<u8>,
    before: nat,
    offer: (Seq<u8>, nat),
    ttl_nanos: nat,
    max_entries: nat,
)
    requires
        tells_of(entries, log, nonce, before, ttl_nanos, max_entries),
        before <= offer.1,
        max_entries > 0,
    ensures
        tells_of(
            after_offer(entries, offer.0, offer.1, ttl_nanos, max_entries),
            if accepts(entries, offer.0, offer.1, ttl_nanos) {
                log.push(offer)
            } else {
                log
            },
            nonce,
            offer.1,
            ttl_nanos,
            max_entries,
        ),
{
    let (other, now) = offer;
    let pred = |e: SeenNonce| remembered(e, now, ttl_nanos);
    let kept = unexpired(entries, now, ttl_nanos);
    let accepted = accepts(entries, other, now, ttl_nanos);
    let after = after_offer(entries, other, now, ttl_nanos, max_entries);
    let longer = if accepted {
        log.push(offer)
    } else {
        log
    };
    let drops = accepted && kept.len() >= max_entries;
    let p = last_offer(log, nonce);
    let q = last_offer(longer, nonce);
    assert(log.push(offer).drop_last() =~= log);
    assert forall|i: int| 0 <= i < kept.len() && (#[trigger] kept[i]).nonce == nonce implies p
        >= 0 && kept[i].timestamp == log[p].1 by {
        let j = lemma_filter_source(entries, pred, i);
        assert(entries[j].nonce == nonce);
    }
    if accepted && other == nonce {
        assert forall|i: int| 0 <= i < after.len() && (#[trigger] after[i]).nonce
            == nonce implies after[i].timestamp == now by {
            if i < after.len() - 1 {
                let k = if drops {
                    i + 1
                } else {
                    i
                };
                assert(kept[k] == after[i]);
            }
        }
        assert(after[after.len() - 1].nonce == nonce);
    } else {
        assert(q == p);
        assert forall|i: int| 0 <= i < after.len() && (#[trigger] after[i]).nonce
            == nonce implies q >= 0 && after[i].timestamp == longer[q].1 by {
            let k = if drops {
                i + 1
            } else {
                i
            };
            if i < after.len() - 1 || !accepted {
                assert(kept[k] == after[i]);
            }
        }
        if p >= 0 && now < log[p].1 + ttl_nanos && longer.len() - p <= max_entries {
            let i = choose|i: int|
                0 <= i < entries.len() && (#[trigger] entries[i]).nonce == nonce && entries.len()
                    - i <= log.len() - p;
            let j = lemma_filter_keeps(entries, pred, i);
            let k = if drops {
                j - 1
            } else {
                j
            };
            assert(after[k] == entries[i]);
        }
    }
}

proof fn lemma_offers(
    entries: Seq<SeenNonce>,
    log: Seq<(Seq<u8>, nat)>,
    nonce: Seq<u8>,
    first: nat,
    offers: Seq<(Seq<u8>, nat)>,
    last: nat,
    ttl_nanos: nat,
    max_entries: nat,
)
    requires
        tells_of(entries, log, nonce, first, ttl_nanos, max_entries),
        in_time(offers, first, last),
        first <= last,
        max_entries > 0,
    ensures
        tells_of(
            after_offers(entries, offers, ttl_nanos, max_entries),
            log + accepted_offers(entries, offers, ttl_nanos, max_entries),
            nonce,
            last,
            ttl_nanos,
            max_entries,
        ),
    decreases offers.len(),
{
    if offers.len() == 0 {
        assert(log + Seq::<(Seq<u8>, nat)>::empty() =~= log);
    } else {
        let fewer = offers.drop_last();
        let offer = offers.last();
        assert(offer == offers[offers.len() - 1]);
        assert(forall|i: int| 0 <= i < fewer.len() ==> #[trigger] fewer[i] == offers[i]);
        lemma_offers(entries, log, nonce, first, fewer, offer.1, ttl_nanos, max_entries);
        let before = accepted_offers(entries, fewer, ttl_nanos, max_entries);
        lemma_offer(
            after_offers(entries, fewer, ttl_nanos, max_entries),
            log + before,
            nonce,
            offer.1,
            offer,
            ttl_nanos,
            max_entries,
        );
        assert((log + before).push(offer) =~= log + before.push(offer));
    }
}

/// What entries tell of a nonce decides whether it is accepted.
proof fn lemma_judged(
    entries: Seq<SeenNonce>,
    log: Seq<(Seq<u8>, nat)>,
    nonce: Seq<u8>,
    now: nat,
    ttl_nanos: nat,
    max_entries: nat,
)
    requires
        tells_of(entries, log, nonce, now, ttl_nanos, max_entries),
    ensures
        ({
            let p = last_offer(log, nonce);
            &&& p < 0 || now >= log[p].1 + ttl_nanos ==> accepts(entries, nonce, now, ttl_nanos)
            &&& p >= 0 && now < log[p].1 + ttl_nanos && log.len() - p <= max_entries ==> !accepts(
                entries,
                nonce,
                now,
                ttl_nanos,
            )
        }),
{
    let pred = |e: SeenNonce| remembered(e, now, ttl_nanos);
    let kept = unexpired(entries, now, ttl_nanos);
    let p = last_offer(log, nonce);
    if p < 0 || now >= log[p].1 + ttl_nanos {
        if holds_nonce(kept, nonce) {
            let i = choose|i: int| 0 <= i < kept.len() && (#[trigger] kept[i]).nonce == nonce;
            let j = lemma_filter_source(entries, pred, i);
            assert(entries[j].nonce == nonce);
        }
    } else if log.len() - p <= max_entries {
        let i = choose|i: int|
            0 <= i < entries.len() && (#[trigger] entries[i]).nonce == nonce && entries.len() - i
                <= log.len() - p;
        let j = lemma_filter_keeps(entries, pred, i);
        assert(kept[j].nonce == nonce);
    }
}

/// A nonce that was just accepted is told of.
proof fn lemma_accepted_is_told_of(
    entries: Seq<SeenNonce>,
    nonce: Seq<u8>,
    first: nat,
    ttl_nanos: nat,
    max_entries: nat,
)
    requires
        accepts(entries, nonce, first, ttl_nanos),
        max_entries > 0,
    ensures
        tells_of(
            after_offer(entries, nonce, first, ttl_nanos, max_entries),
            seq![(nonce, first)],
            nonce,
            first,
            ttl_nanos,
            max_entries,
        ),
{
    let kept = unexpired(entries, first, ttl_nanos);
    let after = after_offer(entries, nonce, first, ttl_nanos, max_entries);
    let log = seq![(nonce, first)];
    assert(last_offer(log, nonce) == 0);
    assert forall|i: int| 0 <= i < after.len() && (#[trigger] after[i]).nonce
        == nonce implies after[i].timestamp == first by {
        if i < after.len() - 1 {
            let k = if kept.len() >= max_entries {
                i + 1
            } else {
                i
            };
            assert(kept[k] == after[i]);
        }
    }
    assert(after[after.len() - 1].nonce == nonce);
}

proof fn lemma_last_offer_behind(
    nonce: Seq<u8>,
    first: nat,
    later: Seq<(Seq<u8>, nat)>,
)
    requires
        last_offer(later, nonce) < 0,
    ensures
        last_offer(seq![(nonce, first)] + later, nonce) == 0,
    decreases later.len(),
{
    let all = seq![(nonce, first)] + later;
    if later.len() == 0 {
        assert(all =~= seq![(nonce, first)]);
    } else {
        lemma_last_offer_behind(nonce, first, later.drop_last());
        assert(all.drop_last() =~= seq![(nonce, first)] + later.drop_last());
        assert(all.last() == later.last());
    }
}

/// Within its lifetime a nonce is accepted once: nothing accepted since is the nonce
/// itself.
proof fn lemma_not_accepted_within_lifetime(
    entries: Seq<SeenNonce>,
    nonce: Seq<u8>,
    first: nat,
    between: Seq<(Seq<u8>, nat)>,
    last: nat,
    ttl_nanos: nat,
    max_entries: nat,
)
    requires
        tells_of(entries, seq![(nonce, first)], nonce, first, ttl_nanos, max_entries),
        in_time(between, first, last),
        first <= last < first + ttl_nanos,
        accepted_offers(entries, between, ttl_nanos, max_entries).len() < max_entries,
    ensures
        last_offer(accepted_offers(entries, between, ttl_nanos, max_entries), nonce) < 0,
    decreases between.len(),
{
    if between.len() > 0 {
        let fewer = between.drop_last();
        let (other, now) = between.last();
        assert(between.last() == between[between.len() - 1]);
        assert(forall|i: int| 0 <= i < fewer.len() ==> #[trigger] fewer[i] == between[i]);
        let before = accepted_offers(entries, fewer, ttl_nanos, max_entries);
        let all = accepted_offers(entries, between, ttl_nanos, max_entries);
        lemma_not_accepted_within_lifetime(
            entries,
            nonce,
            first,
            fewer,
            now,
            ttl_nanos,
            max_entries,
        );
        let log = seq![(nonce, first)];
        lemma_offers(entries, log, nonce, first, fewer, now, ttl_nanos, max_entries);
        lemma_last_offer_behind(nonce, first, before);
        lemma_judged(
            after_offers(entries, fewer, ttl_nanos, max_entries),
            log + before,
            nonce,
            now,
            ttl_nanos,
            max_entries,
        );
        if all.len() > before.len() {
            assert(all.drop_last() =~= before);
            assert(other != nonce);
        }
    }
}

/// A nonce that was accepted is refused for as long as its lifetime lasts, whatever
/// nonces are offered in between, as long as fewer of them are accepted than there is
/// room for. Nonces that are refused take no room.
pub proof fn replay_within_lifetime_is_refused(
    entries: Seq<SeenNonce>,
    nonce: Seq<u8>,
    first: nat,
    between: Seq<(Seq<u8>, nat)>,
    second: nat,
    ttl_nanos: nat,
    max_entries: nat,
)
    requires
        accepts(entries, nonce, first, ttl_nanos),
        in_time(between, first, second),
        first <= second < first + ttl_nanos,
        accepted_offers(
            after_offer(entries, nonce, first, ttl_nanos, max_entries),
            between,
            ttl_nanos,
            max_entries,
        ).len() < max_entries,
    ensures
        !accepts(
            after_offers(
                after_offer(entries, nonce, first, ttl_nanos, max_entries),
                between,
                ttl_nanos,
                max_entries,
            ),
            nonce,
            second,
            ttl_nanos,
        ),
{
    let noted = after_offer(entries, nonce, first, ttl_nanos, max_entries);
    let log = seq![(nonce, first)];
    let later = accepted_offers(noted, between, ttl_nanos, max_entries);
    lemma_accepted_is_told_of(entries, nonce, first, ttl_nanos, max_entries);
    lemma_not_accepted_within_lifetime(
        noted,
        nonce,
        first,
        between,
        second,
        ttl_nanos,
        max_entries,
    );
    lemma_offers(noted, log, nonce, first, between, second, ttl_nanos, max_entries);
    lemma_last_offer_behind(nonce, first, later);
    lemma_judged(
        after_offers(noted, between, ttl_nanos, max_entries),
        log + later,
        nonce,
        second,
        ttl_nanos,
        max_entries,
    );
}

/// A nonce that was accepted is accepted again once its lifetime is over, whatever
/// nonces are offered in between, unless it was accepted anew among them. That it was
/// refused in between does not make its lifetime longer.
pub proof fn expired_nonce_is_accepted_again(
    entries: Seq<SeenNonce>,
    nonce: Seq<u8>,
    first: nat,
    between: Seq<(Seq<u8>, nat)>,
    second: nat,
    ttl_nanos: nat,
    max_entries: nat,
)
    requires
        accepts(entries, nonce, first, ttl_nanos),
        in_time(between, first, second),
        second >= first + ttl_nanos,
        max_entries > 0,
        last_offer(
            accepted_offers(
                after_offer(entries, nonce, first, ttl_nanos, max_entries),
                between,
                ttl_nanos,
                max_entries,
            ),
            nonce,
        ) < 0,
    ensures
        accepts(
            after_offers(
                after_offer(entries, nonce, first, ttl_nanos, max_entries),
                between,
                ttl_nanos,
                max_entries,
            ),
            nonce,
            second,
            ttl_nanos,
        ),
{
    let noted = after_offer(entries, nonce, first, ttl_nanos, max_entries);
    let log = seq![(nonce, first)];
    let later = accepted_offers(noted, between, ttl_nanos, max_entries);
    lemma_accepted_is_told_of(entries, nonce, first, ttl_nanos, max_entries);
    lemma_offers(noted, log, nonce, first, between, second, ttl_nanos, max_entries);
    lemma_last_offer_behind(nonce, first, later);
    lemma_judged(
        after_offers(noted, between, ttl_nanos, max_entries),
        log + later,
        nonce,
        second,
        ttl_nanos,
        max_entries,
    );
}

/// In a new cache a nonce is judged by its last acceptance: where it was never
/// accepted, or its lifetime has passed since, it is accepted and noted with the time
/// of the offer. Within the lifetime it is refused, and the time that is noted stays,
/// as long as fewer nonces were accepted since than there is room for.
pub proof fn nonce_is_judged_by_its_last_acceptance(
    offers: Seq<(Seq<u8>, nat)>,
    nonce: Seq<u8>,
    now: nat,
    ttl_nanos: nat,
    max_entries: nat,
)
    requires
        max_entries > 0,
        in_time(offers, 0, now),
    ensures
        ({
            let none = Seq::<SeenNonce>::empty();
            let entries = after_offers(none, offers, ttl_nanos, max_entries);
            let log = accepted_offers(none, offers, ttl_nanos, max_entries);
            let p = last_offer(log, nonce);
            let after = after_offer(entries, nonce, now, ttl_nanos, max_entries);
            &&& p < 0 || now - log[p].1 >= ttl_nanos ==> {
                &&& accepts(entries, nonce, now, ttl_nanos)
                &&& after.last() == SeenNonce { nonce, timestamp: now }
            }
            &&& p >= 0 && now - log[p].1 < ttl_nanos && log.len() - 1 - p < max_entries ==> {
                &&& !accepts(entries, nonce, now, ttl_nanos)
                &&& holds_nonce(after, nonce)
                &&& forall|i: int|
                    0 <= i < after.len() && (#[trigger] after[i]).nonce == nonce
                        ==> after[i].timestamp == log[p].1
            }
        }),
{
    let none = Seq::<SeenNonce>::empty();
    let empty = Seq::<(Seq<u8>, nat)>::empty();
    let entries = after_offers(none, offers, ttl_nanos, max_entries);
    let log = accepted_offers(none, offers, ttl_nanos, max_entries);
    let p = last_offer(log, nonce);
    lemma_offers(none, empty, nonce, 0, offers, now, ttl_nanos, max_entries);
    assert(empty + log =~= log);
    lemma_judged(entries, log, nonce, now, ttl_nanos, max_entries);
    lemma_offer(entries, log, nonce, now, (nonce, now), ttl_nanos, max_entries);
}

/// The cache never grows beyond its configured room.
pub proof fn cache_stays_within_room(
    entries: Seq<SeenNonce>,
    nonce: Seq<u8>,
    now: nat,
    ttl_nanos: nat,
    max_entries: nat,
)
    requires
        max_entries > 0,
        entries.len() <= max_entries,
    ensures
        after_offer(entries, nonce, now, ttl_nanos, max_entries).len() <= max_entries,
{
    entries.lemma_filter_len(|e: SeenNonce| remembered(e, now, ttl_nanos));
}

/// A token is the HMAC of the text `aetherlink-auth-v1` and the nonce under the key.
pub proof fn tokens_bind_key_and_nonce(psk: Seq<u8>, nonce: Seq<u8>)
    ensures
        auth_token(psk, nonce) == hmac_sha256(
            psk,
            seq![
                97u8, 101u8, 116u8, 104u8, 101u8, 114u8, 108u8, 105u8, 110u8, 107u8, 45u8, 97u8,
                117u8, 116u8, 104u8, 45u8, 118u8, 49u8,
            ] + nonce,
        ),
{
    assert(AUTH_PREFIX@ =~= seq![
        97u8, 101u8, 116u8, 104u8, 101u8, 114u8, 108u8, 105u8, 110u8, 107u8, 45u8, 97u8, 117u8,
        116u8, 104u8, 45u8, 118u8, 49u8,
    ]);
}

} // verus!
