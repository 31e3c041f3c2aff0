//! What the socket-level pump reports of its sockets.
//!
//! The stack itself is driven from outside: after each poll it hands in what it
//! observed of a socket, and gets the events that this means.

use std::collections::{HashMap, HashSet};
use vstd::prelude::*;

use crate::net::{Ipv4Addr, SocketAddrV4};

verus! {

/// What happened on a flow since the previous poll.
#[derive(Clone, Debug, PartialEq, Eq)]
pub enum PumpEvent {
    /// A TCP handshake completed.
    TcpAccepted { handle: u64, peer: SocketAddrV4 },
    /// TCP payload arrived.
    TcpData { handle: u64, data: Vec<u8> },
    /// A TCP connection was closed by either side.
    TcpClosed { handle: u64 },
    /// A UDP datagram arrived.
    UdpDatagram { handle: u64, data: Vec<u8>, from: SocketAddrV4 },
}

/// Mathematical counterpart of [`PumpEvent`].
pub enum EventModel {
    TcpAccepted { handle: u64, peer: SocketAddrV4 },
    TcpData { handle: u64, data: Seq<u8> },
    TcpClosed { handle: u64 },
    UdpDatagram { handle: u64, data: Seq<u8>, from: SocketAddrV4 },
}

impl View for PumpEvent {
    type V = EventModel;

    open spec fn view(&self) -> EventModel {
        match *self {
            PumpEvent::TcpAccepted { handle, peer } => EventModel::TcpAccepted { handle, peer },
            PumpEvent::TcpData { handle, data } => EventModel::TcpData { handle, data: data@ },
            PumpEvent::TcpClosed { handle } => EventModel::TcpClosed { handle },
            PumpEvent::UdpDatagram { handle, data, from } => EventModel::UdpDatagram {
                handle,
                data: data@,
                from,
            },
        }
    }
}

/// The events of a list.
pub open spec fn events(list: Seq<PumpEvent>) -> Seq<EventModel> {
    list.map_values(|e: PumpEvent| e@)
}

/// Kind of a socket.
#[derive(Clone, Copy, Debug, PartialEq, Eq, Structural)]
pub enum SockKind {
    Tcp,
    Udp,
}

/// Where a TCP socket stands, as far as events go.
#[derive(Clone, Copy, Debug, PartialEq, Eq, Structural)]
pub enum TcpPhase {
    Established,
    Closed,
    /// Anything in between.
    Other,
}

/// A datagram and its sender, where the sender has an IPv4 address.
pub struct Received {
    pub data: Vec<u8>,
    pub from: Option<SocketAddrV4>,
}

/// The events of one TCP socket.
pub open spec fn tcp_events(
    handle: u64,
    phase: TcpPhase,
    known: bool,
    peer: Option<SocketAddrV4>,
    chunks: Seq<Seq<u8>>,
) -> Seq<EventModel> {
    match phase {
        TcpPhase::Established => {
            let accepted = if !known && peer is Some {
                seq![EventModel::TcpAccepted { handle, peer: peer->0 }]
            } else {
                Seq::empty()
            };
            accepted + chunks.map_values(|data: Seq<u8>| EventModel::TcpData { handle, data })
        },
        TcpPhase::Closed => if known {
            seq![EventModel::TcpClosed { handle }]
        } else {
            Seq::empty()
        },
        TcpPhase::Other => Seq::empty(),
    }
}

/// The handles known to be established after a TCP socket was looked at.
pub open spec fn established_after(established: Set<u64>, handle: u64, phase: TcpPhase) -> Set<u64> {
    match phase {
        TcpPhase::Established => established.insert(handle),
        TcpPhase::Closed => established.remove(handle),
        TcpPhase::Other => established,
    }
}

/// The events of one UDP socket: one per datagram with an IPv4 sender.
pub open spec fn udp_events(handle: u64, received: Seq<Received>) -> Seq<EventModel>
    decreases received.len(),
{
    if received.len() == 0 {
        Seq::empty()
    } else {
        let before = udp_events(handle, received.drop_last());
        match received.last().from {
            Some(from) => before.push(
                EventModel::UdpDatagram { handle, data: received.last().data@, from },
            ),
            None => before,
        }
    }
}

/// Sockets of the pump, the clock it runs by, and its own address.
pub struct SocketTable {
    kinds: HashMap<u64, SockKind>,
    established: HashSet<u64>,
    now_ms: i64,
    addr: Ipv4Addr,
}

impl SocketTable {
    /// The registered sockets.
    pub closed spec fn spec_kinds(&self) -> Map<u64, SockKind> {
        self.kinds@
    }

    /// The TCP sockets whose connection was reported and not reported closed.
    pub closed spec fn spec_established(&self) -> Set<u64> {
        self.established@
    }

    /// Milliseconds that the stack has been told have passed.
    pub closed spec fn spec_now(&self) -> i64 {
        self.now_ms
    }

    /// The pump's own address.
    pub closed spec fn spec_addr(&self) -> Ipv4Addr {
        self.addr
    }

    /// A table without sockets.
    pub fn new(addr: Ipv4Addr) -> (r: Self)
        ensures
            r.spec_kinds() == Map::<u64, SockKind>::empty(),
            r.spec_established() == Set::<u64>::empty(),
            r.spec_now() == 0,
            r.spec_addr() == addr,
    {
        SocketTable { kinds: HashMap::new(), established: HashSet::new(), now_ms: 0, addr }
    }

    /// Registers a socket.
    pub fn register(&mut self, handle: u64, kind: SockKind)
        ensures
            final(self).spec_kinds() == old(self).spec_kinds().insert(handle, kind),
            final(self).spec_established() == old(self).spec_established(),
            final(self).spec_now() == old(self).spec_now(),
            final(self).spec_addr() == old(self).spec_addr(),
    {
        broadcast use vstd::std_specs::hash::group_hash_axioms;

        self.kinds.insert(handle, kind);
    }

    /// Kind of a registered socket.
    pub fn kind(&self, handle: u64) -> (r: Option<SockKind>)
        ensures
            r == (if self.spec_kinds().contains_key(handle) {
                Some(self.spec_kinds()[handle])
            } else {
                None
            }),
    {
        broadcast use vstd::std_specs::hash::group_hash_axioms;

        match self.kinds.get(&handle) {
            Some(k) => Some(*k),
            None => None,
        }
    }

    /// Lets time pass and returns the new time. Time never runs backwards, and
    /// stops at the end of the clock.
    pub fn advance(&mut self, step_ms: i64) -> (r: i64)
        ensures
            r == final(self).spec_now(),
            r == (if step_ms <= 0 {
                old(self).spec_now() as int
            } else if old(self).spec_now() + step_ms > i64::MAX {
                i64::MAX as int
            } else {
                old(self).spec_now() + step_ms
            }),
            final(self).spec_kinds() == old(self).spec_kinds(),
            final(self).spec_established() == old(self).spec_established(),
            final(self).spec_addr() == old(self).spec_addr(),
    {
        if step_ms > 0 {
            if self.now_ms > i64::MAX - step_ms {
                self.now_ms = i64::MAX;
            } else {
                self.now_ms = self.now_ms + step_ms;
            }
        }
        self.now_ms
    }

    /// The pump's own address.
    pub fn addr(&self) -> (r: Ipv4Addr)
        ensures
            r == self.spec_addr(),
    {
        self.addr
    }

    /// Takes note of a TCP socket: where it stands, its peer, and the payload
    /// that was read from it.
    pub fn observe_tcp(
        &mut self,
        handle: u64,
        phase: TcpPhase,
        peer: Option<SocketAddrV4>,
        chunks: Vec<Vec<u8>>,
    ) -> (r: Vec<PumpEvent>)
        ensures
            events(r@) == tcp_events(
                handle,
                phase,
                old(self).spec_established().contains(handle),
                peer,
                chunks@.map_values(|c: Vec<u8>| c@),
            ),
            final(self).spec_established() == established_after(
                old(self).spec_established(),
                handle,
                phase,
            ),
            final(self).spec_kinds() == old(self).spec_kinds(),
            final(self).spec_now() == old(self).spec_now(),
            final(self).spec_addr() == old(self).spec_addr(),
    {
        broadcast use vstd::std_specs::hash::group_hash_axioms;

        let known = self.established.contains(&handle);
        let ghost all = chunks@.map_values(|c: Vec<u8>| c@);
        let ghost want = tcp_events(handle, phase, known, peer, all);
        let mut out: Vec<PumpEvent> = Vec::new();
        match phase {
            TcpPhase::Established => {
                self.established.insert(handle);
                if !known {
                    if let Some(p) = peer {
                        out.push(PumpEvent::TcpAccepted { handle, peer: p });
                    }
                }
                let ghost accepted = events(out@);
                let mut i: usize = 0;
                while i < chunks.len()
                    invariant
                        0 <= i <= chunks@.len(),
                        all == chunks@.map_values(|c: Vec<u8>| c@),
                        events(out@) == accepted + all.take(i as int).map_values(
                            |data: Seq<u8>| EventModel::TcpData { handle, data },
                        ),
                    decreases chunks@.len() - i,
                {
                    let ghost before = events(out@);
                    out.push(
                        PumpEvent::TcpData {
                            handle,
                            data: vstd::slice::slice_to_vec(chunks[i].as_slice()),
                        },
                    );
                    assert(events(out@) =~= before.push(
                        EventModel::TcpData { handle, data: all[i as int] },
                    ));
                    i += 1;
                    assert(events(out@) =~= accepted + all.take(i as int).map_values(
                        |data: Seq<u8>| EventModel::TcpData { handle, data },
                    ));
                }
                assert(all.take(i as int) =~= all);
                assert(events(out@) =~= want);
            },
            TcpPhase::Closed => {
                self.established.remove(&handle);
                if known {
                    out.push(PumpEvent::TcpClosed { handle });
                }
                assert(events(out@) =~= want);
            },
            TcpPhase::Other => {
                assert(events(out@) =~= want);
            },
        }
        out
    }

    /// Takes note of the datagrams that were read from a UDP socket.
    pub fn observe_udp(&self, handle: u64, received: &Vec<Received>) -> (r: Vec<PumpEvent>)
        ensures
            events(r@) == udp_events(handle, received@),
    {
        let mut out: Vec<PumpEvent> = Vec::new();
        let mut i: usize = 0;
        assert(events(out@) =~= udp_events(handle, received@.take(0)));
        while i < received.len()
            invariant
                0 <= i <= received@.len(),
                events(out@) == udp_events(handle, received@.take(i as int)),
            decreases received@.len() - i,
        {
            assert(received@.take(i + 1).drop_last() =~= received@.take(i as int));
            if let Some(from) = received[i].from {
                let ghost before = events(out@);
                let data = vstd::slice::slice_to_vec(received[i].data.as_slice());
                out.push(PumpEvent::UdpDatagram { handle, data, from });
                assert(events(out@) =~= before.push(
                    EventModel::UdpDatagram { handle, data: received@[i as int].data@, from },
                ));
            }
            i += 1;
        }
        assert(received@.take(i as int) =~= received@);
        out
    }
}

/// A connection is reported accepted at most once until it is reported closed,
/// and reported closed only when it was accepted before.
pub proof fn acceptance_is_reported_once(
    established: Set<u64>,
    handle: u64,
    peer: Option<SocketAddrV4>,
    chunks: Seq<Seq<u8>>,
    i: int,
)
    ensures
        ({
            let again = tcp_events(
                handle,
                TcpPhase::Established,
                established_after(established, handle, TcpPhase::Established).contains(handle),
                peer,
                chunks,
            );
            0 <= i < again.len() ==> again[i] is TcpData
        }),
        ({
            let closed = tcp_events(
                handle,
                TcpPhase::Closed,
                established_after(established, handle, TcpPhase::Closed).contains(handle),
                peer,
                chunks,
            );
            closed.len() == 0
        }),
{
}

/// Everything that was read from an established connection is reported, chunk by chunk and in
/// order, behind the acceptance of a connection that was not known and whose peer is.
pub proof fn payload_is_reported_in_order(
    handle: u64,
    known: bool,
    peer: Option<SocketAddrV4>,
    chunks: Seq<Seq<u8>>,
    i: int,
)
    requires
        0 <= i < chunks.len(),
    ensures
        ({
            let list = tcp_events(handle, TcpPhase::Established, known, peer, chunks);
            let first: int = if !known && peer is Some {
                1
            } else {
                0
            };
            &&& list.len() == first + chunks.len()
            &&& list[first + i] == EventModel::TcpData { handle, data: chunks[i] }
            &&& first == 1 ==> list[0] == EventModel::TcpAccepted { handle, peer: peer->Some_0 }
        }),
{
}

/// The end of a connection is reported exactly where it was known, and nothing else is.
pub proof fn ends_are_reported_of_known_connections(
    handle: u64,
    known: bool,
    peer: Option<SocketAddrV4>,
    chunks: Seq<Seq<u8>>,
)
    ensures
        tcp_events(handle, TcpPhase::Closed, known, peer, chunks) == (if known {
            seq![EventModel::TcpClosed { handle }]
        } else {
            Seq::empty()
        }),
        tcp_events(handle, TcpPhase::Other, known, peer, chunks).len() == 0,
{
}

/// Which connections are known: those seen established and not seen closed since; a look at
/// one changes nothing for the others.
pub proof fn known_connections_are_the_established_ones(
    established: Set<u64>,
    handle: u64,
    phase: TcpPhase,
    other: u64,
)
    ensures
        established_after(established, handle, phase).contains(handle) == match phase {
            TcpPhase::Established => true,
            TcpPhase::Closed => false,
            TcpPhase::Other => established.contains(handle),
        },
        other != handle ==> established_after(established, handle, phase).contains(other)
            == established.contains(other),
{
}

/// Each datagram from an IPv4 sender is reported with its bytes and its sender, in order, and
/// no other one.
pub proof fn datagrams_are_reported_in_order(handle: u64, received: Seq<Received>, last: Received)
    ensures
        udp_events(handle, received.push(last)) == (match last.from {
            Some(from) => udp_events(handle, received).push(
                EventModel::UdpDatagram { handle, data: last.data@, from },
            ),
            None => udp_events(handle, received),
        }),
        udp_events(handle, Seq::empty()).len() == 0,
{
    assert(received.push(last).drop_last() =~= received);
}

} // verus!
