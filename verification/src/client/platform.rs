//! The operating system behind one seam.
//!
//! Bringing the tunnel up and down is written against [`Platform`]. Every call is
//! recorded, so that the order of the changes and the way back can be stated.

use vstd::prelude::*;
use vstd::string::*;

use crate::client::{ClientError, ClientFault};
use crate::net::Ipv4Addr;
use crate::netstack::tun::{
    copied_changes, copied_snapshot, Route, RouteModel, Snapshot, SnapshotModel, UpState,
    UpStateModel,
};
use crate::table::{
    key_index_finds, set_values_are_read_back, unique_keys, value_of, with_value, TextMap,
};
use crate::text::{
    chars_of, contains_text, copied, has_text, joined, occurs_at, same_str, same_text, strings,
};

pub mod bringup;
pub mod commands;
pub mod replay;
pub mod windows;

verus! {

/// An IP address.
#[derive(Clone, Debug, PartialEq, Eq)]
pub enum IpAddr {
    V4(Ipv4Addr),
    /// An IPv6 address, as it is written.
    V6(String),
}

/// Mathematical counterpart of [`IpAddr`].
pub enum IpModel {
    V4(Ipv4Addr),
    V6(Seq<char>),
}

impl View for IpAddr {
    type V = IpModel;

    open spec fn view(&self) -> IpModel {
        match *self {
            IpAddr::V4(ip) => IpModel::V4(ip),
            IpAddr::V6(s) => IpModel::V6(s@),
        }
    }
}

impl IpModel {
    /// The address as it is written.
    pub open spec fn text(self) -> Seq<char> {
        match self {
            IpModel::V4(ip) => ip.spec_text(),
            IpModel::V6(s) => s,
        }
    }
}

impl IpAddr {
    /// Whether this is an IPv4 address.
    pub fn is_ipv4(&self) -> (r: bool)
        ensures
            r == (self@ is V4),
    {
        match self {
            IpAddr::V4(_) => true,
            IpAddr::V6(_) => false,
        }
    }

    /// The address as it is written.
    pub fn to_text(&self) -> (r: String)
        ensures
            r@ == self@.text(),
    {
        match self {
            IpAddr::V4(ip) => ip.to_text(),
            IpAddr::V6(s) => s.clone(),
        }
    }
}

/// A step of bringing the tunnel up.
#[derive(Clone, Copy, Debug, PartialEq, Eq, Structural)]
pub enum Step {
    /// Name resolution.
    Resolve,
    /// Creation of the TUN device.
    TunUp,
    /// Route to the server.
    PinRoute,
    /// Routes of the rules.
    DirectRules,
    /// Switch of the default route.
    DefaultViaTun,
    /// Override of the resolvers.
    DnsForce,
}

impl Step {
    /// The name of the step.
    pub open spec fn spec_name(self) -> Seq<char> {
        match self {
            Step::Resolve => "Resolve"@,
            Step::TunUp => "TunUp"@,
            Step::PinRoute => "PinRoute"@,
            Step::DirectRules => "DirectRules"@,
            Step::DefaultViaTun => "DefaultViaTun"@,
            Step::DnsForce => "DnsForce"@,
        }
    }

    /// The name of the step.
    pub fn name(self) -> (r: &'static str)
        ensures
            r@ == self.spec_name(),
    {
        match self {
            Step::Resolve => "Resolve",
            Step::TunUp => "TunUp",
            Step::PinRoute => "PinRoute",
            Step::DirectRules => "DirectRules",
            Step::DefaultViaTun => "DefaultViaTun",
            Step::DnsForce => "DnsForce",
        }
    }
}

/// The error of an operation that a platform does not have yet.
pub fn pending(what: &str) -> (r: ClientError)
    ensures
        r@ == ClientFault::PlatformError("platform apply pending: "@ + what@),
{
    ClientError::PlatformError(joined("platform apply pending: ", what))
}

/// Whether a failed command only says that the route is there already, in English
/// or in Russian.
pub open spec fn says_exists(fault: ClientFault) -> bool {
    fault matches ClientFault::PlatformError(m) && (contains_text(m, "already exists"@)
        || contains_text(m, "уже существует"@))
}

/// Takes a route that is there already for success, and nothing else.
pub fn tolerate_exists(r: Result<(), ClientError>) -> (out: Result<(), ClientError>)
    ensures
        match r {
            Ok(_) => out is Ok,
            Err(e) => if says_exists(e@) {
                out is Ok
            } else {
                out == r
            },
        },
{
    match r {
        Ok(_) => Ok(()),
        Err(ClientError::PlatformError(m)) => {
            let text = chars_of(m.as_str());
            if has_text(text.as_slice(), chars_of("already exists").as_slice()) || has_text(
                text.as_slice(),
                chars_of("уже существует").as_slice(),
            ) {
                Ok(())
            } else {
                Err(ClientError::PlatformError(m))
            }
        },
        Err(e) => Err(e),
    }
}

/// Where the state of a tunnel is kept by default.
pub fn default_state_path(windows: bool) -> (r: &'static str)
    ensures
        r@ == (if windows {
            "C:\\ProgramData\\AetherLink\\state.json"@
        } else {
            "/var/lib/aetherlink/state.json"@
        }),
{
    if windows {
        "C:\\ProgramData\\AetherLink\\state.json"
    } else {
        "/var/lib/aetherlink/state.json"
    }
}

/// A call to a platform, with what it was given and what it gave.
pub enum PlatformCall {
    Resolve(Seq<char>, Result<Seq<IpModel>, ClientFault>),
    Snapshot(Result<SnapshotModel, ClientFault>),
    TunUp(Seq<char>, Ipv4Addr, u32, Result<(), ClientFault>),
    TunDown(Result<(), ClientFault>),
    PinRoute(IpModel, Ipv4Addr, Result<(), ClientFault>),
    AddRoute(Seq<char>, Ipv4Addr, Result<(), ClientFault>),
    DefaultViaTun(Result<(), ClientFault>),
    ForceDns(Ipv4Addr, Result<(), ClientFault>),
    Restore(SnapshotModel, Result<(), ClientFault>),
    RestoreApplied(UpStateModel, Result<(), ClientFault>),
    CapturedIface(Option<Seq<char>>),
    TunIfindex(Option<u32>),
    StateExists(bool),
    SaveState(UpStateModel, Result<(), ClientFault>),
    LoadState(Result<UpStateModel, ClientFault>),
    RemoveState(Result<(), ClientFault>),
}

/// An outcome without a value.
pub open spec fn outcome(r: Result<(), ClientError>) -> Result<(), ClientFault> {
    match r {
        Ok(_) => Ok(()),
        Err(e) => Err(e@),
    }
}

/// Whether something was got, and why not.
pub open spec fn outcome_of<T>(r: Result<T, ClientError>) -> Result<(), ClientFault> {
    match r {
        Ok(_) => Ok(()),
        Err(e) => Err(e@),
    }
}

/// What addresses stand for.
pub open spec fn ip_models(ips: Seq<IpAddr>) -> Seq<IpModel> {
    ips.map_values(|ip: IpAddr| ip@)
}

/// The outcome of a resolution.
pub open spec fn resolved(r: Result<Vec<IpAddr>, ClientError>) -> Result<
    Seq<IpModel>,
    ClientFault,
> {
    match r {
        Ok(ips) => Ok(ip_models(ips@)),
        Err(e) => Err(e@),
    }
}

/// The outcome of reading a state.
pub open spec fn loaded(r: Result<UpState, ClientError>) -> Result<UpStateModel, ClientFault> {
    match r {
        Ok(state) => Ok(state@),
        Err(e) => Err(e@),
    }
}

/// Privileged network operations.
///
/// Nothing is said of what an operation does or whether it succeeds; `history`
/// records the calls, and `follows` is what a platform itself says of what they
/// have made of it. Both exist in proofs only; a platform that is not verified
/// itself leaves them out.
pub trait Platform: Send + Sized {
    /// Every call so far, first to last.
    closed spec fn history(&self) -> Seq<PlatformCall> {
        arbitrary()
    }

    /// Whether what is held is what the calls since `origin` have made of it.
    closed spec fn follows(&self, origin: Self) -> bool {
        true
    }

    /// Where the state of a tunnel is kept.
    closed spec fn spec_state_path(&self) -> Seq<char> {
        arbitrary()
    }

    /// Resolves a host name with the system's resolver.
    fn resolve_host(&mut self, host: &str) -> (r: Result<Vec<IpAddr>, ClientError>)
        ensures
            final(self).history() == old(self).history().push(
                PlatformCall::Resolve(host@, resolved(r)),
            ),
            forall|o: Self| old(self).follows(o) ==> #[trigger] final(self).follows(o),
    ;

    /// Captures routes and resolvers.
    fn snapshot(&mut self) -> (r: Result<Snapshot, ClientError>)
        ensures
            final(self).history() == old(self).history().push(
                PlatformCall::Snapshot(
                    match r {
                        Ok(snap) => Ok(snap@),
                        Err(e) => Err(e@),
                    },
                ),
            ),
            forall|o: Self| old(self).follows(o) ==> #[trigger] final(self).follows(o),
    ;

    /// Creates the TUN device and gives it an address.
    fn tun_up(&mut self, name: &str, addr: Ipv4Addr, mtu: u32) -> (r: Result<(), ClientError>)
        ensures
            final(self).history() == old(self).history().push(
                PlatformCall::TunUp(name@, addr, mtu, outcome(r)),
            ),
            forall|o: Self| old(self).follows(o) ==> #[trigger] final(self).follows(o),
    ;

    /// Destroys the TUN device.
    fn tun_down(&mut self) -> (r: Result<(), ClientError>)
        ensures
            final(self).history() == old(self).history().push(PlatformCall::TunDown(outcome(r))),
            forall|o: Self| old(self).follows(o) ==> #[trigger] final(self).follows(o),
    ;

    /// Routes an address via a gateway.
    fn pin_route(&mut self, dest: &IpAddr, via: Ipv4Addr) -> (r: Result<(), ClientError>)
        ensures
            final(self).history() == old(self).history().push(
                PlatformCall::PinRoute(dest@, via, outcome(r)),
            ),
            forall|o: Self| old(self).follows(o) ==> #[trigger] final(self).follows(o),
    ;

    /// Routes a destination via a gateway.
    fn add_route(&mut self, dest: &str, via: Ipv4Addr) -> (r: Result<(), ClientError>)
        ensures
            final(self).history() == old(self).history().push(
                PlatformCall::AddRoute(dest@, via, outcome(r)),
            ),
            forall|o: Self| old(self).follows(o) ==> #[trigger] final(self).follows(o),
    ;

    /// Moves the default route into the TUN device.
    fn default_via_tun(&mut self) -> (r: Result<(), ClientError>)
        ensures
            final(self).history() == old(self).history().push(
                PlatformCall::DefaultViaTun(outcome(r)),
            ),
            forall|o: Self| old(self).follows(o) ==> #[trigger] final(self).follows(o),
    ;

    /// Sets the system's resolver.
    fn force_dns(&mut self, dns_ip: Ipv4Addr) -> (r: Result<(), ClientError>)
        ensures
            final(self).history() == old(self).history().push(
                PlatformCall::ForceDns(dns_ip, outcome(r)),
            ),
            forall|o: Self| old(self).follows(o) ==> #[trigger] final(self).follows(o),
    ;

    /// Goes back to a snapshot.
    fn restore(&mut self, snap: &Snapshot) -> (r: Result<(), ClientError>)
        ensures
            final(self).history() == old(self).history().push(
                PlatformCall::Restore(snap@, outcome(r)),
            ),
            forall|o: Self| old(self).follows(o) ==> #[trigger] final(self).follows(o),
    ;

    /// Undoes the changes of a state, which may be those of another process.
    fn restore_applied(&mut self, state: &UpState) -> (r: Result<(), ClientError>)
        ensures
            final(self).history() == old(self).history().push(
                PlatformCall::RestoreApplied(state@, outcome(r)),
            ),
            forall|o: Self| old(self).follows(o) ==> #[trigger] final(self).follows(o),
    ;

    /// The physical interface at the time of the snapshot.
    fn captured_iface(&mut self) -> (r: Option<String>)
        ensures
            final(self).history() == old(self).history().push(
                PlatformCall::CapturedIface(
                    match r {
                        Some(name) => Some(name@),
                        None => None,
                    },
                ),
            ),
            forall|o: Self| old(self).follows(o) ==> #[trigger] final(self).follows(o),
    ;

    /// Index of the TUN adapter, if there is one.
    fn tun_ifindex(&mut self) -> (r: Option<u32>)
        ensures
            final(self).history() == old(self).history().push(PlatformCall::TunIfindex(r)),
            forall|o: Self| old(self).follows(o) ==> #[trigger] final(self).follows(o),
    ;

    /// Where the state of a tunnel is kept.
    fn state_path(&self) -> (r: String)
        ensures
            r@ == self.spec_state_path(),
    ;

    /// Whether the state of a tunnel is kept.
    fn state_exists(&mut self) -> (r: bool)
        ensures
            final(self).history() == old(self).history().push(PlatformCall::StateExists(r)),
            forall|o: Self| old(self).follows(o) ==> #[trigger] final(self).follows(o),
    ;

    /// Keeps the state of the tunnel, in place of what was kept.
    fn save_state(&mut self, state: &UpState) -> (r: Result<(), ClientError>)
        ensures
            final(self).history() == old(self).history().push(
                PlatformCall::SaveState(state@, outcome(r)),
            ),
            forall|o: Self| old(self).follows(o) ==> #[trigger] final(self).follows(o),
    ;

    /// Reads the state that is kept.
    fn load_state(&mut self) -> (r: Result<UpState, ClientError>)
        ensures
            final(self).history() == old(self).history().push(
                PlatformCall::LoadState(loaded(r)),
            ),
            forall|o: Self| old(self).follows(o) ==> #[trigger] final(self).follows(o),
    ;

    /// Drops the state that is kept.
    fn remove_state(&mut self) -> (r: Result<(), ClientError>)
        ensures
            final(self).history() == old(self).history().push(
                PlatformCall::RemoveState(outcome(r)),
            ),
            forall|o: Self| old(self).follows(o) ==> #[trigger] final(self).follows(o),
    ;
}

/// Routes set one after the other.
pub open spec fn collected(routes: Seq<RouteModel>) -> Seq<(Seq<char>, Seq<char>)>
    decreases routes.len(),
{
    if routes.len() == 0 {
        Seq::empty()
    } else {
        with_value(collected(routes.drop_last()), routes.last().dest, routes.last().via)
    }
}

/// The routes of a table.
pub open spec fn routes_of(table: Seq<(Seq<char>, Seq<char>)>) -> Seq<RouteModel> {
    table.map_values(|e: (Seq<char>, Seq<char>)| RouteModel { dest: e.0, via: e.1 })
}

/// What routes hold.
pub open spec fn route_models(routes: Seq<Route>) -> Seq<RouteModel> {
    routes.map_values(|r: Route| r@)
}

fn list_routes(table: &TextMap) -> (r: Vec<Route>)
    ensures
        route_models(r@) == routes_of(table@),
{
    let mut r: Vec<Route> = Vec::new();
    let mut i: usize = 0;
    while i < table.len()
        invariant
            0 <= i <= table@.len(),
            r@.len() == i,
            forall|j: int|
                0 <= j < i ==> (#[trigger] r@[j])@ == (RouteModel {
                    dest: table@[j].0,
                    via: table@[j].1,
                }),
        decreases table@.len() - i,
    {
        r.push(Route { dest: table.key_at(i).to_owned(), via: table.value_at(i).to_owned() });
        i += 1;
    }
    assert(route_models(r@) =~= routes_of(table@));
    r
}

fn collect_routes(routes: &Vec<Route>) -> (r: TextMap)
    ensures
        r@ == collected(route_models(routes@)),
{
    let ghost all = route_models(routes@);
    let mut r = TextMap::new();
    let mut i: usize = 0;
    assert(all.take(0) =~= Seq::<RouteModel>::empty());
    while i < routes.len()
        invariant
            0 <= i <= routes@.len(),
            all == route_models(routes@),
            r@ == collected(all.take(i as int)),
        decreases routes@.len() - i,
    {
        assert(all.take(i + 1).drop_last() =~= all.take(i as int));
        assert(all.take(i + 1).last() == routes@[i as int]@);
        r.insert(routes[i].dest.as_str(), routes[i].via.as_str());
        i += 1;
    }
    assert(all.take(i as int) =~= all);
    r
}

/// A platform in memory: it records every call and fails at a given step.
pub struct FakePlatform {
    routes: TextMap,
    dns: Vec<String>,
    tun: bool,
    pinned: Vec<String>,
    log: Vec<String>,
    fail_at: Option<Step>,
    state_path: String,
    state: Option<UpState>,
    history: Ghost<Seq<PlatformCall>>,
}

/// What a [`FakePlatform`] holds.
#[verifier::ext_equal]
pub struct FakeModel {
    pub routes: Seq<(Seq<char>, Seq<char>)>,
    pub dns: Seq<Seq<char>>,
    pub tun: bool,
    pub pinned: Seq<Seq<char>>,
    pub log: Seq<Seq<char>>,
    pub fail_at: Option<Step>,
    pub state_path: Seq<char>,
    pub state: Option<UpStateModel>,
}

impl View for FakePlatform {
    type V = FakeModel;

    closed spec fn view(&self) -> FakeModel {
        FakeModel {
            routes: self.routes@,
            dns: strings(self.dns@),
            tun: self.tun,
            pinned: strings(self.pinned@),
            log: strings(self.log@),
            fail_at: self.fail_at,
            state_path: self.state_path@,
            state: match self.state {
                Some(state) => Some(state@),
                None => None,
            },
        }
    }
}

/// A platform at first: a default gateway that is the resolver too.
pub open spec fn fresh_fake(state_path: Seq<char>, fail_at: Option<Step>) -> FakeModel {
    FakeModel {
        routes: seq![("default"@, "192.168.1.1"@)],
        dns: seq!["192.168.1.1"@],
        tun: false,
        pinned: Seq::empty(),
        log: Seq::empty(),
        fail_at,
        state_path,
        state: None,
    }
}

/// A platform with one more line in its log.
pub open spec fn logged(m: FakeModel, line: Seq<char>) -> FakeModel {
    FakeModel { log: m.log.push(line), ..m }
}

/// A platform after a step was tried.
pub open spec fn attempted(m: FakeModel, step: Step) -> FakeModel {
    logged(m, "attempt:"@ + step.spec_name())
}

/// The failure of a step.
pub open spec fn injected(step: Step) -> ClientFault {
    ClientFault::PlatformError("injected failure at "@ + step.spec_name())
}

/// The outcome of a step that may fail, and the platform after it: `done` where it
/// does not.
pub open spec fn tried(m: FakeModel, step: Step, done: FakeModel) -> (
    FakeModel,
    Result<(), ClientFault>,
) {
    if m.fail_at == Some(step) {
        (attempted(m, step), Err(injected(step)))
    } else {
        (done, Ok(()))
    }
}

/// The outcome of creating the device in memory.
pub open spec fn fake_tun_up(m: FakeModel, name: Seq<char>) -> (
    FakeModel,
    Result<(), ClientFault>,
) {
    tried(
        m,
        Step::TunUp,
        FakeModel {
            tun: true,
            ..logged(attempted(m, Step::TunUp), "apply:tun_up "@ + name)
        },
    )
}

/// The outcome of routing the server in memory.
pub open spec fn fake_pin(m: FakeModel, dest: IpModel, via: Ipv4Addr) -> (
    FakeModel,
    Result<(), ClientFault>,
) {
    tried(
        m,
        Step::PinRoute,
        FakeModel {
            pinned: m.pinned.push(dest.text()),
            routes: with_value(m.routes, dest.text(), via.spec_text()),
            ..logged(
                attempted(m, Step::PinRoute),
                "apply:pin_route "@ + dest.text() + " via "@ + via.spec_text(),
            )
        },
    )
}

/// The outcome of routing a destination in memory.
pub open spec fn fake_route(m: FakeModel, dest: Seq<char>, via: Ipv4Addr) -> (
    FakeModel,
    Result<(), ClientFault>,
) {
    tried(
        m,
        Step::DirectRules,
        FakeModel {
            routes: with_value(m.routes, dest, via.spec_text()),
            ..logged(
                attempted(m, Step::DirectRules),
                "apply:route "@ + dest + " via "@ + via.spec_text(),
            )
        },
    )
}

/// The outcome of moving the default route in memory.
pub open spec fn fake_default(m: FakeModel) -> (FakeModel, Result<(), ClientFault>) {
    tried(
        m,
        Step::DefaultViaTun,
        FakeModel {
            routes: with_value(m.routes, "default"@, "tun"@),
            ..logged(attempted(m, Step::DefaultViaTun), "apply:default_via_tun"@)
        },
    )
}

/// The outcome of setting the resolver in memory.
pub open spec fn fake_dns(m: FakeModel, dns_ip: Ipv4Addr) -> (
    FakeModel,
    Result<(), ClientFault>,
) {
    tried(
        m,
        Step::DnsForce,
        FakeModel {
            dns: seq![dns_ip.spec_text()],
            ..logged(
                attempted(m, Step::DnsForce),
                "apply:force_dns "@ + dns_ip.spec_text(),
            )
        },
    )
}

/// The address that every name has in memory.
pub open spec fn fake_server() -> Seq<IpModel> {
    seq![IpModel::V4(Ipv4Addr::spec_new(93, 184, 216, 34))]
}

/// The network as it is captured in memory.
pub open spec fn captured(m: FakeModel) -> SnapshotModel {
    SnapshotModel { routes: routes_of(m.routes), dns_servers: m.dns }
}

/// The platform in memory after a call, and the call with the outcome that it has
/// there. The outcome in the argument is not looked at.
pub open spec fn answered(m: FakeModel, call: PlatformCall) -> (FakeModel, PlatformCall) {
    match call {
        PlatformCall::Resolve(host, _) => {
            let (after, r) = tried(
                m,
                Step::Resolve,
                logged(attempted(m, Step::Resolve), "resolve "@ + host),
            );
            (
                after,
                PlatformCall::Resolve(
                    host,
                    match r {
                        Ok(_) => Ok(fake_server()),
                        Err(fault) => Err(fault),
                    },
                ),
            )
        },
        PlatformCall::Snapshot(_) => (
            logged(m, "snapshot"@),
            PlatformCall::Snapshot(Ok(captured(m))),
        ),
        PlatformCall::TunUp(name, addr, mtu, _) => (
            fake_tun_up(m, name).0,
            PlatformCall::TunUp(name, addr, mtu, fake_tun_up(m, name).1),
        ),
        PlatformCall::TunDown(_) => (
            FakeModel { tun: false, ..logged(m, "apply:tun_down"@) },
            PlatformCall::TunDown(Ok(())),
        ),
        PlatformCall::PinRoute(dest, via, _) => (
            fake_pin(m, dest, via).0,
            PlatformCall::PinRoute(dest, via, fake_pin(m, dest, via).1),
        ),
        PlatformCall::AddRoute(dest, via, _) => (
            fake_route(m, dest, via).0,
            PlatformCall::AddRoute(dest, via, fake_route(m, dest, via).1),
        ),
        PlatformCall::DefaultViaTun(_) => (
            fake_default(m).0,
            PlatformCall::DefaultViaTun(fake_default(m).1),
        ),
        PlatformCall::ForceDns(ip, _) => (
            fake_dns(m, ip).0,
            PlatformCall::ForceDns(ip, fake_dns(m, ip).1),
        ),
        PlatformCall::Restore(snap, _) => (
            restored(m, snap),
            PlatformCall::Restore(snap, Ok(())),
        ),
        PlatformCall::RestoreApplied(state, _) => (
            restored(m, state.snapshot),
            PlatformCall::RestoreApplied(state, Ok(())),
        ),
        PlatformCall::CapturedIface(_) => (m, PlatformCall::CapturedIface(None)),
        PlatformCall::TunIfindex(_) => (m, PlatformCall::TunIfindex(None)),
        PlatformCall::StateExists(_) => (m, PlatformCall::StateExists(m.state is Some)),
        PlatformCall::SaveState(state, _) => (
            FakeModel { state: Some(state), ..m },
            PlatformCall::SaveState(state, Ok(())),
        ),
        PlatformCall::LoadState(_) => (
            m,
            PlatformCall::LoadState(
                match m.state {
                    Some(state) => Ok(state),
                    None => Err(ClientFault::PlatformError("no state"@)),
                },
            ),
        ),
        PlatformCall::RemoveState(_) => (
            FakeModel { state: None, ..m },
            PlatformCall::RemoveState(Ok(())),
        ),
    }
}

/// What calls make of a platform in memory, `None` where one of them could not
/// have had its outcome there.
pub open spec fn played(m: FakeModel, calls: Seq<PlatformCall>) -> Option<FakeModel>
    decreases calls.len(),
{
    if calls.len() == 0 {
        Some(m)
    } else {
        match played(m, calls.drop_last()) {
            None => None,
            Some(before) => {
                let (after, call) = answered(before, calls.last());
                if call == calls.last() {
                    Some(after)
                } else {
                    None
                }
            },
        }
    }
}

/// The changes in a log.
pub open spec fn changes_in(log: Seq<Seq<char>>) -> Seq<Seq<char>> {
    log.filter(|line: Seq<char>| is_change(line))
}

/// Whether a line of the log is a change.
pub open spec fn is_change(line: Seq<char>) -> bool {
    line.len() >= 6 && line.take(6) == "apply:"@
}

impl FakePlatform {
    /// A platform on which the TUN device cannot be created.
    pub fn no_privilege(state_path: String) -> (r: Self)
        ensures
            r@ == fresh_fake(state_path@, Some(Step::TunUp)),
            r.history() == Seq::<PlatformCall>::empty(),
    {
        FakePlatform::failing_at(Step::TunUp, state_path)
    }

    /// A platform on which everything works.
    pub fn working(state_path: String) -> (r: Self)
        ensures
            r@ == fresh_fake(state_path@, None),
            r.history() == Seq::<PlatformCall>::empty(),
    {
        let mut routes = TextMap::new();
        routes.insert("default", "192.168.1.1");
        let mut dns: Vec<String> = Vec::new();
        dns.push("192.168.1.1".to_owned());
        let r = FakePlatform {
            routes,
            dns,
            tun: false,
            pinned: Vec::new(),
            log: Vec::new(),
            fail_at: None,
            state_path,
            state: None,
            history: Ghost(Seq::empty()),
        };
        assert(r@ =~= fresh_fake(state_path@, None));
        r
    }

    /// The platform with other resolvers.
    pub fn with_dns(self, dns: Vec<String>) -> (r: Self)
        ensures
            r@ == (FakeModel { dns: strings(dns@), ..self@ }),
            r.history() == self.history(),
    {
        let mut r = self;
        r.dns = dns;
        assert(r@ =~= FakeModel { dns: strings(dns@), ..self@ });
        r
    }

    /// The platform with a state that is kept.
    pub fn with_state(self, state: UpState) -> (r: Self)
        ensures
            r@ == (FakeModel { state: Some(state@), ..self@ }),
            r.history() == self.history(),
    {
        let mut r = self;
        r.state = Some(state);
        r
    }

    /// A platform that fails at one step.
    pub fn failing_at(step: Step, state_path: String) -> (r: Self)
        ensures
            r@ == fresh_fake(state_path@, Some(step)),
            r.history() == Seq::<PlatformCall>::empty(),
    {
        let mut r = FakePlatform::working(state_path);
        r.fail_at = Some(step);
        r
    }

    fn record(&mut self, line: String)
        ensures
            final(self)@ == logged(old(self)@, line@),
            final(self).history() == old(self).history(),
    {
        let ghost before = self.log@;
        self.log.push(line);
        assert(strings(self.log@) =~= strings(before).push(line@));
        assert(self@ =~= logged(old(self)@, line@));
    }

    fn fail(&mut self, step: Step) -> (r: Result<(), ClientError>)
        ensures
            final(self)@ == attempted(old(self)@, step),
            final(self).history() == old(self).history(),
            match r {
                Ok(_) => old(self)@.fail_at != Some(step),
                Err(e) => old(self)@.fail_at == Some(step) && e@ == injected(step),
            },
    {
        self.record(joined("attempt:", step.name()));
        if let Some(s) = self.fail_at {
            if s == step {
                return Err(ClientError::PlatformError(joined("injected failure at ", step.name())));
            }
        }
        Ok(())
    }

    /// The routing table.
    pub fn routes(&self) -> (r: &TextMap)
        ensures
            r@ == self@.routes,
            unique_keys(r@),
    {
        let _ = self.routes.len();
        &self.routes
    }

    /// The resolvers.
    pub fn dns(&self) -> (r: &Vec<String>)
        ensures
            strings(r@) == self@.dns,
    {
        &self.dns
    }

    /// Whether the TUN device exists.
    pub fn tun_exists(&self) -> (r: bool)
        ensures
            r == self@.tun,
    {
        self.tun
    }

    /// Whether an address was routed via the gateway.
    pub fn has_pinned(&self, ip: &str) -> (r: bool)
        ensures
            r == self@.pinned.contains(ip@),
    {
        let mut i: usize = 0;
        while i < self.pinned.len()
            invariant
                0 <= i <= self.pinned@.len(),
                forall|j: int| 0 <= j < i ==> (#[trigger] self.pinned@[j])@ != ip@,
            decreases self.pinned@.len() - i,
        {
            if same_str(self.pinned[i].as_str(), ip) {
                assert(self@.pinned[i as int] == ip@);
                return true;
            }
            i += 1;
        }
        false
    }

    /// The log: every attempt and every change, first to last.
    pub fn call_log(&self) -> (r: &[String])
        ensures
            strings(r@) == self@.log,
    {
        self.log.as_slice()
    }

    /// How many changes the log holds.
    pub fn applied_count(&self) -> (r: usize)
        ensures
            r == changes_in(self@.log).len(),
    {
        let prefix = chars_of("apply:");
        let ghost change = |line: Seq<char>| is_change(line);
        let mut n: usize = 0;
        let mut i: usize = 0;
        assert(self@.log.take(0) =~= Seq::<Seq<char>>::empty());
        proof {
            reveal(Seq::filter);
        }
        assert(self@.log.take(0).filter(change) =~= Seq::<Seq<char>>::empty());
        while i < self.log.len()
            invariant
                0 <= n <= i <= self.log@.len(),
                prefix@ == "apply:"@,
                change == (|line: Seq<char>| is_change(line)),
                n == self@.log.take(i as int).filter(change).len(),
            decreases self.log@.len() - i,
        {
            proof {
                reveal(Seq::filter);
                reveal_strlit("apply:");
                assert(self@.log.take(i + 1).drop_last() =~= self@.log.take(i as int));
                assert(self@.log.take(i + 1).last() == self.log@[i as int]@);
            }
            let line = chars_of(self.log[i].as_str());
            if line.len() >= 6 {
                assert(line@.take(6) =~= line@.subrange(0, 6));
                if same_text(&line.as_slice()[0..6], prefix.as_slice()) {
                    n += 1;
                }
            }
            i += 1;
        }
        assert(self@.log.take(i as int) =~= self@.log);
        n
    }
}

/// A line of the log about a route.
fn route_line(what: &str, dest: &str, via: &str) -> (r: String)
    ensures
        r@ == what@ + dest@ + " via "@ + via@,
{
    let mut r = joined(what, dest);
    r.append(" via ");
    r.append(via);
    r
}

impl Platform for FakePlatform {
    closed spec fn history(&self) -> Seq<PlatformCall> {
        self.history@
    }

    /// The calls since `origin` lead from what it held to what is held.
    open spec fn follows(&self, origin: Self) -> bool {
        &&& origin.history().is_prefix_of(self.history())
        &&& played(origin@, self.history().skip(origin.history().len() as int)) == Some(self@)
    }

    closed spec fn spec_state_path(&self) -> Seq<char> {
        self.state_path@
    }

    fn resolve_host(&mut self, host: &str) -> (r: Result<Vec<IpAddr>, ClientError>)
        ensures
            (final(self)@, outcome_of(r)) == tried(
                old(self)@,
                Step::Resolve,
                logged(attempted(old(self)@, Step::Resolve), "resolve "@ + host@),
            ),
            r matches Ok(ips) ==> ip_models(ips@) == fake_server(),
    {
        let r = match self.fail(Step::Resolve) {
            Err(e) => Err(e),
            Ok(_) => {
                self.record(joined("resolve ", host));
                let mut ips: Vec<IpAddr> = Vec::new();
                ips.push(IpAddr::V4(Ipv4Addr::new(93, 184, 216, 34)));
                assert(ip_models(ips@) =~= fake_server());
                Ok(ips)
            },
        };
        self.history = Ghost(self.history@.push(PlatformCall::Resolve(host@, resolved(r))));
        proof {
            lemma_follows(*old(self), *self, PlatformCall::Resolve(host@, resolved(r)));
        }
        r
    }

    fn snapshot(&mut self) -> (r: Result<Snapshot, ClientError>)
        ensures
            final(self)@ == logged(old(self)@, "snapshot"@),
            r matches Ok(snap) && snap@ == captured(old(self)@),
    {
        self.record("snapshot".to_owned());
        let snap = Snapshot { routes: list_routes(&self.routes), dns_servers: copied(&self.dns) };
        assert(snap@ =~= captured(old(self)@));
        self.history = Ghost(self.history@.push(PlatformCall::Snapshot(Ok(snap@))));
        proof {
            lemma_follows(*old(self), *self, PlatformCall::Snapshot(Ok(snap@)));
        }
        Ok(snap)
    }

    fn tun_up(&mut self, name: &str, addr: Ipv4Addr, mtu: u32) -> (r: Result<(), ClientError>)
        ensures
            (final(self)@, outcome(r)) == fake_tun_up(old(self)@, name@),
    {
        let r = self.fail(Step::TunUp);
        if r.is_ok() {
            self.tun = true;
            self.record(joined("apply:tun_up ", name));
        }
        self.history = Ghost(self.history@.push(PlatformCall::TunUp(name@, addr, mtu, outcome(r))));
        proof {
            lemma_follows(*old(self), *self, PlatformCall::TunUp(name@, addr, mtu, outcome(r)));
        }
        r
    }

    fn tun_down(&mut self) -> (r: Result<(), ClientError>)
        ensures
            r is Ok,
            final(self)@ == (FakeModel {
                tun: false,
                ..logged(old(self)@, "apply:tun_down"@)
            }),
    {
        self.tun = false;
        self.record("apply:tun_down".to_owned());
        self.history = Ghost(self.history@.push(PlatformCall::TunDown(Ok(()))));
        proof {
            lemma_follows(*old(self), *self, PlatformCall::TunDown(Ok(())));
        }
        Ok(())
    }

    fn pin_route(&mut self, dest: &IpAddr, via: Ipv4Addr) -> (r: Result<(), ClientError>)
        ensures
            (final(self)@, outcome(r)) == fake_pin(old(self)@, dest@, via),
    {
        let r = self.fail(Step::PinRoute);
        if r.is_ok() {
            let name = dest.to_text();
            let gateway = via.to_text();
            let ghost before = self.pinned@;
            self.pinned.push(name.clone());
            assert(strings(self.pinned@) =~= strings(before).push(name@));
            self.routes.insert(name.as_str(), gateway.as_str());
            self.record(route_line("apply:pin_route ", name.as_str(), gateway.as_str()));
        }
        self.history = Ghost(self.history@.push(PlatformCall::PinRoute(dest@, via, outcome(r))));
        proof {
            lemma_follows(*old(self), *self, PlatformCall::PinRoute(dest@, via, outcome(r)));
        }
        r
    }

    fn add_route(&mut self, dest: &str, via: Ipv4Addr) -> (r: Result<(), ClientError>)
        ensures
            (final(self)@, outcome(r)) == fake_route(old(self)@, dest@, via),
    {
        let r = self.fail(Step::DirectRules);
        if r.is_ok() {
            let gateway = via.to_text();
            self.routes.insert(dest, gateway.as_str());
            self.record(route_line("apply:route ", dest, gateway.as_str()));
        }
        self.history = Ghost(self.history@.push(PlatformCall::AddRoute(dest@, via, outcome(r))));
        proof {
            lemma_follows(*old(self), *self, PlatformCall::AddRoute(dest@, via, outcome(r)));
        }
        r
    }

    fn default_via_tun(&mut self) -> (r: Result<(), ClientError>)
        ensures
            (final(self)@, outcome(r)) == fake_default(old(self)@),
    {
        let r = self.fail(Step::DefaultViaTun);
        if r.is_ok() {
            self.routes.insert("default", "tun");
            self.record("apply:default_via_tun".to_owned());
        }
        self.history = Ghost(self.history@.push(PlatformCall::DefaultViaTun(outcome(r))));
        proof {
            lemma_follows(*old(self), *self, PlatformCall::DefaultViaTun(outcome(r)));
        }
        r
    }

    fn force_dns(&mut self, dns_ip: Ipv4Addr) -> (r: Result<(), ClientError>)
        ensures
            (final(self)@, outcome(r)) == fake_dns(old(self)@, dns_ip),
    {
        let r = self.fail(Step::DnsForce);
        if r.is_ok() {
            let mut dns: Vec<String> = Vec::new();
            dns.push(dns_ip.to_text());
            assert(strings(dns@) =~= seq![dns_ip.spec_text()]);
            self.dns = dns;
            self.record(joined("apply:force_dns ", dns_ip.to_text().as_str()));
        }
        self.history = Ghost(self.history@.push(PlatformCall::ForceDns(dns_ip, outcome(r))));
        proof {
            lemma_follows(*old(self), *self, PlatformCall::ForceDns(dns_ip, outcome(r)));
        }
        r
    }

    fn restore(&mut self, snap: &Snapshot) -> (r: Result<(), ClientError>)
        ensures
            r is Ok,
            final(self)@ == restored(old(self)@, snap@),
    {
        self.back_to(snap);
        self.history = Ghost(self.history@.push(PlatformCall::Restore(snap@, Ok(()))));
        proof {
            lemma_follows(*old(self), *self, PlatformCall::Restore(snap@, Ok(())));
        }
        Ok(())
    }

    fn restore_applied(&mut self, state: &UpState) -> (r: Result<(), ClientError>)
        ensures
            r is Ok,
            final(self)@ == restored(old(self)@, state@.snapshot),
    {
        self.back_to(&state.snapshot);
        self.history = Ghost(self.history@.push(PlatformCall::RestoreApplied(state@, Ok(()))));
        proof {
            lemma_follows(*old(self), *self, PlatformCall::RestoreApplied(state@, Ok(())));
        }
        Ok(())
    }

    fn captured_iface(&mut self) -> (r: Option<String>)
        ensures
            r is None,
            final(self)@ == old(self)@,
    {
        self.history = Ghost(self.history@.push(PlatformCall::CapturedIface(None)));
        proof {
            lemma_follows(*old(self), *self, PlatformCall::CapturedIface(None));
        }
        None
    }

    fn tun_ifindex(&mut self) -> (r: Option<u32>)
        ensures
            r is None,
            final(self)@ == old(self)@,
    {
        self.history = Ghost(self.history@.push(PlatformCall::TunIfindex(None)));
        proof {
            lemma_follows(*old(self), *self, PlatformCall::TunIfindex(None));
        }
        None
    }

    fn state_path(&self) -> (r: String)
        ensures
            r@ == self@.state_path,
    {
        self.state_path.clone()
    }

    fn state_exists(&mut self) -> (r: bool)
        ensures
            r == (old(self)@.state is Some),
            final(self)@ == old(self)@,
    {
        let r = self.state.is_some();
        self.history = Ghost(self.history@.push(PlatformCall::StateExists(r)));
        proof {
            lemma_follows(*old(self), *self, PlatformCall::StateExists(r));
        }
        r
    }

    fn save_state(&mut self, state: &UpState) -> (r: Result<(), ClientError>)
        ensures
            r is Ok,
            final(self)@ == (FakeModel { state: Some(state@), ..old(self)@ }),
    {
        self.state = Some(copied_state(state));
        self.history = Ghost(self.history@.push(PlatformCall::SaveState(state@, Ok(()))));
        proof {
            lemma_follows(*old(self), *self, PlatformCall::SaveState(state@, Ok(())));
        }
        Ok(())
    }

    fn load_state(&mut self) -> (r: Result<UpState, ClientError>)
        ensures
            final(self)@ == old(self)@,
            match (r, old(self)@.state) {
                (Ok(state), Some(m)) => state@ == m,
                (Err(e), None) => e@ == ClientFault::PlatformError("no state"@),
                _ => false,
            },
    {
        let r = match &self.state {
            Some(state) => Ok(copied_state(state)),
            None => Err(ClientError::PlatformError("no state".to_owned())),
        };
        self.history = Ghost(self.history@.push(PlatformCall::LoadState(loaded(r))));
        proof {
            lemma_follows(*old(self), *self, PlatformCall::LoadState(loaded(r)));
        }
        r
    }

    fn remove_state(&mut self) -> (r: Result<(), ClientError>)
        ensures
            r is Ok,
            final(self)@ == (FakeModel { state: None, ..old(self)@ }),
    {
        self.state = None;
        self.history = Ghost(self.history@.push(PlatformCall::RemoveState(Ok(()))));
        proof {
            lemma_follows(*old(self), *self, PlatformCall::RemoveState(Ok(())));
        }
        Ok(())
    }
}

proof fn lemma_follows(before: FakePlatform, after: FakePlatform, call: PlatformCall)
    requires
        after.history() == before.history().push(call),
        answered(before@, call) == (after@, call),
    ensures
        forall|o: FakePlatform| before.follows(o) ==> #[trigger] after.follows(o),
{
    assert forall|o: FakePlatform| before.follows(o) implies #[trigger] after.follows(o) by {
        let n = o.history().len() as int;
        assert(after.history().skip(n).drop_last() =~= before.history().skip(n));
    }
}

/// Without calls a platform in memory holds what it held.
pub proof fn platform_follows_itself(platform: FakePlatform)
    ensures
        platform.follows(platform),
{
    assert(platform.history().skip(platform.history().len() as int).len() == 0);
}

/// What calls make of a platform in memory, from the first call on.
pub proof fn played_from_the_first(m: FakeModel, calls: Seq<PlatformCall>)
    requires
        calls.len() > 0,
        played(m, calls) is Some,
    ensures
        answered(m, calls[0]).1 == calls[0],
        played(m, calls) == played(answered(m, calls[0]).0, calls.skip(1)),
    decreases calls.len(),
{
    if calls.len() == 1 {
        assert(calls.drop_last().len() == 0);
        assert(calls.skip(1).len() == 0);
    } else {
        played_from_the_first(m, calls.drop_last());
        assert(calls.drop_last().skip(1) =~= calls.skip(1).drop_last());
    }
}

/// A platform that went back to a snapshot.
pub open spec fn restored(m: FakeModel, snap: SnapshotModel) -> FakeModel {
    FakeModel {
        routes: collected(snap.routes),
        dns: snap.dns_servers,
        tun: false,
        pinned: Seq::empty(),
        ..logged(m, "restore"@)
    }
}

impl FakePlatform {
    fn back_to(&mut self, snap: &Snapshot)
        ensures
            final(self)@ == restored(old(self)@, snap@),
            final(self).history() == old(self).history(),
    {
        self.routes = collect_routes(&snap.routes);
        self.dns = copied(&snap.dns_servers);
        self.tun = false;
        self.pinned = Vec::new();
        self.record("restore".to_owned());
        assert(self@ =~= restored(old(self)@, snap@));
    }
}

/// A copy of a state.
pub(crate) fn copied_state(state: &UpState) -> (r: UpState)
    ensures
        r@ == state@,
{
    UpState {
        snapshot: copied_snapshot(&state.snapshot),
        applied: copied_changes(&state.applied),
        dns_iface: state.dns_iface.clone(),
        tun_ifindex: state.tun_ifindex,
    }
}

/// Going back to a snapshot brings back what was captured: routes and resolvers are
/// as they were, and the device is gone.
pub proof fn captured_network_is_restored(before: FakeModel, after: FakeModel)
    requires
        unique_keys(before.routes),
    ensures
        ({
            let snap = SnapshotModel {
                routes: routes_of(before.routes),
                dns_servers: before.dns,
            };
            let back = restored(after, snap);
            back.routes == before.routes && back.dns == before.dns && !back.tun
        }),
{
    routes_are_collected_again(before.routes);
}

proof fn routes_are_collected_again(table: Seq<(Seq<char>, Seq<char>)>)
    requires
        unique_keys(table),
    ensures
        collected(routes_of(table)) == table,
    decreases table.len(),
{
    if table.len() == 0 {
        assert(collected(routes_of(table)) =~= table);
    } else {
        let first = table.drop_last();
        routes_are_collected_again(first);
        assert(routes_of(table).drop_last() =~= routes_of(first));
        key_index_finds(first, table.last().0);
        assert(first.push(table.last()) =~= table);
    }
}

/// What each change makes of a platform in memory where it succeeds: the device is there, a
/// destination has the gateway that it was given, the default route has the device, and the
/// only resolver is the one that was set; the other destinations keep theirs. Where it fails,
/// nothing but the attempt is seen.
pub proof fn changes_are_seen_in_memory(
    m: FakeModel,
    name: Seq<char>,
    ip: IpModel,
    dest: Seq<char>,
    via: Ipv4Addr,
    other: Seq<char>,
)
    ensures
        fake_tun_up(m, name).1 is Ok <==> m.fail_at != Some(Step::TunUp),
        fake_tun_up(m, name).1 is Ok ==> fake_tun_up(m, name).0.tun,
        fake_pin(m, ip, via).1 is Ok <==> m.fail_at != Some(Step::PinRoute),
        fake_pin(m, ip, via).1 is Ok ==> {
            let after = fake_pin(m, ip, via).0;
            &&& value_of(after.routes, ip.text()) == Some(via.spec_text())
            &&& other != ip.text() ==> value_of(after.routes, other) == value_of(m.routes, other)
            &&& after.pinned == m.pinned.push(ip.text())
        },
        fake_route(m, dest, via).1 is Ok <==> m.fail_at != Some(Step::DirectRules),
        fake_route(m, dest, via).1 is Ok ==> {
            let after = fake_route(m, dest, via).0;
            &&& value_of(after.routes, dest) == Some(via.spec_text())
            &&& other != dest ==> value_of(after.routes, other) == value_of(m.routes, other)
        },
        fake_default(m).1 is Ok <==> m.fail_at != Some(Step::DefaultViaTun),
        fake_default(m).1 is Ok ==> value_of(fake_default(m).0.routes, "default"@) == Some("tun"@),
        fake_dns(m, via).1 is Ok <==> m.fail_at != Some(Step::DnsForce),
        fake_dns(m, via).1 is Ok ==> fake_dns(m, via).0.dns == seq![via.spec_text()],
        fake_tun_up(m, name).1 is Err ==> fake_tun_up(m, name).0 == attempted(m, Step::TunUp),
        fake_route(m, dest, via).1 is Err ==> fake_route(m, dest, via).0 == attempted(
            m,
            Step::DirectRules,
        ),
{
    set_values_are_read_back(m.routes, ip.text(), via.spec_text(), ip.text());
    set_values_are_read_back(m.routes, ip.text(), via.spec_text(), other);
    set_values_are_read_back(m.routes, dest, via.spec_text(), dest);
    set_values_are_read_back(m.routes, dest, via.spec_text(), other);
    set_values_are_read_back(m.routes, "default"@, "tun"@, "default"@);
}

/// A failed command is passed over wherever its text says that the route is there already, in
/// English or in Russian, and no other fault is.
pub proof fn existing_routes_are_no_failure(head: Seq<char>, tail: Seq<char>, m: Seq<char>)
    ensures
        says_exists(ClientFault::PlatformError(head + "already exists"@ + tail)),
        says_exists(ClientFault::PlatformError(head + "уже существует"@ + tail)),
        !contains_text(m, "already exists"@) && !contains_text(m, "уже существует"@)
            ==> !says_exists(ClientFault::PlatformError(m)),
        !says_exists(ClientFault::RoutingError(m)),
        !says_exists(ClientFault::DnsError(m)),
        !says_exists(ClientFault::CleanupError(m)),
        !says_exists(ClientFault::ConfigError(m)),
{
    lemma_stands_within(head, "already exists"@, tail);
    lemma_stands_within(head, "уже существует"@, tail);
}

proof fn lemma_stands_within(head: Seq<char>, needle: Seq<char>, tail: Seq<char>)
    ensures
        contains_text(head + needle + tail, needle),
{
    let s = head + needle + tail;
    let i = head.len() as int;
    assert(s.subrange(i, i + needle.len()) =~= needle);
    assert(occurs_at(s, needle, i));
}

} // verus!
