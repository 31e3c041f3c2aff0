//! The TUN device: creation parameters, packet exchange, and the record of
//! network changes that is undone when the tunnel goes down.

use vstd::prelude::*;
use vstd::string::*;
use vstd::utf8::encode_utf8;

use crate::net::Ipv4Addr;
use crate::netstack::{NetstackError, NetstackFault, DEFAULT_MTU};
use crate::text::{copied, decimal, decimal_of, joined, quoted, quoted_text, same_str, strings};

verus! {

/// One entry of a routing table.
#[derive(Clone, Debug, PartialEq, Eq)]
pub struct Route {
    /// Destination: `default`, an address, or an address and a prefix length.
    pub dest: String,
    /// Gateway.
    pub via: String,
}

/// Mathematical counterpart of [`Route`].
pub struct RouteModel {
    pub dest: Seq<char>,
    pub via: Seq<char>,
}

impl View for Route {
    type V = RouteModel;

    open spec fn view(&self) -> RouteModel {
        RouteModel { dest: self.dest@, via: self.via@ }
    }
}

/// Routes and resolvers before the tunnel went up.
#[derive(Clone, Debug, PartialEq, Eq)]
pub struct Snapshot {
    pub routes: Vec<Route>,
    pub dns_servers: Vec<String>,
}

/// Mathematical counterpart of [`Snapshot`].
#[verifier::ext_equal]
pub struct SnapshotModel {
    pub routes: Seq<RouteModel>,
    pub dns_servers: Seq<Seq<char>>,
}

impl View for Snapshot {
    type V = SnapshotModel;

    open spec fn view(&self) -> SnapshotModel {
        SnapshotModel {
            routes: self.routes@.map_values(|r: Route| r@),
            dns_servers: strings(self.dns_servers@),
        }
    }
}

/// A copy of a snapshot.
pub(crate) fn copied_snapshot(snap: &Snapshot) -> (r: Snapshot)
    ensures
        r@ == snap@,
{
    let mut routes: Vec<Route> = Vec::new();
    let mut i: usize = 0;
    while i < snap.routes.len()
        invariant
            0 <= i <= snap.routes@.len(),
            routes@.len() == i,
            forall|j: int| 0 <= j < i ==> (#[trigger] routes@[j])@ == snap.routes@[j]@,
        decreases snap.routes@.len() - i,
    {
        routes.push(Route { dest: snap.routes[i].dest.clone(), via: snap.routes[i].via.clone() });
        i += 1;
    }
    let r = Snapshot { routes, dns_servers: copied(&snap.dns_servers) };
    assert(r@ =~= snap@);
    r
}

/// One change that bringing the tunnel up made.
#[derive(Clone, Debug, PartialEq, Eq)]
pub enum AppliedChange {
    /// The TUN device was created.
    TunUp(String),
    /// The server's address was routed via the physical gateway.
    PinnedRoute(String),
    /// A destination of a direct rule was routed via the physical gateway.
    DirectRoute(String),
    /// The default route was moved into the TUN device.
    DefaultViaTun,
    /// The resolvers were overridden; these are the previous ones.
    DnsOverride(Vec<String>),
}

/// Mathematical counterpart of [`AppliedChange`].
pub enum ChangeModel {
    TunUp(Seq<char>),
    PinnedRoute(Seq<char>),
    DirectRoute(Seq<char>),
    DefaultViaTun,
    DnsOverride(Seq<Seq<char>>),
}

impl View for AppliedChange {
    type V = ChangeModel;

    open spec fn view(&self) -> ChangeModel {
        match *self {
            AppliedChange::TunUp(name) => ChangeModel::TunUp(name@),
            AppliedChange::PinnedRoute(dest) => ChangeModel::PinnedRoute(dest@),
            AppliedChange::DirectRoute(dest) => ChangeModel::DirectRoute(dest@),
            AppliedChange::DefaultViaTun => ChangeModel::DefaultViaTun,
            AppliedChange::DnsOverride(servers) => ChangeModel::DnsOverride(strings(servers@)),
        }
    }
}

/// The changes of a log.
pub open spec fn changes(log: Seq<AppliedChange>) -> Seq<ChangeModel> {
    log.map_values(|c: AppliedChange| c@)
}

/// A copy of a change.
pub(crate) fn copied_change(change: &AppliedChange) -> (r: AppliedChange)
    ensures
        r@ == change@,
{
    match change {
        AppliedChange::TunUp(name) => AppliedChange::TunUp(name.clone()),
        AppliedChange::PinnedRoute(dest) => AppliedChange::PinnedRoute(dest.clone()),
        AppliedChange::DirectRoute(dest) => AppliedChange::DirectRoute(dest.clone()),
        AppliedChange::DefaultViaTun => AppliedChange::DefaultViaTun,
        AppliedChange::DnsOverride(servers) => AppliedChange::DnsOverride(copied(servers)),
    }
}

/// A copy of a log.
pub(crate) fn copied_changes(log: &Vec<AppliedChange>) -> (r: Vec<AppliedChange>)
    ensures
        changes(r@) == changes(log@),
{
    let mut r: Vec<AppliedChange> = Vec::new();
    let mut i: usize = 0;
    while i < log.len()
        invariant
            0 <= i <= log@.len(),
            r@.len() == i,
            forall|j: int| 0 <= j < i ==> (#[trigger] r@[j])@ == log@[j]@,
        decreases log@.len() - i,
    {
        r.push(copied_change(&log[i]));
        i += 1;
    }
    assert(changes(r@) =~= changes(log@));
    r
}

/// One step that undoes a change.
#[derive(Clone, Debug, PartialEq, Eq)]
pub enum RestoreOp {
    /// Take the default route out of the TUN device.
    RemoveDefaultViaTun,
    /// Remove a route via the physical gateway.
    RemovePinnedRoute(String),
    /// Destroy the TUN device.
    TunDown(String),
    /// Set the previous resolvers.
    RestoreDns(Vec<String>),
}

/// Mathematical counterpart of [`RestoreOp`].
pub enum RestoreModel {
    RemoveDefaultViaTun,
    RemovePinnedRoute(Seq<char>),
    TunDown(Seq<char>),
    RestoreDns(Seq<Seq<char>>),
}

impl View for RestoreOp {
    type V = RestoreModel;

    open spec fn view(&self) -> RestoreModel {
        match *self {
            RestoreOp::RemoveDefaultViaTun => RestoreModel::RemoveDefaultViaTun,
            RestoreOp::RemovePinnedRoute(dest) => RestoreModel::RemovePinnedRoute(dest@),
            RestoreOp::TunDown(name) => RestoreModel::TunDown(name@),
            RestoreOp::RestoreDns(servers) => RestoreModel::RestoreDns(strings(servers@)),
        }
    }
}

/// The step that undoes a change.
pub open spec fn undone_by(change: ChangeModel) -> RestoreModel {
    match change {
        ChangeModel::TunUp(name) => RestoreModel::TunDown(name),
        ChangeModel::PinnedRoute(dest) => RestoreModel::RemovePinnedRoute(dest),
        ChangeModel::DirectRoute(dest) => RestoreModel::RemovePinnedRoute(dest),
        ChangeModel::DefaultViaTun => RestoreModel::RemoveDefaultViaTun,
        ChangeModel::DnsOverride(servers) => RestoreModel::RestoreDns(servers),
    }
}

/// The steps that undo a log: the last change first.
pub open spec fn rollback(log: Seq<ChangeModel>) -> Seq<RestoreModel> {
    Seq::new(log.len(), |i: int| undone_by(log[log.len() - 1 - i]))
}

/// Plans the way back: the strict reverse of the order of application.
pub fn rollback_plan(log: &[AppliedChange]) -> (r: Vec<RestoreOp>)
    ensures
        r@.map_values(|op: RestoreOp| op@) == rollback(changes(log@)),
{
    let mut plan: Vec<RestoreOp> = Vec::new();
    let mut i: usize = log.len();
    while i > 0
        invariant
            0 <= i <= log@.len(),
            plan@.len() == log@.len() - i,
            forall|j: int|
                0 <= j < plan@.len() ==> (#[trigger] plan@[j])@ == undone_by(
                    log@[log@.len() - 1 - j]@,
                ),
        decreases i,
    {
        i -= 1;
        let op = match &log[i] {
            AppliedChange::TunUp(name) => RestoreOp::TunDown(name.clone()),
            AppliedChange::PinnedRoute(dest) => RestoreOp::RemovePinnedRoute(dest.clone()),
            AppliedChange::DirectRoute(dest) => RestoreOp::RemovePinnedRoute(dest.clone()),
            AppliedChange::DefaultViaTun => RestoreOp::RemoveDefaultViaTun,
            AppliedChange::DnsOverride(servers) => RestoreOp::RestoreDns(copied(servers)),
        };
        plan.push(op);
    }
    assert(plan@.map_values(|op: RestoreOp| op@) =~= rollback(changes(log@)));
    plan
}

/// Undoing a log undoes its last change first and then the rest of it.
pub proof fn rollback_is_last_in_first_out(log: Seq<ChangeModel>, change: ChangeModel)
    ensures
        rollback(log.push(change)) == seq![undone_by(change)] + rollback(log),
        rollback(log).len() == log.len(),
{
    assert(rollback(log.push(change)) =~= seq![undone_by(change)] + rollback(log));
}

/// The position of the first default route, the number of routes if there is none.
pub open spec fn default_route(routes: Seq<RouteModel>) -> int
    decreases routes.len(),
{
    if routes.len() == 0 {
        0
    } else if routes[0].dest == "default"@ {
        0
    } else {
        1 + default_route(routes.skip(1))
    }
}

/// The gateway of the first default route, if there is one and it is an address.
pub open spec fn gateway_of(snap: SnapshotModel) -> Option<Ipv4Addr> {
    let i = default_route(snap.routes);
    if i < snap.routes.len() {
        Ipv4Addr::spec_parse(snap.routes[i].via)
    } else {
        None
    }
}

/// The default gateway before the tunnel went up.
pub fn previous_gateway(snap: &Snapshot) -> (r: Option<Ipv4Addr>)
    ensures
        r == gateway_of(snap@),
{
    let ghost routes = snap@.routes;
    let mut i: usize = 0;
    assert(routes.skip(0) =~= routes);
    while i < snap.routes.len()
        invariant
            0 <= i <= snap.routes@.len(),
            routes == snap@.routes,
            default_route(routes) == i + default_route(routes.skip(i as int)),
        decreases snap.routes@.len() - i,
    {
        assert(routes[i as int] == snap.routes@[i as int]@);
        assert(routes.skip(i as int).skip(1) =~= routes.skip(i + 1));
        if same_str(snap.routes[i].dest.as_str(), "default") {
            return Ipv4Addr::parse(snap.routes[i].via.as_str());
        }
        i += 1;
    }
    None
}

/// What is needed to undo a tunnel after a crash: the state before it, the
/// changes made, and where they were made.
#[derive(Clone, Debug, PartialEq, Eq)]
pub struct UpState {
    /// The network before the tunnel went up.
    pub snapshot: Snapshot,
    /// Changes made, in order.
    pub applied: Vec<AppliedChange>,
    /// The physical interface whose resolvers were overridden.
    pub dns_iface: String,
    /// Index of the TUN adapter while the tunnel was up.
    pub tun_ifindex: Option<u32>,
}

/// Mathematical counterpart of [`UpState`].
#[verifier::ext_equal]
pub struct UpStateModel {
    pub snapshot: SnapshotModel,
    pub applied: Seq<ChangeModel>,
    pub dns_iface: Seq<char>,
    pub tun_ifindex: Option<u32>,
}

impl View for UpState {
    type V = UpStateModel;

    open spec fn view(&self) -> UpStateModel {
        UpStateModel {
            snapshot: self.snapshot@,
            applied: changes(self.applied@),
            dns_iface: self.dns_iface@,
            tun_ifindex: self.tun_ifindex,
        }
    }
}

/// One exchange with a packet device.
pub enum TunEvent {
    /// The device was asked for a packet, and what it gave.
    Took(Result<Option<Seq<u8>>, NetstackFault>),
    /// A packet was handed to the device, and whether it took it.
    Offered(Seq<u8>, Result<(), NetstackFault>),
}

/// What a device gave when it was asked for a packet.
pub open spec fn taken(r: Result<Option<Vec<u8>>, NetstackError>) -> Result<
    Option<Seq<u8>>,
    NetstackFault,
> {
    match r {
        Ok(Some(pkt)) => Ok(Some(pkt@)),
        Ok(None) => Ok(None),
        Err(e) => Err(e@),
    }
}

/// Whether a device took the packet it was handed.
pub open spec fn delivered(r: Result<(), NetstackError>) -> Result<(), NetstackFault> {
    match r {
        Ok(_) => Ok(()),
        Err(e) => Err(e@),
    }
}

/// A device that IP packets come from and go to.
///
/// `history` records every exchange. Nothing is said of which packets come or
/// whether a packet is taken, but a device runs dry: `waiting` bounds how many
/// packets it gives before it has none. Both exist in proofs only; a device that is
/// not verified itself leaves them out.
pub trait TunPackets: Send {
    /// Every exchange so far, first to last.
    closed spec fn history(&self) -> Seq<TunEvent> {
        arbitrary()
    }

    /// Bound on the packets that are left.
    closed spec fn waiting(&self) -> nat {
        arbitrary()
    }

    /// Takes the next packet, `None` when there is none yet.
    fn try_recv(&mut self) -> (r: Result<Option<Vec<u8>>, NetstackError>)
        ensures
            final(self).history() == old(self).history().push(TunEvent::Took(taken(r))),
            r matches Ok(Some(_)) ==> final(self).waiting() < old(self).waiting(),
    ;

    /// Hands one raw IP packet to the device.
    fn send_packet(&mut self, pkt: &[u8]) -> (r: Result<(), NetstackError>)
        ensures
            final(self).history() == old(self).history().push(
                TunEvent::Offered(pkt@, delivered(r)),
            ),
            final(self).waiting() == old(self).waiting(),
    ;
}

/// Creation parameters of a TUN device.
#[derive(Clone, Debug, PartialEq, Eq)]
pub struct TunConfig {
    /// Interface name, 1 to 15 bytes.
    pub name: String,
    /// MTU, 1280 to 9000.
    pub mtu: u32,
}

/// What is wrong with creation parameters, if anything.
pub open spec fn config_fault(name: Seq<char>, mtu: u32) -> Option<NetstackFault> {
    if name.len() == 0 || encode_utf8(name).len() > 15 {
        Some(
            NetstackFault::TunError("bad tun name "@ + quoted_text(name) + " (1..=15 bytes)"@),
        )
    } else if mtu < 1280 || mtu > 9000 {
        Some(NetstackFault::TunError("bad mtu "@ + decimal(mtu as nat) + " (1280..=9000)"@))
    } else {
        None
    }
}

impl TunConfig {
    /// Checks name and MTU without touching the system.
    pub fn validate(&self) -> (r: Result<(), NetstackError>)
        ensures
            match (r, config_fault(self.name@, self.mtu)) {
                (Ok(_), None) => true,
                (Err(e), Some(fault)) => e@ == fault,
                _ => false,
            },
    {
        let name = self.name.as_str();
        if name.is_empty() || name.as_bytes().len() > 15 {
            let mut m = joined("bad tun name ", quoted(name).as_str());
            m.append(" (1..=15 bytes)");
            return Err(NetstackError::TunError(m));
        }
        if self.mtu < 1280 || self.mtu > 9000 {
            let mut m = joined("bad mtu ", decimal_of(self.mtu as u64).as_str());
            m.append(" (1280..=9000)");
            return Err(NetstackError::TunError(m));
        }
        Ok(())
    }
}

/// Handle of a TUN device of this build, which has no driver: every operation
/// that needs one is refused.
pub struct TunInterface {
    /// Interface name.
    pub name: String,
    /// Interface MTU.
    pub mtu: u32,
    history: Ghost<Seq<TunEvent>>,
}

/// How an operation is refused that needs the driver.
pub open spec fn no_driver() -> NetstackFault {
    NetstackFault::TunError(
        "need root/CAP_NET_ADMIN: /dev/net/tun ioctls land in the platform task"@,
    )
}

fn refuse() -> (r: NetstackError)
    ensures
        r@ == no_driver(),
{
    NetstackError::TunError(
        "need root/CAP_NET_ADMIN: /dev/net/tun ioctls land in the platform task".to_owned(),
    )
}

/// What opening a device comes to: parameters are checked first, and then it is what
/// the driver made of it, or the missing driver where `driver` is `None`.
pub fn open_through<T>(config: &TunConfig, driver: Option<Result<T, NetstackError>>) -> (r: Result<
    T,
    NetstackError,
>)
    ensures
        match config_fault(config.name@, config.mtu) {
            Some(fault) => r matches Err(e) && e@ == fault,
            None => match driver {
                Some(opened) => r == opened,
                None => r matches Err(e) && e@ == no_driver(),
            },
        },
{
    match config.validate() {
        Ok(_) => match driver {
            Some(opened) => opened,
            None => Err(refuse()),
        },
        Err(e) => Err(e),
    }
}

impl TunInterface {
    /// Opens a device with the default MTU. Parameters are checked first, then
    /// the missing driver is reported.
    pub fn open(name: &str) -> (r: Result<Self, NetstackError>)
        ensures
            r matches Err(e) && e@ == (match config_fault(name@, 1400) {
                Some(fault) => fault,
                None => no_driver(),
            }),
    {
        TunInterface::open_with(&TunConfig { name: name.to_owned(), mtu: DEFAULT_MTU as u32 })
    }

    /// Opens a device. Parameters are checked first, then the missing driver is
    /// reported.
    pub fn open_with(config: &TunConfig) -> (r: Result<Self, NetstackError>)
        ensures
            r matches Err(e) && e@ == (match config_fault(config.name@, config.mtu) {
                Some(fault) => fault,
                None => no_driver(),
            }),
    {
        open_through(config, None)
    }

    /// Index of the adapter; there is none without a driver.
    pub fn adapter_index(&self) -> (r: Result<u32, NetstackError>)
        ensures
            r matches Err(e) && e@ == no_driver(),
    {
        Err(refuse())
    }

    /// Ends the session and deletes the adapter; there is none without a driver.
    pub fn delete(self) -> (r: Result<(), NetstackError>)
        ensures
            r matches Err(e) && e@ == no_driver(),
    {
        Err(refuse())
    }
}

impl TunPackets for TunInterface {
    closed spec fn history(&self) -> Seq<TunEvent> {
        self.history@
    }

    closed spec fn waiting(&self) -> nat {
        0
    }

    fn try_recv(&mut self) -> (r: Result<Option<Vec<u8>>, NetstackError>)
        ensures
            r matches Err(e) && e@ == no_driver(),
    {
        self.history = Ghost(self.history@.push(TunEvent::Took(Err(no_driver()))));
        Err(refuse())
    }

    fn send_packet(&mut self, pkt: &[u8]) -> (r: Result<(), NetstackError>)
        ensures
            r matches Err(e) && e@ == no_driver(),
    {
        self.history = Ghost(self.history@.push(TunEvent::Offered(pkt@, Err(no_driver()))));
        Err(refuse())
    }
}

/// How often the name of an adapter is tried to be set.
pub const NAME_ATTEMPTS: u32 = 10;

/// Milliseconds between two tries.
pub const NAME_PAUSE_MS: u64 = 500;

/// How far the naming of an adapter has come.
#[derive(Clone, Copy, Debug, PartialEq, Eq, Structural)]
pub enum NamingStage {
    /// The present name is asked for.
    Ask,
    /// The adapter has another name, which is changed.
    Rename,
    /// There is a pause after a failure.
    Pause,
    /// The adapter has its name.
    Named,
    /// It was tried often enough.
    GivenUp,
}

/// What the naming of an adapter knows.
#[verifier::ext_equal]
pub struct NamingModel {
    pub name: Seq<char>,
    pub stage: NamingStage,
    /// How many tries came to a pause.
    pub tries: nat,
    /// The last failure.
    pub failure: Seq<char>,
}

/// The naming of an adapter before the first try.
pub open spec fn fresh_naming(name: Seq<char>) -> NamingModel {
    NamingModel { name, stage: NamingStage::Ask, tries: 0, failure: Seq::empty() }
}

/// What is known after the present name was asked for.
pub open spec fn name_told(m: NamingModel, r: Result<Seq<char>, Seq<char>>) -> NamingModel {
    match r {
        Ok(current) => NamingModel {
            stage: if current == m.name {
                NamingStage::Named
            } else {
                NamingStage::Rename
            },
            ..m
        },
        Err(why) => NamingModel { stage: NamingStage::Pause, failure: "get_name: "@ + why, ..m },
    }
}

/// What is known after the name was changed.
pub open spec fn rename_told(m: NamingModel, r: Result<(), Seq<char>>) -> NamingModel {
    match r {
        Ok(_) => NamingModel { stage: NamingStage::Named, ..m },
        Err(why) => NamingModel { stage: NamingStage::Pause, failure: "rename: "@ + why, ..m },
    }
}

/// What is known after a pause.
pub open spec fn pause_told(m: NamingModel) -> NamingModel {
    NamingModel {
        tries: m.tries + 1,
        stage: if m.tries + 1 >= NAME_ATTEMPTS {
            NamingStage::GivenUp
        } else {
            NamingStage::Ask
        },
        ..m
    }
}

/// Gives an adapter the name that commands know it by. The system registers names
/// only after a while, so this is tried several times.
pub struct Naming {
    name: String,
    stage: NamingStage,
    tries: u32,
    failure: String,
}

impl View for Naming {
    type V = NamingModel;

    closed spec fn view(&self) -> NamingModel {
        NamingModel {
            name: self.name@,
            stage: self.stage,
            tries: self.tries as nat,
            failure: self.failure@,
        }
    }
}

impl Naming {
    /// Whether no more tries were made than allowed.
    pub closed spec fn wf(&self) -> bool {
        self.tries < NAME_ATTEMPTS || self.stage == NamingStage::GivenUp
    }

    /// Before the first try.
    pub fn new(name: &str) -> (r: Self)
        ensures
            r.wf(),
            r@ == fresh_naming(name@),
    {
        let r = Naming {
            name: name.to_owned(),
            stage: NamingStage::Ask,
            tries: 0,
            failure: String::new(),
        };
        assert(r@ =~= fresh_naming(name@));
        r
    }

    /// What is to be done next.
    pub fn stage(&self) -> (r: NamingStage)
        ensures
            r == self@.stage,
    {
        self.stage
    }

    /// Takes note of the present name, or why it could not be told.
    pub fn name_is(&mut self, r: Result<String, String>)
        requires
            old(self).wf(),
            old(self)@.stage == NamingStage::Ask,
        ensures
            final(self).wf(),
            final(self)@ == name_told(
                old(self)@,
                match r {
                    Ok(name) => Ok(name@),
                    Err(why) => Err(why@),
                },
            ),
    {
        match r {
            Ok(current) => {
                self.stage = if same_str(current.as_str(), self.name.as_str()) {
                    NamingStage::Named
                } else {
                    NamingStage::Rename
                };
            },
            Err(why) => {
                self.failure = joined("get_name: ", why.as_str());
                self.stage = NamingStage::Pause;
            },
        }
    }

    /// Takes note of what came of changing the name.
    pub fn renamed(&mut self, r: Result<(), String>)
        requires
            old(self).wf(),
            old(self)@.stage == NamingStage::Rename,
        ensures
            final(self).wf(),
            final(self)@ == rename_told(
                old(self)@,
                match r {
                    Ok(_) => Ok(()),
                    Err(why) => Err(why@),
                },
            ),
    {
        match r {
            Ok(_) => {
                self.stage = NamingStage::Named;
            },
            Err(why) => {
                self.failure = joined("rename: ", why.as_str());
                self.stage = NamingStage::Pause;
            },
        }
    }

    /// Takes note of a pause.
    pub fn pause_over(&mut self)
        requires
            old(self).wf(),
            old(self)@.stage == NamingStage::Pause,
        ensures
            final(self).wf(),
            final(self)@ == pause_told(old(self)@),
    {
        self.tries = self.tries + 1;
        self.stage = if self.tries >= NAME_ATTEMPTS {
            NamingStage::GivenUp
        } else {
            NamingStage::Ask
        };
    }

    /// The error of an adapter that could not be named.
    pub fn failure(&self) -> (r: NetstackError)
        ensures
            r@ == NetstackFault::TunError(
                "wintun adapter '"@ + self@.name + "' friendly-name sync failed: "@
                    + self@.failure,
            ),
    {
        let mut m = joined("wintun adapter '", self.name.as_str());
        m.append("' friendly-name sync failed: ");
        m.append(self.failure.as_str());
        NetstackError::TunError(m)
    }
}

proof fn lemma_default_route(routes: Seq<RouteModel>)
    ensures
        0 <= default_route(routes) <= routes.len(),
        forall|j: int| 0 <= j < default_route(routes) ==> (#[trigger] routes[j]).dest != "default"@,
        default_route(routes) < routes.len() ==> routes[default_route(routes)].dest
            == "default"@,
    decreases routes.len(),
{
    if routes.len() > 0 && routes[0].dest != "default"@ {
        let rest = routes.skip(1);
        lemma_default_route(rest);
        assert forall|j: int| 0 <= j < default_route(routes) implies (#[trigger] routes[j]).dest
            != "default"@ by {
            if j > 0 {
                assert(rest[j - 1] == routes[j]);
            }
        }
    }
}

/// The previous gateway is the address behind the first route that is the default one; there
/// is none where no route is.
pub proof fn gateway_is_that_of_the_default_route(snap: SnapshotModel, k: int)
    ensures
        0 <= k < snap.routes.len() && snap.routes[k].dest == "default"@ && (forall|j: int|
            0 <= j < k ==> (#[trigger] snap.routes[j]).dest != "default"@) ==> gateway_of(snap)
            == Ipv4Addr::spec_parse(snap.routes[k].via),
        (forall|j: int|
            0 <= j < snap.routes.len() ==> (#[trigger] snap.routes[j]).dest != "default"@)
            ==> gateway_of(snap) is None,
{
    lemma_default_route(snap.routes);
    let f = default_route(snap.routes);
    if 0 <= k < snap.routes.len() && snap.routes[k].dest == "default"@ && forall|j: int|
        0 <= j < k ==> (#[trigger] snap.routes[j]).dest != "default"@ {
        if f < k {
            assert(snap.routes[f].dest != "default"@);
        }
        if k < f {
            assert(snap.routes[k].dest != "default"@);
        }
    }
}

/// Each change is undone by its own counterpart, the last change first: a device is
/// destroyed, a route is removed, the default route is taken out of the device, and the
/// resolvers that were there before are set again.
pub proof fn changes_are_undone_by_their_counterparts(log: Seq<ChangeModel>, i: int)
    requires
        0 <= i < log.len(),
    ensures
        rollback(log).len() == log.len(),
        match log[i] {
            ChangeModel::TunUp(name) => rollback(log)[log.len() - 1 - i] == RestoreModel::TunDown(
                name,
            ),
            ChangeModel::PinnedRoute(dest) => rollback(log)[log.len() - 1 - i]
                == RestoreModel::RemovePinnedRoute(dest),
            ChangeModel::DirectRoute(dest) => rollback(log)[log.len() - 1 - i]
                == RestoreModel::RemovePinnedRoute(dest),
            ChangeModel::DefaultViaTun => rollback(log)[log.len() - 1 - i]
                == RestoreModel::RemoveDefaultViaTun,
            ChangeModel::DnsOverride(servers) => rollback(log)[log.len() - 1 - i]
                == RestoreModel::RestoreDns(servers),
        },
{
}

/// Creation parameters are refused exactly where the name has no or more than 15 bytes or the
/// MTU is below 1280 or above 9000.
pub proof fn parameters_fit_their_bounds(name: Seq<char>, mtu: u32)
    ensures
        config_fault(name, mtu) is None <==> name.len() > 0 && encode_utf8(name).len() <= 15
            && 1280 <= mtu <= 9000,
{
}

/// An adapter is named once it says so or was renamed; a name that it has already is not
/// changed, and another one is. A failure is followed by a pause, and the tenth by giving up.
pub proof fn adapters_are_named_within_ten_tries(
    m: NamingModel,
    told: Result<Seq<char>, Seq<char>>,
    renamed: Result<(), Seq<char>>,
)
    ensures
        name_told(m, told).stage == (match told {
            Ok(current) => if current == m.name {
                NamingStage::Named
            } else {
                NamingStage::Rename
            },
            Err(_) => NamingStage::Pause,
        }),
        rename_told(m, renamed).stage == (if renamed is Ok {
            NamingStage::Named
        } else {
            NamingStage::Pause
        }),
        name_told(m, told).tries == m.tries && rename_told(m, renamed).tries == m.tries,
        name_told(m, told).name == m.name && rename_told(m, renamed).name == m.name,
        pause_told(m).name == m.name && pause_told(m).failure == m.failure,
        pause_told(m).tries == m.tries + 1,
        pause_told(m).stage == (if m.tries + 1 >= 10 {
            NamingStage::GivenUp
        } else {
            NamingStage::Ask
        }),
        told matches Err(why) ==> name_told(m, told).failure == "get_name: "@ + why,
        renamed matches Err(why) ==> rename_told(m, renamed).failure == "rename: "@ + why,
{
}

} // verus!
