//! Bringing the tunnel up and down.
//!
//! Up resolves the server once, takes a snapshot, creates the TUN device, routes
//! the server and the addresses of the direct rules via the previous gateway, moves
//! the default route into the device and overrides the resolvers. The changes made
//! so far are kept after each of them, and on the first error all of them are
//! undone and what was kept is dropped. Down undoes the changes that are kept and
//! destroys the device; it never fails.

use vstd::prelude::*;
use vstd::string::*;

use crate::client::config::{ClientConfig, ConfigModel};
use crate::client::platform::{ip_models, outcome, IpAddr, IpModel, Platform, PlatformCall};
use crate::client::routing::{rules_of, Action, Matcher, MatcherModel, Rule, RuleModel};
use crate::client::{ClientError, ClientFault};
use crate::net::Ipv4Addr;
use crate::netstack::tun::{
    changes, copied_changes, copied_snapshot, gateway_of, previous_gateway, AppliedChange,
    ChangeModel, Snapshot, SnapshotModel, UpState, UpStateModel,
};
use crate::text::{
    chars_of, copied, cut_last, decimal, decimal_of, last_separator_splits, rsplit_once, same_str,
    string_of, strings,
};

verus! {

/// Name of the TUN device.
pub const TUN_NAME: &'static str = "aether0";

/// Address of the client inside the tunnel.
pub open spec fn spec_client_tun_ip() -> Ipv4Addr {
    Ipv4Addr::spec_new(10, 255, 0, 2)
}

/// Address of the client inside the tunnel.
pub fn client_tun_ip() -> (r: Ipv4Addr)
    ensures
        r == spec_client_tun_ip(),
{
    Ipv4Addr::new(10, 255, 0, 2)
}

/// Address of the resolver inside the tunnel.
pub open spec fn spec_virtual_dns_ip() -> Ipv4Addr {
    Ipv4Addr::spec_new(10, 255, 0, 1)
}

/// Address of the resolver inside the tunnel.
pub fn virtual_dns_ip() -> (r: Ipv4Addr)
    ensures
        r == spec_virtual_dns_ip(),
{
    Ipv4Addr::new(10, 255, 0, 1)
}

/// The position of the first IPv4 address, the number of addresses if there is none.
pub open spec fn first_v4(ips: Seq<IpModel>) -> int
    decreases ips.len(),
{
    if ips.len() == 0 || ips[0] is V4 {
        0
    } else {
        1 + first_v4(ips.skip(1))
    }
}

/// The address of the server: the first IPv4 address, else the first address.
pub open spec fn server_ip(ips: Seq<IpModel>) -> Option<IpModel> {
    if ips.len() == 0 {
        None
    } else if first_v4(ips) < ips.len() {
        Some(ips[first_v4(ips)])
    } else {
        Some(ips[0])
    }
}

/// The destination of the route that a rule asks for. Names are handled when they
/// are dialled.
pub open spec fn route_dest(matcher: MatcherModel) -> Option<Seq<char>> {
    match matcher {
        MatcherModel::Ip(ip) => Some(ip.spec_text()),
        MatcherModel::Cidr(base, prefix) => Some(
            base.spec_text().push('/') + decimal(prefix as nat),
        ),
        MatcherModel::IpRange(lo, hi) => Some(lo.spec_text().push('-') + hi.spec_text()),
        _ => None,
    }
}

/// A change that is to be made.
pub enum Change {
    Tun,
    Pin(IpAddr, Ipv4Addr),
    Direct(String, Ipv4Addr),
    Default,
    Dns,
}

/// Mathematical counterpart of [`Change`].
pub enum ChangePlan {
    Tun,
    Pin(IpModel, Ipv4Addr),
    Direct(Seq<char>, Ipv4Addr),
    Default,
    Dns,
}

impl View for Change {
    type V = ChangePlan;

    open spec fn view(&self) -> ChangePlan {
        match *self {
            Change::Tun => ChangePlan::Tun,
            Change::Pin(ip, via) => ChangePlan::Pin(ip@, via),
            Change::Direct(dest, via) => ChangePlan::Direct(dest@, via),
            Change::Default => ChangePlan::Default,
            Change::Dns => ChangePlan::Dns,
        }
    }
}

/// What changes stand for.
pub open spec fn plans(steps: Seq<Change>) -> Seq<ChangePlan> {
    steps.map_values(|c: Change| c@)
}

/// The routes that rules ask for: those of the direct rules.
pub open spec fn direct_routes(rules: Seq<RuleModel>, via: Ipv4Addr) -> Seq<ChangePlan>
    decreases rules.len(),
{
    if rules.len() == 0 {
        Seq::empty()
    } else {
        let before = direct_routes(rules.drop_last(), via);
        match route_dest(rules.last().matcher) {
            Some(dest) if rules.last().action == Action::Direct => before.push(
                ChangePlan::Direct(dest, via),
            ),
            _ => before,
        }
    }
}

/// The changes that bring the tunnel up: the device, the routes via the previous
/// gateway, where there is one, the default route, the resolvers.
pub open spec fn plan(rules: Seq<RuleModel>, ip: IpModel, gateway: Option<Ipv4Addr>) -> Seq<
    ChangePlan,
> {
    let routes = match gateway {
        Some(via) => seq![ChangePlan::Pin(ip, via)] + direct_routes(rules, via),
        None => Seq::empty(),
    };
    seq![ChangePlan::Tun] + routes + seq![ChangePlan::Default, ChangePlan::Dns]
}

/// What is noted of a change that was made.
pub open spec fn noted(step: ChangePlan, snap: SnapshotModel) -> ChangeModel {
    match step {
        ChangePlan::Tun => ChangeModel::TunUp(TUN_NAME@),
        ChangePlan::Pin(ip, _) => ChangeModel::PinnedRoute(ip.text()),
        ChangePlan::Direct(dest, _) => ChangeModel::DirectRoute(dest),
        ChangePlan::Default => ChangeModel::DefaultViaTun,
        ChangePlan::Dns => ChangeModel::DnsOverride(snap.dns_servers),
    }
}

/// What became of a change, where the call is the one that makes it.
pub open spec fn made(step: ChangePlan, mtu: u32, call: PlatformCall) -> Option<
    Result<(), ClientFault>,
> {
    match (step, call) {
        (ChangePlan::Tun, PlatformCall::TunUp(name, addr, m, r)) => if name == TUN_NAME@ && addr
            == spec_client_tun_ip() && m == mtu {
            Some(r)
        } else {
            None
        },
        (ChangePlan::Pin(ip, via), PlatformCall::PinRoute(i, v, r)) => if i == ip && v == via {
            Some(r)
        } else {
            None
        },
        (ChangePlan::Direct(dest, via), PlatformCall::AddRoute(d, v, r)) => if d == dest && v
            == via {
            Some(r)
        } else {
            None
        },
        (ChangePlan::Default, PlatformCall::DefaultViaTun(r)) => Some(r),
        (ChangePlan::Dns, PlatformCall::ForceDns(ip, r)) => if ip == spec_virtual_dns_ip() {
            Some(r)
        } else {
            None
        },
        _ => None,
    }
}

/// A text that may be missing.
pub open spec fn or_empty(s: Option<Seq<char>>) -> Seq<char> {
    match s {
        Some(s) => s,
        None => Seq::empty(),
    }
}

/// Whether the calls undo the changes made so far and drop what was kept.
pub open spec fn undoes(
    snap: SnapshotModel,
    applied: Seq<ChangeModel>,
    calls: Seq<PlatformCall>,
) -> bool {
    &&& calls.len() == 4
    &&& calls[0] is CapturedIface
    &&& calls[1] is TunIfindex
    &&& calls[2] is RestoreApplied
    &&& calls[2]->RestoreApplied_0 == UpStateModel {
        snapshot: snap,
        applied,
        dns_iface: or_empty(calls[0]->CapturedIface_0),
        tun_ifindex: calls[1]->TunIfindex_0,
    }
    &&& calls[3] is RemoveState
}

/// The outcome of making changes, `None` where the calls are not the ones that
/// making them takes: each change in order, and after each the changes so far are
/// kept. The first error undoes all of them.
pub open spec fn applied_all(
    steps: Seq<ChangePlan>,
    mtu: u32,
    kept: UpStateModel,
    calls: Seq<PlatformCall>,
) -> Option<Result<(), ClientFault>>
    decreases steps.len(),
{
    if steps.len() == 0 {
        if calls.len() == 0 {
            Some(Ok(()))
        } else {
            None
        }
    } else if calls.len() == 0 {
        None
    } else {
        match made(steps[0], mtu, calls[0]) {
            None => None,
            Some(Err(fault)) => if undoes(kept.snapshot, kept.applied, calls.skip(1)) {
                Some(Err(fault))
            } else {
                None
            },
            Some(Ok(_)) => {
                let asks = steps[0] is Tun;
                let n = if asks {
                    2int
                } else {
                    1int
                };
                if calls.len() <= n || (asks && !(calls[1] is TunIfindex)) {
                    None
                } else {
                    let next = UpStateModel {
                        applied: kept.applied.push(noted(steps[0], kept.snapshot)),
                        tun_ifindex: if asks {
                            calls[1]->TunIfindex_0
                        } else {
                            kept.tun_ifindex
                        },
                        ..kept
                    };
                    match calls[n] {
                        PlatformCall::SaveState(state, r) => if state != next {
                            None
                        } else {
                            match r {
                                Err(fault) => if undoes(
                                    kept.snapshot,
                                    next.applied,
                                    calls.skip(n + 1),
                                ) {
                                    Some(Err(fault))
                                } else {
                                    None
                                },
                                Ok(_) => applied_all(
                                    steps.skip(1),
                                    mtu,
                                    next,
                                    calls.skip(n + 1),
                                ),
                            }
                        },
                        _ => None,
                    }
                }
            },
        }
    }
}

/// The outcome of bringing the tunnel up, `None` where the calls are not the ones
/// that it takes.
pub open spec fn brought_up(config: ConfigModel, calls: Seq<PlatformCall>) -> Option<
    Result<(), ClientFault>,
> {
    match rsplit_once(config.server_addr, ':') {
        None => if calls.len() == 0 {
            Some(Err(ClientFault::ConfigError("server_addr must be host:port"@)))
        } else {
            None
        },
        Some((host, _)) => if calls.len() < 1 {
            None
        } else {
            match calls[0] {
                PlatformCall::StateExists(true) => if calls.len() == 1 {
                    Some(
                        Err(
                            ClientFault::PlatformError(
                                "tunnel already up or stale state file: run down/cleanup first"@,
                            ),
                        ),
                    )
                } else {
                    None
                },
                PlatformCall::StateExists(false) => resolved_up(config, host, calls.skip(1)),
                _ => None,
            }
        },
    }
}

/// The outcome of bringing the tunnel up, from the resolution of the server on.
pub open spec fn resolved_up(
    config: ConfigModel,
    host: Seq<char>,
    calls: Seq<PlatformCall>,
) -> Option<Result<(), ClientFault>> {
    if calls.len() < 1 {
        None
    } else {
        match calls[0] {
            PlatformCall::Resolve(asked, r) => if asked != host {
                None
            } else {
                match r {
                    Err(fault) => if calls.len() == 1 {
                        Some(Err(fault))
                    } else {
                        None
                    },
                    Ok(ips) => match server_ip(ips) {
                        None => if calls.len() == 1 {
                            Some(Err(ClientFault::PlatformError("no server address"@)))
                        } else {
                            None
                        },
                        Some(ip) => snapshot_up(config, ip, calls.skip(1)),
                    },
                }
            },
            _ => None,
        }
    }
}

/// The outcome of bringing the tunnel up, from the snapshot on.
pub open spec fn snapshot_up(
    config: ConfigModel,
    ip: IpModel,
    calls: Seq<PlatformCall>,
) -> Option<Result<(), ClientFault>> {
    if calls.len() < 1 {
        None
    } else {
        match calls[0] {
            PlatformCall::Snapshot(Err(fault)) => if calls.len() == 1 {
                Some(Err(fault))
            } else {
                None
            },
            PlatformCall::Snapshot(Ok(snap)) => if snap.dns_servers.contains(
                spec_virtual_dns_ip().spec_text(),
            ) {
                if calls.len() == 1 {
                    Some(
                        Err(
                            ClientFault::PlatformError(
                                "stale tunnel DNS in snapshot: run down/cleanup first"@,
                            ),
                        ),
                    )
                } else {
                    None
                }
            } else if calls.len() < 2 || !(calls[1] is CapturedIface) {
                None
            } else {
                applied_all(
                    plan(config.deciding(), ip, gateway_of(snap)),
                    config.mtu,
                    UpStateModel {
                        snapshot: snap,
                        applied: Seq::empty(),
                        dns_iface: or_empty(calls[1]->CapturedIface_0),
                        tun_ifindex: None,
                    },
                    calls.skip(2),
                )
            },
            _ => None,
        }
    }
}

fn pick_server(ips: &Vec<IpAddr>) -> (r: Option<IpAddr>)
    ensures
        match (r, server_ip(ip_models(ips@))) {
            (Some(ip), Some(m)) => ip@ == m,
            (None, None) => true,
            _ => false,
        },
{
    let ghost all = ip_models(ips@);
    let mut i: usize = 0;
    assert(all.skip(0) =~= all);
    while i < ips.len()
        invariant
            0 <= i <= ips@.len(),
            all == ip_models(ips@),
            first_v4(all) == i + first_v4(all.skip(i as int)),
        decreases ips@.len() - i,
    {
        assert(all.skip(i as int)[0] == ips@[i as int]@);
        assert(all.skip(i as int).skip(1) =~= all.skip(i + 1));
        if ips[i].is_ipv4() {
            return Some(copied_ip(&ips[i]));
        }
        i += 1;
    }
    if ips.len() == 0 {
        None
    } else {
        Some(copied_ip(&ips[0]))
    }
}

fn copied_ip(ip: &IpAddr) -> (r: IpAddr)
    ensures
        r@ == ip@,
{
    match ip {
        IpAddr::V4(ip) => IpAddr::V4(*ip),
        IpAddr::V6(s) => IpAddr::V6(s.clone()),
    }
}

/// The destination of the route that a rule asks for.
pub fn route_destination(matcher: &Matcher) -> (r: Option<String>)
    ensures
        match (r, route_dest(matcher@)) {
            (Some(s), Some(m)) => s@ == m,
            (None, None) => true,
            _ => false,
        },
{
    match matcher {
        Matcher::Ip(ip) => Some(ip.to_text()),
        Matcher::Cidr(base, prefix) => {
            let mut s = base.to_text();
            s.push('/');
            s.append(decimal_of(*prefix as u64).as_str());
            Some(s)
        },
        Matcher::IpRange(lo, hi) => {
            let mut s = lo.to_text();
            s.push('-');
            s.append(hi.to_text().as_str());
            Some(s)
        },
        _ => None,
    }
}

fn plan_of(rules: &[Rule], ip: IpAddr, gateway: Option<Ipv4Addr>) -> (r: Vec<Change>)
    ensures
        plans(r@) == plan(rules_of(rules@), ip@, gateway),
{
    let ghost all = rules_of(rules@);
    let ghost ip_model = ip@;
    let mut steps: Vec<Change> = Vec::new();
    steps.push(Change::Tun);
    assert(plans(steps@) =~= seq![ChangePlan::Tun]);
    if let Some(via) = gateway {
        steps.push(Change::Pin(ip, via));
        let ghost head = seq![ChangePlan::Tun, ChangePlan::Pin(ip_model, via)];
        let mut i: usize = 0;
        assert(all.take(0) =~= Seq::<RuleModel>::empty());
        assert(plans(steps@) =~= head + direct_routes(all.take(0), via));
        while i < rules.len()
            invariant
                0 <= i <= rules@.len(),
                all == rules_of(rules@),
                plans(steps@) == head + direct_routes(all.take(i as int), via),
            decreases rules@.len() - i,
        {
            assert(all.take(i + 1).drop_last() =~= all.take(i as int));
            assert(all.take(i + 1).last() == rules@[i as int]@);
            if rules[i].action == Action::Direct {
                if let Some(dest) = route_destination(&rules[i].matcher) {
                    let ghost before = plans(steps@);
                    steps.push(Change::Direct(dest, via));
                    assert(plans(steps@) =~= before.push(ChangePlan::Direct(dest@, via)));
                    assert(plans(steps@) =~= head + direct_routes(all.take(i + 1), via));
                }
            }
            i += 1;
        }
        assert(all.take(i as int) =~= all);
    }
    let ghost before = plans(steps@);
    steps.push(Change::Default);
    steps.push(Change::Dns);
    assert(plans(steps@) =~= before + seq![ChangePlan::Default, ChangePlan::Dns]);
    assert(plans(steps@) =~= plan(all, ip_model, gateway));
    steps
}

fn make<P: Platform>(platform: &mut P, step: &Change, mtu: u32) -> (r: Result<(), ClientError>)
    ensures
        final(platform).history().len() == old(platform).history().len() + 1,
        final(platform).history() == old(platform).history().push(
            final(platform).history().last(),
        ),
        made(step@, mtu, final(platform).history().last()) == Some(outcome(r)),
        forall|o: P| old(platform).follows(o) ==> #[trigger] final(platform).follows(o),
{
    match step {
        Change::Tun => platform.tun_up(TUN_NAME, client_tun_ip(), mtu),
        Change::Pin(ip, via) => platform.pin_route(ip, *via),
        Change::Direct(dest, via) => platform.add_route(dest.as_str(), *via),
        Change::Default => platform.default_via_tun(),
        Change::Dns => platform.force_dns(virtual_dns_ip()),
    }
}

fn note(step: &Change, snap: &Snapshot) -> (r: AppliedChange)
    ensures
        r@ == noted(step@, snap@),
{
    match step {
        Change::Tun => AppliedChange::TunUp(TUN_NAME.to_owned()),
        Change::Pin(ip, _) => AppliedChange::PinnedRoute(ip.to_text()),
        Change::Direct(dest, _) => AppliedChange::DirectRoute(dest.clone()),
        Change::Default => AppliedChange::DefaultViaTun,
        Change::Dns => AppliedChange::DnsOverride(copied(&snap.dns_servers)),
    }
}

/// Undoes the changes made so far and drops what was kept.
fn undo<P: Platform>(platform: &mut P, snap: &Snapshot, applied: &Vec<AppliedChange>)
    ensures
        old(platform).history().is_prefix_of(final(platform).history()),
        undoes(
            snap@,
            changes(applied@),
            final(platform).history().skip(old(platform).history().len() as int),
        ),
        forall|o: P| old(platform).follows(o) ==> #[trigger] final(platform).follows(o),
{
    let ghost start = platform.history().len() as int;
    let dns_iface = match platform.captured_iface() {
        Some(name) => name,
        None => {
            let none = String::new();
            assert(none@ =~= Seq::<char>::empty());
            none
        },
    };
    let tun_ifindex = platform.tun_ifindex();
    let state = UpState {
        snapshot: copied_snapshot(snap),
        applied: copied_changes(applied),
        dns_iface,
        tun_ifindex,
    };
    let _ = platform.restore_applied(&state);
    let _ = platform.remove_state();
    let ghost calls = platform.history().skip(start);
    assert(calls.len() == 4);
    assert(calls[2]->RestoreApplied_0 == state@);
}

/// Whether the calls in `done` lead from one list of changes to another.
#[verifier::opaque]
spec fn leads(
    steps0: Seq<ChangePlan>,
    kept0: UpStateModel,
    done: Seq<PlatformCall>,
    steps: Seq<ChangePlan>,
    kept: UpStateModel,
    mtu: u32,
) -> bool {
    forall|rest: Seq<PlatformCall>| #[trigger]
        applied_all(steps0, mtu, kept0, done + rest) == applied_all(steps, mtu, kept, rest)
}

proof fn leads_nowhere_at_first(
    steps: Seq<ChangePlan>,
    kept: UpStateModel,
    done: Seq<PlatformCall>,
    mtu: u32,
)
    requires
        done.len() == 0,
    ensures
        leads(steps, kept, done, steps, kept, mtu),
{
    reveal(leads);
    assert forall|rest: Seq<PlatformCall>| #[trigger]
        applied_all(steps, mtu, kept, done + rest) == applied_all(steps, mtu, kept, rest) by {
        assert(done + rest =~= rest);
    }
}

proof fn leads_to(
    steps0: Seq<ChangePlan>,
    kept0: UpStateModel,
    done: Seq<PlatformCall>,
    steps: Seq<ChangePlan>,
    kept: UpStateModel,
    mtu: u32,
    inner: Seq<PlatformCall>,
)
    requires
        leads(steps0, kept0, done, steps, kept, mtu),
    ensures
        applied_all(steps0, mtu, kept0, done + inner) == applied_all(steps, mtu, kept, inner),
{
    reveal(leads);
}

proof fn leads_past_change(
    steps0: Seq<ChangePlan>,
    kept0: UpStateModel,
    done: Seq<PlatformCall>,
    steps: Seq<ChangePlan>,
    kept: UpStateModel,
    mtu: u32,
    inner: Seq<PlatformCall>,
    next: UpStateModel,
)
    requires
        leads(steps0, kept0, done, steps, kept, mtu),
        steps.len() > 0,
        inner.len() == (if steps[0] is Tun {
            3int
        } else {
            2int
        }),
        made(steps[0], mtu, inner[0]) == Some(Ok::<(), ClientFault>(())),
        steps[0] is Tun ==> inner[1] is TunIfindex,
        next == (UpStateModel {
            applied: kept.applied.push(noted(steps[0], kept.snapshot)),
            tun_ifindex: if steps[0] is Tun {
                inner[1]->TunIfindex_0
            } else {
                kept.tun_ifindex
            },
            ..kept
        }),
        inner.last() == PlatformCall::SaveState(next, Ok(())),
    ensures
        leads(steps0, kept0, done + inner, steps.skip(1), next, mtu),
{
    reveal(leads);
    assert forall|rest: Seq<PlatformCall>| #[trigger]
        applied_all(steps0, mtu, kept0, done + inner + rest) == applied_all(
            steps.skip(1),
            mtu,
            next,
            rest,
        ) by {
        assert(done + inner + rest =~= done + (inner + rest));
        assert((inner + rest).skip(inner.len() as int) =~= rest);
    }
}

proof fn history_grows(before: Seq<PlatformCall>, after: Seq<PlatformCall>, start: int)
    requires
        before.is_prefix_of(after),
        0 <= start <= before.len(),
    ensures
        after.skip(start) == before.skip(start) + after.skip(before.len() as int),
{
    assert(after.skip(start) =~= before.skip(start) + after.skip(before.len() as int));
}

/// Makes changes in order and keeps them after each.
fn apply_all<P: Platform>(
    platform: &mut P,
    steps: &Vec<Change>,
    mtu: u32,
    snap: &Snapshot,
    dns_iface: &String,
) -> (r: Result<(), ClientError>)
    ensures
        old(platform).history().is_prefix_of(final(platform).history()),
        applied_all(
            plans(steps@),
            mtu,
            (UpStateModel {
                snapshot: snap@,
                applied: Seq::empty(),
                dns_iface: dns_iface@,
                tun_ifindex: None,
            }),
            final(platform).history().skip(old(platform).history().len() as int),
        ) == Some(outcome(r)),
        forall|o: P| old(platform).follows(o) ==> #[trigger] final(platform).follows(o),
{
    let ghost before = platform.history();
    let ghost start = before.len() as int;
    let ghost all = plans(steps@);
    let ghost kept0 = UpStateModel {
        snapshot: snap@,
        applied: Seq::empty(),
        dns_iface: dns_iface@,
        tun_ifindex: None,
    };
    let mut state = UpState {
        snapshot: copied_snapshot(snap),
        applied: Vec::new(),
        dns_iface: dns_iface.clone(),
        tun_ifindex: None,
    };
    proof {
        assert(state@ =~= kept0);
        assert(all.skip(0) =~= all);
        leads_nowhere_at_first(all, kept0, before.skip(start), mtu);
    }
    let mut i: usize = 0;
    while i < steps.len()
        invariant
            0 <= i <= steps@.len(),
            start == before.len(),
            before == old(platform).history(),
            before.is_prefix_of(platform.history()),
            forall|o: P| old(platform).follows(o) ==> #[trigger] platform.follows(o),
            all == plans(steps@),
            kept0 == (UpStateModel {
                snapshot: snap@,
                applied: Seq::empty(),
                dns_iface: dns_iface@,
                tun_ifindex: None,
            }),
            state@.snapshot == snap@,
            leads(all, kept0, platform.history().skip(start), all.skip(i as int), state@, mtu),
        decreases steps@.len() - i,
    {
        let ghost done = platform.history().skip(start);
        let ghost left = all.skip(i as int);
        let ghost kept = state@;
        let ghost was = platform.history();
        let ghost from = was.len() as int;
        assert(left[0] == steps@[i as int]@);
        assert(left.skip(1) =~= all.skip(i + 1));
        if let Err(e) = make(platform, &steps[i], mtu) {
            let ghost call = platform.history().last();
            let ghost mid = platform.history();
            undo(platform, snap, &state.applied);
            proof {
                let inner = platform.history().skip(from);
                assert(inner.skip(1) =~= platform.history().skip(mid.len() as int));
                assert(inner[0] == call);
                assert(was.is_prefix_of(platform.history()));
                history_grows(was, platform.history(), start);
                leads_to(all, kept0, done, left, kept, mtu, inner);
            }
            return Err(e);
        }
        let ghost call = platform.history().last();
        let ghost applied = state.applied@;
        state.applied.push(note(&steps[i], snap));
        assert(changes(state.applied@) =~= changes(applied).push(noted(left[0], snap@)));
        if let Change::Tun = &steps[i] {
            state.tun_ifindex = platform.tun_ifindex();
        }
        let ghost asked = platform.history().skip(from);
        let ghost next = UpStateModel {
            applied: kept.applied.push(noted(left[0], kept.snapshot)),
            tun_ifindex: if left[0] is Tun {
                asked[1]->TunIfindex_0
            } else {
                kept.tun_ifindex
            },
            ..kept
        };
        assert(state@ =~= next);
        let saved = platform.save_state(&state);
        let ghost inner = platform.history().skip(from);
        assert(inner =~= asked.push(PlatformCall::SaveState(next, outcome(saved))));
        if let Err(e) = saved {
            let ghost mid = platform.history();
            undo(platform, snap, &state.applied);
            proof {
                let more = platform.history().skip(from);
                assert(more.skip(inner.len() as int) =~= platform.history().skip(
                    mid.len() as int,
                ));
                assert(more.take(inner.len() as int) =~= inner);
                assert(forall|j: int| 0 <= j < inner.len() ==> more[j] == inner[j]);
                assert(was.is_prefix_of(platform.history()));
                history_grows(was, platform.history(), start);
                leads_to(all, kept0, done, left, kept, mtu, more);
            }
            return Err(e);
        }
        proof {
            history_grows(was, platform.history(), start);
            leads_past_change(all, kept0, done, left, kept, mtu, inner, next);
        }
        i += 1;
    }
    proof {
        let done = platform.history().skip(start);
        leads_to(all, kept0, done, all.skip(i as int), state@, mtu, Seq::empty());
        assert(done + Seq::<PlatformCall>::empty() =~= done);
    }
    Ok(())
}

fn names_tunnel_dns(servers: &Vec<String>) -> (r: bool)
    ensures
        r == strings(servers@).contains(spec_virtual_dns_ip().spec_text()),
{
    let own = virtual_dns_ip().to_text();
    let mut i: usize = 0;
    while i < servers.len()
        invariant
            0 <= i <= servers@.len(),
            own@ == spec_virtual_dns_ip().spec_text(),
            forall|j: int| 0 <= j < i ==> (#[trigger] servers@[j])@ != own@,
        decreases servers@.len() - i,
    {
        if same_str(servers[i].as_str(), own.as_str()) {
            assert(strings(servers@)[i as int] == own@);
            return true;
        }
        i += 1;
    }
    false
}

/// Brings the tunnel up.
///
/// It is refused where the state of a tunnel is kept already, or where the
/// resolvers are still those of a tunnel: an earlier one was not taken down.
pub fn up<P: Platform>(platform: &mut P, config: &ClientConfig) -> (r: Result<(), ClientError>)
    ensures
        old(platform).history().is_prefix_of(final(platform).history()),
        brought_up(
            config@,
            final(platform).history().skip(old(platform).history().len() as int),
        ) == Some(outcome(r)),
        forall|o: P| old(platform).follows(o) ==> #[trigger] final(platform).follows(o),
{
    let ghost start = platform.history().len() as int;
    let addr = chars_of(config.server_addr.as_str());
    let host = match cut_last(addr.as_slice(), ':') {
        Some((host, _)) => string_of(host),
        None => {
            return Err(ClientError::ConfigError("server_addr must be host:port".to_owned()));
        },
    };
    if platform.state_exists() {
        return Err(
            ClientError::PlatformError(
                "tunnel already up or stale state file: run down/cleanup first".to_owned(),
            ),
        );
    }
    let ips = match platform.resolve_host(host.as_str()) {
        Ok(ips) => ips,
        Err(e) => {
            return Err(e);
        },
    };
    let ip = match pick_server(&ips) {
        Some(ip) => ip,
        None => {
            return Err(ClientError::PlatformError("no server address".to_owned()));
        },
    };
    let snap = match platform.snapshot() {
        Ok(snap) => snap,
        Err(e) => {
            return Err(e);
        },
    };
    if names_tunnel_dns(&snap.dns_servers) {
        return Err(
            ClientError::PlatformError(
                "stale tunnel DNS in snapshot: run down/cleanup first".to_owned(),
            ),
        );
    }
    let dns_iface = match platform.captured_iface() {
        Some(name) => name,
        None => {
            let none = String::new();
            assert(none@ =~= Seq::<char>::empty());
            none
        },
    };
    let steps = plan_of(config.rules.deciding_rules(), ip, previous_gateway(&snap));
    let ghost mid = platform.history();
    let r = apply_all(platform, &steps, config.mtu, &snap, &dns_iface);
    proof {
        let calls = platform.history().skip(start);
        assert(calls.skip(1).skip(1).skip(2) =~= platform.history().skip(mid.len() as int));
        assert(calls.take(4) =~= mid.skip(start));
        assert(forall|j: int| 0 <= j < 4 ==> calls[j] == mid.skip(start)[j]);
    }
    r
}

/// Whether the calls take the tunnel down: the changes that are kept are undone
/// and dropped, where there are any, and the device is destroyed.
pub open spec fn taken_down(calls: Seq<PlatformCall>) -> bool {
    &&& calls.len() > 0
    &&& match calls[0] {
        PlatformCall::LoadState(Ok(state)) => {
            &&& calls.len() == 4
            &&& calls[1] is RestoreApplied
            &&& calls[1]->RestoreApplied_0 == state
            &&& calls[2] is RemoveState
            &&& calls[3] is TunDown
        },
        PlatformCall::LoadState(Err(_)) => calls.len() == 2 && calls[1] is TunDown,
        _ => false,
    }
}

/// Takes the tunnel down. Each step is tried whatever became of the ones before,
/// and the result is always `Ok`.
pub fn down<P: Platform>(platform: &mut P) -> (r: Result<(), ClientError>)
    ensures
        r is Ok,
        old(platform).history().is_prefix_of(final(platform).history()),
        taken_down(final(platform).history().skip(old(platform).history().len() as int)),
        forall|o: P| old(platform).follows(o) ==> #[trigger] final(platform).follows(o),
{
    let ghost start = platform.history().len() as int;
    match platform.load_state() {
        Ok(state) => {
            let _ = platform.restore_applied(&state);
            let _ = platform.remove_state();
        },
        Err(_) => {},
    }
    let _ = platform.tun_down();
    let ghost calls = platform.history().skip(start);
    assert(calls.len() == 4 || calls.len() == 2);
    Ok(())
}

/// Whether a call changes the network.
pub open spec fn changes_network(call: PlatformCall) -> bool {
    call is TunUp || call is PinRoute || call is AddRoute || call is DefaultViaTun
        || call is ForceDns
}

/// The server is resolved and the network captured before anything is changed.
pub proof fn nothing_changes_before_the_snapshot(
    config: ConfigModel,
    calls: Seq<PlatformCall>,
    i: int,
)
    requires
        brought_up(config, calls) is Some,
        0 <= i < calls.len(),
        changes_network(calls[i]),
    ensures
        i >= 4,
        calls[0] == PlatformCall::StateExists(false),
        calls[1] matches PlatformCall::Resolve(_, Ok(_)),
        calls[2] matches PlatformCall::Snapshot(Ok(_)),
{
    assert(calls.skip(1).skip(1).len() == calls.len() - 2 || calls.len() < 2);
}

/// A tunnel is not stacked on another: where the state of one is kept, or the
/// resolvers are those of one, bringing it up fails and no call changes anything.
pub proof fn leftovers_are_refused(config: ConfigModel, calls: Seq<PlatformCall>)
    requires
        brought_up(config, calls) is Some,
        ({
            ||| calls.len() > 0 && calls[0] == PlatformCall::StateExists(true)
            ||| calls.len() > 2 && (calls[2] matches PlatformCall::Snapshot(Ok(snap))
                && snap.dns_servers.contains(spec_virtual_dns_ip().spec_text()))
        }),
    ensures
        brought_up(config, calls)->Some_0 is Err,
        forall|j: int| 0 <= j < calls.len() ==> !changes_network(#[trigger] calls[j]),
{
    assert(calls.skip(1).skip(1).len() == calls.len() - 2 || calls.len() < 2);
}

/// The device comes first, then the route to the server, where there was a
/// gateway, and last the default route and the resolvers, in this order.
pub proof fn changes_are_ordered(
    rules: Seq<RuleModel>,
    ip: IpModel,
    gateway: Option<Ipv4Addr>,
)
    ensures
        ({
            let steps = plan(rules, ip, gateway);
            let n = steps.len() as int;
            &&& n >= 3
            &&& steps[0] == ChangePlan::Tun
            &&& gateway matches Some(via) ==> steps[1] == ChangePlan::Pin(ip, via)
            &&& steps[n - 2] == ChangePlan::Default
            &&& steps[n - 1] == ChangePlan::Dns
            &&& forall|i: int| 1 <= i < n - 2 ==> (#[trigger] steps[i]) is Pin || steps[i] is Direct
        }),
{
    if let Some(via) = gateway {
        direct_routes_are_direct(rules, via);
    }
}

proof fn direct_routes_are_direct(rules: Seq<RuleModel>, via: Ipv4Addr)
    ensures
        forall|i: int|
            0 <= i < direct_routes(rules, via).len() ==> (#[trigger] direct_routes(
                rules,
                via,
            )[i]) is Direct,
    decreases rules.len(),
{
    if rules.len() > 0 {
        direct_routes_are_direct(rules.drop_last(), via);
    }
}

/// A destination is routed past the tunnel exactly where a direct rule names it; a rule
/// for the tunnel adds no route.
pub proof fn only_direct_rules_are_routed(rules: Seq<RuleModel>, via: Ipv4Addr, dest: Seq<char>)
    ensures
        direct_routes(rules, via).contains(ChangePlan::Direct(dest, via)) <==> exists|j: int|
            0 <= j < rules.len() && (#[trigger] rules[j]).action == Action::Direct && route_dest(
                rules[j].matcher,
            ) == Some(dest),
    decreases rules.len(),
{
    if rules.len() > 0 {
        let fewer = rules.drop_last();
        let before = direct_routes(fewer, via);
        let routes = direct_routes(rules, via);
        let route = ChangePlan::Direct(dest, via);
        let last = rules.len() - 1;
        only_direct_rules_are_routed(fewer, via, dest);
        assert(forall|j: int| 0 <= j < fewer.len() ==> #[trigger] fewer[j] == rules[j]);
        if before.contains(route) {
            let i = choose|i: int| 0 <= i < before.len() && before[i] == route;
            assert(routes[i] == route);
            let j = choose|j: int|
                0 <= j < fewer.len() && (#[trigger] fewer[j]).action == Action::Direct
                    && route_dest(fewer[j].matcher) == Some(dest);
            assert(rules[j].action == Action::Direct);
        }
        if rules[last].action == Action::Direct && route_dest(rules[last].matcher) == Some(dest) {
            assert(routes[before.len() as int] == route);
        }
        if routes.contains(route) && !before.contains(route) {
            let i = choose|i: int| 0 <= i < routes.len() && routes[i] == route;
            if i < before.len() {
                assert(before[i] == route);
            }
            assert(rules[last].action == Action::Direct);
        }
        if exists|j: int|
            0 <= j < rules.len() && (#[trigger] rules[j]).action == Action::Direct && route_dest(
                rules[j].matcher,
            ) == Some(dest) {
            let j = choose|j: int|
                0 <= j < rules.len() && (#[trigger] rules[j]).action == Action::Direct
                    && route_dest(rules[j].matcher) == Some(dest);
            if j < last {
                assert(fewer[j] == rules[j]);
            }
        }
    }
}

/// What is noted of the first changes of a list.
pub open spec fn noted_first(steps: Seq<ChangePlan>, n: int, snap: SnapshotModel) -> Seq<
    ChangeModel,
> {
    Seq::new(n as nat, |i: int| noted(steps[i], snap))
}

/// A failure leaves no traces: the last calls undo exactly the changes that were
/// made, and drop what was kept.
pub proof fn failure_is_undone(
    steps: Seq<ChangePlan>,
    mtu: u32,
    kept: UpStateModel,
    calls: Seq<PlatformCall>,
) -> (n: int)
    requires
        applied_all(steps, mtu, kept, calls) matches Some(Err(_)),
    ensures
        0 <= n <= steps.len(),
        calls.len() >= 4,
        undoes(
            kept.snapshot,
            kept.applied + noted_first(steps, n, kept.snapshot),
            calls.skip(calls.len() - 4),
        ),
    decreases steps.len(),
{
    let count = if steps[0] is Tun {
        2int
    } else {
        1int
    };
    match made(steps[0], mtu, calls[0]) {
        Some(Ok(_)) => {
            let next = UpStateModel {
                applied: kept.applied.push(noted(steps[0], kept.snapshot)),
                tun_ifindex: if steps[0] is Tun {
                    calls[1]->TunIfindex_0
                } else {
                    kept.tun_ifindex
                },
                ..kept
            };
            if calls[count]->SaveState_1 is Ok {
                let rest = calls.skip(count + 1);
                let n = failure_is_undone(steps.skip(1), mtu, next, rest);
                assert(rest.skip(rest.len() - 4) =~= calls.skip(calls.len() - 4));
                assert(next.applied + noted_first(steps.skip(1), n, kept.snapshot)
                    =~= kept.applied + noted_first(steps, n + 1, kept.snapshot));
                n + 1
            } else {
                assert(calls.skip(count + 1) =~= calls.skip(calls.len() - 4));
                assert(next.applied =~= kept.applied + noted_first(steps, 1, kept.snapshot));
                1
            }
        },
        _ => {
            assert(calls.skip(1) =~= calls.skip(calls.len() - 4));
            assert(kept.applied =~= kept.applied + noted_first(steps, 0, kept.snapshot));
            0
        },
    }
}

/// Success keeps the way back: the last call keeps every change, in order.
pub proof fn success_keeps_every_change(
    steps: Seq<ChangePlan>,
    mtu: u32,
    kept: UpStateModel,
    calls: Seq<PlatformCall>,
)
    requires
        steps.len() > 0,
        applied_all(steps, mtu, kept, calls) == Some(Ok::<(), ClientFault>(())),
    ensures
        calls.len() > 0,
        calls.last() matches PlatformCall::SaveState(state, Ok(_)) && {
            &&& state.snapshot == kept.snapshot
            &&& state.dns_iface == kept.dns_iface
            &&& state.applied == kept.applied + noted_first(
                steps,
                steps.len() as int,
                kept.snapshot,
            )
        },
    decreases steps.len(),
{
    let count = if steps[0] is Tun {
        2int
    } else {
        1int
    };
    let next = UpStateModel {
        applied: kept.applied.push(noted(steps[0], kept.snapshot)),
        tun_ifindex: if steps[0] is Tun {
            calls[1]->TunIfindex_0
        } else {
            kept.tun_ifindex
        },
        ..kept
    };
    let rest = calls.skip(count + 1);
    if steps.len() == 1 {
        assert(rest.len() == 0);
        assert(next.applied =~= kept.applied + noted_first(steps, 1, kept.snapshot));
    } else {
        success_keeps_every_change(steps.skip(1), mtu, next, rest);
        assert(rest.last() == calls.last());
        assert(next.applied + noted_first(steps.skip(1), steps.len() - 1, kept.snapshot)
            =~= kept.applied + noted_first(steps, steps.len() as int, kept.snapshot));
    }
}

proof fn lemma_first_v4(ips: Seq<IpModel>)
    ensures
        0 <= first_v4(ips) <= ips.len(),
        forall|j: int| 0 <= j < first_v4(ips) ==> !((#[trigger] ips[j]) is V4),
        first_v4(ips) < ips.len() ==> ips[first_v4(ips)] is V4,
    decreases ips.len(),
{
    if ips.len() > 0 && !(ips[0] is V4) {
        let rest = ips.skip(1);
        lemma_first_v4(rest);
        assert forall|j: int| 0 <= j < first_v4(ips) implies !((#[trigger] ips[j]) is V4) by {
            if j > 0 {
                assert(rest[j - 1] == ips[j]);
            }
        }
    }
}

/// Of the addresses of a server the first IPv4 address counts, wherever it stands among
/// the others, and the first address only where there is no IPv4 address.
pub proof fn ipv4_is_preferred(ips: Seq<IpModel>, k: int)
    ensures
        0 <= k < ips.len() && ips[k] is V4 && (forall|j: int|
            0 <= j < k ==> !((#[trigger] ips[j]) is V4)) ==> server_ip(ips) == Some(ips[k]),
        ips.len() > 0 && (forall|j: int| 0 <= j < ips.len() ==> !((#[trigger] ips[j]) is V4))
            ==> server_ip(ips) == Some(ips[0]),
        ips.len() == 0 ==> server_ip(ips) is None,
{
    lemma_first_v4(ips);
    let f = first_v4(ips);
    if 0 <= k < ips.len() && ips[k] is V4 && forall|j: int|
        0 <= j < k ==> !((#[trigger] ips[j]) is V4) {
        if f < k {
            assert(!(ips[f] is V4));
        }
        if k < f {
            assert(!(ips[k] is V4));
        }
        assert(f == k);
    }
}

/// The changes that calls made, as they are noted, first to last: those that succeeded.
pub open spec fn changes_made(calls: Seq<PlatformCall>, snap: SnapshotModel) -> Seq<ChangeModel>
    decreases calls.len(),
{
    if calls.len() == 0 {
        Seq::empty()
    } else {
        let rest = changes_made(calls.skip(1), snap);
        match calls[0] {
            PlatformCall::TunUp(name, _, _, Ok(_)) => seq![ChangeModel::TunUp(name)] + rest,
            PlatformCall::PinRoute(ip, _, Ok(_)) => seq![ChangeModel::PinnedRoute(ip.text())]
                + rest,
            PlatformCall::AddRoute(dest, _, Ok(_)) => seq![ChangeModel::DirectRoute(dest)] + rest,
            PlatformCall::DefaultViaTun(Ok(_)) => seq![ChangeModel::DefaultViaTun] + rest,
            PlatformCall::ForceDns(_, Ok(_)) => seq![ChangeModel::DnsOverride(snap.dns_servers)]
                + rest,
            _ => rest,
        }
    }
}

proof fn lemma_changes_made_joined(a: Seq<PlatformCall>, b: Seq<PlatformCall>, snap: SnapshotModel)
    ensures
        changes_made(a + b, snap) == changes_made(a, snap) + changes_made(b, snap),
    decreases a.len(),
{
    if a.len() == 0 {
        assert(a + b =~= b);
        assert(changes_made(a, snap) + changes_made(b, snap) =~= changes_made(b, snap));
    } else {
        lemma_changes_made_joined(a.skip(1), b, snap);
        assert((a + b).skip(1) =~= a.skip(1) + b);
        assert(changes_made(a + b, snap) =~= changes_made(a, snap) + changes_made(b, snap));
    }
}

proof fn lemma_no_changes_made(calls: Seq<PlatformCall>, snap: SnapshotModel)
    requires
        forall|i: int| 0 <= i < calls.len() ==> !changes_network(#[trigger] calls[i]),
    ensures
        changes_made(calls, snap) == Seq::<ChangeModel>::empty(),
    decreases calls.len(),
{
    if calls.len() > 0 {
        assert(!changes_network(calls[0]));
        assert forall|i: int| 0 <= i < calls.skip(1).len() implies !changes_network(
            #[trigger] calls.skip(1)[i],
        ) by {
            assert(calls.skip(1)[i] == calls[i + 1]);
        }
        lemma_no_changes_made(calls.skip(1), snap);
    }
}

/// How many calls a change that succeeds takes: itself, the question for the index of a
/// new device, and keeping it.
spec fn width(step: ChangePlan) -> int {
    if step is Tun {
        3
    } else {
        2
    }
}

/// What is kept once the first of some changes was made.
spec fn kept_next(
    steps: Seq<ChangePlan>,
    kept: UpStateModel,
    calls: Seq<PlatformCall>,
) -> UpStateModel {
    UpStateModel {
        applied: kept.applied.push(noted(steps[0], kept.snapshot)),
        tun_ifindex: if steps[0] is Tun {
            calls[1]->TunIfindex_0
        } else {
            kept.tun_ifindex
        },
        ..kept
    }
}

proof fn lemma_change_made_first(
    steps: Seq<ChangePlan>,
    mtu: u32,
    kept: UpStateModel,
    calls: Seq<PlatformCall>,
)
    requires
        steps.len() > 0,
        calls.len() >= width(steps[0]),
        (made(steps[0], mtu, calls[0]) matches Some(Ok(_))),
        steps[0] is Tun ==> calls[1] is TunIfindex,
        calls[width(steps[0]) - 1] is SaveState,
    ensures
        kept.applied + changes_made(calls, kept.snapshot) == kept_next(steps, kept, calls).applied
            + changes_made(calls.skip(width(steps[0])), kept.snapshot),
{
    let w = width(steps[0]);
    let snap = kept.snapshot;
    let front = calls.take(w);
    let note = noted(steps[0], snap);
    assert(calls =~= front + calls.skip(w));
    lemma_changes_made_joined(front, calls.skip(w), snap);
    assert forall|i: int| 0 <= i < front.skip(1).len() implies !changes_network(
        #[trigger] front.skip(1)[i],
    ) by {
        assert(front.skip(1)[i] == calls[i + 1]);
    }
    lemma_no_changes_made(front.skip(1), snap);
    assert(front[0] == calls[0]);
    assert(changes_made(front, snap) =~= seq![note]);
    assert(kept.applied + changes_made(calls, snap) =~= kept.applied.push(note) + changes_made(
        calls.skip(w),
        snap,
    ));
}

/// What is kept at any time is the snapshot and the changes made by then.
proof fn lemma_kept(
    steps: Seq<ChangePlan>,
    mtu: u32,
    kept: UpStateModel,
    calls: Seq<PlatformCall>,
    i: int,
)
    requires
        applied_all(steps, mtu, kept, calls) is Some,
        0 <= i < calls.len(),
        calls[i] is SaveState,
    ensures
        calls[i]->SaveState_0.snapshot == kept.snapshot,
        calls[i]->SaveState_0.dns_iface == kept.dns_iface,
        calls[i]->SaveState_0.applied == kept.applied + changes_made(calls.take(i), kept.snapshot),
    decreases steps.len(),
{
    let w = width(steps[0]);
    let next = kept_next(steps, kept, calls);
    if (made(steps[0], mtu, calls[0]) matches Some(Ok(_))) {
        if i < w {
            let short = calls.take(w);
            lemma_change_made_first(steps, mtu, kept, short);
            assert(short.skip(w) =~= Seq::<PlatformCall>::empty());
            assert(short =~= calls.take(i).push(calls[i]));
            assert(calls.take(i) + seq![calls[i]] =~= short);
            lemma_changes_made_joined(calls.take(i), seq![calls[i]], kept.snapshot);
            assert(seq![calls[i]].skip(1) =~= Seq::<PlatformCall>::empty());
            assert(changes_made(seq![calls[i]], kept.snapshot) =~= Seq::<ChangeModel>::empty());
            assert(changes_made(calls.take(i), kept.snapshot) =~= changes_made(
                short,
                kept.snapshot,
            ));
            assert(next.applied + Seq::<ChangeModel>::empty() =~= next.applied);
        } else {
            let rest = calls.skip(w);
            lemma_kept(steps.skip(1), mtu, next, rest, i - w);
            assert(rest[i - w] == calls[i]);
            let front = calls.take(i);
            lemma_change_made_first(steps, mtu, kept, front);
            assert(front.skip(w) =~= rest.take(i - w));
        }
    } else {
        assert(calls.skip(1)[i - 1] == calls[i]);
    }
}

/// A failure undoes the changes made, and drops what was kept.
proof fn lemma_undone(
    steps: Seq<ChangePlan>,
    mtu: u32,
    kept: UpStateModel,
    calls: Seq<PlatformCall>,
)
    requires
        applied_all(steps, mtu, kept, calls) matches Some(Err(_)),
    ensures
        ({
            let n = calls.len() as int;
            &&& n >= 4
            &&& calls[n - 4] is CapturedIface
            &&& calls[n - 3] is TunIfindex
            &&& calls[n - 2] matches PlatformCall::RestoreApplied(state, _) && {
                &&& state.snapshot == kept.snapshot
                &&& state.applied == kept.applied + changes_made(calls, kept.snapshot)
                &&& state.dns_iface == (match calls[n - 4]->CapturedIface_0 {
                    Some(name) => name,
                    None => Seq::empty(),
                })
                &&& state.tun_ifindex == calls[n - 3]->TunIfindex_0
            }
            &&& calls[n - 1] is RemoveState
        }),
    decreases steps.len(),
{
    let w = width(steps[0]);
    let snap = kept.snapshot;
    let n = calls.len() as int;
    match made(steps[0], mtu, calls[0]) {
        Some(Ok(_)) => {
            let next = kept_next(steps, kept, calls);
            let rest = calls.skip(w);
            lemma_change_made_first(steps, mtu, kept, calls);
            if calls[w - 1]->SaveState_1 is Ok {
                lemma_undone(steps.skip(1), mtu, next, rest);
                assert(rest[rest.len() - 4] == calls[n - 4]);
                assert(rest[rest.len() - 3] == calls[n - 3]);
                assert(rest[rest.len() - 2] == calls[n - 2]);
                assert(rest[rest.len() - 1] == calls[n - 1]);
            } else {
                assert(rest.len() == 4);
                assert(rest[0] == calls[n - 4] && rest[1] == calls[n - 3]);
                assert(rest[2] == calls[n - 2] && rest[3] == calls[n - 1]);
                lemma_no_changes_made(rest, snap);
                assert(next.applied + Seq::<ChangeModel>::empty() =~= next.applied);
            }
        },
        _ => {
            let rest = calls.skip(1);
            assert(rest.len() == 4);
            assert(rest[0] == calls[n - 4] && rest[1] == calls[n - 3]);
            assert(rest[2] == calls[n - 2] && rest[3] == calls[n - 1]);
            lemma_no_changes_made(rest, snap);
            assert(changes_made(calls, snap) =~= Seq::<ChangeModel>::empty());
            assert(kept.applied + Seq::<ChangeModel>::empty() =~= kept.applied);
        },
    }
}

/// Every change of the network is one of the changes that are called for.
proof fn lemma_called_for(
    steps: Seq<ChangePlan>,
    mtu: u32,
    kept: UpStateModel,
    calls: Seq<PlatformCall>,
    i: int,
) -> (j: int)
    requires
        applied_all(steps, mtu, kept, calls) is Some,
        0 <= i < calls.len(),
        changes_network(calls[i]),
    ensures
        0 <= j < steps.len(),
        made(steps[j], mtu, calls[i]) is Some,
        j == 0 <==> i == 0,
    decreases steps.len(),
{
    let w = width(steps[0]);
    if i == 0 {
        0
    } else if (made(steps[0], mtu, calls[0]) matches Some(Ok(_))) {
        if i < w {
            assert(false);
        }
        let rest = calls.skip(w);
        assert(rest[i - w] == calls[i]);
        if !(calls[w - 1]->SaveState_1 is Ok) {
            assert(rest.len() == 4);
            assert(false);
        }
        let j = lemma_called_for(
            steps.skip(1),
            mtu,
            kept_next(steps, kept, calls),
            rest,
            i - w,
        );
        assert(steps.skip(1)[j] == steps[j + 1]);
        j + 1
    } else {
        assert(calls.skip(1)[i - 1] == calls[i]);
        assert(false);
        0
    }
}

/// Changes are made in the order in which they are called for.
proof fn lemma_in_order(
    steps: Seq<ChangePlan>,
    mtu: u32,
    kept: UpStateModel,
    calls: Seq<PlatformCall>,
    i: int,
    k: int,
) -> (r: (int, int))
    requires
        applied_all(steps, mtu, kept, calls) is Some,
        0 <= i < k < calls.len(),
        changes_network(calls[i]),
        changes_network(calls[k]),
    ensures
        0 <= r.0 < r.1 < steps.len(),
        made(steps[r.0], mtu, calls[i]) is Some,
        made(steps[r.1], mtu, calls[k]) is Some,
    decreases steps.len(),
{
    if i == 0 {
        let j = lemma_called_for(steps, mtu, kept, calls, k);
        (lemma_called_for(steps, mtu, kept, calls, 0), j)
    } else {
        let w = width(steps[0]);
        let rest = calls.skip(w);
        let _ = lemma_called_for(steps, mtu, kept, calls, i);
        if (made(steps[0], mtu, calls[0]) matches Some(Ok(_))) {
            if i < w {
                assert(false);
            }
            assert(rest[i - w] == calls[i] && rest[k - w] == calls[k]);
            if !(calls[w - 1]->SaveState_1 is Ok) {
                assert(false);
            }
            let r = lemma_in_order(
                steps.skip(1),
                mtu,
                kept_next(steps, kept, calls),
                rest,
                i - w,
                k - w,
            );
            assert(steps.skip(1)[r.0] == steps[r.0 + 1]);
            assert(steps.skip(1)[r.1] == steps[r.1 + 1]);
            (r.0 + 1, r.1 + 1)
        } else {
            assert(calls.skip(1)[i - 1] == calls[i]);
            assert(false);
            (0, 1)
        }
    }
}

/// Success makes every change that is called for.
proof fn lemma_all_made(
    steps: Seq<ChangePlan>,
    mtu: u32,
    kept: UpStateModel,
    calls: Seq<PlatformCall>,
    j: int,
) -> (i: int)
    requires
        applied_all(steps, mtu, kept, calls) matches Some(Ok(_)),
        0 <= j < steps.len(),
    ensures
        0 <= i < calls.len(),
        made(steps[j], mtu, calls[i]) matches Some(Ok(_)),
    decreases steps.len(),
{
    if j == 0 {
        0
    } else {
        let w = width(steps[0]);
        let rest = calls.skip(w);
        let i = lemma_all_made(
            steps.skip(1),
            mtu,
            kept_next(steps, kept, calls),
            rest,
            j - 1,
        );
        assert(steps.skip(1)[j - 1] == steps[j]);
        assert(rest[i] == calls[i + w]);
        i + w
    }
}

/// The first four calls of an attempt that changes the network, and what is done behind
/// them.
proof fn lemma_front(config: ConfigModel, calls: Seq<PlatformCall>)
    requires
        brought_up(config, calls) is Some,
        calls.len() > 4,
    ensures
        calls[0] == PlatformCall::StateExists(false),
        calls[1] matches PlatformCall::Resolve(host, Ok(ips)) && server_ip(ips) is Some,
        calls[2] matches PlatformCall::Snapshot(Ok(_)),
        calls[3] is CapturedIface,
        ({
            let ips = calls[1]->Resolve_1->Ok_0;
            let snap = calls[2]->Snapshot_0->Ok_0;
            brought_up(config, calls) == applied_all(
                plan(config.deciding(), server_ip(ips)->Some_0, gateway_of(snap)),
                config.mtu,
                UpStateModel {
                    snapshot: snap,
                    applied: Seq::empty(),
                    dns_iface: or_empty(calls[3]->CapturedIface_0),
                    tun_ifindex: None,
                },
                calls.skip(4),
            )
        }),
{
    assert(calls.skip(1)[0] == calls[1]);
    assert(calls.skip(1).skip(1) =~= calls.skip(2));
    assert(calls.skip(2)[0] == calls[2]);
    assert(calls.skip(2)[1] == calls[3]);
    assert(calls.skip(2).skip(2) =~= calls.skip(4));
}

proof fn lemma_front_is_short(config: ConfigModel, calls: Seq<PlatformCall>)
    requires
        brought_up(config, calls) is Some,
        calls.len() <= 4,
    ensures
        forall|i: int| 0 <= i < calls.len() ==> !changes_network(#[trigger] calls[i]),
        brought_up(config, calls)->Some_0 is Err,
{
    assert(calls.skip(1).skip(1).len() == calls.len() - 2 || calls.len() < 2);
    assert(calls.len() > 1 ==> calls.skip(1)[0] == calls[1]);
    if calls.len() > 2 {
        assert(calls.skip(1).skip(1) =~= calls.skip(2));
        assert(calls.skip(2)[0] == calls[2]);
        if calls.len() == 4 {
            assert(calls.skip(2)[1] == calls[3]);
            assert(calls.skip(2).skip(2).len() == 0);
            changes_are_ordered_everywhere();
        }
    }
}

proof fn changes_are_ordered_everywhere()
    ensures
        forall|rules: Seq<RuleModel>, ip: IpModel, gateway: Option<Ipv4Addr>| (#[trigger] plan(
            rules,
            ip,
            gateway,
        )).len() >= 3,
{
    assert forall|rules: Seq<RuleModel>, ip: IpModel, gateway: Option<Ipv4Addr>| (#[trigger] plan(
        rules,
        ip,
        gateway,
    )).len() >= 3 by {
        changes_are_ordered(rules, ip, gateway);
    }
}

/// Whatever changes the network is what the configuration and the captured network call
/// for: the device `aether0` with the address 10.255.0.2 and the configured MTU; a route to
/// the first IPv4 address of the server, or to its first address where it has none; routes
/// to what direct rules name; and the resolver 10.255.0.1. Routes go via the previous
/// gateway.
pub proof fn every_change_is_called_for(config: ConfigModel, calls: Seq<PlatformCall>, i: int)
    requires
        brought_up(config, calls) is Some,
        0 <= i < calls.len(),
        calls[i] is TunUp || calls[i] is PinRoute || calls[i] is AddRoute
            || calls[i] is DefaultViaTun || calls[i] is ForceDns,
    ensures
        i >= 4,
        ({
            let ips = calls[1]->Resolve_1->Ok_0;
            let snap = calls[2]->Snapshot_0->Ok_0;
            let rules = config.deciding();
            match calls[i] {
                PlatformCall::TunUp(name, addr, mtu, _) => {
                    &&& name == "aether0"@
                    &&& addr == Ipv4Addr::spec_new(10, 255, 0, 2)
                    &&& mtu == config.mtu
                },
                PlatformCall::PinRoute(ip, via, _) => {
                    &&& gateway_of(snap) == Some(via)
                    &&& exists|k: int|
                        {
                            &&& 0 <= k < ips.len()
                            &&& #[trigger] ips[k] == ip
                            &&& ip is V4 ==> forall|j: int|
                                0 <= j < k ==> !((#[trigger] ips[j]) is V4)
                            &&& !(ip is V4) ==> k == 0 && forall|j: int|
                                0 <= j < ips.len() ==> !((#[trigger] ips[j]) is V4)
                        }
                },
                PlatformCall::AddRoute(dest, via, _) => {
                    &&& gateway_of(snap) == Some(via)
                    &&& exists|k: int|
                        {
                            &&& 0 <= k < rules.len()
                            &&& (#[trigger] rules[k]).action == Action::Direct
                            &&& match rules[k].matcher {
                                MatcherModel::Ip(ip) => dest == ip.spec_text(),
                                MatcherModel::Cidr(base, prefix) => dest
                                    == base.spec_text().push('/') + decimal(prefix as nat),
                                MatcherModel::IpRange(lo, hi) => dest == lo.spec_text().push('-')
                                    + hi.spec_text(),
                                _ => false,
                            }
                        }
                },
                PlatformCall::ForceDns(ip, _) => ip == Ipv4Addr::spec_new(10, 255, 0, 1),
                _ => true,
            }
        }),
{
    if calls.len() <= 4 {
        lemma_front_is_short(config, calls);
    }
    lemma_front(config, calls);
    let ips = calls[1]->Resolve_1->Ok_0;
    let snap = calls[2]->Snapshot_0->Ok_0;
    let rules = config.deciding();
    let ip = server_ip(ips)->Some_0;
    let gateway = gateway_of(snap);
    let steps = plan(rules, ip, gateway);
    assert(i >= 4);
    assert(calls.skip(4)[i - 4] == calls[i]);
    let kept = UpStateModel {
        snapshot: snap,
        applied: Seq::empty(),
        dns_iface: or_empty(calls[3]->CapturedIface_0),
        tun_ifindex: None,
    };
    let j = lemma_called_for(steps, config.mtu, kept, calls.skip(4), i - 4);
    lemma_first_v4(ips);
    changes_are_ordered(rules, ip, gateway);
    match calls[i] {
        PlatformCall::PinRoute(dest, via, _) => {
            if let Some(old) = gateway {
                direct_routes_are_direct(rules, old);
                assert(j != 1 ==> !(steps[j] is Pin)) by {
                    if 2 <= j < steps.len() - 2 {
                        assert(steps[j] == direct_routes(rules, old)[j - 2]);
                    }
                }
                assert(steps[j] == ChangePlan::Pin(ip, old));
            }
            assert(dest == ip);
            if first_v4(ips) < ips.len() {
                assert(ips[first_v4(ips)] == ip);
            } else {
                assert(ips[0] == ip);
            }
        },
        PlatformCall::AddRoute(dest, via, _) => {
            if let Some(old) = gateway {
                assert(2 <= j < steps.len() - 2);
                assert(steps[j] == direct_routes(rules, old)[j - 2]);
                direct_routes_lead_via(rules, old);
                assert(via == old);
                assert(direct_routes(rules, old).contains(ChangePlan::Direct(dest, old)));
                only_direct_rules_are_routed(rules, old, dest);
                let k = choose|k: int|
                    0 <= k < rules.len() && (#[trigger] rules[k]).action == Action::Direct
                        && route_dest(rules[k].matcher) == Some(dest);
                assert(rules[k].action == Action::Direct);
            }
        },
        _ => {},
    }
}

proof fn direct_routes_lead_via(rules: Seq<RuleModel>, via: Ipv4Addr)
    ensures
        forall|i: int|
            0 <= i < direct_routes(rules, via).len() ==> ((#[trigger] direct_routes(
                rules,
                via,
            )[i]) matches ChangePlan::Direct(_, v) && v == via),
    decreases rules.len(),
{
    if rules.len() > 0 {
        direct_routes_lead_via(rules.drop_last(), via);
    }
}

/// Success makes every change: the device, the default route and the resolver, and where
/// there was a gateway the route to the server and one for each direct rule that names
/// addresses. A failure of any of them is no success.
pub proof fn success_makes_every_change(config: ConfigModel, calls: Seq<PlatformCall>)
    requires
        brought_up(config, calls) matches Some(Ok(_)),
    ensures
        exists|i: int|
            0 <= i < calls.len() && ((#[trigger] calls[i]) matches PlatformCall::TunUp(_, _, _, Ok(
                _,
            ))),
        exists|i: int|
            0 <= i < calls.len() && ((#[trigger] calls[i]) matches PlatformCall::DefaultViaTun(Ok(
                _,
            ))),
        exists|i: int|
            0 <= i < calls.len() && ((#[trigger] calls[i]) matches PlatformCall::ForceDns(_, Ok(
                _,
            ))),
        calls[2] matches PlatformCall::Snapshot(Ok(snap)) && (gateway_of(snap) matches Some(via)
            ==> {
            &&& exists|i: int|
                0 <= i < calls.len() && ((#[trigger] calls[i]) matches PlatformCall::PinRoute(
                    _,
                    v,
                    Ok(_),
                ) && v == via)
            &&& forall|k: int|
                #![trigger config.deciding()[k]]
                0 <= k < config.deciding().len() && config.deciding()[k].action == Action::Direct
                    && (config.deciding()[k].matcher is Ip || config.deciding()[k].matcher is Cidr
                    || config.deciding()[k].matcher is IpRange) ==> exists|i: int|
                    0 <= i < calls.len() && ((#[trigger] calls[i]) matches PlatformCall::AddRoute(
                        dest,
                        v,
                        Ok(_),
                    ) && v == via && match config.deciding()[k].matcher {
                        MatcherModel::Ip(ip) => dest == ip.spec_text(),
                        MatcherModel::Cidr(base, prefix) => dest == base.spec_text().push('/')
                            + decimal(prefix as nat),
                        MatcherModel::IpRange(lo, hi) => dest == lo.spec_text().push('-')
                            + hi.spec_text(),
                        _ => false,
                    })
        }),
{
    if calls.len() <= 4 {
        lemma_front_is_short(config, calls);
    }
    lemma_front(config, calls);
    let ips = calls[1]->Resolve_1->Ok_0;
    let snap = calls[2]->Snapshot_0->Ok_0;
    let rules = config.deciding();
    let ip = server_ip(ips)->Some_0;
    let gateway = gateway_of(snap);
    let steps = plan(rules, ip, gateway);
    let rest = calls.skip(4);
    let kept = UpStateModel {
        snapshot: snap,
        applied: Seq::empty(),
        dns_iface: or_empty(calls[3]->CapturedIface_0),
        tun_ifindex: None,
    };
    let n = steps.len() as int;
    changes_are_ordered(rules, ip, gateway);
    let i = lemma_all_made(steps, config.mtu, kept, rest, 0);
    assert(rest[i] == calls[i + 4]);
    let i = lemma_all_made(steps, config.mtu, kept, rest, n - 2);
    assert(rest[i] == calls[i + 4]);
    let i = lemma_all_made(steps, config.mtu, kept, rest, n - 1);
    assert(rest[i] == calls[i + 4]);
    if let Some(via) = gateway {
        let i = lemma_all_made(steps, config.mtu, kept, rest, 1);
        assert(rest[i] == calls[i + 4]);
        assert forall|k: int|
            #![trigger config.deciding()[k]]
            0 <= k < rules.len() && rules[k].action == Action::Direct && (rules[k].matcher is Ip
                || rules[k].matcher is Cidr || rules[k].matcher is IpRange) implies exists|i: int|
            0 <= i < calls.len() && ((#[trigger] calls[i]) matches PlatformCall::AddRoute(
                dest,
                v,
                Ok(_),
            ) && v == via && match rules[k].matcher {
                MatcherModel::Ip(ip) => dest == ip.spec_text(),
                MatcherModel::Cidr(base, prefix) => dest == base.spec_text().push('/') + decimal(
                    prefix as nat,
                ),
                MatcherModel::IpRange(lo, hi) => dest == lo.spec_text().push('-')
                    + hi.spec_text(),
                _ => false,
            }) by {
            let dest = route_dest(rules[k].matcher)->Some_0;
            assert(rules[k].action == Action::Direct);
            only_direct_rules_are_routed(rules, via, dest);
            let routes = direct_routes(rules, via);
            let j = choose|j: int|
                0 <= j < routes.len() && routes[j] == ChangePlan::Direct(dest, via);
            assert(steps[j + 2] == routes[j]);
            let i = lemma_all_made(steps, config.mtu, kept, rest, j + 2);
            assert(rest[i] == calls[i + 4]);
        }
    }
}

/// The device comes before every route, the route to the server before the routes of the
/// rules, all of them before the default route, and the resolver last.
pub proof fn changes_come_in_order(config: ConfigModel, calls: Seq<PlatformCall>, i: int, k: int)
    requires
        brought_up(config, calls) is Some,
        0 <= i < k < calls.len(),
        changes_network(calls[i]),
        changes_network(calls[k]),
    ensures
        !(calls[k] is TunUp),
        calls[k] is PinRoute ==> calls[i] is TunUp,
        calls[k] is AddRoute ==> calls[i] is TunUp || calls[i] is PinRoute || calls[i] is AddRoute,
        calls[k] is DefaultViaTun ==> !(calls[i] is ForceDns) && !(calls[i] is DefaultViaTun),
        !(calls[i] is ForceDns),
{
    if calls.len() <= 4 {
        lemma_front_is_short(config, calls);
    }
    lemma_front(config, calls);
    nothing_changes_before_the_snapshot(config, calls, i);
    nothing_changes_before_the_snapshot(config, calls, k);
    let ips = calls[1]->Resolve_1->Ok_0;
    let snap = calls[2]->Snapshot_0->Ok_0;
    let rules = config.deciding();
    let ip = server_ip(ips)->Some_0;
    let gateway = gateway_of(snap);
    let steps = plan(rules, ip, gateway);
    let rest = calls.skip(4);
    let kept = UpStateModel {
        snapshot: snap,
        applied: Seq::empty(),
        dns_iface: or_empty(calls[3]->CapturedIface_0),
        tun_ifindex: None,
    };
    assert(rest[i - 4] == calls[i] && rest[k - 4] == calls[k]);
    let (a, b) = lemma_in_order(steps, config.mtu, kept, rest, i - 4, k - 4);
    changes_are_ordered(rules, ip, gateway);
    if let Some(via) = gateway {
        direct_routes_are_direct(rules, via);
        if 2 <= a < steps.len() - 2 {
            assert(steps[a] == direct_routes(rules, via)[a - 2]);
        }
        if 2 <= b < steps.len() - 2 {
            assert(steps[b] == direct_routes(rules, via)[b - 2]);
        }
    }
}

/// What is kept after each change tells of the network as it was captured and of every
/// change made by then, in order; on success the last call keeps all of them.
pub proof fn kept_state_tells_of_the_changes_made(
    config: ConfigModel,
    calls: Seq<PlatformCall>,
    i: int,
)
    requires
        brought_up(config, calls) is Some,
        0 <= i < calls.len(),
        calls[i] is SaveState,
    ensures
        calls[2] matches PlatformCall::Snapshot(Ok(snap)) && {
            &&& calls[i]->SaveState_0.snapshot == snap
            &&& calls[i]->SaveState_0.applied == changes_made(calls.take(i), snap)
            &&& calls[i]->SaveState_0.dns_iface == (match calls[3]->CapturedIface_0 {
                Some(name) => name,
                None => Seq::empty(),
            })
        },
{
    if calls.len() <= 4 {
        assert(calls.skip(1).skip(1).len() == calls.len() - 2 || calls.len() < 2);
        assert(calls.len() > 1 ==> calls.skip(1)[0] == calls[1]);
        if calls.len() > 2 {
            assert(calls.skip(1).skip(1) =~= calls.skip(2));
            assert(calls.skip(2)[0] == calls[2]);
            assert(calls.len() == 4 ==> calls.skip(2)[1] == calls[3]);
        }
        assert(false);
    }
    lemma_front(config, calls);
    let ips = calls[1]->Resolve_1->Ok_0;
    let snap = calls[2]->Snapshot_0->Ok_0;
    let kept = UpStateModel {
        snapshot: snap,
        applied: Seq::empty(),
        dns_iface: or_empty(calls[3]->CapturedIface_0),
        tun_ifindex: None,
    };
    let steps = plan(config.deciding(), server_ip(ips)->Some_0, gateway_of(snap));
    let rest = calls.skip(4);
    assert(rest[i - 4] == calls[i]);
    lemma_kept(steps, config.mtu, kept, rest, i - 4);
    let front = calls.take(4);
    lemma_no_changes_made(front, snap);
    assert(calls.take(i) =~= front + rest.take(i - 4));
    lemma_changes_made_joined(front, rest.take(i - 4), snap);
    assert(changes_made(calls.take(i), snap) =~= kept.applied + changes_made(
        rest.take(i - 4),
        snap,
    ));
}

/// A failure once the network was captured for changing ends with undoing exactly the
/// changes made, back to the network as it was captured, and with dropping what was kept.
pub proof fn failure_undoes_the_changes_made(config: ConfigModel, calls: Seq<PlatformCall>)
    requires
        brought_up(config, calls) matches Some(Err(_)),
        calls.len() > 4,
    ensures
        ({
            let n = calls.len() as int;
            &&& calls[2] matches PlatformCall::Snapshot(Ok(snap)) && (calls[n - 2] matches
                PlatformCall::RestoreApplied(state, _) && state.snapshot == snap && state.applied
                == changes_made(calls, snap))
            &&& calls[n - 1] is RemoveState
            &&& calls[n - 4] is CapturedIface
            &&& calls[n - 3] is TunIfindex
            &&& calls[n - 2]->RestoreApplied_0.tun_ifindex == calls[n - 3]->TunIfindex_0
            &&& calls[n - 2]->RestoreApplied_0.dns_iface == (match calls[n
                - 4]->CapturedIface_0 {
                Some(name) => name,
                None => Seq::empty(),
            })
        }),
{
    lemma_front(config, calls);
    let ips = calls[1]->Resolve_1->Ok_0;
    let snap = calls[2]->Snapshot_0->Ok_0;
    let kept = UpStateModel {
        snapshot: snap,
        applied: Seq::empty(),
        dns_iface: or_empty(calls[3]->CapturedIface_0),
        tun_ifindex: None,
    };
    let steps = plan(config.deciding(), server_ip(ips)->Some_0, gateway_of(snap));
    let rest = calls.skip(4);
    lemma_undone(steps, config.mtu, kept, rest);
    let m = rest.len() as int;
    let n = calls.len() as int;
    assert(rest[m - 4] == calls[n - 4] && rest[m - 3] == calls[n - 3]);
    assert(rest[m - 2] == calls[n - 2] && rest[m - 1] == calls[n - 1]);
    let front = calls.take(4);
    lemma_no_changes_made(front, snap);
    assert(calls =~= front + rest);
    lemma_changes_made_joined(front, rest, snap);
    assert(changes_made(calls, snap) =~= kept.applied + changes_made(rest, snap));
}

/// The server that is resolved is the one of the configuration: what stands before the last
/// colon of its address.
pub proof fn configured_server_is_resolved(
    config: ConfigModel,
    calls: Seq<PlatformCall>,
    host: Seq<char>,
    port: Seq<char>,
)
    requires
        brought_up(config, calls) is Some,
        config.server_addr == host.push(':') + port,
        !port.contains(':'),
        calls.len() > 1,
    ensures
        calls[1] matches PlatformCall::Resolve(asked, _) && asked == host,
{
    last_separator_splits(host, ':', port);
    assert(calls.skip(1)[0] == calls[1]);
}

/// Taking the tunnel down undoes what was kept, where something was, drops it, and destroys
/// the device in any case. It makes no other change.
pub proof fn down_undoes_what_was_kept(calls: Seq<PlatformCall>)
    requires
        taken_down(calls),
    ensures
        calls.last() is TunDown,
        calls[0] is LoadState,
        forall|i: int| 0 <= i < calls.len() ==> !changes_network(#[trigger] calls[i]),
        calls[0] matches PlatformCall::LoadState(Ok(state)) ==> {
            &&& exists|i: int|
                0 < i < calls.len() && ((#[trigger] calls[i]) matches PlatformCall::RestoreApplied(
                    s,
                    _,
                ) && s == state)
            &&& calls[calls.len() - 2] is RemoveState
        },
        calls[0] matches PlatformCall::LoadState(Err(_)) ==> calls.len() == 2,
{
    if let PlatformCall::LoadState(Ok(state)) = calls[0] {
        assert(calls[1]->RestoreApplied_0 == state);
    }
}

/// What became of a change or of keeping it.
pub open spec fn failed_with(call: PlatformCall) -> Option<ClientFault> {
    match call {
        PlatformCall::TunUp(_, _, _, Err(fault)) => Some(fault),
        PlatformCall::PinRoute(_, _, Err(fault)) => Some(fault),
        PlatformCall::AddRoute(_, _, Err(fault)) => Some(fault),
        PlatformCall::DefaultViaTun(Err(fault)) => Some(fault),
        PlatformCall::ForceDns(_, Err(fault)) => Some(fault),
        PlatformCall::SaveState(_, Err(fault)) => Some(fault),
        _ => None,
    }
}

proof fn lemma_failed_with(
    steps: Seq<ChangePlan>,
    mtu: u32,
    kept: UpStateModel,
    calls: Seq<PlatformCall>,
)
    requires
        applied_all(steps, mtu, kept, calls) is Some,
    ensures
        match applied_all(steps, mtu, kept, calls)->Some_0 {
            Ok(_) => forall|i: int|
                0 <= i < calls.len() ==> failed_with(#[trigger] calls[i]) is None,
            Err(fault) => {
                &&& forall|i: int|
                    0 <= i < calls.len() - 5 ==> failed_with(#[trigger] calls[i]) is None
                &&& calls.len() >= 5
                &&& failed_with(calls[calls.len() - 5]) == Some(fault)
            },
        },
    decreases steps.len(),
{
    if steps.len() > 0 {
        let w = width(steps[0]);
        let n = calls.len() as int;
        if made(steps[0], mtu, calls[0]) matches Some(Ok(_)) {
            let rest = calls.skip(w);
            let next = kept_next(steps, kept, calls);
            if calls[w - 1]->SaveState_1 is Ok {
                lemma_failed_with(steps.skip(1), mtu, next, rest);
                let bound = if applied_all(steps, mtu, kept, calls)->Some_0 is Ok {
                    n
                } else {
                    n - 5
                };
                assert forall|i: int| 0 <= i < bound implies failed_with(
                    #[trigger] calls[i],
                ) is None by {
                    if i >= w {
                        assert(rest[i - w] == calls[i]);
                    }
                }
                if applied_all(steps, mtu, kept, calls)->Some_0 is Err {
                    assert(rest[rest.len() - 5] == calls[n - 5]);
                }
            } else {
                assert(rest.len() == 4);
                assert(n - 5 == w - 1);
            }
        } else {
            assert(calls.skip(1).len() == 4);
        }
    }
}

/// The first change that fails, or the first that cannot be kept, ends the attempt with its own
/// fault, and nothing is tried behind it but undoing. Where nothing fails, the attempt succeeds.
pub proof fn first_failure_ends_the_attempt(config: ConfigModel, calls: Seq<PlatformCall>)
    requires
        brought_up(config, calls) is Some,
        calls.len() > 4,
    ensures
        match brought_up(config, calls)->Some_0 {
            Ok(_) => forall|i: int|
                0 <= i < calls.len() ==> failed_with(#[trigger] calls[i]) is None,
            Err(fault) => {
                &&& calls.len() >= 9
                &&& failed_with(calls[calls.len() - 5]) == Some(fault)
                &&& forall|i: int|
                    0 <= i < calls.len() - 5 ==> failed_with(#[trigger] calls[i]) is None
            },
        },
{
    lemma_front(config, calls);
    let ips = calls[1]->Resolve_1->Ok_0;
    let snap = calls[2]->Snapshot_0->Ok_0;
    let kept = UpStateModel {
        snapshot: snap,
        applied: Seq::empty(),
        dns_iface: or_empty(calls[3]->CapturedIface_0),
        tun_ifindex: None,
    };
    let steps = plan(config.deciding(), server_ip(ips)->Some_0, gateway_of(snap));
    let rest = calls.skip(4);
    lemma_failed_with(steps, config.mtu, kept, rest);
    let n = calls.len() as int;
    let bound = if brought_up(config, calls)->Some_0 is Ok {
        n
    } else {
        n - 5
    };
    assert forall|i: int| 0 <= i < bound implies failed_with(#[trigger] calls[i]) is None by {
        if i >= 4 {
            assert(rest[i - 4] == calls[i]);
        }
    }
    if brought_up(config, calls)->Some_0 is Err {
        assert(rest[rest.len() - 5] == calls[n - 5]);
    }
}

/// An attempt that does not come to changing the network ends where the resolution or the
/// capture failed, with the fault of that, or was refused.
pub proof fn attempts_end_where_the_lookup_failed(config: ConfigModel, calls: Seq<PlatformCall>)
    requires
        brought_up(config, calls) is Some,
        calls.len() <= 4,
    ensures
        brought_up(config, calls)->Some_0 is Err,
        forall|i: int|
            0 <= i < calls.len() && ((#[trigger] calls[i]) matches PlatformCall::Resolve(_, Err(_)))
                ==> i == calls.len() - 1 && brought_up(config, calls)->Some_0 == Err::<(), _>(
                calls[i]->Resolve_1->Err_0,
            ),
        forall|i: int|
            0 <= i < calls.len() && ((#[trigger] calls[i]) matches PlatformCall::Snapshot(Err(_)))
                ==> i == calls.len() - 1 && brought_up(config, calls)->Some_0 == Err::<(), _>(
                calls[i]->Snapshot_0->Err_0,
            ),
{
    lemma_front_is_short(config, calls);
    assert(calls.skip(1).skip(1).len() == calls.len() - 2 || calls.len() < 2);
    assert(calls.len() > 1 ==> calls.skip(1)[0] == calls[1]);
    if calls.len() > 2 {
        assert(calls.skip(1).skip(1) =~= calls.skip(2));
        assert(calls.skip(2)[0] == calls[2]);
        if calls.len() == 4 {
            assert(calls.skip(2)[1] == calls[3]);
            assert(calls.skip(2).skip(2).len() == 0);
            changes_are_ordered_everywhere();
        }
    }
}

} // verus!
