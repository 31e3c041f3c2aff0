//! What bringing the tunnel up and down makes of a platform in memory.
//!
//! A [`FakePlatform`] answers each call in one way, so the outcome and everything it
//! holds afterwards are functions of the configuration and of what it held before.

use vstd::prelude::*;

use crate::client::cleanup::cleans_up;
use crate::client::config::ConfigModel;
use crate::client::lifecycle::{
    applied_all, brought_up, changes_are_ordered, made, noted, noted_first, plan, resolved_up,
    server_ip, snapshot_up, spec_virtual_dns_ip, taken_down, ChangePlan, TUN_NAME,
};
use crate::client::platform::{
    answered, attempted, captured, captured_network_is_restored, changes_in, fake_default,
    fake_dns, fake_pin, fake_route, fake_server, fake_tun_up, injected, is_change, logged, played,
    played_from_the_first, platform_follows_itself, restored, FakeModel, FakePlatform,
    Platform, PlatformCall, Step,
};
use crate::client::ClientFault;
use crate::netstack::tun::{gateway_of, SnapshotModel, UpStateModel};
use crate::table::{unique_keys, with_value};
use crate::text::rsplit_once;

verus! {

/// The outcome of a change, and the platform after it.
pub open spec fn step_in_memory(step: ChangePlan, m: FakeModel) -> (
    FakeModel,
    Result<(), ClientFault>,
) {
    match step {
        ChangePlan::Tun => fake_tun_up(m, TUN_NAME@),
        ChangePlan::Pin(ip, via) => fake_pin(m, ip, via),
        ChangePlan::Direct(dest, via) => fake_route(m, dest, via),
        ChangePlan::Default => fake_default(m),
        ChangePlan::Dns => fake_dns(m, spec_virtual_dns_ip()),
    }
}

/// A platform after a failure: back to the snapshot, with nothing kept.
pub open spec fn undone(m: FakeModel, snap: SnapshotModel) -> FakeModel {
    FakeModel { state: None, ..restored(m, snap) }
}

/// The outcome of making changes, and the platform after them. What was changed so
/// far is kept after each change, and undone at the first failure.
pub open spec fn steps_in_memory(steps: Seq<ChangePlan>, kept: UpStateModel, m: FakeModel) -> (
    FakeModel,
    Result<(), ClientFault>,
)
    decreases steps.len(),
{
    if steps.len() == 0 {
        (m, Ok(()))
    } else {
        let (after, r) = step_in_memory(steps[0], m);
        match r {
            Err(fault) => (undone(after, kept.snapshot), Err(fault)),
            Ok(_) => {
                let next = UpStateModel {
                    applied: kept.applied.push(noted(steps[0], kept.snapshot)),
                    ..kept
                };
                steps_in_memory(steps.skip(1), next, FakeModel { state: Some(next), ..after })
            },
        }
    }
}

/// What is kept at first: the captured network and no change.
pub open spec fn kept_at_first(m: FakeModel) -> UpStateModel {
    UpStateModel {
        snapshot: captured(m),
        applied: Seq::empty(),
        dns_iface: Seq::empty(),
        tun_ifindex: None,
    }
}

/// The changes that bring the tunnel up on a platform in memory.
pub open spec fn plan_in_memory(config: ConfigModel, m: FakeModel) -> Seq<ChangePlan> {
    plan(config.deciding(), fake_server()[0], gateway_of(captured(m)))
}

/// A platform after the server was resolved and the network captured.
pub open spec fn looked_around(m: FakeModel, host: Seq<char>) -> FakeModel {
    logged(logged(attempted(m, Step::Resolve), "resolve "@ + host), "snapshot"@)
}

/// The outcome of bringing the tunnel up on a platform in memory, and the platform
/// after it.
pub open spec fn up_in_memory(config: ConfigModel, m: FakeModel) -> (
    FakeModel,
    Result<(), ClientFault>,
) {
    match rsplit_once(config.server_addr, ':') {
        None => (m, Err(ClientFault::ConfigError("server_addr must be host:port"@))),
        Some((host, _)) => if m.state is Some {
            (
                m,
                Err(
                    ClientFault::PlatformError(
                        "tunnel already up or stale state file: run down/cleanup first"@,
                    ),
                ),
            )
        } else if m.fail_at == Some(Step::Resolve) {
            (attempted(m, Step::Resolve), Err(injected(Step::Resolve)))
        } else if m.dns.contains(spec_virtual_dns_ip().spec_text()) {
            (
                looked_around(m, host),
                Err(
                    ClientFault::PlatformError(
                        "stale tunnel DNS in snapshot: run down/cleanup first"@,
                    ),
                ),
            )
        } else {
            steps_in_memory(plan_in_memory(config, m), kept_at_first(m), looked_around(m, host))
        },
    }
}

/// A platform in memory after the tunnel was taken down.
pub open spec fn down_in_memory(m: FakeModel) -> FakeModel {
    let back = match m.state {
        Some(state) => undone(m, state.snapshot),
        None => m,
    };
    FakeModel { tun: false, ..logged(back, "apply:tun_down"@) }
}

proof fn lemma_undo(m: FakeModel, snap: SnapshotModel, calls: Seq<PlatformCall>)
    requires
        calls.len() == 4,
        calls[0] is CapturedIface,
        calls[1] is TunIfindex,
        calls[2] is RestoreApplied,
        calls[2]->RestoreApplied_0.snapshot == snap,
        calls[3] is RemoveState,
        played(m, calls) is Some,
    ensures
        played(m, calls) == Some(undone(m, snap)),
{
    played_from_the_first(m, calls);
    played_from_the_first(m, calls.skip(1));
    assert(calls.skip(1).skip(1) =~= calls.skip(2));
    played_from_the_first(m, calls.skip(2));
    assert(calls.skip(2).skip(1) =~= calls.skip(3));
    played_from_the_first(restored(m, snap), calls.skip(3));
    assert(calls.skip(3).skip(1).len() == 0);
}

proof fn lemma_steps(
    steps: Seq<ChangePlan>,
    mtu: u32,
    kept: UpStateModel,
    calls: Seq<PlatformCall>,
    m: FakeModel,
)
    requires
        applied_all(steps, mtu, kept, calls) is Some,
        played(m, calls) is Some,
        kept.tun_ifindex is None,
    ensures
        steps_in_memory(steps, kept, m) == (
            played(m, calls)->Some_0,
            applied_all(steps, mtu, kept, calls)->Some_0,
        ),
    decreases steps.len(),
{
    if steps.len() > 0 {
        played_from_the_first(m, calls);
        let (after, r) = step_in_memory(steps[0], m);
        assert(answered(m, calls[0]) == (after, calls[0]));
        assert(made(steps[0], mtu, calls[0]) == Some(r));
        match r {
            Err(fault) => {
                lemma_undo(after, kept.snapshot, calls.skip(1));
            },
            Ok(_) => {
                let asks = steps[0] is Tun;
                let n = if asks {
                    2int
                } else {
                    1int
                };
                if asks {
                    played_from_the_first(after, calls.skip(1));
                    assert(calls.skip(1).skip(1) =~= calls.skip(2));
                }
                let next = UpStateModel {
                    applied: kept.applied.push(noted(steps[0], kept.snapshot)),
                    ..kept
                };
                assert(played(after, calls.skip(n)) == played(m, calls));
                played_from_the_first(after, calls.skip(n));
                assert(calls.skip(n).skip(1) =~= calls.skip(n + 1));
                assert(calls.skip(n)[0] == calls[n]);
                lemma_steps(
                    steps.skip(1),
                    mtu,
                    next,
                    calls.skip(n + 1),
                    FakeModel { state: Some(next), ..after },
                );
            },
        }
    }
}

proof fn lemma_up(config: ConfigModel, calls: Seq<PlatformCall>, m: FakeModel)
    requires
        brought_up(config, calls) is Some,
        played(m, calls) is Some,
    ensures
        up_in_memory(config, m) == (played(m, calls)->Some_0, brought_up(config, calls)->Some_0),
{
    if let Some((host, _)) = rsplit_once(config.server_addr, ':') {
        played_from_the_first(m, calls);
        if calls[0] == PlatformCall::StateExists(false) {
            let calls1 = calls.skip(1);
            assert(resolved_up(config, host, calls1) is Some);
            played_from_the_first(m, calls1);
            let resolved = answered(m, calls1[0]).0;
            let calls2 = calls1.skip(1);
            if calls1[0]->Resolve_1 is Ok {
                assert(server_ip(fake_server()) == Some(fake_server()[0]));
                assert(snapshot_up(config, fake_server()[0], calls2) is Some);
                played_from_the_first(resolved, calls2);
                assert(captured(resolved) == captured(m));
                let around = looked_around(m, host);
                assert(answered(resolved, calls2[0]).0 == around);
                let calls3 = calls2.skip(1);
                if !m.dns.contains(spec_virtual_dns_ip().spec_text()) {
                    played_from_the_first(around, calls3);
                    assert(calls3.skip(1) =~= calls2.skip(2));
                    lemma_steps(
                        plan_in_memory(config, m),
                        config.mtu,
                        kept_at_first(m),
                        calls2.skip(2),
                        around,
                    );
                }
            }
        }
    }
}

/// What a platform in memory holds after the tunnel was brought up on it, and with
/// which outcome that ended: the calls that were made leave no choice.
pub proof fn up_is_determined_in_memory(
    before: FakePlatform,
    after: FakePlatform,
    config: ConfigModel,
    r: Result<(), ClientFault>,
)
    requires
        before.history().is_prefix_of(after.history()),
        brought_up(config, after.history().skip(before.history().len() as int)) == Some(r),
        before.follows(before) ==> after.follows(before),
    ensures
        up_in_memory(config, before@) == (after@, r),
{
    platform_follows_itself(before);
    lemma_up(config, after.history().skip(before.history().len() as int), before@);
}

/// What a platform in memory holds after the tunnel was taken down on it.
pub proof fn down_is_determined_in_memory(before: FakePlatform, after: FakePlatform)
    requires
        before.history().is_prefix_of(after.history()),
        taken_down(after.history().skip(before.history().len() as int)),
        before.follows(before) ==> after.follows(before),
    ensures
        down_in_memory(before@) == after@,
{
    platform_follows_itself(before);
    let m = before@;
    let calls = after.history().skip(before.history().len() as int);
    played_from_the_first(m, calls);
    let calls1 = calls.skip(1);
    played_from_the_first(m, calls1);
    let calls2 = calls1.skip(1);
    if m.state is Some {
        let back = restored(m, m.state->Some_0.snapshot);
        played_from_the_first(back, calls2);
        played_from_the_first(FakeModel { state: None, ..back }, calls2.skip(1));
        assert(calls2.skip(1).skip(1).len() == 0);
    } else {
        assert(calls2.len() == 0);
    }
}

/// The step that a change belongs to.
pub open spec fn step_of(step: ChangePlan) -> Step {
    match step {
        ChangePlan::Tun => Step::TunUp,
        ChangePlan::Pin(_, _) => Step::PinRoute,
        ChangePlan::Direct(_, _) => Step::DirectRules,
        ChangePlan::Default => Step::DefaultViaTun,
        ChangePlan::Dns => Step::DnsForce,
    }
}

/// The line of the log about a change.
pub open spec fn change_line(step: ChangePlan) -> Seq<char> {
    match step {
        ChangePlan::Tun => "apply:tun_up "@ + TUN_NAME@,
        ChangePlan::Pin(ip, via) => "apply:pin_route "@ + ip.text() + " via "@ + via.spec_text(),
        ChangePlan::Direct(dest, via) => "apply:route "@ + dest + " via "@ + via.spec_text(),
        ChangePlan::Default => "apply:default_via_tun"@,
        ChangePlan::Dns => "apply:force_dns "@ + spec_virtual_dns_ip().spec_text(),
    }
}

/// The lines of the log about changes.
pub open spec fn change_lines(steps: Seq<ChangePlan>) -> Seq<Seq<char>> {
    steps.map_values(|step: ChangePlan| change_line(step))
}

/// The routing table after changes.
pub open spec fn routed(steps: Seq<ChangePlan>, routes: Seq<(Seq<char>, Seq<char>)>) -> Seq<
    (Seq<char>, Seq<char>),
>
    decreases steps.len(),
{
    if steps.len() == 0 {
        routes
    } else {
        let next = match steps[0] {
            ChangePlan::Pin(ip, via) => with_value(routes, ip.text(), via.spec_text()),
            ChangePlan::Direct(dest, via) => with_value(routes, dest, via.spec_text()),
            ChangePlan::Default => with_value(routes, "default"@, "tun"@),
            _ => routes,
        };
        routed(steps.skip(1), next)
    }
}

proof fn lemma_logged_line(log: Seq<Seq<char>>, line: Seq<char>)
    ensures
        changes_in(log.push(line)) == (if is_change(line) {
            changes_in(log).push(line)
        } else {
            changes_in(log)
        }),
{
    reveal(Seq::filter);
    assert(log.push(line).drop_last() =~= log);
}

proof fn lemma_lines(step: ChangePlan, attempt: Step, host: Seq<char>)
    ensures
        is_change(change_line(step)),
        !is_change("attempt:"@ + attempt.spec_name()),
        !is_change("resolve "@ + host),
        !is_change("snapshot"@),
        !is_change("restore"@),
{
    reveal_strlit("apply:");
    reveal_strlit("apply:tun_up ");
    reveal_strlit("apply:pin_route ");
    reveal_strlit("apply:route ");
    reveal_strlit("apply:default_via_tun");
    reveal_strlit("apply:force_dns ");
    assert(change_line(step).take(6) =~= "apply:"@);
    reveal_strlit("attempt:");
    assert(("attempt:"@ + attempt.spec_name()).take(6)[1] == 't');
    reveal_strlit("resolve ");
    assert(("resolve "@ + host).take(6)[0] == 'r');
    reveal_strlit("snapshot");
    assert("snapshot"@.take(6)[0] == 's');
    reveal_strlit("restore");
    assert("restore"@.take(6)[0] == 'r');
    assert("apply:"@[0] == 'a' && "apply:"@[1] == 'p');
}

proof fn lemma_outcome(steps: Seq<ChangePlan>, kept: UpStateModel, m: FakeModel)
    ensures
        steps_in_memory(steps, kept, m).1 is Ok <==> forall|i: int|
            0 <= i < steps.len() ==> m.fail_at != Some(step_of(#[trigger] steps[i])),
    decreases steps.len(),
{
    if steps.len() > 0 {
        let (after, r) = step_in_memory(steps[0], m);
        let next = UpStateModel {
            applied: kept.applied.push(noted(steps[0], kept.snapshot)),
            ..kept
        };
        let rest = steps.skip(1);
        lemma_outcome(rest, next, FakeModel { state: Some(next), ..after });
        assert(r is Ok <==> m.fail_at != Some(step_of(steps[0])));
        if r is Ok {
            assert(after.fail_at == m.fail_at);
            assert forall|i: int|
                0 <= i < steps.len() && (forall|j: int|
                    0 <= j < rest.len() ==> m.fail_at != Some(
                        step_of(#[trigger] rest[j]),
                    )) implies m.fail_at != Some(step_of(#[trigger] steps[i])) by {
                if i > 0 {
                    assert(rest[i - 1] == steps[i]);
                }
            }
            assert(forall|j: int| 0 <= j < rest.len() ==> #[trigger] rest[j] == steps[j + 1]);
        }
    }
}

proof fn lemma_failure(steps: Seq<ChangePlan>, kept: UpStateModel, m: FakeModel) -> (last:
    FakeModel)
    requires
        steps_in_memory(steps, kept, m).1 is Err,
    ensures
        steps_in_memory(steps, kept, m).0 == undone(last, kept.snapshot),
    decreases steps.len(),
{
    let (after, r) = step_in_memory(steps[0], m);
    if r is Err {
        after
    } else {
        let next = UpStateModel {
            applied: kept.applied.push(noted(steps[0], kept.snapshot)),
            ..kept
        };
        lemma_failure(steps.skip(1), next, FakeModel { state: Some(next), ..after })
    }
}

proof fn lemma_success(steps: Seq<ChangePlan>, kept: UpStateModel, m: FakeModel)
    requires
        steps_in_memory(steps, kept, m).1 is Ok,
        steps.len() > 0,
    ensures
        ({
            let after = steps_in_memory(steps, kept, m).0;
            &&& after.routes == routed(steps, m.routes)
            &&& steps.last() is Dns ==> after.dns == seq![spec_virtual_dns_ip().spec_text()]
            &&& (m.tun || steps[0] is Tun) ==> after.tun
            &&& m.log.is_prefix_of(after.log)
            &&& changes_in(after.log) == changes_in(m.log) + change_lines(steps)
            &&& after.state == Some(
                UpStateModel {
                    applied: kept.applied + noted_first(steps, steps.len() as int, kept.snapshot),
                    ..kept
                },
            )
        }),
    decreases steps.len(),
{
    let (after, r) = step_in_memory(steps[0], m);
    let next = UpStateModel {
        applied: kept.applied.push(noted(steps[0], kept.snapshot)),
        ..kept
    };
    let saved = FakeModel { state: Some(next), ..after };
    let rest = steps.skip(1);
    let attempt = "attempt:"@ + step_of(steps[0]).spec_name();
    lemma_lines(steps[0], step_of(steps[0]), Seq::empty());
    lemma_logged_line(m.log, attempt);
    lemma_logged_line(m.log.push(attempt), change_line(steps[0]));
    assert(after.log == m.log.push(attempt).push(change_line(steps[0])));
    assert(routed(rest, after.routes) == routed(steps, m.routes));
    if rest.len() == 0 {
        assert(steps_in_memory(rest, next, saved) == (saved, Ok::<(), ClientFault>(())));
        assert(routed(rest, after.routes) == after.routes);
        assert(change_lines(steps) =~= seq![change_line(steps[0])]);
        assert(next.applied =~= kept.applied + noted_first(steps, 1, kept.snapshot));
    } else {
        lemma_success(rest, next, saved);
        assert(change_lines(steps) =~= seq![change_line(steps[0])] + change_lines(rest));
        assert(changes_in(after.log) + change_lines(rest) =~= changes_in(m.log) + change_lines(
            steps,
        ));
        assert(next.applied + noted_first(rest, rest.len() as int, kept.snapshot) =~= kept.applied
            + noted_first(steps, steps.len() as int, kept.snapshot));
    }
}

/// On a platform in memory the tunnel comes up exactly where the server's address
/// has a port, no state is kept, the resolvers are not those of a tunnel, and no step
/// fails.
pub proof fn up_succeeds_exactly_in_order(config: ConfigModel, m: FakeModel)
    ensures
        up_in_memory(config, m).1 is Ok <==> {
            &&& rsplit_once(config.server_addr, ':') is Some
            &&& m.state is None
            &&& m.fail_at != Some(Step::Resolve)
            &&& !m.dns.contains(spec_virtual_dns_ip().spec_text())
            &&& forall|i: int|
                0 <= i < plan_in_memory(config, m).len() ==> m.fail_at != Some(
                    step_of(#[trigger] plan_in_memory(config, m)[i]),
                )
        },
{
    if let Some((host, _)) = rsplit_once(config.server_addr, ':') {
        lemma_outcome(plan_in_memory(config, m), kept_at_first(m), looked_around(m, host));
    }
}

/// A failed attempt leaves no traces on a platform in memory: routes and resolvers
/// are as they were, there is no device, and a state is kept where one was kept
/// before.
pub proof fn failed_up_leaves_no_traces(config: ConfigModel, m: FakeModel)
    requires
        unique_keys(m.routes),
        !m.tun,
    ensures
        up_in_memory(config, m).1 is Err ==> {
            let after = up_in_memory(config, m).0;
            after.routes == m.routes && after.dns == m.dns && !after.tun && after.state == m.state
        },
{
    if up_in_memory(config, m).1 is Err {
        if let Some((host, _)) = rsplit_once(config.server_addr, ':') {
            if m.state is None && m.fail_at != Some(Step::Resolve) && !m.dns.contains(
                spec_virtual_dns_ip().spec_text(),
            ) {
                let last = lemma_failure(
                    plan_in_memory(config, m),
                    kept_at_first(m),
                    looked_around(m, host),
                );
                captured_network_is_restored(m, last);
            }
        }
    }
}

/// A platform in memory that keeps a state, or whose resolvers are those of a tunnel,
/// refuses another one before anything is changed.
pub proof fn leftovers_are_refused_in_memory(config: ConfigModel, m: FakeModel)
    requires
        m.state is Some || m.dns.contains(spec_virtual_dns_ip().spec_text()),
    ensures
        up_in_memory(config, m).1 is Err,
        changes_in(up_in_memory(config, m).0.log) == changes_in(m.log),
{
    if let Some((host, _)) = rsplit_once(config.server_addr, ':') {
        lemma_look_around(m, host);
    }
}

proof fn lemma_look_around(m: FakeModel, host: Seq<char>)
    ensures
        changes_in(attempted(m, Step::Resolve).log) == changes_in(m.log),
        changes_in(looked_around(m, host).log) == changes_in(m.log),
{
    let attempt = "attempt:"@ + Step::Resolve.spec_name();
    lemma_lines(ChangePlan::Tun, Step::Resolve, host);
    lemma_logged_line(m.log, attempt);
    lemma_logged_line(m.log.push(attempt), "resolve "@ + host);
    lemma_logged_line(m.log.push(attempt).push("resolve "@ + host), "snapshot"@);
}

/// What a platform in memory holds once the tunnel is up: the routes of the plan, the
/// tunnel's resolver and no other, the device, and the way back. The log tells of the
/// resolution and the snapshot first, and then of the changes of the plan in order.
pub proof fn tunnel_in_memory(config: ConfigModel, m: FakeModel)
    ensures
        up_in_memory(config, m).1 is Ok ==> {
            let after = up_in_memory(config, m).0;
            let steps = plan_in_memory(config, m);
            let host = rsplit_once(config.server_addr, ':')->Some_0.0;
            &&& after.routes == routed(steps, m.routes)
            &&& after.dns == seq![spec_virtual_dns_ip().spec_text()]
            &&& after.tun
            &&& looked_around(m, host).log.is_prefix_of(after.log)
            &&& changes_in(after.log) == changes_in(m.log) + change_lines(steps)
            &&& after.state == Some(
                UpStateModel {
                    applied: noted_first(steps, steps.len() as int, captured(m)),
                    ..kept_at_first(m)
                },
            )
        },
{
    if up_in_memory(config, m).1 is Ok {
        let host = rsplit_once(config.server_addr, ':')->Some_0.0;
        let steps = plan_in_memory(config, m);
        changes_are_ordered(config.deciding(), fake_server()[0], gateway_of(captured(m)));
        lemma_success(steps, kept_at_first(m), looked_around(m, host));
        lemma_look_around(m, host);
        let noted = noted_first(steps, steps.len() as int, captured(m));
        assert(kept_at_first(m).applied + noted =~= noted);
    }
}

/// Taking the tunnel down undoes bringing it up: routes and resolvers are as they
/// were before, the device is gone and no state is kept.
pub proof fn down_undoes_up_in_memory(config: ConfigModel, m: FakeModel)
    requires
        unique_keys(m.routes),
        up_in_memory(config, m).1 is Ok,
    ensures
        ({
            let after = down_in_memory(up_in_memory(config, m).0);
            after.routes == m.routes && after.dns == m.dns && !after.tun && after.state is None
        }),
{
    tunnel_in_memory(config, m);
    captured_network_is_restored(m, up_in_memory(config, m).0);
}

/// A platform in memory after it was cleaned up.
pub open spec fn cleaned_in_memory(m: FakeModel) -> FakeModel {
    match m.state {
        Some(state) => undone(m, state.snapshot),
        None => m,
    }
}

/// What a platform in memory holds after it was cleaned up.
pub proof fn cleanup_is_determined_in_memory(before: FakePlatform, after: FakePlatform)
    requires
        before.history().is_prefix_of(after.history()),
        cleans_up(after.history().skip(before.history().len() as int)),
        before.follows(before) ==> after.follows(before),
    ensures
        cleaned_in_memory(before@) == after@,
{
    platform_follows_itself(before);
    let m = before@;
    let calls = after.history().skip(before.history().len() as int);
    played_from_the_first(m, calls);
    let calls1 = calls.skip(1);
    if m.state is Some {
        played_from_the_first(m, calls1);
        let calls2 = calls1.skip(1);
        let back = restored(m, m.state->Some_0.snapshot);
        played_from_the_first(m, calls2);
        played_from_the_first(back, calls2.skip(1));
        assert(calls2.skip(1).skip(1).len() == 0);
    } else {
        assert(calls1.len() == 0);
    }
}

/// Cleaning up leaves no state, and doing it again changes nothing.
pub proof fn cleanup_is_idempotent_in_memory(m: FakeModel)
    ensures
        cleaned_in_memory(m).state is None,
        cleaned_in_memory(cleaned_in_memory(m)) == cleaned_in_memory(m),
{
}

} // verus!
