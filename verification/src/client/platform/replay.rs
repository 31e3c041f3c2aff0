//! Undoing the changes of a state, step by step.
//!
//! The state may be that of another process that is gone: it alone says what is
//! to be undone. Every step is tried whatever became of the ones before, and what
//! went wrong is listed at the end.

use vstd::prelude::*;
use vstd::string::*;

use crate::client::lifecycle::{spec_virtual_dns_ip, virtual_dns_ip};
use crate::client::platform::commands::{
    as_block, block_of, dns_step, dns_step_args, issues_outcome, lemma_half_texts, sum_up,
};
use crate::client::platform::windows::{
    args_of, mask_text, route_args, route_delete_args, route_delete_if_args, route_words,
};
use crate::client::platform::{copied_state, outcome};
use crate::client::{client_text, ClientError, ClientFault};
use crate::net::Ipv4Addr;
use crate::netstack::tun::{
    gateway_of, previous_gateway, rollback, rollback_plan, RestoreModel, RestoreOp, UpState,
    UpStateModel,
};
use crate::text::{copied, decimal, joined, quoted, quoted_text, strings};

verus! {

/// What is to be done next.
pub enum ReplayAction {
    /// Nothing; the replay goes on.
    Continue,
    /// Find the index of the TUN adapter, if there is one.
    FindIndex,
    /// Find the interface of the default route.
    FindInterface,
    /// Run a command.
    Run {
        program: &'static str,
        args: Vec<String>,
    },
    /// Give up the TUN device.
    DropTun,
    /// The replay is over.
    Finish,
}

/// What came of the last action.
pub enum ReplayEvent {
    Done,
    Index(Option<u32>),
    Interface(Result<String, ClientError>),
    Ran(Result<(), ClientError>),
    Dropped(Result<(), ClientError>),
}

/// Mathematical counterpart of [`ReplayAction`].
pub enum ActionModel {
    Continue,
    FindIndex,
    FindInterface,
    Run(Seq<char>, Seq<Seq<char>>),
    DropTun,
    Finish,
}

/// Mathematical counterpart of [`ReplayEvent`].
pub enum EventModel {
    Done,
    Index(Option<u32>),
    Interface(Result<Seq<char>, ClientFault>),
    Ran(Result<(), ClientFault>),
    Dropped(Result<(), ClientFault>),
}

impl View for ReplayAction {
    type V = ActionModel;

    open spec fn view(&self) -> ActionModel {
        match *self {
            ReplayAction::Continue => ActionModel::Continue,
            ReplayAction::FindIndex => ActionModel::FindIndex,
            ReplayAction::FindInterface => ActionModel::FindInterface,
            ReplayAction::Run { program, args } => ActionModel::Run(program@, strings(args@)),
            ReplayAction::DropTun => ActionModel::DropTun,
            ReplayAction::Finish => ActionModel::Finish,
        }
    }
}

impl View for ReplayEvent {
    type V = EventModel;

    open spec fn view(&self) -> EventModel {
        match *self {
            ReplayEvent::Done => EventModel::Done,
            ReplayEvent::Index(n) => EventModel::Index(n),
            ReplayEvent::Interface(r) => EventModel::Interface(
                match r {
                    Ok(name) => Ok(name@),
                    Err(e) => Err(e@),
                },
            ),
            ReplayEvent::Ran(r) => EventModel::Ran(outcome(r)),
            ReplayEvent::Dropped(r) => EventModel::Dropped(outcome(r)),
        }
    }
}

/// How far the present step has come.
pub enum WorkModel {
    Start,
    /// Routes of the default are deleted: the next one, and the last failure.
    Deleting(Option<u32>, int, Result<(), ClientFault>),
    /// A route is removed.
    Removing(Seq<Seq<char>>),
    /// Resolvers are set on an interface: the next one, and the failures.
    Resolving(Seq<char>, int, Seq<Seq<char>>),
}

/// What a replay knows.
#[verifier::ext_equal]
pub struct ReplayModel {
    pub state: UpStateModel,
    /// The steps that are left, the present one first.
    pub plan: Seq<RestoreModel>,
    pub work: WorkModel,
    pub issues: Seq<Seq<char>>,
}

/// The routes of the default: the halves of the address space, and the whole of it,
/// which older tunnels used.
pub open spec fn default_routes() -> Seq<Seq<char>> {
    seq!["0.0.0.0/1"@, "128.0.0.0/1"@, "0.0.0.0/0"@]
}

/// The arguments of `route` that delete a route of the default.
pub open spec fn default_deletion(i: int, ifindex: Option<u32>) -> Result<
    Seq<Seq<char>>,
    ClientFault,
> {
    route_args("delete"@, default_routes()[i], spec_virtual_dns_ip().spec_text(), ifindex)
}

/// A list of quoted texts, with commas.
pub open spec fn quoted_list(list: Seq<Seq<char>>) -> Seq<char>
    decreases list.len(),
{
    if list.len() == 0 {
        Seq::empty()
    } else if list.len() == 1 {
        quoted_text(list[0])
    } else {
        quoted_list(list.drop_last()) + ", "@ + quoted_text(list.last())
    }
}

/// How a step is written.
pub open spec fn op_text(op: RestoreModel) -> Seq<char> {
    match op {
        RestoreModel::RemoveDefaultViaTun => "RemoveDefaultViaTun"@,
        RestoreModel::RemovePinnedRoute(dest) => "RemovePinnedRoute("@ + quoted_text(dest) + ")"@,
        RestoreModel::TunDown(name) => "TunDown("@ + quoted_text(name) + ")"@,
        RestoreModel::RestoreDns(servers) => "RestoreDns(["@ + quoted_list(servers) + "])"@,
    }
}

/// What is known after the present step came to an end.
pub open spec fn ended(m: ReplayModel, r: Result<(), ClientFault>) -> ReplayModel {
    ReplayModel {
        plan: m.plan.skip(1),
        work: WorkModel::Start,
        issues: match r {
            Ok(_) => m.issues,
            Err(fault) => m.issues.push(op_text(m.plan[0]) + ": "@ + client_text(fault)),
        },
        ..m
    }
}

/// What is known after the present step was given up with an issue.
pub open spec fn skipped(m: ReplayModel, issue: Seq<char>) -> ReplayModel {
    ReplayModel {
        plan: m.plan.skip(1),
        work: WorkModel::Start,
        issues: m.issues.push(issue),
        ..m
    }
}

/// What is to be done next.
pub open spec fn action(m: ReplayModel) -> ActionModel {
    if m.plan.len() == 0 {
        ActionModel::Finish
    } else {
        match (m.plan[0], m.work) {
            (RestoreModel::RemoveDefaultViaTun, WorkModel::Start) => if m.state.tun_ifindex is Some {
                ActionModel::Continue
            } else {
                ActionModel::FindIndex
            },
            (RestoreModel::TunDown(_), WorkModel::Start) => ActionModel::DropTun,
            (RestoreModel::RestoreDns(_), WorkModel::Start) => if m.state.dns_iface.len() > 0 {
                ActionModel::Continue
            } else {
                ActionModel::FindInterface
            },
            (_, WorkModel::Deleting(ifindex, i, _)) => if 0 <= i < 3 {
                match default_deletion(i, ifindex) {
                    Ok(args) => ActionModel::Run("route"@, args),
                    Err(_) => ActionModel::Continue,
                }
            } else {
                ActionModel::Continue
            },
            (_, WorkModel::Removing(args)) => ActionModel::Run("route"@, args),
            (RestoreModel::RestoreDns(servers), WorkModel::Resolving(iface, i, _)) => if 0 <= i
                < servers.len() {
                ActionModel::Run("netsh"@, dns_step(iface, servers, i))
            } else {
                ActionModel::Continue
            },
            _ => ActionModel::Continue,
        }
    }
}

/// Whether an event tells what came of an action.
pub open spec fn answers(event: EventModel, act: ActionModel) -> bool {
    match act {
        ActionModel::Continue => event is Done,
        ActionModel::FindIndex => event is Index,
        ActionModel::FindInterface => event is Interface,
        ActionModel::Run(_, _) => event is Ran,
        ActionModel::DropTun => event is Dropped,
        ActionModel::Finish => false,
    }
}

/// What is known after the removal of a route was looked into: it goes via the
/// gateway that the route was added with.
pub open spec fn removal(m: ReplayModel, dest: Seq<char>) -> ReplayModel {
    match gateway_of(m.state.snapshot) {
        None => skipped(m, "no previous gateway for "@ + dest),
        Some(via) => match as_block(dest) {
            None => skipped(m, "skip unparsable route "@ + dest),
            Some(cidr) => match route_args("delete"@, cidr, via.spec_text(), None) {
                Err(fault) => ended(m, Err(fault)),
                Ok(args) => ReplayModel { work: WorkModel::Removing(args), ..m },
            },
        },
    }
}

/// What is known after the last action, given what came of it.
pub open spec fn told(m: ReplayModel, event: EventModel) -> ReplayModel {
    match (m.plan[0], m.work) {
        (RestoreModel::RemoveDefaultViaTun, WorkModel::Start) => ReplayModel {
            work: WorkModel::Deleting(
                match event {
                    EventModel::Index(n) => n,
                    _ => m.state.tun_ifindex,
                },
                0,
                Ok(()),
            ),
            ..m
        },
        (RestoreModel::RemovePinnedRoute(dest), WorkModel::Start) => removal(m, dest),
        (RestoreModel::TunDown(_), WorkModel::Start) => match event {
            EventModel::Dropped(r) => ended(m, r),
            _ => m,
        },
        (RestoreModel::RestoreDns(_), WorkModel::Start) => match event {
            EventModel::Interface(Err(fault)) => ended(m, Err(fault)),
            EventModel::Interface(Ok(iface)) => ReplayModel {
                work: WorkModel::Resolving(iface, 0, Seq::empty()),
                ..m
            },
            _ => ReplayModel {
                work: WorkModel::Resolving(m.state.dns_iface, 0, Seq::empty()),
                ..m
            },
        },
        (_, WorkModel::Deleting(ifindex, i, last)) => if 0 <= i < 3 {
            let next = match default_deletion(i, ifindex) {
                Err(fault) => Err(fault),
                Ok(_) => match event {
                    EventModel::Ran(Err(fault)) => Err(fault),
                    _ => last,
                },
            };
            ReplayModel { work: WorkModel::Deleting(ifindex, i + 1, next), ..m }
        } else {
            ended(m, last)
        },
        (_, WorkModel::Removing(_)) => match event {
            EventModel::Ran(r) => ended(m, r),
            _ => m,
        },
        (RestoreModel::RestoreDns(servers), WorkModel::Resolving(iface, i, failures)) => if 0 <= i
            < servers.len() {
            ReplayModel {
                work: WorkModel::Resolving(
                    iface,
                    i + 1,
                    match event {
                        EventModel::Ran(Err(fault)) => failures.push(
                            "dns "@ + servers[i] + ": "@ + client_text(fault),
                        ),
                        _ => failures,
                    },
                ),
                ..m
            }
        } else {
            ended(m, issues_outcome(failures))
        },
        _ => m,
    }
}

/// A replay before its first step.
pub open spec fn fresh_replay(state: UpStateModel) -> ReplayModel {
    ReplayModel {
        state,
        plan: rollback(state.applied),
        work: WorkModel::Start,
        issues: Seq::empty(),
    }
}

enum Work {
    Start,
    Deleting(Option<u32>, usize, Result<(), ClientError>),
    Removing(Vec<String>),
    Resolving(String, usize, Vec<String>),
}

impl Work {
    spec fn model(self) -> WorkModel {
        match self {
            Work::Start => WorkModel::Start,
            Work::Deleting(ifindex, i, last) => WorkModel::Deleting(
                ifindex,
                i as int,
                outcome(last),
            ),
            Work::Removing(args) => WorkModel::Removing(strings(args@)),
            Work::Resolving(iface, i, failures) => WorkModel::Resolving(
                iface@,
                i as int,
                strings(failures@),
            ),
        }
    }

    /// Whether the work belongs to the step.
    spec fn fits(self, op: RestoreModel) -> bool {
        match self {
            Work::Start => true,
            Work::Deleting(_, i, _) => op is RemoveDefaultViaTun && i <= 3,
            Work::Removing(_) => op is RemovePinnedRoute,
            Work::Resolving(_, i, _) => op matches RestoreModel::RestoreDns(servers) && i
                <= servers.len(),
        }
    }
}

/// What steps stand for.
pub open spec fn ops_of(plan: Seq<RestoreOp>) -> Seq<RestoreModel> {
    plan.map_values(|op: RestoreOp| op@)
}

/// The replay of a state.
pub struct Replay {
    state: UpState,
    plan: Vec<RestoreOp>,
    at: usize,
    work: Work,
    issues: Vec<String>,
}

impl View for Replay {
    type V = ReplayModel;

    closed spec fn view(&self) -> ReplayModel {
        ReplayModel {
            state: self.state@,
            plan: ops_of(self.plan@).skip(self.at as int),
            work: self.work.model(),
            issues: strings(self.issues@),
        }
    }
}

fn quote_list(list: &Vec<String>) -> (r: String)
    ensures
        r@ == quoted_list(strings(list@)),
{
    let ghost all = strings(list@);
    let mut r = String::new();
    let mut i: usize = 0;
    assert(r@ =~= Seq::<char>::empty());
    assert(all.take(0) =~= Seq::<Seq<char>>::empty());
    while i < list.len()
        invariant
            0 <= i <= list@.len(),
            all == strings(list@),
            r@ == quoted_list(all.take(i as int)),
        decreases list@.len() - i,
    {
        let ghost next = all.take(i + 1);
        let ghost held = r@;
        assert(next.drop_last() =~= all.take(i as int));
        assert(next.last() == list@[i as int]@);
        if i > 0 {
            r.append(", ");
        }
        r.append(quoted(list[i].as_str()).as_str());
        proof {
            if i == 0 {
                assert(r@ =~= quoted_text(next[0]));
            }
        }
        i += 1;
    }
    assert(all.take(i as int) =~= all);
    r
}

fn op_name(op: &RestoreOp) -> (r: String)
    ensures
        r@ == op_text(op@),
{
    match op {
        RestoreOp::RemoveDefaultViaTun => "RemoveDefaultViaTun".to_owned(),
        RestoreOp::RemovePinnedRoute(dest) => {
            let mut r = joined("RemovePinnedRoute(", quoted(dest.as_str()).as_str());
            r.append(")");
            r
        },
        RestoreOp::TunDown(name) => {
            let mut r = joined("TunDown(", quoted(name.as_str()).as_str());
            r.append(")");
            r
        },
        RestoreOp::RestoreDns(servers) => {
            let mut r = joined("RestoreDns([", quote_list(servers).as_str());
            r.append("])");
            r
        },
    }
}

fn default_delete_args(i: usize, ifindex: Option<u32>) -> (r: Result<Vec<String>, ClientError>)
    requires
        i < 3,
    ensures
        args_of(r) == default_deletion(i as int, ifindex),
{
    let dest = if i == 0 {
        "0.0.0.0/1"
    } else if i == 1 {
        "128.0.0.0/1"
    } else {
        "0.0.0.0/0"
    };
    assert(dest@ == default_routes()[i as int]);
    let gateway = virtual_dns_ip().to_text();
    match ifindex {
        Some(n) => route_delete_if_args(dest, gateway.as_str(), n),
        None => route_delete_args(dest, gateway.as_str()),
    }
}

impl Replay {
    /// Whether the replay is in one of its states.
    pub closed spec fn wf(&self) -> bool {
        &&& self.at <= self.plan@.len()
        &&& self.at < self.plan@.len() ==> self.work.fits(self.plan@[self.at as int]@)
        &&& self.at == self.plan@.len() ==> self.work is Start
    }

    /// The replay of a state, from its last change on.
    pub fn new(state: &UpState) -> (r: Self)
        ensures
            r.wf(),
            r@ == fresh_replay(state@),
    {
        let plan = rollback_plan(state.applied.as_slice());
        let r = Replay {
            state: copied_state(state),
            plan,
            at: 0,
            work: Work::Start,
            issues: Vec::new(),
        };
        assert(r@.plan =~= rollback(state@.applied));
        assert(r@ =~= fresh_replay(state@));
        r
    }

    /// What is to be done next.
    pub fn next(&self) -> (r: ReplayAction)
        requires
            self.wf(),
        ensures
            r@ == action(self@),
    {
        if self.at >= self.plan.len() {
            return ReplayAction::Finish;
        }
        let op = &self.plan[self.at];
        assert(self@.plan[0] == op@);
        match &self.work {
            Work::Start => match op {
                RestoreOp::RemoveDefaultViaTun => if self.state.tun_ifindex.is_some() {
                    ReplayAction::Continue
                } else {
                    ReplayAction::FindIndex
                },
                RestoreOp::RemovePinnedRoute(_) => ReplayAction::Continue,
                RestoreOp::TunDown(_) => ReplayAction::DropTun,
                RestoreOp::RestoreDns(_) => if self.state.dns_iface.as_str().is_empty() {
                    ReplayAction::FindInterface
                } else {
                    ReplayAction::Continue
                },
            },
            Work::Deleting(ifindex, i, _) => if *i < 3 {
                match default_delete_args(*i, *ifindex) {
                    Ok(args) => ReplayAction::Run { program: "route", args },
                    Err(_) => ReplayAction::Continue,
                }
            } else {
                ReplayAction::Continue
            },
            Work::Removing(args) => ReplayAction::Run { program: "route", args: copied(args) },
            Work::Resolving(iface, i, _) => match op {
                RestoreOp::RestoreDns(servers) => if *i < servers.len() {
                    ReplayAction::Run {
                        program: "netsh",
                        args: dns_step_args(iface.as_str(), servers, *i),
                    }
                } else {
                    ReplayAction::Continue
                },
                _ => ReplayAction::Continue,
            },
        }
    }

    fn note(&mut self, issue: String)
        requires
            old(self).wf(),
            old(self).at < old(self).plan@.len(),
        ensures
            final(self).wf(),
            final(self)@ == skipped(old(self)@, issue@),
    {
        let ghost before = self.issues@;
        let count: usize = self.plan.len();
        assert(self.at < count);
        self.issues.push(issue);
        self.work = Work::Start;
        self.at = self.at + 1;
        proof {
            assert(strings(self.issues@) =~= strings(before).push(issue@));
            assert(self@.plan =~= old(self)@.plan.skip(1));
            assert(self@ =~= skipped(old(self)@, issue@));
        }
    }

    fn end(&mut self, r: Result<(), ClientError>)
        requires
            old(self).wf(),
            old(self).at < old(self).plan@.len(),
        ensures
            final(self).wf(),
            final(self)@ == ended(old(self)@, outcome(r)),
    {
        assert(self@.plan[0] == self.plan@[self.at as int]@);
        match r {
            Ok(_) => {
                let count: usize = self.plan.len();
                assert(self.at < count);
                self.work = Work::Start;
                self.at = self.at + 1;
                proof {
                    assert(self@.plan =~= old(self)@.plan.skip(1));
                    assert(self@ =~= ended(old(self)@, Ok(())));
                }
            },
            Err(e) => {
                let mut issue = op_name(&self.plan[self.at]);
                issue.append(": ");
                issue.append(e.message().as_str());
                self.note(issue);
            },
        }
    }

    fn look_into(&mut self, dest: &str)
        requires
            old(self).wf(),
            old(self).at < old(self).plan@.len(),
            old(self)@.plan[0] is RemovePinnedRoute,
        ensures
            final(self).wf(),
            final(self)@ == removal(old(self)@, dest@),
    {
        assert(self@.plan[0] == self.plan@[self.at as int]@);
        let via = match previous_gateway(&self.state.snapshot) {
            Some(via) => via,
            None => {
                self.note(joined("no previous gateway for ", dest));
                return;
            },
        };
        let cidr = match block_of(dest) {
            Some(cidr) => cidr,
            None => {
                self.note(joined("skip unparsable route ", dest));
                return;
            },
        };
        match route_delete_args(cidr.as_str(), via.to_text().as_str()) {
            Ok(args) => {
                self.work = Work::Removing(args);
                assert(self@ =~= removal(old(self)@, dest@));
            },
            Err(e) => {
                self.end(Err(e));
            },
        }
    }

    /// Takes note of what came of the last action.
    pub fn report(&mut self, event: ReplayEvent)
        requires
            old(self).wf(),
            answers(event@, action(old(self)@)),
        ensures
            final(self).wf(),
            final(self)@ == told(old(self)@, event@),
    {
        let ghost m = self@;
        assert(self.at < self.plan@.len());
        assert(m.plan[0] == self.plan@[self.at as int]@);
        let mut work = Work::Start;
        std::mem::swap(&mut work, &mut self.work);
        match work {
            Work::Start => match &self.plan[self.at] {
                RestoreOp::RemoveDefaultViaTun => {
                    let ifindex = match event {
                        ReplayEvent::Index(n) => n,
                        _ => self.state.tun_ifindex,
                    };
                    self.work = Work::Deleting(ifindex, 0, Ok(()));
                    assert(self@ =~= told(m, event@));
                },
                RestoreOp::RemovePinnedRoute(dest) => {
                    let dest = dest.clone();
                    self.look_into(dest.as_str());
                },
                RestoreOp::TunDown(_) => {
                    if let ReplayEvent::Dropped(r) = event {
                        self.end(r);
                    }
                },
                RestoreOp::RestoreDns(_) => {
                    let iface = match event {
                        ReplayEvent::Interface(Err(e)) => {
                            self.end(Err(e));
                            return;
                        },
                        ReplayEvent::Interface(Ok(iface)) => iface,
                        _ => self.state.dns_iface.clone(),
                    };
                    self.work = Work::Resolving(iface, 0, Vec::new());
                    assert(strings(Seq::<String>::empty()) =~= Seq::<Seq<char>>::empty());
                    assert(self@ =~= told(m, event@));
                },
            },
            Work::Deleting(ifindex, i, last) => if i < 3 {
                let next = match default_delete_args(i, ifindex) {
                    Err(e) => Err(e),
                    Ok(_) => match event {
                        ReplayEvent::Ran(Err(e)) => Err(e),
                        _ => last,
                    },
                };
                self.work = Work::Deleting(ifindex, i + 1, next);
                assert(self@ =~= told(m, event@));
            } else {
                self.end(last);
                assert(self@ =~= told(m, event@));
            },
            Work::Removing(_) => {
                if let ReplayEvent::Ran(r) = event {
                    self.end(r);
                }
                assert(self@ =~= told(m, event@));
            },
            Work::Resolving(iface, i, failures) => {
                let mut failures = failures;
                let count: usize = match &self.plan[self.at] {
                    RestoreOp::RestoreDns(servers) => servers.len(),
                    _ => 0,
                };
                if i < count {
                    if let ReplayEvent::Ran(Err(e)) = event {
                        let mut issue = match &self.plan[self.at] {
                            RestoreOp::RestoreDns(servers) => joined("dns ", servers[i].as_str()),
                            _ => String::new(),
                        };
                        issue.append(": ");
                        issue.append(e.message().as_str());
                        let ghost before = failures@;
                        failures.push(issue);
                        assert(strings(failures@) =~= strings(before).push(issue@));
                    }
                    self.work = Work::Resolving(iface, i + 1, failures);
                    assert(self@ =~= told(m, event@));
                } else {
                    self.end(sum_up(&failures));
                    assert(self@ =~= told(m, event@));
                }
            },
        }
    }

    /// What the replay amounts to.
    pub fn outcome(&self) -> (r: Result<(), ClientError>)
        ensures
            outcome(r) == issues_outcome(self@.issues),
    {
        sum_up(&self.issues)
    }
}

/// The actions that a step takes at most.
pub open spec fn cost(op: RestoreModel) -> nat {
    match op {
        RestoreModel::RemoveDefaultViaTun => 5,
        RestoreModel::RemovePinnedRoute(_) => 2,
        RestoreModel::TunDown(_) => 1,
        RestoreModel::RestoreDns(servers) => servers.len() + 2,
    }
}

/// The actions that steps take at most.
pub open spec fn costs(plan: Seq<RestoreModel>) -> nat
    decreases plan.len(),
{
    if plan.len() == 0 {
        0
    } else {
        cost(plan[0]) + costs(plan.skip(1))
    }
}

/// The actions that are left at most.
pub open spec fn left(m: ReplayModel) -> int {
    if m.plan.len() == 0 {
        0
    } else {
        costs(m.plan.skip(1)) + match m.work {
            WorkModel::Start => cost(m.plan[0]) as int,
            WorkModel::Deleting(_, i, _) => 4 - i,
            WorkModel::Removing(_) => 1,
            WorkModel::Resolving(_, i, _) => match m.plan[0] {
                RestoreModel::RestoreDns(servers) => servers.len() + 1 - i,
                _ => 0,
            },
        }
    }
}

/// Whether the work belongs to the present step.
pub open spec fn on_course(m: ReplayModel) -> bool {
    m.plan.len() > 0 ==> match m.work {
        WorkModel::Start => true,
        WorkModel::Deleting(_, i, _) => m.plan[0] is RemoveDefaultViaTun && 0 <= i <= 3,
        WorkModel::Removing(_) => m.plan[0] is RemovePinnedRoute,
        WorkModel::Resolving(_, i, _) => m.plan[0] matches RestoreModel::RestoreDns(servers) && 0
            <= i <= servers.len(),
    }
}

/// A replay comes to an end: whatever comes of an action, fewer are left.
pub proof fn replay_comes_to_an_end(m: ReplayModel, event: EventModel)
    requires
        on_course(m),
        answers(event, action(m)),
    ensures
        on_course(told(m, event)),
        0 <= left(told(m, event)) < left(m),
{
    let rest = m.plan.skip(1);
    if rest.len() > 0 {
        assert(costs(rest) == cost(rest[0]) + costs(rest.skip(1)));
    }
}

/// A failure of one step does not keep the others from being tried: a step that
/// comes to an end is followed by the next one, whatever its outcome.
pub proof fn failures_do_not_stop_the_replay(m: ReplayModel, r: Result<(), ClientFault>)
    ensures
        ended(m, r).plan == m.plan.skip(1),
        ended(m, r).work is Start,
        r is Err ==> ended(m, r).issues.len() == m.issues.len() + 1,
{
}

/// A replay undoes every change of the state, the last one first, whatever the state says else.
pub proof fn replays_undo_the_last_change_first(state: UpStateModel)
    ensures
        fresh_replay(state).plan == rollback(state.applied),
        fresh_replay(state).plan.len() == state.applied.len(),
        fresh_replay(state).state == state,
        fresh_replay(state).issues.len() == 0,
        state.applied.len() == 0 ==> action(fresh_replay(state)) is Finish,
{
}

/// A route is removed by the words that added it: the block of its destination, via the
/// gateway that was the default one before. What comes of that ends the step, and a failure is
/// listed. Without a gateway the step is listed as an issue.
pub proof fn routes_are_removed_via_the_previous_gateway(
    m: ReplayModel,
    base: Ipv4Addr,
    prefix: u8,
    r: Result<(), ClientFault>,
)
    requires
        m.plan.len() > 0,
        m.work is Start,
        prefix <= 32,
        m.plan[0] == RestoreModel::RemovePinnedRoute(
            base.spec_text().push('/') + decimal(prefix as nat),
        ),
    ensures
        action(m) is Continue,
        match gateway_of(m.state.snapshot) {
            Some(via) => {
                let next = told(m, EventModel::Done);
                &&& action(next) matches ActionModel::Run(program, args) && {
                    &&& program == "route"@
                    &&& args.len() == 5
                    &&& args[0] == "delete"@
                    &&& args[1] == base.spec_text()
                    &&& args[2] == "mask"@
                    &&& Ok::<Seq<char>, ClientFault>(args[3]) == mask_text(prefix)
                    &&& args[4] == via.spec_text()
                }
                &&& next.plan == m.plan
                &&& told(next, EventModel::Ran(r)).plan == m.plan.skip(1)
                &&& told(next, EventModel::Ran(r)).work is Start
                &&& r is Ok ==> told(next, EventModel::Ran(r)).issues == m.issues
                &&& r is Err ==> told(next, EventModel::Ran(r)).issues.len() == m.issues.len() + 1
            },
            None => {
                &&& told(m, EventModel::Done).plan == m.plan.skip(1)
                &&& told(m, EventModel::Done).issues.len() == m.issues.len() + 1
            },
        },
{
    let dest = base.spec_text().push('/') + decimal(prefix as nat);
    assert(dest[base.spec_text().len() as int] == '/');
    assert(dest.contains('/'));
    if let Some(via) = gateway_of(m.state.snapshot) {
        route_words("delete"@, base, prefix, via, None);
    }
}

/// The default route is taken out of the device by deleting the two halves of the address
/// space and the whole of it, one after the other whatever comes of each, via the resolver of
/// the tunnel and on the interface that the state names or that was found.
pub proof fn default_routes_are_deleted_one_by_one(
    m: ReplayModel,
    ifindex: Option<u32>,
    i: int,
    last: Result<(), ClientFault>,
    r: Result<(), ClientFault>,
)
    requires
        m.plan.len() > 0,
        m.plan[0] is RemoveDefaultViaTun,
        m.work == WorkModel::Deleting(ifindex, i, last),
        0 <= i < 3,
    ensures
        action(m) matches ActionModel::Run(program, args) && {
            &&& program == "route"@
            &&& args[0] == "delete"@
            &&& args[1] == Ipv4Addr::spec_new(
                if i == 1 {
                    128
                } else {
                    0
                },
                0,
                0,
                0,
            ).spec_text()
            &&& Ok::<Seq<char>, ClientFault>(args[3]) == mask_text(
                if i == 2 {
                    0
                } else {
                    1
                },
            )
            &&& args[4] == Ipv4Addr::spec_new(10, 255, 0, 1).spec_text()
            &&& ifindex matches Some(n) ==> args.len() == 7 && args[5] == "if"@ && args[6]
                == decimal(n as nat)
            &&& ifindex is None ==> args.len() == 5
        },
        told(m, EventModel::Ran(r)).work matches WorkModel::Deleting(index, next, _) && index
            == ifindex && next == i + 1,
        told(m, EventModel::Ran(r)).plan == m.plan,
{
    lemma_half_texts();
    let via = spec_virtual_dns_ip();
    let base = Ipv4Addr::spec_new(
        if i == 1 {
            128
        } else {
            0
        },
        0,
        0,
        0,
    );
    route_words(
        "delete"@,
        base,
        if i == 2 {
            0
        } else {
            1
        },
        via,
        ifindex,
    );
}

/// Which interface the deletion is bound to: the one of the state, and only where it names
/// none, the one that is found.
pub proof fn kept_index_is_preferred(m: ReplayModel, found: Option<u32>)
    requires
        m.plan.len() > 0,
        m.plan[0] is RemoveDefaultViaTun,
        m.work is Start,
    ensures
        m.state.tun_ifindex is Some ==> action(m) is Continue && (told(
            m,
            EventModel::Done,
        ).work matches WorkModel::Deleting(index, i, _) && index == m.state.tun_ifindex && i == 0),
        m.state.tun_ifindex is None ==> action(m) is FindIndex && (told(
            m,
            EventModel::Index(found),
        ).work matches WorkModel::Deleting(index, i, _) && index == found && i == 0),
{
}

/// Resolvers are set again on the interface of the state, or on the one that is found where it
/// names none: all of them, in order, whatever comes of each.
pub proof fn resolvers_are_restored_in_order(
    m: ReplayModel,
    servers: Seq<Seq<char>>,
    iface: Seq<char>,
    i: int,
    failures: Seq<Seq<char>>,
    r: Result<(), ClientFault>,
)
    requires
        m.plan.len() > 0,
        m.plan[0] == RestoreModel::RestoreDns(servers),
    ensures
        m.work is Start && m.state.dns_iface.len() > 0 ==> action(m) is Continue && told(
            m,
            EventModel::Done,
        ).work == WorkModel::Resolving(m.state.dns_iface, 0, Seq::empty()),
        m.work is Start && m.state.dns_iface.len() == 0 ==> action(m) is FindInterface && told(
            m,
            EventModel::Interface(Ok(iface)),
        ).work == WorkModel::Resolving(iface, 0, Seq::empty()),
        m.work == WorkModel::Resolving(iface, i, failures) && 0 <= i < servers.len() ==> {
            &&& action(m) == ActionModel::Run("netsh"@, dns_step(iface, servers, i))
            &&& told(m, EventModel::Ran(r)).work matches WorkModel::Resolving(name, next, list)
                && name == iface && next == i + 1 && list.len() == failures.len() + (if r is Err {
                1int
            } else {
                0int
            })
        },
        m.work == WorkModel::Resolving(iface, i, failures) && i >= servers.len() ==> {
            &&& told(m, EventModel::Done).plan == m.plan.skip(1)
            &&& failures.len() == 0 ==> told(m, EventModel::Done).issues == m.issues
            &&& failures.len() > 0 ==> told(m, EventModel::Done).issues.len() == m.issues.len() + 1
        },
{
}

/// The device is given up once, and what comes of that ends the step.
pub proof fn device_is_given_up(m: ReplayModel, name: Seq<char>, r: Result<(), ClientFault>)
    requires
        m.plan.len() > 0,
        m.plan[0] == RestoreModel::TunDown(name),
        m.work is Start,
    ensures
        action(m) is DropTun,
        told(m, EventModel::Dropped(r)).plan == m.plan.skip(1),
        r is Ok ==> told(m, EventModel::Dropped(r)).issues == m.issues,
        r is Err ==> told(m, EventModel::Dropped(r)).issues.len() == m.issues.len() + 1,
{
}

} // verus!
