//! Setting up a newborn TUN interface.
//!
//! The system registers a new interface only after a while, so each command is
//! tried several times, with a pause after each failure.

use vstd::prelude::*;
use vstd::string::*;

use crate::client::platform::commands::arg_lists;
use crate::client::platform::outcome;
use crate::client::platform::windows::{
    addr_args, admin_args, iface_admin_args, iface_metric_args, mask_text,
    masks_are_written_as_addresses, metric_args, name_arg, tun_addr_args, TUN_IFACE_METRIC,
};
use crate::client::{client_text, ClientError, ClientFault};
use crate::net::{address_text_round_trip, Ipv4Addr};
use crate::text::{copied, decimal, joined, strings};

verus! {

/// How often a command is tried.
pub const ATTEMPTS: u32 = 10;

/// Milliseconds between two tries.
pub const PAUSE_MS: u64 = 500;

/// Prefix length of the network inside the tunnel.
pub const TUN_PREFIX: u8 = 30;

/// The arguments of `netsh` that set up an interface: it is enabled, gets its
/// metric, and gets its address.
pub open spec fn setup_args(name: Seq<char>, addr: Ipv4Addr) -> Result<
    Seq<Seq<Seq<char>>>,
    ClientFault,
> {
    match (
        admin_args(name, true),
        metric_args(name, TUN_IFACE_METRIC),
        addr_args(name, addr.spec_text(), TUN_PREFIX),
    ) {
        (Ok(a), Ok(b), Ok(c)) => Ok(seq![a, b, c]),
        (Err(fault), _, _) => Err(fault),
        (_, Err(fault), _) => Err(fault),
        (_, _, Err(fault)) => Err(fault),
    }
}

/// What a set-up knows.
#[verifier::ext_equal]
pub struct SetupModel {
    pub name: Seq<char>,
    /// The commands that are left, the present one first.
    pub commands: Seq<Seq<Seq<char>>>,
    /// How often the present command has failed.
    pub tries: nat,
    /// The failure after which there is a pause.
    pub pausing: Option<ClientFault>,
    /// Why the set-up was given up.
    pub given_up: Option<ClientFault>,
}

/// What is to be done next.
pub enum SetupAction {
    /// Run `netsh`.
    Run(Vec<String>),
    /// Wait a little.
    Pause,
    /// The set-up is over.
    Finish,
}

/// Mathematical counterpart of [`SetupAction`].
pub enum SetupActionModel {
    Run(Seq<Seq<char>>),
    Pause,
    Finish,
}

impl View for SetupAction {
    type V = SetupActionModel;

    open spec fn view(&self) -> SetupActionModel {
        match *self {
            SetupAction::Run(args) => SetupActionModel::Run(strings(args@)),
            SetupAction::Pause => SetupActionModel::Pause,
            SetupAction::Finish => SetupActionModel::Finish,
        }
    }
}

/// A set-up before its first command.
pub open spec fn fresh_setup(name: Seq<char>, commands: Seq<Seq<Seq<char>>>) -> SetupModel {
    SetupModel { name, commands, tries: 0, pausing: None, given_up: None }
}

/// What is to be done next.
pub open spec fn action(m: SetupModel) -> SetupActionModel {
    if m.given_up is Some || m.commands.len() == 0 {
        SetupActionModel::Finish
    } else if m.pausing is Some {
        SetupActionModel::Pause
    } else {
        SetupActionModel::Run(m.commands[0])
    }
}

/// What is known after a command ran.
pub open spec fn ran(m: SetupModel, r: Result<(), ClientFault>) -> SetupModel {
    match r {
        Ok(_) => SetupModel { commands: m.commands.skip(1), tries: 0, ..m },
        Err(fault) => SetupModel { tries: m.tries + 1, pausing: Some(fault), ..m },
    }
}

/// What is known after a pause: the command is tried again, unless it was tried
/// often enough.
pub open spec fn paused(m: SetupModel) -> SetupModel {
    match m.pausing {
        None => m,
        Some(fault) => if m.tries >= ATTEMPTS {
            SetupModel {
                pausing: None,
                given_up: Some(
                    ClientFault::PlatformError("tun "@ + m.name + ": "@ + client_text(fault)),
                ),
                ..m
            }
        } else {
            SetupModel { pausing: None, ..m }
        },
    }
}

/// The set-up of an interface.
pub struct Setup {
    name: String,
    commands: Vec<Vec<String>>,
    at: usize,
    tries: u32,
    pausing: Option<ClientError>,
    given_up: Option<ClientError>,
}

/// A fault that may be missing.
pub open spec fn fault_of(e: Option<ClientError>) -> Option<ClientFault> {
    match e {
        Some(e) => Some(e@),
        None => None,
    }
}

impl View for Setup {
    type V = SetupModel;

    closed spec fn view(&self) -> SetupModel {
        SetupModel {
            name: self.name@,
            commands: arg_lists(self.commands@).skip(self.at as int),
            tries: self.tries as nat,
            pausing: fault_of(self.pausing),
            given_up: fault_of(self.given_up),
        }
    }
}

impl Setup {
    /// Whether the set-up is in one of its states.
    pub closed spec fn wf(&self) -> bool {
        &&& self.at <= self.commands@.len()
        &&& self.tries <= ATTEMPTS
        &&& self.tries == ATTEMPTS ==> self.pausing is Some || self.given_up is Some
    }

    /// The set-up of an interface, or what is wrong with its name or address.
    pub fn new(name: &str, addr: Ipv4Addr) -> (r: Result<Self, ClientError>)
        ensures
            match (r, setup_args(name@, addr)) {
                (Ok(s), Ok(commands)) => s.wf() && s@ == fresh_setup(name@, commands),
                (Err(e), Err(fault)) => e@ == fault,
                _ => false,
            },
    {
        let mut commands: Vec<Vec<String>> = Vec::new();
        match iface_admin_args(name, true) {
            Ok(args) => {
                commands.push(args);
            },
            Err(e) => {
                return Err(e);
            },
        }
        match iface_metric_args(name, TUN_IFACE_METRIC) {
            Ok(args) => {
                commands.push(args);
            },
            Err(e) => {
                return Err(e);
            },
        }
        match tun_addr_args(name, addr.to_text().as_str(), TUN_PREFIX) {
            Ok(args) => {
                commands.push(args);
            },
            Err(e) => {
                return Err(e);
            },
        }
        let s = Setup {
            name: name.to_owned(),
            commands,
            at: 0,
            tries: 0,
            pausing: None,
            given_up: None,
        };
        assert(s@.commands =~= setup_args(name@, addr)->Ok_0);
        Ok(s)
    }

    /// What is to be done next.
    pub fn next(&self) -> (r: SetupAction)
        requires
            self.wf(),
        ensures
            r@ == action(self@),
    {
        if self.given_up.is_some() || self.at >= self.commands.len() {
            SetupAction::Finish
        } else if self.pausing.is_some() {
            SetupAction::Pause
        } else {
            assert(self@.commands[0] == strings(self.commands@[self.at as int]@));
            SetupAction::Run(copied(&self.commands[self.at]))
        }
    }

    /// Takes note of what came of a command.
    pub fn command_ran(&mut self, r: Result<(), ClientError>)
        requires
            old(self).wf(),
            action(old(self)@) is Run,
        ensures
            final(self).wf(),
            final(self)@ == ran(old(self)@, outcome(r)),
    {
        match r {
            Ok(_) => {
                let count: usize = self.commands.len();
                assert(self.at < count);
                self.at = self.at + 1;
                self.tries = 0;
                assert(self@.commands =~= old(self)@.commands.skip(1));
            },
            Err(e) => {
                self.tries = self.tries + 1;
                self.pausing = Some(e);
            },
        }
        assert(self@ =~= ran(old(self)@, outcome(r)));
    }

    /// Takes note of a pause.
    pub fn pause_over(&mut self)
        requires
            old(self).wf(),
            action(old(self)@) is Pause,
        ensures
            final(self).wf(),
            final(self)@ == paused(old(self)@),
    {
        let mut failure: Option<ClientError> = None;
        std::mem::swap(&mut failure, &mut self.pausing);
        if let Some(e) = failure {
            if self.tries >= ATTEMPTS {
                let mut m = joined("tun ", self.name.as_str());
                m.append(": ");
                m.append(e.message().as_str());
                self.given_up = Some(ClientError::PlatformError(m));
            }
        }
        assert(self@ =~= paused(old(self)@));
    }

    /// What the set-up amounts to.
    pub fn outcome(self) -> (r: Result<(), ClientError>)
        ensures
            match (r, self@.given_up) {
                (Ok(_), None) => true,
                (Err(e), Some(fault)) => e@ == fault,
                _ => false,
            },
    {
        match self.given_up {
            Some(e) => Err(e),
            None => Ok(()),
        }
    }
}

/// The actions that are left at most.
pub open spec fn left(m: SetupModel) -> int {
    if action(m) is Finish {
        0
    } else {
        m.commands.len() * 22 - 2 * m.tries + if m.pausing is Some {
            1int
        } else {
            0int
        }
    }
}

/// A set-up comes to an end: no command is tried more often than allowed.
pub proof fn setup_comes_to_an_end(m: SetupModel, r: Result<(), ClientFault>)
    requires
        m.tries <= ATTEMPTS,
        m.tries == ATTEMPTS ==> m.pausing is Some || m.given_up is Some,
    ensures
        action(m) is Run ==> 0 <= left(ran(m, r)) < left(m) && ran(m, r).tries <= ATTEMPTS,
        action(m) is Pause ==> 0 <= left(paused(m)) < left(m),
{
}

/// A new interface is enabled, gets its metric and then its address, with a mask for the
/// network inside the tunnel; each is asked for by the name of the interface.
pub proof fn interfaces_are_enabled_before_they_get_an_address(name: Seq<char>, addr: Ipv4Addr)
    ensures
        name.len() == 0 ==> setup_args(name, addr) is Err,
        name.len() > 0 ==> (setup_args(name, addr) matches Ok(list) && {
            &&& list.len() == 3
            &&& list[0].contains("admin=enabled"@)
            &&& list[1].contains("metric="@ + decimal(5))
            &&& list[2].contains("address="@ + addr.spec_text())
            &&& mask_text(30) matches Ok(mask) && list[2].contains("mask="@ + mask)
            &&& forall|i: int|
                0 <= i < 3 ==> (#[trigger] list[i]).contains("name=\""@ + name + "\""@)
        }),
{
    address_text_round_trip(addr);
    masks_are_written_as_addresses(30);
    if name.len() > 0 {
        let list = setup_args(name, addr)->Ok_0;
        assert(list[0][4] == "admin=enabled"@ && list[0][3] == name_arg(name));
        assert(list[1][5] == "metric="@ + decimal(5) && list[1][4] == name_arg(name));
        assert(list[2][6] == "address="@ + addr.spec_text() && list[2][4] == name_arg(name));
        assert(list[2][7] == "mask="@ + mask_text(30)->Ok_0);
    }
}

/// Commands are run one after the other: the next one once this one succeeded, and the same
/// one again after a failure and a pause, ten times at most. The set-up succeeds only where
/// every command did.
pub proof fn commands_are_tried_ten_times(m: SetupModel, r: Result<(), ClientFault>)
    requires
        m.given_up is None,
        m.pausing is None,
        m.commands.len() > 0,
    ensures
        action(m) == SetupActionModel::Run(m.commands[0]),
        r is Ok ==> ran(m, r).commands == m.commands.skip(1) && ran(m, r).tries == 0 && ran(
            m,
            r,
        ).given_up is None && ran(m, r).pausing is None,
        r is Err ==> {
            let after = ran(m, r);
            &&& action(after) is Pause
            &&& after.commands == m.commands
            &&& after.tries == m.tries + 1
            &&& m.tries + 1 < 10 ==> action(paused(after)) == SetupActionModel::Run(m.commands[0])
                && paused(after).tries == m.tries + 1
            &&& m.tries + 1 >= 10 ==> action(paused(after)) is Finish && paused(
                after,
            ).given_up is Some
        },
        action(SetupModel { commands: Seq::empty(), ..m }) is Finish,
{
}

} // verus!
