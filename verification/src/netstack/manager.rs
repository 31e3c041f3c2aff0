//! Lifecycle of the network stack.

use vstd::prelude::*;

use crate::netstack::tun::{config_fault, no_driver, TunInterface};
use crate::netstack::{NetstackError, NetstackFault, DEFAULT_MTU};

verus! {

#[derive(Clone, Copy, Debug, PartialEq, Eq, Structural)]
enum State {
    Down,
    Up,
}

/// Whether the stack is up, and its MTU.
#[derive(Debug)]
pub struct NetstackManager {
    state: State,
    /// MTU.
    pub mtu: usize,
}

impl NetstackManager {
    /// Whether the stack is up.
    pub closed spec fn spec_is_up(&self) -> bool {
        self.state == State::Up
    }

    /// The MTU.
    pub closed spec fn spec_mtu(&self) -> usize {
        self.mtu
    }

    /// A manager of a stack that is down.
    pub fn bring_down_state() -> (r: Self)
        ensures
            !r.spec_is_up(),
            r.spec_mtu() == DEFAULT_MTU,
    {
        NetstackManager { state: State::Down, mtu: DEFAULT_MTU }
    }

    /// Brings the stack up, where there is no driver: the probe fails and nothing
    /// changes.
    pub fn bring_up(&mut self, mtu: usize) -> (r: Result<(), NetstackError>)
        ensures
            r matches Err(e) && e@ == probe_fault(),
            *final(self) == *old(self),
    {
        self.bring_up_probed(mtu, NetstackManager::probe_privilege("aether0"))
    }

    /// Brings the stack up after a device was opened as a probe, with outcome
    /// `probed`. A device that opens is not configured yet, so this fails as well;
    /// nothing is applied by halves, and the MTU stays.
    pub fn bring_up_probed(&mut self, _mtu: usize, probed: Result<(), NetstackError>) -> (r: Result<
        (),
        NetstackError,
    >)
        ensures
            r matches Err(e) && e@ == (match probed {
                Ok(_) => NetstackFault::InterfaceNotConfigured,
                Err(fault) => fault@,
            }),
            *final(self) == *old(self),
    {
        match probed {
            Ok(_) => Err(NetstackError::InterfaceNotConfigured),
            Err(e) => Err(e),
        }
    }

    /// Whether the stack is up.
    pub fn is_up(&self) -> (r: bool)
        ensures
            r == self.spec_is_up(),
    {
        self.state == State::Up
    }

    /// Takes the stack down; nothing to do where it is down.
    pub fn down(&mut self) -> (r: Result<(), NetstackError>)
        ensures
            r is Ok,
            !final(self).spec_is_up(),
            final(self).spec_mtu() == old(self).spec_mtu(),
    {
        self.state = State::Down;
        Ok(())
    }

    /// Whether this process can open a TUN device, where there is no driver.
    fn probe_privilege(name: &str) -> (r: Result<(), NetstackError>)
        ensures
            r matches Err(e) && e@ == (match config_fault(name@, 1400) {
                Some(fault) => fault,
                None => no_driver(),
            }),
    {
        match TunInterface::open(name) {
            Ok(_) => Ok(()),
            Err(e) => Err(e),
        }
    }
}

/// What the probe of the device `aether0` reports.
pub open spec fn probe_fault() -> NetstackFault {
    match config_fault("aether0"@, 1400) {
        Some(fault) => fault,
        None => no_driver(),
    }
}

} // verus!
