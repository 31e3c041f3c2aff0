//! Cleaning up after a crash.
//!
//! The changes that are kept are undone and dropped. Without any there is nothing
//! to do, and what cannot be read is dropped, so that recovery never gets stuck.

use vstd::prelude::*;

use crate::client::platform::{Platform, PlatformCall};
use crate::client::ClientError;

verus! {

/// Whether the calls clean up: nothing where no state is kept, else the state is
/// read, its changes are undone where it could be read, and it is dropped.
pub open spec fn cleans_up(calls: Seq<PlatformCall>) -> bool {
    &&& calls.len() > 0
    &&& match calls[0] {
        PlatformCall::StateExists(false) => calls.len() == 1,
        PlatformCall::StateExists(true) => {
            &&& calls.len() > 1
            &&& match calls[1] {
                PlatformCall::LoadState(Ok(state)) => {
                    &&& calls.len() == 4
                    &&& calls[2] is RestoreApplied
                    &&& calls[2]->RestoreApplied_0 == state
                    &&& calls[3] is RemoveState
                },
                PlatformCall::LoadState(Err(_)) => calls.len() == 3 && calls[2] is RemoveState,
                _ => false,
            }
        },
        _ => false,
    }
}

/// Undoes the changes that are kept, and drops them. Doing it twice is safe, and
/// the result is always `Ok`.
pub fn force_cleanup<P: Platform>(platform: &mut P) -> (r: Result<(), ClientError>)
    ensures
        r is Ok,
        old(platform).history().is_prefix_of(final(platform).history()),
        cleans_up(final(platform).history().skip(old(platform).history().len() as int)),
        forall|o: P| old(platform).follows(o) ==> #[trigger] final(platform).follows(o),
{
    let ghost start = platform.history().len() as int;
    if !platform.state_exists() {
        assert(platform.history().skip(start).len() == 1);
        return Ok(());
    }
    if let Ok(state) = platform.load_state() {
        let _ = platform.restore_applied(&state);
    }
    let _ = platform.remove_state();
    let ghost calls = platform.history().skip(start);
    assert(calls.len() == 4 || calls.len() == 3);
    Ok(())
}

/// Cleaning up changes the network by nothing but undoing what was kept: where a state is kept,
/// it is dropped at the end, and before that its changes are undone where it could be read.
/// Where none is kept, nothing is done.
pub proof fn cleanup_undoes_what_was_kept(calls: Seq<PlatformCall>)
    requires
        cleans_up(calls),
    ensures
        calls[0] is StateExists,
        calls[0] == PlatformCall::StateExists(false) ==> calls.len() == 1,
        calls[0] == PlatformCall::StateExists(true) ==> {
            &&& calls.last() is RemoveState
            &&& calls[1] is LoadState
            &&& calls[1] matches PlatformCall::LoadState(Ok(state)) ==> (calls[2] matches
                PlatformCall::RestoreApplied(s, _) && s == state)
            &&& calls[1] matches PlatformCall::LoadState(Err(_)) ==> forall|i: int|
                0 <= i < calls.len() ==> !((#[trigger] calls[i]) is RestoreApplied)
        },
        forall|i: int|
            0 <= i < calls.len() ==> !(#[trigger] calls[i] is TunUp) && !(calls[i] is PinRoute)
                && !(calls[i] is AddRoute) && !(calls[i] is DefaultViaTun) && !(
            calls[i] is ForceDns),
{
}

} // verus!
