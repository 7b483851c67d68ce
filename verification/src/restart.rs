//! The restart signal: a flag that a `/restart` command raises and that the main
//! loop consumes after the bot stops.
use vstd::prelude::*;

verus! {

/// What taking the request answers, and the flag after it.
pub open spec fn taken(flag: bool) -> (bool, bool) {
    (flag, false)
}

/// Request a graceful restart: raise the flag.
pub fn request_restart(flag: &mut bool)
    ensures
        *final(flag),
{
    *flag = true;
}

/// Check and clear the flag: whether a restart was requested since the flag was
/// last consumed.
pub fn take_restart_request(flag: &mut bool) -> (r: bool)
    ensures
        (r, *final(flag)) == taken(*old(flag)),
{
    let r = *flag;
    *flag = false;
    r
}

/// A requested restart is seen by the next check, and by that check only: the
/// check after it answers `false` unless a restart is requested again.
pub proof fn law_restart_taken_once(flag: bool)
    ensures
        taken(true).0,
        !taken(taken(true).1).0,
        !taken(taken(flag).1).0,
{
}

} // verus!
