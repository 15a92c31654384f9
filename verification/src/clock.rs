//! The `time` syscall: reports the number of seconds since the Unix epoch
//! and stores it where the caller asked.

use vstd::prelude::*;

verus! {

/// Returns the current timestamp `now`, as the clock source read it, and
/// writes it into `tloc` when the caller passed a location.
pub fn time(tloc: &mut Option<u32>, now: u32) -> (r: u32)
    ensures
        r == now,
        (*old(tloc)) is Some ==> *final(tloc) == Some(now),
        (*old(tloc)) is None ==> *final(tloc) == Option::<u32>::None,
{
    match tloc {
        Some(t) => {
            *t = now;
        },
        None => {},
    }
    now
}

} // verus!
