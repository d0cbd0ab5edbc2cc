//! Phase handshake decisions.
//!
//! The device advances a phase register each time it finishes filling a
//! buffer half. The host polls that register at a fixed interval until it
//! observes a value strictly greater than the phase it last handled, or
//! until a soft timeout elapses; on timeout it adopts the last observed
//! value anyway so that a single missed edge cannot wedge the link. Every
//! adopted phase is then written back to the request register by the
//! driver, which is what keeps one buffer filling while the other drains.

use vstd::prelude::*;

verus! {

/// What to do after one poll of the phase register.
#[derive(Clone, Copy, PartialEq, Eq, Structural, Debug)]
pub enum PhasePoll {
    /// Sleep one poll interval and read the register again.
    Wait,
    /// Adopt `phase` as the new current phase and write it to the request
    /// register; `forced` records that the deadline, not the device,
    /// ended the wait.
    Advance { phase: u32, forced: bool },
}

/// Decide one poll step: advance as soon as the observed phase is
/// strictly beyond the current one; force an advance to the observed
/// value once the timeout has elapsed; otherwise keep waiting.
pub fn poll_decision(current: u32, observed: u32, elapsed_ms: u64, timeout_ms: u64) -> (d:
    PhasePoll)
    ensures
        observed > current ==> d == (PhasePoll::Advance { phase: observed, forced: false }),
        observed <= current && elapsed_ms >= timeout_ms ==> d == (PhasePoll::Advance {
            phase: observed,
            forced: true,
        }),
        observed <= current && elapsed_ms < timeout_ms ==> d == PhasePoll::Wait,
{
    if observed > current {
        PhasePoll::Advance { phase: observed, forced: false }
    } else if elapsed_ms >= timeout_ms {
        PhasePoll::Advance { phase: observed, forced: true }
    } else {
        PhasePoll::Wait
    }
}

} // verus!
