//! Spacing out the calls of one batch so that the server is not flooded.

use vstd::prelude::*;

verus! {

/// The seconds to wait before the call for the room at `position` of its
/// batch: one more second every two rooms, and none in a dry run.
pub open spec fn delay_at(position: nat, dry_run: bool) -> nat {
    if dry_run {
        0
    } else {
        position / 2
    }
}

/// The seconds to wait before the call for the room at `position` of its
/// batch.
pub fn throttle_delay(position: usize, dry_run: bool) -> (seconds: u64)
    ensures
        seconds == delay_at(position as nat, dry_run),
{
    if dry_run {
        0
    } else {
        (position / 2) as u64
    }
}

/// A room never waits less than a room before it in the batch, and a dry run
/// waits for none.
pub proof fn law_delay_monotonic(earlier: nat, later: nat, dry_run: bool)
    requires
        earlier <= later,
    ensures
        delay_at(earlier, dry_run) <= delay_at(later, dry_run),
        delay_at(earlier, true) == 0,
{
}

} // verus!
