//! Raising the destination's privilege in a room to that of the acting
//! account.

use crate::snapshot::{MemberLookup, MemberRecord};
use vstd::prelude::*;

verus! {

/// What the acting session sees of one room before privileges are compared.
#[derive(Clone, Copy, Debug)]
pub struct PrivilegeObservation {
    /// Whether the acting session is in the room at all.
    pub resolved: bool,
    /// What looking the acting account up in the room gave.
    pub acting: MemberLookup,
    /// What looking the target account up in the room gave.
    pub target: MemberLookup,
}

/// What to do about the target's privilege in one room.
#[derive(Clone, Copy, Debug, PartialEq, Eq, Structural)]
pub enum EqualizeDecision {
    /// The acting session is not in the room: nothing to do.
    SkipUnresolved,
    /// The acting account has no membership record: skip with a warning.
    SkipActingUnknown,
    /// The target account has no membership record yet: skip with a warning.
    SkipTargetUnknown,
    /// The target is at or above the acting account's level.
    Sufficient,
    /// A dry run that would otherwise raise the target to `level`.
    WouldRaise { level: i64 },
    /// Raise the target to `level`.
    Raise { level: i64 },
}

impl EqualizeDecision {
    /// Whether the decision asks for a call that changes the room.
    pub open spec fn mutating(self) -> bool {
        self is Raise
    }

    /// Whether the decision asks for a call that changes the room.
    pub fn is_mutating(&self) -> (yes: bool)
        ensures
            yes == self.mutating(),
    {
        match self {
            EqualizeDecision::Raise { .. } => true,
            _ => false,
        }
    }
}

impl PrivilegeObservation {
    /// The acting account's level, if the room has a record of it.
    pub open spec fn acting_level(self) -> Option<i64> {
        self.acting.level()
    }

    /// The target account's level, if the room has a record of it.
    pub open spec fn target_level(self) -> Option<i64> {
        self.target.level()
    }
}

/// The decision for one room: the first missing piece decides the skip, a
/// target at or above the acting level needs nothing, and otherwise the
/// target is to be raised to exactly the acting level. A record counts
/// whatever its state, so that an invited target can be raised before it
/// joins; a lookup that failed counts as no record.
pub open spec fn equalize_decision(seen: PrivilegeObservation, dry_run: bool) -> EqualizeDecision {
    if !seen.resolved {
        EqualizeDecision::SkipUnresolved
    } else if seen.acting_level() is None {
        EqualizeDecision::SkipActingUnknown
    } else if seen.target_level() is None {
        EqualizeDecision::SkipTargetUnknown
    } else if seen.target_level()->0 >= seen.acting_level()->0 {
        EqualizeDecision::Sufficient
    } else if dry_run {
        EqualizeDecision::WouldRaise { level: seen.acting_level()->0 }
    } else {
        EqualizeDecision::Raise { level: seen.acting_level()->0 }
    }
}

/// What the room looks like once a decision has been carried out with
/// success.
pub open spec fn after_equalize(
    seen: PrivilegeObservation,
    decision: EqualizeDecision,
) -> PrivilegeObservation {
    match decision {
        EqualizeDecision::Raise { level } => PrivilegeObservation {
            resolved: seen.resolved,
            acting: seen.acting,
            target: match seen.target {
                MemberLookup::Found(member) => MemberLookup::Found(
                    MemberRecord { state: member.state, level },
                ),
                other => other,
            },
        },
        _ => seen,
    }
}

/// Decides what to do about the target's privilege in one room.
pub fn decide_equalize(seen: PrivilegeObservation, dry_run: bool) -> (decision: EqualizeDecision)
    ensures
        decision == equalize_decision(seen, dry_run),
{
    if !seen.resolved {
        return EqualizeDecision::SkipUnresolved;
    }
    let acting = match seen.acting.recorded_level() {
        Some(level) => level,
        None => {
            return EqualizeDecision::SkipActingUnknown;
        },
    };
    let target = match seen.target.recorded_level() {
        Some(level) => level,
        None => {
            return EqualizeDecision::SkipTargetUnknown;
        },
    };
    if target >= acting {
        EqualizeDecision::Sufficient
    } else if dry_run {
        EqualizeDecision::WouldRaise { level: acting }
    } else {
        EqualizeDecision::Raise { level: acting }
    }
}

/// Equalizing is idempotent: in a room whose target is at or above the acting
/// level nothing is asked for, and once a decision has been carried out a
/// second look at the same room asks for no change.
pub proof fn law_equalize_idempotent(seen: PrivilegeObservation, dry_run: bool)
    ensures
        seen.resolved && seen.acting_level() is Some && seen.target_level() is Some
            && seen.target_level()->0 >= seen.acting_level()->0 ==> equalize_decision(
            seen,
            dry_run,
        ) == EqualizeDecision::Sufficient,
        !equalize_decision(
            after_equalize(seen, equalize_decision(seen, dry_run)),
            dry_run,
        ).mutating(),
        equalize_decision(seen, dry_run).mutating() ==> equalize_decision(
            after_equalize(seen, equalize_decision(seen, dry_run)),
            dry_run,
        ) == EqualizeDecision::Sufficient,
{
}

/// A dry run never asks for a change, and a raise is only ever to the acting
/// account's own level, which is above the target's.
pub proof fn law_equalize_safe(seen: PrivilegeObservation, dry_run: bool)
    ensures
        dry_run ==> !equalize_decision(seen, dry_run).mutating(),
        equalize_decision(seen, dry_run) matches EqualizeDecision::Raise { level } ==> {
            &&& !dry_run
            &&& seen.acting_level() == Some(level)
            &&& seen.target_level() is Some
            &&& seen.target_level()->0 < level
        },
{
}

} // verus!
