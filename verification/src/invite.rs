//! Sending an invitation to one room and accepting one.

use crate::snapshot::{MemberLookup, MembershipState};
use vstd::prelude::*;

verus! {

/// What the source session sees of one room before it invites.
#[derive(Clone, Copy, Debug)]
pub struct InviteObservation {
    /// Whether the source session is in the room at all.
    pub resolved: bool,
    /// What looking the destination up in the room gave.
    pub target: MemberLookup,
}

/// What to do about inviting the destination to one room.
#[derive(Clone, Copy, Debug, PartialEq, Eq, Structural)]
pub enum InviteDecision {
    /// The source session is not in the room and cannot invite.
    Refuse,
    /// A dry run that would otherwise invite.
    WouldInvite,
    /// Send the invitation.
    Invite,
}

/// How inviting to one room ended.
#[derive(Clone, Copy, Debug, PartialEq, Eq, Structural)]
pub enum SendOutcome {
    /// The invitation was sent, or a dry run stood in for sending it.
    Invited,
    /// The server turned the invitation down, and the destination was seen
    /// as invited or joined already.
    AlreadyMember,
    /// No invitation could be sent.
    Failed,
}

impl InviteDecision {
    /// Whether the decision asks for a call that changes the room.
    pub open spec fn mutating(self) -> bool {
        self is Invite
    }

    /// Whether the decision asks for a call that changes the room.
    pub fn is_mutating(&self) -> (yes: bool)
        ensures
            yes == self.mutating(),
    {
        match self {
            InviteDecision::Invite => true,
            _ => false,
        }
    }

    /// How the room ended, given what was seen of it and the server's answer
    /// where a call was made (`accepted` is not looked at otherwise). An
    /// invitation that the server turned down has failed, unless the
    /// destination was seen as invited or joined: then none was needed.
    pub open spec fn outcome(self, seen: InviteObservation, accepted: bool) -> SendOutcome {
        match self {
            InviteDecision::Refuse => SendOutcome::Failed,
            InviteDecision::WouldInvite => SendOutcome::Invited,
            InviteDecision::Invite => if accepted {
                SendOutcome::Invited
            } else if seen.target.state() != MembershipState::Absent {
                SendOutcome::AlreadyMember
            } else {
                SendOutcome::Failed
            },
        }
    }

    /// How the room ended, given what was seen of it and the server's answer
    /// where a call was made.
    pub fn conclude(&self, seen: InviteObservation, accepted: bool) -> (outcome: SendOutcome)
        ensures
            outcome == self.outcome(seen, accepted),
    {
        match self {
            InviteDecision::Refuse => SendOutcome::Failed,
            InviteDecision::WouldInvite => SendOutcome::Invited,
            InviteDecision::Invite => {
                if accepted {
                    SendOutcome::Invited
                } else {
                    match seen.target.standing() {
                        MembershipState::Absent => SendOutcome::Failed,
                        _ => SendOutcome::AlreadyMember,
                    }
                }
            },
        }
    }
}

/// The decision for one room: a session outside the room cannot invite, a
/// dry run sends nothing, and otherwise the invitation is sent, whatever is
/// seen of the destination.
pub open spec fn invite_decision(seen: InviteObservation, dry_run: bool) -> InviteDecision {
    if !seen.resolved {
        InviteDecision::Refuse
    } else if dry_run {
        InviteDecision::WouldInvite
    } else {
        InviteDecision::Invite
    }
}

/// Decides what to do about inviting the destination to one room.
pub fn decide_invite(seen: InviteObservation, dry_run: bool) -> (decision: InviteDecision)
    ensures
        decision == invite_decision(seen, dry_run),
{
    if !seen.resolved {
        InviteDecision::Refuse
    } else if dry_run {
        InviteDecision::WouldInvite
    } else {
        InviteDecision::Invite
    }
}

/// What to do about one pending room on the destination's side.
#[derive(Clone, Copy, Debug, PartialEq, Eq, Structural)]
pub enum AcceptDecision {
    /// Accept the invitation.
    Join,
    /// A dry run that would otherwise accept.
    WouldJoin,
    /// The destination has joined already.
    Converged,
    /// Neither an invitation nor a membership is visible yet.
    Wait,
}

/// How accepting in one room ended.
#[derive(Clone, Copy, Debug, PartialEq, Eq, Structural)]
pub enum AcceptOutcome {
    /// The invitation was accepted, or a dry run stood in for accepting it.
    Accepted,
    /// The destination had joined already.
    AlreadyJoined,
    /// Nothing was visible yet: the room stays pending.
    Unresolved,
    /// The server refused the acceptance: the room stays pending.
    Rejected,
}

impl AcceptOutcome {
    /// Whether the room stays pending for the next round.
    pub open spec fn retained(self) -> bool {
        self is Unresolved || self is Rejected
    }

    /// Whether the room stays pending for the next round.
    pub fn is_retained(&self) -> (yes: bool)
        ensures
            yes == self.retained(),
    {
        match self {
            AcceptOutcome::Unresolved => true,
            AcceptOutcome::Rejected => true,
            _ => false,
        }
    }
}

impl AcceptDecision {
    /// Whether the decision asks for a call that changes the room.
    pub open spec fn mutating(self) -> bool {
        self is Join
    }

    /// Whether the decision asks for a call that changes the room.
    pub fn is_mutating(&self) -> (yes: bool)
        ensures
            yes == self.mutating(),
    {
        match self {
            AcceptDecision::Join => true,
            _ => false,
        }
    }

    /// How the room ended, given the server's answer where a call was made
    /// (`accepted` is not looked at otherwise).
    pub open spec fn outcome(self, accepted: bool) -> AcceptOutcome {
        match self {
            AcceptDecision::Join => if accepted {
                AcceptOutcome::Accepted
            } else {
                AcceptOutcome::Rejected
            },
            AcceptDecision::WouldJoin => AcceptOutcome::Accepted,
            AcceptDecision::Converged => AcceptOutcome::AlreadyJoined,
            AcceptDecision::Wait => AcceptOutcome::Unresolved,
        }
    }

    /// How the room ended, given the server's answer where a call was made.
    pub fn conclude(&self, accepted: bool) -> (outcome: AcceptOutcome)
        ensures
            outcome == self.outcome(accepted),
    {
        match self {
            AcceptDecision::Join => if accepted {
                AcceptOutcome::Accepted
            } else {
                AcceptOutcome::Rejected
            },
            AcceptDecision::WouldJoin => AcceptOutcome::Accepted,
            AcceptDecision::Converged => AcceptOutcome::AlreadyJoined,
            AcceptDecision::Wait => AcceptOutcome::Unresolved,
        }
    }
}

/// The decision for one pending room, from the state that the destination's
/// latest snapshot gives it.
pub open spec fn accept_decision(state: MembershipState, dry_run: bool) -> AcceptDecision {
    match state {
        MembershipState::Joined => AcceptDecision::Converged,
        MembershipState::Invited => if dry_run {
            AcceptDecision::WouldJoin
        } else {
            AcceptDecision::Join
        },
        MembershipState::Absent => AcceptDecision::Wait,
    }
}

/// Decides what to do about one pending room on the destination's side.
pub fn decide_accept(state: MembershipState, dry_run: bool) -> (decision: AcceptDecision)
    ensures
        decision == accept_decision(state, dry_run),
{
    match state {
        MembershipState::Joined => AcceptDecision::Converged,
        MembershipState::Invited => if dry_run {
            AcceptDecision::WouldJoin
        } else {
            AcceptDecision::Join
        },
        MembershipState::Absent => AcceptDecision::Wait,
    }
}

/// Outside a dry run an invitation is sent in exactly the rooms that the
/// source session is in, and a dry run neither invites nor accepts. A room
/// leaves the pending rooms only when the destination has joined it or its
/// invitation was accepted. A room counts as failed only when the source
/// session is not in it, or when the server turned the invitation down and
/// the destination was not seen as invited or joined.
pub proof fn law_invite_accept_safe(
    seen: InviteObservation,
    state: MembershipState,
    dry_run: bool,
    accepted: bool,
)
    ensures
        invite_decision(seen, false).mutating() <==> seen.resolved,
        dry_run ==> !invite_decision(seen, dry_run).mutating(),
        dry_run ==> !accept_decision(state, dry_run).mutating(),
        accept_decision(state, dry_run).outcome(accepted).retained() <==> state
            == MembershipState::Absent || (state == MembershipState::Invited && !dry_run
            && !accepted),
        invite_decision(seen, dry_run).outcome(seen, accepted) == SendOutcome::Failed
            <==> !seen.resolved || (seen.target.state() == MembershipState::Absent && !dry_run
            && !accepted),
        invite_decision(seen, dry_run).outcome(seen, accepted) == SendOutcome::AlreadyMember
            <==> seen.resolved && seen.target.state() != MembershipState::Absent && !dry_run
            && !accepted,
{
}

} // verus!
