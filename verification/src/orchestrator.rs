//! The order of the phases of one run, and what the run reports at its end.

use crate::convergence::{
    law_dry_run_single_round, law_settled_needs_no_round, ConvergenceLoop, LoopEvent, LoopState,
};
use crate::invite::{accept_decision, invite_decision, InviteObservation};
use crate::leave::{
    law_leave_never_strands, leave_decision, LeaveEvent, LeaveObservation, LeaveState,
};
use crate::privilege::{equalize_decision, PrivilegeObservation};
use crate::reconcile::MigrationPlan;
use crate::room::RoomSet;
use crate::snapshot::MembershipState;
use vstd::prelude::*;

verus! {

/// The errors that end a run at once.
#[derive(Clone, Copy, Debug, PartialEq, Eq, Structural)]
pub enum FatalError {
    /// One of the two accounts could not be logged in.
    Login,
    /// The first synchronization failed, or what it delivered could not be
    /// compared.
    InitialSync,
}

/// Where a run stands. Each phase names what the driver is to do and report
/// on next.
#[derive(Clone, Copy, Debug, PartialEq, Eq, Structural)]
pub enum RunPhase {
    /// Log the source account in.
    LoginSource,
    /// Log the destination account in.
    LoginDestination,
    /// Synchronize both sessions for the first time.
    InitialSync,
    /// Compare the two snapshots and make the plan.
    Reconcile,
    /// Carry out the work that `converge_work` hands out: equalize privileges
    /// in the shared rooms and run the invitations to convergence.
    Converge,
    /// Wait for a fresh snapshot of the destination before any room is left.
    Resync,
    /// Let the source leave the rooms that the destination has taken over.
    Leave,
    /// Log both accounts out.
    Logout,
    /// The run has ended in good order.
    Done,
    /// The run has ended on a fatal error.
    Aborted(FatalError),
}

/// How the work of a phase ended.
#[derive(Clone, Copy, Debug, PartialEq, Eq, Structural)]
pub enum RunEvent {
    /// The phase did its work.
    Succeeded,
    /// The phase could not do its work.
    Failed,
}

impl RunPhase {
    /// Whether calls that change rooms may be made in this phase.
    pub open spec fn mutates(self) -> bool {
        self is Converge || self is Leave
    }

    /// Whether the run has come as far as changing rooms.
    pub open spec fn begun(self) -> bool {
        self is Converge || self is Resync || self is Leave || self is Logout || self is Done
    }

    /// Whether the run has ended.
    pub open spec fn ended(self) -> bool {
        self is Done || self is Aborted
    }

    /// The phase that follows when the work of this one ended with `event`.
    ///
    /// Only a login, the first synchronization and the comparison of its
    /// snapshots can end the run. A convergence that did its work is followed
    /// by the leave phase where the operator asked for it, behind a fresh
    /// snapshot; without that snapshot no room is left. Nothing that happens
    /// later keeps the run from logging out.
    pub open spec fn next(self, leave_rooms: bool, event: RunEvent) -> RunPhase {
        match (self, event) {
            (RunPhase::LoginSource, RunEvent::Succeeded) => RunPhase::LoginDestination,
            (RunPhase::LoginSource, RunEvent::Failed) => RunPhase::Aborted(FatalError::Login),
            (RunPhase::LoginDestination, RunEvent::Succeeded) => RunPhase::InitialSync,
            (RunPhase::LoginDestination, RunEvent::Failed) => RunPhase::Aborted(
                FatalError::Login,
            ),
            (RunPhase::InitialSync, RunEvent::Succeeded) => RunPhase::Reconcile,
            (RunPhase::InitialSync, RunEvent::Failed) => RunPhase::Aborted(
                FatalError::InitialSync,
            ),
            (RunPhase::Reconcile, RunEvent::Succeeded) => RunPhase::Converge,
            (RunPhase::Reconcile, RunEvent::Failed) => RunPhase::Aborted(FatalError::InitialSync),
            (RunPhase::Converge, RunEvent::Succeeded) => if leave_rooms {
                RunPhase::Resync
            } else {
                RunPhase::Logout
            },
            (RunPhase::Converge, RunEvent::Failed) => RunPhase::Logout,
            (RunPhase::Resync, RunEvent::Succeeded) => RunPhase::Leave,
            (RunPhase::Resync, RunEvent::Failed) => RunPhase::Logout,
            (RunPhase::Leave, _) => RunPhase::Logout,
            (RunPhase::Logout, _) => RunPhase::Done,
            (RunPhase::Done, _) => RunPhase::Done,
            (RunPhase::Aborted(error), _) => RunPhase::Aborted(error),
        }
    }

    /// The phase after a sequence of events.
    pub open spec fn run(self, leave_rooms: bool, events: Seq<RunEvent>) -> RunPhase
        decreases events.len(),
    {
        if events.len() == 0 {
            self
        } else {
            self.run(leave_rooms, events.drop_last()).next(leave_rooms, events.last())
        }
    }

    /// The exit status of a run that ended in this phase: zero in good order,
    /// one after a fatal error.
    pub open spec fn status(self) -> Option<u8> {
        match self {
            RunPhase::Done => Some(0u8),
            RunPhase::Aborted(_) => Some(1u8),
            _ => None,
        }
    }
}

/// Leads one run through its phases.
#[derive(Clone, Copy, Debug)]
pub struct Orchestrator {
    phase: RunPhase,
    leave_rooms: bool,
}

impl Orchestrator {
    /// Where the run stands.
    pub closed spec fn current(&self) -> RunPhase {
        self.phase
    }

    /// Whether the source is to leave the migrated rooms.
    pub closed spec fn leaves(&self) -> bool {
        self.leave_rooms
    }

    /// A run that has not begun.
    pub fn new(leave_rooms: bool) -> (run: Orchestrator)
        ensures
            run.current() == RunPhase::LoginSource,
            run.leaves() == leave_rooms,
    {
        Orchestrator { phase: RunPhase::LoginSource, leave_rooms }
    }

    /// Where the run stands.
    pub fn phase(&self) -> (phase: RunPhase)
        ensures
            phase == self.current(),
    {
        self.phase
    }

    /// Takes in how the current phase ended and tells which one follows.
    pub fn step(&mut self, event: RunEvent) -> (phase: RunPhase)
        ensures
            phase == old(self).current().next(old(self).leaves(), event),
            final(self).current() == phase,
            final(self).leaves() == old(self).leaves(),
    {
        let failed = match event {
            RunEvent::Failed => true,
            RunEvent::Succeeded => false,
        };
        let next = match self.phase {
            RunPhase::LoginSource => if failed {
                RunPhase::Aborted(FatalError::Login)
            } else {
                RunPhase::LoginDestination
            },
            RunPhase::LoginDestination => if failed {
                RunPhase::Aborted(FatalError::Login)
            } else {
                RunPhase::InitialSync
            },
            RunPhase::InitialSync => if failed {
                RunPhase::Aborted(FatalError::InitialSync)
            } else {
                RunPhase::Reconcile
            },
            RunPhase::Reconcile => if failed {
                RunPhase::Aborted(FatalError::InitialSync)
            } else {
                RunPhase::Converge
            },
            RunPhase::Converge => if !failed && self.leave_rooms {
                RunPhase::Resync
            } else {
                RunPhase::Logout
            },
            RunPhase::Resync => if failed {
                RunPhase::Logout
            } else {
                RunPhase::Leave
            },
            RunPhase::Leave => RunPhase::Logout,
            RunPhase::Logout => RunPhase::Done,
            RunPhase::Done => RunPhase::Done,
            RunPhase::Aborted(error) => RunPhase::Aborted(error),
        };
        self.phase = next;
        next
    }

    /// The exit status, once the run has ended.
    pub fn exit_code(&self) -> (code: Option<u8>)
        ensures
            code == self.current().status(),
    {
        match self.phase {
            RunPhase::Done => Some(0),
            RunPhase::Aborted(_) => Some(1),
            _ => None,
        }
    }
}

/// The work of the convergence phase: two pieces that the driver carries out
/// side by side.
#[derive(Debug)]
pub struct ConvergeWork {
    /// The rooms that both accounts know already, in which the destination's
    /// privilege is to be equalized.
    pub equalize: RoomSet,
    /// The loop that invites the destination and has it accept.
    pub invitations: ConvergenceLoop,
}

/// Hands out the work of the convergence phase for a plan: the shared rooms
/// for a pass of the equalizer, and the loop of invitations before its first
/// step.
pub fn converge_work(plan: &MigrationPlan, dry_run: bool) -> (work: ConvergeWork)
    ensures
        work.equalize@ == plan.shared_view(),
        work.invitations@ == LoopState::initial(plan.invite_view(), plan.accept_view(), dry_run),
{
    ConvergeWork {
        equalize: plan.already_shared().clone(),
        invitations: ConvergenceLoop::new(plan, dry_run),
    }
}

/// What a run reports at its end.
#[derive(Debug)]
pub struct MigrationReport {
    /// How many rooms both accounts knew from the start.
    pub already_shared: usize,
    /// How many invitations the destination accepted.
    pub accepted: usize,
    /// To how many rooms an invitation was sent.
    pub invited: usize,
    /// The rooms still waiting for the destination's acceptance.
    pub pending: Vec<String>,
    /// The rooms to which no invitation could be sent.
    pub failed: Vec<String>,
}

/// Sums a run up from its plan and from where its invitations ended.
pub fn summarize(plan: &MigrationPlan, convergence: &ConvergenceLoop) -> (report: MigrationReport)
    ensures
        report.already_shared == plan.shared_view().len(),
        report.accepted == convergence@.accepted.len(),
        report.invited == convergence@.invited.len(),
        report.pending@.len() == convergence@.pending.len(),
        forall|i: int|
            0 <= i < report.pending@.len() ==> (#[trigger] report.pending@[i])@
                == convergence@.pending[i],
        report.failed@.len() == convergence@.failed.len(),
        forall|i: int|
            0 <= i < report.failed@.len() ==> (#[trigger] report.failed@[i])@
                == convergence@.failed[i],
{
    MigrationReport {
        already_shared: plan.already_shared().len(),
        accepted: convergence.accepted().len(),
        invited: convergence.invited().len(),
        pending: convergence.pending().to_strings(),
        failed: convergence.failed().to_strings(),
    }
}

/// A run that has come as far as changing rooms stays there: it ends in good
/// order and never on a fatal error.
proof fn lemma_begun_stays(from: RunPhase, leave_rooms: bool, events: Seq<RunEvent>)
    requires
        from.begun(),
    ensures
        from.run(leave_rooms, events).begun(),
    decreases events.len(),
{
    if events.len() > 0 {
        lemma_begun_stays(from, leave_rooms, events.drop_last());
    }
}

/// Running the events up to `k` and then the rest is running them all.
proof fn lemma_run_split(from: RunPhase, leave_rooms: bool, events: Seq<RunEvent>, k: int)
    requires
        0 <= k <= events.len(),
    ensures
        from.run(leave_rooms, events) == from.run(leave_rooms, events.take(k)).run(
            leave_rooms,
            events.skip(k),
        ),
    decreases events.len() - k,
{
    if k == events.len() {
        assert(events.take(k) =~= events);
        assert(events.skip(k) =~= Seq::<RunEvent>::empty());
    } else {
        let front = events.drop_last();
        lemma_run_split(from, leave_rooms, front, k);
        assert(front.take(k) =~= events.take(k));
        assert(events.skip(k).drop_last() =~= front.skip(k));
        assert(events.skip(k).last() == events.last());
    }
}

/// A run is aborted only by a failed login, a failed first synchronization or
/// snapshots that cannot be compared, and only before any phase that changes
/// rooms: in a run that ends aborted, no phase up to then was one in which
/// rooms are changed.
pub proof fn law_abort_precedes_mutation(leave_rooms: bool, events: Seq<RunEvent>, k: int)
    requires
        0 <= k <= events.len(),
        RunPhase::LoginSource.run(leave_rooms, events) is Aborted,
    ensures
        !RunPhase::LoginSource.run(leave_rooms, events.take(k)).mutates(),
        !RunPhase::LoginSource.run(leave_rooms, events.take(k)).begun(),
{
    let at_k = RunPhase::LoginSource.run(leave_rooms, events.take(k));
    lemma_run_split(RunPhase::LoginSource, leave_rooms, events, k);
    if at_k.begun() {
        lemma_begun_stays(at_k, leave_rooms, events.skip(k));
    }
}

/// One step aborts a run only from a login, from the first synchronization or
/// from the comparison of its snapshots, and only when that phase failed; an
/// ended run stays as it ended.
pub proof fn law_fatal_points(phase: RunPhase, leave_rooms: bool, event: RunEvent)
    ensures
        phase.next(leave_rooms, event) is Aborted && !(phase is Aborted) ==> event
            == RunEvent::Failed && (phase is LoginSource || phase is LoginDestination
            || phase is InitialSync || phase is Reconcile),
        phase.ended() ==> phase.next(leave_rooms, event) == phase,
        phase.next(leave_rooms, event) is Leave ==> phase is Resync && event
            == RunEvent::Succeeded,
{
}

/// No room is left, and no snapshot is waited for to that end, unless the
/// operator asked for rooms to be left.
pub proof fn law_leave_on_request(leave_rooms: bool, events: Seq<RunEvent>)
    ensures
        ({
            let phase = RunPhase::LoginSource.run(leave_rooms, events);
            phase is Resync || phase is Leave ==> leave_rooms
        }),
    decreases events.len(),
{
    if events.len() > 0 {
        law_leave_on_request(leave_rooms, events.drop_last());
    }
}

/// A dry run changes nothing: whatever is observed, no invitation is sent
/// or accepted, no privilege is raised and no room is left or marked; the
/// supervisor of the leave phase only ever asks for observations; and the
/// loop of invitations never waits for a snapshot.
pub proof fn law_dry_run_changes_nothing(
    privilege: PrivilegeObservation,
    invite: InviteObservation,
    membership: MembershipState,
    leave: LeaveObservation,
    rooms: Seq<Seq<char>>,
    leave_events: Seq<LeaveEvent>,
    to_invite: Seq<Seq<char>>,
    to_accept: Seq<Seq<char>>,
    loop_events: Seq<LoopEvent>,
)
    ensures
        !equalize_decision(privilege, true).mutating(),
        !invite_decision(invite, true).mutating(),
        !accept_decision(membership, true).mutating(),
        !leave_decision(leave, true).mutating(),
        ({
            let awaited = LeaveState::initial(rooms, true).run(leave_events).awaited();
            awaited is Observe || awaited is Finish
        }),
        !(LoopState::initial(to_invite, to_accept, true).run(loop_events).awaited()
            is AwaitResync),
{
    law_leave_never_strands(rooms, true, leave_events);
    if to_invite.len() > 0 || to_accept.len() > 0 {
        law_dry_run_single_round(to_invite, to_accept, loop_events);
    } else {
        law_settled_needs_no_round(true, loop_events);
        assert(to_invite =~= Seq::<Seq<char>>::empty());
        assert(to_accept =~= Seq::<Seq<char>>::empty());
    }
}

} // verus!
