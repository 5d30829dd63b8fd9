//! The loop that invites the destination and has it accept, round after
//! round, until no room is pending.

use crate::invite::{AcceptOutcome, SendOutcome};
use crate::reconcile::{
    law_joined_everywhere_is_settled, rooms_to_accept, rooms_to_invite, MigrationPlan,
};
use crate::room::{appended, lemma_appended, lemma_picked, picked, RoomSet};
use crate::snapshot::RoomSnapshot;
use vstd::prelude::*;

verus! {

/// What the loop waits for.
#[derive(Clone, Copy, Debug, PartialEq, Eq, Structural)]
pub enum LoopPhase {
    /// The outcomes of sending the invitations.
    Sending,
    /// The outcomes of accepting in the pending rooms.
    Accepting,
    /// The destination's next snapshot.
    AwaitingResync,
    /// Nothing: the loop has ended.
    Finished,
}

/// What the driver reports back.
#[derive(Debug)]
pub enum LoopEvent {
    /// Inviting ended in every room to invite to; one outcome per room, in
    /// the order in which the rooms were handed out.
    SendFinished(Vec<SendOutcome>),
    /// Accepting ended in every pending room; one outcome per room, in the
    /// order in which the rooms were handed out.
    AcceptFinished(Vec<AcceptOutcome>),
    /// A new snapshot of the destination has arrived.
    Resynced,
}

/// What the driver is to do next.
#[derive(Debug)]
pub enum LoopAction {
    /// Invite the destination to each of the rooms.
    SendInvites(RoomSet),
    /// Accept in each pending room, and meanwhile equalize the destination's
    /// privilege in the rooms of `equalize`.
    AcceptInvites { pending: RoomSet, equalize: RoomSet },
    /// Block until the destination's next snapshot.
    AwaitResync,
    /// The loop has ended.
    Finish,
}

/// An action with its rooms given by their identifiers' characters.
pub enum LoopCommand {
    SendInvites(Seq<Seq<char>>),
    AcceptInvites { pending: Seq<Seq<char>>, equalize: Seq<Seq<char>> },
    AwaitResync,
    Finish,
}

impl View for LoopAction {
    type V = LoopCommand;

    open spec fn view(&self) -> LoopCommand {
        match self {
            LoopAction::SendInvites(rooms) => LoopCommand::SendInvites(rooms@),
            LoopAction::AcceptInvites { pending, equalize } => LoopCommand::AcceptInvites {
                pending: pending@,
                equalize: equalize@,
            },
            LoopAction::AwaitResync => LoopCommand::AwaitResync,
            LoopAction::Finish => LoopCommand::Finish,
        }
    }
}

/// For each outcome of sending, whether it equals `failed` that the room
/// failed.
pub open spec fn send_marks(outcomes: Seq<SendOutcome>, failed: bool) -> Seq<bool> {
    Seq::new(outcomes.len(), |i: int| (outcomes[i] == SendOutcome::Failed) == failed)
}

/// For each outcome of sending, whether an invitation was sent.
pub open spec fn invited_marks(outcomes: Seq<SendOutcome>) -> Seq<bool> {
    Seq::new(outcomes.len(), |i: int| outcomes[i] == SendOutcome::Invited)
}

/// For each outcome of accepting, whether the room stays pending.
pub open spec fn retained_marks(outcomes: Seq<AcceptOutcome>) -> Seq<bool> {
    Seq::new(outcomes.len(), |i: int| outcomes[i].retained())
}

/// For each outcome of accepting, whether the invitation was accepted.
pub open spec fn accepted_marks(outcomes: Seq<AcceptOutcome>) -> Seq<bool> {
    Seq::new(outcomes.len(), |i: int| outcomes[i] == AcceptOutcome::Accepted)
}

/// One more round, up to the largest number that the counter holds.
pub open spec fn next_round(rounds: nat) -> nat {
    if rounds < u64::MAX {
        rounds + 1
    } else {
        rounds
    }
}

/// The loop's state as plain values.
pub struct LoopState {
    /// What the loop waits for.
    pub phase: LoopPhase,
    /// Whether this is a dry run.
    pub dry_run: bool,
    /// The rooms to invite to.
    pub to_send: Seq<Seq<char>>,
    /// The rooms to invite to in which inviting did not fail: the destination
    /// was invited, or was seen there already.
    pub reachable: Seq<Seq<char>>,
    /// The rooms to which an invitation was sent in this run.
    pub invited: Seq<Seq<char>>,
    /// The rooms that await the destination's acceptance.
    pub pending: Seq<Seq<char>>,
    /// The rooms to which no invitation could be sent.
    pub failed: Seq<Seq<char>>,
    /// The rooms whose invitation the destination accepted in this run.
    pub accepted: Seq<Seq<char>>,
    /// How many rounds have been completed.
    pub rounds: nat,
}

impl LoopState {
    /// The state before anything was done. With nothing to invite to and
    /// nothing to accept the loop has ended before it began.
    pub open spec fn initial(
        to_invite: Seq<Seq<char>>,
        to_accept: Seq<Seq<char>>,
        dry_run: bool,
    ) -> LoopState {
        LoopState {
            phase: if to_invite.len() > 0 {
                LoopPhase::Sending
            } else if to_accept.len() > 0 {
                LoopPhase::Accepting
            } else {
                LoopPhase::Finished
            },
            dry_run,
            to_send: to_invite,
            reachable: Seq::empty(),
            invited: Seq::empty(),
            pending: to_accept,
            failed: Seq::empty(),
            accepted: Seq::empty(),
            rounds: 0,
        }
    }

    /// The state at the end of a round: the loop ends if no room is pending
    /// or the run is a dry run, and waits for the next snapshot otherwise.
    pub open spec fn round_done(self) -> LoopState {
        LoopState {
            rounds: next_round(self.rounds),
            phase: if self.pending.len() == 0 || self.dry_run {
                LoopPhase::Finished
            } else {
                LoopPhase::AwaitingResync
            },
            ..self
        }
    }

    /// The state after an event.
    ///
    /// Outcomes of sending move the failed rooms to the failed ones and the
    /// others to the reachable and the pending ones, and note the rooms to
    /// which an invitation was sent; with no room pending the
    /// round is over at once. Outcomes of accepting keep the unresolved and
    /// the rejected rooms pending, note the accepted ones, and end the round.
    /// A new snapshot starts the next round of accepting. An event that does
    /// not answer what is awaited, or that has not one outcome per room,
    /// changes nothing.
    pub open spec fn step(self, event: LoopEvent) -> LoopState {
        match (self.phase, event) {
            (LoopPhase::Sending, LoopEvent::SendFinished(outcomes)) => {
                if outcomes@.len() == self.to_send.len() {
                    let reachable = picked(self.to_send, send_marks(outcomes@, false));
                    let sent = LoopState {
                        phase: LoopPhase::Accepting,
                        reachable,
                        invited: picked(self.to_send, invited_marks(outcomes@)),
                        pending: appended(self.pending, reachable),
                        failed: appended(
                            self.failed,
                            picked(self.to_send, send_marks(outcomes@, true)),
                        ),
                        ..self
                    };
                    if sent.pending.len() == 0 {
                        sent.round_done()
                    } else {
                        sent
                    }
                } else {
                    self
                }
            },
            (LoopPhase::Accepting, LoopEvent::AcceptFinished(outcomes)) => {
                if outcomes@.len() == self.pending.len() {
                    LoopState {
                        pending: picked(self.pending, retained_marks(outcomes@)),
                        accepted: appended(
                            self.accepted,
                            picked(self.pending, accepted_marks(outcomes@)),
                        ),
                        ..self
                    }.round_done()
                } else {
                    self
                }
            },
            (LoopPhase::AwaitingResync, LoopEvent::Resynced) => LoopState {
                phase: LoopPhase::Accepting,
                ..self
            },
            _ => self,
        }
    }

    /// What the driver is to do in this state. Privileges are equalized in
    /// the first round only, in the rooms in which inviting did not fail.
    pub open spec fn awaited(self) -> LoopCommand {
        match self.phase {
            LoopPhase::Sending => LoopCommand::SendInvites(self.to_send),
            LoopPhase::Accepting => LoopCommand::AcceptInvites {
                pending: self.pending,
                equalize: if self.rounds == 0 {
                    self.reachable
                } else {
                    Seq::empty()
                },
            },
            LoopPhase::AwaitingResync => LoopCommand::AwaitResync,
            LoopPhase::Finished => LoopCommand::Finish,
        }
    }

    /// The state after a sequence of events.
    pub open spec fn run(self, events: Seq<LoopEvent>) -> LoopState
        decreases events.len(),
    {
        if events.len() == 0 {
            self
        } else {
            self.run(events.drop_last()).step(events.last())
        }
    }
}

/// Drives the invitations of one run to convergence.
#[derive(Debug)]
pub struct ConvergenceLoop {
    phase: LoopPhase,
    dry_run: bool,
    to_send: RoomSet,
    reachable: RoomSet,
    invited: RoomSet,
    pending: RoomSet,
    failed: RoomSet,
    accepted: RoomSet,
    rounds: u64,
}

impl View for ConvergenceLoop {
    type V = LoopState;

    closed spec fn view(&self) -> LoopState {
        LoopState {
            phase: self.phase,
            dry_run: self.dry_run,
            to_send: self.to_send@,
            reachable: self.reachable@,
            invited: self.invited@,
            pending: self.pending@,
            failed: self.failed@,
            accepted: self.accepted@,
            rounds: self.rounds as nat,
        }
    }
}

/// Marks the outcomes of sending whose failure equals `failed`.
fn mark_sent(outcomes: &Vec<SendOutcome>, failed: bool) -> (marks: Vec<bool>)
    ensures
        marks@ == send_marks(outcomes@, failed),
{
    let mut marks: Vec<bool> = Vec::new();
    let mut i: usize = 0;
    while i < outcomes.len()
        invariant
            i <= outcomes.len(),
            marks@.len() == i,
            forall|j: int| 0 <= j < i ==> marks@[j] == ((outcomes@[j] == SendOutcome::Failed) == failed),
        decreases outcomes.len() - i,
    {
        let is_failed = match outcomes[i] {
            SendOutcome::Failed => true,
            _ => false,
        };
        marks.push(is_failed == failed);
        i += 1;
    }
    assert(marks@ =~= send_marks(outcomes@, failed));
    marks
}

/// Marks the outcomes of sending that are sent invitations.
fn mark_invited(outcomes: &Vec<SendOutcome>) -> (marks: Vec<bool>)
    ensures
        marks@ == invited_marks(outcomes@),
{
    let mut marks: Vec<bool> = Vec::new();
    let mut i: usize = 0;
    while i < outcomes.len()
        invariant
            i <= outcomes.len(),
            marks@.len() == i,
            forall|j: int| 0 <= j < i ==> marks@[j] == (outcomes@[j] == SendOutcome::Invited),
        decreases outcomes.len() - i,
    {
        let is_invited = match outcomes[i] {
            SendOutcome::Invited => true,
            _ => false,
        };
        marks.push(is_invited);
        i += 1;
    }
    assert(marks@ =~= invited_marks(outcomes@));
    marks
}

/// Marks the outcomes of accepting that keep their room pending.
fn mark_retained(outcomes: &Vec<AcceptOutcome>) -> (marks: Vec<bool>)
    ensures
        marks@ == retained_marks(outcomes@),
{
    let mut marks: Vec<bool> = Vec::new();
    let mut i: usize = 0;
    while i < outcomes.len()
        invariant
            i <= outcomes.len(),
            marks@.len() == i,
            forall|j: int| 0 <= j < i ==> marks@[j] == outcomes@[j].retained(),
        decreases outcomes.len() - i,
    {
        marks.push(outcomes[i].is_retained());
        i += 1;
    }
    assert(marks@ =~= retained_marks(outcomes@));
    marks
}

/// Marks the outcomes of accepting that are acceptances.
fn mark_accepted(outcomes: &Vec<AcceptOutcome>) -> (marks: Vec<bool>)
    ensures
        marks@ == accepted_marks(outcomes@),
{
    let mut marks: Vec<bool> = Vec::new();
    let mut i: usize = 0;
    while i < outcomes.len()
        invariant
            i <= outcomes.len(),
            marks@.len() == i,
            forall|j: int| 0 <= j < i ==> marks@[j] == (outcomes@[j] == AcceptOutcome::Accepted),
        decreases outcomes.len() - i,
    {
        let is_accepted = match outcomes[i] {
            AcceptOutcome::Accepted => true,
            _ => false,
        };
        marks.push(is_accepted);
        i += 1;
    }
    assert(marks@ =~= accepted_marks(outcomes@));
    marks
}

impl ConvergenceLoop {
    /// A loop for the plan that has done nothing yet.
    pub fn new(plan: &MigrationPlan, dry_run: bool) -> (convergence: ConvergenceLoop)
        ensures
            convergence@ == LoopState::initial(plan.invite_view(), plan.accept_view(), dry_run),
    {
        let to_send = plan.to_invite().clone();
        let pending = plan.to_accept().clone();
        let phase = if !to_send.is_empty() {
            LoopPhase::Sending
        } else if !pending.is_empty() {
            LoopPhase::Accepting
        } else {
            LoopPhase::Finished
        };
        ConvergenceLoop {
            phase,
            dry_run,
            to_send,
            reachable: RoomSet::new(),
            invited: RoomSet::new(),
            pending,
            failed: RoomSet::new(),
            accepted: RoomSet::new(),
            rounds: 0,
        }
    }

    /// Whether the loop has ended.
    pub fn is_finished(&self) -> (done: bool)
        ensures
            done == (self@.phase == LoopPhase::Finished),
    {
        match self.phase {
            LoopPhase::Finished => true,
            _ => false,
        }
    }

    /// How many rounds have been completed.
    pub fn rounds(&self) -> (n: u64)
        ensures
            n == self@.rounds,
    {
        self.rounds
    }

    /// The rooms that await the destination's acceptance.
    pub fn pending(&self) -> (rooms: &RoomSet)
        ensures
            rooms@ == self@.pending,
    {
        &self.pending
    }

    /// The rooms to which no invitation could be sent.
    pub fn failed(&self) -> (rooms: &RoomSet)
        ensures
            rooms@ == self@.failed,
    {
        &self.failed
    }

    /// The rooms to invite to in which inviting did not fail.
    pub fn reachable(&self) -> (rooms: &RoomSet)
        ensures
            rooms@ == self@.reachable,
    {
        &self.reachable
    }

    /// The rooms to which an invitation was sent in this run.
    pub fn invited(&self) -> (rooms: &RoomSet)
        ensures
            rooms@ == self@.invited,
    {
        &self.invited
    }

    /// The rooms whose invitation the destination accepted in this run.
    pub fn accepted(&self) -> (rooms: &RoomSet)
        ensures
            rooms@ == self@.accepted,
    {
        &self.accepted
    }

    /// What the driver is to do next.
    pub fn next_action(&self) -> (action: LoopAction)
        ensures
            action@ == self@.awaited(),
    {
        match self.phase {
            LoopPhase::Sending => LoopAction::SendInvites(self.to_send.clone()),
            LoopPhase::Accepting => LoopAction::AcceptInvites {
                pending: self.pending.clone(),
                equalize: if self.rounds == 0 {
                    self.reachable.clone()
                } else {
                    RoomSet::new()
                },
            },
            LoopPhase::AwaitingResync => LoopAction::AwaitResync,
            LoopPhase::Finished => LoopAction::Finish,
        }
    }

    /// Ends the round.
    fn finish_round(&mut self)
        ensures
            final(self)@ == old(self)@.round_done(),
    {
        if self.rounds < u64::MAX {
            self.rounds = self.rounds + 1;
        }
        self.phase = if self.pending.is_empty() || self.dry_run {
            LoopPhase::Finished
        } else {
            LoopPhase::AwaitingResync
        };
    }

    /// Takes in what the driver reports and tells it what to do next.
    pub fn step(&mut self, event: LoopEvent) -> (action: LoopAction)
        ensures
            final(self)@ == old(self)@.step(event),
            action@ == final(self)@.awaited(),
    {
        match (self.phase, &event) {
            (LoopPhase::Sending, LoopEvent::SendFinished(outcomes)) => {
                if outcomes.len() == self.to_send.len() {
                    let reachable = self.to_send.pick(&mark_sent(outcomes, false));
                    let failed = self.to_send.pick(&mark_sent(outcomes, true));
                    self.pending.extend(&reachable);
                    self.failed.extend(&failed);
                    self.reachable = reachable;
                    self.invited = self.to_send.pick(&mark_invited(outcomes));
                    self.phase = LoopPhase::Accepting;
                    if self.pending.is_empty() {
                        self.finish_round();
                    }
                }
            },
            (LoopPhase::Accepting, LoopEvent::AcceptFinished(outcomes)) => {
                if outcomes.len() == self.pending.len() {
                    let retained = self.pending.pick(&mark_retained(outcomes));
                    let accepted = self.pending.pick(&mark_accepted(outcomes));
                    self.accepted.extend(&accepted);
                    self.pending = retained;
                    self.finish_round();
                }
            },
            (LoopPhase::AwaitingResync, LoopEvent::Resynced) => {
                self.phase = LoopPhase::Accepting;
            },
            _ => {},
        }
        self.next_action()
    }
}

/// What holds of every state that a run from `initial(to_invite, to_accept,
/// dry_run)` can reach.
pub open spec fn run_shape(
    state: LoopState,
    to_invite: Seq<Seq<char>>,
    to_accept: Seq<Seq<char>>,
    dry_run: bool,
) -> bool {
    let settled = to_invite.len() == 0 && to_accept.len() == 0;
    &&& state.dry_run == dry_run
    &&& state.to_send == to_invite
    &&& state.phase is Sending ==> state.rounds == 0 && state.to_send.len() > 0 && state.failed.len()
        == 0 && state.reachable.len() == 0 && state.accepted.len() == 0
    &&& state.phase is Accepting ==> state.pending.len() > 0
    &&& state.phase is AwaitingResync ==> !dry_run && state.pending.len() > 0 && state.rounds >= 1
    &&& state.phase is Finished ==> dry_run || state.pending.len() == 0
    &&& settled ==> state == LoopState::initial(to_invite, to_accept, dry_run)
    &&& dry_run ==> state.rounds == if state.phase is Finished && !settled {
        1nat
    } else {
        0nat
    }
}

/// A step keeps what holds of every state of a run.
proof fn lemma_step_keeps_shape(
    state: LoopState,
    event: LoopEvent,
    to_invite: Seq<Seq<char>>,
    to_accept: Seq<Seq<char>>,
    dry_run: bool,
)
    requires
        run_shape(state, to_invite, to_accept, dry_run),
    ensures
        run_shape(state.step(event), to_invite, to_accept, dry_run),
{
}

/// What holds of every state of a run does hold of it.
proof fn lemma_run_has_shape(
    to_invite: Seq<Seq<char>>,
    to_accept: Seq<Seq<char>>,
    dry_run: bool,
    events: Seq<LoopEvent>,
)
    ensures
        run_shape(
            LoopState::initial(to_invite, to_accept, dry_run).run(events),
            to_invite,
            to_accept,
            dry_run,
        ),
    decreases events.len(),
{
    if events.len() > 0 {
        lemma_run_has_shape(to_invite, to_accept, dry_run, events.drop_last());
        lemma_step_keeps_shape(
            LoopState::initial(to_invite, to_accept, dry_run).run(events.drop_last()),
            events.last(),
            to_invite,
            to_accept,
            dry_run,
        );
    }
}

/// Where the destination has joined every room already, so that nothing is
/// left to invite to or to accept, the loop has ended before its first round:
/// whatever is reported, it stays ended with no round done and with no room
/// pending or failed.
pub proof fn law_settled_needs_no_round(dry_run: bool, events: Seq<LoopEvent>)
    ensures
        ({
            let state = LoopState::initial(Seq::empty(), Seq::empty(), dry_run).run(events);
            &&& state.phase is Finished
            &&& state.awaited() is Finish
            &&& state.rounds == 0
            &&& state.pending.len() == 0
            &&& state.failed.len() == 0
        }),
{
    lemma_run_has_shape(Seq::empty(), Seq::empty(), dry_run, events);
}

/// Running the loop again after the destination has joined every room of the
/// source takes no round: the plan for those snapshots leaves the loop ended
/// from the start, with no room pending or failed, whatever is reported.
pub proof fn law_rerun_needs_no_round(
    source: RoomSet,
    destination: RoomSnapshot,
    dry_run: bool,
    events: Seq<LoopEvent>,
)
    requires
        source.distinct(),
        destination.consistent(),
        forall|id: Seq<char>| source@.contains(id) ==> destination.joined_view().contains(id),
    ensures
        ({
            let state = LoopState::initial(
                rooms_to_invite(source@, destination),
                rooms_to_accept(source@, destination),
                dry_run,
            ).run(events);
            &&& state.phase is Finished
            &&& state.rounds == 0
            &&& state.pending.len() == 0
            &&& state.failed.len() == 0
        }),
{
    law_joined_everywhere_is_settled(source, destination);
    assert(rooms_to_invite(source@, destination) =~= Seq::<Seq<char>>::empty());
    assert(rooms_to_accept(source@, destination) =~= Seq::<Seq<char>>::empty());
    law_settled_needs_no_round(dry_run, events);
}

/// A dry run never waits for a snapshot, and with anything to invite to or to
/// accept it ends after exactly one round, however many rooms are pending.
pub proof fn law_dry_run_single_round(
    to_invite: Seq<Seq<char>>,
    to_accept: Seq<Seq<char>>,
    events: Seq<LoopEvent>,
)
    requires
        to_invite.len() > 0 || to_accept.len() > 0,
    ensures
        ({
            let state = LoopState::initial(to_invite, to_accept, true).run(events);
            &&& !(state.phase is AwaitingResync)
            &&& !(state.awaited() is AwaitResync)
            &&& state.phase is Finished ==> state.rounds == 1
            &&& !(state.phase is Finished) ==> state.rounds == 0
        }),
{
    lemma_run_has_shape(to_invite, to_accept, true, events);
}

/// Outside a dry run the loop ends only when no room is pending, and it waits
/// for a snapshot only while one is.
pub proof fn law_loop_ends_converged(
    to_invite: Seq<Seq<char>>,
    to_accept: Seq<Seq<char>>,
    events: Seq<LoopEvent>,
)
    ensures
        ({
            let state = LoopState::initial(to_invite, to_accept, false).run(events);
            &&& state.phase is Finished ==> state.pending.len() == 0
            &&& state.phase is AwaitingResync || state.phase is Accepting ==> state.pending.len()
                > 0
        }),
{
    lemma_run_has_shape(to_invite, to_accept, false, events);
}

/// Invitations are sent in one batch only: once its outcomes are in, the
/// loop never asks for invitations again. From then on the pending rooms only
/// shrink and the failed rooms stay as they are; before that, rooms are only
/// added to both.
pub proof fn law_pending_shrinks(state: LoopState, event: LoopEvent)
    ensures
        !(state.phase is Sending) ==> !(state.step(event).phase is Sending) && !(state.step(
            event,
        ).awaited() is SendInvites),
        state.step(event).to_send == state.to_send,
        !(state.phase is Sending) ==> forall|id: Seq<char>|
            state.step(event).pending.contains(id) ==> state.pending.contains(id),
        !(state.phase is Sending) ==> state.step(event).failed == state.failed,
        state.phase is Sending ==> state.failed.is_prefix_of(state.step(event).failed)
            && state.pending.is_prefix_of(state.step(event).pending),
        state.rounds <= state.step(event).rounds,
{
    match (state.phase, event) {
        (LoopPhase::Accepting, LoopEvent::AcceptFinished(outcomes)) => {
            if outcomes@.len() == state.pending.len() {
                lemma_picked(state.pending, retained_marks(outcomes@));
            }
        },
        _ => {},
    }
}

/// What keeps the failed rooms apart from the pending ones in a run from
/// `initial(to_invite, to_accept, ..)`.
spec fn apart(state: LoopState, to_invite: Seq<Seq<char>>, to_accept: Seq<Seq<char>>) -> bool {
    &&& state.to_send == to_invite
    &&& state.failed.no_duplicates()
    &&& state.phase is Sending ==> state.failed.len() == 0 && state.reachable.len() == 0
        && state.invited.len() == 0
    &&& forall|id: Seq<char>| #[trigger]
        state.failed.contains(id) ==> to_invite.contains(id) && !state.reachable.contains(id)
    &&& forall|id: Seq<char>| #[trigger]
        state.reachable.contains(id) ==> to_invite.contains(id)
    &&& forall|id: Seq<char>| #[trigger]
        state.invited.contains(id) ==> state.reachable.contains(id)
    &&& forall|id: Seq<char>| #[trigger]
        state.pending.contains(id) ==> to_accept.contains(id) || state.reachable.contains(id)
}

/// A step keeps the failed rooms apart from the pending ones.
proof fn lemma_step_keeps_apart(
    state: LoopState,
    event: LoopEvent,
    to_invite: Seq<Seq<char>>,
    to_accept: Seq<Seq<char>>,
)
    requires
        to_invite.no_duplicates(),
        apart(state, to_invite, to_accept),
    ensures
        apart(state.step(event), to_invite, to_accept),
{
    let after = state.step(event);
    match (state.phase, event) {
        (LoopPhase::Sending, LoopEvent::SendFinished(outcomes)) => {
            if outcomes@.len() == state.to_send.len() {
                let passed = send_marks(outcomes@, false);
                let failed = send_marks(outcomes@, true);
                lemma_picked(to_invite, passed);
                lemma_picked(to_invite, failed);
                lemma_appended(state.pending, picked(to_invite, passed));
                lemma_appended(state.failed, picked(to_invite, failed));
                assert(state.failed =~= Seq::<Seq<char>>::empty());
                assert forall|id: Seq<char>| #[trigger]
                    after.failed.contains(id) implies to_invite.contains(id)
                    && !after.reachable.contains(id) by {
                    let i = choose|i: int| 0 <= i < to_invite.len() && to_invite[i] == id && failed[i];
                    if after.reachable.contains(id) {
                        let j = choose|j: int|
                            0 <= j < to_invite.len() && to_invite[j] == id && passed[j];
                        assert(i == j);
                    }
                }
                lemma_picked(to_invite, invited_marks(outcomes@));
                assert forall|id: Seq<char>| #[trigger]
                    after.invited.contains(id) implies after.reachable.contains(id) by {
                    let i = choose|i: int|
                        0 <= i < to_invite.len() && to_invite[i] == id && invited_marks(
                            outcomes@,
                        )[i];
                    assert(to_invite[i] == id && passed[i]);
                }
                assert forall|id: Seq<char>| #[trigger]
                    after.pending.contains(id) implies to_accept.contains(id)
                    || after.reachable.contains(id) by {
                    if state.pending.contains(id) {
                        assert(!state.reachable.contains(id));
                    }
                }
            }
        },
        (LoopPhase::Accepting, LoopEvent::AcceptFinished(outcomes)) => {
            if outcomes@.len() == state.pending.len() {
                lemma_picked(state.pending, retained_marks(outcomes@));
                assert forall|id: Seq<char>| #[trigger]
                    after.pending.contains(id) implies state.pending.contains(id) by {
                    let i = choose|i: int|
                        0 <= i < state.pending.len() && state.pending[i] == id && retained_marks(
                            outcomes@,
                        )[i];
                    assert(state.pending[i] == id);
                }
            }
        },
        _ => {},
    }
}

/// A room to which no invitation could be sent is set aside for good: it was
/// one of the rooms to invite to, it is not among the reachable rooms, whose
/// privileges are equalized, and it never awaits acceptance. Every room to
/// which an invitation was sent is a reachable one.
pub proof fn law_failed_never_pending(
    to_invite: Seq<Seq<char>>,
    to_accept: Seq<Seq<char>>,
    dry_run: bool,
    events: Seq<LoopEvent>,
)
    requires
        to_invite.no_duplicates(),
        forall|id: Seq<char>| !(to_invite.contains(id) && to_accept.contains(id)),
    ensures
        ({
            let state = LoopState::initial(to_invite, to_accept, dry_run).run(events);
            &&& forall|id: Seq<char>| #[trigger]
                state.failed.contains(id) ==> to_invite.contains(id) && !state.reachable.contains(
                    id,
                ) && !state.pending.contains(id)
            &&& forall|id: Seq<char>| #[trigger]
                state.invited.contains(id) ==> state.reachable.contains(id)
        }),
{
    lemma_run_stays_apart(to_invite, to_accept, dry_run, events);
}

/// The failed rooms stay apart from the pending ones throughout a run.
proof fn lemma_run_stays_apart(
    to_invite: Seq<Seq<char>>,
    to_accept: Seq<Seq<char>>,
    dry_run: bool,
    events: Seq<LoopEvent>,
)
    requires
        to_invite.no_duplicates(),
    ensures
        apart(LoopState::initial(to_invite, to_accept, dry_run).run(events), to_invite, to_accept),
    decreases events.len(),
{
    if events.len() > 0 {
        lemma_run_stays_apart(to_invite, to_accept, dry_run, events.drop_last());
        lemma_step_keeps_apart(
            LoopState::initial(to_invite, to_accept, dry_run).run(events.drop_last()),
            events.last(),
            to_invite,
            to_accept,
        );
    }
}

} // verus!
