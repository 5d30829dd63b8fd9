//! Retiring the source account from rooms that the destination has taken
//! over.

use crate::reconcile::MigrationPlan;
use crate::room::{kept_in, lemma_picked, picked, RoomId, RoomSet};
use crate::snapshot::{MemberLookup, RoomSnapshot};
use vstd::prelude::*;

verus! {

/// What is known of one room before the source leaves it.
#[derive(Clone, Copy, Debug)]
pub struct LeaveObservation {
    /// What looking the source account up in the room gave.
    pub source: MemberLookup,
    /// What looking the destination account up in the room gave.
    pub destination: MemberLookup,
    /// How many members the room has, the source included.
    pub member_count: u64,
    /// Whether the room has been given a name.
    pub named: bool,
}

/// What to do about one room.
#[derive(Clone, Copy, Debug, PartialEq, Eq, Structural)]
pub enum LeaveDecision {
    /// The source is no longer a member: nothing to leave.
    SkipSourceAbsent,
    /// The destination is not a member: the room was not migrated.
    SkipDestinationAbsent,
    /// The destination's level is below the source's: leaving would strand
    /// the room.
    SkipUnderPrivileged,
    /// A dry run that would otherwise leave.
    WouldLeave,
    /// The source leaves; afterwards the room is marked as a direct
    /// conversation of the destination if `mark_direct` is set.
    Leave { mark_direct: bool },
}

impl LeaveDecision {
    /// Whether the decision asks for a call that changes the room.
    pub open spec fn mutating(self) -> bool {
        self is Leave
    }

    /// Whether the decision asks for a call that changes the room.
    pub fn is_mutating(&self) -> (yes: bool)
        ensures
            yes == self.mutating(),
    {
        match self {
            LeaveDecision::Leave { .. } => true,
            _ => false,
        }
    }
}

/// Whether the room looks like a private conversation of two: exactly two
/// members and no name.
pub open spec fn looks_private(seen: LeaveObservation) -> bool {
    seen.member_count == 2 && !seen.named
}

impl LeaveObservation {
    /// The source's level, if it has joined the room.
    pub open spec fn source_level(self) -> Option<i64> {
        self.source.joined_level()
    }

    /// The destination's level, if it has joined the room.
    pub open spec fn destination_level(self) -> Option<i64> {
        self.destination.joined_level()
    }
}

/// Whether both accounts have joined and the destination has at least the
/// source's level.
pub open spec fn safe_to_leave(seen: LeaveObservation) -> bool {
    &&& seen.source_level() is Some
    &&& seen.destination_level() is Some
    &&& seen.destination_level()->0 >= seen.source_level()->0
}

/// The decision for one room: the source must still have joined, the
/// destination must have joined, and the destination's level must not be
/// below the source's; only then, and only outside a dry run, the source
/// leaves. A lookup that failed counts as an account that has not joined.
pub open spec fn leave_decision(seen: LeaveObservation, dry_run: bool) -> LeaveDecision {
    if seen.source_level() is None {
        LeaveDecision::SkipSourceAbsent
    } else if seen.destination_level() is None {
        LeaveDecision::SkipDestinationAbsent
    } else if seen.destination_level()->0 < seen.source_level()->0 {
        LeaveDecision::SkipUnderPrivileged
    } else if dry_run {
        LeaveDecision::WouldLeave
    } else {
        LeaveDecision::Leave { mark_direct: looks_private(seen) }
    }
}

/// Decides what to do about one room.
pub fn decide_leave(seen: LeaveObservation, dry_run: bool) -> (decision: LeaveDecision)
    ensures
        decision == leave_decision(seen, dry_run),
{
    let source = match seen.source.level_if_joined() {
        Some(level) => level,
        None => {
            return LeaveDecision::SkipSourceAbsent;
        },
    };
    let destination = match seen.destination.level_if_joined() {
        Some(level) => level,
        None => {
            return LeaveDecision::SkipDestinationAbsent;
        },
    };
    if destination < source {
        LeaveDecision::SkipUnderPrivileged
    } else if dry_run {
        LeaveDecision::WouldLeave
    } else {
        LeaveDecision::Leave { mark_direct: seen.member_count == 2 && !seen.named }
    }
}

/// A leave is decided only outside a dry run and only where the destination's
/// level is at least the source's.
pub proof fn law_leave_needs_privilege(seen: LeaveObservation, dry_run: bool)
    ensures
        leave_decision(seen, dry_run).mutating() ==> safe_to_leave(seen) && !dry_run,
        seen.source_level() is Some && seen.destination_level() is Some
            && seen.destination_level()->0 < seen.source_level()->0 ==> leave_decision(
            seen,
            dry_run,
        ) == LeaveDecision::SkipUnderPrivileged,
        dry_run ==> !leave_decision(seen, dry_run).mutating(),
{
}

/// The rooms of the source in which a fresh snapshot shows the destination as
/// joined, in the order of the source.
pub fn leave_candidates(source_rooms: &RoomSet, destination: &RoomSnapshot) -> (rooms: RoomSet)
    ensures
        rooms@ == kept_in(source_rooms@, destination.joined_view()),
{
    source_rooms.intersection(destination.joined())
}

/// The rooms that a plan was made for and in which a fresh snapshot shows the
/// destination as joined: the candidates for the leave phase of its run.
pub fn plan_candidates(plan: &MigrationPlan, destination: &RoomSnapshot) -> (rooms: RoomSet)
    ensures
        rooms@ == kept_in(plan.source_view(), destination.joined_view()),
{
    leave_candidates(plan.source(), destination)
}

/// What the supervisor waits for in the room it is at.
#[derive(Clone, Copy, Debug, PartialEq, Eq, Structural)]
pub enum LeaveStage {
    /// An observation of the room.
    Observing,
    /// The outcome of the leave that was decided on an observation with the
    /// two levels kept here.
    Leaving { source: i64, destination: i64, mark_direct: bool },
    /// The outcome of marking the room as direct.
    Marking,
}

/// What the driver reports back.
#[derive(Clone, Copy, Debug)]
pub enum LeaveEvent {
    /// The room was looked at.
    Observed(LeaveObservation),
    /// The leave was tried; `true` if the server accepted it.
    Left(bool),
    /// Marking the room was tried; `true` if the server accepted it.
    Marked(bool),
}

/// What the driver is to do next.
#[derive(Debug)]
pub enum LeaveAction {
    /// Look at the room through both sessions.
    Observe(RoomId),
    /// Let the source session leave the room.
    Leave(RoomId),
    /// Mark the room as direct for the destination session.
    MarkDirect(RoomId),
    /// Every room has been dealt with.
    Finish,
}

/// An action with the room given by its identifier's characters.
pub enum LeaveCommand {
    Observe(Seq<char>),
    Leave(Seq<char>),
    MarkDirect(Seq<char>),
    Finish,
}

impl View for LeaveAction {
    type V = LeaveCommand;

    open spec fn view(&self) -> LeaveCommand {
        match self {
            LeaveAction::Observe(room) => LeaveCommand::Observe(room@),
            LeaveAction::Leave(room) => LeaveCommand::Leave(room@),
            LeaveAction::MarkDirect(room) => LeaveCommand::MarkDirect(room@),
            LeaveAction::Finish => LeaveCommand::Finish,
        }
    }
}

/// The supervisor's state as plain values.
pub struct LeaveState {
    /// The candidate rooms, in the order in which they are dealt with.
    pub rooms: Seq<Seq<char>>,
    /// How many rooms have been dealt with.
    pub position: nat,
    /// What is awaited for the room at `position`.
    pub stage: LeaveStage,
    /// Whether this is a dry run.
    pub dry_run: bool,
}

impl LeaveState {
    /// The state before any room has been looked at.
    pub open spec fn initial(rooms: Seq<Seq<char>>, dry_run: bool) -> LeaveState {
        LeaveState { rooms, position: 0, stage: LeaveStage::Observing, dry_run }
    }

    /// Whether every room has been dealt with.
    pub open spec fn finished(self) -> bool {
        self.position >= self.rooms.len()
    }

    /// The position is within the rooms, and a leave is awaited only outside
    /// a dry run, for a room that is there, after an observation in which the
    /// destination's level was at least the source's.
    pub open spec fn well_formed(self) -> bool {
        &&& self.position <= self.rooms.len()
        &&& self.finished() ==> self.stage is Observing
        &&& self.stage matches LeaveStage::Leaving { source, destination, .. } ==> (
        !self.dry_run && destination >= source)
        &&& self.dry_run ==> self.stage is Observing
    }

    /// What the driver is to do in this state.
    pub open spec fn awaited(self) -> LeaveCommand {
        if self.finished() {
            LeaveCommand::Finish
        } else {
            match self.stage {
                LeaveStage::Observing => LeaveCommand::Observe(self.rooms[self.position as int]),
                LeaveStage::Leaving { .. } => LeaveCommand::Leave(self.rooms[self.position as int]),
                LeaveStage::Marking => LeaveCommand::MarkDirect(self.rooms[self.position as int]),
            }
        }
    }

    /// The state with the current room done.
    pub open spec fn advanced(self) -> LeaveState {
        LeaveState { position: self.position + 1, stage: LeaveStage::Observing, ..self }
    }

    /// The state after an event. An observation decides between leaving and
    /// moving on; a leave that the server accepted is followed by marking
    /// where that was decided, and any other outcome of a leave moves on, as
    /// does any outcome of marking. An event that does not answer what is
    /// awaited changes nothing.
    pub open spec fn step(self, event: LeaveEvent) -> LeaveState {
        if self.finished() {
            self
        } else {
            match (self.stage, event) {
                (LeaveStage::Observing, LeaveEvent::Observed(seen)) => match leave_decision(
                    seen,
                    self.dry_run,
                ) {
                    LeaveDecision::Leave { mark_direct } => LeaveState {
                        stage: LeaveStage::Leaving {
                            source: seen.source_level()->0,
                            destination: seen.destination_level()->0,
                            mark_direct,
                        },
                        ..self
                    },
                    _ => self.advanced(),
                },
                (LeaveStage::Leaving { mark_direct, .. }, LeaveEvent::Left(accepted)) => {
                    if accepted && mark_direct {
                        LeaveState { stage: LeaveStage::Marking, ..self }
                    } else {
                        self.advanced()
                    }
                },
                (LeaveStage::Marking, LeaveEvent::Marked(_)) => self.advanced(),
                _ => self,
            }
        }
    }

    /// The state after a sequence of events.
    pub open spec fn run(self, events: Seq<LeaveEvent>) -> LeaveState
        decreases events.len(),
    {
        if events.len() == 0 {
            self
        } else {
            self.run(events.drop_last()).step(events.last())
        }
    }

    /// Whether the event is an observation of the room that the state waits
    /// to have observed.
    pub open spec fn takes_in(self, event: LeaveEvent) -> bool {
        !self.finished() && self.stage is Observing && event is Observed
    }

    /// The observations that a run from this state took in, in order: those
    /// that arrived while one was awaited.
    pub open spec fn observations(self, events: Seq<LeaveEvent>) -> Seq<LeaveObservation>
        decreases events.len(),
    {
        if events.len() == 0 {
            Seq::empty()
        } else {
            let earlier = self.observations(events.drop_last());
            if self.run(events.drop_last()).takes_in(events.last()) {
                earlier.push(events.last()->Observed_0)
            } else {
                earlier
            }
        }
    }

    /// The rooms that a run from this state asked the driver to leave, in
    /// order: one entry for each step after which a leave is awaited that
    /// was not awaited before.
    pub open spec fn leaves_asked(self, events: Seq<LeaveEvent>) -> Seq<Seq<char>>
        decreases events.len(),
    {
        if events.len() == 0 {
            Seq::empty()
        } else {
            let earlier = self.leaves_asked(events.drop_last());
            let before = self.run(events.drop_last());
            let after = before.step(events.last());
            if after.awaited() is Leave && !(before.awaited() is Leave) {
                earlier.push(after.awaited()->Leave_0)
            } else {
                earlier
            }
        }
    }
}

/// For each observation, whether it passes the three checks outside a dry
/// run: the source has joined, the destination has joined, and the
/// destination's level is at least the source's.
pub open spec fn leave_marks(seen: Seq<LeaveObservation>, dry_run: bool) -> Seq<bool> {
    Seq::new(seen.len(), |i: int| safe_to_leave(seen[i]) && !dry_run)
}

/// Deals with the candidate rooms one after the other: observe, decide,
/// leave, and mark as direct where that applies.
#[derive(Debug)]
pub struct LeaveSupervisor {
    rooms: RoomSet,
    position: usize,
    stage: LeaveStage,
    dry_run: bool,
}

impl View for LeaveSupervisor {
    type V = LeaveState;

    closed spec fn view(&self) -> LeaveState {
        LeaveState {
            rooms: self.rooms@,
            position: self.position as nat,
            stage: self.stage,
            dry_run: self.dry_run,
        }
    }
}

impl LeaveSupervisor {
    /// The state is well formed.
    #[verifier::type_invariant]
    pub open spec fn valid(&self) -> bool {
        self@.well_formed()
    }

    /// A supervisor for the given rooms that has not looked at any yet.
    pub fn new(candidates: RoomSet, dry_run: bool) -> (supervisor: LeaveSupervisor)
        ensures
            supervisor@ == LeaveState::initial(candidates@, dry_run),
    {
        LeaveSupervisor { rooms: candidates, position: 0, stage: LeaveStage::Observing, dry_run }
    }

    /// Whether every room has been dealt with.
    pub fn is_finished(&self) -> (done: bool)
        ensures
            done == self@.finished(),
    {
        self.position >= self.rooms.len()
    }

    /// What the driver is to do next.
    pub fn next_action(&self) -> (action: LeaveAction)
        ensures
            action@ == self@.awaited(),
            self@.well_formed(),
    {
        proof {
            use_type_invariant(self);
        }
        if self.position >= self.rooms.len() {
            LeaveAction::Finish
        } else {
            let room = self.rooms.get(self.position).clone();
            match self.stage {
                LeaveStage::Observing => LeaveAction::Observe(room),
                LeaveStage::Leaving { .. } => LeaveAction::Leave(room),
                LeaveStage::Marking => LeaveAction::MarkDirect(room),
            }
        }
    }

    /// Moves on to the next room.
    fn advance(&mut self)
        requires
            !old(self)@.finished(),
        ensures
            final(self)@ == old(self)@.advanced(),
    {
        proof {
            use_type_invariant(&*self);
        }
        let n = self.rooms.len();
        assert(self.position < n);
        self.stage = LeaveStage::Observing;
        self.position = self.position + 1;
    }

    /// Takes in what the driver reports and tells it what to do next.
    pub fn step(&mut self, event: LeaveEvent) -> (action: LeaveAction)
        ensures
            final(self)@ == old(self)@.step(event),
            action@ == final(self)@.awaited(),
            final(self)@.well_formed(),
    {
        proof {
            use_type_invariant(&*self);
        }
        if self.position < self.rooms.len() {
            match (self.stage, event) {
                (LeaveStage::Observing, LeaveEvent::Observed(seen)) => {
                    match decide_leave(seen, self.dry_run) {
                        LeaveDecision::Leave { mark_direct } => {
                            match (seen.source.level_if_joined(), seen.destination.level_if_joined()) {
                                (Some(source), Some(destination)) => {
                                    self.stage =
                                    LeaveStage::Leaving { source, destination, mark_direct };
                                },
                                _ => {},
                            }
                        },
                        _ => {
                            self.advance();
                        },
                    }
                },
                (LeaveStage::Leaving { mark_direct, .. }, LeaveEvent::Left(accepted)) => {
                    if accepted && mark_direct {
                        self.stage = LeaveStage::Marking;
                    } else {
                        self.advance();
                    }
                },
                (LeaveStage::Marking, LeaveEvent::Marked(_)) => {
                    self.advance();
                },
                _ => {},
            }
        }
        self.next_action()
    }
}

/// Every step keeps the state well formed.
pub proof fn law_leave_step_well_formed(state: LeaveState, event: LeaveEvent)
    requires
        state.well_formed(),
    ensures
        state.step(event).well_formed(),
        state.step(event).rooms == state.rooms,
        state.step(event).dry_run == state.dry_run,
        state.position <= state.step(event).position <= state.position + 1,
{
}

/// Whatever the driver reports, in whatever order: a leave is awaited only
/// right after an observation of that very room in which the destination was
/// a member with at least the source's level, and never in a dry run; a dry
/// run asks for observations only.
pub proof fn law_leave_never_strands(rooms: Seq<Seq<char>>, dry_run: bool, events: Seq<LeaveEvent>)
    ensures
        ({
            let state = LeaveState::initial(rooms, dry_run).run(events);
            &&& state.well_formed()
            &&& state.rooms == rooms
            &&& state.dry_run == dry_run
            &&& state.awaited() is Leave ==> !dry_run && (state.stage matches LeaveStage::Leaving {
                source,
                destination,
                ..
            } && destination >= source)
            &&& dry_run ==> state.awaited() is Observe || state.awaited() is Finish
        }),
        events.len() > 0 ==> ({
            let before = LeaveState::initial(rooms, dry_run).run(events.drop_last());
            let after = before.step(events.last());
            after.awaited() is Leave && !(before.awaited() is Leave) ==> {
                &&& events.last() matches LeaveEvent::Observed(seen)
                &&& safe_to_leave(seen)
                &&& before.awaited() == LeaveCommand::Observe(after.awaited()->Leave_0)
            }
        }),
    decreases events.len(),
{
    if events.len() > 0 {
        law_leave_never_strands(rooms, dry_run, events.drop_last());
        let before = LeaveState::initial(rooms, dry_run).run(events.drop_last());
        law_leave_step_well_formed(before, events.last());
    }
}

/// Whatever the driver reports, in whatever order: the rooms are observed
/// one after the other from the first, each at most once, and the driver is
/// asked to leave exactly those observed rooms whose observation passed the
/// three checks, in the order of the candidates and, where no candidate is
/// repeated, each once. When the run has finished, every candidate has been
/// observed.
pub proof fn law_leave_exactly_the_safe_rooms(
    rooms: Seq<Seq<char>>,
    dry_run: bool,
    events: Seq<LeaveEvent>,
)
    ensures
        ({
            let start = LeaveState::initial(rooms, dry_run);
            let state = start.run(events);
            let seen = start.observations(events);
            let asked = start.leaves_asked(events);
            &&& seen.len() <= rooms.len()
            &&& seen.len() == state.position + if state.stage is Observing {
                0int
            } else {
                1int
            }
            &&& state.finished() ==> seen.len() == rooms.len()
            &&& asked == picked(rooms.take(seen.len() as int), leave_marks(seen, dry_run))
            &&& rooms.no_duplicates() ==> asked.no_duplicates()
            &&& dry_run ==> asked.len() == 0
        }),
    decreases events.len(),
{
    let start = LeaveState::initial(rooms, dry_run);
    let state = start.run(events);
    let seen = start.observations(events);
    let asked = start.leaves_asked(events);
    law_leave_never_strands(rooms, dry_run, events);
    if events.len() > 0 {
        let front = events.drop_last();
        let before = start.run(front);
        let seen_before = start.observations(front);
        let n = seen_before.len() as int;
        law_leave_exactly_the_safe_rooms(rooms, dry_run, front);
        law_leave_never_strands(rooms, dry_run, front);
        if before.takes_in(events.last()) {
            let shown = events.last()->Observed_0;
            assert(seen == seen_before.push(shown));
            assert(n == before.position);
            assert(rooms.take(n + 1).drop_last() =~= rooms.take(n));
            assert(rooms.take(n + 1).last() == rooms[n]);
            assert(leave_marks(seen, dry_run).drop_last() =~= leave_marks(seen_before, dry_run));
            assert(leave_marks(seen, dry_run).last() == (safe_to_leave(shown) && !dry_run));
            assert(leave_decision(shown, dry_run).mutating() == (safe_to_leave(shown)
                && !dry_run));
        }
    } else {
        assert(rooms.take(0) =~= Seq::<Seq<char>>::empty());
    }
    let taken = rooms.take(seen.len() as int);
    lemma_picked(taken, leave_marks(seen, dry_run));
    if rooms.no_duplicates() {
        assert(taken.no_duplicates());
    }
    if dry_run && asked.len() > 0 {
        assert(asked.contains(asked[0]));
    }
}

} // verus!
