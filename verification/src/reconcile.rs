//! Comparing the rooms of the two accounts.

use crate::filter::RoomFilter;
use crate::room::{kept_in, kept_out, lemma_kept_sets, member_of, RoomSet};
use crate::snapshot::RoomSnapshot;
use vstd::prelude::*;

verus! {

/// The rooms of the source that the destination already knows, joined or
/// invited, in the order of the source.
pub open spec fn shared_rooms(source: Seq<Seq<char>>, destination: RoomSnapshot) -> Seq<Seq<char>> {
    kept_in(source, destination.known_view())
}

/// The rooms of the source that the destination does not know, in the order
/// of the source.
pub open spec fn rooms_to_invite(source: Seq<Seq<char>>, destination: RoomSnapshot) -> Seq<
    Seq<char>,
> {
    kept_out(source, destination.known_view())
}

/// The invitations of the destination to rooms of the source, in the order of
/// the destination.
pub open spec fn rooms_to_accept(source: Seq<Seq<char>>, destination: RoomSnapshot) -> Seq<
    Seq<char>,
> {
    kept_in(destination.invited_view(), source)
}

/// Whether one of the identifiers has no characters.
pub open spec fn has_empty_id(ids: Seq<Seq<char>>) -> bool {
    ids.contains(Seq::<char>::empty())
}

/// Why two snapshots could not be compared.
#[derive(Clone, Copy, Debug, PartialEq, Eq, Structural)]
pub enum ReconcileError {
    /// One of the snapshots lists a room whose identifier is empty.
    EmptyIdentifier,
}

/// What has to happen for the destination to be in every room of the source.
#[derive(Debug)]
pub struct MigrationPlan {
    source: RoomSet,
    already_shared: RoomSet,
    to_invite: RoomSet,
    to_accept: RoomSet,
}

impl MigrationPlan {
    /// The rooms of the source that the plan is for.
    pub closed spec fn source_view(&self) -> Seq<Seq<char>> {
        self.source@
    }

    /// The rooms that both accounts know already.
    pub closed spec fn shared_view(&self) -> Seq<Seq<char>> {
        self.already_shared@
    }

    /// The rooms to which the source has to invite the destination.
    pub closed spec fn invite_view(&self) -> Seq<Seq<char>> {
        self.to_invite@
    }

    /// The rooms whose invitation the destination has to accept.
    pub closed spec fn accept_view(&self) -> Seq<Seq<char>> {
        self.to_accept@
    }

    /// No list repeats a room, no shared room needs an invitation, and every
    /// invitation to accept is to a shared room.
    #[verifier::type_invariant]
    pub open spec fn consistent(&self) -> bool {
        &&& self.shared_view().no_duplicates()
        &&& self.invite_view().no_duplicates()
        &&& self.accept_view().no_duplicates()
        &&& forall|id: Seq<char>|
            !(self.shared_view().contains(id) && self.invite_view().contains(id))
        &&& forall|id: Seq<char>|
            self.accept_view().contains(id) ==> self.shared_view().contains(id)
    }

    /// Whether nothing is left to invite or to accept.
    pub open spec fn settled(&self) -> bool {
        self.invite_view().len() == 0 && self.accept_view().len() == 0
    }

    /// The rooms of the source that the plan is for.
    pub fn source(&self) -> (rooms: &RoomSet)
        ensures
            rooms@ == self.source_view(),
    {
        &self.source
    }

    /// The rooms that both accounts know already.
    pub fn already_shared(&self) -> (rooms: &RoomSet)
        ensures
            rooms@ == self.shared_view(),
            self.consistent(),
    {
        proof {
            use_type_invariant(self);
        }
        &self.already_shared
    }

    /// The rooms to which the source has to invite the destination.
    pub fn to_invite(&self) -> (rooms: &RoomSet)
        ensures
            rooms@ == self.invite_view(),
            self.consistent(),
    {
        proof {
            use_type_invariant(self);
        }
        &self.to_invite
    }

    /// The rooms whose invitation the destination has to accept.
    pub fn to_accept(&self) -> (rooms: &RoomSet)
        ensures
            rooms@ == self.accept_view(),
            self.consistent(),
    {
        proof {
            use_type_invariant(self);
        }
        &self.to_accept
    }

    /// Whether nothing is left to invite or to accept.
    pub fn is_settled(&self) -> (done: bool)
        ensures
            done == self.settled(),
    {
        self.to_invite.is_empty() && self.to_accept.is_empty()
    }
}

/// Whether the set holds the empty identifier.
fn holds_empty_id(rooms: &RoomSet) -> (found: bool)
    ensures
        found == has_empty_id(rooms@),
{
    let n = rooms.len();
    let mut i: usize = 0;
    while i < n
        invariant
            i <= n,
            n == rooms@.len(),
            forall|j: int| 0 <= j < i ==> rooms@[j].len() != 0,
        decreases n - i,
    {
        if rooms.get(i).is_empty() {
            assert(rooms@[i as int] =~= Seq::<char>::empty());
            return true;
        }
        i += 1;
    }
    false
}

/// Compares the rooms that the source is to migrate with what the destination
/// knows. The source's rooms are split into those that the destination knows
/// and those to which it must be invited; the destination's invitations to
/// rooms of the source are listed for acceptance. The comparison is refused
/// exactly when an identifier on either side is empty.
pub fn reconcile(source_joined: &RoomSet, destination: &RoomSnapshot) -> (result: Result<
    MigrationPlan,
    ReconcileError,
>)
    ensures
        result is Err <==> has_empty_id(source_joined@) || has_empty_id(
            destination.known_view(),
        ),
        result matches Ok(plan) ==> {
            &&& plan.source_view() == source_joined@
            &&& plan.shared_view() == shared_rooms(source_joined@, *destination)
            &&& plan.invite_view() == rooms_to_invite(source_joined@, *destination)
            &&& plan.accept_view() == rooms_to_accept(source_joined@, *destination)
        },
        result matches Err(e) ==> e == ReconcileError::EmptyIdentifier,
{
    let known = destination.known();
    if holds_empty_id(source_joined) || holds_empty_id(&known) {
        return Err(ReconcileError::EmptyIdentifier);
    }
    let invited = destination.invited();
    let already_shared = source_joined.intersection(&known);
    let to_invite = source_joined.difference(&known);
    let to_accept = invited.intersection(source_joined);
    proof {
        use_type_invariant(source_joined);
        use_type_invariant(destination);
        law_plan_covers_source(*source_joined, *destination);
    }
    Ok(MigrationPlan { source: source_joined.clone(), already_shared, to_invite, to_accept })
}

/// The plan for the rooms of the source that the filter lets through.
pub fn plan_migration(source: &RoomSnapshot, destination: &RoomSnapshot, filter: &RoomFilter) -> (result:
    Result<MigrationPlan, ReconcileError>)
    ensures
        result is Err <==> has_empty_id(source.joined_view().filter(filter.admitting()))
            || has_empty_id(destination.known_view()),
        result matches Ok(plan) ==> {
            let chosen = source.joined_view().filter(filter.admitting());
            &&& plan.source_view() == chosen
            &&& plan.shared_view() == shared_rooms(chosen, *destination)
            &&& plan.invite_view() == rooms_to_invite(chosen, *destination)
            &&& plan.accept_view() == rooms_to_accept(chosen, *destination)
        },
        result matches Err(e) ==> e == ReconcileError::EmptyIdentifier,
{
    let chosen = filter.select(source.joined());
    reconcile(&chosen, destination)
}

/// For any rooms of the source and any snapshot of the destination: no room
/// is both shared and to be invited to; the shared rooms, the rooms to invite
/// to and the invitations to accept that are to rooms of the source make up
/// exactly the source's rooms; and every invitation to accept is to a shared
/// room.
pub proof fn law_plan_covers_source(source: RoomSet, destination: RoomSnapshot)
    requires
        source.distinct(),
        destination.consistent(),
    ensures
        ({
            let shared = shared_rooms(source@, destination);
            let invite = rooms_to_invite(source@, destination);
            let accept = rooms_to_accept(source@, destination);
            &&& shared.no_duplicates()
            &&& invite.no_duplicates()
            &&& accept.no_duplicates()
            &&& shared.to_set().disjoint(invite.to_set())
            &&& forall|id: Seq<char>| !(shared.contains(id) && invite.contains(id))
            &&& shared.to_set().union(invite.to_set()).union(
                accept.to_set().intersect(source@.to_set()),
            ) == source@.to_set()
            &&& forall|id: Seq<char>| accept.contains(id) ==> shared.contains(id)
        }),
{
    let known = destination.known_view();
    let invited = destination.invited_view();
    let shared = shared_rooms(source@, destination);
    let invite = rooms_to_invite(source@, destination);
    let accept = rooms_to_accept(source@, destination);
    lemma_kept_sets(source@, known);
    lemma_kept_sets(invited, source@);
    assert forall|id: Seq<char>| accept.contains(id) implies shared.contains(id) by {
        let i = choose|i: int| 0 <= i < invited.len() && invited[i] == id;
        assert(known[destination.joined_view().len() + i] == id);
    }
    assert(shared.to_set().union(invite.to_set()).union(
        accept.to_set().intersect(source@.to_set()),
    ) =~= source@.to_set());
}

/// Once the destination has joined every room of the source, nothing is left
/// to invite to or to accept.
pub proof fn law_joined_everywhere_is_settled(source: RoomSet, destination: RoomSnapshot)
    requires
        source.distinct(),
        destination.consistent(),
        forall|id: Seq<char>| source@.contains(id) ==> destination.joined_view().contains(id),
    ensures
        rooms_to_invite(source@, destination).len() == 0,
        rooms_to_accept(source@, destination).len() == 0,
        shared_rooms(source@, destination) == source@,
{
    let known = destination.known_view();
    let invite = rooms_to_invite(source@, destination);
    let accept = rooms_to_accept(source@, destination);
    lemma_kept_sets(source@, known);
    lemma_kept_sets(destination.invited_view(), source@);
    assert forall|id: Seq<char>| source@.contains(id) implies known.contains(id) by {
        let i = choose|i: int|
            0 <= i < destination.joined_view().len() && destination.joined_view()[i] == id;
        assert(known[i] == id);
    }
    if invite.len() > 0 {
        assert(invite.contains(invite[0]));
    }
    if accept.len() > 0 {
        assert(accept.contains(accept[0]));
    }
    assert forall|i: int| 0 <= i < source@.len() implies member_of(known)(#[trigger] source@[i]) by {
        assert(source@.contains(source@[i]));
    }
    lemma_filter_all(source@, member_of(known));
}

/// A filter that every element passes changes nothing.
proof fn lemma_filter_all(s: Seq<Seq<char>>, pred: spec_fn(Seq<char>) -> bool)
    requires
        forall|i: int| 0 <= i < s.len() ==> pred(#[trigger] s[i]),
    ensures
        s.filter(pred) == s,
    decreases s.len(),
{
    reveal(Seq::filter);
    if s.len() > 0 {
        lemma_filter_all(s.drop_last(), pred);
        assert(s.drop_last().push(s.last()) =~= s);
    } else {
        assert(s.filter(pred) =~= s);
    }
}

} // verus!
