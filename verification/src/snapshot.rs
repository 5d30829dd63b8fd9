//! Point-in-time views of the rooms one account is in or invited to.

use crate::room::{kept_out, lemma_kept_sets, RoomId, RoomSet};
use vstd::prelude::*;

verus! {

/// How an account stands towards a room in one snapshot.
#[derive(Clone, Copy, Debug, PartialEq, Eq, Structural)]
pub enum MembershipState {
    /// The account is a member of the room.
    Joined,
    /// The account holds an invitation that it has not answered.
    Invited,
    /// The snapshot does not list the room for the account.
    Absent,
}

/// What a room records of one account: how it stands towards the room, and
/// its privilege level there.
#[derive(Clone, Copy, Debug, PartialEq, Eq, Structural)]
pub struct MemberRecord {
    /// How the account stands towards the room.
    pub state: MembershipState,
    /// The account's privilege level in the room.
    pub level: i64,
}

/// How looking an account up in a room ended.
#[derive(Clone, Copy, Debug, PartialEq, Eq, Structural)]
pub enum MemberLookup {
    /// The room has this record of the account.
    Found(MemberRecord),
    /// The room has no record of the account.
    NotFound,
    /// The room could not be asked. Nothing is known of the account, and
    /// every decision treats it as an account without a record.
    Failed,
}

impl MemberLookup {
    /// The record, if one was found.
    pub open spec fn record(self) -> Option<MemberRecord> {
        match self {
            MemberLookup::Found(member) => Some(member),
            _ => None,
        }
    }

    /// The level that the record gives, whatever its state.
    pub open spec fn level(self) -> Option<i64> {
        match self {
            MemberLookup::Found(member) => Some(member.level),
            _ => None,
        }
    }

    /// The level of an account that has joined, and nothing for an account
    /// without a record or with a record of any other state.
    pub open spec fn joined_level(self) -> Option<i64> {
        match self {
            MemberLookup::Found(member) => if member.state == MembershipState::Joined {
                Some(member.level)
            } else {
                None
            },
            _ => None,
        }
    }

    /// How the account stands towards the room: as its record says, and
    /// absent without one.
    pub open spec fn state(self) -> MembershipState {
        match self {
            MemberLookup::Found(member) => member.state,
            _ => MembershipState::Absent,
        }
    }

    /// The level that the record gives, whatever its state.
    pub fn recorded_level(&self) -> (level: Option<i64>)
        ensures
            level == self.level(),
    {
        match self {
            MemberLookup::Found(member) => Some(member.level),
            _ => None,
        }
    }

    /// The level of an account that has joined.
    pub fn level_if_joined(&self) -> (level: Option<i64>)
        ensures
            level == self.joined_level(),
    {
        match self {
            MemberLookup::Found(member) => match member.state {
                MembershipState::Joined => Some(member.level),
                _ => None,
            },
            _ => None,
        }
    }

    /// How the account stands towards the room.
    pub fn standing(&self) -> (state: MembershipState)
        ensures
            state == self.state(),
    {
        match self {
            MemberLookup::Found(member) => member.state,
            _ => MembershipState::Absent,
        }
    }
}

/// The rooms of one account as one synchronization reported them. A snapshot
/// is never changed after it is made.
#[derive(Debug)]
pub struct RoomSnapshot {
    joined: RoomSet,
    invited: RoomSet,
}

impl RoomSnapshot {
    /// The joined rooms, in the order in which they were reported.
    pub closed spec fn joined_view(&self) -> Seq<Seq<char>> {
        self.joined@
    }

    /// The rooms with an open invitation, in the order in which they were
    /// reported.
    pub closed spec fn invited_view(&self) -> Seq<Seq<char>> {
        self.invited@
    }

    /// Neither list repeats a room, and no room is in both.
    #[verifier::type_invariant]
    pub open spec fn consistent(&self) -> bool {
        &&& self.joined_view().no_duplicates()
        &&& self.invited_view().no_duplicates()
        &&& forall|id: Seq<char>|
            !(self.joined_view().contains(id) && self.invited_view().contains(id))
    }

    /// The state that the snapshot gives for a room.
    pub open spec fn state(&self, id: Seq<char>) -> MembershipState {
        if self.joined_view().contains(id) {
            MembershipState::Joined
        } else if self.invited_view().contains(id) {
            MembershipState::Invited
        } else {
            MembershipState::Absent
        }
    }

    /// Every room that the snapshot lists: the joined ones, then the invited
    /// ones.
    pub open spec fn known_view(&self) -> Seq<Seq<char>> {
        self.joined_view() + self.invited_view()
    }

    /// Makes a snapshot of the two lists. A room that is in both counts as
    /// joined.
    pub fn new(joined: RoomSet, invited: RoomSet) -> (snapshot: RoomSnapshot)
        ensures
            snapshot.joined_view() == joined@,
            snapshot.invited_view() == kept_out(invited@, joined@),
    {
        proof {
            use_type_invariant(&joined);
            use_type_invariant(&invited);
            lemma_kept_sets(invited@, joined@);
        }
        let invited = invited.difference(&joined);
        RoomSnapshot { joined, invited }
    }

    /// The joined rooms.
    pub fn joined(&self) -> (rooms: &RoomSet)
        ensures
            rooms@ == self.joined_view(),
            self.consistent(),
    {
        proof {
            use_type_invariant(self);
        }
        &self.joined
    }

    /// The rooms with an open invitation.
    pub fn invited(&self) -> (rooms: &RoomSet)
        ensures
            rooms@ == self.invited_view(),
            self.consistent(),
    {
        proof {
            use_type_invariant(self);
        }
        &self.invited
    }

    /// Every room that the snapshot lists.
    pub fn known(&self) -> (rooms: RoomSet)
        ensures
            rooms@ == self.known_view(),
    {
        proof {
            use_type_invariant(self);
        }
        let mut rooms = self.joined.clone();
        rooms.extend(&self.invited);
        proof {
            let listed = self.invited@;
            let held = self.joined@;
            assert(kept_out(listed, held) =~= listed) by {
                lemma_kept_unchanged(listed, held);
            }
        }
        rooms
    }

    /// The state that the snapshot gives for a room.
    pub fn state_of(&self, id: &RoomId) -> (state: MembershipState)
        ensures
            state == self.state(id@),
    {
        if self.joined.contains(id) {
            MembershipState::Joined
        } else if self.invited.contains(id) {
            MembershipState::Invited
        } else {
            MembershipState::Absent
        }
    }
}

/// Removing the rooms of a list that shares none with `s` changes nothing.
pub proof fn lemma_kept_unchanged(s: Seq<Seq<char>>, other: Seq<Seq<char>>)
    requires
        forall|id: Seq<char>| !(other.contains(id) && s.contains(id)),
    ensures
        kept_out(s, other) == s,
    decreases s.len(),
{
    reveal(Seq::filter);
    if s.len() > 0 {
        let front = s.drop_last();
        assert forall|id: Seq<char>| !(other.contains(id) && front.contains(id)) by {
            if front.contains(id) {
                let i = choose|i: int| 0 <= i < front.len() && front[i] == id;
                assert(s[i] == id);
            }
        }
        lemma_kept_unchanged(front, other);
        assert(s[s.len() - 1] == s.last());
        assert(s.contains(s.last()));
        assert(front.push(s.last()) =~= s);
    } else {
        assert(kept_out(s, other) =~= s);
    }
}

} // verus!
