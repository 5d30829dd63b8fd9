//! The operator's choice of rooms to migrate.

use crate::room::{lemma_filter_step, RoomId, RoomSet};
use vstd::prelude::*;

verus! {

/// An allow-list and a deny-list of rooms. An empty allow-list allows every
/// room; a room on the deny-list is left out whatever the allow-list says.
#[derive(Debug)]
pub struct RoomFilter {
    allow: RoomSet,
    deny: RoomSet,
}

impl RoomFilter {
    /// The rooms on the allow-list.
    pub closed spec fn allowed(&self) -> Seq<Seq<char>> {
        self.allow@
    }

    /// The rooms on the deny-list.
    pub closed spec fn denied(&self) -> Seq<Seq<char>> {
        self.deny@
    }

    /// Whether the filter lets a room through.
    pub open spec fn admits(&self, id: Seq<char>) -> bool {
        &&& !self.denied().contains(id)
        &&& (self.allowed().len() == 0 || self.allowed().contains(id))
    }

    /// `admits` as a test on identifiers.
    pub open spec fn admitting(&self) -> spec_fn(Seq<char>) -> bool {
        |id: Seq<char>| self.admits(id)
    }

    /// A filter with the given lists.
    pub fn new(allow: RoomSet, deny: RoomSet) -> (filter: RoomFilter)
        ensures
            filter.allowed() == allow@,
            filter.denied() == deny@,
    {
        RoomFilter { allow, deny }
    }

    /// Whether the filter lets the room through.
    pub fn permits(&self, id: &RoomId) -> (admitted: bool)
        ensures
            admitted == self.admits(id@),
    {
        if self.deny.contains(id) {
            false
        } else {
            self.allow.is_empty() || self.allow.contains(id)
        }
    }

    /// The rooms of `rooms` that the filter lets through, in their order.
    pub fn select(&self, rooms: &RoomSet) -> (chosen: RoomSet)
        ensures
            chosen@ == rooms@.filter(self.admitting()),
    {
        proof {
            use_type_invariant(rooms);
        }
        let ghost pred = self.admitting();
        let mut chosen = RoomSet::new();
        let n = rooms.len();
        let mut i: usize = 0;
        assert(rooms@.take(0).filter(pred) =~= Seq::<Seq<char>>::empty()) by {
            reveal(Seq::filter);
            assert(rooms@.take(0) =~= Seq::<Seq<char>>::empty());
        }
        while i < n
            invariant
                i <= n,
                n == rooms@.len(),
                rooms@.no_duplicates(),
                pred == self.admitting(),
                chosen@ == rooms@.take(i as int).filter(pred),
            decreases n - i,
        {
            let id = rooms.get(i);
            proof {
                lemma_filter_step(rooms@, i as int, pred);
            }
            if self.permits(id) {
                chosen.insert(id.clone());
            }
            i += 1;
        }
        assert(rooms@.take(i as int) =~= rooms@);
        chosen
    }
}

} // verus!
