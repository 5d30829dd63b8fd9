//! Room identifiers and ordered sets of them.

use vstd::prelude::*;

verus! {

/// An opaque handle to a room. Two identifiers name the same room exactly
/// when their characters are equal.
#[derive(Debug)]
pub struct RoomId {
    name: String,
}

impl View for RoomId {
    type V = Seq<char>;

    closed spec fn view(&self) -> Seq<char> {
        self.name@
    }
}

impl RoomId {
    /// Wraps the text of an identifier as it stands.
    pub fn new(name: String) -> (id: RoomId)
        ensures
            id@ == name@,
    {
        RoomId { name }
    }

    /// Copies the text of a borrowed identifier.
    pub fn from_str(name: &str) -> (id: RoomId)
        ensures
            id@ == name@,
    {
        RoomId { name: name.to_owned() }
    }

    /// The text of the identifier.
    pub fn as_str(&self) -> (text: &str)
        ensures
            text@ == self@,
    {
        self.name.as_str()
    }

    /// Whether the identifier has no characters at all.
    pub fn is_empty(&self) -> (empty: bool)
        ensures
            empty == (self@.len() == 0),
    {
        self.name.as_str().is_empty()
    }

    /// Whether both identifiers name the same room.
    pub fn same(&self, other: &RoomId) -> (equal: bool)
        ensures
            equal == (self@ == other@),
    {
        self.name == other.name
    }
}

impl Clone for RoomId {
    fn clone(&self) -> (copy: RoomId)
        ensures
            copy@ == self@,
    {
        RoomId { name: self.name.clone() }
    }
}

/// An ordered collection of room identifiers in which none occurs twice.
/// Its view lists the identifiers in the order in which they were added.
#[derive(Debug)]
pub struct RoomSet {
    items: Vec<RoomId>,
}

impl View for RoomSet {
    type V = Seq<Seq<char>>;

    closed spec fn view(&self) -> Seq<Seq<char>> {
        names(self.items@)
    }
}

/// The identifiers that a sequence of rooms spells out.
pub open spec fn names(rooms: Seq<RoomId>) -> Seq<Seq<char>> {
    rooms.map_values(|r: RoomId| r@)
}

/// The test "occurs in `other`".
pub open spec fn member_of(other: Seq<Seq<char>>) -> spec_fn(Seq<char>) -> bool {
    |id: Seq<char>| other.contains(id)
}

/// The test "does not occur in `other`".
pub open spec fn absent_from(other: Seq<Seq<char>>) -> spec_fn(Seq<char>) -> bool {
    |id: Seq<char>| !other.contains(id)
}

/// The identifiers of `s` with every repetition after the first dropped.
pub open spec fn first_occurrences(s: Seq<Seq<char>>) -> Seq<Seq<char>>
    decreases s.len(),
{
    if s.len() == 0 {
        Seq::empty()
    } else {
        let earlier = first_occurrences(s.drop_last());
        if earlier.contains(s.last()) {
            earlier
        } else {
            earlier.push(s.last())
        }
    }
}

/// The identifiers of `s` that also occur in `other`, in the order of `s`.
pub open spec fn kept_in(s: Seq<Seq<char>>, other: Seq<Seq<char>>) -> Seq<Seq<char>> {
    s.filter(member_of(other))
}

/// The identifiers of `s` that do not occur in `other`, in the order of `s`.
pub open spec fn kept_out(s: Seq<Seq<char>>, other: Seq<Seq<char>>) -> Seq<Seq<char>> {
    s.filter(absent_from(other))
}

/// The identifiers of `s` followed by those of `more` that `s` lacks.
pub open spec fn appended(s: Seq<Seq<char>>, more: Seq<Seq<char>>) -> Seq<Seq<char>> {
    s + kept_out(more, s)
}

/// Appending adds exactly the identifiers of `more`, and repeats none if
/// neither sequence does.
pub proof fn lemma_appended(s: Seq<Seq<char>>, more: Seq<Seq<char>>)
    requires
        more.no_duplicates(),
    ensures
        forall|id: Seq<char>| appended(s, more).contains(id) <==> s.contains(id) || more.contains(id),
        s.no_duplicates() ==> appended(s, more).no_duplicates(),
        s.is_prefix_of(appended(s, more)),
{
    let extra = kept_out(more, s);
    lemma_filter_distinct(more, absent_from(s));
    assert forall|id: Seq<char>| appended(s, more).contains(id) <==> s.contains(id)
        || more.contains(id) by {
        if appended(s, more).contains(id) {
            let i = choose|i: int| 0 <= i < appended(s, more).len() && appended(s, more)[i] == id;
            if i < s.len() {
                assert(s[i] == id);
            } else {
                assert(extra[i - s.len()] == id);
            }
        }
        if s.contains(id) {
            let i = choose|i: int| 0 <= i < s.len() && s[i] == id;
            assert(appended(s, more)[i] == id);
        } else if more.contains(id) {
            assert(extra.contains(id));
            let i = choose|i: int| 0 <= i < extra.len() && extra[i] == id;
            assert(appended(s, more)[s.len() + i] == id);
        }
    }
    if s.no_duplicates() {
        assert forall|i: int, j: int| 0 <= i < s.len() && 0 <= j < extra.len() implies s[i]
            != extra[j] by {
            assert(extra.contains(extra[j]));
        }
        vstd::seq_lib::lemma_no_dup_in_concat(s, extra);
    }
}

/// The identifiers of `rooms` at the positions that `keep` marks, in order.
/// Marks of another length than the rooms pick nothing.
pub open spec fn picked(rooms: Seq<Seq<char>>, keep: Seq<bool>) -> Seq<Seq<char>>
    decreases rooms.len(),
{
    if rooms.len() == 0 || keep.len() != rooms.len() {
        Seq::empty()
    } else {
        let earlier = picked(rooms.drop_last(), keep.drop_last());
        if keep.last() {
            earlier.push(rooms.last())
        } else {
            earlier
        }
    }
}

/// An identifier is picked exactly when it stands at a marked position, and
/// picking from a sequence without repetitions leaves none.
pub proof fn lemma_picked(rooms: Seq<Seq<char>>, keep: Seq<bool>)
    requires
        keep.len() == rooms.len(),
    ensures
        forall|id: Seq<char>|
            picked(rooms, keep).contains(id) <==> exists|i: int|
                0 <= i < rooms.len() && rooms[i] == id && keep[i],
        rooms.no_duplicates() ==> picked(rooms, keep).no_duplicates(),
        picked(rooms, keep).len() <= rooms.len(),
    decreases rooms.len(),
{
    if rooms.len() > 0 {
        let front = rooms.drop_last();
        let marks = keep.drop_last();
        let earlier = picked(front, marks);
        let last = rooms.len() - 1;
        lemma_picked(front, marks);
        assert forall|id: Seq<char>|
            picked(rooms, keep).contains(id) <==> exists|i: int|
                0 <= i < rooms.len() && rooms[i] == id && keep[i] by {
            if picked(rooms, keep).contains(id) {
                let j = choose|j: int|
                    0 <= j < picked(rooms, keep).len() && picked(rooms, keep)[j] == id;
                if keep.last() && j == earlier.len() {
                    assert(rooms[last] == id && keep[last]);
                } else {
                    assert(earlier[j] == id);
                    assert(earlier.contains(id));
                    let i = choose|i: int| 0 <= i < front.len() && front[i] == id && marks[i];
                    assert(rooms[i] == id && keep[i]);
                }
            }
            if exists|i: int| 0 <= i < rooms.len() && rooms[i] == id && keep[i] {
                let i = choose|i: int| 0 <= i < rooms.len() && rooms[i] == id && keep[i];
                if i == last {
                    assert(picked(rooms, keep)[earlier.len() as int] == id);
                } else {
                    assert(front[i] == id && marks[i]);
                    assert(earlier.contains(id));
                    let j = choose|j: int| 0 <= j < earlier.len() && earlier[j] == id;
                    assert(picked(rooms, keep)[j] == id);
                }
            }
        }
        if rooms.no_duplicates() {
            assert(front.no_duplicates());
            if keep.last() && earlier.contains(rooms.last()) {
                let i = choose|i: int|
                    0 <= i < front.len() && front[i] == rooms.last() && marks[i];
                assert(rooms[i] == rooms[last]);
            }
        }
    }
}

/// Filtering a sequence without repetitions leaves none.
pub proof fn lemma_filter_distinct(s: Seq<Seq<char>>, pred: spec_fn(Seq<char>) -> bool)
    requires
        s.no_duplicates(),
    ensures
        s.filter(pred).no_duplicates(),
        forall|id: Seq<char>| s.filter(pred).contains(id) <==> s.contains(id) && pred(id),
    decreases s.len(),
{
    reveal(Seq::filter);
    if s.len() > 0 {
        let front = s.drop_last();
        lemma_filter_distinct(front, pred);
        assert forall|id: Seq<char>| s.filter(pred).contains(id) <==> s.contains(id) && pred(
            id,
        ) by {
            if s.contains(id) {
                let i = choose|i: int| 0 <= i < s.len() && s[i] == id;
                if i < s.len() - 1 {
                    assert(front[i] == id);
                }
            }
            if front.contains(id) {
                let i = choose|i: int| 0 <= i < front.len() && front[i] == id;
                assert(s[i] == id);
            }
            if pred(s.last()) {
                assert(s.filter(pred) == front.filter(pred).push(s.last()));
                let f = front.filter(pred);
                if f.push(s.last()).contains(id) {
                    let i = choose|i: int| 0 <= i < f.len() + 1 && f.push(s.last())[i] == id;
                    if i < f.len() {
                        assert(f[i] == id);
                    }
                }
                if f.contains(id) {
                    let i = choose|i: int| 0 <= i < f.len() && f[i] == id;
                    assert(f.push(s.last())[i] == id);
                }
                assert(f.push(s.last())[f.len() as int] == s.last());
                assert(s[s.len() - 1] == s.last());
            }
        }
        if pred(s.last()) {
            let f = front.filter(pred);
            assert(!front.contains(s.last())) by {
                if front.contains(s.last()) {
                    let i = choose|i: int| 0 <= i < front.len() && front[i] == s.last();
                    assert(s[i] == s[s.len() - 1]);
                }
            }
            assert(!f.contains(s.last()));
        }
    }
}

/// One step of filtering a sequence without repetitions from the front: the
/// element at `i` joins the result exactly when it passes the test, and it
/// was not in the result before.
pub proof fn lemma_filter_step(s: Seq<Seq<char>>, i: int, pred: spec_fn(Seq<char>) -> bool)
    requires
        s.no_duplicates(),
        0 <= i < s.len(),
    ensures
        s.take(i + 1).filter(pred) == if pred(s[i]) {
            s.take(i).filter(pred).push(s[i])
        } else {
            s.take(i).filter(pred)
        },
        !s.take(i).contains(s[i]),
        !s.take(i).filter(pred).contains(s[i]),
        s.take(i).no_duplicates(),
        s.take(i).filter(pred).no_duplicates(),
{
    s.lemma_take_succ_push(i);
    s.take(i).lemma_filter_push(s[i], pred);
    assert(!s.take(i).contains(s[i])) by {
        if s.take(i).contains(s[i]) {
            let j = choose|j: int| 0 <= j < i && s.take(i)[j] == s[i];
            assert(s[j] == s[i]);
        }
    }
    assert(s.take(i).no_duplicates()) by {
        assert forall|a: int, b: int| 0 <= a < i && 0 <= b < i && a != b implies s.take(i)[a]
            != s.take(i)[b] by {
            assert(s[a] != s[b]);
        }
    }
    lemma_filter_distinct(s.take(i), pred);
}

/// What filtering by membership means for the sets of identifiers.
pub proof fn lemma_kept_sets(s: Seq<Seq<char>>, other: Seq<Seq<char>>)
    requires
        s.no_duplicates(),
    ensures
        kept_in(s, other).no_duplicates(),
        kept_out(s, other).no_duplicates(),
        kept_in(s, other).to_set() == s.to_set().intersect(other.to_set()),
        kept_out(s, other).to_set() == s.to_set().difference(other.to_set()),
        forall|id: Seq<char>| kept_in(s, other).contains(id) <==> s.contains(id) && other.contains(id),
        forall|id: Seq<char>| kept_out(s, other).contains(id) <==> s.contains(id) && !other.contains(id),
{
    lemma_filter_distinct(s, member_of(other));
    lemma_filter_distinct(s, absent_from(other));
    assert(kept_in(s, other).to_set() =~= s.to_set().intersect(other.to_set()));
    assert(kept_out(s, other).to_set() =~= s.to_set().difference(other.to_set()));
}

/// The character sequences that a sequence of strings spells out.
pub open spec fn texts_of(strings: Seq<String>) -> Seq<Seq<char>> {
    strings.map_values(|s: String| s@)
}

/// Every identifier of `s` occurs among its first occurrences, and no other.
pub proof fn lemma_first_occurrences(s: Seq<Seq<char>>)
    ensures
        first_occurrences(s).no_duplicates(),
        forall|id: Seq<char>| first_occurrences(s).contains(id) <==> s.contains(id),
    decreases s.len(),
{
    if s.len() > 0 {
        let front = s.drop_last();
        let earlier = first_occurrences(front);
        lemma_first_occurrences(front);
        assert forall|id: Seq<char>| first_occurrences(s).contains(id) <==> s.contains(id) by {
            if s.contains(id) {
                let i = choose|i: int| 0 <= i < s.len() && s[i] == id;
                if i < s.len() - 1 {
                    assert(front[i] == id);
                }
            }
            if front.contains(id) {
                let i = choose|i: int| 0 <= i < front.len() && front[i] == id;
                assert(s[i] == id);
            }
            assert(s[s.len() - 1] == s.last());
            if !earlier.contains(s.last()) {
                let grown = earlier.push(s.last());
                assert(grown[earlier.len() as int] == s.last());
                if earlier.contains(id) {
                    let i = choose|i: int| 0 <= i < earlier.len() && earlier[i] == id;
                    assert(grown[i] == id);
                }
                if grown.contains(id) {
                    let i = choose|i: int| 0 <= i < grown.len() && grown[i] == id;
                    if i < earlier.len() {
                        assert(earlier[i] == id);
                    }
                }
            }
        }
    }
}

impl RoomSet {
    /// No identifier occurs twice.
    #[verifier::type_invariant]
    pub open spec fn distinct(&self) -> bool {
        self@.no_duplicates()
    }

    /// The empty set.
    pub fn new() -> (set: RoomSet)
        ensures
            set@ == Seq::<Seq<char>>::empty(),
    {
        let set = RoomSet { items: Vec::new() };
        assert(set@ =~= Seq::<Seq<char>>::empty());
        set
    }

    /// How many rooms the set holds.
    pub fn len(&self) -> (n: usize)
        ensures
            n == self@.len(),
    {
        self.items.len()
    }

    /// Whether the set holds no room.
    pub fn is_empty(&self) -> (empty: bool)
        ensures
            empty == (self@.len() == 0),
    {
        self.items.len() == 0
    }

    /// The room at a position in insertion order.
    pub fn get(&self, index: usize) -> (id: &RoomId)
        requires
            index < self@.len(),
        ensures
            id@ == self@[index as int],
    {
        &self.items[index]
    }

    /// Whether the room is in the set.
    pub fn contains(&self, id: &RoomId) -> (found: bool)
        ensures
            found == self@.contains(id@),
    {
        let mut i: usize = 0;
        while i < self.items.len()
            invariant
                i <= self.items.len(),
                forall|j: int| 0 <= j < i ==> self@[j] != id@,
            decreases self.items.len() - i,
        {
            if self.items[i].same(id) {
                assert(self@[i as int] == id@);
                return true;
            }
            i += 1;
        }
        false
    }

    /// Adds the room at the end unless the set already holds it, and tells
    /// whether it was added.
    pub fn insert(&mut self, id: RoomId) -> (fresh: bool)
        ensures
            fresh == !old(self)@.contains(id@),
            final(self)@ == if fresh {
                old(self)@.push(id@)
            } else {
                old(self)@
            },
    {
        proof {
            use_type_invariant(&*self);
        }
        if self.contains(&id) {
            false
        } else {
            let ghost before = self@;
            let mut items: Vec<RoomId> = Vec::new();
            std::mem::swap(&mut items, &mut self.items);
            items.push(id);
            assert(names(items@) =~= before.push(id@));
            self.items = items;
            true
        }
    }
}

impl RoomSet {
    /// The rooms of `self` for which membership in `other` equals `wanted`,
    /// in the order of `self`.
    fn select(&self, other: &RoomSet, wanted: bool) -> (chosen: RoomSet)
        ensures
            chosen@ == if wanted {
                kept_in(self@, other@)
            } else {
                kept_out(self@, other@)
            },
    {
        proof {
            use_type_invariant(self);
        }
        let ghost pred = if wanted {
            member_of(other@)
        } else {
            absent_from(other@)
        };
        let mut items: Vec<RoomId> = Vec::new();
        let mut i: usize = 0;
        assert(self@.take(0) =~= Seq::<Seq<char>>::empty());
        assert(names(items@) =~= self@.take(0).filter(pred)) by {
            reveal(Seq::filter);
        }
        while i < self.items.len()
            invariant
                i <= self.items.len(),
                self@.len() == self.items.len(),
                pred == if wanted {
                    member_of(other@)
                } else {
                    absent_from(other@)
                },
                names(items@) == self@.take(i as int).filter(pred),
            decreases self.items.len() - i,
        {
            let id = &self.items[i];
            let hit = other.contains(id);
            proof {
                self@.lemma_take_succ_push(i as int);
                self@.take(i as int).lemma_filter_push(self@[i as int], pred);
                assert(id@ == self@[i as int]);
                assert(pred(id@) == (hit == wanted));
            }
            if hit == wanted {
                let ghost before = names(items@);
                items.push(id.clone());
                assert(names(items@) =~= before.push(id@));
            }
            i += 1;
        }
        proof {
            assert(self@.take(i as int) =~= self@);
            lemma_filter_distinct(self@, pred);
        }
        RoomSet { items }
    }

    /// The rooms of `self` that `other` holds too, in the order of `self`.
    pub fn intersection(&self, other: &RoomSet) -> (common: RoomSet)
        ensures
            common@ == kept_in(self@, other@),
    {
        self.select(other, true)
    }

    /// The rooms of `self` that `other` does not hold, in the order of `self`.
    pub fn difference(&self, other: &RoomSet) -> (rest: RoomSet)
        ensures
            rest@ == kept_out(self@, other@),
    {
        self.select(other, false)
    }

    /// The rooms at the positions that `keep` marks, in order. Marks of
    /// another length than the set pick nothing.
    pub fn pick(&self, keep: &Vec<bool>) -> (chosen: RoomSet)
        ensures
            chosen@ == picked(self@, keep@),
    {
        proof {
            use_type_invariant(self);
        }
        let mut items: Vec<RoomId> = Vec::new();
        if keep.len() != self.items.len() {
            assert(names(items@) =~= picked(self@, keep@));
            return RoomSet { items };
        }
        let mut i: usize = 0;
        assert(names(items@) =~= picked(self@.take(0), keep@.take(0)));
        while i < self.items.len()
            invariant
                i <= self.items.len(),
                keep@.len() == self.items.len(),
                self@.len() == self.items.len(),
                names(items@) == picked(self@.take(i as int), keep@.take(i as int)),
            decreases self.items.len() - i,
        {
            proof {
                assert(self@.take(i + 1).drop_last() =~= self@.take(i as int));
                assert(keep@.take(i + 1).drop_last() =~= keep@.take(i as int));
            }
            if keep[i] {
                let ghost before = names(items@);
                items.push(self.items[i].clone());
                assert(names(items@) =~= before.push(self@[i as int]));
            }
            i += 1;
        }
        proof {
            assert(self@.take(i as int) =~= self@);
            assert(keep@.take(i as int) =~= keep@);
            lemma_picked(self@, keep@);
        }
        RoomSet { items }
    }

    /// Adds the rooms of `other` that `self` lacks at the end, in the order
    /// of `other`.
    pub fn extend(&mut self, other: &RoomSet)
        ensures
            final(self)@ == appended(old(self)@, other@),
    {
        proof {
            use_type_invariant(&*self);
            use_type_invariant(other);
        }
        let ghost start = self@;
        let ghost pred = absent_from(start);
        let mut i: usize = 0;
        assert(other@.take(0).filter(pred) =~= Seq::<Seq<char>>::empty()) by {
            reveal(Seq::filter);
            assert(other@.take(0) =~= Seq::<Seq<char>>::empty());
        }
        assert(self@ =~= start + other@.take(0).filter(pred));
        while i < other.len()
            invariant
                i <= other@.len(),
                other@.no_duplicates(),
                start.no_duplicates(),
                pred == absent_from(start),
                self@ == start + other@.take(i as int).filter(pred),
            decreases other@.len() - i,
        {
            let id = other.get(i).clone();
            proof {
                lemma_filter_step(other@, i as int, pred);
                lemma_filter_distinct(other@.take(i as int), pred);
                let added = other@.take(i as int).filter(pred);
                assert(self@.contains(id@) <==> start.contains(id@)) by {
                    if self@.contains(id@) {
                        let j = choose|j: int| 0 <= j < self@.len() && self@[j] == id@;
                        if j < start.len() {
                            assert(start[j] == id@);
                        } else {
                            assert(added[j - start.len()] == id@);
                        }
                    }
                    if start.contains(id@) {
                        let j = choose|j: int| 0 <= j < start.len() && start[j] == id@;
                        assert(self@[j] == id@);
                    }
                }
                assert((start + added).push(id@) =~= start + added.push(id@));
            }
            self.insert(id);
            i += 1;
        }
        assert(other@.take(i as int) =~= other@);
    }

    /// The set of the given identifiers, each at the place of its first
    /// occurrence.
    pub fn from_strings(texts: &Vec<String>) -> (set: RoomSet)
        ensures
            set@ == first_occurrences(texts_of(texts@)),
            forall|id: Seq<char>| set@.contains(id) <==> texts_of(texts@).contains(id),
    {
        let ghost all = texts_of(texts@);
        proof {
            lemma_first_occurrences(all);
        }
        let mut set = RoomSet::new();
        let mut i: usize = 0;
        assert(all.take(0) =~= Seq::<Seq<char>>::empty());
        while i < texts.len()
            invariant
                i <= texts.len(),
                all == texts_of(texts@),
                set@ == first_occurrences(all.take(i as int)),
            decreases texts.len() - i,
        {
            proof {
                assert(all.take(i + 1).drop_last() =~= all.take(i as int));
                assert(all.take(i + 1).last() == texts@[i as int]@);
            }
            set.insert(RoomId::from_str(texts[i].as_str()));
            i += 1;
        }
        assert(all.take(i as int) =~= all);
        set
    }

    /// The identifiers as owned strings, in order.
    pub fn to_strings(&self) -> (texts: Vec<String>)
        ensures
            texts@.len() == self@.len(),
            forall|i: int| 0 <= i < self@.len() ==> (#[trigger] texts@[i])@ == self@[i],
    {
        let mut texts: Vec<String> = Vec::new();
        let mut i: usize = 0;
        while i < self.items.len()
            invariant
                i <= self.items.len(),
                texts@.len() == i,
                forall|j: int| 0 <= j < i ==> (#[trigger] texts@[j])@ == self@[j],
            decreases self.items.len() - i,
        {
            texts.push(self.items[i].as_str().to_owned());
            i += 1;
        }
        texts
    }
}

impl Clone for RoomSet {
    fn clone(&self) -> (copy: RoomSet)
        ensures
            copy@ == self@,
    {
        proof {
            use_type_invariant(self);
        }
        let mut items: Vec<RoomId> = Vec::new();
        let mut i: usize = 0;
        while i < self.items.len()
            invariant
                i <= self.items.len(),
                names(items@) == self@.take(i as int),
            decreases self.items.len() - i,
        {
            let ghost before = names(items@);
            items.push(self.items[i].clone());
            assert(names(items@) =~= before.push(self@[i as int]));
            assert(self@.take(i + 1) =~= self@.take(i as int).push(self@[i as int]));
            i += 1;
        }
        assert(self@.take(i as int) =~= self@);
        RoomSet { items }
    }
}

} // verus!
