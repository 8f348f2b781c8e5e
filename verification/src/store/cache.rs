//! The cache in memory.

use crate::store::laws::lemma_lookup_some;
use crate::store::laws::lemma_table_stored;
use crate::store::laws::lemma_table_without;
use crate::store::laws::lemma_trimmed_is_suffix;
use crate::store::laws::lemma_weight_push;
use crate::store::laws::lemma_weight_remove;
use crate::store::laws::lemma_without_absent;
use crate::store::laws::lemma_without_at;
use crate::store::laws::lemma_without_lookup;
use crate::store::model::CacheEntry;
use crate::store::model::EntryView;
use crate::store::model::entry_table;
use crate::store::model::lookup;
use crate::store::model::stored;
use crate::store::model::trimmed;
use crate::store::model::unexpired;
use crate::store::model::weight;
use crate::store::model::well_formed;
use crate::store::model::without;
use crate::text::text_eq;
use vstd::hash_map::StringHashMap;
use vstd::prelude::*;

verus! {

/// The entry of the key at an index of the order, as the table has it.
spec fn entry_at(order: Seq<String>, slots: Map<Seq<char>, CacheEntry>, i: int) -> EntryView {
    slots[order[i]@].under(order[i]@)
}

/// The entries that the keys in their order and the table of their entries
/// make.
spec fn shelved(order: Seq<String>, slots: Map<Seq<char>, CacheEntry>) -> Seq<EntryView> {
    Seq::new(order.len(), |i: int| entry_at(order, slots, i))
}

/// The order and the table hold the same keys, the order each once.
spec fn linked(order: Seq<String>, slots: Map<Seq<char>, CacheEntry>) -> bool {
    &&& forall|i: int| 0 <= i < order.len() ==> slots.contains_key((#[trigger] order[i])@)
    &&& forall|i: int, j: int|
        0 <= i < j < order.len() ==> (#[trigger] order[i])@ != (#[trigger] order[j])@
    &&& forall|key: Seq<char>| #[trigger]
        slots.contains_key(key) ==> exists|i: int| 0 <= i < order.len() && (#[trigger] order[i])@ == key
}

/// The keys in the order of their last writing, the entry of each key, and
/// the count of the payload bytes.
struct Shelf {
    order: Vec<String>,
    slots: StringHashMap<CacheEntry>,
    used: u64,
}

impl Shelf {
    spec fn views(&self) -> Seq<EntryView> {
        shelved(self.order@, self.slots@)
    }

    spec fn ok(&self, capacity: u64) -> bool {
        &&& linked(self.order@, self.slots@)
        &&& weight(self.views()) <= capacity
        &&& self.used == weight(self.views())
    }

    fn empty() -> (shelf: Shelf)
        ensures
            shelf.views() == Seq::<EntryView>::empty(),
            shelf.ok(0),
    {
        Shelf { order: Vec::new(), slots: StringHashMap::new(), used: 0 }
    }

    /// The entry under this key.
    fn entry(&self, key: &str, Ghost(capacity): Ghost<u64>) -> (found: Option<&CacheEntry>)
        requires
            self.ok(capacity),
        ensures
            match lookup(self.views(), key@) {
                Some(entry) => found matches Some(e) && e.under(key@) == entry,
                None => found is None,
            },
    {
        let found = self.slots.get(key);
        proof {
            let views = self.views();
            lemma_lookup_some(views, key@);
            if self.slots@.contains_key(key@) {
                let i = choose|i: int| 0 <= i < self.order@.len() && (#[trigger] self.order@[i])@ == key@;
                assert(views[i] == self.slots@[key@].under(key@));
            } else if lookup(views, key@) is Some {
                let entry = lookup(views, key@)->0;
            }
        }
        found
    }

    /// The index in the order of a key that has an entry.
    fn position(&self, key: &str) -> (index: usize)
        requires
            linked(self.order@, self.slots@),
            self.slots@.contains_key(key@),
        ensures
            index < self.order@.len(),
            self.order@[index as int]@ == key@,
    {
        let count = self.order.len();
        let mut i: usize = 0;
        loop
            invariant
                i < count == self.order@.len(),
                exists|j: int| i <= j < count && (#[trigger] self.order@[j])@ == key@,
            decreases count - i,
        {
            if text_eq(self.order[i].as_str(), key) {
                return i;
            }
            i += 1;
        }
    }

    /// Takes out the entry with this key.
    fn take(&mut self, key: &str, Ghost(capacity): Ghost<u64>)
        requires
            old(self).ok(capacity),
        ensures
            final(self).ok(capacity),
            final(self).views() == without(old(self).views(), key@),
    {
        let ghost before = self.views();
        let ghost order = self.order@;
        let ghost slots = self.slots@;
        let size = match self.slots.get(key) {
            Some(entry) => entry.payload.len() as u64,
            None => {
                proof {
                    lemma_without_absent(before, key@);
                }
                return ;
            },
        };
        let i = self.position(key);
        self.order.remove(i);
        self.slots.remove(key);
        proof {
            let after = self.views();
            assert(after =~= before.remove(i as int));
            lemma_without_at(before, i as int);
            lemma_weight_remove(before, i as int);
            assert forall|other: Seq<char>| #[trigger]
                self.slots@.contains_key(other) implies exists|j: int|
                0 <= j < self.order@.len() && (#[trigger] self.order@[j])@ == other by {
                let j0 = choose|j: int| 0 <= j < order.len() && (#[trigger] order[j])@ == other;
                let j = if j0 < i { j0 } else { j0 - 1 };
                assert(self.order@[j] == order[j0]);
            }
        }
        self.used = self.used - size;
    }

    /// Lets the entries written longest ago go until `needed` bytes are free.
    fn make_room(&mut self, needed: u64, capacity: u64)
        requires
            old(self).ok(capacity),
            needed <= capacity,
        ensures
            final(self).ok(capacity),
            final(self).views() == trimmed(old(self).views(), capacity - needed),
            final(self).used + needed <= capacity,
    {
        let ghost before = self.views();
        let ghost order = self.order@;
        let ghost slots = self.slots@;
        let budget = capacity - needed;
        let mut used = self.used;
        let mut k: usize = 0;
        proof {
            assert(before.skip(0) =~= before);
        }
        while k < self.order.len() && used > budget
            invariant
                k <= order.len(),
                self.order@ == order,
                before == shelved(order, slots),
                linked(order, slots),
                used == weight(before.skip(k as int)),
                trimmed(before, budget as int) == trimmed(before.skip(k as int), budget as int),
                forall|j: int|
                    k <= j < order.len() ==> self.slots@.contains_key((#[trigger] order[j])@)
                        && self.slots@[order[j]@] == slots[order[j]@],
                forall|key: Seq<char>| #[trigger]
                    self.slots@.contains_key(key) ==> exists|j: int|
                        k <= j < order.len() && (#[trigger] order[j])@ == key,
            decreases order.len() - k,
        {
            proof {
                assert(before.skip(k as int).drop_first() =~= before.skip(k + 1));
            }
            let size = match self.slots.get(self.order[k].as_str()) {
                Some(entry) => entry.payload.len() as u64,
                None => 0,
            };
            self.slots.remove(self.order[k].as_str());
            used = used - size;
            k += 1;
        }
        let kept = self.order.split_off(k);
        self.order = kept;
        self.used = used;
        proof {
            let after = self.views();
            assert(after =~= before.skip(k as int));
            assert forall|key: Seq<char>| #[trigger]
                self.slots@.contains_key(key) implies exists|j: int|
                0 <= j < self.order@.len() && (#[trigger] self.order@[j])@ == key by {
                let j0 = choose|j: int| k <= j < order.len() && (#[trigger] order[j])@ == key;
                assert(self.order@[j0 - k] == order[j0]);
            }
        }
    }

    /// Puts an entry at the end, under a key that has none.
    fn push(&mut self, key: String, entry: CacheEntry, Ghost(capacity): Ghost<u64>)
        requires
            old(self).ok(capacity),
            old(self).used + entry.payload@.len() <= capacity,
            !old(self).slots@.contains_key(key@),
        ensures
            final(self).ok(capacity),
            final(self).views() == old(self).views().push(entry.under(key@)),
    {
        let ghost before = self.views();
        let ghost order = self.order@;
        let ghost slots = self.slots@;
        let ghost added = entry.under(key@);
        let size = entry.payload.len() as u64;
        self.order.push(key.clone());
        self.slots.insert(key, entry);
        self.used = self.used + size;
        proof {
            let after = self.views();
            assert(after =~= before.push(added));
            lemma_weight_push(before, added);
            assert forall|other: Seq<char>| #[trigger]
                self.slots@.contains_key(other) implies exists|j: int|
                0 <= j < self.order@.len() && (#[trigger] self.order@[j])@ == other by {
                if other == key@ {
                    assert(self.order@[order.len() as int]@ == other);
                } else {
                    let j = choose|j: int| 0 <= j < order.len() && (#[trigger] order[j])@ == other;
                    assert(self.order@[j] == order[j]);
                }
            }
        }
    }

    /// Lets go every entry that has expired at `now`.
    fn purge(&mut self, now: u64, Ghost(capacity): Ghost<u64>)
        requires
            old(self).ok(capacity),
        ensures
            final(self).ok(capacity),
            final(self).views() == unexpired(old(self).views(), now),
    {
        let ghost before = self.views();
        let ghost order = self.order@;
        let ghost slots = self.slots@;
        let mut kept: Vec<String> = Vec::new();
        let mut used: u64 = 0;
        let mut i: usize = 0;
        proof {
            assert(before.skip(0) =~= before);
        }
        while i < self.order.len()
            invariant
                i <= order.len(),
                self.order@ == order,
                before == shelved(order, slots),
                linked(order, slots),
                weight(before) <= capacity,
                shelved(kept@, self.slots@) == unexpired(before.take(i as int), now),
                used == weight(unexpired(before.take(i as int), now)),
                weight(unexpired(before.take(i as int), now)) + weight(before.skip(i as int))
                    <= weight(before),
                forall|j: int|
                    0 <= j < kept@.len() ==> self.slots@.contains_key((#[trigger] kept@[j])@)
                        && exists|j0: int| 0 <= j0 < i && (#[trigger] order[j0])@ == kept@[j]@,
                forall|a: int, b: int|
                    0 <= a < b < kept@.len() ==> (#[trigger] kept@[a])@ != (#[trigger] kept@[b])@,
                forall|j: int|
                    i <= j < order.len() ==> self.slots@.contains_key((#[trigger] order[j])@)
                        && self.slots@[order[j]@] == slots[order[j]@],
                forall|key: Seq<char>| #[trigger]
                    self.slots@.contains_key(key) ==> (exists|j: int|
                        0 <= j < kept@.len() && (#[trigger] kept@[j])@ == key) || (exists|j: int|
                        i <= j < order.len() && (#[trigger] order[j])@ == key),
            decreases order.len() - i,
        {
            let ghost here = self.slots@;
            let ghost names = kept@;
            proof {
                assert(before.take(i + 1).drop_last() =~= before.take(i as int));
                assert(before.skip(i as int).drop_first() =~= before.skip(i + 1));
                lemma_weight_push(unexpired(before.take(i as int), now), before[i as int]);
            }
            let key = &self.order[i];
            let (fresh, size) = match self.slots.get(key.as_str()) {
                Some(entry) => (now < entry.expiry, entry.payload.len() as u64),
                None => (false, 0),
            };
            if fresh {
                kept.push(key.clone());
                used = used + size;
                proof {
                    assert forall|other: Seq<char>| #[trigger]
                        here.contains_key(other) implies (exists|j: int|
                        0 <= j < kept@.len() && (#[trigger] kept@[j])@ == other) || (exists|j: int|
                        i + 1 <= j < order.len() && (#[trigger] order[j])@ == other) by {
                        if exists|j: int| 0 <= j < names.len() && (#[trigger] names[j])@ == other {
                            let j = choose|j: int|
                                0 <= j < names.len() && (#[trigger] names[j])@ == other;
                            assert(kept@[j] == names[j]);
                        } else {
                            let j = choose|j: int|
                                i <= j < order.len() && (#[trigger] order[j])@ == other;
                            if j == i {
                                assert(kept@[names.len() as int]@ == other);
                            }
                        }
                    }
                }
            } else {
                self.slots.remove(key.as_str());
            }
            i += 1;
        }
        self.order = kept;
        self.used = used;
    }
}

/// The result cache.
pub struct ResultCache {
    capacity: u64,
    shelf: Shelf,
}

impl ResultCache {
    #[verifier::type_invariant]
    spec fn sound(self) -> bool {
        self.shelf.ok(self.capacity)
    }

    /// The entries, from the one written longest ago to the one written last.
    pub closed spec fn entries(&self) -> Seq<EntryView> {
        self.shelf.views()
    }

    /// The number of payload bytes that the cache may hold.
    pub closed spec fn budget(&self) -> u64 {
        self.capacity
    }

    /// An empty cache that may hold `capacity` payload bytes.
    pub fn new(capacity: u64) -> (cache: Self)
        ensures
            cache@ == Map::<Seq<char>, (Seq<u8>, u64)>::empty(),
            cache.entries() == Seq::<EntryView>::empty(),
            cache.budget() == capacity,
    {
        ResultCache { capacity, shelf: Shelf::empty() }
    }

    /// The number of payload bytes that the cache may hold.
    pub fn capacity(&self) -> (capacity: u64)
        ensures
            capacity == self.budget(),
    {
        self.capacity
    }

    /// The number of payload bytes that the cache holds. It is within the
    /// capacity, and no two entries have the same key.
    pub fn used_bytes(&self) -> (used: u64)
        ensures
            used == weight(self.entries()),
            well_formed(self.entries(), self.budget()),
    {
        proof {
            use_type_invariant(self);
        }
        self.shelf.used
    }

    /// The number of entries.
    pub fn len(&self) -> (count: usize)
        ensures
            count == self.entries().len(),
    {
        self.shelf.order.len()
    }

    /// The entry under this key, if there is one. Nothing changes.
    pub fn get(&self, key: &str) -> (found: Option<&CacheEntry>)
        ensures
            match found {
                Some(entry) => self@.contains_key(key@) && self@[key@] == (
                    entry.payload@,
                    entry.expiry,
                ),
                None => !self@.contains_key(key@),
            },
            match lookup(self.entries(), key@) {
                Some(entry) => found matches Some(e) && e.under(key@) == entry,
                None => found is None,
            },
            well_formed(self.entries(), self.budget()),
    {
        proof {
            use_type_invariant(self);
        }
        self.shelf.entry(key, Ghost(self.capacity))
    }

    /// Writes an entry: inserts it, or puts it in the place of the entry
    /// under the same key.
    ///
    /// Afterwards the entry is under the key, unless its payload alone
    /// exceeds the capacity: then nothing is under the key. What was under
    /// another key is still there or has left.
    pub fn put(&mut self, key: String, payload: Vec<u8>, expiry: u64)
        ensures
            final(self).budget() == old(self).budget(),
            final(self)@.contains_key(key@) <==> payload@.len() <= old(self).budget(),
            final(self)@.submap_of(old(self)@.insert(key@, (payload@, expiry))),
            final(self).entries() == stored(
                old(self).entries(),
                old(self).budget(),
                (EntryView { key: key@, payload: payload@, expiry }),
            ),
            well_formed(final(self).entries(), final(self).budget()),
    {
        proof {
            use_type_invariant(&*self);
            lemma_table_stored(
                self.entries(),
                self.capacity,
                EntryView { key: key@, payload: payload@, expiry },
            );
        }
        let ghost before = self.entries();
        let mut shelf = Shelf::empty();
        std::mem::swap(&mut shelf, &mut self.shelf);
        shelf.take(key.as_str(), Ghost(self.capacity));
        let size = payload.len();
        if size as u64 <= self.capacity {
            shelf.make_room(size as u64, self.capacity);
            proof {
                let others = without(before, key@);
                lemma_without_lookup(before, key@, key@);
                lemma_lookup_some(others, key@);
                lemma_trimmed_is_suffix(others, self.capacity - size);
                let k = choose|k: int|
                    0 <= k <= others.len() && shelf.views() == #[trigger] others.skip(k);
                if shelf.slots@.contains_key(key@) {
                    let i = choose|i: int|
                        0 <= i < shelf.order@.len() && (#[trigger] shelf.order@[i])@ == key@;
                    assert(shelf.views()[i] == others[i + k]);
                }
            }
            shelf.push(key, CacheEntry { payload, expiry }, Ghost(self.capacity));
        }
        self.shelf = shelf;
    }

    /// Takes out the entry under this key, if there is one. Every other key
    /// keeps its entry.
    pub fn invalidate(&mut self, key: &str)
        ensures
            final(self).budget() == old(self).budget(),
            final(self)@ == old(self)@.remove(key@),
            final(self).entries() == without(old(self).entries(), key@),
            well_formed(final(self).entries(), final(self).budget()),
    {
        proof {
            use_type_invariant(&*self);
            lemma_table_without(self.entries(), key@);
        }
        let mut shelf = Shelf::empty();
        std::mem::swap(&mut shelf, &mut self.shelf);
        shelf.take(key, Ghost(self.capacity));
        self.shelf = shelf;
    }

    /// Lets go every entry that has expired at `now`. What is served at
    /// `now` or later is the same before and after.
    pub fn purge_expired(&mut self, now: u64)
        ensures
            final(self).budget() == old(self).budget(),
            final(self).entries() == unexpired(old(self).entries(), now),
            well_formed(final(self).entries(), final(self).budget()),
    {
        proof {
            use_type_invariant(&*self);
        }
        let mut shelf = Shelf::empty();
        std::mem::swap(&mut shelf, &mut self.shelf);
        shelf.purge(now, Ghost(self.capacity));
        self.shelf = shelf;
    }
}

impl View for ResultCache {
    type V = Map<Seq<char>, (Seq<u8>, u64)>;

    /// The table from key to payload and expiry.
    open spec fn view(&self) -> Map<Seq<char>, (Seq<u8>, u64)> {
        entry_table(self.entries())
    }
}

} // verus!
