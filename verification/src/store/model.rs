//! A cache as a list of entries, from the one written longest ago to the
//! one written last.

use vstd::prelude::*;

verus! {

/// What the cache holds under one key.
#[derive(Debug, PartialEq, Eq)]
pub struct CacheEntry {
    /// The byte form of a whole response.
    pub payload: Vec<u8>,
    /// The instant from which the payload is no longer served.
    pub expiry: u64,
}

/// A key with the content of what the cache holds under it.
pub ghost struct EntryView {
    pub key: Seq<char>,
    pub payload: Seq<u8>,
    pub expiry: u64,
}

impl CacheEntry {
    /// The content of this entry, held under `key`.
    pub open spec fn under(&self, key: Seq<char>) -> EntryView {
        EntryView { key, payload: self.payload@, expiry: self.expiry }
    }
}

/// The number of payload bytes in a list of entries.
pub open spec fn weight(entries: Seq<EntryView>) -> nat
    decreases entries.len(),
{
    if entries.len() == 0 {
        0
    } else {
        entries[0].payload.len() + weight(entries.drop_first())
    }
}

/// No two entries have the same key.
pub open spec fn distinct_keys(entries: Seq<EntryView>) -> bool {
    forall|i: int, j: int|
        0 <= i < j < entries.len() ==> (#[trigger] entries[i]).key != (#[trigger] entries[j]).key
}

/// What every cache is: a list of entries with distinct keys whose payloads
/// are within the budget.
pub open spec fn well_formed(entries: Seq<EntryView>, capacity: u64) -> bool {
    distinct_keys(entries) && weight(entries) <= capacity
}

/// The entry with this key, if there is one.
pub open spec fn lookup(entries: Seq<EntryView>, key: Seq<char>) -> Option<EntryView>
    decreases entries.len(),
{
    if entries.len() == 0 {
        None
    } else if entries[0].key == key {
        Some(entries[0])
    } else {
        lookup(entries.drop_first(), key)
    }
}

/// The entries but those with this key.
pub open spec fn without(entries: Seq<EntryView>, key: Seq<char>) -> Seq<EntryView>
    decreases entries.len(),
{
    if entries.len() == 0 {
        entries
    } else if entries[0].key == key {
        without(entries.drop_first(), key)
    } else {
        seq![entries[0]] + without(entries.drop_first(), key)
    }
}

/// The entries after those written longest ago have left, as many as it
/// takes to come within `budget` bytes.
pub open spec fn trimmed(entries: Seq<EntryView>, budget: int) -> Seq<EntryView>
    decreases entries.len(),
{
    if entries.len() == 0 || weight(entries) <= budget {
        entries
    } else {
        trimmed(entries.drop_first(), budget)
    }
}

/// The entries after `entry` has been written into a cache of `capacity`
/// bytes.
///
/// An entry with the same key leaves. A payload that alone exceeds the
/// capacity is not kept. Else the entries written longest ago leave until
/// the new one fits, and it becomes the one written last.
pub open spec fn stored(entries: Seq<EntryView>, capacity: u64, entry: EntryView) -> Seq<
    EntryView,
> {
    let others = without(entries, entry.key);
    if entry.payload.len() > capacity {
        others
    } else {
        trimmed(others, capacity - entry.payload.len()).push(entry)
    }
}

/// The entries that have not expired at `now`, in their order.
pub open spec fn unexpired(entries: Seq<EntryView>, now: u64) -> Seq<EntryView>
    decreases entries.len(),
{
    if entries.len() == 0 {
        entries
    } else if now < entries.last().expiry {
        unexpired(entries.drop_last(), now).push(entries.last())
    } else {
        unexpired(entries.drop_last(), now)
    }
}

/// The table from key to payload and expiry that a list of entries makes.
pub open spec fn entry_table(entries: Seq<EntryView>) -> Map<Seq<char>, (Seq<u8>, u64)> {
    Map::new(
        |key: Seq<char>| lookup(entries, key) is Some,
        |key: Seq<char>| (lookup(entries, key)->0.payload, lookup(entries, key)->0.expiry),
    )
}

} // verus!
