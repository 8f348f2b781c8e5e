//! What holds of every cache.

use crate::store::model::EntryView;
use crate::store::model::distinct_keys;
use crate::store::model::entry_table;
use crate::store::model::lookup;
use crate::store::model::stored;
use crate::store::model::trimmed;
use crate::store::model::unexpired;
use crate::store::model::weight;
use crate::store::model::well_formed;
use crate::store::model::without;
use vstd::prelude::*;

verus! {

/// An entry that is found has the key that was asked for and is in the list.
pub proof fn lemma_lookup_some(entries: Seq<EntryView>, key: Seq<char>)
    ensures
        lookup(entries, key) matches Some(entry) ==> entry.key == key && exists|i: int|
            0 <= i < entries.len() && #[trigger] entries[i] == entry,
        lookup(entries, key) is None ==> forall|i: int|
            0 <= i < entries.len() ==> (#[trigger] entries[i]).key != key,
    decreases entries.len(),
{
    if entries.len() > 0 {
        let rest = entries.drop_first();
        lemma_lookup_some(rest, key);
        if entries[0].key != key {
            if lookup(rest, key) is None {
                assert forall|i: int| 0 <= i < entries.len() implies (#[trigger] entries[i]).key
                    != key by {
                    if i > 0 {
                        assert(rest[i - 1] == entries[i]);
                    }
                }
            }
        }
    }
}

/// Among distinct keys, the entry at an index is the one found by its key.
pub proof fn lemma_lookup_at(entries: Seq<EntryView>, i: int)
    requires
        distinct_keys(entries),
        0 <= i < entries.len(),
    ensures
        lookup(entries, entries[i].key) == Some(entries[i]),
    decreases entries.len(),
{
    if i > 0 {
        let rest = entries.drop_first();
        lemma_lookup_at(rest, i - 1);
    }
}

/// The bytes of a list with one more entry at its end.
pub proof fn lemma_weight_push(entries: Seq<EntryView>, entry: EntryView)
    ensures
        weight(entries.push(entry)) == weight(entries) + entry.payload.len(),
    decreases entries.len(),
{
    let longer = entries.push(entry);
    if entries.len() == 0 {
        assert(weight(longer.drop_first()) == 0);
    } else {
        assert(longer.drop_first() =~= entries.drop_first().push(entry));
        lemma_weight_push(entries.drop_first(), entry);
    }
}

/// The bytes of a list with one entry taken out.
pub proof fn lemma_weight_remove(entries: Seq<EntryView>, i: int)
    requires
        0 <= i < entries.len(),
    ensures
        weight(entries.remove(i)) + entries[i].payload.len() == weight(entries),
    decreases entries.len(),
{
    if i > 0 {
        let rest = entries.drop_first();
        assert(entries.remove(i).drop_first() =~= rest.remove(i - 1));
        lemma_weight_remove(rest, i - 1);
    }
}

/// Where no entry has the key, nothing is taken out.
pub proof fn lemma_without_absent(entries: Seq<EntryView>, key: Seq<char>)
    requires
        forall|i: int| 0 <= i < entries.len() ==> (#[trigger] entries[i]).key != key,
    ensures
        without(entries, key) == entries,
    decreases entries.len(),
{
    if entries.len() > 0 {
        let rest = entries.drop_first();
        lemma_without_absent(rest, key);
    }
}

/// Among distinct keys, what is taken out is the one entry with the key.
pub proof fn lemma_without_at(entries: Seq<EntryView>, i: int)
    requires
        distinct_keys(entries),
        0 <= i < entries.len(),
    ensures
        without(entries, entries[i].key) == entries.remove(i),
    decreases entries.len(),
{
    let key = entries[i].key;
    let rest = entries.drop_first();
    if i == 0 {
        lemma_without_absent(rest, key);
    } else {
        lemma_without_at(rest, i - 1);
    }
}

/// What is left after entries have left is the end of the list, and within
/// the budget.
pub proof fn lemma_trimmed_is_suffix(entries: Seq<EntryView>, budget: int)
    requires
        budget >= 0,
    ensures
        weight(trimmed(entries, budget)) <= budget,
        exists|k: int| 0 <= k <= entries.len() && trimmed(entries, budget) == #[trigger] entries.skip(k),
    decreases entries.len(),
{
    if entries.len() == 0 || weight(entries) <= budget {
        assert(entries.skip(0) =~= entries);
    } else {
        let rest = entries.drop_first();
        lemma_trimmed_is_suffix(rest, budget);
        let k = choose|k: int| 0 <= k <= rest.len() && trimmed(rest, budget) == #[trigger] rest.skip(k);
        assert(rest.skip(k) =~= entries.skip(k + 1));
    }
}

/// After an invalidation the key has no entry, and every other key has the
/// entry that it had.
pub proof fn lemma_without_lookup(entries: Seq<EntryView>, key: Seq<char>, other: Seq<char>)
    ensures
        lookup(without(entries, key), key) is None,
        other != key ==> lookup(without(entries, key), other) == lookup(entries, other),
    decreases entries.len(),
{
    if entries.len() > 0 {
        let rest = entries.drop_first();
        lemma_without_lookup(rest, key, other);
        if entries[0].key != key {
            let kept = seq![entries[0]] + without(rest, key);
            assert(kept.drop_first() =~= without(rest, key));
        }
    }
}

/// An invalidation leaves a cache a cache.
pub proof fn lemma_without_well_formed(entries: Seq<EntryView>, capacity: u64, key: Seq<char>)
    requires
        well_formed(entries, capacity),
    ensures
        well_formed(without(entries, key), capacity),
        weight(without(entries, key)) <= weight(entries),
{
    lemma_lookup_some(entries, key);
    if lookup(entries, key) is Some {
        let entry = lookup(entries, key)->0;
        let i = choose|i: int| 0 <= i < entries.len() && #[trigger] entries[i] == entry;
        lemma_without_at(entries, i);
        lemma_weight_remove(entries, i);
    } else {
        lemma_without_absent(entries, key);
    }
}

/// A write leaves a cache a cache.
pub proof fn lemma_stored_well_formed(entries: Seq<EntryView>, capacity: u64, entry: EntryView)
    requires
        well_formed(entries, capacity),
    ensures
        well_formed(stored(entries, capacity, entry), capacity),
{
    let others = without(entries, entry.key);
    lemma_without_well_formed(entries, capacity, entry.key);
    if entry.payload.len() <= capacity {
        let budget = capacity - entry.payload.len();
        let kept = trimmed(others, budget);
        lemma_trimmed_is_suffix(others, budget);
        lemma_without_lookup(entries, entry.key, entry.key);
        lemma_lookup_some(others, entry.key);
        lemma_weight_push(kept, entry);
    }
}

/// After a write the key has the entry that was written, unless its payload
/// alone exceeds the capacity: then the key has no entry.
pub proof fn lemma_stored_lookup(entries: Seq<EntryView>, capacity: u64, entry: EntryView)
    requires
        well_formed(entries, capacity),
    ensures
        lookup(stored(entries, capacity, entry), entry.key) == if entry.payload.len()
            <= capacity {
            Some(entry)
        } else {
            None
        },
{
    lemma_without_lookup(entries, entry.key, entry.key);
    if entry.payload.len() <= capacity {
        lemma_stored_well_formed(entries, capacity, entry);
        let all = stored(entries, capacity, entry);
        lemma_lookup_at(all, all.len() - 1);
    }
}

/// After a write every other key has the entry that it had, or none.
pub proof fn lemma_stored_others(
    entries: Seq<EntryView>,
    capacity: u64,
    entry: EntryView,
    other: Seq<char>,
)
    requires
        well_formed(entries, capacity),
        other != entry.key,
    ensures
        lookup(stored(entries, capacity, entry), other) is None || lookup(
            stored(entries, capacity, entry),
            other,
        ) == lookup(entries, other),
{
    let others = without(entries, entry.key);
    lemma_without_lookup(entries, entry.key, other);
    lemma_without_well_formed(entries, capacity, entry.key);
    if entry.payload.len() <= capacity {
        let budget = capacity - entry.payload.len();
        let kept = trimmed(others, budget);
        lemma_trimmed_is_suffix(others, budget);
        let k = choose|k: int| 0 <= k <= others.len() && kept == #[trigger] others.skip(k);
        let all = kept.push(entry);
        lemma_lookup_some(all, other);
        if lookup(all, other) is Some {
            let found = lookup(all, other)->0;
            let i = choose|i: int| 0 <= i < all.len() && #[trigger] all[i] == found;
            lemma_lookup_at(others, i + k);
        }
    }
}

/// A write for which there is room lets every other key keep its entry.
pub proof fn lemma_stored_with_room(
    entries: Seq<EntryView>,
    capacity: u64,
    entry: EntryView,
    other: Seq<char>,
)
    requires
        well_formed(entries, capacity),
        other != entry.key,
        weight(without(entries, entry.key)) + entry.payload.len() <= capacity,
    ensures
        lookup(stored(entries, capacity, entry), other) == lookup(entries, other),
{
    let others = without(entries, entry.key);
    lemma_without_lookup(entries, entry.key, other);
    lemma_stored_well_formed(entries, capacity, entry);
    let all = others.push(entry);
    lemma_lookup_some(others, other);
    lemma_lookup_some(all, other);
    if lookup(others, other) is Some {
        let found = lookup(others, other)->0;
        let i = choose|i: int| 0 <= i < others.len() && #[trigger] others[i] == found;
        assert(all[i] == found);
    }
}

/// What has not expired is what was there and has not expired.
pub proof fn lemma_unexpired_members(entries: Seq<EntryView>, now: u64, entry: EntryView)
    ensures
        unexpired(entries, now).contains(entry) <==> entries.contains(entry) && now
            < entry.expiry,
    decreases entries.len(),
{
    if entries.len() > 0 {
        let front = entries.drop_last();
        let last = entries.last();
        let kept = unexpired(entries, now);
        let before = unexpired(front, now);
        lemma_unexpired_members(front, now, entry);
        if entries.contains(entry) {
            let i = choose|i: int| 0 <= i < entries.len() && entries[i] == entry;
            if i < front.len() {
                assert(front[i] == entry);
            }
        }
        if now < last.expiry {
            if before.contains(entry) {
                let j = choose|j: int| 0 <= j < before.len() && before[j] == entry;
                assert(kept[j] == entry);
            }
            assert(kept[kept.len() - 1] == last);
        }
    }
}

/// What has not expired has distinct keys if what was there has.
pub proof fn lemma_unexpired_distinct(entries: Seq<EntryView>, now: u64)
    requires
        distinct_keys(entries),
    ensures
        distinct_keys(unexpired(entries, now)),
    decreases entries.len(),
{
    if entries.len() > 0 {
        let front = entries.drop_last();
        let last = entries.last();
        lemma_unexpired_distinct(front, now);
        let before = unexpired(front, now);
        if now < last.expiry {
            let kept = before.push(last);
            assert forall|a: int, b: int| 0 <= a < b < kept.len() implies (#[trigger] kept[a]).key
                != (#[trigger] kept[b]).key by {
                if b >= before.len() {
                    lemma_unexpired_members(front, now, before[a]);
                }
            }
        }
    }
}

/// What has not expired weighs no more than what was there.
pub proof fn lemma_unexpired_weight(entries: Seq<EntryView>, now: u64)
    ensures
        weight(unexpired(entries, now)) <= weight(entries),
    decreases entries.len(),
{
    if entries.len() > 0 {
        let front = entries.drop_last();
        let last = entries.last();
        assert(front.push(last) =~= entries);
        lemma_weight_push(front, last);
        lemma_unexpired_weight(front, now);
        lemma_weight_push(unexpired(front, now), last);
    }
}

/// A cache from which what has expired has left is a cache.
pub proof fn lemma_unexpired_well_formed(entries: Seq<EntryView>, capacity: u64, now: u64)
    requires
        well_formed(entries, capacity),
    ensures
        well_formed(unexpired(entries, now), capacity),
{
    lemma_unexpired_distinct(entries, now);
    lemma_unexpired_weight(entries, now);
}

/// After what has expired has left, every key has the entry that it had if
/// that has not expired, and none if it has.
pub proof fn lemma_unexpired_lookup(entries: Seq<EntryView>, now: u64, key: Seq<char>)
    requires
        distinct_keys(entries),
    ensures
        lookup(unexpired(entries, now), key) == match lookup(entries, key) {
            Some(entry) => if now < entry.expiry {
                Some(entry)
            } else {
                None
            },
            None => None,
        },
{
    let kept = unexpired(entries, now);
    lemma_lookup_some(entries, key);
    lemma_lookup_some(kept, key);
    if lookup(kept, key) is Some {
        let found = lookup(kept, key)->0;
        lemma_unexpired_members(entries, now, found);
    } else if lookup(entries, key) is Some {
        let entry = lookup(entries, key)->0;
        if now < entry.expiry {
            lemma_unexpired_members(entries, now, entry);
        }
    }
}

/// The table has a key exactly if an entry is found under it, and holds
/// what that entry holds.
pub proof fn lemma_table_lookup(entries: Seq<EntryView>, key: Seq<char>)
    ensures
        entry_table(entries).contains_key(key) <==> lookup(entries, key) is Some,
        lookup(entries, key) matches Some(entry) ==> entry_table(entries)[key] == (
            entry.payload,
            entry.expiry,
        ),
{
}

/// An invalidation takes the key out of the table and leaves the rest of
/// the table as it is.
pub proof fn lemma_table_without(entries: Seq<EntryView>, key: Seq<char>)
    ensures
        entry_table(without(entries, key)) == entry_table(entries).remove(key),
{
    let before = entry_table(entries);
    let after = entry_table(without(entries, key));
    assert forall|other: Seq<char>| #[trigger]
        after.dom().contains(other) <==> before.remove(key).dom().contains(other) by {
        lemma_without_lookup(entries, key, other);
    }
    assert forall|other: Seq<char>| #[trigger] after.dom().contains(other) implies after[other]
        == before.remove(key)[other] by {
        lemma_without_lookup(entries, key, other);
    }
}

/// A write puts the key into the table with what was written, unless the
/// payload alone exceeds the capacity: then the key is not in the table.
/// Every other key keeps what it had, or leaves the table.
pub proof fn lemma_table_stored(entries: Seq<EntryView>, capacity: u64, entry: EntryView)
    requires
        well_formed(entries, capacity),
    ensures
        entry_table(stored(entries, capacity, entry)).contains_key(entry.key)
            <==> entry.payload.len() <= capacity,
        entry_table(stored(entries, capacity, entry)).submap_of(
            entry_table(entries).insert(entry.key, (entry.payload, entry.expiry)),
        ),
{
    let before = entry_table(entries);
    let after = entry_table(stored(entries, capacity, entry));
    lemma_stored_lookup(entries, capacity, entry);
    assert forall|other: Seq<char>| #[trigger] after.contains_key(other) implies before.insert(
        entry.key,
        (entry.payload, entry.expiry),
    ).contains_key(other) && after[other] == before.insert(
        entry.key,
        (entry.payload, entry.expiry),
    )[other] by {
        if other != entry.key {
            lemma_stored_others(entries, capacity, entry, other);
        }
    }
}

/// A write for which there is room puts the key into the table with what
/// was written and leaves the rest of the table as it is.
pub proof fn lemma_table_stored_with_room(
    entries: Seq<EntryView>,
    capacity: u64,
    entry: EntryView,
)
    requires
        well_formed(entries, capacity),
        weight(without(entries, entry.key)) + entry.payload.len() <= capacity,
    ensures
        entry_table(stored(entries, capacity, entry)) == entry_table(entries).insert(
            entry.key,
            (entry.payload, entry.expiry),
        ),
{
    let before = entry_table(entries).insert(entry.key, (entry.payload, entry.expiry));
    let after = entry_table(stored(entries, capacity, entry));
    lemma_stored_lookup(entries, capacity, entry);
    assert forall|other: Seq<char>| #[trigger]
        after.dom().contains(other) <==> before.dom().contains(other) by {
        if other != entry.key {
            lemma_stored_with_room(entries, capacity, entry, other);
        }
    }
    assert forall|other: Seq<char>| #[trigger] after.dom().contains(other) implies after[other]
        == before[other] by {
        if other != entry.key {
            lemma_stored_with_room(entries, capacity, entry, other);
        }
    }
}

} // verus!
