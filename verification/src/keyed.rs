//! Lists that stand for maps: every entry has a key, and no key occurs
//! twice.

use vstd::prelude::*;

verus! {

/// An entry of a list that stands for a map.
pub trait Keyed {
    /// What an entry is found by.
    type Key;

    /// What the map holds under the key.
    type Value;

    /// The key of this entry.
    spec fn key(&self) -> Self::Key;

    /// The value of this entry.
    spec fn value(&self) -> Self::Value;
}

/// No key occurs twice in the list.
pub open spec fn keys_distinct<E: Keyed>(entries: Seq<E>) -> bool {
    forall|i: int, j: int| 0 <= i < j < entries.len() ==> entries[i].key() != entries[j].key()
}

/// Whether the list has an entry under this key.
pub open spec fn holds_key<E: Keyed>(entries: Seq<E>, key: E::Key) -> bool {
    exists|i: int| 0 <= i < entries.len() && entries[i].key() == key
}

/// Where the entry under this key stands in the list.
pub open spec fn entry_of<E: Keyed>(entries: Seq<E>, key: E::Key) -> int {
    choose|i: int| 0 <= i < entries.len() && entries[i].key() == key
}

/// The map that the list stands for.
pub open spec fn map_of<E: Keyed>(entries: Seq<E>) -> Map<E::Key, E::Value> {
    Map::new(|key: E::Key| holds_key(entries, key), |key: E::Key| entries[entry_of(entries, key)].value())
}

/// With one entry per key, the entry at position `k` is the one found
/// under its key.
pub proof fn lemma_entry<E: Keyed>(entries: Seq<E>, k: int)
    requires
        keys_distinct(entries),
        0 <= k < entries.len(),
    ensures
        holds_key(entries, entries[k].key()),
        entry_of(entries, entries[k].key()) == k,
        map_of(entries).contains_key(entries[k].key()),
        map_of(entries)[entries[k].key()] == entries[k].value(),
{
    let key = entries[k].key();
    assert(holds_key(entries, key));
    let j = entry_of(entries, key);
    assert(0 <= j < entries.len() && entries[j].key() == key);
    if j < k {
        assert(entries[j].key() != entries[k].key());
    } else if k < j {
        assert(entries[k].key() != entries[j].key());
    }
}

/// A key that no entry of the list has is not in the map.
pub proof fn lemma_no_entry<E: Keyed>(entries: Seq<E>, key: E::Key)
    requires
        forall|i: int| 0 <= i < entries.len() ==> entries[i].key() != key,
    ensures
        !map_of(entries).contains_key(key),
{
}

/// Changing the entry at position `k`, but not its key, stores the new
/// value under that key and leaves the rest of the map alone.
pub proof fn lemma_entry_changed<E: Keyed>(before: Seq<E>, after: Seq<E>, k: int)
    requires
        keys_distinct(before),
        0 <= k < before.len(),
        after.len() == before.len(),
        forall|j: int| 0 <= j < before.len() && j != k ==> after[j] == before[j],
        after[k].key() == before[k].key(),
    ensures
        keys_distinct(after),
        map_of(after) == map_of(before).insert(before[k].key(), after[k].value()),
{
    assert forall|j: int| 0 <= j < before.len() implies after[j].key() == before[j].key() by {}
    assert(keys_distinct(after)) by {
        assert forall|i: int, j: int| 0 <= i < j < after.len() implies after[i].key() != after[j].key() by {
            assert(before[i].key() != before[j].key());
        }
    }
    let target = map_of(before).insert(before[k].key(), after[k].value());
    assert forall|key: E::Key| map_of(after).contains_key(key) <==> target.contains_key(key) by {
        if holds_key(after, key) {
            let j = entry_of(after, key);
            assert(before[j].key() == key);
        }
        if holds_key(before, key) {
            let j = entry_of(before, key);
            assert(after[j].key() == key);
        }
        lemma_entry(before, k);
    }
    assert forall|key: E::Key| map_of(after).contains_key(key) implies map_of(after)[key] == target[key] by {
        let j = entry_of(after, key);
        assert(0 <= j < after.len() && after[j].key() == key);
        lemma_entry(after, j);
        lemma_entry(before, j);
    }
    assert(map_of(after) =~= target);
}

/// Appending an entry under a key that the list does not hold yet stores
/// its value under that key.
pub proof fn lemma_entry_pushed<E: Keyed>(before: Seq<E>, entry: E)
    requires
        keys_distinct(before),
        forall|i: int| 0 <= i < before.len() ==> before[i].key() != entry.key(),
    ensures
        keys_distinct(before.push(entry)),
        map_of(before.push(entry)) == map_of(before).insert(entry.key(), entry.value()),
{
    let after = before.push(entry);
    let target = map_of(before).insert(entry.key(), entry.value());
    assert(keys_distinct(after));
    assert forall|key: E::Key| map_of(after).contains_key(key) <==> target.contains_key(key) by {
        if holds_key(after, key) {
            let j = entry_of(after, key);
            if j < before.len() {
                assert(before[j].key() == key);
            }
        }
        if holds_key(before, key) {
            let j = entry_of(before, key);
            assert(after[j].key() == key);
        }
        lemma_entry(after, before.len() as int);
    }
    assert forall|key: E::Key| map_of(after).contains_key(key) implies map_of(after)[key] == target[key] by {
        let j = entry_of(after, key);
        assert(0 <= j < after.len() && after[j].key() == key);
        lemma_entry(after, j);
        if j < before.len() {
            lemma_entry(before, j);
        }
    }
    assert(map_of(after) =~= target);
}

/// Taking the entry at position `k` out of the list takes its key out of
/// the map.
pub proof fn lemma_entry_removed<E: Keyed>(before: Seq<E>, k: int)
    requires
        keys_distinct(before),
        0 <= k < before.len(),
    ensures
        keys_distinct(before.remove(k)),
        map_of(before.remove(k)) == map_of(before).remove(before[k].key()),
{
    let after = before.remove(k);
    let target = map_of(before).remove(before[k].key());
    assert(keys_distinct(after)) by {
        assert forall|i: int, j: int| 0 <= i < j < after.len() implies after[i].key() != after[j].key() by {
            let bi = if i < k { i } else { i + 1 };
            let bj = if j < k { j } else { j + 1 };
            assert(before[bi].key() != before[bj].key());
        }
    }
    assert forall|key: E::Key| map_of(after).contains_key(key) <==> target.contains_key(key) by {
        if holds_key(after, key) {
            let j = entry_of(after, key);
            let bj = if j < k { j } else { j + 1 };
            assert(before[bj].key() == key);
            lemma_entry(before, bj);
            lemma_entry(before, k);
        }
        if holds_key(before, key) && key != before[k].key() {
            let j = entry_of(before, key);
            let aj = if j < k { j } else { j - 1 };
            assert(after[aj].key() == key);
        }
    }
    assert forall|key: E::Key| map_of(after).contains_key(key) implies map_of(after)[key] == target[key] by {
        let j = entry_of(after, key);
        assert(0 <= j < after.len() && after[j].key() == key);
        lemma_entry(after, j);
        let bj = if j < k { j } else { j + 1 };
        lemma_entry(before, bj);
    }
    assert(map_of(after) =~= target);
}

} // verus!
