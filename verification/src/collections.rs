//! Insertion-ordered maps with text keys.

use vstd::prelude::*;

verus! {

/// The insertion-ordered map of the `indexmap` crate.
#[verifier::external_type_specification]
#[verifier::external_body]
#[verifier::reject_recursive_types(K)]
#[verifier::reject_recursive_types(V)]
#[verifier::reject_recursive_types(S)]
pub struct ExIndexMap<K, V, S>(indexmap::IndexMap<K, V, S>);

/// The position of the first entry with this key.
pub open spec fn position<K, V>(entries: Seq<(K, V)>, key: K) -> Option<int>
    decreases entries.len(),
{
    if entries.len() == 0 {
        None
    } else if entries[0].0 == key {
        Some(0)
    } else {
        match position(entries.drop_first(), key) {
            Some(i) => Some(i + 1),
            None => None,
        }
    }
}

/// The value of a key, where it has one.
pub open spec fn lookup<K, V>(entries: Seq<(K, V)>, key: K) -> Option<V> {
    match position(entries, key) {
        Some(i) => Some(entries[i].1),
        None => None,
    }
}

/// The entries after a key is set: in place where it is there, at the end
/// otherwise.
pub open spec fn with_entry<K, V>(entries: Seq<(K, V)>, key: K, value: V) -> Seq<(K, V)> {
    match position(entries, key) {
        Some(i) => entries.update(i, (key, value)),
        None => entries.push((key, value)),
    }
}

/// The entries after a key is taken out; the others keep their order.
pub open spec fn without_entry<K, V>(entries: Seq<(K, V)>, key: K) -> Seq<(K, V)> {
    match position(entries, key) {
        Some(i) => entries.remove(i),
        None => entries,
    }
}

/// A found position holds the key, and none before it does.
pub proof fn lemma_position<K, V>(entries: Seq<(K, V)>, key: K)
    ensures
        match position(entries, key) {
            Some(i) => {
                &&& 0 <= i < entries.len()
                &&& entries[i].0 == key
                &&& forall|j: int| 0 <= j < i ==> (#[trigger] entries[j]).0 != key
            },
            None => forall|j: int| 0 <= j < entries.len() ==> (#[trigger] entries[j]).0 != key,
        },
    decreases entries.len(),
{
    if entries.len() > 0 && entries[0].0 != key {
        let rest = entries.drop_first();
        lemma_position(rest, key);
        match position(rest, key) {
            Some(i) => {
                assert forall|j: int| 0 <= j < i + 1 implies (#[trigger] entries[j]).0 != key by {
                    if j > 0 {
                        assert(rest[j - 1].0 != key);
                    }
                }
            },
            None => {
                assert forall|j: int| 0 <= j < entries.len() implies (#[trigger] entries[j]).0
                    != key by {
                    if j > 0 {
                        assert(rest[j - 1].0 != key);
                    }
                }
            },
        }
    }
}

/// The first entry with a key is where its position says.
pub proof fn lemma_position_is<K, V>(entries: Seq<(K, V)>, key: K, i: int)
    requires
        0 <= i < entries.len(),
        entries[i].0 == key,
        forall|j: int| 0 <= j < i ==> (#[trigger] entries[j]).0 != key,
    ensures
        position(entries, key) == Some(i),
{
    lemma_position(entries, key);
}

/// Setting a key makes it readable and leaves every other key as it was.
pub proof fn a_set_key_reads_back<K, V>(entries: Seq<(K, V)>, key: K, value: V, other: K)
    ensures
        lookup(with_entry(entries, key, value), key) == Some(value),
        other != key ==> lookup(with_entry(entries, key, value), other) == lookup(entries, other),
{
    lemma_position(entries, key);
    let after = with_entry(entries, key, value);
    match position(entries, key) {
        Some(i) => {
            lemma_position_is(after, key, i);
        },
        None => {
            lemma_position_is(after, key, entries.len() as int);
        },
    }
    if other != key {
        lemma_position(entries, other);
        match position(entries, other) {
            Some(j) => {
                lemma_position_is(after, other, j);
            },
            None => {
                lemma_position(after, other);
            },
        }
    }
}

/// What a map from model ids to slots holds, in insertion order.
pub uninterp spec fn slots_of(map: indexmap::IndexMap<String, usize>) -> Seq<(Seq<char>, usize)>;

/// `indexmap::IndexMap::new`.
#[verifier::external_body]
pub(crate) fn new_slots() -> (map: indexmap::IndexMap<String, usize>)
    ensures
        slots_of(map).len() == 0,
{
    indexmap::IndexMap::new()
}

/// `indexmap::IndexMap::insert`: sets a key, in place where it is there, at the
/// end otherwise.
#[verifier::external_body]
pub(crate) fn set_slot(map: &mut indexmap::IndexMap<String, usize>, key: String, slot: usize)
    ensures
        slots_of(*final(map)) == with_entry(slots_of(*old(map)), key@, slot),
{
    let _ = map.insert(key, slot);
}

/// `indexmap::IndexMap::get`.
#[verifier::external_body]
pub(crate) fn slot_for(map: &indexmap::IndexMap<String, usize>, key: &str) -> (slot: Option<usize>)
    ensures
        slot == lookup(slots_of(*map), key@),
{
    map.get(key).copied()
}

} // verus!
