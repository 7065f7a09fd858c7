//! Association lists read as maps: a later entry of a name replaces an
//! earlier one.

use vstd::prelude::*;

verus! {

/// The map that a list of named entries stands for.
pub open spec fn assoc<T>(entries: Seq<(Seq<char>, T)>) -> Map<Seq<char>, T>
    decreases entries.len(),
{
    if entries.len() == 0 {
        Map::empty()
    } else {
        assoc(entries.drop_last()).insert(entries.last().0, entries.last().1)
    }
}

/// An entry after which the name does not occur again is the name's entry in the map.
pub proof fn lemma_assoc_found<T>(entries: Seq<(Seq<char>, T)>, name: Seq<char>, at: int)
    requires
        0 <= at < entries.len(),
        entries[at].0 == name,
        forall|j: int| at < j < entries.len() ==> entries[j].0 != name,
    ensures
        assoc(entries).contains_key(name),
        assoc(entries)[name] == entries[at].1,
    decreases entries.len(),
{
    if at < entries.len() - 1 {
        lemma_assoc_found(entries.drop_last(), name, at);
    }
}

/// A name that no entry has is not in the map.
pub proof fn lemma_assoc_absent<T>(entries: Seq<(Seq<char>, T)>, name: Seq<char>)
    requires
        forall|j: int| 0 <= j < entries.len() ==> entries[j].0 != name,
    ensures
        !assoc(entries).contains_key(name),
    decreases entries.len(),
{
    if entries.len() > 0 {
        lemma_assoc_absent(entries.drop_last(), name);
    }
}

/// Appending an entry inserts it into the map.
pub proof fn lemma_assoc_push<T>(entries: Seq<(Seq<char>, T)>, name: Seq<char>, value: T)
    ensures
        assoc(entries.push((name, value))) == assoc(entries).insert(name, value),
{
    assert(entries.push((name, value)).drop_last() =~= entries);
}

} // verus!
