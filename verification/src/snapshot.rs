//! The snapshot type: an ordered mapping from interface name to a pair of
//! cumulative byte counters (bytes received, bytes transmitted).
//!
//! Ordering matters: when no explicit interface list is given, the display
//! order of interfaces is the order in which the counter source listed them.
//! The map is `indexmap::IndexMap`, which preserves insertion order; its
//! contents are modelled as a sequence of (name, (rx, tx)) entries.

use vstd::prelude::*;
use indexmap::IndexMap;

verus! {

/// The entries of an ordered counter map, in insertion order.
pub uninterp spec fn index_map_entries(m: IndexMap<String, (u64, u64)>) -> Seq<
    (Seq<char>, (u64, u64)),
>;

#[verifier::external_type_specification]
#[verifier::external_body]
#[verifier::reject_recursive_types(K)]
#[verifier::reject_recursive_types(V)]
#[verifier::reject_recursive_types(S)]
pub struct ExIndexMap<K, V, S>(IndexMap<K, V, S>);

/// The names of the entries, in order.
pub open spec fn entry_names(es: Seq<(Seq<char>, (u64, u64))>) -> Seq<Seq<char>> {
    es.map_values(|e: (Seq<char>, (u64, u64))| e.0)
}

/// Whether some entry has the given name.
pub open spec fn has_name(es: Seq<(Seq<char>, (u64, u64))>, name: Seq<char>) -> bool {
    exists|i: int| 0 <= i < es.len() && es[i].0 == name
}

/// The counters of the first entry with the given name, if any.
pub open spec fn spec_lookup(es: Seq<(Seq<char>, (u64, u64))>, name: Seq<char>) -> Option<
    (u64, u64),
>
    decreases es.len(),
{
    if es.len() == 0 {
        None
    } else if es[0].0 == name {
        Some(es[0].1)
    } else {
        spec_lookup(es.drop_first(), name)
    }
}

/// What an insertion-order-preserving insert does to the entries: an existing
/// name keeps its place and gets the new counters; a new name is appended.
pub open spec fn spec_insert(
    es: Seq<(Seq<char>, (u64, u64))>,
    name: Seq<char>,
    counters: (u64, u64),
) -> Seq<(Seq<char>, (u64, u64))> {
    if has_name(es, name) {
        es.map_values(
            |e: (Seq<char>, (u64, u64))|
                if e.0 == name {
                    (name, counters)
                } else {
                    e
                },
        )
    } else {
        es.push((name, counters))
    }
}

/// Snapshot keys are unique: no interface name occurs twice.
pub open spec fn unique_names(es: Seq<(Seq<char>, (u64, u64))>) -> bool {
    forall|i: int, j: int| 0 <= i < j < es.len() ==> es[i].0 != es[j].0
}

/// Inserting preserves uniqueness of names: replacing keeps the key set,
/// appending adds a name that was not there.
pub proof fn lemma_insert_preserves_unique(
    es: Seq<(Seq<char>, (u64, u64))>,
    name: Seq<char>,
    counters: (u64, u64),
)
    requires
        unique_names(es),
    ensures
        unique_names(spec_insert(es, name, counters)),
{
    let ne = spec_insert(es, name, counters);
    if has_name(es, name) {
        assert forall|i: int, j: int| 0 <= i < j < ne.len() implies ne[i].0 != ne[j].0 by {
            assert(ne[i].0 == es[i].0);
            assert(ne[j].0 == es[j].0);
        }
    } else {
        assert forall|i: int, j: int| 0 <= i < j < ne.len() implies ne[i].0 != ne[j].0 by {
            if j < es.len() {
            } else {
                assert(ne[j].0 == name);
                assert(ne[i] == es[i]);
            }
        }
    }
}

/// Relies on indexmap's `IndexMap::new`: creates an empty map.
#[verifier::external_body]
pub(crate) fn snapshot_new() -> (m: IndexMap<String, (u64, u64)>)
    ensures
        index_map_entries(m) == Seq::<(Seq<char>, (u64, u64))>::empty(),
{
    IndexMap::new()
}

/// Relies on indexmap's `IndexMap::insert`: an existing key keeps its place
/// in the order and its value is updated; a new key is appended last.
#[verifier::external_body]
pub(crate) fn snapshot_insert(m: &mut IndexMap<String, (u64, u64)>, name: String, counters: (u64, u64))
    ensures
        index_map_entries(*final(m)) == spec_insert(
            index_map_entries(*old(m)),
            name@,
            counters,
        ),
{
    m.insert(name, counters);
}

/// Relies on indexmap's `IndexMap::get`: returns the counters stored under a
/// name equal to the one given, or `None` when the name is absent.  A map
/// never holds two entries with equal names, so the first match in the
/// entries is the only one.
#[verifier::external_body]
pub(crate) fn snapshot_get(m: &IndexMap<String, (u64, u64)>, name: &String) -> (r: Option<(u64, u64)>)
    ensures
        r == spec_lookup(index_map_entries(*m), name@),
{
    m.get(name).copied()
}

/// Relies on indexmap's `IndexMap::len`: the number of entries.
#[verifier::external_body]
pub(crate) fn snapshot_len(m: &IndexMap<String, (u64, u64)>) -> (n: usize)
    ensures
        n == index_map_entries(*m).len(),
{
    m.len()
}

/// Relies on indexmap's `IndexMap::get_index`: the entry at a position in
/// insertion order, or `None` past the end.
#[verifier::external_body]
pub(crate) fn snapshot_entry_at(m: &IndexMap<String, (u64, u64)>, i: usize) -> (r: Option<
    (String, (u64, u64)),
>)
    ensures
        match r {
            Some(e) => i < index_map_entries(*m).len() && e.0@ == index_map_entries(*m)[i as int].0
                && e.1 == index_map_entries(*m)[i as int].1,
            None => i >= index_map_entries(*m).len(),
        },
{
    m.get_index(i).map(|(k, v)| (k.clone(), *v))
}

} // verus!
