//! The map of the sessions of a coordinator.

use vstd::prelude::*;

use dashmap::DashMap;

use crate::session_affinity::types::AffinityEntry;

verus! {

/// The concurrent map of the dashmap crate.
#[verifier::external_type_specification]
#[verifier::external_body]
#[verifier::reject_recursive_types(K)]
#[verifier::reject_recursive_types(V)]
#[verifier::reject_recursive_types(S)]
pub struct ExDashMap<K, V, S>(dashmap::DashMap<K, V, S>);

/// The sessions in a map.
pub uninterp spec fn entries_of(map: DashMap<String, AffinityEntry>) -> Map<Seq<char>, AffinityEntry>;

/// `DashMap::new`: an empty map.
#[verifier::external_body]
pub(crate) fn no_entries() -> (map: DashMap<String, AffinityEntry>)
    ensures
        entries_of(map).dom() == Set::<Seq<char>>::empty(),
{
    DashMap::new()
}

/// `DashMap::get`: what the map holds under a key, if it holds something.
#[verifier::external_body]
pub(crate) fn entry_at(
    map: &DashMap<String, AffinityEntry>,
    session_id: &str,
) -> (entry: Option<AffinityEntry>)
    ensures
        entry == if entries_of(*map).dom().contains(session_id@) {
            Some(entries_of(*map)[session_id@])
        } else {
            None
        },
{
    map.get(session_id).map(|held| *held.value())
}

/// `DashMap::insert`: the map then holds the value under the key, and is otherwise as it was.
#[verifier::external_body]
pub(crate) fn put_entry(
    map: &mut DashMap<String, AffinityEntry>,
    session_id: String,
    entry: AffinityEntry,
)
    ensures
        entries_of(*final(map)) == entries_of(*old(map)).insert(session_id@, entry),
{
    map.insert(session_id, entry);
}

/// `DashMap::remove_if`: the entry under the key is removed if it is there and stands at the
/// given revision, and the result says whether it was.
#[verifier::external_body]
pub(crate) fn remove_entry(
    map: &mut DashMap<String, AffinityEntry>,
    session_id: &str,
    revision: u64,
    bound: bool,
) -> (removed: bool)
    ensures
        removed == (entries_of(*old(map)).dom().contains(session_id@) && entries_of(
            *old(map),
        )[session_id@].is_at(revision, bound)),
        removed ==> entries_of(*final(map)) == entries_of(*old(map)).remove(session_id@),
        !removed ==> entries_of(*final(map)) == entries_of(*old(map)),
{
    map.remove_if(session_id, |_, entry| entry.stands_at(revision, bound)).is_some()
}

/// `DashMap::retain`: the entries that are expired are removed, the others stay as they are.
#[verifier::external_body]
pub(crate) fn remove_expired(map: &mut DashMap<String, AffinityEntry>, now: u64)
    ensures
        entries_of(*final(map)) == unexpired(entries_of(*old(map)), now),
{
    map.retain(|_, entry| !entry.is_expired(now));
}

/// `DashMap::len`: how many keys the map holds.
#[verifier::external_body]
pub(crate) fn count_entries(map: &DashMap<String, AffinityEntry>) -> (count: usize)
    ensures
        count == entries_of(*map).dom().len(),
{
    map.len()
}

/// The entries that are not expired.
pub open spec fn unexpired(
    entries: Map<Seq<char>, AffinityEntry>,
    now: u64,
) -> Map<Seq<char>, AffinityEntry> {
    entries.restrict(
        Set::new(
            |session_id: Seq<char>|
                entries.dom().contains(session_id) && !entries[session_id].expired(now),
        ),
    )
}

} // verus!
