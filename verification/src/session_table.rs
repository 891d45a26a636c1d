//! Tables of sessions, held in `dashmap::DashMap`.
//!
//! One kind of table is keyed by session indices, the other by session identifiers; both
//! hold 32 bytes for a key.

use crate::bytes::same;
use dashmap::DashMap;
use vstd::prelude::*;

verus! {

/// `dashmap::DashMap`, of which the proofs know only what the names below say.
#[verifier::external_type_specification]
#[verifier::external_body]
#[verifier::reject_recursive_types(K)]
#[verifier::reject_recursive_types(V)]
#[verifier::reject_recursive_types(S)]
pub struct ExDashMap<K, V, S>(dashmap::DashMap<K, V, S>);

/// What a table keyed by session indices holds.
pub uninterp spec fn by_index(table: DashMap<u32, [u8; 32]>) -> Map<u32, [u8; 32]>;

/// What a table keyed by session identifiers holds.
pub uninterp spec fn by_sid(table: DashMap<[u8; 32], [u8; 32]>) -> Map<[u8; 32], [u8; 32]>;

/// The entries of a map whose value is not `v`.
pub open spec fn without_value<K>(m: Map<K, [u8; 32]>, v: [u8; 32]) -> Map<K, [u8; 32]> {
    Map::new(|k: K| m.contains_key(k) && m[k] != v, |k: K| m[k])
}

/// The sessions of which both the index and the identifier are known.
pub open spec fn known_sessions(
    m: Map<u32, [u8; 32]>,
    ids: Map<u32, [u8; 32]>,
    sids: Map<[u8; 32], [u8; 32]>,
) -> Map<u32, [u8; 32]> {
    Map::new(
        |id: u32| m.contains_key(id) && ids.contains_key(id) && sids.contains_key(m[id]),
        |id: u32| m[id],
    )
}

/// Are the two different?
pub fn differs(a: &[u8; 32], b: &[u8; 32]) -> (r: bool)
    ensures
        r == (*a != *b),
{
    let r = same(a, b);
    assert(r ==> *a =~= *b);
    !r
}

/// `DashMap::new`: the table holds nothing.
#[verifier::external_body]
pub(crate) fn new_index_table() -> (r: DashMap<u32, [u8; 32]>)
    ensures
        forall|id: u32| !by_index(r).contains_key(id),
{
    DashMap::new()
}

/// `DashMap::insert`: the table holds `value` for `id`, whatever it held before, and is
/// otherwise unchanged.
#[verifier::external_body]
pub(crate) fn index_insert(table: &mut DashMap<u32, [u8; 32]>, id: u32, value: [u8; 32])
    ensures
        by_index(*final(table)) == by_index(*old(table)).insert(id, value),
{
    table.insert(id, value);
}

/// `DashMap::remove`: the table holds nothing for `id`, and what it held is returned.
#[verifier::external_body]
pub(crate) fn index_remove(table: &mut DashMap<u32, [u8; 32]>, id: u32) -> (r: Option<[u8; 32]>)
    ensures
        by_index(*final(table)) == by_index(*old(table)).remove(id),
        r == (if by_index(*old(table)).contains_key(id) {
            Some(by_index(*old(table))[id])
        } else {
            None
        }),
{
    table.remove(&id).map(|entry| entry.1)
}

/// `DashMap::contains_key`: does the table hold something for `id`?
#[verifier::external_body]
pub(crate) fn index_contains(table: &DashMap<u32, [u8; 32]>, id: u32) -> (r: bool)
    ensures
        r == by_index(*table).contains_key(id),
{
    table.contains_key(&id)
}

/// `DashMap::get`: what the table holds for `id`.
#[verifier::external_body]
pub(crate) fn index_get(table: &DashMap<u32, [u8; 32]>, id: u32) -> (r: Option<[u8; 32]>)
    ensures
        r == (if by_index(*table).contains_key(id) {
            Some(by_index(*table)[id])
        } else {
            None
        }),
{
    table.get(&id).map(|entry| *entry.value())
}

/// `DashMap::clear`: the table holds nothing.
#[verifier::external_body]
pub(crate) fn index_clear(table: &mut DashMap<u32, [u8; 32]>)
    ensures
        forall|id: u32| !by_index(*final(table)).contains_key(id),
{
    table.clear();
}

/// `DashMap::retain` with [`differs`]: the entries with the given value are gone.
#[verifier::external_body]
pub(crate) fn index_drop_value(table: &mut DashMap<u32, [u8; 32]>, value: &[u8; 32])
    ensures
        by_index(*final(table)) == without_value(by_index(*old(table)), *value),
{
    table.retain(|_, v| differs(v, value));
}

/// `DashMap::retain` with [`both_known`]: the entries whose index or identifier the other
/// two tables do not hold are gone.
#[verifier::external_body]
pub(crate) fn index_keep_known(
    table: &mut DashMap<u32, [u8; 32]>,
    ids: &DashMap<u32, [u8; 32]>,
    sids: &DashMap<[u8; 32], [u8; 32]>,
)
    ensures
        by_index(*final(table)) == known_sessions(
            by_index(*old(table)),
            by_index(*ids),
            by_sid(*sids),
        ),
{
    table.retain(|id, sid| both_known(ids, sids, id, sid));
}

/// `DashMap::new`: the table holds nothing.
#[verifier::external_body]
pub(crate) fn new_sid_table() -> (r: DashMap<[u8; 32], [u8; 32]>)
    ensures
        forall|sid: [u8; 32]| !by_sid(r).contains_key(sid),
{
    DashMap::new()
}

/// `DashMap::insert`: the table holds `value` for `sid`, whatever it held before, and is
/// otherwise unchanged.
#[verifier::external_body]
pub(crate) fn sid_insert(
    table: &mut DashMap<[u8; 32], [u8; 32]>,
    sid: [u8; 32],
    value: [u8; 32],
)
    ensures
        by_sid(*final(table)) == by_sid(*old(table)).insert(sid, value),
{
    table.insert(sid, value);
}

/// `DashMap::remove`: the table holds nothing for `sid`.
#[verifier::external_body]
pub(crate) fn sid_remove(table: &mut DashMap<[u8; 32], [u8; 32]>, sid: &[u8; 32])
    ensures
        by_sid(*final(table)) == by_sid(*old(table)).remove(*sid),
{
    table.remove(sid);
}

/// `DashMap::contains_key`: does the table hold something for `sid`?
#[verifier::external_body]
pub(crate) fn sid_contains(table: &DashMap<[u8; 32], [u8; 32]>, sid: &[u8; 32]) -> (r: bool)
    ensures
        r == by_sid(*table).contains_key(*sid),
{
    table.contains_key(sid)
}

/// `DashMap::get`: what the table holds for `sid`.
#[verifier::external_body]
pub(crate) fn sid_get(table: &DashMap<[u8; 32], [u8; 32]>, sid: &[u8; 32]) -> (r: Option<[u8; 32]>)
    ensures
        r == (if by_sid(*table).contains_key(*sid) {
            Some(by_sid(*table)[*sid])
        } else {
            None
        }),
{
    table.get(sid).map(|entry| *entry.value())
}

/// `DashMap::clear`: the table holds nothing.
#[verifier::external_body]
pub(crate) fn sid_clear(table: &mut DashMap<[u8; 32], [u8; 32]>)
    ensures
        forall|sid: [u8; 32]| !by_sid(*final(table)).contains_key(sid),
{
    table.clear();
}

/// `DashMap::retain` with [`differs`]: the entries with the given value are gone.
#[verifier::external_body]
pub(crate) fn sid_drop_value(table: &mut DashMap<[u8; 32], [u8; 32]>, value: &[u8; 32])
    ensures
        by_sid(*final(table)) == without_value(by_sid(*old(table)), *value),
{
    table.retain(|_, v| differs(v, value));
}

/// Are both the index and the identifier of a session known?
pub(crate) fn both_known(
    ids: &DashMap<u32, [u8; 32]>,
    sids: &DashMap<[u8; 32], [u8; 32]>,
    id: &u32,
    sid: &[u8; 32],
) -> (r: bool)
    ensures
        r == (by_index(*ids).contains_key(*id) && by_sid(*sids).contains_key(*sid)),
{
    index_contains(ids, *id) && sid_contains(sids, sid)
}

} // verus!
