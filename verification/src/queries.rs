//! The peer ↔ DHT-query bijection. The transport keeps at most one
//! outstanding closest-peers query per peer, and must find the peer back
//! from the query identifier when the DHT reports progress. The relation is
//! held in a `bimap::BiHashMap`, declared here with trusted contracts over
//! its contents, stated as the left-to-right map.

use vstd::prelude::*;

verus! {

#[verifier::external_type_specification]
#[verifier::external_body]
#[verifier::reject_recursive_types(L)]
#[verifier::reject_recursive_types(R)]
#[verifier::reject_recursive_types(LS)]
#[verifier::reject_recursive_types(RS)]
pub struct ExBiHashMap<L, R, LS, RS>(bimap::BiHashMap<L, R, LS, RS>);

/// A bimap from peers to the identifiers of the queries resolving them.
pub type PeerQueryBimap = bimap::BiHashMap<u64, u64>;

/// The pairs held by a peer ↔ query bimap, as the map from left values
/// (peers) to right values (queries).
pub uninterp spec fn query_map_contents(m: PeerQueryBimap) -> Map<u64, u64>;

/// Relies on bimap::BiHashMap::new: the new bimap holds no pairs.
#[verifier::external_body]
pub fn query_map_new() -> (r: PeerQueryBimap)
    ensures
        query_map_contents(r) =~= Map::empty(),
{
    bimap::BiHashMap::new()
}

/// Relies on bimap::BiHashMap::contains_left: whether a pair with this
/// left value is held.
#[verifier::external_body]
pub fn query_map_contains_left(m: &PeerQueryBimap, peer: u64) -> (r: bool)
    ensures
        r == query_map_contents(*m).contains_key(peer),
{
    m.contains_left(&peer)
}

/// Relies on bimap::BiHashMap::insert: the pair (peer, query) is inserted
/// after any pair sharing either side is removed.
#[verifier::external_body]
pub fn query_map_insert(m: &mut PeerQueryBimap, peer: u64, query: u64)
    ensures
        query_map_contents(*final(m)).contains_key(peer),
        query_map_contents(*final(m))[peer] == query,
        forall|k: u64|
            k != peer ==> (#[trigger] query_map_contents(*final(m)).contains_key(k) <==> (
            query_map_contents(*old(m)).contains_key(k) && query_map_contents(*old(m))[k]
                != query)),
        forall|k: u64|
            k != peer && #[trigger] query_map_contents(*final(m)).contains_key(k)
                ==> query_map_contents(*final(m))[k] == query_map_contents(*old(m))[k],
{
    let _ = m.insert(peer, query);
}

/// Relies on bimap::BiHashMap::get_by_right: the left value of the pair
/// holding this right value, if one is held.
#[verifier::external_body]
pub fn query_map_get_by_right(m: &PeerQueryBimap, query: u64) -> (r: Option<u64>)
    ensures
        match r {
            Some(peer) => query_map_contents(*m).contains_key(peer) && query_map_contents(*m)[peer]
                == query,
            None => forall|k: u64|
                #[trigger] query_map_contents(*m).contains_key(k) ==> query_map_contents(*m)[k]
                    != query,
        },
{
    m.get_by_right(&query).copied()
}

/// Relies on bimap::BiHashMap::remove_by_left: the pair with this left
/// value, if any, is removed and its right value returned.
#[verifier::external_body]
pub fn query_map_remove_by_left(m: &mut PeerQueryBimap, peer: u64) -> (r: Option<u64>)
    ensures
        query_map_contents(*final(m)) == query_map_contents(*old(m)).remove(peer),
        match r {
            Some(query) => query_map_contents(*old(m)).contains_key(peer) && query_map_contents(
                *old(m),
            )[peer] == query,
            None => !query_map_contents(*old(m)).contains_key(peer),
        },
{
    m.remove_by_left(&peer).map(|pair: (u64, u64)| pair.1)
}

/// Relies on bimap::BiHashMap::remove_by_right: the pair with this right
/// value, if any, is removed and its left value returned.
#[verifier::external_body]
pub fn query_map_remove_by_right(m: &mut PeerQueryBimap, query: u64) -> (r: Option<u64>)
    ensures
        match r {
            Some(peer) => query_map_contents(*old(m)).contains_key(peer) && query_map_contents(
                *old(m),
            )[peer] == query && query_map_contents(*final(m)) == query_map_contents(
                *old(m),
            ).remove(peer),
            None => query_map_contents(*final(m)) == query_map_contents(*old(m)) && forall|k: u64|
                #[trigger] query_map_contents(*old(m)).contains_key(k) ==> query_map_contents(
                    *old(m),
                )[k] != query,
        },
{
    m.remove_by_right(&query).map(|pair: (u64, u64)| pair.0)
}

} // verus!
