//! The hash collections that hold the sessions, with what the routing table
//! relies on of each of their methods.

use crate::address::AddrKey;
use crate::router::nodes::Node;
use ahash::AHashMap;
use ahash::AHashSet;
use ahash::RandomState;
use vstd::prelude::*;

verus! {

/// `ahash::RandomState`, the hasher that the collections are built with;
/// nothing is read of it.
#[verifier::external_type_specification]
#[verifier::external_body]
pub struct ExRandomState(RandomState);

/// `ahash::AHashMap`, a hash map of std under another hasher.
#[verifier::external_type_specification]
#[verifier::external_body]
#[verifier::reject_recursive_types(K)]
#[verifier::reject_recursive_types(V)]
#[verifier::reject_recursive_types(S)]
pub struct ExAHashMap<K, V, S>(AHashMap<K, V, S>);

/// `ahash::AHashSet`, a hash set of std under another hasher.
#[verifier::external_type_specification]
#[verifier::external_body]
#[verifier::reject_recursive_types(T)]
#[verifier::reject_recursive_types(S)]
pub struct ExAHashSet<T, S>(AHashSet<T, S>);

/// The map from client address to session, keyed by the numbers of the
/// address.
pub type SessionMap = AHashMap<AddrKey, Node>;

/// The set of the addresses that hold a session under one user name, as
/// their numbers.
pub type AddressSet = AHashSet<AddrKey>;

/// The sessions that a session map holds, by the numbers of the client
/// address.
pub uninterp spec fn sessions(map: SessionMap) -> Map<AddrKey, Node>;

/// The numbers of the addresses that an address set holds.
pub uninterp spec fn members(set: AddressSet) -> Set<AddrKey>;

/// `AHashMap::with_capacity`: a map that holds nothing.
#[verifier::external_body]
pub(crate) fn sessions_new(capacity: usize) -> (table: SessionMap)
    ensures
        forall|addr: AddrKey| !sessions(table).contains_key(addr),
{
    AHashMap::with_capacity(capacity)
}

/// `AHashMap::get`: the session stored under `addr`, if there is one.
#[verifier::external_body]
pub(crate) fn sessions_get<'a>(map: &'a SessionMap, addr: &AddrKey) -> (found: Option<
    &'a Node,
>)
    ensures
        found == if sessions(*map).contains_key(*addr) {
            Some(&sessions(*map)[*addr])
        } else {
            None
        },
{
    map.get(addr)
}

/// `AHashMap::insert`: stores `node` under `addr` and hands back the session
/// that was stored there before, if there was one.
#[verifier::external_body]
pub(crate) fn sessions_insert(map: &mut SessionMap, addr: AddrKey, node: Node) -> (prev:
    Option<Node>)
    ensures
        sessions(*final(map)) == sessions(*old(map)).insert(addr, node),
        prev == if sessions(*old(map)).contains_key(addr) {
            Some(sessions(*old(map))[addr])
        } else {
            None
        },
{
    map.insert(addr, node)
}

/// `AHashMap::remove`: takes out the session stored under `addr` and hands it
/// back, if there is one.
#[verifier::external_body]
pub(crate) fn sessions_remove(map: &mut SessionMap, addr: &AddrKey) -> (prev: Option<
    Node,
>)
    ensures
        sessions(*final(map)) == sessions(*old(map)).remove(*addr),
        prev == if sessions(*old(map)).contains_key(*addr) {
            Some(sessions(*old(map))[*addr])
        } else {
            None
        },
{
    map.remove(addr)
}

/// `AHashMap::get_mut`: the session stored under `addr`, for changing in
/// place. The map afterwards holds under `addr` whatever the caller leaves
/// there, and everything else as before.
#[verifier::external_body]
pub(crate) fn sessions_get_mut<'a>(map: &'a mut SessionMap, addr: &AddrKey) -> (found: Option<
    &'a mut Node,
>)
    ensures
        match found {
            Some(node) => sessions(*old(map)).contains_key(*addr) && *node == sessions(
                *old(map),
            )[*addr] && sessions(*final(map)) == sessions(*old(map)).insert(*addr, *final(node)),
            None => !sessions(*old(map)).contains_key(*addr) && sessions(*final(map)) == sessions(
                *old(map),
            ),
        },
{
    map.get_mut(addr)
}

/// `HashMap::keys`, reached through `AHashMap`: every address that holds a
/// session, once each, in the order in which the map happens to walk them.
#[verifier::external_body]
pub(crate) fn sessions_addresses(map: &SessionMap) -> (addrs: Vec<AddrKey>)
    ensures
        addrs@.no_duplicates(),
        forall|addr: AddrKey| addrs@.contains(addr) <==> sessions(*map).contains_key(addr),
{
    map.keys().copied().collect()
}

/// `AHashSet::with_capacity`: a set that holds nothing.
#[verifier::external_body]
pub(crate) fn members_new(capacity: usize) -> (set: AddressSet)
    ensures
        members(set) == Set::<AddrKey>::empty(),
{
    AHashSet::with_capacity(capacity)
}

/// `HashSet::insert`, reached through `AHashSet`: adds `addr` and says
/// whether it was absent before.
#[verifier::external_body]
pub(crate) fn members_insert(set: &mut AddressSet, addr: AddrKey) -> (added: bool)
    ensures
        members(*final(set)) == members(*old(set)).insert(addr),
        added == !members(*old(set)).contains(addr),
{
    set.insert(addr)
}

/// `HashSet::remove`, reached through `AHashSet`: takes `addr` out and says
/// whether it was present.
#[verifier::external_body]
pub(crate) fn members_remove(set: &mut AddressSet, addr: &AddrKey) -> (removed: bool)
    ensures
        members(*final(set)) == members(*old(set)).remove(*addr),
        removed == members(*old(set)).contains(*addr),
{
    set.remove(addr)
}

/// `HashSet::is_empty`, reached through `AHashSet`: whether the set holds
/// no address at all.
#[verifier::external_body]
pub(crate) fn members_is_empty(set: &AddressSet) -> (empty: bool)
    ensures
        empty <==> (forall|addr: AddrKey| !members(*set).contains(addr)),
{
    set.is_empty()
}

/// `HashSet::iter`, reached through `AHashSet`: every address of the set,
/// once each, in the order in which the set happens to walk them.
#[verifier::external_body]
pub(crate) fn members_list(set: &AddressSet) -> (addrs: Vec<AddrKey>)
    ensures
        addrs@.no_duplicates(),
        forall|addr: AddrKey| addrs@.contains(addr) <==> members(*set).contains(addr),
{
    set.iter().copied().collect()
}

} // verus!
