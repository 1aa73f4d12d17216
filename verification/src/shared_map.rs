//! The maps that hold what is known of clients and domains.
use crate::client::IpKey;
use dashmap::DashMap;
use vstd::prelude::*;

verus! {

/// A map of the `dashmap` crate.
#[verifier::external_type_specification]
#[verifier::external_body]
#[verifier::reject_recursive_types(K)]
#[verifier::reject_recursive_types(V)]
#[verifier::reject_recursive_types(S)]
pub struct ExDashMap<K, V, S>(DashMap<K, V, S>);

/// What a map from names to positions holds.
pub uninterp spec fn positions(m: DashMap<String, usize>) -> Map<Seq<char>, usize>;

/// `DashMap::new` makes a map that holds nothing.
#[verifier::external_body]
pub(crate) fn no_positions() -> (m: DashMap<String, usize>)
    ensures
        positions(m) =~= Map::empty(),
{
    DashMap::new()
}

/// `DashMap::insert` puts a value under a key, in place of the one that is
/// there, and leaves the other entries alone.
#[verifier::external_body]
pub(crate) fn set_position(m: &mut DashMap<String, usize>, name: String, position: usize)
    ensures
        positions(*final(m)) == positions(*old(m)).insert(name@, position),
{
    m.insert(name, position);
}

/// `DashMap::get` gives the value under a key, if there is one.
#[verifier::external_body]
pub(crate) fn position_of(m: &DashMap<String, usize>, name: &str) -> (r: Option<usize>)
    ensures
        r is Some <==> positions(*m).contains_key(name@),
        r matches Some(position) ==> position == positions(*m)[name@],
{
    m.get(name).map(|v| *v)
}

/// What a map from clients to numbers holds.
pub uninterp spec fn counts(m: DashMap<IpKey, u64>) -> Map<IpKey, u64>;

/// `DashMap::new` makes a map that holds nothing.
#[verifier::external_body]
pub(crate) fn no_counts() -> (m: DashMap<IpKey, u64>)
    ensures
        counts(m) =~= Map::empty(),
{
    DashMap::new()
}

/// `DashMap::entry` with `or_insert` gives the value under a key, having first
/// put `start` there if there was none.
#[verifier::external_body]
pub(crate) fn count_or_insert(m: &mut DashMap<IpKey, u64>, key: IpKey, start: u64) -> (r: u64)
    ensures
        r == if counts(*old(m)).contains_key(key) {
            counts(*old(m))[key]
        } else {
            start
        },
        counts(*final(m)) == counts(*old(m)).insert(key, r),
{
    *m.entry(key).or_insert(start)
}

/// `DashMap::get` gives the value under a key, if there is one.
#[verifier::external_body]
pub(crate) fn count_of(m: &DashMap<IpKey, u64>, key: IpKey) -> (r: Option<u64>)
    ensures
        r is Some <==> counts(*m).contains_key(key),
        r matches Some(n) ==> n == counts(*m)[key],
{
    m.get(&key).map(|v| *v)
}

/// `DashMap::insert` puts a value under a key, in place of the one that is
/// there, and leaves the other entries alone.
#[verifier::external_body]
pub(crate) fn set_count(m: &mut DashMap<IpKey, u64>, key: IpKey, n: u64)
    ensures
        counts(*final(m)) == counts(*old(m)).insert(key, n),
{
    m.insert(key, n);
}

/// What a set of clients holds.
pub uninterp spec fn members(m: DashMap<IpKey, ()>) -> Set<IpKey>;

/// `DashMap::new` makes a map that holds nothing.
#[verifier::external_body]
pub(crate) fn no_members() -> (m: DashMap<IpKey, ()>)
    ensures
        members(m) =~= Set::empty(),
{
    DashMap::new()
}

/// `DashMap::contains_key` tells whether there is a value under a key.
#[verifier::external_body]
pub(crate) fn is_member(m: &DashMap<IpKey, ()>, key: IpKey) -> (r: bool)
    ensures
        r == members(*m).contains(key),
{
    m.contains_key(&key)
}

/// `DashMap::insert` puts a value under a key and leaves the other entries
/// alone.
#[verifier::external_body]
pub(crate) fn add_member(m: &mut DashMap<IpKey, ()>, key: IpKey)
    ensures
        members(*final(m)) == members(*old(m)).insert(key),
{
    m.insert(key, ());
}

/// What a map from clients to a supply and the time it was last filled up
/// holds.
pub uninterp spec fn supplies(m: DashMap<IpKey, (u64, u128)>) -> Map<IpKey, (u64, u128)>;

/// `DashMap::new` makes a map that holds nothing.
#[verifier::external_body]
pub(crate) fn no_supplies() -> (m: DashMap<IpKey, (u64, u128)>)
    ensures
        supplies(m) =~= Map::empty(),
{
    DashMap::new()
}

/// `DashMap::entry` with `or_insert` gives the value under a key, having first
/// put `start` there if there was none.
#[verifier::external_body]
pub(crate) fn supply_or_insert(
    m: &mut DashMap<IpKey, (u64, u128)>,
    key: IpKey,
    start: (u64, u128),
) -> (r: (u64, u128))
    ensures
        r == if supplies(*old(m)).contains_key(key) {
            supplies(*old(m))[key]
        } else {
            start
        },
        supplies(*final(m)) == supplies(*old(m)).insert(key, r),
{
    *m.entry(key).or_insert(start)
}

/// `DashMap::insert` puts a value under a key, in place of the one that is
/// there, and leaves the other entries alone.
#[verifier::external_body]
pub(crate) fn set_supply(m: &mut DashMap<IpKey, (u64, u128)>, key: IpKey, supply: (u64, u128))
    ensures
        supplies(*final(m)) == supplies(*old(m)).insert(key, supply),
{
    m.insert(key, supply);
}

}
