//! The hash collections of the `ahash` crate, as the tokenizers use them.

use ahash::{AHashMap, AHashSet};
use vstd::prelude::*;

verus! {

/// The hasher of the `ahash` collections.
#[verifier::external_type_specification]
#[verifier::external_body]
pub struct ExRandomState(ahash::RandomState);

/// The hash map of the `ahash` crate.
#[verifier::external_type_specification]
#[verifier::external_body]
#[verifier::reject_recursive_types(K)]
#[verifier::reject_recursive_types(V)]
#[verifier::reject_recursive_types(S)]
pub struct ExAHashMap<K, V, S>(AHashMap<K, V, S>);

/// The hash set of the `ahash` crate.
#[verifier::external_type_specification]
#[verifier::external_body]
#[verifier::reject_recursive_types(T)]
#[verifier::reject_recursive_types(S)]
pub struct ExAHashSet<T, S>(AHashSet<T, S>);

/// What a map from token bytes to token numbers holds.
pub uninterp spec fn token_map(m: AHashMap<Vec<u8>, u32>) -> Map<Seq<u8>, u32>;

/// `AHashMap::new`: the map is empty.
#[verifier::external_body]
pub(crate) fn token_map_new() -> (m: AHashMap<Vec<u8>, u32>)
    ensures
        (token_map(m) == Map::<Seq<u8>, u32>::empty()),
{
    AHashMap::new()
}

/// `AHashMap::insert`: the key has the value afterwards, whatever it had before.
#[verifier::external_body]
pub(crate) fn token_map_insert(m: &mut AHashMap<Vec<u8>, u32>, key: Vec<u8>, value: u32)
    ensures
        token_map(*final(m)) == token_map(*old(m)).insert(key@, value),
{
    m.insert(key, value);
}

/// `AHashMap::get`: the value of the key, if it has one.
#[verifier::external_body]
pub(crate) fn token_map_get(m: &AHashMap<Vec<u8>, u32>, key: &[u8]) -> (r: Option<u32>)
    ensures
        r == (if token_map(*m).contains_key(key@) {
            Some(token_map(*m)[key@])
        } else {
            None
        }),
{
    m.get(key).copied()
}

/// `AHashMap::clone`: the copy holds the same pairs.
#[verifier::external_body]
pub(crate) fn token_map_clone(m: &AHashMap<Vec<u8>, u32>) -> (r: AHashMap<Vec<u8>, u32>)
    ensures
        token_map(r) == token_map(*m),
{
    m.clone()
}

/// The iterator of an `AHashMap` gives each of its pairs once. The order is left
/// open: it differs from one map to the next.
#[verifier::external_body]
pub(crate) fn token_map_pairs(m: &AHashMap<Vec<u8>, u32>) -> (r: Vec<(Vec<u8>, u32)>)
    ensures
        forall|i: int|
            0 <= i < r@.len() ==> token_map(*m).contains_key((#[trigger] r@[i]).0@) && token_map(
                *m,
            )[r@[i].0@] == r@[i].1,
        forall|i: int, j: int|
            0 <= i < j < r@.len() ==> (#[trigger] r@[i]).0@ != (#[trigger] r@[j]).0@,
        forall|key: Seq<u8>| #[trigger]
            token_map(*m).contains_key(key) ==> exists|i: int|
                0 <= i < r@.len() && (#[trigger] r@[i]).0@ == key,
{
    m.iter().map(|(key, value)| (key.clone(), *value)).collect()
}

/// What a map from pairs of byte strings to merge ranks holds.
pub uninterp spec fn merge_map(m: AHashMap<(Vec<u8>, Vec<u8>), usize>) -> Map<
    (Seq<u8>, Seq<u8>),
    usize,
>;

/// `AHashMap::new`: the map is empty.
#[verifier::external_body]
pub(crate) fn merge_map_new() -> (m: AHashMap<(Vec<u8>, Vec<u8>), usize>)
    ensures
        (merge_map(m) == Map::<(Seq<u8>, Seq<u8>), usize>::empty()),
{
    AHashMap::new()
}

/// `AHashMap::insert`: the pair has the rank afterwards, whatever it had before.
#[verifier::external_body]
pub(crate) fn merge_map_insert(
    m: &mut AHashMap<(Vec<u8>, Vec<u8>), usize>,
    left: Vec<u8>,
    right: Vec<u8>,
    rank: usize,
)
    ensures
        merge_map(*final(m)) == merge_map(*old(m)).insert((left@, right@), rank),
{
    m.insert((left, right), rank);
}

/// `AHashMap::get`: the rank of the pair, if it has one.
#[verifier::external_body]
pub(crate) fn merge_map_get(
    m: &AHashMap<(Vec<u8>, Vec<u8>), usize>,
    left: &Vec<u8>,
    right: &Vec<u8>,
) -> (r: Option<usize>)
    ensures
        r == (if merge_map(*m).contains_key((left@, right@)) {
            Some(merge_map(*m)[(left@, right@)])
        } else {
            None
        }),
{
    m.get(&(left.clone(), right.clone())).copied()
}

/// `AHashMap::clone`: the copy holds the same pairs.
#[verifier::external_body]
pub(crate) fn merge_map_clone(m: &AHashMap<(Vec<u8>, Vec<u8>), usize>) -> (r: AHashMap<
    (Vec<u8>, Vec<u8>),
    usize,
>)
    ensures
        merge_map(r) == merge_map(*m),
{
    m.clone()
}

/// What a set of token lengths holds.
pub uninterp spec fn length_set(s: AHashSet<u16>) -> Set<u16>;

/// `AHashSet::new`: the set is empty.
#[verifier::external_body]
pub(crate) fn length_set_new() -> (s: AHashSet<u16>)
    ensures
        length_set(s) == Set::<u16>::empty(),
{
    AHashSet::new()
}

/// `AHashSet::insert`: the set holds the length afterwards.
#[verifier::external_body]
pub(crate) fn length_set_insert(s: &mut AHashSet<u16>, length: u16)
    ensures
        length_set(*final(s)) == length_set(*old(s)).insert(length),
{
    s.insert(length);
}

/// The iterator of an `AHashSet` gives each of its items once. The order is left
/// open: it differs from one set to the next.
#[verifier::external_body]
pub(crate) fn length_set_items(s: &AHashSet<u16>) -> (r: Vec<u16>)
    ensures
        r@.no_duplicates(),
        forall|l: u16| #[trigger] length_set(*s).contains(l) <==> r@.contains(l),
{
    s.iter().copied().collect()
}

} // verus!
