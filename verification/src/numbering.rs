//! Maps of the outside crates `ahash` and `fxhash`, from keys to places in a list.

use vstd::prelude::*;

verus! {

/// What an `ahash::AHashMap` from numbers to places in a list holds.
pub uninterp spec fn numbered(map: ahash::AHashMap<u128, usize>) -> Map<u128, usize>;

/// Calls `ahash::AHashMap::new`: the new map holds nothing.
#[verifier::external_body]
pub(crate) fn numbers_new() -> (map: ahash::AHashMap<u128, usize>)
    ensures
        (numbered(map) == Map::<u128, usize>::empty()),
{
    ahash::AHashMap::new()
}

/// Calls `ahash::AHashMap::get`: the value under the key, where there is one.
#[verifier::external_body]
pub(crate) fn numbers_get(map: &ahash::AHashMap<u128, usize>, key: u128) -> (value: Option<usize>)
    ensures
        value == (if numbered(*map).contains_key(key) {
            Some(numbered(*map)[key])
        } else {
            None
        }),
{
    map.get(&key).copied()
}

/// Calls `ahash::AHashMap::insert`: the value now stands under the key.
#[verifier::external_body]
pub(crate) fn numbers_insert(map: &mut ahash::AHashMap<u128, usize>, key: u128, value: usize)
    ensures
        numbered(*final(map)) == numbered(*old(map)).insert(key, value),
{
    map.insert(key, value);
}

/// `fxhash::FxHasher`, the hasher of the outside crate `fxhash`.
#[verifier::external_type_specification]
#[verifier::external_body]
pub struct ExFxHasher(fxhash::FxHasher);

/// `std::hash::BuildHasherDefault`, with which `fxhash::FxHashMap` makes its hashers.
#[verifier::external_type_specification]
#[verifier::external_body]
#[verifier::reject_recursive_types(H)]
pub struct ExBuildHasherDefault<H>(std::hash::BuildHasherDefault<H>);

/// Calls `Default::default` of `fxhash::FxHashMap`: the new map holds nothing.
#[verifier::external_body]
pub(crate) fn fx_new<K>() -> (map: fxhash::FxHashMap<K, usize>)
    ensures
        (map@ == Map::<K, usize>::empty()),
{
    fxhash::FxHashMap::default()
}

/// Calls `get` of `fxhash::FxHashMap`, for keys whose equality and hash agree: the value under the
/// key, where there is one.
#[verifier::external_body]
pub(crate) fn fx_get<K: Eq + std::hash::Hash>(map: &fxhash::FxHashMap<K, usize>, key: &K) -> (value: Option<
    usize,
>)
    requires
        vstd::std_specs::hash::obeys_key_model::<K>(),
    ensures
        value == (if map@.contains_key(*key) {
            Some(map@[*key])
        } else {
            None
        }),
{
    map.get(key).copied()
}

/// Calls `insert` of `fxhash::FxHashMap`, for keys whose equality and hash agree: the value now
/// stands under the key.
#[verifier::external_body]
pub(crate) fn fx_insert<K: Eq + std::hash::Hash>(map: &mut fxhash::FxHashMap<K, usize>, key: K, value: usize)
    requires
        vstd::std_specs::hash::obeys_key_model::<K>(),
    ensures
        final(map)@ == old(map)@.insert(key, value),
{
    map.insert(key, value);
}

} // verus!
