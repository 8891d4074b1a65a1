//! Hash maps and sets with the hasher of `rustc_hash`.

use rustc_hash::{FxBuildHasher, FxHashMap};
use std::hash::{BuildHasher, Hash};
use vstd::prelude::*;
use vstd::std_specs::hash::obeys_key_model;

verus! {

/// The hasher of `rustc_hash`.
#[verifier::external_type_specification]
#[verifier::external_body]
pub struct ExFxBuildHasher(FxBuildHasher);

/// `FxHashMap::default` makes an empty map.
#[verifier::external_body]
pub(crate) fn fx_map_new<K, V>() -> (r: FxHashMap<K, V>)
    ensures
        r@.dom() == Set::<K>::empty(),
{
    FxHashMap::default()
}

/// `HashMap::get` finds the value of a key. It is claimed for the keys whose equality and hash are
/// those of the value.
#[verifier::external_body]
pub(crate) fn fx_map_get<'a, K: Eq + Hash, V>(m: &'a FxHashMap<K, V>, k: &K) -> (r: Option<&'a V>)
    requires
        obeys_key_model::<K>(),
    ensures
        r is Some <==> m@.contains_key(*k),
        r is Some ==> *r->0 == m@[*k],
{
    m.get(k)
}

/// `HashMap::insert` sets the value of a key and returns the one it had. It is claimed for the keys
/// whose equality and hash are those of the value.
#[verifier::external_body]
pub(crate) fn fx_map_insert<K: Eq + Hash, V>(m: &mut FxHashMap<K, V>, k: K, v: V) -> (r: Option<V>)
    requires
        obeys_key_model::<K>(),
    ensures
        final(m)@ == old(m)@.insert(k, v),
        r == (if old(m)@.contains_key(k) {
            Some(old(m)@[k])
        } else {
            None
        }),
{
    m.insert(k, v)
}

/// `HashMap::remove` takes out the value of a key. It is claimed for the keys whose equality and hash
/// are those of the value.
#[verifier::external_body]
pub(crate) fn fx_map_remove<K: Eq + Hash, V>(m: &mut FxHashMap<K, V>, k: &K) -> (r: Option<V>)
    requires
        obeys_key_model::<K>(),
    ensures
        final(m)@ == old(m)@.remove(*k),
        r is Some <==> old(m)@.contains_key(*k),
        r matches Some(v) ==> v == old(m)@[*k],
{
    m.remove(k)
}

/// `HashMap::values` walks the value of each key once, in no particular order.
#[verifier::external_body]
pub(crate) fn fx_map_values<K, V>(m: &FxHashMap<K, V>) -> (r: Vec<&V>)
    ensures
        forall|k: K|
            #[trigger] m@.contains_key(k) ==> exists|i: int|
                0 <= i < r@.len() && *(#[trigger] r@[i]) == m@[k],
        forall|i: int|
            0 <= i < r@.len() ==> exists|k: K|
                #[trigger] m@.contains_key(k) && m@[k] == *(#[trigger] r@[i]),
        r@.len() == m@.len(),
{
    m.values().collect()
}

/// `HashMap::shrink_to_fit` gives memory back and keeps the entries.
#[verifier::external_body]
pub(crate) fn fx_map_shrink_to_fit<K: Eq + Hash, V>(m: &mut FxHashMap<K, V>)
    ensures
        final(m)@ == old(m)@,
{
    m.shrink_to_fit();
}

/// `FxBuildHasher::hash_one` hashes any value. Nothing is claimed of the result: for a text it
/// depends on the machine.
#[verifier::external_body]
pub(crate) fn fx_hash_one<T: Hash>(data: &T) -> (r: u64) {
    FxBuildHasher.hash_one(data)
}

/// `FxBuildHasher::hash_one` of the unit value is zero: nothing is fed to the hasher, and it starts at
/// zero.
#[verifier::external_body]
pub(crate) fn fx_hash_nothing() -> (r: u64)
    ensures
        r == 0,
{
    FxBuildHasher.hash_one(())
}

/// What `FxBuildHasher::hash_one` returns for a number that may be missing, on a machine with the
/// given width.
pub uninterp spec fn fx_hash_of_option(value: Option<u32>, bits: u32) -> u64;

/// `FxBuildHasher::hash_one` of a number that may be missing is a function of it and of the width of
/// the machine's words.
#[verifier::external_body]
pub(crate) fn fx_hash_option(value: Option<u32>) -> (r: u64)
    ensures
        r == fx_hash_of_option(value, usize::BITS),
{
    FxBuildHasher.hash_one(value)
}

/// What `FxBuildHasher::hash_one` returns for three numbers on a machine with the given width.
pub uninterp spec fn fx_hash_of(a: u32, b: u32, c: u32, bits: u32) -> u64;

/// `FxBuildHasher::hash_one` of three numbers is a function of the numbers and of the width of the
/// machine's words.
#[verifier::external_body]
pub(crate) fn fx_hash_words(a: u32, b: u32, c: u32) -> (r: u64)
    ensures
        r == fx_hash_of(a, b, c, usize::BITS),
{
    FxBuildHasher.hash_one((a, b, c))
}

} // verus!
