//! Maps and sets of names.

use crate::ids::MacroId;
use crate::small::Small;
use indexmap::IndexMap;
use rustc_hash::{FxBuildHasher, FxHashMap, FxHashSet};
use std::hash::Hash;
use vstd::prelude::*;
use vstd::std_specs::convert::FromSpec;

verus! {

/// `indexmap`'s hash map, which keeps the order of insertion.
#[verifier::external_type_specification]
#[verifier::external_body]
#[verifier::reject_recursive_types(K)]
#[verifier::reject_recursive_types(V)]
#[verifier::reject_recursive_types(S)]
pub struct ExIndexMap<K, V, S>(IndexMap<K, V, S>);

/// A map from names that keeps the order in which they were inserted.
#[derive(Debug, PartialEq, Eq)]
#[verifier::reject_recursive_types(V)]
pub struct NameMap<V> {
    pub inner: IndexMap<String, V, FxBuildHasher>,
}

impl<V> From<NameMap<V>> for Vec<(String, V)> {
    /// `IndexMap::into_iter` hands the entries out in their order.
    #[verifier::external_body]
    fn from(m: NameMap<V>) -> (r: Vec<(String, V)>) {
        m.inner.into_iter().collect()
    }
}

/// The entries of a map, in order: those of the vector that it can be turned into.
pub open spec fn entries<V>(m: NameMap<V>) -> Seq<(String, V)> {
    <Vec<(String, V)> as FromSpec<NameMap<V>>>::from_spec(m)@
}

/// The place of a name among the entries from `i` on.
pub open spec fn find_name<V>(e: Seq<(String, V)>, name: Seq<char>, i: nat) -> Option<nat>
    decreases e.len() - i,
{
    if i >= e.len() {
        None
    } else if e[i as int].0@ == name {
        Some(i)
    } else {
        find_name(e, name, i + 1)
    }
}

/// No name comes twice.
pub open spec fn names_distinct<V>(e: Seq<(String, V)>) -> bool {
    forall|i: int, j: int| 0 <= i < j < e.len() ==> (#[trigger] e[i]).0@ != (#[trigger] e[j]).0@
}

pub proof fn lemma_find_name<V>(e: Seq<(String, V)>, name: Seq<char>, i: nat)
    ensures
        match find_name(e, name, i) {
            Some(k) => i <= k < e.len() && e[k as int].0@ == name && forall|j: int|
                i <= j < k ==> (#[trigger] e[j]).0@ != name,
            None => forall|j: int| i <= j < e.len() ==> (#[trigger] e[j]).0@ != name,
        },
    decreases e.len() - i,
{
    if i < e.len() && e[i as int].0@ != name {
        lemma_find_name(e, name, i + 1);
        match find_name(e, name, i + 1) {
            Some(k) => {
                assert forall|j: int| i <= j < k implies (#[trigger] e[j]).0@ != name by {
                    if j > i {
                        assert(e[j].0@ != name);
                    }
                }
            },
            None => {
                assert forall|j: int| i <= j < e.len() implies (#[trigger] e[j]).0@ != name by {
                    if j > i {
                        assert(e[j].0@ != name);
                    }
                }
            },
        }
    }
}

/// `IndexMap::default` makes an empty map.
#[verifier::external_body]
pub(crate) fn name_map_new<V>() -> (r: NameMap<V>)
    ensures
        entries(r).len() == 0,
{
    NameMap { inner: IndexMap::default() }
}

/// `IndexMap::len` is the number of entries.
#[verifier::external_body]
pub(crate) fn name_map_len<V>(m: &NameMap<V>) -> (r: usize)
    ensures
        r == entries(*m).len(),
{
    m.inner.len()
}

/// `IndexMap::get_index_of` finds the place of a name.
#[verifier::external_body]
pub(crate) fn name_map_find<V>(m: &NameMap<V>, name: &str) -> (r: Option<usize>)
    ensures
        r is Some <==> find_name(entries(*m), name@, 0) is Some,
        r matches Some(i) ==> find_name(entries(*m), name@, 0) == Some(i as nat),
{
    m.inner.get_index_of(name)
}

/// `IndexMap::get_index` gives the entry at a place.
#[verifier::external_body]
pub(crate) fn name_map_at<V>(m: &NameMap<V>, i: usize) -> (r: (&String, &V))
    requires
        i < entries(*m).len(),
    ensures
        (*r.0, *r.1) == entries(*m)[i as int],
{
    m.inner.get_index(i).unwrap()
}

/// Writing through `IndexMap::get_index_mut` sets the value at a place.
#[verifier::external_body]
pub(crate) fn name_map_set<V>(m: &mut NameMap<V>, i: usize, value: V)
    requires
        i < entries(*old(m)).len(),
    ensures
        entries(*final(m)) == entries(*old(m)).update(i as int, (entries(*old(m))[i as int].0, value)),
{
    *m.inner.get_index_mut(i).unwrap().1 = value;
}

/// `IndexMap::insert` of a name that is not in the map appends an entry.
#[verifier::external_body]
pub(crate) fn name_map_insert<V>(m: &mut NameMap<V>, name: String, value: V)
    requires
        find_name(entries(*old(m)), name@, 0) is None,
    ensures
        entries(*final(m)) == entries(*old(m)).push((name, value)),
{
    m.inner.insert(name, value);
}

/// `IndexMap::shift_remove` takes out the entry of a name and keeps the order of the others.
#[verifier::external_body]
pub(crate) fn name_map_shift_remove<V>(m: &mut NameMap<V>, name: &str)
    ensures
        match find_name(entries(*old(m)), name@, 0) {
            Some(i) => entries(*final(m)) == entries(*old(m)).remove(i as int),
            None => entries(*final(m)) == entries(*old(m)),
        },
{
    m.inner.shift_remove(name);
}

/// `IndexMap::shrink_to_fit` gives memory back and keeps the entries.
#[verifier::external_body]
pub(crate) fn name_map_shrink_to_fit<V>(m: &mut NameMap<V>)
    ensures
        entries(*final(m)) == entries(*old(m)),
{
    m.inner.shrink_to_fit();
}

/// The texts of a set of names.
pub open spec fn set_names(s: Set<String>) -> Set<Seq<char>> {
    s.map(|name: String| name@)
}

/// `FxHashSet::default` makes an empty set.
#[verifier::external_body]
pub(crate) fn fx_set_new<K>() -> (r: FxHashSet<K>)
    ensures
        r@ == Set::<K>::empty(),
{
    FxHashSet::default()
}

/// `HashSet::insert` adds a name and says whether it is new.
#[verifier::external_body]
pub(crate) fn name_set_insert(s: &mut FxHashSet<String>, name: String) -> (r: bool)
    ensures
        set_names(final(s)@) == set_names(old(s)@).insert(name@),
        r == !set_names(old(s)@).contains(name@),
{
    s.insert(name)
}

/// `HashSet::iter` walks each name once, in no particular order.
#[verifier::external_body]
pub(crate) fn name_set_items(s: &FxHashSet<String>) -> (r: Vec<&String>)
    ensures
        forall|n: Seq<char>|
            #![trigger set_names(s@).contains(n)]
            set_names(s@).contains(n) <==> exists|i: int|
                0 <= i < r@.len() && (#[trigger] r@[i])@ == n,
{
    s.iter().collect()
}

/// `HashSet::shrink_to_fit` gives memory back and keeps the items.
#[verifier::external_body]
pub(crate) fn fx_set_shrink_to_fit<K: Eq + Hash>(s: &mut FxHashSet<K>)
    ensures
        final(s)@ == old(s)@,
{
    s.shrink_to_fit();
}

/// A set of modules, each as one number, and names.
pub open spec fn set_module_names(s: Set<(u64, String)>) -> Set<(u64, Seq<char>)> {
    s.map(|item: (u64, String)| (item.0, item.1@))
}

/// `HashSet::contains` says whether a name is in the set.
#[verifier::external_body]
pub(crate) fn module_name_set_contains(
    s: &FxHashSet<(u64, String)>,
    module: u64,
    name: String,
) -> (r: bool)
    ensures
        r == set_module_names(s@).contains((module, name@)),
{
    s.contains(&(module, name))
}

/// `HashSet::insert` adds a name.
#[verifier::external_body]
pub(crate) fn module_name_set_insert(s: &mut FxHashSet<(u64, String)>, module: u64, name: String)
    ensures
        set_module_names(final(s)@) == set_module_names(old(s)@).insert((module, name@)),
{
    s.insert((module, name));
}

/// `HashSet::remove` takes a name out and says whether it was there.
#[verifier::external_body]
pub(crate) fn module_name_set_remove(
    s: &mut FxHashSet<(u64, String)>,
    module: u64,
    name: String,
) -> (r: bool)
    ensures
        set_module_names(final(s)@) == set_module_names(old(s)@).remove((module, name@)),
        r == set_module_names(old(s)@).contains((module, name@)),
{
    s.remove(&(module, name))
}

/// A map from names, by their texts.
pub open spec fn by_name<V>(m: Map<String, V>) -> Map<Seq<char>, V> {
    Map::new(
        |n: Seq<char>| exists|k: String| #[trigger] m.contains_key(k) && k@ == n,
        |n: Seq<char>| m[choose|k: String| #[trigger] m.contains_key(k) && k@ == n],
    )
}

/// `HashMap::get` finds the value of a name.
#[verifier::external_body]
pub(crate) fn name_hash_map_get<'a, V>(m: &'a FxHashMap<String, V>, name: &str) -> (r: Option<
    &'a V,
>)
    ensures
        r is Some <==> by_name(m@).contains_key(name@),
        r matches Some(v) ==> *v == by_name(m@)[name@],
{
    m.get(name)
}

/// `HashMap::remove` takes out the value of a name.
#[verifier::external_body]
pub(crate) fn name_hash_map_remove<V>(m: &mut FxHashMap<String, V>, name: &str) -> (r: Option<V>)
    ensures
        by_name(final(m)@) == by_name(old(m)@).remove(name@),
        r is Some <==> by_name(old(m)@).contains_key(name@),
        r matches Some(v) ==> v == by_name(old(m)@)[name@],
{
    m.remove(name)
}

/// `HashMap::insert` sets the value of a name.
#[verifier::external_body]
pub(crate) fn name_hash_map_insert<V>(m: &mut FxHashMap<String, V>, name: String, value: V)
    ensures
        by_name(final(m)@) == by_name(old(m)@).insert(name@, value),
{
    m.insert(name, value);
}

/// `HashMap::keys` walks each name once, in no particular order.
#[verifier::external_body]
pub(crate) fn name_hash_map_keys<V>(m: &FxHashMap<String, V>) -> (r: Vec<&String>)
    ensures
        forall|n: Seq<char>|
            #![trigger by_name(m@).contains_key(n)]
            by_name(m@).contains_key(n) <==> exists|i: int|
                0 <= i < r@.len() && (#[trigger] r@[i])@ == n,
        forall|i: int, j: int| 0 <= i < j < r@.len() ==> (#[trigger] r@[i])@ != (#[trigger] r@[j])@,
{
    m.keys().collect()
}

/// The macros of one name, in the order in which they were defined. Mostly there is one.
pub type MacroIds = Small<MacroId, 1>;

} // verus!
