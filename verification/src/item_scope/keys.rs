//! Hash maps keyed by imports and by nodes, which stand there as numbers.

use super::imports::{ImportOrDef, ImportOrExternCrate};
use crate::ast_id::erased::ErasedFileAstId;
use crate::fx;
use crate::ids::Id;
use rustc_hash::FxHashMap;
use vstd::prelude::*;

verus! {

/// The number of an import: its sort, its id and its place in the use item.
pub open spec fn import_key(import: ImportOrExternCrate) -> int {
    match import {
        ImportOrExternCrate::Glob(it) => key_of(0, it.use_.0, it.idx.0),
        ImportOrExternCrate::Import(it) => key_of(1, it.use_.0, it.idx.0),
        ImportOrExternCrate::ExternCrate(it) => key_of(2, it.0, 0),
    }
}

pub open spec fn key_of(sort: int, id: Id, idx: u32) -> int {
    ((sort * 0x1_0000_0000 + id.generation) * 0x1_0000_0000 + id.low) * 0x1_0000_0000 + idx
}

proof fn lemma_digits(a: int, x: int, b: int, y: int)
    requires
        a * 0x1_0000_0000 + x == b * 0x1_0000_0000 + y,
        0 <= x < 0x1_0000_0000,
        0 <= y < 0x1_0000_0000,
    ensures
        a == b,
        x == y,
{
}

proof fn lemma_key_of_injective(s1: int, i1: Id, x1: u32, s2: int, i2: Id, x2: u32)
    requires
        key_of(s1, i1, x1) == key_of(s2, i2, x2),
    ensures
        s1 == s2,
        i1 == i2,
        x1 == x2,
{
    let m: int = 0x1_0000_0000;
    lemma_digits(
        (s1 * m + i1.generation) * m + i1.low,
        x1 as int,
        (s2 * m + i2.generation) * m + i2.low,
        x2 as int,
    );
    lemma_digits(
        s1 * m + i1.generation,
        i1.low as int,
        s2 * m + i2.generation,
        i2.low as int,
    );
    lemma_digits(s1, i1.generation as int, s2, i2.generation as int);
}

/// Different imports have different numbers.
pub proof fn import_key_is_injective(a: ImportOrExternCrate, b: ImportOrExternCrate)
    requires
        import_key(a) == import_key(b),
    ensures
        a == b,
{
    let (s1, i1, x1) = match a {
        ImportOrExternCrate::Glob(it) => (0int, it.use_.0, it.idx.0),
        ImportOrExternCrate::Import(it) => (1int, it.use_.0, it.idx.0),
        ImportOrExternCrate::ExternCrate(it) => (2int, it.0, 0u32),
    };
    let (s2, i2, x2) = match b {
        ImportOrExternCrate::Glob(it) => (0int, it.use_.0, it.idx.0),
        ImportOrExternCrate::Import(it) => (1int, it.use_.0, it.idx.0),
        ImportOrExternCrate::ExternCrate(it) => (2int, it.0, 0u32),
    };
    lemma_key_of_injective(s1, i1, x1, s2, i2, x2);
}

fn key_number(sort: u128, id: Id, idx: u32) -> (r: u128)
    requires
        sort <= 2,
    ensures
        r == key_of(sort as int, id, idx),
{
    ((sort * 0x1_0000_0000 + id.generation as u128) * 0x1_0000_0000 + id.low as u128) * 0x1_0000_0000
        + idx as u128
}

fn import_number(import: ImportOrExternCrate) -> (r: u128)
    ensures
        r == import_key(import),
{
    match import {
        ImportOrExternCrate::Glob(it) => key_number(0, it.use_.0, it.idx.0),
        ImportOrExternCrate::Import(it) => key_number(1, it.use_.0, it.idx.0),
        ImportOrExternCrate::ExternCrate(it) => key_number(2, it.0, 0),
    }
}

/// What imports lead to.
#[derive(Debug, PartialEq, Eq)]
pub struct ImportMap {
    /// Each import under its number.
    pub inner: FxHashMap<u128, (ImportOrExternCrate, ImportOrDef)>,
}

impl View for ImportMap {
    type V = Map<ImportOrExternCrate, ImportOrDef>;

    open spec fn view(&self) -> Map<ImportOrExternCrate, ImportOrDef> {
        Map::new(
            |i: ImportOrExternCrate| self.inner@.contains_key(import_key(i) as u128),
            |i: ImportOrExternCrate| self.inner@[import_key(i) as u128].1,
        )
    }
}

proof fn lemma_import_key_bound(i: ImportOrExternCrate)
    ensures
        0 <= import_key(i) <= u128::MAX,
{
}

impl ImportMap {
    /// Every import stands under its own number.
    pub open spec fn wf(self) -> bool {
        forall|k: u128| #[trigger]
            self.inner@.contains_key(k) ==> import_key(self.inner@[k].0) == k
    }

    pub fn new() -> (r: ImportMap)
        ensures
            r.wf(),
            r@ == Map::<ImportOrExternCrate, ImportOrDef>::empty(),
    {
        let r = ImportMap { inner: fx::fx_map_new() };
        assert(r@ =~= Map::<ImportOrExternCrate, ImportOrDef>::empty());
        r
    }

    pub fn get(&self, import: ImportOrExternCrate) -> (r: Option<ImportOrDef>)
        ensures
            r == (if self@.contains_key(import) {
                Some(self@[import])
            } else {
                None
            }),
    {
        match fx::fx_map_get(&self.inner, &import_number(import)) {
            Some(entry) => Some(entry.1),
            None => None,
        }
    }

    pub fn insert(&mut self, import: ImportOrExternCrate, to: ImportOrDef)
        requires
            old(self).wf(),
        ensures
            final(self).wf(),
            final(self)@ == old(self)@.insert(import, to),
    {
        let ghost before = self@;
        let _ = fx::fx_map_insert(&mut self.inner, import_number(import), (import, to));
        proof {
            assert forall|i: ImportOrExternCrate| #[trigger] self@.contains_key(i) == before.insert(
                import,
                to,
            ).contains_key(i) by {
                lemma_import_key_bound(i);
                lemma_import_key_bound(import);
                if import_key(i) == import_key(import) {
                    import_key_is_injective(i, import);
                }
            }
            assert forall|i: ImportOrExternCrate| #[trigger] self@.contains_key(i) implies self@[i]
                == before.insert(import, to)[i] by {
                lemma_import_key_bound(i);
                lemma_import_key_bound(import);
                if import_key(i) == import_key(import) {
                    import_key_is_injective(i, import);
                }
            }
            assert(self@ =~= before.insert(import, to));
        }
    }

    /// The imports in the map, in no particular order.
    pub fn keys(&self) -> (r: Vec<ImportOrExternCrate>)
        requires
            self.wf(),
        ensures
            forall|i: ImportOrExternCrate| #[trigger]
                self@.contains_key(i) <==> r@.contains(i),
            r@.no_duplicates(),
    {
        let values = fx::fx_map_values(&self.inner);
        let mut r: Vec<ImportOrExternCrate> = Vec::new();
        let mut k: usize = 0;
        while k < values.len()
            invariant
                k <= values@.len(),
                r@.len() == k,
                forall|j: int| 0 <= j < k ==> #[trigger] r@[j] == values@[j].0,
            decreases values@.len() - k,
        {
            r.push(values[k].0);
            k = k + 1;
        }
        proof {
            assert forall|i: ImportOrExternCrate| #[trigger]
                self@.contains_key(i) == r@.contains(i) by {
                lemma_import_key_bound(i);
                if self@.contains_key(i) {
                    let key = import_key(i) as u128;
                    assert(self.inner@.contains_key(key));
                    let j = choose|j: int|
                        0 <= j < values@.len() && *(#[trigger] values@[j]) == self.inner@[key];
                    import_key_is_injective(i, self.inner@[key].0);
                    assert(r@[j] == i);
                }
                if r@.contains(i) {
                    let j = choose|j: int| 0 <= j < r@.len() && r@[j] == i;
                    assert(*values@[j] == *values@[j]);
                    let key = choose|key: u128| #[trigger]
                        self.inner@.contains_key(key) && self.inner@[key] == *values@[j];
                    assert(self.inner@.contains_key(key));
                    assert(r@[j] == values@[j].0);
                }
            }
            let keys = Seq::new(r@.len(), |j: int| import_key(r@[j]) as u128);
            assert forall|k: u128| keys.to_set().contains(k) <==> self.inner@.dom().contains(k) by {
                if keys.contains(k) {
                    let j = choose|j: int| 0 <= j < keys.len() && keys[j] == k;
                    let key = choose|key: u128| #[trigger]
                        self.inner@.contains_key(key) && self.inner@[key] == *values@[j];
                    assert(import_key(self.inner@[key].0) == key);
                }
                if self.inner@.contains_key(k) {
                    let j = choose|j: int|
                        0 <= j < values@.len() && *(#[trigger] values@[j]) == self.inner@[k];
                    assert(import_key(self.inner@[k].0) == k);
                    assert(keys[j] == k);
                }
            }
            assert(keys.to_set() =~= self.inner@.dom());
            keys.lemma_no_dup_set_cardinality();
            assert forall|a: int, b: int|
                0 <= a < r@.len() && 0 <= b < r@.len() && a != b implies r@[a] != r@[b] by {
                assert(keys[a] != keys[b]);
            }
        }
        r
    }

    /// Gives memory back and keeps the entries.
    pub fn shrink_to_fit(&mut self)
        ensures
            final(self)@ == old(self)@,
            final(self).inner@ == old(self).inner@,
            old(self).wf() ==> final(self).wf(),
    {
        fx::fx_map_shrink_to_fit(&mut self.inner);
    }
}

/// A node of some file. The file stands there as one number.
#[derive(Clone, Copy, PartialEq, Eq, Structural, Debug, Hash)]
pub struct AstId {
    pub file_id: u64,
    pub value: ErasedFileAstId,
}

pub open spec fn node_key(node: AstId) -> int {
    node.file_id * 0x1_0000_0000 + node.value.0
}

/// Different nodes have different numbers.
pub proof fn node_key_is_injective(a: AstId, b: AstId)
    requires
        node_key(a) == node_key(b),
    ensures
        a == b,
{
}

pub(crate) fn node_number(node: AstId) -> (r: u128)
    ensures
        r == node_key(node),
{
    node.file_id as u128 * 0x1_0000_0000 + node.value.0 as u128
}

/// A map from nodes.
#[derive(Debug, PartialEq, Eq)]
pub struct NodeMap<V> {
    /// Each node under its number.
    pub inner: FxHashMap<u128, (AstId, V)>,
}

impl<V> View for NodeMap<V> {
    type V = Map<AstId, V>;

    open spec fn view(&self) -> Map<AstId, V> {
        Map::new(
            |n: AstId| self.inner@.contains_key(node_key(n) as u128),
            |n: AstId| self.inner@[node_key(n) as u128].1,
        )
    }
}

proof fn lemma_node_key_bound(n: AstId)
    ensures
        0 <= node_key(n) <= u128::MAX,
{
}

impl<V> NodeMap<V> {
    /// Every node stands under its own number.
    pub open spec fn wf(self) -> bool {
        forall|k: u128| #[trigger] self.inner@.contains_key(k) ==> node_key(self.inner@[k].0) == k
    }

    pub fn new() -> (r: NodeMap<V>)
        ensures
            r.wf(),
            r@ == Map::<AstId, V>::empty(),
    {
        let r = NodeMap { inner: fx::fx_map_new() };
        assert(r@ =~= Map::<AstId, V>::empty());
        r
    }

    pub fn get(&self, node: AstId) -> (r: Option<&V>)
        ensures
            r is Some <==> self@.contains_key(node),
            r matches Some(v) ==> *v == self@[node],
    {
        match fx::fx_map_get(&self.inner, &node_number(node)) {
            Some(entry) => Some(&entry.1),
            None => None,
        }
    }

    pub fn insert(&mut self, node: AstId, value: V)
        requires
            old(self).wf(),
        ensures
            final(self).wf(),
            final(self)@ == old(self)@.insert(node, value),
    {
        let ghost before = self@;
        let _ = fx::fx_map_insert(&mut self.inner, node_number(node), (node, value));
        proof {
            assert forall|n: AstId| #[trigger] self@.contains_key(n) == before.insert(
                node,
                value,
            ).contains_key(n) by {
                lemma_node_key_bound(n);
                lemma_node_key_bound(node);
                if node_key(n) == node_key(node) {
                    node_key_is_injective(n, node);
                }
            }
            assert forall|n: AstId| #[trigger] self@.contains_key(n) implies self@[n]
                == before.insert(node, value)[n] by {
                lemma_node_key_bound(n);
                lemma_node_key_bound(node);
                if node_key(n) == node_key(node) {
                    node_key_is_injective(n, node);
                }
            }
            assert(self@ =~= before.insert(node, value));
        }
    }

    pub fn remove(&mut self, node: AstId) -> (r: Option<V>)
        requires
            old(self).wf(),
        ensures
            final(self).wf(),
            final(self)@ == old(self)@.remove(node),
            r is Some <==> old(self)@.contains_key(node),
            r matches Some(v) ==> v == old(self)@[node],
    {
        let ghost before = self@;
        let entry = fx::fx_map_remove(&mut self.inner, &node_number(node));
        proof {
            assert forall|n: AstId| #[trigger] self@.contains_key(n) == before.remove(
                node,
            ).contains_key(n) by {
                lemma_node_key_bound(n);
                lemma_node_key_bound(node);
                if node_key(n) == node_key(node) {
                    node_key_is_injective(n, node);
                }
            }
            assert forall|n: AstId| #[trigger] self@.contains_key(n) implies self@[n]
                == before.remove(node)[n] by {
                lemma_node_key_bound(n);
                lemma_node_key_bound(node);
            }
            assert(self@ =~= before.remove(node));
        }
        match entry {
            Some(entry) => Some(entry.1),
            None => None,
        }
    }

    /// The nodes with their values, in no particular order.
    pub fn entries(&self) -> (r: Vec<&(AstId, V)>)
        requires
            self.wf(),
        ensures
            forall|n: AstId| #[trigger]
                self@.contains_key(n) ==> exists|i: int|
                    0 <= i < r@.len() && *(#[trigger] r@[i]) == (n, self@[n]),
            forall|i: int|
                0 <= i < r@.len() ==> self@.contains_key((#[trigger] r@[i]).0) && self@[r@[i].0]
                    == r@[i].1,
            forall|i: int, j: int|
                0 <= i < j < r@.len() ==> (#[trigger] r@[i]).0 != (#[trigger] r@[j]).0,
    {
        let r = fx::fx_map_values(&self.inner);
        proof {
            let keys = Seq::new(r@.len(), |i: int| node_key(r@[i].0) as u128);
            assert forall|k: u128| keys.to_set().contains(k) <==> self.inner@.dom().contains(k) by {
                if keys.contains(k) {
                    let i = choose|i: int| 0 <= i < keys.len() && keys[i] == k;
                    let key = choose|key: u128| #[trigger]
                        self.inner@.contains_key(key) && self.inner@[key] == *r@[i];
                    assert(node_key(self.inner@[key].0) == key);
                }
                if self.inner@.contains_key(k) {
                    let i = choose|i: int|
                        0 <= i < r@.len() && *(#[trigger] r@[i]) == self.inner@[k];
                    assert(node_key(self.inner@[k].0) == k);
                    assert(keys[i] == k);
                }
            }
            assert(keys.to_set() =~= self.inner@.dom());
            keys.lemma_no_dup_set_cardinality();
            assert forall|i: int, j: int| 0 <= i < j < r@.len() implies (#[trigger] r@[i]).0 != (
            #[trigger] r@[j]).0 by {
                assert(keys[i] != keys[j]);
            }
            assert forall|n: AstId| #[trigger] self@.contains_key(n) implies exists|i: int|
                0 <= i < r@.len() && *(#[trigger] r@[i]) == (n, self@[n]) by {
                lemma_node_key_bound(n);
                let key = node_key(n) as u128;
                assert(self.inner@.contains_key(key));
                let i = choose|i: int|
                    0 <= i < r@.len() && *(#[trigger] r@[i]) == self.inner@[key];
                node_key_is_injective(n, self.inner@[key].0);
                assert(*r@[i] == (n, self@[n]));
            }
            assert forall|i: int| 0 <= i < r@.len() implies self@.contains_key(
                (#[trigger] r@[i]).0,
            ) && self@[r@[i].0] == r@[i].1 by {
                let key = choose|key: u128| #[trigger]
                    self.inner@.contains_key(key) && self.inner@[key] == *r@[i];
                assert(self.inner@.contains_key(key));
                assert(node_key(r@[i].0) == key);
            }
        }
        r
    }

    /// Gives memory back and keeps the entries.
    pub fn shrink_to_fit(&mut self)
        ensures
            final(self)@ == old(self)@,
            final(self).inner@ == old(self).inner@,
            old(self).wf() ==> final(self).wf(),
    {
        fx::fx_map_shrink_to_fit(&mut self.inner);
    }
}

} // verus!
