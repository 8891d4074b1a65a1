//! Listing what is in a scope, in order.

use super::imports::{ImportId, ImportOrExternCrate};
use super::keys::ImportMap;
use super::names;
use super::scope::{find_entry, resolved, ItemScope};
use crate::ids::{Id, ModuleDefId, TraitId, UseId, UseTreeIdx, Visibility};
use crate::per_ns::{Item, ItemInNs, PerNs};
use crate::sorting;
use crate::thin::thin;
use vstd::prelude::*;

verus! {

/// Whether a name comes up in a scope: it stands for something, or could not be resolved.
pub open spec fn has_name(scope: ItemScope, name: Seq<char>) -> bool {
    ||| find_entry(scope.types_view(), name, 0) is Some
    ||| find_entry(scope.values_view(), name, 0) is Some
    ||| find_entry(scope.macros_view(), name, 0) is Some
    ||| names::set_names(scope.unresolved@).contains(name)
}

proof fn lemma_find_some<I>(s: Seq<(Seq<char>, I)>, name: Seq<char>, i: nat)
    ensures
        find_entry(s, name, i) is Some <==> exists|k: int|
            i <= k < s.len() && (#[trigger] s[k]).0 == name,
    decreases s.len() - i,
{
    if i < s.len() {
        lemma_find_some(s, name, i + 1);
        if s[i as int].0 != name {
            if exists|k: int| i <= k < s.len() && (#[trigger] s[k]).0 == name {
                let k = choose|k: int| i <= k < s.len() && (#[trigger] s[k]).0 == name;
                assert(i + 1 <= k);
                assert(s[k].0 == name);
            }
        } else {
            assert(s[i as int].0 == name);
        }
    }
}

impl ItemScope {
    /// The names that come up in the scope, in order.
    fn sorted_names(&self) -> (r: Vec<&String>)
        requires
            self.wf(),
        ensures
            sorting::increasing(r@),
            forall|n: Seq<char>| #[trigger] sorting::has_text(r@, n) <==> has_name(*self, n),
    {
        let mut all: Vec<&String> = Vec::new();
        let types = names::name_map_len(&self.types);
        let mut i: usize = 0;
        while i < types
            invariant
                i <= types,
                types == names::entries(self.types).len(),
                all@.len() == i,
                forall|j: int| 0 <= j < i ==> (#[trigger] all@[j])@ == names::entries(
                    self.types,
                )[j].0@,
            decreases types - i,
        {
            all.push(names::name_map_at(&self.types, i).0);
            i = i + 1;
        }
        let values = names::name_map_len(&self.values);
        let mut i: usize = 0;
        while i < values
            invariant
                i <= values,
                types == names::entries(self.types).len(),
                values == names::entries(self.values).len(),
                all@.len() == types + i,
                forall|j: int| 0 <= j < types ==> (#[trigger] all@[j])@ == names::entries(
                    self.types,
                )[j].0@,
                forall|j: int| types <= j < types + i ==> (#[trigger] all@[j])@ == names::entries(
                    self.values,
                )[j - types].0@,
            decreases values - i,
        {
            all.push(names::name_map_at(&self.values, i).0);
            i = i + 1;
        }
        let macros = names::name_map_len(&self.macros);
        let mut i: usize = 0;
        while i < macros
            invariant
                i <= macros,
                types == names::entries(self.types).len(),
                values == names::entries(self.values).len(),
                macros == names::entries(self.macros).len(),
                all@.len() == types + values + i,
                forall|j: int| 0 <= j < types ==> (#[trigger] all@[j])@ == names::entries(
                    self.types,
                )[j].0@,
                forall|j: int|
                    types <= j < types + values ==> (#[trigger] all@[j])@ == names::entries(
                        self.values,
                    )[j - types].0@,
                forall|j: int|
                    types + values <= j < types + values + i ==> (#[trigger] all@[j])@
                        == names::entries(self.macros)[j - types - values].0@,
            decreases macros - i,
        {
            all.push(names::name_map_at(&self.macros, i).0);
            i = i + 1;
        }
        let ghost named = all@;
        let unresolved = names::name_set_items(&self.unresolved);
        let mut i: usize = 0;
        while i < unresolved.len()
            invariant
                i <= unresolved@.len(),
                all@ == named + unresolved@.take(i as int),
            decreases unresolved@.len() - i,
        {
            all.push(unresolved[i]);
            i = i + 1;
            assert(all@ =~= named + unresolved@.take(i as int));
        }
        assert(unresolved@.take(unresolved@.len() as int) =~= unresolved@);
        proof {
            let (t, v, m) = (
                names::entries(self.types),
                names::entries(self.values),
                names::entries(self.macros),
            );
            assert forall|n: Seq<char>| #[trigger] sorting::has_text(all@, n) <==> has_name(
                *self,
                n,
            ) by {
                lemma_find_some(self.types_view(), n, 0);
                lemma_find_some(self.values_view(), n, 0);
                lemma_find_some(self.macros_view(), n, 0);
                if sorting::has_text(all@, n) {
                    let k = choose|k: int| 0 <= k < all@.len() && (#[trigger] all@[k])@ == n;
                    if k < types {
                        assert(named[k] == all@[k]);
                        assert(self.types_view()[k].0 == n);
                    } else if k < types + values {
                        assert(named[k] == all@[k]);
                        assert(self.values_view()[k - types].0 == n);
                    } else if k < types + values + macros {
                        assert(named[k] == all@[k]);
                        assert(self.macros_view()[k - types - values].0 == n);
                    } else {
                        assert(unresolved@[k - named.len()]@ == n);
                        assert(names::set_names(self.unresolved@).contains(n));
                    }
                }
                if exists|k: int| 0 <= k < self.types_view().len() && (#[trigger] self.types_view()[k]).0
                    == n {
                    let k = choose|k: int|
                        0 <= k < self.types_view().len() && (#[trigger] self.types_view()[k]).0 == n;
                    assert(named[k]@ == n);
                    assert(all@[k]@ == n);
                }
                if exists|k: int|
                    0 <= k < self.values_view().len() && (#[trigger] self.values_view()[k]).0 == n {
                    let k = choose|k: int|
                        0 <= k < self.values_view().len() && (#[trigger] self.values_view()[k]).0
                            == n;
                    assert(named[types + k]@ == n);
                    assert(all@[types + k]@ == n);
                }
                if exists|k: int|
                    0 <= k < self.macros_view().len() && (#[trigger] self.macros_view()[k]).0 == n {
                    let k = choose|k: int|
                        0 <= k < self.macros_view().len() && (#[trigger] self.macros_view()[k]).0
                            == n;
                    assert(named[types + values + k]@ == n);
                    assert(all@[types + values + k]@ == n);
                }
                if names::set_names(self.unresolved@).contains(n) {
                    let k = choose|k: int|
                        0 <= k < unresolved@.len() && (#[trigger] unresolved@[k])@ == n;
                    assert(all@[named.len() + k]@ == n);
                }
            }
        }
        sorting::sorted_dedup(all)
    }

    /// The names that come up in the scope, in order, with what they stand for.
    pub fn entries(&self) -> (r: Vec<(&String, PerNs)>)
        requires
            self.wf(),
        ensures
            listed(r@, *self),
    {
        let all = self.sorted_names();
        let mut r: Vec<(&String, PerNs)> = Vec::new();
        let mut i: usize = 0;
        while i < all.len()
            invariant
                self.wf(),
                i <= all@.len(),
                r@.len() == i,
                forall|j: int|
                    0 <= j < i ==> (#[trigger] r@[j]).0@ == all@[j]@ && r@[j].1 == self.spec_get(
                        all@[j]@,
                    ),
            decreases all@.len() - i,
        {
            r.push((all[i], self.get(all[i].as_str())));
            i = i + 1;
        }
        proof {
            assert forall|a: int, b: int| 0 <= a < b < r@.len() implies sorting::text_le(
                (#[trigger] r@[a]).0@,
                (#[trigger] r@[b]).0@,
            ) && r@[a].0@ != r@[b].0@ by {
                assert(sorting::text_le(all@[a]@, all@[b]@));
            }
            assert forall|n: Seq<char>| #[trigger] has_name(*self, n) <==> exists|i: int|
                0 <= i < r@.len() && (#[trigger] r@[i]).0@ == n by {
                assert(sorting::has_text(all@, n) <==> has_name(*self, n));
                if has_name(*self, n) {
                    let k = choose|k: int| 0 <= k < all@.len() && (#[trigger] all@[k])@ == n;
                    assert(r@[k].0@ == n);
                }
                if exists|i: int| 0 <= i < r@.len() && (#[trigger] r@[i]).0@ == n {
                    let k = choose|k: int| 0 <= k < r@.len() && (#[trigger] r@[k]).0@ == n;
                    assert(all@[k]@ == n);
                }
            }
        }
        r
    }
}

/// The names of a scope in order, each once, with what they stand for.
pub open spec fn listed(r: Seq<(&String, PerNs)>, scope: ItemScope) -> bool {
    &&& forall|i: int, j: int|
        0 <= i < j < r.len() ==> sorting::text_le((#[trigger] r[i]).0@, (#[trigger] r[j]).0@)
            && r[i].0@ != r[j].0@
    &&& forall|n: Seq<char>| #[trigger]
        has_name(scope, n) <==> exists|i: int| 0 <= i < r.len() && (#[trigger] r[i]).0@ == n
    &&& forall|i: int| 0 <= i < r.len() ==> (#[trigger] r[i]).1 == scope.spec_get(r[i].0@)
}

/// What a trait without a name stands for.
pub open spec fn unnamed_trait(item: (TraitId, Item<(), ImportId>)) -> PerNs {
    PerNs {
        types: Some(
            Item {
                def: ModuleDefId::TraitId(item.0),
                vis: item.1.vis,
                import: match item.1.import {
                    Some(i) => Some(ImportOrExternCrate::Import(i)),
                    None => None,
                },
            },
        ),
        values: None,
        macros: None,
    }
}

/// Whether this lists all of a scope: the names with what they stand for, in order, and then the
/// traits without a name.
pub open spec fn resolutions_listed(
    r: Seq<(Option<&String>, PerNs)>,
    names: Seq<(&String, PerNs)>,
    unnamed: Seq<(TraitId, Item<(), ImportId>)>,
) -> bool {
    &&& r.len() == names.len() + unnamed.len()
    &&& forall|i: int|
        0 <= i < names.len() ==> (#[trigger] r[i]).0 is Some && r[i].0->0@ == names[i].0@ && r[i].1
            == names[i].1
    &&& forall|i: int|
        names.len() <= i < r.len() ==> (#[trigger] r[i]).0 is None && r[i].1 == unnamed_trait(
            unnamed[i - names.len()],
        )
}

impl ItemScope {
    /// All that can be seen in the scope: the names in order, and then the traits without a name.
    pub fn resolutions(&self) -> (r: Vec<(Option<&String>, PerNs)>)
        requires
            self.wf(),
        ensures
            exists|entries: Seq<(&String, PerNs)>| #[trigger]
                listed(entries, *self) && resolutions_listed(
                    r@,
                    entries,
                    thin(self.unnamed_trait_imports),
                ),
    {
        let entries = self.entries();
        let mut r: Vec<(Option<&String>, PerNs)> = Vec::new();
        let mut i: usize = 0;
        while i < entries.len()
            invariant
                i <= entries@.len(),
                r@.len() == i,
                forall|j: int|
                    0 <= j < i ==> (#[trigger] r@[j]).0 is Some && r@[j].0->0@ == entries@[j].0@
                        && r@[j].1 == entries@[j].1,
            decreases entries@.len() - i,
        {
            let (name, def) = entries[i];
            r.push((Some(name), def));
            i = i + 1;
        }
        let unnamed = self.unnamed_trait_imports.as_slice();
        let ghost n = entries@.len();
        let mut k: usize = 0;
        while k < unnamed.len()
            invariant
                k <= unnamed@.len(),
                n == entries@.len(),
                r@.len() == n + k,
                forall|j: int|
                    0 <= j < n ==> (#[trigger] r@[j]).0 is Some && r@[j].0->0@ == entries@[j].0@
                        && r@[j].1 == entries@[j].1,
                forall|j: int|
                    n <= j < n + k ==> (#[trigger] r@[j]).0 is None && r@[j].1 == unnamed_trait(
                        unnamed@[j - n],
                    ),
            decreases unnamed@.len() - k,
        {
            let (tr, item) = unnamed[k];
            let import = match item.import {
                Some(i) => Some(ImportOrExternCrate::Import(i)),
                None => None,
            };
            r.push((None, PerNs::types(ModuleDefId::TraitId(tr), item.vis, import)));
            k = k + 1;
        }
        assert(resolutions_listed(r@, entries@, thin(self.unnamed_trait_imports)));
        r
    }
}

// Imports.

/// Whether an import that is not a glob is recorded in one of the namespaces.
pub open spec fn has_import(scope: ItemScope, import: ImportId) -> bool {
    let key = ImportOrExternCrate::Import(import);
    ||| scope.use_imports_types@.contains_key(key)
    ||| scope.use_imports_macros@.contains_key(key)
    ||| scope.use_imports_values@.contains_key(key)
}

pub open spec fn import_triple(import: ImportId) -> (u32, u32, u32) {
    (import.use_.0.low, import.use_.0.generation, import.idx.0)
}

pub open spec fn triple_import(t: (u32, u32, u32)) -> ImportId {
    ImportId { use_: UseId(Id { low: t.0, generation: t.1 }), idx: UseTreeIdx(t.2) }
}

/// Appends the imports of a map that are not globs.
fn push_imports(map: &ImportMap, out: &mut Vec<(u32, u32, u32)>)
    requires
        map.wf(),
    ensures
        forall|t: (u32, u32, u32)| #[trigger]
            final(out)@.contains(t) <==> old(out)@.contains(t) || map@.contains_key(
                ImportOrExternCrate::Import(triple_import(t)),
            ),
{
    let keys = map.keys();
    let ghost before = out@;
    let mut i: usize = 0;
    while i < keys.len()
        invariant
            i <= keys@.len(),
            before == old(out)@,
            forall|t: (u32, u32, u32)| #[trigger]
                out@.contains(t) <==> before.contains(t) || keys@.take(i as int).contains(
                    ImportOrExternCrate::Import(triple_import(t)),
                ),
        decreases keys@.len() - i,
    {
        let ghost so_far = out@;
        let ghost taken = keys@.take(i as int);
        let ghost key = keys@[i as int];
        assert(keys@.take(i + 1) =~= taken.push(key));
        let mut added: Option<(u32, u32, u32)> = None;
        if let Some(import) = keys[i].import() {
            let t = (import.use_.0.low, import.use_.0.generation, import.idx.0);
            out.push(t);
            added = Some(t);
        }
        proof {
            assert forall|t: (u32, u32, u32)| #[trigger]
                out@.contains(t) <==> before.contains(t) || taken.push(key).contains(
                    ImportOrExternCrate::Import(triple_import(t)),
                ) by {
                let wanted = ImportOrExternCrate::Import(triple_import(t));
                if out@.contains(t) {
                    let k = choose|k: int| 0 <= k < out@.len() && out@[k] == t;
                    if k < so_far.len() {
                        assert(so_far[k] == t);
                        assert(so_far.contains(t));
                        if taken.contains(wanted) {
                            let m = choose|m: int| 0 <= m < taken.len() && taken[m] == wanted;
                            assert(taken.push(key)[m] == wanted);
                        }
                    } else {
                        assert(taken.push(key)[i as int] == wanted);
                    }
                }
                if so_far.contains(t) {
                    let k = choose|k: int| 0 <= k < so_far.len() && so_far[k] == t;
                    assert(out@[k] == t);
                }
                if taken.push(key).contains(wanted) {
                    let m = choose|m: int| 0 <= m < i + 1 && taken.push(key)[m] == wanted;
                    if m < i {
                        assert(taken[m] == wanted);
                        assert(taken.contains(wanted));
                        assert(so_far.contains(t));
                    } else {
                        assert(added == Some(t));
                        assert(out@[out@.len() - 1] == t);
                    }
                }
            }
        }
        i = i + 1;
    }
    proof {
        assert(keys@.take(keys@.len() as int) =~= keys@);
        assert forall|t: (u32, u32, u32)| #[trigger]
            out@.contains(t) <==> before.contains(t) || map@.contains_key(
                ImportOrExternCrate::Import(triple_import(t)),
            ) by {
            let wanted = ImportOrExternCrate::Import(triple_import(t));
            assert(map@.contains_key(wanted) <==> keys@.contains(wanted));
        }
    }
}

impl ItemScope {
    /// The imports of the scope that are not globs, in order, each once.
    pub fn imports(&self) -> (r: Vec<ImportId>)
        requires
            self.wf(),
        ensures
            forall|i: ImportId| #[trigger] r@.contains(i) <==> has_import(*self, i),
            forall|i: int, j: int|
                0 <= i < j < r@.len() ==> sorting::triple_le(
                    import_triple(#[trigger] r@[i]),
                    import_triple(#[trigger] r@[j]),
                ) && r@[i] != r@[j],
    {
        let mut all: Vec<(u32, u32, u32)> = Vec::new();
        push_imports(&self.use_imports_types, &mut all);
        push_imports(&self.use_imports_macros, &mut all);
        push_imports(&self.use_imports_values, &mut all);
        let sorted = sorting::sorted_dedup_triples(all);
        let mut r: Vec<ImportId> = Vec::new();
        let mut i: usize = 0;
        while i < sorted.len()
            invariant
                i <= sorted@.len(),
                r@.len() == i,
                forall|j: int| 0 <= j < i ==> #[trigger] r@[j] == triple_import(sorted@[j]),
            decreases sorted@.len() - i,
        {
            let (low, generation, idx) = sorted[i];
            r.push(ImportId { use_: UseId(Id { low, generation }), idx: UseTreeIdx(idx) });
            i = i + 1;
        }
        proof {
            assert forall|x: ImportId| #[trigger] r@.contains(x) <==> has_import(*self, x) by {
                let t = import_triple(x);
                assert(triple_import(t) == x);
                assert(sorted@.contains(t) <==> all@.contains(t));
                if r@.contains(x) {
                    let k = choose|k: int| 0 <= k < r@.len() && r@[k] == x;
                    assert(import_triple(triple_import(sorted@[k])) == sorted@[k]);
                    assert(sorted@[k] == t);
                }
                if sorted@.contains(t) {
                    let k = choose|k: int| 0 <= k < sorted@.len() && sorted@[k] == t;
                    assert(r@[k] == x);
                }
            }
            assert forall|a: int, b: int| 0 <= a < b < r@.len() implies sorting::triple_le(
                import_triple(#[trigger] r@[a]),
                import_triple(#[trigger] r@[b]),
            ) && r@[a] != r@[b] by {
                assert(sorting::triple_le(sorted@[a], sorted@[b]) && sorted@[a] != sorted@[b]);
                assert(import_triple(triple_import(sorted@[a])) == sorted@[a]);
                assert(import_triple(triple_import(sorted@[b])) == sorted@[b]);
            }
        }
        r
    }
}

// The names of a definition.

/// A name of a definition, from where it can be seen, and whether it is declared here.
pub open spec fn name_entry<D, I>(e: (Seq<char>, Item<D, I>)) -> (Seq<char>, Visibility, bool) {
    (e.0, e.1.vis, e.1.import is None)
}

/// The entries of a definition among the first `n`, in order.
pub open spec fn entries_of<D, I>(s: Seq<(Seq<char>, Item<D, I>)>, def: D, n: nat) -> Seq<
    (Seq<char>, Visibility, bool),
>
    decreases n,
{
    if n == 0 {
        Seq::empty()
    } else {
        let before = entries_of(s, def, (n - 1) as nat);
        if s[n - 1].1.def == def {
            before.push(name_entry(s[n - 1]))
        } else {
            before
        }
    }
}

/// The names that a definition has in a scope.
pub open spec fn names_in(scope: ItemScope, item: ItemInNs) -> Seq<(Seq<char>, Visibility, bool)> {
    match item {
        ItemInNs::Types(def) => entries_of(scope.types_view(), def, scope.types_view().len()),
        ItemInNs::Values(def) => entries_of(scope.values_view(), def, scope.values_view().len()),
        ItemInNs::Macros(def) => entries_of(scope.macros_view(), def, scope.macros_view().len()),
    }
}

pub open spec fn found_names(r: Seq<(&String, Visibility, bool)>) -> Seq<
    (Seq<char>, Visibility, bool),
> {
    Seq::new(r.len(), |i: int| (r[i].0@, r[i].1, r[i].2))
}

impl ItemScope {
    /// All names of a definition. This looks at every entry.
    pub fn all_names_of(&self, item: ItemInNs) -> (r: Vec<(&String, Visibility, bool)>)
        requires
            self.wf(),
        ensures
            found_names(r@) == names_in(*self, item),
    {
        let mut r: Vec<(&String, Visibility, bool)> = Vec::new();
        assert(found_names(r@) =~= Seq::empty());
        match item {
            ItemInNs::Macros(def) => {
                let all = self.macros();
                let mut i: usize = 0;
                while i < all.len()
                    invariant
                        i <= all@.len(),
                        all@.len() == self.macros_view().len(),
                        forall|j: int|
                            0 <= j < all@.len() ==> ((#[trigger] all@[j]).0@, all@[j].1)
                                == self.macros_view()[j],
                        found_names(r@) == entries_of(self.macros_view(), def, i as nat),
                    decreases all@.len() - i,
                {
                    let ghost before = found_names(r@);
                    let (name, it) = all[i];
                    if it.def == def {
                        r.push((name, it.vis, it.import.is_none()));
                        assert(found_names(r@) =~= before.push(name_entry((name@, it))));
                    }
                    i = i + 1;
                }
            },
            ItemInNs::Types(def) => {
                let all = self.types();
                let mut i: usize = 0;
                while i < all.len()
                    invariant
                        i <= all@.len(),
                        all@.len() == self.types_view().len(),
                        forall|j: int|
                            0 <= j < all@.len() ==> ((#[trigger] all@[j]).0@, all@[j].1)
                                == self.types_view()[j],
                        found_names(r@) == entries_of(self.types_view(), def, i as nat),
                    decreases all@.len() - i,
                {
                    let ghost before = found_names(r@);
                    let (name, it) = all[i];
                    if it.def == def {
                        r.push((name, it.vis, it.import.is_none()));
                        assert(found_names(r@) =~= before.push(name_entry((name@, it))));
                    }
                    i = i + 1;
                }
            },
            ItemInNs::Values(def) => {
                let all = self.values();
                let mut i: usize = 0;
                while i < all.len()
                    invariant
                        i <= all@.len(),
                        all@.len() == self.values_view().len(),
                        forall|j: int|
                            0 <= j < all@.len() ==> ((#[trigger] all@[j]).0@, all@[j].1)
                                == self.values_view()[j],
                        found_names(r@) == entries_of(self.values_view(), def, i as nat),
                    decreases all@.len() - i,
                {
                    let ghost before = found_names(r@);
                    let (name, it) = all[i];
                    if it.def == def {
                        r.push((name, it.vis, it.import.is_none()));
                        assert(found_names(r@) =~= before.push(name_entry((name@, it))));
                    }
                    i = i + 1;
                }
            },
        }
        r
    }

    /// The first name of a definition, from where it can be seen, and whether it is declared here.
    pub fn name_of(&self, item: ItemInNs) -> (r: Option<(&String, Visibility, bool)>)
        requires
            self.wf(),
        ensures
            r is Some <==> names_in(*self, item).len() > 0,
            r matches Some((name, vis, declared)) ==> (name@, vis, declared) == names_in(
                *self,
                item,
            )[0],
    {
        let all = self.all_names_of(item);
        assert(found_names(all@).len() == all@.len());
        if all.len() > 0 {
            assert(found_names(all@)[0] == (all@[0].0@, all@[0].1, all@[0].2));
            Some(all[0])
        } else {
            None
        }
    }

    /// Hands the names of a definition to `cb`, until that returns something.
    pub fn names_of<T, F: Fn(&String, Visibility, bool) -> Option<T>>(&self, item: ItemInNs, cb: F) -> (r:
        Option<T>)
        requires
            self.wf(),
            forall|name: &String, vis: Visibility, declared: bool| #[trigger]
                call_requires(cb, (name, vis, declared)),
        ensures
            r matches Some(t) ==> exists|k: int, name: &String|
                #![trigger names_in(*self, item)[k], name@]
                {
                    &&& 0 <= k < names_in(*self, item).len()
                    &&& name@ == names_in(*self, item)[k].0
                    &&& call_ensures(
                        cb,
                        (name, names_in(*self, item)[k].1, names_in(*self, item)[k].2),
                        Some(t),
                    )
                    &&& none_before(cb, names_in(*self, item), k)
                },
            r is None ==> none_before(cb, names_in(*self, item), names_in(*self, item).len() as int),
    {
        let ghost found = names_in(*self, item);
        let all = self.all_names_of(item);
        assert(found_names(all@).len() == all@.len());
        let mut i: usize = 0;
        while i < all.len()
            invariant
                found == names_in(*self, item),
                found == found_names(all@),
                found.len() == all@.len(),
                i <= all@.len(),
                forall|name: &String, vis: Visibility, declared: bool| #[trigger]
                    call_requires(cb, (name, vis, declared)),
                none_before(cb, found, i as int),
            decreases all@.len() - i,
        {
            let (name, vis, declared) = all[i];
            assert(found[i as int] == (name@, vis, declared));
            let t = cb(name, vis, declared);
            if t.is_some() {
                return t;
            }
            assert(none_before(cb, found, i + 1)) by {
                assert forall|k: int| 0 <= k < i + 1 implies refused(
                    cb,
                    #[trigger] found[k],
                ) by {
                    if k == i {
                        assert(call_ensures(cb, (name, vis, declared), None));
                        assert(name@ == found[k].0);
                    }
                }
            }
            i = i + 1;
        }
        None
    }
}

/// Whether `cb` returned nothing for a name.
pub open spec fn refused<T, F: Fn(&String, Visibility, bool) -> Option<T>>(
    cb: F,
    e: (Seq<char>, Visibility, bool),
) -> bool {
    exists|name: &String| #[trigger] name@ == e.0 && call_ensures(cb, (name, e.1, e.2), None)
}

/// Whether `cb` returned nothing for the names before the `k`th.
pub open spec fn none_before<T, F: Fn(&String, Visibility, bool) -> Option<T>>(
    cb: F,
    found: Seq<(Seq<char>, Visibility, bool)>,
    k: int,
) -> bool {
    forall|i: int| 0 <= i < k ==> refused(cb, #[trigger] found[i])
}

} // verus!
