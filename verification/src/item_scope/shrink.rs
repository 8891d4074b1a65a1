//! Giving the memory of a scope back once it is complete.

use super::imports::{
    imports_wf, stored_import, visibilities_wf, ImportOrExternCrate, ScopeImportId,
    ScopeImportOrExternCrate, ScopeVisibility,
};
use super::names;
use super::names::NameMap;
use super::push::{extends, lemma_extends_at};
use super::scope::{resolved, ItemScope, ScopeTypesItem, ScopeValuesItem};
use crate::fx;
use crate::ids::Visibility;
use crate::item_scope::imports;
use crate::per_ns;
use crate::per_ns::{Item, TypesItem, ValuesItem};
use crate::thin::thin;
use thin_vec::ThinVec;
use vstd::prelude::*;

verus! {

/// The table of visibilities after the visibilities of the first `n` items were put into it.
pub open spec fn interned_vis<D, I>(
    table: Seq<Visibility>,
    items: Seq<(Seq<char>, Item<D, I>)>,
    n: nat,
) -> Seq<Visibility>
    decreases n,
{
    if n == 0 {
        table
    } else {
        let before = interned_vis(table, items, (n - 1) as nat);
        let vis = items[n - 1].1.vis;
        if vis == Visibility::Public || before.contains(vis) {
            before
        } else {
            before.push(vis)
        }
    }
}

pub open spec fn with_import(
    table: Seq<ScopeImportOrExternCrate>,
    import: Option<ImportOrExternCrate>,
) -> Seq<ScopeImportOrExternCrate> {
    match import {
        None => table,
        Some(i) => if table.contains(stored_import(i)) {
            table
        } else {
            table.push(stored_import(i))
        },
    }
}

/// The table of imports after the imports of the first `n` types were put into it.
pub open spec fn interned_types(
    table: Seq<ScopeImportOrExternCrate>,
    items: Seq<(Seq<char>, TypesItem)>,
    n: nat,
) -> Seq<ScopeImportOrExternCrate>
    decreases n,
{
    if n == 0 {
        table
    } else {
        with_import(interned_types(table, items, (n - 1) as nat), items[n - 1].1.import)
    }
}

/// The table of imports after the imports of the first `n` values were put into it.
pub open spec fn interned_values(
    table: Seq<ScopeImportOrExternCrate>,
    items: Seq<(Seq<char>, ValuesItem)>,
    n: nat,
) -> Seq<ScopeImportOrExternCrate>
    decreases n,
{
    if n == 0 {
        table
    } else {
        with_import(
            interned_values(table, items, (n - 1) as nat),
            imports::value_imports(items[n - 1].1.import),
        )
    }
}

/// The tables hold what the entries refer to, in the order in which they do, and nothing else.
pub open spec fn is_normal(s: ItemScope) -> bool {
    let types = s.types_view();
    let values = s.values_view();
    &&& s.vis_table() == interned_vis(
        interned_vis(Seq::empty(), types, types.len()),
        values,
        values.len(),
    )
    &&& s.import_table() == interned_values(
        interned_types(Seq::empty(), types, types.len()),
        values,
        values.len(),
    )
}

proof fn lemma_room<T>(part: Seq<T>, all: Seq<T>, x: T)
    requires
        part.no_duplicates(),
        all.no_duplicates(),
        forall|i: int| 0 <= i < part.len() ==> all.contains(#[trigger] part[i]),
        all.contains(x),
        !part.contains(x),
    ensures
        part.len() < all.len(),
{
    let a = part.to_set();
    let b = all.to_set();
    part.unique_seq_to_set();
    all.unique_seq_to_set();
    assert(a.subset_of(b.remove(x))) by {
        assert forall|y: T| a.contains(y) implies b.remove(x).contains(y) by {
            let i = choose|i: int| 0 <= i < part.len() && part[i] == y;
            assert(all.contains(part[i]));
        }
    }
    vstd::set_lib::lemma_len_subset(a, b.remove(x));
}

/// A table without duplicates, all of whose items are in another.
spec fn part_of<T>(part: Seq<T>, all: Seq<T>) -> bool {
    &&& part.no_duplicates()
    &&& forall|i: int| 0 <= i < part.len() ==> all.contains(#[trigger] part[i])
}

/// Finds a visibility a place in a new table, which takes from an old one only what is used.
fn renumber_vis(
    vis: ScopeVisibility,
    old_table: &ThinVec<Visibility>,
    table: &mut ThinVec<Visibility>,
) -> (r: ScopeVisibility)
    requires
        vis.fits(thin(*old_table)),
        visibilities_wf(thin(*old_table)),
        thin(*old_table).len() <= u32::MAX,
        visibilities_wf(thin(*old(table))),
        part_of(thin(*old(table)), thin(*old_table)),
    ensures
        visibilities_wf(thin(*final(table))),
        part_of(thin(*final(table)), thin(*old_table)),
        r.fits(thin(*final(table))),
        r.spec_get(thin(*final(table))) == vis.spec_get(thin(*old_table)),
        ({
            let before = thin(*old(table));
            let v = vis.spec_get(thin(*old_table));
            thin(*final(table)) == if v == Visibility::Public || before.contains(v) {
                before
            } else {
                before.push(v)
            }
        }),
{
    let v = vis.get(old_table.as_slice());
    proof {
        let all = thin(*old_table);
        let part = thin(*table);
        lemma_part_len(part, all);
        if v != Visibility::Public {
            assert(all[vis.0 as int] == v);
            if !part.contains(v) {
                lemma_room(part, all, v);
            }
        }
    }
    ScopeVisibility::new(v, table)
}

proof fn lemma_part_len<T>(part: Seq<T>, all: Seq<T>)
    requires
        part_of(part, all),
        all.no_duplicates(),
    ensures
        part.len() <= all.len(),
{
    if part.len() > 0 {
        let shorter = part.drop_last();
        assert(shorter.no_duplicates());
        assert(!shorter.contains(part.last())) by {
            if shorter.contains(part.last()) {
                let i = choose|i: int| 0 <= i < shorter.len() && shorter[i] == part.last();
                assert(part[i] == part[part.len() - 1]);
            }
        }
        assert forall|i: int| 0 <= i < shorter.len() implies all.contains(
            #[trigger] shorter[i],
        ) by {
            assert(all.contains(part[i]));
        }
        assert(all.contains(part[part.len() - 1]));
        lemma_room(shorter, all, part.last());
    }
}

/// Finds an import a place in a new table, which takes from an old one only what is used.
fn renumber_import(
    import: ScopeImportId,
    old_table: &ThinVec<ScopeImportOrExternCrate>,
    table: &mut ThinVec<ScopeImportOrExternCrate>,
) -> (r: ScopeImportId)
    requires
        import.fits(thin(*old_table)),
        imports_wf(thin(*old_table)),
        thin(*old_table).len() <= u32::MAX,
        imports_wf(thin(*old(table))),
        part_of(thin(*old(table)), thin(*old_table)),
    ensures
        imports_wf(thin(*final(table))),
        part_of(thin(*final(table)), thin(*old_table)),
        r.fits(thin(*final(table))),
        r.spec_get(thin(*final(table))) == import.spec_get(thin(*old_table)),
        thin(*final(table)) == with_import(
            thin(*old(table)),
            import.spec_get(thin(*old_table)),
        ),
{
    let i = import.get(old_table.as_slice());
    proof {
        let all = thin(*old_table);
        let part = thin(*table);
        lemma_part_len(part, all);
        if import.0 > 0 {
            let stored = all[import.0 - 1];
            assert(stored.wf());
            assert(stored_import(stored.spec_import()) == stored);
            assert(all.contains(stored));
            if !part.contains(stored) {
                lemma_room(part, all, stored);
            }
        }
    }
    ScopeImportId::new(i, table)
}

/// Two maps with the same names in the same order.
pub open spec fn same_names<V>(a: Seq<(String, V)>, b: Seq<(String, V)>) -> bool {
    &&& a.len() == b.len()
    &&& forall|i: int| 0 <= i < a.len() ==> (#[trigger] b[i]).0@ == a[i].0@
}

/// Renumbers the visibilities and imports of the types.
fn renumber_types(
    map: &mut NameMap<ScopeTypesItem>,
    old_vis: &ThinVec<Visibility>,
    old_imports: &ThinVec<ScopeImportOrExternCrate>,
    vis: &mut ThinVec<Visibility>,
    imports: &mut ThinVec<ScopeImportOrExternCrate>,
)
    requires
        visibilities_wf(thin(*old_vis)),
        imports_wf(thin(*old_imports)),
        thin(*old_vis).len() <= u32::MAX,
        thin(*old_imports).len() <= u32::MAX,
        forall|i: int|
            0 <= i < names::entries(*old(map)).len() ==> (#[trigger] names::entries(
                *old(map),
            )[i]).1.fits(thin(*old_vis), thin(*old_imports)),
        visibilities_wf(thin(*old(vis))),
        imports_wf(thin(*old(imports))),
        part_of(thin(*old(vis)), thin(*old_vis)),
        part_of(thin(*old(imports)), thin(*old_imports)),
    ensures
        visibilities_wf(thin(*final(vis))),
        imports_wf(thin(*final(imports))),
        part_of(thin(*final(vis)), thin(*old_vis)),
        part_of(thin(*final(imports)), thin(*old_imports)),
        extends(thin(*old(vis)), thin(*final(vis))),
        extends(thin(*old(imports)), thin(*final(imports))),
        same_names(names::entries(*old(map)), names::entries(*final(map))),
        forall|i: int|
            0 <= i < names::entries(*final(map)).len() ==> (#[trigger] names::entries(
                *final(map),
            )[i]).1.fits(thin(*final(vis)), thin(*final(imports))),
        ({
            let items = resolved(
                names::entries(*old(map)),
                |t: ScopeTypesItem| t.item(thin(*old_vis), thin(*old_imports)),
            );
            &&& resolved(
                names::entries(*final(map)),
                |t: ScopeTypesItem| t.item(thin(*final(vis)), thin(*final(imports))),
            ) == items
            &&& thin(*final(vis)) == interned_vis(thin(*old(vis)), items, items.len())
            &&& thin(*final(imports)) == interned_types(thin(*old(imports)), items, items.len())
        }),
{
    let ghost e = names::entries(*map);
    let ghost v0 = thin(*vis);
    let ghost t0 = thin(*imports);
    let ghost ov = thin(*old_vis);
    let ghost oi = thin(*old_imports);
    let ghost items = resolved(e, |t: ScopeTypesItem| t.item(ov, oi));
    proof {
        assert(v0.take(v0.len() as int) =~= v0);
        assert(t0.take(t0.len() as int) =~= t0);
    }
    let len: usize = names::name_map_len(map);
    let mut i: usize = 0;
    while i < len
        invariant
            i <= len,
            len == e.len(),
            e == names::entries(*old(map)),
            ov == thin(*old_vis),
            oi == thin(*old_imports),
            v0 == thin(*old(vis)),
            t0 == thin(*old(imports)),
            items == resolved(e, |t: ScopeTypesItem| t.item(ov, oi)),
            visibilities_wf(ov),
            imports_wf(oi),
            ov.len() <= u32::MAX,
            oi.len() <= u32::MAX,
            forall|j: int| 0 <= j < e.len() ==> (#[trigger] e[j]).1.fits(ov, oi),
            visibilities_wf(thin(*vis)),
            imports_wf(thin(*imports)),
            part_of(thin(*vis), ov),
            part_of(thin(*imports), oi),
            extends(v0, thin(*vis)),
            extends(t0, thin(*imports)),
            thin(*vis) == interned_vis(v0, items, i as nat),
            thin(*imports) == interned_types(t0, items, i as nat),
            same_names(e, names::entries(*map)),
            forall|j: int| i <= j < len ==> #[trigger] names::entries(*map)[j] == e[j],
            forall|j: int|
                0 <= j < i ==> {
                    let t = (#[trigger] names::entries(*map)[j]).1;
                    &&& t.fits(thin(*vis), thin(*imports))
                    &&& t.item(thin(*vis), thin(*imports)) == e[j].1.item(ov, oi)
                },
        decreases len - i,
    {
        let ghost v1 = thin(*vis);
        let ghost t1 = thin(*imports);
        let ghost e1 = names::entries(*map);
        let item = *names::name_map_at(map, i).1;
        assert(e1[i as int] == e[i as int]);
        assert(item.fits(ov, oi));
        let new_vis = renumber_vis(item.vis, old_vis, vis);
        let new_import = renumber_import(item.import, old_imports, imports);
        let renumbered = ScopeTypesItem { def: item.def, vis: new_vis, import: new_import };
        proof {
            assert(items[i as int].1 == item.item(ov, oi));
            
            assert(thin(*vis).take(v1.len() as int) =~= v1);
            assert(thin(*imports).take(t1.len() as int) =~= t1);
            assert(thin(*vis).take(v0.len() as int) =~= v1.take(v0.len() as int));
            assert(thin(*imports).take(t0.len() as int) =~= t1.take(t0.len() as int));
        }
        names::name_map_set(map, i, renumbered);
        proof {
            let e2 = names::entries(*map);
            assert forall|j: int| 0 <= j < i + 1 implies {
                let t = (#[trigger] e2[j]).1;
                &&& t.fits(thin(*vis), thin(*imports))
                &&& t.item(thin(*vis), thin(*imports)) == e[j].1.item(ov, oi)
            } by {
                if j < i {
                    assert(e2[j] == e1[j]);
                    let t = e1[j].1;
                    if t.vis.0 < v1.len() {
                        lemma_extends_at(v1, thin(*vis), t.vis.0 as int);
                    }
                    if t.import.0 > 0 {
                        lemma_extends_at(t1, thin(*imports), t.import.0 - 1);
                    }
                }
            }
        }
        i = i + 1;
    }
    proof {
        let after = names::entries(*map);
        let f = |t: ScopeTypesItem| t.item(thin(*vis), thin(*imports));
        assert(resolved(after, f) =~= items) by {
            assert forall|j: int| 0 <= j < after.len() implies resolved(after, f)[j]
                == items[j] by {
                assert(after[j].1.item(thin(*vis), thin(*imports)) == e[j].1.item(ov, oi));
                assert(after[j].0@ == e[j].0@);
            }
        }
    }
}

/// Renumbers the visibilities and imports of the values.
fn renumber_values(
    map: &mut NameMap<ScopeValuesItem>,
    old_vis: &ThinVec<Visibility>,
    old_imports: &ThinVec<ScopeImportOrExternCrate>,
    vis: &mut ThinVec<Visibility>,
    imports: &mut ThinVec<ScopeImportOrExternCrate>,
)
    requires
        visibilities_wf(thin(*old_vis)),
        imports_wf(thin(*old_imports)),
        thin(*old_vis).len() <= u32::MAX,
        thin(*old_imports).len() <= u32::MAX,
        forall|i: int|
            0 <= i < names::entries(*old(map)).len() ==> (#[trigger] names::entries(
                *old(map),
            )[i]).1.fits(thin(*old_vis), thin(*old_imports)),
        visibilities_wf(thin(*old(vis))),
        imports_wf(thin(*old(imports))),
        part_of(thin(*old(vis)), thin(*old_vis)),
        part_of(thin(*old(imports)), thin(*old_imports)),
    ensures
        visibilities_wf(thin(*final(vis))),
        imports_wf(thin(*final(imports))),
        part_of(thin(*final(vis)), thin(*old_vis)),
        part_of(thin(*final(imports)), thin(*old_imports)),
        extends(thin(*old(vis)), thin(*final(vis))),
        extends(thin(*old(imports)), thin(*final(imports))),
        same_names(names::entries(*old(map)), names::entries(*final(map))),
        forall|i: int|
            0 <= i < names::entries(*final(map)).len() ==> (#[trigger] names::entries(
                *final(map),
            )[i]).1.fits(thin(*final(vis)), thin(*final(imports))),
        ({
            let items = resolved(
                names::entries(*old(map)),
                |t: ScopeValuesItem| t.item(thin(*old_vis), thin(*old_imports)),
            );
            &&& resolved(
                names::entries(*final(map)),
                |t: ScopeValuesItem| t.item(thin(*final(vis)), thin(*final(imports))),
            ) == items
            &&& thin(*final(vis)) == interned_vis(thin(*old(vis)), items, items.len())
            &&& thin(*final(imports)) == interned_values(thin(*old(imports)), items, items.len())
        }),
{
    let ghost e = names::entries(*map);
    let ghost v0 = thin(*vis);
    let ghost t0 = thin(*imports);
    let ghost ov = thin(*old_vis);
    let ghost oi = thin(*old_imports);
    let ghost items = resolved(e, |t: ScopeValuesItem| t.item(ov, oi));
    proof {
        assert(v0.take(v0.len() as int) =~= v0);
        assert(t0.take(t0.len() as int) =~= t0);
    }
    let len: usize = names::name_map_len(map);
    let mut i: usize = 0;
    while i < len
        invariant
            i <= len,
            len == e.len(),
            e == names::entries(*old(map)),
            ov == thin(*old_vis),
            oi == thin(*old_imports),
            v0 == thin(*old(vis)),
            t0 == thin(*old(imports)),
            items == resolved(e, |t: ScopeValuesItem| t.item(ov, oi)),
            visibilities_wf(ov),
            imports_wf(oi),
            ov.len() <= u32::MAX,
            oi.len() <= u32::MAX,
            forall|j: int| 0 <= j < e.len() ==> (#[trigger] e[j]).1.fits(ov, oi),
            visibilities_wf(thin(*vis)),
            imports_wf(thin(*imports)),
            part_of(thin(*vis), ov),
            part_of(thin(*imports), oi),
            extends(v0, thin(*vis)),
            extends(t0, thin(*imports)),
            thin(*vis) == interned_vis(v0, items, i as nat),
            thin(*imports) == interned_values(t0, items, i as nat),
            same_names(e, names::entries(*map)),
            forall|j: int| i <= j < len ==> #[trigger] names::entries(*map)[j] == e[j],
            forall|j: int|
                0 <= j < i ==> {
                    let t = (#[trigger] names::entries(*map)[j]).1;
                    &&& t.fits(thin(*vis), thin(*imports))
                    &&& t.item(thin(*vis), thin(*imports)) == e[j].1.item(ov, oi)
                },
        decreases len - i,
    {
        let ghost v1 = thin(*vis);
        let ghost t1 = thin(*imports);
        let ghost e1 = names::entries(*map);
        let item = *names::name_map_at(map, i).1;
        assert(e1[i as int] == e[i as int]);
        assert(item.fits(ov, oi));
        let new_vis = renumber_vis(item.vis, old_vis, vis);
        let new_import = renumber_import(item.import, old_imports, imports);
        let renumbered = ScopeValuesItem { def: item.def, vis: new_vis, import: new_import };
        proof {
            assert(items[i as int].1 == item.item(ov, oi));
            assert(imports::value_imports(items[i as int].1.import) == item.import.spec_get(oi));
            assert(renumbered.import.spec_get(thin(*imports)) == item.import.spec_get(oi));
            assert(thin(*vis).take(v1.len() as int) =~= v1);
            assert(thin(*imports).take(t1.len() as int) =~= t1);
            assert(thin(*vis).take(v0.len() as int) =~= v1.take(v0.len() as int));
            assert(thin(*imports).take(t0.len() as int) =~= t1.take(t0.len() as int));
        }
        names::name_map_set(map, i, renumbered);
        proof {
            let e2 = names::entries(*map);
            assert forall|j: int| 0 <= j < i + 1 implies {
                let t = (#[trigger] e2[j]).1;
                &&& t.fits(thin(*vis), thin(*imports))
                &&& t.item(thin(*vis), thin(*imports)) == e[j].1.item(ov, oi)
            } by {
                if j < i {
                    assert(e2[j] == e1[j]);
                    let t = e1[j].1;
                    if t.vis.0 < v1.len() {
                        lemma_extends_at(v1, thin(*vis), t.vis.0 as int);
                    }
                    if t.import.0 > 0 {
                        lemma_extends_at(t1, thin(*imports), t.import.0 - 1);
                    }
                }
            }
        }
        i = i + 1;
    }
    proof {
        let after = names::entries(*map);
        let f = |t: ScopeValuesItem| t.item(thin(*vis), thin(*imports));
        assert(resolved(after, f) =~= items) by {
            assert forall|j: int| 0 <= j < after.len() implies resolved(after, f)[j]
                == items[j] by {
                assert(after[j].1.item(thin(*vis), thin(*imports)) == e[j].1.item(ov, oi));
                assert(after[j].0@ == e[j].0@);
            }
        }
    }
}

/// Whether the lists and maps of two scopes hold the same, the namespaces aside.
pub open spec fn same_contents(a: ItemScope, b: ItemScope) -> bool {
    &&& thin(a.declarations) == thin(b.declarations)
    &&& thin(a.impls) == thin(b.impls)
    &&& thin(a.builtin_derive_impls) == thin(b.builtin_derive_impls)
    &&& thin(a.extern_blocks) == thin(b.extern_blocks)
    &&& thin(a.unnamed_consts) == thin(b.unnamed_consts)
    &&& thin(a.unnamed_trait_imports) == thin(b.unnamed_trait_imports)
    &&& thin(a.use_decls) == thin(b.use_decls)
    &&& thin(a.extern_crate_decls) == thin(b.extern_crate_decls)
    &&& a.unresolved@ == b.unresolved@
    &&& a.use_imports_types@ == b.use_imports_types@
    &&& a.use_imports_values@ == b.use_imports_values@
    &&& a.use_imports_macros@ == b.use_imports_macros@
    &&& a.legacy_macros@ == b.legacy_macros@
    &&& a.attr_macros@ == b.attr_macros@
    &&& a.macro_invocations@ == b.macro_invocations@
    &&& a.derive_macros@ == b.derive_macros@
}

impl ItemScope {
    /// Gives memory back once the scope is complete. The tables are made anew from what the entries
    /// refer to, so that scopes that stand for the same are stored the same.
    pub fn shrink_to_fit(&mut self)
        requires
            old(self).wf(),
        ensures
            final(self).wf(),
            final(self).types_view() == old(self).types_view(),
            final(self).values_view() == old(self).values_view(),
            final(self).macros_view() == old(self).macros_view(),
            same_contents(*final(self), *old(self)),
            is_normal(*final(self)),
    {
        let ghost before = *self;
        let mut old_visibilities: ThinVec<Visibility> = ThinVec::new();
        let mut old_imports: ThinVec<ScopeImportOrExternCrate> = ThinVec::new();
        assert(thin(old_visibilities) =~= Seq::empty());
        assert(thin(old_imports) =~= Seq::empty());
        std::mem::swap(&mut self.visibilities, &mut old_visibilities);
        std::mem::swap(&mut self.imports, &mut old_imports);
        renumber_types(
            &mut self.types,
            &old_visibilities,
            &old_imports,
            &mut self.visibilities,
            &mut self.imports,
        );
        let ghost mid_vis = self.vis_table();
        let ghost mid_imports = self.import_table();
        let ghost mid_types = names::entries(self.types);
        renumber_values(
            &mut self.values,
            &old_visibilities,
            &old_imports,
            &mut self.visibilities,
            &mut self.imports,
        );
        proof {
            let v = self.vis_table();
            let t = self.import_table();
            lemma_part_len(v, before.vis_table());
            lemma_part_len(t, before.import_table());
            assert forall|i: int| 0 <= i < mid_types.len() implies {
                let item = (#[trigger] mid_types[i]).1;
                &&& item.fits(v, t)
                &&& item.item(v, t) == item.item(mid_vis, mid_imports)
            } by {
                let item = mid_types[i].1;
                if item.vis.0 < mid_vis.len() {
                    lemma_extends_at(mid_vis, v, item.vis.0 as int);
                }
                if item.import.0 > 0 {
                    lemma_extends_at(mid_imports, t, item.import.0 - 1);
                }
            }
            let f = |item: ScopeTypesItem| item.item(mid_vis, mid_imports);
            assert(self.types_view() =~= resolved(mid_types, f));
            assert(self.types_view() == before.types_view());
            assert(self.values_view() == before.values_view());
            assert forall|a: int, b: int| 0 <= a < b < mid_types.len() implies (
            #[trigger] mid_types[a]).0@ != (#[trigger] mid_types[b]).0@ by {
                assert(names::entries(before.types)[a].0@ != names::entries(before.types)[b].0@);
            }
            let after = names::entries(self.values);
            assert forall|a: int, b: int| 0 <= a < b < after.len() implies (
            #[trigger] after[a]).0@ != (#[trigger] after[b]).0@ by {
                assert(names::entries(before.values)[a].0@ != names::entries(
                    before.values,
                )[b].0@);
            }
        }
        let ghost normal = *self;
        names::name_map_shrink_to_fit(&mut self.types);
        names::name_map_shrink_to_fit(&mut self.values);
        names::name_map_shrink_to_fit(&mut self.macros);
        self.visibilities.shrink_to_fit();
        self.imports.shrink_to_fit();
        self.use_imports_types.shrink_to_fit();
        self.use_imports_values.shrink_to_fit();
        self.use_imports_macros.shrink_to_fit();
        names::fx_set_shrink_to_fit(&mut self.unresolved);
        self.declarations.shrink_to_fit();
        self.impls.shrink_to_fit();
        self.builtin_derive_impls.shrink_to_fit();
        self.extern_blocks.shrink_to_fit();
        self.unnamed_consts.shrink_to_fit();
        self.unnamed_trait_imports.shrink_to_fit();
        fx::fx_map_shrink_to_fit(&mut self.legacy_macros);
        self.attr_macros.shrink_to_fit();
        self.macro_invocations.shrink_to_fit();
        self.derive_macros.shrink_to_fit();
        self.extern_crate_decls.shrink_to_fit();
        self.use_decls.shrink_to_fit();
        proof {
            assert(self.types_view() =~= normal.types_view());
            assert(self.values_view() =~= normal.values_view());
            assert(self.macros_view() =~= normal.macros_view());
        }
    }
}

/// Scopes that stand for the same and are shrunk are stored the same: they have the same tables, and
/// their entries refer to the same places.
pub proof fn shrunk_scopes_are_stored_alike(a: ItemScope, b: ItemScope)
    requires
        a.wf(),
        b.wf(),
        is_normal(a),
        is_normal(b),
        a.types_view() == b.types_view(),
        a.values_view() == b.values_view(),
    ensures
        a.vis_table() == b.vis_table(),
        a.import_table() == b.import_table(),
        names::entries(a.types).len() == names::entries(b.types).len(),
        names::entries(a.values).len() == names::entries(b.values).len(),
        forall|i: int|
            0 <= i < names::entries(a.types).len() ==> {
                let (x, y) = (#[trigger] names::entries(a.types)[i], names::entries(b.types)[i]);
                x.0@ == y.0@ && x.1 == y.1
            },
        forall|i: int|
            0 <= i < names::entries(a.values).len() ==> {
                let (x, y) = (#[trigger] names::entries(a.values)[i], names::entries(b.values)[i]);
                x.0@ == y.0@ && x.1 == y.1
            },
{
    let v = a.vis_table();
    let t = a.import_table();
    let (ta, tb) = (names::entries(a.types), names::entries(b.types));
    let (va, vb) = (names::entries(a.values), names::entries(b.values));
    assert(ta.len() == a.types_view().len() && tb.len() == b.types_view().len());
    assert(va.len() == a.values_view().len() && vb.len() == b.values_view().len());
    assert forall|i: int| 0 <= i < ta.len() implies (#[trigger] ta[i]).0@ == tb[i].0@ && ta[i].1
        == tb[i].1 by {
        let (x, y) = (ta[i].1, tb[i].1);
        assert(a.types_view()[i] == b.types_view()[i]);
        assert(x.item(v, t) == y.item(v, t));
        assert(tb[i].1.fits(v, t));
        lemma_vis_unique(x.vis, y.vis, v);
        lemma_import_unique(x.import, y.import, t);
    }
    assert forall|i: int| 0 <= i < va.len() implies (#[trigger] va[i]).0@ == vb[i].0@ && va[i].1
        == vb[i].1 by {
        let (x, y) = (va[i].1, vb[i].1);
        assert(a.values_view()[i] == b.values_view()[i]);
        assert(x.item(v, t) == y.item(v, t));
        assert(vb[i].1.fits(v, t));
        lemma_vis_unique(x.vis, y.vis, v);
        assert(x.import.spec_get(t) == y.import.spec_get(t));
        lemma_import_unique(x.import, y.import, t);
    }
}

proof fn lemma_vis_unique(a: ScopeVisibility, b: ScopeVisibility, v: Seq<Visibility>)
    requires
        visibilities_wf(v),
        a.fits(v),
        b.fits(v),
        a.spec_get(v) == b.spec_get(v),
        v.len() <= u32::MAX,
    ensures
        a == b,
{
    if a.0 < v.len() {
        assert(v[a.0 as int] == v[a.0 as int]);
        assert(v.contains(v[a.0 as int]));
    }
    if b.0 < v.len() {
        assert(v.contains(v[b.0 as int]));
    }
}

proof fn lemma_import_unique(a: ScopeImportId, b: ScopeImportId, t: Seq<ScopeImportOrExternCrate>)
    requires
        imports_wf(t),
        a.fits(t),
        b.fits(t),
        a.spec_get(t) == b.spec_get(t),
    ensures
        a == b,
{
    if a.0 > 0 && b.0 > 0 {
        let (x, y) = (t[a.0 - 1], t[b.0 - 1]);
        assert(x.wf() && y.wf());
        assert(x == y);
    }
}

} // verus!
