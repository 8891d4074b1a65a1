//! Putting a name into a scope.

use super::imports::{ImportId, ImportOrDef, ImportOrExternCrate, ImportOrGlob, ScopeVisibility};
use super::listing;
use super::names;
use super::scope::{find_entry, lemma_find_entry, ItemScope, ScopeTypesItem, ScopeValuesItem};
use crate::ids::{ModuleDefId, ModuleId, Visibility};
use crate::item_scope::imports;
use crate::per_ns;
use crate::per_ns::{Item, MacrosItem, PerNs, TypesItem, ValuesItem};
use rustc_hash::FxHashSet;
use vstd::prelude::*;

verus! {

/// Which names of which modules were brought in by a glob only.
pub struct PerNsGlobImports {
    pub types: FxHashSet<(u64, String)>,
    pub values: FxHashSet<(u64, String)>,
    pub macros: FxHashSet<(u64, String)>,
}

pub open spec fn module_number(module: ModuleId) -> u64 {
    module.0.spec_bits() as u64
}

/// Whether a name of a module is in a set.
pub open spec fn has_name(s: FxHashSet<(u64, String)>, module: ModuleId, name: Seq<char>) -> bool {
    names::set_module_names(s@).contains((module_number(module), name))
}

impl Default for PerNsGlobImports {
    fn default() -> (r: PerNsGlobImports)
        ensures
            names::set_module_names(r.types@) == Set::<(u64, Seq<char>)>::empty(),
            names::set_module_names(r.values@) == Set::<(u64, Seq<char>)>::empty(),
            names::set_module_names(r.macros@) == Set::<(u64, Seq<char>)>::empty(),
    {
        let r = PerNsGlobImports {
            types: names::fx_set_new(),
            values: names::fx_set_new(),
            macros: names::fx_set_new(),
        };
        proof {
            assert(names::set_module_names(r.types@) =~= Set::<(u64, Seq<char>)>::empty());
            assert(names::set_module_names(r.values@) =~= Set::<(u64, Seq<char>)>::empty());
            assert(names::set_module_names(r.macros@) =~= Set::<(u64, Seq<char>)>::empty());
        }
        r
    }
}

impl PerNsGlobImports {
    pub fn contains_type(&self, module_id: ModuleId, name: String) -> (r: bool)
        ensures
            r == has_name(self.types, module_id, name@),
    {
        names::module_name_set_contains(&self.types, module_id.0.as_bits(), name)
    }

    pub fn contains_value(&self, module_id: ModuleId, name: String) -> (r: bool)
        ensures
            r == has_name(self.values, module_id, name@),
    {
        names::module_name_set_contains(&self.values, module_id.0.as_bits(), name)
    }

    pub fn contains_macro(&self, module_id: ModuleId, name: String) -> (r: bool)
        ensures
            r == has_name(self.macros, module_id, name@),
    {
        names::module_name_set_contains(&self.macros, module_id.0.as_bits(), name)
    }
}

/// One of the namespaces of a scope: its entries, the names that globs brought in, and what imports
/// lead to.
#[verifier::ext_equal]
pub ghost struct Namespace<Def, Import> {
    pub items: Seq<(Seq<char>, Item<Def, Import>)>,
    pub globs: Set<(u64, Seq<char>)>,
    pub resolutions: Map<ImportOrExternCrate, ImportOrDef>,
}

pub open spec fn recorded(
    resolutions: Map<ImportOrExternCrate, ImportOrDef>,
    import: Option<ImportOrExternCrate>,
    to: ImportOrDef,
) -> Map<ImportOrExternCrate, ImportOrDef> {
    match import {
        Some(i) => resolutions.insert(i, to),
        None => resolutions,
    }
}

/// A namespace after `import` has brought in the item `fld` under a name, and whether that changed
/// anything. `key` is the import as it is recorded, with what it leads to.
///
/// A new name is added. A name that is there stays as it is if a glob comes up. Anything else takes
/// the place of what a glob brought in, and of what the same import led to before.
pub open spec fn push_in<Def, Import>(
    ns: Namespace<Def, Import>,
    module: u64,
    name: Seq<char>,
    fld: Item<Def, Import>,
    import: Option<Import>,
    glob: bool,
    key: Option<ImportOrExternCrate>,
    to: ImportOrDef,
) -> (Namespace<Def, Import>, bool) {
    let item = Item { def: fld.def, vis: fld.vis, import };
    match find_entry(ns.items, name, 0) {
        None => (
            Namespace {
                items: ns.items.push((name, item)),
                globs: if glob {
                    ns.globs.insert((module, name))
                } else {
                    ns.globs.remove((module, name))
                },
                resolutions: recorded(ns.resolutions, key, to),
            },
            true,
        ),
        Some(i) => if !glob && (ns.globs.contains((module, name)) || per_ns::reresolved(
            ns.items[i as int].1,
            fld.def,
            import,
        )) {
            (
                Namespace {
                    items: ns.items.update(i as int, (name, item)),
                    globs: ns.globs.remove((module, name)),
                    resolutions: recorded(ns.resolutions, key, to),
                },
                true,
            )
        } else {
            (ns, false)
        },
    }
}

pub open spec fn is_glob(import: Option<ImportOrExternCrate>) -> bool {
    import matches Some(ImportOrExternCrate::Glob(_))
}

/// Whether an import, if there is one, can be put into the table of the imports.
pub open spec fn can_store(import: Option<ImportOrExternCrate>) -> bool {
    import matches Some(i) ==> i.storable()
}

/// What an import leads to: the import that the item came from, or else the item.
pub open spec fn leads_to(prev: Option<ImportOrExternCrate>, def: ModuleDefId) -> ImportOrDef {
    match prev {
        Some(ImportOrExternCrate::Import(it)) => ImportOrDef::Import(it),
        Some(ImportOrExternCrate::Glob(it)) => ImportOrDef::Glob(it),
        Some(ImportOrExternCrate::ExternCrate(it)) => ImportOrDef::ExternCrate(it),
        None => ImportOrDef::Def(def),
    }
}

pub open spec fn types_ns(
    scope: ItemScope,
    globs: FxHashSet<(u64, String)>,
) -> Namespace<ModuleDefId, ImportOrExternCrate> {
    Namespace {
        items: scope.types_view(),
        globs: names::set_module_names(globs@),
        resolutions: scope.use_imports_types@,
    }
}

pub open spec fn values_ns(
    scope: ItemScope,
    globs: FxHashSet<(u64, String)>,
) -> Namespace<ModuleDefId, ImportOrGlob> {
    Namespace {
        items: scope.values_view(),
        globs: names::set_module_names(globs@),
        resolutions: scope.use_imports_values@,
    }
}

pub open spec fn macros_ns(
    scope: ItemScope,
    globs: FxHashSet<(u64, String)>,
) -> Namespace<crate::ids::MacroId, ImportOrExternCrate> {
    Namespace {
        items: scope.macros_view(),
        globs: names::set_module_names(globs@),
        resolutions: scope.use_imports_macros@,
    }
}

pub open spec fn push_type(
    ns: Namespace<ModuleDefId, ImportOrExternCrate>,
    module: ModuleId,
    name: Seq<char>,
    def: PerNs,
    import: Option<ImportOrExternCrate>,
) -> (Namespace<ModuleDefId, ImportOrExternCrate>, bool) {
    match def.types {
        Some(fld) => push_in(
            ns,
            module_number(module),
            name,
            fld,
            import,
            is_glob(import),
            import,
            leads_to(fld.import, fld.def),
        ),
        None => (ns, false),
    }
}

/// An extern crate brings nothing into the namespace of the values, so it is not recorded there.
pub open spec fn push_value(
    ns: Namespace<ModuleDefId, ImportOrGlob>,
    module: ModuleId,
    name: Seq<char>,
    def: PerNs,
    import: Option<ImportOrExternCrate>,
) -> (Namespace<ModuleDefId, ImportOrGlob>, bool) {
    match def.values {
        Some(fld) => push_in(
            ns,
            module_number(module),
            name,
            fld,
            per_ns::spec_import_or_glob(import),
            is_glob(import),
            imports::value_imports(per_ns::spec_import_or_glob(import)),
            leads_to(imports::value_imports(fld.import), fld.def),
        ),
        None => (ns, false),
    }
}

pub open spec fn push_macro(
    ns: Namespace<crate::ids::MacroId, ImportOrExternCrate>,
    module: ModuleId,
    name: Seq<char>,
    def: PerNs,
    import: Option<ImportOrExternCrate>,
) -> (Namespace<crate::ids::MacroId, ImportOrExternCrate>, bool) {
    match def.macros {
        Some(fld) => push_in(
            ns,
            module_number(module),
            name,
            fld,
            import,
            is_glob(import),
            import,
            leads_to(fld.import, ModuleDefId::MacroId(fld.def)),
        ),
        None => (ns, false),
    }
}

/// What is so after a scope, and the names that globs brought in, have taken in what a name stands for.
/// `changed` says whether that changed anything.
pub open spec fn pushed(
    before: (ItemScope, PerNsGlobImports),
    module: ModuleId,
    name: Seq<char>,
    def: PerNs,
    import: Option<ImportOrExternCrate>,
    after: (ItemScope, PerNsGlobImports),
    changed: bool,
) -> bool {
    let types = push_type(types_ns(before.0, before.1.types), module, name, def, import);
    let values = push_value(values_ns(before.0, before.1.values), module, name, def, import);
    let macros = push_macro(macros_ns(before.0, before.1.macros), module, name, def, import);
    let unresolved = names::set_names(before.0.unresolved@);
    let newly_unresolved = def.spec_is_none() && !unresolved.contains(name);
    &&& types_ns(after.0, after.1.types) == types.0
    &&& values_ns(after.0, after.1.values) == values.0
    &&& macros_ns(after.0, after.1.macros) == macros.0
    &&& names::set_names(after.0.unresolved@) == if def.spec_is_none() {
        unresolved.insert(name)
    } else {
        unresolved
    }
    &&& changed == (types.1 || values.1 || macros.1 || newly_unresolved)
}

/// A table that has only grown.
pub open spec fn extends<T>(before: Seq<T>, after: Seq<T>) -> bool {
    before.len() <= after.len() && after.take(before.len() as int) == before
}

pub proof fn lemma_extends_at<T>(before: Seq<T>, after: Seq<T>, i: int)
    requires
        extends(before, after),
        0 <= i < before.len(),
    ensures
        after[i] == before[i],
{
    assert(after.take(before.len() as int)[i] == after[i]);
}

/// Where the tables have only grown, everything that refers to them means what it did.
pub proof fn lemma_tables_grown(a: ItemScope, b: ItemScope)
    requires
        a.wf(),
        extends(a.vis_table(), b.vis_table()),
        extends(a.import_table(), b.import_table()),
    ensures
        forall|i: int|
            0 <= i < names::entries(a.types).len() ==> {
                let t = (#[trigger] names::entries(a.types)[i]).1;
                &&& t.fits(b.vis_table(), b.import_table())
                &&& t.item(b.vis_table(), b.import_table()) == t.item(
                    a.vis_table(),
                    a.import_table(),
                )
            },
        forall|i: int|
            0 <= i < names::entries(a.values).len() ==> {
                let t = (#[trigger] names::entries(a.values)[i]).1;
                &&& t.fits(b.vis_table(), b.import_table())
                &&& t.item(b.vis_table(), b.import_table()) == t.item(
                    a.vis_table(),
                    a.import_table(),
                )
            },
        a.types == b.types ==> a.types_view() == b.types_view(),
        a.values == b.values ==> a.values_view() == b.values_view(),
{
    assert forall|i: int| 0 <= i < names::entries(a.types).len() implies {
        let t = (#[trigger] names::entries(a.types)[i]).1;
        &&& t.fits(b.vis_table(), b.import_table())
        &&& t.item(b.vis_table(), b.import_table()) == t.item(a.vis_table(), a.import_table())
    } by {
        let t = names::entries(a.types)[i].1;
        if t.vis.0 < a.vis_table().len() {
            lemma_extends_at(a.vis_table(), b.vis_table(), t.vis.0 as int);
        }
        if t.import.0 > 0 {
            lemma_extends_at(a.import_table(), b.import_table(), t.import.0 - 1);
        }
    }
    assert forall|i: int| 0 <= i < names::entries(a.values).len() implies {
        let t = (#[trigger] names::entries(a.values)[i]).1;
        &&& t.fits(b.vis_table(), b.import_table())
        &&& t.item(b.vis_table(), b.import_table()) == t.item(a.vis_table(), a.import_table())
    } by {
        let t = names::entries(a.values)[i].1;
        if t.vis.0 < a.vis_table().len() {
            lemma_extends_at(a.vis_table(), b.vis_table(), t.vis.0 as int);
        }
        if t.import.0 > 0 {
            lemma_extends_at(a.import_table(), b.import_table(), t.import.0 - 1);
        }
    }
    if a.types == b.types {
        assert(a.types_view() =~= b.types_view());
    }
    if a.values == b.values {
        assert(a.values_view() =~= b.values_view());
    }
}

impl ItemScope {
    /// The place of a visibility in the table, where it is put if it is not there yet.
    pub fn intern_visibility(&mut self, visibility: Visibility) -> (r: ScopeVisibility)
        requires
            old(self).wf(),
            old(self).has_room(1),
        ensures
            final(self).wf(),
            r.fits(final(self).vis_table()),
            r.spec_get(final(self).vis_table()) == visibility,
            final(self).vis_table() == (if visibility == Visibility::Public
                || old(self).vis_table().contains(visibility) {
                old(self).vis_table()
            } else {
                old(self).vis_table().push(visibility)
            }),
            extends(old(self).vis_table(), final(self).vis_table()),
            final(self).imports == old(self).imports,
            final(self).types == old(self).types,
            final(self).values == old(self).values,
            final(self).macros == old(self).macros,
            final(self).types_view() == old(self).types_view(),
            final(self).values_view() == old(self).values_view(),
            final(self).same_lists(*old(self)),
            final(self).same_imports(*old(self)),
    {
        let ghost before = *self;
        let r = ScopeVisibility::new(visibility, &mut self.visibilities);
        proof {
            assert(extends(before.vis_table(), self.vis_table())) by {
                assert(self.vis_table().take(before.vis_table().len() as int)
                    =~= before.vis_table());
            }
            assert(extends(before.import_table(), self.import_table())) by {
                assert(self.import_table().take(before.import_table().len() as int)
                    =~= before.import_table());
            }
            lemma_tables_grown(before, *self);
        }
        r
    }

    /// Stores an item under a name: in the place that it has, or as a new entry.
    fn store_type(&mut self, at: Option<usize>, name: &String, item: TypesItem, vis: ScopeVisibility)
        requires
            old(self).wf(),
            old(self).import_table().len() < u32::MAX,
            vis.fits(old(self).vis_table()),
            vis.spec_get(old(self).vis_table()) == item.vis,
            item.import matches Some(i) ==> i.storable(),
            at is Some <==> find_entry(old(self).types_view(), name@, 0) is Some,
            at matches Some(i) ==> find_entry(old(self).types_view(), name@, 0) == Some(i as nat),
        ensures
            final(self).wf(),
            final(self).vis_table() == old(self).vis_table(),
            extends(old(self).import_table(), final(self).import_table()),
            final(self).import_table().len() <= old(self).import_table().len() + 1,
            final(self).types_view() == match find_entry(old(self).types_view(), name@, 0) {
                Some(i) => old(self).types_view().update(i as int, (name@, item)),
                None => old(self).types_view().push((name@, item)),
            },
            final(self).values_view() == old(self).values_view(),
            final(self).macros == old(self).macros,
            final(self).same_lists(*old(self)),
            final(self).same_imports(*old(self)),
    {
        let ghost before = *self;
        let stored = ScopeTypesItem::new(item, vis, &mut self.imports);
        let ghost mid = *self;
        let ghost e = names::entries(before.types);
        let ghost old_f = |t: ScopeTypesItem| t.item(before.vis_table(), before.import_table());
        proof {
            assert(extends(before.import_table(), mid.import_table())) by {
                assert(mid.import_table().take(before.import_table().len() as int)
                    =~= before.import_table());
            }
            assert(extends(before.vis_table(), mid.vis_table())) by {
                assert(mid.vis_table().take(before.vis_table().len() as int)
                    =~= before.vis_table());
            }
            lemma_tables_grown(before, mid);
            lemma_find_entry(e, old_f, name@, 0);
            names::lemma_find_name(e, name@, 0);
            assert(stored.item(mid.vis_table(), mid.import_table()) == item);
        }
        match at {
            Some(i) => {
                names::name_map_set(&mut self.types, i, stored);
                proof {
                    let after = names::entries(self.types);
                    assert forall|a: int, b: int| 0 <= a < b < after.len() implies (
                    #[trigger] after[a]).0@ != (#[trigger] after[b]).0@ by {
                        assert(e[a].0@ != e[b].0@);
                    }
                    assert(self.types_view() =~= before.types_view().update(i as int, (name@, item)));
                }
            },
            None => {
                names::name_map_insert(&mut self.types, name.clone(), stored);
                proof {
                    let after = names::entries(self.types);
                    assert forall|a: int, b: int| 0 <= a < b < after.len() implies (
                    #[trigger] after[a]).0@ != (#[trigger] after[b]).0@ by {
                        assert(e[a].0@ != name@);
                        if b < e.len() {
                            assert(e[a].0@ != e[b].0@);
                        }
                    }
                    assert(self.types_view() =~= before.types_view().push((name@, item)));
                }
            },
        }
        proof {
            let after = names::entries(self.types);
            assert forall|i: int| 0 <= i < after.len() implies (#[trigger] after[i]).1.fits(
                self.vis_table(),
                self.import_table(),
            ) by {
                if at is Some && i == at->0 {
                    assert(after[i].1 == stored);
                } else if i < e.len() {
                    assert(after[i] == e[i]);
                    assert(e[i].1.fits(mid.vis_table(), mid.import_table()));
                } else {
                    assert(after[i].1 == stored);
                }
            }
            assert(self.values_view() =~= mid.values_view());
        }
    }

    /// Stores an item under a name: in the place that it has, or as a new entry.
    fn store_value(&mut self, at: Option<usize>, name: &String, item: ValuesItem, vis: ScopeVisibility)
        requires
            old(self).wf(),
            old(self).import_table().len() < u32::MAX,
            vis.fits(old(self).vis_table()),
            vis.spec_get(old(self).vis_table()) == item.vis,
            item.import matches Some(i) ==> imports::value_import(i).storable(),
            at is Some <==> find_entry(old(self).values_view(), name@, 0) is Some,
            at matches Some(i) ==> find_entry(old(self).values_view(), name@, 0) == Some(i as nat),
        ensures
            final(self).wf(),
            final(self).vis_table() == old(self).vis_table(),
            extends(old(self).import_table(), final(self).import_table()),
            final(self).import_table().len() <= old(self).import_table().len() + 1,
            final(self).values_view() == match find_entry(old(self).values_view(), name@, 0) {
                Some(i) => old(self).values_view().update(i as int, (name@, item)),
                None => old(self).values_view().push((name@, item)),
            },
            final(self).types_view() == old(self).types_view(),
            final(self).macros == old(self).macros,
            final(self).same_lists(*old(self)),
            final(self).same_imports(*old(self)),
    {
        let ghost before = *self;
        let stored = ScopeValuesItem::new(item, vis, &mut self.imports);
        let ghost mid = *self;
        let ghost e = names::entries(before.values);
        let ghost old_f = |t: ScopeValuesItem| t.item(before.vis_table(), before.import_table());
        proof {
            assert(extends(before.import_table(), mid.import_table())) by {
                assert(mid.import_table().take(before.import_table().len() as int)
                    =~= before.import_table());
            }
            assert(extends(before.vis_table(), mid.vis_table())) by {
                assert(mid.vis_table().take(before.vis_table().len() as int)
                    =~= before.vis_table());
            }
            lemma_tables_grown(before, mid);
            lemma_find_entry(e, old_f, name@, 0);
            names::lemma_find_name(e, name@, 0);
            assert(stored.item(mid.vis_table(), mid.import_table()) == item);
        }
        match at {
            Some(i) => {
                names::name_map_set(&mut self.values, i, stored);
                proof {
                    let after = names::entries(self.values);
                    assert forall|a: int, b: int| 0 <= a < b < after.len() implies (
                    #[trigger] after[a]).0@ != (#[trigger] after[b]).0@ by {
                        assert(e[a].0@ != e[b].0@);
                    }
                    assert(self.values_view() =~= before.values_view().update(i as int, (name@, item)));
                }
            },
            None => {
                names::name_map_insert(&mut self.values, name.clone(), stored);
                proof {
                    let after = names::entries(self.values);
                    assert forall|a: int, b: int| 0 <= a < b < after.len() implies (
                    #[trigger] after[a]).0@ != (#[trigger] after[b]).0@ by {
                        assert(e[a].0@ != name@);
                        if b < e.len() {
                            assert(e[a].0@ != e[b].0@);
                        }
                    }
                    assert(self.values_view() =~= before.values_view().push((name@, item)));
                }
            },
        }
        proof {
            let after = names::entries(self.values);
            assert forall|i: int| 0 <= i < after.len() implies (#[trigger] after[i]).1.fits(
                self.vis_table(),
                self.import_table(),
            ) by {
                if at is Some && i == at->0 {
                    assert(after[i].1 == stored);
                } else if i < e.len() {
                    assert(after[i] == e[i]);
                    assert(e[i].1.fits(mid.vis_table(), mid.import_table()));
                } else {
                    assert(after[i].1 == stored);
                }
            }
            assert(self.types_view() =~= mid.types_view());
        }
    }

    /// Stores a macro under a name: in the place that it has, or as a new entry.
    fn store_macro(&mut self, at: Option<usize>, name: &String, item: MacrosItem)
        requires
            old(self).wf(),
            at is Some <==> find_entry(old(self).macros_view(), name@, 0) is Some,
            at matches Some(i) ==> find_entry(old(self).macros_view(), name@, 0) == Some(i as nat),
        ensures
            final(self).wf(),
            final(self).visibilities == old(self).visibilities,
            final(self).imports == old(self).imports,
            final(self).macros_view() == match find_entry(old(self).macros_view(), name@, 0) {
                Some(i) => old(self).macros_view().update(i as int, (name@, item)),
                None => old(self).macros_view().push((name@, item)),
            },
            final(self).types == old(self).types,
            final(self).values == old(self).values,
            final(self).same_lists(*old(self)),
            final(self).same_imports(*old(self)),
    {
        let ghost before = *self;
        let ghost e = names::entries(before.macros);
        proof {
            lemma_find_entry(e, |t: MacrosItem| t, name@, 0);
            names::lemma_find_name(e, name@, 0);
        }
        match at {
            Some(i) => {
                names::name_map_set(&mut self.macros, i, item);
                proof {
                    let after = names::entries(self.macros);
                    assert forall|a: int, b: int| 0 <= a < b < after.len() implies (
                    #[trigger] after[a]).0@ != (#[trigger] after[b]).0@ by {
                        assert(e[a].0@ != e[b].0@);
                    }
                    assert(self.macros_view() =~= before.macros_view().update(
                        i as int,
                        (name@, item),
                    ));
                }
            },
            None => {
                names::name_map_insert(&mut self.macros, name.clone(), item);
                proof {
                    let after = names::entries(self.macros);
                    assert forall|a: int, b: int| 0 <= a < b < after.len() implies (
                    #[trigger] after[a]).0@ != (#[trigger] after[b]).0@ by {
                        assert(e[a].0@ != name@);
                        if b < e.len() {
                            assert(e[a].0@ != e[b].0@);
                        }
                    }
                    assert(self.macros_view() =~= before.macros_view().push((name@, item)));
                }
            },
        }
    }

    fn push_types(
        &mut self,
        globs: &mut FxHashSet<(u64, String)>,
        module: ModuleId,
        name: &String,
        fld: TypesItem,
        import: Option<ImportOrExternCrate>,
    ) -> (r: bool)
        requires
            old(self).wf(),
            old(self).has_room(1),
            push_in(
                types_ns(*old(self), *old(globs)),
                module_number(module),
                name@,
                fld,
                import,
                is_glob(import),
                import,
                leads_to(fld.import, fld.def),
            ).1 ==> can_store(import),
        ensures
            final(self).wf(),
            (types_ns(*final(self), *final(globs)), r) == push_in(
                types_ns(*old(self), *old(globs)),
                module_number(module),
                name@,
                fld,
                import,
                is_glob(import),
                import,
                leads_to(fld.import, fld.def),
            ),
            final(self).vis_table().len() <= old(self).vis_table().len() + 1,
            final(self).import_table().len() <= old(self).import_table().len() + 1,
            final(self).values_view() == old(self).values_view(),
            final(self).macros == old(self).macros,
            final(self).use_imports_values == old(self).use_imports_values,
            final(self).use_imports_macros == old(self).use_imports_macros,
            final(self).unresolved == old(self).unresolved,
            final(self).same_lists(*old(self)),
    {
        let ghost before = types_ns(*self, *globs);
        let ghost target = push_in(
            before,
            module_number(module),
            name@,
            fld,
            import,
            is_glob(import),
            import,
            leads_to(fld.import, fld.def),
        );
        let glob = matches!(import, Some(ImportOrExternCrate::Glob(_)));
        let vis = self.intern_visibility(fld.vis);
        let at = names::name_map_find(&self.types, name.as_str());
        proof {
            lemma_find_entry(
                names::entries(self.types),
                |t: ScopeTypesItem| t.item(self.vis_table(), self.import_table()),
                name@,
                0,
            );
            names::lemma_find_name(names::entries(self.types), name@, 0);
        }
        match at {
            None => {
                if glob {
                    names::module_name_set_insert(globs, module.0.as_bits(), name.clone());
                } else {
                    let _ = names::module_name_set_remove(globs, module.0.as_bits(), name.clone());
                }
            },
            Some(i) => {
                if glob {
                    return false;
                }
                let shadowed = names::module_name_set_remove(
                    globs,
                    module.0.as_bits(),
                    name.clone(),
                );
                let existing = names::name_map_at(&self.types, i).1.get(
                    self.visibilities.as_slice(),
                    self.imports.as_slice(),
                );
                assert(existing == self.types_view()[i as int].1);
                if !shadowed && !existing.is_reresolved_by(&fld.def, import) {
                    assert(types_ns(*self, *globs) =~= before);
                    return false;
                }
            },
        }
        if let Some(import) = import {
            let to = match fld.import {
                Some(prev) => ImportOrDef::from(prev),
                None => ImportOrDef::Def(fld.def),
            };
            self.use_imports_types.insert(import, to);
        }
        self.store_type(at, name, Item { def: fld.def, vis: fld.vis, import }, vis);
        assert(types_ns(*self, *globs) =~= target.0);
        true
    }

    fn push_values(
        &mut self,
        globs: &mut FxHashSet<(u64, String)>,
        module: ModuleId,
        name: &String,
        fld: ValuesItem,
        import: Option<ImportOrExternCrate>,
    ) -> (r: bool)
        requires
            old(self).wf(),
            old(self).has_room(1),
            push_in(
                values_ns(*old(self), *old(globs)),
                module_number(module),
                name@,
                fld,
                per_ns::spec_import_or_glob(import),
                is_glob(import),
                imports::value_imports(per_ns::spec_import_or_glob(import)),
                leads_to(imports::value_imports(fld.import), fld.def),
            ).1 ==> can_store(imports::value_imports(per_ns::spec_import_or_glob(import))),
        ensures
            final(self).wf(),
            (values_ns(*final(self), *final(globs)), r) == push_in(
                values_ns(*old(self), *old(globs)),
                module_number(module),
                name@,
                fld,
                per_ns::spec_import_or_glob(import),
                is_glob(import),
                imports::value_imports(per_ns::spec_import_or_glob(import)),
                leads_to(imports::value_imports(fld.import), fld.def),
            ),
            final(self).vis_table().len() <= old(self).vis_table().len() + 1,
            final(self).import_table().len() <= old(self).import_table().len() + 1,
            final(self).types_view() == old(self).types_view(),
            final(self).macros == old(self).macros,
            final(self).use_imports_types == old(self).use_imports_types,
            final(self).use_imports_macros == old(self).use_imports_macros,
            final(self).unresolved == old(self).unresolved,
            final(self).same_lists(*old(self)),
    {
        let ghost before = values_ns(*self, *globs);
        let ghost target = push_in(
            before,
            module_number(module),
            name@,
            fld,
            per_ns::spec_import_or_glob(import),
            is_glob(import),
            imports::value_imports(per_ns::spec_import_or_glob(import)),
            leads_to(imports::value_imports(fld.import), fld.def),
        );
        let glob = matches!(import, Some(ImportOrExternCrate::Glob(_)));
        let import = per_ns::import_or_glob(import);
        let vis = self.intern_visibility(fld.vis);
        let at = names::name_map_find(&self.values, name.as_str());
        proof {
            lemma_find_entry(
                names::entries(self.values),
                |t: ScopeValuesItem| t.item(self.vis_table(), self.import_table()),
                name@,
                0,
            );
            names::lemma_find_name(names::entries(self.values), name@, 0);
        }
        match at {
            None => {
                if glob {
                    names::module_name_set_insert(globs, module.0.as_bits(), name.clone());
                } else {
                    let _ = names::module_name_set_remove(globs, module.0.as_bits(), name.clone());
                }
            },
            Some(i) => {
                if glob {
                    return false;
                }
                let shadowed = names::module_name_set_remove(
                    globs,
                    module.0.as_bits(),
                    name.clone(),
                );
                let existing = names::name_map_at(&self.values, i).1.get(
                    self.visibilities.as_slice(),
                    self.imports.as_slice(),
                );
                assert(existing == self.values_view()[i as int].1);
                if !shadowed && !existing.is_reresolved_by(&fld.def, import) {
                    assert(values_ns(*self, *globs) =~= before);
                    return false;
                }
            },
        }
        if let Some(import) = import {
            let to = match fld.import {
                Some(prev) => ImportOrDef::from(prev),
                None => ImportOrDef::Def(fld.def),
            };
            self.use_imports_values.insert(ImportOrExternCrate::from(import), to);
        }
        self.store_value(at, name, Item { def: fld.def, vis: fld.vis, import }, vis);
        assert(values_ns(*self, *globs) =~= target.0);
        true
    }

    fn push_macros(
        &mut self,
        globs: &mut FxHashSet<(u64, String)>,
        module: ModuleId,
        name: &String,
        fld: MacrosItem,
        import: Option<ImportOrExternCrate>,
    ) -> (r: bool)
        requires
            old(self).wf(),
        ensures
            final(self).wf(),
            (macros_ns(*final(self), *final(globs)), r) == push_in(
                macros_ns(*old(self), *old(globs)),
                module_number(module),
                name@,
                fld,
                import,
                is_glob(import),
                import,
                leads_to(fld.import, ModuleDefId::MacroId(fld.def)),
            ),
            final(self).visibilities == old(self).visibilities,
            final(self).imports == old(self).imports,
            final(self).types == old(self).types,
            final(self).values == old(self).values,
            final(self).use_imports_types == old(self).use_imports_types,
            final(self).use_imports_values == old(self).use_imports_values,
            final(self).unresolved == old(self).unresolved,
            final(self).same_lists(*old(self)),
    {
        let ghost before = macros_ns(*self, *globs);
        let ghost target = push_in(
            before,
            module_number(module),
            name@,
            fld,
            import,
            is_glob(import),
            import,
            leads_to(fld.import, ModuleDefId::MacroId(fld.def)),
        );
        let glob = matches!(import, Some(ImportOrExternCrate::Glob(_)));
        let at = names::name_map_find(&self.macros, name.as_str());
        proof {
            lemma_find_entry(names::entries(self.macros), |t: MacrosItem| t, name@, 0);
            names::lemma_find_name(names::entries(self.macros), name@, 0);
        }
        match at {
            None => {
                if glob {
                    names::module_name_set_insert(globs, module.0.as_bits(), name.clone());
                } else {
                    let _ = names::module_name_set_remove(globs, module.0.as_bits(), name.clone());
                }
            },
            Some(i) => {
                if glob {
                    return false;
                }
                let shadowed = names::module_name_set_remove(
                    globs,
                    module.0.as_bits(),
                    name.clone(),
                );
                let existing = *names::name_map_at(&self.macros, i).1;
                assert(existing == self.macros_view()[i as int].1);
                if !shadowed && !existing.is_reresolved_by(&fld.def, import) {
                    assert(macros_ns(*self, *globs) =~= before);
                    return false;
                }
            },
        }
        if let Some(import) = import {
            let to = match fld.import {
                Some(prev) => ImportOrDef::from(prev),
                None => ImportOrDef::Def(ModuleDefId::MacroId(fld.def)),
            };
            self.use_imports_macros.insert(import, to);
        }
        self.store_macro(at, name, Item { def: fld.def, vis: fld.vis, import });
        assert(macros_ns(*self, *globs) =~= target.0);
        true
    }

    /// Puts what a name stands for into the scope, as `import` brings it in. Says whether that
    /// changed anything. A name that stands for nothing is recorded as unresolved.
    pub fn push_res_with_import(
        &mut self,
        glob_imports: &mut PerNsGlobImports,
        lookup: (ModuleId, String),
        def: PerNs,
        import: Option<ImportOrExternCrate>,
    ) -> (r: bool)
        requires
            old(self).wf(),
            old(self).has_room(2),
            push_type(
                types_ns(*old(self), old(glob_imports).types),
                lookup.0,
                lookup.1@,
                def,
                import,
            ).1 ==> can_store(import),
            push_value(
                values_ns(*old(self), old(glob_imports).values),
                lookup.0,
                lookup.1@,
                def,
                import,
            ).1 ==> can_store(imports::value_imports(per_ns::spec_import_or_glob(import))),
        ensures
            final(self).wf(),
            pushed(
                (*old(self), *old(glob_imports)),
                lookup.0,
                lookup.1@,
                def,
                import,
                (*final(self), *final(glob_imports)),
                r,
            ),
            final(self).vis_table().len() <= old(self).vis_table().len() + 2,
            final(self).import_table().len() <= old(self).import_table().len() + 2,
            final(self).same_lists(*old(self)),
    {
        let (module, name) = lookup;
        let mut changed = false;
        if let Some(fld) = def.types {
            if self.push_types(&mut glob_imports.types, module, &name, fld, import) {
                changed = true;
            }
        }
        if let Some(fld) = def.values {
            if self.push_values(&mut glob_imports.values, module, &name, fld, import) {
                changed = true;
            }
        }
        if let Some(fld) = def.macros {
            if self.push_macros(&mut glob_imports.macros, module, &name, fld, import) {
                changed = true;
            }
        }
        if def.is_none() {
            if names::name_set_insert(&mut self.unresolved, name) {
                changed = true;
            }
        }
        changed
    }
}

proof fn lemma_find_after_push<I>(s: Seq<(Seq<char>, I)>, name: Seq<char>, item: I, other: Seq<char>, i: nat)
    requires
        i <= s.len(),
    ensures
        find_entry(s.push((name, item)), other, i) == match find_entry(s, other, i) {
            Some(k) => Some(k),
            None => if other == name {
                Some(s.len())
            } else {
                None
            },
        },
        find_entry(s, other, i) matches Some(k) ==> i <= k < s.len() && s[k as int].0 == other,
    decreases s.len() - i,
{
    if i < s.len() {
        lemma_find_after_push(s, name, item, other, i + 1);
    } else {
        reveal_with_fuel(find_entry, 2);
    }
}

proof fn lemma_find_after_update<I>(s: Seq<(Seq<char>, I)>, k: nat, item: I, other: Seq<char>, i: nat)
    requires
        k < s.len(),
    ensures
        find_entry(s.update(k as int, (s[k as int].0, item)), other, i) == find_entry(s, other, i),
    decreases s.len() - i,
{
    if i < s.len() {
        lemma_find_after_update(s, k, item, other, i + 1);
    }
}

/// Bringing the same thing in again changes nothing.
pub proof fn pushing_again_changes_nothing<Def, Import>(
    ns: Namespace<Def, Import>,
    module: u64,
    name: Seq<char>,
    fld: Item<Def, Import>,
    import: Option<Import>,
    glob: bool,
    key: Option<ImportOrExternCrate>,
    to: ImportOrDef,
)
    ensures
        ({
            let once = push_in(ns, module, name, fld, import, glob, key, to).0;
            push_in(once, module, name, fld, import, glob, key, to) == (once, false)
        }),
{
    let item = Item { def: fld.def, vis: fld.vis, import };
    lemma_find_after_push(ns.items, name, item, name, 0);
    if let Some(k) = find_entry(ns.items, name, 0) {
        lemma_find_after_update(ns.items, k, item, name, 0);
    }
}

/// What is brought in is found under its name, and the import that brought it in leads to it. Where
/// nothing changes, the name stands for what it did before.
pub proof fn pushed_names_are_found<Def, Import>(
    ns: Namespace<Def, Import>,
    module: u64,
    name: Seq<char>,
    fld: Item<Def, Import>,
    import: Option<Import>,
    glob: bool,
    key: Option<ImportOrExternCrate>,
    to: ImportOrDef,
)
    ensures
        ({
            let (after, changed) = push_in(ns, module, name, fld, import, glob, key, to);
            &&& super::scope::lookup(after.items, name) == if changed {
                Some(Item { def: fld.def, vis: fld.vis, import })
            } else {
                super::scope::lookup(ns.items, name)
            }
            &&& super::scope::lookup(after.items, name) is Some
            &&& changed && key is Some ==> after.resolutions[key->0] == to
        }),
{
    let item = Item { def: fld.def, vis: fld.vis, import };
    lemma_find_after_push(ns.items, name, item, name, 0);
    if let Some(k) = find_entry(ns.items, name, 0) {
        lemma_find_after_update(ns.items, k, item, name, 0);
    }
}

/// What is brought in under one name leaves the other names as they are.
pub proof fn other_names_are_kept<Def, Import>(
    ns: Namespace<Def, Import>,
    module: u64,
    name: Seq<char>,
    fld: Item<Def, Import>,
    import: Option<Import>,
    glob: bool,
    key: Option<ImportOrExternCrate>,
    to: ImportOrDef,
    other: Seq<char>,
)
    requires
        other != name,
    ensures
        ({
            let after = push_in(ns, module, name, fld, import, glob, key, to).0;
            &&& super::scope::lookup(after.items, other) == super::scope::lookup(ns.items, other)
            &&& after.globs.contains((module, other)) == ns.globs.contains((module, other))
        }),
{
    let item = Item { def: fld.def, vis: fld.vis, import };
    lemma_find_after_push(ns.items, name, item, other, 0);
    lemma_find_after_push(ns.items, name, item, name, 0);
    if let Some(k) = find_entry(ns.items, name, 0) {
        lemma_find_after_update(ns.items, k, item, other, 0);
    }
}

/// A name that stands for something keeps that if a glob comes up. Anything else takes the place of
/// what a glob brought in.
pub proof fn globs_are_shadowed<Def, Import>(
    ns: Namespace<Def, Import>,
    module: u64,
    name: Seq<char>,
    fld: Item<Def, Import>,
    import: Option<Import>,
    key: Option<ImportOrExternCrate>,
    to: ImportOrDef,
)
    requires
        find_entry(ns.items, name, 0) is Some,
    ensures
        push_in(ns, module, name, fld, import, true, key, to) == (ns, false),
        ns.globs.contains((module, name)) ==> {
            let after = push_in(ns, module, name, fld, import, false, key, to).0;
            &&& super::scope::lookup(after.items, name) == Some(
                Item { def: fld.def, vis: fld.vis, import },
            )
            &&& !after.globs.contains((module, name))
        },
{
    let item = Item { def: fld.def, vis: fld.vis, import };
    let k = find_entry(ns.items, name, 0)->0;
    lemma_find_after_push(ns.items, name, item, name, 0);
    lemma_find_after_update(ns.items, k, item, name, 0);
}

/// Two scopes show the same: the same names with what they stand for, the same imports with what they
/// lead to, and the same names from globs.
pub open spec fn show_the_same(
    a: (ItemScope, PerNsGlobImports),
    b: (ItemScope, PerNsGlobImports),
) -> bool {
    &&& forall|n: Seq<char>| #[trigger] a.0.spec_get(n) == b.0.spec_get(n)
    &&& forall|n: Seq<char>| #[trigger] listing::has_name(a.0, n) == listing::has_name(b.0, n)
    &&& forall|i: ImportId| #[trigger] listing::has_import(a.0, i) == listing::has_import(b.0, i)
    &&& types_ns(a.0, a.1.types) == types_ns(b.0, b.1.types)
    &&& values_ns(a.0, a.1.values) == values_ns(b.0, b.1.values)
    &&& macros_ns(a.0, a.1.macros) == macros_ns(b.0, b.1.macros)
}

/// Where it is said that nothing changed, nothing did.
pub proof fn unchanged_scopes_show_the_same(
    before: (ItemScope, PerNsGlobImports),
    module: ModuleId,
    name: Seq<char>,
    def: PerNs,
    import: Option<ImportOrExternCrate>,
    after: (ItemScope, PerNsGlobImports),
)
    requires
        pushed(before, module, name, def, import, after, false),
    ensures
        show_the_same(before, after),
        names::set_names(after.0.unresolved@) == names::set_names(before.0.unresolved@),
        forall|entries: Seq<(&String, PerNs)>| #[trigger]
            listing::listed(entries, after.0) == listing::listed(entries, before.0),
{
    let unresolved = names::set_names(before.0.unresolved@);
    if def.spec_is_none() {
        assert(unresolved.insert(name) =~= unresolved);
    }
    lemma_same_namespaces(before, after);
    assert forall|entries: Seq<(&String, PerNs)>| #[trigger]
        listing::listed(entries, after.0) == listing::listed(entries, before.0) by {
        lemma_listed_alike(entries, before, after);
        lemma_listed_alike(entries, after, before);
    }
}

proof fn lemma_same_namespaces(
    before: (ItemScope, PerNsGlobImports),
    after: (ItemScope, PerNsGlobImports),
)
    requires
        types_ns(before.0, before.1.types) == types_ns(after.0, after.1.types),
        values_ns(before.0, before.1.values) == values_ns(after.0, after.1.values),
        macros_ns(before.0, before.1.macros) == macros_ns(after.0, after.1.macros),
        names::set_names(after.0.unresolved@) == names::set_names(before.0.unresolved@),
    ensures
        show_the_same(before, after),
        show_the_same(after, before),
{
    assert(types_ns(before.0, before.1.types).items == before.0.types_view());
    assert(types_ns(after.0, after.1.types).items == after.0.types_view());
    assert(types_ns(before.0, before.1.types).resolutions == before.0.use_imports_types@);
    assert(types_ns(after.0, after.1.types).resolutions == after.0.use_imports_types@);
    assert(values_ns(before.0, before.1.values).items == before.0.values_view());
    assert(values_ns(after.0, after.1.values).items == after.0.values_view());
    assert(values_ns(before.0, before.1.values).resolutions == before.0.use_imports_values@);
    assert(values_ns(after.0, after.1.values).resolutions == after.0.use_imports_values@);
    assert(macros_ns(before.0, before.1.macros).items == before.0.macros_view());
    assert(macros_ns(after.0, after.1.macros).items == after.0.macros_view());
    assert(macros_ns(before.0, before.1.macros).resolutions == before.0.use_imports_macros@);
    assert(macros_ns(after.0, after.1.macros).resolutions == after.0.use_imports_macros@);
}

proof fn lemma_listed_alike(
    entries: Seq<(&String, PerNs)>,
    a: (ItemScope, PerNsGlobImports),
    b: (ItemScope, PerNsGlobImports),
)
    requires
        show_the_same(a, b),
    ensures
        listing::listed(entries, a.0) ==> listing::listed(entries, b.0),
{
    if listing::listed(entries, a.0) {
        assert forall|n: Seq<char>| #[trigger] listing::has_name(b.0, n) <==> exists|i: int|
            0 <= i < entries.len() && (#[trigger] entries[i]).0@ == n by {
            assert(listing::has_name(a.0, n) == listing::has_name(b.0, n));
        }
        assert forall|i: int| 0 <= i < entries.len() implies (#[trigger] entries[i]).1
            == b.0.spec_get(entries[i].0@) by {
            assert(a.0.spec_get(entries[i].0@) == b.0.spec_get(entries[i].0@));
        }
    }
}

/// A name that stands for nothing keeps all names as they are and is listed afterwards. It is news only
/// once.
pub proof fn unresolved_names_are_news_once(
    before: (ItemScope, PerNsGlobImports),
    module: ModuleId,
    name: Seq<char>,
    def: PerNs,
    import: Option<ImportOrExternCrate>,
    after: (ItemScope, PerNsGlobImports),
    changed: bool,
    later: (ItemScope, PerNsGlobImports),
    again: bool,
)
    requires
        def.spec_is_none(),
        pushed(before, module, name, def, import, after, changed),
        pushed(after, module, name, def, import, later, again),
    ensures
        forall|n: Seq<char>| #[trigger] after.0.spec_get(n) == before.0.spec_get(n),
        listing::has_name(after.0, name),
        !again,
{
    assert(types_ns(after.0, after.1.types).items == after.0.types_view());
    assert(types_ns(before.0, before.1.types).items == before.0.types_view());
    assert(values_ns(after.0, after.1.values).items == after.0.values_view());
    assert(values_ns(before.0, before.1.values).items == before.0.values_view());
    assert(macros_ns(after.0, after.1.macros).items == after.0.macros_view());
    assert(macros_ns(before.0, before.1.macros).items == before.0.macros_view());
}

} // verus!
