//! The storage of a scope, and what it stands for.

use super::derives::DeriveInvocations;
use super::imports::{
    imports_wf, visibilities_wf, ImportOrExternCrate, ScopeImportId, ScopeImportOrExternCrate,
    ScopeVisibility,
};
use super::keys::{ImportMap, NodeMap};
use super::names;
use super::names::{MacroIds, NameMap};
use crate::fx;
use crate::ids::{
    BuiltinDeriveImplId, ConstId, ExternBlockId, ExternCrateId, ImplId, MacroCallId, ModuleDefId,
    TraitId, UseId, Visibility,
};
use crate::item_scope::imports;
use crate::item_scope::imports::ImportId;
use crate::per_ns;
use crate::per_ns::{Item, MacrosItem, TypesItem, ValuesItem};
use crate::thin::thin;
use rustc_hash::{FxHashMap, FxHashSet};
use thin_vec::ThinVec;
use vstd::prelude::*;

verus! {

/// An entry in the namespace of the values. The visibility and the import are in the tables of the
/// scope.
#[derive(Clone, Copy, PartialEq, Eq, Structural, Debug)]
pub struct ScopeValuesItem {
    pub def: ModuleDefId,
    pub vis: ScopeVisibility,
    pub import: ScopeImportId,
}

/// An entry in the namespace of the types.
#[derive(Clone, Copy, PartialEq, Eq, Structural, Debug)]
pub struct ScopeTypesItem {
    pub def: ModuleDefId,
    pub vis: ScopeVisibility,
    pub import: ScopeImportId,
}

impl ScopeTypesItem {
    pub open spec fn fits(self, v: Seq<Visibility>, t: Seq<ScopeImportOrExternCrate>) -> bool {
        self.vis.fits(v) && self.import.fits(t)
    }

    pub open spec fn item(self, v: Seq<Visibility>, t: Seq<ScopeImportOrExternCrate>) -> TypesItem {
        Item { def: self.def, vis: self.vis.spec_get(v), import: self.import.spec_get(t) }
    }

    /// Stores an item whose visibility has a place already.
    pub fn new(
        item: TypesItem,
        vis: ScopeVisibility,
        imports: &mut ThinVec<ScopeImportOrExternCrate>,
    ) -> (r: ScopeTypesItem)
        requires
            imports_wf(thin(*old(imports))),
            thin(*old(imports)).len() < u32::MAX,
            item.import matches Some(i) ==> i.storable(),
        ensures
            imports_wf(thin(*final(imports))),
            imports::grown(thin(*old(imports)), thin(*final(imports)), item.import),
            r.import.fits(thin(*final(imports))),
            forall|v: Seq<Visibility>|
                vis.fits(v) && vis.spec_get(v) == item.vis ==> #[trigger] r.item(
                    v,
                    thin(*final(imports)),
                ) == item,
            r.vis == vis,
    {
        let import = ScopeImportId::new(item.import, imports);
        ScopeTypesItem { def: item.def, vis, import }
    }

    pub fn get(self, visibilities: &[Visibility], imports: &[ScopeImportOrExternCrate]) -> (r:
        TypesItem)
        requires
            self.fits(visibilities@, imports@),
            imports_wf(imports@),
        ensures
            r == self.item(visibilities@, imports@),
    {
        Item { def: self.def, vis: self.vis.get(visibilities), import: self.import.get(imports) }
    }
}

impl ScopeValuesItem {
    pub open spec fn fits(self, v: Seq<Visibility>, t: Seq<ScopeImportOrExternCrate>) -> bool {
        &&& self.vis.fits(v)
        &&& self.import.fits(t)
        &&& !(self.import.spec_get(t) matches Some(ImportOrExternCrate::ExternCrate(_)))
    }

    pub open spec fn item(self, v: Seq<Visibility>, t: Seq<ScopeImportOrExternCrate>) -> ValuesItem {
        Item {
            def: self.def,
            vis: self.vis.spec_get(v),
            import: per_ns::spec_import_or_glob(self.import.spec_get(t)),
        }
    }

    /// Stores an item whose visibility has a place already.
    pub fn new(
        item: ValuesItem,
        vis: ScopeVisibility,
        imports: &mut ThinVec<ScopeImportOrExternCrate>,
    ) -> (r: ScopeValuesItem)
        requires
            imports_wf(thin(*old(imports))),
            thin(*old(imports)).len() < u32::MAX,
            item.import matches Some(i) ==> imports::value_import(i).storable(),
        ensures
            imports_wf(thin(*final(imports))),
            imports::grown(
                thin(*old(imports)),
                thin(*final(imports)),
                imports::value_imports(item.import),
            ),
            r.import.fits(thin(*final(imports))),
            r.import.spec_get(thin(*final(imports))) == imports::value_imports(item.import),
            forall|v: Seq<Visibility>|
                vis.fits(v) && vis.spec_get(v) == item.vis ==> #[trigger] r.item(
                    v,
                    thin(*final(imports)),
                ) == item && r.fits(v, thin(*final(imports))),
            r.vis == vis,
    {
        let import = match item.import {
            Some(import) => Some(ImportOrExternCrate::from(import)),
            None => None,
        };
        let import = ScopeImportId::new(import, imports);
        ScopeValuesItem { def: item.def, vis, import }
    }

    pub fn get(self, visibilities: &[Visibility], imports: &[ScopeImportOrExternCrate]) -> (r:
        ValuesItem)
        requires
            self.fits(visibilities@, imports@),
            imports_wf(imports@),
        ensures
            r == self.item(visibilities@, imports@),
    {
        Item {
            def: self.def,
            vis: self.vis.get(visibilities),
            import: per_ns::import_or_glob(self.import.get(imports)),
        }
    }
}

/// What is defined or visible in a module or a block.
#[derive(Debug, PartialEq, Eq)]
pub struct ItemScope {
    /// What can be seen in the scope: what is declared there and what is imported.
    pub types: NameMap<ScopeTypesItem>,
    pub values: NameMap<ScopeValuesItem>,
    pub macros: NameMap<MacrosItem>,
    /// The visibilities of the types and values, each once.
    pub visibilities: ThinVec<Visibility>,
    /// The imports of the types and values, each once.
    pub imports: ThinVec<ScopeImportOrExternCrate>,
    pub unresolved: FxHashSet<String>,
    /// What is declared in the scope. Everything is declared in one scope only.
    pub declarations: ThinVec<ModuleDefId>,
    /// The impls, each with a mark that says whether it is for a trait.
    pub impls: ThinVec<(ImplId, bool)>,
    pub builtin_derive_impls: ThinVec<BuiltinDeriveImplId>,
    pub extern_blocks: ThinVec<ExternBlockId>,
    pub unnamed_consts: ThinVec<ConstId>,
    /// Traits that are imported without a name.
    pub unnamed_trait_imports: ThinVec<(TraitId, Item<(), ImportId>)>,
    /// What the imports of the scope lead to.
    pub use_imports_types: ImportMap,
    pub use_imports_values: ImportMap,
    pub use_imports_macros: ImportMap,
    pub use_decls: ThinVec<UseId>,
    pub extern_crate_decls: ThinVec<ExternCrateId>,
    /// The macros that can be seen by their place in the text. A macro that is called by its name
    /// alone is looked up here first; one that is called by a path is not. Macros that were defined
    /// in the text before the module are here too.
    pub legacy_macros: FxHashMap<String, MacroIds>,
    pub attr_macros: NodeMap<MacroCallId>,
    pub macro_invocations: NodeMap<MacroCallId>,
    /// The derives, by the item that they are written on.
    pub derive_macros: NodeMap<DeriveInvocations>,
}

/// The entries of a namespace, as the tables of the scope show them.
pub open spec fn resolved<V, I>(e: Seq<(String, V)>, f: spec_fn(V) -> I) -> Seq<(Seq<char>, I)> {
    Seq::new(e.len(), |i: int| (e[i].0@, f(e[i].1)))
}

/// The place of a name among the entries from `i` on.
pub open spec fn find_entry<I>(s: Seq<(Seq<char>, I)>, name: Seq<char>, i: nat) -> Option<nat>
    decreases s.len() - i,
{
    if i >= s.len() {
        None
    } else if s[i as int].0 == name {
        Some(i)
    } else {
        find_entry(s, name, i + 1)
    }
}

pub open spec fn lookup<I>(s: Seq<(Seq<char>, I)>, name: Seq<char>) -> Option<I> {
    match find_entry(s, name, 0) {
        Some(i) => Some(s[i as int].1),
        None => None,
    }
}

pub proof fn lemma_find_entry<V, I>(e: Seq<(String, V)>, f: spec_fn(V) -> I, name: Seq<char>, i: nat)
    ensures
        find_entry(resolved(e, f), name, i) == names::find_name(e, name, i),
    decreases e.len() - i,
{
    if i < e.len() && e[i as int].0@ != name {
        lemma_find_entry(e, f, name, i + 1);
    }
}

impl ItemScope {
    pub open spec fn vis_table(self) -> Seq<Visibility> {
        thin(self.visibilities)
    }

    pub open spec fn import_table(self) -> Seq<ScopeImportOrExternCrate> {
        thin(self.imports)
    }

    /// The types that can be seen, in the order in which their names came up.
    pub open spec fn types_view(self) -> Seq<(Seq<char>, TypesItem)> {
        resolved(
            names::entries(self.types),
            |t: ScopeTypesItem| t.item(self.vis_table(), self.import_table()),
        )
    }

    pub open spec fn values_view(self) -> Seq<(Seq<char>, ValuesItem)> {
        resolved(
            names::entries(self.values),
            |t: ScopeValuesItem| t.item(self.vis_table(), self.import_table()),
        )
    }

    pub open spec fn macros_view(self) -> Seq<(Seq<char>, MacrosItem)> {
        resolved(names::entries(self.macros), |t: MacrosItem| t)
    }

    /// No name comes twice in a namespace, and everything refers to places in the tables.
    pub open spec fn wf(self) -> bool {
        &&& visibilities_wf(self.vis_table())
        &&& imports_wf(self.import_table())
        &&& self.vis_table().len() <= u32::MAX
        &&& self.import_table().len() <= u32::MAX
        &&& names::names_distinct(names::entries(self.types))
        &&& names::names_distinct(names::entries(self.values))
        &&& names::names_distinct(names::entries(self.macros))
        &&& forall|i: int|
            0 <= i < names::entries(self.types).len() ==> (#[trigger] names::entries(
                self.types,
            )[i]).1.fits(self.vis_table(), self.import_table())
        &&& forall|i: int|
            0 <= i < names::entries(self.values).len() ==> (#[trigger] names::entries(
                self.values,
            )[i]).1.fits(self.vis_table(), self.import_table())
        &&& self.use_imports_types.wf()
        &&& self.use_imports_values.wf()
        &&& self.use_imports_macros.wf()
        &&& self.attr_macros.wf()
        &&& self.macro_invocations.wf()
        &&& self.derive_macros.wf()
    }

    /// Whether `n` more visibilities and imports fit in the tables.
    pub open spec fn has_room(self, n: nat) -> bool {
        &&& self.vis_table().len() + n <= u32::MAX
        &&& self.import_table().len() + n <= u32::MAX
    }

    /// Whether two scopes have the same declarations and the like. Only the namespaces, what imports
    /// lead to and what is unresolved may differ.
    pub open spec fn same_lists(self, other: ItemScope) -> bool {
        &&& self.declarations == other.declarations
        &&& self.impls == other.impls
        &&& self.builtin_derive_impls == other.builtin_derive_impls
        &&& self.extern_blocks == other.extern_blocks
        &&& self.unnamed_consts == other.unnamed_consts
        &&& self.unnamed_trait_imports == other.unnamed_trait_imports
        &&& self.use_decls == other.use_decls
        &&& self.extern_crate_decls == other.extern_crate_decls
        &&& self.legacy_macros == other.legacy_macros
        &&& self.attr_macros == other.attr_macros
        &&& self.macro_invocations == other.macro_invocations
        &&& self.derive_macros == other.derive_macros
    }

    /// Whether two scopes agree on what imports lead to and on what is unresolved.
    pub open spec fn same_imports(self, other: ItemScope) -> bool {
        &&& self.use_imports_types == other.use_imports_types
        &&& self.use_imports_values == other.use_imports_values
        &&& self.use_imports_macros == other.use_imports_macros
        &&& self.unresolved == other.unresolved
    }
}

impl Default for ItemScope {
    /// The scope in which nothing is defined.
    fn default() -> (r: ItemScope)
        ensures
            r.wf(),
            r.types_view().len() == 0,
            r.values_view().len() == 0,
            r.macros_view().len() == 0,
            r.vis_table().len() == 0,
            r.import_table().len() == 0,
            names::set_names(r.unresolved@) == Set::<Seq<char>>::empty(),
            thin(r.declarations).len() == 0,
            thin(r.impls).len() == 0,
            thin(r.builtin_derive_impls).len() == 0,
            thin(r.extern_blocks).len() == 0,
            thin(r.unnamed_consts).len() == 0,
            thin(r.unnamed_trait_imports).len() == 0,
            r.use_imports_types@ == Map::<ImportOrExternCrate, imports::ImportOrDef>::empty(),
            r.use_imports_values@ == Map::<ImportOrExternCrate, imports::ImportOrDef>::empty(),
            r.use_imports_macros@ == Map::<ImportOrExternCrate, imports::ImportOrDef>::empty(),
            thin(r.use_decls).len() == 0,
            thin(r.extern_crate_decls).len() == 0,
            names::by_name(r.legacy_macros@).dom() == Set::<Seq<char>>::empty(),
            r.attr_macros@.dom() == Set::<super::keys::AstId>::empty(),
            r.macro_invocations@.dom() == Set::<super::keys::AstId>::empty(),
            r.derive_macros@.dom() == Set::<super::keys::AstId>::empty(),
    {
        let r = ItemScope {
            types: names::name_map_new(),
            values: names::name_map_new(),
            macros: names::name_map_new(),
            visibilities: ThinVec::new(),
            imports: ThinVec::new(),
            unresolved: names::fx_set_new(),
            declarations: ThinVec::new(),
            impls: ThinVec::new(),
            builtin_derive_impls: ThinVec::new(),
            extern_blocks: ThinVec::new(),
            unnamed_consts: ThinVec::new(),
            unnamed_trait_imports: ThinVec::new(),
            use_imports_types: ImportMap::new(),
            use_imports_values: ImportMap::new(),
            use_imports_macros: ImportMap::new(),
            use_decls: ThinVec::new(),
            extern_crate_decls: ThinVec::new(),
            legacy_macros: fx::fx_map_new(),
            attr_macros: NodeMap::new(),
            macro_invocations: NodeMap::new(),
            derive_macros: NodeMap::new(),
        };
        proof {
            assert(names::set_names(r.unresolved@) =~= Set::<Seq<char>>::empty());
            assert(names::by_name(r.legacy_macros@).dom() =~= Set::<Seq<char>>::empty());
        }
        r
    }
}

} // verus!
