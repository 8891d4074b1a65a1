//! What a name stands for in each of the three namespaces.

use crate::ids::{AdtId, Crate, MacroId, ModuleDefId, ModuleId, Visibility};
use crate::item_scope::imports::{ImportOrExternCrate, ImportOrGlob};
use vstd::prelude::*;

verus! {

/// A definition, from where it can be seen, and which import brought it in.
#[derive(Clone, Copy, PartialEq, Eq, Structural, Debug)]
pub struct Item<Def, Import> {
    pub def: Def,
    pub vis: Visibility,
    pub import: Option<Import>,
}

pub type TypesItem = Item<ModuleDefId, ImportOrExternCrate>;

pub type ValuesItem = Item<ModuleDefId, ImportOrGlob>;

pub type MacrosItem = Item<MacroId, ImportOrExternCrate>;

/// Whether an import that comes up again now leads to something else: it is the one that the item
/// was recorded for, but the definition is another.
pub open spec fn reresolved<Def, Import>(
    item: Item<Def, Import>,
    def: Def,
    import: Option<Import>,
) -> bool {
    import is Some && item.import == import && item.def != def
}

impl Item<ModuleDefId, ImportOrExternCrate> {
    pub fn is_reresolved_by(&self, def: &ModuleDefId, import: Option<ImportOrExternCrate>) -> (r:
        bool)
        ensures
            r == reresolved(*self, *def, import),
    {
        match (self.import, import) {
            (Some(a), Some(b)) => a == b && self.def != *def,
            _ => false,
        }
    }
}

impl Item<ModuleDefId, ImportOrGlob> {
    pub fn is_reresolved_by(&self, def: &ModuleDefId, import: Option<ImportOrGlob>) -> (r: bool)
        ensures
            r == reresolved(*self, *def, import),
    {
        match (self.import, import) {
            (Some(a), Some(b)) => a == b && self.def != *def,
            _ => false,
        }
    }
}

impl Item<MacroId, ImportOrExternCrate> {
    pub fn is_reresolved_by(&self, def: &MacroId, import: Option<ImportOrExternCrate>) -> (r: bool)
        ensures
            r == reresolved(*self, *def, import),
    {
        match (self.import, import) {
            (Some(a), Some(b)) => a == b && self.def != *def,
            _ => false,
        }
    }
}

#[derive(Clone, Copy, PartialEq, Eq, Debug)]
pub struct PerNs {
    pub types: Option<TypesItem>,
    pub values: Option<ValuesItem>,
    pub macros: Option<MacrosItem>,
}

pub open spec fn spec_import_or_glob(import: Option<ImportOrExternCrate>) -> Option<ImportOrGlob> {
    match import {
        Some(i) => i.spec_import_or_glob(),
        None => None,
    }
}

pub fn import_or_glob(import: Option<ImportOrExternCrate>) -> (r: Option<ImportOrGlob>)
    ensures
        r == spec_import_or_glob(import),
{
    match import {
        Some(i) => i.import_or_glob(),
        None => None,
    }
}

/// The namespaces that a definition is in, with the visibility it has there. Most are in one. A
/// struct or a variant is in that of the types, and if it has a constructor, in that of the values
/// too, where it can be seen as far as the constructor can.
pub open spec fn spec_from_def(
    def: ModuleDefId,
    vis: Visibility,
    value_ns_ctor_vis: Option<Visibility>,
    import: Option<ImportOrExternCrate>,
) -> PerNs {
    let as_type = match def {
        ModuleDefId::ModuleId(_) | ModuleDefId::AdtId(_) | ModuleDefId::EnumVariantId(_)
        | ModuleDefId::TraitId(_) | ModuleDefId::TypeAliasId(_) | ModuleDefId::BuiltinType(_) => true,
        _ => false,
    };
    let value_vis = match def {
        ModuleDefId::FunctionId(_) | ModuleDefId::ConstId(_) | ModuleDefId::StaticId(_) => Some(
            vis,
        ),
        ModuleDefId::AdtId(AdtId::StructId(_)) | ModuleDefId::EnumVariantId(_) => value_ns_ctor_vis,
        _ => None,
    };
    PerNs {
        types: if as_type {
            Some(Item { def, vis, import })
        } else {
            None
        },
        values: match value_vis {
            Some(v) => Some(Item { def, vis: v, import: spec_import_or_glob(import) }),
            None => None,
        },
        macros: match def {
            ModuleDefId::MacroId(def) => Some(Item { def, vis, import }),
            _ => None,
        },
    }
}

impl PerNs {
    pub fn none() -> (r: PerNs)
        ensures
            r == (PerNs { types: None, values: None, macros: None }),
    {
        PerNs { types: None, values: None, macros: None }
    }

    pub fn types(def: ModuleDefId, vis: Visibility, import: Option<ImportOrExternCrate>) -> (r:
        PerNs)
        ensures
            r == (PerNs { types: Some(Item { def, vis, import }), values: None, macros: None }),
    {
        PerNs { types: Some(Item { def, vis, import }), values: None, macros: None }
    }

    pub fn values(def: ModuleDefId, vis: Visibility, import: Option<ImportOrGlob>) -> (r: PerNs)
        ensures
            r == (PerNs { types: None, values: Some(Item { def, vis, import }), macros: None }),
    {
        PerNs { types: None, values: Some(Item { def, vis, import }), macros: None }
    }

    pub fn macros(def: MacroId, vis: Visibility, import: Option<ImportOrExternCrate>) -> (r: PerNs)
        ensures
            r == (PerNs { types: None, values: None, macros: Some(Item { def, vis, import }) }),
    {
        PerNs { types: None, values: None, macros: Some(Item { def, vis, import }) }
    }

    pub open spec fn spec_is_none(self) -> bool {
        self.types is None && self.values is None && self.macros is None
    }

    pub fn is_none(&self) -> (r: bool)
        ensures
            r == self.spec_is_none(),
    {
        self.types.is_none() && self.values.is_none() && self.macros.is_none()
    }

    /// What a definition stands for in each namespace.
    pub fn from_def(
        def: ModuleDefId,
        vis: Visibility,
        value_ns_ctor_vis: Option<Visibility>,
        import: Option<ImportOrExternCrate>,
    ) -> (r: PerNs)
        ensures
            r == spec_from_def(def, vis, value_ns_ctor_vis, import),
    {
        match def {
            ModuleDefId::ModuleId(_) => PerNs::types(def, vis, import),
            ModuleDefId::FunctionId(_) => PerNs::values(def, vis, import_or_glob(import)),
            ModuleDefId::AdtId(adt) => match adt {
                AdtId::UnionId(_) => PerNs::types(def, vis, import),
                AdtId::EnumId(_) => PerNs::types(def, vis, import),
                AdtId::StructId(_) => match value_ns_ctor_vis {
                    Some(ctor_vis) => PerNs {
                        types: Some(Item { def, vis, import }),
                        values: Some(Item { def, vis: ctor_vis, import: import_or_glob(import) }),
                        macros: None,
                    },
                    None => PerNs::types(def, vis, import),
                },
            },
            ModuleDefId::EnumVariantId(_) => match value_ns_ctor_vis {
                Some(ctor_vis) => PerNs {
                    types: Some(Item { def, vis, import }),
                    values: Some(Item { def, vis: ctor_vis, import: import_or_glob(import) }),
                    macros: None,
                },
                None => PerNs::types(def, vis, import),
            },
            ModuleDefId::ConstId(_) => PerNs::values(def, vis, import_or_glob(import)),
            ModuleDefId::StaticId(_) => PerNs::values(def, vis, import_or_glob(import)),
            ModuleDefId::TraitId(_) => PerNs::types(def, vis, import),
            ModuleDefId::TypeAliasId(_) => PerNs::types(def, vis, import),
            ModuleDefId::BuiltinType(_) => PerNs::types(def, vis, import),
            ModuleDefId::MacroId(mac) => PerNs::macros(mac, vis, import),
        }
    }
}

/// Every definition is in some namespace, and only macros are in that of the macros.
pub proof fn every_def_is_somewhere(
    def: ModuleDefId,
    vis: Visibility,
    value_ns_ctor_vis: Option<Visibility>,
    import: Option<ImportOrExternCrate>,
)
    ensures
        !spec_from_def(def, vis, value_ns_ctor_vis, import).spec_is_none(),
        spec_from_def(def, vis, value_ns_ctor_vis, import).macros is Some <==> def is MacroId,
{
}

/// The modules that definitions are in, and the crates that modules are in.
pub struct DefModules {
    pub modules: Vec<(ModuleDefId, ModuleId)>,
    pub crates: Vec<(ModuleId, Crate)>,
}

impl DefModules {
    /// The module of a definition, by the first of the entries from `i` on that are for it.
    pub open spec fn module_from(self, def: ModuleDefId, i: nat) -> Option<ModuleId>
        decreases self.modules@.len() - i,
    {
        if i >= self.modules@.len() {
            None
        } else if self.modules@[i as int].0 == def {
            Some(self.modules@[i as int].1)
        } else {
            self.module_from(def, i + 1)
        }
    }

    /// The crate of a module, by the first of the entries from `i` on that are for it.
    pub open spec fn crate_from(self, module: ModuleId, i: nat) -> Option<Crate>
        decreases self.crates@.len() - i,
    {
        if i >= self.crates@.len() {
            None
        } else if self.crates@[i as int].0 == module {
            Some(self.crates@[i as int].1)
        } else {
            self.crate_from(module, i + 1)
        }
    }

    pub fn module_of(&self, def: ModuleDefId) -> (r: Option<ModuleId>)
        ensures
            r == self.module_from(def, 0),
    {
        let mut i: usize = 0;
        while i < self.modules.len()
            invariant
                i <= self.modules@.len(),
                self.module_from(def, 0) == self.module_from(def, i as nat),
            decreases self.modules@.len() - i,
        {
            if self.modules[i].0 == def {
                return Some(self.modules[i].1);
            }
            i = i + 1;
        }
        None
    }

    pub fn crate_of(&self, module: ModuleId) -> (r: Option<Crate>)
        ensures
            r == self.crate_from(module, 0),
    {
        let mut i: usize = 0;
        while i < self.crates.len()
            invariant
                i <= self.crates@.len(),
                self.crate_from(module, 0) == self.crate_from(module, i as nat),
            decreases self.crates@.len() - i,
        {
            if self.crates[i].0 == module {
                return Some(self.crates[i].1);
            }
            i = i + 1;
        }
        None
    }
}

/// A definition, as it is found in one of the namespaces.
#[derive(Clone, Copy, PartialEq, Eq, Structural, Debug, Hash)]
pub enum ItemInNs {
    Types(ModuleDefId),
    Values(ModuleDefId),
    Macros(MacroId),
}

impl ItemInNs {
    pub open spec fn spec_def(self) -> ModuleDefId {
        match self {
            ItemInNs::Types(id) => id,
            ItemInNs::Values(id) => id,
            ItemInNs::Macros(id) => ModuleDefId::MacroId(id),
        }
    }

    /// The module that the item is defined in. A built-in type is in none.
    pub open spec fn spec_module(self, table: DefModules) -> Option<ModuleId> {
        if self.spec_def() is BuiltinType {
            None
        } else {
            table.module_from(self.spec_def(), 0)
        }
    }

    pub fn module(&self, table: &DefModules) -> (r: Option<ModuleId>)
        requires
            !(self.spec_def() is BuiltinType) ==> table.module_from(self.spec_def(), 0) is Some,
        ensures
            r == self.spec_module(*table),
            r is None <==> self.spec_def() is BuiltinType,
    {
        let def = match self {
            ItemInNs::Types(id) => *id,
            ItemInNs::Values(id) => *id,
            ItemInNs::Macros(id) => ModuleDefId::MacroId(*id),
        };
        if matches!(def, ModuleDefId::BuiltinType(_)) {
            None
        } else {
            table.module_of(def)
        }
    }

    /// The crate that the item is defined in. A built-in type is in none.
    pub fn krate(&self, table: &DefModules) -> (r: Option<Crate>)
        requires
            !(self.spec_def() is BuiltinType) ==> table.module_from(self.spec_def(), 0) is Some
                && table.crate_from(table.module_from(self.spec_def(), 0)->0, 0) is Some,
        ensures
            r == (match self.spec_module(*table) {
                Some(m) => table.crate_from(m, 0),
                None => None,
            }),
            r is None <==> self.spec_def() is BuiltinType,
    {
        match self.module(table) {
            Some(m) => table.crate_of(m),
            None => None,
        }
    }

    pub fn as_module_def_id(self) -> (r: Option<ModuleDefId>)
        ensures
            r == (match self {
                ItemInNs::Types(id) => Some(id),
                ItemInNs::Values(id) => Some(id),
                ItemInNs::Macros(_) => None,
            }),
    {
        match self {
            ItemInNs::Types(id) => Some(id),
            ItemInNs::Values(id) => Some(id),
            ItemInNs::Macros(_) => None,
        }
    }
}

} // verus!
