//! The ways that imports lead, step by step, and what is found at their ends.

use super::imports::{ImportId, ImportOrDef, ImportOrExternCrate};
use super::resolve;
use super::resolve::{Ns, UseScopes};
use super::scope::ItemScope;
use crate::ids::{ModuleDefId, UseId, Visibility};
use crate::per_ns::{MacrosItem, TypesItem, ValuesItem};
use vstd::prelude::*;

verus! {

/// What a scope records of an import in a namespace.
pub open spec fn record(scope: ItemScope, ns: Ns, import: ImportId) -> Option<ImportOrDef> {
    let key = ImportOrExternCrate::Import(import);
    if ns == Ns::Types && scope.use_imports_types@.contains_key(key) {
        Some(scope.use_imports_types@[key])
    } else if ns == Ns::Values && scope.use_imports_values@.contains_key(key) {
        Some(scope.use_imports_values@[key])
    } else if ns == Ns::Macros && scope.use_imports_macros@.contains_key(key) {
        Some(scope.use_imports_macros@[key])
    } else {
        None
    }
}

/// Whether `scope` is the one that the first entry for the use item gives.
pub open spec fn is_scope_of(scopes: UseScopes, use_: UseId, scope: ItemScope) -> bool {
    exists|k: int| {
        &&& 0 <= k < scopes.scopes@.len()
        &&& (#[trigger] scopes.scopes@[k]).0 == use_
        &&& *scopes.scopes@[k].1 == scope
        &&& forall|j: int| 0 <= j < k ==> (#[trigger] scopes.scopes@[j]).0 != use_
    }
}

pub open spec fn has_no_scope(scopes: UseScopes, use_: UseId) -> bool {
    forall|k: int| 0 <= k < scopes.scopes@.len() ==> (#[trigger] scopes.scopes@[k]).0 != use_
}

/// A way from import to import: each is recorded, in the scope of its use item, as leading to the
/// next. The first is recorded in the scope that is asked.
pub ghost struct Way {
    pub imports: Seq<ImportId>,
    pub scopes: Seq<ItemScope>,
}

impl Way {
    pub open spec fn leads(self, scopes: UseScopes, scope: ItemScope, ns: Ns) -> bool {
        &&& self.imports.len() > 0
        &&& self.scopes.len() == self.imports.len()
        &&& self.scopes[0] == scope
        &&& forall|k: int|
            #![trigger self.imports[k]]
            0 < k < self.imports.len() ==> {
                &&& record(self.scopes[k - 1], ns, self.imports[k - 1]) == Some(
                    ImportOrDef::Import(self.imports[k]),
                )
                &&& is_scope_of(scopes, self.imports[k].use_, self.scopes[k])
            }
    }

    /// The way that is left behind the first import.
    spec fn rest(self) -> Way {
        Way { imports: self.imports.skip(1), scopes: self.scopes.skip(1) }
    }

    /// What is recorded of the last import.
    pub open spec fn end(self, ns: Ns) -> Option<ImportOrDef> {
        record(self.scopes.last(), ns, self.imports.last())
    }
}

proof fn lemma_scope(scopes: UseScopes, use_: UseId, i: nat)
    ensures
        forall|k: int|
            i <= k < scopes.scopes@.len() && (#[trigger] scopes.scopes@[k]).0 == use_ && (forall|
                j: int,
            |
                i <= j < k ==> (#[trigger] scopes.scopes@[j]).0 != use_) ==> scopes.scope_from(use_, i)
                == Some(*scopes.scopes@[k].1),
        (forall|k: int| i <= k < scopes.scopes@.len() ==> (#[trigger] scopes.scopes@[k]).0 != use_)
            ==> scopes.scope_from(use_, i) is None,
    decreases scopes.scopes@.len() - i,
{
    if i < scopes.scopes@.len() {
        lemma_scope(scopes, use_, i + 1);
        if scopes.scopes@[i as int].0 == use_ {
            assert forall|k: int|
                i <= k < scopes.scopes@.len() && (#[trigger] scopes.scopes@[k]).0 == use_ && (
                forall|j: int| i <= j < k ==> (#[trigger] scopes.scopes@[j]).0 != use_) implies
                scopes.scope_from(use_, i) == Some(*scopes.scopes@[k].1) by {
                if k > i {
                    assert(scopes.scopes@[i as int].0 != use_);
                }
            }
        } else {
            assert forall|k: int|
                i <= k < scopes.scopes@.len() && (#[trigger] scopes.scopes@[k]).0 == use_ && (
                forall|j: int| i <= j < k ==> (#[trigger] scopes.scopes@[j]).0 != use_) implies
                scopes.scope_from(use_, i) == Some(*scopes.scopes@[k].1) by {
                assert(k > i);
                assert forall|j: int| i + 1 <= j < k implies (#[trigger] scopes.scopes@[j]).0
                    != use_ by {}
            }
        }
    }
}

/// A use item is looked up by the first entry for it.
pub proof fn uses_are_looked_up_by_their_first_entry(scopes: UseScopes, use_: UseId, scope: ItemScope)
    ensures
        is_scope_of(scopes, use_, scope) ==> scopes.scope_from(use_, 0) == Some(scope),
        has_no_scope(scopes, use_) ==> scopes.scope_from(use_, 0) is None,
{
    lemma_scope(scopes, use_, 0);
    if is_scope_of(scopes, use_, scope) {
        let k = choose|k: int| {
            &&& 0 <= k < scopes.scopes@.len()
            &&& (#[trigger] scopes.scopes@[k]).0 == use_
            &&& *scopes.scopes@[k].1 == scope
            &&& forall|j: int| 0 <= j < k ==> (#[trigger] scopes.scopes@[j]).0 != use_
        };
        assert(scopes.scopes@[k].0 == use_);
    }
}

proof fn lemma_follow_way(
    scopes: UseScopes,
    scope: ItemScope,
    ns: Ns,
    way: Way,
    fuel: nat,
)
    requires
        way.leads(scopes, scope, ns),
        fuel > 0,
    ensures
        resolve::follow(scopes, scope, way.imports[0], ns, (way.imports.len() - 1 + fuel) as nat)
            == resolve::follow(scopes, way.scopes.last(), way.imports.last(), ns, fuel),
    decreases way.imports.len(),
{
    if way.imports.len() > 1 {
        let rest = way.rest();
        let next = way.scopes[1];
        assert(record(scope, ns, way.imports[0]) == Some(ImportOrDef::Import(way.imports[1])));
        uses_are_looked_up_by_their_first_entry(scopes, way.imports[1].use_, next);
        assert forall|k: int|
            #![trigger rest.imports[k]]
            0 < k < rest.imports.len() implies {
            &&& record(rest.scopes[k - 1], ns, rest.imports[k - 1]) == Some(
                ImportOrDef::Import(rest.imports[k]),
            )
            &&& is_scope_of(scopes, rest.imports[k].use_, rest.scopes[k])
        } by {
            assert(way.imports[k + 1] == rest.imports[k]);
        }
        lemma_follow_way(scopes, next, ns, rest, fuel);
    }
}

/// A way comes to its end at an import that does not lead to another: there stands a definition, or
/// there is none to be found. It also ends at an import of a use item in no known scope.
pub proof fn ways_end_where_nothing_leads_on(
    scopes: UseScopes,
    scope: ItemScope,
    ns: Ns,
    way: Way,
)
    requires
        way.leads(scopes, scope, ns),
    ensures
        way.end(ns) matches Some(ImportOrDef::Def(def)) ==> {
            &&& resolve::ends(scopes, scope, way.imports[0], ns)
            &&& resolve::destination(scopes, scope, way.imports[0], ns) == (
                Some(def),
                way.imports.last(),
            )
        },
        !(way.end(ns) matches Some(ImportOrDef::Def(_))) && !(way.end(
            ns,
        ) matches Some(ImportOrDef::Import(_))) ==> {
            &&& resolve::ends(scopes, scope, way.imports[0], ns)
            &&& resolve::destination(scopes, scope, way.imports[0], ns) == (
                None::<ModuleDefId>,
                way.imports.last(),
            )
        },
        way.end(ns) matches Some(ImportOrDef::Import(next)) ==> has_no_scope(scopes, next.use_) ==> {
            &&& resolve::ends(scopes, scope, way.imports[0], ns)
            &&& resolve::destination(scopes, scope, way.imports[0], ns) == (
                None::<ModuleDefId>,
                next,
            )
        },
{
    let fuel = way.imports.len();
    lemma_follow_way(scopes, scope, ns, way, 1);
    if let Some(ImportOrDef::Import(next)) = way.end(ns) {
        uses_are_looked_up_by_their_first_entry(scopes, next.use_, scope);
    }
    if resolve::follow(scopes, scope, way.imports[0], ns, fuel) is Some {
        resolve::destination_does_not_depend_on_steps(scopes, scope, way.imports[0], ns, fuel);
    }
}

/// The definition at the end of a way, if there is one.
pub open spec fn found(way: Way, ns: Ns) -> Option<ModuleDefId> {
    match way.end(ns) {
        Some(ImportOrDef::Def(def)) => Some(def),
        _ => None,
    }
}

/// A way that ends in a known scope.
pub open spec fn is_done(way: Way, ns: Ns) -> bool {
    !(way.end(ns) matches Some(ImportOrDef::Import(_)))
}

/// In each namespace an import stands for the definition at the end of its way, which is public and
/// comes without an import, whatever it stands for in the other namespaces. The types are looked for
/// from the import on at which the way of the macros ended, and the values from that of the types.
pub proof fn imports_stand_for_what_their_ways_end_at(
    scopes: UseScopes,
    scope: ItemScope,
    macros: Way,
    types: Way,
    values: Way,
)
    requires
        macros.leads(scopes, scope, Ns::Macros) && is_done(macros, Ns::Macros),
        types.leads(scopes, scope, Ns::Types) && is_done(types, Ns::Types),
        values.leads(scopes, scope, Ns::Values) && is_done(values, Ns::Values),
        types.imports[0] == macros.imports.last(),
        values.imports[0] == types.imports.last(),
    ensures
        resolve::all_end(scopes, scope, macros.imports[0]),
        ({
            let r = resolve::fully_resolved(scopes, scope, macros.imports[0]);
            &&& r.types is Some <==> found(types, Ns::Types) is Some
            &&& r.types matches Some(item) ==> Some(item.def) == found(types, Ns::Types) && item.vis
                == Visibility::Public && item.import is None
            &&& r.values is Some <==> found(values, Ns::Values) is Some
            &&& r.values matches Some(item) ==> Some(item.def) == found(values, Ns::Values)
                && item.vis == Visibility::Public && item.import is None
            &&& r.macros is Some <==> (found(macros, Ns::Macros) matches Some(
                ModuleDefId::MacroId(_),
            ))
            &&& r.macros matches Some(item) ==> Some(ModuleDefId::MacroId(item.def)) == found(
                macros,
                Ns::Macros,
            ) && item.vis == Visibility::Public && item.import is None
        }),
{
    ways_end_where_nothing_leads_on(scopes, scope, Ns::Macros, macros);
    ways_end_where_nothing_leads_on(scopes, scope, Ns::Types, types);
    ways_end_where_nothing_leads_on(scopes, scope, Ns::Values, values);
}

/// An import that the scope records as leading to definitions, and nowhere to another import, stands in
/// each namespace for exactly the definition that is recorded there.
pub proof fn recorded_definitions_are_found(scopes: UseScopes, scope: ItemScope, import: ImportId)
    requires
        !(record(scope, Ns::Types, import) matches Some(ImportOrDef::Import(_))),
        !(record(scope, Ns::Values, import) matches Some(ImportOrDef::Import(_))),
        !(record(scope, Ns::Macros, import) matches Some(ImportOrDef::Import(_))),
    ensures
        resolve::all_end(scopes, scope, import),
        ({
            let r = resolve::fully_resolved(scopes, scope, import);
            &&& r.types == match record(scope, Ns::Types, import) {
                Some(ImportOrDef::Def(def)) => Some(
                    TypesItem { def, vis: Visibility::Public, import: None },
                ),
                _ => None,
            }
            &&& r.values == match record(scope, Ns::Values, import) {
                Some(ImportOrDef::Def(def)) => Some(
                    ValuesItem { def, vis: Visibility::Public, import: None },
                ),
                _ => None,
            }
            &&& r.macros == match record(scope, Ns::Macros, import) {
                Some(ImportOrDef::Def(ModuleDefId::MacroId(def))) => Some(
                    MacrosItem { def, vis: Visibility::Public, import: None },
                ),
                _ => None,
            }
        }),
{
    let way = Way { imports: seq![import], scopes: seq![scope] };
    imports_stand_for_what_their_ways_end_at(scopes, scope, way, way, way);
}

} // verus!
