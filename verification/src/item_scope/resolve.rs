//! Following the imports of scopes to what they lead to.

use super::imports::{ImportId, ImportOrDef, ImportOrExternCrate};
use super::scope::ItemScope;
use crate::ids::{ModuleDefId, UseId, Visibility};
use crate::per_ns::{Item, PerNs};
use vstd::prelude::*;

verus! {

/// The scopes that use items are in.
pub struct UseScopes<'a> {
    pub scopes: Vec<(UseId, &'a ItemScope)>,
}

impl<'a> UseScopes<'a> {
    /// The scope of a use item, by the first of the entries from `i` on that are for it.
    pub open spec fn scope_from(self, use_: UseId, i: nat) -> Option<ItemScope>
        decreases self.scopes@.len() - i,
    {
        if i >= self.scopes@.len() {
            None
        } else if self.scopes@[i as int].0 == use_ {
            Some(*self.scopes@[i as int].1)
        } else {
            self.scope_from(use_, i + 1)
        }
    }

    pub fn scope(&self, use_: UseId) -> (r: Option<&'a ItemScope>)
        ensures
            self.scope_from(use_, 0) == (match r {
                Some(s) => Some(*s),
                None => None,
            }),
    {
        let mut i: usize = 0;
        while i < self.scopes.len()
            invariant
                i <= self.scopes@.len(),
                self.scope_from(use_, 0) == self.scope_from(use_, i as nat),
            decreases self.scopes@.len() - i,
        {
            if self.scopes[i].0 == use_ {
                return Some(self.scopes[i].1);
            }
            i = i + 1;
        }
        None
    }
}

#[derive(Clone, Copy, PartialEq, Eq, Structural)]
pub enum Ns {
    Types,
    Values,
    Macros,
}

pub open spec fn imports_in(scope: ItemScope, ns: Ns) -> Map<ImportOrExternCrate, ImportOrDef> {
    match ns {
        Ns::Types => scope.use_imports_types@,
        Ns::Values => scope.use_imports_values@,
        Ns::Macros => scope.use_imports_macros@,
    }
}

/// Where an import leads in at most `fuel` steps: the definition at the end, if there is one, and
/// the last import on the way. A glob, an extern crate, an import that is not recorded and a use item
/// of an unknown scope end the way without a definition.
pub open spec fn follow(
    scopes: UseScopes,
    scope: ItemScope,
    import: ImportId,
    ns: Ns,
    fuel: nat,
) -> Option<(Option<ModuleDefId>, ImportId)>
    decreases fuel,
{
    if fuel == 0 {
        None
    } else {
        let key = ImportOrExternCrate::Import(import);
        if !imports_in(scope, ns).contains_key(key) {
            Some((None, import))
        } else {
            match imports_in(scope, ns)[key] {
                ImportOrDef::Import(i) => match scopes.scope_from(i.use_, 0) {
                    Some(next) => follow(scopes, next, i, ns, (fuel - 1) as nat),
                    None => Some((None, i)),
                },
                ImportOrDef::Def(def) => Some((Some(def), import)),
                _ => Some((None, import)),
            }
        }
    }
}

/// Whether following an import comes to an end.
pub open spec fn ends(scopes: UseScopes, scope: ItemScope, import: ImportId, ns: Ns) -> bool {
    exists|fuel: nat| (#[trigger] follow(scopes, scope, import, ns, fuel)) is Some
}

/// Where an import leads.
pub open spec fn destination(scopes: UseScopes, scope: ItemScope, import: ImportId, ns: Ns) -> (
    Option<ModuleDefId>,
    ImportId,
) {
    let fuel = choose|fuel: nat| (#[trigger] follow(scopes, scope, import, ns, fuel)) is Some;
    follow(scopes, scope, import, ns, fuel)->0
}

/// More steps do not change where an import leads.
proof fn lemma_follow_unique(
    scopes: UseScopes,
    scope: ItemScope,
    import: ImportId,
    ns: Ns,
    a: nat,
    b: nat,
)
    requires
        follow(scopes, scope, import, ns, a) is Some,
        follow(scopes, scope, import, ns, b) is Some,
    ensures
        follow(scopes, scope, import, ns, a) == follow(scopes, scope, import, ns, b),
    decreases a,
{
    let key = ImportOrExternCrate::Import(import);
    if imports_in(scope, ns).contains_key(key) {
        if let ImportOrDef::Import(i) = imports_in(scope, ns)[key] {
            if let Some(next) = scopes.scope_from(i.use_, 0) {
                lemma_follow_unique(scopes, next, i, ns, (a - 1) as nat, (b - 1) as nat);
            }
        }
    }
}

fn import_in(scope: &ItemScope, import: ImportId, ns: Ns) -> (r: Option<ImportOrDef>)
    ensures
        r == (if imports_in(*scope, ns).contains_key(ImportOrExternCrate::Import(import)) {
            Some(imports_in(*scope, ns)[ImportOrExternCrate::Import(import)])
        } else {
            None
        }),
{
    match ns {
        Ns::Types => scope.use_imports_types.get(ImportOrExternCrate::Import(import)),
        Ns::Values => scope.use_imports_values.get(ImportOrExternCrate::Import(import)),
        Ns::Macros => scope.use_imports_macros.get(ImportOrExternCrate::Import(import)),
    }
}

/// Follows an import to its end.
fn follow_import(scopes: &UseScopes, scope: &ItemScope, first: ImportId, ns: Ns) -> (r: (
    Option<ModuleDefId>,
    ImportId,
))
    requires
        ends(*scopes, *scope, first, ns),
    ensures
        r == destination(*scopes, *scope, first, ns),
{
    let ghost target = destination(*scopes, *scope, first, ns);
    let ghost mut fuel = choose|fuel: nat| (#[trigger] follow(*scopes, *scope, first, ns, fuel)) is Some;
    let mut at = scope;
    let mut import = first;
    loop
        invariant
            target == destination(*scopes, *scope, first, ns),
            follow(*scopes, *at, import, ns, fuel) == Some(target),
        decreases fuel,
    {
        match import_in(at, import, ns) {
            Some(ImportOrDef::Import(i)) => {
                import = i;
                match scopes.scope(i.use_) {
                    Some(next) => {
                        at = next;
                    },
                    None => {
                        return (None, import);
                    },
                }
            },
            Some(ImportOrDef::Def(def)) => {
                return (Some(def), import);
            },
            _ => {
                return (None, import);
            },
        }
        proof {
            fuel = (fuel - 1) as nat;
        }
    }
}

/// Whether an import comes to an end in all namespaces. Each is followed from the import at which the
/// one before ended.
pub open spec fn all_end(scopes: UseScopes, scope: ItemScope, import: ImportId) -> bool {
    &&& ends(scopes, scope, import, Ns::Macros)
    &&& {
        let second = destination(scopes, scope, import, Ns::Macros).1;
        &&& ends(scopes, scope, second, Ns::Types)
        &&& ends(scopes, scope, destination(scopes, scope, second, Ns::Types).1, Ns::Values)
    }
}

/// What an import stands for in the end.
pub open spec fn fully_resolved(scopes: UseScopes, scope: ItemScope, import: ImportId) -> PerNs {
    let macros = destination(scopes, scope, import, Ns::Macros);
    let types = destination(scopes, scope, macros.1, Ns::Types);
    let values = destination(scopes, scope, types.1, Ns::Values);
    PerNs {
        types: match types.0 {
            Some(def) => Some(Item { def, vis: Visibility::Public, import: None }),
            None => None,
        },
        values: match values.0 {
            Some(def) => Some(Item { def, vis: Visibility::Public, import: None }),
            None => None,
        },
        macros: match macros.0 {
            Some(ModuleDefId::MacroId(def)) => Some(
                Item { def, vis: Visibility::Public, import: None },
            ),
            _ => None,
        },
    }
}

impl ItemScope {
    /// What an import of the scope stands for, through all imports on the way.
    pub fn fully_resolve_import(&self, scopes: &UseScopes, import: ImportId) -> (r: PerNs)
        requires
            all_end(*scopes, *self, import),
        ensures
            r == fully_resolved(*scopes, *self, import),
    {
        let mut res = PerNs::none();
        let (def, import) = follow_import(scopes, self, import, Ns::Macros);
        if let Some(ModuleDefId::MacroId(def)) = def {
            res.macros = Some(Item { def, vis: Visibility::Public, import: None });
        }
        let (def, import) = follow_import(scopes, self, import, Ns::Types);
        if let Some(def) = def {
            res.types = Some(Item { def, vis: Visibility::Public, import: None });
        }
        let (def, _) = follow_import(scopes, self, import, Ns::Values);
        if let Some(def) = def {
            res.values = Some(Item { def, vis: Visibility::Public, import: None });
        }
        res
    }
}

/// How many steps are needed makes no difference to where an import leads.
pub proof fn destination_does_not_depend_on_steps(
    scopes: UseScopes,
    scope: ItemScope,
    import: ImportId,
    ns: Ns,
    fuel: nat,
)
    requires
        follow(scopes, scope, import, ns, fuel) is Some,
    ensures
        ends(scopes, scope, import, ns),
        follow(scopes, scope, import, ns, fuel) == Some(destination(scopes, scope, import, ns)),
{
    let other = choose|other: nat| (#[trigger] follow(scopes, scope, import, ns, other)) is Some;
    lemma_follow_unique(scopes, scope, import, ns, fuel, other);
}

} // verus!
