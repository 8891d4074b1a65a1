//! What a scope shows of itself, told by what is in it.

use super::censor;
use super::derives;
use super::derives::{DeriveCall, SpecInvocation};
use super::imports::{ImportId, ImportOrExternCrate, ImportOrGlob};
use super::keys::AstId;
use super::listing;
use super::names;
use super::query;
use super::resolve::Ns;
use super::scope::{find_entry, ItemScope};
use super::taking;
use super::update;
use super::ways;
use crate::ids::{AttrId, ImplId, ModuleDefId, ModuleId, TraitId, Visibility};
use crate::per_ns;
use crate::per_ns::{Item, ItemInNs, MacrosItem, PerNs, TypesItem, ValuesItem};
use crate::selection::{selection_grows, selects};
use crate::sorting;
use crate::thin::thin;
use vstd::prelude::*;

verus! {

// Namespaces of definitions.

/// A definition is a type if it is a module, a struct, an enum, a union, a variant, a trait, a type
/// alias or a built-in type. It is then seen as far as it says, through the import that it came by.
pub proof fn types_are_named_in_their_namespace(
    def: ModuleDefId,
    vis: Visibility,
    ctor_vis: Option<Visibility>,
    import: Option<ImportOrExternCrate>,
)
    ensures
        ({
            let r = per_ns::spec_from_def(def, vis, ctor_vis, import);
            &&& r.types is Some <==> (def is ModuleId || def is AdtId || def is EnumVariantId
                || def is TraitId || def is TypeAliasId || def is BuiltinType)
            &&& r.types matches Some(item) ==> item.def == def && item.vis == vis && item.import
                == import
        }),
{
}

/// A definition is a value if it is a function, a constant or a static, or if it is a struct or a
/// variant with a constructor, which is seen as far as the constructor can be.
pub proof fn values_are_named_in_their_namespace(
    def: ModuleDefId,
    vis: Visibility,
    ctor_vis: Option<Visibility>,
    import: Option<ImportOrExternCrate>,
    kept: Option<ImportOrGlob>,
)
    requires
        taking::kept_with_value(import, kept),
    ensures
        ({
            let r = per_ns::spec_from_def(def, vis, ctor_vis, import);
            let is_plain = def is FunctionId || def is ConstId || def is StaticId;
            let has_ctor = ctor_vis is Some && (def is EnumVariantId || (def is AdtId
                && def->AdtId_0 is StructId));
            &&& r.values is Some <==> is_plain || has_ctor
            &&& r.values matches Some(item) ==> item.def == def && item.import == kept && item.vis
                == if is_plain {
                vis
            } else {
                ctor_vis->0
            }
        }),
{
}

/// A definition is a macro if it is one.
pub proof fn macros_are_named_in_their_namespace(
    def: ModuleDefId,
    vis: Visibility,
    ctor_vis: Option<Visibility>,
    import: Option<ImportOrExternCrate>,
)
    ensures
        ({
            let r = per_ns::spec_from_def(def, vis, ctor_vis, import);
            &&& r.macros is Some <==> def is MacroId
            &&& r.macros matches Some(item) ==> ModuleDefId::MacroId(item.def) == def && item.vis
                == vis && item.import == import
        }),
{
}

// Censoring.

/// Hiding what a crate of procedural macros does not offer changes from where things can be seen, and
/// nothing else. The macros that stay as they are are the procedural ones that were not imported.
pub proof fn only_own_procedural_macros_stay_visible(
    types: Seq<(Seq<char>, TypesItem)>,
    values: Seq<(Seq<char>, ValuesItem)>,
    macros: Seq<(Seq<char>, MacrosItem)>,
    traits: Seq<(TraitId, Item<(), ImportId>)>,
    vis: Visibility,
)
    ensures
        censor::seen_from(types, vis).len() == types.len(),
        forall|i: int|
            0 <= i < types.len() ==> (#[trigger] censor::seen_from(types, vis)[i]).0 == types[i].0
                && censor::seen_from(types, vis)[i].1.def == types[i].1.def && censor::seen_from(
                types,
                vis,
            )[i].1.import == types[i].1.import && censor::seen_from(types, vis)[i].1.vis == vis,
        censor::seen_from(values, vis).len() == values.len(),
        forall|i: int|
            0 <= i < values.len() ==> (#[trigger] censor::seen_from(values, vis)[i]).0
                == values[i].0 && censor::seen_from(values, vis)[i].1.def == values[i].1.def
                && censor::seen_from(values, vis)[i].1.import == values[i].1.import
                && censor::seen_from(values, vis)[i].1.vis == vis,
        censor::censored_macros(macros, vis).len() == macros.len(),
        forall|i: int|
            0 <= i < macros.len() ==> {
                let r = #[trigger] censor::censored_macros(macros, vis)[i];
                let own = macros[i].1.def is ProcMacroId && macros[i].1.import is None;
                &&& r.0 == macros[i].0
                &&& r.1.def == macros[i].1.def
                &&& r.1.import == macros[i].1.import
                &&& own ==> r.1.vis == macros[i].1.vis
                &&& !own ==> r.1.vis == vis
            },
        censor::censored_traits(traits, vis).len() == traits.len(),
        forall|i: int|
            0 <= i < traits.len() ==> (#[trigger] censor::censored_traits(traits, vis)[i]).0
                == traits[i].0 && censor::censored_traits(traits, vis)[i].1.import
                == traits[i].1.import && censor::censored_traits(traits, vis)[i].1.vis == vis,
{
}

// Lists of names.

proof fn lemma_found<I>(s: Seq<(Seq<char>, I)>, name: Seq<char>, i: nat)
    ensures
        find_entry(s, name, i) is Some <==> exists|k: int|
            i <= k < s.len() && (#[trigger] s[k]).0 == name,
    decreases s.len() - i,
{
    if i < s.len() {
        lemma_found(s, name, i + 1);
        if s[i as int].0 != name && find_entry(s, name, i) is Some {
            let k = choose|k: int| i + 1 <= k < s.len() && (#[trigger] s[k]).0 == name;
            assert(s[k].0 == name);
        }
    }
}

/// The names of a scope are those with an entry in one of the namespaces, and those that are
/// unresolved. They are listed in the order of their text, each once, with what the name stands for.
pub proof fn all_names_are_listed(scope: ItemScope, r: Vec<(&String, PerNs)>, name: Seq<char>)
    requires
        scope.wf(),
        call_ensures(ItemScope::entries, (&scope,), r),
    ensures
        (exists|i: int| 0 <= i < r@.len() && (#[trigger] r@[i]).0@ == name) <==> ({
            ||| exists|k: int|
                0 <= k < scope.types_view().len() && (#[trigger] scope.types_view()[k]).0 == name
            ||| exists|k: int|
                0 <= k < scope.values_view().len() && (#[trigger] scope.values_view()[k]).0 == name
            ||| exists|k: int|
                0 <= k < scope.macros_view().len() && (#[trigger] scope.macros_view()[k]).0 == name
            ||| names::set_names(scope.unresolved@).contains(name)
        }),
        forall|i: int, j: int|
            0 <= i < j < r@.len() ==> sorting::text_le((#[trigger] r@[i]).0@, (#[trigger] r@[j]).0@)
                && r@[i].0@ != r@[j].0@,
        forall|i: int| 0 <= i < r@.len() ==> (#[trigger] r@[i]).1 == scope.spec_get(r@[i].0@),
{
    lemma_found(scope.types_view(), name, 0);
    lemma_found(scope.values_view(), name, 0);
    lemma_found(scope.macros_view(), name, 0);
    assert(listing::has_name(scope, name) <==> exists|i: int|
        0 <= i < r@.len() && (#[trigger] r@[i]).0@ == name);
}

/// All that can be seen is first the names and then the traits without one, each as a type with its
/// visibility and the import that brought it in.
pub proof fn traits_without_a_name_come_last(scope: ItemScope, r: Vec<(Option<&String>, PerNs)>)
    requires
        scope.wf(),
        call_ensures(ItemScope::resolutions, (&scope,), r),
    ensures
        ({
            let traits = thin(scope.unnamed_trait_imports);
            let n = r@.len() - traits.len();
            &&& n >= 0
            &&& forall|i: int| 0 <= i < r@.len() ==> ((#[trigger] r@[i]).0 is Some <==> i < n)
            &&& forall|i: int|
                n <= i < r@.len() ==> {
                    let shown = (#[trigger] r@[i]).1;
                    let given = traits[i - n];
                    &&& shown.values is None && shown.macros is None
                    &&& shown.types is Some
                    &&& shown.types->0.def == ModuleDefId::TraitId(given.0)
                    &&& shown.types->0.vis == given.1.vis
                    &&& shown.types->0.import is Some <==> given.1.import is Some
                    &&& given.1.import is Some ==> shown.types->0.import->0
                        == ImportOrExternCrate::Import(given.1.import->0)
                }
            &&& forall|i: int|
                0 <= i < n ==> (#[trigger] r@[i]).1 == scope.spec_get(r@[i].0->0@)
        }),
{
    let entries = choose|entries: Seq<(&String, PerNs)>| #[trigger]
        listing::listed(entries, scope) && listing::resolutions_listed(
            r@,
            entries,
            thin(scope.unnamed_trait_imports),
        );
    assert forall|i: int| 0 <= i < entries.len() implies (#[trigger] r@[i]).1 == scope.spec_get(
        r@[i].0->0@,
    ) by {
        assert(entries[i].1 == scope.spec_get(entries[i].0@));
    }
}

/// The imports of a scope are those that are recorded in one of the namespaces.
pub proof fn imports_are_those_recorded(scope: ItemScope, import: ImportId)
    ensures
        listing::has_import(scope, import) <==> ways::record(scope, Ns::Types, import) is Some
            || ways::record(scope, Ns::Values, import) is Some || ways::record(
            scope,
            Ns::Macros,
            import,
        ) is Some,
{
}

// The order of names and imports.

/// One text comes before another if it is its beginning, or if at the first byte where they differ it
/// has the smaller one.
pub proof fn texts_are_ordered_by_their_first_difference(a: Seq<u8>, b: Seq<u8>, i: int)
    requires
        0 <= i <= a.len(),
        i <= b.len(),
        forall|k: int| 0 <= k < i ==> #[trigger] a[k] == b[k],
    ensures
        i == a.len() ==> sorting::bytes_le(a, b),
        i < a.len() && i == b.len() ==> !sorting::bytes_le(a, b),
        i < a.len() && i < b.len() && a[i] != b[i] ==> (sorting::bytes_le(a, b) <==> a[i] < b[i]),
    decreases i,
{
    if i > 0 {
        assert(a[0] == b[0]);
        let (x, y) = (a.skip(1), b.skip(1));
        assert forall|k: int| 0 <= k < i - 1 implies #[trigger] x[k] == y[k] by {
            assert(a[k + 1] == b[k + 1]);
        }
        texts_are_ordered_by_their_first_difference(x, y, i - 1);
    }
}

// The names of a definition.

proof fn lemma_entries_of<D, I>(
    s: Seq<(Seq<char>, Item<D, I>)>,
    def: D,
    n: nat,
    keep: spec_fn(int) -> bool,
) -> (idx: Seq<int>)
    requires
        n <= s.len(),
        forall|i: int| #[trigger] keep(i) == (s[i].1.def == def),
    ensures
        selects(idx, n as int, keep),
        listing::entries_of(s, def, n).len() == idx.len(),
        forall|k: int|
            0 <= k < idx.len() ==> (#[trigger] listing::entries_of(s, def, n)[k]) == (
                s[idx[k]].0,
                s[idx[k]].1.vis,
                s[idx[k]].1.import is None,
            ),
    decreases n,
{
    if n == 0 {
        Seq::empty()
    } else {
        let before = lemma_entries_of(s, def, (n - 1) as nat, keep);
        selection_grows(before, n - 1, keep);
        if s[n - 1].1.def == def {
            assert(keep(n - 1));
            before.push(n - 1)
        } else {
            assert(!keep(n - 1));
            before
        }
    }
}

/// The names of a definition are those of its entries in the namespace that is asked, in order. Each
/// comes with the visibility of the entry, and counts as declared if no import brought it in.
pub proof fn definitions_have_the_names_of_their_entries(
    scope: ItemScope,
    item: ItemInNs,
    r: Vec<(&String, Visibility, bool)>,
) -> (idx: Seq<int>)
    requires
        scope.wf(),
        call_ensures(ItemScope::all_names_of, (&scope, item), r),
    ensures
        r@.len() == idx.len(),
        match item {
            ItemInNs::Types(def) => {
                let s = scope.types_view();
                &&& selects(idx, s.len() as int, |i: int| s[i].1.def == def)
                &&& forall|k: int|
                    0 <= k < idx.len() ==> (#[trigger] r@[k]).0@ == s[idx[k]].0 && r@[k].1
                        == s[idx[k]].1.vis && r@[k].2 == (s[idx[k]].1.import is None)
            },
            ItemInNs::Values(def) => {
                let s = scope.values_view();
                &&& selects(idx, s.len() as int, |i: int| s[i].1.def == def)
                &&& forall|k: int|
                    0 <= k < idx.len() ==> (#[trigger] r@[k]).0@ == s[idx[k]].0 && r@[k].1
                        == s[idx[k]].1.vis && r@[k].2 == (s[idx[k]].1.import is None)
            },
            ItemInNs::Macros(def) => {
                let s = scope.macros_view();
                &&& selects(idx, s.len() as int, |i: int| s[i].1.def == def)
                &&& forall|k: int|
                    0 <= k < idx.len() ==> (#[trigger] r@[k]).0@ == s[idx[k]].0 && r@[k].1
                        == s[idx[k]].1.vis && r@[k].2 == (s[idx[k]].1.import is None)
            },
        },
{
    let found = listing::found_names(r@);
    assert(found == listing::names_in(scope, item));
    assert(found.len() == r@.len());
    let idx = match item {
        ItemInNs::Types(def) => {
            let s = scope.types_view();
            lemma_entries_of(s, def, s.len(), |i: int| s[i].1.def == def)
        },
        ItemInNs::Values(def) => {
            let s = scope.values_view();
            lemma_entries_of(s, def, s.len(), |i: int| s[i].1.def == def)
        },
        ItemInNs::Macros(def) => {
            let s = scope.macros_view();
            lemma_entries_of(s, def, s.len(), |i: int| s[i].1.def == def)
        },
    };
    assert forall|k: int| 0 <= k < r@.len() implies #[trigger] listing::names_in(scope, item)[k]
        == (r@[k].0@, r@[k].1, r@[k].2) by {
        assert(found[k] == (r@[k].0@, r@[k].1, r@[k].2));
    }
    match item {
        ItemInNs::Types(def) => {
            let s = scope.types_view();
            assert forall|k: int| 0 <= k < idx.len() implies (#[trigger] r@[k]).0@ == s[idx[k]].0
                && r@[k].1 == s[idx[k]].1.vis && r@[k].2 == (s[idx[k]].1.import is None) by {
                assert(listing::names_in(scope, item)[k] == listing::entries_of(s, def, s.len())[k]);
            }
        },
        ItemInNs::Values(def) => {
            let s = scope.values_view();
            assert forall|k: int| 0 <= k < idx.len() implies (#[trigger] r@[k]).0@ == s[idx[k]].0
                && r@[k].1 == s[idx[k]].1.vis && r@[k].2 == (s[idx[k]].1.import is None) by {
                assert(listing::names_in(scope, item)[k] == listing::entries_of(s, def, s.len())[k]);
            }
        },
        ItemInNs::Macros(def) => {
            let s = scope.macros_view();
            assert forall|k: int| 0 <= k < idx.len() implies (#[trigger] r@[k]).0@ == s[idx[k]].0
                && r@[k].1 == s[idx[k]].1.vis && r@[k].2 == (s[idx[k]].1.import is None) by {
                assert(listing::names_in(scope, item)[k] == listing::entries_of(s, def, s.len())[k]);
            }
        },
    }
    idx
}

// Impls, modules and traits.

proof fn lemma_impls(s: Seq<(ImplId, bool)>, for_trait: bool) -> (idx: Seq<int>)
    ensures
        selects(idx, s.len() as int, |i: int| s[i].1 == for_trait),
        query::impls_with(s, for_trait).len() == idx.len(),
        forall|k: int|
            0 <= k < idx.len() ==> (#[trigger] query::impls_with(s, for_trait)[k]) == s[idx[k]].0,
    decreases s.len(),
{
    let keep = |i: int| s[i].1 == for_trait;
    if s.len() == 0 {
        Seq::empty()
    } else {
        let t = s.drop_last();
        let n = t.len() as int;
        let before = lemma_impls(t, for_trait);
        assert(selects(before, n, keep)) by {
            let shorter = |i: int| t[i].1 == for_trait;
            assert forall|i: int| 0 <= i < n && #[trigger] keep(i) implies before.contains(i) by {
                assert(shorter(i));
            }
            assert forall|k: int| 0 <= k < before.len() implies 0 <= #[trigger] before[k] < n && keep(
                before[k],
            ) by {
                assert(shorter(before[k]));
            }
        }
        selection_grows(before, n, keep);
        assert(keep(n) <==> s.last().1 == for_trait);
        if s.last().1 == for_trait {
            before.push(n)
        } else {
            before
        }
    }
}

/// The impls for traits are those that were defined as such, and the inherent ones are the others, in
/// the order in which they were defined.
pub proof fn impls_are_for_traits_or_not(
    scope: ItemScope,
    for_traits: Vec<ImplId>,
    inherent: Vec<ImplId>,
) -> (r: (Seq<int>, Seq<int>))
    requires
        call_ensures(ItemScope::trait_impls, (&scope,), for_traits),
        call_ensures(ItemScope::inherent_impls, (&scope,), inherent),
    ensures
        ({
            let s = thin(scope.impls);
            &&& selects(r.0, s.len() as int, |i: int| s[i].1)
            &&& for_traits@.len() == r.0.len()
            &&& forall|k: int|
                0 <= k < r.0.len() ==> (#[trigger] for_traits@[k]) == s[r.0[k]].0
            &&& selects(r.1, s.len() as int, |i: int| !s[i].1)
            &&& inherent@.len() == r.1.len()
            &&& forall|k: int| 0 <= k < r.1.len() ==> (#[trigger] inherent@[k]) == s[r.1[k]].0
        }),
{
    let s = thin(scope.impls);
    let a = lemma_impls(s, true);
    let b = lemma_impls(s, false);
    let (x, y) = (|i: int| s[i].1 == true, |i: int| s[i].1 == false);
    let (p, q) = (|i: int| s[i].1, |i: int| !s[i].1);
    assert(selects(a, s.len() as int, p)) by {
        assert forall|i: int| 0 <= i < s.len() && #[trigger] p(i) implies a.contains(i) by {
            assert(x(i));
        }
        assert forall|k: int| 0 <= k < a.len() implies 0 <= #[trigger] a[k] < s.len() && p(a[k]) by {
            assert(x(a[k]));
        }
    }
    assert(selects(b, s.len() as int, q)) by {
        assert forall|i: int| 0 <= i < s.len() && #[trigger] q(i) implies b.contains(i) by {
            assert(y(i));
        }
        assert forall|k: int| 0 <= k < b.len() implies 0 <= #[trigger] b[k] < s.len() && q(b[k]) by {
            assert(y(b[k]));
        }
    }
    (a, b)
}

proof fn lemma_modules(s: Seq<(Seq<char>, TypesItem)>) -> (idx: Seq<int>)
    ensures
        selects(idx, s.len() as int, |i: int| s[i].1.def is ModuleId),
        query::modules_of(s).len() == idx.len(),
        forall|k: int|
            0 <= k < idx.len() ==> (#[trigger] query::modules_of(s)[k]) == (
                s[idx[k]].1.def->ModuleId_0,
                s[idx[k]].1.vis,
            ),
    decreases s.len(),
{
    let keep = |i: int| s[i].1.def is ModuleId;
    if s.len() == 0 {
        Seq::empty()
    } else {
        let t = s.drop_last();
        let n = t.len() as int;
        let before = lemma_modules(t);
        assert(selects(before, n, keep)) by {
            let shorter = |i: int| t[i].1.def is ModuleId;
            assert forall|i: int| 0 <= i < n && #[trigger] keep(i) implies before.contains(i) by {
                assert(shorter(i));
            }
            assert forall|k: int| 0 <= k < before.len() implies 0 <= #[trigger] before[k] < n && keep(
                before[k],
            ) by {
                assert(shorter(before[k]));
            }
        }
        selection_grows(before, n, keep);
        assert(keep(n) <==> s.last().1.def is ModuleId);
        if s.last().1.def is ModuleId {
            before.push(n)
        } else {
            before
        }
    }
}

/// The modules of a scope are the types that are modules, in order, with their visibilities.
pub proof fn modules_are_types(scope: ItemScope, r: Vec<(ModuleId, Visibility)>) -> (idx: Seq<int>)
    requires
        scope.wf(),
        call_ensures(ItemScope::modules_in_scope, (&scope,), r),
    ensures
        ({
            let s = scope.types_view();
            &&& selects(idx, s.len() as int, |i: int| s[i].1.def is ModuleId)
            &&& r@.len() == idx.len()
            &&& forall|k: int|
                0 <= k < idx.len() ==> ModuleDefId::ModuleId((#[trigger] r@[k]).0)
                    == s[idx[k]].1.def && r@[k].1 == s[idx[k]].1.vis
        }),
{
    let s = scope.types_view();
    let idx = lemma_modules(s);
    let keep = |i: int| s[i].1.def is ModuleId;
    assert forall|k: int| 0 <= k < idx.len() implies ModuleDefId::ModuleId((#[trigger] r@[k]).0)
        == s[idx[k]].1.def && r@[k].1 == s[idx[k]].1.vis by {
        assert(keep(idx[k]));
        assert(query::modules_of(s)[k] == r@[k]);
    }
    idx
}

proof fn lemma_traits(s: Seq<(Seq<char>, TypesItem)>) -> (idx: Seq<int>)
    ensures
        selects(idx, s.len() as int, |i: int| s[i].1.def is TraitId),
        query::traits_of(s).len() == idx.len(),
        forall|k: int|
            0 <= k < idx.len() ==> (#[trigger] query::traits_of(s)[k])
                == s[idx[k]].1.def->TraitId_0,
    decreases s.len(),
{
    let keep = |i: int| s[i].1.def is TraitId;
    if s.len() == 0 {
        Seq::empty()
    } else {
        let t = s.drop_last();
        let n = t.len() as int;
        let before = lemma_traits(t);
        assert(selects(before, n, keep)) by {
            let shorter = |i: int| t[i].1.def is TraitId;
            assert forall|i: int| 0 <= i < n && #[trigger] keep(i) implies before.contains(i) by {
                assert(shorter(i));
            }
            assert forall|k: int| 0 <= k < before.len() implies 0 <= #[trigger] before[k] < n && keep(
                before[k],
            ) by {
                assert(shorter(before[k]));
            }
        }
        selection_grows(before, n, keep);
        assert(keep(n) <==> s.last().1.def is TraitId);
        if s.last().1.def is TraitId {
            before.push(n)
        } else {
            before
        }
    }
}

/// The traits of a scope are the types that are traits, in order, and then those without a name.
pub proof fn traits_are_types_or_have_no_name(scope: ItemScope, r: Vec<TraitId>) -> (idx: Seq<int>)
    requires
        scope.wf(),
        call_ensures(ItemScope::traits, (&scope,), r),
    ensures
        ({
            let s = scope.types_view();
            let unnamed = thin(scope.unnamed_trait_imports);
            &&& selects(idx, s.len() as int, |i: int| s[i].1.def is TraitId)
            &&& r@.len() == idx.len() + unnamed.len()
            &&& forall|k: int|
                0 <= k < idx.len() ==> ModuleDefId::TraitId(#[trigger] r@[k]) == s[idx[k]].1.def
            &&& forall|k: int|
                0 <= k < unnamed.len() ==> #[trigger] r@[idx.len() + k] == unnamed[k].0
        }),
{
    let s = scope.types_view();
    let idx = lemma_traits(s);
    let keep = |i: int| s[i].1.def is TraitId;
    assert forall|k: int| 0 <= k < idx.len() implies ModuleDefId::TraitId(#[trigger] r@[k])
        == s[idx[k]].1.def by {
        assert(keep(idx[k]));
        assert(query::traits_of(s)[k] == r@[k]);
    }
    idx
}

proof fn lemma_find_trait(s: Seq<(TraitId, Item<(), ImportId>)>, tr: TraitId, i: nat, k: int)
    requires
        i <= k < s.len(),
        s[k].0 == tr,
        forall|j: int| i <= j < k ==> (#[trigger] s[j]).0 != tr,
    ensures
        query::find_trait(s, tr, i) == Some(k as nat),
    decreases k - i,
{
    if i < k {
        assert(s[i as int].0 != tr);
        lemma_find_trait(s, tr, i + 1, k);
    }
}

proof fn lemma_no_trait(s: Seq<(TraitId, Item<(), ImportId>)>, tr: TraitId, i: nat)
    requires
        forall|j: int| i <= j < s.len() ==> (#[trigger] s[j]).0 != tr,
    ensures
        query::find_trait(s, tr, i) is None,
    decreases s.len() - i,
{
    if i < s.len() {
        lemma_no_trait(s, tr, i + 1);
    }
}

/// A trait without a name is seen from where the first import that brings it in says.
pub proof fn traits_without_a_name_are_seen_by_their_first_import(
    scope: ItemScope,
    tr: TraitId,
    r: Option<Visibility>,
    k: int,
)
    requires
        call_ensures(ItemScope::unnamed_trait_vis, (&scope, tr), r),
    ensures
        ({
            let s = thin(scope.unnamed_trait_imports);
            &&& 0 <= k < s.len() && s[k].0 == tr && (forall|j: int|
                0 <= j < k ==> (#[trigger] s[j]).0 != tr) ==> r == Some(s[k].1.vis)
            &&& (forall|j: int| 0 <= j < s.len() ==> (#[trigger] s[j]).0 != tr) ==> r is None
        }),
{
    let s = thin(scope.unnamed_trait_imports);
    if 0 <= k < s.len() && s[k].0 == tr && (forall|j: int| 0 <= j < k ==> (#[trigger] s[j]).0 != tr) {
        lemma_find_trait(s, tr, 0, k);
    }
    if forall|j: int| 0 <= j < s.len() ==> (#[trigger] s[j]).0 != tr {
        lemma_no_trait(s, tr, 0);
    }
}

// Derives.

proof fn lemma_find_attr(s: Seq<SpecInvocation>, id: AttrId, i: nat, k: int)
    requires
        i <= k < s.len(),
        s[k].attr_id == id,
        forall|j: int| i <= j < k ==> (#[trigger] s[j]).attr_id != id,
    ensures
        derives::find_attr(s, id, i) == Some(k as nat),
    decreases k - i,
{
    if i < k {
        assert(s[i as int].attr_id != id);
        lemma_find_attr(s, id, i + 1, k);
    }
}

proof fn lemma_no_attr(s: Seq<SpecInvocation>, id: AttrId, i: nat)
    requires
        forall|j: int| i <= j < s.len() ==> (#[trigger] s[j]).attr_id != id,
    ensures
        derives::find_attr(s, id, i) is None,
    decreases s.len() - i,
{
    if i < s.len() {
        lemma_no_attr(s, id, i + 1);
    }
}

/// A derive that becomes known is recorded at its place in the first attribute with the id, and nothing
/// else changes. Without such an attribute nothing changes at all.
pub proof fn derives_are_recorded_in_place(
    all: Map<AstId, Seq<SpecInvocation>>,
    adt: AstId,
    call: DeriveCall,
    id: AttrId,
    idx: int,
    k: int,
)
    requires
        all.contains_key(adt),
        0 <= k < all[adt].len(),
        all[adt][k].attr_id == id,
        forall|j: int| 0 <= j < k ==> (#[trigger] all[adt][j]).attr_id != id,
        0 <= idx < all[adt][k].calls.len(),
    ensures
        ({
            let r = update::with_derive(all, adt, call, id, idx);
            &&& forall|other: AstId|
                other != adt ==> (#[trigger] r.contains_key(other) <==> all.contains_key(other))
            &&& forall|other: AstId|
                other != adt && all.contains_key(other) ==> #[trigger] r[other] == all[other]
            &&& r.contains_key(adt)
            &&& r[adt].len() == all[adt].len()
            &&& forall|j: int|
                0 <= j < all[adt].len() && j != k ==> #[trigger] r[adt][j] == all[adt][j]
            &&& r[adt][k].attr_id == id
            &&& r[adt][k].attr_call_id == all[adt][k].attr_call_id
            &&& r[adt][k].calls.len() == all[adt][k].calls.len()
            &&& r[adt][k].calls[idx] == Some(call)
            &&& forall|j: int|
                0 <= j < all[adt][k].calls.len() && j != idx ==> #[trigger] r[adt][k].calls[j]
                    == all[adt][k].calls[j]
        }),
{
    lemma_find_attr(all[adt], id, 0, k);
}

/// A derive of an attribute that is not recorded is dropped.
pub proof fn derives_without_an_attribute_are_dropped(
    all: Map<AstId, Seq<SpecInvocation>>,
    adt: AstId,
    call: DeriveCall,
    id: AttrId,
    idx: int,
)
    requires
        all.contains_key(adt) ==> forall|j: int|
            0 <= j < all[adt].len() ==> (#[trigger] all[adt][j]).attr_id != id,
    ensures
        update::with_derive(all, adt, call, id, idx) == all,
{
    if all.contains_key(adt) {
        lemma_no_attr(all[adt], id, 0);
    }
}

} // verus!
