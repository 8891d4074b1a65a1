//! What bringing a name into a scope does, namespace by namespace.

use super::imports::{ImportOrDef, ImportOrExternCrate, ImportOrGlob};
use super::names;
use super::push::{
    has_name, macros_ns, module_number, push_macro, push_type, push_value, pushed, types_ns, values_ns,
    PerNsGlobImports,
};
use super::scope::{find_entry, ItemScope};
use crate::ids::{ModuleDefId, ModuleId};
use crate::per_ns::{MacrosItem, PerNs, TypesItem, ValuesItem};
use vstd::prelude::*;

verus! {

/// No entry has the name.
pub open spec fn is_absent<I>(s: Seq<(Seq<char>, I)>, name: Seq<char>) -> bool {
    forall|i: int| 0 <= i < s.len() ==> (#[trigger] s[i]).0 != name
}

/// The entry at the place `i`, and no other, has the name.
pub open spec fn is_only_at<I>(s: Seq<(Seq<char>, I)>, name: Seq<char>, i: int) -> bool {
    &&& 0 <= i < s.len()
    &&& forall|j: int| 0 <= j < s.len() ==> ((#[trigger] s[j]).0 == name <==> j == i)
}

proof fn lemma_find<I>(s: Seq<(Seq<char>, I)>, name: Seq<char>, i: nat)
    ensures
        find_entry(s, name, i) matches Some(k) ==> i <= k < s.len() && s[k as int].0 == name,
        find_entry(s, name, i) is None ==> forall|j: int|
            i <= j < s.len() ==> (#[trigger] s[j]).0 != name,
    decreases s.len() - i,
{
    if i < s.len() && s[i as int].0 != name {
        lemma_find(s, name, i + 1);
    }
}

/// A name stands for what is entered under it, and for nothing in the namespaces without an entry.
pub proof fn names_stand_for_their_entries(scope: ItemScope, name: Seq<char>, i: int)
    ensures
        is_only_at(scope.types_view(), name, i) ==> scope.spec_get(name).types == Some(
            scope.types_view()[i].1,
        ),
        is_absent(scope.types_view(), name) ==> scope.spec_get(name).types is None,
        is_only_at(scope.values_view(), name, i) ==> scope.spec_get(name).values == Some(
            scope.values_view()[i].1,
        ),
        is_absent(scope.values_view(), name) ==> scope.spec_get(name).values is None,
        is_only_at(scope.macros_view(), name, i) ==> scope.spec_get(name).macros == Some(
            scope.macros_view()[i].1,
        ),
        is_absent(scope.macros_view(), name) ==> scope.spec_get(name).macros is None,
{
    lemma_find(scope.types_view(), name, 0);
    lemma_find(scope.values_view(), name, 0);
    lemma_find(scope.macros_view(), name, 0);
}

/// A name that has an entry has one only.
pub proof fn names_are_entered_once(scope: ItemScope, name: Seq<char>)
    requires
        scope.wf(),
    ensures
        is_absent(scope.types_view(), name) || exists|i: int|
            is_only_at(scope.types_view(), name, i),
        is_absent(scope.values_view(), name) || exists|i: int|
            is_only_at(scope.values_view(), name, i),
        is_absent(scope.macros_view(), name) || exists|i: int|
            is_only_at(scope.macros_view(), name, i),
{
    if !is_absent(scope.types_view(), name) {
        let s = scope.types_view();
        let i = choose|i: int| 0 <= i < s.len() && (#[trigger] s[i]).0 == name;
        assert forall|j: int| 0 <= j < s.len() implies ((#[trigger] s[j]).0 == name <==> j == i) by {
            let e = names::entries(scope.types);
            assert(e[i].0@ == s[i].0 && e[j].0@ == s[j].0);
        }
        assert(is_only_at(s, name, i));
    }
    if !is_absent(scope.values_view(), name) {
        let s = scope.values_view();
        let i = choose|i: int| 0 <= i < s.len() && (#[trigger] s[i]).0 == name;
        assert forall|j: int| 0 <= j < s.len() implies ((#[trigger] s[j]).0 == name <==> j == i) by {
            let e = names::entries(scope.values);
            assert(e[i].0@ == s[i].0 && e[j].0@ == s[j].0);
        }
        assert(is_only_at(s, name, i));
    }
    if !is_absent(scope.macros_view(), name) {
        let s = scope.macros_view();
        let i = choose|i: int| 0 <= i < s.len() && (#[trigger] s[i]).0 == name;
        assert forall|j: int| 0 <= j < s.len() implies ((#[trigger] s[j]).0 == name <==> j == i) by {
            let e = names::entries(scope.macros);
            assert(e[i].0@ == s[i].0 && e[j].0@ == s[j].0);
        }
        assert(is_only_at(s, name, i));
    }
}

/// A scope together with the names that globs brought into it and into others.
pub type Names = (ItemScope, PerNsGlobImports);

/// Where an item comes from: the import that it was brought in by before, or else its definition.
pub open spec fn origin(import: Option<ImportOrExternCrate>, def: ModuleDefId) -> ImportOrDef {
    if import is None {
        ImportOrDef::Def(def)
    } else if let Some(ImportOrExternCrate::Import(i)) = import {
        ImportOrDef::Import(i)
    } else if let Some(ImportOrExternCrate::Glob(i)) = import {
        ImportOrDef::Glob(i)
    } else {
        ImportOrDef::ExternCrate(import->0->ExternCrate_0)
    }
}

/// An import of a value. It is no extern crate.
pub open spec fn value_origin(import: Option<ImportOrGlob>, def: ModuleDefId) -> ImportOrDef {
    if import is None {
        ImportOrDef::Def(def)
    } else if let Some(ImportOrGlob::Import(i)) = import {
        ImportOrDef::Import(i)
    } else {
        ImportOrDef::Glob(import->0->Glob_0)
    }
}

/// How an import of a value is kept with the value: an extern crate is not.
pub open spec fn kept_with_value(import: Option<ImportOrExternCrate>, kept: Option<ImportOrGlob>) -> bool {
    &&& kept is None <==> import is None || import->0 is ExternCrate
    &&& kept matches Some(ImportOrGlob::Import(i)) ==> import == Some(
        ImportOrExternCrate::Import(i),
    )
    &&& kept matches Some(ImportOrGlob::Glob(i)) ==> import == Some(ImportOrExternCrate::Glob(i))
}


// The types.

/// The namespace of the types is left as it was.
pub open spec fn types_are_kept(before: Names, after: Names) -> bool {
    &&& after.0.types_view() == before.0.types_view()
    &&& after.0.use_imports_types@ == before.0.use_imports_types@
    &&& names::set_module_names(after.1.types@) == names::set_module_names(before.1.types@)
}

/// The import that brought in the types leads to where they come from, if it is one that is
/// recorded.
pub open spec fn types_are_recorded(
    before: Names,
    def: PerNs,
    import: Option<ImportOrExternCrate>,
    after: Names,
) -> bool {
    if import is None {
        after.0.use_imports_types@ == before.0.use_imports_types@
    } else {
        after.0.use_imports_types@ == before.0.use_imports_types@.insert(
            import->0,
            origin(def.types->0.import, def.types->0.def),
        )
    }
}

/// What stands for nothing among the types leaves them as they were, whatever it stands for
/// elsewhere.
pub proof fn no_types_keep_the_types(
    before: Names,
    module: ModuleId,
    name: Seq<char>,
    def: PerNs,
    import: Option<ImportOrExternCrate>,
    after: Names,
    changed: bool,
)
    requires
        pushed(before, module, name, def, import, after, changed),
        def.types is None,
    ensures
        types_are_kept(before, after),
{
    let (a, b) = (
        types_ns(before.0, before.1.types),
        types_ns(after.0, after.1.types),
    );
    assert(a.items == before.0.types_view() && b.items == after.0.types_view());
    assert(a.resolutions == before.0.use_imports_types@);
    assert(b.resolutions == after.0.use_imports_types@);
}

/// A name that stands for nothing among the types yet takes what it is given there, with the
/// definition and the visibility it comes with and the import that brings it in, whatever it is given
/// elsewhere. It counts as brought in by a glob if the import is one.
pub proof fn new_types_are_taken_in(
    before: Names,
    module: ModuleId,
    name: Seq<char>,
    def: PerNs,
    import: Option<ImportOrExternCrate>,
    after: Names,
    changed: bool,
)
    requires
        pushed(before, module, name, def, import, after, changed),
        def.types is Some,
        is_absent(before.0.types_view(), name),
    ensures
        after.0.types_view() == before.0.types_view().push(
            (name, TypesItem { def: def.types->0.def, vis: def.types->0.vis, import: import }),
        ),
        types_are_recorded(before, def, import, after),
        has_name(after.1.types, module, name) <==> (import is Some && import->0 is Glob),
        forall|m: u64, n: Seq<char>|
            (m, n) != (module_number(module), name) ==> (#[trigger] names::set_module_names(
                after.1.types@,
            ).contains((m, n)) <==> names::set_module_names(before.1.types@).contains((m, n))),
        changed,
{
    let (a, b) = (
        types_ns(before.0, before.1.types),
        types_ns(after.0, after.1.types),
    );
    assert(a.items == before.0.types_view() && b.items == after.0.types_view());
    assert(a.resolutions == before.0.use_imports_types@);
    assert(b.resolutions == after.0.use_imports_types@);
    lemma_find(before.0.types_view(), name, 0);
}

/// A name that stands for something among the types keeps it against a glob. It gives way to what is
/// not from a glob if a glob brought it in, or if the same import leads to another definition now. In
/// all other cases it stays.
pub proof fn types_give_way_to_named_imports(
    before: Names,
    module: ModuleId,
    name: Seq<char>,
    def: PerNs,
    import: Option<ImportOrExternCrate>,
    after: Names,
    changed: bool,
    i: int,
)
    requires
        pushed(before, module, name, def, import, after, changed),
        def.types is Some,
        is_only_at(before.0.types_view(), name, i),
    ensures
        import is Some && import->0 is Glob ==> types_are_kept(before, after),
        !(import is Some && import->0 is Glob) ==> {
            let entry = before.0.types_view()[i].1;
            let from_glob = has_name(before.1.types, module, name);
            let leads_elsewhere = import is Some && entry.import == import && entry.def != def.types->0.def;
            &&& !from_glob && !leads_elsewhere ==> types_are_kept(before, after)
            &&& from_glob || leads_elsewhere ==> {
                &&& after.0.types_view() == before.0.types_view().update(
                    i,
                    (name, TypesItem { def: def.types->0.def, vis: def.types->0.vis, import: import }),
                )
                &&& types_are_recorded(before, def, import, after)
                &&& !has_name(after.1.types, module, name)
                &&& forall|m: u64, n: Seq<char>|
                    (m, n) != (module_number(module), name) ==> (
                    #[trigger] names::set_module_names(after.1.types@).contains((m, n))
                        <==> names::set_module_names(before.1.types@).contains((m, n)))
                &&& changed
            }
        },
{
    let (a, b) = (
        types_ns(before.0, before.1.types),
        types_ns(after.0, after.1.types),
    );
    assert(a.items == before.0.types_view() && b.items == after.0.types_view());
    assert(a.resolutions == before.0.use_imports_types@);
    assert(b.resolutions == after.0.use_imports_types@);
    lemma_find(before.0.types_view(), name, 0);
}

// The values.

/// The namespace of the values is left as it was.
pub open spec fn values_are_kept(before: Names, after: Names) -> bool {
    &&& after.0.values_view() == before.0.values_view()
    &&& after.0.use_imports_values@ == before.0.use_imports_values@
    &&& names::set_module_names(after.1.values@) == names::set_module_names(before.1.values@)
}

/// The import that brought in the values leads to where they come from, if it is one that is
/// recorded.
pub open spec fn values_are_recorded(
    before: Names,
    def: PerNs,
    import: Option<ImportOrExternCrate>,
    after: Names,
) -> bool {
    if import is None || import->0 is ExternCrate {
        after.0.use_imports_values@ == before.0.use_imports_values@
    } else {
        after.0.use_imports_values@ == before.0.use_imports_values@.insert(
            import->0,
            value_origin(def.values->0.import, def.values->0.def),
        )
    }
}

/// What stands for nothing among the values leaves them as they were, whatever it stands for
/// elsewhere.
pub proof fn no_values_keep_the_values(
    before: Names,
    module: ModuleId,
    name: Seq<char>,
    def: PerNs,
    import: Option<ImportOrExternCrate>,
    after: Names,
    changed: bool,
)
    requires
        pushed(before, module, name, def, import, after, changed),
        def.values is None,
    ensures
        values_are_kept(before, after),
{
    let (a, b) = (
        values_ns(before.0, before.1.values),
        values_ns(after.0, after.1.values),
    );
    assert(a.items == before.0.values_view() && b.items == after.0.values_view());
    assert(a.resolutions == before.0.use_imports_values@);
    assert(b.resolutions == after.0.use_imports_values@);
}

/// A name that stands for nothing among the values yet takes what it is given there, with the
/// definition and the visibility it comes with and the import that brings it in, whatever it is given
/// elsewhere. It counts as brought in by a glob if the import is one.
pub proof fn new_values_are_taken_in(
    before: Names,
    module: ModuleId,
    name: Seq<char>,
    def: PerNs,
    import: Option<ImportOrExternCrate>,
    after: Names,
    changed: bool,
    kept: Option<ImportOrGlob>,
)
    requires
        pushed(before, module, name, def, import, after, changed),
        def.values is Some,
        is_absent(before.0.values_view(), name),
        kept_with_value(import, kept),
    ensures
        after.0.values_view() == before.0.values_view().push(
            (name, ValuesItem { def: def.values->0.def, vis: def.values->0.vis, import: kept }),
        ),
        values_are_recorded(before, def, import, after),
        has_name(after.1.values, module, name) <==> (import is Some && import->0 is Glob),
        forall|m: u64, n: Seq<char>|
            (m, n) != (module_number(module), name) ==> (#[trigger] names::set_module_names(
                after.1.values@,
            ).contains((m, n)) <==> names::set_module_names(before.1.values@).contains((m, n))),
        changed,
{
    let (a, b) = (
        values_ns(before.0, before.1.values),
        values_ns(after.0, after.1.values),
    );
    assert(a.items == before.0.values_view() && b.items == after.0.values_view());
    assert(a.resolutions == before.0.use_imports_values@);
    assert(b.resolutions == after.0.use_imports_values@);
    lemma_find(before.0.values_view(), name, 0);
}

/// A name that stands for something among the values keeps it against a glob. It gives way to what is
/// not from a glob if a glob brought it in, or if the same import leads to another definition now. In
/// all other cases it stays.
pub proof fn values_give_way_to_named_imports(
    before: Names,
    module: ModuleId,
    name: Seq<char>,
    def: PerNs,
    import: Option<ImportOrExternCrate>,
    after: Names,
    changed: bool,
    kept: Option<ImportOrGlob>,
    i: int,
)
    requires
        pushed(before, module, name, def, import, after, changed),
        def.values is Some,
        is_only_at(before.0.values_view(), name, i),
        kept_with_value(import, kept),
    ensures
        import is Some && import->0 is Glob ==> values_are_kept(before, after),
        !(import is Some && import->0 is Glob) ==> {
            let entry = before.0.values_view()[i].1;
            let from_glob = has_name(before.1.values, module, name);
            let leads_elsewhere = kept is Some && entry.import == kept && entry.def != def.values->0.def;
            &&& !from_glob && !leads_elsewhere ==> values_are_kept(before, after)
            &&& from_glob || leads_elsewhere ==> {
                &&& after.0.values_view() == before.0.values_view().update(
                    i,
                    (name, ValuesItem { def: def.values->0.def, vis: def.values->0.vis, import: kept }),
                )
                &&& values_are_recorded(before, def, import, after)
                &&& !has_name(after.1.values, module, name)
                &&& forall|m: u64, n: Seq<char>|
                    (m, n) != (module_number(module), name) ==> (
                    #[trigger] names::set_module_names(after.1.values@).contains((m, n))
                        <==> names::set_module_names(before.1.values@).contains((m, n)))
                &&& changed
            }
        },
{
    let (a, b) = (
        values_ns(before.0, before.1.values),
        values_ns(after.0, after.1.values),
    );
    assert(a.items == before.0.values_view() && b.items == after.0.values_view());
    assert(a.resolutions == before.0.use_imports_values@);
    assert(b.resolutions == after.0.use_imports_values@);
    lemma_find(before.0.values_view(), name, 0);
}

// The macros.

/// The namespace of the macros is left as it was.
pub open spec fn macros_are_kept(before: Names, after: Names) -> bool {
    &&& after.0.macros_view() == before.0.macros_view()
    &&& after.0.use_imports_macros@ == before.0.use_imports_macros@
    &&& names::set_module_names(after.1.macros@) == names::set_module_names(before.1.macros@)
}

/// The import that brought in the macros leads to where they come from, if it is one that is
/// recorded.
pub open spec fn macros_are_recorded(
    before: Names,
    def: PerNs,
    import: Option<ImportOrExternCrate>,
    after: Names,
) -> bool {
    if import is None {
        after.0.use_imports_macros@ == before.0.use_imports_macros@
    } else {
        after.0.use_imports_macros@ == before.0.use_imports_macros@.insert(
            import->0,
            origin(def.macros->0.import, ModuleDefId::MacroId(def.macros->0.def)),
        )
    }
}

/// What stands for nothing among the macros leaves them as they were, whatever it stands for
/// elsewhere.
pub proof fn no_macros_keep_the_macros(
    before: Names,
    module: ModuleId,
    name: Seq<char>,
    def: PerNs,
    import: Option<ImportOrExternCrate>,
    after: Names,
    changed: bool,
)
    requires
        pushed(before, module, name, def, import, after, changed),
        def.macros is None,
    ensures
        macros_are_kept(before, after),
{
    let (a, b) = (
        macros_ns(before.0, before.1.macros),
        macros_ns(after.0, after.1.macros),
    );
    assert(a.items == before.0.macros_view() && b.items == after.0.macros_view());
    assert(a.resolutions == before.0.use_imports_macros@);
    assert(b.resolutions == after.0.use_imports_macros@);
}

/// A name that stands for nothing among the macros yet takes what it is given there, with the
/// definition and the visibility it comes with and the import that brings it in, whatever it is given
/// elsewhere. It counts as brought in by a glob if the import is one.
pub proof fn new_macros_are_taken_in(
    before: Names,
    module: ModuleId,
    name: Seq<char>,
    def: PerNs,
    import: Option<ImportOrExternCrate>,
    after: Names,
    changed: bool,
)
    requires
        pushed(before, module, name, def, import, after, changed),
        def.macros is Some,
        is_absent(before.0.macros_view(), name),
    ensures
        after.0.macros_view() == before.0.macros_view().push(
            (name, MacrosItem { def: def.macros->0.def, vis: def.macros->0.vis, import: import }),
        ),
        macros_are_recorded(before, def, import, after),
        has_name(after.1.macros, module, name) <==> (import is Some && import->0 is Glob),
        forall|m: u64, n: Seq<char>|
            (m, n) != (module_number(module), name) ==> (#[trigger] names::set_module_names(
                after.1.macros@,
            ).contains((m, n)) <==> names::set_module_names(before.1.macros@).contains((m, n))),
        changed,
{
    let (a, b) = (
        macros_ns(before.0, before.1.macros),
        macros_ns(after.0, after.1.macros),
    );
    assert(a.items == before.0.macros_view() && b.items == after.0.macros_view());
    assert(a.resolutions == before.0.use_imports_macros@);
    assert(b.resolutions == after.0.use_imports_macros@);
    lemma_find(before.0.macros_view(), name, 0);
}

/// A name that stands for something among the macros keeps it against a glob. It gives way to what is
/// not from a glob if a glob brought it in, or if the same import leads to another definition now. In
/// all other cases it stays.
pub proof fn macros_give_way_to_named_imports(
    before: Names,
    module: ModuleId,
    name: Seq<char>,
    def: PerNs,
    import: Option<ImportOrExternCrate>,
    after: Names,
    changed: bool,
    i: int,
)
    requires
        pushed(before, module, name, def, import, after, changed),
        def.macros is Some,
        is_only_at(before.0.macros_view(), name, i),
    ensures
        import is Some && import->0 is Glob ==> macros_are_kept(before, after),
        !(import is Some && import->0 is Glob) ==> {
            let entry = before.0.macros_view()[i].1;
            let from_glob = has_name(before.1.macros, module, name);
            let leads_elsewhere = import is Some && entry.import == import && entry.def != def.macros->0.def;
            &&& !from_glob && !leads_elsewhere ==> macros_are_kept(before, after)
            &&& from_glob || leads_elsewhere ==> {
                &&& after.0.macros_view() == before.0.macros_view().update(
                    i,
                    (name, MacrosItem { def: def.macros->0.def, vis: def.macros->0.vis, import: import }),
                )
                &&& macros_are_recorded(before, def, import, after)
                &&& !has_name(after.1.macros, module, name)
                &&& forall|m: u64, n: Seq<char>|
                    (m, n) != (module_number(module), name) ==> (
                    #[trigger] names::set_module_names(after.1.macros@).contains((m, n))
                        <==> names::set_module_names(before.1.macros@).contains((m, n)))
                &&& changed
            }
        },
{
    let (a, b) = (
        macros_ns(before.0, before.1.macros),
        macros_ns(after.0, after.1.macros),
    );
    assert(a.items == before.0.macros_view() && b.items == after.0.macros_view());
    assert(a.resolutions == before.0.use_imports_macros@);
    assert(b.resolutions == after.0.use_imports_macros@);
    lemma_find(before.0.macros_view(), name, 0);
}

// All namespaces.

/// Where a name stands for nothing, it stands for what it is given afterwards: with the definition and
/// the visibility that it is given in that namespace, and for nothing where it is given nothing. What
/// it is given in one namespace makes no difference to the others.
pub proof fn new_names_stand_for_what_they_are_given(
    before: Names,
    module: ModuleId,
    name: Seq<char>,
    def: PerNs,
    import: Option<ImportOrExternCrate>,
    after: Names,
    changed: bool,
)
    requires
        pushed(before, module, name, def, import, after, changed),
    ensures
        is_absent(before.0.types_view(), name) ==> {
            let got = after.0.spec_get(name).types;
            &&& got is Some <==> def.types is Some
            &&& got is Some ==> got->0.def == def.types->0.def && got->0.vis == def.types->0.vis
        },
        is_absent(before.0.values_view(), name) ==> {
            let got = after.0.spec_get(name).values;
            &&& got is Some <==> def.values is Some
            &&& got is Some ==> got->0.def == def.values->0.def && got->0.vis == def.values->0.vis
        },
        is_absent(before.0.macros_view(), name) ==> {
            let got = after.0.spec_get(name).macros;
            &&& got is Some <==> def.macros is Some
            &&& got is Some ==> got->0.def == def.macros->0.def && got->0.vis == def.macros->0.vis
        },
{
    let kept = if let Some(ImportOrExternCrate::Import(i)) = import {
        Some(ImportOrGlob::Import(i))
    } else if let Some(ImportOrExternCrate::Glob(i)) = import {
        Some(ImportOrGlob::Glob(i))
    } else {
        None
    };
    if is_absent(before.0.types_view(), name) {
        if def.types is Some {
            new_types_are_taken_in(before, module, name, def, import, after, changed);
            let last = before.0.types_view().len() as int;
            names_stand_for_their_entries(after.0, name, last);
        } else {
            no_types_keep_the_types(before, module, name, def, import, after, changed);
            names_stand_for_their_entries(after.0, name, 0);
        }
    }
    if is_absent(before.0.values_view(), name) {
        if def.values is Some {
            new_values_are_taken_in(before, module, name, def, import, after, changed, kept);
            let last = before.0.values_view().len() as int;
            names_stand_for_their_entries(after.0, name, last);
        } else {
            no_values_keep_the_values(before, module, name, def, import, after, changed);
            names_stand_for_their_entries(after.0, name, 0);
        }
    }
    if is_absent(before.0.macros_view(), name) {
        if def.macros is Some {
            new_macros_are_taken_in(before, module, name, def, import, after, changed);
            let last = before.0.macros_view().len() as int;
            names_stand_for_their_entries(after.0, name, last);
        } else {
            no_macros_keep_the_macros(before, module, name, def, import, after, changed);
            names_stand_for_their_entries(after.0, name, 0);
        }
    }
}

/// A name that stands for nothing in any namespace is remembered as unresolved. No other is.
pub proof fn only_names_without_meaning_are_unresolved(
    before: Names,
    module: ModuleId,
    name: Seq<char>,
    def: PerNs,
    import: Option<ImportOrExternCrate>,
    after: Names,
    changed: bool,
    other: Seq<char>,
)
    requires
        pushed(before, module, name, def, import, after, changed),
    ensures
        names::set_names(after.0.unresolved@).contains(other) <==> (names::set_names(
            before.0.unresolved@,
        ).contains(other) || (other == name && def.types is None && def.values is None
            && def.macros is None)),
{
}

/// It is said that something changed exactly if something did: one of the namespaces, or what is
/// unresolved.
pub proof fn changes_are_told(
    before: Names,
    module: ModuleId,
    name: Seq<char>,
    def: PerNs,
    import: Option<ImportOrExternCrate>,
    after: Names,
    changed: bool,
)
    requires
        pushed(before, module, name, def, import, after, changed),
    ensures
        changed <==> !(types_are_kept(before, after) && values_are_kept(before, after)
            && macros_are_kept(before, after) && names::set_names(before.0.unresolved@)
            == names::set_names(after.0.unresolved@)),
{
    types_change_if_told(before, module, name, def, import, after, changed);
    values_change_if_told(before, module, name, def, import, after, changed);
    macros_change_if_told(before, module, name, def, import, after, changed);
    let unresolved = names::set_names(before.0.unresolved@);
    if unresolved.contains(name) {
        assert(unresolved.insert(name) =~= unresolved);
    }
}

proof fn types_change_if_told(
    before: Names,
    module: ModuleId,
    name: Seq<char>,
    def: PerNs,
    import: Option<ImportOrExternCrate>,
    after: Names,
    changed: bool,
)
    requires
        pushed(before, module, name, def, import, after, changed),
    ensures
        push_type(types_ns(before.0, before.1.types), module, name, def, import).1
            <==> !types_are_kept(before, after),
{
    let (a, b) = (
        types_ns(before.0, before.1.types),
        types_ns(after.0, after.1.types),
    );
    assert(a.items == before.0.types_view() && b.items == after.0.types_view());
    assert(a.resolutions == before.0.use_imports_types@);
    assert(b.resolutions == after.0.use_imports_types@);
    lemma_find(before.0.types_view(), name, 0);
    if let Some(k) = find_entry(a.items, name, 0) {
        if b.items == a.items {
            assert(b.items[k as int] == a.items[k as int]);
        }
    }
}

proof fn values_change_if_told(
    before: Names,
    module: ModuleId,
    name: Seq<char>,
    def: PerNs,
    import: Option<ImportOrExternCrate>,
    after: Names,
    changed: bool,
)
    requires
        pushed(before, module, name, def, import, after, changed),
    ensures
        push_value(values_ns(before.0, before.1.values), module, name, def, import).1
            <==> !values_are_kept(before, after),
{
    let (a, b) = (
        values_ns(before.0, before.1.values),
        values_ns(after.0, after.1.values),
    );
    assert(a.items == before.0.values_view() && b.items == after.0.values_view());
    assert(a.resolutions == before.0.use_imports_values@);
    assert(b.resolutions == after.0.use_imports_values@);
    lemma_find(before.0.values_view(), name, 0);
    if let Some(k) = find_entry(a.items, name, 0) {
        if b.items == a.items {
            assert(b.items[k as int] == a.items[k as int]);
        }
    }
}

proof fn macros_change_if_told(
    before: Names,
    module: ModuleId,
    name: Seq<char>,
    def: PerNs,
    import: Option<ImportOrExternCrate>,
    after: Names,
    changed: bool,
)
    requires
        pushed(before, module, name, def, import, after, changed),
    ensures
        push_macro(macros_ns(before.0, before.1.macros), module, name, def, import).1
            <==> !macros_are_kept(before, after),
{
    let (a, b) = (
        macros_ns(before.0, before.1.macros),
        macros_ns(after.0, after.1.macros),
    );
    assert(a.items == before.0.macros_view() && b.items == after.0.macros_view());
    assert(a.resolutions == before.0.use_imports_macros@);
    assert(b.resolutions == after.0.use_imports_macros@);
    lemma_find(before.0.macros_view(), name, 0);
    if let Some(k) = find_entry(a.items, name, 0) {
        if b.items == a.items {
            assert(b.items[k as int] == a.items[k as int]);
        }
    }
}

} // verus!
