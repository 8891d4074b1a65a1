//! What operations on a scope keep, told by what the scope shows.

use super::imports;
use super::imports::{ImportId, ImportOrExternCrate};
use super::listing;
use super::names;
use super::resolve::Ns;
use super::scope::ItemScope;
use super::shrink;
use super::ways;
use crate::ids::Visibility;
use crate::item_scope::imports::ScopeImportOrExternCrate;
use crate::per_ns::{Item, TypesItem, ValuesItem};
use crate::thin::thin;
use vstd::prelude::*;

verus! {

/// Where the lists of two scopes are the same, they have the same declarations, impls, blocks,
/// constants, traits, uses and extern crates, and the same calls of macros.
pub proof fn same_lists_show_the_same(a: ItemScope, b: ItemScope)
    requires
        a.same_lists(b),
    ensures
        thin(a.declarations) == thin(b.declarations),
        thin(a.impls) == thin(b.impls),
        thin(a.builtin_derive_impls) == thin(b.builtin_derive_impls),
        thin(a.extern_blocks) == thin(b.extern_blocks),
        thin(a.unnamed_consts) == thin(b.unnamed_consts),
        thin(a.unnamed_trait_imports) == thin(b.unnamed_trait_imports),
        thin(a.use_decls) == thin(b.use_decls),
        thin(a.extern_crate_decls) == thin(b.extern_crate_decls),
        a.legacy_view() == b.legacy_view(),
        a.derives_view() == b.derives_view(),
        a.attr_macros@ == b.attr_macros@,
        a.macro_invocations@ == b.macro_invocations@,
        a.macro_calls() == b.macro_calls(),
{
}

/// Where two scopes agree on the imports, these lead to the same, and the same names are unresolved.
pub proof fn same_imports_lead_to_the_same(a: ItemScope, b: ItemScope, ns: Ns, import: ImportId, name: Seq<char>)
    requires
        a.same_imports(b),
    ensures
        ways::record(a, ns, import) == ways::record(b, ns, import),
        listing::has_import(a, import) == listing::has_import(b, import),
        a.use_imports_types@ == b.use_imports_types@,
        a.use_imports_values@ == b.use_imports_values@,
        a.use_imports_macros@ == b.use_imports_macros@,
        names::set_names(a.unresolved@).contains(name) == names::set_names(b.unresolved@).contains(
            name,
        ),
{
}

/// A scope that was shrunk shows what it did before: the same names stand for the same, the same
/// imports lead to the same, and all lists and calls are as they were.
pub proof fn shrunk_scopes_show_the_same(
    a: ItemScope,
    b: ItemScope,
    ns: Ns,
    import: ImportId,
    name: Seq<char>,
)
    requires
        a.types_view() == b.types_view(),
        a.values_view() == b.values_view(),
        a.macros_view() == b.macros_view(),
        shrink::same_contents(a, b),
    ensures
        a.spec_get(name) == b.spec_get(name),
        listing::has_name(a, name) == listing::has_name(b, name),
        ways::record(a, ns, import) == ways::record(b, ns, import),
        listing::has_import(a, import) == listing::has_import(b, import),
        thin(a.declarations) == thin(b.declarations),
        thin(a.impls) == thin(b.impls),
        thin(a.builtin_derive_impls) == thin(b.builtin_derive_impls),
        thin(a.extern_blocks) == thin(b.extern_blocks),
        thin(a.unnamed_consts) == thin(b.unnamed_consts),
        thin(a.unnamed_trait_imports) == thin(b.unnamed_trait_imports),
        thin(a.use_decls) == thin(b.use_decls),
        thin(a.extern_crate_decls) == thin(b.extern_crate_decls),
        a.legacy_view() == b.legacy_view(),
        a.derives_view() == b.derives_view(),
        a.attr_macros@ == b.attr_macros@,
        a.macro_invocations@ == b.macro_invocations@,
        a.macro_calls() == b.macro_calls(),
{
}

// The tables of a scope that was shrunk.

proof fn lemma_vis<D, I>(table: Seq<Visibility>, items: Seq<(Seq<char>, Item<D, I>)>, n: nat, v: Visibility)
    requires
        n <= items.len(),
    ensures
        shrink::interned_vis(table, items, n).contains(v) <==> table.contains(v) || (v
            != Visibility::Public && exists|i: int|
            0 <= i < n && (#[trigger] items[i]).1.vis == v),
    decreases n,
{
    if n > 0 {
        lemma_vis(table, items, (n - 1) as nat, v);
        let before = shrink::interned_vis(table, items, (n - 1) as nat);
        let vis = items[n - 1].1.vis;
        let after = shrink::interned_vis(table, items, n);
        if after != before {
            assert(after == before.push(vis));
            assert(after[before.len() as int] == vis);
            if before.contains(v) {
                let k = choose|k: int| 0 <= k < before.len() && before[k] == v;
                assert(after[k] == v);
            }
            if after.contains(v) && v != vis {
                let k = choose|k: int| 0 <= k < after.len() && after[k] == v;
                assert(before[k] == v);
            }
        }
        if exists|i: int| 0 <= i < n && (#[trigger] items[i]).1.vis == v {
            let i = choose|i: int| 0 <= i < n && (#[trigger] items[i]).1.vis == v;
            if i < n - 1 {
                assert(items[i].1.vis == v);
            }
        }
    }
}

proof fn lemma_with_import(
    table: Seq<ScopeImportOrExternCrate>,
    import: Option<ImportOrExternCrate>,
    x: ScopeImportOrExternCrate,
)
    ensures
        shrink::with_import(table, import).contains(x) <==> table.contains(x) || (import is Some
            && imports::stored_import(import->0) == x),
{
    let after = shrink::with_import(table, import);
    if import is Some && !table.contains(imports::stored_import(import->0)) {
        let y = imports::stored_import(import->0);
        assert(after == table.push(y));
        assert(after[table.len() as int] == y);
        if table.contains(x) {
            let k = choose|k: int| 0 <= k < table.len() && table[k] == x;
            assert(after[k] == x);
        }
        if after.contains(x) && x != y {
            let k = choose|k: int| 0 <= k < after.len() && after[k] == x;
            assert(table[k] == x);
        }
    }
}

proof fn lemma_type_imports(
    table: Seq<ScopeImportOrExternCrate>,
    items: Seq<(Seq<char>, TypesItem)>,
    n: nat,
    x: ScopeImportOrExternCrate,
)
    requires
        n <= items.len(),
    ensures
        shrink::interned_types(table, items, n).contains(x) <==> table.contains(x) || exists|i: int|
            0 <= i < n && (#[trigger] items[i]).1.import is Some && imports::stored_import(
                items[i].1.import->0,
            ) == x,
    decreases n,
{
    if n > 0 {
        lemma_type_imports(table, items, (n - 1) as nat, x);
        lemma_with_import(
            shrink::interned_types(table, items, (n - 1) as nat),
            items[n - 1].1.import,
            x,
        );
        if exists|i: int|
            0 <= i < n && (#[trigger] items[i]).1.import is Some && imports::stored_import(
                items[i].1.import->0,
            ) == x {
            let i = choose|i: int|
                0 <= i < n && (#[trigger] items[i]).1.import is Some && imports::stored_import(
                    items[i].1.import->0,
                ) == x;
            if i < n - 1 {
                assert(items[i].1.import is Some);
            }
        }
    }
}

proof fn lemma_value_imports(
    table: Seq<ScopeImportOrExternCrate>,
    items: Seq<(Seq<char>, ValuesItem)>,
    n: nat,
    x: ScopeImportOrExternCrate,
)
    requires
        n <= items.len(),
    ensures
        shrink::interned_values(table, items, n).contains(x) <==> table.contains(x) || exists|
            i: int,
        |
            0 <= i < n && (#[trigger] items[i]).1.import is Some && imports::stored_import(
                imports::value_import(items[i].1.import->0),
            ) == x,
    decreases n,
{
    if n > 0 {
        lemma_value_imports(table, items, (n - 1) as nat, x);
        lemma_with_import(
            shrink::interned_values(table, items, (n - 1) as nat),
            imports::value_imports(items[n - 1].1.import),
            x,
        );
        if exists|i: int|
            0 <= i < n && (#[trigger] items[i]).1.import is Some && imports::stored_import(
                imports::value_import(items[i].1.import->0),
            ) == x {
            let i = choose|i: int|
                0 <= i < n && (#[trigger] items[i]).1.import is Some && imports::stored_import(
                    imports::value_import(items[i].1.import->0),
                ) == x;
            if i < n - 1 {
                assert(items[i].1.import is Some);
            }
        }
    }
}

/// The tables of a scope that was shrunk hold exactly what its types and values refer to: the
/// visibilities other than public, and the imports.
pub proof fn shrunk_tables_hold_what_is_used(
    s: ItemScope,
    vis: Visibility,
    import: ScopeImportOrExternCrate,
)
    requires
        shrink::is_normal(s),
    ensures
        s.vis_table().contains(vis) <==> vis != Visibility::Public && ((exists|i: int|
            0 <= i < s.types_view().len() && (#[trigger] s.types_view()[i]).1.vis == vis) || (exists|
            i: int,
        |
            0 <= i < s.values_view().len() && (#[trigger] s.values_view()[i]).1.vis == vis)),
        s.import_table().contains(import) <==> (exists|i: int|
            0 <= i < s.types_view().len() && (#[trigger] s.types_view()[i]).1.import is Some
                && imports::stored_import(s.types_view()[i].1.import->0) == import) || (exists|
            i: int,
        |
            0 <= i < s.values_view().len() && (#[trigger] s.values_view()[i]).1.import is Some
                && imports::stored_import(imports::value_import(s.values_view()[i].1.import->0))
                == import),
{
    let (types, values) = (s.types_view(), s.values_view());
    let v0 = Seq::<Visibility>::empty();
    lemma_vis(v0, types, types.len(), vis);
    lemma_vis(shrink::interned_vis(v0, types, types.len()), values, values.len(), vis);
    let t0 = Seq::<ScopeImportOrExternCrate>::empty();
    lemma_type_imports(t0, types, types.len(), import);
    lemma_value_imports(
        shrink::interned_types(t0, types, types.len()),
        values,
        values.len(),
        import,
    );
}

} // verus!
