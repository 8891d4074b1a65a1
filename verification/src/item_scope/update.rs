//! Filling a scope, and changing what is in it.

use super::derives;
use super::derives::{
    DeriveCall, DeriveCallIds, DeriveInvocations, DeriveMacroInvocation, SpecInvocation,
};
use super::imports::ImportId;
use super::keys::AstId;
use super::names;
use super::scope::{find_entry, lemma_find_entry, ItemScope, ScopeTypesItem, ScopeValuesItem};
use crate::ids::{
    AttrId, BuiltinDeriveImplId, ConstId, ExternBlockId, ExternCrateId, ImplId, MacroCallId,
    MacroId, ModuleDefId, TraitId, Visibility,
};
use crate::per_ns::{Item, MacrosItem};
use crate::thin::thin;
use crate::small;
use vstd::prelude::*;

verus! {

impl ItemScope {
    /// Records a definition as declared here.
    pub fn declare(&mut self, def: ModuleDefId)
        requires
            old(self).wf(),
        ensures
            final(self).wf(),
            thin(final(self).declarations) == thin(old(self).declarations).push(def),
            *final(self) == (ItemScope { declarations: final(self).declarations, ..*old(self) }),
    {
        self.declarations.push(def);
    }

    /// Records an impl.
    pub fn define_impl(&mut self, imp: ImplId, is_trait_impl: bool)
        requires
            old(self).wf(),
        ensures
            final(self).wf(),
            thin(final(self).impls) == thin(old(self).impls).push((imp, is_trait_impl)),
            *final(self) == (ItemScope { impls: final(self).impls, ..*old(self) }),
    {
        self.impls.push((imp, is_trait_impl));
    }

    /// Records an impl that a built-in derive makes.
    pub fn define_builtin_derive_impl(&mut self, imp: BuiltinDeriveImplId)
        requires
            old(self).wf(),
        ensures
            final(self).wf(),
            thin(final(self).builtin_derive_impls) == thin(old(self).builtin_derive_impls).push(imp),
            *final(self) == (ItemScope { builtin_derive_impls: final(self).builtin_derive_impls, ..*old(self) }),
    {
        self.builtin_derive_impls.push(imp);
    }

    /// Records an extern block.
    pub fn define_extern_block(&mut self, extern_block: ExternBlockId)
        requires
            old(self).wf(),
        ensures
            final(self).wf(),
            thin(final(self).extern_blocks) == thin(old(self).extern_blocks).push(extern_block),
            *final(self) == (ItemScope { extern_blocks: final(self).extern_blocks, ..*old(self) }),
    {
        self.extern_blocks.push(extern_block);
    }

    /// Records an extern crate item.
    pub fn define_extern_crate_decl(&mut self, extern_crate: ExternCrateId)
        requires
            old(self).wf(),
        ensures
            final(self).wf(),
            thin(final(self).extern_crate_decls) == thin(old(self).extern_crate_decls).push(extern_crate),
            *final(self) == (ItemScope { extern_crate_decls: final(self).extern_crate_decls, ..*old(self) }),
    {
        self.extern_crate_decls.push(extern_crate);
    }

    /// Records a constant without a name.
    pub fn define_unnamed_const(&mut self, konst: ConstId)
        requires
            old(self).wf(),
        ensures
            final(self).wf(),
            thin(final(self).unnamed_consts) == thin(old(self).unnamed_consts).push(konst),
            *final(self) == (ItemScope { unnamed_consts: final(self).unnamed_consts, ..*old(self) }),
    {
        self.unnamed_consts.push(konst);
    }

    /// Records a trait that is imported without a name.
    pub fn push_unnamed_trait(&mut self, tr: TraitId, vis: Visibility, import: Option<ImportId>)
        requires
            old(self).wf(),
        ensures
            final(self).wf(),
            thin(final(self).unnamed_trait_imports) == thin(old(self).unnamed_trait_imports).push(
                (tr, (Item { def: (), vis, import })),
            ),
            *final(self) == (ItemScope {
                unnamed_trait_imports: final(self).unnamed_trait_imports,
                ..*old(self)
            }),
    {
        self.unnamed_trait_imports.push((tr, Item { def: (), vis, import }));
    }

    /// Records a macro that can be seen by its place in the text.
    pub fn define_legacy_macro(&mut self, name: String, mac: MacroId)
        requires
            old(self).wf(),
        ensures
            final(self).wf(),
            final(self).legacy_view() == old(self).legacy_view().insert(
                name@,
                (if old(self).legacy_view().contains_key(name@) {
                    old(self).legacy_view()[name@].push(mac)
                } else {
                    seq![mac]
                }),
            ),
            *final(self) == (ItemScope { legacy_macros: final(self).legacy_macros, ..*old(self) }),
    {
        let ghost before = self.legacy_view();
        let ghost m0 = names::by_name(self.legacy_macros@);
        let mut macros = match names::name_hash_map_remove(
            &mut self.legacy_macros,
            name.as_str(),
        ) {
            Some(macros) => macros,
            None => small::small_new(),
        };
        small::small_push(&mut macros, mac);
        let ghost text = name@;
        let ghost added = macros;
        names::name_hash_map_insert(&mut self.legacy_macros, name, macros);
        proof {
            let m1 = names::by_name(self.legacy_macros@);
            assert(m1 =~= m0.insert(text, added));
            let expected = before.insert(
                text,
                if before.contains_key(text) {
                    before[text].push(mac)
                } else {
                    seq![mac]
                },
            );
            assert(small::small(added) =~= expected[text]);
            assert(self.legacy_view() =~= expected);
        }
    }

    /// The macros that can be seen by their place in the text, by their names.
    pub open spec fn legacy_view(self) -> Map<Seq<char>, Seq<MacroId>> {
        names::by_name(self.legacy_macros@).map_values(|m: names::MacroIds| small::small(m))
    }

    /// Records the call of an attribute macro on an item.
    pub fn add_attr_macro_invoc(&mut self, item: AstId, call: MacroCallId)
        requires
            old(self).wf(),
        ensures
            final(self).wf(),
            final(self).attr_macros@ == old(self).attr_macros@.insert(item, call),
            *final(self) == (ItemScope { attr_macros: final(self).attr_macros, ..*old(self) }),
    {
        self.attr_macros.insert(item, call);
    }

    /// Records the call of a macro.
    pub fn add_macro_invoc(&mut self, call: AstId, call_id: MacroCallId)
        requires
            old(self).wf(),
        ensures
            final(self).wf(),
            final(self).macro_invocations@ == old(self).macro_invocations@.insert(call, call_id),
            *final(self) == (ItemScope {
                macro_invocations: final(self).macro_invocations,
                ..*old(self)
            }),
    {
        self.macro_invocations.insert(call, call_id);
    }

    /// The derive attributes of each item.
    pub open spec fn derives_view(self) -> Map<AstId, Seq<SpecInvocation>> {
        self.derive_macros@.map_values(|d: DeriveInvocations| d@)
    }

    /// Records a derive attribute. Room for all its derives is made here, because they become known
    /// in any order.
    pub fn init_derive_attribute(
        &mut self,
        adt: AstId,
        attr_id: AttrId,
        attr_call_id: MacroCallId,
        derive_call_ids: DeriveCallIds,
    )
        requires
            old(self).wf(),
        ensures
            final(self).wf(),
            final(self).derives_view() == old(self).derives_view().insert(
                adt,
                (if old(self).derives_view().contains_key(adt) {
                    old(self).derives_view()[adt]
                } else {
                    Seq::empty()
                }).push(
                    (SpecInvocation {
                        attr_id,
                        attr_call_id,
                        calls: small::small(derive_call_ids),
                    }),
                ),
            ),
            *final(self) == (ItemScope { derive_macros: final(self).derive_macros, ..*old(self) }),
    {
        let ghost before = self.derives_view();
        let ghost m0 = self.derive_macros@;
        let mut derive_call_ids = derive_call_ids;
        small::small_shrink_to_fit(&mut derive_call_ids);
        let mut all = match self.derive_macros.remove(adt) {
            Some(all) => all,
            None => DeriveInvocations { inner: small::small_new() },
        };
        let ghost earlier = all@;
        let invocation = DeriveMacroInvocation { attr_id, attr_call_id, derive_call_ids };
        let ghost added = invocation@;
        small::small_push(&mut all.inner, invocation);
        let ghost now = all;
        self.derive_macros.insert(adt, all);
        proof {
            assert(self.derive_macros@ =~= m0.insert(adt, now));
            assert(now@ =~= earlier.push(added));
            let start: Seq<SpecInvocation> = if before.contains_key(adt) {
                before[adt]
            } else {
                Seq::empty()
            };
            assert(earlier =~= start);
            assert(self.derives_view() =~= before.insert(adt, start.push(added)));
        }
    }

    /// Records what a derive leads to, if its attribute is recorded.
    pub fn set_derive_macro_invoc(&mut self, adt: AstId, call: DeriveCall, id: AttrId, idx: usize)
        requires
            old(self).wf(),
            old(self).derives_view().contains_key(adt) ==> match derives::find_attr(
                old(self).derives_view()[adt],
                id,
                0,
            ) {
                Some(i) => idx < old(self).derives_view()[adt][i as int].calls.len(),
                None => true,
            },
        ensures
            final(self).wf(),
            final(self).derives_view() == with_derive(old(self).derives_view(), adt, call, id, idx as int),
            *final(self) == (ItemScope { derive_macros: final(self).derive_macros, ..*old(self) }),
    {
        let ghost before = self.derives_view();
        let ghost m0 = self.derive_macros@;
        let found = match self.derive_macros.get(adt) {
            Some(all) => all.find(id),
            None => None,
        };
        if let Some(i) = found {
            if let Some(mut all) = self.derive_macros.remove(adt) {
                assert(before[adt] == all@);
                all.set_call(i, idx, call);
                let ghost now = all;
                self.derive_macros.insert(adt, all);
                proof {
                    assert(self.derive_macros@ =~= m0.insert(adt, now));
                    assert(self.derives_view() =~= with_derive(before, adt, call, id, idx as int));
                }
            }
        }
    }

    /// Takes a value out, if the name stands for the given definition. It might stand for another by
    /// now.
    pub fn remove_from_value_ns(&mut self, name: &str, def: ModuleDefId)
        requires
            old(self).wf(),
        ensures
            final(self).wf(),
            final(self).values_view() == match find_entry(old(self).values_view(), name@, 0) {
                Some(i) => if old(self).values_view()[i as int].1.def == def {
                    old(self).values_view().remove(i as int)
                } else {
                    old(self).values_view()
                },
                None => old(self).values_view(),
            },
            *final(self) == (ItemScope { values: final(self).values, ..*old(self) }),
    {
        let ghost e = names::entries(self.values);
        let ghost before = *self;
        proof {
            lemma_find_entry(
                e,
                |t: ScopeValuesItem| t.item(self.vis_table(), self.import_table()),
                name@,
                0,
            );
            names::lemma_find_name(e, name@, 0);
        }
        if let Some(i) = names::name_map_find(&self.values, name) {
            if names::name_map_at(&self.values, i).1.def == def {
                names::name_map_shift_remove(&mut self.values, name);
                proof {
                    let after = names::entries(self.values);
                    assert forall|a: int, b: int| 0 <= a < b < after.len() implies (
                    #[trigger] after[a]).0@ != (#[trigger] after[b]).0@ by {
                        let a0 = if a < i {
                            a
                        } else {
                            a + 1
                        };
                        let b0 = if b < i {
                            b
                        } else {
                            b + 1
                        };
                        assert(after[a] == e[a0] && after[b] == e[b0]);
                        assert(e[a0].0@ != e[b0].0@);
                    }
                    assert forall|a: int| 0 <= a < after.len() implies (#[trigger] after[a]).1.fits(
                        self.vis_table(),
                        self.import_table(),
                    ) by {
                        let a0 = if a < i {
                            a
                        } else {
                            a + 1
                        };
                        assert(after[a] == e[a0]);
                    }
                    assert(self.values_view() =~= before.values_view().remove(i as int));
                }
            }
        }
    }
}

/// The derives after one of them has become known.
pub open spec fn with_derive(
    derives: Map<AstId, Seq<SpecInvocation>>,
    adt: AstId,
    call: DeriveCall,
    id: AttrId,
    idx: int,
) -> Map<AstId, Seq<SpecInvocation>> {
    if derives.contains_key(adt) {
        match derives::find_attr(derives[adt], id, 0) {
            Some(i) => derives.insert(
                adt,
                derives[adt].update(
                    i as int,
                    SpecInvocation {
                        calls: derives[adt][i as int].calls.update(idx, Some(call)),
                        ..derives[adt][i as int]
                    },
                ),
            ),
            None => derives,
        }
    } else {
        derives
    }
}

impl ItemScope {
    /// Changes the entry at a place: what it stands for, and from where it can be seen.
    fn set_type_at(&mut self, i: usize, def: ModuleDefId, vis: Visibility)
        requires
            old(self).wf(),
            old(self).has_room(1),
            i < old(self).types_view().len(),
        ensures
            final(self).wf(),
            final(self).types_view() == old(self).types_view().update(
                i as int,
                (
                    old(self).types_view()[i as int].0,
                    (Item { def, vis, import: old(self).types_view()[i as int].1.import }),
                ),
            ),
            final(self).values_view() == old(self).values_view(),
            final(self).macros == old(self).macros,
            final(self).same_lists(*old(self)),
            final(self).same_imports(*old(self)),
            final(self).vis_table().len() <= old(self).vis_table().len() + 1,
            final(self).imports == old(self).imports,
    {
        let ghost before = *self;
        let place = self.intern_visibility(vis);
        let ghost mid = *self;
        let ghost e = names::entries(self.types);
        let old_item = *names::name_map_at(&self.types, i).1;
        names::name_map_set(
            &mut self.types,
            i,
            ScopeTypesItem { def, vis: place, import: old_item.import },
        );
        proof {
            let after = names::entries(self.types);
            assert forall|a: int, b: int| 0 <= a < b < after.len() implies (
            #[trigger] after[a]).0@ != (#[trigger] after[b]).0@ by {
                assert(e[a].0@ != e[b].0@);
            }
            assert(e[i as int].1.fits(mid.vis_table(), mid.import_table()));
            assert forall|a: int| 0 <= a < after.len() implies (#[trigger] after[a]).1.fits(
                self.vis_table(),
                self.import_table(),
            ) by {
                if a != i {
                    assert(after[a] == e[a]);
                }
            }
            assert(mid.types_view()[i as int] == before.types_view()[i as int]);
            assert(self.types_view() =~= mid.types_view().update(
                i as int,
                (
                    mid.types_view()[i as int].0,
                    Item { def, vis, import: mid.types_view()[i as int].1.import },
                ),
            ));
            assert(self.values_view() =~= mid.values_view());
        }
    }

    /// Changes the entry at a place: what it stands for, and from where it can be seen.
    fn set_value_at(&mut self, i: usize, def: ModuleDefId, vis: Visibility)
        requires
            old(self).wf(),
            old(self).has_room(1),
            i < old(self).values_view().len(),
        ensures
            final(self).wf(),
            final(self).values_view() == old(self).values_view().update(
                i as int,
                (
                    old(self).values_view()[i as int].0,
                    (Item { def, vis, import: old(self).values_view()[i as int].1.import }),
                ),
            ),
            final(self).types_view() == old(self).types_view(),
            final(self).macros == old(self).macros,
            final(self).same_lists(*old(self)),
            final(self).same_imports(*old(self)),
            final(self).vis_table().len() <= old(self).vis_table().len() + 1,
            final(self).imports == old(self).imports,
    {
        let ghost before = *self;
        let place = self.intern_visibility(vis);
        let ghost mid = *self;
        let ghost e = names::entries(self.values);
        let old_item = *names::name_map_at(&self.values, i).1;
        names::name_map_set(
            &mut self.values,
            i,
            ScopeValuesItem { def, vis: place, import: old_item.import },
        );
        proof {
            let after = names::entries(self.values);
            assert forall|a: int, b: int| 0 <= a < b < after.len() implies (
            #[trigger] after[a]).0@ != (#[trigger] after[b]).0@ by {
                assert(e[a].0@ != e[b].0@);
            }
            assert(e[i as int].1.fits(mid.vis_table(), mid.import_table()));
            assert forall|a: int| 0 <= a < after.len() implies (#[trigger] after[a]).1.fits(
                self.vis_table(),
                self.import_table(),
            ) by {
                if a != i {
                    assert(after[a] == e[a]);
                }
            }
            assert(mid.values_view()[i as int] == before.values_view()[i as int]);
            assert(self.values_view() =~= mid.values_view().update(
                i as int,
                (
                    mid.values_view()[i as int].0,
                    Item { def, vis, import: mid.values_view()[i as int].1.import },
                ),
            ));
            assert(self.types_view() =~= mid.types_view());
        }
    }

    /// Changes from where a name can be seen.
    pub fn update_visibility_types(&mut self, name: &str, vis: Visibility)
        requires
            old(self).wf(),
            old(self).has_room(1),
            find_entry(old(self).types_view(), name@, 0) is Some,
        ensures
            final(self).wf(),
            ({
                let i = find_entry(old(self).types_view(), name@, 0)->0 as int;
                final(self).types_view() == old(self).types_view().update(
                    i,
                    (
                        name@,
                        Item {
                            def: old(self).types_view()[i].1.def,
                            vis,
                            import: old(self).types_view()[i].1.import,
                        },
                    ),
                )
            }),
            final(self).values_view() == old(self).values_view(),
            final(self).macros == old(self).macros,
            final(self).same_lists(*old(self)),
            final(self).same_imports(*old(self)),
    {
        proof {
            lemma_find_entry(
                names::entries(self.types),
                |t: ScopeTypesItem| t.item(self.vis_table(), self.import_table()),
                name@,
                0,
            );
            names::lemma_find_name(names::entries(self.types), name@, 0);
        }
        let i: usize = names::name_map_find(&self.types, name).unwrap();
        let def = names::name_map_at(&self.types, i).1.def;
        self.set_type_at(i, def, vis);
    }

    /// Changes from where a name can be seen.
    pub fn update_visibility_values(&mut self, name: &str, vis: Visibility)
        requires
            old(self).wf(),
            old(self).has_room(1),
            find_entry(old(self).values_view(), name@, 0) is Some,
        ensures
            final(self).wf(),
            ({
                let i = find_entry(old(self).values_view(), name@, 0)->0 as int;
                final(self).values_view() == old(self).values_view().update(
                    i,
                    (
                        name@,
                        Item {
                            def: old(self).values_view()[i].1.def,
                            vis,
                            import: old(self).values_view()[i].1.import,
                        },
                    ),
                )
            }),
            final(self).types_view() == old(self).types_view(),
            final(self).macros == old(self).macros,
            final(self).same_lists(*old(self)),
            final(self).same_imports(*old(self)),
    {
        proof {
            lemma_find_entry(
                names::entries(self.values),
                |t: ScopeValuesItem| t.item(self.vis_table(), self.import_table()),
                name@,
                0,
            );
            names::lemma_find_name(names::entries(self.values), name@, 0);
        }
        let i: usize = names::name_map_find(&self.values, name).unwrap();
        let def = names::name_map_at(&self.values, i).1.def;
        self.set_value_at(i, def, vis);
    }

    /// Changes from where a macro can be seen.
    pub fn update_visibility_macros(&mut self, name: &str, vis: Visibility)
        requires
            old(self).wf(),
            find_entry(old(self).macros_view(), name@, 0) is Some,
        ensures
            final(self).wf(),
            ({
                let i = find_entry(old(self).macros_view(), name@, 0)->0 as int;
                final(self).macros_view() == old(self).macros_view().update(
                    i,
                    (
                        name@,
                        Item { def: old(self).macros_view()[i].1.def, vis, import: old(self).macros_view()[i].1.import },
                    ),
                )
            }),
            *final(self) == (ItemScope { macros: final(self).macros, ..*old(self) }),
    {
        let ghost e = names::entries(self.macros);
        let ghost before = *self;
        proof {
            lemma_find_entry(e, |t: MacrosItem| t, name@, 0);
            names::lemma_find_name(e, name@, 0);
        }
        let i: usize = names::name_map_find(&self.macros, name).unwrap();
        let item = *names::name_map_at(&self.macros, i).1;
        let changed = Item { def: item.def, vis, import: item.import };
        names::name_map_set(&mut self.macros, i, changed);
        proof {
            let after = names::entries(self.macros);
            assert forall|a: int, b: int| 0 <= a < b < after.len() implies (
            #[trigger] after[a]).0@ != (#[trigger] after[b]).0@ by {
                assert(e[a].0@ != e[b].0@);
            }
            assert(self.macros_view() =~= before.macros_view().update(i as int, (name@, changed)));
        }
    }

    /// Changes what a name stands for, and from where it can be seen.
    pub fn update_def_types(&mut self, name: &str, def: ModuleDefId, vis: Visibility)
        requires
            old(self).wf(),
            old(self).has_room(1),
            find_entry(old(self).types_view(), name@, 0) is Some,
        ensures
            final(self).wf(),
            ({
                let i = find_entry(old(self).types_view(), name@, 0)->0 as int;
                final(self).types_view() == old(self).types_view().update(
                    i,
                    (
                        name@,
                        Item {
                            def,
                            vis,
                            import: old(self).types_view()[i].1.import,
                        },
                    ),
                )
            }),
            final(self).values_view() == old(self).values_view(),
            final(self).macros == old(self).macros,
            final(self).same_lists(*old(self)),
            final(self).same_imports(*old(self)),
    {
        proof {
            lemma_find_entry(
                names::entries(self.types),
                |t: ScopeTypesItem| t.item(self.vis_table(), self.import_table()),
                name@,
                0,
            );
            names::lemma_find_name(names::entries(self.types), name@, 0);
        }
        let i: usize = names::name_map_find(&self.types, name).unwrap();
        self.set_type_at(i, def, vis);
    }

    /// Changes what a name stands for, and from where it can be seen.
    pub fn update_def_values(&mut self, name: &str, def: ModuleDefId, vis: Visibility)
        requires
            old(self).wf(),
            old(self).has_room(1),
            find_entry(old(self).values_view(), name@, 0) is Some,
        ensures
            final(self).wf(),
            ({
                let i = find_entry(old(self).values_view(), name@, 0)->0 as int;
                final(self).values_view() == old(self).values_view().update(
                    i,
                    (
                        name@,
                        Item {
                            def,
                            vis,
                            import: old(self).values_view()[i].1.import,
                        },
                    ),
                )
            }),
            final(self).types_view() == old(self).types_view(),
            final(self).macros == old(self).macros,
            final(self).same_lists(*old(self)),
            final(self).same_imports(*old(self)),
    {
        proof {
            lemma_find_entry(
                names::entries(self.values),
                |t: ScopeValuesItem| t.item(self.vis_table(), self.import_table()),
                name@,
                0,
            );
            names::lemma_find_name(names::entries(self.values), name@, 0);
        }
        let i: usize = names::name_map_find(&self.values, name).unwrap();
        self.set_value_at(i, def, vis);
    }

    /// Changes what the name of a macro stands for, and from where it can be seen.
    pub fn update_def_macros(&mut self, name: &str, def: MacroId, vis: Visibility)
        requires
            old(self).wf(),
            find_entry(old(self).macros_view(), name@, 0) is Some,
        ensures
            final(self).wf(),
            ({
                let i = find_entry(old(self).macros_view(), name@, 0)->0 as int;
                final(self).macros_view() == old(self).macros_view().update(
                    i,
                    (
                        name@,
                        Item { def, vis, import: old(self).macros_view()[i].1.import },
                    ),
                )
            }),
            *final(self) == (ItemScope { macros: final(self).macros, ..*old(self) }),
    {
        let ghost e = names::entries(self.macros);
        let ghost before = *self;
        proof {
            lemma_find_entry(e, |t: MacrosItem| t, name@, 0);
            names::lemma_find_name(e, name@, 0);
        }
        let i: usize = names::name_map_find(&self.macros, name).unwrap();
        let item = *names::name_map_at(&self.macros, i).1;
        let changed = Item { def, vis, import: item.import };
        names::name_map_set(&mut self.macros, i, changed);
        proof {
            let after = names::entries(self.macros);
            assert forall|a: int, b: int| 0 <= a < b < after.len() implies (
            #[trigger] after[a]).0@ != (#[trigger] after[b]).0@ by {
                assert(e[a].0@ != e[b].0@);
            }
            assert(self.macros_view() =~= before.macros_view().update(i as int, (name@, changed)));
        }
    }
}

} // verus!
