//! Looking things up in a scope.

use super::derives;
use super::derives::DeriveMacroInvocation;
use super::imports::ImportId;
use super::keys::AstId;
use super::names;
use super::scope::{lemma_find_entry, lookup, ItemScope, ScopeTypesItem, ScopeValuesItem};
use crate::ids::{
    AttrId, BuiltinDeriveImplId, ConstId, ExternBlockId, ExternCrateId, ImplId, MacroCallId, MacroId,
    ModuleDefId, ModuleId, TraitId, UseId, Visibility,
};
use crate::per_ns::{Item, MacrosItem, PerNs, TypesItem, ValuesItem};
use crate::thin::thin;
use crate::small;
use vstd::prelude::*;

verus! {

/// The impls that are for a trait, or those that are not.
pub open spec fn impls_with(s: Seq<(ImplId, bool)>, for_trait: bool) -> Seq<ImplId>
    decreases s.len(),
{
    if s.len() == 0 {
        Seq::empty()
    } else if s.last().1 == for_trait {
        impls_with(s.drop_last(), for_trait).push(s.last().0)
    } else {
        impls_with(s.drop_last(), for_trait)
    }
}

fn filter_impls(s: &[(ImplId, bool)], for_trait: bool) -> (r: Vec<ImplId>)
    ensures
        r@ == impls_with(s@, for_trait),
{
    let mut r: Vec<ImplId> = Vec::new();
    let mut i: usize = 0;
    while i < s.len()
        invariant
            i <= s@.len(),
            r@ == impls_with(s@.take(i as int), for_trait),
        decreases s@.len() - i,
    {
        proof {
            assert(s@.take(i + 1).drop_last() =~= s@.take(i as int));
        }
        if s[i].1 == for_trait {
            r.push(s[i].0);
        }
        i = i + 1;
    }
    assert(s@.take(s@.len() as int) =~= s@);
    r
}

/// The modules among the types, with their visibilities.
pub open spec fn modules_of(s: Seq<(Seq<char>, TypesItem)>) -> Seq<(ModuleId, Visibility)>
    decreases s.len(),
{
    if s.len() == 0 {
        Seq::empty()
    } else {
        let before = modules_of(s.drop_last());
        match s.last().1.def {
            ModuleDefId::ModuleId(m) => before.push((m, s.last().1.vis)),
            _ => before,
        }
    }
}

/// The traits among the types.
pub open spec fn traits_of(s: Seq<(Seq<char>, TypesItem)>) -> Seq<TraitId>
    decreases s.len(),
{
    if s.len() == 0 {
        Seq::empty()
    } else {
        let before = traits_of(s.drop_last());
        match s.last().1.def {
            ModuleDefId::TraitId(t) => before.push(t),
            _ => before,
        }
    }
}

/// Where the trait is among those without a name, from `i` on.
pub open spec fn find_trait(s: Seq<(TraitId, Item<(), ImportId>)>, tr: TraitId, i: nat) -> Option<nat>
    decreases s.len() - i,
{
    if i >= s.len() {
        None
    } else if s[i as int].0 == tr {
        Some(i)
    } else {
        find_trait(s, tr, i + 1)
    }
}

impl ItemScope {
    /// What is declared here.
    pub fn declarations(&self) -> (r: &[ModuleDefId])
        ensures
            r@ == thin(self.declarations),
    {
        self.declarations.as_slice()
    }

    /// The extern crate items.
    pub fn extern_crate_decls(&self) -> (r: &[ExternCrateId])
        ensures
            r@ == thin(self.extern_crate_decls),
    {
        self.extern_crate_decls.as_slice()
    }

    /// The extern blocks.
    pub fn extern_blocks(&self) -> (r: &[ExternBlockId])
        ensures
            r@ == thin(self.extern_blocks),
    {
        self.extern_blocks.as_slice()
    }

    /// The use items.
    pub fn use_decls(&self) -> (r: &[UseId])
        ensures
            r@ == thin(self.use_decls),
    {
        self.use_decls.as_slice()
    }

    /// The impls that built-in derives make.
    pub fn builtin_derive_impls(&self) -> (r: &[BuiltinDeriveImplId])
        ensures
            r@ == thin(self.builtin_derive_impls),
    {
        self.builtin_derive_impls.as_slice()
    }

    /// The constants without a name.
    pub fn unnamed_consts(&self) -> (r: &[ConstId])
        ensures
            r@ == thin(self.unnamed_consts),
    {
        self.unnamed_consts.as_slice()
    }

    /// The impls.
    pub fn impls(&self) -> (r: Vec<ImplId>)
        ensures
            r@ == Seq::new(thin(self.impls).len(), |i: int| thin(self.impls)[i].0),
    {
        let s = self.impls.as_slice();
        let ghost all = Seq::new(s@.len(), |i: int| s@[i].0);
        let mut r: Vec<ImplId> = Vec::new();
        let mut i: usize = 0;
        while i < s.len()
            invariant
                i <= s@.len(),
                all == Seq::new(s@.len(), |i: int| s@[i].0),
                r@ == all.take(i as int),
            decreases s@.len() - i,
        {
            r.push(s[i].0);
            i = i + 1;
            assert(r@ =~= all.take(i as int));
        }
        assert(all.take(s@.len() as int) =~= all);
        r
    }

    /// The impls that are for a trait.
    pub fn trait_impls(&self) -> (r: Vec<ImplId>)
        ensures
            r@ == impls_with(thin(self.impls), true),
    {
        filter_impls(self.impls.as_slice(), true)
    }

    /// The impls that are not for a trait.
    pub fn inherent_impls(&self) -> (r: Vec<ImplId>)
        ensures
            r@ == impls_with(thin(self.impls), false),
    {
        filter_impls(self.impls.as_slice(), false)
    }

    /// The type at a place.
    fn type_at(&self, i: usize) -> (r: (&String, TypesItem))
        requires
            self.wf(),
            i < self.types_view().len(),
        ensures
            (r.0@, r.1) == self.types_view()[i as int],
    {
        let (name, item) = names::name_map_at(&self.types, i);
        assert(names::entries(self.types)[i as int].1.fits(self.vis_table(), self.import_table()));
        (name, item.get(self.visibilities.as_slice(), self.imports.as_slice()))
    }

    /// The value at a place.
    fn value_at(&self, i: usize) -> (r: (&String, ValuesItem))
        requires
            self.wf(),
            i < self.values_view().len(),
        ensures
            (r.0@, r.1) == self.values_view()[i as int],
    {
        let (name, item) = names::name_map_at(&self.values, i);
        assert(names::entries(self.values)[i as int].1.fits(self.vis_table(), self.import_table()));
        (name, item.get(self.visibilities.as_slice(), self.imports.as_slice()))
    }

    /// The types that can be seen, with their names.
    pub fn types(&self) -> (r: Vec<(&String, TypesItem)>)
        requires
            self.wf(),
        ensures
            r@.len() == self.types_view().len(),
            forall|i: int|
                0 <= i < r@.len() ==> ((#[trigger] r@[i]).0@, r@[i].1) == self.types_view()[i],
    {
        let len: usize = names::name_map_len(&self.types);
        let mut r: Vec<(&String, TypesItem)> = Vec::new();
        let mut i: usize = 0;
        while i < len
            invariant
                self.wf(),
                i <= len,
                len == self.types_view().len(),
                r@.len() == i,
                forall|j: int|
                    0 <= j < i ==> ((#[trigger] r@[j]).0@, r@[j].1) == self.types_view()[j],
            decreases len - i,
        {
            r.push(self.type_at(i));
            i = i + 1;
        }
        r
    }

    /// The values that can be seen, with their names.
    pub fn values(&self) -> (r: Vec<(&String, ValuesItem)>)
        requires
            self.wf(),
        ensures
            r@.len() == self.values_view().len(),
            forall|i: int|
                0 <= i < r@.len() ==> ((#[trigger] r@[i]).0@, r@[i].1) == self.values_view()[i],
    {
        let len: usize = names::name_map_len(&self.values);
        let mut r: Vec<(&String, ValuesItem)> = Vec::new();
        let mut i: usize = 0;
        while i < len
            invariant
                self.wf(),
                i <= len,
                len == self.values_view().len(),
                r@.len() == i,
                forall|j: int|
                    0 <= j < i ==> ((#[trigger] r@[j]).0@, r@[j].1) == self.values_view()[j],
            decreases len - i,
        {
            r.push(self.value_at(i));
            i = i + 1;
        }
        r
    }

    /// The macros that can be seen, with their names. Those that are seen by their place in the text
    /// are not among them.
    pub fn macros(&self) -> (r: Vec<(&String, MacrosItem)>)
        ensures
            r@.len() == self.macros_view().len(),
            forall|i: int|
                0 <= i < r@.len() ==> ((#[trigger] r@[i]).0@, r@[i].1) == self.macros_view()[i],
    {
        let len: usize = names::name_map_len(&self.macros);
        let mut r: Vec<(&String, MacrosItem)> = Vec::new();
        let mut i: usize = 0;
        while i < len
            invariant
                i <= len,
                len == self.macros_view().len(),
                r@.len() == i,
                forall|j: int|
                    0 <= j < i ==> ((#[trigger] r@[j]).0@, r@[j].1) == self.macros_view()[j],
            decreases len - i,
        {
            let (name, item) = names::name_map_at(&self.macros, i);
            r.push((name, *item));
            i = i + 1;
        }
        r
    }

    /// What a name stands for here.
    pub open spec fn spec_get(self, name: Seq<char>) -> PerNs {
        PerNs {
            types: lookup(self.types_view(), name),
            values: lookup(self.values_view(), name),
            macros: lookup(self.macros_view(), name),
        }
    }

    fn find_type(&self, name: &str) -> (r: Option<TypesItem>)
        requires
            self.wf(),
        ensures
            r == lookup(self.types_view(), name@),
    {
        proof {
            lemma_find_entry(
                names::entries(self.types),
                |t: ScopeTypesItem| t.item(self.vis_table(), self.import_table()),
                name@,
                0,
            );
            names::lemma_find_name(names::entries(self.types), name@, 0);
        }
        match names::name_map_find(&self.types, name) {
            Some(i) => Some(self.type_at(i).1),
            None => None,
        }
    }

    fn find_value(&self, name: &str) -> (r: Option<ValuesItem>)
        requires
            self.wf(),
        ensures
            r == lookup(self.values_view(), name@),
    {
        proof {
            lemma_find_entry(
                names::entries(self.values),
                |t: ScopeValuesItem| t.item(self.vis_table(), self.import_table()),
                name@,
                0,
            );
            names::lemma_find_name(names::entries(self.values), name@, 0);
        }
        match names::name_map_find(&self.values, name) {
            Some(i) => Some(self.value_at(i).1),
            None => None,
        }
    }

    fn find_macro(&self, name: &str) -> (r: Option<MacrosItem>)
        ensures
            r == lookup(self.macros_view(), name@),
    {
        proof {
            lemma_find_entry(names::entries(self.macros), |t: MacrosItem| t, name@, 0);
            names::lemma_find_name(names::entries(self.macros), name@, 0);
        }
        match names::name_map_find(&self.macros, name) {
            Some(i) => Some(*names::name_map_at(&self.macros, i).1),
            None => None,
        }
    }

    /// What a name stands for here. Macros that are seen by their place in the text do not count.
    pub fn get(&self, name: &str) -> (r: PerNs)
        requires
            self.wf(),
        ensures
            r == self.spec_get(name@),
    {
        PerNs {
            types: self.find_type(name),
            values: self.find_value(name),
            macros: self.find_macro(name),
        }
    }

    pub fn type_(&self, name: &str) -> (r: Option<(ModuleDefId, Visibility)>)
        requires
            self.wf(),
        ensures
            r == (match lookup(self.types_view(), name@) {
                Some(item) => Some((item.def, item.vis)),
                None => None,
            }),
    {
        match self.find_type(name) {
            Some(item) => Some((item.def, item.vis)),
            None => None,
        }
    }

    pub fn makro(&self, name: &str) -> (r: Option<MacroId>)
        ensures
            r == (match lookup(self.macros_view(), name@) {
                Some(item) => Some(item.def),
                None => None,
            }),
    {
        match self.find_macro(name) {
            Some(item) => Some(item.def),
            None => None,
        }
    }

    /// The modules that can be seen, with their visibilities.
    pub fn modules_in_scope(&self) -> (r: Vec<(ModuleId, Visibility)>)
        requires
            self.wf(),
        ensures
            r@ == modules_of(self.types_view()),
    {
        let ghost all = self.types_view();
        let len: usize = names::name_map_len(&self.types);
        let mut r: Vec<(ModuleId, Visibility)> = Vec::new();
        let mut i: usize = 0;
        while i < len
            invariant
                self.wf(),
                all == self.types_view(),
                i <= len,
                len == all.len(),
                r@ == modules_of(all.take(i as int)),
            decreases len - i,
        {
            proof {
                assert(all.take(i + 1).drop_last() =~= all.take(i as int));
            }
            let item = self.type_at(i).1;
            if let ModuleDefId::ModuleId(m) = item.def {
                r.push((m, item.vis));
            }
            i = i + 1;
        }
        assert(all.take(len as int) =~= all);
        r
    }

    /// The traits that can be seen, those without a name last.
    pub fn traits(&self) -> (r: Vec<TraitId>)
        requires
            self.wf(),
        ensures
            r@ == traits_of(self.types_view()) + Seq::new(
                thin(self.unnamed_trait_imports).len(),
                |i: int| thin(self.unnamed_trait_imports)[i].0,
            ),
    {
        let ghost all = self.types_view();
        let len: usize = names::name_map_len(&self.types);
        let mut r: Vec<TraitId> = Vec::new();
        let mut i: usize = 0;
        while i < len
            invariant
                self.wf(),
                all == self.types_view(),
                i <= len,
                len == all.len(),
                r@ == traits_of(all.take(i as int)),
            decreases len - i,
        {
            proof {
                assert(all.take(i + 1).drop_last() =~= all.take(i as int));
            }
            if let ModuleDefId::TraitId(t) = self.type_at(i).1.def {
                r.push(t);
            }
            i = i + 1;
        }
        assert(all.take(len as int) =~= all);
        let ghost named = r@;
        let unnamed = self.unnamed_trait_imports.as_slice();
        let ghost more = Seq::new(unnamed@.len(), |i: int| unnamed@[i].0);
        let mut k: usize = 0;
        assert(r@ =~= named + more.take(0));
        while k < unnamed.len()
            invariant
                k <= unnamed@.len(),
                more == Seq::new(unnamed@.len(), |i: int| unnamed@[i].0),
                r@ == named + more.take(k as int),
            decreases unnamed@.len() - k,
        {
            r.push(unnamed[k].0);
            k = k + 1;
            assert(r@ =~= named + more.take(k as int));
        }
        assert(more.take(unnamed@.len() as int) =~= more);
        r
    }

    /// From where a trait without a name can be seen, by the first import that brings it in.
    pub fn unnamed_trait_vis(&self, tr: TraitId) -> (r: Option<Visibility>)
        ensures
            r == (match find_trait(thin(self.unnamed_trait_imports), tr, 0) {
                Some(i) => Some(thin(self.unnamed_trait_imports)[i as int].1.vis),
                None => None,
            }),
    {
        let s = self.unnamed_trait_imports.as_slice();
        let mut i: usize = 0;
        while i < s.len()
            invariant
                i <= s@.len(),
                find_trait(s@, tr, 0) == find_trait(s@, tr, i as nat),
                s@ == thin(self.unnamed_trait_imports),
            decreases s@.len() - i,
        {
            if s[i].0 == tr {
                return Some(s[i].1.vis);
            }
            i = i + 1;
        }
        None
    }

    /// The call of a macro at a node.
    pub fn macro_invoc(&self, call: AstId) -> (r: Option<MacroCallId>)
        ensures
            r == (if self.macro_invocations@.contains_key(call) {
                Some(self.macro_invocations@[call])
            } else {
                None
            }),
    {
        match self.macro_invocations.get(call) {
            Some(id) => Some(*id),
            None => None,
        }
    }

    /// The calls of macros, in no particular order.
    pub fn iter_macro_invoc(&self) -> (r: Vec<&(AstId, MacroCallId)>)
        requires
            self.wf(),
        ensures
            forall|n: AstId| #[trigger]
                self.macro_invocations@.contains_key(n) ==> exists|i: int|
                    0 <= i < r@.len() && *(#[trigger] r@[i]) == (n, self.macro_invocations@[n]),
            forall|i: int|
                0 <= i < r@.len() ==> self.macro_invocations@.contains_key((#[trigger] r@[i]).0)
                    && self.macro_invocations@[r@[i].0] == r@[i].1,
            forall|i: int, j: int|
                0 <= i < j < r@.len() ==> (#[trigger] r@[i]).0 != (#[trigger] r@[j]).0,
    {
        self.macro_invocations.entries()
    }

    /// The calls of attribute macros, in no particular order.
    pub fn attr_macro_invocs(&self) -> (r: Vec<&(AstId, MacroCallId)>)
        requires
            self.wf(),
        ensures
            forall|n: AstId| #[trigger]
                self.attr_macros@.contains_key(n) ==> exists|i: int|
                    0 <= i < r@.len() && *(#[trigger] r@[i]) == (n, self.attr_macros@[n]),
            forall|i: int|
                0 <= i < r@.len() ==> self.attr_macros@.contains_key((#[trigger] r@[i]).0)
                    && self.attr_macros@[r@[i].0] == r@[i].1,
            forall|i: int, j: int|
                0 <= i < j < r@.len() ==> (#[trigger] r@[i]).0 != (#[trigger] r@[j]).0,
    {
        self.attr_macros.entries()
    }

    /// The macros with the given name that are seen by their place in the text.
    pub fn get_legacy_macro(&self, name: &str) -> (r: Option<&[MacroId]>)
        ensures
            r is Some <==> self.legacy_view().contains_key(name@),
            r matches Some(s) ==> s@ == self.legacy_view()[name@],
    {
        match names::name_hash_map_get(&self.legacy_macros, name) {
            Some(macros) => Some(small::small_as_slice(macros)),
            None => None,
        }
    }

    /// The names of the macros that are seen by their place in the text, with the macros, in no
    /// particular order.
    pub fn legacy_macros(&self) -> (r: Vec<(&String, &[MacroId])>)
        ensures
            forall|n: Seq<char>| #[trigger]
                self.legacy_view().contains_key(n) ==> exists|i: int|
                    0 <= i < r@.len() && (#[trigger] r@[i]).0@ == n,
            forall|i: int|
                0 <= i < r@.len() ==> self.legacy_view().contains_key((#[trigger] r@[i]).0@)
                    && self.legacy_view()[r@[i].0@] == r@[i].1@,
            forall|i: int, j: int|
                0 <= i < j < r@.len() ==> (#[trigger] r@[i]).0@ != (#[trigger] r@[j]).0@,
    {
        let keys = names::name_hash_map_keys(&self.legacy_macros);
        let mut r: Vec<(&String, &[MacroId])> = Vec::new();
        let mut i: usize = 0;
        while i < keys.len()
            invariant
                i <= keys@.len(),
                forall|n: Seq<char>|
                    #![trigger names::by_name(self.legacy_macros@).contains_key(n)]
                    names::by_name(self.legacy_macros@).contains_key(n) <==> exists|i: int|
                        0 <= i < keys@.len() && (#[trigger] keys@[i])@ == n,
                r@.len() == i,
                forall|j: int| 0 <= j < i ==> (#[trigger] r@[j]).0@ == keys@[j]@,
                forall|j: int|
                    0 <= j < i ==> self.legacy_view().contains_key((#[trigger] r@[j]).0@)
                        && self.legacy_view()[r@[j].0@] == r@[j].1@,
            decreases keys@.len() - i,
        {
            assert(names::by_name(self.legacy_macros@).contains_key(keys@[i as int]@));
            if let Some(macros) = self.get_legacy_macro(keys[i].as_str()) {
                r.push((keys[i], macros));
            }
            i = i + 1;
        }
        proof {
            assert forall|n: Seq<char>| #[trigger] self.legacy_view().contains_key(n) implies exists|
                i: int,
            | 0 <= i < r@.len() && (#[trigger] r@[i]).0@ == n by {
                assert(names::by_name(self.legacy_macros@).contains_key(n));
                let i = choose|i: int| 0 <= i < keys@.len() && (#[trigger] keys@[i])@ == n;
                assert(r@[i].0@ == n);
            }
            assert forall|a: int, b: int| 0 <= a < b < r@.len() implies (#[trigger] r@[a]).0@ != (
            #[trigger] r@[b]).0@ by {
                assert(keys@[a]@ != keys@[b]@);
            }
        }
        r
    }

    /// The call of the derive attribute of an item.
    pub fn derive_macro_invoc(&self, ast_id: AstId, attr_id: AttrId) -> (r: Option<MacroCallId>)
        ensures
            r == (if self.derives_view().contains_key(ast_id) {
                match derives::find_attr(self.derives_view()[ast_id], attr_id, 0) {
                    Some(i) => Some(self.derives_view()[ast_id][i as int].attr_call_id),
                    None => None,
                }
            } else {
                None
            }),
    {
        match self.derive_macros.get(ast_id) {
            Some(all) => match all.find(attr_id) {
                Some(i) => {
                    let s = small::small_as_slice(&all.inner);
                    assert(self.derives_view()[ast_id] == all@);
                    assert(all@[i as int] == s@[i as int]@);
                    Some(s[i].attr_call_id)
                },
                None => None,
            },
            None => None,
        }
    }

    /// The derive attributes of all items, in no particular order.
    pub fn derive_macro_invocs(&self) -> (r: Vec<(AstId, &[DeriveMacroInvocation])>)
        requires
            self.wf(),
        ensures
            forall|n: AstId| #[trigger]
                self.derive_macros@.contains_key(n) ==> exists|i: int|
                    0 <= i < r@.len() && (#[trigger] r@[i]).0 == n,
            forall|i: int|
                0 <= i < r@.len() ==> self.derive_macros@.contains_key((#[trigger] r@[i]).0)
                    && r@[i].1@ == small::small(self.derive_macros@[r@[i].0].inner),
            forall|i: int, j: int|
                0 <= i < j < r@.len() ==> (#[trigger] r@[i]).0 != (#[trigger] r@[j]).0,
    {
        let all = self.derive_macros.entries();
        let mut r: Vec<(AstId, &[DeriveMacroInvocation])> = Vec::new();
        let mut i: usize = 0;
        while i < all.len()
            invariant
                i <= all@.len(),
                r@.len() == i,
                forall|j: int|
                    0 <= j < i ==> (#[trigger] r@[j]).0 == all@[j].0 && r@[j].1@
                        == small::small(all@[j].1.inner),
            decreases all@.len() - i,
        {
            r.push((all[i].0, small::small_as_slice(&all[i].1.inner)));
            i = i + 1;
        }
        proof {
            assert forall|n: AstId| #[trigger]
                self.derive_macros@.contains_key(n) implies exists|i: int|
                0 <= i < r@.len() && (#[trigger] r@[i]).0 == n by {
                let i = choose|i: int|
                    0 <= i < all@.len() && *(#[trigger] all@[i]) == (n, self.derive_macros@[n]);
                assert(r@[i].0 == n);
            }
            assert forall|i: int| 0 <= i < r@.len() implies self.derive_macros@.contains_key(
                (#[trigger] r@[i]).0,
            ) && r@[i].1@ == small::small(self.derive_macros@[r@[i].0].inner) by {
                assert(self.derive_macros@.contains_key(all@[i].0));
            }
            assert forall|a: int, b: int| 0 <= a < b < r@.len() implies (#[trigger] r@[a]).0 != (
            #[trigger] r@[b]).0 by {
                assert(all@[a].0 != all@[b].0);
            }
        }
        r
    }
}

} // verus!
