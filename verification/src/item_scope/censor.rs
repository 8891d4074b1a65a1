//! Hiding what a crate of procedural macros does not offer to others.

use super::imports::{ImportId, ScopeVisibility};
use super::names;
use super::names::NameMap;
use super::scope::{ItemScope, ScopeTypesItem, ScopeValuesItem};
use crate::ids::{Crate, MacroId, TraitId, Visibility};
use crate::per_ns::{Item, MacrosItem};
use crate::thin::thin;
use thin_vec::ThinVec;
use vstd::prelude::*;

verus! {

/// The entries of a namespace with the given visibility.
pub open spec fn seen_from<D, I>(s: Seq<(Seq<char>, Item<D, I>)>, vis: Visibility) -> Seq<
    (Seq<char>, Item<D, I>),
> {
    Seq::new(s.len(), |i: int| (s[i].0, Item { vis, ..s[i].1 }))
}

/// Whether others can see a macro: a procedural macro that is defined here.
pub open spec fn is_offered(item: MacrosItem) -> bool {
    item.def is ProcMacroId && item.import is None
}

pub open spec fn censored_macro(item: MacrosItem, vis: Visibility) -> MacrosItem {
    if is_offered(item) {
        item
    } else {
        Item { vis, ..item }
    }
}

/// The macros with the given visibility, but for those that others can see.
pub open spec fn censored_macros(s: Seq<(Seq<char>, MacrosItem)>, vis: Visibility) -> Seq<
    (Seq<char>, MacrosItem),
> {
    Seq::new(s.len(), |i: int| (s[i].0, censored_macro(s[i].1, vis)))
}

pub open spec fn censored_traits(
    s: Seq<(TraitId, Item<(), ImportId>)>,
    vis: Visibility,
) -> Seq<(TraitId, Item<(), ImportId>)> {
    Seq::new(s.len(), |i: int| (s[i].0, Item { vis, ..s[i].1 }))
}

fn censor_types(map: &mut NameMap<ScopeTypesItem>, vis: ScopeVisibility)
    ensures
        names::entries(*final(map)).len() == names::entries(*old(map)).len(),
        forall|i: int|
            0 <= i < names::entries(*old(map)).len() ==> #[trigger] names::entries(*final(map))[i]
                == (
                names::entries(*old(map))[i].0,
                (ScopeTypesItem { vis, ..names::entries(*old(map))[i].1 }),
            ),
{
    let ghost e = names::entries(*map);
    let len: usize = names::name_map_len(map);
    let mut i: usize = 0;
    while i < len
        invariant
            i <= len,
            len == e.len(),
            e == names::entries(*old(map)),
            names::entries(*map).len() == len,
            forall|j: int| i <= j < len ==> #[trigger] names::entries(*map)[j] == e[j],
            forall|j: int|
                0 <= j < i ==> #[trigger] names::entries(*map)[j] == (
                    e[j].0,
                    (ScopeTypesItem { vis, ..e[j].1 }),
                ),
        decreases len - i,
    {
        let item = *names::name_map_at(map, i).1;
        names::name_map_set(map, i, ScopeTypesItem { def: item.def, vis, import: item.import });
        i = i + 1;
    }
}

fn censor_values(map: &mut NameMap<ScopeValuesItem>, vis: ScopeVisibility)
    ensures
        names::entries(*final(map)).len() == names::entries(*old(map)).len(),
        forall|i: int|
            0 <= i < names::entries(*old(map)).len() ==> #[trigger] names::entries(*final(map))[i]
                == (
                names::entries(*old(map))[i].0,
                (ScopeValuesItem { vis, ..names::entries(*old(map))[i].1 }),
            ),
{
    let ghost e = names::entries(*map);
    let len: usize = names::name_map_len(map);
    let mut i: usize = 0;
    while i < len
        invariant
            i <= len,
            len == e.len(),
            e == names::entries(*old(map)),
            names::entries(*map).len() == len,
            forall|j: int| i <= j < len ==> #[trigger] names::entries(*map)[j] == e[j],
            forall|j: int|
                0 <= j < i ==> #[trigger] names::entries(*map)[j] == (
                    e[j].0,
                    (ScopeValuesItem { vis, ..e[j].1 }),
                ),
        decreases len - i,
    {
        let item = *names::name_map_at(map, i).1;
        names::name_map_set(map, i, ScopeValuesItem { def: item.def, vis, import: item.import });
        i = i + 1;
    }
}

fn censor_macros(map: &mut NameMap<MacrosItem>, vis: Visibility)
    ensures
        names::entries(*final(map)).len() == names::entries(*old(map)).len(),
        forall|i: int|
            0 <= i < names::entries(*old(map)).len() ==> #[trigger] names::entries(*final(map))[i]
                == (
                names::entries(*old(map))[i].0,
                censored_macro(names::entries(*old(map))[i].1, vis),
            ),
{
    let ghost e = names::entries(*map);
    let len: usize = names::name_map_len(map);
    let mut i: usize = 0;
    while i < len
        invariant
            i <= len,
            len == e.len(),
            e == names::entries(*old(map)),
            names::entries(*map).len() == len,
            forall|j: int| i <= j < len ==> #[trigger] names::entries(*map)[j] == e[j],
            forall|j: int|
                0 <= j < i ==> #[trigger] names::entries(*map)[j] == (
                    e[j].0,
                    censored_macro(e[j].1, vis),
                ),
        decreases len - i,
    {
        let item = *names::name_map_at(map, i).1;
        let offered = matches!(item.def, MacroId::ProcMacroId(_)) && item.import.is_none();
        if !offered {
            names::name_map_set(map, i, Item { def: item.def, vis, import: item.import });
        }
        i = i + 1;
    }
}

impl ItemScope {
    /// Lets only the crate itself see what is not a procedural macro of its own.
    pub fn censor_non_proc_macros(&mut self, krate: Crate)
        requires
            old(self).wf(),
            old(self).has_room(1),
        ensures
            final(self).wf(),
            final(self).types_view() == seen_from(
                old(self).types_view(),
                Visibility::PubCrate(krate),
            ),
            final(self).values_view() == seen_from(
                old(self).values_view(),
                Visibility::PubCrate(krate),
            ),
            final(self).macros_view() == censored_macros(
                old(self).macros_view(),
                Visibility::PubCrate(krate),
            ),
            thin(final(self).unnamed_trait_imports) == censored_traits(
                thin(old(self).unnamed_trait_imports),
                Visibility::PubCrate(krate),
            ),
            final(self).same_imports(*old(self)),
            *final(self) == (ItemScope {
                types: final(self).types,
                values: final(self).values,
                macros: final(self).macros,
                visibilities: final(self).visibilities,
                unnamed_trait_imports: final(self).unnamed_trait_imports,
                ..*old(self)
            }),
    {
        let ghost before = *self;
        let visibility = Visibility::PubCrate(krate);
        let vis = self.intern_visibility(visibility);
        let ghost mid = *self;
        censor_types(&mut self.types, vis);
        censor_values(&mut self.values, vis);
        let mut traits: ThinVec<(TraitId, Item<(), ImportId>)> = ThinVec::new();
        let len: usize = self.unnamed_trait_imports.as_slice().len();
        let ghost all = thin(self.unnamed_trait_imports);
        let mut i: usize = 0;
        assert(thin(traits) =~= censored_traits(all, visibility).take(0));
        while i < len
            invariant
                i <= len,
                all == thin(self.unnamed_trait_imports),
                len == all.len(),
                thin(traits) == censored_traits(all, visibility).take(i as int),
            decreases len - i,
        {
            let (tr, item) = self.unnamed_trait_imports.as_slice()[i];
            traits.push((tr, Item { def: (), vis: visibility, import: item.import }));
            i = i + 1;
            assert(thin(traits) =~= censored_traits(all, visibility).take(i as int));
        }
        assert(censored_traits(all, visibility).take(len as int) =~= censored_traits(
            all,
            visibility,
        ));
        self.unnamed_trait_imports = traits;
        censor_macros(&mut self.macros, visibility);
        proof {
            let (t0, t1) = (names::entries(mid.types), names::entries(self.types));
            let (v0, v1) = (names::entries(mid.values), names::entries(self.values));
            let (m0, m1) = (names::entries(mid.macros), names::entries(self.macros));
            assert forall|a: int, b: int| 0 <= a < b < t1.len() implies (#[trigger] t1[a]).0@ != (
            #[trigger] t1[b]).0@ by {
                assert(t0[a].0@ != t0[b].0@);
            }
            assert forall|a: int, b: int| 0 <= a < b < v1.len() implies (#[trigger] v1[a]).0@ != (
            #[trigger] v1[b]).0@ by {
                assert(v0[a].0@ != v0[b].0@);
            }
            assert forall|a: int, b: int| 0 <= a < b < m1.len() implies (#[trigger] m1[a]).0@ != (
            #[trigger] m1[b]).0@ by {
                assert(m0[a].0@ != m0[b].0@);
            }
            assert forall|a: int| 0 <= a < t1.len() implies (#[trigger] t1[a]).1.fits(
                self.vis_table(),
                self.import_table(),
            ) by {
                assert(t0[a].1.fits(mid.vis_table(), mid.import_table()));
            }
            assert forall|a: int| 0 <= a < v1.len() implies (#[trigger] v1[a]).1.fits(
                self.vis_table(),
                self.import_table(),
            ) by {
                assert(v0[a].1.fits(mid.vis_table(), mid.import_table()));
            }
            assert(self.types_view() =~= seen_from(mid.types_view(), visibility));
            assert(self.values_view() =~= seen_from(mid.values_view(), visibility));
            assert(self.macros_view() =~= censored_macros(mid.macros_view(), visibility));
            assert(mid.macros_view() =~= before.macros_view());
        }
    }
}

} // verus!
