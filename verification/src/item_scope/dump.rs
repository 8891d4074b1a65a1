//! Printing a scope.

use super::imports::{ImportId, ImportOrExternCrate, ImportOrGlob};
use super::listing;
use super::names;
use super::scope::ItemScope;
use crate::ids::{MacroId, TraitId};
use crate::per_ns::{Item, PerNs};
use crate::sorting;
use crate::text;
use crate::thin::thin;
use vstd::prelude::*;
use vstd::string::StringExecFns;

verus! {

/// In which ways a macro can be called.
#[derive(Clone, Copy, PartialEq, Eq, Structural, Debug)]
pub struct MacroCallStyles {
    pub fn_like: bool,
    pub attr: bool,
    pub derive: bool,
}

/// What printing has to know of the things in a scope.
pub struct DumpInfo {
    /// How the macros can be called. Others are printed without a mark.
    pub styles: Vec<(MacroId, MacroCallStyles)>,
    /// The names that are keywords, which are printed as raw names.
    pub raw_names: Vec<String>,
}

impl DumpInfo {
    /// The styles of a macro, by the first of the entries from `i` on that are for it.
    pub open spec fn styles_from(self, mac: MacroId, i: nat) -> MacroCallStyles
        decreases self.styles@.len() - i,
    {
        if i >= self.styles@.len() {
            MacroCallStyles { fn_like: false, attr: false, derive: false }
        } else if self.styles@[i as int].0 == mac {
            self.styles@[i as int].1
        } else {
            self.styles_from(mac, i + 1)
        }
    }

    fn styles_of(&self, mac: MacroId) -> (r: MacroCallStyles)
        ensures
            r == self.styles_from(mac, 0),
    {
        let mut i: usize = 0;
        while i < self.styles.len()
            invariant
                i <= self.styles@.len(),
                self.styles_from(mac, 0) == self.styles_from(mac, i as nat),
            decreases self.styles@.len() - i,
        {
            if self.styles[i].0 == mac {
                return self.styles[i].1;
            }
            i = i + 1;
        }
        MacroCallStyles { fn_like: false, attr: false, derive: false }
    }

    pub open spec fn is_raw(self, name: Seq<char>) -> bool {
        exists|i: int| 0 <= i < self.raw_names@.len() && (#[trigger] self.raw_names@[i])@ == name
    }

    /// A name as it is printed.
    pub open spec fn shown(self, name: Seq<char>) -> Seq<char> {
        if self.is_raw(name) {
            "r#"@ + name
        } else {
            name
        }
    }

    fn push_name(&self, buf: &mut String, name: &str)
        ensures
            final(buf)@ == old(buf)@ + self.shown(name@),
    {
        let mut raw = false;
        let mut i: usize = 0;
        while i < self.raw_names.len()
            invariant
                i <= self.raw_names@.len(),
                raw <==> exists|j: int| 0 <= j < i && (#[trigger] self.raw_names@[j])@ == name@,
            decreases self.raw_names@.len() - i,
        {
            if text::same_text(self.raw_names[i].as_str(), name) {
                raw = true;
            }
            i = i + 1;
        }
        if raw {
            buf.append("r#");
        }
        buf.append(name);
        assert(buf@ =~= old(buf)@ + self.shown(name@));
    }
}

/// The marks of a macro: one if it is called like a function, one if it is an attribute or a derive.
pub open spec fn marks(styles: MacroCallStyles) -> Seq<char> {
    (if styles.fn_like {
        "!"@
    } else {
        ""@
    }) + (if styles.attr || styles.derive {
        "#"@
    } else {
        ""@
    })
}

fn push_marks(buf: &mut String, styles: MacroCallStyles)
    ensures
        final(buf)@ == old(buf)@ + marks(styles),
{
    buf.append(
        if styles.fn_like {
            "!"
        } else {
            ""
        },
    );
    buf.append(
        if styles.attr || styles.derive {
            "#"
        } else {
            ""
        },
    );
    assert(buf@ =~= old(buf)@ + marks(styles));
}

pub open spec fn import_mark(import: Option<ImportOrExternCrate>) -> Seq<char> {
    match import {
        Some(ImportOrExternCrate::Import(_)) => " (import)"@,
        Some(ImportOrExternCrate::Glob(_)) => " (glob)"@,
        Some(ImportOrExternCrate::ExternCrate(_)) => " (extern)"@,
        None => ""@,
    }
}

pub open spec fn value_import_mark(import: Option<ImportOrGlob>) -> Seq<char> {
    match import {
        Some(ImportOrGlob::Import(_)) => " (import)"@,
        Some(ImportOrGlob::Glob(_)) => " (glob)"@,
        None => ""@,
    }
}

fn import_str(import: Option<ImportOrExternCrate>) -> (r: &'static str)
    ensures
        r@ == import_mark(import),
{
    match import {
        Some(ImportOrExternCrate::Import(_)) => " (import)",
        Some(ImportOrExternCrate::Glob(_)) => " (glob)",
        Some(ImportOrExternCrate::ExternCrate(_)) => " (extern)",
        None => "",
    }
}

fn value_import_str(import: Option<ImportOrGlob>) -> (r: &'static str)
    ensures
        r@ == value_import_mark(import),
{
    match import {
        Some(ImportOrGlob::Import(_)) => " (import)",
        Some(ImportOrGlob::Glob(_)) => " (glob)",
        None => "",
    }
}

pub open spec fn type_text(def: PerNs) -> Seq<char> {
    match def.types {
        Some(item) => " type"@ + import_mark(item.import),
        None => Seq::empty(),
    }
}

pub open spec fn value_text(def: PerNs) -> Seq<char> {
    match def.values {
        Some(item) => " value"@ + value_import_mark(item.import),
        None => Seq::empty(),
    }
}

pub open spec fn macro_text(info: DumpInfo, def: PerNs) -> Seq<char> {
    match def.macros {
        Some(item) => " macro"@ + marks(info.styles_from(item.def, 0)) + import_mark(item.import),
        None => Seq::empty(),
    }
}

/// What a name stands for, as it is printed.
pub open spec fn def_text(info: DumpInfo, def: PerNs) -> Seq<char> {
    if def.spec_is_none() {
        " _"@
    } else {
        type_text(def) + value_text(def) + macro_text(info, def)
    }
}

fn push_def(info: &DumpInfo, buf: &mut String, def: PerNs)
    ensures
        final(buf)@ == old(buf)@ + def_text(*info, def),
{
    let ghost start = buf@;
    if def.is_none() {
        buf.append(" _");
        return;
    }
    if let Some(item) = def.types {
        buf.append(" type");
        buf.append(import_str(item.import));
    }
    assert(buf@ =~= start + type_text(def));
    let ghost after_types = buf@;
    if let Some(item) = def.values {
        buf.append(" value");
        buf.append(value_import_str(item.import));
    }
    assert(buf@ =~= after_types + value_text(def));
    let ghost after_values = buf@;
    if let Some(item) = def.macros {
        buf.append(" macro");
        push_marks(buf, info.styles_of(item.def));
        buf.append(import_str(item.import));
    }
    assert(buf@ =~= after_values + macro_text(*info, def));
    assert(buf@ =~= start + (type_text(def) + value_text(def) + macro_text(*info, def)));
}

/// The line of a name.
pub open spec fn line_text(info: DumpInfo, name: Seq<char>, def: PerNs) -> Seq<char> {
    "- "@ + name + " :"@ + def_text(info, def) + "\n"@
}

pub open spec fn shown_name(info: DumpInfo, name: Option<&str>) -> Seq<char> {
    match name {
        Some(n) => info.shown(n@),
        None => "_"@,
    }
}

fn push_line(info: &DumpInfo, buf: &mut String, name: Option<&str>, def: PerNs)
    ensures
        final(buf)@ == old(buf)@ + line_text(*info, shown_name(*info, name), def),
{
    let ghost start = buf@;
    let ghost shown = shown_name(*info, name);
    let ghost d = def_text(*info, def);
    buf.append("- ");
    match name {
        Some(n) => info.push_name(buf, n),
        None => buf.append("_"),
    }
    buf.append(" :");
    push_def(info, buf, def);
    buf.append("\n");
    assert(buf@ =~= start + ("- "@ + shown + " :"@ + d + "\n"@));
}

/// The lines of the first `n` traits without a name.
pub open spec fn trait_lines(
    info: DumpInfo,
    s: Seq<(TraitId, Item<(), ImportId>)>,
    n: nat,
) -> Seq<char>
    decreases n,
{
    if n == 0 {
        Seq::empty()
    } else {
        trait_lines(info, s, (n - 1) as nat) + line_text(
            info,
            "_"@,
            listing::unnamed_trait(s[n - 1]),
        )
    }
}

/// The lines of the first `n` names.
pub open spec fn name_lines(info: DumpInfo, s: Seq<(&String, PerNs)>, n: nat) -> Seq<char>
    decreases n,
{
    if n == 0 {
        Seq::empty()
    } else {
        name_lines(info, s, (n - 1) as nat) + line_text(
            info,
            info.shown(s[n - 1].0@),
            s[n - 1].1,
        )
    }
}

/// The first `n` macros of a name, as they are printed.
pub open spec fn macros_text(info: DumpInfo, s: Seq<MacroId>, n: nat) -> Seq<char>
    decreases n,
{
    if n == 0 {
        Seq::empty()
    } else {
        macros_text(info, s, (n - 1) as nat) + " macro"@ + marks(info.styles_from(s[n - 1], 0))
    }
}

/// The line of a name of macros that are seen by their place in the text.
pub open spec fn legacy_line(info: DumpInfo, name: Seq<char>, macros: Seq<MacroId>) -> Seq<char> {
    "- (legacy) "@ + info.shown(name) + " :"@ + macros_text(info, macros, macros.len()) + "\n"@
}

pub open spec fn legacy_lines(
    info: DumpInfo,
    scope: ItemScope,
    s: Seq<&String>,
    n: nat,
) -> Seq<char>
    decreases n,
{
    if n == 0 {
        Seq::empty()
    } else {
        legacy_lines(info, scope, s, (n - 1) as nat) + legacy_line(
            info,
            s[n - 1]@,
            scope.legacy_view()[s[n - 1]@],
        )
    }
}

/// Whether these are the names of the macros that are seen by their place in the text, in order.
pub open spec fn legacy_listed(s: Seq<&String>, scope: ItemScope) -> bool {
    &&& sorting::increasing(s)
    &&& forall|n: Seq<char>| #[trigger]
        sorting::has_text(s, n) <==> scope.legacy_view().contains_key(n)
}

/// The text of a scope: the traits without a name, the names in order, and the macros that are seen
/// by their place in the text at the end of the scope.
pub open spec fn dump_text(
    info: DumpInfo,
    scope: ItemScope,
    entries: Seq<(&String, PerNs)>,
    legacy: Seq<&String>,
) -> Seq<char> {
    let traits = thin(scope.unnamed_trait_imports);
    trait_lines(info, traits, traits.len()) + name_lines(info, entries, entries.len())
        + legacy_lines(info, scope, legacy, legacy.len())
}

impl ItemScope {
    /// Prints the scope.
    pub fn dump(&self, info: &DumpInfo, buf: &mut String)
        requires
            self.wf(),
        ensures
            exists|entries: Seq<(&String, PerNs)>, legacy: Seq<&String>|
                #![trigger listing::listed(entries, *self), legacy_listed(legacy, *self)]
                {
                    &&& listing::listed(entries, *self)
                    &&& legacy_listed(legacy, *self)
                    &&& final(buf)@ == old(buf)@ + dump_text(*info, *self, entries, legacy)
                },
    {
        let ghost start = buf@;
        let traits = self.unnamed_trait_imports.as_slice();
        let mut i: usize = 0;
        assert(buf@ =~= start + trait_lines(*info, traits@, 0));
        while i < traits.len()
            invariant
                i <= traits@.len(),
                buf@ == start + trait_lines(*info, traits@, i as nat),
            decreases traits@.len() - i,
        {
            let (tr, item) = traits[i];
            let import = match item.import {
                Some(import) => Some(ImportOrExternCrate::Import(import)),
                None => None,
            };
            let def = PerNs::types(crate::ids::ModuleDefId::TraitId(tr), item.vis, import);
            assert(def == listing::unnamed_trait(traits@[i as int]));
            push_line(info, buf, None, def);
            i = i + 1;
            assert(buf@ =~= start + trait_lines(*info, traits@, i as nat));
        }
        let ghost after_traits = buf@;
        let entries = self.entries();
        let mut i: usize = 0;
        assert(buf@ =~= after_traits + name_lines(*info, entries@, 0));
        while i < entries.len()
            invariant
                i <= entries@.len(),
                buf@ == after_traits + name_lines(*info, entries@, i as nat),
            decreases entries@.len() - i,
        {
            let (name, def) = entries[i];
            push_line(info, buf, Some(name.as_str()), def);
            i = i + 1;
            assert(buf@ =~= after_traits + name_lines(*info, entries@, i as nat));
        }
        let ghost after_names = buf@;
        let keys = names::name_hash_map_keys(&self.legacy_macros);
        let ghost unsorted = keys@;
        let legacy = sorting::sorted_dedup(keys);
        proof {
            assert forall|n: Seq<char>| #[trigger]
                sorting::has_text(legacy@, n) <==> self.legacy_view().contains_key(n) by {
                assert(names::by_name(self.legacy_macros@).contains_key(n)
                    <==> sorting::has_text(unsorted, n));
            }
        }
        let mut i: usize = 0;
        assert(buf@ =~= after_names + legacy_lines(*info, *self, legacy@, 0));
        while i < legacy.len()
            invariant
                i <= legacy@.len(),
                legacy_listed(legacy@, *self),
                buf@ == after_names + legacy_lines(*info, *self, legacy@, i as nat),
            decreases legacy@.len() - i,
        {
            let ghost so_far = buf@;
            let name = legacy[i];
            assert(sorting::has_text(legacy@, legacy@[i as int]@));
            buf.append("- (legacy) ");
            info.push_name(buf, name.as_str());
            buf.append(" :");
            if let Some(macros) = self.get_legacy_macro(name.as_str()) {
                let ghost head = buf@;
                let mut k: usize = 0;
                assert(buf@ =~= head + macros_text(*info, macros@, 0));
                while k < macros.len()
                    invariant
                        k <= macros@.len(),
                        buf@ == head + macros_text(*info, macros@, k as nat),
                    decreases macros@.len() - k,
                {
                    buf.append(" macro");
                    push_marks(buf, info.styles_of(macros[k]));
                    k = k + 1;
                    assert(buf@ =~= head + macros_text(*info, macros@, k as nat));
                }
            }
            buf.append("\n");
            i = i + 1;
            assert(buf@ =~= so_far + legacy_line(*info, name@, self.legacy_view()[name@]));
            assert(buf@ =~= after_names + legacy_lines(*info, *self, legacy@, i as nat));
        }
        assert(buf@ =~= start + dump_text(*info, *self, entries@, legacy@));
    }
}

} // verus!
