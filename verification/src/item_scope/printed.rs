//! What is printed of a scope, and what is told of its calls, by what is recorded in it.

use super::builtin;
use super::calls;
use super::derives::{DeriveCall, DeriveInvocations, DeriveMacroInvocation};
use super::dump;
use super::dump::{DumpInfo, MacroCallStyles};
use super::imports::{ImportId, ImportOrExternCrate, ImportOrGlob};
use super::keys::AstId;
use super::listing;
use super::names;
use super::names::NameMap;
use super::scope::ItemScope;
use crate::ids::{BuiltinType, MacroCallId, MacroId, TraitId, Visibility};
use crate::per_ns::{Item, PerNs};
use crate::selection::{selection_grows, selects};
use crate::small;
use crate::sorting;
use crate::thin::thin;
use vstd::multiset::Multiset;
use vstd::prelude::*;

verus! {

/// How the import is told that something came by.
pub open spec fn tells_import(mark: Seq<char>, import: Option<ImportOrExternCrate>) -> bool {
    &&& import is None ==> mark == ""@
    &&& import is Some && import->0 is Import ==> mark == " (import)"@
    &&& import is Some && import->0 is Glob ==> mark == " (glob)"@
    &&& import is Some && import->0 is ExternCrate ==> mark == " (extern)"@
}

pub open spec fn tells_value_import(mark: Seq<char>, import: Option<ImportOrGlob>) -> bool {
    &&& import is None ==> mark == ""@
    &&& import is Some && import->0 is Import ==> mark == " (import)"@
    &&& import is Some && import->0 is Glob ==> mark == " (glob)"@
}

/// How it is told in which ways a macro can be called.
pub open spec fn tells_styles(mark: Seq<char>, styles: MacroCallStyles) -> bool {
    &&& styles.fn_like && (styles.attr || styles.derive) ==> mark == "!"@ + "#"@
    &&& styles.fn_like && !styles.attr && !styles.derive ==> mark == "!"@
    &&& !styles.fn_like && (styles.attr || styles.derive) ==> mark == "#"@
    &&& !styles.fn_like && !styles.attr && !styles.derive ==> mark == ""@
}

/// The line of a name tells for each namespace, in the order of types, values and macros, that the name
/// stands for something there, and by which import. A name that stands for nothing is marked so.
pub proof fn lines_tell_what_names_stand_for(
    info: DumpInfo,
    name: Seq<char>,
    def: PerNs,
    types: Seq<char>,
    values: Seq<char>,
    styles: Seq<char>,
    macros: Seq<char>,
)
    requires
        def.types matches Some(item) ==> tells_import(types, item.import),
        def.values matches Some(item) ==> tells_value_import(values, item.import),
        def.macros matches Some(item) ==> tells_import(macros, item.import) && tells_styles(
            styles,
            info.styles_from(item.def, 0),
        ),
    ensures
        def.types is None && def.values is None && def.macros is None ==> dump::line_text(
            info,
            name,
            def,
        ) == "- "@ + name + " :"@ + " _"@ + "\n"@,
        def.types is Some || def.values is Some || def.macros is Some ==> dump::line_text(
            info,
            name,
            def,
        ) == "- "@ + name + " :"@ + ((if def.types is Some {
            " type"@ + types
        } else {
            ""@
        }) + (if def.values is Some {
            " value"@ + values
        } else {
            ""@
        }) + (if def.macros is Some {
            " macro"@ + styles + macros
        } else {
            ""@
        })) + "\n"@,
{
    reveal_strlit("");
    assert(""@ =~= Seq::<char>::empty());
    if let Some(item) = def.macros {
        let s = info.styles_from(item.def, 0);
        assert(dump::marks(s) =~= styles) by {
            assert("!"@ + ""@ =~= "!"@);
            assert(""@ + "#"@ =~= "#"@);
            assert(""@ + ""@ =~= ""@);
        }
    }
}

/// A name that is a keyword is printed as a raw name, and every other as it is.
pub proof fn keywords_are_printed_raw(info: DumpInfo, name: Seq<char>)
    ensures
        (exists|i: int| 0 <= i < info.raw_names@.len() && (#[trigger] info.raw_names@[i])@ == name)
            ==> info.shown(name) == "r#"@ + name,
        (forall|i: int| 0 <= i < info.raw_names@.len() ==> (#[trigger] info.raw_names@[i])@ != name)
            ==> info.shown(name) == name,
{
}

proof fn lemma_styles(info: DumpInfo, mac: MacroId, i: nat, k: int)
    requires
        i <= k < info.styles@.len(),
        info.styles@[k].0 == mac,
        forall|j: int| i <= j < k ==> (#[trigger] info.styles@[j]).0 != mac,
    ensures
        info.styles_from(mac, i) == info.styles@[k].1,
    decreases k - i,
{
    if i < k {
        assert(info.styles@[i as int].0 != mac);
        lemma_styles(info, mac, i + 1, k);
    }
}

/// The ways in which a macro can be called are those of the first entry for it.
pub proof fn styles_are_those_of_the_first_entry(info: DumpInfo, mac: MacroId, k: int)
    requires
        0 <= k < info.styles@.len(),
        info.styles@[k].0 == mac,
        forall|j: int| 0 <= j < k ==> (#[trigger] info.styles@[j]).0 != mac,
    ensures
        info.styles_from(mac, 0) == info.styles@[k].1,
{
    lemma_styles(info, mac, 0, k);
}

/// Lines behind each other.
pub open spec fn joined(lines: Seq<Seq<char>>) -> Seq<char>
    decreases lines.len(),
{
    if lines.len() == 0 {
        Seq::empty()
    } else {
        joined(lines.drop_last()) + lines.last()
    }
}

proof fn lemma_trait_lines(
    info: DumpInfo,
    s: Seq<(TraitId, Item<(), ImportId>)>,
    lines: Seq<Seq<char>>,
)
    requires
        lines.len() <= s.len(),
        forall|i: int|
            0 <= i < lines.len() ==> #[trigger] lines[i] == dump::line_text(
                info,
                "_"@,
                listing::unnamed_trait(s[i]),
            ),
    ensures
        dump::trait_lines(info, s, lines.len()) == joined(lines),
    decreases lines.len(),
{
    if lines.len() > 0 {
        lemma_trait_lines(info, s, lines.drop_last());
    }
}

proof fn lemma_name_lines(info: DumpInfo, s: Seq<(&String, PerNs)>, lines: Seq<Seq<char>>)
    requires
        lines.len() <= s.len(),
        forall|i: int|
            0 <= i < lines.len() ==> #[trigger] lines[i] == dump::line_text(
                info,
                info.shown(s[i].0@),
                s[i].1,
            ),
    ensures
        dump::name_lines(info, s, lines.len()) == joined(lines),
    decreases lines.len(),
{
    if lines.len() > 0 {
        lemma_name_lines(info, s, lines.drop_last());
    }
}

proof fn lemma_legacy_lines(
    info: DumpInfo,
    scope: ItemScope,
    s: Seq<&String>,
    lines: Seq<Seq<char>>,
)
    requires
        lines.len() <= s.len(),
        forall|i: int|
            0 <= i < lines.len() ==> #[trigger] lines[i] == dump::legacy_line(
                info,
                s[i]@,
                scope.legacy_view()[s[i]@],
            ),
    ensures
        dump::legacy_lines(info, scope, s, lines.len()) == joined(lines),
    decreases lines.len(),
{
    if lines.len() > 0 {
        lemma_legacy_lines(info, scope, s, lines.drop_last());
    }
}

/// A scope is printed line by line: a line for each trait without a name, one for each name, and one
/// for each name of macros that are seen by their place in the text.
pub proof fn scopes_are_printed_line_by_line(
    info: DumpInfo,
    scope: ItemScope,
    entries: Seq<(&String, PerNs)>,
    legacy: Seq<&String>,
    traits: Seq<Seq<char>>,
    names: Seq<Seq<char>>,
    macros: Seq<Seq<char>>,
)
    requires
        traits.len() == thin(scope.unnamed_trait_imports).len(),
        forall|i: int|
            0 <= i < traits.len() ==> #[trigger] traits[i] == dump::line_text(
                info,
                "_"@,
                listing::unnamed_trait(thin(scope.unnamed_trait_imports)[i]),
            ),
        names.len() == entries.len(),
        forall|i: int|
            0 <= i < names.len() ==> #[trigger] names[i] == dump::line_text(
                info,
                info.shown(entries[i].0@),
                entries[i].1,
            ),
        macros.len() == legacy.len(),
        forall|i: int|
            0 <= i < macros.len() ==> #[trigger] macros[i] == dump::legacy_line(
                info,
                legacy[i]@,
                scope.legacy_view()[legacy[i]@],
            ),
    ensures
        dump::dump_text(info, scope, entries, legacy) == joined(traits) + joined(names) + joined(
            macros,
        ),
{
    lemma_trait_lines(info, thin(scope.unnamed_trait_imports), traits);
    lemma_name_lines(info, entries, names);
    lemma_legacy_lines(info, scope, legacy, macros);
}

proof fn lemma_macros_text(info: DumpInfo, s: Seq<MacroId>, parts: Seq<Seq<char>>)
    requires
        parts.len() <= s.len(),
        forall|i: int|
            0 <= i < parts.len() ==> #[trigger] parts[i] == " macro"@ + dump::marks(
                info.styles_from(s[i], 0),
            ),
    ensures
        dump::macros_text(info, s, parts.len()) == joined(parts),
    decreases parts.len(),
{
    if parts.len() > 0 {
        lemma_macros_text(info, s, parts.drop_last());
        let before = dump::macros_text(info, s, (parts.len() - 1) as nat);
        let marks = dump::marks(info.styles_from(s[parts.len() - 1], 0));
        assert(before + " macro"@ + marks =~= before + (" macro"@ + marks));
    }
}

/// The line of macros that are seen by their place in the text lists all macros of the name, in order.
pub proof fn lines_of_macros_list_all_of_them(
    info: DumpInfo,
    name: Seq<char>,
    macros: Seq<MacroId>,
    parts: Seq<Seq<char>>,
)
    requires
        parts.len() == macros.len(),
        forall|i: int|
            0 <= i < parts.len() ==> #[trigger] parts[i] == " macro"@ + dump::marks(
                info.styles_from(macros[i], 0),
            ),
    ensures
        dump::legacy_line(info, name, macros) == "- (legacy) "@ + info.shown(name) + " :"@ + joined(
            parts,
        ) + "\n"@,
{
    lemma_macros_text(info, macros, parts);
}

/// The macros that are seen by their place in the text are listed by all their names, in the order of
/// the text of the names, each once.
pub proof fn all_names_of_macros_are_listed(s: Seq<&String>, scope: ItemScope, name: Seq<char>)
    requires
        dump::legacy_listed(s, scope),
    ensures
        (exists|i: int| 0 <= i < s.len() && (#[trigger] s[i])@ == name) <==> scope.legacy_view(
        ).contains_key(name),
        forall|i: int, j: int|
            0 <= i < j < s.len() ==> sorting::text_le((#[trigger] s[i])@, (#[trigger] s[j])@)
                && s[i]@ != s[j]@,
{
    assert(sorting::has_text(s, name) <==> scope.legacy_view().contains_key(name));
}

// Calls.

/// The calls of a scope are those that are recorded for nodes as calls by name or as attributes, and
/// those that the derives of its items lead to.
pub proof fn calls_are_those_recorded(scope: ItemScope, call: MacroCallId)
    ensures
        scope.calls_macro(call) <==> ({
            ||| exists|n: AstId| #[trigger]
                scope.macro_invocations@.contains_key(n) && scope.macro_invocations@[n] == call
            ||| exists|n: AstId| #[trigger]
                scope.attr_macros@.contains_key(n) && scope.attr_macros@[n] == call
            ||| exists|n: AstId, i: int, j: int|
                #![trigger small::small(small::small(scope.derive_macros@[n].inner)[i].derive_call_ids)[j]]
                {
                    let attrs = small::small(scope.derive_macros@[n].inner);
                    let ids = small::small(attrs[i].derive_call_ids);
                    &&& scope.derive_macros@.contains_key(n)
                    &&& 0 <= i < attrs.len()
                    &&& 0 <= j < ids.len()
                    &&& ids[j] == Some(DeriveCall::Macro(call))
                }
        }),
{
    if calls::derive_calls(scope.derive_macros@, call) {
        let n = choose|n: AstId| #[trigger]
            scope.derive_macros@.contains_key(n) && calls::invocation_calls(
                small::small(scope.derive_macros@[n].inner),
                call,
            );
        let attrs = small::small(scope.derive_macros@[n].inner);
        let i = choose|i: int|
            0 <= i < attrs.len() && small::small((#[trigger] attrs[i]).derive_call_ids).contains(
                Some(DeriveCall::Macro(call)),
            );
        let ids = small::small(attrs[i].derive_call_ids);
        let j = choose|j: int| 0 <= j < ids.len() && ids[j] == Some(DeriveCall::Macro(call));
        assert(small::small(small::small(scope.derive_macros@[n].inner)[i].derive_call_ids)[j]
            == Some(DeriveCall::Macro(call)));
    }
    assert forall|n: AstId, i: int, j: int|
        #![trigger small::small(small::small(scope.derive_macros@[n].inner)[i].derive_call_ids)[j]]
        ({
            let attrs = small::small(scope.derive_macros@[n].inner);
            let ids = small::small(attrs[i].derive_call_ids);
            &&& scope.derive_macros@.contains_key(n)
            &&& 0 <= i < attrs.len()
            &&& 0 <= j < ids.len()
            &&& ids[j] == Some(DeriveCall::Macro(call))
        }) implies calls::derive_calls(scope.derive_macros@, call) by {
        let attrs = small::small(scope.derive_macros@[n].inner);
        assert(small::small(attrs[i].derive_call_ids).contains(Some(DeriveCall::Macro(call))));
        assert(calls::invocation_calls(attrs, call));
    }
}

proof fn lemma_node_calls(m: Map<AstId, MacroCallId>, call: MacroCallId)
    requires
        m.dom().finite(),
    ensures
        calls::node_calls(m).count(call) == m.dom().filter(|n: AstId| m[n] == call).len(),
    decreases m.dom().len(),
{
    let f = |c: MacroCallId| Multiset::singleton(c);
    let leads = |n: AstId| m[n] == call;
    if m.dom().len() == 0 {
        assert(m.dom() =~= Set::empty());
        assert(m.dom().filter(leads) =~= Set::empty());
    } else {
        let n = m.dom().choose();
        assert(m.dom().contains(n));
        let rest = m.remove(n);
        let shorter = |k: AstId| rest[k] == call;
        lemma_node_calls(rest, call);
        assert(rest.dom() =~= m.dom().remove(n));
        m.dom().lemma_len_filter(leads);
        rest.dom().lemma_len_filter(shorter);
        if m[n] == call {
            assert(m.dom().filter(leads) =~= rest.dom().filter(shorter).insert(n));
        } else {
            assert(m.dom().filter(leads) =~= rest.dom().filter(shorter));
        }
    }
}

proof fn lemma_derive_calls(
    ids: Seq<Option<DeriveCall>>,
    n: nat,
    call: MacroCallId,
    keep: spec_fn(int) -> bool,
) -> (idx: Seq<int>)
    requires
        n <= ids.len(),
        forall|i: int| #[trigger] keep(i) == (ids[i] == Some(DeriveCall::Macro(call))),
    ensures
        selects(idx, n as int, keep),
        calls::call_id_calls(ids, n).count(call) == idx.len(),
    decreases n,
{
    if n == 0 {
        Seq::empty()
    } else {
        let before = lemma_derive_calls(ids, (n - 1) as nat, call, keep);
        selection_grows(before, n - 1, keep);
        if ids[n - 1] == Some(DeriveCall::Macro(call)) {
            assert(keep(n - 1));
            before.push(n - 1)
        } else {
            assert(!keep(n - 1));
            before
        }
    }
}

/// A derive attribute leads to a call as often as one of its derives does.
pub proof fn derives_call_as_often_as_they_say(ids: Seq<Option<DeriveCall>>, call: MacroCallId) -> (idx:
    Seq<int>)
    ensures
        selects(idx, ids.len() as int, |i: int| ids[i] == Some(DeriveCall::Macro(call))),
        calls::call_id_calls(ids, ids.len()).count(call) == idx.len(),
{
    lemma_derive_calls(
        ids,
        ids.len(),
        call,
        |i: int| ids[i] == Some(DeriveCall::Macro(call)),
    )
}

/// A call comes as often as it is recorded: once for each node that has it as a call by name or as an
/// attribute, and as often as the derives of the items lead to it.
pub proof fn calls_come_as_often_as_recorded(scope: ItemScope, call: MacroCallId)
    requires
        scope.macro_invocations@.dom().finite(),
        scope.attr_macros@.dom().finite(),
    ensures
        scope.macro_calls().count(call) == scope.macro_invocations@.dom().filter(
            |n: AstId| scope.macro_invocations@[n] == call,
        ).len() + scope.attr_macros@.dom().filter(
            |n: AstId| scope.attr_macros@[n] == call,
        ).len() + calls::sum_over(
            scope.derive_macros@,
            |d: DeriveInvocations| calls::item_calls(d),
        ).count(call),
{
    lemma_node_calls(scope.macro_invocations@, call);
    lemma_node_calls(scope.attr_macros@, call);
}

/// The calls of the derives of an item are those of its attributes, one after the other, and those of a
/// scope are those of its items.
pub proof fn derives_of_items_come_together(
    all: Map<AstId, DeriveInvocations>,
    item: AstId,
    attrs: Seq<DeriveMacroInvocation>,
    attr: DeriveMacroInvocation,
    call: MacroCallId,
)
    requires
        all.dom().finite(),
        all.contains_key(item),
    ensures
        ({
            let f = |d: DeriveInvocations| calls::item_calls(d);
            calls::sum_over(all, f).count(call) == calls::sum_over(all.remove(item), f).count(call)
                + calls::item_calls(all[item]).count(call)
        }),
        ({
            let ids = small::small(attr.derive_call_ids);
            calls::attribute_calls(attrs.push(attr), attrs.len() + 1).count(call)
                == calls::attribute_calls(attrs, attrs.len()).count(call) + calls::call_id_calls(
                ids,
                ids.len(),
            ).count(call)
        }),
{
    calls::lemma_sum_remove(all, |d: DeriveInvocations| calls::item_calls(d), item);
    lemma_attributes_agree(attrs.push(attr), attrs, attrs.len());
}

proof fn lemma_attributes_agree(
    a: Seq<DeriveMacroInvocation>,
    b: Seq<DeriveMacroInvocation>,
    n: nat,
)
    requires
        n <= a.len(),
        n <= b.len(),
        forall|i: int| 0 <= i < n ==> a[i] == b[i],
    ensures
        calls::attribute_calls(a, n) == calls::attribute_calls(b, n),
    decreases n,
{
    if n > 0 {
        lemma_attributes_agree(a, b, (n - 1) as nat);
    }
}

// Built-in types.

/// Whether the text is the name of the type.
pub open spec fn is_builtin_name(name: Seq<char>, ty: BuiltinType) -> bool {
    ||| name == "char"@ && ty == BuiltinType::Char
    ||| name == "bool"@ && ty == BuiltinType::Bool
    ||| name == "str"@ && ty == BuiltinType::Str
    ||| name == "isize"@ && ty == BuiltinType::Isize
    ||| name == "i8"@ && ty == BuiltinType::I8
    ||| name == "i16"@ && ty == BuiltinType::I16
    ||| name == "i32"@ && ty == BuiltinType::I32
    ||| name == "i64"@ && ty == BuiltinType::I64
    ||| name == "i128"@ && ty == BuiltinType::I128
    ||| name == "usize"@ && ty == BuiltinType::Usize
    ||| name == "u8"@ && ty == BuiltinType::U8
    ||| name == "u16"@ && ty == BuiltinType::U16
    ||| name == "u32"@ && ty == BuiltinType::U32
    ||| name == "u64"@ && ty == BuiltinType::U64
    ||| name == "u128"@ && ty == BuiltinType::U128
    ||| name == "f16"@ && ty == BuiltinType::F16
    ||| name == "f32"@ && ty == BuiltinType::F32
    ||| name == "f64"@ && ty == BuiltinType::F64
    ||| name == "f128"@ && ty == BuiltinType::F128
}

/// Every entry of the scope of the built-in types is a public type with its own name, and there is one
/// for each of them.
pub proof fn builtin_types_have_their_names(scope: NameMap<PerNs>, i: int)
    requires
        call_ensures(builtin::builtin_scope, (), scope),
        0 <= i < names::entries(scope).len(),
    ensures
        names::entries(scope).len() == 19,
        ({
            let (name, item) = names::entries(scope)[i];
            &&& item.values is None && item.macros is None
            &&& item.types is Some
            &&& item.types->0.vis == Visibility::Public
            &&& item.types->0.import is None
            &&& item.types->0.def is BuiltinType
            &&& is_builtin_name(name@, item.types->0.def->BuiltinType_0)
        }),
{
    assert(names::entries(scope)[i].0@ == builtin::builtin_types()[i].0);
}

} // verus!
