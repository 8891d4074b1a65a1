//! Tables are read by the first entry for what is asked.

use crate::editioned_file_id::{EditionedFileId, Parses};
use crate::hir_file::SpanMaps;
use crate::ids::{Id, MacroCallId, MacroId, ModuleDefId, ModuleId};
use crate::mbe::parser::Editions;
use crate::per_ns::{DefModules, ItemInNs};
use crate::span::{Edition, SyntaxContext};
use vstd::prelude::*;

verus! {

/// Whether the `k`th entry is the first for the key.
pub open spec fn is_first_for<K, V>(s: Seq<(K, V)>, key: K, k: int) -> bool {
    &&& 0 <= k < s.len()
    &&& s[k].0 == key
    &&& forall|j: int| 0 <= j < k ==> (#[trigger] s[j]).0 != key
}

pub open spec fn has_none_for<K, V>(s: Seq<(K, V)>, key: K) -> bool {
    forall|j: int| 0 <= j < s.len() ==> (#[trigger] s[j]).0 != key
}

proof fn lemma_parses(t: Parses, file: EditionedFileId, i: nat, k: int)
    requires
        i <= k,
        is_first_for(t.files@, file, k) || (k == t.files@.len() && has_none_for(t.files@, file)),
    ensures
        t.file_from(file, i) == if k < t.files@.len() {
            Some(k as nat)
        } else {
            None
        },
    decreases k - i,
{
    if i < k {
        assert(t.files@[i as int].0 != file);
        lemma_parses(t, file, i + 1, k);
    }
}

/// A file is found at the first entry for it, if there is one.
pub proof fn files_are_found_at_their_first_entry(
    t: Parses,
    file: EditionedFileId,
    k: int,
)
    ensures
        is_first_for(t.files@, file, k) ==> t.file_from(file, 0) == Some(k as nat),
        has_none_for(t.files@, file) ==> t.file_from(file, 0) is None,
{
    if is_first_for(t.files@, file, k) {
        lemma_parses(t, file, 0, k);
    }
    if has_none_for(t.files@, file) {
        lemma_parses(t, file, 0, t.files@.len() as int);
    }
}

proof fn lemma_file_maps(t: SpanMaps, file: EditionedFileId, i: nat, k: int)
    requires
        i <= k,
        is_first_for(t.files@, file, k) || (k == t.files@.len() && has_none_for(t.files@, file)),
    ensures
        t.file_from(file, i) == if k < t.files@.len() {
            Some(k as nat)
        } else {
            None
        },
    decreases k - i,
{
    if i < k {
        assert(t.files@[i as int].0 != file);
        lemma_file_maps(t, file, i + 1, k);
    }
}

proof fn lemma_expansion_maps(t: SpanMaps, call: MacroCallId, i: nat, k: int)
    requires
        i <= k,
        is_first_for(t.expansions@, call, k) || (k == t.expansions@.len() && has_none_for(
            t.expansions@,
            call,
        )),
    ensures
        t.expansion_from(call, i) == if k < t.expansions@.len() {
            Some(k as nat)
        } else {
            None
        },
    decreases k - i,
{
    if i < k {
        assert(t.expansions@[i as int].0 != call);
        lemma_expansion_maps(t, call, i + 1, k);
    }
}

/// The span map of a file, or of an expansion, is found at the first entry for it, if there is one.
pub proof fn span_maps_are_found_at_their_first_entry(
    t: SpanMaps,
    file: EditionedFileId,
    call: MacroCallId,
    k: int,
)
    ensures
        is_first_for(t.files@, file, k) ==> t.file_from(file, 0) == Some(k as nat),
        has_none_for(t.files@, file) ==> t.file_from(file, 0) is None,
        is_first_for(t.expansions@, call, k) ==> t.expansion_from(call, 0) == Some(k as nat),
        has_none_for(t.expansions@, call) ==> t.expansion_from(call, 0) is None,
{
    if is_first_for(t.files@, file, k) {
        lemma_file_maps(t, file, 0, k);
    }
    if has_none_for(t.files@, file) {
        lemma_file_maps(t, file, 0, t.files@.len() as int);
    }
    if is_first_for(t.expansions@, call, k) {
        lemma_expansion_maps(t, call, 0, k);
    }
    if has_none_for(t.expansions@, call) {
        lemma_expansion_maps(t, call, 0, t.expansions@.len() as int);
    }
}

proof fn lemma_modules(t: DefModules, def: ModuleDefId, i: nat, k: int)
    requires
        i <= k,
        is_first_for(t.modules@, def, k) || (k == t.modules@.len() && has_none_for(t.modules@, def)),
    ensures
        t.module_from(def, i) == if k < t.modules@.len() {
            Some(t.modules@[k].1)
        } else {
            None
        },
    decreases k - i,
{
    if i < k {
        assert(t.modules@[i as int].0 != def);
        lemma_modules(t, def, i + 1, k);
    }
}

proof fn lemma_crates(t: DefModules, module: ModuleId, i: nat, k: int)
    requires
        i <= k,
        is_first_for(t.crates@, module, k) || (k == t.crates@.len() && has_none_for(
            t.crates@,
            module,
        )),
    ensures
        t.crate_from(module, i) == if k < t.crates@.len() {
            Some(t.crates@[k].1)
        } else {
            None
        },
    decreases k - i,
{
    if i < k {
        assert(t.crates@[i as int].0 != module);
        lemma_crates(t, module, i + 1, k);
    }
}

/// The module of a definition, and the crate of a module, are those of the first entry for it.
pub proof fn modules_are_those_of_the_first_entry(
    t: DefModules,
    def: ModuleDefId,
    module: ModuleId,
    k: int,
)
    ensures
        is_first_for(t.modules@, def, k) ==> t.module_from(def, 0) == Some(t.modules@[k].1),
        has_none_for(t.modules@, def) ==> t.module_from(def, 0) is None,
        is_first_for(t.crates@, module, k) ==> t.crate_from(module, 0) == Some(t.crates@[k].1),
        has_none_for(t.crates@, module) ==> t.crate_from(module, 0) is None,
{
    if is_first_for(t.modules@, def, k) {
        lemma_modules(t, def, 0, k);
    }
    if has_none_for(t.modules@, def) {
        lemma_modules(t, def, 0, t.modules@.len() as int);
    }
    if is_first_for(t.crates@, module, k) {
        lemma_crates(t, module, 0, k);
    }
    if has_none_for(t.crates@, module) {
        lemma_crates(t, module, 0, t.crates@.len() as int);
    }
}

proof fn lemma_editions(t: Editions, ctx: SyntaxContext, i: nat, k: int)
    requires
        i <= k,
        is_first_for(t.known@, ctx, k) || (k == t.known@.len() && has_none_for(t.known@, ctx)),
    ensures
        t.of_from(ctx, i) == if k < t.known@.len() {
            t.known@[k].1
        } else {
            t.otherwise
        },
    decreases k - i,
{
    if i < k {
        assert(t.known@[i as int].0 != ctx);
        lemma_editions(t, ctx, i + 1, k);
    }
}

/// The edition of a context is that of the first entry for it, and else the one for all others.
pub proof fn editions_are_those_of_the_first_entry(t: Editions, ctx: SyntaxContext, k: int)
    ensures
        is_first_for(t.known@, ctx, k) ==> t.of_from(ctx, 0) == t.known@[k].1,
        has_none_for(t.known@, ctx) ==> t.of_from(ctx, 0) == t.otherwise,
{
    if is_first_for(t.known@, ctx, k) {
        lemma_editions(t, ctx, 0, k);
    }
    if has_none_for(t.known@, ctx) {
        lemma_editions(t, ctx, 0, t.known@.len() as int);
    }
}

/// The editions follow each other, and a context outside of all macros is known by its edition.
pub proof fn editions_are_told_apart(a: Edition, b: Edition, r2021: bool, r2024: bool)
    requires
        call_ensures(Edition::at_least_2021, (a,), r2021),
        call_ensures(Edition::at_least_2024, (a,), r2024),
    ensures
        r2021 <==> a == Edition::Edition2021 || a == Edition::Edition2024,
        r2024 <==> a == Edition::Edition2024,
        SyntaxContext::spec_root(a) == SyntaxContext::spec_root(b) ==> a == b,
{
}

/// An item is defined in the module that is known for its definition. A built-in type is in none.
pub proof fn items_are_in_the_modules_of_their_definitions(
    t: DefModules,
    def: ModuleDefId,
    mac: MacroId,
)
    ensures
        def is BuiltinType ==> ItemInNs::Types(def).spec_module(t) is None && ItemInNs::Values(
            def,
        ).spec_module(t) is None,
        !(def is BuiltinType) ==> ItemInNs::Types(def).spec_module(t) == t.module_from(def, 0)
            && ItemInNs::Values(def).spec_module(t) == t.module_from(def, 0),
        ItemInNs::Macros(mac).spec_module(t) == t.module_from(ModuleDefId::MacroId(mac), 0),
{
}

/// An id can be written as one number and read back.
pub proof fn ids_are_read_back(id: Id, bits: u64, back: Id)
    requires
        id.wf(),
        call_ensures(Id::as_bits, (id,), bits),
        call_ensures(Id::from_bits, (bits,), back),
    ensures
        back == id,
{
    let (low, generation) = (id.low as int, id.generation as int);
    assert(bits == generation * 0x1_0000_0000 + low);
    assert((generation * 0x1_0000_0000 + low) % 0x1_0000_0000 == low);
    assert((generation * 0x1_0000_0000 + low) / 0x1_0000_0000 == generation);
}

} // verus!
