//! Where the generic parameters of an item are found, told by what is in the lists.

use crate::generics;
use crate::generics::{
    ConstParamId, GenericDefId, GenericParamData, GenericParams, LifetimeBoundType, LifetimeParamData,
    LifetimeParamId, Signatures, TypeOrConstParamData, TypeParamId, TypeParamProvenance,
};
use crate::selection::{selection_grows, selects};
use vstd::prelude::*;

verus! {

/// Whether the parameter is a type with the name.
pub open spec fn is_type_named(p: TypeOrConstParamData, name: Seq<char>) -> bool {
    p is TypeParamData && p->TypeParamData_0.name is Some && p->TypeParamData_0.name->0@ == name
}

/// Whether the parameter is a constant with the name.
pub open spec fn is_const_named(p: TypeOrConstParamData, name: Seq<char>) -> bool {
    p is ConstParamData && p->ConstParamData_0.name@ == name
}

proof fn lemma_find(s: Seq<TypeOrConstParamData>, name: Seq<char>, is_type: bool, i: nat, k: int)
    requires
        i <= k <= s.len(),
        k < s.len() ==> if is_type {
            is_type_named(s[k], name)
        } else {
            is_const_named(s[k], name)
        },
        forall|j: int|
            i <= j < k ==> if is_type {
                !is_type_named(#[trigger] s[j], name)
            } else {
                !is_const_named(s[j], name)
            },
    ensures
        generics::find_param(s, name, is_type, i) == if k < s.len() {
            Some(k as nat)
        } else {
            None
        },
    decreases k - i,
{
    if i < k {
        assert(if is_type {
            !is_type_named(s[i as int], name)
        } else {
            !is_const_named(s[i as int], name)
        });
        lemma_find(s, name, is_type, i + 1, k);
    }
}

/// A type is found by its name at the first place that has it. A constant of that name is not found.
pub proof fn types_are_found_by_name(
    params: GenericParams,
    name: &str,
    parent: GenericDefId,
    r: Option<TypeParamId>,
    k: int,
)
    requires
        params.wf(),
        call_ensures(GenericParams::find_type_by_name, (&params, name, parent), r),
        0 <= k <= params.types_view().len(),
        k < params.types_view().len() ==> is_type_named(params.types_view()[k], name@),
        forall|j: int| 0 <= j < k ==> !is_type_named(#[trigger] params.types_view()[j], name@),
    ensures
        r is Some <==> k < params.types_view().len(),
        r matches Some(id) ==> id.0.local_id.0 == k && id.0.parent == parent,
{
    lemma_find(params.types_view(), name@, true, 0, k);
}

/// A constant is found by its name at the first place that has it. A type of that name is not found.
pub proof fn consts_are_found_by_name(
    params: GenericParams,
    name: &str,
    parent: GenericDefId,
    r: Option<ConstParamId>,
    k: int,
)
    requires
        params.wf(),
        call_ensures(GenericParams::find_const_by_name, (&params, name, parent), r),
        0 <= k <= params.types_view().len(),
        k < params.types_view().len() ==> is_const_named(params.types_view()[k], name@),
        forall|j: int| 0 <= j < k ==> !is_const_named(#[trigger] params.types_view()[j], name@),
    ensures
        r is Some <==> k < params.types_view().len(),
        r matches Some(id) ==> id.0.local_id.0 == k && id.0.parent == parent,
{
    lemma_find(params.types_view(), name@, false, 0, k);
}

proof fn lemma_find_lifetime(s: Seq<LifetimeParamData>, name: Seq<char>, i: nat, k: int)
    requires
        i <= k <= s.len(),
        k < s.len() ==> s[k].name@ == name,
        forall|j: int| i <= j < k ==> (#[trigger] s[j]).name@ != name,
    ensures
        generics::find_lifetime(s, name, i) == if k < s.len() {
            Some(k as nat)
        } else {
            None
        },
    decreases k - i,
{
    if i < k {
        assert(s[i as int].name@ != name);
        lemma_find_lifetime(s, name, i + 1, k);
    }
}

/// A lifetime is found by its name at the first place that has it.
pub proof fn lifetimes_are_found_by_name(
    params: GenericParams,
    name: &str,
    parent: GenericDefId,
    r: Option<LifetimeParamId>,
    k: int,
)
    requires
        params.wf(),
        call_ensures(GenericParams::find_lifetime_by_name, (&params, name, parent), r),
        0 <= k <= params.lifetimes_view().len(),
        k < params.lifetimes_view().len() ==> params.lifetimes_view()[k].name@ == name@,
        forall|j: int| 0 <= j < k ==> (#[trigger] params.lifetimes_view()[j]).name@ != name@,
    ensures
        r is Some <==> k < params.lifetimes_view().len(),
        r matches Some(id) ==> id.local_id.0 == k && id.parent == parent,
{
    lemma_find_lifetime(params.lifetimes_view(), name@, 0, k);
}

/// The lifetimes that are bound late are those that say so. The others are bound early. Both lists are
/// in the order of the parameters, and the late ones are counted rightly.
pub proof fn lifetimes_are_bound_as_they_say(s: Seq<LifetimeParamData>, late: bool, n: nat) -> (idx: Seq<
    int,
>)
    requires
        n <= s.len(),
    ensures
        selects(idx, n as int, |i: int| (s[i].bound_type == LifetimeBoundType::LateBound) == late),
        generics::bound_lifetimes(s, late, n).len() == idx.len(),
        forall|k: int|
            0 <= k < idx.len() ==> #[trigger] generics::bound_lifetimes(s, late, n)[k] == idx[k],
        late ==> generics::late_before(s, n) == idx.len(),
    decreases n,
{
    let keep = |i: int| (s[i].bound_type == LifetimeBoundType::LateBound) == late;
    if n == 0 {
        Seq::empty()
    } else {
        let before = lifetimes_are_bound_as_they_say(s, late, (n - 1) as nat);
        selection_grows(before, n - 1, keep);
        let last = s[n - 1].bound_type == LifetimeBoundType::LateBound;
        assert(keep(n - 1) <==> last == late);
        if last == late {
            before.push(n - 1)
        } else {
            before
        }
    }
}

proof fn lemma_signature(signatures: Signatures, def: GenericDefId, i: nat, k: int)
    requires
        i <= k < signatures.known@.len(),
        signatures.known@[k].0 == def,
        forall|j: int| i <= j < k ==> (#[trigger] signatures.known@[j]).0 != def,
    ensures
        signatures.find(def, i) == Some(k as nat),
    decreases k - i,
{
    if i < k {
        assert(signatures.known@[i as int].0 != def);
        lemma_signature(signatures, def, i + 1, k);
    }
}

/// An item has the parameters of the first signature that is known for it. Constants and statics have
/// none, whatever their signature says.
pub proof fn items_have_the_parameters_of_their_signature(
    signatures: Signatures,
    def: GenericDefId,
    k: int,
)
    requires
        signatures.wf(),
        0 <= k < signatures.known@.len(),
        signatures.known@[k].0 == def,
        forall|j: int| 0 <= j < k ==> (#[trigger] signatures.known@[j]).0 != def,
    ensures
        def is ConstId || def is StaticId ==> signatures.params_of(def).types_view().len() == 0
            && signatures.params_of(def).lifetimes_view().len() == 0 && signatures.params_of(
            def,
        ).predicates_view().len() == 0,
        !(def is ConstId || def is StaticId) ==> signatures.params_of(def)
            == signatures.known@[k].1.generic_params,
        signatures.of(def) == signatures.known@[k].1,
{
    lemma_signature(signatures, def, 0, k);
}

/// A parameter has the name that it is written with. Only a type can be without one.
pub proof fn parameters_have_their_names(p: TypeOrConstParamData, q: GenericParamData)
    ensures
        p is ConstParamData ==> p.spec_name() == Some(p->ConstParamData_0.name@),
        p is TypeParamData ==> (p.spec_name() is Some <==> p->TypeParamData_0.name is Some),
        p is TypeParamData && p->TypeParamData_0.name is Some ==> p.spec_name()->0
            == p->TypeParamData_0.name->0@,
        q is LifetimeParamData ==> q.spec_name() == Some(q->LifetimeParamData_0.name@),
        q is ConstParamData ==> q.spec_name() == Some(q->ConstParamData_0.name@),
        q is TypeParamData ==> (q.spec_name() is Some <==> q->TypeParamData_0.name is Some),
        q is TypeParamData && q->TypeParamData_0.name is Some ==> q.spec_name()->0
            == q->TypeParamData_0.name->0@,
        p.spec_is_trait_self() <==> p is TypeParamData && p->TypeParamData_0.provenance
            == TypeParamProvenance::TraitSelf,
{
}

} // verus!
