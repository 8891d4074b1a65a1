//! When two items have the same generic parameters.

use crate::generics::{
    GenericParams, LifetimeParamData, LocalLifetimeParamId, LocalTypeOrConstParamId,
    TypeOrConstParamData, WherePredicate,
};
use crate::text;
use crate::thin;
use thin_vec::ThinVec;
use vstd::prelude::*;

verus! {

/// Two names that may be missing are missing both, or have the same text.
pub open spec fn same_name(a: Option<String>, b: Option<String>) -> bool {
    match (a, b) {
        (Some(x), Some(y)) => x@ == y@,
        (None, None) => true,
        _ => false,
    }
}

/// Two type or const parameters are equal but for where their names are stored.
pub open spec fn same_param(a: TypeOrConstParamData, b: TypeOrConstParamData) -> bool {
    match (a, b) {
        (TypeOrConstParamData::TypeParamData(x), TypeOrConstParamData::TypeParamData(y)) => {
            &&& same_name(x.name, y.name)
            &&& x.default == y.default
            &&& x.provenance == y.provenance
        },
        (TypeOrConstParamData::ConstParamData(x), TypeOrConstParamData::ConstParamData(y)) => {
            &&& x.name@ == y.name@
            &&& x.ty == y.ty
            &&& x.default == y.default
        },
        _ => false,
    }
}

/// Two lifetime parameters are equal but for where their names are stored.
pub open spec fn same_lifetime(a: LifetimeParamData, b: LifetimeParamData) -> bool {
    a.name@ == b.name@ && a.bound_type == b.bound_type
}

/// Two lists hold the same texts in the same order.
pub open spec fn same_names(a: Seq<String>, b: Seq<String>) -> bool {
    &&& a.len() == b.len()
    &&& forall|i: int| 0 <= i < a.len() ==> (#[trigger] a[i])@ == b[i]@
}

/// Two predicates bind no lifetimes, or those with the same names.
pub open spec fn same_binder(a: Option<ThinVec<String>>, b: Option<ThinVec<String>>) -> bool {
    match (a, b) {
        (Some(x), Some(y)) => same_names(thin::thin(x), thin::thin(y)),
        (None, None) => true,
        _ => false,
    }
}

/// Two predicates are equal but for where the names in them are stored.
pub open spec fn same_predicate(a: WherePredicate, b: WherePredicate) -> bool {
    match (a, b) {
        (
            WherePredicate::TypeBound { lifetimes: x, target: s, bound: v },
            WherePredicate::TypeBound { lifetimes: y, target: t, bound: w },
        ) => same_binder(x, y) && s == t && v == w,
        (
            WherePredicate::Lifetime { target: s, bound: v },
            WherePredicate::Lifetime { target: t, bound: w },
        ) => s == t && v == w,
        _ => false,
    }
}

/// The first `n` type and const parameters are the same, as far as there are so many.
pub open spec fn same_params(
    a: Seq<TypeOrConstParamData>,
    b: Seq<TypeOrConstParamData>,
    n: int,
) -> bool {
    &&& a.len() == b.len()
    &&& forall|i: int| 0 <= i < a.len() && i < n ==> same_param(#[trigger] a[i], b[i])
}

/// The first `n` lifetime parameters are the same, as far as there are so many.
pub open spec fn same_lifetimes(
    a: Seq<LifetimeParamData>,
    b: Seq<LifetimeParamData>,
    n: int,
) -> bool {
    &&& a.len() == b.len()
    &&& forall|i: int| 0 <= i < a.len() && i < n ==> same_lifetime(#[trigger] a[i], b[i])
}

pub open spec fn same_predicates(a: Seq<WherePredicate>, b: Seq<WherePredicate>) -> bool {
    &&& a.len() == b.len()
    &&& forall|i: int| 0 <= i < a.len() ==> same_predicate(#[trigger] a[i], b[i])
}

fn is_same_param(a: &TypeOrConstParamData, b: &TypeOrConstParamData) -> (r: bool)
    ensures
        r == same_param(*a, *b),
{
    match (a, b) {
        (TypeOrConstParamData::TypeParamData(x), TypeOrConstParamData::TypeParamData(y)) => {
            let named = match (&x.name, &y.name) {
                (Some(m), Some(n)) => text::same_text(m, n),
                (None, None) => true,
                _ => false,
            };
            named && x.default == y.default && x.provenance == y.provenance
        },
        (TypeOrConstParamData::ConstParamData(x), TypeOrConstParamData::ConstParamData(y)) => {
            text::same_text(&x.name, &y.name) && x.ty == y.ty && x.default == y.default
        },
        _ => false,
    }
}

fn is_same_lifetime(a: &LifetimeParamData, b: &LifetimeParamData) -> (r: bool)
    ensures
        r == same_lifetime(*a, *b),
{
    text::same_text(&a.name, &b.name) && a.bound_type == b.bound_type
}

fn is_same_binder(a: &Option<ThinVec<String>>, b: &Option<ThinVec<String>>) -> (r: bool)
    ensures
        r == same_binder(*a, *b),
{
    match (a, b) {
        (Some(x), Some(y)) => {
            let m = x.as_slice();
            let n = y.as_slice();
            if m.len() != n.len() {
                return false;
            }
            let mut i: usize = 0;
            while i < m.len()
                invariant
                    m@ == thin::thin(*x),
                    n@ == thin::thin(*y),
                    m@.len() == n@.len(),
                    i <= m@.len(),
                    *a == Some(*x),
                    *b == Some(*y),
                    forall|j: int| 0 <= j < i ==> (#[trigger] m@[j])@ == n@[j]@,
                decreases m@.len() - i,
            {
                if !text::same_text(&m[i], &n[i]) {
                    assert(m@[i as int]@ != n@[i as int]@);
                    return false;
                }
                i = i + 1;
            }
            true
        },
        (None, None) => true,
        _ => false,
    }
}

fn is_same_predicate(a: &WherePredicate, b: &WherePredicate) -> (r: bool)
    ensures
        r == same_predicate(*a, *b),
{
    match (a, b) {
        (
            WherePredicate::TypeBound { lifetimes: x, target: s, bound: v },
            WherePredicate::TypeBound { lifetimes: y, target: t, bound: w },
        ) => is_same_binder(x, y) && *s == *t && *v == *w,
        (
            WherePredicate::Lifetime { target: s, bound: v },
            WherePredicate::Lifetime { target: t, bound: w },
        ) => *s == *t && *v == *w,
        _ => false,
    }
}

impl GenericParams {
    /// Whether the type and const parameters are the same, as far as they have an index.
    fn has_same_params(&self, other: &GenericParams) -> (r: bool)
        ensures
            r == same_params(self.types_view(), other.types_view(), u32::MAX + 1),
    {
        let len: usize = self.len_type_or_consts();
        if len != other.len_type_or_consts() {
            return false;
        }
        let mut i: usize = 0;
        while i < len && i <= u32::MAX as usize
            invariant
                i <= len,
                i <= u32::MAX + 1,
                len == self.types_view().len(),
                len == other.types_view().len(),
                forall|j: int|
                    0 <= j < i ==> same_param(
                        #[trigger] self.types_view()[j],
                        other.types_view()[j],
                    ),
            decreases len - i,
        {
            let a = self.type_or_const(LocalTypeOrConstParamId(i as u32));
            let b = other.type_or_const(LocalTypeOrConstParamId(i as u32));
            if !is_same_param(a, b) {
                return false;
            }
            i = i + 1;
        }
        true
    }

    /// Whether the lifetime parameters are the same, as far as they have an index.
    fn has_same_lifetimes(&self, other: &GenericParams) -> (r: bool)
        ensures
            r == same_lifetimes(self.lifetimes_view(), other.lifetimes_view(), u32::MAX + 1),
    {
        let len: usize = self.len_all_lifetimes();
        if len != other.len_all_lifetimes() {
            return false;
        }
        let mut i: usize = 0;
        while i < len && i <= u32::MAX as usize
            invariant
                i <= len,
                i <= u32::MAX + 1,
                len == self.lifetimes_view().len(),
                len == other.lifetimes_view().len(),
                forall|j: int|
                    0 <= j < i ==> same_lifetime(
                        #[trigger] self.lifetimes_view()[j],
                        other.lifetimes_view()[j],
                    ),
            decreases len - i,
        {
            let a = self.lifetime(LocalLifetimeParamId(i as u32));
            let b = other.lifetime(LocalLifetimeParamId(i as u32));
            if !is_same_lifetime(a, b) {
                return false;
            }
            i = i + 1;
        }
        true
    }

    /// Whether the predicates of the where clause are the same.
    fn has_same_predicates(&self, other: &GenericParams) -> (r: bool)
        ensures
            r == same_predicates(self.predicates_view(), other.predicates_view()),
    {
        let a = self.where_predicates();
        let b = other.where_predicates();
        if a.len() != b.len() {
            return false;
        }
        let mut i: usize = 0;
        while i < a.len()
            invariant
                i <= a@.len(),
                a@.len() == b@.len(),
                a@.len() == self.predicates_view().len(),
                b@.len() == other.predicates_view().len(),
                forall|j: int|
                    0 <= j < a@.len() ==> *(#[trigger] a@[j]) == self.predicates_view()[j],
                forall|j: int|
                    0 <= j < b@.len() ==> *(#[trigger] b@[j]) == other.predicates_view()[j],
                forall|j: int|
                    0 <= j < i ==> same_predicate(
                        #[trigger] self.predicates_view()[j],
                        other.predicates_view()[j],
                    ),
            decreases a@.len() - i,
        {
            if !is_same_predicate(a[i], b[i]) {
                assert(!same_predicate(
                    self.predicates_view()[i as int],
                    other.predicates_view()[i as int],
                ));
                return false;
            }
            i = i + 1;
        }
        true
    }
}

impl PartialEq for GenericParams {
    fn eq(&self, other: &Self) -> (r: bool) {
        self.has_same_params(other) && self.has_same_lifetimes(other) && self.has_same_predicates(
            other,
        )
    }
}

impl vstd::std_specs::cmp::PartialEqSpecImpl for GenericParams {
    open spec fn obeys_eq_spec() -> bool {
        true
    }

    open spec fn eq_spec(&self, other: &Self) -> bool {
        &&& same_params(self.types_view(), other.types_view(), u32::MAX + 1)
        &&& same_lifetimes(self.lifetimes_view(), other.lifetimes_view(), u32::MAX + 1)
        &&& same_predicates(self.predicates_view(), other.predicates_view())
    }
}

impl Eq for GenericParams {

}

/// The same types and consts, the same lifetimes and the same predicates, each in the same order.
pub open spec fn same_contents(a: GenericParams, b: GenericParams) -> bool {
    &&& same_params(a.types_view(), b.types_view(), a.types_view().len() as int)
    &&& same_lifetimes(a.lifetimes_view(), b.lifetimes_view(), a.lifetimes_view().len() as int)
    &&& same_predicates(a.predicates_view(), b.predicates_view())
}

/// The generic parameters of two items are equal if they have the same contents, also if one of them
/// has storage and the other has none.
pub proof fn equality_is_by_contents(a: GenericParams, b: GenericParams)
    requires
        a.types_view().len() <= u32::MAX,
        a.lifetimes_view().len() <= u32::MAX,
    ensures
        vstd::std_specs::cmp::PartialEqSpec::eq_spec(&a, &b) <==> same_contents(a, b),
{
}

/// Equal parameters agree in all their parts: in their sorts, their names, their defaults and where they
/// come from, in the bounds of the lifetimes, and in all that the predicates say.
pub proof fn equal_parameters_agree_in_all_parts(a: GenericParams, b: GenericParams, i: int)
    requires
        vstd::std_specs::cmp::PartialEqSpec::eq_spec(&a, &b),
        0 <= i <= u32::MAX,
    ensures
        a.types_view().len() == b.types_view().len(),
        i < a.types_view().len() ==> {
            let (x, y) = (a.types_view()[i], b.types_view()[i]);
            &&& x is TypeParamData <==> y is TypeParamData
            &&& x is TypeParamData ==> {
                let (p, q) = (x->TypeParamData_0, y->TypeParamData_0);
                &&& p.name is Some <==> q.name is Some
                &&& p.name is Some ==> p.name->0@ == q.name->0@
                &&& p.default == q.default
                &&& p.provenance == q.provenance
            }
            &&& x is ConstParamData ==> {
                let (p, q) = (x->ConstParamData_0, y->ConstParamData_0);
                p.name@ == q.name@ && p.ty == q.ty && p.default == q.default
            }
        },
        a.lifetimes_view().len() == b.lifetimes_view().len(),
        i < a.lifetimes_view().len() ==> a.lifetimes_view()[i].name@ == b.lifetimes_view()[i].name@
            && a.lifetimes_view()[i].bound_type == b.lifetimes_view()[i].bound_type,
        a.predicates_view().len() == b.predicates_view().len(),
        i < a.predicates_view().len() ==> {
            let (x, y) = (a.predicates_view()[i], b.predicates_view()[i]);
            &&& x is TypeBound <==> y is TypeBound
            &&& x is TypeBound ==> {
                &&& x->TypeBound_target == y->TypeBound_target
                &&& x->TypeBound_bound == y->TypeBound_bound
                &&& x->lifetimes is Some <==> y->lifetimes is Some
                &&& x->lifetimes is Some ==> {
                    let (p, q) = (thin::thin(x->lifetimes->0), thin::thin(y->lifetimes->0));
                    p.len() == q.len() && forall|k: int|
                        0 <= k < p.len() ==> (#[trigger] p[k])@ == q[k]@
                }
            }
            &&& x is Lifetime ==> x->Lifetime_target == y->Lifetime_target && x->Lifetime_bound
                == y->Lifetime_bound
        },
{
    if i < a.types_view().len() {
        assert(same_param(a.types_view()[i], b.types_view()[i]));
    }
    if i < a.lifetimes_view().len() {
        assert(same_lifetime(a.lifetimes_view()[i], b.lifetimes_view()[i]));
    }
    if i < a.predicates_view().len() {
        assert(same_predicate(a.predicates_view()[i], b.predicates_view()[i]));
    }
}

/// Parameters that are the same are equal.
pub proof fn same_parameters_are_equal(a: GenericParams, b: GenericParams)
    requires
        a.types_view() == b.types_view(),
        a.lifetimes_view() == b.lifetimes_view(),
        a.predicates_view() == b.predicates_view(),
    ensures
        vstd::std_specs::cmp::PartialEqSpec::eq_spec(&a, &b),
{
}

} // verus!
