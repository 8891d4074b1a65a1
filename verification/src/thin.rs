//! Vectors that are one pointer wide.

use thin_vec::ThinVec;
use vstd::prelude::*;
use vstd::std_specs::convert::FromSpec;

verus! {

/// `thin_vec`'s vector, which keeps its length and capacity next to its items.
#[verifier::external_type_specification]
#[verifier::external_body]
#[verifier::reject_recursive_types(T)]
pub struct ExThinVec<T>(ThinVec<T>);

/// The items of a thin vector: those of the ordinary vector that it can be turned into.
pub open spec fn thin<T>(v: ThinVec<T>) -> Seq<T> {
    <Vec<T> as FromSpec<ThinVec<T>>>::from_spec(v)@
}

/// `ThinVec::new` makes an empty vector.
pub assume_specification<T>[ ThinVec::<T>::new ]() -> (r: ThinVec<T>)
    ensures
        thin(r).len() == 0,
;

/// `ThinVec::push` appends its argument.
pub assume_specification<T>[ ThinVec::<T>::push ](v: &mut ThinVec<T>, val: T)
    ensures
        thin(*final(v)) == thin(*old(v)).push(val),
;

/// `ThinVec::as_slice` is the slice of the items.
pub assume_specification<T>[ ThinVec::<T>::as_slice ](v: &ThinVec<T>) -> (r: &[T])
    ensures
        r@ == thin(*v),
;

/// `ThinVec::shrink_to_fit` gives memory back and keeps the items.
pub assume_specification<T>[ ThinVec::<T>::shrink_to_fit ](v: &mut ThinVec<T>)
    ensures
        thin(*final(v)) == thin(*old(v)),
;

} // verus!
