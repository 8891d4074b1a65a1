//! Functions of the standard library that give memory back.

use vstd::prelude::*;

verus! {

/// `Vec::shrink_to_fit` gives memory back and keeps the items.
#[verifier::external_body]
pub(crate) fn vec_shrink_to_fit<T>(v: &mut Vec<T>)
    ensures
        final(v)@ == old(v)@,
{
    v.shrink_to_fit();
}

} // verus!
