//! Vectors that keep a few items in place.

use smallvec::SmallVec;
use vstd::prelude::*;
use vstd::std_specs::convert::FromSpec;

verus! {

/// `smallvec`'s vector. The first `N` items need no memory of their own.
#[derive(Debug, PartialEq, Eq)]
#[verifier::external_body]
#[verifier::reject_recursive_types(T)]
pub struct Small<T, const N: usize> {
    inner: SmallVec<[T; N]>,
}

impl<T, const N: usize> From<Small<T, N>> for Vec<T> {
    /// `SmallVec::into_vec` moves the items to an ordinary vector.
    #[verifier::external_body]
    fn from(v: Small<T, N>) -> (r: Vec<T>) {
        v.inner.into_vec()
    }
}

/// The items, in order: those of the ordinary vector that it can be turned into.
pub open spec fn small<T, const N: usize>(v: Small<T, N>) -> Seq<T> {
    <Vec<T> as FromSpec<Small<T, N>>>::from_spec(v)@
}

/// `SmallVec::new` makes an empty vector.
#[verifier::external_body]
pub(crate) fn small_new<T, const N: usize>() -> (r: Small<T, N>)
    ensures
        small(r) == Seq::<T>::empty(),
{
    Small { inner: SmallVec::new() }
}

/// `SmallVec::push` appends its argument.
#[verifier::external_body]
pub(crate) fn small_push<T, const N: usize>(v: &mut Small<T, N>, item: T)
    ensures
        small(*final(v)) == small(*old(v)).push(item),
{
    v.inner.push(item);
}

/// `SmallVec::pop` removes the last item and returns it. An empty vector gives `None` and stays
/// empty.
#[verifier::external_body]
pub(crate) fn small_pop<T, const N: usize>(v: &mut Small<T, N>) -> (r: Option<T>)
    ensures
        small(*old(v)).len() > 0 ==> r == Some(small(*old(v)).last()) && small(*final(v)) == small(
            *old(v),
        ).drop_last(),
        small(*old(v)).len() == 0 ==> r is None && small(*final(v)) == small(*old(v)),
{
    v.inner.pop()
}

/// `SmallVec::as_slice` is the slice of the items.
#[verifier::external_body]
pub(crate) fn small_as_slice<T, const N: usize>(v: &Small<T, N>) -> (r: &[T])
    ensures
        r@ == small(*v),
{
    v.inner.as_slice()
}

/// `std::mem::replace` at an index of a `SmallVec` sets the item there and returns the one before.
#[verifier::external_body]
pub(crate) fn small_replace<T, const N: usize>(v: &mut Small<T, N>, i: usize, item: T) -> (r: T)
    requires
        i < small(*old(v)).len(),
    ensures
        small(*final(v)) == small(*old(v)).update(i as int, item),
        r == small(*old(v))[i as int],
{
    std::mem::replace(&mut v.inner[i], item)
}

/// `SmallVec::shrink_to_fit` gives memory back and keeps the items.
#[verifier::external_body]
pub(crate) fn small_shrink_to_fit<T, const N: usize>(v: &mut Small<T, N>)
    ensures
        small(*final(v)) == small(*old(v)),
{
    v.inner.shrink_to_fit();
}

impl<T, const N: usize> Small<T, N> {
    pub fn len(&self) -> (r: usize)
        ensures
            r == small(*self).len(),
    {
        small_as_slice(self).len()
    }

    pub fn as_slice(&self) -> (r: &[T])
        ensures
            r@ == small(*self),
    {
        small_as_slice(self)
    }
}

impl<T: Copy, const N: usize> Small<T, N> {
    /// A copy of the given items.
    pub fn from_slice(items: &[T]) -> (r: Small<T, N>)
        ensures
            small(r) == items@,
    {
        let mut r = small_new();
        let mut i: usize = 0;
        while i < items.len()
            invariant
                i <= items@.len(),
                small(r) == items@.take(i as int),
            decreases items@.len() - i,
        {
            small_push(&mut r, items[i]);
            i = i + 1;
            assert(items@.take(i as int) =~= items@.take(i - 1).push(items@[i - 1]));
        }
        assert(items@.take(items@.len() as int) =~= items@);
        r
    }
}

impl<T: Copy, const N: usize> Clone for Small<T, N> {
    fn clone(&self) -> (r: Small<T, N>)
        ensures
            small(r) == small(*self),
    {
        Small::from_slice(small_as_slice(self))
    }
}

} // verus!
