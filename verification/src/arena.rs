//! Arenas: vectors that hand out the places of their items.

use la_arena::{Arena, Idx, RawIdx};
use vstd::prelude::*;
use vstd::std_specs::convert::FromSpec;

verus! {

/// `la_arena`'s vector with typed indexes.
#[verifier::external_type_specification]
#[verifier::external_body]
#[verifier::reject_recursive_types(T)]
pub struct ExArena<T>(Arena<T>);

/// An arena whose indexes are plain numbers.
#[derive(Debug, PartialEq, Eq, Hash)]
#[verifier::reject_recursive_types(T)]
pub struct ItemArena<T> {
    pub inner: Arena<T>,
}

impl<T> From<ItemArena<T>> for Vec<T> {
    /// `Arena::into_iter` hands the items out in their order, each with its index.
    #[verifier::external_body]
    fn from(a: ItemArena<T>) -> (r: Vec<T>) {
        a.inner.into_iter().map(|item| item.1).collect()
    }
}

/// The items, in the order in which they were allocated: those of the vector that the arena can be
/// turned into.
pub open spec fn items<T>(a: ItemArena<T>) -> Seq<T> {
    <Vec<T> as FromSpec<ItemArena<T>>>::from_spec(a)@
}

/// `Arena::new` makes an empty arena.
#[verifier::external_body]
pub(crate) fn arena_new<T>() -> (r: ItemArena<T>)
    ensures
        items(r).len() == 0,
{
    ItemArena { inner: Arena::new() }
}

/// `Arena::alloc` appends an item and returns its index. The index has 32 bits.
#[verifier::external_body]
pub(crate) fn arena_alloc<T>(a: &mut ItemArena<T>, item: T) -> (r: u32)
    requires
        items(*old(a)).len() <= u32::MAX,
    ensures
        items(*final(a)) == items(*old(a)).push(item),
        r == items(*old(a)).len(),
{
    a.inner.alloc(item).into_raw().into_u32()
}

/// Indexing an arena gives the item that was allocated there.
#[verifier::external_body]
pub(crate) fn arena_get<T>(a: &ItemArena<T>, i: u32) -> (r: &T)
    requires
        i < items(*a).len(),
    ensures
        *r == items(*a)[i as int],
{
    &a.inner[Idx::from_raw(RawIdx::from_u32(i))]
}

/// `Arena::len` is the number of items.
#[verifier::external_body]
pub(crate) fn arena_len<T>(a: &ItemArena<T>) -> (r: usize)
    ensures
        r == items(*a).len(),
{
    a.inner.len()
}

/// `Arena::shrink_to_fit` gives memory back and keeps the items.
#[verifier::external_body]
pub(crate) fn arena_shrink_to_fit<T>(a: &mut ItemArena<T>)
    ensures
        items(*final(a)) == items(*old(a)),
{
    a.inner.shrink_to_fit();
}

} // verus!
