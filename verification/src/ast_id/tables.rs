//! The storage of an id map: an arena of nodes with their ids, and two tables of indexes into it.

use super::erased::ErasedFileAstId;
use crate::arena;
use crate::arena::ItemArena;
use crate::fx;
use crate::syntax_kind;
use crate::syntax_ptr::SyntaxNodePtr;
use hashbrown::HashTable;
use vstd::prelude::*;

verus! {

pub open spec fn spec_hash_ptr(ptr: SyntaxNodePtr) -> u64 {
    fx::fx_hash_of(
        syntax_kind::raw_kind(ptr.kind) as u32,
        ptr.range.start.0,
        ptr.range.end.0,
        usize::BITS,
    )
}

pub fn hash_ptr(ptr: &SyntaxNodePtr) -> (r: u64)
    ensures
        r == spec_hash_ptr(*ptr),
{
    fx::fx_hash_words(ptr.kind.number(), ptr.range.start.0, ptr.range.end.0)
}

pub open spec fn spec_hash_ast_id(id: ErasedFileAstId) -> u64 {
    fx::fx_hash_of(id.0, 0, 0, usize::BITS)
}

pub fn hash_ast_id(id: &ErasedFileAstId) -> (r: u64)
    ensures
        r == spec_hash_ast_id(*id),
{
    fx::fx_hash_words(id.0, 0, 0)
}

/// What a table is searched for.
#[derive(Clone, Copy)]
pub enum Key {
    Ptr(SyntaxNodePtr),
    Id(ErasedFileAstId),
}

/// Which part of the items a table is made over.
#[derive(Clone, Copy)]
pub enum Column {
    Ptr,
    Id,
}

pub open spec fn key_of(item: (SyntaxNodePtr, ErasedFileAstId), column: Column) -> Key {
    match column {
        Column::Ptr => Key::Ptr(item.0),
        Column::Id => Key::Id(item.1),
    }
}

pub open spec fn column_of(key: Key) -> Column {
    match key {
        Key::Ptr(_) => Column::Ptr,
        Key::Id(_) => Column::Id,
    }
}

pub open spec fn key_hash(key: Key) -> u64 {
    match key {
        Key::Ptr(ptr) => spec_hash_ptr(ptr),
        Key::Id(id) => spec_hash_ast_id(id),
    }
}

/// The hash of the `i`th item.
pub(crate) fn hash_at(
    a: &ItemArena<(SyntaxNodePtr, ErasedFileAstId)>,
    i: u32,
    column: Column,
) -> (r: u64)
    requires
        i < arena::items(*a).len(),
    ensures
        r == key_hash(key_of(arena::items(*a)[i as int], column)),
{
    let item = arena::arena_get(a, i);
    match column {
        Column::Ptr => hash_ptr(&item.0),
        Column::Id => hash_ast_id(&item.1),
    }
}

/// Whether the `i`th item is the one that is searched for.
pub(crate) fn is_at(a: &ItemArena<(SyntaxNodePtr, ErasedFileAstId)>, i: u32, key: Key) -> (r: bool)
    requires
        i < arena::items(*a).len(),
    ensures
        r == (key_of(arena::items(*a)[i as int], column_of(key)) == key),
{
    let item = arena::arena_get(a, i);
    match key {
        Key::Ptr(ptr) => item.0 == ptr,
        Key::Id(id) => item.1 == id,
    }
}

pub(crate) fn is_index(i: u32, j: u32) -> (r: bool)
    ensures
        r == (i == j),
{
    i == j
}

/// A table of indexes into an arena.
#[verifier::external_body]
pub struct IndexTable {
    inner: HashTable<u32>,
}

/// The indexes in a table, each with the hash under which it was put there.
pub uninterp spec fn table_items(t: IndexTable) -> Set<(u64, u32)>;

/// The table holds indexes into the arena, under the hashes of the items there.
pub open spec fn table_fits(
    t: IndexTable,
    items: Seq<(SyntaxNodePtr, ErasedFileAstId)>,
    column: Column,
) -> bool {
    forall|h: u64, i: u32| #[trigger]
        table_items(t).contains((h, i)) ==> i < items.len() && h == key_hash(
            key_of(items[i as int], column),
        )
}

/// `HashTable::with_capacity` makes an empty table.
#[verifier::external_body]
pub(crate) fn table_with_capacity(capacity: usize) -> (r: IndexTable)
    ensures
        table_items(r) == Set::<(u64, u32)>::empty(),
{
    IndexTable { inner: HashTable::with_capacity(capacity) }
}

/// `HashTable::entry` finds no entry for an index that is not in the table, and inserting into the
/// vacant entry adds it under the hash. The table takes the hashes of the indexes that it moves from
/// the arena.
#[verifier::external_body]
pub(crate) fn table_insert(
    t: &mut IndexTable,
    hash: u64,
    i: u32,
    a: &ItemArena<(SyntaxNodePtr, ErasedFileAstId)>,
    column: Column,
)
    requires
        table_fits(*old(t), arena::items(*a), column),
        i < arena::items(*a).len(),
        hash == key_hash(key_of(arena::items(*a)[i as int], column)),
        forall|h: u64| !(#[trigger] table_items(*old(t)).contains((h, i))),
    ensures
        table_items(*final(t)) == table_items(*old(t)).insert((hash, i)),
{
    match t.inner.entry(hash, |j| is_index(*j, i), |j| hash_at(a, *j, column)) {
        hashbrown::hash_table::Entry::Occupied(_) => {},
        hashbrown::hash_table::Entry::Vacant(entry) => {
            entry.insert(i);
        },
    }
}

/// `HashTable::find` returns an index in the table for which the test holds, and returns `None`
/// only if the test fails for every index that was put there under the hash.
#[verifier::external_body]
pub(crate) fn table_find(
    t: &IndexTable,
    hash: u64,
    a: &ItemArena<(SyntaxNodePtr, ErasedFileAstId)>,
    key: Key,
) -> (r: Option<u32>)
    requires
        table_fits(*t, arena::items(*a), column_of(key)),
    ensures
        r matches Some(i) ==> (exists|h: u64| #[trigger] table_items(*t).contains((h, i)))
            && key_of(arena::items(*a)[i as int], column_of(key)) == key,
        r is None ==> forall|i: u32| #[trigger]
            table_items(*t).contains((hash, i)) ==> key_of(
                arena::items(*a)[i as int],
                column_of(key),
            ) != key,
{
    t.inner.find(hash, |j| is_at(a, *j, key)).copied()
}

} // verus!
