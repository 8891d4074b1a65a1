//! The map from the nodes of a file to their ids and back.

use super::assign;
use super::collect;
use super::erased::{ErasedFileAstId, ErasedFileAstIdKind};
use super::identity;
use super::identity::Identity;
use super::index_map::IDS_PER_KIND;
use super::laws;
use super::tables;
use super::tables::{Column, IndexTable, Key};
use super::walk;
use super::walk::Entry;
use crate::arena;
use crate::arena::ItemArena;
use crate::green::GreenNode;
use crate::syntax_ptr::SyntaxNodePtr;
use vstd::prelude::*;

verus! {

/// Maps the nodes of a file to their ids and back.
pub struct AstIdMap {
    /// The nodes and their ids.
    pub arena: ItemArena<(SyntaxNodePtr, ErasedFileAstId)>,
    /// Finds the place of a node in the arena.
    pub ptr_map: IndexTable,
    /// Finds the place of an id in the arena.
    pub id_map: IndexTable,
}

impl View for AstIdMap {
    type V = Seq<(SyntaxNodePtr, ErasedFileAstId)>;

    open spec fn view(&self) -> Seq<(SyntaxNodePtr, ErasedFileAstId)> {
        arena::items(self.arena)
    }
}

/// The nodes with their ids, where the identities of the nodes have the given hashes.
pub open spec fn with_ids(e: Seq<Entry>, hashes: Seq<u64>) -> Seq<
    (SyntaxNodePtr, ErasedFileAstId),
> {
    Seq::new(e.len(), |i: int| (e[i].ptr, assign::id_at(e, hashes, i)))
}

/// A table that holds the first `n` items under their hashes, and nothing else.
pub open spec fn indexes(
    t: IndexTable,
    items: Seq<(SyntaxNodePtr, ErasedFileAstId)>,
    column: Column,
    n: int,
) -> bool {
    forall|h: u64, i: u32|
        #![trigger tables::table_items(t).contains((h, i))]
        tables::table_items(t).contains((h, i)) <==> i < n && h == tables::key_hash(
            tables::key_of(items[i as int], column),
        )
}

impl AstIdMap {
    /// The tables agree with the arena, and no id is given out twice.
    pub open spec fn wf(self) -> bool {
        &&& self@.len() <= u32::MAX
        &&& indexes(self.ptr_map, self@, Column::Ptr, self@.len() as int)
        &&& indexes(self.id_map, self@, Column::Id, self@.len() as int)
        &&& forall|i: int, j: int|
            0 <= i < j < self@.len() ==> (#[trigger] self@[i]).1 != (#[trigger] self@[j]).1
    }

    /// Whether the node has an id.
    pub open spec fn has_ptr(self, ptr: SyntaxNodePtr) -> bool {
        exists|i: int| 0 <= i < self@.len() && (#[trigger] self@[i]).0 == ptr
    }

    /// Whether the id belongs to a node of the file.
    pub open spec fn has_id(self, id: ErasedFileAstId) -> bool {
        exists|i: int| 0 <= i < self@.len() && (#[trigger] self@[i]).1 == id
    }

    /// How many nodes have an id.
    pub fn len(&self) -> (r: usize)
        ensures
            r == self@.len(),
    {
        arena::arena_len(&self.arena)
    }

    /// Gives the nodes of a file their ids. The nodes are those that the walk finds, in that order,
    /// with the ids that go with the hashes of their identities.
    pub fn from_source(node: &GreenNode) -> (r: AstIdMap)
        requires
            node.wf(),
            assign::enough_ids(walk::entries(*node)),
        ensures
            r.wf(),
            exists|hashes: Seq<u64>|
                hashes.len() == walk::entries(*node).len() && r@ == #[trigger] with_ids(
                    walk::entries(*node),
                    hashes,
                ) && assign::hashed_with(identity::hash_identity, walk::entries(*node), hashes),
    {
        AstIdMap::from_source_with(node, identity::hash_identity)
    }

    /// Gives the nodes of a file their ids, where the given function hashes identities.
    pub fn from_source_with<F: Fn(&Identity) -> u64>(node: &GreenNode, hash: F) -> (r: AstIdMap)
        requires
            node.wf(),
            assign::enough_ids(walk::entries(*node)),
            forall|data: Identity| call_requires(hash, (&data,)),
        ensures
            r.wf(),
            exists|hashes: Seq<u64>|
                hashes.len() == walk::entries(*node).len() && r@ == #[trigger] with_ids(
                    walk::entries(*node),
                    hashes,
                ) && assign::hashed_with(hash, walk::entries(*node), hashes),
    {
        let ghost e = walk::entries(*node);
        proof {
            laws::parents_come_before_children(*node);
        }
        let candidates = collect::collect(node);
        let ghost f = hash;
        let ids = assign::assign_ids(&candidates, hash);
        let ghost hashes = choose|hashes: Seq<u64>|
            hashes.len() == candidates@.len() && ids@ == #[trigger] assign::ids(e, hashes)
                && assign::hashed_with(f, e, hashes);
        let ghost all = with_ids(e, hashes);
        proof {
            lemma_entries_fit(e);
        }
        let mut arena = arena::arena_new();
        let mut i: usize = 0;
        while i < candidates.len()
            invariant
                e == walk::candidates_view(candidates@),
                e.len() <= u32::MAX,
                ids@ == assign::ids(e, hashes),
                all == with_ids(e, hashes),
                i <= candidates@.len(),
                arena::items(arena) == all.take(i as int),
            decreases candidates@.len() - i,
        {
            assert(e[i as int] == candidates@[i as int]@);
            let _ = arena::arena_alloc(&mut arena, (candidates[i].ptr, ids[i]));
            assert(all.take(i + 1) =~= all.take(i as int).push(all[i as int]));
            i = i + 1;
        }
        assert(all.take(all.len() as int) =~= all);
        let len: usize = arena::arena_len(&arena);
        let mut ptr_map = tables::table_with_capacity(len);
        let mut id_map = tables::table_with_capacity(len);
        let mut k: u32 = 0;
        while (k as usize) < len
            invariant
                k <= len <= u32::MAX,
                all.len() == len,
                arena::items(arena) == all,
                indexes(ptr_map, all, Column::Ptr, k as int),
                indexes(id_map, all, Column::Id, k as int),
            decreases len - k,
        {
            let item = *arena::arena_get(&arena, k);
            let ptr_hash: u64 = tables::hash_ptr(&item.0);
            let ast_id_hash: u64 = tables::hash_ast_id(&item.1);
            tables::table_insert(&mut ptr_map, ptr_hash, k, &arena, Column::Ptr);
            tables::table_insert(&mut id_map, ast_id_hash, k, &arena, Column::Id);
            k = k + 1;
        }
        arena::arena_shrink_to_fit(&mut arena);
        proof {
            laws::ids_are_distinct(*node, hashes);
            let ids = assign::ids(e, hashes);
            assert forall|i: int, j: int| 0 <= i < j < all.len() implies (#[trigger] all[i]).1 != (
            #[trigger] all[j]).1 by {
                assert(ids[i] != ids[j]);
            }
        }
        AstIdMap { arena, ptr_map, id_map }
    }

    /// The root node.
    pub fn root(&self) -> (r: SyntaxNodePtr)
        requires
            self@.len() > 0,
        ensures
            r == self@[0].0,
    {
        arena::arena_get(&self.arena, 0).0
    }

    /// The id of a node, if it has one.
    pub fn try_erased_ast_id(&self, ptr: SyntaxNodePtr) -> (r: Option<ErasedFileAstId>)
        requires
            self.wf(),
        ensures
            r is Some <==> self.has_ptr(ptr),
            r matches Some(id) ==> self@.contains((ptr, id)),
    {
        let hash: u64 = tables::hash_ptr(&ptr);
        match tables::table_find(&self.ptr_map, hash, &self.arena, Key::Ptr(ptr)) {
            Some(i) => {
                proof {
                    let h = choose|h: u64| #[trigger]
                        tables::table_items(self.ptr_map).contains((h, i));
                    assert(tables::table_items(self.ptr_map).contains((h, i)));
                    assert(self@[i as int].0 == ptr);
                }
                Some(arena::arena_get(&self.arena, i).1)
            },
            None => {
                proof {
                    assert forall|i: int| 0 <= i < self@.len() implies (#[trigger] self@[i]).0
                        != ptr by {
                        if self@[i].0 == ptr {
                            assert(tables::table_items(self.ptr_map).contains((hash, i as u32)));
                        }
                    }
                }
                None
            },
        }
    }

    /// The id of a node that has one.
    pub fn erased_ast_id(&self, ptr: SyntaxNodePtr) -> (r: ErasedFileAstId)
        requires
            self.wf(),
            self.has_ptr(ptr),
        ensures
            self@.contains((ptr, r)),
    {
        self.try_erased_ast_id(ptr).unwrap()
    }

    pub fn erased_ast_id_for_ptr(&self, ptr: SyntaxNodePtr) -> (r: ErasedFileAstId)
        requires
            self.wf(),
            self.has_ptr(ptr),
        ensures
            self@.contains((ptr, r)),
    {
        self.erased_ast_id(ptr)
    }

    /// The node with the given id.
    pub fn get_erased(&self, id: ErasedFileAstId) -> (r: SyntaxNodePtr)
        requires
            self.wf(),
            self.has_id(id),
        ensures
            self@.contains((r, id)),
    {
        let hash: u64 = tables::hash_ast_id(&id);
        match tables::table_find(&self.id_map, hash, &self.arena, Key::Id(id)) {
            Some(i) => {
                proof {
                    let h = choose|h: u64| #[trigger]
                        tables::table_items(self.id_map).contains((h, i));
                    assert(tables::table_items(self.id_map).contains((h, i)));
                    assert(self@[i as int].1 == id);
                }
                arena::arena_get(&self.arena, i).0
            },
            None => {
                proof {
                    let i = choose|i: int| 0 <= i < self@.len() && (#[trigger] self@[i]).1 == id;
                    assert(tables::table_items(self.id_map).contains((hash, i as u32)));
                }
                self.root()
            },
        }
    }
}

impl Default for AstIdMap {
    /// The map without any nodes.
    fn default() -> (r: AstIdMap)
        ensures
            r.wf(),
            r@.len() == 0,
    {
        AstIdMap {
            arena: arena::arena_new(),
            ptr_map: tables::table_with_capacity(0),
            id_map: tables::table_with_capacity(0),
        }
    }
}

impl PartialEq for AstIdMap {
    fn eq(&self, other: &Self) -> (r: bool) {
        if self.len() != other.len() {
            return false;
        }
        let len: usize = self.len();
        let mut i: usize = 0;
        while i < len && i <= u32::MAX as usize
            invariant
                i <= len,
                i <= u32::MAX + 1,
                len == self@.len(),
                len == other@.len(),
                forall|j: int| 0 <= j < i ==> self@[j] == other@[j],
            decreases len - i,
        {
            let a = arena::arena_get(&self.arena, i as u32);
            let b = arena::arena_get(&other.arena, i as u32);
            if a.0 != b.0 || a.1 != b.1 {
                return false;
            }
            i = i + 1;
        }
        true
    }
}

impl vstd::std_specs::cmp::PartialEqSpecImpl for AstIdMap {
    open spec fn obeys_eq_spec() -> bool {
        true
    }

    open spec fn eq_spec(&self, other: &Self) -> bool {
        &&& self@.len() == other@.len()
        &&& forall|i: int|
            #![trigger self@[i]]
            0 <= i < self@.len() && i <= u32::MAX ==> self@[i] == other@[i]
    }
}

impl Eq for AstIdMap {

}

/// Two maps are equal if they hold the same nodes with the same ids in the same order, however their
/// tables are laid out.
pub proof fn equality_ignores_tables(a: AstIdMap, b: AstIdMap)
    requires
        a.wf(),
        b.wf(),
    ensures
        vstd::std_specs::cmp::PartialEqSpec::eq_spec(&a, &b) <==> a@ == b@,
{
    if vstd::std_specs::cmp::PartialEqSpec::eq_spec(&a, &b) {
        assert(a@ =~= b@);
    }
}

/// The id of a node leads back to the node.
pub proof fn ids_lead_back(map: AstIdMap, ptr: SyntaxNodePtr, id: ErasedFileAstId, back: SyntaxNodePtr)
    requires
        map.wf(),
        map@.contains((ptr, id)),
        map@.contains((back, id)),
    ensures
        back == ptr,
{
    let i = choose|i: int| 0 <= i < map@.len() && map@[i] == (ptr, id);
    let j = choose|j: int| 0 <= j < map@.len() && map@[j] == (back, id);
    assert(map@[i].1 == map@[j].1);
    if i < j {
    } else if j < i {
    }
}

/// In the map of a file every item, variant, macro call and inline assembly has an id.
pub proof fn all_candidates_have_ids(
    root: GreenNode,
    hashes: Seq<u64>,
    map: AstIdMap,
    n: GreenNode,
    at: nat,
)
    requires
        map@ == with_ids(walk::entries(root), hashes),
        laws::occurs_below(n, at, root.children@, 0),
        super::identity::spec_should_alloc(n.kind) is Some,
    ensures
        map.has_ptr(laws::ptr_at(n, at)),
{
    laws::all_candidates_are_found(root, n, at);
    let e = walk::entries(root);
    let i = choose|i: int| 0 <= i < e.len() && (#[trigger] e[i]).ptr == laws::ptr_at(n, at);
    assert(map@[i].0 == laws::ptr_at(n, at));
}

/// The map of a file starts with the whole file, under the id of roots.
pub proof fn map_starts_with_root(root: GreenNode, hashes: Seq<u64>, map: AstIdMap)
    requires
        map@ == with_ids(walk::entries(root), hashes),
    ensures
        map@.len() > 0,
        map@[0] == (walk::root_entry(root).ptr, super::erased::spec_root()),
{
    laws::parents_come_before_children(root);
}

// The number of nodes fits an index, if there are enough ids.

spec fn total(e: Seq<Entry>, i: nat) -> nat {
    assign::count_kind(e, ErasedFileAstIdKind::Fixup, i)
        + assign::count_kind(e, ErasedFileAstIdKind::Enum, i)
        + assign::count_kind(e, ErasedFileAstIdKind::Struct, i)
        + assign::count_kind(e, ErasedFileAstIdKind::Union, i)
        + assign::count_kind(e, ErasedFileAstIdKind::ExternCrate, i)
        + assign::count_kind(e, ErasedFileAstIdKind::MacroDef, i)
        + assign::count_kind(e, ErasedFileAstIdKind::MacroRules, i)
        + assign::count_kind(e, ErasedFileAstIdKind::Module, i)
        + assign::count_kind(e, ErasedFileAstIdKind::Static, i)
        + assign::count_kind(e, ErasedFileAstIdKind::Trait, i)
        + assign::count_kind(e, ErasedFileAstIdKind::Variant, i)
        + assign::count_kind(e, ErasedFileAstIdKind::Const, i)
        + assign::count_kind(e, ErasedFileAstIdKind::Fn, i)
        + assign::count_kind(e, ErasedFileAstIdKind::MacroCall, i)
        + assign::count_kind(e, ErasedFileAstIdKind::TypeAlias, i)
        + assign::count_kind(e, ErasedFileAstIdKind::ExternBlock, i)
        + assign::count_kind(e, ErasedFileAstIdKind::Use, i)
        + assign::count_kind(e, ErasedFileAstIdKind::Impl, i)
        + assign::count_kind(e, ErasedFileAstIdKind::BlockExpr, i)
        + assign::count_kind(e, ErasedFileAstIdKind::AsmExpr, i)
        + assign::count_kind(e, ErasedFileAstIdKind::NoDownmap, i)
        + assign::count_kind(e, ErasedFileAstIdKind::Root, i)
}

proof fn lemma_total(e: Seq<Entry>, i: nat)
    requires
        i >= 1,
    ensures
        total(e, i) == i - 1,
    decreases i,
{
    if i > 1 {
        lemma_total(e, (i - 1) as nat);
    }
}

proof fn lemma_entries_fit(e: Seq<Entry>)
    requires
        assign::enough_ids(e),
    ensures
        e.len() <= u32::MAX,
{
    if e.len() > 0 {
        lemma_total(e, e.len());
        assert(total(e, e.len()) <= 22 * IDS_PER_KIND);
    }
}

} // verus!
