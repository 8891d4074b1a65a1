//! How the ids of a file are numbered, told by the ids that came before.

use super::assign;
use super::ast_id_map;
use super::erased;
use super::erased::ErasedFileAstIdKind;
use super::identity::SpecIdentity;
use super::index_map;
use super::laws;
use super::placing;
use super::stability;
use super::walk;
use super::walk::Entry;
use crate::green::GreenNode;
use crate::selection::{selection_grows, selects};
use vstd::prelude::*;

verus! {

/// The map of a file has one pair for each entry: where the node stands, and its id.
pub proof fn maps_pair_nodes_with_their_ids(e: Seq<Entry>, hashes: Seq<u64>, i: int)
    requires
        0 <= i < e.len(),
    ensures
        ast_id_map::with_ids(e, hashes).len() == e.len(),
        ast_id_map::with_ids(e, hashes)[i].0 == e[i].ptr,
        ast_id_map::with_ids(e, hashes)[i].1 == assign::ids(e, hashes)[i],
{
}

/// A block is known by the nearest node around it that has an id; extern blocks do not count.
pub proof fn blocks_are_known_by_their_parent(root: GreenNode, hashes: Seq<u64>, i: int)
    requires
        assign::enough_ids(walk::entries(root)),
        1 <= i < walk::entries(root).len(),
        walk::entries(root)[i].kind == ErasedFileAstIdKind::BlockExpr,
    ensures
        stability::identity_at(walk::entries(root), hashes, i) == SpecIdentity::BlockExpr(
            placing::parent_in(walk::entries(root), hashes, i),
        ),
{
    let e = walk::entries(root);
    laws::parents_come_before_children(root);
    assert(e[i].green is None) by {
        if let Some(n) = e[i].green {
            assert(super::identity::spec_should_alloc(n.kind) == Some(e[i].kind));
        }
    }
    if let Some(o) = e[i].owner {
        if o >= 1 {
            laws::lemma_id_kind(e, hashes, o as int);
        } else {
            erased::unpacking_undoes_packing(
                0,
                0,
                erased::kind_number(ErasedFileAstIdKind::Root),
            );
        }
        assert(assign::ids(e, hashes)[o as int] == assign::id_at(e, hashes, o as int));
        if e[o as int].kind != ErasedFileAstIdKind::ExternBlock {
            assert(erased::kind_number(e[o as int].kind) != 15);
        }
    }
}

/// Whether an entry has the kind and its id the hash.
pub open spec fn shares(
    e: Seq<Entry>,
    hashes: Seq<u64>,
    j: int,
    kind: ErasedFileAstIdKind,
    h: int,
) -> bool {
    1 <= j && e[j].kind == kind && assign::id_at(e, hashes, j).spec_hash() == h
}

/// How many ids were given out for a kind and a hash, by the counters.
spec fn given(m: Map<u32, u32>, kind: ErasedFileAstIdKind, h: int) -> int {
    if m.contains_key(index_map::slot(kind, h)) {
        m[index_map::slot(kind, h)] + 1
    } else {
        0
    }
}

proof fn lemma_given(
    e: Seq<Entry>,
    hashes: Seq<u64>,
    i: nat,
    kind: ErasedFileAstIdKind,
    h: int,
    keep: spec_fn(int) -> bool,
) -> (idx: Seq<int>)
    requires
        assign::enough_ids(e),
        i <= e.len(),
        0 <= h < index_map::HASHES,
        forall|j: int| #[trigger] keep(j) == shares(e, hashes, j, kind, h),
    ensures
        selects(idx, i as int, keep),
        given(assign::counters_after(e, hashes, i), kind, h) == idx.len(),
    decreases i,
{
    if i == 0 {
        Seq::empty()
    } else {
        let p = (i - 1) as nat;
        let before = lemma_given(e, hashes, p, kind, h, keep);
        selection_grows(before, p as int, keep);
        if p == 0 {
            assert(!keep(0));
            before
        } else {
            laws::lemma_id_hash(e, hashes, p as int);
            let m = assign::counters_after(e, hashes, p);
            let (k, x) = (e[p as int].kind, hashes[p as int]);
            let next = index_map::hash_of_next(m, k, x);
            if index_map::slot(k, next) == index_map::slot(kind, h) {
                index_map::lemma_slot_injective(k, next, kind, h);
                laws::lemma_index_fits(e, hashes, p as int);
                assert(keep(p as int));
                before.push(p as int)
            } else {
                assert(!keep(p as int));
                before
            }
        }
    }
}

/// The number of an id is how many earlier ids have its kind and its hash. So ids with the same kind
/// and hash count up from zero.
pub proof fn numbers_count_earlier_ids(root: GreenNode, hashes: Seq<u64>, i: int) -> (idx: Seq<int>)
    requires
        assign::enough_ids(walk::entries(root)),
        1 <= i < walk::entries(root).len(),
    ensures
        ({
            let e = walk::entries(root);
            let id = assign::id_at(e, hashes, i);
            &&& selects(
                idx,
                i,
                |j: int| shares(e, hashes, j, e[i].kind, id.spec_hash() as int),
            )
            &&& id.spec_index() == idx.len()
        }),
{
    let e = walk::entries(root);
    let id = assign::id_at(e, hashes, i);
    laws::lemma_id_hash(e, hashes, i);
    laws::lemma_index_fits(e, hashes, i);
    lemma_given(
        e,
        hashes,
        i as nat,
        e[i].kind,
        id.spec_hash() as int,
        |j: int| shares(e, hashes, j, e[i].kind, id.spec_hash() as int),
    )
}

/// An id has the folded hash of its identity, as long as not all numbers for that are used up.
pub proof fn ids_keep_their_hash_while_there_is_room(
    root: GreenNode,
    hashes: Seq<u64>,
    i: int,
    idx: Seq<int>,
)
    requires
        assign::enough_ids(walk::entries(root)),
        1 <= i < walk::entries(root).len(),
        selects(
            idx,
            i,
            |j: int|
                shares(
                    walk::entries(root),
                    hashes,
                    j,
                    walk::entries(root)[i].kind,
                    erased::folded_hash(hashes[i]),
                ),
        ),
        idx.len() < 2048,
    ensures
        assign::id_at(walk::entries(root), hashes, i).spec_hash() == erased::folded_hash(hashes[i]),
{
    let e = walk::entries(root);
    let kind = e[i].kind;
    let h = erased::folded_hash(hashes[i]);
    let keep = |j: int| shares(e, hashes, j, kind, h);
    let mine = lemma_given(e, hashes, i as nat, kind, h, keep);
    crate::selection::selections_are_unique(idx, mine, i, keep);
    laws::lemma_id_hash(e, hashes, i);
    let m = assign::counters_after(e, hashes, i as nat);
    assert(index_map::slot_free(m, kind, (h + 0) % index_map::HASHES as int));
    assert(index_map::probe(m, kind, h, 0) == 0);
}

} // verus!
