//! The ids of the nodes that were found in a file.

use super::erased;
use super::erased::{ErasedFileAstId, ErasedFileAstIdKind};
use super::identity;
use super::identity::{BlockExprFileAstId, Identity, SpecIdentity};
use super::index_map;
use super::index_map::{ErasedAstIdNextIndexMap, IDS_PER_KIND};
use super::walk;
use super::walk::{Candidate, Entry};
use crate::green::GreenNode;
use crate::syntax_kind::SyntaxKind;
use vstd::prelude::*;

verus! {

/// The counters after the first `i` nodes have got their ids. The root does not count.
pub open spec fn counters_after(e: Seq<Entry>, hashes: Seq<u64>, i: nat) -> Map<u32, u32>
    decreases i,
{
    if i <= 1 {
        Map::empty()
    } else {
        index_map::after_next(
            counters_after(e, hashes, (i - 1) as nat),
            e[i - 1].kind,
            hashes[i - 1],
        )
    }
}

/// The id of the `i`th node, where the data of the nodes have the given hashes.
pub open spec fn id_at(e: Seq<Entry>, hashes: Seq<u64>, i: int) -> ErasedFileAstId {
    if i == 0 {
        erased::spec_root()
    } else {
        index_map::next_id(counters_after(e, hashes, i as nat), e[i].kind, hashes[i])
    }
}

pub open spec fn ids(e: Seq<Entry>, hashes: Seq<u64>) -> Seq<ErasedFileAstId> {
    Seq::new(e.len(), |i: int| id_at(e, hashes, i))
}

/// How many of the first `i` nodes, the root aside, have the given kind.
pub open spec fn count_kind(e: Seq<Entry>, kind: ErasedFileAstIdKind, i: nat) -> nat
    decreases i,
{
    if i <= 1 {
        0
    } else {
        count_kind(e, kind, (i - 1) as nat) + if e[i - 1].kind == kind {
            1nat
        } else {
            0
        }
    }
}

/// There are enough ids for all nodes.
pub open spec fn enough_ids(e: Seq<Entry>) -> bool {
    forall|k: ErasedFileAstIdKind| #[trigger] count_kind(e, k, e.len()) <= IDS_PER_KIND
}

pub(crate) proof fn lemma_count_monotonic(e: Seq<Entry>, kind: ErasedFileAstIdKind, i: nat, j: nat)
    requires
        i <= j,
    ensures
        count_kind(e, kind, i) <= count_kind(e, kind, j),
    decreases j,
{
    if i < j {
        lemma_count_monotonic(e, kind, i, (j - 1) as nat);
    }
}

/// The id that goes into the identity of the nodes in an item. The items of an extern block have
/// none.
pub open spec fn parent_id(id: ErasedFileAstId) -> Option<ErasedFileAstId> {
    if id.spec_kind() == erased::kind_number(ErasedFileAstIdKind::ExternBlock) {
        None
    } else {
        Some(id)
    }
}

pub open spec fn spec_parent_of(
    owner: Option<usize>,
    ids: Seq<ErasedFileAstId>,
) -> Option<ErasedFileAstId> {
    match owner {
        Some(i) => parent_id(ids[i as int]),
        None => None,
    }
}

pub fn parent_of(owner: Option<usize>, ids: &Vec<ErasedFileAstId>) -> (r: Option<ErasedFileAstId>)
    requires
        owner matches Some(i) ==> i < ids@.len(),
    ensures
        r == spec_parent_of(owner, ids@),
{
    match owner {
        Some(i) => {
            let id = ids[i];
            if id.kind() == ErasedFileAstIdKind::ExternBlock.as_u32() {
                None
            } else {
                Some(id)
            }
        },
        None => None,
    }
}

impl ErasedFileAstId {
    /// Gives a node its id, if it is one that gets one. The id is the one that
    /// [`ErasedAstIdNextIndexMap::new_id_for_hash`] gives for the hash of the node's identity.
    pub fn ast_id_for_green(
        node: &GreenNode,
        index_map: &mut ErasedAstIdNextIndexMap,
        parent: Option<ErasedFileAstId>,
    ) -> (r: Option<ErasedFileAstId>)
        requires
            old(index_map).wf(),
            identity::spec_should_alloc(node.kind) matches Some(k) ==> old(index_map).given(k)
                < IDS_PER_KIND,
        ensures
            final(index_map).wf(),
            r is Some <==> identity::spec_should_alloc(node.kind) is Some,
            identity::spec_should_alloc(node.kind) matches Some(k) ==> exists|hash: u64| {
                &&& r == Some(#[trigger] index_map::next_id(old(index_map).counters@, k, hash))
                &&& final(index_map).counters@ == index_map::after_next(
                    old(index_map).counters@,
                    k,
                    hash,
                )
                &&& hashes_to(
                    identity::hash_identity,
                    identity::spec_identity(*node, parent),
                    hash,
                )
                &&& identity::textless_hash(identity::spec_identity(*node, parent)) matches Some(h)
                    ==> hash == h
            },
            r is None ==> final(index_map).counters@ == old(index_map).counters@,
    {
        match identity::identity_of(node, parent) {
            Some((kind, data)) => {
                let hash: u64 = identity::hash_identity(&data);
                assert(hashes_to(identity::hash_identity, data@, hash));
                Some(index_map.new_id_for_hash(kind, hash))
            },
            None => None,
        }
    }
}

/// Gives an impl its id.
pub fn impl_ast_id(node: &GreenNode, index_map: &mut ErasedAstIdNextIndexMap) -> (r:
    ErasedFileAstId)
    requires
        old(index_map).wf(),
        old(index_map).given(ErasedFileAstIdKind::Impl) < IDS_PER_KIND,
    ensures
        final(index_map).wf(),
        exists|hash: u64| {
            &&& r == #[trigger] index_map::next_id(
                old(index_map).counters@,
                ErasedFileAstIdKind::Impl,
                hash,
            )
            &&& final(index_map).counters@ == index_map::after_next(
                old(index_map).counters@,
                ErasedFileAstIdKind::Impl,
                hash,
            )
            &&& hashes_to(
                identity::hash_identity,
                SpecIdentity::Impl(identity::impl_names(*node).0, identity::impl_names(*node).1),
                hash,
            )
        },
{
    let data = Identity::Impl(identity::impl_identity(node));
    let hash: u64 = identity::hash_identity(&data);
    assert(hashes_to(identity::hash_identity, data@, hash));
    index_map.new_id_for_hash(ErasedFileAstIdKind::Impl, hash)
}

/// What the walk says of the nodes that it found: those that are not blocks or the root have the
/// kind of id that belongs to their kind, and everything lies in something found earlier.
pub open spec fn assignable(e: Seq<Entry>) -> bool {
    forall|i: int|
        1 <= i < e.len() ==> {
            let entry = #[trigger] e[i];
            &&& entry.owner matches Some(o) ==> o < i
            &&& match entry.green {
                Some(n) => identity::spec_should_alloc(n.kind) == Some(entry.kind)
                    && entry.ptr.kind == n.kind,
                None => entry.kind == ErasedFileAstIdKind::BlockExpr && entry.ptr.kind
                    == SyntaxKind::BLOCK_EXPR,
            }
        }
}

/// The identity of a node that was found, in the item with the id `parent`.
pub open spec fn entry_identity(entry: Entry, parent: Option<ErasedFileAstId>) -> SpecIdentity {
    match entry.green {
        Some(n) => identity::spec_identity(n, parent),
        None => SpecIdentity::BlockExpr(parent),
    }
}

/// The id that goes into the identity of a node that was found.
pub open spec fn entry_parent(entry: Entry, ids: Seq<ErasedFileAstId>) -> Option<ErasedFileAstId> {
    match entry.owner {
        Some(o) => parent_id(ids[o as int]),
        None => None,
    }
}

/// Whether `hash` is what the function returns for data with the given identity.
pub open spec fn hashes_to<F: Fn(&Identity) -> u64>(
    f: F,
    identity: SpecIdentity,
    hash: u64,
) -> bool {
    exists|data: Identity| data@ == identity && #[trigger] call_ensures(f, (&data,), hash)
}

/// Whether the hashes are what the function returns for the identities of the nodes.
pub open spec fn hashed_with<F: Fn(&Identity) -> u64>(
    f: F,
    e: Seq<Entry>,
    hashes: Seq<u64>,
) -> bool {
    forall|i: int|
        1 <= i < e.len() ==> hashes_to(
            f,
            entry_identity(e[i], entry_parent(e[i], ids(e, hashes))),
            #[trigger] hashes[i],
        )
}

/// Gives all nodes their ids, by the hashes that the given function has for their identities.
pub fn assign_ids<F: Fn(&Identity) -> u64>(candidates: &Vec<Candidate>, hash: F) -> (r: Vec<
    ErasedFileAstId,
>)
    requires
        candidates@.len() > 0,
        assignable(walk::candidates_view(candidates@)),
        enough_ids(walk::candidates_view(candidates@)),
        forall|data: Identity| call_requires(hash, (&data,)),
    ensures
        exists|hashes: Seq<u64>|
            hashes.len() == candidates@.len() && r@ == #[trigger] ids(
                walk::candidates_view(candidates@),
                hashes,
            ) && hashed_with(hash, walk::candidates_view(candidates@), hashes),
{
    let ghost e = walk::candidates_view(candidates@);
    let mut index_map = ErasedAstIdNextIndexMap::new();
    let mut r: Vec<ErasedFileAstId> = Vec::new();
    r.push(erased::ROOT_ERASED_FILE_AST_ID());
    let ghost mut hashes: Seq<u64> = seq![0];
    let mut i: usize = 1;
    while i < candidates.len()
        invariant
            e == walk::candidates_view(candidates@),
            assignable(e),
            enough_ids(e),
            1 <= i <= candidates@.len(),
            r@.len() == i,
            hashes.len() == i,
            index_map.wf(),
            index_map.counters@ == counters_after(e, hashes, i as nat),
            forall|k: ErasedFileAstIdKind|
                #[trigger] index_map.given(k) == count_kind(e, k, i as nat),
            forall|j: int| 0 <= j < i ==> #[trigger] r@[j] == id_at(e, hashes, j),
            forall|data: Identity| call_requires(hash, (&data,)),
            forall|j: int|
                1 <= j < i ==> hashes_to(
                    hash,
                    entry_identity(e[j], entry_parent(e[j], r@)),
                    #[trigger] hashes[j],
                ),
        decreases candidates@.len() - i,
    {
        let c = &candidates[i];
        assert(e[i as int] == c@);
        let parent = parent_of(c.owner, &r);
        let data = match c.green {
            Some(node) => match identity::identity_of(node, parent) {
                Some((_, data)) => data,
                None => Identity::Nameless,
            },
            None => Identity::BlockExpr(BlockExprFileAstId { parent }),
        };
        let value: u64 = hash(&data);
        assert(hashes_to(hash, data@, value));
        proof {
            lemma_count_monotonic(e, c.kind, (i + 1) as nat, e.len());
            assert(count_kind(e, c.kind, e.len()) <= IDS_PER_KIND);
            assert(index_map.given(c.kind) == count_kind(e, c.kind, i as nat));
        }
        let id = index_map.new_id_for_hash(c.kind, value);
        proof {
            let longer = hashes.push(value);
            lemma_counters_agree(e, longer, hashes, i as nat);
            assert forall|j: int| 0 <= j < i implies #[trigger] id_at(e, longer, j) == id_at(
                e,
                hashes,
                j,
            ) by {
                lemma_counters_agree(e, longer, hashes, j as nat);
            }
            hashes = longer;
        }
        let ghost shorter = r@;
        r.push(id);
        assert forall|j: int| 1 <= j < i + 1 implies hashes_to(
            hash,
            entry_identity(e[j], entry_parent(e[j], r@)),
            #[trigger] hashes[j],
        ) by {
            assert(entry_parent(e[j], r@) == entry_parent(e[j], shorter));
        }
        i = i + 1;
    }
    assert(r@ =~= ids(e, hashes));
    r
}

proof fn lemma_counters_agree(e: Seq<Entry>, a: Seq<u64>, b: Seq<u64>, i: nat)
    requires
        forall|j: int| 0 <= j < i ==> a[j] == b[j],
    ensures
        counters_after(e, a, i) == counters_after(e, b, i),
    decreases i,
{
    if i > 1 {
        lemma_counters_agree(e, a, b, (i - 1) as nat);
    }
}

} // verus!
