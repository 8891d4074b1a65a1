//! Where the nodes with an id lie, and what their ids say of that.

use super::assign;
use super::erased;
use super::erased::{ErasedFileAstId, ErasedFileAstIdKind};
use super::identity;
use super::identity::{Identity, SpecIdentity};
use super::index_map;
use super::laws;
use super::naming;
use super::stability;
use super::walk;
use super::walk::{Entry, LayerNode, WalkState};
use crate::green;
use crate::green::{GreenElement, GreenNode, GreenToken};
use crate::syntax_kind::SyntaxKind;
use vstd::prelude::*;

verus! {

/// Whether nodes of the kind have an id of their own in any case.
pub open spec fn has_own_id(kind: SyntaxKind) -> bool {
    ||| naming::is_known_by_name(kind)
    ||| naming::is_known_by_place(kind)
    ||| kind == SyntaxKind::EXTERN_CRATE
    ||| kind == SyntaxKind::MACRO_CALL
    ||| kind == SyntaxKind::EXTERN_BLOCK
    ||| kind == SyntaxKind::USE
    ||| kind == SyntaxKind::IMPL
    ||| kind == SyntaxKind::ASM_EXPR
}

/// Whether `n` stands at the offset `at` in one of the trees that follow each other from the offset
/// `start` on, and no node with an id of its own lies between.
pub open spec fn lies_directly(n: GreenNode, at: nat, c: Seq<GreenElement>, start: nat) -> bool
    decreases c,
{
    exists|i: int|
        0 <= i < c.len() && (#[trigger] c[i] matches GreenElement::Node(m) && {
            let m_start = start + green::prefix_len(c, i as nat);
            ||| n == m && at == m_start
            ||| !has_own_id(m.kind) && lies_directly(n, at, m.children@, m_start)
        })
}

proof fn lemma_child_lies_directly(c: Seq<GreenElement>, start: nat, i: int)
    requires
        0 <= i < c.len(),
        c[i] is Node,
    ensures
        lies_directly(c[i]->Node_0, start + green::prefix_len(c, i as nat), c, start),
{
    assert(c[i] matches GreenElement::Node(m) && m == c[i]->Node_0);
}

proof fn lemma_lies_within(
    a: GreenNode,
    a_at: nat,
    n: GreenNode,
    at: nat,
    c: Seq<GreenElement>,
    start: nat,
)
    requires
        lies_directly(n, at, c, start),
        !has_own_id(n.kind),
        lies_directly(a, a_at, n.children@, at),
    ensures
        lies_directly(a, a_at, c, start),
    decreases c,
{
    let i = choose|i: int|
        0 <= i < c.len() && (#[trigger] c[i] matches GreenElement::Node(m) && {
            let m_start = start + green::prefix_len(c, i as nat);
            ||| n == m && at == m_start
            ||| !has_own_id(m.kind) && lies_directly(n, at, m.children@, m_start)
        });
    let m = c[i]->Node_0;
    let m_start = start + green::prefix_len(c, i as nat);
    if !(n == m && at == m_start) {
        assert(decreases_to!(c => c[i]));
        assert(decreases_to!(c[i] => m));
        assert(decreases_to!(m => m.children@));
        lemma_lies_within(a, a_at, n, at, m.children@, m_start);
    }
    assert(c[i] matches GreenElement::Node(x) && x == m);
}

/// Whether an entry says rightly what its node lies in: the node of another entry, with no other node
/// with an id of its own between, or the file.
pub open spec fn is_placed(e: Seq<Entry>, root: GreenNode, i: int) -> bool {
    let n = e[i].green->0;
    exists|at: nat| #[trigger]
        laws::ptr_at(n, at) == e[i].ptr && match e[i].owner {
            None => lies_directly(n, at, root.children@, 0),
            Some(o) => {
                &&& 1 <= o < i
                &&& e[o as int].green is Some
                &&& exists|o_at: nat| #[trigger]
                    laws::ptr_at(e[o as int].green->0, o_at) == e[o as int].ptr && lies_directly(
                        n,
                        at,
                        e[o as int].green->0.children@,
                        o_at,
                    )
            },
        }
}

spec fn all_placed(e: Seq<Entry>, root: GreenNode) -> bool {
    &&& e.len() > 0
    &&& forall|i: int|
        1 <= i < e.len() && (#[trigger] e[i]).green is Some ==> is_placed(e, root, i)
}

/// The owner of a node that is still to be walked below is the entry for the node itself.
spec fn is_owned(l: LayerNode, e: Seq<Entry>, root: GreenNode) -> bool {
    match l.owner {
        None => l.node == root && l.start == 0,
        Some(o) => {
            &&& 1 <= o < e.len()
            &&& e[o as int].green == Some(l.node)
            &&& e[o as int].ptr == laws::ptr_at(l.node, l.start)
        },
    }
}

spec fn all_owned(layer: Seq<LayerNode>, e: Seq<Entry>, root: GreenNode) -> bool {
    forall|j: int| 0 <= j < layer.len() ==> is_owned(#[trigger] layer[j], e, root)
}

proof fn lemma_placed_kept(a: Seq<Entry>, b: Seq<Entry>, root: GreenNode, i: int)
    requires
        a.len() <= b.len(),
        b.take(a.len() as int) == a,
        1 <= i < a.len(),
        a[i].green is Some,
        is_placed(a, root, i),
    ensures
        is_placed(b, root, i),
        b[i] == a[i],
{
    assert(b[i] == b.take(a.len() as int)[i]);
    let n = a[i].green->0;
    let at = choose|at: nat| #[trigger]
        laws::ptr_at(n, at) == a[i].ptr && match a[i].owner {
            None => lies_directly(n, at, root.children@, 0),
            Some(o) => {
                &&& 1 <= o < i
                &&& a[o as int].green is Some
                &&& exists|o_at: nat| #[trigger]
                    laws::ptr_at(a[o as int].green->0, o_at) == a[o as int].ptr && lies_directly(
                        n,
                        at,
                        a[o as int].green->0.children@,
                        o_at,
                    )
            },
        };
    if let Some(o) = a[i].owner {
        assert(b[o as int] == b.take(a.len() as int)[o as int]);
    }
    assert(laws::ptr_at(n, at) == b[i].ptr);
}

proof fn lemma_owned_kept(a: Seq<Entry>, b: Seq<Entry>, root: GreenNode, l: LayerNode)
    requires
        a.len() <= b.len(),
        b.take(a.len() as int) == a,
        is_owned(l, a, root),
    ensures
        is_owned(l, b, root),
{
    if let Some(o) = l.owner {
        assert(b[o as int] == b.take(a.len() as int)[o as int]);
    }
}

spec fn is_right(st: WalkState, root: GreenNode) -> bool {
    all_placed(st.out, root) && all_owned(st.next, st.out, root)
}

proof fn lemma_push_right(st: WalkState, root: GreenNode, entry: Entry)
    requires
        is_right(st, root),
        entry.green is Some ==> is_placed(st.out.push(entry), root, st.out.len() as int),
    ensures
        all_placed(st.out.push(entry), root),
        all_owned(st.next, st.out.push(entry), root),
{
    let b = st.out.push(entry);
    assert(b.take(st.out.len() as int) =~= st.out);
    assert forall|i: int| 1 <= i < b.len() && (#[trigger] b[i]).green is Some implies is_placed(
        b,
        root,
        i,
    ) by {
        if i < st.out.len() {
            assert(b[i] == st.out[i]);
            lemma_placed_kept(st.out, b, root, i);
        }
    }
    assert forall|j: int| 0 <= j < st.next.len() implies is_owned(#[trigger] st.next[j], b, root) by {
        lemma_owned_kept(st.out, b, root, st.next[j]);
    }
}

proof fn lemma_alloc_block_right(
    l: LayerNode,
    root: GreenNode,
    kind: ErasedFileAstIdKind,
    parent: SyntaxKind,
    grandparent: Option<SyntaxKind>,
    st: WalkState,
)
    requires
        is_right(st, root),
        is_owned(l, st.out, root),
    ensures
        is_right(walk::alloc_block(kind, parent, grandparent, l.owner, st), root),
        is_owned(l, walk::alloc_block(kind, parent, grandparent, l.owner, st).out, root),
{
    let mid = walk::alloc_block(kind, parent, grandparent, l.owner, st);
    if st.blocks.len() > 0 && !st.blocks.last().1 && walk::counts_as_item(kind, parent, grandparent) {
        let entry = mid.out.last();
        assert(mid.out =~= st.out.push(entry));
        lemma_push_right(st, root, entry);
        assert(mid.out.take(st.out.len() as int) =~= st.out);
        lemma_owned_kept(st.out, mid.out, root, l);
    }
}

proof fn lemma_alloc_node_right(
    l: LayerNode,
    root: GreenNode,
    n: GreenNode,
    start: nat,
    kind: ErasedFileAstIdKind,
    st: WalkState,
)
    requires
        is_right(st, root),
        is_owned(l, st.out, root),
        lies_directly(n, start, l.node.children@, l.start),
    ensures
        is_right(walk::alloc_node(n, start, kind, l.owner, st), root),
{
    let r = walk::alloc_node(n, start, kind, l.owner, st);
    let last = st.out.len() as int;
    let entry = r.out[last];
    assert(r.out =~= st.out.push(entry));
    assert(is_placed(r.out, root, last)) by {
        assert(laws::ptr_at(n, start) == r.out[last].ptr);
        if let Some(o) = l.owner {
            assert(r.out[o as int] == st.out[o as int]);
            assert(laws::ptr_at(l.node, l.start) == r.out[o as int].ptr);
        }
    }
    lemma_push_right(st, root, entry);
    assert forall|j: int| 0 <= j < r.next.len() implies is_owned(
        #[trigger] r.next[j],
        r.out,
        root,
    ) by {
        if j < st.next.len() {
            assert(r.next[j] == st.next[j]);
        }
    }
}

proof fn lemma_visit_right(
    l: LayerNode,
    root: GreenNode,
    n: GreenNode,
    start: nat,
    parent: SyntaxKind,
    grandparent: Option<SyntaxKind>,
    st: WalkState,
)
    requires
        is_right(st, root),
        is_owned(l, st.out, root),
        lies_directly(n, start, l.node.children@, l.start),
    ensures
        is_right(walk::visit(n, start, parent, grandparent, l.owner, st), root),
    decreases n, 0nat,
{
    let c = n.children@;
    if n.kind == SyntaxKind::BLOCK_EXPR {
        let entered = WalkState {
            blocks: st.blocks.push((walk::range_at(start, n.text_len as nat), false)),
            ..st
        };
        lemma_children_lie_directly(l, n, start);
        lemma_visit_children_right(l, root, c, c.len(), start, n.kind, Some(parent), entered);
    } else {
        match identity::spec_should_alloc(n.kind) {
            Some(kind) => {
                lemma_alloc_block_right(l, root, kind, parent, grandparent, st);
                let mid = walk::alloc_block(kind, parent, grandparent, l.owner, st);
                lemma_alloc_node_right(l, root, n, start, kind, mid);
            },
            None => {
                lemma_children_lie_directly(l, n, start);
                lemma_visit_children_right(l, root, c, c.len(), start, n.kind, Some(parent), st);
            },
        }
    }
}

proof fn lemma_children_lie_directly(l: LayerNode, n: GreenNode, start: nat)
    requires
        lies_directly(n, start, l.node.children@, l.start),
        !has_own_id(n.kind),
    ensures
        forall|k: int|
            0 <= k < n.children@.len() && (#[trigger] n.children@[k]) is Node ==> lies_directly(
                n.children@[k]->Node_0,
                start + green::prefix_len(n.children@, k as nat),
                l.node.children@,
                l.start,
            ),
{
    let c = n.children@;
    assert forall|k: int| 0 <= k < c.len() && (#[trigger] c[k]) is Node implies lies_directly(
        c[k]->Node_0,
        start + green::prefix_len(c, k as nat),
        l.node.children@,
        l.start,
    ) by {
        lemma_child_lies_directly(c, start, k);
        lemma_lies_within(
            c[k]->Node_0,
            start + green::prefix_len(c, k as nat),
            n,
            start,
            l.node.children@,
            l.start,
        );
    }
}

proof fn lemma_visit_children_right(
    l: LayerNode,
    root: GreenNode,
    c: Seq<GreenElement>,
    i: nat,
    start: nat,
    parent: SyntaxKind,
    grandparent: Option<SyntaxKind>,
    st: WalkState,
)
    requires
        i <= c.len(),
        is_right(st, root),
        is_owned(l, st.out, root),
        forall|k: int|
            0 <= k < c.len() && (#[trigger] c[k]) is Node ==> lies_directly(
                c[k]->Node_0,
                start + green::prefix_len(c, k as nat),
                l.node.children@,
                l.start,
            ),
    ensures
        is_right(walk::visit_children(c, i, start, parent, grandparent, l.owner, st), root),
    decreases c, i,
{
    if i > 0 {
        let before = walk::visit_children(
            c,
            (i - 1) as nat,
            start,
            parent,
            grandparent,
            l.owner,
            st,
        );
        lemma_visit_children_right(l, root, c, (i - 1) as nat, start, parent, grandparent, st);
        walk::lemma_visit_children(c, (i - 1) as nat, start, parent, grandparent, l.owner, st);
        lemma_owned_kept(st.out, before.out, root, l);
        if let GreenElement::Node(n) = c[i - 1] {
            assert(c[i - 1] is Node);
            lemma_visit_right(
                l,
                root,
                n,
                start + green::prefix_len(c, (i - 1) as nat),
                parent,
                grandparent,
                before,
            );
        }
    }
}

proof fn lemma_visit_layer_right(layer: Seq<LayerNode>, i: nat, root: GreenNode, st: WalkState)
    requires
        i <= layer.len(),
        is_right(st, root),
        all_owned(layer, st.out, root),
    ensures
        is_right(walk::visit_layer(layer, i, st), root),
    decreases i,
{
    if i > 0 {
        let before = walk::visit_layer(layer, (i - 1) as nat, st);
        lemma_visit_layer_right(layer, (i - 1) as nat, root, st);
        walk::lemma_visit_layer(layer, (i - 1) as nat, st);
        let l = layer[i - 1];
        lemma_owned_kept(st.out, before.out, root, l);
        let c = l.node.children@;
        assert forall|k: int| 0 <= k < c.len() && (#[trigger] c[k]) is Node implies lies_directly(
            c[k]->Node_0,
            l.start + green::prefix_len(c, k as nat),
            c,
            l.start,
        ) by {
            lemma_child_lies_directly(c, l.start, k);
        }
        lemma_visit_children_right(l, root, c, c.len(), l.start, l.node.kind, None, before);
    }
}

proof fn lemma_visit_layers_right(layer: Seq<LayerNode>, out: Seq<Entry>, root: GreenNode)
    requires
        all_placed(out, root),
        all_owned(layer, out, root),
    ensures
        all_placed(walk::visit_layers(layer, out), root),
    decreases walk::layer_size(layer),
{
    if layer.len() > 0 {
        let st0 = walk::start_state(out);
        let st = walk::visit_layer(layer, layer.len(), st0);
        assert(layer.take(layer.len() as int) =~= layer);
        walk::lemma_visit_layer(layer, layer.len(), st0);
        lemma_visit_layer_right(layer, layer.len(), root, st0);
        lemma_visit_layers_right(st.next, st.out, root);
    }
}

/// What a node is said to lie in is the nearest node around it that has an id of its own. A node that
/// is said to lie in none stands in the file with no such node around it.
pub proof fn owners_are_the_nearest_nodes_around(root: GreenNode, i: int)
    requires
        1 <= i < walk::entries(root).len(),
        walk::entries(root)[i].green is Some,
    ensures
        is_placed(walk::entries(root), root, i),
{
    let layer = seq![LayerNode { node: root, start: 0, owner: None }];
    let out = seq![walk::root_entry(root)];
    assert(is_owned(layer[0], out, root));
    lemma_visit_layers_right(layer, out, root);
}

// From nodes to identities.

/// The id of what a node lies in, as it goes into the node's own: that of the entry `o`, but none if
/// that is an extern block.
pub open spec fn parent_in(e: Seq<Entry>, hashes: Seq<u64>, i: int) -> Option<ErasedFileAstId> {
    if e[i].owner is None || e[e[i].owner->0 as int].kind == ErasedFileAstIdKind::ExternBlock {
        None
    } else {
        Some(assign::ids(e, hashes)[e[i].owner->0 as int])
    }
}

/// The id of a node is hashed from what the node is written as, and from the id of the nearest node
/// around it that has one; extern blocks do not count.
pub proof fn ids_are_made_from_node_and_parent(root: GreenNode, hashes: Seq<u64>, i: int)
    requires
        assign::enough_ids(walk::entries(root)),
        1 <= i < walk::entries(root).len(),
        walk::entries(root)[i].green is Some,
    ensures
        stability::identity_at(walk::entries(root), hashes, i) == identity::spec_identity(
            walk::entries(root)[i].green->0,
            parent_in(walk::entries(root), hashes, i),
        ),
        naming::gets(walk::entries(root)[i].green->0.kind, walk::entries(root)[i].kind),
{
    let e = walk::entries(root);
    laws::parents_come_before_children(root);
    owners_are_the_nearest_nodes_around(root, i);
    naming::ids_have_the_kinds_of_their_nodes(e[i].green->0.kind, e[i].kind);
    if let Some(o) = e[i].owner {
        laws::lemma_id_kind(e, hashes, o as int);
        assert(assign::ids(e, hashes)[o as int] == assign::id_at(e, hashes, o as int));
        if e[o as int].kind != ErasedFileAstIdKind::ExternBlock {
            assert(erased::kind_number(e[o as int].kind) != 15);
        }
    }
}

/// Every struct, enum, union, module, trait, static and macro of a file, wherever it stands, has an
/// entry whose id is of its kind and is hashed from exactly the name that is written. So two of one
/// kind with different names have different identities.
pub proof fn named_items_have_ids_made_from_their_names(
    root: GreenNode,
    hashes: Seq<u64>,
    n: GreenNode,
    at: nat,
    i: int,
    name: GreenNode,
    t: GreenToken,
)
    requires
        assign::enough_ids(walk::entries(root)),
        laws::occurs_below(n, at, root.children@, 0),
        naming::is_known_by_name(n.kind),
        naming::is_named(n, i, name, t),
    ensures
        exists|k: int|
            1 <= k < walk::entries(root).len() && (#[trigger] walk::entries(root)[k]).ptr
                == laws::ptr_at(n, at) && naming::gets(n.kind, walk::entries(root)[k].kind)
                && stability::identity_at(walk::entries(root), hashes, k) == SpecIdentity::HasName(
                t.text@,
            ),
{
    let e = walk::entries(root);
    laws::all_candidates_are_found(root, n, at);
    let k = choose|k: int|
        1 <= k < e.len() && (#[trigger] e[k]).ptr == laws::ptr_at(n, at) && e[k].green == Some(n);
    ids_are_made_from_node_and_parent(root, hashes, k);
    naming::items_are_known_by_their_names(n, parent_in(e, hashes, k), i, name, t);
}

/// Every function, constant, type alias and variant of a file has an entry whose id is hashed from
/// exactly the name that is written, and from the id of what it lies in.
pub proof fn nested_items_have_ids_made_from_name_and_parent(
    root: GreenNode,
    hashes: Seq<u64>,
    n: GreenNode,
    at: nat,
    i: int,
    name: GreenNode,
    t: GreenToken,
)
    requires
        assign::enough_ids(walk::entries(root)),
        laws::occurs_below(n, at, root.children@, 0),
        naming::is_known_by_place(n.kind),
        naming::is_named(n, i, name, t),
    ensures
        exists|k: int|
            1 <= k < walk::entries(root).len() && (#[trigger] walk::entries(root)[k]).ptr
                == laws::ptr_at(n, at) && naming::gets(n.kind, walk::entries(root)[k].kind)
                && is_placed(walk::entries(root), root, k) && stability::identity_at(
                walk::entries(root),
                hashes,
                k,
            ) == SpecIdentity::AssocItem(parent_in(walk::entries(root), hashes, k), t.text@),
{
    let e = walk::entries(root);
    laws::all_candidates_are_found(root, n, at);
    let k = choose|k: int|
        1 <= k < e.len() && (#[trigger] e[k]).ptr == laws::ptr_at(n, at) && e[k].green == Some(n);
    ids_are_made_from_node_and_parent(root, hashes, k);
    owners_are_the_nearest_nodes_around(root, k);
    naming::nested_items_are_known_by_name_and_parent(n, parent_in(e, hashes, k), i, name, t);
}

/// What is hashed for an identity with a name in it is all that the identity is made of.
pub proof fn names_are_hashed_with_their_parents(data: Identity, hash: u64)
    requires
        call_ensures(identity::hash_identity, (&data,), hash),
    ensures
        match data {
            Identity::HasName(d) => index_map::is_hash(&d, hash) && data@ == SpecIdentity::HasName(
                d.name@,
            ),
            Identity::AssocItem(d) => index_map::is_hash(&d, hash) && data@
                == SpecIdentity::AssocItem(d.parent, d.properties.name@),
            Identity::Impl(d) => {
                &&& index_map::is_hash(&d, hash)
                &&& data@ is Impl
                &&& data@->Impl_0 is Some <==> d.self_ty_name is Some
                &&& d.self_ty_name is Some ==> data@->Impl_0->0 == d.self_ty_name->0@
                &&& data@->Impl_1 is Some <==> d.trait_name is Some
                &&& d.trait_name is Some ==> data@->Impl_1->0 == d.trait_name->0@
            },
            Identity::BlockExpr(d) => data@ == SpecIdentity::BlockExpr(d.parent),
            Identity::Nameless => data@ == SpecIdentity::Nameless && hash == 0,
        },
{
}

// Numbers.

proof fn lemma_slot_unused(e: Seq<Entry>, hashes: Seq<u64>, i: nat, kind: ErasedFileAstIdKind, h: int)
    requires
        assign::enough_ids(e),
        i <= e.len(),
        0 <= h < index_map::HASHES,
        forall|j: int|
            1 <= j < i && e[j].kind == kind ==> (#[trigger] assign::id_at(e, hashes, j)).spec_hash()
                != h,
    ensures
        !assign::counters_after(e, hashes, i).contains_key(index_map::slot(kind, h)),
    decreases i,
{
    if i > 1 {
        let p = (i - 1) as nat;
        lemma_slot_unused(e, hashes, p, kind, h);
        laws::lemma_id_hash(e, hashes, p as int);
        let m = assign::counters_after(e, hashes, p);
        let next = index_map::hash_of_next(m, e[p as int].kind, hashes[p as int]);
        if index_map::slot(e[p as int].kind, next) == index_map::slot(kind, h) {
            index_map::lemma_slot_injective(e[p as int].kind, next, kind, h);
            assert(assign::id_at(e, hashes, p as int).spec_hash() == next);
        }
    }
}

/// The first id of a kind with some hash has that hash, folded to 16 bits, and the number zero. So it
/// does not depend on how many other nodes there are, nor on where they stand.
pub proof fn first_ids_of_a_hash_have_number_zero(root: GreenNode, hashes: Seq<u64>, i: int)
    requires
        assign::enough_ids(walk::entries(root)),
        1 <= i < walk::entries(root).len(),
        forall|j: int|
            1 <= j < i && walk::entries(root)[j].kind == walk::entries(root)[i].kind ==> (
            #[trigger] assign::id_at(walk::entries(root), hashes, j)).spec_hash()
                != erased::folded_hash(hashes[i]),
    ensures
        ({
            let id = assign::ids(walk::entries(root), hashes)[i];
            &&& id.spec_hash() == erased::folded_hash(hashes[i])
            &&& id.spec_index() == 0
            &&& id.spec_kind() == erased::kind_number(walk::entries(root)[i].kind)
        }),
{
    let e = walk::entries(root);
    let kind = e[i].kind;
    let h = erased::folded_hash(hashes[i]);
    lemma_slot_unused(e, hashes, i as nat, kind, h);
    laws::lemma_id_hash(e, hashes, i);
    laws::lemma_id_kind(e, hashes, i);
    let m = assign::counters_after(e, hashes, i as nat);
    assert(index_map::slot_free(m, kind, (h + 0) % index_map::HASHES as int));
    assert(index_map::probe(m, kind, h, 0) == 0);
    assert(assign::ids(e, hashes)[i] == assign::id_at(e, hashes, i));
}

} // verus!
