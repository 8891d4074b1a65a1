//! What does not change the ids of the nodes of a file.

use super::assign;
use super::ast_id_map;
use super::ast_id_map::AstIdMap;
use super::erased;
use super::erased::{ErasedFileAstId, ErasedFileAstIdKind};
use super::identity;
use super::identity::{Identity, SpecIdentity};
use super::index_map;
use super::laws;
use super::walk;
use super::walk::{Entry, LayerNode, WalkState};
use crate::green;
use crate::green::{GreenElement, GreenNode};
use crate::syntax_kind::SyntaxKind;
use vstd::prelude::*;

verus! {

/// The identity that the hash of a node was made from.
pub open spec fn identity_at(e: Seq<Entry>, hashes: Seq<u64>, i: int) -> SpecIdentity {
    assign::entry_identity(e[i], assign::entry_parent(e[i], assign::ids(e, hashes)))
}

/// Two nodes of two files have the same hash if they have the same identity.
pub open spec fn hashed_alike(
    e: Seq<Entry>,
    e_hashes: Seq<u64>,
    i: int,
    f: Seq<Entry>,
    f_hashes: Seq<u64>,
    j: int,
) -> bool {
    identity_at(e, e_hashes, i) == identity_at(f, f_hashes, j) ==> e_hashes[i] == f_hashes[j]
}

/// Any two nodes of two files have the same hash if they have the same identity.
pub open spec fn all_hashed_alike(
    e: Seq<Entry>,
    e_hashes: Seq<u64>,
    f: Seq<Entry>,
    f_hashes: Seq<u64>,
) -> bool {
    forall|i: int, j: int|
        1 <= i < e.len() && 1 <= j < f.len() ==> #[trigger] hashed_alike(
            e,
            e_hashes,
            i,
            f,
            f_hashes,
            j,
        )
}

/// Any two nodes of two files have the same hash if they have the same identity with a text in it.
pub open spec fn texts_hashed_alike(
    e: Seq<Entry>,
    e_hashes: Seq<u64>,
    f: Seq<Entry>,
    f_hashes: Seq<u64>,
) -> bool {
    forall|i: int, j: int|
        1 <= i < e.len() && 1 <= j < f.len() && identity::textless_hash(
            identity_at(e, e_hashes, i),
        ) is None ==> #[trigger] hashed_alike(e, e_hashes, i, f, f_hashes, j)
}

/// The function returns the same for the same identity, each time that it is called.
pub open spec fn hashes_alike<F: Fn(&Identity) -> u64>(f: F) -> bool {
    forall|a: Identity, b: Identity, x: u64, y: u64|
        a@ == b@ && #[trigger] call_ensures(f, (&a,), x) && #[trigger] call_ensures(f, (&b,), y)
            ==> x == y
}

/// A function that always returns the same for the same identity gives nodes with the same identity
/// the same hash.
pub proof fn functions_hash_identities<F: Fn(&Identity) -> u64>(
    f: F,
    a: Seq<Entry>,
    b: Seq<Entry>,
    a_hashes: Seq<u64>,
    b_hashes: Seq<u64>,
)
    requires
        hashes_alike(f),
        assign::hashed_with(f, a, a_hashes),
        assign::hashed_with(f, b, b_hashes),
    ensures
        all_hashed_alike(a, a_hashes, b, b_hashes),
{
    assert forall|i: int, j: int| 1 <= i < a.len() && 1 <= j < b.len() implies #[trigger]
    hashed_alike(a, a_hashes, i, b, b_hashes, j) by {
        let (m, n) = (identity_at(a, a_hashes, i), identity_at(b, b_hashes, j));
        assert(assign::hashes_to(f, m, a_hashes[i]));
        assert(assign::hashes_to(f, n, b_hashes[j]));
        let x = choose|data: Identity|
            data@ == m && #[trigger] call_ensures(f, (&data,), a_hashes[i]);
        let y = choose|data: Identity|
            data@ == n && #[trigger] call_ensures(f, (&data,), b_hashes[j]);
        assert(m == n ==> x@ == y@);
    }
}

/// The hash of a node without a text in its identity is fixed by the identity: that of a use, an extern
/// block or inline assembly is zero, and that of a block is the one of its parent.
pub proof fn textless_hashes_are_fixed(e: Seq<Entry>, hashes: Seq<u64>, i: int)
    requires
        assign::hashed_with(identity::hash_identity, e, hashes),
        1 <= i < e.len(),
    ensures
        identity::textless_hash(identity_at(e, hashes, i)) matches Some(hash) ==> hashes[i] == hash,
{
    let named = identity_at(e, hashes, i);
    assert(assign::hashes_to(identity::hash_identity, named, hashes[i]));
    let data = choose|data: Identity|
        data@ == named && #[trigger] call_ensures(identity::hash_identity, (&data,), hashes[i]);
    assert(data@ == named);
}

/// Two nodes with the same identity can differ in their hash only if there is a text in it, for which
/// the outside hasher returned two numbers.
pub proof fn only_texts_are_left_to_the_hasher(
    a: Seq<Entry>,
    b: Seq<Entry>,
    a_hashes: Seq<u64>,
    b_hashes: Seq<u64>,
)
    requires
        assign::hashed_with(identity::hash_identity, a, a_hashes),
        assign::hashed_with(identity::hash_identity, b, b_hashes),
        texts_hashed_alike(a, a_hashes, b, b_hashes),
    ensures
        all_hashed_alike(a, a_hashes, b, b_hashes),
{
    assert forall|i: int, j: int| 1 <= i < a.len() && 1 <= j < b.len() implies #[trigger]
    hashed_alike(a, a_hashes, i, b, b_hashes, j) by {
        textless_hashes_are_fixed(a, a_hashes, i);
        textless_hashes_are_fixed(b, b_hashes, j);
    }
}

/// Two nodes lie in the same node, and have the same identity there.
pub open spec fn alike(a: Entry, b: Entry) -> bool {
    &&& a.kind == b.kind
    &&& a.owner == b.owner
    &&& forall|p: Option<ErasedFileAstId>|
        #[trigger] assign::entry_identity(a, p) == assign::entry_identity(b, p)
}

pub open spec fn all_alike(a: Seq<Entry>, b: Seq<Entry>, n: nat) -> bool {
    forall|i: int| 1 <= i < n ==> alike(#[trigger] a[i], b[i])
}

pub open spec fn owners_come_first(e: Seq<Entry>, n: nat) -> bool {
    forall|i: int| 1 <= i < n ==> ((#[trigger] e[i]).owner matches Some(o) ==> o < i)
}

proof fn lemma_ids_agree(
    a: Seq<Entry>,
    b: Seq<Entry>,
    a_hashes: Seq<u64>,
    b_hashes: Seq<u64>,
    n: nat,
)
    requires
        n <= a.len(),
        n <= b.len(),
        all_alike(a, b, n),
        owners_come_first(a, n),
        forall|i: int| 1 <= i < n ==> #[trigger] hashed_alike(a, a_hashes, i, b, b_hashes, i),
    ensures
        forall|i: int|
            0 <= i < n ==> #[trigger] assign::id_at(a, a_hashes, i) == assign::id_at(
                b,
                b_hashes,
                i,
            ),
        assign::counters_after(a, a_hashes, n) == assign::counters_after(b, b_hashes, n),
    decreases n,
{
    if n > 1 {
        let m = (n - 1) as nat;
        let k = m as int;
        lemma_ids_agree(a, b, a_hashes, b_hashes, m);
        let a_ids = assign::ids(a, a_hashes);
        let b_ids = assign::ids(b, b_hashes);
        assert(alike(a[k], b[k]));
        assert(assign::entry_parent(a[k], a_ids) == assign::entry_parent(b[k], b_ids)) by {
            if let Some(o) = a[k].owner {
                assert(a_ids[o as int] == assign::id_at(a, a_hashes, o as int));
                assert(b_ids[o as int] == assign::id_at(b, b_hashes, o as int));
            }
        }
        let p = assign::entry_parent(a[k], a_ids);
        assert(assign::entry_identity(a[k], p) == assign::entry_identity(b[k], p));
        assert(hashed_alike(a, a_hashes, k, b, b_hashes, k));
        assert(a_hashes[k] == b_hashes[k]);
        assert(assign::id_at(a, a_hashes, k) == index_map::next_id(
            assign::counters_after(a, a_hashes, m),
            a[k].kind,
            a_hashes[k],
        ));
    }
}

/// The id of a node depends on the identities of the nodes up to it: not on where they stand in the
/// file, nor on what comes later in the walk.
pub proof fn ids_follow_identities(
    a: Seq<Entry>,
    b: Seq<Entry>,
    a_hashes: Seq<u64>,
    b_hashes: Seq<u64>,
    n: nat,
)
    requires
        n <= a.len(),
        n <= b.len(),
        all_alike(a, b, n),
        owners_come_first(a, n),
        forall|i: int| 1 <= i < n ==> #[trigger] hashed_alike(a, a_hashes, i, b, b_hashes, i),
    ensures
        assign::ids(a, a_hashes).take(n as int) == assign::ids(b, b_hashes).take(n as int),
{
    lemma_ids_agree(a, b, a_hashes, b_hashes, n);
    assert(assign::ids(a, a_hashes).take(n as int) =~= assign::ids(b, b_hashes).take(n as int));
}

/// Whether a node of the kind gets an id of its own in any case.
pub open spec fn gets_id(kind: SyntaxKind) -> bool {
    kind != SyntaxKind::BLOCK_EXPR && identity::spec_should_alloc(kind) is Some
}

/// Two nodes differ, if at all, in what lies below more than `k` nested nodes with an id, and in texts
/// that no identity is made from.
pub open spec fn same_down(a: GreenNode, b: GreenNode, k: nat) -> bool
    decreases k, a, 0nat,
{
    &&& a.kind == b.kind
    &&& if gets_id(a.kind) {
        &&& forall|p: Option<ErasedFileAstId>|
            #[trigger] identity::spec_identity(a, p) == identity::spec_identity(b, p)
        &&& k > 0 ==> same_children(
            a.children@,
            b.children@,
            a.children@.len(),
            (k - 1) as nat,
        ) && a.children@.len() == b.children@.len()
    } else {
        &&& a.children@.len() == b.children@.len()
        &&& same_children(a.children@, b.children@, a.children@.len(), k)
    }
}

/// Whether that holds of the first `i` children of two nodes.
pub open spec fn same_children(
    a: Seq<GreenElement>,
    b: Seq<GreenElement>,
    i: nat,
    k: nat,
) -> bool
    decreases k, a, i,
{
    if i == 0 || i > a.len() {
        true
    } else {
        &&& same_children(a, b, (i - 1) as nat, k)
        &&& match (a[i - 1], b[i - 1]) {
            (GreenElement::Node(m), GreenElement::Node(n)) => same_down(m, n, k),
            (GreenElement::Token(_), GreenElement::Token(_)) => true,
            _ => false,
        }
    }
}

spec fn same_layer_node(x: LayerNode, y: LayerNode, k: nat) -> bool {
    &&& x.owner == y.owner
    &&& x.node.kind == y.node.kind
    &&& x.node.children@.len() == y.node.children@.len()
    &&& same_children(x.node.children@, y.node.children@, x.node.children@.len(), k)
}

spec fn same_layer(x: Seq<LayerNode>, y: Seq<LayerNode>, k: nat) -> bool {
    &&& x.len() == y.len()
    &&& forall|i: int| 0 <= i < x.len() ==> same_layer_node(#[trigger] x[i], y[i], k)
}

spec fn same_state(x: WalkState, y: WalkState, k: nat) -> bool {
    &&& x.out.len() == y.out.len()
    &&& x.out.len() > 0
    &&& all_alike(x.out, y.out, x.out.len())
    &&& x.next.len() == y.next.len()
    &&& k > 0 ==> same_layer(x.next, y.next, (k - 1) as nat)
    &&& x.blocks.len() == y.blocks.len()
    &&& forall|i: int| 0 <= i < x.blocks.len() ==> (#[trigger] x.blocks[i]).1 == y.blocks[i].1
}

proof fn lemma_same_visit(
    a: GreenNode,
    b: GreenNode,
    a_start: nat,
    b_start: nat,
    parent: SyntaxKind,
    grandparent: Option<SyntaxKind>,
    owner: Option<nat>,
    x: WalkState,
    y: WalkState,
    k: nat,
)
    requires
        same_down(a, b, k),
        same_state(x, y, k),
    ensures
        same_state(
            walk::visit(a, a_start, parent, grandparent, owner, x),
            walk::visit(b, b_start, parent, grandparent, owner, y),
            k,
        ),
    decreases a, 0nat,
{
    let (c, d) = (a.children@, b.children@);
    if a.kind == SyntaxKind::BLOCK_EXPR {
        let x_in = WalkState {
            blocks: x.blocks.push((walk::range_at(a_start, a.text_len as nat), false)),
            ..x
        };
        let y_in = WalkState {
            blocks: y.blocks.push((walk::range_at(b_start, b.text_len as nat), false)),
            ..y
        };
        assert(same_state(x_in, y_in, k));
        lemma_same_visit_children(
            c,
            d,
            c.len(),
            a_start,
            b_start,
            a.kind,
            Some(parent),
            owner,
            x_in,
            y_in,
            k,
        );
        walk::lemma_visit_children(c, c.len(), a_start, a.kind, Some(parent), owner, x_in);
        let x_all = walk::visit_children(c, c.len(), a_start, a.kind, Some(parent), owner, x_in);
        let y_all = walk::visit_children(d, d.len(), b_start, b.kind, Some(parent), owner, y_in);
        let x_end = WalkState { blocks: x_all.blocks.drop_last(), ..x_all };
        let y_end = WalkState { blocks: y_all.blocks.drop_last(), ..y_all };
        assert forall|i: int| 0 <= i < x_end.blocks.len() implies (#[trigger] x_end.blocks[i]).1
            == y_end.blocks[i].1 by {
            assert(x_all.blocks[i].1 == y_all.blocks[i].1);
        }
        assert(same_state(x_end, y_end, k));
    } else {
        match identity::spec_should_alloc(a.kind) {
            Some(kind) => {
                let x_mid = walk::alloc_block(kind, parent, grandparent, owner, x);
                let y_mid = walk::alloc_block(kind, parent, grandparent, owner, y);
                assert(same_state(x_mid, y_mid, k));
                let x_end = walk::alloc_node(a, a_start, kind, owner, x_mid);
                let y_end = walk::alloc_node(b, b_start, kind, owner, y_mid);
                assert(alike(x_end.out.last(), y_end.out.last())) by {
                    assert forall|p: Option<ErasedFileAstId>| #[trigger]
                        assign::entry_identity(x_end.out.last(), p) == assign::entry_identity(
                            y_end.out.last(),
                            p,
                        ) by {
                        assert(identity::spec_identity(a, p) == identity::spec_identity(b, p));
                    }
                }
                assert(same_state(x_end, y_end, k));
            },
            None => {
                lemma_same_visit_children(
                    c,
                    d,
                    c.len(),
                    a_start,
                    b_start,
                    a.kind,
                    Some(parent),
                    owner,
                    x,
                    y,
                    k,
                );
            },
        }
    }
}

proof fn lemma_same_visit_children(
    c: Seq<GreenElement>,
    d: Seq<GreenElement>,
    i: nat,
    c_start: nat,
    d_start: nat,
    parent: SyntaxKind,
    grandparent: Option<SyntaxKind>,
    owner: Option<nat>,
    x: WalkState,
    y: WalkState,
    k: nat,
)
    requires
        c.len() == d.len(),
        same_children(c, d, i, k),
        same_state(x, y, k),
    ensures
        same_state(
            walk::visit_children(c, i, c_start, parent, grandparent, owner, x),
            walk::visit_children(d, i, d_start, parent, grandparent, owner, y),
            k,
        ),
    decreases c, i,
{
    if 0 < i <= c.len() {
        let j = (i - 1) as nat;
        lemma_same_visit_children(
            c,
            d,
            j,
            c_start,
            d_start,
            parent,
            grandparent,
            owner,
            x,
            y,
            k,
        );
        if let (GreenElement::Node(m), GreenElement::Node(n)) = (c[i - 1], d[i - 1]) {
            lemma_same_visit(
                m,
                n,
                c_start + green::prefix_len(c, j),
                d_start + green::prefix_len(d, j),
                parent,
                grandparent,
                owner,
                walk::visit_children(c, j, c_start, parent, grandparent, owner, x),
                walk::visit_children(d, j, d_start, parent, grandparent, owner, y),
                k,
            );
        }
    }
}

proof fn lemma_same_visit_layer(
    a: Seq<LayerNode>,
    b: Seq<LayerNode>,
    i: nat,
    x: WalkState,
    y: WalkState,
    k: nat,
)
    requires
        i <= a.len(),
        same_layer(a, b, k),
        same_state(x, y, k),
    ensures
        same_state(walk::visit_layer(a, i, x), walk::visit_layer(b, i, y), k),
    decreases i,
{
    if i > 0 {
        let j = (i - 1) as nat;
        lemma_same_visit_layer(a, b, j, x, y, k);
        assert(same_layer_node(a[j as int], b[j as int], k));
        let (l, m) = (a[j as int], b[j as int]);
        lemma_same_visit_children(
            l.node.children@,
            m.node.children@,
            l.node.children@.len(),
            l.start,
            m.start,
            l.node.kind,
            None,
            l.owner,
            walk::visit_layer(a, j, x),
            walk::visit_layer(b, j, y),
            k,
        );
    }
}

/// What the walk has found once it is through with the given layer and the `k` layers below it.
pub open spec fn first_layers(layer: Seq<LayerNode>, out: Seq<Entry>, k: nat) -> Seq<Entry>
    decreases k,
{
    if layer.len() == 0 {
        out
    } else {
        let st = walk::visit_layer(layer, layer.len(), walk::start_state(out));
        if k == 0 {
            st.out
        } else {
            first_layers(st.next, st.out, (k - 1) as nat)
        }
    }
}

/// The nodes of a file that lie below at most `k` nodes with an id, the root aside.
pub open spec fn outer_entries(root: GreenNode, k: nat) -> Seq<Entry> {
    first_layers(
        seq![LayerNode { node: root, start: 0, owner: None }],
        seq![walk::root_entry(root)],
        k,
    )
}

proof fn lemma_layers_keep(layer: Seq<LayerNode>, out: Seq<Entry>)
    ensures
        out.len() <= walk::visit_layers(layer, out).len(),
        walk::visit_layers(layer, out).take(out.len() as int) == out,
    decreases walk::layer_size(layer),
{
    if layer.len() > 0 {
        let st = walk::visit_layer(layer, layer.len(), walk::start_state(out));
        walk::lemma_visit_layer(layer, layer.len(), walk::start_state(out));
        assert(layer.take(layer.len() as int) =~= layer);
        lemma_layers_keep(st.next, st.out);
        let all = walk::visit_layers(layer, out);
        assert(all.take(out.len() as int) =~= all.take(st.out.len() as int).take(out.len() as int));
    } else {
        assert(out.take(out.len() as int) =~= out);
    }
}

proof fn lemma_first_layers(layer: Seq<LayerNode>, out: Seq<Entry>, k: nat)
    ensures
        first_layers(layer, out, k).len() <= walk::visit_layers(layer, out).len(),
        walk::visit_layers(layer, out).take(first_layers(layer, out, k).len() as int)
            == first_layers(layer, out, k),
    decreases k,
{
    if layer.len() == 0 {
        assert(out.take(out.len() as int) =~= out);
    } else {
        let st = walk::visit_layer(layer, layer.len(), walk::start_state(out));
        if k == 0 {
            lemma_layers_keep(st.next, st.out);
        } else {
            lemma_first_layers(st.next, st.out, (k - 1) as nat);
        }
    }
}

proof fn lemma_same_first_layers(
    a: Seq<LayerNode>,
    b: Seq<LayerNode>,
    x: Seq<Entry>,
    y: Seq<Entry>,
    k: nat,
)
    requires
        same_layer(a, b, k),
        x.len() == y.len(),
        x.len() > 0,
        all_alike(x, y, x.len()),
    ensures
        first_layers(a, x, k).len() == first_layers(b, y, k).len(),
        all_alike(first_layers(a, x, k), first_layers(b, y, k), first_layers(a, x, k).len()),
    decreases k,
{
    if a.len() > 0 {
        let (s, t) = (walk::start_state(x), walk::start_state(y));
        assert(same_state(s, t, k));
        lemma_same_visit_layer(a, b, a.len(), s, t, k);
        if k > 0 {
            let x_st = walk::visit_layer(a, a.len(), s);
            let y_st = walk::visit_layer(b, b.len(), t);
            lemma_same_first_layers(x_st.next, y_st.next, x_st.out, y_st.out, (k - 1) as nat);
        }
    }
}

/// A new node does not change the ids of the nodes around it. If two files differ only below more than
/// `k` nested nodes with an id, the nodes that lie no deeper have the same ids in both. So a new
/// function in a trait changes the id of no item outside of the trait, nor that of the trait.
pub proof fn inner_nodes_do_not_change_outer_ids(
    a: GreenNode,
    b: GreenNode,
    a_hashes: Seq<u64>,
    b_hashes: Seq<u64>,
    k: nat,
)
    requires
        a.kind == b.kind,
        a.children@.len() == b.children@.len(),
        same_children(a.children@, b.children@, a.children@.len(), k),
        forall|i: int|
            1 <= i < outer_entries(a, k).len() && i < walk::entries(a).len() && i
                < walk::entries(b).len() ==> #[trigger] hashed_alike(
                walk::entries(a),
                a_hashes,
                i,
                walk::entries(b),
                b_hashes,
                i,
            ),
    ensures
        ({
            let n = outer_entries(a, k).len();
            &&& n == outer_entries(b, k).len()
            &&& n <= walk::entries(a).len()
            &&& n <= walk::entries(b).len()
            &&& walk::entries(a).take(n as int) == outer_entries(a, k)
            &&& assign::ids(walk::entries(a), a_hashes).take(n as int) == assign::ids(
                walk::entries(b),
                b_hashes,
            ).take(n as int)
        }),
{
    let a_layer = seq![LayerNode { node: a, start: 0, owner: None }];
    let b_layer = seq![LayerNode { node: b, start: 0, owner: None }];
    let (x, y) = (seq![walk::root_entry(a)], seq![walk::root_entry(b)]);
    let n = outer_entries(a, k).len();
    lemma_same_first_layers(a_layer, b_layer, x, y, k);
    lemma_first_layers(a_layer, x, k);
    lemma_first_layers(b_layer, y, k);
    laws::parents_come_before_children(a);
    let (e, f) = (walk::entries(a), walk::entries(b));
    assert forall|i: int| 1 <= i < n implies alike(#[trigger] e[i], f[i]) by {
        assert(e.take(n as int)[i] == e[i]);
        assert(f.take(n as int)[i] == f[i]);
        assert(alike(outer_entries(a, k)[i], outer_entries(b, k)[i]));
    }
    ids_follow_identities(e, f, a_hashes, b_hashes, n);
}

/// In the maps of two files that differ only below more than `k` nested nodes with an id, the nodes
/// that lie no deeper have the same ids. So a new function in a trait changes the id of no top-level
/// item, whatever it is called, as long as the hasher returns the same for the same texts.
pub proof fn inner_nodes_do_not_change_outer_entries(
    a: GreenNode,
    b: GreenNode,
    a_map: AstIdMap,
    b_map: AstIdMap,
    a_hashes: Seq<u64>,
    b_hashes: Seq<u64>,
    k: nat,
)
    requires
        a.kind == b.kind,
        a.children@.len() == b.children@.len(),
        same_children(a.children@, b.children@, a.children@.len(), k),
        a_map@ == ast_id_map::with_ids(walk::entries(a), a_hashes),
        b_map@ == ast_id_map::with_ids(walk::entries(b), b_hashes),
        forall|i: int|
            1 <= i < outer_entries(a, k).len() && i < walk::entries(a).len() && i
                < walk::entries(b).len() ==> #[trigger] hashed_alike(
                walk::entries(a),
                a_hashes,
                i,
                walk::entries(b),
                b_hashes,
                i,
            ),
    ensures
        outer_entries(a, k).len() == outer_entries(b, k).len(),
        outer_entries(a, k).len() <= a_map@.len(),
        outer_entries(a, k).len() <= b_map@.len(),
        forall|i: int|
            0 <= i < outer_entries(a, k).len() ==> {
                &&& (#[trigger] a_map@[i]).0 == outer_entries(a, k)[i].ptr
                &&& b_map@[i].0 == outer_entries(b, k)[i].ptr
                &&& a_map@[i].1 == b_map@[i].1
            },
{
    let (e, g) = (walk::entries(a), walk::entries(b));
    let n = outer_entries(a, k).len();
    inner_nodes_do_not_change_outer_ids(a, b, a_hashes, b_hashes, k);
    lemma_first_layers(
        seq![LayerNode { node: b, start: 0, owner: None }],
        seq![walk::root_entry(b)],
        k,
    );
    let (x, y) = (assign::ids(e, a_hashes), assign::ids(g, b_hashes));
    assert forall|i: int| 0 <= i < n implies {
        &&& (#[trigger] a_map@[i]).0 == outer_entries(a, k)[i].ptr
        &&& b_map@[i].0 == outer_entries(b, k)[i].ptr
        &&& a_map@[i].1 == b_map@[i].1
    } by {
        assert(e.take(n as int)[i] == e[i]);
        assert(g.take(n as int)[i] == g[i]);
        assert(x.take(n as int)[i] == x[i]);
        assert(y.take(n as int)[i] == y[i]);
    }
}

/// The maps that [`AstIdMap::from_source`] makes of two files that differ only below more than `k`
/// nested nodes with an id give the nodes that lie no deeper the same ids. Blocks, uses, extern blocks
/// and inline assembly have no text in their identity; for the other nodes the outside hasher has to
/// have returned the same number for the same texts, as it does on one machine.
pub proof fn files_keep_outer_ids(
    a: GreenNode,
    b: GreenNode,
    a_map: AstIdMap,
    b_map: AstIdMap,
    a_hashes: Seq<u64>,
    b_hashes: Seq<u64>,
    k: nat,
)
    requires
        a.kind == b.kind,
        a.children@.len() == b.children@.len(),
        same_children(a.children@, b.children@, a.children@.len(), k),
        a_map@ == ast_id_map::with_ids(walk::entries(a), a_hashes),
        b_map@ == ast_id_map::with_ids(walk::entries(b), b_hashes),
        assign::hashed_with(identity::hash_identity, walk::entries(a), a_hashes),
        assign::hashed_with(identity::hash_identity, walk::entries(b), b_hashes),
        texts_hashed_alike(walk::entries(a), a_hashes, walk::entries(b), b_hashes),
    ensures
        outer_entries(a, k).len() == outer_entries(b, k).len(),
        outer_entries(a, k).len() <= a_map@.len(),
        outer_entries(a, k).len() <= b_map@.len(),
        forall|i: int|
            0 <= i < outer_entries(a, k).len() ==> {
                &&& (#[trigger] a_map@[i]).0 == outer_entries(a, k)[i].ptr
                &&& b_map@[i].0 == outer_entries(b, k)[i].ptr
                &&& a_map@[i].1 == b_map@[i].1
            },
{
    only_texts_are_left_to_the_hasher(walk::entries(a), walk::entries(b), a_hashes, b_hashes);
    inner_nodes_do_not_change_outer_entries(a, b, a_map, b_map, a_hashes, b_hashes, k);
}

// Items of extern blocks.

/// As many ids of the kind were given out for the hash, and for those that are used in its place.
pub open spec fn given_alike(
    m: Map<u32, u32>,
    n: Map<u32, u32>,
    kind: ErasedFileAstIdKind,
    hash: u64,
) -> bool {
    let start = erased::folded_hash(hash);
    forall|d: int|
        #![trigger slot_at(kind, start, d)]
        0 <= d <= index_map::probe(m, kind, start, 0) ==> same_slot(m, n, slot_at(kind, start, d))
}

/// Where the ids are counted that have the hash `d` behind `start`.
pub open spec fn slot_at(kind: ErasedFileAstIdKind, start: int, d: int) -> u32 {
    index_map::slot(kind, (start + d) % index_map::HASHES as int)
}

pub open spec fn same_slot(m: Map<u32, u32>, n: Map<u32, u32>, slot: u32) -> bool {
    &&& m.contains_key(slot) == n.contains_key(slot)
    &&& m.contains_key(slot) ==> m[slot] == n[slot]
}

proof fn lemma_probe_alike(
    m: Map<u32, u32>,
    n: Map<u32, u32>,
    kind: ErasedFileAstIdKind,
    start: int,
    d: nat,
)
    requires
        d <= index_map::HASHES,
        forall|x: int|
            #![trigger slot_at(kind, start, x)]
            d <= x <= index_map::probe(m, kind, start, d) ==> same_slot(
                m,
                n,
                slot_at(kind, start, x),
            ),
    ensures
        index_map::probe(n, kind, start, d) == index_map::probe(m, kind, start, d),
        d <= index_map::probe(m, kind, start, d),
    decreases index_map::HASHES - d,
{
    let h = (start + d) % index_map::HASHES as int;
    index_map::lemma_probe(m, kind, start, d);
    assert(same_slot(m, n, slot_at(kind, start, d as int)));
    if d < index_map::HASHES && !index_map::slot_free(m, kind, h) {
        lemma_probe_alike(m, n, kind, start, d + 1);
    }
}

proof fn lemma_next_alike(
    m: Map<u32, u32>,
    n: Map<u32, u32>,
    kind: ErasedFileAstIdKind,
    hash: u64,
)
    requires
        given_alike(m, n, kind, hash),
    ensures
        index_map::next_id(m, kind, hash) == index_map::next_id(n, kind, hash),
{
    let start = erased::folded_hash(hash);
    lemma_probe_alike(m, n, kind, start, 0);
    let d = index_map::probe(m, kind, start, 0) as int;
    assert(same_slot(m, n, slot_at(kind, start, d)));
}

/// An item of an extern block has the id that it would have outside of the block: the block is not its
/// parent. That is so if as many ids were given out before for their kind and hash.
pub proof fn extern_items_have_the_ids_of_free_items(
    a: GreenNode,
    b: GreenNode,
    a_hashes: Seq<u64>,
    b_hashes: Seq<u64>,
    i: int,
    j: int,
)
    requires
        assign::enough_ids(walk::entries(a)),
        hashed_alike(walk::entries(a), a_hashes, i, walk::entries(b), b_hashes, j),
        1 <= i < walk::entries(a).len(),
        1 <= j < walk::entries(b).len(),
        walk::entries(a)[i].owner matches Some(o) && walk::entries(a)[o as int].kind
            == ErasedFileAstIdKind::ExternBlock,
        walk::entries(b)[j].owner is None,
        walk::entries(a)[i].kind == walk::entries(b)[j].kind,
        forall|p: Option<ErasedFileAstId>| #[trigger]
            assign::entry_identity(walk::entries(a)[i], p) == assign::entry_identity(
                walk::entries(b)[j],
                p,
            ),
        given_alike(
            assign::counters_after(walk::entries(a), a_hashes, i as nat),
            assign::counters_after(walk::entries(b), b_hashes, j as nat),
            walk::entries(a)[i].kind,
            a_hashes[i],
        ),
    ensures
        assign::ids(walk::entries(a), a_hashes)[i] == assign::ids(walk::entries(b), b_hashes)[j],
{
    let (e, f) = (walk::entries(a), walk::entries(b));
    laws::parents_come_before_children(a);
    let o = e[i].owner->0 as int;
    assert(0 <= o < i);
    assert(e[0].kind == walk::root_entry(a).kind);
    laws::lemma_id_kind(e, a_hashes, o);
    let a_ids = assign::ids(e, a_hashes);
    assert(a_ids[o] == assign::id_at(e, a_hashes, o));
    assert(assign::entry_parent(e[i], a_ids) is None);
    assert(assign::entry_parent(f[j], assign::ids(f, b_hashes)) is None);
    let p: Option<ErasedFileAstId> = None;
    assert(assign::entry_identity(e[i], p) == assign::entry_identity(f[j], p));
    assert(hashed_alike(e, a_hashes, i, f, b_hashes, j));
    assert(a_hashes[i] == b_hashes[j]);
    lemma_next_alike(
        assign::counters_after(e, a_hashes, i as nat),
        assign::counters_after(f, b_hashes, j as nat),
        e[i].kind,
        a_hashes[i],
    );
}

proof fn lemma_none_given(
    e: Seq<Entry>,
    hashes: Seq<u64>,
    kind: ErasedFileAstIdKind,
    i: nat,
    x: int,
)
    requires
        i <= e.len(),
        forall|k: int| 1 <= k < i ==> (#[trigger] e[k]).kind != kind,
        0 <= x < index_map::HASHES,
    ensures
        !assign::counters_after(e, hashes, i).contains_key(index_map::slot(kind, x)),
    decreases i,
{
    if i > 1 {
        let p = (i - 1) as nat;
        lemma_none_given(e, hashes, kind, p, x);
        let m = assign::counters_after(e, hashes, p);
        let next = index_map::hash_of_next(m, e[p as int].kind, hashes[p as int]);
        assert(e[p as int].kind != kind);
        if index_map::slot(kind, x) == index_map::slot(e[p as int].kind, next) {
            index_map::lemma_slot_injective(kind, x, e[p as int].kind, next);
        }
    }
}

/// In the maps of two files, the first item of a kind has the same id if it has the same name: also if
/// it stands in an extern block in one of the files, and on its own in the other.
pub proof fn first_extern_items_have_the_ids_of_free_items(
    a: GreenNode,
    b: GreenNode,
    a_map: AstIdMap,
    b_map: AstIdMap,
    a_hashes: Seq<u64>,
    b_hashes: Seq<u64>,
    i: int,
    j: int,
)
    requires
        assign::enough_ids(walk::entries(a)),
        a_map@ == ast_id_map::with_ids(walk::entries(a), a_hashes),
        b_map@ == ast_id_map::with_ids(walk::entries(b), b_hashes),
        hashed_alike(walk::entries(a), a_hashes, i, walk::entries(b), b_hashes, j),
        1 <= i < walk::entries(a).len(),
        1 <= j < walk::entries(b).len(),
        walk::entries(a)[i].owner matches Some(o) && walk::entries(a)[o as int].kind
            == ErasedFileAstIdKind::ExternBlock,
        walk::entries(b)[j].owner is None,
        walk::entries(a)[i].kind == walk::entries(b)[j].kind,
        forall|p: Option<ErasedFileAstId>| #[trigger]
            assign::entry_identity(walk::entries(a)[i], p) == assign::entry_identity(
                walk::entries(b)[j],
                p,
            ),
        forall|k: int|
            1 <= k < i ==> (#[trigger] walk::entries(a)[k]).kind != walk::entries(a)[i].kind,
        forall|k: int|
            1 <= k < j ==> (#[trigger] walk::entries(b)[k]).kind != walk::entries(a)[i].kind,
    ensures
        a_map@[i].1 == b_map@[j].1,
{
    let (e, g) = (walk::entries(a), walk::entries(b));
    let kind = e[i].kind;
    let m = assign::counters_after(e, a_hashes, i as nat);
    let n = assign::counters_after(g, b_hashes, j as nat);
    let start = erased::folded_hash(a_hashes[i]);
    assert forall|d: int|
        #![trigger slot_at(kind, start, d)]
        0 <= d <= index_map::probe(m, kind, start, 0) implies same_slot(
        m,
        n,
        slot_at(kind, start, d),
    ) by {
        let x = (start + d) % index_map::HASHES as int;
        lemma_none_given(e, a_hashes, kind, i as nat, x);
        lemma_none_given(g, b_hashes, kind, j as nat, x);
    }
    extern_items_have_the_ids_of_free_items(a, b, a_hashes, b_hashes, i, j);
    assert(assign::ids(e, a_hashes)[i] == assign::id_at(e, a_hashes, i));
    assert(assign::ids(g, b_hashes)[j] == assign::id_at(g, b_hashes, j));
}

} // verus!
