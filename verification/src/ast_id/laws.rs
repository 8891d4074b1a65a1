//! What holds of the nodes with an id, and of their ids.

use super::assign;
use super::erased;
use super::erased::ErasedFileAstIdKind;
use super::identity;
use super::index_map;
use super::index_map::{HASHES, IDS_PER_KIND};
use super::walk;
use super::walk::{Entry, LayerNode, WalkState};
use crate::green;
use crate::green::{GreenElement, GreenNode};
use crate::syntax_kind::SyntaxKind;
use crate::syntax_ptr::SyntaxNodePtr;
use vstd::prelude::*;

verus! {

spec fn owner_known(owner: Option<nat>, st: WalkState) -> bool {
    owner matches Some(o) ==> o < st.out.len()
}

spec fn sound(st: WalkState) -> bool {
    &&& st.out.len() > 0
    &&& assign::assignable(st.out)
    &&& forall|j: int| 0 <= j < st.next.len() ==> owner_known((#[trigger] st.next[j]).owner, st)
}

proof fn lemma_visit_sound(
    n: GreenNode,
    start: nat,
    parent: SyntaxKind,
    grandparent: Option<SyntaxKind>,
    owner: Option<nat>,
    st: WalkState,
)
    requires
        sound(st),
        owner_known(owner, st),
    ensures
        sound(walk::visit(n, start, parent, grandparent, owner, st)),
        st.out.len() <= walk::visit(n, start, parent, grandparent, owner, st).out.len(),
    decreases n, 0nat,
{
    let c = n.children@;
    if n.kind == SyntaxKind::BLOCK_EXPR {
        let entered = WalkState {
            blocks: st.blocks.push((walk::range_at(start, n.text_len as nat), false)),
            ..st
        };
        lemma_visit_children_sound(c, c.len(), start, n.kind, Some(parent), owner, entered);
    } else {
        match identity::spec_should_alloc(n.kind) {
            Some(kind) => {
                let mid = walk::alloc_block(kind, parent, grandparent, owner, st);
                let r = walk::alloc_node(n, start, kind, owner, mid);
                assert(sound(mid));
                assert forall|j: int| 0 <= j < r.next.len() implies owner_known(
                    (#[trigger] r.next[j]).owner,
                    r,
                ) by {
                    if j < mid.next.len() {
                        assert(r.next[j] == mid.next[j]);
                    }
                }
            },
            None => {
                lemma_visit_children_sound(c, c.len(), start, n.kind, Some(parent), owner, st);
            },
        }
    }
}

proof fn lemma_visit_children_sound(
    c: Seq<GreenElement>,
    i: nat,
    start: nat,
    parent: SyntaxKind,
    grandparent: Option<SyntaxKind>,
    owner: Option<nat>,
    st: WalkState,
)
    requires
        sound(st),
        owner_known(owner, st),
    ensures
        sound(walk::visit_children(c, i, start, parent, grandparent, owner, st)),
        st.out.len() <= walk::visit_children(
            c,
            i,
            start,
            parent,
            grandparent,
            owner,
            st,
        ).out.len(),
    decreases c, i,
{
    if 0 < i <= c.len() {
        lemma_visit_children_sound(c, (i - 1) as nat, start, parent, grandparent, owner, st);
        if let GreenElement::Node(n) = c[i - 1] {
            lemma_visit_sound(
                n,
                start + green::prefix_len(c, (i - 1) as nat),
                parent,
                grandparent,
                owner,
                walk::visit_children(c, (i - 1) as nat, start, parent, grandparent, owner, st),
            );
        }
    }
}

proof fn lemma_visit_layer_sound(layer: Seq<LayerNode>, i: nat, st: WalkState)
    requires
        i <= layer.len(),
        sound(st),
        forall|j: int| 0 <= j < layer.len() ==> owner_known((#[trigger] layer[j]).owner, st),
    ensures
        sound(walk::visit_layer(layer, i, st)),
        st.out.len() <= walk::visit_layer(layer, i, st).out.len(),
    decreases i,
{
    if i > 0 {
        lemma_visit_layer_sound(layer, (i - 1) as nat, st);
        let l = layer[i - 1];
        lemma_visit_children_sound(
            l.node.children@,
            l.node.children@.len(),
            l.start,
            l.node.kind,
            None,
            l.owner,
            walk::visit_layer(layer, (i - 1) as nat, st),
        );
    }
}

proof fn lemma_visit_layers_sound(layer: Seq<LayerNode>, out: Seq<Entry>)
    requires
        sound(walk::start_state(out)),
        forall|j: int|
            0 <= j < layer.len() ==> owner_known(
                (#[trigger] layer[j]).owner,
                walk::start_state(out),
            ),
    ensures
        assign::assignable(walk::visit_layers(layer, out)),
        out.len() <= walk::visit_layers(layer, out).len(),
        walk::visit_layers(layer, out).take(out.len() as int) == out,
    decreases walk::layer_size(layer),
{
    if layer.len() > 0 {
        let st = walk::visit_layer(layer, layer.len(), walk::start_state(out));
        lemma_visit_layer_sound(layer, layer.len(), walk::start_state(out));
        walk::lemma_visit_layer(layer, layer.len(), walk::start_state(out));
        assert(layer.take(layer.len() as int) =~= layer);
        assert forall|j: int| 0 <= j < st.next.len() implies owner_known(
            (#[trigger] st.next[j]).owner,
            walk::start_state(st.out),
        ) by {
            assert(owner_known(st.next[j].owner, st));
        }
        lemma_visit_layers_sound(st.next, st.out);
        let r = walk::visit_layers(st.next, st.out);
        assert(r.take(out.len() as int) =~= r.take(st.out.len() as int).take(out.len() as int));
    } else {
        assert(out.take(out.len() as int) =~= out);
    }
}

/// The root comes first, and everything else comes after the node that it lies in. So a new child
/// does not move its parent. Only the root has the kind of id that roots have.
pub proof fn parents_come_before_children(root: GreenNode)
    ensures
        walk::entries(root).len() > 0,
        walk::entries(root)[0] == walk::root_entry(root),
        assign::assignable(walk::entries(root)),
        forall|i: int|
            1 <= i < walk::entries(root).len() ==> (#[trigger] walk::entries(root)[i]).kind
                != ErasedFileAstIdKind::Root,
        forall|i: int|
            0 <= i < walk::entries(root).len() ==> ((#[trigger] walk::entries(
                root,
            )[i]).owner matches Some(o) ==> o < i),
{
    let layer = seq![LayerNode { node: root, start: 0, owner: None }];
    let out = seq![walk::root_entry(root)];
    lemma_visit_layers_sound(layer, out);
    let e = walk::entries(root);
    assert(e.take(1)[0] == out[0]);
    assert forall|i: int| 1 <= i < e.len() implies (#[trigger] e[i]).kind
        != ErasedFileAstIdKind::Root by {
        let entry = e[i];
        if let Some(n) = entry.green {
            assert(identity::spec_should_alloc(n.kind) == Some(entry.kind));
        }
    }
}

/// What the counters say of the ids that were given out.
spec fn counted(e: Seq<Entry>, hashes: Seq<u64>, i: nat) -> bool {
    let m = assign::counters_after(e, hashes, i);
    &&& index_map::counters_wf(m)
    &&& forall|k: ErasedFileAstIdKind|
        #[trigger] index_map::used(m, k, HASHES as nat) == assign::count_kind(e, k, i)
    &&& forall|j: int|
        1 <= j < i ==> {
            let id = #[trigger] assign::id_at(e, hashes, j);
            let s = index_map::slot(e[j].kind, id.spec_hash() as int);
            &&& m.contains_key(s)
            &&& id.spec_index() <= m[s]
            &&& id.spec_kind() == erased::kind_number(e[j].kind)
        }
}

proof fn lemma_counted(e: Seq<Entry>, hashes: Seq<u64>, i: nat)
    requires
        assign::enough_ids(e),
        i <= e.len(),
    ensures
        counted(e, hashes, i),
        forall|a: int, b: int|
            1 <= a < b < i ==> #[trigger] assign::id_at(e, hashes, a) != #[trigger] assign::id_at(
                e,
                hashes,
                b,
            ),
    decreases i,
{
    if i <= 1 {
        assert forall|k: ErasedFileAstIdKind| #[trigger]
            index_map::used(Map::empty(), k, HASHES as nat) == 0 by {
            index_map::lemma_used_empty(k, HASHES as nat);
        }
    } else {
        let p = (i - 1) as nat;
        lemma_counted(e, hashes, p);
        let m = assign::counters_after(e, hashes, p);
        let kind = e[p as int].kind;
        let hash = hashes[p as int];
        assign::lemma_count_monotonic(e, kind, i, e.len());
        assert(assign::count_kind(e, kind, e.len()) <= IDS_PER_KIND);
        assert(index_map::used(m, kind, HASHES as nat) == assign::count_kind(e, kind, p));
        index_map::lemma_next(m, kind, hash);
        let id = assign::id_at(e, hashes, p as int);
        assert(id == index_map::next_id(m, kind, hash));
        let after = assign::counters_after(e, hashes, i);
        assert(after == index_map::after_next(m, kind, hash));
        assert forall|j: int| 1 <= j < p implies #[trigger] assign::id_at(e, hashes, j) != id by {
            let other = assign::id_at(e, hashes, j);
            if other == id {
                lemma_kind_number_injective(e[j].kind, kind);
            }
        }
        assert(counted(e, hashes, i)) by {
            assert forall|j: int| 1 <= j < i implies {
                let id = #[trigger] assign::id_at(e, hashes, j);
                let s = index_map::slot(e[j].kind, id.spec_hash() as int);
                &&& after.contains_key(s)
                &&& id.spec_index() <= after[s]
                &&& id.spec_kind() == erased::kind_number(e[j].kind)
            } by {}
        }
    }
}

/// An id has the kind of its node.
pub(crate) proof fn lemma_id_kind(e: Seq<Entry>, hashes: Seq<u64>, i: int)
    requires
        assign::enough_ids(e),
        1 <= i < e.len(),
    ensures
        assign::id_at(e, hashes, i).spec_kind() == erased::kind_number(e[i].kind),
{
    lemma_counted(e, hashes, e.len());
}

/// An id has the hash and the number that it was given.
pub(crate) proof fn lemma_id_hash(e: Seq<Entry>, hashes: Seq<u64>, i: int)
    requires
        assign::enough_ids(e),
        1 <= i < e.len(),
    ensures
        ({
            let m = assign::counters_after(e, hashes, i as nat);
            let id = assign::id_at(e, hashes, i);
            &&& id.spec_hash() == index_map::hash_of_next(m, e[i].kind, hashes[i])
            &&& id.spec_index() == index_map::index_of_next(m, e[i].kind, hashes[i])
            &&& 0 <= index_map::hash_of_next(m, e[i].kind, hashes[i]) < HASHES
        }),
{
    let m = assign::counters_after(e, hashes, i as nat);
    let kind = e[i].kind;
    lemma_counted(e, hashes, i as nat);
    assign::lemma_count_monotonic(e, kind, (i + 1) as nat, e.len());
    assert(assign::count_kind(e, kind, e.len()) <= IDS_PER_KIND);
    assert(index_map::used(m, kind, HASHES as nat) == assign::count_kind(e, kind, i as nat));
    index_map::lemma_next(m, kind, hashes[i]);
}

/// The number of an id follows that of the last one with its kind and hash.
pub(crate) proof fn lemma_index_fits(e: Seq<Entry>, hashes: Seq<u64>, i: int)
    requires
        assign::enough_ids(e),
        1 <= i < e.len(),
    ensures
        ({
            let m = assign::counters_after(e, hashes, i as nat);
            let s = index_map::slot(
                e[i].kind,
                index_map::hash_of_next(m, e[i].kind, hashes[i]),
            );
            index_map::index_of_next(m, e[i].kind, hashes[i]) == if m.contains_key(s) {
                m[s] + 1
            } else {
                0
            }
        }),
{
    lemma_counted(e, hashes, i as nat);
    let m = assign::counters_after(e, hashes, i as nat);
    let s = index_map::slot(e[i].kind, index_map::hash_of_next(m, e[i].kind, hashes[i]));
    if m.contains_key(s) {
        assert(m[s] < erased::INDEX_LIMIT);
    }
}

proof fn lemma_kind_number_injective(a: ErasedFileAstIdKind, b: ErasedFileAstIdKind)
    requires
        erased::kind_number(a) == erased::kind_number(b),
    ensures
        a == b,
{
}

/// No two nodes of a file have the same id, whatever the hashes are.
pub proof fn ids_are_distinct(root: GreenNode, hashes: Seq<u64>)
    requires
        assign::enough_ids(walk::entries(root)),
    ensures
        assign::ids(walk::entries(root), hashes).no_duplicates(),
{
    let e = walk::entries(root);
    parents_come_before_children(root);
    lemma_counted(e, hashes, e.len());
    erased::unpacking_undoes_packing(0, 0, erased::kind_number(ErasedFileAstIdKind::Root));
    let all = assign::ids(e, hashes);
    assert forall|a: int, b: int| 0 <= a < all.len() && 0 <= b < all.len() && a != b implies all[a]
        != all[b] by {
        assert(all[a] == assign::id_at(e, hashes, a));
        assert(all[b] == assign::id_at(e, hashes, b));
        if a == 0 {
            if e[b].kind != ErasedFileAstIdKind::Root && all[a] == all[b] {
                lemma_kind_number_injective(e[b].kind, ErasedFileAstIdKind::Root);
            }
        } else if b == 0 {
            if e[a].kind != ErasedFileAstIdKind::Root && all[a] == all[b] {
                lemma_kind_number_injective(e[a].kind, ErasedFileAstIdKind::Root);
            }
        }
    }
}

/// The ids depend on the kinds of the nodes, their order and the hashes of their identities, and on
/// nothing else: not on where the nodes stand in the file.
pub proof fn ids_do_not_depend_on_positions(a: Seq<Entry>, b: Seq<Entry>, hashes: Seq<u64>)
    requires
        a.len() == b.len(),
        forall|i: int| 0 <= i < a.len() ==> (#[trigger] a[i]).kind == b[i].kind,
    ensures
        assign::ids(a, hashes) == assign::ids(b, hashes),
{
    assert forall|i: int| 0 <= i < a.len() implies #[trigger] assign::ids(a, hashes)[i]
        == assign::ids(b, hashes)[i] by {
        lemma_counters_by_kind(a, b, hashes, i as nat);
        assert(a[i].kind == b[i].kind);
    }
    assert(assign::ids(a, hashes) =~= assign::ids(b, hashes));
}

proof fn lemma_counters_by_kind(a: Seq<Entry>, b: Seq<Entry>, hashes: Seq<u64>, i: nat)
    requires
        i <= a.len(),
        a.len() == b.len(),
        forall|i: int| 0 <= i < a.len() ==> (#[trigger] a[i]).kind == b[i].kind,
    ensures
        assign::counters_after(a, hashes, i) == assign::counters_after(b, hashes, i),
    decreases i,
{
    if i > 1 {
        lemma_counters_by_kind(a, b, hashes, (i - 1) as nat);
        assert(a[i - 1].kind == b[i - 1].kind);
    }
}

// Every node that is to get an id gets one.

/// Whether `n` stands at the offset `at` in the tree that starts at the offset `start`.
pub open spec fn occurs_in(n: GreenNode, at: nat, within: GreenNode, start: nat) -> bool
    decreases within, 0nat,
{
    ||| n == within && at == start
    ||| occurs_below(n, at, within.children@, start)
}

/// Whether `n` stands at the offset `at` in one of the trees that follow each other from the offset
/// `start` on.
pub open spec fn occurs_below(n: GreenNode, at: nat, c: Seq<GreenElement>, start: nat) -> bool
    decreases c, 1nat,
{
    exists|i: int|
        0 <= i < c.len() && (#[trigger] c[i] matches GreenElement::Node(m) && occurs_in(
            n,
            at,
            m,
            start + green::prefix_len(c, i as nat),
        ))
}

pub open spec fn ptr_at(n: GreenNode, at: nat) -> SyntaxNodePtr {
    SyntaxNodePtr { kind: n.kind, range: walk::range_at(at, n.text_len as nat) }
}

/// Whether one of the entries is for the given node.
pub open spec fn has_entry(e: Seq<Entry>, ptr: SyntaxNodePtr) -> bool {
    exists|i: int| 0 <= i < e.len() && (#[trigger] e[i]).ptr == ptr
}

/// Whether one of the entries behind the root is for the given node, and holds it.
pub open spec fn has_entry_of(e: Seq<Entry>, n: GreenNode, at: nat) -> bool {
    exists|i: int|
        1 <= i < e.len() && (#[trigger] e[i]).ptr == ptr_at(n, at) && e[i].green == Some(n)
}

/// The node has been found, or lies below one that the next layer will walk.
spec fn covered(out: Seq<Entry>, next: Seq<LayerNode>, n: GreenNode, at: nat) -> bool {
    ||| has_entry_of(out, n, at)
    ||| exists|j: int|
        0 <= j < next.len() && occurs_below(
            n,
            at,
            (#[trigger] next[j]).node.children@,
            next[j].start,
        )
}

proof fn lemma_covered_kept(st: WalkState, r: WalkState, size: nat, n: GreenNode, at: nat)
    requires
        walk::steps_to(st, r, size),
        covered(st.out, st.next, n, at),
    ensures
        covered(r.out, r.next, n, at),
{
    if has_entry_of(st.out, n, at) {
        let i = choose|i: int|
            1 <= i < st.out.len() && (#[trigger] st.out[i]).ptr == ptr_at(n, at) && st.out[i].green
                == Some(n);
        assert(r.out[i] == r.out.take(st.out.len() as int)[i]);
    } else {
        let j = choose|j: int|
            0 <= j < st.next.len() && occurs_below(
                n,
                at,
                (#[trigger] st.next[j]).node.children@,
                st.next[j].start,
            );
        assert(r.next[j] == r.next.take(st.next.len() as int)[j]);
    }
}

proof fn lemma_visit_covers(
    m: GreenNode,
    start: nat,
    parent: SyntaxKind,
    grandparent: Option<SyntaxKind>,
    owner: Option<nat>,
    st: WalkState,
    n: GreenNode,
    at: nat,
)
    requires
        identity::spec_should_alloc(n.kind) is Some,
        occurs_in(n, at, m, start),
        st.out.len() > 0,
    ensures
        ({
            let r = walk::visit(m, start, parent, grandparent, owner, st);
            covered(r.out, r.next, n, at)
        }),
    decreases m, 1nat,
{
    let c = m.children@;
    let r = walk::visit(m, start, parent, grandparent, owner, st);
    if m.kind == SyntaxKind::BLOCK_EXPR {
        let entered = WalkState {
            blocks: st.blocks.push((walk::range_at(start, m.text_len as nat), false)),
            ..st
        };
        lemma_visit_children_covers(
            c,
            c.len(),
            start,
            m.kind,
            Some(parent),
            owner,
            entered,
            n,
            at,
        );
    } else {
        match identity::spec_should_alloc(m.kind) {
            Some(kind) => {
                if n == m && at == start {
                    let last = r.out.len() - 1;
                    assert(r.out[last].ptr == ptr_at(n, at) && r.out[last].green == Some(n));
                } else {
                    assert(r.next.last().node == m);
                    assert(r.next[r.next.len() - 1].start == start);
                }
            },
            None => {
                lemma_visit_children_covers(
                    c,
                    c.len(),
                    start,
                    m.kind,
                    Some(parent),
                    owner,
                    st,
                    n,
                    at,
                );
            },
        }
    }
}

proof fn lemma_visit_children_covers(
    c: Seq<GreenElement>,
    i: nat,
    start: nat,
    parent: SyntaxKind,
    grandparent: Option<SyntaxKind>,
    owner: Option<nat>,
    st: WalkState,
    n: GreenNode,
    at: nat,
)
    requires
        i <= c.len(),
        identity::spec_should_alloc(n.kind) is Some,
        st.out.len() > 0,
        exists|k: int|
            0 <= k < i && (#[trigger] c[k] matches GreenElement::Node(m) && occurs_in(
                n,
                at,
                m,
                start + green::prefix_len(c, k as nat),
            )),
    ensures
        ({
            let r = walk::visit_children(c, i, start, parent, grandparent, owner, st);
            covered(r.out, r.next, n, at)
        }),
    decreases c, i,
{
    let k = choose|k: int|
        0 <= k < i && (#[trigger] c[k] matches GreenElement::Node(m) && occurs_in(
            n,
            at,
            m,
            start + green::prefix_len(c, k as nat),
        ));
    let before = walk::visit_children(c, (i - 1) as nat, start, parent, grandparent, owner, st);
    let r = walk::visit_children(c, i, start, parent, grandparent, owner, st);
    walk::lemma_visit_children(c, (i - 1) as nat, start, parent, grandparent, owner, st);
    if k == i - 1 {
        if let GreenElement::Node(m) = c[i - 1] {
            lemma_visit_covers(
                m,
                start + green::prefix_len(c, (i - 1) as nat),
                parent,
                grandparent,
                owner,
                before,
                n,
                at,
            );
        }
    } else {
        lemma_visit_children_covers(
            c,
            (i - 1) as nat,
            start,
            parent,
            grandparent,
            owner,
            st,
            n,
            at,
        );
        if let GreenElement::Node(m) = c[i - 1] {
            walk::lemma_visit(
                m,
                start + green::prefix_len(c, (i - 1) as nat),
                parent,
                grandparent,
                owner,
                before,
            );
            lemma_covered_kept(before, r, green::size(m), n, at);
        }
    }
}

proof fn lemma_visit_layer_covers(
    layer: Seq<LayerNode>,
    i: nat,
    st: WalkState,
    n: GreenNode,
    at: nat,
)
    requires
        i <= layer.len(),
        identity::spec_should_alloc(n.kind) is Some,
        st.out.len() > 0,
        covered(st.out, layer.take(i as int), n, at),
    ensures
        ({
            let r = walk::visit_layer(layer, i, st);
            covered(r.out, r.next, n, at)
        }),
    decreases i,
{
    if i > 0 {
        let l = layer[i - 1];
        let before = walk::visit_layer(layer, (i - 1) as nat, st);
        let r = walk::visit_layer(layer, i, st);
        let shorter = layer.take(i - 1);
        walk::lemma_visit_layer(layer, (i - 1) as nat, st);
        if covered(st.out, shorter, n, at) {
            lemma_visit_layer_covers(layer, (i - 1) as nat, st, n, at);
            walk::lemma_visit_children(
                l.node.children@,
                l.node.children@.len(),
                l.start,
                l.node.kind,
                None,
                l.owner,
                before,
            );
            lemma_covered_kept(
                before,
                r,
                green::sizes(l.node.children@, l.node.children@.len()),
                n,
                at,
            );
        } else {
            let j = choose|j: int|
                0 <= j < i && occurs_below(
                    n,
                    at,
                    (#[trigger] layer.take(i as int)[j]).node.children@,
                    layer.take(i as int)[j].start,
                );
            if j < i - 1 {
                assert(shorter[j] == layer.take(i as int)[j]);
            }
            lemma_visit_children_covers(
                l.node.children@,
                l.node.children@.len(),
                l.start,
                l.node.kind,
                None,
                l.owner,
                before,
                n,
                at,
            );
        }
    }
}

proof fn lemma_visit_layers_covers(
    layer: Seq<LayerNode>,
    out: Seq<Entry>,
    n: GreenNode,
    at: nat,
)
    requires
        identity::spec_should_alloc(n.kind) is Some,
        out.len() > 0,
        covered(out, layer, n, at),
    ensures
        has_entry_of(walk::visit_layers(layer, out), n, at),
    decreases walk::layer_size(layer),
{
    if layer.len() > 0 {
        let st0 = walk::start_state(out);
        let st = walk::visit_layer(layer, layer.len(), st0);
        assert(layer.take(layer.len() as int) =~= layer);
        walk::lemma_visit_layer(layer, layer.len(), st0);
        lemma_visit_layer_covers(layer, layer.len(), st0, n, at);
        lemma_visit_layers_covers(st.next, st.out, n, at);
    }
}

/// Every item, variant, macro call and inline assembly in the file has an id.
pub proof fn all_candidates_are_found(root: GreenNode, n: GreenNode, at: nat)
    requires
        occurs_below(n, at, root.children@, 0),
        identity::spec_should_alloc(n.kind) is Some,
    ensures
        has_entry(walk::entries(root), ptr_at(n, at)),
        has_entry_of(walk::entries(root), n, at),
{
    let layer = seq![LayerNode { node: root, start: 0, owner: None }];
    assert(occurs_below(n, at, layer[0].node.children@, layer[0].start));
    lemma_visit_layers_covers(layer, seq![walk::root_entry(root)], n, at);
}

// Only blocks with items have an id.

/// The entry after a block is that of an item in it.
pub open spec fn block_has_item(e: Seq<Entry>, i: int) -> bool {
    &&& i + 1 < e.len()
    &&& e[i + 1].green is Some
    &&& walk::is_item_kind(e[i + 1].kind) || e[i + 1].kind == ErasedFileAstIdKind::MacroCall
    &&& e[i + 1].owner == e[i].owner
    &&& e[i].ptr.range.spec_contains_range(e[i + 1].ptr.range)
}

spec fn blocks_have_items(e: Seq<Entry>) -> bool {
    forall|i: int|
        #![trigger e[i]]
        0 <= i < e.len() && e[i].kind == ErasedFileAstIdKind::BlockExpr ==> block_has_item(e, i)
}

/// The text from `start` on lies in the innermost block.
spec fn in_block(st: WalkState, start: nat, len: nat) -> bool {
    &&& start + len <= u32::MAX
    &&& st.blocks.len() > 0 ==> st.blocks.last().0.spec_contains_range(walk::range_at(start, len))
}

spec fn same_blocks(st: WalkState, r: WalkState) -> bool {
    &&& r.blocks.len() == st.blocks.len()
    &&& forall|i: int| 0 <= i < st.blocks.len() ==> (#[trigger] r.blocks[i]).0 == st.blocks[i].0
}

proof fn lemma_visit_blocks(
    n: GreenNode,
    start: nat,
    parent: SyntaxKind,
    grandparent: Option<SyntaxKind>,
    owner: Option<nat>,
    st: WalkState,
)
    requires
        n.wf(),
        blocks_have_items(st.out),
        in_block(st, start, n.text_len as nat),
    ensures
        blocks_have_items(walk::visit(n, start, parent, grandparent, owner, st).out),
        same_blocks(st, walk::visit(n, start, parent, grandparent, owner, st)),
    decreases n, 0nat,
{
    let c = n.children@;
    let r = walk::visit(n, start, parent, grandparent, owner, st);
    if n.kind == SyntaxKind::BLOCK_EXPR {
        let entered = WalkState {
            blocks: st.blocks.push((walk::range_at(start, n.text_len as nat), false)),
            ..st
        };
        lemma_visit_children_blocks(c, c.len(), start, n.kind, Some(parent), owner, entered);
        let inside = walk::visit_children(
            c,
            c.len(),
            start,
            n.kind,
            Some(parent),
            owner,
            entered,
        );
        assert forall|i: int| 0 <= i < st.blocks.len() implies (#[trigger] r.blocks[i]).0
            == st.blocks[i].0 by {
            assert(inside.blocks[i].0 == entered.blocks[i].0);
        }
    } else {
        match identity::spec_should_alloc(n.kind) {
            Some(kind) => {
                let mid = walk::alloc_block(kind, parent, grandparent, owner, st);
                assert forall|i: int|
                    #![trigger r.out[i]]
                    0 <= i < r.out.len() && r.out[i].kind
                        == ErasedFileAstIdKind::BlockExpr implies block_has_item(r.out, i) by {
                    if i < st.out.len() {
                        assert(r.out[i] == st.out[i]);
                        assert(block_has_item(st.out, i));
                    }
                }
            },
            None => {
                lemma_visit_children_blocks(c, c.len(), start, n.kind, Some(parent), owner, st);
            },
        }
    }
}

proof fn lemma_visit_children_blocks(
    c: Seq<GreenElement>,
    i: nat,
    start: nat,
    parent: SyntaxKind,
    grandparent: Option<SyntaxKind>,
    owner: Option<nat>,
    st: WalkState,
)
    requires
        i <= c.len(),
        forall|k: int| 0 <= k < c.len() ==> (#[trigger] c[k]).wf(),
        blocks_have_items(st.out),
        in_block(st, start, green::prefix_len(c, i)),
    ensures
        blocks_have_items(
            walk::visit_children(c, i, start, parent, grandparent, owner, st).out,
        ),
        same_blocks(st, walk::visit_children(c, i, start, parent, grandparent, owner, st)),
    decreases c, i,
{
    if i > 0 {
        let before = walk::visit_children(
            c,
            (i - 1) as nat,
            start,
            parent,
            grandparent,
            owner,
            st,
        );
        lemma_visit_children_blocks(c, (i - 1) as nat, start, parent, grandparent, owner, st);
        if let GreenElement::Node(n) = c[i - 1] {
            assert(c[i - 1].wf());
            if st.blocks.len() > 0 {
                assert(before.blocks[st.blocks.len() - 1].0 == st.blocks.last().0);
            }
            lemma_visit_blocks(
                n,
                start + green::prefix_len(c, (i - 1) as nat),
                parent,
                grandparent,
                owner,
                before,
            );
        }
    }
}

/// The nodes of a layer have the right lengths and lie in the file.
spec fn layer_placed(layer: Seq<LayerNode>) -> bool {
    forall|j: int|
        0 <= j < layer.len() ==> (#[trigger] layer[j]).node.wf() && layer[j].start
            + layer[j].node.text_len <= u32::MAX
}

proof fn lemma_visit_placed(
    n: GreenNode,
    start: nat,
    parent: SyntaxKind,
    grandparent: Option<SyntaxKind>,
    owner: Option<nat>,
    st: WalkState,
)
    requires
        n.wf(),
        start + n.text_len <= u32::MAX,
        layer_placed(st.next),
    ensures
        layer_placed(walk::visit(n, start, parent, grandparent, owner, st).next),
    decreases n, 0nat,
{
    let c = n.children@;
    if n.kind == SyntaxKind::BLOCK_EXPR {
        let entered = WalkState {
            blocks: st.blocks.push((walk::range_at(start, n.text_len as nat), false)),
            ..st
        };
        lemma_visit_children_placed(c, c.len(), start, n.kind, Some(parent), owner, entered);
    } else if identity::spec_should_alloc(n.kind) is None {
        lemma_visit_children_placed(c, c.len(), start, n.kind, Some(parent), owner, st);
    }
}

proof fn lemma_visit_children_placed(
    c: Seq<GreenElement>,
    i: nat,
    start: nat,
    parent: SyntaxKind,
    grandparent: Option<SyntaxKind>,
    owner: Option<nat>,
    st: WalkState,
)
    requires
        i <= c.len(),
        forall|k: int| 0 <= k < c.len() ==> (#[trigger] c[k]).wf(),
        start + green::prefix_len(c, i) <= u32::MAX,
        layer_placed(st.next),
    ensures
        layer_placed(walk::visit_children(c, i, start, parent, grandparent, owner, st).next),
    decreases c, i,
{
    if i > 0 {
        lemma_visit_children_placed(c, (i - 1) as nat, start, parent, grandparent, owner, st);
        if let GreenElement::Node(n) = c[i - 1] {
            assert(c[i - 1].wf());
            lemma_visit_placed(
                n,
                start + green::prefix_len(c, (i - 1) as nat),
                parent,
                grandparent,
                owner,
                walk::visit_children(c, (i - 1) as nat, start, parent, grandparent, owner, st),
            );
        }
    }
}

proof fn lemma_visit_layer_blocks(layer: Seq<LayerNode>, i: nat, st: WalkState)
    requires
        i <= layer.len(),
        layer_placed(layer),
        layer_placed(st.next),
        blocks_have_items(st.out),
        st.blocks.len() == 0,
    ensures
        layer_placed(walk::visit_layer(layer, i, st).next),
        blocks_have_items(walk::visit_layer(layer, i, st).out),
        walk::visit_layer(layer, i, st).blocks.len() == 0,
    decreases i,
{
    if i > 0 {
        lemma_visit_layer_blocks(layer, (i - 1) as nat, st);
        let l = layer[i - 1];
        let c = l.node.children@;
        let before = walk::visit_layer(layer, (i - 1) as nat, st);
        lemma_visit_children_placed(c, c.len(), l.start, l.node.kind, None, l.owner, before);
        lemma_visit_children_blocks(c, c.len(), l.start, l.node.kind, None, l.owner, before);
    }
}

proof fn lemma_visit_layers_blocks(layer: Seq<LayerNode>, out: Seq<Entry>)
    requires
        layer_placed(layer),
        blocks_have_items(out),
    ensures
        blocks_have_items(walk::visit_layers(layer, out)),
    decreases walk::layer_size(layer),
{
    if layer.len() > 0 {
        let st0 = walk::start_state(out);
        assert(layer.take(layer.len() as int) =~= layer);
        walk::lemma_visit_layer(layer, layer.len(), st0);
        lemma_visit_layer_blocks(layer, layer.len(), st0);
        let st = walk::visit_layer(layer, layer.len(), st0);
        lemma_visit_layers_blocks(st.next, st.out);
    }
}

/// A block has an id only if there is an item in it: the entry after that of the block is for that
/// item.
pub proof fn only_blocks_with_items_are_found(root: GreenNode, i: int)
    requires
        root.wf(),
        0 <= i < walk::entries(root).len(),
        walk::entries(root)[i].kind == ErasedFileAstIdKind::BlockExpr,
    ensures
        block_has_item(walk::entries(root), i),
{
    let layer = seq![LayerNode { node: root, start: 0, owner: None }];
    lemma_visit_layers_blocks(layer, seq![walk::root_entry(root)]);
}

} // verus!
