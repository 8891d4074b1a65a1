//! Which blocks have an id, told by what is written in them.

use super::erased::ErasedFileAstIdKind;
use super::identity;
use super::laws::{occurs_below, occurs_in, ptr_at};
use super::placing::has_own_id;
use super::walk;
use super::walk::{Entry, LayerNode, WalkState};
use crate::green;
use crate::green::{GreenElement, GreenNode};
use crate::syntax_kind::SyntaxKind;
use crate::syntax_ptr::SyntaxNodePtr;
use crate::text::TextRange;
use vstd::prelude::*;

verus! {

/// Whether a node makes the block around it get an id: an item does, and so does a macro call that
/// stands where a statement could.
pub open spec fn makes_block(
    kind: SyntaxKind,
    parent: SyntaxKind,
    grandparent: Option<SyntaxKind>,
) -> bool {
    ||| kind == SyntaxKind::ENUM
    ||| kind == SyntaxKind::STRUCT
    ||| kind == SyntaxKind::UNION
    ||| kind == SyntaxKind::EXTERN_CRATE
    ||| kind == SyntaxKind::MACRO_DEF
    ||| kind == SyntaxKind::MACRO_RULES
    ||| kind == SyntaxKind::MODULE
    ||| kind == SyntaxKind::STATIC
    ||| kind == SyntaxKind::TRAIT
    ||| kind == SyntaxKind::CONST
    ||| kind == SyntaxKind::FN
    ||| kind == SyntaxKind::TYPE_ALIAS
    ||| kind == SyntaxKind::EXTERN_BLOCK
    ||| kind == SyntaxKind::USE
    ||| kind == SyntaxKind::IMPL
    ||| kind == SyntaxKind::MACRO_CALL && parent == SyntaxKind::MACRO_EXPR && (grandparent == Some(
        SyntaxKind::EXPR_STMT,
    ) || grandparent == Some(SyntaxKind::STMT_LIST))
}

/// Whether there is such a node among the elements of a node of the kind `parent`, or below them with
/// no other block and no node with an id of its own between.
pub open spec fn holds_item(
    c: Seq<GreenElement>,
    parent: SyntaxKind,
    grandparent: Option<SyntaxKind>,
) -> bool
    decreases c,
{
    exists|i: int|
        0 <= i < c.len() && (#[trigger] c[i] matches GreenElement::Node(m) && {
            ||| makes_block(m.kind, parent, grandparent)
            ||| {
                &&& m.kind != SyntaxKind::BLOCK_EXPR
                &&& !has_own_id(m.kind)
                &&& holds_item(m.children@, m.kind, Some(parent))
            }
        })
}

/// Whether the node, or what lies below it, makes the block around it get an id.
spec fn counts(m: GreenNode, parent: SyntaxKind, grandparent: Option<SyntaxKind>) -> bool {
    ||| makes_block(m.kind, parent, grandparent)
    ||| {
        &&& m.kind != SyntaxKind::BLOCK_EXPR
        &&& !has_own_id(m.kind)
        &&& holds_item(m.children@, m.kind, Some(parent))
    }
}

pub open spec fn has_block(e: Seq<Entry>, range: TextRange) -> bool {
    exists|i: int|
        1 <= i < e.len() && (#[trigger] e[i]).kind == ErasedFileAstIdKind::BlockExpr && e[i].ptr
            == (SyntaxNodePtr { kind: SyntaxKind::BLOCK_EXPR, range })
}

proof fn lemma_block_kept(a: Seq<Entry>, b: Seq<Entry>, range: TextRange)
    requires
        a.len() <= b.len(),
        b.take(a.len() as int) == a,
        has_block(a, range),
    ensures
        has_block(b, range),
{
    let i = choose|i: int|
        1 <= i < a.len() && (#[trigger] a[i]).kind == ErasedFileAstIdKind::BlockExpr && a[i].ptr == (
        SyntaxNodePtr { kind: SyntaxKind::BLOCK_EXPR, range });
    assert(b[i] == b.take(a.len() as int)[i]);
}

/// Only the innermost block can be marked, and it is once it has an entry.
spec fn marks_rightly(st: WalkState, r: WalkState) -> bool {
    &&& r.blocks.len() == st.blocks.len()
    &&& forall|k: int| 0 <= k < st.blocks.len() - 1 ==> #[trigger] r.blocks[k] == st.blocks[k]
    &&& st.blocks.len() > 0 ==> {
        &&& r.blocks.last().0 == st.blocks.last().0
        &&& st.blocks.last().1 ==> r.blocks.last().1
        &&& !st.blocks.last().1 && r.blocks.last().1 ==> has_block(r.out, st.blocks.last().0)
    }
}

proof fn lemma_marks_compose(a: WalkState, b: WalkState, c: WalkState)
    requires
        marks_rightly(a, b),
        marks_rightly(b, c),
        b.out.len() <= c.out.len(),
        c.out.take(b.out.len() as int) == b.out,
    ensures
        marks_rightly(a, c),
{
    if a.blocks.len() > 0 && !a.blocks.last().1 && b.blocks.last().1 {
        lemma_block_kept(b.out, c.out, a.blocks.last().0);
    }
    assert forall|k: int| 0 <= k < a.blocks.len() - 1 implies #[trigger] c.blocks[k]
        == a.blocks[k] by {
        assert(b.blocks[k] == a.blocks[k]);
    }
}

proof fn lemma_visit_marks(
    n: GreenNode,
    start: nat,
    parent: SyntaxKind,
    grandparent: Option<SyntaxKind>,
    owner: Option<nat>,
    st: WalkState,
)
    requires
        st.out.len() > 0,
    ensures
        marks_rightly(st, walk::visit(n, start, parent, grandparent, owner, st)),
        st.blocks.len() > 0 && counts(n, parent, grandparent) ==> walk::visit(
            n,
            start,
            parent,
            grandparent,
            owner,
            st,
        ).blocks.last().1,
        n.kind == SyntaxKind::BLOCK_EXPR && holds_item(n.children@, n.kind, Some(parent))
            ==> has_block(
            walk::visit(n, start, parent, grandparent, owner, st).out,
            walk::range_at(start, n.text_len as nat),
        ),
    decreases n, 0nat,
{
    let c = n.children@;
    let r = walk::visit(n, start, parent, grandparent, owner, st);
    if n.kind == SyntaxKind::BLOCK_EXPR {
        let range = walk::range_at(start, n.text_len as nat);
        let entered = WalkState { blocks: st.blocks.push((range, false)), ..st };
        lemma_visit_children_marks(c, c.len(), start, n.kind, Some(parent), owner, entered);
        let inside = walk::visit_children(c, c.len(), start, n.kind, Some(parent), owner, entered);
        assert(r.blocks == inside.blocks.drop_last());
        assert forall|k: int| 0 <= k < st.blocks.len() implies #[trigger] r.blocks[k]
            == st.blocks[k] by {
            assert(inside.blocks[k] == entered.blocks[k]);
        }
        if holds_item(c, n.kind, Some(parent)) {
            lemma_holds_counts(c, n.kind, Some(parent));
        }
    } else {
        match identity::spec_should_alloc(n.kind) {
            Some(kind) => {
                lemma_alloc_marks(n, start, kind, parent, grandparent, owner, st);
            },
            None => {
                lemma_visit_children_marks(c, c.len(), start, n.kind, Some(parent), owner, st);
                if holds_item(c, n.kind, Some(parent)) {
                    lemma_holds_counts(c, n.kind, Some(parent));
                }
            },
        }
    }
}

proof fn lemma_holds_counts(
    c: Seq<GreenElement>,
    parent: SyntaxKind,
    grandparent: Option<SyntaxKind>,
)
    requires
        holds_item(c, parent, grandparent),
    ensures
        exists|k: int|
            0 <= k < c.len() && (#[trigger] c[k]) is Node && counts(
                c[k]->Node_0,
                parent,
                grandparent,
            ),
{
    let i = choose|i: int|
        0 <= i < c.len() && (#[trigger] c[i] matches GreenElement::Node(m) && {
            ||| makes_block(m.kind, parent, grandparent)
            ||| {
                &&& m.kind != SyntaxKind::BLOCK_EXPR
                &&& !has_own_id(m.kind)
                &&& holds_item(m.children@, m.kind, Some(parent))
            }
        });
    assert(c[i] is Node && counts(c[i]->Node_0, parent, grandparent));
}

proof fn lemma_alloc_marks(
    n: GreenNode,
    start: nat,
    kind: ErasedFileAstIdKind,
    parent: SyntaxKind,
    grandparent: Option<SyntaxKind>,
    owner: Option<nat>,
    st: WalkState,
)
    requires
        st.out.len() > 0,
        identity::spec_should_alloc(n.kind) == Some(kind),
    ensures
        ({
            let r = walk::alloc_node(
                n,
                start,
                kind,
                owner,
                walk::alloc_block(kind, parent, grandparent, owner, st),
            );
            &&& marks_rightly(st, r)
            &&& st.blocks.len() > 0 && makes_block(n.kind, parent, grandparent)
                ==> r.blocks.last().1
        }),
{
    let mid = walk::alloc_block(kind, parent, grandparent, owner, st);
    let r = walk::alloc_node(n, start, kind, owner, mid);
    if st.blocks.len() > 0 && !st.blocks.last().1 && walk::counts_as_item(kind, parent, grandparent) {
        let last = st.out.len() as int;
        assert(r.out[last] == mid.out[last]);
        assert(has_block(r.out, st.blocks.last().0));
    }
}

proof fn lemma_visit_children_marks(
    c: Seq<GreenElement>,
    i: nat,
    start: nat,
    parent: SyntaxKind,
    grandparent: Option<SyntaxKind>,
    owner: Option<nat>,
    st: WalkState,
)
    requires
        i <= c.len(),
        st.out.len() > 0,
    ensures
        marks_rightly(st, walk::visit_children(c, i, start, parent, grandparent, owner, st)),
        st.blocks.len() > 0 && (exists|k: int|
            0 <= k < i && (#[trigger] c[k]) is Node && counts(c[k]->Node_0, parent, grandparent))
            ==> walk::visit_children(c, i, start, parent, grandparent, owner, st).blocks.last().1,
    decreases c, i,
{
    if i > 0 {
        let before = walk::visit_children(c, (i - 1) as nat, start, parent, grandparent, owner, st);
        lemma_visit_children_marks(c, (i - 1) as nat, start, parent, grandparent, owner, st);
        walk::lemma_visit_children(c, (i - 1) as nat, start, parent, grandparent, owner, st);
        if let GreenElement::Node(n) = c[i - 1] {
            let at = start + green::prefix_len(c, (i - 1) as nat);
            let r = walk::visit(n, at, parent, grandparent, owner, before);
            lemma_visit_marks(n, at, parent, grandparent, owner, before);
            walk::lemma_visit(n, at, parent, grandparent, owner, before);
            lemma_marks_compose(st, before, r);
        }
    }
}

/// The block has been found, or lies below a node that the next layer will walk.
spec fn block_covered(out: Seq<Entry>, next: Seq<LayerNode>, b: GreenNode, at: nat) -> bool {
    ||| has_block(out, walk::range_at(at, b.text_len as nat))
    ||| exists|j: int|
        0 <= j < next.len() && occurs_below(
            b,
            at,
            (#[trigger] next[j]).node.children@,
            next[j].start,
        )
}

proof fn lemma_block_covered_kept(st: WalkState, r: WalkState, size: nat, b: GreenNode, at: nat)
    requires
        walk::steps_to(st, r, size),
        block_covered(st.out, st.next, b, at),
    ensures
        block_covered(r.out, r.next, b, at),
{
    if has_block(st.out, walk::range_at(at, b.text_len as nat)) {
        lemma_block_kept(st.out, r.out, walk::range_at(at, b.text_len as nat));
    } else {
        let j = choose|j: int|
            0 <= j < st.next.len() && occurs_below(
                b,
                at,
                (#[trigger] st.next[j]).node.children@,
                st.next[j].start,
            );
        assert(r.next[j] == r.next.take(st.next.len() as int)[j]);
    }
}

/// A block with an item in it.
pub open spec fn is_block_with_item(b: GreenNode) -> bool {
    b.kind == SyntaxKind::BLOCK_EXPR && holds_item(b.children@, b.kind, None)
}

proof fn lemma_any_grandparent(b: GreenNode, grandparent: Option<SyntaxKind>)
    requires
        is_block_with_item(b),
    ensures
        holds_item(b.children@, b.kind, grandparent),
{
    let c = b.children@;
    lemma_holds_counts(c, b.kind, None);
    let k = choose|k: int|
        0 <= k < c.len() && (#[trigger] c[k]) is Node && counts(c[k]->Node_0, b.kind, None);
    assert(c[k] matches GreenElement::Node(m) && m == c[k]->Node_0);
}

proof fn lemma_visit_finds_block(
    m: GreenNode,
    start: nat,
    parent: SyntaxKind,
    grandparent: Option<SyntaxKind>,
    owner: Option<nat>,
    st: WalkState,
    b: GreenNode,
    at: nat,
)
    requires
        st.out.len() > 0,
        is_block_with_item(b),
        occurs_in(b, at, m, start),
    ensures
        ({
            let r = walk::visit(m, start, parent, grandparent, owner, st);
            block_covered(r.out, r.next, b, at)
        }),
    decreases m, 1nat,
{
    let c = m.children@;
    let r = walk::visit(m, start, parent, grandparent, owner, st);
    if b == m && at == start {
        lemma_any_grandparent(b, Some(parent));
        lemma_visit_marks(m, start, parent, grandparent, owner, st);
    } else if m.kind == SyntaxKind::BLOCK_EXPR {
        let entered = WalkState {
            blocks: st.blocks.push((walk::range_at(start, m.text_len as nat), false)),
            ..st
        };
        lemma_visit_children_finds_block(
            c,
            c.len(),
            start,
            m.kind,
            Some(parent),
            owner,
            entered,
            b,
            at,
        );
    } else {
        match identity::spec_should_alloc(m.kind) {
            Some(kind) => {
                let last = r.next.len() - 1;
                assert(r.next[last].node == m && r.next[last].start == start);
            },
            None => {
                lemma_visit_children_finds_block(
                    c,
                    c.len(),
                    start,
                    m.kind,
                    Some(parent),
                    owner,
                    st,
                    b,
                    at,
                );
            },
        }
    }
}

proof fn lemma_visit_children_finds_block(
    c: Seq<GreenElement>,
    i: nat,
    start: nat,
    parent: SyntaxKind,
    grandparent: Option<SyntaxKind>,
    owner: Option<nat>,
    st: WalkState,
    b: GreenNode,
    at: nat,
)
    requires
        i <= c.len(),
        st.out.len() > 0,
        is_block_with_item(b),
        exists|k: int|
            0 <= k < i && (#[trigger] c[k] matches GreenElement::Node(m) && occurs_in(
                b,
                at,
                m,
                start + green::prefix_len(c, k as nat),
            )),
    ensures
        ({
            let r = walk::visit_children(c, i, start, parent, grandparent, owner, st);
            block_covered(r.out, r.next, b, at)
        }),
    decreases c, i,
{
    let k = choose|k: int|
        0 <= k < i && (#[trigger] c[k] matches GreenElement::Node(m) && occurs_in(
            b,
            at,
            m,
            start + green::prefix_len(c, k as nat),
        ));
    let before = walk::visit_children(c, (i - 1) as nat, start, parent, grandparent, owner, st);
    let r = walk::visit_children(c, i, start, parent, grandparent, owner, st);
    walk::lemma_visit_children(c, (i - 1) as nat, start, parent, grandparent, owner, st);
    if k == i - 1 {
        if let GreenElement::Node(m) = c[i - 1] {
            lemma_visit_finds_block(
                m,
                start + green::prefix_len(c, (i - 1) as nat),
                parent,
                grandparent,
                owner,
                before,
                b,
                at,
            );
        }
    } else {
        lemma_visit_children_finds_block(
            c,
            (i - 1) as nat,
            start,
            parent,
            grandparent,
            owner,
            st,
            b,
            at,
        );
        if let GreenElement::Node(m) = c[i - 1] {
            walk::lemma_visit(
                m,
                start + green::prefix_len(c, (i - 1) as nat),
                parent,
                grandparent,
                owner,
                before,
            );
            lemma_block_covered_kept(before, r, green::size(m), b, at);
        }
    }
}

proof fn lemma_visit_layer_finds_block(
    layer: Seq<LayerNode>,
    i: nat,
    st: WalkState,
    b: GreenNode,
    at: nat,
)
    requires
        i <= layer.len(),
        st.out.len() > 0,
        is_block_with_item(b),
        block_covered(st.out, layer.take(i as int), b, at),
    ensures
        ({
            let r = walk::visit_layer(layer, i, st);
            block_covered(r.out, r.next, b, at)
        }),
    decreases i,
{
    if i > 0 {
        let l = layer[i - 1];
        let before = walk::visit_layer(layer, (i - 1) as nat, st);
        let r = walk::visit_layer(layer, i, st);
        let shorter = layer.take(i - 1);
        let c = l.node.children@;
        walk::lemma_visit_layer(layer, (i - 1) as nat, st);
        if block_covered(st.out, shorter, b, at) {
            lemma_visit_layer_finds_block(layer, (i - 1) as nat, st, b, at);
            walk::lemma_visit_children(c, c.len(), l.start, l.node.kind, None, l.owner, before);
            lemma_block_covered_kept(before, r, green::sizes(c, c.len()), b, at);
        } else {
            let j = choose|j: int|
                0 <= j < i && occurs_below(
                    b,
                    at,
                    (#[trigger] layer.take(i as int)[j]).node.children@,
                    layer.take(i as int)[j].start,
                );
            if j < i - 1 {
                assert(shorter[j] == layer.take(i as int)[j]);
            }
            lemma_visit_children_finds_block(
                c,
                c.len(),
                l.start,
                l.node.kind,
                None,
                l.owner,
                before,
                b,
                at,
            );
        }
    }
}

proof fn lemma_visit_layers_finds_block(
    layer: Seq<LayerNode>,
    out: Seq<Entry>,
    b: GreenNode,
    at: nat,
)
    requires
        out.len() > 0,
        is_block_with_item(b),
        block_covered(out, layer, b, at),
    ensures
        has_block(walk::visit_layers(layer, out), walk::range_at(at, b.text_len as nat)),
    decreases walk::layer_size(layer),
{
    if layer.len() > 0 {
        let st0 = walk::start_state(out);
        let st = walk::visit_layer(layer, layer.len(), st0);
        assert(layer.take(layer.len() as int) =~= layer);
        walk::lemma_visit_layer(layer, layer.len(), st0);
        lemma_visit_layer_finds_block(layer, layer.len(), st0, b, at);
        lemma_visit_layers_finds_block(st.next, st.out, b, at);
    }
}

/// Every block with an item in it has an id, wherever in the file it stands.
pub proof fn blocks_with_items_are_found(root: GreenNode, b: GreenNode, at: nat)
    requires
        occurs_below(b, at, root.children@, 0),
        is_block_with_item(b),
    ensures
        exists|i: int|
            1 <= i < walk::entries(root).len() && (#[trigger] walk::entries(root)[i]).ptr == ptr_at(
                b,
                at,
            ) && walk::entries(root)[i].kind == ErasedFileAstIdKind::BlockExpr,
{
    let layer = seq![LayerNode { node: root, start: 0, owner: None }];
    assert(occurs_below(b, at, layer[0].node.children@, layer[0].start));
    lemma_visit_layers_finds_block(layer, seq![walk::root_entry(root)], b, at);
    let e = walk::entries(root);
    let range = walk::range_at(at, b.text_len as nat);
    let i = choose|i: int|
        1 <= i < e.len() && (#[trigger] e[i]).kind == ErasedFileAstIdKind::BlockExpr && e[i].ptr == (
        SyntaxNodePtr { kind: SyntaxKind::BLOCK_EXPR, range });
    assert(e[i].ptr == ptr_at(b, at));
}

// Only those blocks have an id.

/// Whether the `i`th entry, if it is for a block, is for one with an item in it.
spec fn is_justified(e: Seq<Entry>, root: GreenNode, i: int) -> bool {
    e[i].kind == ErasedFileAstIdKind::BlockExpr ==> exists|b: GreenNode, at: nat| #[trigger]
        occurs_below(b, at, root.children@, 0) && is_block_with_item(b) && e[i].ptr == ptr_at(b, at)
}

spec fn all_justified(e: Seq<Entry>, root: GreenNode) -> bool {
    forall|i: int| 1 <= i < e.len() ==> is_justified(e, root, i)
}

proof fn lemma_push_justified(e: Seq<Entry>, root: GreenNode, entry: Entry)
    requires
        e.len() > 0,
        all_justified(e, root),
        is_justified(e.push(entry), root, e.len() as int),
    ensures
        all_justified(e.push(entry), root),
{
    let f = e.push(entry);
    assert forall|i: int| 1 <= i < f.len() implies is_justified(f, root, i) by {
        if i < e.len() {
            assert(is_justified(e, root, i));
            assert(f[i] == e[i]);
        }
    }
}

proof fn lemma_occurs_inside(
    a: GreenNode,
    a_at: nat,
    n: GreenNode,
    at: nat,
    c: Seq<GreenElement>,
    start: nat,
)
    requires
        occurs_below(n, at, c, start),
        occurs_below(a, a_at, n.children@, at),
    ensures
        occurs_below(a, a_at, c, start),
    decreases c,
{
    let i = choose|i: int|
        0 <= i < c.len() && (#[trigger] c[i] matches GreenElement::Node(m) && occurs_in(
            n,
            at,
            m,
            start + green::prefix_len(c, i as nat),
        ));
    let m = c[i]->Node_0;
    let m_start = start + green::prefix_len(c, i as nat);
    if !(n == m && at == m_start) {
        assert(decreases_to!(c => c[i]));
        assert(decreases_to!(c[i] => m));
        assert(decreases_to!(m => m.children@));
        lemma_occurs_inside(a, a_at, n, at, m.children@, m_start);
    }
    assert(occurs_in(a, a_at, m, m_start));
    assert(c[i] matches GreenElement::Node(x) && x == m);
}

proof fn lemma_child_occurs(c: Seq<GreenElement>, start: nat, k: int)
    requires
        0 <= k < c.len(),
        c[k] is Node,
    ensures
        occurs_below(c[k]->Node_0, start + green::prefix_len(c, k as nat), c, start),
{
    let m = c[k]->Node_0;
    assert(occurs_in(m, start + green::prefix_len(c, k as nat), m, start + green::prefix_len(c, k as nat)));
    assert(c[k] matches GreenElement::Node(x) && x == m);
}

/// The innermost block that the walk is in.
ghost struct Inner {
    pub block: GreenNode,
    pub at: nat,
}

impl Inner {
    spec fn is_of(self, st: WalkState, root: GreenNode) -> bool {
        st.blocks.len() > 0 ==> {
            &&& occurs_below(self.block, self.at, root.children@, 0)
            &&& self.block.kind == SyntaxKind::BLOCK_EXPR
            &&& st.blocks.last().0 == walk::range_at(self.at, self.block.text_len as nat)
        }
    }
}

proof fn lemma_visit_justified(
    n: GreenNode,
    start: nat,
    parent: SyntaxKind,
    grandparent: Option<SyntaxKind>,
    owner: Option<nat>,
    st: WalkState,
    root: GreenNode,
    inner: Inner,
)
    requires
        st.out.len() > 0,
        all_justified(st.out, root),
        inner.is_of(st, root),
        st.blocks.len() > 0 && counts(n, parent, grandparent) ==> is_block_with_item(inner.block),
        occurs_below(n, start, root.children@, 0),
        forall|j: int|
            0 <= j < st.next.len() ==> occurs_below(
                (#[trigger] st.next[j]).node,
                st.next[j].start,
                root.children@,
                0,
            ),
    ensures
        all_justified(walk::visit(n, start, parent, grandparent, owner, st).out, root),
        ({
            let r = walk::visit(n, start, parent, grandparent, owner, st);
            forall|j: int|
                0 <= j < r.next.len() ==> occurs_below(
                    (#[trigger] r.next[j]).node,
                    r.next[j].start,
                    root.children@,
                    0,
                )
        }),
    decreases n, 0nat,
{
    let c = n.children@;
    if n.kind == SyntaxKind::BLOCK_EXPR {
        let range = walk::range_at(start, n.text_len as nat);
        let entered = WalkState { blocks: st.blocks.push((range, false)), ..st };
        let within = Inner { block: n, at: start };
        assert forall|k: int|
            0 <= k < c.len() && (#[trigger] c[k]) is Node && counts(
                c[k]->Node_0,
                n.kind,
                Some(parent),
            ) implies is_block_with_item(n) by {
            lemma_counts_hold(c, n.kind, Some(parent), k);
            lemma_no_grandparent(n, Some(parent));
        }
        lemma_children_occur(n, start, root);
        lemma_visit_children_justified(
            c,
            c.len(),
            start,
            n.kind,
            Some(parent),
            owner,
            entered,
            root,
            within,
        );
    } else {
        match identity::spec_should_alloc(n.kind) {
            Some(kind) => {
                lemma_alloc_justified(n, start, kind, parent, grandparent, owner, st, root, inner);
            },
            None => {
                assert forall|k: int|
                    st.blocks.len() > 0 && 0 <= k < c.len() && (#[trigger] c[k]) is Node && counts(
                        c[k]->Node_0,
                        n.kind,
                        Some(parent),
                    ) implies is_block_with_item(inner.block) by {
                    lemma_counts_hold(c, n.kind, Some(parent), k);
                }
                lemma_children_occur(n, start, root);
                lemma_visit_children_justified(
                    c,
                    c.len(),
                    start,
                    n.kind,
                    Some(parent),
                    owner,
                    st,
                    root,
                    inner,
                );
            },
        }
    }
}

proof fn lemma_counts_hold(
    c: Seq<GreenElement>,
    parent: SyntaxKind,
    grandparent: Option<SyntaxKind>,
    k: int,
)
    requires
        0 <= k < c.len(),
        c[k] is Node,
        counts(c[k]->Node_0, parent, grandparent),
    ensures
        holds_item(c, parent, grandparent),
{
    assert(c[k] matches GreenElement::Node(m) && m == c[k]->Node_0);
}

proof fn lemma_no_grandparent(b: GreenNode, grandparent: Option<SyntaxKind>)
    requires
        b.kind == SyntaxKind::BLOCK_EXPR,
        holds_item(b.children@, b.kind, grandparent),
    ensures
        is_block_with_item(b),
{
    let c = b.children@;
    lemma_holds_counts(c, b.kind, grandparent);
    let k = choose|k: int|
        0 <= k < c.len() && (#[trigger] c[k]) is Node && counts(c[k]->Node_0, b.kind, grandparent);
    assert(counts(c[k]->Node_0, b.kind, None));
    lemma_counts_hold(c, b.kind, None, k);
}

proof fn lemma_children_occur(n: GreenNode, start: nat, root: GreenNode)
    requires
        occurs_below(n, start, root.children@, 0),
    ensures
        forall|k: int|
            0 <= k < n.children@.len() && (#[trigger] n.children@[k]) is Node ==> occurs_below(
                n.children@[k]->Node_0,
                start + green::prefix_len(n.children@, k as nat),
                root.children@,
                0,
            ),
{
    let c = n.children@;
    assert forall|k: int| 0 <= k < c.len() && (#[trigger] c[k]) is Node implies occurs_below(
        c[k]->Node_0,
        start + green::prefix_len(c, k as nat),
        root.children@,
        0,
    ) by {
        lemma_child_occurs(c, start, k);
        lemma_occurs_inside(
            c[k]->Node_0,
            start + green::prefix_len(c, k as nat),
            n,
            start,
            root.children@,
            0,
        );
    }
}

proof fn lemma_alloc_justified(
    n: GreenNode,
    start: nat,
    kind: ErasedFileAstIdKind,
    parent: SyntaxKind,
    grandparent: Option<SyntaxKind>,
    owner: Option<nat>,
    st: WalkState,
    root: GreenNode,
    inner: Inner,
)
    requires
        st.out.len() > 0,
        all_justified(st.out, root),
        inner.is_of(st, root),
        identity::spec_should_alloc(n.kind) == Some(kind),
        st.blocks.len() > 0 && counts(n, parent, grandparent) ==> is_block_with_item(inner.block),
        occurs_below(n, start, root.children@, 0),
        forall|j: int|
            0 <= j < st.next.len() ==> occurs_below(
                (#[trigger] st.next[j]).node,
                st.next[j].start,
                root.children@,
                0,
            ),
    ensures
        ({
            let r = walk::alloc_node(
                n,
                start,
                kind,
                owner,
                walk::alloc_block(kind, parent, grandparent, owner, st),
            );
            &&& all_justified(r.out, root)
            &&& forall|j: int|
                0 <= j < r.next.len() ==> occurs_below(
                    (#[trigger] r.next[j]).node,
                    r.next[j].start,
                    root.children@,
                    0,
                )
        }),
{
    let mid = walk::alloc_block(kind, parent, grandparent, owner, st);
    let r = walk::alloc_node(n, start, kind, owner, mid);
    if st.blocks.len() > 0 && !st.blocks.last().1 && walk::counts_as_item(kind, parent, grandparent) {
        assert(makes_block(n.kind, parent, grandparent));
        let entry = mid.out.last();
        assert(mid.out =~= st.out.push(entry));
        assert(entry.ptr == ptr_at(inner.block, inner.at));
        assert(is_justified(mid.out, root, st.out.len() as int)) by {
            assert(occurs_below(inner.block, inner.at, root.children@, 0));
        }
        lemma_push_justified(st.out, root, entry);
    }
    let entry = r.out.last();
    assert(r.out =~= mid.out.push(entry));
    lemma_push_justified(mid.out, root, entry);
    assert forall|j: int| 0 <= j < r.next.len() implies occurs_below(
        (#[trigger] r.next[j]).node,
        r.next[j].start,
        root.children@,
        0,
    ) by {
        if j < st.next.len() {
            assert(r.next[j] == st.next[j]);
        }
    }
}

proof fn lemma_visit_children_justified(
    c: Seq<GreenElement>,
    i: nat,
    start: nat,
    parent: SyntaxKind,
    grandparent: Option<SyntaxKind>,
    owner: Option<nat>,
    st: WalkState,
    root: GreenNode,
    inner: Inner,
)
    requires
        i <= c.len(),
        st.out.len() > 0,
        all_justified(st.out, root),
        inner.is_of(st, root),
        forall|k: int|
            st.blocks.len() > 0 && 0 <= k < c.len() && (#[trigger] c[k]) is Node && counts(
                c[k]->Node_0,
                parent,
                grandparent,
            ) ==> is_block_with_item(inner.block),
        forall|k: int|
            0 <= k < c.len() && (#[trigger] c[k]) is Node ==> occurs_below(
                c[k]->Node_0,
                start + green::prefix_len(c, k as nat),
                root.children@,
                0,
            ),
        forall|j: int|
            0 <= j < st.next.len() ==> occurs_below(
                (#[trigger] st.next[j]).node,
                st.next[j].start,
                root.children@,
                0,
            ),
    ensures
        all_justified(
            walk::visit_children(c, i, start, parent, grandparent, owner, st).out,
            root,
        ),
        ({
            let r = walk::visit_children(c, i, start, parent, grandparent, owner, st);
            forall|j: int|
                0 <= j < r.next.len() ==> occurs_below(
                    (#[trigger] r.next[j]).node,
                    r.next[j].start,
                    root.children@,
                    0,
                )
        }),
    decreases c, i,
{
    if i > 0 {
        let before = walk::visit_children(c, (i - 1) as nat, start, parent, grandparent, owner, st);
        lemma_visit_children_justified(
            c,
            (i - 1) as nat,
            start,
            parent,
            grandparent,
            owner,
            st,
            root,
            inner,
        );
        walk::lemma_visit_children(c, (i - 1) as nat, start, parent, grandparent, owner, st);
        lemma_visit_children_marks(c, (i - 1) as nat, start, parent, grandparent, owner, st);
        if let GreenElement::Node(n) = c[i - 1] {
            assert(c[i - 1] is Node);
            lemma_visit_justified(
                n,
                start + green::prefix_len(c, (i - 1) as nat),
                parent,
                grandparent,
                owner,
                before,
                root,
                inner,
            );
        }
    }
}

/// The nodes of a layer stand in the file, or are the file.
spec fn layer_occurs(layer: Seq<LayerNode>, root: GreenNode) -> bool {
    forall|j: int|
        0 <= j < layer.len() ==> ((#[trigger] layer[j]).node == root && layer[j].start == 0)
            || occurs_below(layer[j].node, layer[j].start, root.children@, 0)
}

proof fn lemma_visit_layer_justified(layer: Seq<LayerNode>, i: nat, st: WalkState, root: GreenNode)
    requires
        i <= layer.len(),
        st.out.len() > 0,
        st.blocks.len() == 0,
        all_justified(st.out, root),
        layer_occurs(layer, root),
        forall|j: int|
            0 <= j < st.next.len() ==> occurs_below(
                (#[trigger] st.next[j]).node,
                st.next[j].start,
                root.children@,
                0,
            ),
    ensures
        ({
            let r = walk::visit_layer(layer, i, st);
            &&& all_justified(r.out, root)
            &&& r.blocks.len() == 0
            &&& forall|j: int|
                0 <= j < r.next.len() ==> occurs_below(
                    (#[trigger] r.next[j]).node,
                    r.next[j].start,
                    root.children@,
                    0,
                )
        }),
    decreases i,
{
    if i > 0 {
        let l = layer[i - 1];
        let c = l.node.children@;
        let before = walk::visit_layer(layer, (i - 1) as nat, st);
        lemma_visit_layer_justified(layer, (i - 1) as nat, st, root);
        walk::lemma_visit_layer(layer, (i - 1) as nat, st);
        if l.node == root && l.start == 0 {
            assert forall|k: int| 0 <= k < c.len() && (#[trigger] c[k]) is Node implies occurs_below(
                c[k]->Node_0,
                l.start + green::prefix_len(c, k as nat),
                root.children@,
                0,
            ) by {
                lemma_child_occurs(c, 0, k);
            }
        } else {
            lemma_children_occur(l.node, l.start, root);
        }
        lemma_visit_children_justified(
            c,
            c.len(),
            l.start,
            l.node.kind,
            None,
            l.owner,
            before,
            root,
            Inner { block: root, at: 0 },
        );
        walk::lemma_visit_children(c, c.len(), l.start, l.node.kind, None, l.owner, before);
    }
}

proof fn lemma_visit_layers_justified(layer: Seq<LayerNode>, out: Seq<Entry>, root: GreenNode)
    requires
        out.len() > 0,
        all_justified(out, root),
        layer_occurs(layer, root),
    ensures
        all_justified(walk::visit_layers(layer, out), root),
    decreases walk::layer_size(layer),
{
    if layer.len() > 0 {
        let st0 = walk::start_state(out);
        let st = walk::visit_layer(layer, layer.len(), st0);
        assert(layer.take(layer.len() as int) =~= layer);
        walk::lemma_visit_layer(layer, layer.len(), st0);
        lemma_visit_layer_justified(layer, layer.len(), st0, root);
        lemma_visit_layers_justified(st.next, st.out, root);
    }
}

/// Every block that has an id stands in the file and has an item in it.
pub proof fn only_blocks_with_items_have_ids(root: GreenNode, i: int)
    requires
        1 <= i < walk::entries(root).len(),
        walk::entries(root)[i].kind == ErasedFileAstIdKind::BlockExpr,
    ensures
        exists|b: GreenNode, at: nat| #[trigger]
            occurs_below(b, at, root.children@, 0) && is_block_with_item(b) && walk::entries(
                root,
            )[i].ptr == ptr_at(b, at),
{
    let layer = seq![LayerNode { node: root, start: 0, owner: None }];
    let out = seq![walk::root_entry(root)];
    lemma_visit_layers_justified(layer, out, root);
    assert(is_justified(walk::entries(root), root, i));
}

} // verus!
