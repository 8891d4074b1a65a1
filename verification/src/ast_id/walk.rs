//! Which nodes of a file get an id, and in which order.
//!
//! The tree is walked layer by layer: a layer holds the nodes with an id that are not separated by
//! another such node from the layer above. So parents come before their children, and a new child
//! does not change the place of its parent.

use super::erased::ErasedFileAstIdKind;
use super::identity;
use crate::green;
use crate::green::{GreenElement, GreenNode};
use crate::syntax_kind::SyntaxKind;
use crate::syntax_ptr::SyntaxNodePtr;
use crate::text::{TextRange, TextSize};
use vstd::prelude::*;

verus! {

/// A node that gets an id.
pub struct Candidate<'a> {
    pub ptr: SyntaxNodePtr,
    pub kind: ErasedFileAstIdKind,
    /// The node itself. Blocks and the root are told apart without it.
    pub green: Option<&'a GreenNode>,
    /// Which candidate this one lies in, by position. Blocks and the root own nothing.
    pub owner: Option<usize>,
}

#[verifier::ext_equal]
pub ghost struct Entry {
    pub ptr: SyntaxNodePtr,
    pub kind: ErasedFileAstIdKind,
    pub green: Option<GreenNode>,
    pub owner: Option<nat>,
}

impl<'a> View for Candidate<'a> {
    type V = Entry;

    open spec fn view(&self) -> Entry {
        Entry {
            ptr: self.ptr,
            kind: self.kind,
            green: match self.green {
                Some(n) => Some(*n),
                None => None,
            },
            owner: match self.owner {
                Some(i) => Some(i as nat),
                None => None,
            },
        }
    }
}

pub open spec fn candidates_view(c: Seq<Candidate>) -> Seq<Entry> {
    Seq::new(c.len(), |i: int| c[i]@)
}

/// A node of the layer that is still to be walked below, with its place and its owner.
pub ghost struct LayerNode {
    pub node: GreenNode,
    pub start: nat,
    pub owner: Option<nat>,
}

/// What the walk has found so far, and the blocks that it is in. A block is marked once it has an
/// id.
#[verifier::ext_equal]
pub ghost struct WalkState {
    pub out: Seq<Entry>,
    pub next: Seq<LayerNode>,
    pub blocks: Seq<(TextRange, bool)>,
}

pub open spec fn range_at(start: nat, len: nat) -> TextRange {
    TextRange { start: TextSize(start as u32), end: TextSize((start + len) as u32) }
}

/// The kinds of ids that make the block around them get one too.
pub open spec fn is_item_kind(kind: ErasedFileAstIdKind) -> bool {
    ||| kind == ErasedFileAstIdKind::Enum
    ||| kind == ErasedFileAstIdKind::Struct
    ||| kind == ErasedFileAstIdKind::Union
    ||| kind == ErasedFileAstIdKind::ExternCrate
    ||| kind == ErasedFileAstIdKind::MacroDef
    ||| kind == ErasedFileAstIdKind::MacroRules
    ||| kind == ErasedFileAstIdKind::Module
    ||| kind == ErasedFileAstIdKind::Static
    ||| kind == ErasedFileAstIdKind::Trait
    ||| kind == ErasedFileAstIdKind::Const
    ||| kind == ErasedFileAstIdKind::Fn
    ||| kind == ErasedFileAstIdKind::TypeAlias
    ||| kind == ErasedFileAstIdKind::ExternBlock
    ||| kind == ErasedFileAstIdKind::Use
    ||| kind == ErasedFileAstIdKind::Impl
}

/// Whether a node counts as an item of the block around it: an item does, and so does a macro call
/// that stands where a statement could.
pub open spec fn counts_as_item(
    kind: ErasedFileAstIdKind,
    parent: SyntaxKind,
    grandparent: Option<SyntaxKind>,
) -> bool {
    ||| is_item_kind(kind)
    ||| {
        &&& kind == ErasedFileAstIdKind::MacroCall
        &&& parent == SyntaxKind::MACRO_EXPR
        &&& (grandparent == Some(SyntaxKind::EXPR_STMT) || grandparent == Some(
            SyntaxKind::STMT_LIST,
        ))
    }
}

/// Gives the innermost block an id if it has none yet and the node is the first item in it.
pub open spec fn alloc_block(
    kind: ErasedFileAstIdKind,
    parent: SyntaxKind,
    grandparent: Option<SyntaxKind>,
    owner: Option<nat>,
    st: WalkState,
) -> WalkState {
    if st.blocks.len() > 0 && !st.blocks.last().1 && counts_as_item(kind, parent, grandparent) {
        let range = st.blocks.last().0;
        WalkState {
            out: st.out.push(
                Entry {
                    ptr: SyntaxNodePtr { kind: SyntaxKind::BLOCK_EXPR, range },
                    kind: ErasedFileAstIdKind::BlockExpr,
                    green: None,
                    owner,
                },
            ),
            next: st.next,
            blocks: st.blocks.drop_last().push((range, true)),
        }
    } else {
        st
    }
}

/// Gives the node an id. What lies below it is left for the next layer.
pub open spec fn alloc_node(
    n: GreenNode,
    start: nat,
    kind: ErasedFileAstIdKind,
    owner: Option<nat>,
    st: WalkState,
) -> WalkState {
    WalkState {
        out: st.out.push(
            Entry {
                ptr: SyntaxNodePtr { kind: n.kind, range: range_at(start, n.text_len as nat) },
                kind,
                green: Some(n),
                owner,
            },
        ),
        next: st.next.push(LayerNode { node: n, start, owner: Some(st.out.len()) }),
        blocks: st.blocks,
    }
}

/// The walk over the tree below `n`.
pub open spec fn visit(
    n: GreenNode,
    start: nat,
    parent: SyntaxKind,
    grandparent: Option<SyntaxKind>,
    owner: Option<nat>,
    st: WalkState,
) -> WalkState
    decreases n, 0nat,
{
    if n.kind == SyntaxKind::BLOCK_EXPR {
        let inside = visit_children(
            n.children@,
            n.children@.len(),
            start,
            n.kind,
            Some(parent),
            owner,
            WalkState {
                blocks: st.blocks.push((range_at(start, n.text_len as nat), false)),
                ..st
            },
        );
        WalkState { blocks: inside.blocks.drop_last(), ..inside }
    } else {
        match identity::spec_should_alloc(n.kind) {
            Some(kind) => alloc_node(
                n,
                start,
                kind,
                owner,
                alloc_block(kind, parent, grandparent, owner, st),
            ),
            None => visit_children(
                n.children@,
                n.children@.len(),
                start,
                n.kind,
                Some(parent),
                owner,
                st,
            ),
        }
    }
}

/// The walk over the first `i` of the elements of a node that starts at `start`.
pub open spec fn visit_children(
    c: Seq<GreenElement>,
    i: nat,
    start: nat,
    parent: SyntaxKind,
    grandparent: Option<SyntaxKind>,
    owner: Option<nat>,
    st: WalkState,
) -> WalkState
    decreases c, i,
{
    if i == 0 || i > c.len() {
        st
    } else {
        let before = visit_children(c, (i - 1) as nat, start, parent, grandparent, owner, st);
        match c[i - 1] {
            GreenElement::Node(n) => visit(
                n,
                start + green::prefix_len(c, (i - 1) as nat),
                parent,
                grandparent,
                owner,
                before,
            ),
            GreenElement::Token(_) => before,
        }
    }
}

/// The walk below one node of a layer.
pub open spec fn visit_root(l: LayerNode, st: WalkState) -> WalkState {
    visit_children(
        l.node.children@,
        l.node.children@.len(),
        l.start,
        l.node.kind,
        None,
        l.owner,
        st,
    )
}

/// The walk below the first `i` nodes of a layer.
pub open spec fn visit_layer(layer: Seq<LayerNode>, i: nat, st: WalkState) -> WalkState
    decreases i,
{
    if i == 0 {
        st
    } else {
        visit_root(layer[i - 1], visit_layer(layer, (i - 1) as nat, st))
    }
}

pub open spec fn layer_size(layer: Seq<LayerNode>) -> nat
    decreases layer.len(),
{
    if layer.len() == 0 {
        0
    } else {
        layer_size(layer.drop_last()) + green::size(layer.last().node)
    }
}

pub open spec fn start_state(out: Seq<Entry>) -> WalkState {
    WalkState { out, next: Seq::empty(), blocks: Seq::empty() }
}

/// The walk over a layer and all that lie below it.
pub open spec fn visit_layers(layer: Seq<LayerNode>, out: Seq<Entry>) -> Seq<Entry>
    decreases layer_size(layer),
    via visit_layers_decreases
{
    if layer.len() == 0 {
        out
    } else {
        let st = visit_layer(layer, layer.len(), start_state(out));
        visit_layers(st.next, st.out)
    }
}

#[via_fn]
proof fn visit_layers_decreases(layer: Seq<LayerNode>, out: Seq<Entry>) {
    if layer.len() > 0 {
        lemma_visit_layer(layer, layer.len(), start_state(out));
        assert(layer.take(layer.len() as int) =~= layer);
    }
}

/// All nodes with an id, the root first.
pub open spec fn entries(root: GreenNode) -> Seq<Entry> {
    visit_layers(
        seq![LayerNode { node: root, start: 0, owner: None }],
        seq![root_entry(root)],
    )
}

pub open spec fn root_entry(root: GreenNode) -> Entry {
    Entry {
        ptr: SyntaxNodePtr { kind: root.kind, range: range_at(0, root.text_len as nat) },
        kind: ErasedFileAstIdKind::Root,
        green: Some(root),
        owner: None,
    }
}

// What the walk keeps.

/// The walk leaves as many blocks as it enters, keeps what it has found, and what it leaves for the
/// next layer is no larger than what it has walked over.
pub open spec fn steps_to(st: WalkState, r: WalkState, size: nat) -> bool {
    &&& r.blocks.len() == st.blocks.len()
    &&& layer_size(r.next) <= layer_size(st.next) + size
    &&& st.out.len() <= r.out.len()
    &&& r.out.take(st.out.len() as int) == st.out
    &&& st.next.len() <= r.next.len()
    &&& r.next.take(st.next.len() as int) == st.next
}

proof fn lemma_steps_compose(a: WalkState, b: WalkState, c: WalkState, m: nat, n: nat)
    requires
        steps_to(a, b, m),
        steps_to(b, c, n),
    ensures
        steps_to(a, c, m + n),
{
    assert(c.out.take(a.out.len() as int) =~= c.out.take(b.out.len() as int).take(
        a.out.len() as int,
    ));
    assert(c.next.take(a.next.len() as int) =~= c.next.take(b.next.len() as int).take(
        a.next.len() as int,
    ));
}

pub(crate) proof fn lemma_visit(
    n: GreenNode,
    start: nat,
    parent: SyntaxKind,
    grandparent: Option<SyntaxKind>,
    owner: Option<nat>,
    st: WalkState,
)
    ensures
        steps_to(st, visit(n, start, parent, grandparent, owner, st), green::size(n)),
    decreases n, 0nat,
{
    let c = n.children@;
    if n.kind == SyntaxKind::BLOCK_EXPR {
        let entered = WalkState {
            blocks: st.blocks.push((range_at(start, n.text_len as nat), false)),
            ..st
        };
        lemma_visit_children(c, c.len(), start, n.kind, Some(parent), owner, entered);
    } else {
        match identity::spec_should_alloc(n.kind) {
            Some(kind) => {
                let mid = alloc_block(kind, parent, grandparent, owner, st);
                let r = alloc_node(n, start, kind, owner, mid);
                assert(r.next.drop_last() =~= st.next);
                assert(r.out.take(st.out.len() as int) =~= st.out);
                assert(r.next.take(st.next.len() as int) =~= st.next);
            },
            None => {
                lemma_visit_children(c, c.len(), start, n.kind, Some(parent), owner, st);
            },
        }
    }
}

pub(crate) proof fn lemma_visit_children(
    c: Seq<GreenElement>,
    i: nat,
    start: nat,
    parent: SyntaxKind,
    grandparent: Option<SyntaxKind>,
    owner: Option<nat>,
    st: WalkState,
)
    ensures
        steps_to(
            st,
            visit_children(c, i, start, parent, grandparent, owner, st),
            green::sizes(c, i),
        ),
    decreases c, i,
{
    if i == 0 || i > c.len() {
        assert(st.out.take(st.out.len() as int) =~= st.out);
        assert(st.next.take(st.next.len() as int) =~= st.next);
    } else {
        lemma_visit_children(c, (i - 1) as nat, start, parent, grandparent, owner, st);
        let before = visit_children(c, (i - 1) as nat, start, parent, grandparent, owner, st);
        if let GreenElement::Node(n) = c[i - 1] {
            let at = start + green::prefix_len(c, (i - 1) as nat);
            lemma_visit(n, at, parent, grandparent, owner, before);
            let r = visit(n, at, parent, grandparent, owner, before);
            lemma_steps_compose(st, before, r, green::sizes(c, (i - 1) as nat), green::size(n));
        }
    }
}

pub(crate) proof fn lemma_visit_layer(layer: Seq<LayerNode>, i: nat, st: WalkState)
    requires
        i <= layer.len(),
    ensures
        steps_to(st, visit_layer(layer, i, st), layer_size(layer.take(i as int))),
        i > 0 ==> layer_size(visit_layer(layer, i, st).next) < layer_size(st.next) + layer_size(
            layer.take(i as int),
        ),
    decreases i,
{
    if i == 0 {
        assert(st.out.take(st.out.len() as int) =~= st.out);
        assert(st.next.take(st.next.len() as int) =~= st.next);
    } else {
        let before = visit_layer(layer, (i - 1) as nat, st);
        let l = layer[i - 1];
        lemma_visit_layer(layer, (i - 1) as nat, st);
        lemma_visit_children(
            l.node.children@,
            l.node.children@.len(),
            l.start,
            l.node.kind,
            None,
            l.owner,
            before,
        );
        let r = visit_layer(layer, i, st);
        assert(layer.take(i as int).drop_last() =~= layer.take(i - 1));
        lemma_steps_compose(
            st,
            before,
            r,
            layer_size(layer.take(i - 1)),
            (green::size(l.node) - 1) as nat,
        );
    }
}

} // verus!
