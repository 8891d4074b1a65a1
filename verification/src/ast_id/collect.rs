//! The walk that finds the nodes with an id, on an explicit stack.

use super::erased::{ErasedFileAstId, ErasedFileAstIdKind};
use super::walk;
use super::walk::{Candidate, LayerNode, WalkState};
use crate::green;
use crate::green::{GreenElement, GreenNode};
use crate::small;
use crate::small::Small;
use crate::syntax_kind::SyntaxKind;
use crate::syntax_ptr::SyntaxNodePtr;
use crate::text::{TextRange, TextSize};
use vstd::prelude::*;

verus! {

/// The blocks that the walk is in, the innermost last. A block is marked once it has an id.
pub type BlockStack = Small<(TextRange, bool), 4>;

/// A step that the walk still has to make.
pub enum GreenWalkEvent<'a> {
    Enter {
        green: &'a GreenNode,
        range: TextRange,
        parent_kind: SyntaxKind,
        grandparent_kind: Option<SyntaxKind>,
    },
    LeaveBlock,
}

/// A node of a layer that has yet to be walked below.
pub struct LayerItem<'a> {
    pub node: &'a GreenNode,
    pub range: TextRange,
    pub owner: Option<usize>,
}

pub ghost enum Event {
    Enter(GreenNode, nat, SyntaxKind, Option<SyntaxKind>),
    Leave,
}

impl<'a> View for GreenWalkEvent<'a> {
    type V = Event;

    open spec fn view(&self) -> Event {
        match self {
            GreenWalkEvent::Enter { green, range, parent_kind, grandparent_kind } => Event::Enter(
                **green,
                range.start.0 as nat,
                *parent_kind,
                *grandparent_kind,
            ),
            GreenWalkEvent::LeaveBlock => Event::Leave,
        }
    }
}

pub open spec fn owner_view(owner: Option<usize>) -> Option<nat> {
    match owner {
        Some(i) => Some(i as nat),
        None => None,
    }
}

impl<'a> View for LayerItem<'a> {
    type V = LayerNode;

    open spec fn view(&self) -> LayerNode {
        LayerNode {
            node: *self.node,
            start: self.range.start.0 as nat,
            owner: owner_view(self.owner),
        }
    }
}

/// The node's lengths are right, and the range is where it stands in the file.
pub open spec fn placed(n: GreenNode, range: TextRange) -> bool {
    &&& n.wf()
    &&& range.start.0 + n.text_len <= u32::MAX
    &&& range == walk::range_at(range.start.0 as nat, n.text_len as nat)
}

impl<'a> GreenWalkEvent<'a> {
    pub open spec fn wf(self) -> bool {
        match self {
            GreenWalkEvent::Enter { green, range, .. } => placed(*green, range),
            GreenWalkEvent::LeaveBlock => true,
        }
    }
}

impl<'a> LayerItem<'a> {
    pub open spec fn wf(self) -> bool {
        placed(*self.node, self.range)
    }
}

pub open spec fn events(s: Seq<GreenWalkEvent>) -> Seq<Event> {
    Seq::new(s.len(), |i: int| s[i]@)
}

pub open spec fn layer_view(s: Seq<LayerItem>) -> Seq<LayerNode> {
    Seq::new(s.len(), |i: int| s[i]@)
}

/// What is left to do: the steps from the top of the stack down.
spec fn drain(stack: Seq<Event>, owner: Option<nat>, st: WalkState) -> WalkState
    decreases stack.len(),
{
    if stack.len() == 0 {
        st
    } else {
        drain(
            stack.drop_last(),
            owner,
            match stack.last() {
                Event::Enter(n, start, parent, grandparent) => walk::visit(
                    n,
                    start,
                    parent,
                    grandparent,
                    owner,
                    st,
                ),
                Event::Leave => if st.blocks.len() > 0 {
                    WalkState { blocks: st.blocks.drop_last(), ..st }
                } else {
                    st
                },
            },
        )
    }
}

/// The steps for the child nodes from the last down to the `k`th.
spec fn pushed(
    c: Seq<GreenElement>,
    k: nat,
    start: nat,
    parent: SyntaxKind,
    grandparent: Option<SyntaxKind>,
) -> Seq<Event>
    decreases c.len() - k,
{
    if k >= c.len() {
        Seq::empty()
    } else {
        let below = pushed(c, k + 1, start, parent, grandparent);
        match c[k as int] {
            GreenElement::Node(n) => below.push(
                Event::Enter(n, start + green::prefix_len(c, k), parent, grandparent),
            ),
            GreenElement::Token(_) => below,
        }
    }
}

proof fn lemma_drain_pushed(
    rest: Seq<Event>,
    c: Seq<GreenElement>,
    k: nat,
    start: nat,
    parent: SyntaxKind,
    grandparent: Option<SyntaxKind>,
    owner: Option<nat>,
    st: WalkState,
)
    requires
        k <= c.len(),
    ensures
        drain(
            rest + pushed(c, k, start, parent, grandparent),
            owner,
            walk::visit_children(c, k, start, parent, grandparent, owner, st),
        ) == drain(
            rest,
            owner,
            walk::visit_children(c, c.len(), start, parent, grandparent, owner, st),
        ),
    decreases c.len() - k,
{
    let stack = rest + pushed(c, k, start, parent, grandparent);
    if k == c.len() {
        assert(stack =~= rest);
    } else {
        let below = rest + pushed(c, k + 1, start, parent, grandparent);
        lemma_drain_pushed(rest, c, k + 1, start, parent, grandparent, owner, st);
        match c[k as int] {
            GreenElement::Node(n) => {
                assert(stack.drop_last() =~= below);
            },
            GreenElement::Token(_) => {
                assert(stack =~= below);
            },
        }
    }
}

/// How much work the stack stands for. A node counts twice, so that a block may be replaced by the
/// nodes in it and the step that leaves it.
spec fn work(stack: Seq<Event>) -> nat
    decreases stack.len(),
{
    if stack.len() == 0 {
        0
    } else {
        work(stack.drop_last()) + match stack.last() {
            Event::Enter(n, _, _, _) => 2 * green::size(n),
            Event::Leave => 1,
        }
    }
}

proof fn lemma_work_pushed(
    rest: Seq<Event>,
    c: Seq<GreenElement>,
    k: nat,
    start: nat,
    parent: SyntaxKind,
    grandparent: Option<SyntaxKind>,
)
    requires
        k <= c.len(),
    ensures
        work(rest + pushed(c, k, start, parent, grandparent)) == work(rest) + 2 * (green::sizes(
            c,
            c.len(),
        ) - green::sizes(c, k)),
    decreases c.len() - k,
{
    let stack = rest + pushed(c, k, start, parent, grandparent);
    if k == c.len() {
        assert(stack =~= rest);
    } else {
        let below = rest + pushed(c, k + 1, start, parent, grandparent);
        lemma_work_pushed(rest, c, k + 1, start, parent, grandparent);
        match c[k as int] {
            GreenElement::Node(n) => {
                assert(stack.drop_last() =~= below);
            },
            GreenElement::Token(_) => {
                assert(stack =~= below);
            },
        }
    }
}

/// Puts the child nodes on the stack, so that the first one comes off first.
fn push_children<'a>(
    stack: &mut Vec<GreenWalkEvent<'a>>,
    node: &'a GreenNode,
    range: TextRange,
    parent_kind: SyntaxKind,
    grandparent_kind: Option<SyntaxKind>,
)
    requires
        placed(*node, range),
        forall|i: int| 0 <= i < old(stack)@.len() ==> (#[trigger] old(stack)@[i]).wf(),
    ensures
        events(final(stack)@) == events(old(stack)@) + pushed(
            node.children@,
            0,
            range.start.0 as nat,
            parent_kind,
            grandparent_kind,
        ),
        forall|i: int| 0 <= i < final(stack)@.len() ==> (#[trigger] final(stack)@[i]).wf(),
{
    let ghost c = node.children@;
    let ghost start = range.start.0 as nat;
    let ghost before = events(stack@);
    let mut offset: TextSize = range.end;
    let mut k: usize = node.children.len();
    assert(events(stack@) =~= before + pushed(c, k as nat, start, parent_kind, grandparent_kind));
    while k > 0
        invariant
            c == node.children@,
            start == range.start.0,
            k <= c.len(),
            placed(*node, range),
            offset.0 == start + green::prefix_len(c, k as nat),
            forall|i: int| 0 <= i < stack@.len() ==> (#[trigger] stack@[i]).wf(),
            events(stack@) == before + pushed(
                c,
                k as nat,
                start,
                parent_kind,
                grandparent_kind,
            ),
        decreases k,
    {
        k = k - 1;
        proof {
            green::lemma_prefix_len_monotonic(c, (k + 1) as nat, c.len());
            assert(c[k as int].wf());
        }
        let len: u32 = node.children[k].text_len();
        offset = TextSize(offset.0 - len);
        let ghost below = events(stack@);
        assert(offset.0 == start + green::prefix_len(c, k as nat));
        if let GreenElement::Node(child) = &node.children[k] {
            stack.push(
                GreenWalkEvent::Enter {
                    green: child,
                    range: TextRange::at(offset, TextSize(len)),
                    parent_kind,
                    grandparent_kind,
                },
            );
            let ghost event = Event::Enter(
                *child,
                start + green::prefix_len(c, k as nat),
                parent_kind,
                grandparent_kind,
            );
            assert(stack@.last()@ == event);
            assert(events(stack@) =~= below.push(event));
            assert(pushed(c, k as nat, start, parent_kind, grandparent_kind) == pushed(
                c,
                (k + 1) as nat,
                start,
                parent_kind,
                grandparent_kind,
            ).push(event));
            assert(below.push(event) =~= before + pushed(
                c,
                k as nat,
                start,
                parent_kind,
                grandparent_kind,
            ));
        }
    }
}

fn is_item(kind: ErasedFileAstIdKind) -> (r: bool)
    ensures
        r == walk::is_item_kind(kind),
{
    matches!(
        kind,
        ErasedFileAstIdKind::Enum
            | ErasedFileAstIdKind::Struct
            | ErasedFileAstIdKind::Union
            | ErasedFileAstIdKind::ExternCrate
            | ErasedFileAstIdKind::MacroDef
            | ErasedFileAstIdKind::MacroRules
            | ErasedFileAstIdKind::Module
            | ErasedFileAstIdKind::Static
            | ErasedFileAstIdKind::Trait
            | ErasedFileAstIdKind::Const
            | ErasedFileAstIdKind::Fn
            | ErasedFileAstIdKind::TypeAlias
            | ErasedFileAstIdKind::ExternBlock
            | ErasedFileAstIdKind::Use
            | ErasedFileAstIdKind::Impl
    )
}

pub open spec fn walk_state(
    out: Seq<Candidate>,
    next: Seq<LayerItem>,
    open_blocks: BlockStack,
) -> WalkState {
    WalkState {
        out: walk::candidates_view(out),
        next: layer_view(next),
        blocks: small::small(open_blocks),
    }
}

/// Gives a node its place among the candidates, after the block around it where that is still to
/// get one.
fn alloc_candidate<'a>(
    green: &'a GreenNode,
    range: TextRange,
    kind: ErasedFileAstIdKind,
    parent_kind: SyntaxKind,
    grandparent_kind: Option<SyntaxKind>,
    owner: Option<usize>,
    out: &mut Vec<Candidate<'a>>,
    next: &mut Vec<LayerItem<'a>>,
    open_blocks: &mut BlockStack,
)
    requires
        placed(*green, range),
        forall|i: int| 0 <= i < old(next)@.len() ==> (#[trigger] old(next)@[i]).wf(),
    ensures
        walk_state(final(out)@, final(next)@, *final(open_blocks)) == walk::alloc_node(
            *green,
            range.start.0 as nat,
            kind,
            owner_view(owner),
            walk::alloc_block(
                kind,
                parent_kind,
                grandparent_kind,
                owner_view(owner),
                walk_state(old(out)@, old(next)@, *old(open_blocks)),
            ),
        ),
        forall|i: int| 0 <= i < final(next)@.len() ==> (#[trigger] final(next)@[i]).wf(),
{
    let ghost st = walk_state(out@, next@, *open_blocks);
    let ghost mid = walk::alloc_block(
        kind,
        parent_kind,
        grandparent_kind,
        owner_view(owner),
        st,
    );
    let counts = is_item(kind) || (kind == ErasedFileAstIdKind::MacroCall && parent_kind
        == SyntaxKind::MACRO_EXPR && match grandparent_kind {
        Some(k) => k == SyntaxKind::EXPR_STMT || k == SyntaxKind::STMT_LIST,
        None => false,
    });
    if counts {
        if let Some((block_range, has_id)) = small::small_pop(open_blocks) {
            if !has_id {
                let ptr = SyntaxNodePtr::from_kind_and_range(SyntaxKind::BLOCK_EXPR, block_range);
                out.push(
                    Candidate { ptr, kind: ErasedFileAstIdKind::BlockExpr, green: None, owner },
                );
            }
            small::small_push(open_blocks, (block_range, true));
            proof {
                let stack = st.blocks;
                if has_id {
                    assert(stack.drop_last().push(stack.last()) =~= stack);
                }
            }
        }
    }
    assert(walk_state(out@, next@, *open_blocks) =~= mid);
    let place: usize = out.len();
    let ptr = SyntaxNodePtr::from_kind_and_range(green.kind, range);
    out.push(Candidate { ptr, kind, green: Some(green), owner });
    next.push(LayerItem { node: green, range, owner: Some(place) });
    proof {
        let r = walk::alloc_node(*green, range.start.0 as nat, kind, owner_view(owner), mid);
        assert(walk_state(out@, next@, *open_blocks).out =~= r.out);
        assert(walk_state(out@, next@, *open_blocks).next =~= r.next);
    }
}

/// Walks below one node of a layer.
fn walk_below<'a>(
    item: &LayerItem<'a>,
    out: &mut Vec<Candidate<'a>>,
    next: &mut Vec<LayerItem<'a>>,
    open_blocks: &mut BlockStack,
)
    requires
        item.wf(),
        forall|i: int| 0 <= i < old(next)@.len() ==> (#[trigger] old(next)@[i]).wf(),
    ensures
        walk_state(final(out)@, final(next)@, *final(open_blocks)) == walk::visit_root(
            item@,
            walk_state(old(out)@, old(next)@, *old(open_blocks)),
        ),
        forall|i: int| 0 <= i < final(next)@.len() ==> (#[trigger] final(next)@[i]).wf(),
{
    let ghost owner = owner_view(item.owner);
    let ghost st0 = walk_state(out@, next@, *open_blocks);
    let ghost target = walk::visit_root(item@, st0);
    let mut stack: Vec<GreenWalkEvent<'a>> = Vec::new();
    push_children(&mut stack, item.node, item.range, item.node.kind, None);
    proof {
        assert(events(stack@) =~= Seq::<Event>::empty() + pushed(
            item.node.children@,
            0,
            item.range.start.0 as nat,
            item.node.kind,
            None,
        ));
        lemma_drain_pushed(
            Seq::empty(),
            item.node.children@,
            0,
            item.range.start.0 as nat,
            item.node.kind,
            None,
            owner,
            st0,
        );
    }
    while stack.len() > 0
        invariant
            owner == owner_view(item.owner),
            drain(events(stack@), owner, walk_state(out@, next@, *open_blocks)) == target,
            forall|i: int| 0 <= i < stack@.len() ==> (#[trigger] stack@[i]).wf(),
            forall|i: int| 0 <= i < next@.len() ==> (#[trigger] next@[i]).wf(),
        decreases work(events(stack@)),
    {
        let ghost st = walk_state(out@, next@, *open_blocks);
        let ghost full = events(stack@);
        let ghost rest = full.drop_last();
        let event = stack.pop().unwrap();
        assert(events(stack@) =~= rest);
        match event {
            GreenWalkEvent::Enter { green, range, parent_kind, grandparent_kind } => {
                let ghost c = green.children@;
                let ghost start = range.start.0 as nat;
                if green.kind == SyntaxKind::BLOCK_EXPR {
                    small::small_push(open_blocks, (range, false));
                    stack.push(GreenWalkEvent::LeaveBlock);
                    assert(events(stack@) =~= rest.push(Event::Leave));
                    push_children(&mut stack, green, range, green.kind, Some(parent_kind));
                    proof {
                        let entered = walk_state(out@, next@, *open_blocks);
                        let with_leave = rest.push(Event::Leave);
                        lemma_drain_pushed(
                            with_leave,
                            c,
                            0,
                            start,
                            green.kind,
                            Some(parent_kind),
                            owner,
                            entered,
                        );
                        lemma_work_pushed(with_leave, c, 0, start, green.kind, Some(parent_kind));
                        assert(with_leave.drop_last() =~= rest);
                        walk::lemma_visit_children(
                            c,
                            c.len(),
                            start,
                            green.kind,
                            Some(parent_kind),
                            owner,
                            entered,
                        );
                    }
                } else if let Some(kind) = ErasedFileAstId::should_alloc(green.kind) {
                    alloc_candidate(
                        green,
                        range,
                        kind,
                        parent_kind,
                        grandparent_kind,
                        item.owner,
                        out,
                        next,
                        open_blocks,
                    );
                } else {
                    push_children(&mut stack, green, range, green.kind, Some(parent_kind));
                    proof {
                        lemma_drain_pushed(
                            rest,
                            c,
                            0,
                            start,
                            green.kind,
                            Some(parent_kind),
                            owner,
                            st,
                        );
                        lemma_work_pushed(rest, c, 0, start, green.kind, Some(parent_kind));
                    }
                }
            },
            GreenWalkEvent::LeaveBlock => {
                let _ = small::small_pop(open_blocks);
            },
        }
    }
}

/// Finds the nodes of a file that get an id.
pub fn collect<'a>(root: &'a GreenNode) -> (r: Vec<Candidate<'a>>)
    requires
        root.wf(),
    ensures
        walk::candidates_view(r@) == walk::entries(*root),
{
    let range = TextRange::at(TextSize(0), TextSize(root.text_len));
    let mut out: Vec<Candidate<'a>> = Vec::new();
    let ptr = SyntaxNodePtr::from_kind_and_range(root.kind, range);
    out.push(Candidate { ptr, kind: ErasedFileAstIdKind::Root, green: Some(root), owner: None });
    let mut open_blocks = small::small_new();
    let mut curr_layer: Vec<LayerItem<'a>> = Vec::new();
    curr_layer.push(LayerItem { node: root, range, owner: None });
    proof {
        assert(walk::candidates_view(out@) =~= seq![walk::root_entry(*root)]);
        assert(layer_view(curr_layer@) =~= seq![LayerNode { node: *root, start: 0, owner: None }]);
    }
    while curr_layer.len() > 0
        invariant
            walk::visit_layers(layer_view(curr_layer@), walk::candidates_view(out@))
                == walk::entries(*root),
            small::small(open_blocks) == Seq::<(TextRange, bool)>::empty(),
            forall|i: int| 0 <= i < curr_layer@.len() ==> (#[trigger] curr_layer@[i]).wf(),
        decreases walk::layer_size(layer_view(curr_layer@)),
    {
        let ghost layer = layer_view(curr_layer@);
        let ghost st0 = walk::start_state(walk::candidates_view(out@));
        let mut next_layer: Vec<LayerItem<'a>> = Vec::new();
        let mut i: usize = 0;
        assert(walk_state(out@, next_layer@, open_blocks) =~= st0);
        while i < curr_layer.len()
            invariant
                i <= curr_layer@.len(),
                layer == layer_view(curr_layer@),
                walk_state(out@, next_layer@, open_blocks) == walk::visit_layer(
                    layer,
                    i as nat,
                    st0,
                ),
                forall|j: int| 0 <= j < curr_layer@.len() ==> (#[trigger] curr_layer@[j]).wf(),
                forall|j: int| 0 <= j < next_layer@.len() ==> (#[trigger] next_layer@[j]).wf(),
            decreases curr_layer@.len() - i,
        {
            walk_below(&curr_layer[i], &mut out, &mut next_layer, &mut open_blocks);
            i = i + 1;
        }
        proof {
            walk::lemma_visit_layer(layer, layer.len(), st0);
            assert(layer.take(layer.len() as int) =~= layer);
            assert(small::small(open_blocks) =~= Seq::<(TextRange, bool)>::empty());
        }
        std::mem::swap(&mut curr_layer, &mut next_layer);
    }
    out
}

} // verus!
