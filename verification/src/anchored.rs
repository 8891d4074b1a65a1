//! Which items of a file are anchors, told by how the file is written.

use crate::anchors;
use crate::ast_id::ast_id_map::AstIdMap;
use crate::ast_id::erased::ErasedFileAstId;
use crate::ast_id::identity;
use crate::ast_id::laws;
use crate::green;
use crate::green::{GreenElement, GreenNode};
use crate::real_span_map;
use crate::real_span_map::RealSpanMap;
use crate::span::EditionedFileId;
use crate::syntax_kind::SyntaxKind;
use crate::syntax_ptr::SyntaxNodePtr;
use crate::text::TextRange;
use vstd::prelude::*;

verus! {

/// The kinds of the items of a file or a module.
pub open spec fn is_item(kind: SyntaxKind) -> bool {
    ||| kind == SyntaxKind::ASM_EXPR
    ||| kind == SyntaxKind::CONST
    ||| kind == SyntaxKind::ENUM
    ||| kind == SyntaxKind::EXTERN_BLOCK
    ||| kind == SyntaxKind::EXTERN_CRATE
    ||| kind == SyntaxKind::FN
    ||| kind == SyntaxKind::IMPL
    ||| kind == SyntaxKind::MACRO_CALL
    ||| kind == SyntaxKind::MACRO_DEF
    ||| kind == SyntaxKind::MACRO_RULES
    ||| kind == SyntaxKind::MODULE
    ||| kind == SyntaxKind::STATIC
    ||| kind == SyntaxKind::STRUCT
    ||| kind == SyntaxKind::TRAIT
    ||| kind == SyntaxKind::TYPE_ALIAS
    ||| kind == SyntaxKind::UNION
    ||| kind == SyntaxKind::USE
}

/// Whether a node of the kind `owner` has its items in a list of the kind `list`, and a node of the
/// kind `inner` is one of them.
pub open spec fn lists(owner: SyntaxKind, list: SyntaxKind, inner: SyntaxKind) -> bool {
    ||| {
        &&& owner == SyntaxKind::IMPL || owner == SyntaxKind::TRAIT
        &&& list == SyntaxKind::ASSOC_ITEM_LIST
        &&& inner == SyntaxKind::CONST || inner == SyntaxKind::FN || inner == SyntaxKind::MACRO_CALL
            || inner == SyntaxKind::TYPE_ALIAS
    }
    ||| {
        &&& owner == SyntaxKind::EXTERN_BLOCK
        &&& list == SyntaxKind::EXTERN_ITEM_LIST
        &&& inner == SyntaxKind::FN || inner == SyntaxKind::MACRO_CALL || inner
            == SyntaxKind::STATIC || inner == SyntaxKind::TYPE_ALIAS
    }
    ||| {
        &&& owner == SyntaxKind::MODULE
        &&& list == SyntaxKind::ITEM_LIST
        &&& is_item(inner)
    }
}

pub open spec fn node_at(c: Seq<GreenElement>, i: int, n: GreenNode) -> bool {
    0 <= i < c.len() && c[i] == GreenElement::Node(n)
}

/// Whether none of the first `i` elements is a node of the kind.
pub open spec fn none_before(c: Seq<GreenElement>, i: int, kind: SyntaxKind) -> bool {
    forall|j: int|
        #![trigger c[j]]
        0 <= j < i && j < c.len() && c[j] is Node ==> c[j]->Node_0.kind != kind
}

pub open spec fn has_no_attr(n: GreenNode) -> bool {
    none_before(n.children@, n.children@.len() as int, SyntaxKind::ATTR)
}

/// An item of the file, at the place `i` among its children.
pub open spec fn is_top_level(tree: GreenNode, i: int, item: GreenNode) -> bool {
    node_at(tree.children@, i, item) && is_item(item.kind)
}

/// An item in the list of items of an item of the file, where neither the item nor the list has an
/// attribute. `i`, `k` and `m` are the places of the item, of the list in it, and of the inner item
/// in the list.
pub ghost struct Nested {
    pub i: int,
    pub item: GreenNode,
    pub k: int,
    pub list: GreenNode,
    pub m: int,
    pub inner: GreenNode,
}

impl Nested {
    pub open spec fn is_in(self, tree: GreenNode) -> bool {
        &&& is_top_level(tree, self.i, self.item)
        &&& node_at(self.item.children@, self.k, self.list)
        &&& none_before(self.item.children@, self.k, self.list.kind)
        &&& node_at(self.list.children@, self.m, self.inner)
        &&& lists(self.item.kind, self.list.kind, self.inner.kind)
        &&& has_no_attr(self.item)
        &&& has_no_attr(self.list)
    }

    /// Where the inner item starts.
    pub open spec fn start(self, tree: GreenNode) -> nat {
        green::prefix_len(tree.children@, self.i as nat) + green::prefix_len(
            self.item.children@,
            self.k as nat,
        ) + green::prefix_len(self.list.children@, self.m as nat)
    }
}

/// Whether the pointer is for a node at the offset `start`.
pub open spec fn points_at(ptr: SyntaxNodePtr, n: GreenNode, start: nat) -> bool {
    &&& ptr.kind == n.kind
    &&& ptr.range.start.0 == start
    &&& ptr.range.end.0 == start + n.text_len
}

proof fn lemma_item_listed(
    owner: SyntaxKind,
    c: Seq<GreenElement>,
    i: nat,
    start: nat,
    m: int,
    n: GreenNode,
) -> (j: int)
    requires
        i <= c.len(),
        0 <= m < i,
        node_at(c, m, n),
        anchors::spec_is_item_of(owner, n.kind),
    ensures
        0 <= j < anchors::item_ptrs(owner, c, i, start).len(),
        anchors::item_ptrs(owner, c, i, start)[j] == laws::ptr_at(
            n,
            start + green::prefix_len(c, m as nat),
        ),
    decreases i,
{
    let before = anchors::item_ptrs(owner, c, (i - 1) as nat, start);
    if m == i - 1 {
        before.len() as int
    } else {
        lemma_item_listed(owner, c, (i - 1) as nat, start, m, n)
    }
}

proof fn lemma_listed_item(owner: SyntaxKind, c: Seq<GreenElement>, i: nat, start: nat, j: int) -> (r:
    (int, GreenNode))
    requires
        i <= c.len(),
        0 <= j < anchors::item_ptrs(owner, c, i, start).len(),
    ensures
        node_at(c, r.0, r.1),
        anchors::spec_is_item_of(owner, r.1.kind),
        anchors::item_ptrs(owner, c, i, start)[j] == laws::ptr_at(
            r.1,
            start + green::prefix_len(c, r.0 as nat),
        ),
    decreases i,
{
    let before = anchors::item_ptrs(owner, c, (i - 1) as nat, start);
    if j < before.len() {
        lemma_listed_item(owner, c, (i - 1) as nat, start, j)
    } else {
        (i - 1, c[i - 1]->Node_0)
    }
}

proof fn lemma_child_at(c: Seq<GreenElement>, kind: SyntaxKind, i: nat)
    ensures
        anchors::child_index(c, kind, i) matches Some(k) ==> {
            &&& i <= k < c.len()
            &&& c[k as int] is Node && c[k as int]->Node_0.kind == kind
            &&& forall|j: int|
                #![trigger c[j]]
                i <= j < k && c[j] is Node ==> c[j]->Node_0.kind != kind
        },
        anchors::child_index(c, kind, i) is None ==> forall|j: int|
            #![trigger c[j]]
            i <= j < c.len() && c[j] is Node ==> c[j]->Node_0.kind != kind,
    decreases c.len() - i,
{
    if i < c.len() {
        lemma_child_at(c, kind, i + 1);
    }
}

proof fn lemma_first_child(c: Seq<GreenElement>, kind: SyntaxKind)
    ensures
        identity::first_child(c, kind) is None <==> none_before(c, c.len() as int, kind),
    decreases c.len(),
{
    if c.len() > 0 {
        let rest = c.skip(1);
        lemma_first_child(rest, kind);
        assert forall|j: int| 0 <= j < rest.len() implies c[j + 1] == #[trigger] rest[j] by {}
        if none_before(rest, rest.len() as int, kind) {
            assert forall|j: int|
                #![trigger c[j]]
                1 <= j < c.len() && c[j] is Node implies c[j]->Node_0.kind != kind by {
                assert(rest[j - 1] == c[j]);
            }
        }
        if none_before(c, c.len() as int, kind) {
            assert(none_before(rest, rest.len() as int, kind));
        }
    }
}

proof fn lemma_anchor_listed(c: Seq<GreenElement>, n: nat, i: int, item: GreenNode) -> (j: int)
    requires
        0 <= i < n <= c.len(),
        node_at(c, i, item),
        is_item(item.kind),
    ensures
        ({
            let start = green::prefix_len(c, i as nat);
            let nested = anchors::nested_ptrs(item, start);
            let all = anchors::anchor_ptrs(c, n);
            &&& 0 <= j
            &&& j + nested.len() < all.len()
            &&& all[j] == laws::ptr_at(item, start)
            &&& forall|x: int| 0 <= x < nested.len() ==> all[j + 1 + x] == #[trigger] nested[x]
        }),
    decreases n,
{
    let before = anchors::anchor_ptrs(c, (n - 1) as nat);
    if i == n - 1 {
        before.len() as int
    } else {
        lemma_anchor_listed(c, (n - 1) as nat, i, item)
    }
}

/// Every item of a file is an anchor.
pub proof fn items_are_anchors(tree: GreenNode, i: int, item: GreenNode)
    requires
        tree.wf(),
        is_top_level(tree, i, item),
    ensures
        exists|j: int|
            0 <= j < anchors::anchors_of(tree).len() && points_at(
                #[trigger] anchors::anchors_of(tree)[j],
                item,
                green::prefix_len(tree.children@, i as nat),
            ),
{
    let c = tree.children@;
    let j = lemma_anchor_listed(c, c.len(), i, item);
    green::lemma_prefix_len_monotonic(c, (i + 1) as nat, c.len());
    assert(c[i].wf());
    assert(points_at(
        anchors::anchors_of(tree)[j],
        item,
        green::prefix_len(c, i as nat),
    ));
}

proof fn lemma_nested_fits(tree: GreenNode, x: Nested)
    requires
        tree.wf(),
        x.is_in(tree),
    ensures
        x.start(tree) + x.inner.text_len <= u32::MAX,
{
    let c = tree.children@;
    assert(c[x.i].wf());
    assert(x.item.children@[x.k].wf());
    assert(x.list.children@[x.m].wf());
    green::lemma_prefix_len_monotonic(c, (x.i + 1) as nat, c.len());
    green::lemma_prefix_len_monotonic(
        x.item.children@,
        (x.k + 1) as nat,
        x.item.children@.len(),
    );
    green::lemma_prefix_len_monotonic(
        x.list.children@,
        (x.m + 1) as nat,
        x.list.children@.len(),
    );
}

/// Every item in an impl, a trait, a module or an extern block of a file is an anchor, if that has no
/// attributes, outer or inner.
pub proof fn items_in_items_without_attributes_are_anchors(tree: GreenNode, x: Nested)
    requires
        tree.wf(),
        x.is_in(tree),
    ensures
        exists|j: int|
            0 <= j < anchors::anchors_of(tree).len() && points_at(
                #[trigger] anchors::anchors_of(tree)[j],
                x.inner,
                x.start(tree),
            ),
{
    let c = tree.children@;
    let start = green::prefix_len(c, x.i as nat);
    let j = lemma_anchor_listed(c, c.len(), x.i, x.item);
    lemma_child_at(x.item.children@, x.list.kind, 0);
    lemma_first_child(x.item.children@, SyntaxKind::ATTR);
    lemma_first_child(x.list.children@, SyntaxKind::ATTR);
    let found = anchors::child_index(x.item.children@, x.list.kind, 0);
    assert(x.item.children@[x.k] is Node);
    assert(found is Some);
    assert(found->0 == x.k) by {
        assert(x.item.children@[found->0 as int] is Node);
    }
    let list_start = start + green::prefix_len(x.item.children@, x.k as nat);
    let m = lemma_item_listed(
        x.item.kind,
        x.list.children@,
        x.list.children@.len(),
        list_start,
        x.m,
        x.inner,
    );
    lemma_nested_fits(tree, x);
    let nested = anchors::nested_ptrs(x.item, start);
    assert(anchors::anchors_of(tree)[j + 1 + m] == nested[m]);
    assert(points_at(anchors::anchors_of(tree)[j + 1 + m], x.inner, x.start(tree)));
}

proof fn lemma_anchor_origin(c: Seq<GreenElement>, n: nat, j: int) -> (r: (int, GreenNode, Option<int>))
    requires
        n <= c.len(),
        0 <= j < anchors::anchor_ptrs(c, n).len(),
    ensures
        node_at(c, r.0, r.1),
        is_item(r.1.kind),
        ({
            let start = green::prefix_len(c, r.0 as nat);
            match r.2 {
                None => anchors::anchor_ptrs(c, n)[j] == laws::ptr_at(r.1, start),
                Some(x) => {
                    let nested = anchors::nested_ptrs(r.1, start);
                    0 <= x < nested.len() && anchors::anchor_ptrs(c, n)[j] == nested[x]
                },
            }
        }),
    decreases n,
{
    let before = anchors::anchor_ptrs(c, (n - 1) as nat);
    if j < before.len() {
        lemma_anchor_origin(c, (n - 1) as nat, j)
    } else {
        let item = c[n - 1]->Node_0;
        if j == before.len() {
            (n - 1, item, None)
        } else {
            (n - 1, item, Some(j - before.len() - 1))
        }
    }
}

/// Nothing else is an anchor.
pub proof fn only_items_are_anchors(tree: GreenNode, j: int)
    requires
        tree.wf(),
        0 <= j < anchors::anchors_of(tree).len(),
    ensures
        (exists|i: int, item: GreenNode| #[trigger]
            is_top_level(tree, i, item) && points_at(
                anchors::anchors_of(tree)[j],
                item,
                green::prefix_len(tree.children@, i as nat),
            )) || (exists|x: Nested| #[trigger]
            x.is_in(tree) && points_at(anchors::anchors_of(tree)[j], x.inner, x.start(tree))),
{
    let c = tree.children@;
    let (i, item, within) = lemma_anchor_origin(c, c.len(), j);
    let start = green::prefix_len(c, i as nat);
    assert(c[i].wf());
    green::lemma_prefix_len_monotonic(c, (i + 1) as nat, c.len());
    if let Some(x) = within {
        let kind = anchors::spec_list_kind(item.kind)->0;
        lemma_child_at(item.children@, kind, 0);
        let k = anchors::child_index(item.children@, kind, 0)->0 as int;
        let list = item.children@[k]->Node_0;
        lemma_first_child(item.children@, SyntaxKind::ATTR);
        lemma_first_child(list.children@, SyntaxKind::ATTR);
        let (m, inner) = lemma_listed_item(
            item.kind,
            list.children@,
            list.children@.len(),
            start + green::prefix_len(item.children@, k as nat),
            x,
        );
        let nested = Nested { i, item, k, list, m, inner };
        assert(nested.is_in(tree));
        lemma_nested_fits(tree, nested);
        assert(points_at(anchors::anchors_of(tree)[j], nested.inner, nested.start(tree)));
    } else {
        assert(is_top_level(tree, i, item));
        assert(points_at(anchors::anchors_of(tree)[j], item, start));
    }
}

/// The span map of a file has the id of every anchor at the offset where it starts.
pub proof fn span_maps_hold_the_anchors(
    file_id: EditionedFileId,
    tree: GreenNode,
    ast_id_map: AstIdMap,
    map: RealSpanMap,
    j: int,
)
    requires
        call_ensures(anchors::real_span_map, (file_id, &tree, &ast_id_map), map),
        0 <= j < anchors::anchors_of(tree).len(),
    ensures
        exists|p: int, id: ErasedFileAstId|
            #![trigger map.pairs@[p], ast_id_map@.contains((anchors::anchors_of(tree)[j], id))]
            0 < p < map.pairs@.len() && map.pairs@[p] == (
                anchors::anchors_of(tree)[j].range.start,
                id,
            ) && ast_id_map@.contains((anchors::anchors_of(tree)[j], id)),
{
    let anchor = anchors::anchors_of(tree)[j];
    let id = map.pairs@[j + 1].1;
    assert(ast_id_map@.contains((anchor, id)));
}

/// The span of a range is relative to the last anchor that starts at or before it: it has the id of
/// that anchor, and its range counts from there.
pub proof fn spans_are_relative_to_the_last_anchor(map: RealSpanMap, range: TextRange, p: int)
    requires
        map.wf(),
        range.wf(),
        0 <= p < map.pairs@.len(),
        map.pairs@[p].0.0 <= range.start.0,
        p + 1 < map.pairs@.len() ==> range.start.0 < map.pairs@[p + 1].0.0,
    ensures
        map.spec_span_for_range(range).anchor.ast_id == map.pairs@[p].1,
        map.spec_span_for_range(range).anchor.file_id == map.file_id,
        map.spec_span_for_range(range).range.start.0 == range.start.0 - map.pairs@[p].0.0,
        map.spec_span_for_range(range).range.end.0 == range.end.0 - map.pairs@[p].0.0,
{
    assert forall|j: int| p + 1 <= j < map.pairs@.len() implies (#[trigger] map.pairs@[j]).0.0
        > range.start.0 by {
        if j > p + 1 {
            assert(map.pairs@[p + 1].0.0 <= map.pairs@[j].0.0);
        }
    }
    real_span_map::lemma_anchor_at(map.pairs@, range.start.0, p + 1);
}

} // verus!
