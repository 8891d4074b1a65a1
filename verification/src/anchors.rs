//! The anchors of a file: which nodes the spans of its text are relative to.
//!
//! Ranges from the start of the file would change whenever something in front of them does. So spans
//! are relative to the items of the file, and to the items in those that have no attributes. An
//! attribute may be a macro, which can only join spans with the same anchor.

use crate::ast;
use crate::ast::AstNode;
use crate::ast_id::erased;
use crate::ast_id::erased::ErasedFileAstId;
use crate::ast_id::identity;
use crate::ast_id::laws;
use crate::ast_id::ast_id_map;
use crate::ast_id::ast_id_map::AstIdMap;
use crate::ast_id::walk;
use crate::green;
use crate::green::{GreenElement, GreenNode};
use crate::real_span_map;
use crate::real_span_map::RealSpanMap;
use crate::span::{EditionedFileId, Span};
use crate::span_map;
use crate::syntax_kind::SyntaxKind;
use crate::syntax_ptr::SyntaxNodePtr;
use crate::text::{TextRange, TextSize};
use vstd::prelude::*;

verus! {

/// Whether a node of the kind `kind` is an item of a node of the kind `owner`.
pub open spec fn spec_is_item_of(owner: SyntaxKind, kind: SyntaxKind) -> bool {
    match owner {
        SyntaxKind::EXTERN_BLOCK => {
            ||| kind == SyntaxKind::FN
            ||| kind == SyntaxKind::MACRO_CALL
            ||| kind == SyntaxKind::STATIC
            ||| kind == SyntaxKind::TYPE_ALIAS
        },
        SyntaxKind::IMPL | SyntaxKind::TRAIT => ast::AssocItem::castable(kind),
        _ => ast::Item::castable(kind),
    }
}

fn is_item_of(owner: SyntaxKind, kind: SyntaxKind) -> (r: bool)
    ensures
        r == spec_is_item_of(owner, kind),
{
    match owner {
        SyntaxKind::EXTERN_BLOCK => matches!(
            kind,
            SyntaxKind::FN
                | SyntaxKind::MACRO_CALL
                | SyntaxKind::STATIC
                | SyntaxKind::TYPE_ALIAS
        ),
        SyntaxKind::IMPL | SyntaxKind::TRAIT => ast::AssocItem::can_cast(kind),
        _ => ast::Item::can_cast(kind),
    }
}

/// The items among the first `i` elements, which start at the offset `start`.
pub open spec fn item_ptrs(
    owner: SyntaxKind,
    c: Seq<GreenElement>,
    i: nat,
    start: nat,
) -> Seq<SyntaxNodePtr>
    decreases i,
{
    if i == 0 {
        Seq::empty()
    } else {
        let before = item_ptrs(owner, c, (i - 1) as nat, start);
        match c[i - 1] {
            GreenElement::Node(n) if spec_is_item_of(owner, n.kind) => before.push(
                laws::ptr_at(n, start + green::prefix_len(c, (i - 1) as nat)),
            ),
            _ => before,
        }
    }
}

/// The kind of the node that holds the items of an item.
pub open spec fn spec_list_kind(kind: SyntaxKind) -> Option<SyntaxKind> {
    match kind {
        SyntaxKind::EXTERN_BLOCK => Some(SyntaxKind::EXTERN_ITEM_LIST),
        SyntaxKind::IMPL | SyntaxKind::TRAIT => Some(SyntaxKind::ASSOC_ITEM_LIST),
        SyntaxKind::MODULE => Some(SyntaxKind::ITEM_LIST),
        _ => None,
    }
}

fn list_kind(kind: SyntaxKind) -> (r: Option<SyntaxKind>)
    ensures
        r == spec_list_kind(kind),
{
    match kind {
        SyntaxKind::EXTERN_BLOCK => Some(SyntaxKind::EXTERN_ITEM_LIST),
        SyntaxKind::IMPL | SyntaxKind::TRAIT => Some(SyntaxKind::ASSOC_ITEM_LIST),
        SyntaxKind::MODULE => Some(SyntaxKind::ITEM_LIST),
        _ => None,
    }
}

/// Where the first child node of the kind is, at or after the index `i`.
pub open spec fn child_index(c: Seq<GreenElement>, kind: SyntaxKind, i: nat) -> Option<nat>
    decreases c.len() - i,
{
    if i >= c.len() {
        None
    } else {
        match c[i as int] {
            GreenElement::Node(n) if n.kind == kind => Some(i),
            _ => child_index(c, kind, i + 1),
        }
    }
}

/// Whether an item, or the list of its items, has an attribute.
pub open spec fn has_attr(c: Seq<GreenElement>) -> bool {
    identity::first_child(c, SyntaxKind::ATTR) is Some
}

/// The items of an item that starts at `start`, unless it has attributes.
pub open spec fn nested_ptrs(n: GreenNode, start: nat) -> Seq<SyntaxNodePtr> {
    match spec_list_kind(n.kind) {
        Some(list_kind) => match child_index(n.children@, list_kind, 0) {
            Some(i) => match n.children@[i as int] {
                GreenElement::Node(list) => if has_attr(n.children@) || has_attr(list.children@) {
                    Seq::empty()
                } else {
                    item_ptrs(
                        n.kind,
                        list.children@,
                        list.children@.len(),
                        start + green::prefix_len(n.children@, i),
                    )
                },
                GreenElement::Token(_) => Seq::empty(),
            },
            None => Seq::empty(),
        },
        None => Seq::empty(),
    }
}

/// The anchors in the first `i` elements of a file: each item with the items in it behind it.
pub open spec fn anchor_ptrs(c: Seq<GreenElement>, i: nat) -> Seq<SyntaxNodePtr>
    decreases i,
{
    if i == 0 {
        Seq::empty()
    } else {
        let before = anchor_ptrs(c, (i - 1) as nat);
        let start = green::prefix_len(c, (i - 1) as nat);
        match c[i - 1] {
            GreenElement::Node(n) if spec_is_item_of(SyntaxKind::SOURCE_FILE, n.kind) =>
                before.push(laws::ptr_at(n, start)) + nested_ptrs(n, start),
            _ => before,
        }
    }
}

/// Appends the items among the children of `list`, which starts at `start`.
fn push_item_ptrs(
    owner: SyntaxKind,
    list: &GreenNode,
    start: TextSize,
    out: &mut Vec<SyntaxNodePtr>,
)
    requires
        list.wf(),
        start.0 + list.text_len <= u32::MAX,
    ensures
        final(out)@ == old(out)@ + item_ptrs(
            owner,
            list.children@,
            list.children@.len(),
            start.0 as nat,
        ),
{
    let ghost before = out@;
    let ghost c = list.children@;
    let mut offset: u32 = start.0;
    let mut i: usize = 0;
    assert(out@ =~= before + item_ptrs(owner, c, 0, start.0 as nat));
    while i < list.children.len()
        invariant
            c == list.children@,
            i <= c.len(),
            list.wf(),
            start.0 + list.text_len <= u32::MAX,
            offset == start.0 + green::prefix_len(c, i as nat),
            out@ == before + item_ptrs(owner, c, i as nat, start.0 as nat),
        decreases c.len() - i,
    {
        proof {
            green::lemma_prefix_len_monotonic(c, (i + 1) as nat, c.len());
        }
        let len: u32 = list.children[i].text_len();
        if let GreenElement::Node(child) = &list.children[i] {
            if is_item_of(owner, child.kind) {
                let range = TextRange::at(TextSize(offset), TextSize(len));
                out.push(SyntaxNodePtr::from_kind_and_range(child.kind, range));
                assert(out@ =~= before + item_ptrs(owner, c, (i + 1) as nat, start.0 as nat));
            }
        }
        offset = offset + len;
        i = i + 1;
    }
}

/// The items of a file.
pub fn top_level_item_ptrs(tree: &GreenNode) -> (r: Vec<SyntaxNodePtr>)
    requires
        tree.wf(),
    ensures
        r@ == item_ptrs(SyntaxKind::SOURCE_FILE, tree.children@, tree.children@.len(), 0),
{
    let mut r: Vec<SyntaxNodePtr> = Vec::new();
    push_item_ptrs(SyntaxKind::SOURCE_FILE, tree, TextSize(0), &mut r);
    r
}

/// Appends the items in an item that starts at `start`, unless it has attributes.
fn push_nested_ptrs(item: &GreenNode, start: TextSize, out: &mut Vec<SyntaxNodePtr>)
    requires
        item.wf(),
        start.0 + item.text_len <= u32::MAX,
    ensures
        final(out)@ == old(out)@ + nested_ptrs(*item, start.0 as nat),
{
    let ghost before = out@;
    let ghost c = item.children@;
    assert(before + Seq::<SyntaxNodePtr>::empty() =~= before);
    let kind = match list_kind(item.kind) {
        Some(kind) => kind,
        None => {
            return;
        },
    };
    let mut offset: u32 = start.0;
    let mut i: usize = 0;
    while i < item.children.len()
        invariant
            c == item.children@,
            i <= c.len(),
            item.wf(),
            before == out@,
            before + Seq::<SyntaxNodePtr>::empty() == before,
            before == old(out)@,
            start.0 + item.text_len <= u32::MAX,
            spec_list_kind(item.kind) == Some(kind),
            offset == start.0 + green::prefix_len(c, i as nat),
            child_index(c, kind, 0) == child_index(c, kind, i as nat),
        decreases c.len() - i,
    {
        proof {
            green::lemma_prefix_len_monotonic(c, (i + 1) as nat, c.len());
            assert(c[i as int].wf());
        }
        if let GreenElement::Node(list) = &item.children[i] {
            if list.kind == kind {
                if identity::find_child(item, SyntaxKind::ATTR).is_none() && identity::find_child(
                    list,
                    SyntaxKind::ATTR,
                ).is_none() {
                    push_item_ptrs(item.kind, list, TextSize(offset), out);
                }
                return;
            }
        }
        offset = offset + item.children[i].text_len();
        i = i + 1;
    }
}

/// The anchors of a file, in the order of the text.
pub fn file_anchors(tree: &GreenNode) -> (r: Vec<SyntaxNodePtr>)
    requires
        tree.wf(),
    ensures
        r@ == anchor_ptrs(tree.children@, tree.children@.len()),
{
    let ghost c = tree.children@;
    let mut out: Vec<SyntaxNodePtr> = Vec::new();
    let mut offset: u32 = 0;
    let mut i: usize = 0;
    while i < tree.children.len()
        invariant
            c == tree.children@,
            i <= c.len(),
            tree.wf(),
            offset == green::prefix_len(c, i as nat),
            out@ == anchor_ptrs(c, i as nat),
        decreases c.len() - i,
    {
        proof {
            green::lemma_prefix_len_monotonic(c, (i + 1) as nat, c.len());
            assert(c[i as int].wf());
        }
        let len: u32 = tree.children[i].text_len();
        if let GreenElement::Node(child) = &tree.children[i] {
            if is_item_of(SyntaxKind::SOURCE_FILE, child.kind) {
                let range = TextRange::at(TextSize(offset), TextSize(len));
                out.push(SyntaxNodePtr::from_kind_and_range(child.kind, range));
                push_nested_ptrs(child, TextSize(offset), &mut out);
            }
        }
        offset = offset + len;
        i = i + 1;
    }
    out
}

/// The nodes start one behind the other, between two offsets.
spec fn ordered_between(p: Seq<SyntaxNodePtr>, from: nat, to: nat) -> bool {
    &&& forall|i: int| 0 <= i < p.len() ==> from <= (#[trigger] p[i]).range.start.0 <= to
    &&& forall|i: int, j: int|
        0 <= i < j < p.len() ==> (#[trigger] p[i]).range.start.0 <= (
        #[trigger] p[j]).range.start.0
}

proof fn lemma_item_ptrs_ordered(owner: SyntaxKind, c: Seq<GreenElement>, i: nat, start: nat)
    requires
        i <= c.len(),
        start + green::prefix_len(c, i) <= u32::MAX,
    ensures
        ordered_between(
            item_ptrs(owner, c, i, start),
            start,
            start + green::prefix_len(c, i),
        ),
    decreases i,
{
    if i > 0 {
        lemma_item_ptrs_ordered(owner, c, (i - 1) as nat, start);
    }
}

proof fn lemma_child_index(c: Seq<GreenElement>, kind: SyntaxKind, i: nat)
    ensures
        child_index(c, kind, i) matches Some(k) ==> i <= k < c.len() && (
        c[k as int] matches GreenElement::Node(n) && n.kind == kind),
    decreases c.len() - i,
{
    if i < c.len() {
        lemma_child_index(c, kind, i + 1);
    }
}

proof fn lemma_nested_ordered(n: GreenNode, start: nat)
    requires
        n.wf(),
        start + n.text_len <= u32::MAX,
    ensures
        ordered_between(nested_ptrs(n, start), start, start + n.text_len as nat),
{
    if let Some(list_kind) = spec_list_kind(n.kind) {
        let c = n.children@;
        lemma_child_index(c, list_kind, 0);
        if let Some(k) = child_index(c, list_kind, 0) {
            if let GreenElement::Node(list) = c[k as int] {
                assert(c[k as int].wf());
                green::lemma_prefix_len_monotonic(c, k + 1, c.len());
                lemma_item_ptrs_ordered(
                    n.kind,
                    list.children@,
                    list.children@.len(),
                    start + green::prefix_len(c, k),
                );
            }
        }
    }
}

proof fn lemma_anchors_ordered(c: Seq<GreenElement>, i: nat)
    requires
        i <= c.len(),
        forall|k: int| 0 <= k < c.len() ==> (#[trigger] c[k]).wf(),
        green::prefix_len(c, i) <= u32::MAX,
    ensures
        ordered_between(anchor_ptrs(c, i), 0, green::prefix_len(c, i)),
    decreases i,
{
    if i > 0 {
        lemma_anchors_ordered(c, (i - 1) as nat);
        if let GreenElement::Node(n) = c[i - 1] {
            assert(c[i - 1].wf());
            lemma_nested_ordered(n, green::prefix_len(c, (i - 1) as nat));
        }
    }
}

/// The nodes that the spans of a file are relative to.
pub open spec fn anchors_of(tree: GreenNode) -> Seq<SyntaxNodePtr> {
    anchor_ptrs(tree.children@, tree.children@.len())
}

/// The span map of a file. The file comes first, then its items, each followed by the items in it
/// that are anchors too.
pub fn real_span_map(
    file_id: EditionedFileId,
    tree: &GreenNode,
    ast_id_map: &AstIdMap,
) -> (r: RealSpanMap)
    requires
        tree.wf(),
        ast_id_map.wf(),
        forall|i: int|
            0 <= i < anchors_of(*tree).len() ==> ast_id_map.has_ptr(
                #[trigger] anchors_of(*tree)[i],
            ),
    ensures
        r.wf(),
        r.file_id == file_id,
        r.end.0 == tree.text_len,
        r.pairs@.len() == anchors_of(*tree).len() + 1,
        r.pairs@[0] == (TextSize(0), erased::spec_root()),
        forall|i: int|
            0 <= i < anchors_of(*tree).len() ==> {
                let anchor = #[trigger] anchors_of(*tree)[i];
                &&& r.pairs@[i + 1].0 == anchor.range.start
                &&& ast_id_map@.contains((anchor, r.pairs@[i + 1].1))
            },
{
    let ghost all = anchors_of(*tree);
    let ptrs = file_anchors(tree);
    let mut pairs: Vec<(TextSize, ErasedFileAstId)> = Vec::with_capacity(ptrs.len());
    pairs.push((TextSize(0), erased::ROOT_ERASED_FILE_AST_ID()));
    let mut i: usize = 0;
    while i < ptrs.len()
        invariant
            i <= ptrs@.len(),
            ptrs@ == all,
            all == anchors_of(*tree),
            ast_id_map.wf(),
            forall|j: int| 0 <= j < all.len() ==> ast_id_map.has_ptr(#[trigger] all[j]),
            pairs@.len() == i + 1,
            pairs@[0] == (TextSize(0), erased::spec_root()),
            forall|j: int|
                0 <= j < i ==> {
                    let anchor = #[trigger] all[j];
                    &&& pairs@[j + 1].0 == anchor.range.start
                    &&& ast_id_map@.contains((anchor, pairs@[j + 1].1))
                },
        decreases ptrs@.len() - i,
    {
        let ptr = ptrs[i];
        assert(ast_id_map.has_ptr(all[i as int]));
        pairs.push((ptr.text_range().start, ast_id_map.erased_ast_id_for_ptr(ptr)));
        i = i + 1;
    }
    proof {
        lemma_anchors_ordered(tree.children@, tree.children@.len());
        assert forall|a: int, b: int| 0 <= a < b < pairs@.len() implies (#[trigger] pairs@[a]).0.0
            <= (#[trigger] pairs@[b]).0.0 by {
            assert(pairs@[b].0 == all[b - 1].range.start);
            if a > 0 {
                assert(pairs@[a].0 == all[a - 1].range.start);
            }
        }
    }
    RealSpanMap::from_file(file_id, pairs, TextSize(tree.text_len))
}

proof fn lemma_item_ptrs_occur(
    owner: SyntaxKind,
    c: Seq<GreenElement>,
    i: nat,
    start: nat,
    j: int,
) -> (r: (GreenNode, nat))
    requires
        i <= c.len(),
        0 <= j < item_ptrs(owner, c, i, start).len(),
    ensures
        laws::ptr_at(r.0, r.1) == item_ptrs(owner, c, i, start)[j],
        identity::spec_should_alloc(r.0.kind) is Some,
        laws::occurs_below(r.0, r.1, c, start),
    decreases i,
{
    let before = item_ptrs(owner, c, (i - 1) as nat, start);
    if j < before.len() {
        lemma_item_ptrs_occur(owner, c, (i - 1) as nat, start, j)
    } else {
        let at = start + green::prefix_len(c, (i - 1) as nat);
        match c[i - 1] {
            GreenElement::Node(n) => {
                assert(laws::occurs_in(n, at, n, at));
                (n, at)
            },
            GreenElement::Token(_) => arbitrary(),
        }
    }
}

proof fn lemma_anchor_occurs(c: Seq<GreenElement>, i: nat, j: int) -> (r: (GreenNode, nat))
    requires
        i <= c.len(),
        0 <= j < anchor_ptrs(c, i).len(),
    ensures
        laws::ptr_at(r.0, r.1) == anchor_ptrs(c, i)[j],
        identity::spec_should_alloc(r.0.kind) is Some,
        laws::occurs_below(r.0, r.1, c, 0),
    decreases i,
{
    let before = anchor_ptrs(c, (i - 1) as nat);
    let start = green::prefix_len(c, (i - 1) as nat);
    if j < before.len() {
        assert(anchor_ptrs(c, i)[j] == before[j]);
        lemma_anchor_occurs(c, (i - 1) as nat, j)
    } else {
        match c[i - 1] {
            GreenElement::Node(n) => {
                if j == before.len() {
                    assert(laws::occurs_in(n, start, n, start));
                    (n, start)
                } else {
                    let nested = nested_ptrs(n, start);
                    let k = j - before.len() - 1;
                    assert(anchor_ptrs(c, i)[j] == nested[k]);
                    let inner = n.children@;
                    let list_kind = spec_list_kind(n.kind)->0;
                    lemma_child_index(inner, list_kind, 0);
                    let at = child_index(inner, list_kind, 0)->0;
                    let list = inner[at as int]->Node_0;
                    let list_start = start + green::prefix_len(inner, at);
                    let r = lemma_item_ptrs_occur(
                        n.kind,
                        list.children@,
                        list.children@.len(),
                        list_start,
                        k,
                    );
                    assert(laws::occurs_in(r.0, r.1, list, list_start));
                    assert(inner[at as int] matches GreenElement::Node(m) && m == list);
                    assert(laws::occurs_below(r.0, r.1, inner, start));
                    assert(laws::occurs_in(r.0, r.1, n, start));
                    assert(c[i - 1] matches GreenElement::Node(m) && m == n);
                    r
                }
            },
            GreenElement::Token(_) => arbitrary(),
        }
    }
}

/// Every anchor of a file has an id in the map of the file.
pub proof fn anchors_have_ids(tree: GreenNode, hashes: Seq<u64>, ast_id_map: AstIdMap, i: int)
    requires
        ast_id_map@ == ast_id_map::with_ids(walk::entries(tree), hashes),
        0 <= i < anchors_of(tree).len(),
    ensures
        ast_id_map.has_ptr(anchors_of(tree)[i]),
{
    let r = lemma_anchor_occurs(tree.children@, tree.children@.len(), i);
    ast_id_map::all_candidates_have_ids(tree, hashes, ast_id_map, r.0, r.1);
}

/// The span map of the expansion of a macro.
pub type ExpansionSpanMap = span_map::SpanMap;

/// The span map of a file, be it a real one or the expansion of a macro.
pub enum SpanMap<'db> {
    ExpansionSpanMap(&'db ExpansionSpanMap),
    RealSpanMap(&'db RealSpanMap),
}

impl<'db> SpanMap<'db> {
    /// Whether the range lies in the text that the map is for.
    pub open spec fn covers(self, range: TextRange) -> bool {
        match self {
            SpanMap::ExpansionSpanMap(m) => {
                &&& m.wf()
                &&& m@.len() > 0
                &&& range.start.0 < m@.last().0.0
            },
            SpanMap::RealSpanMap(m) => {
                &&& m.wf()
                &&& range.wf()
                &&& range.end.0 <= m.end.0
            },
        }
    }

    /// The span of a range. In an expansion it is the span at the start of the range.
    pub fn span_for_range(&self, range: TextRange) -> (r: Span)
        requires
            self.covers(range),
        ensures
            match self {
                SpanMap::ExpansionSpanMap(m) => r == m@[span_map::ended_by(
                    m@,
                    range.start.0 as int,
                ) as int].1,
                SpanMap::RealSpanMap(m) => r == m.spec_span_for_range(range),
            },
    {
        match self {
            SpanMap::ExpansionSpanMap(m) => m.span_at(range.start),
            SpanMap::RealSpanMap(m) => m.span_for_range(range),
        }
    }
}

} // verus!
