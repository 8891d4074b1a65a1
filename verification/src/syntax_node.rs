//! Concrete syntax trees: building them with `rowan`, and reading them.

use crate::green;
use crate::green::{GreenElement, GreenNode, GreenToken};
use crate::syntax_kind;
use crate::syntax_kind::SyntaxKind;
use crate::text::{TextRange, TextSize};
use rowan::GreenNode as RowanNode;
use rowan::{GreenNodeBuilder, NodeOrToken, WalkEvent};
use vstd::prelude::*;
use vstd::utf8::encode_utf8;

verus! {

/// The language of the trees.
#[derive(Clone, Copy, PartialEq, Eq, Structural, Debug, Hash, PartialOrd, Ord)]
pub struct RustLanguage;

impl RustLanguage {
    pub fn kind_from_raw(raw: u16) -> (r: SyntaxKind)
        ensures
            r.wf(),
            syntax_kind::raw_kind(r) == raw,
    {
        SyntaxKind::from_raw(raw)
    }

    pub fn kind_to_raw(kind: SyntaxKind) -> (r: u16)
        requires
            kind.wf(),
        ensures
            r == syntax_kind::raw_kind(kind),
    {
        kind.to_raw()
    }
}

/// A kind comes back from the number it is stored as.
pub proof fn kinds_come_back(kind: SyntaxKind, raw: u16, back: SyntaxKind)
    requires
        raw == syntax_kind::raw_kind(kind),
        syntax_kind::raw_kind(back) == raw,
    ensures
        back == kind,
{
    syntax_kind::raw_kind_is_injective(kind, back);
}

/// A step of a walk over a tree.
pub enum GreenStep {
    EnterNode(u16),
    LeaveNode,
    EnterToken(u16, String),
    LeaveToken,
}

pub ghost enum Step {
    EnterNode(u16),
    LeaveNode,
    EnterToken(u16, Seq<char>),
    LeaveToken,
}

impl View for GreenStep {
    type V = Step;

    open spec fn view(&self) -> Step {
        match self {
            GreenStep::EnterNode(kind) => Step::EnterNode(*kind),
            GreenStep::LeaveNode => Step::LeaveNode,
            GreenStep::EnterToken(kind, text) => Step::EnterToken(*kind, text@),
            GreenStep::LeaveToken => Step::LeaveToken,
        }
    }
}

pub open spec fn steps_view(v: Seq<GreenStep>) -> Seq<Step> {
    Seq::new(v.len(), |i: int| v[i]@)
}

/// How many nodes are open after the first `n` steps.
pub open spec fn depth(s: Seq<Step>, n: nat) -> int
    decreases n,
{
    if n == 0 {
        0
    } else {
        depth(s, (n - 1) as nat) + match s[n - 1] {
            Step::EnterNode(_) => 1int,
            Step::LeaveNode => -1int,
            _ => 0int,
        }
    }
}

/// How long the text of the tokens of the first `n` steps is.
pub open spec fn walk_len(s: Seq<Step>, n: nat) -> nat
    decreases n,
{
    if n == 0 {
        0
    } else {
        walk_len(s, (n - 1) as nat) + match s[n - 1] {
            Step::EnterToken(_, text) => encode_utf8(text).len(),
            _ => 0,
        }
    }
}

/// The walk over one tree: the first step enters the root, and only the last leaves it.
pub open spec fn is_tree_walk(s: Seq<Step>) -> bool {
    &&& s.len() > 0
    &&& s[0] is EnterNode
    &&& depth(s, s.len()) == 0
    &&& forall|n: nat| 0 < n < s.len() ==> #[trigger] depth(s, n) > 0
}

/// The steps but for those that leave a token, which say nothing.
pub open spec fn essential(s: Seq<Step>) -> Seq<Step>
    decreases s.len(),
{
    if s.len() == 0 {
        Seq::empty()
    } else if s.last() is LeaveToken {
        essential(s.drop_last())
    } else {
        essential(s.drop_last()).push(s.last())
    }
}

/// The walk over a tree.
pub open spec fn walk_of(n: GreenNode) -> Seq<Step>
    decreases n, 0nat,
{
    seq![Step::EnterNode(syntax_kind::raw_kind(n.kind) as u16)] + walk_of_children(
        n.children@,
        n.children@.len(),
    ) + seq![Step::LeaveNode]
}

/// The walk over the first `i` children of a node.
pub open spec fn walk_of_children(c: Seq<GreenElement>, i: nat) -> Seq<Step>
    decreases c, i,
{
    if i == 0 || i > c.len() {
        Seq::empty()
    } else {
        walk_of_children(c, (i - 1) as nat) + match c[i - 1] {
            GreenElement::Node(n) => walk_of(n),
            GreenElement::Token(t) => seq![
                Step::EnterToken(syntax_kind::raw_kind(t.kind) as u16, t.text@),
            ],
        }
    }
}

proof fn lemma_walk_of_children_agree(a: Seq<GreenElement>, b: Seq<GreenElement>, i: nat)
    requires
        i <= a.len(),
        i <= b.len(),
        forall|j: int| 0 <= j < i ==> a[j] == b[j],
    ensures
        walk_of_children(a, i) == walk_of_children(b, i),
    decreases i,
{
    if i > 0 {
        lemma_walk_of_children_agree(a, b, (i - 1) as nat);
    }
}

proof fn lemma_walk_len_concat(a: Seq<Step>, b: Seq<Step>, n: nat)
    requires
        n <= b.len(),
    ensures
        walk_len(a + b, a.len() + n) == walk_len(a, a.len()) + walk_len(b, n),
    decreases n,
{
    if n == 0 {
        lemma_walk_len_agree(a + b, a, a.len());
    } else {
        lemma_walk_len_concat(a, b, (n - 1) as nat);
        assert((a + b)[a.len() + n - 1] == b[n - 1]);
    }
}

proof fn lemma_walk_len_agree(a: Seq<Step>, b: Seq<Step>, n: nat)
    requires
        n <= a.len(),
        n <= b.len(),
        forall|i: int| 0 <= i < n ==> a[i] == b[i],
    ensures
        walk_len(a, n) == walk_len(b, n),
    decreases n,
{
    if n > 0 {
        lemma_walk_len_agree(a, b, (n - 1) as nat);
    }
}

proof fn lemma_walk_len_monotonic(a: Seq<Step>, m: nat, n: nat)
    requires
        m <= n,
    ensures
        walk_len(a, m) <= walk_len(a, n),
    decreases n,
{
    if m < n {
        lemma_walk_len_monotonic(a, m, (n - 1) as nat);
    }
}

/// The walk over the children of a node passes over as much text as they have.
proof fn lemma_walk_len_children(c: Seq<GreenElement>, i: nat)
    requires
        i <= c.len(),
        forall|k: int| 0 <= k < c.len() ==> (#[trigger] c[k]).wf(),
    ensures
        walk_len(walk_of_children(c, i), walk_of_children(c, i).len()) == green::prefix_len(c, i),
    decreases c, i,
{
    if i > 0 {
        lemma_walk_len_children(c, (i - 1) as nat);
        let before = walk_of_children(c, (i - 1) as nat);
        match c[i - 1] {
            GreenElement::Node(n) => {
                assert(c[i - 1].wf());
                let inner = walk_of_children(n.children@, n.children@.len());
                lemma_walk_len_children(n.children@, n.children@.len());
                let head = seq![Step::EnterNode(syntax_kind::raw_kind(n.kind) as u16)];
                let tail = seq![Step::LeaveNode];
                reveal_with_fuel(walk_len, 2);
                lemma_walk_len_concat(head, inner, inner.len());
                lemma_walk_len_concat(head + inner, tail, 1);
                lemma_walk_len_concat(before, walk_of(n), walk_of(n).len());
            },
            GreenElement::Token(t) => {
                let one = seq![Step::EnterToken(syntax_kind::raw_kind(t.kind) as u16, t.text@)];
                reveal_with_fuel(walk_len, 2);
                lemma_walk_len_concat(before, one, 1);
            },
        }
    }
}

/// What has been walked over so far: the open nodes, each with the children it has got.
spec fn open_walk(frames: Seq<(u16, Vec<GreenElement>)>) -> Seq<Step>
    decreases frames.len(),
{
    if frames.len() == 0 {
        Seq::empty()
    } else {
        open_walk(frames.drop_last()) + seq![Step::EnterNode(frames.last().0)] + walk_of_children(
            frames.last().1@,
            frames.last().1@.len(),
        )
    }
}

proof fn lemma_essential_prefix(s: Seq<Step>, i: nat)
    requires
        i <= s.len(),
    ensures
        essential(s.take(i as int)).len() <= essential(s).len(),
        essential(s).take(essential(s.take(i as int)).len() as int) == essential(s.take(i as int)),
    decreases s.len() - i,
{
    if i == s.len() {
        assert(s.take(i as int) =~= s);
        assert(essential(s).take(essential(s).len() as int) =~= essential(s));
    } else {
        lemma_essential_prefix(s, i + 1);
        let longer = s.take((i + 1) as int);
        assert(longer.drop_last() =~= s.take(i as int));
        let e = essential(s.take(i as int));
        let e2 = essential(longer);
        assert(essential(s).take(e.len() as int) =~= essential(s).take(e2.len() as int).take(
            e.len() as int,
        ));
        assert(e2.take(e.len() as int) =~= e);
    }
}

proof fn lemma_depth_agree(a: Seq<Step>, b: Seq<Step>, n: nat)
    requires
        n <= a.len(),
        n <= b.len(),
        forall|i: int| 0 <= i < n ==> a[i] == b[i],
    ensures
        depth(a, n) == depth(b, n),
    decreases n,
{
    if n > 0 {
        lemma_depth_agree(a, b, (n - 1) as nat);
    }
}

/// Builds the tree that was walked over, if its text is not too long.
pub fn tree_from_steps(steps: &Vec<GreenStep>) -> (r: Option<GreenNode>)
    requires
        is_tree_walk(essential(steps_view(steps@))),
    ensures
        ({
            let w = essential(steps_view(steps@));
            &&& r is Some <==> walk_len(w, w.len()) <= u32::MAX
            &&& r matches Some(n) ==> n.wf() && walk_of(n) == w
        }),
{
    let ghost s = steps_view(steps@);
    let ghost w = essential(s);
    let mut frames: Vec<(u16, Vec<GreenElement>)> = Vec::new();
    let mut i: usize = 0;
    proof {
        assert(s.take(0) =~= Seq::empty());
        assert(w.take(0) =~= Seq::empty());
    }
    while i < steps.len()
        invariant
            i <= steps@.len(),
            s == steps_view(steps@),
            w == essential(s),
            is_tree_walk(w),
            ({
                let p = essential(s.take(i as int));
                &&& p.len() <= w.len()
                &&& w.take(p.len() as int) == p
                &&& p.len() < w.len() || w.len() == 0
                &&& open_walk(frames@) == p
                &&& frames@.len() == depth(w, p.len())
            }),
            forall|f: int, k: int|
                #![trigger frames@[f].1@[k]]
                0 <= f < frames@.len() && 0 <= k < frames@[f].1@.len() ==> frames@[f].1@[k].wf(),
        decreases steps@.len() - i,
    {
        let ghost p = essential(s.take(i as int));
        let ghost before = frames@;
        proof {
            assert(s.take(i + 1).drop_last() =~= s.take(i as int));
            assert(s.take(i + 1).last() == steps@[i as int]@);
            lemma_essential_prefix(s, (i + 1) as nat);
        }
        let ghost q = essential(s.take(i + 1));
        match &steps[i] {
            GreenStep::LeaveToken => {},
            GreenStep::EnterNode(kind) => {
                frames.push((*kind, Vec::new()));
                proof {
                    assert(q == p.push(Step::EnterNode(*kind)));
                    assert(w[p.len() as int] == q[p.len() as int]);
                    assert(frames@.drop_last() =~= before);
                    assert(open_walk(frames@) =~= q);
                    lemma_not_last_enter(w, p.len());
                }
            },
            GreenStep::EnterToken(kind, text) => {
                proof {
                    assert(q == p.push(Step::EnterToken(*kind, text@)));
                    assert(w[p.len() as int] == q[p.len() as int]);
                    lemma_inside(w, p.len());
                }
                let (outer, mut children) = frames.pop().unwrap();
                let ghost earlier = children@;
                let token = GreenToken { kind: SyntaxKind::from_raw(*kind), text: text.clone() };
                children.push(GreenElement::Token(token));
                proof {
                    assert(frames@ =~= before.drop_last());
                    lemma_walk_of_children_agree(children@, earlier, earlier.len());
                }
                let ghost now = children@;
                frames.push((outer, children));
                proof {
                    assert(frames@.drop_last() =~= before.drop_last());
                    assert(frames@.last().1@ == now);
                    assert(open_walk(frames@) =~= q);
                    assert forall|f: int, k: int|
                        #![trigger frames@[f].1@[k]]
                        0 <= f < frames@.len() && 0 <= k < frames@[f].1@.len() implies frames@[f].1@[k].wf() by {
                        if f < frames@.len() - 1 {
                            assert(frames@[f] == before[f]);
                            assert(before[f].1@[k].wf());
                        } else if k < earlier.len() {
                            assert(before[f].1@[k].wf());
                        }
                    }
                }
            },
            GreenStep::LeaveNode => {
                proof {
                    assert(q == p.push(Step::LeaveNode));
                    assert(w[p.len() as int] == q[p.len() as int]);
                    lemma_inside(w, p.len());
                }
                let (raw, children) = frames.pop().unwrap();
                let ghost inner = children@;
                proof {
                    assert(frames@ =~= before.drop_last());
                    assert forall|k: int| 0 <= k < inner.len() implies (#[trigger] inner[k]).wf() by {
                        assert(before[before.len() - 1].1@[k].wf());
                    }
                    lemma_walk_len_children(inner, inner.len());
                    // The text of the node is part of the text of the whole walk.
                    let head = open_walk(before.drop_last()) + seq![Step::EnterNode(raw)];
                    let body = walk_of_children(inner, inner.len());
                    assert(p =~= head + body);
                    lemma_walk_len_concat(head, body, body.len());
                    lemma_walk_len_agree(w, p, p.len());
                    lemma_walk_len_monotonic(w, p.len(), w.len());
                }
                let node = match GreenNode::try_new(SyntaxKind::from_raw(raw), children) {
                    Some(node) => node,
                    None => {
                        return None;
                    },
                };
                let ghost built = node;
                proof {
                    lemma_walk_of_children_agree(built.children@, inner, inner.len());
                    assert(walk_of(built) =~= seq![Step::EnterNode(raw)] + walk_of_children(
                        inner,
                        inner.len(),
                    ) + seq![Step::LeaveNode]);
                }
                if frames.len() == 0 {
                    proof {
                        assert(q.len() == w.len()) by {
                            if q.len() < w.len() {
                                assert(depth(w, q.len()) > 0);
                            }
                        }
                        assert(w.take(w.len() as int) =~= w);
                        assert(open_walk(before.drop_last()) =~= Seq::empty());
                        assert(walk_of(built) =~= w);
                        lemma_walk_len_node(built);
                    }
                    return Some(node);
                }
                let (outer, mut siblings) = frames.pop().unwrap();
                let ghost earlier = siblings@;
                siblings.push(GreenElement::Node(node));
                proof {
                    lemma_walk_of_children_agree(siblings@, earlier, earlier.len());
                }
                let ghost now = siblings@;
                frames.push((outer, siblings));
                proof {
                    let rest = before.drop_last().drop_last();
                    assert(frames@.drop_last() =~= rest);
                    assert(frames@.last().1@ == now);
                    assert(open_walk(frames@) =~= open_walk(before.drop_last()) + walk_of(built));
                    assert(open_walk(frames@) =~= q);
                    assert(q.len() < w.len()) by {
                        if q.len() == w.len() {
                            assert(depth(w, w.len()) == 0);
                        }
                    }
                    assert forall|f: int, k: int|
                        #![trigger frames@[f].1@[k]]
                        0 <= f < frames@.len() && 0 <= k < frames@[f].1@.len() implies frames@[f].1@[k].wf() by {
                        if f < frames@.len() - 1 {
                            assert(frames@[f] == before[f]);
                            assert(before[f].1@[k].wf());
                        } else if k < earlier.len() {
                            assert(before[f].1@[k].wf());
                        }
                    }
                }
            },
        }
        i = i + 1;
    }
    proof {
        assert(s.take(s.len() as int) =~= s);
    }
    None
}

/// A step that enters a node is not the last.
proof fn lemma_not_last_enter(w: Seq<Step>, n: nat)
    requires
        is_tree_walk(w),
        n < w.len(),
        w[n as int] is EnterNode,
    ensures
        n + 1 < w.len(),
{
    if n + 1 == w.len() {
        if n > 0 {
            assert(depth(w, n) > 0);
        }
        assert(depth(w, n + 1) == depth(w, n) + 1);
    }
}

/// A step that does not enter a node is made inside one.
proof fn lemma_inside(w: Seq<Step>, n: nat)
    requires
        is_tree_walk(w),
        n < w.len(),
        !(w[n as int] is EnterNode),
    ensures
        depth(w, n) > 0,
        !(w[n as int] is LeaveNode) ==> n + 1 < w.len(),
{
    assert(n > 0);
    assert(depth(w, n) > 0);
    if n + 1 == w.len() {
        assert(depth(w, n + 1) == 0);
    }
}

proof fn lemma_walk_len_node(n: GreenNode)
    requires
        n.wf(),
    ensures
        walk_len(walk_of(n), walk_of(n).len()) == n.text_len,
{
    let c = seq![GreenElement::Node(n)];
    assert(c[0].wf());
    lemma_walk_len_children(c, 1);
    reveal_with_fuel(walk_of_children, 2);
    reveal_with_fuel(green::prefix_len, 2);
    assert(walk_of_children(c, 1) =~= walk_of(n));
}

// Trees of `rowan`.

/// `rowan`'s builder of trees.
#[verifier::external_type_specification]
#[verifier::external_body]
pub struct ExGreenNodeBuilder<'cache>(GreenNodeBuilder<'cache>);

/// `rowan`'s trees.
#[verifier::external_type_specification]
#[verifier::external_body]
pub struct ExRowanNode(RowanNode);

/// The walk over what a builder has built so far, without the steps that leave a token.
pub uninterp spec fn built_walk(b: GreenNodeBuilder<'static>) -> Seq<Step>;

/// The walk over a tree of `rowan`, without the steps that leave a token.
pub uninterp spec fn rowan_walk(g: RowanNode) -> Seq<Step>;

/// `GreenNodeBuilder::new` makes a builder that has built nothing.
#[verifier::external_body]
pub(crate) fn builder_new() -> (r: GreenNodeBuilder<'static>)
    ensures
        built_walk(r).len() == 0,
{
    GreenNodeBuilder::new()
}

/// `GreenNodeBuilder::token` adds a token to the open node. A text that is longer than a size can say
/// is refused.
#[verifier::external_body]
pub(crate) fn builder_token(b: &mut GreenNodeBuilder<'static>, kind: u16, text: &str)
    requires
        encode_utf8(text@).len() <= u32::MAX,
    ensures
        built_walk(*final(b)) == built_walk(*old(b)).push(Step::EnterToken(kind, text@)),
{
    b.token(rowan::SyntaxKind(kind), text);
}

/// `GreenNodeBuilder::start_node` opens a node.
#[verifier::external_body]
pub(crate) fn builder_start_node(b: &mut GreenNodeBuilder<'static>, kind: u16)
    ensures
        built_walk(*final(b)) == built_walk(*old(b)).push(Step::EnterNode(kind)),
{
    b.start_node(rowan::SyntaxKind(kind));
}

/// `GreenNodeBuilder::finish_node` closes the node that was opened last. There has to be one, and its
/// text may not be longer than a size can say.
#[verifier::external_body]
pub(crate) fn builder_finish_node(b: &mut GreenNodeBuilder<'static>)
    requires
        depth(built_walk(*old(b)), built_walk(*old(b)).len()) > 0,
        walk_len(built_walk(*old(b)), built_walk(*old(b)).len()) <= u32::MAX,
    ensures
        built_walk(*final(b)) == built_walk(*old(b)).push(Step::LeaveNode),
{
    b.finish_node();
}

/// `GreenNodeBuilder::finish` gives the tree, if exactly one was built and all of its nodes are
/// closed.
#[verifier::external_body]
pub(crate) fn builder_finish(b: GreenNodeBuilder<'static>) -> (r: RowanNode)
    requires
        is_tree_walk(built_walk(b)),
    ensures
        rowan_walk(r) == built_walk(b),
{
    b.finish()
}

/// `preorder_with_tokens` walks over a tree. It enters the root first and leaves it last.
#[verifier::external_body]
pub(crate) fn rowan_steps(g: &RowanNode) -> (r: Vec<GreenStep>)
    ensures
        essential(steps_view(r@)) == rowan_walk(*g),
        is_tree_walk(essential(steps_view(r@))),
{
    let step = |event: WalkEvent<rowan::cursor::SyntaxElement>| match event {
        WalkEvent::Enter(NodeOrToken::Node(n)) => GreenStep::EnterNode(n.kind().0),
        WalkEvent::Leave(NodeOrToken::Node(_)) => GreenStep::LeaveNode,
        WalkEvent::Enter(NodeOrToken::Token(t)) => {
            GreenStep::EnterToken(t.kind().0, t.text().to_owned())
        },
        WalkEvent::Leave(NodeOrToken::Token(_)) => GreenStep::LeaveToken,
    };
    rowan::cursor::SyntaxNode::new_root(g.clone()).preorder_with_tokens().map(step).collect()
}

/// Something that is wrong with a text, and where.
#[derive(Debug, PartialEq, Eq, Hash)]
pub struct SyntaxError {
    pub message: String,
    pub range: TextRange,
}

impl SyntaxError {
    pub fn new_at_offset(message: String, offset: TextSize) -> (r: SyntaxError)
        ensures
            r == (SyntaxError { message, range: TextRange { start: offset, end: offset } }),
    {
        SyntaxError { message, range: TextRange { start: offset, end: offset } }
    }
}

/// A tree and what is wrong with its text.
pub struct Parse {
    pub green: RowanNode,
    pub errors: Vec<SyntaxError>,
}

impl Parse {
    pub fn new(green: RowanNode, errors: Vec<SyntaxError>) -> (r: Parse)
        ensures
            r == (Parse { green, errors }),
    {
        Parse { green, errors }
    }

    /// The tree, if its text is not too long.
    pub fn tree(&self) -> (r: Option<GreenNode>)
        ensures
            r is Some <==> walk_len(rowan_walk(self.green), rowan_walk(self.green).len())
                <= u32::MAX,
            r matches Some(n) ==> n.wf() && walk_of(n) == rowan_walk(self.green),
    {
        tree_from_steps(&rowan_steps(&self.green))
    }
}

/// Whatever takes the steps that build a tree.
pub trait SyntaxTreeSink: Sized {
    /// The walk over what has been built so far.
    spec fn walk(&self) -> Seq<Step>;

    /// What was found wrong so far.
    spec fn found(&self) -> Seq<SyntaxError>;

    fn finish_raw(self) -> (r: (RowanNode, Vec<SyntaxError>))
        requires
            is_tree_walk(self.walk()),
        ensures
            rowan_walk(r.0) == self.walk(),
            r.1@ == self.found(),
    ;

    fn token(&mut self, kind: SyntaxKind, text: &str)
        requires
            kind.wf(),
            encode_utf8(text@).len() <= u32::MAX,
        ensures
            final(self).walk() == old(self).walk().push(
                Step::EnterToken(syntax_kind::raw_kind(kind) as u16, text@),
            ),
            final(self).found() == old(self).found(),
    ;

    fn start_node(&mut self, kind: SyntaxKind)
        requires
            kind.wf(),
        ensures
            final(self).walk() == old(self).walk().push(
                Step::EnterNode(syntax_kind::raw_kind(kind) as u16),
            ),
            final(self).found() == old(self).found(),
    ;

    fn finish_node(&mut self)
        requires
            depth(old(self).walk(), old(self).walk().len()) > 0,
            walk_len(old(self).walk(), old(self).walk().len()) <= u32::MAX,
        ensures
            final(self).walk() == old(self).walk().push(Step::LeaveNode),
            final(self).found() == old(self).found(),
    ;

    fn error(&mut self, error: String, text_pos: TextSize)
        ensures
            final(self).walk() == old(self).walk(),
            final(self).found() == old(self).found().push(
                (SyntaxError {
                    message: error,
                    range: TextRange { start: text_pos, end: text_pos },
                }),
            ),
    ;
}

/// Builds a tree step by step.
pub struct SyntaxTreeBuilder {
    pub errors: Vec<SyntaxError>,
    pub inner: GreenNodeBuilder<'static>,
}

impl Default for SyntaxTreeBuilder {
    fn default() -> (r: SyntaxTreeBuilder)
        ensures
            r.walk().len() == 0,
            r.found().len() == 0,
    {
        SyntaxTreeBuilder { errors: Vec::new(), inner: builder_new() }
    }
}

impl SyntaxTreeSink for SyntaxTreeBuilder {
    open spec fn walk(&self) -> Seq<Step> {
        built_walk(self.inner)
    }

    open spec fn found(&self) -> Seq<SyntaxError> {
        self.errors@
    }

    fn finish_raw(self) -> (RowanNode, Vec<SyntaxError>) {
        SyntaxTreeBuilder::finish_raw(self)
    }

    fn token(&mut self, kind: SyntaxKind, text: &str) {
        SyntaxTreeBuilder::token(self, kind, text);
    }

    fn start_node(&mut self, kind: SyntaxKind) {
        SyntaxTreeBuilder::start_node(self, kind);
    }

    fn finish_node(&mut self) {
        SyntaxTreeBuilder::finish_node(self);
    }

    fn error(&mut self, error: String, text_pos: TextSize) {
        SyntaxTreeBuilder::error(self, error, text_pos);
    }
}

impl SyntaxTreeBuilder {
    /// The tree that was built, and what was found wrong.
    pub fn finish_raw(self) -> (r: (RowanNode, Vec<SyntaxError>))
        requires
            is_tree_walk(self.walk()),
        ensures
            rowan_walk(r.0) == self.walk(),
            r.1@ == self.found(),
    {
        let green = builder_finish(self.inner);
        (green, self.errors)
    }

    /// The tree that was built, with what was found wrong.
    pub fn finish(self) -> (r: Parse)
        requires
            is_tree_walk(self.walk()),
        ensures
            rowan_walk(r.green) == self.walk(),
            r.errors@ == self.found(),
    {
        let (green, errors) = self.finish_raw();
        Parse::new(green, errors)
    }

    /// Adds a token to the node that was started last.
    pub fn token(&mut self, kind: SyntaxKind, text: &str)
        requires
            kind.wf(),
            encode_utf8(text@).len() <= u32::MAX,
        ensures
            final(self).walk() == old(self).walk().push(
                Step::EnterToken(syntax_kind::raw_kind(kind) as u16, text@),
            ),
            final(self).found() == old(self).found(),
    {
        builder_token(&mut self.inner, RustLanguage::kind_to_raw(kind), text);
    }

    /// Starts a node in the one that was started last.
    pub fn start_node(&mut self, kind: SyntaxKind)
        requires
            kind.wf(),
        ensures
            final(self).walk() == old(self).walk().push(
                Step::EnterNode(syntax_kind::raw_kind(kind) as u16),
            ),
            final(self).found() == old(self).found(),
    {
        builder_start_node(&mut self.inner, RustLanguage::kind_to_raw(kind));
    }

    /// Ends the node that was started last.
    pub fn finish_node(&mut self)
        requires
            depth(old(self).walk(), old(self).walk().len()) > 0,
            walk_len(old(self).walk(), old(self).walk().len()) <= u32::MAX,
        ensures
            final(self).walk() == old(self).walk().push(Step::LeaveNode),
            final(self).found() == old(self).found(),
    {
        builder_finish_node(&mut self.inner);
    }

    /// Records what is wrong at a place of the text.
    pub fn error(&mut self, error: String, text_pos: TextSize)
        ensures
            final(self).walk() == old(self).walk(),
            final(self).found() == old(self).found().push(
                (SyntaxError {
                    message: error,
                    range: TextRange { start: text_pos, end: text_pos },
                }),
            ),
    {
        self.errors.push(SyntaxError::new_at_offset(error, text_pos));
    }
}

/// Two trees have nodes and tokens of the same kinds at the same places, and the same texts.
pub open spec fn same_tree(a: GreenNode, b: GreenNode) -> bool
    decreases a, 0nat,
{
    &&& syntax_kind::raw_kind(a.kind) as u16 == syntax_kind::raw_kind(b.kind) as u16
    &&& a.children@.len() == b.children@.len()
    &&& same_elements(a.children@, b.children@, a.children@.len())
}

/// Whether that holds of the first `i` of two sequences of children.
pub open spec fn same_elements(c: Seq<GreenElement>, d: Seq<GreenElement>, i: nat) -> bool
    decreases c, i,
{
    if i == 0 || i > c.len() {
        true
    } else {
        &&& same_elements(c, d, (i - 1) as nat)
        &&& match (c[i - 1], d[i - 1]) {
            (GreenElement::Node(m), GreenElement::Node(n)) => same_tree(m, n),
            (GreenElement::Token(t), GreenElement::Token(u)) => {
                &&& syntax_kind::raw_kind(t.kind) as u16 == syntax_kind::raw_kind(u.kind) as u16
                &&& t.text@ == u.text@
            },
            _ => false,
        }
    }
}

/// The walk over a child.
spec fn walk_of_element(e: GreenElement) -> Seq<Step> {
    match e {
        GreenElement::Node(n) => walk_of(n),
        GreenElement::Token(t) => seq![
            Step::EnterToken(syntax_kind::raw_kind(t.kind) as u16, t.text@),
        ],
    }
}

/// The walk over the children from `j` on.
spec fn walk_of_rest(c: Seq<GreenElement>, j: nat) -> Seq<Step>
    decreases c.len() - j,
{
    if j >= c.len() {
        Seq::empty()
    } else {
        walk_of_element(c[j as int]) + walk_of_rest(c, j + 1)
    }
}

proof fn lemma_walk_of_rest(c: Seq<GreenElement>, j: nat)
    requires
        j <= c.len(),
    ensures
        walk_of_children(c, c.len()) == walk_of_children(c, j) + walk_of_rest(c, j),
    decreases c.len() - j,
{
    if j < c.len() {
        lemma_walk_of_rest(c, j + 1);
        assert(walk_of_children(c, j + 1) == walk_of_children(c, j) + walk_of_element(
            c[j as int],
        ));
        assert(walk_of_children(c, j) + walk_of_element(c[j as int]) + walk_of_rest(c, j + 1)
            =~= walk_of_children(c, j) + walk_of_rest(c, j));
    } else {
        assert(walk_of_children(c, j) + walk_of_rest(c, j) =~= walk_of_children(c, j));
    }
}

proof fn lemma_same_node(a: GreenNode, b: GreenNode, x: Seq<Step>, y: Seq<Step>)
    requires
        walk_of(a) + x == walk_of(b) + y,
    ensures
        same_tree(a, b),
        x == y,
    decreases a, 0nat,
{
    let (c, d) = (a.children@, b.children@);
    let (p, q) = (walk_of(a) + x, walk_of(b) + y);
    let end = seq![Step::LeaveNode];
    assert(p[0] == Step::EnterNode(syntax_kind::raw_kind(a.kind) as u16));
    assert(q[0] == Step::EnterNode(syntax_kind::raw_kind(b.kind) as u16));
    lemma_walk_of_rest(c, 0);
    lemma_walk_of_rest(d, 0);
    assert(walk_of_children(c, c.len()) =~= walk_of_rest(c, 0));
    assert(walk_of_children(d, d.len()) =~= walk_of_rest(d, 0));
    assert(p.skip(1) =~= walk_of_rest(c, 0) + end + x);
    assert(q.skip(1) =~= walk_of_rest(d, 0) + end + y);
    lemma_same_rest(c, d, 0, x, y);
}

proof fn lemma_same_rest(
    c: Seq<GreenElement>,
    d: Seq<GreenElement>,
    j: nat,
    x: Seq<Step>,
    y: Seq<Step>,
)
    requires
        j <= c.len(),
        j <= d.len(),
        same_elements(c, d, j),
        walk_of_rest(c, j) + seq![Step::LeaveNode] + x == walk_of_rest(d, j)
            + seq![Step::LeaveNode] + y,
    ensures
        c.len() == d.len(),
        same_elements(c, d, c.len()),
        x == y,
    decreases c, c.len() - j,
{
    let end = seq![Step::LeaveNode];
    let p = walk_of_rest(c, j) + end + x;
    let q = walk_of_rest(d, j) + end + y;
    assert(p == q);
    if j < d.len() {
        assert(walk_of_rest(d, j)[0] == walk_of_element(d[j as int])[0]);
        assert(q[0] == walk_of_element(d[j as int])[0]);
    } else {
        assert(q[0] == Step::LeaveNode);
    }
    if j < c.len() {
        assert(walk_of_rest(c, j)[0] == walk_of_element(c[j as int])[0]);
        assert(p[0] == walk_of_element(c[j as int])[0]);
        let x_rest = walk_of_rest(c, j + 1) + end + x;
        let y_rest = walk_of_rest(d, j + 1) + end + y;
        assert(p =~= walk_of_element(c[j as int]) + x_rest);
        assert(q =~= walk_of_element(d[j as int]) + y_rest);
        match (c[j as int], d[j as int]) {
            (GreenElement::Node(m), GreenElement::Node(n)) => {
                lemma_same_node(m, n, x_rest, y_rest);
            },
            (GreenElement::Token(_), GreenElement::Token(_)) => {
                assert(p.skip(1) =~= x_rest);
                assert(q.skip(1) =~= y_rest);
            },
            _ => {},
        }
        lemma_same_rest(c, d, j + 1, x, y);
    } else {
        assert(p[0] == Step::LeaveNode);
        assert(p.skip(1) =~= x);
        assert(q.skip(1) =~= y);
    }
}

/// The steps that built a tree decide the tree that is read: there is only one with that walk.
pub proof fn trees_are_read_as_built(built: Seq<Step>, parse: Parse, read: GreenNode, tree: GreenNode)
    requires
        rowan_walk(parse.green) == built,
        walk_of(read) == rowan_walk(parse.green),
        walk_of(tree) == built,
    ensures
        same_tree(read, tree),
{
    assert(walk_of(read) + Seq::<Step>::empty() =~= walk_of(read));
    assert(walk_of(tree) + Seq::<Step>::empty() =~= walk_of(tree));
    lemma_same_node(read, tree, Seq::empty(), Seq::empty());
}

} // verus!
