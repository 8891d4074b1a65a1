//! Immutable syntax trees that know their kinds and texts, but not their position in a file.

use crate::syntax_kind::SyntaxKind;
use vstd::prelude::*;
use vstd::utf8::encode_utf8;

verus! {

/// A leaf: a piece of the text with its kind.
pub struct GreenToken {
    pub kind: SyntaxKind,
    pub text: String,
}

/// An inner node with its children in text order.
pub struct GreenNode {
    pub kind: SyntaxKind,
    /// How long the text below this node is.
    pub text_len: u32,
    pub children: Vec<GreenElement>,
}

/// A child of a node.
pub enum GreenElement {
    Node(GreenNode),
    Token(GreenToken),
}

impl GreenToken {
    pub open spec fn spec_len(self) -> nat {
        encode_utf8(self.text@).len()
    }

    pub fn text_len(&self) -> (r: usize)
        ensures
            r == self.spec_len(),
    {
        self.text.as_str().as_bytes().len()
    }
}

impl GreenElement {
    /// The length of the element's text in bytes.
    pub open spec fn spec_len(self) -> nat {
        match self {
            GreenElement::Node(n) => n.text_len as nat,
            GreenElement::Token(t) => t.spec_len(),
        }
    }

    /// A node below which all lengths are right, or any token.
    pub open spec fn wf(self) -> bool
        decreases self, 0nat,
    {
        match self {
            GreenElement::Node(n) => n.wf(),
            GreenElement::Token(_) => true,
        }
    }

    pub fn text_len(&self) -> (r: u32)
        requires
            self.spec_len() <= u32::MAX,
        ensures
            r == self.spec_len(),
    {
        match self {
            GreenElement::Node(n) => n.text_len,
            GreenElement::Token(t) => t.text_len() as u32,
        }
    }
}

/// The length of the text of the first `i` elements.
pub open spec fn prefix_len(children: Seq<GreenElement>, i: nat) -> nat
    decreases i,
{
    if i == 0 {
        0
    } else {
        prefix_len(children, (i - 1) as nat) + children[i - 1].spec_len()
    }
}

/// A longer prefix has no shorter text.
pub proof fn lemma_prefix_len_monotonic(children: Seq<GreenElement>, i: nat, j: nat)
    requires
        i <= j,
    ensures
        prefix_len(children, i) <= prefix_len(children, j),
    decreases j,
{
    if i < j {
        lemma_prefix_len_monotonic(children, i, (j - 1) as nat);
    }
}

/// Only the elements of the prefix matter.
pub proof fn lemma_prefix_len_agree(a: Seq<GreenElement>, b: Seq<GreenElement>, i: nat)
    requires
        forall|j: int| 0 <= j < i ==> a[j] == b[j],
    ensures
        prefix_len(a, i) == prefix_len(b, i),
    decreases i,
{
    if i > 0 {
        lemma_prefix_len_agree(a, b, (i - 1) as nat);
    }
}

impl GreenNode {
    /// Every node of the tree stores the length of its children's text.
    pub open spec fn wf(self) -> bool
        decreases self, 1nat,
    {
        &&& self.text_len == prefix_len(self.children@, self.children@.len())
        &&& forall|i: int| 0 <= i < self.children@.len() ==> (#[trigger] self.children@[i]).wf()
    }

    /// The node of the given kind with the given children.
    pub fn new(kind: SyntaxKind, children: Vec<GreenElement>) -> (r: GreenNode)
        requires
            forall|i: int| 0 <= i < children@.len() ==> (#[trigger] children@[i]).wf(),
            prefix_len(children@, children@.len()) <= u32::MAX,
        ensures
            r.wf(),
            r.kind == kind,
            r.children@ == children@,
    {
        let mut text_len: u32 = 0;
        let mut i: usize = 0;
        while i < children.len()
            invariant
                i <= children@.len(),
                text_len == prefix_len(children@, i as nat),
                prefix_len(children@, children@.len()) <= u32::MAX,
            decreases children@.len() - i,
        {
            proof {
                lemma_prefix_len_monotonic(children@, (i + 1) as nat, children@.len());
            }
            text_len = text_len + children[i].text_len();
            i = i + 1;
        }
        GreenNode { kind, text_len, children }
    }
}

impl GreenNode {
    /// The node of the given kind with the given children, if their text is not too long.
    pub fn try_new(kind: SyntaxKind, children: Vec<GreenElement>) -> (r: Option<GreenNode>)
        requires
            forall|i: int| 0 <= i < children@.len() ==> (#[trigger] children@[i]).wf(),
        ensures
            r is Some <==> prefix_len(children@, children@.len()) <= u32::MAX,
            r matches Some(n) ==> n.wf() && n.kind == kind && n.children@ == children@,
    {
        let mut text_len: u32 = 0;
        let mut i: usize = 0;
        while i < children.len()
            invariant
                i <= children@.len(),
                text_len == prefix_len(children@, i as nat),
            decreases children@.len() - i,
        {
            let len: usize = match &children[i] {
                GreenElement::Node(n) => n.text_len as usize,
                GreenElement::Token(t) => t.text_len(),
            };
            assert(len == children@[i as int].spec_len());
            proof {
                lemma_prefix_len_monotonic(children@, (i + 1) as nat, children@.len());
            }
            if len > (u32::MAX - text_len) as usize {
                return None;
            }
            text_len = text_len + len as u32;
            i = i + 1;
        }
        Some(GreenNode { kind, text_len, children })
    }
}

/// How many nodes there are in the tree.
pub open spec fn size(n: GreenNode) -> nat
    decreases n, 0nat,
{
    1 + sizes(n.children@, n.children@.len())
}

/// How many nodes there are in the first `i` of the given trees.
pub open spec fn sizes(c: Seq<GreenElement>, i: nat) -> nat
    decreases c, i,
{
    if i == 0 || i > c.len() {
        0
    } else {
        sizes(c, (i - 1) as nat) + match c[i - 1] {
            GreenElement::Node(n) => size(n),
            GreenElement::Token(_) => 0,
        }
    }
}

/// A node is smaller than the node it is a child of, and a subtree has at least one node.
pub proof fn lemma_child_is_smaller(c: Seq<GreenElement>, i: nat, k: int)
    requires
        0 <= k < i <= c.len(),
    ensures
        c[k] matches GreenElement::Node(n) ==> size(n) <= sizes(c, i),
    decreases i,
{
    if k < i - 1 {
        lemma_child_is_smaller(c, (i - 1) as nat, k);
    }
}

} // verus!
