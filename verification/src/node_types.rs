//! Which kinds of nodes are of which type, and what the text of a tree is.

use crate::ast;
use crate::ast::AstNode;
use crate::green;
use crate::green::{GreenElement, GreenNode};
use crate::syntax_kind::SyntaxKind;
use crate::syntax_node;
use crate::syntax_node::Step;
use vstd::prelude::*;
use vstd::utf8::encode_utf8;

verus! {

/// A type of nodes has the nodes of its one kind.
pub proof fn types_have_the_nodes_of_their_kind(kind: SyntaxKind)
    ensures
        ast::ExternBlock::castable(kind) <==> kind == SyntaxKind::EXTERN_BLOCK,
        ast::Use::castable(kind) <==> kind == SyntaxKind::USE,
        ast::AsmExpr::castable(kind) <==> kind == SyntaxKind::ASM_EXPR,
        ast::Impl::castable(kind) <==> kind == SyntaxKind::IMPL,
        ast::Enum::castable(kind) <==> kind == SyntaxKind::ENUM,
        ast::Struct::castable(kind) <==> kind == SyntaxKind::STRUCT,
        ast::Union::castable(kind) <==> kind == SyntaxKind::UNION,
        ast::ExternCrate::castable(kind) <==> kind == SyntaxKind::EXTERN_CRATE,
        ast::MacroDef::castable(kind) <==> kind == SyntaxKind::MACRO_DEF,
        ast::MacroRules::castable(kind) <==> kind == SyntaxKind::MACRO_RULES,
        ast::Module::castable(kind) <==> kind == SyntaxKind::MODULE,
        ast::Static::castable(kind) <==> kind == SyntaxKind::STATIC,
        ast::Trait::castable(kind) <==> kind == SyntaxKind::TRAIT,
        ast::Variant::castable(kind) <==> kind == SyntaxKind::VARIANT,
        ast::Const::castable(kind) <==> kind == SyntaxKind::CONST,
        ast::Fn::castable(kind) <==> kind == SyntaxKind::FN,
        ast::TypeAlias::castable(kind) <==> kind == SyntaxKind::TYPE_ALIAS,
        ast::MacroCall::castable(kind) <==> kind == SyntaxKind::MACRO_CALL,
        ast::BlockExpr::castable(kind) <==> kind == SyntaxKind::BLOCK_EXPR,
{
}

/// A type that stands for several has the nodes of all of them, and no others.
pub proof fn supertypes_have_the_nodes_of_their_subtypes(kind: SyntaxKind)
    ensures
        ast::Adt::castable(kind) <==> ast::Enum::castable(kind) || ast::Struct::castable(kind)
            || ast::Union::castable(kind),
        ast::Macro::castable(kind) <==> ast::MacroDef::castable(kind)
            || ast::MacroRules::castable(kind),
        ast::AssocItem::castable(kind) <==> ast::Const::castable(kind) || ast::Fn::castable(kind)
            || ast::MacroCall::castable(kind) || ast::TypeAlias::castable(kind),
        ast::AnyHasGenericParams::castable(kind) <==> ast::Adt::castable(kind) || ast::Fn::castable(
            kind,
        ) || ast::Impl::castable(kind) || ast::Trait::castable(kind) || ast::TypeAlias::castable(
            kind,
        ),
        ast::Item::castable(kind) <==> ast::Adt::castable(kind) || ast::Macro::castable(kind)
            || ast::AssocItem::castable(kind) || ast::AsmExpr::castable(kind)
            || ast::ExternBlock::castable(kind) || ast::ExternCrate::castable(kind)
            || ast::Impl::castable(kind) || ast::Module::castable(kind) || ast::Static::castable(
            kind,
        ) || ast::Trait::castable(kind) || ast::Use::castable(kind),
{
}

/// The text of a tree: that of its tokens, one behind the other.
pub open spec fn text_of(n: GreenNode) -> Seq<char>
    decreases n, 0nat,
{
    text_from(n.children@, 0)
}

/// The text of the elements from the `i`th on.
pub open spec fn text_from(c: Seq<GreenElement>, i: nat) -> Seq<char>
    decreases c, c.len() + 1 - i,
{
    if i >= c.len() {
        Seq::empty()
    } else {
        (match c[i as int] {
            GreenElement::Node(n) => text_of(n),
            GreenElement::Token(t) => t.text@,
        }) + text_from(c, i + 1)
    }
}

/// The text of the tokens that a walk comes to.
pub open spec fn text_said(s: Seq<Step>) -> Seq<char>
    decreases s.len(),
{
    if s.len() == 0 {
        Seq::empty()
    } else {
        text_said(s.drop_last()) + match s.last() {
            Step::EnterToken(_, text) => text,
            _ => Seq::empty(),
        }
    }
}

proof fn lemma_said_appends(a: Seq<Step>, b: Seq<Step>)
    ensures
        text_said(a + b) == text_said(a) + text_said(b),
    decreases b.len(),
{
    if b.len() == 0 {
        assert(a + b =~= a);
        assert(text_said(a) + text_said(b) =~= text_said(a));
    } else {
        lemma_said_appends(a, b.drop_last());
        assert((a + b).drop_last() =~= a + b.drop_last());
        assert(text_said(a + b) =~= text_said(a) + text_said(b));
    }
}

proof fn lemma_said_one(step: Step)
    ensures
        text_said(seq![step]) == match step {
            Step::EnterToken(_, text) => text,
            _ => Seq::empty(),
        },
{
    let s = seq![step];
    assert(s.drop_last() =~= Seq::<Step>::empty());
    assert(text_said(s.drop_last()) =~= Seq::<char>::empty());
    assert(text_said(s) =~= match step {
        Step::EnterToken(_, text) => text,
        _ => Seq::empty(),
    });
}

proof fn lemma_text_of_walk(n: GreenNode)
    ensures
        text_said(syntax_node::walk_of(n)) == text_of(n),
    decreases n, 1nat,
{
    let c = n.children@;
    let first = seq![syntax_node::walk_of(n)[0]];
    let inner = syntax_node::walk_of_children(c, c.len());
    let last = seq![Step::LeaveNode];
    assert(syntax_node::walk_of(n) =~= first + inner + last);
    lemma_said_appends(first + inner, last);
    lemma_said_appends(first, inner);
    lemma_said_one(first[0]);
    lemma_said_one(Step::LeaveNode);
    lemma_text_of_children(c, c.len());
    assert(text_said(inner) + text_from(c, c.len()) =~= text_said(inner));
    assert(text_said(syntax_node::walk_of(n)) =~= text_of(n));
}

proof fn lemma_text_of_children(c: Seq<GreenElement>, i: nat)
    requires
        i <= c.len(),
    ensures
        text_said(syntax_node::walk_of_children(c, i)) + text_from(c, i) == text_from(c, 0),
    decreases c, i,
{
    if i == 0 {
        assert(text_said(syntax_node::walk_of_children(c, 0)) =~= Seq::<char>::empty());
        assert(Seq::<char>::empty() + text_from(c, 0) =~= text_from(c, 0));
    } else {
        lemma_text_of_children(c, (i - 1) as nat);
        let before = syntax_node::walk_of_children(c, (i - 1) as nat);
        match c[i - 1] {
            GreenElement::Node(m) => {
                lemma_text_of_walk(m);
                lemma_said_appends(before, syntax_node::walk_of(m));
            },
            GreenElement::Token(t) => {
                let step = syntax_node::walk_of_children(c, i).last();
                lemma_said_appends(before, seq![step]);
                lemma_said_one(step);
                assert(syntax_node::walk_of_children(c, i) =~= before + seq![step]);
            },
        }
        assert(text_said(syntax_node::walk_of_children(c, i)) + text_from(c, i) =~= text_said(before)
            + text_from(c, (i - 1) as nat));
    }
}

/// A tree has the text that its walk says, in that order: nothing is left out, added or moved.
pub proof fn trees_have_the_text_of_their_walk(n: GreenNode, walk: Seq<Step>)
    requires
        syntax_node::walk_of(n) == walk,
    ensures
        text_of(n) == text_said(walk),
{
    lemma_text_of_walk(n);
}

proof fn lemma_encode_appends(a: Seq<char>, b: Seq<char>)
    ensures
        encode_utf8(a + b) == encode_utf8(a) + encode_utf8(b),
    decreases a.len(),
{
    if a.len() == 0 {
        assert(a + b =~= b);
        assert(encode_utf8(a) =~= Seq::<u8>::empty());
        assert(encode_utf8(a) + encode_utf8(b) =~= encode_utf8(b));
    } else {
        lemma_encode_appends(a.drop_first(), b);
        assert((a + b).drop_first() =~= a.drop_first() + b);
        assert((a + b)[0] == a[0]);
        assert(encode_utf8(a + b) =~= encode_utf8(a) + encode_utf8(b));
    }
}

/// A tree is as long as its text, in bytes.
pub proof fn trees_are_as_long_as_their_text(n: GreenNode)
    requires
        n.wf(),
    ensures
        n.text_len == encode_utf8(text_of(n)).len(),
    decreases n, 1nat,
{
    let c = n.children@;
    offsets_count_the_text_before(c, c.len());
    assert(text_from(c, c.len()) =~= Seq::<char>::empty());
    assert(encode_utf8(Seq::<char>::empty()) =~= Seq::<u8>::empty());
}

/// The offset of an element counts the bytes of the text before it: with the text from there on it
/// makes up the whole.
pub proof fn offsets_count_the_text_before(c: Seq<GreenElement>, i: nat)
    requires
        i <= c.len(),
        forall|k: int| 0 <= k < c.len() ==> (#[trigger] c[k]).wf(),
    ensures
        green::prefix_len(c, i) + encode_utf8(text_from(c, i)).len() == encode_utf8(
            text_from(c, 0),
        ).len(),
    decreases c, i,
{
    if i > 0 {
        offsets_count_the_text_before(c, (i - 1) as nat);
        let text = match c[i - 1] {
            GreenElement::Node(n) => text_of(n),
            GreenElement::Token(t) => t.text@,
        };
        assert(text_from(c, (i - 1) as nat) == text + text_from(c, i));
        lemma_encode_appends(text, text_from(c, i));
        if let GreenElement::Node(m) = c[i - 1] {
            assert(c[i - 1].wf());
            trees_are_as_long_as_their_text(m);
        }
    }
}

} // verus!
