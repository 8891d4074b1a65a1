//! The input of the parser.

use crate::span::Edition;
use crate::syntax_kind::SyntaxKind;
use vstd::prelude::*;

verus! {

#[derive(Clone, Copy, PartialEq, Eq, Structural, Debug)]
pub struct InputToken {
    pub kind: SyntaxKind,
    /// What the token is where a name that is a keyword in some places stands as such.
    pub contextual_kind: SyntaxKind,
    pub edition: Edition,
    /// Whether the next token follows without a space.
    pub joint: bool,
}

/// The tokens of a text, without whitespace and comments. The parser decides by their kinds alone,
/// and does not see their texts.
pub struct Input {
    pub token: Vec<InputToken>,
}

impl View for Input {
    type V = Seq<InputToken>;

    open spec fn view(&self) -> Seq<InputToken> {
        self.token@
    }
}

impl Input {
    /// No tokens, with room for as many as are said to come.
    pub fn with_capacity(capacity: usize) -> (r: Input)
        ensures
            r@ == Seq::<InputToken>::empty(),
    {
        Input { token: Vec::with_capacity(capacity) }
    }

    /// Appends a token.
    pub fn push(&mut self, kind: SyntaxKind, edition: Edition)
        ensures
            final(self)@ == old(self)@.push(
                (InputToken { kind, contextual_kind: SyntaxKind::EOF, edition, joint: false }),
            ),
    {
        self.push_impl(kind, SyntaxKind::EOF, edition)
    }

    /// Appends a name, which may be a keyword in some places.
    pub fn push_ident(&mut self, contextual_kind: SyntaxKind, edition: Edition)
        ensures
            final(self)@ == old(self)@.push(
                (InputToken { kind: SyntaxKind::IDENT, contextual_kind, edition, joint: false }),
            ),
    {
        self.push_impl(SyntaxKind::IDENT, contextual_kind, edition)
    }

    /// Marks the last token as followed by the next without a space. Whether that is so is known
    /// before the next token in some inputs, and with it in others.
    pub fn was_joint(&mut self)
        requires
            old(self)@.len() > 0,
        ensures
            final(self)@ == old(self)@.update(
                old(self)@.len() - 1,
                (InputToken { joint: true, ..old(self)@.last() }),
            ),
    {
        let last: usize = self.token.len() - 1;
        let token = self.token[last];
        self.token.set(
            last,
            InputToken {
                kind: token.kind,
                contextual_kind: token.contextual_kind,
                edition: token.edition,
                joint: true,
            },
        );
    }

    fn push_impl(&mut self, kind: SyntaxKind, contextual_kind: SyntaxKind, edition: Edition)
        ensures
            final(self)@ == old(self)@.push(
                (InputToken { kind, contextual_kind, edition, joint: false }),
            ),
    {
        self.token.push(InputToken { kind, contextual_kind, edition, joint: false });
    }

    /// The kind of a token. Behind the last there is only the end.
    pub fn kind(&self, idx: usize) -> (r: SyntaxKind)
        ensures
            r == (if idx < self@.len() {
                self@[idx as int].kind
            } else {
                SyntaxKind::EOF
            }),
    {
        if idx < self.token.len() {
            self.token[idx].kind
        } else {
            SyntaxKind::EOF
        }
    }

    /// What a token is where it stands as a keyword.
    pub fn contextual_kind(&self, idx: usize) -> (r: SyntaxKind)
        ensures
            r == (if idx < self@.len() {
                self@[idx as int].contextual_kind
            } else {
                SyntaxKind::EOF
            }),
    {
        if idx < self.token.len() {
            self.token[idx].contextual_kind
        } else {
            SyntaxKind::EOF
        }
    }

    pub fn edition(&self, idx: usize) -> (r: Edition)
        requires
            idx < self@.len(),
        ensures
            r == self@[idx as int].edition,
    {
        self.token[idx].edition
    }

    pub fn is_joint(&self, n: usize) -> (r: bool)
        requires
            n < self@.len(),
        ensures
            r == self@[n as int].joint,
    {
        self.token[n].joint
    }

    pub fn len(&self) -> (r: usize)
        ensures
            r == self@.len(),
    {
        self.token.len()
    }
}

} // verus!
