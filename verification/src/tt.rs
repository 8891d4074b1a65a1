//! Token trees: what a macro is written in.

use crate::span::Span;
use vstd::prelude::*;

verus! {

/// How many punctuation characters can form one token.
pub const MAX_GLUED_PUNCT_LEN: usize = 3;

/// The text of a name.
#[derive(Debug, PartialEq, Eq, Hash)]
pub struct Symbol {
    pub text: String,
}

impl View for Symbol {
    type V = Seq<char>;

    open spec fn view(&self) -> Seq<char> {
        self.text@
    }
}

impl Clone for Symbol {
    fn clone(&self) -> (r: Symbol)
        ensures
            r == *self,
    {
        Symbol { text: self.text.clone() }
    }
}

impl Symbol {
    pub fn intern(text: &str) -> (r: Symbol)
        ensures
            r@ == text@,
    {
        Symbol { text: text.to_owned() }
    }

    pub fn as_str(&self) -> (r: &str)
        ensures
            r@ == self@,
    {
        self.text.as_str()
    }
}

/// Whether a punctuation character is followed by another without a space between them.
#[derive(Clone, Copy, PartialEq, Eq, Structural, Debug, Hash)]
pub enum Spacing {
    Alone,
    Joint,
    /// Followed by another, but not to be printed next to it.
    JointHidden,
}

#[derive(Clone, Copy, PartialEq, Eq, Structural, Debug, Hash)]
pub struct Punct {
    pub char: char,
    pub spacing: Spacing,
    pub span: Span,
}

#[derive(Clone, Copy, PartialEq, Eq, Structural, Debug, Hash)]
pub enum LitKind {
    Byte,
    Char,
    Integer,
    Float,
    Str,
    StrRaw(u8),
    ByteStr,
    ByteStrRaw(u8),
    CStr,
    CStrRaw(u8),
    Invalid,
}

#[derive(Debug, PartialEq, Eq, Hash)]
pub struct Literal {
    pub text_and_suffix: Symbol,
    pub span: Span,
    pub kind: LitKind,
    /// How many bytes at the end of the text are the suffix.
    pub suffix_len: u8,
}

impl Clone for Literal {
    fn clone(&self) -> (r: Literal)
        ensures
            r == *self,
    {
        Literal {
            text_and_suffix: self.text_and_suffix.clone(),
            span: self.span,
            kind: self.kind,
            suffix_len: self.suffix_len,
        }
    }
}

#[derive(Clone, Copy, PartialEq, Eq, Structural, Debug, Hash)]
pub enum IdentIsRaw {
    No,
    Yes,
}

#[derive(Debug, PartialEq, Eq, Hash)]
pub struct Ident {
    pub sym: Symbol,
    pub span: Span,
    pub is_raw: IdentIsRaw,
}

impl Clone for Ident {
    fn clone(&self) -> (r: Ident)
        ensures
            r == *self,
    {
        Ident { sym: self.sym.clone(), span: self.span, is_raw: self.is_raw }
    }
}

#[derive(Clone, Copy, PartialEq, Eq, Structural, Debug, Hash)]
pub enum DelimiterKind {
    Parenthesis,
    Brace,
    Bracket,
    Invisible,
}

#[derive(Clone, Copy, PartialEq, Eq, Structural, Debug, Hash)]
pub struct Delimiter {
    pub open: Span,
    pub close: Span,
    pub kind: DelimiterKind,
}

/// A token.
pub enum Leaf {
    Literal(Literal),
    Punct(Punct),
    Ident(Ident),
}

/// Tokens between delimiters.
pub struct Subtree {
    pub delimiter: Delimiter,
    pub tokens: Vec<TtElement>,
}

pub enum TtElement {
    Leaf {
        leaf: Leaf,
        /// For a punctuation character: how many characters from here on form one token.
        glued: usize,
    },
    Subtree(Subtree),
}

/// A place in a sequence of tokens.
pub struct TtIter<'a> {
    pub tokens: &'a Vec<TtElement>,
    pub pos: usize,
}

pub open spec fn is_punct_at(t: Seq<TtElement>, i: int) -> bool {
    0 <= i < t.len() && (t[i] matches TtElement::Leaf { leaf: Leaf::Punct(_), .. })
}

/// A token that is formed by punctuation characters is formed by those that follow it.
pub open spec fn glue_fits(t: Seq<TtElement>, i: int) -> bool {
    match t[i] {
        TtElement::Leaf { leaf: Leaf::Punct(_), glued } => {
            &&& 1 <= glued <= MAX_GLUED_PUNCT_LEN
            &&& forall|k: int| i <= k < i + glued ==> #[trigger] is_punct_at(t, k)
        },
        _ => true,
    }
}

/// The tokens are glued as they can be, here and in all subtrees.
pub open spec fn tokens_wf(t: Seq<TtElement>) -> bool
    decreases t,
{
    forall|i: int|
        #![trigger t[i]]
        0 <= i < t.len() ==> glue_fits(t, i) && match t[i] {
            TtElement::Subtree(s) => tokens_wf(s.tokens@),
            TtElement::Leaf { .. } => true,
        }
}

impl<'a> TtIter<'a> {
    pub open spec fn wf(self) -> bool {
        &&& self.pos <= self.tokens@.len()
        &&& tokens_wf(self.tokens@)
    }

    pub fn new(tokens: &'a Vec<TtElement>) -> (r: TtIter<'a>)
        ensures
            r.tokens == tokens,
            r.pos == 0,
    {
        TtIter { tokens, pos: 0 }
    }

    /// The next element, if there is one.
    pub fn peek(&self) -> (r: Option<&'a TtElement>)
        requires
            self.pos <= self.tokens@.len(),
        ensures
            r is Some <==> self.pos < self.tokens@.len(),
            r matches Some(t) ==> *t == self.tokens@[self.pos as int],
    {
        if self.pos < self.tokens.len() {
            Some(&self.tokens[self.pos])
        } else {
            None
        }
    }

    /// Takes the next element, if there is one.
    pub fn next(&mut self) -> (r: Option<&'a TtElement>)
        requires
            old(self).pos <= old(self).tokens@.len(),
        ensures
            final(self).tokens == old(self).tokens,
            r is Some <==> old(self).pos < old(self).tokens@.len(),
            r matches Some(t) ==> *t == old(self).tokens@[old(self).pos as int]
                && final(self).pos == old(self).pos + 1,
            r is None ==> final(self).pos == old(self).pos,
    {
        if self.pos < self.tokens.len() {
            let t = &self.tokens[self.pos];
            self.pos = self.pos + 1;
            Some(t)
        } else {
            None
        }
    }

    pub fn is_empty(&self) -> (r: bool)
        requires
            self.pos <= self.tokens@.len(),
        ensures
            r == (self.pos == self.tokens@.len()),
    {
        self.pos >= self.tokens.len()
    }
}

} // verus!
