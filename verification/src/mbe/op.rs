//! What the patterns and templates of a macro are made of.

use super::puncts;
use super::puncts::Puncts;
use crate::span::Span;
use crate::tt::{
    Delimiter, Ident, IdentIsRaw, LitKind, Literal, Punct, Symbol, MAX_GLUED_PUNCT_LEN,
};
use arrayvec::ArrayVec;
use std::sync::Arc;
use vstd::prelude::*;

verus! {

/// Why a pattern or template is refused.
#[derive(Debug, PartialEq, Eq, Clone, Hash)]
pub enum ParseError {
    UnexpectedToken(String),
    Expected(String),
    InvalidRepeat,
}

pub ghost enum SpecError {
    UnexpectedToken(Seq<char>),
    Expected(Seq<char>),
    InvalidRepeat,
}

impl View for ParseError {
    type V = SpecError;

    open spec fn view(&self) -> SpecError {
        match self {
            ParseError::UnexpectedToken(s) => SpecError::UnexpectedToken(s@),
            ParseError::Expected(s) => SpecError::Expected(s@),
            ParseError::InvalidRepeat => SpecError::InvalidRepeat,
        }
    }
}

impl ParseError {
    pub fn expected(e: &str) -> (r: ParseError)
        ensures
            r@ == SpecError::Expected(e@),
    {
        ParseError::Expected(e.to_owned())
    }

    pub fn unexpected(e: &str) -> (r: ParseError)
        ensures
            r@ == SpecError::UnexpectedToken(e@),
    {
        ParseError::UnexpectedToken(e.to_owned())
    }

    pub open spec fn spec_message(self) -> Seq<char> {
        match self {
            ParseError::UnexpectedToken(s) => s@,
            ParseError::Expected(s) => s@,
            ParseError::InvalidRepeat => "invalid repeat"@,
        }
    }

    /// What to tell the user.
    pub fn message(&self) -> (r: String)
        ensures
            r@ == self.spec_message(),
    {
        match self {
            ParseError::UnexpectedToken(s) => s.clone(),
            ParseError::Expected(s) => s.clone(),
            ParseError::InvalidRepeat => "invalid repeat".to_owned(),
        }
    }
}

/// How often a part of a pattern may come.
#[derive(Clone, Copy, PartialEq, Eq, Structural, Debug)]
pub enum RepeatKind {
    ZeroOrMore,
    OneOrMore,
    ZeroOrOne,
}

#[derive(Clone, Copy, PartialEq, Eq, Structural, Debug)]
pub enum ExprKind {
    /// An expression by the rules since 2024.
    Expr,
    /// An expression by the rules up to 2021.
    Expr2021,
}

/// What a variable of a pattern matches.
#[derive(Clone, Copy, PartialEq, Eq, Structural, Debug)]
pub enum MetaVarKind {
    Path,
    Ty,
    Pat,
    PatParam,
    Stmt,
    Block,
    Meta,
    Item,
    Vis,
    Expr(ExprKind),
    Ident,
    Tt,
    Lifetime,
    Literal,
}

/// `arrayvec`'s vector of fixed capacity.
#[verifier::external_type_specification]
#[verifier::external_body]
#[verifier::reject_recursive_types(T)]
pub struct ExArrayVec<T, const CAP: usize>(ArrayVec<T, CAP>);

/// The characters in the vector.
pub uninterp spec fn punct_items(v: ArrayVec<Punct, 3>) -> Seq<Punct>;

/// `ArrayVec::new` makes an empty vector.
#[verifier::external_body]
pub(crate) fn punct_vec_new() -> (r: ArrayVec<Punct, 3>)
    ensures
        punct_items(r) == Seq::<Punct>::empty(),
{
    ArrayVec::new()
}

/// `ArrayVec::push` appends its argument. There has to be room for it.
#[verifier::external_body]
pub(crate) fn punct_vec_push(v: &mut ArrayVec<Punct, 3>, p: Punct)
    requires
        punct_items(*old(v)).len() < 3,
    ensures
        punct_items(*final(v)) == punct_items(*old(v)).push(p),
{
    v.push(p);
}

/// `ArrayVec::as_slice` is the slice of the items.
#[verifier::external_body]
pub(crate) fn punct_vec_as_slice(v: &ArrayVec<Punct, 3>) -> (r: &[Punct])
    ensures
        r@ == punct_items(*v),
{
    v.as_slice()
}

/// `ArrayVec::clone` copies the items.
#[verifier::external_body]
pub(crate) fn punct_vec_clone(v: &ArrayVec<Punct, 3>) -> (r: ArrayVec<Punct, 3>)
    ensures
        punct_items(r) == punct_items(*v),
{
    v.clone()
}

/// What stands between the repetitions of a part.
#[derive(Debug)]
pub enum Separator {
    Literal(Literal),
    Ident(Ident),
    Puncts(ArrayVec<Punct, 3>),
    Lifetime(Punct, Ident),
}

pub ghost struct SpecIdent {
    pub sym: Seq<char>,
    pub span: Span,
    pub is_raw: IdentIsRaw,
}

pub ghost struct SpecLiteral {
    pub text_and_suffix: Seq<char>,
    pub span: Span,
    pub kind: LitKind,
    pub suffix_len: u8,
}

pub open spec fn ident_view(i: Ident) -> SpecIdent {
    SpecIdent { sym: i.sym@, span: i.span, is_raw: i.is_raw }
}

pub open spec fn literal_view(l: Literal) -> SpecLiteral {
    SpecLiteral {
        text_and_suffix: l.text_and_suffix@,
        span: l.span,
        kind: l.kind,
        suffix_len: l.suffix_len,
    }
}

pub ghost enum SpecSeparator {
    Literal(SpecLiteral),
    Ident(SpecIdent),
    Puncts(Seq<Punct>),
    Lifetime(Punct, SpecIdent),
}

impl View for Separator {
    type V = SpecSeparator;

    open spec fn view(&self) -> SpecSeparator {
        match self {
            Separator::Literal(l) => SpecSeparator::Literal(literal_view(*l)),
            Separator::Ident(i) => SpecSeparator::Ident(ident_view(*i)),
            Separator::Puncts(p) => SpecSeparator::Puncts(punct_items(*p)),
            Separator::Lifetime(p, i) => SpecSeparator::Lifetime(*p, ident_view(*i)),
        }
    }
}

impl Clone for Separator {
    fn clone(&self) -> (r: Separator)
        ensures
            r@ == self@,
    {
        match self {
            Separator::Literal(l) => Separator::Literal(l.clone()),
            Separator::Ident(i) => Separator::Ident(i.clone()),
            Separator::Puncts(p) => Separator::Puncts(punct_vec_clone(p)),
            Separator::Lifetime(p, i) => Separator::Lifetime(*p, i.clone()),
        }
    }
}

pub open spec fn chars_of(p: Seq<Punct>) -> Seq<char> {
    Seq::new(p.len(), |i: int| p[i].char)
}

/// Whether two separators are written the same.
pub open spec fn same_separator(a: SpecSeparator, b: SpecSeparator) -> bool {
    match (a, b) {
        (SpecSeparator::Ident(a), SpecSeparator::Ident(b)) => a.sym == b.sym,
        (SpecSeparator::Literal(a), SpecSeparator::Literal(b)) => a.text_and_suffix
            == b.text_and_suffix,
        (SpecSeparator::Puncts(a), SpecSeparator::Puncts(b)) => chars_of(a) == chars_of(b),
        (SpecSeparator::Lifetime(_, a), SpecSeparator::Lifetime(_, b)) => a.sym == b.sym,
        _ => false,
    }
}

fn same_chars(a: &[Punct], b: &[Punct]) -> (r: bool)
    ensures
        r == (chars_of(a@) == chars_of(b@)),
{
    if a.len() != b.len() {
        assert(chars_of(a@).len() != chars_of(b@).len());
        return false;
    }
    let mut i: usize = 0;
    while i < a.len()
        invariant
            i <= a@.len(),
            a@.len() == b@.len(),
            forall|j: int| 0 <= j < i ==> (#[trigger] a@[j]).char == b@[j].char,
        decreases a@.len() - i,
    {
        if a[i].char != b[i].char {
            assert(chars_of(a@)[i as int] != chars_of(b@)[i as int]);
            return false;
        }
        i = i + 1;
    }
    assert(chars_of(a@) =~= chars_of(b@));
    true
}

impl PartialEq for Separator {
    fn eq(&self, other: &Separator) -> (r: bool) {
        match (self, other) {
            (Separator::Ident(a), Separator::Ident(b)) => a.sym.text == b.sym.text,
            (Separator::Literal(a), Separator::Literal(b)) => a.text_and_suffix.text
                == b.text_and_suffix.text,
            (Separator::Puncts(a), Separator::Puncts(b)) => same_chars(
                punct_vec_as_slice(a),
                punct_vec_as_slice(b),
            ),
            (Separator::Lifetime(_, a), Separator::Lifetime(_, b)) => a.sym.text == b.sym.text,
            _ => false,
        }
    }
}

impl vstd::std_specs::cmp::PartialEqSpecImpl for Separator {
    open spec fn obeys_eq_spec() -> bool {
        true
    }

    open spec fn eq_spec(&self, other: &Separator) -> bool {
        same_separator(self@, other@)
    }
}

impl Eq for Separator {

}

/// Being written the same is an equivalence.
pub proof fn separator_equality(a: SpecSeparator, b: SpecSeparator, c: SpecSeparator)
    ensures
        same_separator(a, a),
        same_separator(a, b) ==> same_separator(b, a),
        same_separator(a, b) && same_separator(b, c) ==> same_separator(a, c),
{
}

/// A part of `${concat(..)}`.
#[derive(Debug, Clone, PartialEq, Eq)]
pub enum ConcatMetaVarExprElem {
    /// A name that stands for itself.
    Ident(Ident),
    /// A name behind a dollar, which stands for what the variable matched.
    Var(Ident),
    /// A number or a string.
    Literal(Literal),
}

pub ghost enum SpecConcatElem {
    Ident(SpecIdent),
    Var(SpecIdent),
    Literal(SpecLiteral),
}

impl View for ConcatMetaVarExprElem {
    type V = SpecConcatElem;

    open spec fn view(&self) -> SpecConcatElem {
        match self {
            ConcatMetaVarExprElem::Ident(i) => SpecConcatElem::Ident(ident_view(*i)),
            ConcatMetaVarExprElem::Var(i) => SpecConcatElem::Var(ident_view(*i)),
            ConcatMetaVarExprElem::Literal(l) => SpecConcatElem::Literal(literal_view(*l)),
        }
    }
}

pub open spec fn elems_view(e: Seq<ConcatMetaVarExprElem>) -> Seq<SpecConcatElem> {
    Seq::new(e.len(), |i: int| e[i]@)
}

#[derive(Debug, Clone, PartialEq, Eq)]
pub struct ConcatOp {
    pub elements: Vec<ConcatMetaVarExprElem>,
    pub span: Span,
}

/// A pattern, to the left of `=>` in a rule, or a template, to the right.
#[derive(Debug, PartialEq, Eq)]
pub struct MetaTemplate(pub Vec<Op>);

/// A part of a pattern or a template.
#[derive(Debug, PartialEq, Eq)]
#[allow(inconsistent_fields)]
pub enum Op {
    Var { name: Symbol, kind: Option<MetaVarKind>, id: Span },
    Ignore { name: Symbol, id: Span },
    Index { depth: usize },
    Len { depth: usize },
    Count { name: Symbol, depth: usize },
    Concat { payload: Box<ConcatOp> },
    Repeat { tokens: MetaTemplate, kind: RepeatKind, separator: Option<Arc<Separator>> },
    Subtree { tokens: MetaTemplate, delimiter: Box<Delimiter> },
    Literal { text_and_suffix: Symbol, span: Span, kind: LitKind, suffix_len: u8 },
    PunctInline { span: Span, encoded: u32 },
    PunctBoxed(Vec<Punct>),
    Ident { sym: Symbol, span: Span, is_raw: IdentIsRaw },
}

#[allow(inconsistent_fields)]
pub ghost enum SpecOp {
    Var { name: Seq<char>, kind: Option<MetaVarKind>, id: Span },
    Ignore { name: Seq<char>, id: Span },
    Index { depth: nat },
    Len { depth: nat },
    Count { name: Seq<char>, depth: nat },
    Concat { elements: Seq<SpecConcatElem>, span: Span },
    Repeat { tokens: Seq<SpecOp>, kind: RepeatKind, separator: Option<SpecSeparator> },
    Subtree { tokens: Seq<SpecOp>, delimiter: Delimiter },
    Literal(SpecLiteral),
    Punct(Seq<Punct>),
    Ident(SpecIdent),
}

pub open spec fn op_view(op: Op) -> SpecOp
    decreases op,
{
    match op {
        Op::Var { name, kind, id } => SpecOp::Var { name: name@, kind, id },
        Op::Ignore { name, id } => SpecOp::Ignore { name: name@, id },
        Op::Index { depth } => SpecOp::Index { depth: depth as nat },
        Op::Len { depth } => SpecOp::Len { depth: depth as nat },
        Op::Count { name, depth } => SpecOp::Count { name: name@, depth: depth as nat },
        Op::Concat { payload } => SpecOp::Concat {
            elements: elems_view(payload.elements@),
            span: payload.span,
        },
        Op::Repeat { tokens, kind, separator } => SpecOp::Repeat {
            tokens: ops_view(tokens.0@),
            kind,
            separator: match separator {
                Some(s) => Some((*s)@),
                None => None,
            },
        },
        Op::Subtree { tokens, delimiter } => SpecOp::Subtree {
            tokens: ops_view(tokens.0@),
            delimiter: *delimiter,
        },
        Op::Literal { text_and_suffix, span, kind, suffix_len } => SpecOp::Literal(
            SpecLiteral { text_and_suffix: text_and_suffix@, span, kind, suffix_len },
        ),
        Op::PunctInline { span, encoded } => SpecOp::Punct(puncts::unpacked(span, encoded)),
        Op::PunctBoxed(puncts) => SpecOp::Punct(puncts@),
        Op::Ident { sym, span, is_raw } => SpecOp::Ident(SpecIdent { sym: sym@, span, is_raw }),
    }
}

pub open spec fn ops_view(ops: Seq<Op>) -> Seq<SpecOp>
    decreases ops,
{
    if ops.len() == 0 {
        Seq::empty()
    } else {
        ops_view(ops.drop_last()).push(op_view(ops.last()))
    }
}

impl Op {
    /// An operation of punctuation, with the characters packed if that is possible.
    pub open spec fn is_puncts(self) -> bool {
        match self {
            Op::PunctInline { span, encoded } => puncts::packed_wf(span, encoded),
            Op::PunctBoxed(_) => true,
            _ => false,
        }
    }

    pub fn from_puncts(puncts: Vec<Punct>) -> (r: Op)
        requires
            1 <= puncts@.len() <= MAX_GLUED_PUNCT_LEN,
        ensures
            r.is_puncts(),
            op_view(r) == SpecOp::Punct(puncts@),
            r is PunctInline <==> puncts::can_pack(puncts@),
    {
        match puncts::pack(&puncts) {
            Some(encoded) => {
                proof {
                    puncts::unpacking_undoes_packing(puncts@[0].span, encoded, puncts@);
                }
                Op::PunctInline { span: puncts[0].span, encoded }
            },
            None => Op::PunctBoxed(puncts),
        }
    }

    /// The characters of an operation of punctuation.
    pub fn puncts(&self) -> (r: Puncts<'_>)
        requires
            self.is_puncts(),
        ensures
            r.wf(),
            op_view(*self) == SpecOp::Punct(r.remaining()),
    {
        match self {
            Op::PunctBoxed(puncts) => {
                let r = Puncts::Boxed { puncts, place: 0 };
                assert(puncts@.skip(0) =~= puncts@);
                r
            },
            Op::PunctInline { span, encoded } => {
                let r = Puncts::Inline { span: *span, encoded: *encoded, index: 0 };
                assert(puncts::unpacked(*span, *encoded).skip(0) =~= puncts::unpacked(
                    *span,
                    *encoded,
                ));
                r
            },
            _ => vstd::pervasive::unreached(),
        }
    }

    pub fn from_literal(literal: Literal) -> (r: Op)
        ensures
            op_view(r) == SpecOp::Literal(literal_view(literal)),
    {
        Op::Literal {
            text_and_suffix: literal.text_and_suffix,
            span: literal.span,
            kind: literal.kind,
            suffix_len: literal.suffix_len,
        }
    }

    pub fn from_ident(ident: Ident) -> (r: Op)
        ensures
            op_view(r) == SpecOp::Ident(ident_view(ident)),
    {
        Op::Ident { sym: ident.sym, span: ident.span, is_raw: ident.is_raw }
    }
}

/// Putting punctuation into an operation loses nothing.
pub proof fn puncts_are_kept(op: Op, r: Puncts, puncts: Seq<Punct>)
    requires
        op_view(op) == SpecOp::Punct(puncts),
        op_view(op) == SpecOp::Punct(r.remaining()),
    ensures
        r.remaining() == puncts,
{
}

impl MetaTemplate {
    /// The parts, in order.
    pub fn iter(&self) -> (r: &Vec<Op>)
        ensures
            *r == self.0,
    {
        &self.0
    }
}

} // verus!
