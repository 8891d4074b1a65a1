//! Recognizes the special syntax of macros, `$var` and `$(..)*`, in token trees.

use super::op;
use super::op::{
    ConcatMetaVarExprElem, ConcatOp, ExprKind, MetaTemplate, MetaVarKind, Op, ParseError, RepeatKind,
    Separator, SpecConcatElem, SpecError, SpecIdent, SpecOp, SpecSeparator,
};
use crate::span::{Edition, SyntaxContext};
use crate::text;
use crate::tt;
use crate::tt::{
    DelimiterKind, Ident, IdentIsRaw, Leaf, Literal, Punct, Subtree, Symbol, TtElement, TtIter,
};
use std::sync::Arc;
use vstd::prelude::*;
use vstd::string::StrSliceExecFns;

verus! {

/// Which editions the contexts of a macro belong to.
pub struct Editions {
    pub known: Vec<(SyntaxContext, Edition)>,
    /// The edition of all other contexts.
    pub otherwise: Edition,
}

impl Editions {
    /// The edition of a context, by the first of the entries from `i` on that are for it.
    pub open spec fn of_from(self, ctx: SyntaxContext, i: nat) -> Edition
        decreases self.known@.len() - i,
    {
        if i >= self.known@.len() {
            self.otherwise
        } else if self.known@[i as int].0 == ctx {
            self.known@[i as int].1
        } else {
            self.of_from(ctx, i + 1)
        }
    }

    pub fn of(&self, ctx: SyntaxContext) -> (r: Edition)
        ensures
            r == self.of_from(ctx, 0),
    {
        let mut i: usize = 0;
        while i < self.known.len()
            invariant
                i <= self.known@.len(),
                self.of_from(ctx, 0) == self.of_from(ctx, i as nat),
            decreases self.known@.len() - i,
        {
            if self.known[i].0 == ctx {
                return self.known[i].1;
            }
            i = i + 1;
        }
        self.otherwise
    }
}

/// How a macro is called.
#[derive(Clone, Copy, PartialEq, Eq, Structural, Debug)]
pub enum MacroCallStyle {
    FnLike,
    Attr,
    Derive,
}

/// Which side of a rule is read.
#[derive(Clone, Copy, PartialEq, Eq, Structural, Debug)]
pub enum Mode {
    Pattern,
    Template,
}

// The tokens at a place.

pub open spec fn ident_at(t: Seq<TtElement>, i: int) -> Option<Ident> {
    if 0 <= i < t.len() {
        match t[i] {
            TtElement::Leaf { leaf: Leaf::Ident(ident), .. } => Some(ident),
            _ => None,
        }
    } else {
        None
    }
}

/// A name at the place that is not `_`.
pub open spec fn name_at(t: Seq<TtElement>, i: int) -> Option<Ident> {
    match ident_at(t, i) {
        Some(ident) if ident.sym@ != "_"@ => Some(ident),
        _ => None,
    }
}

pub open spec fn punct_at(t: Seq<TtElement>, i: int) -> Option<Punct> {
    if 0 <= i < t.len() {
        match t[i] {
            TtElement::Leaf { leaf: Leaf::Punct(p), .. } => Some(p),
            _ => None,
        }
    } else {
        None
    }
}

pub open spec fn char_at(t: Seq<TtElement>, i: int, c: char) -> bool {
    punct_at(t, i) matches Some(p) && p.char == c
}

pub open spec fn literal_at(t: Seq<TtElement>, i: int) -> Option<Literal> {
    if 0 <= i < t.len() {
        match t[i] {
            TtElement::Leaf { leaf: Leaf::Literal(l), .. } => Some(l),
            _ => None,
        }
    } else {
        None
    }
}

pub open spec fn subtree_at(t: Seq<TtElement>, i: int) -> Option<Subtree> {
    if 0 <= i < t.len() {
        match t[i] {
            TtElement::Subtree(s) => Some(s),
            _ => None,
        }
    } else {
        None
    }
}

/// The place behind the next `n` tokens, as far as there are so many.
pub open spec fn behind(t: Seq<TtElement>, pos: int, n: int) -> int {
    if pos + n <= t.len() {
        pos + n
    } else {
        t.len() as int
    }
}

/// Takes a punctuation character, which has to be `c`.
fn expect_char(src: &mut TtIter<'_>, c: char) -> (r: Result<(), ()>)
    requires
        old(src).pos <= old(src).tokens@.len(),
    ensures
        final(src).tokens == old(src).tokens,
        final(src).pos <= final(src).tokens@.len(),
        r is Ok <==> char_at(old(src).tokens@, old(src).pos as int, c),
        r is Ok ==> final(src).pos == old(src).pos + 1,
{
    match src.next() {
        Some(TtElement::Leaf { leaf: Leaf::Punct(p), .. }) => if p.char == c {
            Ok(())
        } else {
            Err(())
        },
        _ => Err(()),
    }
}

/// Takes a name, which may be `_`.
fn expect_ident_or_underscore<'a>(src: &mut TtIter<'a>) -> (r: Result<&'a Ident, ()>)
    requires
        old(src).pos <= old(src).tokens@.len(),
    ensures
        final(src).tokens == old(src).tokens,
        final(src).pos <= final(src).tokens@.len(),
        r is Ok <==> ident_at(old(src).tokens@, old(src).pos as int) is Some,
        r matches Ok(i) ==> Some(*i) == ident_at(old(src).tokens@, old(src).pos as int),
        final(src).pos == behind(old(src).tokens@, old(src).pos as int, 1),
{
    match src.next() {
        Some(TtElement::Leaf { leaf: Leaf::Ident(i), .. }) => Ok(i),
        _ => Err(()),
    }
}

/// Takes a name.
fn expect_ident<'a>(src: &mut TtIter<'a>) -> (r: Result<&'a Ident, ()>)
    requires
        old(src).pos <= old(src).tokens@.len(),
    ensures
        final(src).tokens == old(src).tokens,
        final(src).pos <= final(src).tokens@.len(),
        r is Ok <==> name_at(old(src).tokens@, old(src).pos as int) is Some,
        r matches Ok(i) ==> Some(*i) == name_at(old(src).tokens@, old(src).pos as int),
        final(src).pos == behind(old(src).tokens@, old(src).pos as int, 1),
{
    match expect_ident_or_underscore(src) {
        Ok(i) => if text::same_text(i.sym.as_str(), "_") {
            Err(())
        } else {
            Ok(i)
        },
        Err(()) => Err(()),
    }
}

/// Takes a subtree.
fn expect_subtree<'a>(src: &mut TtIter<'a>) -> (r: Result<&'a Subtree, ()>)
    requires
        old(src).pos <= old(src).tokens@.len(),
    ensures
        final(src).tokens == old(src).tokens,
        final(src).pos <= final(src).tokens@.len(),
        r is Ok <==> subtree_at(old(src).tokens@, old(src).pos as int) is Some,
        r matches Ok(s) ==> Some(*s) == subtree_at(old(src).tokens@, old(src).pos as int),
        final(src).pos == behind(old(src).tokens@, old(src).pos as int, 1),
{
    match src.next() {
        Some(TtElement::Subtree(s)) => Ok(s),
        _ => Err(()),
    }
}

fn peek_ident<'a>(src: &TtIter<'a>) -> (r: Option<&'a Ident>)
    requires
        src.pos <= src.tokens@.len(),
    ensures
        r is Some <==> ident_at(src.tokens@, src.pos as int) is Some,
        r matches Some(i) ==> Some(*i) == ident_at(src.tokens@, src.pos as int),
{
    match src.peek() {
        Some(TtElement::Leaf { leaf: Leaf::Ident(i), .. }) => Some(i),
        _ => None,
    }
}

/// The style that the rule at a place starts with, and how many tokens say so.
pub open spec fn rule_style(t: Seq<TtElement>, pos: int) -> Result<(MacroCallStyle, int), SpecError> {
    let start = if ident_at(t, pos) matches Some(i) && i.sym@ == "unsafe"@ {
        pos + 1
    } else {
        pos
    };
    let style = if ident_at(t, start) matches Some(i) && i.sym@ == "attr"@ {
        MacroCallStyle::Attr
    } else if ident_at(t, start) matches Some(i) && i.sym@ == "derive"@ {
        MacroCallStyle::Derive
    } else {
        MacroCallStyle::FnLike
    };
    if style == MacroCallStyle::FnLike {
        Ok((style, start))
    } else if subtree_at(t, start + 1) is Some {
        Ok((style, start + 2))
    } else {
        Err(SpecError::Expected("expected `()`"@))
    }
}

/// Reads how the macro of a rule is called. An `unsafe` in front is skipped.
pub fn parse_rule_style(src: &mut TtIter<'_>) -> (r: Result<MacroCallStyle, ParseError>)
    requires
        old(src).pos <= old(src).tokens@.len(),
    ensures
        final(src).tokens == old(src).tokens,
        final(src).pos <= final(src).tokens@.len(),
        match (r, rule_style(old(src).tokens@, old(src).pos as int)) {
            (Ok(style), Ok((s, next))) => style == s && final(src).pos == next,
            (Err(e), Err(err)) => e@ == err,
            _ => false,
        },
{
    let ghost t = src.tokens@;
    if let Some(i) = peek_ident(src) {
        if text::same_text(i.sym.as_str(), "unsafe") {
            let _ = src.next();
        }
    }
    let style = match peek_ident(src) {
        Some(i) => if text::same_text(i.sym.as_str(), "attr") {
            MacroCallStyle::Attr
        } else if text::same_text(i.sym.as_str(), "derive") {
            MacroCallStyle::Derive
        } else {
            return Ok(MacroCallStyle::FnLike);
        },
        None => {
            return Ok(MacroCallStyle::FnLike);
        },
    };
    let _ = src.next();
    match expect_subtree(src) {
        Ok(_) => Ok(style),
        Err(()) => Err(ParseError::expected("expected `()`")),
    }
}

// Fragment specifiers.

/// What a variable matches, by the name behind the colon.
#[verifier::opaque]
pub open spec fn fragment_of(name: Seq<char>, edition: Edition) -> Option<MetaVarKind> {
    if name == "path"@ {
        Some(MetaVarKind::Path)
    } else if name == "ty"@ {
        Some(MetaVarKind::Ty)
    } else if name == "pat"@ {
        if edition.spec_number() >= 2 {
            Some(MetaVarKind::Pat)
        } else {
            Some(MetaVarKind::PatParam)
        }
    } else if name == "pat_param"@ {
        Some(MetaVarKind::PatParam)
    } else if name == "stmt"@ {
        Some(MetaVarKind::Stmt)
    } else if name == "block"@ {
        Some(MetaVarKind::Block)
    } else if name == "meta"@ {
        Some(MetaVarKind::Meta)
    } else if name == "item"@ {
        Some(MetaVarKind::Item)
    } else if name == "vis"@ {
        Some(MetaVarKind::Vis)
    } else if name == "expr"@ {
        if edition.spec_number() >= 3 {
            Some(MetaVarKind::Expr(ExprKind::Expr))
        } else {
            Some(MetaVarKind::Expr(ExprKind::Expr2021))
        }
    } else if name == "expr_2021"@ {
        Some(MetaVarKind::Expr(ExprKind::Expr2021))
    } else if name == "ident"@ {
        Some(MetaVarKind::Ident)
    } else if name == "tt"@ {
        Some(MetaVarKind::Tt)
    } else if name == "lifetime"@ {
        Some(MetaVarKind::Lifetime)
    } else if name == "literal"@ {
        Some(MetaVarKind::Literal)
    } else {
        None
    }
}

/// The specifier behind a variable: what it says, and the place behind it. A template has none.
pub open spec fn fragment_at(
    editions: Editions,
    t: Seq<TtElement>,
    pos: int,
    mode: Mode,
) -> Result<(Option<MetaVarKind>, int), SpecError> {
    if mode == Mode::Template {
        Ok((None, pos))
    } else if !char_at(t, pos, ':') {
        Err(SpecError::UnexpectedToken("missing fragment specifier"@))
    } else {
        match name_at(t, pos + 1) {
            Some(i) => Ok((fragment_of(i.sym@, editions.of_from(i.span.ctx, 0)), pos + 2)),
            None => Err(SpecError::UnexpectedToken("missing fragment specifier"@)),
        }
    }
}

fn fragment_kind(name: &str, edition: Edition) -> (r: Option<MetaVarKind>)
    ensures
        r == fragment_of(name@, edition),
{
    proof {
        reveal(fragment_of);
    }
    if text::same_text(name, "path") {
        Some(MetaVarKind::Path)
    } else if text::same_text(name, "ty") {
        Some(MetaVarKind::Ty)
    } else if text::same_text(name, "pat") {
        if edition.at_least_2021() {
            Some(MetaVarKind::Pat)
        } else {
            Some(MetaVarKind::PatParam)
        }
    } else if text::same_text(name, "pat_param") {
        Some(MetaVarKind::PatParam)
    } else if text::same_text(name, "stmt") {
        Some(MetaVarKind::Stmt)
    } else if text::same_text(name, "block") {
        Some(MetaVarKind::Block)
    } else if text::same_text(name, "meta") {
        Some(MetaVarKind::Meta)
    } else if text::same_text(name, "item") {
        Some(MetaVarKind::Item)
    } else if text::same_text(name, "vis") {
        Some(MetaVarKind::Vis)
    } else if text::same_text(name, "expr") {
        if edition.at_least_2024() {
            Some(MetaVarKind::Expr(ExprKind::Expr))
        } else {
            Some(MetaVarKind::Expr(ExprKind::Expr2021))
        }
    } else if text::same_text(name, "expr_2021") {
        Some(MetaVarKind::Expr(ExprKind::Expr2021))
    } else if text::same_text(name, "ident") {
        Some(MetaVarKind::Ident)
    } else if text::same_text(name, "tt") {
        Some(MetaVarKind::Tt)
    } else if text::same_text(name, "lifetime") {
        Some(MetaVarKind::Lifetime)
    } else if text::same_text(name, "literal") {
        Some(MetaVarKind::Literal)
    } else {
        None
    }
}

/// Reads the specifier behind a variable.
pub fn eat_fragment_kind(editions: &Editions, src: &mut TtIter<'_>, mode: Mode) -> (r: Result<
    Option<MetaVarKind>,
    ParseError,
>)
    requires
        old(src).pos <= old(src).tokens@.len(),
    ensures
        final(src).tokens == old(src).tokens,
        final(src).pos <= final(src).tokens@.len(),
        match (r, fragment_at(*editions, old(src).tokens@, old(src).pos as int, mode)) {
            (Ok(kind), Ok((k, next))) => kind == k && final(src).pos == next,
            (Err(e), Err(err)) => e@ == err,
            _ => false,
        },
{
    if let Mode::Template = mode {
        return Ok(None);
    }
    if expect_char(src, ':').is_err() {
        return Err(ParseError::unexpected("missing fragment specifier"));
    }
    match expect_ident(src) {
        Ok(ident) => Ok(fragment_kind(ident.sym.as_str(), editions.of(ident.span.ctx))),
        Err(()) => Err(ParseError::unexpected("missing fragment specifier")),
    }
}

// Repetitions.

pub open spec fn has_separator(s: SpecSeparator) -> bool {
    match s {
        SpecSeparator::Puncts(p) => p.len() > 0,
        _ => true,
    }
}

/// How often a part comes, by the character behind it.
pub open spec fn repeat_kind_of(c: char) -> Option<RepeatKind> {
    if c == '*' {
        Some(RepeatKind::ZeroOrMore)
    } else if c == '+' {
        Some(RepeatKind::OneOrMore)
    } else if c == '?' {
        Some(RepeatKind::ZeroOrOne)
    } else {
        None
    }
}

/// What stands behind the parentheses of a repetition, where `sep` has been read already: a
/// separator, if there is one, how often the part comes, and the place behind that. A separator is a
/// name, a literal, a lifetime or up to three punctuation characters.
pub open spec fn repeat_at(t: Seq<TtElement>, pos: nat, sep: SpecSeparator) -> Option<
    (Option<SpecSeparator>, RepeatKind, nat),
>
    decreases t.len() - pos,
{
    if pos >= t.len() {
        None
    } else {
        match t[pos as int] {
            TtElement::Subtree(_) => None,
            TtElement::Leaf { leaf, .. } => match leaf {
                Leaf::Ident(ident) => match sep {
                    SpecSeparator::Puncts(p) if p.len() == 0 => repeat_at(
                        t,
                        pos + 1,
                        SpecSeparator::Ident(op::ident_view(ident)),
                    ),
                    SpecSeparator::Puncts(p) if p.len() == 1 && p[0].char == '\'' => repeat_at(
                        t,
                        pos + 1,
                        SpecSeparator::Lifetime(p[0], op::ident_view(ident)),
                    ),
                    _ => None,
                },
                Leaf::Literal(lit) => if has_separator(sep) {
                    None
                } else {
                    repeat_at(t, pos + 1, SpecSeparator::Literal(op::literal_view(lit)))
                },
                Leaf::Punct(punct) => match repeat_kind_of(punct.char) {
                    Some(kind) => Some(
                        (
                            if has_separator(sep) {
                                Some(sep)
                            } else {
                                None
                            },
                            kind,
                            pos + 1,
                        ),
                    ),
                    None => match sep {
                        SpecSeparator::Puncts(p) if p.len() < 3 => repeat_at(
                            t,
                            pos + 1,
                            SpecSeparator::Puncts(p.push(punct)),
                        ),
                        _ => None,
                    },
                },
            },
        }
    }
}

proof fn lemma_repeat_at(t: Seq<TtElement>, pos: nat, sep: SpecSeparator)
    ensures
        repeat_at(t, pos, sep) matches Some((_, _, next)) ==> pos < next <= t.len(),
    decreases t.len() - pos,
{
    if pos < t.len() {
        if let TtElement::Leaf { leaf, .. } = t[pos as int] {
            match leaf {
                Leaf::Ident(ident) => {
                    if let SpecSeparator::Puncts(p) = sep {
                        lemma_repeat_at(t, pos + 1, SpecSeparator::Ident(op::ident_view(ident)));
                        lemma_repeat_at(
                            t,
                            pos + 1,
                            SpecSeparator::Lifetime(p[0], op::ident_view(ident)),
                        );
                    }
                },
                Leaf::Literal(lit) => {
                    lemma_repeat_at(t, pos + 1, SpecSeparator::Literal(op::literal_view(lit)));
                },
                Leaf::Punct(punct) => {
                    if let SpecSeparator::Puncts(p) = sep {
                        lemma_repeat_at(t, pos + 1, SpecSeparator::Puncts(p.push(punct)));
                    }
                },
            }
        }
    }
}

/// Reads what stands behind the parentheses of a repetition.
pub fn parse_repeat(src: &mut TtIter<'_>) -> (r: Result<
    (Option<Separator>, RepeatKind),
    ParseError,
>)
    requires
        old(src).pos <= old(src).tokens@.len(),
    ensures
        final(src).tokens == old(src).tokens,
        final(src).pos <= final(src).tokens@.len(),
        match (
            r,
            repeat_at(
                old(src).tokens@,
                old(src).pos as nat,
                SpecSeparator::Puncts(Seq::empty()),
            ),
        ) {
            (Ok((separator, kind)), Some((s, k, next))) => {
                &&& kind == k
                &&& separator is Some <==> s is Some
                &&& separator matches Some(sep) ==> Some(sep@) == s
                &&& final(src).pos == next
            },
            (Err(e), None) => e@ == SpecError::InvalidRepeat,
            _ => false,
        },
{
    let ghost t = src.tokens@;
    let ghost target = repeat_at(t, src.pos as nat, SpecSeparator::Puncts(Seq::empty()));
    let mut separator = Separator::Puncts(op::punct_vec_new());
    loop
        invariant
            src.tokens@ == t,
            src.tokens == old(src).tokens,
            src.pos <= t.len(),
            target == repeat_at(
                old(src).tokens@,
                old(src).pos as nat,
                SpecSeparator::Puncts(Seq::empty()),
            ),
            repeat_at(t, src.pos as nat, separator@) == target,
            separator@ matches SpecSeparator::Puncts(p) ==> p.len() <= 3,
        decreases t.len() - src.pos,
    {
        let leaf = match src.next() {
            Some(TtElement::Leaf { leaf, .. }) => leaf,
            _ => {
                return Err(ParseError::InvalidRepeat);
            },
        };
        let has_sep = match &separator {
            Separator::Puncts(puncts) => op::punct_vec_as_slice(puncts).len() > 0,
            _ => true,
        };
        assert(has_sep == has_separator(separator@));
        match leaf {
            Leaf::Ident(ident) => {
                let next = match &separator {
                    Separator::Puncts(puncts) => {
                        let puncts = op::punct_vec_as_slice(puncts);
                        if puncts.len() == 0 {
                            Separator::Ident(ident.clone())
                        } else if puncts.len() == 1 && puncts[0].char == '\'' {
                            Separator::Lifetime(puncts[0], ident.clone())
                        } else {
                            return Err(ParseError::InvalidRepeat);
                        }
                    },
                    _ => {
                        return Err(ParseError::InvalidRepeat);
                    },
                };
                separator = next;
            },
            Leaf::Literal(lit) => {
                if has_sep {
                    return Err(ParseError::InvalidRepeat);
                }
                separator = Separator::Literal(lit.clone());
            },
            Leaf::Punct(punct) => {
                let kind = if punct.char == '*' {
                    Some(RepeatKind::ZeroOrMore)
                } else if punct.char == '+' {
                    Some(RepeatKind::OneOrMore)
                } else if punct.char == '?' {
                    Some(RepeatKind::ZeroOrOne)
                } else {
                    None
                };
                if let Some(kind) = kind {
                    let separator = if has_sep {
                        Some(separator)
                    } else {
                        None
                    };
                    return Ok((separator, kind));
                }
                match &mut separator {
                    Separator::Puncts(puncts) => {
                        if op::punct_vec_as_slice(puncts).len() < 3 {
                            op::punct_vec_push(puncts, *punct);
                        } else {
                            return Err(ParseError::InvalidRepeat);
                        }
                    },
                    _ => {
                        return Err(ParseError::InvalidRepeat);
                    },
                }
            },
        }
    }
}

// Metavariable expressions.

pub open spec fn is_digit(c: char) -> bool {
    '0' <= c <= '9'
}

/// The number that a sequence of digits stands for.
pub open spec fn number_value(d: Seq<char>) -> nat
    decreases d.len(),
{
    if d.len() == 0 {
        0
    } else {
        number_value(d.drop_last()) * 10 + (d.last() as u32 - '0' as u32) as nat
    }
}

/// The number that a text stands for: decimal digits, which a plus may precede.
pub open spec fn number_of(s: Seq<char>) -> Option<nat> {
    let d = unsigned(s);
    if d.len() > 0 && all_digits(d) && number_value(d) <= usize::MAX {
        Some(number_value(d))
    } else {
        None
    }
}

/// The text without a plus in front.
pub open spec fn unsigned(s: Seq<char>) -> Seq<char> {
    if s.len() > 0 && s[0] == '+' {
        s.skip(1)
    } else {
        s
    }
}

pub open spec fn all_digits(d: Seq<char>) -> bool {
    forall|i: int| 0 <= i < d.len() ==> is_digit(#[trigger] d[i])
}

proof fn lemma_number_grows(d: Seq<char>, i: int)
    requires
        0 <= i <= d.len(),
        all_digits(d),
    ensures
        number_value(d.take(i)) <= number_value(d),
    decreases d.len() - i,
{
    if i == d.len() {
        assert(d.take(i) =~= d);
    } else {
        lemma_number_grows(d, i + 1);
        assert(d.take(i + 1).drop_last() =~= d.take(i));
        assert(is_digit(d[i]));
    }
}

/// Reads a number.
fn parse_number(text: &str) -> (r: Result<usize, ()>)
    ensures
        r is Ok <==> number_of(text@) is Some,
        r matches Ok(n) ==> Some(n as nat) == number_of(text@),
{
    let len: usize = text.unicode_len();
    let start: usize = if len > 0 && text.get_char(0) == '+' {
        1
    } else {
        0
    };
    let ghost d = unsigned(text@);
    assert(text@.skip(0) =~= text@);
    if start == len {
        return Err(());
    }
    let mut n: usize = 0;
    let mut i: usize = start;
    assert(d.take(0) =~= Seq::<char>::empty());
    while i < len
        invariant
            len == text@.len(),
            start <= i <= len,
            d == unsigned(text@),
            d == text@.skip(start as int),
            forall|j: int| 0 <= j < i - start ==> is_digit(#[trigger] d[j]),
            n == number_value(d.take(i - start)),
        decreases len - i,
    {
        let c = text.get_char(i);
        assert(d[i - start] == c);
        if !('0' <= c && c <= '9') {
            assert(!all_digits(d)) by {
                assert(!is_digit(d[i - start]));
            }
            return Err(());
        }
        let digit: usize = c as usize - '0' as usize;
        proof {
            let longer = d.take(i - start + 1);
            assert(longer.drop_last() =~= d.take(i - start));
            assert(longer.last() == c);
            assert(number_value(longer) == n * 10 + digit);
            if all_digits(d) {
                lemma_number_grows(d, i - start + 1);
            }
        }
        n = match n.checked_mul(10) {
            Some(m) => match m.checked_add(digit) {
                Some(m) => m,
                None => {
                    return Err(());
                },
            },
            None => {
                return Err(());
            },
        };
        i = i + 1;
    }
    assert(d.take(len - start) =~= d);
    Ok(n)
}

/// The depth at a place, with the place behind it: none is zero, a number without a suffix counts.
pub open spec fn depth_at(t: Seq<TtElement>, pos: int) -> Option<(nat, int)> {
    if pos >= t.len() {
        Some((0, pos))
    } else {
        match literal_at(t, pos) {
            Some(lit) if lit.suffix_len == 0 => match number_of(lit.text_and_suffix@) {
                Some(n) => Some((n, pos + 1)),
                None => None,
            },
            _ => None,
        }
    }
}

fn parse_depth(src: &mut TtIter<'_>) -> (r: Result<usize, ()>)
    requires
        old(src).pos <= old(src).tokens@.len(),
    ensures
        final(src).tokens == old(src).tokens,
        final(src).pos <= final(src).tokens@.len(),
        match (r, depth_at(old(src).tokens@, old(src).pos as int)) {
            (Ok(depth), Some((d, next))) => depth == d && final(src).pos == next,
            (Err(()), None) => true,
            _ => false,
        },
{
    if src.is_empty() {
        return Ok(0);
    }
    match src.next() {
        Some(TtElement::Leaf { leaf: Leaf::Literal(lit), .. }) => {
            // Suffixes are not allowed.
            if lit.suffix_len == 0 {
                parse_number(lit.text_and_suffix.as_str())
            } else {
                Err(())
            }
        },
        _ => Err(()),
    }
}

/// Takes the character `c`, if it comes next.
fn try_eat_char(src: &mut TtIter<'_>, c: char) -> (r: bool)
    requires
        old(src).pos <= old(src).tokens@.len(),
    ensures
        final(src).tokens == old(src).tokens,
        r == char_at(old(src).tokens@, old(src).pos as int, c),
        final(src).pos == old(src).pos + if r {
            1int
        } else {
            0int
        },
{
    if let Some(TtElement::Leaf { leaf: Leaf::Punct(p), .. }) = src.peek() {
        if p.char == c {
            let _ = src.next();
            return true;
        }
    }
    false
}

pub fn try_eat_comma(src: &mut TtIter<'_>) -> (r: bool)
    requires
        old(src).pos <= old(src).tokens@.len(),
    ensures
        final(src).tokens == old(src).tokens,
        r == char_at(old(src).tokens@, old(src).pos as int, ','),
        final(src).pos == old(src).pos + if r {
            1int
        } else {
            0int
        },
{
    try_eat_char(src, ',')
}

pub fn try_eat_dollar(src: &mut TtIter<'_>) -> (r: bool)
    requires
        old(src).pos <= old(src).tokens@.len(),
    ensures
        final(src).tokens == old(src).tokens,
        r == char_at(old(src).tokens@, old(src).pos as int, '$'),
        final(src).pos == old(src).pos + if r {
            1int
        } else {
            0int
        },
{
    try_eat_char(src, '$')
}

/// One element of `${concat(..)}`, with the place behind it.
pub open spec fn concat_elem_at(t: Seq<TtElement>, pos: int) -> Option<(SpecConcatElem, int)> {
    match literal_at(t, pos) {
        Some(lit) => Some((SpecConcatElem::Literal(op::literal_view(lit)), pos + 1)),
        None => if char_at(t, pos, '$') {
            match ident_at(t, pos + 1) {
                Some(i) => Some((SpecConcatElem::Var(op::ident_view(i)), pos + 2)),
                None => None,
            }
        } else {
            match ident_at(t, pos) {
                Some(i) => Some((SpecConcatElem::Ident(op::ident_view(i)), pos + 1)),
                None => None,
            }
        },
    }
}

/// The elements of `${concat(..)}` from a place on, behind those that were read already. A comma
/// stands between them, and may stand behind the last.
pub open spec fn concat_at(t: Seq<TtElement>, pos: nat, before: Seq<SpecConcatElem>) -> Option<
    Seq<SpecConcatElem>,
>
    decreases t.len() - pos,
{
    if pos >= t.len() {
        Some(before)
    } else {
        match concat_elem_at(t, pos as int) {
            Some((elem, next)) => if next >= t.len() {
                Some(before.push(elem))
            } else if char_at(t, next, ',') {
                concat_at(t, (next + 1) as nat, before.push(elem))
            } else {
                None
            },
            None => None,
        }
    }
}

fn parse_concat(src: &mut TtIter<'_>) -> (r: Result<Vec<ConcatMetaVarExprElem>, ()>)
    requires
        old(src).pos <= old(src).tokens@.len(),
    ensures
        final(src).tokens == old(src).tokens,
        final(src).pos <= final(src).tokens@.len(),
        match (r, concat_at(old(src).tokens@, old(src).pos as nat, Seq::empty())) {
            (Ok(elements), Some(e)) => {
                &&& op::elems_view(elements@) == e
                &&& final(src).pos == final(src).tokens@.len()
            },
            (Err(()), None) => true,
            _ => false,
        },
{
    let ghost t = src.tokens@;
    let ghost target = concat_at(t, src.pos as nat, Seq::empty());
    let mut elements: Vec<ConcatMetaVarExprElem> = Vec::new();
    assert(op::elems_view(elements@) =~= Seq::empty());
    while !src.is_empty()
        invariant
            src.tokens@ == t,
            src.tokens == old(src).tokens,
            src.pos <= t.len(),
            target == concat_at(old(src).tokens@, old(src).pos as nat, Seq::empty()),
            concat_at(t, src.pos as nat, op::elems_view(elements@)) == target,
        decreases t.len() - src.pos,
    {
        let ghost before = op::elems_view(elements@);
        let element = if let Some(TtElement::Leaf { leaf: Leaf::Literal(lit), .. }) = src.peek() {
            let _ = src.next();
            ConcatMetaVarExprElem::Literal(lit.clone())
        } else {
            let is_var = try_eat_dollar(src);
            match expect_ident_or_underscore(src) {
                Ok(ident) => if is_var {
                    ConcatMetaVarExprElem::Var(ident.clone())
                } else {
                    ConcatMetaVarExprElem::Ident(ident.clone())
                },
                Err(()) => {
                    return Err(());
                },
            }
        };
        elements.push(element);
        assert(op::elems_view(elements@) =~= before.push(element@));
        if !src.is_empty() {
            if expect_char(src, ',').is_err() {
                return Err(());
            }
        }
    }
    Ok(elements)
}

/// The operation that `${..}` with the given tokens stands for. What follows the arguments is
/// ignored.
#[verifier::opaque]
pub open spec fn metavar_expr(t: Seq<TtElement>) -> Option<SpecOp> {
    match (name_at(t, 0), subtree_at(t, 1)) {
        (Some(func), Some(args)) => if args.delimiter.kind != DelimiterKind::Parenthesis {
            None
        } else {
            let a = args.tokens@;
            if func.sym@ == "ignore"@ {
                match name_at(a, 1) {
                    Some(ident) if char_at(a, 0, '$') && a.len() == 2 => Some(
                        SpecOp::Ignore { name: ident.sym@, id: ident.span },
                    ),
                    _ => None,
                }
            } else if func.sym@ == "index"@ {
                match depth_at(a, 0) {
                    Some((depth, next)) if next == a.len() => Some(SpecOp::Index { depth }),
                    _ => None,
                }
            } else if func.sym@ == "len"@ {
                match depth_at(a, 0) {
                    Some((depth, next)) if next == a.len() => Some(SpecOp::Len { depth }),
                    _ => None,
                }
            } else if func.sym@ == "count"@ {
                match name_at(a, 1) {
                    Some(ident) if char_at(a, 0, '$') => if char_at(a, 2, ',') {
                        match depth_at(a, 3) {
                            Some((depth, next)) if next == a.len() => Some(
                                SpecOp::Count { name: ident.sym@, depth },
                            ),
                            _ => None,
                        }
                    } else if a.len() == 2 {
                        Some(SpecOp::Count { name: ident.sym@, depth: 0 })
                    } else {
                        None
                    },
                    _ => None,
                }
            } else if func.sym@ == "concat"@ {
                match concat_at(a, 0, Seq::empty()) {
                    Some(elements) if elements.len() >= 2 => Some(
                        SpecOp::Concat { elements, span: func.span },
                    ),
                    _ => None,
                }
            } else {
                None
            }
        },
        _ => None,
    }
}

/// Reads the operation that `${..}` with the tokens from here on stands for. Takes the name and the
/// arguments behind it, or what stands in place of the first of them that is not there.
pub fn parse_metavar_expr(src: &mut TtIter<'_>) -> (r: Result<Op, ()>)
    requires
        old(src).pos <= old(src).tokens@.len(),
    ensures
        match (r, metavar_expr(old(src).tokens@.skip(old(src).pos as int))) {
            (Ok(op), Some(o)) => op::op_view(op) == o,
            (Err(()), None) => true,
            _ => false,
        },
        final(src).tokens == old(src).tokens,
        final(src).pos == behind(
            old(src).tokens@,
            old(src).pos as int,
            if name_at(old(src).tokens@, old(src).pos as int) is Some {
                2
            } else {
                1
            },
        ),
{
    proof {
        reveal(metavar_expr);
        let t = src.tokens@.skip(src.pos as int);
        assert(name_at(t, 0) == name_at(src.tokens@, src.pos as int));
        assert(subtree_at(t, 1) == subtree_at(src.tokens@, src.pos + 1));
    }
    let func = match expect_ident(src) {
        Ok(func) => func,
        Err(()) => {
            return Err(());
        },
    };
    let args = match expect_subtree(src) {
        Ok(args) => args,
        Err(()) => {
            return Err(());
        },
    };
    if args.delimiter.kind != DelimiterKind::Parenthesis {
        return Err(());
    }
    let mut args_iter = TtIter::new(&args.tokens);
    let name = func.sym.as_str();
    let r = if text::same_text(name, "ignore") {
        if expect_char(&mut args_iter, '$').is_err() {
            return Err(());
        }
        match expect_ident(&mut args_iter) {
            Ok(ident) => Op::Ignore { name: ident.sym.clone(), id: ident.span },
            Err(()) => {
                return Err(());
            },
        }
    } else if text::same_text(name, "index") {
        match parse_depth(&mut args_iter) {
            Ok(depth) => Op::Index { depth },
            Err(()) => {
                return Err(());
            },
        }
    } else if text::same_text(name, "len") {
        match parse_depth(&mut args_iter) {
            Ok(depth) => Op::Len { depth },
            Err(()) => {
                return Err(());
            },
        }
    } else if text::same_text(name, "count") {
        if expect_char(&mut args_iter, '$').is_err() {
            return Err(());
        }
        match expect_ident(&mut args_iter) {
            Ok(ident) => {
                let depth: usize = if try_eat_comma(&mut args_iter) {
                    match parse_depth(&mut args_iter) {
                        Ok(depth) => depth,
                        Err(()) => {
                            return Err(());
                        },
                    }
                } else {
                    0
                };
                Op::Count { name: ident.sym.clone(), depth }
            },
            Err(()) => {
                return Err(());
            },
        }
    } else if text::same_text(name, "concat") {
        match parse_concat(&mut args_iter) {
            Ok(elements) => {
                assert(op::elems_view(elements@).len() == elements@.len());
                if elements.len() < 2 {
                    return Err(());
                }
                Op::Concat { payload: Box::new(ConcatOp { elements, span: func.span }) }
            },
            Err(()) => {
                return Err(());
            },
        }
    } else {
        return Err(());
    };
    if args_iter.next().is_some() {
        return Err(());
    }
    Ok(r)
}

// Patterns and templates.

/// The punctuation characters from a place on.
pub open spec fn puncts_from(t: Seq<TtElement>, pos: int, n: nat) -> Seq<Punct> {
    Seq::new(n, |k: int| punct_at(t, pos + k)->0)
}

/// What stands at a place: an operation, or one that still needs the tokens of a subtree read. Each
/// comes with the place behind it.
pub ghost enum Shape {
    Fail(SpecError),
    Op(SpecOp, nat),
    Repeat(Subtree, Option<SpecSeparator>, RepeatKind, nat),
    Subtree(Subtree, nat),
}

pub open spec fn is_boolean(text: Seq<char>) -> bool {
    text == "true"@ || text == "false"@
}

/// A variable with the given name, whose specifier stands at `pos`.
pub open spec fn variable(
    editions: Editions,
    t: Seq<TtElement>,
    pos: int,
    mode: Mode,
    name: Seq<char>,
    id: crate::span::Span,
) -> Shape {
    match fragment_at(editions, t, pos, mode) {
        Ok((kind, next)) => Shape::Op(SpecOp::Var { name, kind, id }, next as nat),
        Err(e) => Shape::Fail(e),
    }
}

/// What a dollar at the place `pos` starts.
pub open spec fn dollar_shape(
    editions: Editions,
    t: Seq<TtElement>,
    pos: nat,
    dollar: Punct,
    mode: Mode,
) -> Shape {
    if pos + 1 >= t.len() {
        // A dollar at the end stands for itself.
        Shape::Op(SpecOp::Punct(seq![dollar]), pos + 1)
    } else {
        match t[(pos + 1) as int] {
            TtElement::Subtree(s) => match s.delimiter.kind {
                DelimiterKind::Parenthesis => match repeat_at(
                    t,
                    pos + 2,
                    SpecSeparator::Puncts(Seq::empty()),
                ) {
                    Some((separator, kind, next)) => Shape::Repeat(s, separator, kind, next),
                    None => Shape::Fail(SpecError::InvalidRepeat),
                },
                DelimiterKind::Brace => match mode {
                    Mode::Template => match metavar_expr(s.tokens@) {
                        Some(op) => Shape::Op(op, pos + 2),
                        None => Shape::Fail(
                            SpecError::UnexpectedToken("invalid metavariable expression"@),
                        ),
                    },
                    Mode::Pattern => Shape::Fail(
                        SpecError::UnexpectedToken(
                            "`${}` metavariable expressions are not allowed in matchers"@,
                        ),
                    ),
                },
                _ => Shape::Fail(
                    SpecError::Expected("expected `$()` repetition or `${}` expression"@),
                ),
            },
            TtElement::Leaf { leaf, .. } => match leaf {
                Leaf::Ident(ident) => if ident.sym@ == "crate"@ {
                    Shape::Op(
                        SpecOp::Ident(
                            SpecIdent {
                                sym: "$crate"@,
                                span: ident.span,
                                is_raw: IdentIsRaw::No,
                            },
                        ),
                        pos + 2,
                    )
                } else {
                    variable(editions, t, (pos + 2) as int, mode, ident.sym@, ident.span)
                },
                Leaf::Literal(lit) => if is_boolean(lit.text_and_suffix@) {
                    variable(editions, t, (pos + 2) as int, mode, lit.text_and_suffix@, lit.span)
                } else {
                    Shape::Fail(SpecError::Expected("expected ident"@))
                },
                Leaf::Punct(p) => if p.char == '$' {
                    match mode {
                        Mode::Pattern => Shape::Fail(
                            SpecError::UnexpectedToken("`$$` is not allowed on the pattern side"@),
                        ),
                        Mode::Template => Shape::Op(SpecOp::Punct(seq![p]), pos + 2),
                    }
                } else {
                    Shape::Fail(SpecError::Expected("expected ident"@))
                },
            },
        }
    }
}

/// What stands at the place `pos`.
pub open spec fn shape(editions: Editions, t: Seq<TtElement>, pos: nat, mode: Mode) -> Shape {
    match t[pos as int] {
        TtElement::Leaf { leaf, glued } => match leaf {
            Leaf::Punct(p) => if p.char == '$' {
                dollar_shape(editions, t, pos, p, mode)
            } else {
                Shape::Op(
                    SpecOp::Punct(puncts_from(t, pos as int, glued as nat)),
                    (pos + glued) as nat,
                )
            },
            Leaf::Literal(lit) => Shape::Op(SpecOp::Literal(op::literal_view(lit)), pos + 1),
            Leaf::Ident(ident) => Shape::Op(SpecOp::Ident(op::ident_view(ident)), pos + 1),
        },
        TtElement::Subtree(s) => Shape::Subtree(s, pos + 1),
    }
}

/// Every operation takes at least one token.
pub proof fn lemma_shape(editions: Editions, t: Seq<TtElement>, pos: nat, mode: Mode)
    requires
        pos < t.len(),
        tt::tokens_wf(t),
    ensures
        match shape(editions, t, pos, mode) {
            Shape::Fail(_) => true,
            Shape::Op(_, next) => pos < next <= t.len(),
            Shape::Repeat(s, _, _, next) => pos < next <= t.len() && pos + 1 < t.len() && t[(pos + 1) as int]
                == TtElement::Subtree(s),
            Shape::Subtree(s, next) => pos < next <= t.len() && t[pos as int]
                == TtElement::Subtree(s),
        },
{
    assert(tt::glue_fits(t, pos as int));
    if let TtElement::Leaf { leaf: Leaf::Punct(p), glued } = t[pos as int] {
        assert(tt::is_punct_at(t, pos + glued - 1));
    }
    lemma_repeat_at(t, pos + 2, SpecSeparator::Puncts(Seq::empty()));
}

/// The operations from a place on, behind those that were read already, or the first thing that is
/// wrong.
pub open spec fn ops_from(
    editions: Editions,
    t: Seq<TtElement>,
    pos: nat,
    mode: Mode,
    before: Seq<SpecOp>,
) -> Result<Seq<SpecOp>, SpecError>
    decreases t, t.len() - pos,
    when tt::tokens_wf(t)
    via ops_from_decreases
{
    if pos >= t.len() {
        Ok(before)
    } else {
        match shape(editions, t, pos, mode) {
            Shape::Fail(e) => Err(e),
            Shape::Op(op, next) => ops_from(editions, t, next, mode, before.push(op)),
            Shape::Repeat(s, separator, kind, next) => match ops_from(
                editions,
                s.tokens@,
                0,
                mode,
                Seq::empty(),
            ) {
                Ok(tokens) => ops_from(
                    editions,
                    t,
                    next,
                    mode,
                    before.push(SpecOp::Repeat { tokens, kind, separator }),
                ),
                Err(e) => Err(e),
            },
            Shape::Subtree(s, next) => match ops_from(
                editions,
                s.tokens@,
                0,
                mode,
                Seq::empty(),
            ) {
                Ok(tokens) => ops_from(
                    editions,
                    t,
                    next,
                    mode,
                    before.push(SpecOp::Subtree { tokens, delimiter: s.delimiter }),
                ),
                Err(e) => Err(e),
            },
        }
    }
}

#[via_fn]
proof fn ops_from_decreases(
    editions: Editions,
    t: Seq<TtElement>,
    pos: nat,
    mode: Mode,
    before: Seq<SpecOp>,
) {
    if pos < t.len() {
        lemma_shape(editions, t, pos, mode);
        match shape(editions, t, pos, mode) {
            Shape::Repeat(s, _, _, _) => {
                assert(decreases_to!(t => t[(pos + 1) as int]));
                assert(decreases_to!(t[(pos + 1) as int] => s));
                assert(decreases_to!(s => s.tokens@));
            },
            Shape::Subtree(s, _) => {
                assert(decreases_to!(t => t[pos as int]));
                assert(decreases_to!(t[pos as int] => s));
                assert(decreases_to!(s => s.tokens@));
            },
            _ => {},
        }
    }
}

/// The operation at a place, with the place behind it.
pub open spec fn op_at(editions: Editions, t: Seq<TtElement>, pos: nat, mode: Mode) -> Result<
    (SpecOp, nat),
    SpecError,
> {
    match shape(editions, t, pos, mode) {
        Shape::Fail(e) => Err(e),
        Shape::Op(op, next) => Ok((op, next)),
        Shape::Repeat(s, separator, kind, next) => match ops_from(
            editions,
            s.tokens@,
            0,
            mode,
            Seq::empty(),
        ) {
            Ok(tokens) => Ok((SpecOp::Repeat { tokens, kind, separator }, next)),
            Err(e) => Err(e),
        },
        Shape::Subtree(s, next) => match ops_from(editions, s.tokens@, 0, mode, Seq::empty()) {
            Ok(tokens) => Ok((SpecOp::Subtree { tokens, delimiter: s.delimiter }, next)),
            Err(e) => Err(e),
        },
    }
}

fn is_boolean_literal(lit: &Literal) -> (r: bool)
    ensures
        r == is_boolean(lit.text_and_suffix@),
{
    text::same_text(lit.text_and_suffix.as_str(), "true") || text::same_text(
        lit.text_and_suffix.as_str(),
        "false",
    )
}

fn single_punct(punct: Punct) -> (r: Op)
    ensures
        op::op_view(r) == SpecOp::Punct(seq![punct]),
{
    let mut puncts: Vec<Punct> = Vec::new();
    puncts.push(punct);
    assert(puncts@ =~= seq![punct]);
    Op::from_puncts(puncts)
}

/// Takes the punctuation characters that form one token.
fn expect_glued_punct(src: &mut TtIter<'_>, glued: usize) -> (r: Vec<Punct>)
    requires
        old(src).pos + glued <= old(src).tokens@.len(),
        forall|k: int|
            old(src).pos <= k < old(src).pos + glued ==> #[trigger] tt::is_punct_at(
                old(src).tokens@,
                k,
            ),
    ensures
        final(src).tokens == old(src).tokens,
        final(src).pos == old(src).pos + glued,
        r@ == puncts_from(old(src).tokens@, old(src).pos as int, glued as nat),
{
    let ghost t = src.tokens@;
    let ghost start = src.pos as int;
    let mut r: Vec<Punct> = Vec::new();
    let mut k: usize = 0;
    while k < glued
        invariant
            k <= glued,
            src.tokens == old(src).tokens,
            src.tokens@ == t,
            start == old(src).pos,
            src.pos == start + k,
            start + glued <= t.len(),
            forall|k: int| start <= k < start + glued ==> #[trigger] tt::is_punct_at(t, k),
            r@ == puncts_from(t, start, k as nat),
        decreases glued - k,
    {
        assert(tt::is_punct_at(t, start + k));
        if let Some(TtElement::Leaf { leaf: Leaf::Punct(p), .. }) = src.next() {
            r.push(*p);
        }
        k = k + 1;
        assert(r@ =~= puncts_from(t, start, k as nat));
    }
    r
}

/// Reads the operation behind a dollar.
fn dollar_op(editions: &Editions, dollar: Punct, src: &mut TtIter<'_>, mode: Mode) -> (r: Result<
    Op,
    ParseError,
>)
    requires
        old(src).wf(),
        0 < old(src).pos,
        old(src).tokens@[old(src).pos - 1] matches TtElement::Leaf { leaf: Leaf::Punct(p), .. } && p
            == dollar && p.char == '$',
    ensures
        final(src).tokens == old(src).tokens,
        match (r, op_at(*editions, old(src).tokens@, (old(src).pos - 1) as nat, mode)) {
            (Ok(op), Ok((o, next))) => op::op_view(op) == o && final(src).pos == next,
            (Err(e), Err(err)) => e@ == err,
            _ => false,
        },
    decreases old(src).tokens@, 0nat,
{
    let ghost t = src.tokens@;
    let ghost pos = (src.pos - 1) as nat;
    assert(shape(*editions, t, pos, mode) == dollar_shape(*editions, t, pos, dollar, mode));
    // A dollar at the end stands for itself.
    let second = match src.next() {
        Some(second) => second,
        None => {
            return Ok(single_punct(dollar));
        },
    };
    assert(*second == t[(pos + 1) as int]);
    match second {
        TtElement::Subtree(subtree) => {
            proof {
                assert(decreases_to!(t => t[(pos + 1) as int]));
                assert(decreases_to!(t[(pos + 1) as int] => *subtree));
                assert(decreases_to!(*subtree => subtree.tokens@));
            }
            match subtree.delimiter.kind {
                DelimiterKind::Parenthesis => {
                    let (separator, kind) = match parse_repeat(src) {
                        Ok(x) => x,
                        Err(e) => {
                            return Err(e);
                        },
                    };
                    let tokens = match parse(editions, TtIter::new(&subtree.tokens), mode) {
                        Ok(tokens) => tokens,
                        Err(e) => {
                            return Err(e);
                        },
                    };
                    let separator = match separator {
                        Some(separator) => Some(Arc::new(separator)),
                        None => None,
                    };
                    Ok(Op::Repeat { tokens, kind, separator })
                },
                DelimiterKind::Brace => match mode {
                    Mode::Template => {
                        let mut inner = TtIter::new(&subtree.tokens);
                        assert(inner.tokens@.skip(0) =~= subtree.tokens@);
                        match parse_metavar_expr(&mut inner) {
                            Ok(op) => Ok(op),
                            Err(()) => Err(
                                ParseError::unexpected("invalid metavariable expression"),
                            ),
                        }
                    },
                    Mode::Pattern => Err(
                        ParseError::unexpected(
                            "`${}` metavariable expressions are not allowed in matchers",
                        ),
                    ),
                },
                _ => Err(ParseError::expected("expected `$()` repetition or `${}` expression")),
            }
        },
        TtElement::Leaf { leaf, .. } => match leaf {
            Leaf::Ident(ident) => {
                if text::same_text(ident.sym.as_str(), "crate") {
                    // The name `$crate` is left as it is, for whoever resolves the path.
                    return Ok(
                        Op::Ident {
                            sym: Symbol::intern("$crate"),
                            span: ident.span,
                            is_raw: IdentIsRaw::No,
                        },
                    );
                }
                match eat_fragment_kind(editions, src, mode) {
                    Ok(kind) => Ok(Op::Var { name: ident.sym.clone(), kind, id: ident.span }),
                    Err(e) => Err(e),
                }
            },
            Leaf::Literal(lit) => {
                if !is_boolean_literal(lit) {
                    return Err(ParseError::expected("expected ident"));
                }
                match eat_fragment_kind(editions, src, mode) {
                    Ok(kind) => Ok(
                        Op::Var { name: lit.text_and_suffix.clone(), kind, id: lit.span },
                    ),
                    Err(e) => Err(e),
                }
            },
            Leaf::Punct(punct) => {
                if punct.char != '$' {
                    return Err(ParseError::expected("expected ident"));
                }
                match mode {
                    Mode::Pattern => Err(
                        ParseError::unexpected("`$$` is not allowed on the pattern side"),
                    ),
                    Mode::Template => Ok(single_punct(*punct)),
                }
            },
        },
    }
}

/// Reads the next operation.
pub fn next_op(editions: &Editions, src: &mut TtIter<'_>, mode: Mode) -> (r: Result<
    Op,
    ParseError,
>)
    requires
        old(src).wf(),
        old(src).pos < old(src).tokens@.len(),
    ensures
        final(src).tokens == old(src).tokens,
        match (r, op_at(*editions, old(src).tokens@, old(src).pos as nat, mode)) {
            (Ok(op), Ok((o, next))) => op::op_view(op) == o && final(src).pos == next,
            (Err(e), Err(err)) => e@ == err,
            _ => false,
        },
    decreases old(src).tokens@, 1nat,
{
    let ghost t = src.tokens@;
    let ghost pos = src.pos as nat;
    match &src.tokens[src.pos] {
        TtElement::Leaf { leaf, glued } => match leaf {
            Leaf::Punct(p) => {
                if p.char == '$' {
                    let _ = src.next();
                    return dollar_op(editions, *p, src, mode);
                }
                assert(tt::glue_fits(t, pos as int));
                assert(tt::is_punct_at(t, pos + *glued - 1));
                let puncts = expect_glued_punct(src, *glued);
                Ok(Op::from_puncts(puncts))
            },
            Leaf::Literal(lit) => {
                let _ = src.next();
                Ok(Op::from_literal(lit.clone()))
            },
            Leaf::Ident(ident) => {
                let _ = src.next();
                Ok(Op::from_ident(ident.clone()))
            },
        },
        TtElement::Subtree(subtree) => {
            proof {
                assert(decreases_to!(t => t[pos as int]));
                assert(decreases_to!(t[pos as int] => *subtree));
                assert(decreases_to!(*subtree => subtree.tokens@));
            }
            let _ = src.next();
            match parse(editions, TtIter::new(&subtree.tokens), mode) {
                Ok(tokens) => Ok(
                    Op::Subtree { tokens, delimiter: Box::new(subtree.delimiter) },
                ),
                Err(e) => Err(e),
            }
        },
    }
}

/// Reads all operations.
fn parse(editions: &Editions, input: TtIter<'_>, mode: Mode) -> (r: Result<
    MetaTemplate,
    ParseError,
>)
    requires
        input.wf(),
    ensures
        match (r, ops_from(*editions, input.tokens@, input.pos as nat, mode, Seq::empty())) {
            (Ok(template), Ok(ops)) => op::ops_view(template.0@) == ops,
            (Err(e), Err(err)) => e@ == err,
            _ => false,
        },
    decreases input.tokens@, 2nat,
{
    let ghost t = input.tokens@;
    let ghost target = ops_from(*editions, t, input.pos as nat, mode, Seq::empty());
    let mut src = input;
    let mut res: Vec<Op> = Vec::new();
    while !src.is_empty()
        invariant
            t == input.tokens@,
            target == ops_from(*editions, input.tokens@, input.pos as nat, mode, Seq::empty()),
            src.tokens@ == t,
            src.wf(),
            ops_from(*editions, t, src.pos as nat, mode, op::ops_view(res@)) == target,
        decreases t.len() - src.pos,
    {
        let ghost before = res@;
        proof {
            lemma_shape(*editions, t, src.pos as nat, mode);
        }
        match next_op(editions, &mut src, mode) {
            Ok(op) => {
                res.push(op);
                assert(res@.drop_last() =~= before);
            },
            Err(e) => {
                return Err(e);
            },
        }
    }
    Ok(MetaTemplate(res))
}

impl MetaTemplate {
    /// Reads the left side of a rule.
    pub fn parse_pattern(editions: &Editions, pattern: TtIter<'_>) -> (r: Result<
        MetaTemplate,
        ParseError,
    >)
        requires
            pattern.wf(),
        ensures
            match (
                r,
                ops_from(
                    *editions,
                    pattern.tokens@,
                    pattern.pos as nat,
                    Mode::Pattern,
                    Seq::empty(),
                ),
            ) {
                (Ok(template), Ok(ops)) => op::ops_view(template.0@) == ops,
                (Err(e), Err(err)) => e@ == err,
                _ => false,
            },
    {
        parse(editions, pattern, Mode::Pattern)
    }

    /// Reads the right side of a rule.
    pub fn parse_template(editions: &Editions, template: TtIter<'_>) -> (r: Result<
        MetaTemplate,
        ParseError,
    >)
        requires
            template.wf(),
        ensures
            match (
                r,
                ops_from(
                    *editions,
                    template.tokens@,
                    template.pos as nat,
                    Mode::Template,
                    Seq::empty(),
                ),
            ) {
                (Ok(parsed), Ok(ops)) => op::ops_view(parsed.0@) == ops,
                (Err(e), Err(err)) => e@ == err,
                _ => false,
            },
    {
        parse(editions, template, Mode::Template)
    }
}

// What each side of a rule can hold.

/// Whether the operation can stand on the side of a rule. Metavariable expressions stand on the
/// right only, and there variables have no specifier.
pub open spec fn op_fits(op: SpecOp, mode: Mode) -> bool
    decreases op,
{
    match op {
        SpecOp::Var { kind, .. } => mode == Mode::Template ==> kind is None,
        SpecOp::Ignore { .. } => mode == Mode::Template,
        SpecOp::Index { .. } => mode == Mode::Template,
        SpecOp::Len { .. } => mode == Mode::Template,
        SpecOp::Count { .. } => mode == Mode::Template,
        SpecOp::Concat { elements, .. } => mode == Mode::Template && elements.len() >= 2,
        SpecOp::Repeat { tokens, separator, .. } => {
            &&& forall|i: int| 0 <= i < tokens.len() ==> op_fits(#[trigger] tokens[i], mode)
            &&& separator matches Some(s) ==> has_separator(s)
        },
        SpecOp::Subtree { tokens, .. } => forall|i: int|
            0 <= i < tokens.len() ==> op_fits(#[trigger] tokens[i], mode),
        _ => true,
    }
}

proof fn lemma_repeat_separator(t: Seq<TtElement>, pos: nat, sep: SpecSeparator)
    ensures
        repeat_at(t, pos, sep) matches Some((Some(s), _, _)) ==> has_separator(s),
    decreases t.len() - pos,
{
    if pos < t.len() {
        if let TtElement::Leaf { leaf, .. } = t[pos as int] {
            match leaf {
                Leaf::Ident(ident) => {
                    if let SpecSeparator::Puncts(p) = sep {
                        lemma_repeat_separator(
                            t,
                            pos + 1,
                            SpecSeparator::Ident(op::ident_view(ident)),
                        );
                        lemma_repeat_separator(
                            t,
                            pos + 1,
                            SpecSeparator::Lifetime(p[0], op::ident_view(ident)),
                        );
                    }
                },
                Leaf::Literal(lit) => {
                    lemma_repeat_separator(
                        t,
                        pos + 1,
                        SpecSeparator::Literal(op::literal_view(lit)),
                    );
                },
                Leaf::Punct(punct) => {
                    if let SpecSeparator::Puncts(p) = sep {
                        lemma_repeat_separator(t, pos + 1, SpecSeparator::Puncts(p.push(punct)));
                    }
                },
            }
        }
    }
}

/// All operations of a pattern or a template can stand on its side of a rule.
pub proof fn ops_fit_their_side(
    editions: Editions,
    t: Seq<TtElement>,
    pos: nat,
    mode: Mode,
    before: Seq<SpecOp>,
)
    requires
        tt::tokens_wf(t),
        forall|i: int| 0 <= i < before.len() ==> op_fits(#[trigger] before[i], mode),
    ensures
        ops_from(editions, t, pos, mode, before) matches Ok(ops) ==> forall|i: int|
            0 <= i < ops.len() ==> op_fits(#[trigger] ops[i], mode),
    decreases t, t.len() - pos,
{
    if pos < t.len() {
        lemma_shape(editions, t, pos, mode);
        match shape(editions, t, pos, mode) {
            Shape::Fail(_) => {},
            Shape::Op(op, next) => {
                reveal(metavar_expr);
                assert(op_fits(op, mode));
                ops_fit_their_side(editions, t, next, mode, before.push(op));
            },
            Shape::Repeat(s, separator, kind, next) => {
                assert(decreases_to!(t => t[(pos + 1) as int]));
                assert(decreases_to!(t[(pos + 1) as int] => s));
                assert(decreases_to!(s => s.tokens@));
                lemma_repeat_separator(t, pos + 2, SpecSeparator::Puncts(Seq::empty()));
                ops_fit_their_side(editions, s.tokens@, 0, mode, Seq::empty());
                if let Ok(tokens) = ops_from(editions, s.tokens@, 0, mode, Seq::empty()) {
                    let op = SpecOp::Repeat { tokens, kind, separator };
                    assert(op_fits(op, mode));
                    ops_fit_their_side(editions, t, next, mode, before.push(op));
                }
            },
            Shape::Subtree(s, next) => {
                assert(decreases_to!(t => t[pos as int]));
                assert(decreases_to!(t[pos as int] => s));
                assert(decreases_to!(s => s.tokens@));
                ops_fit_their_side(editions, s.tokens@, 0, mode, Seq::empty());
                if let Ok(tokens) = ops_from(editions, s.tokens@, 0, mode, Seq::empty()) {
                    let op = SpecOp::Subtree { tokens, delimiter: s.delimiter };
                    assert(op_fits(op, mode));
                    ops_fit_their_side(editions, t, next, mode, before.push(op));
                }
            },
        }
    }
}

/// Whether there is no dollar among the tokens, nor in any subtree.
pub open spec fn without_dollars(t: Seq<TtElement>) -> bool
    decreases t,
{
    forall|i: int|
        #![trigger t[i]]
        0 <= i < t.len() ==> match t[i] {
            TtElement::Leaf { leaf: Leaf::Punct(p), .. } => p.char != '$',
            TtElement::Leaf { .. } => true,
            TtElement::Subtree(s) => without_dollars(s.tokens@),
        }
}

/// Only dollars are special: tokens without any are accepted, and mean the same on both sides of a rule
/// and in all editions.
pub proof fn only_dollars_are_special(
    editions: Editions,
    other: Editions,
    t: Seq<TtElement>,
    pos: nat,
    before: Seq<SpecOp>,
)
    requires
        tt::tokens_wf(t),
        without_dollars(t),
    ensures
        ops_from(editions, t, pos, Mode::Pattern, before) is Ok,
        ops_from(editions, t, pos, Mode::Pattern, before) == ops_from(
            other,
            t,
            pos,
            Mode::Template,
            before,
        ),
    decreases t, t.len() - pos,
{
    if pos < t.len() {
        lemma_shape(editions, t, pos, Mode::Pattern);
        match shape(editions, t, pos, Mode::Pattern) {
            Shape::Op(op, next) => {
                only_dollars_are_special(editions, other, t, next, before.push(op));
            },
            Shape::Subtree(s, next) => {
                assert(decreases_to!(t => t[pos as int]));
                assert(decreases_to!(t[pos as int] => s));
                assert(decreases_to!(s => s.tokens@));
                only_dollars_are_special(editions, other, s.tokens@, 0, Seq::empty());
                let tokens = ops_from(editions, s.tokens@, 0, Mode::Pattern, Seq::empty())->Ok_0;
                let op = SpecOp::Subtree { tokens, delimiter: s.delimiter };
                only_dollars_are_special(editions, other, t, next, before.push(op));
            },
            _ => {},
        }
    }
}

} // verus!
