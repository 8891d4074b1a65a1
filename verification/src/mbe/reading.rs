//! How macros are read, told by what is written.

use super::op;
use super::op::{ExprKind, MetaVarKind, RepeatKind, SpecError, SpecOp, SpecSeparator};
use super::parser;
use super::parser::{Editions, Mode};
use crate::span::Edition;
use crate::tt;
use crate::tt::{DelimiterKind, Ident, IdentIsRaw, Leaf, Literal, Punct, Subtree, TtElement};
use vstd::prelude::*;

verus! {

// What is written at a place.

pub open spec fn writes_punct(t: Seq<TtElement>, i: int, p: Punct) -> bool {
    0 <= i < t.len() && t[i] is Leaf && t[i]->leaf == Leaf::Punct(p)
}

pub open spec fn writes_char(t: Seq<TtElement>, i: int, c: char) -> bool {
    0 <= i < t.len() && t[i] is Leaf && t[i]->leaf is Punct && t[i]->leaf->Punct_0.char == c
}

pub open spec fn writes_ident(t: Seq<TtElement>, i: int, ident: Ident) -> bool {
    0 <= i < t.len() && t[i] is Leaf && t[i]->leaf == Leaf::Ident(ident)
}

pub open spec fn writes_literal(t: Seq<TtElement>, i: int, lit: Literal) -> bool {
    0 <= i < t.len() && t[i] is Leaf && t[i]->leaf == Leaf::Literal(lit)
}

pub open spec fn writes_subtree(t: Seq<TtElement>, i: int, s: Subtree, kind: DelimiterKind) -> bool {
    0 <= i < t.len() && t[i] == TtElement::Subtree(s) && s.delimiter.kind == kind
}

// All of a side, operation by operation.

/// A side of a rule is read from the front: first one operation, then those that follow it. It fails
/// with the first error.
pub proof fn operations_are_read_in_order(
    editions: Editions,
    t: Seq<TtElement>,
    pos: nat,
    mode: Mode,
    before: Seq<SpecOp>,
)
    requires
        tt::tokens_wf(t),
    ensures
        pos >= t.len() ==> parser::ops_from(editions, t, pos, mode, before) == Ok::<_, SpecError>(
            before,
        ),
        pos < t.len() ==> match parser::op_at(editions, t, pos, mode) {
            Ok((op, next)) => {
                &&& pos < next <= t.len()
                &&& parser::ops_from(editions, t, pos, mode, before) == parser::ops_from(
                    editions,
                    t,
                    next,
                    mode,
                    before.push(op),
                )
            },
            Err(e) => parser::ops_from(editions, t, pos, mode, before) == Err::<Seq<SpecOp>, _>(e),
        },
{
    if pos < t.len() {
        parser::lemma_shape(editions, t, pos, mode);
    }
}

/// What was read before stays in front of what is read then, and makes no difference to it.
pub proof fn operations_follow_those_before(
    editions: Editions,
    t: Seq<TtElement>,
    pos: nat,
    mode: Mode,
    before: Seq<SpecOp>,
)
    requires
        tt::tokens_wf(t),
    ensures
        match parser::ops_from(editions, t, pos, mode, Seq::empty()) {
            Ok(ops) => parser::ops_from(editions, t, pos, mode, before) == Ok::<_, SpecError>(
                before + ops,
            ),
            Err(e) => parser::ops_from(editions, t, pos, mode, before) == Err::<Seq<SpecOp>, _>(e),
        },
    decreases t.len() - pos,
{
    operations_are_read_in_order(editions, t, pos, mode, before);
    operations_are_read_in_order(editions, t, pos, mode, Seq::empty());
    if pos >= t.len() {
        assert(before + Seq::<SpecOp>::empty() =~= before);
    } else if let Ok((op, next)) = parser::op_at(editions, t, pos, mode) {
        operations_follow_those_before(editions, t, next, mode, before.push(op));
        operations_follow_those_before(editions, t, next, mode, Seq::empty().push(op));
        if let Ok(rest) = parser::ops_from(editions, t, next, mode, Seq::empty()) {
            assert(before.push(op) + rest =~= before + (Seq::empty().push(op) + rest));
        }
    }
}

// Plain tokens.

/// A name, a literal and punctuation stand for themselves on both sides, if there is no dollar.
pub proof fn plain_tokens_stand_for_themselves(
    editions: Editions,
    t: Seq<TtElement>,
    pos: nat,
    mode: Mode,
)
    requires
        tt::tokens_wf(t),
        pos < t.len(),
    ensures
        forall|ident: Ident| #[trigger]
            writes_ident(t, pos as int, ident) ==> (parser::op_at(editions, t, pos, mode) matches Ok(
                (SpecOp::Ident(i), next),
            ) && i.sym == ident.sym@ && i.span == ident.span && i.is_raw == ident.is_raw && next
                == pos + 1),
        forall|lit: Literal| #[trigger]
            writes_literal(t, pos as int, lit) ==> (parser::op_at(editions, t, pos, mode) matches Ok(
                (SpecOp::Literal(l), next),
            ) && l.text_and_suffix == lit.text_and_suffix@ && l.span == lit.span && l.kind
                == lit.kind && l.suffix_len == lit.suffix_len && next == pos + 1),
        forall|p: Punct| #[trigger]
            writes_punct(t, pos as int, p) && p.char != '$' ==> (parser::op_at(
                editions,
                t,
                pos,
                mode,
            ) matches Ok((SpecOp::Punct(puncts), next)) && puncts.len() == t[pos as int]->glued
                && next == pos + puncts.len() && forall|k: int|
                0 <= k < puncts.len() ==> writes_punct(t, pos + k, #[trigger] puncts[k])),
{
    assert(tt::glue_fits(t, pos as int));
    if let TtElement::Leaf { leaf: Leaf::Punct(p), glued } = t[pos as int] {
        if p.char != '$' {
            let puncts = parser::puncts_from(t, pos as int, glued as nat);
            assert forall|k: int| 0 <= k < puncts.len() implies writes_punct(
                t,
                pos + k,
                #[trigger] puncts[k],
            ) by {
                assert(tt::is_punct_at(t, pos + k));
            }
        }
    }
}

/// Tokens in delimiters stand for the operations that they are read as, in the same delimiters.
pub proof fn subtrees_keep_their_delimiters(
    editions: Editions,
    t: Seq<TtElement>,
    pos: nat,
    mode: Mode,
    s: Subtree,
)
    requires
        tt::tokens_wf(t),
        writes_subtree(t, pos as int, s, s.delimiter.kind),
    ensures
        match parser::ops_from(editions, s.tokens@, 0, mode, Seq::empty()) {
            Ok(tokens) => parser::op_at(editions, t, pos, mode) == Ok::<_, SpecError>(
                (SpecOp::Subtree { tokens, delimiter: s.delimiter }, pos + 1),
            ),
            Err(e) => parser::op_at(editions, t, pos, mode) == Err::<(SpecOp, nat), _>(e),
        },
{
}

// Repetitions.

/// Whether a character says how often a part comes.
pub open spec fn is_operator(c: char) -> bool {
    c == '*' || c == '+' || c == '?'
}

/// Whether the character says that the part comes that often.
pub open spec fn says(c: char, kind: RepeatKind) -> bool {
    ||| c == '*' && kind == RepeatKind::ZeroOrMore
    ||| c == '+' && kind == RepeatKind::OneOrMore
    ||| c == '?' && kind == RepeatKind::ZeroOrOne
}

/// Whether the token at a place says how often a part comes.
pub open spec fn writes_operator(t: Seq<TtElement>, i: int, kind: RepeatKind) -> bool {
    0 <= i < t.len() && t[i] is Leaf && t[i]->leaf is Punct && says(t[i]->leaf->Punct_0.char, kind)
}

/// Whether the `n` tokens at a place are the separator: there is none only if there are no tokens.
pub open spec fn is_separator(t: Seq<TtElement>, pos: int, n: nat, separator: Option<SpecSeparator>) -> bool {
    match separator {
        None => n == 0,
        Some(SpecSeparator::Puncts(puncts)) => {
            &&& 1 <= n <= 3
            &&& puncts.len() == n
            &&& forall|k: int|
                0 <= k < n ==> writes_punct(t, pos + k, #[trigger] puncts[k]) && !is_operator(
                    puncts[k].char,
                )
        },
        Some(SpecSeparator::Ident(i)) => n == 1 && exists|ident: Ident| #[trigger]
            writes_ident(t, pos, ident) && i.sym == ident.sym@ && i.span == ident.span && i.is_raw
                == ident.is_raw,
        Some(SpecSeparator::Literal(l)) => n == 1 && exists|lit: Literal| #[trigger]
            writes_literal(t, pos, lit) && l.text_and_suffix == lit.text_and_suffix@ && l.span
                == lit.span && l.kind == lit.kind && l.suffix_len == lit.suffix_len,
        Some(SpecSeparator::Lifetime(p, i)) => {
            &&& n == 2
            &&& p.char == '\''
            &&& writes_punct(t, pos, p)
            &&& exists|ident: Ident| #[trigger]
                writes_ident(t, pos + 1int, ident) && i.sym == ident.sym@ && i.span == ident.span
                    && i.is_raw == ident.is_raw
        },
    }
}

proof fn lemma_puncts_then_operator(
    t: Seq<TtElement>,
    pos: nat,
    read: Seq<Punct>,
    rest: Seq<Punct>,
    kind: RepeatKind,
)
    requires
        read.len() + rest.len() <= 3,
        forall|k: int|
            0 <= k < rest.len() ==> writes_punct(t, pos + k, #[trigger] rest[k]) && !is_operator(
                rest[k].char,
            ),
        writes_operator(t, (pos + rest.len()) as int, kind),
    ensures
        parser::repeat_at(t, pos, SpecSeparator::Puncts(read)) == Some(
            (
                if read.len() + rest.len() == 0 {
                    None
                } else {
                    Some(SpecSeparator::Puncts(read + rest))
                },
                kind,
                pos + rest.len() + 1,
            ),
        ),
    decreases rest.len(),
{
    if rest.len() == 0 {
        assert(read + rest =~= read);
    } else {
        let first = rest[0];
        let left = rest.skip(1);
        assert(writes_punct(t, pos + 0int, first));
        assert forall|k: int| 0 <= k < left.len() implies writes_punct(
            t,
            pos + 1 + k,
            #[trigger] left[k],
        ) && !is_operator(left[k].char) by {
            assert(left[k] == rest[k + 1]);
        }
        lemma_puncts_then_operator(t, pos + 1, read.push(first), left, kind);
        assert(read.push(first) + left =~= read + rest);
    }
}

/// A part in parentheses behind a dollar, then a separator and an operator: that is one repetition of
/// what the part is read as. It has exactly the separator that is written, and none if none is. This
/// is the same on both sides of a rule.
pub proof fn repetitions_are_as_written(
    editions: Editions,
    t: Seq<TtElement>,
    pos: nat,
    mode: Mode,
    s: Subtree,
    n: nat,
    separator: Option<SpecSeparator>,
    kind: RepeatKind,
)
    requires
        tt::tokens_wf(t),
        writes_char(t, pos as int, '$'),
        writes_subtree(t, pos + 1int, s, DelimiterKind::Parenthesis),
        is_separator(t, pos + 2int, n, separator),
        writes_operator(t, (pos + 2 + n) as int, kind),
    ensures
        match parser::ops_from(editions, s.tokens@, 0, mode, Seq::empty()) {
            Ok(tokens) => parser::op_at(editions, t, pos, mode) == Ok::<_, SpecError>(
                (SpecOp::Repeat { tokens, kind, separator }, pos + 3 + n),
            ),
            Err(e) => parser::op_at(editions, t, pos, mode) == Err::<(SpecOp, nat), _>(e),
        },
{
    let none = Seq::<Punct>::empty();
    match separator {
        None => {
            lemma_puncts_then_operator(t, pos + 2, none, none, kind);
        },
        Some(SpecSeparator::Puncts(puncts)) => {
            lemma_puncts_then_operator(t, pos + 2, none, puncts, kind);
            assert(none + puncts =~= puncts);
        },
        _ => {
            reveal_with_fuel(parser::repeat_at, 4);
            if let Some(SpecSeparator::Lifetime(p, _)) = separator {
                assert(none.push(p)[0] == p);
            }
        },
    }
}

proof fn lemma_operator_read(t: Seq<TtElement>, pos: nat, sep: SpecSeparator)
    requires
        !(sep is Puncts),
    ensures
        parser::repeat_at(t, pos, sep) matches Some((s, kind, next)) ==> s == Some(sep) && next
            == pos + 1 && writes_operator(t, pos as int, kind),
{
    if pos < t.len() {
        if let TtElement::Leaf { leaf: Leaf::Punct(p), .. } = t[pos as int] {
            assert(writes_char(t, pos as int, p.char));
        }
    }
}

proof fn lemma_separator_read(t: Seq<TtElement>, start: nat, pos: nat, read: Seq<Punct>)
    requires
        pos == start + read.len(),
        read.len() <= 3,
        forall|k: int|
            0 <= k < read.len() ==> writes_punct(t, start + k, #[trigger] read[k]) && !is_operator(
                read[k].char,
            ),
    ensures
        parser::repeat_at(t, pos, SpecSeparator::Puncts(read)) matches Some((s, kind, next))
            ==> next > start && is_separator(t, start as int, (next - start - 1) as nat, s)
            && writes_operator(t, next - 1, kind),
    decreases t.len() - pos,
{
    if pos < t.len() {
        if let TtElement::Leaf { leaf, .. } = t[pos as int] {
            match leaf {
                Leaf::Ident(ident) => {
                    let i = op::ident_view(ident);
                    assert(writes_ident(t, pos as int, ident));
                    lemma_operator_read(t, pos + 1, SpecSeparator::Ident(i));
                    if read.len() == 0 {
                        assert(is_separator(t, start as int, 1, Some(SpecSeparator::Ident(i))));
                    } else if read.len() == 1 && read[0].char == '\'' {
                        lemma_operator_read(t, pos + 1, SpecSeparator::Lifetime(read[0], i));
                        assert(writes_punct(t, start + 0int, read[0]));
                        assert(writes_ident(t, start + 1int, ident));
                        assert(is_separator(
                            t,
                            start as int,
                            2,
                            Some(SpecSeparator::Lifetime(read[0], i)),
                        ));
                    }
                },
                Leaf::Literal(lit) => {
                    assert(writes_literal(t, pos as int, lit));
                    let l = op::literal_view(lit);
                    lemma_operator_read(t, pos + 1, SpecSeparator::Literal(l));
                    if read.len() == 0 {
                        assert(is_separator(t, start as int, 1, Some(SpecSeparator::Literal(l))));
                    }
                },
                Leaf::Punct(p) => {
                    assert(writes_char(t, pos as int, p.char));
                    assert(writes_punct(t, pos as int, p));
                    if is_operator(p.char) && read.len() == 0 {
                        assert(is_separator(t, start as int, 0, None));
                    } else if is_operator(p.char) {
                        assert(is_separator(
                            t,
                            start as int,
                            read.len(),
                            Some(SpecSeparator::Puncts(read)),
                        ));
                    }
                    if read.len() < 3 && !is_operator(p.char) {
                        let more = read.push(p);
                        assert forall|k: int| 0 <= k < more.len() implies writes_punct(
                            t,
                            start + k,
                            #[trigger] more[k],
                        ) && !is_operator(more[k].char) by {
                            if k < read.len() {
                                assert(more[k] == read[k]);
                            }
                        }
                        lemma_separator_read(t, start, pos + 1, more);
                    }
                },
            }
        }
    }
}

/// A part in parentheses behind a dollar is a repetition only if a separator, or nothing, and an
/// operator follow. Otherwise the repetition is invalid.
pub proof fn repetitions_need_an_operator(
    editions: Editions,
    t: Seq<TtElement>,
    pos: nat,
    mode: Mode,
    s: Subtree,
)
    requires
        tt::tokens_wf(t),
        writes_char(t, pos as int, '$'),
        writes_subtree(t, pos + 1int, s, DelimiterKind::Parenthesis),
    ensures
        (exists|n: nat, separator: Option<SpecSeparator>, kind: RepeatKind| #[trigger]
            is_separator(t, pos + 2int, n, separator) && #[trigger] writes_operator(
                t,
                (pos + 2 + n) as int,
                kind,
            )) || parser::op_at(editions, t, pos, mode) == Err::<(SpecOp, nat), _>(
            SpecError::InvalidRepeat,
        ),
{
    lemma_separator_read(t, pos + 2, pos + 2, Seq::empty());
    if let Some((separator, kind, next)) = parser::repeat_at(
        t,
        pos + 2,
        SpecSeparator::Puncts(Seq::empty()),
    ) {
        let n = (next - (pos + 2) - 1) as nat;
        assert(is_separator(t, pos + 2int, n, separator));
        assert(writes_operator(t, (pos + 2 + n) as int, kind));
    }
}

// Variables.

/// A dollar and a name in a template are a variable with that name and no specifier.
pub proof fn variables_of_templates(
    editions: Editions,
    t: Seq<TtElement>,
    pos: nat,
    ident: Ident,
)
    requires
        tt::tokens_wf(t),
        writes_char(t, pos as int, '$'),
        writes_ident(t, pos + 1int, ident),
        ident.sym@ != "crate"@,
    ensures
        parser::op_at(editions, t, pos, Mode::Template) == Ok::<_, SpecError>(
            (SpecOp::Var { name: ident.sym@, kind: None, id: ident.span }, pos + 2),
        ),
{
}

/// A dollar, a name, a colon and a specifier in a pattern are a variable with that name, which matches
/// what the specifier says. Without a colon and a specifier the pattern is refused.
pub proof fn variables_of_patterns(
    editions: Editions,
    t: Seq<TtElement>,
    pos: nat,
    ident: Ident,
    fragment: Ident,
)
    requires
        tt::tokens_wf(t),
        writes_char(t, pos as int, '$'),
        writes_ident(t, pos + 1int, ident),
        ident.sym@ != "crate"@,
    ensures
        writes_char(t, pos + 2int, ':') && writes_ident(t, pos + 3int, fragment) && fragment.sym@ != "_"@
            ==> (parser::op_at(editions, t, pos, Mode::Pattern) matches Ok(
            (SpecOp::Var { name, kind, id }, next),
        ) && name == ident.sym@ && id == ident.span && next == pos + 4 && kind
            == parser::fragment_of(fragment.sym@, editions.of_from(fragment.span.ctx, 0))),
        !writes_char(t, pos + 2int, ':') ==> parser::op_at(editions, t, pos, Mode::Pattern) == Err::<
            (SpecOp, nat),
            _,
        >(SpecError::UnexpectedToken("missing fragment specifier"@)),
        (forall|i: Ident| #[trigger] writes_ident(t, pos + 3int, i) ==> i.sym@ == "_"@)
            ==> parser::op_at(editions, t, pos, Mode::Pattern) == Err::<(SpecOp, nat), _>(
            SpecError::UnexpectedToken("missing fragment specifier"@),
        ),
{
    if let Some(i) = parser::name_at(t, pos + 3int) {
        assert(writes_ident(t, pos + 3int, i));
    }
}

/// `true` and `false` behind a dollar are variables too.
pub proof fn booleans_can_be_variables(
    editions: Editions,
    t: Seq<TtElement>,
    pos: nat,
    lit: Literal,
)
    requires
        tt::tokens_wf(t),
        writes_char(t, pos as int, '$'),
        writes_literal(t, pos + 1int, lit),
    ensures
        lit.text_and_suffix@ == "true"@ || lit.text_and_suffix@ == "false"@ ==> parser::op_at(
            editions,
            t,
            pos,
            Mode::Template,
        ) == Ok::<_, SpecError>(
            (SpecOp::Var { name: lit.text_and_suffix@, kind: None, id: lit.span }, pos + 2),
        ),
        lit.text_and_suffix@ != "true"@ && lit.text_and_suffix@ != "false"@ ==> forall|mode: Mode|
            #[trigger] parser::op_at(editions, t, pos, mode) == Err::<(SpecOp, nat), _>(
                SpecError::Expected("expected ident"@),
            ),
{
}

/// Which of the specifiers there are stands for what, by the edition it is written in.
pub proof fn specifiers_say_what_is_matched(edition: Edition)
    ensures
        parser::fragment_of("path"@, edition) == Some(MetaVarKind::Path),
        parser::fragment_of("ty"@, edition) == Some(MetaVarKind::Ty),
        parser::fragment_of("pat_param"@, edition) == Some(MetaVarKind::PatParam),
        parser::fragment_of("stmt"@, edition) == Some(MetaVarKind::Stmt),
        parser::fragment_of("block"@, edition) == Some(MetaVarKind::Block),
        parser::fragment_of("meta"@, edition) == Some(MetaVarKind::Meta),
        parser::fragment_of("item"@, edition) == Some(MetaVarKind::Item),
        parser::fragment_of("vis"@, edition) == Some(MetaVarKind::Vis),
        parser::fragment_of("expr_2021"@, edition) == Some(MetaVarKind::Expr(ExprKind::Expr2021)),
        parser::fragment_of("ident"@, edition) == Some(MetaVarKind::Ident),
        parser::fragment_of("tt"@, edition) == Some(MetaVarKind::Tt),
        parser::fragment_of("lifetime"@, edition) == Some(MetaVarKind::Lifetime),
        parser::fragment_of("literal"@, edition) == Some(MetaVarKind::Literal),
        parser::fragment_of("pat"@, edition) == if edition == Edition::Edition2015 || edition
            == Edition::Edition2018 {
            Some(MetaVarKind::PatParam)
        } else {
            Some(MetaVarKind::Pat)
        },
        parser::fragment_of("expr"@, edition) == if edition == Edition::Edition2024 {
            Some(MetaVarKind::Expr(ExprKind::Expr))
        } else {
            Some(MetaVarKind::Expr(ExprKind::Expr2021))
        },
{
    reveal(parser::fragment_of);
    reveal_strlit("path");
    reveal_strlit("ty");
    reveal_strlit("pat");
    reveal_strlit("pat_param");
    reveal_strlit("stmt");
    reveal_strlit("block");
    reveal_strlit("meta");
    reveal_strlit("item");
    reveal_strlit("vis");
    reveal_strlit("expr");
    reveal_strlit("expr_2021");
    reveal_strlit("ident");
    reveal_strlit("tt");
    reveal_strlit("lifetime");
    reveal_strlit("literal");
    assert("ty"@.len() == 2 && "tt"@.len() == 2 && "pat"@.len() == 3 && "vis"@.len() == 3);
    assert("path"@.len() == 4 && "stmt"@.len() == 4 && "meta"@.len() == 4 && "item"@.len() == 4);
    assert("expr"@.len() == 4 && "block"@.len() == 5 && "ident"@.len() == 5);
    assert("literal"@.len() == 7 && "lifetime"@.len() == 8);
    assert("pat_param"@.len() == 9 && "expr_2021"@.len() == 9);
    assert("ty"@[1] != "tt"@[1]);
    assert("pat"@[0] != "vis"@[0]);
    assert("path"@[0] != "stmt"@[0] && "path"@[0] != "meta"@[0] && "path"@[0] != "item"@[0]
        && "path"@[0] != "expr"@[0] && "stmt"@[0] != "meta"@[0] && "stmt"@[0] != "item"@[0]
        && "stmt"@[0] != "expr"@[0] && "meta"@[0] != "item"@[0] && "meta"@[0] != "expr"@[0]
        && "item"@[0] != "expr"@[0]);
    assert("block"@[0] != "ident"@[0]);
    assert("pat_param"@[0] != "expr_2021"@[0]);
}

/// There are no other specifiers.
pub proof fn other_specifiers_say_nothing(name: Seq<char>, edition: Edition)
    requires
        name != "path"@ && name != "ty"@ && name != "pat"@ && name != "pat_param"@,
        name != "stmt"@ && name != "block"@ && name != "meta"@ && name != "item"@,
        name != "vis"@ && name != "expr"@ && name != "expr_2021"@ && name != "ident"@,
        name != "tt"@ && name != "lifetime"@ && name != "literal"@,
    ensures
        parser::fragment_of(name, edition) is None,
{
    reveal(parser::fragment_of);
}

// What else a dollar can start.

/// `$crate` is one name, at the place of `crate`.
pub proof fn dollar_crate_is_a_name(
    editions: Editions,
    t: Seq<TtElement>,
    pos: nat,
    mode: Mode,
    ident: Ident,
)
    requires
        tt::tokens_wf(t),
        writes_char(t, pos as int, '$'),
        writes_ident(t, pos + 1int, ident),
        ident.sym@ == "crate"@,
    ensures
        parser::op_at(editions, t, pos, mode) matches Ok((SpecOp::Ident(i), next)) && i.sym
            == "$crate"@ && i.span == ident.span && i.is_raw == IdentIsRaw::No && next == pos + 2,
{
}

/// A dollar at the end stands for itself. Two stand for the second in a template, and are refused in
/// a pattern. No other punctuation can follow a dollar.
pub proof fn dollars_before_punctuation(
    editions: Editions,
    t: Seq<TtElement>,
    pos: nat,
    dollar: Punct,
    p: Punct,
)
    requires
        tt::tokens_wf(t),
        writes_punct(t, pos as int, dollar),
        dollar.char == '$',
    ensures
        pos + 1 == t.len() ==> forall|mode: Mode| #[trigger]
            parser::op_at(editions, t, pos, mode) == Ok::<_, SpecError>(
                (SpecOp::Punct(seq![dollar]), pos + 1),
            ),
        writes_punct(t, pos + 1int, p) && p.char == '$' ==> {
            &&& parser::op_at(editions, t, pos, Mode::Template) == Ok::<_, SpecError>(
                (SpecOp::Punct(seq![p]), pos + 2),
            )
            &&& parser::op_at(editions, t, pos, Mode::Pattern) == Err::<(SpecOp, nat), _>(
                SpecError::UnexpectedToken("`$$` is not allowed on the pattern side"@),
            )
        },
        writes_punct(t, pos + 1int, p) && p.char != '$' ==> forall|mode: Mode| #[trigger]
            parser::op_at(editions, t, pos, mode) == Err::<(SpecOp, nat), _>(
                SpecError::Expected("expected ident"@),
            ),
{
}

/// Braces behind a dollar hold an expression, in templates only. No other delimiters can follow a
/// dollar but parentheses.
pub proof fn dollars_before_delimiters(
    editions: Editions,
    t: Seq<TtElement>,
    pos: nat,
    s: Subtree,
)
    requires
        tt::tokens_wf(t),
        writes_char(t, pos as int, '$'),
        writes_subtree(t, pos + 1int, s, s.delimiter.kind),
    ensures
        s.delimiter.kind == DelimiterKind::Brace ==> {
            &&& parser::op_at(editions, t, pos, Mode::Pattern) == Err::<(SpecOp, nat), _>(
                SpecError::UnexpectedToken(
                    "`${}` metavariable expressions are not allowed in matchers"@,
                ),
            )
            &&& match parser::metavar_expr(s.tokens@) {
                Some(op) => parser::op_at(editions, t, pos, Mode::Template) == Ok::<_, SpecError>(
                    (op, pos + 2),
                ),
                None => parser::op_at(editions, t, pos, Mode::Template) == Err::<(SpecOp, nat), _>(
                    SpecError::UnexpectedToken("invalid metavariable expression"@),
                ),
            }
        },
        s.delimiter.kind == DelimiterKind::Bracket || s.delimiter.kind == DelimiterKind::Invisible
            ==> forall|mode: Mode| #[trigger]
            parser::op_at(editions, t, pos, mode) == Err::<(SpecOp, nat), _>(
                SpecError::Expected("expected `$()` repetition or `${}` expression"@),
            ),
{
}

} // verus!
