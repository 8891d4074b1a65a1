//! How metavariable expressions and the heads of rules are read, told by what is written.

use super::op;
use super::op::{ConcatMetaVarExprElem, Op, SpecConcatElem, SpecError, SpecOp, SpecSeparator};
use super::parser;
use super::parser::MacroCallStyle;
use super::reading::{writes_char, writes_ident, writes_literal, writes_subtree};
use crate::text;
use crate::tt::{DelimiterKind, Ident, Literal, Subtree, TtElement};
use vstd::prelude::*;

verus! {

/// Whether the tokens are a call: a name, and arguments in parentheses.
pub open spec fn writes_call(t: Seq<TtElement>, name: Ident, args: Subtree) -> bool {
    &&& writes_ident(t, 0, name)
    &&& name.sym@ != "_"@
    &&& writes_subtree(t, 1, args, DelimiterKind::Parenthesis)
}

/// Whether the tokens at a place are a variable.
pub open spec fn writes_var(t: Seq<TtElement>, i: int, var: Ident) -> bool {
    writes_char(t, i, '$') && writes_ident(t, i + 1, var) && var.sym@ != "_"@
}

/// Whether the tokens from a place on are the depth, which is zero if there are none.
pub open spec fn writes_depth(t: Seq<TtElement>, i: int, depth: nat) -> bool {
    ||| i == t.len() && depth == 0
    ||| i + 1 == t.len() && exists|lit: Literal| #[trigger]
        writes_literal(t, i, lit) && lit.suffix_len == 0 && parser::number_of(
            lit.text_and_suffix@,
        ) == Some(depth)
}

proof fn lemma_function_names()
    ensures
        "ignore"@ != "index"@,
        "ignore"@ != "len"@,
        "ignore"@ != "count"@,
        "ignore"@ != "concat"@,
        "index"@ != "len"@,
        "index"@ != "count"@,
        "index"@ != "concat"@,
        "len"@ != "count"@,
        "len"@ != "concat"@,
        "count"@ != "concat"@,
{
    reveal_strlit("ignore");
    reveal_strlit("index");
    reveal_strlit("len");
    reveal_strlit("count");
    reveal_strlit("concat");
    assert("ignore"@.len() == 6 && "concat"@.len() == 6 && "index"@.len() == 5);
    assert("count"@.len() == 5 && "len"@.len() == 3);
    assert("ignore"@[0] != "concat"@[0] && "index"@[0] != "count"@[0]);
}

/// `ignore` takes one variable, and stands for it.
pub proof fn ignore_takes_a_variable(t: Seq<TtElement>, name: Ident, args: Subtree, var: Ident)
    requires
        writes_call(t, name, args),
        name.sym@ == "ignore"@,
    ensures
        args.tokens@.len() == 2 && writes_var(args.tokens@, 0, var) ==> parser::metavar_expr(t)
            == Some(SpecOp::Ignore { name: var.sym@, id: var.span }),
        !(args.tokens@.len() == 2 && exists|v: Ident| #[trigger] writes_var(args.tokens@, 0, v))
            ==> parser::metavar_expr(t) is None,
{
    reveal(parser::metavar_expr);
    lemma_function_names();
    if let Some(v) = parser::name_at(args.tokens@, 1) {
        if parser::char_at(args.tokens@, 0, '$') {
            assert(writes_var(args.tokens@, 0, v));
        }
    }
}

proof fn lemma_depth(t: Seq<TtElement>, i: int)
    requires
        0 <= i <= t.len(),
    ensures
        forall|depth: nat| #[trigger]
            writes_depth(t, i, depth) <==> (parser::depth_at(t, i) == Some((depth, t.len() as int))),
{
    if let Some(lit) = parser::literal_at(t, i) {
        assert(writes_literal(t, i, lit));
    }
    assert forall|depth: nat| #[trigger] writes_depth(t, i, depth) <==> (parser::depth_at(t, i)
        == Some((depth, t.len() as int))) by {
        if writes_depth(t, i, depth) && i < t.len() {
            let lit = choose|lit: Literal| #[trigger]
                writes_literal(t, i, lit) && lit.suffix_len == 0 && parser::number_of(
                    lit.text_and_suffix@,
                ) == Some(depth);
            assert(parser::literal_at(t, i) == Some(lit));
        }
    }
}

/// `index` and `len` take a depth.
pub proof fn index_and_len_take_a_depth(t: Seq<TtElement>, name: Ident, args: Subtree, depth: nat)
    requires
        writes_call(t, name, args),
        name.sym@ == "index"@ || name.sym@ == "len"@,
    ensures
        writes_depth(args.tokens@, 0, depth) && name.sym@ == "index"@ ==> parser::metavar_expr(t)
            == Some(SpecOp::Index { depth }),
        writes_depth(args.tokens@, 0, depth) && name.sym@ == "len"@ ==> parser::metavar_expr(t)
            == Some(SpecOp::Len { depth }),
        (forall|d: nat| !#[trigger] writes_depth(args.tokens@, 0, d)) ==> parser::metavar_expr(
            t,
        ) is None,
{
    reveal(parser::metavar_expr);
    lemma_function_names();
    lemma_depth(args.tokens@, 0);
    if let Some((d, next)) = parser::depth_at(args.tokens@, 0) {
        if next == args.tokens@.len() {
            assert(writes_depth(args.tokens@, 0, d));
        }
    }
}

/// `count` takes a variable, and a depth behind a comma. Without a comma the depth is zero.
pub proof fn count_takes_a_variable_and_a_depth(
    t: Seq<TtElement>,
    name: Ident,
    args: Subtree,
    var: Ident,
    depth: nat,
)
    requires
        writes_call(t, name, args),
        name.sym@ == "count"@,
    ensures
        args.tokens@.len() == 2 && writes_var(args.tokens@, 0, var) ==> parser::metavar_expr(t)
            == Some(SpecOp::Count { name: var.sym@, depth: 0 }),
        writes_var(args.tokens@, 0, var) && writes_char(args.tokens@, 2, ',') && writes_depth(
            args.tokens@,
            3,
            depth,
        ) ==> parser::metavar_expr(t) == Some(SpecOp::Count { name: var.sym@, depth }),
        (forall|v: Ident| !#[trigger] writes_var(args.tokens@, 0, v)) ==> parser::metavar_expr(
            t,
        ) is None,
        args.tokens@.len() > 2 && !writes_char(args.tokens@, 2, ',') ==> parser::metavar_expr(
            t,
        ) is None,
        args.tokens@.len() > 2 && (forall|d: nat| !#[trigger] writes_depth(args.tokens@, 3, d))
            ==> parser::metavar_expr(t) is None,
{
    reveal(parser::metavar_expr);
    lemma_function_names();
    let a = args.tokens@;
    if a.len() >= 3 {
        lemma_depth(a, 3);
        if let Some((d, next)) = parser::depth_at(a, 3) {
            if next == a.len() {
                assert(writes_depth(a, 3, d));
            }
        }
    }
    if let Some(v) = parser::name_at(a, 1) {
        if parser::char_at(a, 0, '$') {
            assert(writes_var(a, 0, v));
        }
    }
}

/// Whether the tokens from `i` to `next` are the element.
pub open spec fn writes_elem(t: Seq<TtElement>, i: int, next: int, elem: SpecConcatElem) -> bool {
    match elem {
        SpecConcatElem::Literal(l) => next == i + 1 && exists|lit: Literal| #[trigger]
            writes_literal(t, i, lit) && l.text_and_suffix == lit.text_and_suffix@ && l.span
                == lit.span && l.kind == lit.kind && l.suffix_len == lit.suffix_len,
        SpecConcatElem::Ident(name) => next == i + 1 && exists|ident: Ident| #[trigger]
            writes_ident(t, i, ident) && name.sym == ident.sym@ && name.span == ident.span
                && name.is_raw == ident.is_raw,
        SpecConcatElem::Var(name) => next == i + 2 && writes_char(t, i, '$') && exists|
            ident: Ident,
        | #[trigger]
            writes_ident(t, i + 1, ident) && name.sym == ident.sym@ && name.span == ident.span
                && name.is_raw == ident.is_raw,
    }
}

/// The elements of a concatenation are read one by one, with a comma between them. Another may stand
/// behind the last.
pub proof fn concat_reads_element_by_element(
    t: Seq<TtElement>,
    i: nat,
    next: nat,
    elem: SpecConcatElem,
    before: Seq<SpecConcatElem>,
)
    ensures
        i >= t.len() ==> parser::concat_at(t, i, before) == Some(before),
        writes_elem(t, i as int, next as int, elem) && next == t.len() ==> parser::concat_at(
            t,
            i,
            before,
        ) == Some(before.push(elem)),
        writes_elem(t, i as int, next as int, elem) && writes_char(t, next as int, ',')
            ==> parser::concat_at(t, i, before) == parser::concat_at(
            t,
            next + 1,
            before.push(elem),
        ),
        writes_elem(t, i as int, next as int, elem) && next < t.len() && !writes_char(
            t,
            next as int,
            ',',
        ) ==> parser::concat_at(t, i, before) is None,
        i < t.len() && (forall|n: int, e: SpecConcatElem| !#[trigger] writes_elem(t, i as int, n, e))
            ==> parser::concat_at(t, i, before) is None,
{
    if let Some((e, n)) = parser::concat_elem_at(t, i as int) {
        if let Some(lit) = parser::literal_at(t, i as int) {
            assert(writes_literal(t, i as int, lit));
        } else if parser::char_at(t, i as int, '$') {
            assert(writes_ident(t, i + 1int, parser::ident_at(t, i + 1int)->0));
        } else {
            assert(writes_ident(t, i as int, parser::ident_at(t, i as int)->0));
        }
        assert(writes_elem(t, i as int, n, e));
    }
}

/// `concat` takes at least two elements, and stands for them in their order, at the place of its name.
pub proof fn concat_takes_its_elements(
    t: Seq<TtElement>,
    name: Ident,
    args: Subtree,
)
    requires
        writes_call(t, name, args),
        name.sym@ == "concat"@,
    ensures
        match parser::concat_at(args.tokens@, 0, Seq::empty()) {
            Some(elements) => if elements.len() >= 2 {
                parser::metavar_expr(t) == Some(SpecOp::Concat { elements, span: name.span })
            } else {
                parser::metavar_expr(t) is None
            },
            None => parser::metavar_expr(t) is None,
        },
{
    reveal(parser::metavar_expr);
    lemma_function_names();
}

/// There are no other expressions.
pub proof fn there_are_five_expressions(t: Seq<TtElement>)
    ensures
        parser::metavar_expr(t) is Some ==> exists|name: Ident, args: Subtree| #[trigger]
            writes_call(t, name, args) && (name.sym@ == "ignore"@ || name.sym@ == "index"@
                || name.sym@ == "len"@ || name.sym@ == "count"@ || name.sym@ == "concat"@),
{
    reveal(parser::metavar_expr);
    if parser::metavar_expr(t) is Some {
        let name = parser::name_at(t, 0)->0;
        let args = parser::subtree_at(t, 1)->0;
        assert(writes_call(t, name, args));
    }
}

// Numbers.

/// A digit at the end makes a number ten times as large and adds its value.
pub proof fn numbers_grow_by_digits(d: Seq<char>, c: char)
    requires
        '0' <= c <= '9',
    ensures
        parser::number_value(Seq::<char>::empty()) == 0,
        parser::number_value(d.push(c)) == parser::number_value(d) * 10 + (c as u32 - '0' as u32),
{
    assert(d.push(c).drop_last() =~= d);
}

proof fn lemma_decimal(n: nat)
    ensures
        text::decimal(n).len() > 0,
        parser::all_digits(text::decimal(n)),
        parser::number_value(text::decimal(n)) == n,
    decreases n,
{
    if n < 10 {
        let s = text::decimal(n);
        assert(s =~= Seq::<char>::empty().push(text::digit(n)));
        numbers_grow_by_digits(Seq::empty(), text::digit(n));
        assert(parser::is_digit(s[0]));
    } else {
        lemma_decimal(n / 10);
        let s = text::decimal(n / 10);
        let c = text::digit(n % 10);
        numbers_grow_by_digits(s, c);
        assert forall|i: int| 0 <= i < s.push(c).len() implies parser::is_digit(
            #[trigger] s.push(c)[i],
        ) by {
            if i < s.len() {
                assert(parser::is_digit(s[i]));
            }
        }
    }
}

/// A number that is written in decimal is read as that number, if it fits.
pub proof fn decimal_numbers_are_read_back(n: nat)
    ensures
        n <= usize::MAX ==> parser::number_of(text::decimal(n)) == Some(n),
        n > usize::MAX ==> parser::number_of(text::decimal(n)) is None,
{
    lemma_decimal(n);
    let s = text::decimal(n);
    assert(parser::is_digit(s[0]));
    assert(s[0] != '+');
}

/// A plus in front of a number makes no difference.
pub proof fn plus_signs_are_skipped(n: nat)
    ensures
        parser::number_of(seq!['+'] + text::decimal(n)) == parser::number_of(text::decimal(n)),
{
    lemma_decimal(n);
    let s = text::decimal(n);
    assert(parser::is_digit(s[0]));
    assert((seq!['+'] + s).skip(1) =~= s);
}

/// Nothing but digits is a number, the plus in front aside.
pub proof fn only_digits_make_numbers(s: Seq<char>, i: int)
    requires
        0 <= i < s.len(),
        !('0' <= s[i] <= '9'),
        s[i] == '+' ==> i > 0,
    ensures
        parser::number_of(s) is None,
{
    let d = parser::unsigned(s);
    if s[0] == '+' {
        assert(d[i - 1] == s[i]);
        assert(!parser::is_digit(d[i - 1]));
    } else {
        assert(!parser::is_digit(d[i]));
    }
}

// The heads of rules.

/// A rule is for attributes or derives if it starts with that name and arguments follow. An `unsafe`
/// in front makes no difference. All others are for calls.
pub proof fn rules_start_with_their_style(t: Seq<TtElement>, pos: int, first: Ident)
    requires
        0 <= pos < t.len(),
        writes_ident(t, pos, first),
        first.sym@ == "attr"@ || first.sym@ == "derive"@,
    ensures
        pos + 1 < t.len() && t[pos + 1] is Subtree ==> parser::rule_style(t, pos) == Ok::<_, SpecError>(
            (
                if first.sym@ == "attr"@ {
                    MacroCallStyle::Attr
                } else {
                    MacroCallStyle::Derive
                },
                pos + 2,
            ),
        ),
        !(pos + 1 < t.len() && t[pos + 1] is Subtree) ==> parser::rule_style(t, pos) == Err::<
            (MacroCallStyle, int),
            _,
        >(SpecError::Expected("expected `()`"@)),
{
    lemma_style_names();
}

proof fn lemma_style_names()
    ensures
        "attr"@ != "derive"@,
        "attr"@ != "unsafe"@,
        "derive"@ != "unsafe"@,
{
    reveal_strlit("attr");
    reveal_strlit("derive");
    reveal_strlit("unsafe");
    assert("attr"@.len() == 4 && "derive"@.len() == 6 && "unsafe"@.len() == 6);
    assert("derive"@[0] != "unsafe"@[0]);
}

/// Rules for calls start with anything else, and nothing of it is taken.
pub proof fn other_rules_are_for_calls(t: Seq<TtElement>, pos: int)
    requires
        forall|i: Ident| #[trigger]
            writes_ident(t, pos, i) ==> i.sym@ != "attr"@ && i.sym@ != "derive"@ && i.sym@
                != "unsafe"@,
    ensures
        parser::rule_style(t, pos) == Ok::<_, SpecError>((MacroCallStyle::FnLike, pos)),
{
    if let Some(i) = parser::ident_at(t, pos) {
        assert(writes_ident(t, pos, i));
    }
}

/// An `unsafe` is skipped, once.
pub proof fn unsafe_is_skipped(t: Seq<TtElement>, pos: int, first: Ident)
    requires
        writes_ident(t, pos, first),
        first.sym@ == "unsafe"@,
        forall|i: Ident| #[trigger] writes_ident(t, pos + 1, i) ==> i.sym@ != "unsafe"@,
    ensures
        parser::rule_style(t, pos) == parser::rule_style(t, pos + 1),
{
    lemma_style_names();
    if let Some(i) = parser::ident_at(t, pos + 1) {
        assert(writes_ident(t, pos + 1, i));
    }
}

// What an operation shows.

proof fn lemma_ops_view(ops: Seq<Op>)
    ensures
        op::ops_view(ops).len() == ops.len(),
        forall|i: int| 0 <= i < ops.len() ==> #[trigger] op::ops_view(ops)[i] == op::op_view(ops[i]),
    decreases ops.len(),
{
    if ops.len() > 0 {
        lemma_ops_view(ops.drop_last());
    }
}

/// Nothing of an operation is left out of what it shows.
pub proof fn operations_show_all_they_hold(operation: Op)
    ensures
        match operation {
            Op::Var { name, kind, id } => op::op_view(operation) == (SpecOp::Var {
                name: name.text@,
                kind,
                id,
            }),
            Op::Ignore { name, id } => op::op_view(operation) == (SpecOp::Ignore {
                name: name.text@,
                id,
            }),
            Op::Index { depth } => op::op_view(operation) == (SpecOp::Index {
                depth: depth as nat,
            }),
            Op::Len { depth } => op::op_view(operation) == (SpecOp::Len { depth: depth as nat }),
            Op::Count { name, depth } => op::op_view(operation) == (SpecOp::Count {
                name: name.text@,
                depth: depth as nat,
            }),
            Op::Concat { payload } => {
                &&& op::op_view(operation) is Concat
                &&& op::op_view(operation)->Concat_span == payload.span
                &&& op::op_view(operation)->elements.len() == payload.elements@.len()
                &&& forall|i: int|
                    0 <= i < payload.elements@.len() ==> match payload.elements@[i] {
                        ConcatMetaVarExprElem::Ident(a) => (
                        #[trigger] op::op_view(operation)->elements[i]) == SpecConcatElem::Ident(
                            op::SpecIdent { sym: a.sym.text@, span: a.span, is_raw: a.is_raw },
                        ),
                        ConcatMetaVarExprElem::Var(a) => op::op_view(operation)->elements[i]
                            == SpecConcatElem::Var(
                            op::SpecIdent { sym: a.sym.text@, span: a.span, is_raw: a.is_raw },
                        ),
                        ConcatMetaVarExprElem::Literal(l) => op::op_view(operation)->elements[i]
                            == SpecConcatElem::Literal(
                            op::SpecLiteral {
                                text_and_suffix: l.text_and_suffix.text@,
                                span: l.span,
                                kind: l.kind,
                                suffix_len: l.suffix_len,
                            },
                        ),
                    }
            },
            Op::Repeat { tokens, kind, separator } => {
                &&& op::op_view(operation) is Repeat
                &&& op::op_view(operation)->Repeat_tokens.len() == tokens.0@.len()
                &&& forall|i: int|
                    0 <= i < tokens.0@.len() ==> #[trigger] op::op_view(operation)->Repeat_tokens[i]
                        == op::op_view(tokens.0@[i])
                &&& op::op_view(operation)->Repeat_kind == kind
                &&& op::op_view(operation)->separator is Some <==> separator is Some
                &&& separator is Some ==> op::op_view(operation)->separator->0 == (*separator->0)@
            },
            Op::Subtree { tokens, delimiter } => {
                &&& op::op_view(operation) is Subtree
                &&& op::op_view(operation)->Subtree_tokens.len() == tokens.0@.len()
                &&& forall|i: int|
                    0 <= i < tokens.0@.len() ==> #[trigger] op::op_view(
                        operation,
                    )->Subtree_tokens[i] == op::op_view(tokens.0@[i])
                &&& op::op_view(operation)->delimiter == *delimiter
            },
            Op::Literal { text_and_suffix, span, kind, suffix_len } => op::op_view(operation)
                == SpecOp::Literal(
                op::SpecLiteral { text_and_suffix: text_and_suffix.text@, span, kind, suffix_len },
            ),
            Op::PunctInline { .. } => op::op_view(operation) is Punct,
            Op::PunctBoxed(puncts) => op::op_view(operation) == SpecOp::Punct(puncts@),
            Op::Ident { sym, span, is_raw } => op::op_view(operation) == SpecOp::Ident(
                op::SpecIdent { sym: sym.text@, span, is_raw },
            ),
        },
{
    match operation {
        Op::Repeat { tokens, .. } => {
            lemma_ops_view(tokens.0@);
        },
        Op::Subtree { tokens, .. } => {
            lemma_ops_view(tokens.0@);
        },
        _ => {},
    }
}

/// Nothing of a separator is left out of what it shows, and of a side of a rule every operation shows.
pub proof fn sides_show_all_their_operations(ops: Seq<Op>, separator: op::Separator)
    ensures
        op::ops_view(ops).len() == ops.len(),
        forall|i: int| 0 <= i < ops.len() ==> #[trigger] op::ops_view(ops)[i] == op::op_view(ops[i]),
        match separator {
            op::Separator::Literal(l) => separator@ == SpecSeparator::Literal(
                op::SpecLiteral {
                    text_and_suffix: l.text_and_suffix.text@,
                    span: l.span,
                    kind: l.kind,
                    suffix_len: l.suffix_len,
                },
            ),
            op::Separator::Ident(i) => separator@ == SpecSeparator::Ident(
                op::SpecIdent { sym: i.sym.text@, span: i.span, is_raw: i.is_raw },
            ),
            op::Separator::Puncts(p) => separator@ == SpecSeparator::Puncts(op::punct_items(p)),
            op::Separator::Lifetime(p, i) => separator@ == SpecSeparator::Lifetime(
                p,
                op::SpecIdent { sym: i.sym.text@, span: i.span, is_raw: i.is_raw },
            ),
        },
{
    lemma_ops_view(ops);
}

/// Separators are the same if they are of one sort and have the same text, wherever they stand.
pub proof fn separators_are_compared_by_their_text(a: op::Separator, b: op::Separator)
    ensures
        op::same_separator(a@, b@) <==> match (a, b) {
            (op::Separator::Literal(x), op::Separator::Literal(y)) => x.text_and_suffix.text@
                == y.text_and_suffix.text@,
            (op::Separator::Ident(x), op::Separator::Ident(y)) => x.sym.text@ == y.sym.text@,
            (op::Separator::Lifetime(_, x), op::Separator::Lifetime(_, y)) => x.sym.text@
                == y.sym.text@,
            (op::Separator::Puncts(x), op::Separator::Puncts(y)) => op::punct_items(x).len()
                == op::punct_items(y).len() && forall|i: int|
                0 <= i < op::punct_items(x).len() ==> (#[trigger] op::punct_items(x)[i]).char
                    == op::punct_items(y)[i].char,
            _ => false,
        },
{
    if let (op::Separator::Puncts(x), op::Separator::Puncts(y)) = (a, b) {
        let (p, q) = (op::punct_items(x), op::punct_items(y));
        let (c, d) = (op::chars_of(p), op::chars_of(q));
        if c == d {
            assert(c.len() == p.len() && d.len() == q.len());
            assert forall|i: int| 0 <= i < p.len() implies (#[trigger] p[i]).char == q[i].char by {
                assert(c[i] == d[i]);
            }
        }
        if p.len() == q.len() && forall|i: int|
            0 <= i < p.len() ==> (#[trigger] p[i]).char == q[i].char {
            assert(c =~= d);
        }
    }
}

/// An error tells what it was made with, and an invalid repetition says so.
pub proof fn errors_tell_what_is_wrong(error: op::ParseError)
    ensures
        error is UnexpectedToken ==> error.spec_message() == error->UnexpectedToken_0@ && error@
            == SpecError::UnexpectedToken(error->UnexpectedToken_0@),
        error is Expected ==> error.spec_message() == error->Expected_0@ && error@
            == SpecError::Expected(error->Expected_0@),
        error is InvalidRepeat ==> error.spec_message() == "invalid repeat"@ && error@
            == SpecError::InvalidRepeat,
{
}

} // verus!
