use ra_core::ast_id::erased::ROOT_ERASED_FILE_AST_ID;
use ra_core::mbe::op::{
    ConcatMetaVarExprElem, ExprKind, MetaTemplate, MetaVarKind, Op, ParseError, RepeatKind,
    Separator,
};
use ra_core::mbe::parser::{
    eat_fragment_kind, parse_metavar_expr, parse_repeat, parse_rule_style, try_eat_comma,
    try_eat_dollar, Editions, MacroCallStyle, Mode,
};
use ra_core::mbe::puncts::pack;
use ra_core::span::{Edition, EditionedFileId, FileId, Span, SpanAnchor, SyntaxContext};
use ra_core::text::{TextRange, TextSize};
use ra_core::tt::{
    Delimiter, DelimiterKind, Ident, IdentIsRaw, Leaf, LitKind, Literal, Punct, Spacing, Subtree,
    Symbol, TtElement, TtIter,
};

fn span(start: usize, end: usize) -> Span {
    Span {
        range: TextRange::new(TextSize(start as u32), TextSize(end as u32)),
        anchor: SpanAnchor {
            file_id: EditionedFileId::current_edition(FileId::from_raw(0)),
            ast_id: ROOT_ERASED_FILE_AST_ID(),
        },
        ctx: SyntaxContext::root(Edition::CURRENT),
    }
}

const GLUED: [&str; 12] =
    ["..=", "...", "<<=", ">>=", "::", "->", "=>", "==", "..", "&&", "||", "+="];

fn literal(text: &str, at: usize) -> Literal {
    let digits = text.chars().take_while(|c| c.is_ascii_digit()).count();
    let number = text.starts_with(|c: char| c.is_ascii_digit());
    Literal {
        text_and_suffix: Symbol::intern(text),
        span: span(at, at + text.len()),
        kind: if number { LitKind::Integer } else { LitKind::Str },
        suffix_len: if number { (text.len() - digits) as u8 } else { 0 },
    }
}

fn ident(text: &str, at: usize) -> Ident {
    Ident {
        sym: Symbol::intern(text),
        span: span(at, at + text.len()),
        is_raw: IdentIsRaw::No,
    }
}

/// Reads tokens up to a closing bracket or the end.
fn read(text: &str, at: &mut usize) -> Vec<TtElement> {
    let mut tokens = Vec::new();
    while let Some(c) = text[*at..].chars().next() {
        let start = *at;
        let rest = &text[start..];
        if c == ' ' {
            *at += 1;
        } else if c.is_alphanumeric() || c == '_' {
            let len = rest.find(|c: char| !c.is_alphanumeric() && c != '_').unwrap_or(rest.len());
            *at += len;
            let word = &rest[..len];
            let leaf = if c.is_ascii_digit() || word == "true" || word == "false" {
                Leaf::Literal(literal(word, start))
            } else {
                Leaf::Ident(ident(word, start))
            };
            tokens.push(TtElement::Leaf { leaf, glued: 1 });
        } else if c == '"' {
            let len = rest[1..].find('"').unwrap() + 2;
            *at += len;
            let leaf = Leaf::Literal(literal(&rest[..len], start));
            tokens.push(TtElement::Leaf { leaf, glued: 1 });
        } else if ")]}".contains(c) {
            return tokens;
        } else if "([{".contains(c) {
            *at += 1;
            let inside = read(text, at);
            *at += 1;
            let kind = match c {
                '(' => DelimiterKind::Parenthesis,
                '[' => DelimiterKind::Bracket,
                _ => DelimiterKind::Brace,
            };
            let delimiter =
                Delimiter { open: span(start, start + 1), close: span(*at - 1, *at), kind };
            tokens.push(TtElement::Subtree(Subtree { delimiter, tokens: inside }));
        } else {
            *at += c.len_utf8();
            let next = text[*at..].chars().next();
            let joint = next.map_or(false, |n| n.is_ascii_punctuation() && !"()[]{}\"".contains(n));
            let spacing = if joint { Spacing::Joint } else { Spacing::Alone };
            let glued = GLUED.iter().find(|g| rest.starts_with(**g)).map_or(1, |g| g.len());
            let leaf = Leaf::Punct(Punct { char: c, spacing, span: span(start, *at) });
            tokens.push(TtElement::Leaf { leaf, glued });
        }
    }
    tokens
}

fn tokens(text: &str) -> Vec<TtElement> {
    read(text, &mut 0)
}

fn editions(edition: Edition) -> Editions {
    Editions { known: vec![], otherwise: edition }
}

fn pattern(text: &str) -> Result<Vec<Op>, ParseError> {
    MetaTemplate::parse_pattern(&editions(Edition::CURRENT), TtIter::new(&tokens(text)))
        .map(|it| it.0)
}

fn template(text: &str) -> Result<Vec<Op>, ParseError> {
    MetaTemplate::parse_template(&editions(Edition::CURRENT), TtIter::new(&tokens(text)))
        .map(|it| it.0)
}

fn unexpected<T>(text: &str) -> Result<T, ParseError> {
    Err(ParseError::UnexpectedToken(text.to_owned()))
}

fn expected<T>(text: &str) -> Result<T, ParseError> {
    Err(ParseError::Expected(text.to_owned()))
}

fn sym(text: &str) -> Symbol {
    Symbol::intern(text)
}

#[test]
fn variables_of_patterns_have_kinds() {
    let kind = |text: &str, edition| {
        let all = tokens(text);
        eat_fragment_kind(&editions(edition), &mut TtIter::new(&all), Mode::Pattern)
    };
    let now = Edition::CURRENT;
    for (name, expected) in [
        ("path", MetaVarKind::Path),
        ("ty", MetaVarKind::Ty),
        ("pat", MetaVarKind::Pat),
        ("pat_param", MetaVarKind::PatParam),
        ("stmt", MetaVarKind::Stmt),
        ("block", MetaVarKind::Block),
        ("meta", MetaVarKind::Meta),
        ("item", MetaVarKind::Item),
        ("vis", MetaVarKind::Vis),
        ("expr", MetaVarKind::Expr(ExprKind::Expr)),
        ("expr_2021", MetaVarKind::Expr(ExprKind::Expr2021)),
        ("ident", MetaVarKind::Ident),
        ("tt", MetaVarKind::Tt),
        ("lifetime", MetaVarKind::Lifetime),
        ("literal", MetaVarKind::Literal),
    ] {
        assert_eq!(kind(&format!(":{}", name), now), Ok(Some(expected)));
    }
    assert_eq!(kind(":unknown", now), Ok(None));
    assert_eq!(kind(":pat", Edition::Edition2018), Ok(Some(MetaVarKind::PatParam)));
    assert_eq!(kind(":pat", Edition::Edition2021), Ok(Some(MetaVarKind::Pat)));
    assert_eq!(
        kind(":expr", Edition::Edition2021),
        Ok(Some(MetaVarKind::Expr(ExprKind::Expr2021)))
    );
    assert_eq!(kind("", now), unexpected("missing fragment specifier"));
    assert_eq!(kind(": 3", now), unexpected("missing fragment specifier"));
    assert_eq!(kind("ty", now), unexpected("missing fragment specifier"));
}

#[test]
fn variables_of_templates_have_no_kinds() {
    let all = tokens(":ty");
    let mut src = TtIter::new(&all);
    let kind = eat_fragment_kind(&editions(Edition::CURRENT), &mut src, Mode::Template);
    assert_eq!(kind, Ok(None));
    assert_eq!(src.pos, 0);
}

#[test]
fn editions_are_those_of_the_context() {
    let table = Editions {
        known: vec![(SyntaxContext(4), Edition::Edition2015), (SyntaxContext(4), Edition::Edition2021)],
        otherwise: Edition::Edition2024,
    };
    assert_eq!(table.of(SyntaxContext(4)), Edition::Edition2015);
    assert_eq!(table.of(SyntaxContext(5)), Edition::Edition2024);
}

#[test]
fn patterns_hold_variables_and_tokens() {
    let ops = pattern("$x:ty , foo 1 $crate $true:tt").unwrap();
    assert_eq!(
        ops,
        [
            Op::Var { name: sym("x"), kind: Some(MetaVarKind::Ty), id: span(1, 2) },
            Op::from_puncts(vec![Punct { char: ',', spacing: Spacing::Alone, span: span(6, 7) }]),
            Op::Ident { sym: sym("foo"), span: span(8, 11), is_raw: IdentIsRaw::No },
            Op::Literal {
                text_and_suffix: sym("1"),
                span: span(12, 13),
                kind: LitKind::Integer,
                suffix_len: 0
            },
            Op::Ident { sym: sym("$crate"), span: span(15, 20), is_raw: IdentIsRaw::No },
            Op::Var { name: sym("true"), kind: Some(MetaVarKind::Tt), id: span(22, 26) },
        ]
    );
}

#[test]
fn repetitions_are_parsed() {
    let ops = pattern("$($x:ident),*").unwrap();
    let [Op::Repeat { tokens, kind, separator }] = ops.as_slice() else {
        panic!("not a repetition");
    };
    assert_eq!(*kind, RepeatKind::ZeroOrMore);
    assert_eq!(
        tokens.0,
        [Op::Var { name: sym("x"), kind: Some(MetaVarKind::Ident), id: span(3, 4) }]
    );
    let Some(separator) = separator else { panic!("no separator") };
    let Separator::Puncts(puncts) = &**separator else { panic!("not a punctuation") };
    assert_eq!(puncts.iter().map(|p| p.char).collect::<String>(), ",");
}

#[test]
fn repeats_end_with_their_kind() {
    let repeat = |text: &str| {
        let all = tokens(text);
        parse_repeat(&mut TtIter::new(&all)).map(|(separator, kind)| {
            let text = separator.map(|s| match s {
                Separator::Literal(it) => it.text_and_suffix.text,
                Separator::Ident(it) => it.sym.text,
                Separator::Puncts(it) => it.iter().map(|p| p.char).collect(),
                Separator::Lifetime(p, it) => format!("{}{}", p.char, it.sym.text),
            });
            (text, kind)
        })
    };
    let some = |text: &str| Some(text.to_owned());
    assert_eq!(repeat("*"), Ok((None, RepeatKind::ZeroOrMore)));
    assert_eq!(repeat("+"), Ok((None, RepeatKind::OneOrMore)));
    assert_eq!(repeat("?"), Ok((None, RepeatKind::ZeroOrOne)));
    assert_eq!(repeat("=> +"), Ok((some("=>"), RepeatKind::OneOrMore)));
    assert_eq!(repeat("and *"), Ok((some("and"), RepeatKind::ZeroOrMore)));
    assert_eq!(repeat("7 *"), Ok((some("7"), RepeatKind::ZeroOrMore)));
    assert_eq!(repeat("'a *"), Ok((some("'a"), RepeatKind::ZeroOrMore)));
    assert_eq!(repeat("..= *"), Ok((some("..="), RepeatKind::ZeroOrMore)));
    for bad in ["", "()", "....*", "a b *", ", a *", "a 1 *", ", 1 *", "'a b *", "a , *", "1 ,*"] {
        assert_eq!(repeat(bad), Err(ParseError::InvalidRepeat), "{}", bad);
    }
}

#[test]
fn dollars_need_something_to_stand_for() {
    assert_eq!(expected::<Vec<Op>>("expected ident"), pattern("$;"));
    assert_eq!(expected::<Vec<Op>>("expected ident"), pattern("$1"));
    assert_eq!(
        expected::<Vec<Op>>("expected `$()` repetition or `${}` expression"),
        pattern("$[]")
    );
    assert_eq!(
        unexpected::<Vec<Op>>("`${}` metavariable expressions are not allowed in matchers"),
        pattern("${index()}")
    );
    assert_eq!(unexpected::<Vec<Op>>("`$$` is not allowed on the pattern side"), pattern("$$"));
    assert_eq!(unexpected::<Vec<Op>>("missing fragment specifier"), pattern("$x"));
    assert_eq!(Err(ParseError::InvalidRepeat), pattern("$(a)"));
    let dollar = Punct { char: '$', spacing: Spacing::Alone, span: span(0, 1) };
    assert_eq!(Ok(vec![Op::from_puncts(vec![dollar])]), pattern("$"));
}

#[test]
fn templates_hold_expressions() {
    assert_eq!(template("${index()}"), Ok(vec![Op::Index { depth: 0 }]));
    assert_eq!(template("${index(2)}"), Ok(vec![Op::Index { depth: 2 }]));
    assert_eq!(template("${len(10)}"), Ok(vec![Op::Len { depth: 10 }]));
    assert_eq!(
        template("${ignore($x)}"),
        Ok(vec![Op::Ignore { name: sym("x"), id: span(10, 11) }])
    );
    assert_eq!(template("${count($x)}"), Ok(vec![Op::Count { name: sym("x"), depth: 0 }]));
    assert_eq!(template("${count($x, 3)}"), Ok(vec![Op::Count { name: sym("x"), depth: 3 }]));
    assert_eq!(template("${count($x,)}"), Ok(vec![Op::Count { name: sym("x"), depth: 0 }]));
    let ops = template("${concat(a, $b, \"c\", _)}").unwrap();
    let [Op::Concat { payload }] = ops.as_slice() else { panic!("not a concatenation") };
    assert_eq!(payload.span, span(2, 8));
    assert_eq!(
        payload.elements,
        [
            ConcatMetaVarExprElem::Ident(ident("a", 9)),
            ConcatMetaVarExprElem::Var(ident("b", 13)),
            ConcatMetaVarExprElem::Literal(literal("\"c\"", 16)),
            ConcatMetaVarExprElem::Ident(ident("_", 21)),
        ]
    );
    let dollar = Punct { char: '$', spacing: Spacing::Alone, span: span(1, 2) };
    assert_eq!(template("$$"), Ok(vec![Op::from_puncts(vec![dollar])]));
    assert_eq!(template("$x"), Ok(vec![Op::Var { name: sym("x"), kind: None, id: span(1, 2) }]));
}

#[test]
fn bad_expressions_are_refused() {
    for bad in [
        "${}",
        "${index}",
        "${index[]}",
        "${index(a)}",
        "${index(1u8)}",
        "${index(1 2)}",
        "${index(99999999999999999999999)}",
        "${index(\"1\")}",
        "${ignore(x)}",
        "${ignore($)}",
        "${ignore($x y)}",
        "${count(x)}",
        "${concat(a)}",
        "${concat()}",
        "${concat(a b)}",
        "${concat(a, ;)}",
        "${other()}",
        "${1()}",
    ] {
        assert_eq!(
            template(bad),
            unexpected("invalid metavariable expression"),
            "{}",
            bad
        );
    }
    let all = tokens("index(a)");
    assert_eq!(parse_metavar_expr(&mut TtIter::new(&all)), Err(()));
}

#[test]
fn subtrees_are_parsed_inside() {
    let ops = template("{ $x => }").unwrap();
    let [Op::Subtree { tokens, delimiter }] = ops.as_slice() else { panic!("not a subtree") };
    assert_eq!(delimiter.kind, DelimiterKind::Brace);
    assert_eq!((delimiter.open, delimiter.close), (span(0, 1), span(8, 9)));
    assert_eq!(tokens.iter().len(), 2);
    assert_eq!(template("{ ${} }"), unexpected("invalid metavariable expression"));
    assert_eq!(pattern("( $( a ) )"), Err(ParseError::InvalidRepeat));
}

#[test]
fn glued_punctuation_is_one_operation() {
    let ops = template("a ..= b").unwrap();
    assert_eq!(ops.len(), 3);
    let mut puncts = ops[1].puncts();
    assert_eq!(puncts.len(), 3);
    let mut chars = String::new();
    while let Some(p) = puncts.next() {
        chars.push(p.char);
    }
    assert_eq!(chars, "..=");
    assert_eq!(puncts.len(), 0);
}

fn punct(char: char, spacing: Spacing, start: usize, end: usize) -> Punct {
    Punct { char, spacing, span: span(start, end) }
}

fn read_back(op: &Op) -> Vec<Punct> {
    let mut puncts = op.puncts();
    let mut all = Vec::new();
    while let Some(p) = puncts.next() {
        all.push(p);
    }
    all
}

#[test]
fn punctuation_is_packed() {
    let arrow = vec![punct('=', Spacing::Joint, 5, 6), punct('>', Spacing::Alone, 6, 7)];
    assert_eq!(pack(&arrow), Some(1 | 1 << 2 | ('=' as u32) << 8 | ('>' as u32) << 16));
    let op = Op::from_puncts(arrow.clone());
    assert!(matches!(op, Op::PunctInline { .. }));
    assert_eq!(read_back(&op), arrow);

    let hidden = vec![punct('\u{1f980}', Spacing::JointHidden, 3, 9)];
    assert_eq!(pack(&hidden), Some(2 << 2 | 0x1f980 << 8));
    assert_eq!(read_back(&Op::from_puncts(hidden.clone())), hidden);
}

#[test]
fn punctuation_that_does_not_fit_is_boxed() {
    let apart = vec![punct('=', Spacing::Joint, 5, 6), punct('>', Spacing::Alone, 8, 9)];
    let wide = vec![punct('=', Spacing::Joint, 5, 6), punct('\u{e4}', Spacing::Alone, 6, 7)];
    let mut other_ctx = vec![punct('=', Spacing::Joint, 5, 6), punct('>', Spacing::Alone, 6, 7)];
    other_ctx[1].span.ctx = SyntaxContext(1);
    for puncts in [apart, wide, other_ctx] {
        assert_eq!(pack(&puncts), None);
        let op = Op::from_puncts(puncts.clone());
        assert!(matches!(op, Op::PunctBoxed(_)));
        assert_eq!(op.puncts().len(), 2);
        assert_eq!(read_back(&op), puncts);
    }
}

#[test]
fn rules_have_styles() {
    let style = |text: &str| {
        let all = tokens(text);
        let mut src = TtIter::new(&all);
        parse_rule_style(&mut src).map(|style| (style, src.pos))
    };
    assert_eq!(style("(a) => {}"), Ok((MacroCallStyle::FnLike, 0)));
    assert_eq!(style(""), Ok((MacroCallStyle::FnLike, 0)));
    assert_eq!(style("attr() (a)"), Ok((MacroCallStyle::Attr, 2)));
    assert_eq!(style("derive() (a)"), Ok((MacroCallStyle::Derive, 2)));
    assert_eq!(style("unsafe attr() (a)"), Ok((MacroCallStyle::Attr, 3)));
    assert_eq!(style("unsafe (a)"), Ok((MacroCallStyle::FnLike, 1)));
    assert_eq!(style("attr"), expected("expected `()`"));
    assert_eq!(style("derive x"), expected("expected `()`"));
}

#[test]
fn commas_and_dollars_are_eaten() {
    let all = tokens(", $ x");
    let mut src = TtIter::new(&all);
    assert!(!try_eat_dollar(&mut src));
    assert!(try_eat_comma(&mut src));
    assert!(!try_eat_comma(&mut src));
    assert!(try_eat_dollar(&mut src));
    assert!(!try_eat_dollar(&mut src) && !try_eat_comma(&mut src));
    assert_eq!(src.pos, 2);
}

#[test]
fn separators_are_compared_by_their_text() {
    let separator = |text: &str| {
        let all = tokens(text);
        parse_repeat(&mut TtIter::new(&all)).unwrap().0.unwrap()
    };
    assert!(separator(", *") == separator("   , +"));
    assert!(separator(", *") != separator("; *"));
    assert!(separator(", *") != separator(",, *"));
    assert!(separator("a *") == separator(" a *"));
    assert!(separator("a *") != separator("'a *"));
    assert!(separator("'a *") == separator(" 'a *"));
    assert!(separator("1 *") == separator("  1 *"));
    assert!(separator("1 *") != separator("2 *"));
    assert!(separator("'a *").clone() == separator("'a *"));
}

#[test]
fn errors_have_messages() {
    assert_eq!(ParseError::expected("x").message(), "x");
    assert_eq!(ParseError::unexpected("y").message(), "y");
    assert_eq!(ParseError::InvalidRepeat.message(), "invalid repeat");
}

#[test]
fn tokens_without_dollars_mean_the_same_on_both_sides() {
    let text = "fn f<'a>(x: &'a u8) -> [u8; 3] { x += 1 => \"s\" }";
    let ops = template(text).unwrap();
    assert_eq!(pattern(text), Ok(ops));
    assert_eq!(pattern(""), Ok(vec![]));
}

#[test]
fn expressions_are_read_from_where_the_iterator_stands() {
    let read = |text: &str, pos: usize| {
        let all = tokens(text);
        let mut src = TtIter { tokens: &all, pos };
        let r = parse_metavar_expr(&mut src);
        (r, src.pos)
    };
    assert_eq!(read("x index(1) y", 1), (Ok(Op::Index { depth: 1 }), 3));
    assert_eq!(read("x index(a) y", 1), (Err(()), 3));
    assert_eq!(read("x index y", 1), (Err(()), 3));
    assert_eq!(read("x index", 1), (Err(()), 2));
    assert_eq!(read("1 index(1)", 0), (Err(()), 1));
    assert_eq!(read("x", 1), (Err(()), 1));
}
