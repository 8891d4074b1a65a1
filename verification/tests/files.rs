use ra_core::anchors::SpanMap as FileSpanMap;
use ra_core::ast_id::erased::ROOT_ERASED_FILE_AST_ID;
use ra_core::editioned_file_id::{EditionedFileId, Parses};
use ra_core::hir_file::{HirFileId, SpanMaps};
use ra_core::ids::{Id, MacroCallId};
use ra_core::input::Input;
use ra_core::memory_usage::{per_query_memory_usage, Bytes, QueryMemory};
use ra_core::real_span_map::RealSpanMap;
use ra_core::span;
use ra_core::span::{Edition, FileId, Span, SpanAnchor, SyntaxContext};
use ra_core::span_map::SpanMap;
use ra_core::syntax_kind::SyntaxKind;
use ra_core::syntax_node::{RustLanguage, SyntaxError, SyntaxTreeBuilder};
use ra_core::text::{TextRange, TextSize};

fn build() -> SyntaxTreeBuilder {
    let mut builder = SyntaxTreeBuilder::default();
    builder.start_node(SyntaxKind::SOURCE_FILE);
    builder.start_node(SyntaxKind::FN);
    builder.token(SyntaxKind::Other(200), "fn");
    builder.token(SyntaxKind::WHITESPACE, " ");
    builder.start_node(SyntaxKind::NAME);
    builder.token(SyntaxKind::IDENT, "\u{e4}");
    builder.finish_node();
    builder.finish_node();
    builder.token(SyntaxKind::WHITESPACE, "\n");
    builder.finish_node();
    builder
}

#[test]
fn trees_are_read_as_they_were_built() {
    let parse = build().finish();
    assert!(parse.errors.is_empty());
    let tree = parse.tree().unwrap();
    assert_eq!((tree.kind, tree.text_len, tree.children.len()), (SyntaxKind::SOURCE_FILE, 6, 2));
    let ra_core::green::GreenElement::Node(function) = &tree.children[0] else {
        panic!("not a node");
    };
    assert_eq!((function.kind, function.text_len), (SyntaxKind::FN, 5));
    let ra_core::green::GreenElement::Token(keyword) = &function.children[0] else {
        panic!("not a token");
    };
    assert_eq!((keyword.kind, keyword.text.as_str()), (SyntaxKind::Other(200), "fn"));
    let ra_core::green::GreenElement::Node(name) = &function.children[2] else {
        panic!("not a node");
    };
    assert_eq!(
        ra_core::ast_id::identity::direct_child_text(function, SyntaxKind::NAME),
        "\u{e4}"
    );
    assert_eq!(name.text_len, 2);
}

#[test]
fn errors_are_kept_with_their_places() {
    let mut builder = build();
    builder.error("expected a body".to_owned(), TextSize(5));
    let (_, errors) = builder.finish_raw();
    assert_eq!(
        errors,
        [SyntaxError {
            message: "expected a body".to_owned(),
            range: TextRange::new(TextSize(5), TextSize(5)),
        }]
    );
}

#[test]
fn kinds_are_numbered() {
    for raw in [0, 1, 17, 50, 51, 52, 300, u16::MAX] {
        assert_eq!(RustLanguage::kind_to_raw(RustLanguage::kind_from_raw(raw)), raw);
    }
    assert_eq!(RustLanguage::kind_from_raw(0), SyntaxKind::EOF);
    assert_eq!(RustLanguage::kind_from_raw(51), SyntaxKind::Other(0));
}

#[test]
fn files_have_editions() {
    let file = EditionedFileId::new(FileId::from_raw(3), Edition::Edition2018);
    assert_eq!(file.unpack(), (FileId(3), Edition::Edition2018));
    assert_eq!((file.file_id(), file.edition()), (FileId(3), Edition::Edition2018));
    assert_eq!(
        file.span_file_id(),
        span::EditionedFileId { file_id: FileId(3), edition: Edition::Edition2018 }
    );
    assert_eq!(EditionedFileId::from_span_file_id(file.span_file_id()), file);
    let current = EditionedFileId::current_edition(FileId(3));
    assert_eq!(current.edition(), Edition::CURRENT);
    assert_ne!(current, file);
}

#[test]
fn files_without_errors_report_none() {
    let good = EditionedFileId::current_edition(FileId(0));
    let bad = EditionedFileId::current_edition(FileId(1));
    let mut builder = build();
    builder.error("oops".to_owned(), TextSize(2));
    let parses = Parses { files: vec![(good, build().finish()), (bad, builder.finish())] };
    assert_eq!(good.parse_errors(&parses), None);
    assert_eq!(bad.parse_errors(&parses).unwrap().len(), 1);
    assert_eq!(bad.parse_errors(&parses).unwrap()[0].message, "oops");
    assert_eq!(bad.parse(&parses).tree().unwrap().text_len, 6);
}

#[test]
fn files_and_expansions_have_span_maps() {
    let file = EditionedFileId::current_edition(FileId(0));
    let call = MacroCallId(Id::from_bits(1));
    let span = Span {
        range: TextRange::new(TextSize(7), TextSize(9)),
        anchor: SpanAnchor { file_id: file.span_file_id(), ast_id: ROOT_ERASED_FILE_AST_ID() },
        ctx: SyntaxContext(3),
    };
    let mut expansion = SpanMap::empty();
    expansion.push(TextSize(4), span);
    let maps = SpanMaps {
        files: vec![(file, RealSpanMap::absolute(file.span_file_id()))],
        expansions: vec![(call, expansion)],
    };
    let range = TextRange::new(TextSize(1), TextSize(2));
    let expanded = HirFileId::MacroFile(call).span_map(&maps);
    assert!(matches!(expanded, FileSpanMap::ExpansionSpanMap(_)));
    assert_eq!(expanded.span_for_range(range), span);
    let real = HirFileId::FileId(file).span_map(&maps);
    assert!(matches!(real, FileSpanMap::RealSpanMap(_)));
    assert_eq!(real.span_for_range(range).range, range);
    assert_eq!(call.expansion_span_map(&maps).iter().len(), 1);
    assert_eq!(maps.real_span_map(file).end, TextSize(u32::MAX));
}

#[test]
fn inputs_end_with_eof() {
    let mut input = Input::with_capacity(2);
    assert_eq!(input.len(), 0);
    input.push(SyntaxKind::FN, Edition::Edition2015);
    input.was_joint();
    input.push_ident(SyntaxKind::UNION, Edition::Edition2024);
    assert_eq!(input.len(), 2);
    assert_eq!((input.kind(0), input.contextual_kind(0)), (SyntaxKind::FN, SyntaxKind::EOF));
    assert_eq!((input.kind(1), input.contextual_kind(1)), (SyntaxKind::IDENT, SyntaxKind::UNION));
    assert_eq!((input.kind(2), input.contextual_kind(2)), (SyntaxKind::EOF, SyntaxKind::EOF));
    assert!(input.is_joint(0) && !input.is_joint(1));
    assert_eq!((input.edition(0), input.edition(1)), (Edition::Edition2015, Edition::Edition2024));
}

fn query(name: &str, sizes: (usize, usize, Option<usize>), count: usize) -> QueryMemory {
    QueryMemory {
        name: name.to_owned(),
        size_of_metadata: sizes.0,
        size_of_fields: sizes.1,
        heap_size_of_fields: sizes.2,
        count,
    }
}

#[test]
fn the_largest_query_is_reported_first() {
    let report = per_query_memory_usage(vec![
        query("a", (1, 2, None), 5),
        query("b", (10, 20, Some(30)), 6),
        query("c", (3, 0, Some(0)), 7),
        query("d", (4, 0, None), 8),
    ]);
    assert_eq!(
        report,
        [
            ("b".to_owned(), Bytes(60), 6),
            ("d".to_owned(), Bytes(4), 8),
            ("a".to_owned(), Bytes(3), 5),
            ("c".to_owned(), Bytes(3), 7),
        ]
    );
    assert_eq!(per_query_memory_usage(vec![]), []);
}

#[test]
fn amounts_of_memory_are_signed() {
    let report = per_query_memory_usage(vec![
        query("all", (usize::MAX, 0, None), 1),
        query("none", (0, 0, None), 0),
    ]);
    assert_eq!(report[0], ("none".to_owned(), Bytes(0), 0));
    assert_eq!(report[1], ("all".to_owned(), Bytes(-1), 1));
}
