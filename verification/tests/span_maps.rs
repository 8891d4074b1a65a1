use ra_core::ast_id::erased::{ErasedFileAstId, ROOT_ERASED_FILE_AST_ID};
use ra_core::real_span_map::RealSpanMap;
use ra_core::span::{Edition, EditionedFileId, FileId, Span, SpanAnchor, SyntaxContext};
use ra_core::span_map::bases::SpanMapBaseIndices;
use ra_core::span_map::{SpanMap, SpanMapEntry};
use ra_core::text::{TextRange, TextSize};

fn range(start: u32, end: u32) -> TextRange {
    TextRange::new(TextSize(start), TextSize(end))
}

fn anchor(file_id: u32) -> SpanAnchor {
    SpanAnchor {
        file_id: EditionedFileId::current_edition(FileId::from_raw(file_id)),
        ast_id: ROOT_ERASED_FILE_AST_ID(),
    }
}

fn span_in(file_id: u32, start: u32, end: u32) -> Span {
    Span {
        range: range(start, end),
        anchor: anchor(file_id),
        ctx: SyntaxContext::root(Edition::CURRENT),
    }
}

fn map_of(pieces: &[(u32, Span)]) -> SpanMap {
    let mut map = SpanMap::empty();
    for &(end, span) in pieces {
        map.push(TextSize(end), span);
    }
    map
}

#[test]
fn repeated_span_bases_use_compact_storage() {
    assert_eq!(std::mem::size_of::<SpanMapEntry>(), 12);

    let anchor = anchor(0);
    let ctx = SyntaxContext::root(Edition::CURRENT);
    let spans = [
        Span { range: range(0, 1), anchor, ctx },
        Span { range: range(1, 3), anchor, ctx },
        Span { range: range(3, 6), anchor, ctx },
    ];
    let mut map = SpanMap::empty();
    for (end, span) in [1, 3, 6].into_iter().zip(spans) {
        map.push(TextSize(end), span);
    }
    map.finish();

    assert_eq!(map.bases.len(), 1);
    assert!(matches!(map.base_indices, SpanMapBaseIndices::Compact(_)));
    assert_eq!(
        map.iter(),
        [(TextSize(1), spans[0]), (TextSize(3), spans[1]), (TextSize(6), spans[2])]
    );
    assert_eq!(map.span_at(TextSize(2)), spans[1]);

    let mut with_unused_base = SpanMap::empty();
    with_unused_base.push(
        TextSize(1),
        Span {
            anchor: SpanAnchor {
                file_id: EditionedFileId::current_edition(FileId::from_raw(1)),
                ..anchor
            },
            ..spans[0]
        },
    );
    with_unused_base.merge(range(0, 1), TextSize(6), &map);
    assert!(with_unused_base == map);
    assert_eq!(with_unused_base.bases.len(), 2);

    let hash = |map: &SpanMap| {
        let mut hasher = std::hash::DefaultHasher::new();
        std::hash::Hash::hash(&map.hash_parts(), &mut hasher);
        std::hash::Hasher::finish(&hasher)
    };
    assert_eq!(hash(&with_unused_base), hash(&map));
}

#[test]
fn many_span_bases_promote_indices_without_changing_spans() {
    let spans = (0..=u8::MAX as u32 + 1)
        .map(|index| span_in(index, index, index + 1))
        .collect::<Vec<_>>();
    let mut map = SpanMap::empty();
    for (index, span) in spans.iter().copied().enumerate() {
        map.push(TextSize(index as u32 + 1), span);
    }
    map.finish();

    assert!(matches!(map.base_indices, SpanMapBaseIndices::Wide(_)));
    assert_eq!(map.iter().into_iter().map(|(_, span)| span).collect::<Vec<_>>(), spans);
}

#[test]
fn merge_keeps_compact_base_indices_aligned() {
    let span = |file_id| span_in(file_id, 0, 1);
    let [a, b, c, d, e] = [0, 1, 2, 3, 4].map(span);
    let mut map = map_of(&[(2, a), (4, b), (6, c)]);
    let replacement = map_of(&[(1, d), (3, e)]);

    map.merge(range(2, 4), TextSize(3), &replacement);

    assert_eq!(
        map.iter(),
        [(TextSize(2), a), (TextSize(3), d), (TextSize(5), e), (TextSize(7), c)]
    );
}

#[test]
fn indices_stay_compact_up_to_256_bases() {
    let mut map = SpanMap::empty();
    for index in 0..256 {
        map.push(TextSize(index + 1), span_in(index, 0, 1));
    }
    assert!(matches!(map.base_indices, SpanMapBaseIndices::Compact(_)));
    map.push(TextSize(257), span_in(256, 0, 1));
    assert!(matches!(map.base_indices, SpanMapBaseIndices::Wide(_)));
    map.push(TextSize(258), span_in(3, 0, 1));
    assert_eq!(map.bases.len(), 257);
    assert_eq!(map.span_at(TextSize(257)), span_in(3, 0, 1));
    assert_eq!(map.span_at(TextSize(0)), span_in(0, 0, 1));
    assert_eq!(map.span_at(TextSize(256)), span_in(256, 0, 1));
}

#[test]
fn wide_replacements_widen_indices() {
    let mut indices = SpanMapBaseIndices::new();
    for index in [5, 6, 7] {
        indices.push(index);
    }
    indices.replace_range(1, 2, vec![300, 301]);
    assert!(matches!(indices, SpanMapBaseIndices::Wide(_)));
    assert_eq!(indices.len(), 4);
    let all: Vec<usize> = (0..4).map(|i| indices.get(i)).collect();
    assert_eq!(all, [5, 300, 301, 7]);
    indices.shrink_to_fit();
    assert_eq!(indices.get(2), 301);
}

#[test]
fn narrow_replacements_keep_indices_compact() {
    let mut indices = SpanMapBaseIndices::new();
    for index in [5, 6, 7] {
        indices.push(index);
    }
    indices.replace_range(0, 2, vec![255]);
    assert!(matches!(indices, SpanMapBaseIndices::Compact(_)));
    let all: Vec<usize> = (0..2).map(|i| indices.get(i)).collect();
    assert_eq!(all, [255, 7]);
}

#[test]
fn spans_at_the_ends_of_pieces() {
    let map = map_of(&[(2, span_in(0, 0, 2)), (5, span_in(0, 7, 9))]);
    assert_eq!(map.span_at(TextSize(0)), span_in(0, 0, 2));
    assert_eq!(map.span_at(TextSize(1)), span_in(0, 0, 2));
    assert_eq!(map.span_at(TextSize(2)), span_in(0, 7, 9));
    assert_eq!(map.span_at(TextSize(4)), span_in(0, 7, 9));
}

#[test]
fn spans_are_found_by_what_they_map_to() {
    let other_ctx = Span { ctx: SyntaxContext(7), ..span_in(0, 10, 20) };
    let map = map_of(&[
        (2, span_in(0, 10, 20)),
        (3, span_in(0, 12, 14)),
        (6, other_ctx),
        (8, span_in(1, 10, 20)),
    ]);
    let root = SyntaxContext::root(Edition::CURRENT);
    assert_eq!(
        map.ranges_with_span_exact(span_in(0, 10, 20)),
        [(range(0, 2), root), (range(3, 6), SyntaxContext(7))]
    );
    assert_eq!(
        map.ranges_with_span(span_in(0, 12, 14)),
        [(range(0, 2), root), (range(2, 3), root), (range(3, 6), SyntaxContext(7))]
    );
    assert_eq!(map.ranges_with_span(span_in(0, 9, 14)), []);
    assert_eq!(map.ranges_with_span_exact(span_in(2, 10, 20)), []);
}

#[test]
fn spans_of_a_range_cover_all_its_offsets() {
    let (a, b, c) = (span_in(0, 0, 1), span_in(1, 0, 1), span_in(2, 0, 1));
    let map = map_of(&[(2, a), (4, b), (6, c)]);
    assert_eq!(map.spans_for_range(range(0, 6)), [a, b, c]);
    assert_eq!(map.spans_for_range(range(2, 4)), [b]);
    assert_eq!(map.spans_for_range(range(1, 3)), [a, b]);
    assert_eq!(map.spans_for_range(range(3, 3)), []);
    assert_eq!(map.spans_for_range(range(5, 9)), [c]);
    assert_eq!(map.spans_for_range(range(6, 9)), []);
}

#[test]
fn merging_forgets_the_matched_arm_and_shrinks_text() {
    let (a, b, c, d) = (span_in(0, 0, 1), span_in(1, 0, 1), span_in(2, 0, 1), span_in(3, 0, 1));
    let mut map = map_of(&[(2, a), (4, b), (9, c)]);
    map.matched_arm = Some(3);
    map.merge(range(2, 8), TextSize(1), &map_of(&[(1, d)]));
    assert_eq!(map.matched_arm, None);
    assert_eq!(map.iter(), [(TextSize(2), a), (TextSize(3), d), (TextSize(4), c)]);
    assert_eq!(map.span_at(TextSize(1)), a);
    assert_eq!(map.span_at(TextSize(2)), d);
    assert_eq!(map.span_at(TextSize(3)), c);
}

#[test]
fn equality_sees_pieces_and_arms() {
    let map = map_of(&[(2, span_in(0, 0, 2)), (5, span_in(1, 0, 2))]);
    let mut arm = map.clone();
    assert!(arm == map);
    arm.matched_arm = Some(0);
    assert!(arm != map);
    assert!(map_of(&[(2, span_in(0, 0, 2)), (5, span_in(2, 0, 2))]) != map);
    assert!(map_of(&[(2, span_in(0, 0, 2)), (6, span_in(1, 0, 2))]) != map);
    assert!(map_of(&[(2, span_in(0, 0, 2))]) != map);
}

#[test]
fn empty_maps_have_no_pieces() {
    let mut map = SpanMap::empty();
    map.finish();
    assert_eq!(map.iter(), []);
    assert_eq!(map.hash_parts(), (0, vec![], None));
    assert_eq!(map.spans_for_range(range(0, 3)), []);
    map.merge(range(0, 0), TextSize(2), &map_of(&[(2, span_in(0, 0, 2))]));
    assert_eq!(map.iter(), [(TextSize(2), span_in(0, 0, 2))]);
}

fn anchored() -> RealSpanMap {
    let file = EditionedFileId::new(FileId::from_raw(3), Edition::Edition2018);
    RealSpanMap::from_file(
        file,
        vec![
            (TextSize(0), ROOT_ERASED_FILE_AST_ID()),
            (TextSize(0), ErasedFileAstId(1)),
            (TextSize(10), ErasedFileAstId(2)),
            (TextSize(25), ErasedFileAstId(3)),
        ],
        TextSize(40),
    )
}

#[test]
fn ranges_are_relative_to_the_last_anchor_before_them() {
    let map = anchored();
    let file_id = map.file_id;
    let at = |id: u32, start: u32, end: u32| Span {
        range: range(start, end),
        anchor: SpanAnchor { file_id, ast_id: ErasedFileAstId(id) },
        ctx: SyntaxContext::root(Edition::Edition2018),
    };
    assert_eq!(map.span_for_range(range(0, 4)), at(1, 0, 4));
    assert_eq!(map.span_for_range(range(9, 30)), at(1, 9, 30));
    assert_eq!(map.span_for_range(range(10, 11)), at(2, 0, 1));
    assert_eq!(map.span_for_range(range(24, 24)), at(2, 14, 14));
    assert_eq!(map.span_for_range(range(40, 40)), at(3, 15, 15));
}

#[test]
fn absolute_maps_keep_ranges() {
    let file = EditionedFileId::current_edition(FileId::from_raw(1));
    let map = RealSpanMap::absolute(file);
    assert_eq!(map.end, TextSize(u32::MAX));
    assert_eq!(
        map.span_for_range(range(5, 9)),
        Span {
            range: range(5, 9),
            anchor: SpanAnchor { file_id: file, ast_id: ROOT_ERASED_FILE_AST_ID() },
            ctx: SyntaxContext::root(Edition::CURRENT),
        }
    );
}

#[test]
fn real_span_maps_are_printed() {
    let file = EditionedFileId::new(FileId::from_raw(12), Edition::Edition2021);
    let map = RealSpanMap::from_file(
        file,
        vec![(TextSize(0), ROOT_ERASED_FILE_AST_ID())],
        TextSize(5),
    );
    let text = map.to_text();
    assert!(text.starts_with("RealSpanMap(EditionedFileId(FileId(12), Edition2021)):\n0: "));
    assert!(text.ends_with("\n"));
    assert_eq!(text.lines().count(), 2);
}

#[test]
fn root_contexts_come_last() {
    assert_eq!(SyntaxContext::root(Edition::Edition2015), SyntaxContext(u32::MAX));
    assert_eq!(SyntaxContext::root(Edition::Edition2024), SyntaxContext(u32::MAX - 3));
    assert!(SyntaxContext(u32::MAX - 3).is_root());
    assert!(!SyntaxContext(u32::MAX - 4).is_root());
    let a = Span { ctx: SyntaxContext(1), ..span_in(0, 1, 2) };
    assert!(a.eq_ignoring_ctx(span_in(0, 1, 2)));
    assert!(!a.eq_ignoring_ctx(span_in(0, 1, 3)));
}

#[test]
fn a_merge_replaces_and_shifts() {
    let mut map = SpanMap::empty();
    for (i, end) in [1, 3, 5, 6, 7, 10, 11].into_iter().enumerate() {
        map.push(TextSize(end), span_in(i as u32, 0, 1));
    }
    let mut other = SpanMap::empty();
    for (i, end) in [2, 3, 5, 9].into_iter().enumerate() {
        other.push(TextSize(end), span_in(100 + i as u32, 0, 1));
    }
    map.merge(range(3, 7), TextSize(9), &other);
    let (ends, spans): (Vec<u32>, Vec<Span>) =
        map.iter().into_iter().map(|(end, span)| (end.0, span)).unzip();
    assert_eq!(ends, [1, 3, 5, 6, 8, 12, 15, 16]);
    let files: Vec<u32> = spans.iter().map(|span| span.anchor.file_id.file_id.0).collect();
    assert_eq!(files, [0, 1, 100, 101, 102, 103, 5, 6]);
}
