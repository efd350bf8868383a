use interval::edit::{OutlineBlock, SourceOutline};
use interval::error::Span;
use interval::introspect::{
    complete_at_cursor, completions_in, cursor_block_type, pattern_headers, BlockType,
    CompletionItem, CompletionKind, PatternHeader,
};

fn kinds(items: &[CompletionItem]) -> Vec<CompletionKind> {
    items.iter().map(|i| i.kind).collect()
}

/// A stand-in for the parser: the outline it was given for `source`, and an
/// error for any other text.
fn parser(source: &'static str, outline: SourceOutline) -> impl Fn(&str) -> Result<SourceOutline, String> {
    move |s: &str| {
        if s == source {
            Ok(outline.clone())
        } else {
            Err("unexpected input".to_string())
        }
    }
}

fn pattern_block(name: &str, span: Span, step_count: u32) -> OutlineBlock {
    OutlineBlock::Pattern {
        name: name.to_string(),
        span: Some(span),
        step_count,
        unit_num: 1,
        unit_den: 4,
        steps: None,
    }
}

#[test]
fn test_complete_at_cursor_pattern() {
    let source = "@pattern p unit=1/4\n  ^1\n  ^3\n";
    let outline = SourceOutline {
        header_span: None,
        blocks: vec![pattern_block("p", Span::new(0, source.len()), 2)],
    };
    let items = complete_at_cursor(source, 25, &parser(source, outline));
    assert!(!items.is_empty());
    let kinds = kinds(&items);
    assert!(kinds.contains(&CompletionKind::StepToken));
    assert!(kinds.contains(&CompletionKind::Annotation));
}

#[test]
fn test_complete_at_cursor_toplevel() {
    let outline = SourceOutline { header_span: None, blocks: vec![] };
    let items = complete_at_cursor("", 0, &parser("", outline));
    assert!(!items.is_empty());
    let kinds = kinds(&items);
    assert!(kinds.contains(&CompletionKind::Directive));
    assert!(kinds.contains(&CompletionKind::ScaleName));
}

#[test]
fn test_complete_at_cursor_track_has_pattern_refs() {
    let source = "\
@pattern p unit=1/4
  ^1
  ^3
@track melody ch=1
  play: p * 1
";
    let track_start = source.find("@track").unwrap();
    let outline = SourceOutline {
        header_span: None,
        blocks: vec![
            pattern_block("p", Span::new(0, track_start), 2),
            OutlineBlock::Track { name: "melody".to_string(), span: Some(Span::new(track_start, source.len())) },
        ],
    };
    let items = complete_at_cursor(source, source.len() - 5, &parser(source, outline));
    let pattern_refs: Vec<_> = items
        .iter()
        .filter(|i| i.kind == CompletionKind::PatternRef)
        .collect();
    assert!(!pattern_refs.is_empty());
    assert_eq!(pattern_refs[0].label, "p");
}

#[test]
fn cursor_block_follows_spans_and_scale_blocks() {
    let outline = SourceOutline {
        header_span: None,
        blocks: vec![
            OutlineBlock::Scale,
            OutlineBlock::Harmony { span: Some(Span::new(10, 20)) },
            pattern_block("a", Span::new(20, 30), 4),
            OutlineBlock::Other,
            OutlineBlock::Track { name: "t".to_string(), span: Some(Span::new(30, 40)) },
            OutlineBlock::DrumMap { span: Some(Span::new(40, 50)) },
        ],
    };
    assert_eq!(cursor_block_type(&outline, 12), Some(BlockType::Harmony));
    assert_eq!(cursor_block_type(&outline, 20), Some(BlockType::Pattern));
    assert_eq!(cursor_block_type(&outline, 39), Some(BlockType::Track));
    assert_eq!(cursor_block_type(&outline, 45), Some(BlockType::DrumMap));
    // Outside every span, a scale block seen on the way decides.
    assert_eq!(cursor_block_type(&outline, 5), Some(BlockType::Scale));
    assert_eq!(cursor_block_type(&outline, 50), Some(BlockType::Scale));
    let no_scale = SourceOutline { header_span: None, blocks: vec![OutlineBlock::Other] };
    assert_eq!(cursor_block_type(&no_scale, 0), None);
    let headers = pattern_headers(&outline);
    assert_eq!(headers.len(), 1);
    assert_eq!(headers[0].name, "a");
    assert_eq!(headers[0].steps, 4);
    assert_eq!(headers[0].unit, (1, 4));
}

#[test]
fn unparsable_source_completes_as_top_level() {
    let outline = SourceOutline { header_span: None, blocks: vec![] };
    let items = complete_at_cursor("@pattern (", 3, &parser("", outline));
    assert_eq!(items.len(), 12 + 40);
    assert_eq!(items[0].label, "@ppq");
}

#[test]
fn completion_details_are_written_out() {
    let patterns = vec![PatternHeader { name: "p".to_string(), steps: 2, unit: (1, 4) }];
    let items = completions_in(Some(BlockType::Track), &patterns);
    assert_eq!(items.len(), 1 + 28);
    assert_eq!(items[0].detail.as_deref(), Some("pattern (2 steps, unit=1/4)"));
    assert_eq!(items[0].insert_text, "p");
    assert_eq!(items[0].relevance, 95);
    assert_eq!(items[0].category, "Pattern");
    assert_eq!(items[1].label, "reverse");
    assert_eq!(items[1].insert_text, "reverse");
    assert_eq!(items[1].detail.as_deref(), Some("reverse — Reverse step order"));
    let transpose = items.iter().find(|i| i.label == "transpose").unwrap();
    assert_eq!(transpose.insert_text, "transpose()");
    assert_eq!(transpose.category, "Transform");
}

#[test]
fn harmony_completions_list_named_qualities_with_intervals() {
    let items = completions_in(Some(BlockType::Harmony), &[]);
    assert_eq!(items.len(), 44);
    assert!(items.iter().all(|i| !i.label.is_empty() && i.kind == CompletionKind::ChordSymbol));
    assert_eq!(items[0].label, "maj13");
    assert_eq!(items[0].detail.as_deref(), Some("intervals: [0, 4, 7, 11, 14, 17, 21]"));
    assert_eq!(items[0].relevance, 80);
    assert_eq!(items[0].category, "Chord Quality");
}

#[test]
fn pattern_block_completions_put_step_tokens_before_annotations() {
    let items = completions_in(Some(BlockType::Pattern), &[]);
    assert_eq!(items.len(), 14 + 22);
    assert_eq!(items[0].label, "^1");
    assert_eq!(items[13].label, "$chord");
    assert_eq!(items[14].label, "[vel:]");
    assert_eq!(items[14].detail.as_deref(), Some("vel annotation"));
    assert_eq!(items[35].insert_text, "[glide:]");
}

#[test]
fn top_level_completions_name_directive_categories() {
    for block in [None, Some(BlockType::Scale), Some(BlockType::DrumMap)] {
        let items = completions_in(block, &[]);
        assert_eq!(items.len(), 12 + 40);
        assert_eq!(items[0].label, "@ppq");
        assert_eq!(items[0].category, "Header Directive");
        assert_eq!(items[7].label, "@harmony");
        assert_eq!(items[7].category, "Block Directive");
        assert_eq!(items[12].label, "major");
        assert_eq!(items[12].detail.as_deref(), Some("intervals: [0, 2, 4, 5, 7, 9, 11]"));
        assert_eq!(items[12].kind, CompletionKind::ScaleName);
    }
}

#[test]
fn completions_come_most_relevant_first() {
    let patterns = vec![PatternHeader { name: "a".to_string(), steps: 4, unit: (1, 8) }];
    for block in [
        None,
        Some(BlockType::Harmony),
        Some(BlockType::Pattern),
        Some(BlockType::Track),
        Some(BlockType::Scale),
        Some(BlockType::DrumMap),
    ] {
        let items = completions_in(block, &patterns);
        for w in items.windows(2) {
            assert!(w[0].relevance >= w[1].relevance);
        }
    }
}
