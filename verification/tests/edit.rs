use interval::edit::{
    add_transform, detect_step_indent, insert_step, remove_step, replace_step, set_annotation,
    set_header_param, set_track_param, EditError, OutlineBlock, SourceOutline,
};
use interval::error::Span;

const BASIC_SOURCE: &str = "\
@scale root=C mode=major
@pattern p unit=1/4
  ^1
  ^3
  ^5
  ^3
@track melody ch=1
  play: p * 1
";

/// A stand-in for the parser: the outline it was given for `source`, and for
/// any other text an empty outline when its brackets balance, else an error.
fn parser(source: &'static str, outline: SourceOutline) -> impl Fn(&str) -> Result<SourceOutline, String> {
    move |s: &str| {
        if s == source {
            return Ok(outline.clone());
        }
        let mut depth: i64 = 0;
        for c in s.chars() {
            match c {
                '(' | '[' | '{' => depth += 1,
                ')' | ']' | '}' => depth -= 1,
                _ => {}
            }
            if depth < 0 {
                return Err(format!("unexpected '{c}'"));
            }
        }
        if depth != 0 {
            return Err("unclosed bracket".to_string());
        }
        Ok(SourceOutline { header_span: None, blocks: vec![] })
    }
}

/// Byte offset of the `n`-th occurrence (0-based) of `needle` in `source`.
fn nth(source: &str, needle: &str, n: usize) -> usize {
    source.match_indices(needle).nth(n).unwrap().0
}

/// The outline a parser gives `BASIC_SOURCE`: each step of `p` spans its
/// token, after the indentation and before the newline.
fn basic_outline() -> SourceOutline {
    let s = BASIC_SOURCE;
    let step_start = nth(s, "  ^1", 0);
    let mut steps = Vec::new();
    let mut pos = step_start;
    for _ in 0..4 {
        let end = pos + s[pos..].find('\n').unwrap();
        steps.push(Some(Span::new(pos + 2, end)));
        pos = end + 1;
    }
    let track_start = nth(s, "@track", 0);
    SourceOutline {
        header_span: Some(Span::new(0, nth(s, "@pattern", 0))),
        blocks: vec![
            OutlineBlock::Scale,
            OutlineBlock::Pattern {
                name: "p".to_string(),
                span: None,
                step_count: 0,
                unit_num: 1,
                unit_den: 4,
                steps: Some(steps),
            },
            OutlineBlock::Track {
                name: "melody".to_string(),
                span: Some(Span::new(track_start, s.len())),
            },
        ],
    }
}

/// Outline of a source with one pattern `p` of the given step spans and
/// one track `name` spanning from `track_start` to the end.
fn outline_with(
    header_end: usize,
    steps: Vec<Option<Span>>,
    track: &str,
    track_start: usize,
    len: usize,
) -> SourceOutline {
    SourceOutline {
        header_span: Some(Span::new(0, header_end)),
        blocks: vec![
            OutlineBlock::Pattern {
                name: "p".to_string(),
                span: None,
                step_count: 0,
                unit_num: 1,
                unit_den: 4,
                steps: Some(steps),
            },
            OutlineBlock::Track {
                name: track.to_string(),
                span: Some(Span::new(track_start, len)),
            },
        ],
    }
}

#[test]
fn test_replace_step() {
    let result = replace_step(BASIC_SOURCE, "p", 1, "^2", &parser(BASIC_SOURCE, basic_outline())).unwrap();
    assert!(result.contains("^2"));
    assert!(!result.contains("  ^3\n  ^5"));
}

#[test]
fn test_set_header_param() {
    let source = "@bpm 120\n@ts 4/4\n@pattern p unit=1/4\n  ^1\n@track t ch=1\n  play: p\n";
    let step = nth(source, "  ^1", 0);
    let outline = outline_with(
        nth(source, "@pattern", 0),
        vec![Some(Span::new(step, step + 4))],
        "t",
        nth(source, "@track", 0),
        source.len(),
    );
    let result = set_header_param(source, "bpm", "140", &parser(source, outline.clone())).unwrap();
    assert!(result.contains("@bpm 140"));
    assert!(!result.contains("@bpm 120"));
}

#[test]
fn test_set_track_param_existing() {
    let source = "@pattern p unit=1/4\n  ^1\n@track melody ch=1 oct=4\n  play: p\n";
    let step = nth(source, "  ^1", 0);
    let outline = outline_with(
        0,
        vec![Some(Span::new(step, step + 4))],
        "melody",
        nth(source, "@track", 0),
        source.len(),
    );
    let result = set_track_param(source, "melody", "oct", "5", &parser(source, outline.clone())).unwrap();
    assert!(result.contains("oct=5"));
    assert!(!result.contains("oct=4"));
}

#[test]
fn test_set_track_param_new() {
    let source = "@pattern p unit=1/4\n  ^1\n@track melody ch=1\n  play: p\n";
    let step = nth(source, "  ^1", 0);
    let outline = outline_with(
        0,
        vec![Some(Span::new(step, step + 4))],
        "melody",
        nth(source, "@track", 0),
        source.len(),
    );
    let result = set_track_param(source, "melody", "vel", "100", &parser(source, outline.clone())).unwrap();
    assert!(result.contains("vel=100"));
}

#[test]
fn test_block_not_found() {
    let result = replace_step(BASIC_SOURCE, "nonexistent", 0, "^1", &parser(BASIC_SOURCE, basic_outline()));
    assert!(matches!(result, Err(EditError::BlockNotFound { .. })));
}

#[test]
fn test_step_index_out_of_range() {
    let result = replace_step(BASIC_SOURCE, "p", 99, "^1", &parser(BASIC_SOURCE, basic_outline()));
    assert!(matches!(result, Err(EditError::StepIndexOutOfRange { .. })));
}

/// Number of step lines of the first `@pattern` block: the non-blank lines
/// between its declaration and the next directive.
fn pattern_step_count(source: &str) -> usize {
    source
        .lines()
        .skip_while(|l| !l.starts_with("@pattern"))
        .skip(1)
        .take_while(|l| !l.starts_with('@'))
        .filter(|l| !l.trim().is_empty())
        .count()
}

#[test]
fn test_remove_step() {
    let result = remove_step(BASIC_SOURCE, "p", 0, &parser(BASIC_SOURCE, basic_outline())).unwrap();
    assert_eq!(pattern_step_count(&result), 3); // was 4, removed 1
}

#[test]
fn test_insert_step() {
    let result = insert_step(BASIC_SOURCE, "p", 0, "^7", &parser(BASIC_SOURCE, basic_outline())).unwrap();
    assert!(result.contains("^7"));
    assert_eq!(pattern_step_count(&result), 5); // was 4, inserted 1
}

#[test]
fn test_insert_step_empty_pattern_errors() {
    let source = "@pattern p unit=1/4\n@track t ch=1\n  play: p\n";
    let outline = outline_with(0, vec![], "t", nth(source, "@track", 0), source.len());
    let result = insert_step(source, "p", 0, "^1", &parser(source, outline.clone()));
    assert!(matches!(
        result,
        Err(EditError::StepIndexOutOfRange { index: 0, count: 0 })
    ));
}

// ── Further scenarios ───────────────────────────────────────────

#[test]
fn remove_step_drops_the_whole_line() {
    let result = remove_step(BASIC_SOURCE, "p", 0, &parser(BASIC_SOURCE, basic_outline())).unwrap();
    assert_eq!(
        result,
        "@scale root=C mode=major\n@pattern p unit=1/4\n  ^3\n  ^5\n  ^3\n@track melody ch=1\n  play: p * 1\n"
    );
}

#[test]
fn insert_step_before_and_after() {
    let before = insert_step(BASIC_SOURCE, "p", 0, "^7", &parser(BASIC_SOURCE, basic_outline())).unwrap();
    // Inserted at the first step's span, indented like it.
    assert!(before.contains("@pattern p unit=1/4\n    ^7\n^1\n"));
    let after = insert_step(BASIC_SOURCE, "p", 4, "^7", &parser(BASIC_SOURCE, basic_outline())).unwrap();
    assert!(after.contains("  ^3\n  ^7\n@track"));
    let err = insert_step(BASIC_SOURCE, "p", 5, "^7", &parser(BASIC_SOURCE, basic_outline())).unwrap_err();
    assert_eq!(err.message(), "step index 5 out of range (pattern has 4 steps)");
}

#[test]
fn replace_step_keeps_indentation() {
    let result = replace_step(BASIC_SOURCE, "p", 2, "^6", &parser(BASIC_SOURCE, basic_outline())).unwrap();
    assert!(result.contains("  ^3\n  ^6\n  ^3\n"));
}

#[test]
fn set_annotation_appends_bracket() {
    let result = set_annotation(BASIC_SOURCE, "p", 1, "vel:110", &parser(BASIC_SOURCE, basic_outline())).unwrap();
    assert!(result.contains("  ^3[vel:110]\n  ^5"));
}

#[test]
fn add_transform_to_play_line() {
    let result = add_transform(BASIC_SOURCE, "melody", "reverse", &parser(BASIC_SOURCE, basic_outline())).unwrap();
    assert!(result.ends_with("  play: p * 1 -> reverse\n"));
    let err = add_transform(BASIC_SOURCE, "nobody", "reverse", &parser(BASIC_SOURCE, basic_outline())).unwrap_err();
    assert_eq!(err.message(), "block 'nobody' not found");
}

#[test]
fn add_transform_without_play_line() {
    let source = "@pattern p unit=1/4\n  ^1\n@track t ch=1\n  steps: ^1\n";
    let step = nth(source, "  ^1", 0);
    let outline = outline_with(
        0,
        vec![Some(Span::new(step, step + 4))],
        "t",
        nth(source, "@track", 0),
        source.len(),
    );
    let err = add_transform(source, "t", "reverse", &parser(source, outline.clone())).unwrap_err();
    assert_eq!(err.message(), "parse error: track 't' has no play: directive");
}

#[test]
fn expression_body_and_missing_span() {
    let outline = SourceOutline {
        header_span: None,
        blocks: vec![
            OutlineBlock::Pattern {
                name: "e".to_string(),
                span: None,
                step_count: 0,
                unit_num: 1,
                unit_den: 4,
                steps: None,
            },
            OutlineBlock::Pattern {
                name: "q".to_string(),
                span: None,
                step_count: 0,
                unit_num: 1,
                unit_den: 4,
                steps: Some(vec![None]),
            },
            OutlineBlock::Track {
                name: "t".to_string(),
                span: None,
            },
        ],
    };
    let err = replace_step("x", "e", 0, "^1", &parser("x", outline.clone())).unwrap_err();
    assert_eq!(err.message(), "parse error: pattern 'e' uses expression body");
    let err = insert_step("x", "e", 0, "^1", &parser("x", outline.clone())).unwrap_err();
    assert_eq!(
        err.message(),
        "parse error: pattern 'e' uses expression body, not step lines"
    );
    let err = remove_step("x", "q", 0, &parser("x", outline.clone())).unwrap_err();
    assert_eq!(err.message(), "block 'q' has no source span");
    let err = set_track_param("x", "t", "ch", "2", &parser("x", outline.clone())).unwrap_err();
    assert!(matches!(err, EditError::NoSpan { .. }));
}

#[test]
fn header_param_missing() {
    let source = "@ts 4/4\n";
    let outline = SourceOutline {
        header_span: Some(Span::new(0, source.len())),
        blocks: vec![],
    };
    let err = set_header_param(source, "bpm", "90", &parser(source, outline.clone())).unwrap_err();
    assert_eq!(err.message(), "header parameter 'bpm' not found in source");
    let ok = set_header_param(source, "ts", "3/4", &parser(source, outline.clone())).unwrap();
    assert_eq!(ok, "@ts 3/4\n");
}

#[test]
fn edits_with_multibyte_text() {
    let source = "@title \"Ünïcødé\"\n@pattern p unit=1/4\n  ^1\n@track t ch=1\n  play: p\n";
    let step = nth(source, "  ^1", 0);
    let outline = outline_with(
        nth(source, "@pattern", 0),
        vec![Some(Span::new(step, step + 4))],
        "t",
        nth(source, "@track", 0),
        source.len(),
    );
    let result = replace_step(source, "p", 0, "^2", &parser(source, outline.clone())).unwrap();
    assert_eq!(
        result,
        "@title \"Ünïcødé\"\n@pattern p unit=1/4\n  ^2\n@track t ch=1\n  play: p\n"
    );
    let result = add_transform(source, "t", "invert", &parser(source, outline.clone())).unwrap();
    assert!(result.ends_with("  play: p -> invert\n"));
}

#[test]
fn detect_indent() {
    let step = nth(BASIC_SOURCE, "  ^1", 0);
    assert_eq!(detect_step_indent(BASIC_SOURCE, Some(Span::new(step + 2, step + 4))), "  ");
    assert_eq!(detect_step_indent(BASIC_SOURCE, None), "  ");
    assert_eq!(detect_step_indent("\t\t^1", Some(Span::new(2, 4))), "\t\t");
}

#[test]
fn replace_step_with_own_text_is_identity() {
    let outline = basic_outline();
    for (i, text) in ["^1", "^3", "^5", "^3"].iter().enumerate() {
        let result = replace_step(BASIC_SOURCE, "p", i, text, &parser(BASIC_SOURCE, outline.clone())).unwrap();
        assert_eq!(result, BASIC_SOURCE);
    }
}

#[test]
fn edits_whose_result_does_not_parse_are_rejected() {
    let p = parser(BASIC_SOURCE, basic_outline());
    let err = set_annotation(BASIC_SOURCE, "p", 1, "vel:110]", &p).unwrap_err();
    assert!(matches!(err, EditError::InvalidResult { .. }));
    assert_eq!(err.message(), "edit produced invalid source: unexpected ']'");
    let err = add_transform(BASIC_SOURCE, "melody", "transpose(2", &p).unwrap_err();
    assert_eq!(err.message(), "edit produced invalid source: unclosed bracket");
    let err = insert_step(BASIC_SOURCE, "p", 2, "(^1 ^3", &p).unwrap_err();
    assert!(matches!(err, EditError::InvalidResult { .. }));
    // A source the parser rejects is a parse error.
    let err = replace_step("@pattern p (", "p", 0, "^1", &p).unwrap_err();
    assert_eq!(err.message(), "parse error: unclosed bracket");
}
