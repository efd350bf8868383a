use interval::ast::ExpressiveCurve;
use interval::error::{error_span, CompileError, Span};
use interval::harmony::parse_chord_from_tokens;
use interval::seed::{choose_seed, resolve_seed, CLOCK_FALLBACK_SEED};

#[test]
fn error_span_and_message() {
    let err = CompileError::UndefinedHarmonyBlock {
        track: "bass".to_string(),
        harmony: "verse".to_string(),
        span: Span::new(12, 40),
    };
    assert_eq!(error_span(&err), Span::new(12, 40));
    assert_eq!(err.message(), "track 'bass': harmony block 'verse' not defined");
}

#[test]
fn chord_from_root_and_suffix() {
    let c = parse_chord_from_tokens("Bb", "m7").unwrap();
    assert_eq!(c.root, 10);
    assert_eq!(c.intervals, vec![0, 3, 7, 10]);
    let bad = parse_chord_from_tokens("H", "7").unwrap_err();
    assert_eq!(bad.message(), "invalid chord root in 'H7'");
}

#[test]
fn seed_precedence() {
    assert_eq!(resolve_seed(Some(1), Some(2), Some(3)), 2);
    assert_eq!(resolve_seed(Some(1), None, Some(3)), 1);
    assert_eq!(resolve_seed(None, None, Some(3)), 3);
    assert_eq!(choose_seed(None, None, None, Some(u128::from(u64::MAX) + 5)), 4);
    assert_eq!(choose_seed(None, None, None, None), CLOCK_FALLBACK_SEED);
    // With no seed given, the clock decides; two readings need not agree.
    let _ = resolve_seed(None, None, None);
}

#[test]
fn curve_names() {
    assert_eq!(ExpressiveCurve::EaseIn.to_string(), "ease_in");
    assert_eq!(ExpressiveCurve::EaseOut.to_string(), "ease_out");
    assert_eq!(ExpressiveCurve::EaseInOut.to_string(), "ease_in_out");
    assert_eq!(ExpressiveCurve::Arch.to_string(), "arch");
}

#[test]
fn chord_from_tokens_with_unicode_qualities() {
    let c = parse_chord_from_tokens("C", "Δ7").unwrap();
    assert_eq!((c.root, c.intervals), (0, vec![0, 4, 7, 11]));
    let c = parse_chord_from_tokens("C", "Δ").unwrap();
    assert_eq!(c.intervals, vec![0, 4, 7, 11]);
    let c = parse_chord_from_tokens("F", "Δ9").unwrap();
    assert_eq!((c.root, c.intervals), (5, vec![0, 4, 7, 11, 14]));
    let c = parse_chord_from_tokens("B", "°7").unwrap();
    assert_eq!((c.root, c.intervals), (11, vec![0, 3, 6, 9]));
    let c = parse_chord_from_tokens("B", "°").unwrap();
    assert_eq!(c.intervals, vec![0, 3, 6]);
    let c = parse_chord_from_tokens("D", "ø7").unwrap();
    assert_eq!((c.root, c.intervals), (2, vec![0, 3, 6, 10]));
    let c = parse_chord_from_tokens("D", "ø").unwrap();
    assert_eq!(c.intervals, vec![0, 3, 6, 10]);
}
