use interval::ast::{ChordSymbol, RomanNumeralDegree, ScaleBlock, ScaleEntry, TonalContext};
use interval::harmony::ScaleTimeline;
use interval::introspect::{
    all_chord_qualities, all_directives, all_scales, all_transforms, chord_quality_suffix,
    complete_chord, describe_chord_in_key, format_chord_symbol, format_roman_numeral,
    midi_note_name, pitch_class_name, resolve_degree, scale_pitches, scale_timeline_info,
    DirectiveKind,
};

#[test]
fn test_all_chord_qualities_non_empty() {
    let qualities = all_chord_qualities();
    assert!(qualities.len() >= 44);
    for q in &qualities {
        assert!(!q.intervals.is_empty());
        assert_eq!(q.intervals[0], 0);
    }
}

#[test]
fn test_complete_chord_prefix() {
    let results = complete_chord("maj");
    assert!(results.contains(&"maj7"));
    assert!(results.contains(&"maj9"));
    assert!(results.contains(&"maj11"));
    assert!(!results.contains(&"m7"));
}

#[test]
fn test_complete_chord_empty_prefix() {
    let results = complete_chord("");
    assert!(results.len() >= 43);
}

#[test]
fn test_all_scales_non_empty() {
    let scales = all_scales();
    assert!(scales.len() >= 40);
    for s in &scales {
        assert!(!s.intervals.is_empty());
        assert_eq!(s.intervals[0], 0);
    }
}

#[test]
fn test_scale_pitches_c_major() {
    let pitches = scale_pitches(0, "major").unwrap();
    assert_eq!(pitches, vec![0, 2, 4, 5, 7, 9, 11]);
}

#[test]
fn test_scale_pitches_d_dorian() {
    let pitches = scale_pitches(2, "dorian").unwrap();
    assert_eq!(pitches, vec![2, 4, 5, 7, 9, 11, 0]);
}

#[test]
fn test_scale_pitches_unknown_mode() {
    assert!(scale_pitches(0, "nonexistent").is_none());
}

#[test]
fn test_resolve_degree_c_major() {
    assert_eq!(resolve_degree(0, "major", 1, 4, 0), Some(60));
    assert_eq!(resolve_degree(0, "major", 3, 4, 0), Some(64));
    assert_eq!(resolve_degree(0, "major", 5, 4, 0), Some(67));
}

#[test]
fn test_resolve_degree_with_accidental() {
    assert_eq!(resolve_degree(0, "major", 3, 4, -1), Some(63));
}

#[test]
fn test_all_directives_complete() {
    let dirs = all_directives();
    let names: Vec<&str> = dirs.iter().map(|d| d.name).collect();
    assert!(names.contains(&"@ppq"));
    assert!(names.contains(&"@harmony"));
    assert!(names.contains(&"@tempo"));
}

#[test]
fn test_all_transforms_complete() {
    let transforms = all_transforms();
    let names: Vec<&str> = transforms.iter().map(|t| t.name).collect();
    assert!(names.contains(&"reverse"));
    assert!(names.contains(&"transpose"));
    assert!(names.contains(&"humanize"));
    assert!(names.contains(&"scale_lock"));
    assert!(transforms.len() >= 28);
}

#[test]
fn test_scale_timeline_info_single_scale() {
    let tc = TonalContext {
        root: Some(0),
        mode: "major".to_string(),
        span: None,
    };
    let st = ScaleTimeline::from_tonal_context(&tc).unwrap();
    let info = scale_timeline_info(&st, 4);
    assert_eq!(info.len(), 1);
    assert_eq!(info[0].root_name, "C");
    assert_eq!(info[0].mode, "major");
    assert_eq!(info[0].pitch_classes, vec![0, 2, 4, 5, 7, 9, 11]);
}

#[test]
fn test_chord_quality_suffix_roundtrip() {
    assert_eq!(chord_quality_suffix(&[0, 4, 7]), "");
    assert_eq!(chord_quality_suffix(&[0, 3, 7]), "min");
    assert_eq!(chord_quality_suffix(&[0, 4, 7, 10]), "7");
}

#[test]
fn test_format_chord_symbol() {
    let cs = ChordSymbol {
        root: 0,
        intervals: vec![0, 4, 7, 11],
        slash_bass: None,
        roman: None,
    };
    assert_eq!(format_chord_symbol(&cs), "Cmaj7");
}

#[test]
fn test_pitch_class_name() {
    assert_eq!(pitch_class_name(0), "C");
    assert_eq!(pitch_class_name(1), "C#");
    assert_eq!(pitch_class_name(9), "A");
    assert_eq!(pitch_class_name(11), "B");
}

#[test]
fn test_midi_note_name() {
    assert_eq!(midi_note_name(60), "C4");
    assert_eq!(midi_note_name(63), "Eb4");
    assert_eq!(midi_note_name(69), "A4");
    assert_eq!(midi_note_name(0), "C-1");
}

#[test]
fn test_format_roman_numeral() {
    let r = RomanNumeralDegree {
        degree_idx: 0,
        accidental: 0,
    };
    assert_eq!(format_roman_numeral(&r, &[0, 4, 7]), "I");
    let r = RomanNumeralDegree {
        degree_idx: 1,
        accidental: 0,
    };
    assert_eq!(format_roman_numeral(&r, &[0, 3, 7]), "ii");
    let r = RomanNumeralDegree {
        degree_idx: 4,
        accidental: 0,
    };
    assert_eq!(format_roman_numeral(&r, &[0, 4, 7, 10]), "V7");
    let r = RomanNumeralDegree {
        degree_idx: 5,
        accidental: -1,
    };
    assert_eq!(format_roman_numeral(&r, &[0, 4, 7]), "bVI");
    let r = RomanNumeralDegree {
        degree_idx: 5,
        accidental: 0,
    };
    assert_eq!(format_roman_numeral(&r, &[0, 3, 7, 10]), "vi7");
}

#[test]
fn test_describe_chord_in_key() {
    let d = describe_chord_in_key("I", 0, "major").unwrap();
    assert_eq!(d.rendered, "C");
    assert_eq!(d.relative, "I");
    let d = describe_chord_in_key("V7", 0, "major").unwrap();
    assert_eq!(d.rendered, "G7");
    assert_eq!(d.relative, "V7");

    let d = describe_chord_in_key("Dm", 0, "major").unwrap();
    assert_eq!(d.relative, "ii");
    let d = describe_chord_in_key("Cmaj7", 0, "major").unwrap();
    assert_eq!(d.rendered, "Cmaj7");
    assert_eq!(d.relative, "Imaj7");

    let d = describe_chord_in_key("A#", 0, "major").unwrap();
    assert_eq!(d.relative, "bVII");

    let d = describe_chord_in_key("V7", 7, "major").unwrap();
    assert_eq!(d.rendered, "D7");
    assert_eq!(d.relative, "V7");

    assert!(describe_chord_in_key("???", 0, "major").is_none());
}

// ── Further scenarios ───────────────────────────────────────────

#[test]
fn chord_quality_table_ends_with_major_triad() {
    let qualities = all_chord_qualities();
    assert_eq!(qualities.len(), 45);
    assert_eq!(qualities[0].name, "maj13");
    let last = qualities.last().unwrap();
    assert_eq!(last.name, "");
    assert_eq!(last.intervals, vec![0, 4, 7]);
}

#[test]
fn complete_chord_keeps_table_order() {
    assert_eq!(complete_chord("sus"), vec!["sus2", "sus4"]);
    assert_eq!(complete_chord("aug"), vec!["augmaj7", "aug7", "aug"]);
    assert!(complete_chord("zzz").is_empty());
}

#[test]
fn scale_pitches_wrap_past_b() {
    assert_eq!(scale_pitches(11, "major").unwrap(), vec![11, 1, 3, 4, 6, 8, 10]);
}

#[test]
fn resolve_degree_edges() {
    assert_eq!(resolve_degree(0, "major", 0, 4, 0), None);
    assert_eq!(resolve_degree(0, "nonexistent", 1, 4, 0), None);
    // The eighth degree of a seven-note scale is the root an octave up.
    assert_eq!(resolve_degree(0, "major", 8, 4, 0), Some(72));
    // Clamped to the MIDI range.
    assert_eq!(resolve_degree(0, "major", 1, 10, 0), Some(127));
    assert_eq!(resolve_degree(0, "major", 1, 0, -1), Some(11));
}

#[test]
fn resolve_degree_follows_root() {
    // D major: every degree sits two semitones above C major's.
    for degree in 1..=14u8 {
        let c = resolve_degree(0, "major", degree, 4, 0).unwrap();
        let d = resolve_degree(2, "major", degree, 4, 0).unwrap();
        assert_eq!(d, c + 2);
    }
    // Dorian degree 3 from D, a full scale length up, is an octave higher.
    assert_eq!(resolve_degree(2, "dorian", 3, 3, 0), Some(53));
    assert_eq!(resolve_degree(2, "dorian", 10, 3, 0), Some(65));
}

#[test]
fn directive_kinds() {
    let dirs = all_directives();
    assert_eq!(dirs.len(), 12);
    assert_eq!(dirs[0].kind, DirectiveKind::Header);
    assert_eq!(dirs[11].name, "@tempo");
    assert_eq!(dirs[11].kind, DirectiveKind::Block);
}

#[test]
fn format_chord_symbol_with_slash_bass() {
    let cs = ChordSymbol {
        root: 2,
        intervals: vec![0, 3, 7, 10],
        slash_bass: Some(0),
        roman: None,
    };
    assert_eq!(format_chord_symbol(&cs), "Dmin7/C");
}

#[test]
fn format_roman_numeral_sharp_and_minor_suffixes() {
    let r = RomanNumeralDegree {
        degree_idx: 3,
        accidental: 1,
    };
    assert_eq!(format_roman_numeral(&r, &[0, 3, 6]), "#ivdim");
    let r = RomanNumeralDegree {
        degree_idx: 1,
        accidental: 0,
    };
    assert_eq!(format_roman_numeral(&r, &[0, 3, 7, 11]), "iimMaj7");
    assert_eq!(format_roman_numeral(&r, &[0, 3, 7, 14]), "ii(add9)");
}

#[test]
fn midi_note_name_top_of_range() {
    assert_eq!(midi_note_name(127), "G9");
    assert_eq!(midi_note_name(255), "Eb20");
}

#[test]
fn describe_chord_sharp_of_degree_below() {
    // F# in C major: no degree at 6 or 7 semitones above… 7 is G (V),
    // so the flat of the degree above wins: bV.
    let d = describe_chord_in_key("F#", 0, "major").unwrap();
    assert_eq!(d.relative, "bV");
    // Unknown key mode: letter chords get no relative name.
    let d = describe_chord_in_key("C", 0, "nonexistent").unwrap();
    assert_eq!(d.relative, "");
}

#[test]
fn scale_timeline_info_lists_changes_only() {
    let st = ScaleTimeline::from_scale_block(&ScaleBlock {
        entries: vec![
            ScaleEntry {
                root: Some(0),
                mode: Some("major".to_string()),
                bars: Some(2),
                span: None,
            },
            ScaleEntry {
                root: Some(0),
                mode: Some("major".to_string()),
                bars: Some(1),
                span: None,
            },
            ScaleEntry {
                root: Some(7),
                mode: Some("mixolydian".to_string()),
                bars: None,
                span: None,
            },
        ],
        span: None,
    })
    .unwrap();
    let info = scale_timeline_info(&st, 5);
    assert_eq!(info.len(), 2);
    assert_eq!(info[0].bar, 1);
    assert_eq!(info[1].bar, 4);
    assert_eq!(info[1].root_name, "G");
    assert_eq!(info[1].mode, "mixolydian");
    assert_eq!(info[1].pitch_classes, vec![7, 9, 11, 0, 2, 4, 5]);
    assert_eq!(scale_timeline_info(&st, 0).len(), 1);
}
