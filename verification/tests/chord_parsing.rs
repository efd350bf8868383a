use interval::ast::TonalContext;
use interval::harmony::{
    lookup_mode, parse_chord_symbol, parse_chord_symbol_with_context, parse_note_name,
    parse_roman_numeral_root,
};

// ── Note name tests ──────────────────────────────────────────────

#[test]
fn test_parse_note_names() {
    assert_eq!(parse_note_name("C"), Some((0, 1)));
    assert_eq!(parse_note_name("C#"), Some((1, 2)));
    assert_eq!(parse_note_name("Db"), Some((1, 2)));
    assert_eq!(parse_note_name("D"), Some((2, 1)));
    assert_eq!(parse_note_name("E"), Some((4, 1)));
    assert_eq!(parse_note_name("Eb"), Some((3, 2)));
    assert_eq!(parse_note_name("F"), Some((5, 1)));
    assert_eq!(parse_note_name("F#"), Some((6, 2)));
    assert_eq!(parse_note_name("G"), Some((7, 1)));
    assert_eq!(parse_note_name("Ab"), Some((8, 2)));
    assert_eq!(parse_note_name("A"), Some((9, 1)));
    assert_eq!(parse_note_name("Bb"), Some((10, 2)));
    assert_eq!(parse_note_name("B"), Some((11, 1)));
}

// ── Roman numeral tests ─────────────────────────────────────────

#[test]
fn test_roman_numeral_root_parsing() {
    // Basic uppercase
    assert_eq!(parse_roman_numeral_root("I"), Some((0, false, 0, 1)));
    assert_eq!(parse_roman_numeral_root("II"), Some((1, false, 0, 2)));
    assert_eq!(parse_roman_numeral_root("III"), Some((2, false, 0, 3)));
    assert_eq!(parse_roman_numeral_root("IV"), Some((3, false, 0, 2)));
    assert_eq!(parse_roman_numeral_root("V"), Some((4, false, 0, 1)));
    assert_eq!(parse_roman_numeral_root("VI"), Some((5, false, 0, 2)));
    assert_eq!(parse_roman_numeral_root("VII"), Some((6, false, 0, 3)));

    // Basic lowercase
    assert_eq!(parse_roman_numeral_root("i"), Some((0, true, 0, 1)));
    assert_eq!(parse_roman_numeral_root("ii"), Some((1, true, 0, 2)));
    assert_eq!(parse_roman_numeral_root("vii"), Some((6, true, 0, 3)));

    // Accidentals
    assert_eq!(parse_roman_numeral_root("bVII"), Some((6, false, -1, 4)));
    assert_eq!(parse_roman_numeral_root("#IV"), Some((3, false, 1, 3)));

    // Not a Roman numeral
    assert!(parse_roman_numeral_root("C").is_none());
    assert!(parse_roman_numeral_root("Dm7").is_none());
}

#[test]
fn test_roman_numeral_c_major() {
    let tc = TonalContext {
        root: Some(0),
        mode: "major".to_string(),
        span: None,
    };
    // I in C major = C major triad
    let chord = parse_chord_symbol_with_context("I", &tc).unwrap();
    assert_eq!(chord.root, 0); // C
    assert_eq!(chord.intervals, vec![0, 4, 7]); // major triad

    // V in C major = G major triad
    let chord = parse_chord_symbol_with_context("V", &tc).unwrap();
    assert_eq!(chord.root, 7); // G

    // IV in C major = F major triad
    let chord = parse_chord_symbol_with_context("IV", &tc).unwrap();
    assert_eq!(chord.root, 5); // F
}

#[test]
fn test_roman_numeral_minor() {
    let tc = TonalContext {
        root: Some(0),
        mode: "major".to_string(),
        span: None,
    };
    // ii in C major = Dm (minor triad)
    let chord = parse_chord_symbol_with_context("ii", &tc).unwrap();
    assert_eq!(chord.root, 2); // D
    assert_eq!(chord.intervals, vec![0, 3, 7]); // minor triad

    // vi in C major = Am
    let chord = parse_chord_symbol_with_context("vi", &tc).unwrap();
    assert_eq!(chord.root, 9); // A
}

#[test]
fn test_roman_numeral_with_quality() {
    let tc = TonalContext {
        root: Some(0),
        mode: "major".to_string(),
        span: None,
    };
    // Imaj7 in C major = Cmaj7
    let chord = parse_chord_symbol_with_context("Imaj7", &tc).unwrap();
    assert_eq!(chord.root, 0); // C
    assert_eq!(chord.intervals, vec![0, 4, 7, 11]); // maj7

    // IIm7 in C major = Dm7
    let chord = parse_chord_symbol_with_context("IIm7", &tc).unwrap();
    assert_eq!(chord.root, 2); // D
    assert_eq!(chord.intervals, vec![0, 3, 7, 10]); // m7

    // V7 in C major = G7
    let chord = parse_chord_symbol_with_context("V7", &tc).unwrap();
    assert_eq!(chord.root, 7); // G
    assert_eq!(chord.intervals, vec![0, 4, 7, 10]); // dom7
}

#[test]
fn test_roman_numeral_borrowed() {
    let tc = TonalContext {
        root: Some(0),
        mode: "major".to_string(),
        span: None,
    };
    // bVII in C major = Bb major
    let chord = parse_chord_symbol_with_context("bVII", &tc).unwrap();
    assert_eq!(chord.root, 10); // Bb
    assert_eq!(chord.intervals, vec![0, 4, 7]); // major triad

    // bIII in C major = Eb major
    let chord = parse_chord_symbol_with_context("bIII", &tc).unwrap();
    assert_eq!(chord.root, 3); // Eb
}

#[test]
fn test_roman_numeral_transposition() {
    // Same progression in C vs Eb
    let tc_c = TonalContext {
        root: Some(0),
        mode: "major".to_string(),
        span: None,
    };
    let tc_eb = TonalContext {
        root: Some(3),
        mode: "major".to_string(),
        span: None,
    };

    // I in C = C, I in Eb = Eb
    let c = parse_chord_symbol_with_context("I", &tc_c).unwrap();
    let eb = parse_chord_symbol_with_context("I", &tc_eb).unwrap();
    assert_eq!(c.root, 0);
    assert_eq!(eb.root, 3);

    // V in C = G, V in Eb = Bb
    let c = parse_chord_symbol_with_context("V", &tc_c).unwrap();
    let eb = parse_chord_symbol_with_context("V", &tc_eb).unwrap();
    assert_eq!(c.root, 7);
    assert_eq!(eb.root, 10);
}

#[test]
fn test_roman_numeral_diminished() {
    let tc = TonalContext {
        root: Some(0),
        mode: "major".to_string(),
        span: None,
    };
    // viio7 in C major = Bdim7
    let chord = parse_chord_symbol_with_context("viidim7", &tc).unwrap();
    assert_eq!(chord.root, 11); // B
    assert_eq!(chord.intervals, vec![0, 3, 6, 9]); // dim7
}

#[test]
fn test_roman_numeral_letter_fallback() {
    // Letter-based chords still work
    let tc = TonalContext {
        root: Some(0),
        mode: "major".to_string(),
        span: None,
    };
    let chord = parse_chord_symbol_with_context("Cmaj7", &tc).unwrap();
    assert_eq!(chord.root, 0);
    assert_eq!(chord.intervals, vec![0, 4, 7, 11]);
}

#[test]
fn test_minor_major_seventh() {
    // mMaj7 — minor triad + major 7th
    let chord = parse_chord_symbol("CmMaj7").unwrap();
    assert_eq!(chord.root, 0);
    assert_eq!(chord.intervals, vec![0, 3, 7, 11]);

    // mM7 — alternate spelling
    let chord = parse_chord_symbol("AmM7").unwrap();
    assert_eq!(chord.root, 9);
    assert_eq!(chord.intervals, vec![0, 3, 7, 11]);

    // via Roman numeral: imMaj7 in C major = CmMaj7
    let tc = TonalContext {
        root: Some(0),
        mode: "major".to_string(),
        span: None,
    };
    let chord = parse_chord_symbol_with_context("imMaj7", &tc).unwrap();
    assert_eq!(chord.root, 0);
    assert_eq!(chord.intervals, vec![0, 3, 7, 11]);
}

// ── Chord quality tests ──────────────────────────────────────────

#[test]
fn test_major_triad() {
    let chord = parse_chord_symbol("C").unwrap();
    assert_eq!(chord.root, 0);
    assert_eq!(chord.intervals, vec![0, 4, 7]);
    assert!(chord.slash_bass.is_none());
}

#[test]
fn test_minor_triad() {
    let chord = parse_chord_symbol("Am").unwrap();
    assert_eq!(chord.root, 9);
    assert_eq!(chord.intervals, vec![0, 3, 7]);
}

#[test]
fn test_minor_dash() {
    let chord = parse_chord_symbol("A-").unwrap();
    assert_eq!(chord.intervals, vec![0, 3, 7]);
}

#[test]
fn test_minor_min() {
    let chord = parse_chord_symbol("Amin").unwrap();
    assert_eq!(chord.intervals, vec![0, 3, 7]);
}

#[test]
fn test_major_seventh() {
    let chord = parse_chord_symbol("Cmaj7").unwrap();
    assert_eq!(chord.root, 0);
    assert_eq!(chord.intervals, vec![0, 4, 7, 11]);
}

#[test]
fn test_dominant_seventh() {
    let chord = parse_chord_symbol("G7").unwrap();
    assert_eq!(chord.root, 7);
    assert_eq!(chord.intervals, vec![0, 4, 7, 10]);
}

#[test]
fn test_minor_seventh() {
    let chord = parse_chord_symbol("Dm7").unwrap();
    assert_eq!(chord.root, 2);
    assert_eq!(chord.intervals, vec![0, 3, 7, 10]);
}

#[test]
fn test_dominant_ninth() {
    let chord = parse_chord_symbol("G9").unwrap();
    assert_eq!(chord.intervals, vec![0, 4, 7, 10, 14]);
}

#[test]
fn test_major_ninth() {
    let chord = parse_chord_symbol("Cmaj9").unwrap();
    assert_eq!(chord.intervals, vec![0, 4, 7, 11, 14]);
}

#[test]
fn test_dominant_thirteenth() {
    let chord = parse_chord_symbol("Bb13").unwrap();
    assert_eq!(chord.root, 10);
    assert_eq!(chord.intervals, vec![0, 4, 7, 10, 14, 17, 21]);
}

#[test]
fn test_diminished_triad() {
    let chord = parse_chord_symbol("Bdim").unwrap();
    assert_eq!(chord.root, 11);
    assert_eq!(chord.intervals, vec![0, 3, 6]);
}

#[test]
fn test_diminished_seventh() {
    let chord = parse_chord_symbol("Bdim7").unwrap();
    assert_eq!(chord.intervals, vec![0, 3, 6, 9]);
}

#[test]
fn test_half_diminished() {
    let chord = parse_chord_symbol("Am7b5").unwrap();
    assert_eq!(chord.root, 9);
    assert_eq!(chord.intervals, vec![0, 3, 6, 10]);
}

#[test]
fn test_augmented() {
    let chord = parse_chord_symbol("Caug").unwrap();
    assert_eq!(chord.intervals, vec![0, 4, 8]);
}

#[test]
fn test_sus2() {
    let chord = parse_chord_symbol("Csus2").unwrap();
    assert_eq!(chord.intervals, vec![0, 2, 7]);
}

#[test]
fn test_sus4() {
    let chord = parse_chord_symbol("Csus4").unwrap();
    assert_eq!(chord.intervals, vec![0, 5, 7]);
}

#[test]
fn test_add9() {
    let chord = parse_chord_symbol("Cadd9").unwrap();
    assert_eq!(chord.intervals, vec![0, 4, 7, 14]);
}

#[test]
fn test_major_sixth() {
    let chord = parse_chord_symbol("C6").unwrap();
    assert_eq!(chord.intervals, vec![0, 4, 7, 9]);
}

#[test]
fn test_minor_sixth() {
    let chord = parse_chord_symbol("Cm6").unwrap();
    assert_eq!(chord.intervals, vec![0, 3, 7, 9]);
}

// ── Alteration tests ─────────────────────────────────────────────

#[test]
fn test_dominant_flat_nine() {
    let chord = parse_chord_symbol("G7b9").unwrap();
    assert_eq!(chord.root, 7);
    assert!(chord.intervals.contains(&0));
    assert!(chord.intervals.contains(&4));
    assert!(chord.intervals.contains(&7));
    assert!(chord.intervals.contains(&10));
    assert!(chord.intervals.contains(&13)); // b9
}

#[test]
fn test_dominant_sharp_nine() {
    let chord = parse_chord_symbol("G7#9").unwrap();
    assert!(chord.intervals.contains(&15)); // #9
}

#[test]
fn test_sharp_eleven() {
    let chord = parse_chord_symbol("G7#11").unwrap();
    assert!(chord.intervals.contains(&18)); // #11
}

#[test]
fn test_multiple_alterations() {
    let chord = parse_chord_symbol("G7b9#11").unwrap();
    assert!(chord.intervals.contains(&10)); // 7
    assert!(chord.intervals.contains(&13)); // b9
    assert!(chord.intervals.contains(&18)); // #11
}

#[test]
fn test_flat_five() {
    let chord = parse_chord_symbol("G7b5").unwrap();
    // 5th (7 semitones) should be replaced by b5 (6 semitones)
    assert!(chord.intervals.contains(&6));
    assert!(!chord.intervals.contains(&7));
}

// ── Slash chord tests ────────────────────────────────────────────

#[test]
fn test_slash_chord() {
    let chord = parse_chord_symbol("C/E").unwrap();
    assert_eq!(chord.root, 0);
    assert_eq!(chord.intervals, vec![0, 4, 7]);
    assert_eq!(chord.slash_bass, Some(4)); // E
}

#[test]
fn test_slash_chord_flat_bass() {
    let chord = parse_chord_symbol("Cmaj7/Bb").unwrap();
    assert_eq!(chord.root, 0);
    assert_eq!(chord.slash_bass, Some(10)); // Bb
}

// ── Flat-key chord tests ─────────────────────────────────────────

#[test]
fn test_flat_root_chords() {
    let chord = parse_chord_symbol("Ebmaj7").unwrap();
    assert_eq!(chord.root, 3); // Eb
    assert_eq!(chord.intervals, vec![0, 4, 7, 11]);

    let chord = parse_chord_symbol("Abmaj7").unwrap();
    assert_eq!(chord.root, 8); // Ab

    let chord = parse_chord_symbol("Bbm7").unwrap();
    assert_eq!(chord.root, 10); // Bb
    assert_eq!(chord.intervals, vec![0, 3, 7, 10]);
}

// ── Mode lookup tests ────────────────────────────────────────────

#[test]
fn test_mode_lookup() {
    assert_eq!(lookup_mode("major"), Some(vec![0, 2, 4, 5, 7, 9, 11]));
    assert_eq!(lookup_mode("ionian"), Some(vec![0, 2, 4, 5, 7, 9, 11]));
    assert_eq!(lookup_mode("dorian"), Some(vec![0, 2, 3, 5, 7, 9, 10]));
    assert_eq!(lookup_mode("minor"), Some(vec![0, 2, 3, 5, 7, 8, 10]));
    assert_eq!(lookup_mode("aeolian"), Some(vec![0, 2, 3, 5, 7, 8, 10]));
    assert!(lookup_mode("nonexistent").is_none());
}

