//! Chord symbols, Roman numerals, modes, the scale timeline and the harmony index.
//!
//! Chord symbols are read character by character; every chord-symbol
//! construct (note letters, accidentals, numerals, quality suffixes and
//! alterations) is ASCII, so character positions and byte positions agree on
//! everything the parser consumes.

use vstd::prelude::*;
use crate::ast::{
    Bar, BarChord, ChordModel, ChordSymbol, GlobalHeader, HarmonyBlock, RomanNumeralDegree, ScaleBlock,
    Section, TonalContext,
};
use crate::error::{CompileError, CompileResult, Span};
use crate::compiler::{bar_ticks, spec_ticks_for_bar, spec_ts_for_bar, ts_bar_seq, BarLayout, BarLayoutModel};
use crate::text::{last_index_of, lemma_last_index_shift, contains_byte, bytes_eq, chars_have_prefix_at, find_last_from, is_prefix, last_index_from, str_chars, str_eq, concat3, copy_bytes, decimal_text, decimal_string};

verus! {

// ── Mode / Scale Tables ──────────────────────────────────────────────

/// A scale or mode with its intervals in semitones from the root.
#[derive(Debug, Clone)]
pub struct ScaleMode {
    /// Mode name.
    pub name: &'static str,
    /// Intervals in semitones from the root.
    pub intervals: Vec<u8>,
}

/// Number of entries in the mode table.
pub open spec fn mode_count() -> nat {
    40
}

/// Name of mode table entry `i`.
pub open spec fn mode_name(i: int) -> Seq<char> {
    if i == 0 {
        "major"@
    } else if i == 1 {
        "ionian"@
    } else if i == 2 {
        "dorian"@
    } else if i == 3 {
        "phrygian"@
    } else if i == 4 {
        "lydian"@
    } else if i == 5 {
        "mixolydian"@
    } else if i == 6 {
        "aeolian"@
    } else if i == 7 {
        "minor"@
    } else if i == 8 {
        "locrian"@
    } else if i == 9 {
        "melodic_minor"@
    } else if i == 10 {
        "harmonic_minor"@
    } else if i == 11 {
        "whole_tone"@
    } else if i == 12 {
        "diminished"@
    } else if i == 13 {
        "chromatic"@
    } else if i == 14 {
        "pentatonic_major"@
    } else if i == 15 {
        "pentatonic_minor"@
    } else if i == 16 {
        "blues"@
    } else if i == 17 {
        "phrygian_dominant"@
    } else if i == 18 {
        "lydian_dominant"@
    } else if i == 19 {
        "altered"@
    } else if i == 20 {
        "harmonic_major"@
    } else if i == 21 {
        "double_harmonic"@
    } else if i == 22 {
        "dorian_b2"@
    } else if i == 23 {
        "lydian_augmented"@
    } else if i == 24 {
        "mixolydian_b6"@
    } else if i == 25 {
        "locrian_nat2"@
    } else if i == 26 {
        "diminished_half_whole"@
    } else if i == 27 {
        "bebop_dominant"@
    } else if i == 28 {
        "bebop_major"@
    } else if i == 29 {
        "bebop_dorian"@
    } else if i == 30 {
        "hungarian_minor"@
    } else if i == 31 {
        "neapolitan_major"@
    } else if i == 32 {
        "neapolitan_minor"@
    } else if i == 33 {
        "hirajoshi"@
    } else if i == 34 {
        "in_sen"@
    } else if i == 35 {
        "iwato"@
    } else if i == 36 {
        "augmented_scale"@
    } else if i == 37 {
        "tritone_scale"@
    } else if i == 38 {
        "prometheus"@
    } else {
        "super_locrian"@
    }
}

/// Intervals of mode table entry `i`.
pub open spec fn mode_intervals(i: int) -> Seq<u8> {
    if i == 0 {
        seq![0u8, 2, 4, 5, 7, 9, 11]
    } else if i == 1 {
        seq![0u8, 2, 4, 5, 7, 9, 11]
    } else if i == 2 {
        seq![0u8, 2, 3, 5, 7, 9, 10]
    } else if i == 3 {
        seq![0u8, 1, 3, 5, 7, 8, 10]
    } else if i == 4 {
        seq![0u8, 2, 4, 6, 7, 9, 11]
    } else if i == 5 {
        seq![0u8, 2, 4, 5, 7, 9, 10]
    } else if i == 6 {
        seq![0u8, 2, 3, 5, 7, 8, 10]
    } else if i == 7 {
        seq![0u8, 2, 3, 5, 7, 8, 10]
    } else if i == 8 {
        seq![0u8, 1, 3, 5, 6, 8, 10]
    } else if i == 9 {
        seq![0u8, 2, 3, 5, 7, 9, 11]
    } else if i == 10 {
        seq![0u8, 2, 3, 5, 7, 8, 11]
    } else if i == 11 {
        seq![0u8, 2, 4, 6, 8, 10]
    } else if i == 12 {
        seq![0u8, 2, 3, 5, 6, 8, 9, 11]
    } else if i == 13 {
        seq![0u8, 1, 2, 3, 4, 5, 6, 7, 8, 9, 10, 11]
    } else if i == 14 {
        seq![0u8, 2, 4, 7, 9]
    } else if i == 15 {
        seq![0u8, 3, 5, 7, 10]
    } else if i == 16 {
        seq![0u8, 3, 5, 6, 7, 10]
    } else if i == 17 {
        seq![0u8, 1, 4, 5, 7, 8, 10]
    } else if i == 18 {
        seq![0u8, 2, 4, 6, 7, 9, 10]
    } else if i == 19 {
        seq![0u8, 1, 3, 4, 6, 8, 10]
    } else if i == 20 {
        seq![0u8, 2, 4, 5, 7, 8, 11]
    } else if i == 21 {
        seq![0u8, 1, 4, 5, 7, 8, 11]
    } else if i == 22 {
        seq![0u8, 1, 3, 5, 7, 9, 10]
    } else if i == 23 {
        seq![0u8, 2, 4, 6, 8, 9, 11]
    } else if i == 24 {
        seq![0u8, 2, 4, 5, 7, 8, 10]
    } else if i == 25 {
        seq![0u8, 2, 3, 5, 6, 8, 10]
    } else if i == 26 {
        seq![0u8, 1, 3, 4, 6, 7, 9, 10]
    } else if i == 27 {
        seq![0u8, 2, 4, 5, 7, 9, 10, 11]
    } else if i == 28 {
        seq![0u8, 2, 4, 5, 7, 8, 9, 11]
    } else if i == 29 {
        seq![0u8, 2, 3, 4, 5, 7, 9, 10]
    } else if i == 30 {
        seq![0u8, 2, 3, 6, 7, 8, 11]
    } else if i == 31 {
        seq![0u8, 1, 3, 5, 7, 9, 11]
    } else if i == 32 {
        seq![0u8, 1, 3, 5, 7, 8, 11]
    } else if i == 33 {
        seq![0u8, 2, 3, 7, 8]
    } else if i == 34 {
        seq![0u8, 1, 5, 7, 10]
    } else if i == 35 {
        seq![0u8, 1, 5, 6, 10]
    } else if i == 36 {
        seq![0u8, 3, 4, 7, 8, 11]
    } else if i == 37 {
        seq![0u8, 1, 4, 6, 7, 10]
    } else if i == 38 {
        seq![0u8, 2, 4, 6, 9, 10]
    } else {
        seq![0u8, 1, 3, 4, 6, 8, 10]
    }
}

/// Mode table entry `i`.
pub(crate) fn mode_at(i: usize) -> (m: ScaleMode)
    requires
        i < mode_count(),
    ensures
        m.name@ == mode_name(i as int),
        m.intervals@ == mode_intervals(i as int),
{
    if i == 0 {
        ScaleMode { name: "major", intervals: vec![0u8, 2, 4, 5, 7, 9, 11] }
    } else if i == 1 {
        ScaleMode { name: "ionian", intervals: vec![0u8, 2, 4, 5, 7, 9, 11] }
    } else if i == 2 {
        ScaleMode { name: "dorian", intervals: vec![0u8, 2, 3, 5, 7, 9, 10] }
    } else if i == 3 {
        ScaleMode { name: "phrygian", intervals: vec![0u8, 1, 3, 5, 7, 8, 10] }
    } else if i == 4 {
        ScaleMode { name: "lydian", intervals: vec![0u8, 2, 4, 6, 7, 9, 11] }
    } else if i == 5 {
        ScaleMode { name: "mixolydian", intervals: vec![0u8, 2, 4, 5, 7, 9, 10] }
    } else if i == 6 {
        ScaleMode { name: "aeolian", intervals: vec![0u8, 2, 3, 5, 7, 8, 10] }
    } else if i == 7 {
        ScaleMode { name: "minor", intervals: vec![0u8, 2, 3, 5, 7, 8, 10] }
    } else if i == 8 {
        ScaleMode { name: "locrian", intervals: vec![0u8, 1, 3, 5, 6, 8, 10] }
    } else if i == 9 {
        ScaleMode { name: "melodic_minor", intervals: vec![0u8, 2, 3, 5, 7, 9, 11] }
    } else if i == 10 {
        ScaleMode { name: "harmonic_minor", intervals: vec![0u8, 2, 3, 5, 7, 8, 11] }
    } else if i == 11 {
        ScaleMode { name: "whole_tone", intervals: vec![0u8, 2, 4, 6, 8, 10] }
    } else if i == 12 {
        ScaleMode { name: "diminished", intervals: vec![0u8, 2, 3, 5, 6, 8, 9, 11] }
    } else if i == 13 {
        ScaleMode { name: "chromatic", intervals: vec![0u8, 1, 2, 3, 4, 5, 6, 7, 8, 9, 10, 11] }
    } else if i == 14 {
        ScaleMode { name: "pentatonic_major", intervals: vec![0u8, 2, 4, 7, 9] }
    } else if i == 15 {
        ScaleMode { name: "pentatonic_minor", intervals: vec![0u8, 3, 5, 7, 10] }
    } else if i == 16 {
        ScaleMode { name: "blues", intervals: vec![0u8, 3, 5, 6, 7, 10] }
    } else if i == 17 {
        ScaleMode { name: "phrygian_dominant", intervals: vec![0u8, 1, 4, 5, 7, 8, 10] }
    } else if i == 18 {
        ScaleMode { name: "lydian_dominant", intervals: vec![0u8, 2, 4, 6, 7, 9, 10] }
    } else if i == 19 {
        ScaleMode { name: "altered", intervals: vec![0u8, 1, 3, 4, 6, 8, 10] }
    } else if i == 20 {
        ScaleMode { name: "harmonic_major", intervals: vec![0u8, 2, 4, 5, 7, 8, 11] }
    } else if i == 21 {
        ScaleMode { name: "double_harmonic", intervals: vec![0u8, 1, 4, 5, 7, 8, 11] }
    } else if i == 22 {
        ScaleMode { name: "dorian_b2", intervals: vec![0u8, 1, 3, 5, 7, 9, 10] }
    } else if i == 23 {
        ScaleMode { name: "lydian_augmented", intervals: vec![0u8, 2, 4, 6, 8, 9, 11] }
    } else if i == 24 {
        ScaleMode { name: "mixolydian_b6", intervals: vec![0u8, 2, 4, 5, 7, 8, 10] }
    } else if i == 25 {
        ScaleMode { name: "locrian_nat2", intervals: vec![0u8, 2, 3, 5, 6, 8, 10] }
    } else if i == 26 {
        ScaleMode { name: "diminished_half_whole", intervals: vec![0u8, 1, 3, 4, 6, 7, 9, 10] }
    } else if i == 27 {
        ScaleMode { name: "bebop_dominant", intervals: vec![0u8, 2, 4, 5, 7, 9, 10, 11] }
    } else if i == 28 {
        ScaleMode { name: "bebop_major", intervals: vec![0u8, 2, 4, 5, 7, 8, 9, 11] }
    } else if i == 29 {
        ScaleMode { name: "bebop_dorian", intervals: vec![0u8, 2, 3, 4, 5, 7, 9, 10] }
    } else if i == 30 {
        ScaleMode { name: "hungarian_minor", intervals: vec![0u8, 2, 3, 6, 7, 8, 11] }
    } else if i == 31 {
        ScaleMode { name: "neapolitan_major", intervals: vec![0u8, 1, 3, 5, 7, 9, 11] }
    } else if i == 32 {
        ScaleMode { name: "neapolitan_minor", intervals: vec![0u8, 1, 3, 5, 7, 8, 11] }
    } else if i == 33 {
        ScaleMode { name: "hirajoshi", intervals: vec![0u8, 2, 3, 7, 8] }
    } else if i == 34 {
        ScaleMode { name: "in_sen", intervals: vec![0u8, 1, 5, 7, 10] }
    } else if i == 35 {
        ScaleMode { name: "iwato", intervals: vec![0u8, 1, 5, 6, 10] }
    } else if i == 36 {
        ScaleMode { name: "augmented_scale", intervals: vec![0u8, 3, 4, 7, 8, 11] }
    } else if i == 37 {
        ScaleMode { name: "tritone_scale", intervals: vec![0u8, 1, 4, 6, 7, 10] }
    } else if i == 38 {
        ScaleMode { name: "prometheus", intervals: vec![0u8, 2, 4, 6, 9, 10] }
    } else {
        ScaleMode { name: "super_locrian", intervals: vec![0u8, 1, 3, 4, 6, 8, 10] }
    }
}

/// Number of entries in the chord-quality table (the last is the bare major triad).
pub open spec fn quality_count() -> nat {
    45
}

/// Suffix of quality table entry `i`.
pub open spec fn quality_name(i: int) -> Seq<char> {
    if i == 0 {
        seq!['m', 'a', 'j', '1', '3']
    } else if i == 1 {
        seq!['m', 'a', 'j', '1', '1']
    } else if i == 2 {
        seq!['m', 'a', 'j', '9']
    } else if i == 3 {
        seq!['m', 'a', 'j', '7']
    } else if i == 4 {
        seq!['m', 'i', 'n', '9']
    } else if i == 5 {
        seq!['m', 'i', 'n', '7']
    } else if i == 6 {
        seq!['m', 'i', 'n']
    } else if i == 7 {
        seq!['m', 'M', 'a', 'j', '9']
    } else if i == 8 {
        seq!['m', 'M', 'a', 'j', '7']
    } else if i == 9 {
        seq!['m', 'M', '9']
    } else if i == 10 {
        seq!['m', 'M', '7']
    } else if i == 11 {
        seq!['m', '7', 'b', '5']
    } else if i == 12 {
        seq!['m', '(', 'a', 'd', 'd', '9', ')']
    } else if i == 13 {
        seq!['m', 'a', 'd', 'd', '9']
    } else if i == 14 {
        seq!['m', '1', '3']
    } else if i == 15 {
        seq!['m', '1', '1']
    } else if i == 16 {
        seq!['m', '9']
    } else if i == 17 {
        seq!['m', '7']
    } else if i == 18 {
        seq!['m', '6', '/', '9']
    } else if i == 19 {
        seq!['m', '6']
    } else if i == 20 {
        seq!['m']
    } else if i == 21 {
        seq!['M', '9']
    } else if i == 22 {
        seq!['M', '7']
    } else if i == 23 {
        seq!['a', 'd', 'd', '1', '1']
    } else if i == 24 {
        seq!['a', 'd', 'd', '9']
    } else if i == 25 {
        seq!['a', 'd', 'd', '2']
    } else if i == 26 {
        seq!['a', 'u', 'g', 'm', 'a', 'j', '7']
    } else if i == 27 {
        seq!['a', 'u', 'g', '7']
    } else if i == 28 {
        seq!['a', 'u', 'g']
    } else if i == 29 {
        seq!['d', 'i', 'm', '7']
    } else if i == 30 {
        seq!['d', 'i', 'm']
    } else if i == 31 {
        seq!['s', 'u', 's', '2']
    } else if i == 32 {
        seq!['s', 'u', 's', '4']
    } else if i == 33 {
        seq!['1', '3']
    } else if i == 34 {
        seq!['1', '1']
    } else if i == 35 {
        seq!['9', 's', 'u', 's', '4']
    } else if i == 36 {
        seq!['9']
    } else if i == 37 {
        seq!['7', 's', 'u', 's', '4']
    } else if i == 38 {
        seq!['7', 's', 'u', 's', '2']
    } else if i == 39 {
        seq!['7', 's', 'u', 's']
    } else if i == 40 {
        seq!['7']
    } else if i == 41 {
        seq!['6', '/', '9']
    } else if i == 42 {
        seq!['6']
    } else if i == 43 {
        seq!['5']
    } else {
        Seq::<char>::empty()
    }
}

/// Intervals of quality table entry `i`.
pub open spec fn quality_intervals(i: int) -> Seq<u8> {
    if i == 0 {
        seq![0u8, 4, 7, 11, 14, 17, 21]
    } else if i == 1 {
        seq![0u8, 4, 7, 11, 14, 17]
    } else if i == 2 {
        seq![0u8, 4, 7, 11, 14]
    } else if i == 3 {
        seq![0u8, 4, 7, 11]
    } else if i == 4 {
        seq![0u8, 3, 7, 10, 14]
    } else if i == 5 {
        seq![0u8, 3, 7, 10]
    } else if i == 6 {
        seq![0u8, 3, 7]
    } else if i == 7 {
        seq![0u8, 3, 7, 11, 14]
    } else if i == 8 {
        seq![0u8, 3, 7, 11]
    } else if i == 9 {
        seq![0u8, 3, 7, 11, 14]
    } else if i == 10 {
        seq![0u8, 3, 7, 11]
    } else if i == 11 {
        seq![0u8, 3, 6, 10]
    } else if i == 12 {
        seq![0u8, 3, 7, 14]
    } else if i == 13 {
        seq![0u8, 3, 7, 14]
    } else if i == 14 {
        seq![0u8, 3, 7, 10, 14, 17, 21]
    } else if i == 15 {
        seq![0u8, 3, 7, 10, 14, 17]
    } else if i == 16 {
        seq![0u8, 3, 7, 10, 14]
    } else if i == 17 {
        seq![0u8, 3, 7, 10]
    } else if i == 18 {
        seq![0u8, 3, 7, 9, 14]
    } else if i == 19 {
        seq![0u8, 3, 7, 9]
    } else if i == 20 {
        seq![0u8, 3, 7]
    } else if i == 21 {
        seq![0u8, 4, 7, 11, 14]
    } else if i == 22 {
        seq![0u8, 4, 7, 11]
    } else if i == 23 {
        seq![0u8, 4, 7, 17]
    } else if i == 24 {
        seq![0u8, 4, 7, 14]
    } else if i == 25 {
        seq![0u8, 2, 4, 7]
    } else if i == 26 {
        seq![0u8, 4, 8, 11]
    } else if i == 27 {
        seq![0u8, 4, 8, 10]
    } else if i == 28 {
        seq![0u8, 4, 8]
    } else if i == 29 {
        seq![0u8, 3, 6, 9]
    } else if i == 30 {
        seq![0u8, 3, 6]
    } else if i == 31 {
        seq![0u8, 2, 7]
    } else if i == 32 {
        seq![0u8, 5, 7]
    } else if i == 33 {
        seq![0u8, 4, 7, 10, 14, 17, 21]
    } else if i == 34 {
        seq![0u8, 4, 7, 10, 14, 17]
    } else if i == 35 {
        seq![0u8, 5, 7, 10, 14]
    } else if i == 36 {
        seq![0u8, 4, 7, 10, 14]
    } else if i == 37 {
        seq![0u8, 5, 7, 10]
    } else if i == 38 {
        seq![0u8, 2, 7, 10]
    } else if i == 39 {
        seq![0u8, 5, 7, 10]
    } else if i == 40 {
        seq![0u8, 4, 7, 10]
    } else if i == 41 {
        seq![0u8, 4, 7, 9, 14]
    } else if i == 42 {
        seq![0u8, 4, 7, 9]
    } else if i == 43 {
        seq![0u8, 7]
    } else {
        seq![0u8, 4, 7]
    }
}

/// Quality table entry `i`: its suffix, the suffix's characters and its intervals.
pub(crate) fn quality_at(i: usize) -> (r: (&'static str, Vec<char>, Vec<u8>))
    requires
        i < quality_count(),
    ensures
        r.0@ == quality_name(i as int),
        r.1@ == quality_name(i as int),
        r.2@ == quality_intervals(i as int),
{
    if i == 0 {
        proof { reveal_strlit("maj13"); }
        ("maj13", vec!['m', 'a', 'j', '1', '3'], vec![0u8, 4, 7, 11, 14, 17, 21])
    } else if i == 1 {
        proof { reveal_strlit("maj11"); }
        ("maj11", vec!['m', 'a', 'j', '1', '1'], vec![0u8, 4, 7, 11, 14, 17])
    } else if i == 2 {
        proof { reveal_strlit("maj9"); }
        ("maj9", vec!['m', 'a', 'j', '9'], vec![0u8, 4, 7, 11, 14])
    } else if i == 3 {
        proof { reveal_strlit("maj7"); }
        ("maj7", vec!['m', 'a', 'j', '7'], vec![0u8, 4, 7, 11])
    } else if i == 4 {
        proof { reveal_strlit("min9"); }
        ("min9", vec!['m', 'i', 'n', '9'], vec![0u8, 3, 7, 10, 14])
    } else if i == 5 {
        proof { reveal_strlit("min7"); }
        ("min7", vec!['m', 'i', 'n', '7'], vec![0u8, 3, 7, 10])
    } else if i == 6 {
        proof { reveal_strlit("min"); }
        ("min", vec!['m', 'i', 'n'], vec![0u8, 3, 7])
    } else if i == 7 {
        proof { reveal_strlit("mMaj9"); }
        ("mMaj9", vec!['m', 'M', 'a', 'j', '9'], vec![0u8, 3, 7, 11, 14])
    } else if i == 8 {
        proof { reveal_strlit("mMaj7"); }
        ("mMaj7", vec!['m', 'M', 'a', 'j', '7'], vec![0u8, 3, 7, 11])
    } else if i == 9 {
        proof { reveal_strlit("mM9"); }
        ("mM9", vec!['m', 'M', '9'], vec![0u8, 3, 7, 11, 14])
    } else if i == 10 {
        proof { reveal_strlit("mM7"); }
        ("mM7", vec!['m', 'M', '7'], vec![0u8, 3, 7, 11])
    } else if i == 11 {
        proof { reveal_strlit("m7b5"); }
        ("m7b5", vec!['m', '7', 'b', '5'], vec![0u8, 3, 6, 10])
    } else if i == 12 {
        proof { reveal_strlit("m(add9)"); }
        ("m(add9)", vec!['m', '(', 'a', 'd', 'd', '9', ')'], vec![0u8, 3, 7, 14])
    } else if i == 13 {
        proof { reveal_strlit("madd9"); }
        ("madd9", vec!['m', 'a', 'd', 'd', '9'], vec![0u8, 3, 7, 14])
    } else if i == 14 {
        proof { reveal_strlit("m13"); }
        ("m13", vec!['m', '1', '3'], vec![0u8, 3, 7, 10, 14, 17, 21])
    } else if i == 15 {
        proof { reveal_strlit("m11"); }
        ("m11", vec!['m', '1', '1'], vec![0u8, 3, 7, 10, 14, 17])
    } else if i == 16 {
        proof { reveal_strlit("m9"); }
        ("m9", vec!['m', '9'], vec![0u8, 3, 7, 10, 14])
    } else if i == 17 {
        proof { reveal_strlit("m7"); }
        ("m7", vec!['m', '7'], vec![0u8, 3, 7, 10])
    } else if i == 18 {
        proof { reveal_strlit("m6/9"); }
        ("m6/9", vec!['m', '6', '/', '9'], vec![0u8, 3, 7, 9, 14])
    } else if i == 19 {
        proof { reveal_strlit("m6"); }
        ("m6", vec!['m', '6'], vec![0u8, 3, 7, 9])
    } else if i == 20 {
        proof { reveal_strlit("m"); }
        ("m", vec!['m'], vec![0u8, 3, 7])
    } else if i == 21 {
        proof { reveal_strlit("M9"); }
        ("M9", vec!['M', '9'], vec![0u8, 4, 7, 11, 14])
    } else if i == 22 {
        proof { reveal_strlit("M7"); }
        ("M7", vec!['M', '7'], vec![0u8, 4, 7, 11])
    } else if i == 23 {
        proof { reveal_strlit("add11"); }
        ("add11", vec!['a', 'd', 'd', '1', '1'], vec![0u8, 4, 7, 17])
    } else if i == 24 {
        proof { reveal_strlit("add9"); }
        ("add9", vec!['a', 'd', 'd', '9'], vec![0u8, 4, 7, 14])
    } else if i == 25 {
        proof { reveal_strlit("add2"); }
        ("add2", vec!['a', 'd', 'd', '2'], vec![0u8, 2, 4, 7])
    } else if i == 26 {
        proof { reveal_strlit("augmaj7"); }
        ("augmaj7", vec!['a', 'u', 'g', 'm', 'a', 'j', '7'], vec![0u8, 4, 8, 11])
    } else if i == 27 {
        proof { reveal_strlit("aug7"); }
        ("aug7", vec!['a', 'u', 'g', '7'], vec![0u8, 4, 8, 10])
    } else if i == 28 {
        proof { reveal_strlit("aug"); }
        ("aug", vec!['a', 'u', 'g'], vec![0u8, 4, 8])
    } else if i == 29 {
        proof { reveal_strlit("dim7"); }
        ("dim7", vec!['d', 'i', 'm', '7'], vec![0u8, 3, 6, 9])
    } else if i == 30 {
        proof { reveal_strlit("dim"); }
        ("dim", vec!['d', 'i', 'm'], vec![0u8, 3, 6])
    } else if i == 31 {
        proof { reveal_strlit("sus2"); }
        ("sus2", vec!['s', 'u', 's', '2'], vec![0u8, 2, 7])
    } else if i == 32 {
        proof { reveal_strlit("sus4"); }
        ("sus4", vec!['s', 'u', 's', '4'], vec![0u8, 5, 7])
    } else if i == 33 {
        proof { reveal_strlit("13"); }
        ("13", vec!['1', '3'], vec![0u8, 4, 7, 10, 14, 17, 21])
    } else if i == 34 {
        proof { reveal_strlit("11"); }
        ("11", vec!['1', '1'], vec![0u8, 4, 7, 10, 14, 17])
    } else if i == 35 {
        proof { reveal_strlit("9sus4"); }
        ("9sus4", vec!['9', 's', 'u', 's', '4'], vec![0u8, 5, 7, 10, 14])
    } else if i == 36 {
        proof { reveal_strlit("9"); }
        ("9", vec!['9'], vec![0u8, 4, 7, 10, 14])
    } else if i == 37 {
        proof { reveal_strlit("7sus4"); }
        ("7sus4", vec!['7', 's', 'u', 's', '4'], vec![0u8, 5, 7, 10])
    } else if i == 38 {
        proof { reveal_strlit("7sus2"); }
        ("7sus2", vec!['7', 's', 'u', 's', '2'], vec![0u8, 2, 7, 10])
    } else if i == 39 {
        proof { reveal_strlit("7sus"); }
        ("7sus", vec!['7', 's', 'u', 's'], vec![0u8, 5, 7, 10])
    } else if i == 40 {
        proof { reveal_strlit("7"); }
        ("7", vec!['7'], vec![0u8, 4, 7, 10])
    } else if i == 41 {
        proof { reveal_strlit("6/9"); }
        ("6/9", vec!['6', '/', '9'], vec![0u8, 4, 7, 9, 14])
    } else if i == 42 {
        proof { reveal_strlit("6"); }
        ("6", vec!['6'], vec![0u8, 4, 7, 9])
    } else if i == 43 {
        proof { reveal_strlit("5"); }
        ("5", vec!['5'], vec![0u8, 7])
    } else {
        proof { reveal_strlit(""); }
        ("", Vec::new(), vec![0u8, 4, 7])
    }
}

/// The index of the first mode table entry at or after `i` named `name`.
pub open spec fn mode_index_from(name: Seq<char>, i: int) -> Option<int>
    decreases mode_count() - i,
{
    if i < 0 || i >= mode_count() {
        None
    } else if mode_name(i) == name {
        Some(i)
    } else {
        mode_index_from(name, i + 1)
    }
}

/// The index of the first mode table entry named `name`.
pub open spec fn mode_index(name: Seq<char>) -> Option<int> {
    mode_index_from(name, 0)
}

/// The intervals of the mode named `name`.
pub open spec fn spec_lookup_mode(name: Seq<char>) -> Option<Seq<u8>> {
    match mode_index(name) {
        Some(i) => Some(mode_intervals(i)),
        None => None,
    }
}

/// Every mode table entry has intervals starting at 0, strictly increasing,
/// all below an octave, and at least five of them.
pub proof fn lemma_mode_intervals_well_formed(i: int)
    requires
        0 <= i < mode_count(),
    ensures
        mode_intervals(i).len() >= 5,
        mode_intervals(i)[0] == 0,
        forall|j: int| 0 <= j < mode_intervals(i).len() ==> mode_intervals(i)[j] < 12,
        forall|j: int, k: int|
            0 <= j < k < mode_intervals(i).len() ==> mode_intervals(i)[j] < mode_intervals(i)[k],
{
}

proof fn lemma_mode_index_from_bounds(name: Seq<char>, i: int)
    ensures
        mode_index_from(name, i) matches Some(k) ==> i <= k < mode_count() && mode_name(k) == name,
    decreases mode_count() - i,
{
    if 0 <= i < mode_count() && mode_name(i) != name {
        lemma_mode_index_from_bounds(name, i + 1);
    }
}

/// All modes in table order.
pub fn modes() -> (r: Vec<ScaleMode>)
    ensures
        r@.len() == mode_count(),
        forall|i: int|
            0 <= i < mode_count() ==> #[trigger] r@[i].name@ == mode_name(i) && r@[i].intervals@
                == mode_intervals(i),
{
    let mut r: Vec<ScaleMode> = Vec::new();
    let mut i: usize = 0;
    while i < 40
        invariant
            i <= 40,
            r@.len() == i,
            forall|k: int|
                0 <= k < i ==> #[trigger] r@[k].name@ == mode_name(k) && r@[k].intervals@
                    == mode_intervals(k),
        decreases 40 - i,
    {
        r.push(mode_at(i));
        i = i + 1;
    }
    r
}

/// Look up a mode by name. Returns the interval table.
pub fn lookup_mode(name: &str) -> (r: Option<Vec<u8>>)
    ensures
        match r {
            Some(v) => spec_lookup_mode(name@) == Some(v@),
            None => spec_lookup_mode(name@) is None,
        },
{
    let mut i: usize = 0;
    while i < 40
        invariant
            i <= 40,
            mode_index(name@) == mode_index_from(name@, i as int),
        decreases 40 - i,
    {
        let m = mode_at(i);
        if str_eq(m.name, name) {
            return Some(m.intervals);
        }
        i = i + 1;
    }
    None
}

/// The index of the first mode table entry at or after `i` with these intervals.
pub open spec fn mode_index_by_intervals_from(ivs: Seq<u8>, i: int) -> Option<int>
    decreases mode_count() - i,
{
    if i < 0 || i >= mode_count() {
        None
    } else if mode_intervals(i) == ivs {
        Some(i)
    } else {
        mode_index_by_intervals_from(ivs, i + 1)
    }
}

/// The index of the first mode table entry with these intervals.
pub open spec fn mode_index_by_intervals(ivs: Seq<u8>) -> Option<int> {
    mode_index_by_intervals_from(ivs, 0)
}

proof fn lemma_mode_index_by_intervals_from_bounds(ivs: Seq<u8>, i: int)
    ensures
        mode_index_by_intervals_from(ivs, i) matches Some(k) ==> i <= k < mode_count()
            && mode_intervals(k) == ivs,
    decreases mode_count() - i,
{
    if 0 <= i < mode_count() && mode_intervals(i) != ivs {
        lemma_mode_index_by_intervals_from_bounds(ivs, i + 1);
    }
}

/// The name of the first mode with these intervals.
pub(crate) fn mode_name_for_intervals(ivs: &[u8]) -> (r: Option<&'static str>)
    ensures
        match r {
            Some(n) => mode_index_by_intervals(ivs@) matches Some(k) && n@ == mode_name(k),
            None => mode_index_by_intervals(ivs@) is None,
        },
{
    let mut i: usize = 0;
    while i < 40
        invariant
            i <= 40,
            mode_index_by_intervals(ivs@) == mode_index_by_intervals_from(ivs@, i as int),
        decreases 40 - i,
    {
        let m = mode_at(i);
        if bytes_eq(m.intervals.as_slice(), ivs) {
            return Some(m.name);
        }
        i = i + 1;
    }
    None
}


// ── Note names ───────────────────────────────────────────────────────

/// Pitch class of a natural note letter.
pub open spec fn letter_pitch_class(c: char) -> Option<u8> {
    if c == 'C' {
        Some(0u8)
    } else if c == 'D' {
        Some(2u8)
    } else if c == 'E' {
        Some(4u8)
    } else if c == 'F' {
        Some(5u8)
    } else if c == 'G' {
        Some(7u8)
    } else if c == 'A' {
        Some(9u8)
    } else if c == 'B' {
        Some(11u8)
    } else {
        None
    }
}

/// A note name at the start of `s`: a letter `A`–`G`, optionally followed by
/// `#` (one semitone up) or `b` (one down), giving its pitch class and the
/// number of characters it takes.
pub open spec fn spec_note_name(s: Seq<char>) -> Option<(u8, nat)> {
    if s.len() == 0 {
        None
    } else {
        match letter_pitch_class(s[0]) {
            None => None,
            Some(base) => if s.len() > 1 && s[1] == '#' {
                Some((((base + 1) % 12) as u8, 2nat))
            } else if s.len() > 1 && s[1] == 'b' {
                Some((((base + 11) % 12) as u8, 2nat))
            } else {
                Some((base, 1nat))
            },
        }
    }
}

fn letter_pc(c: char) -> (r: Option<u8>)
    ensures
        r == letter_pitch_class(c),
{
    if c == 'C' {
        Some(0)
    } else if c == 'D' {
        Some(2)
    } else if c == 'E' {
        Some(4)
    } else if c == 'F' {
        Some(5)
    } else if c == 'G' {
        Some(7)
    } else if c == 'A' {
        Some(9)
    } else if c == 'B' {
        Some(11)
    } else {
        None
    }
}

/// The note name at position `pos` of `chars`.
fn note_name_at(chars: &[char], pos: usize) -> (r: Option<(u8, usize)>)
    requires
        pos <= chars@.len(),
    ensures
        match spec_note_name(chars@.skip(pos as int)) {
            Some((pc, n)) => r == Some((pc, n as usize)),
            None => r is None,
        },
{
    let ghost s = chars@.skip(pos as int);
    if pos >= chars.len() {
        return None;
    }
    let base = match letter_pc(chars[pos]) {
        Some(b) => b,
        None => return None,
    };
    if pos + 1 < chars.len() {
        if chars[pos + 1] == '#' {
            return Some(((base + 1) % 12, 2));
        } else if chars[pos + 1] == 'b' {
            return Some(((base + 11) % 12, 2));
        }
    }
    Some((base, 1))
}

/// Parse a note name to a pitch class (0=C, 1=C#/Db, ... 11=B) and the
/// number of bytes it takes.
pub fn parse_note_name(name: &str) -> (r: Option<(u8, usize)>)
    ensures
        match spec_note_name(name@) {
            Some((pc, n)) => r == Some((pc, n as usize)),
            None => r is None,
        },
{
    let chars = str_chars(name);
    assert(chars@.skip(0) =~= chars@);
    note_name_at(&chars, 0)
}

// ── Roman Numeral Parsing ────────────────────────────────────────────

/// Upper-case numeral of the Roman table entry `k`, longest first.
pub open spec fn roman_upper(k: int) -> Seq<char> {
    if k == 0 {
        seq!['V', 'I', 'I']
    } else if k == 1 {
        seq!['V', 'I']
    } else if k == 2 {
        seq!['I', 'V']
    } else if k == 3 {
        seq!['V']
    } else if k == 4 {
        seq!['I', 'I', 'I']
    } else if k == 5 {
        seq!['I', 'I']
    } else {
        seq!['I']
    }
}

/// Lower-case numeral of the Roman table entry `k`.
pub open spec fn roman_lower(k: int) -> Seq<char> {
    if k == 0 {
        seq!['v', 'i', 'i']
    } else if k == 1 {
        seq!['v', 'i']
    } else if k == 2 {
        seq!['i', 'v']
    } else if k == 3 {
        seq!['v']
    } else if k == 4 {
        seq!['i', 'i', 'i']
    } else if k == 5 {
        seq!['i', 'i']
    } else {
        seq!['i']
    }
}

/// 0-based scale degree of the Roman table entry `k`.
pub open spec fn roman_degree(k: int) -> nat {
    if k == 0 {
        6
    } else if k == 1 {
        5
    } else if k == 2 {
        3
    } else if k == 3 {
        4
    } else if k == 4 {
        2
    } else if k == 5 {
        1
    } else {
        0
    }
}

/// Whether a character may follow a lower-case numeral: anything but a
/// lower-case ASCII letter, except the quality starts `m`, `d`, `a`, `s`, `o`.
pub open spec fn may_follow_lower_numeral(after: Seq<char>) -> bool {
    after.len() == 0 || !('a' <= after[0] <= 'z') || after[0] == 'm' || after[0] == 'd'
        || after[0] == 'a' || after[0] == 's' || after[0] == 'o'
}

/// The first Roman table entry, from `k` on, that `rem` starts with:
/// `(degree, is_minor, length)`.
pub open spec fn roman_scan(rem: Seq<char>, k: int) -> Option<(nat, bool, nat)>
    decreases 7 - k,
{
    if k < 0 || k >= 7 {
        None
    } else if is_prefix(rem, roman_upper(k)) {
        Some((roman_degree(k), false, roman_upper(k).len()))
    } else if is_prefix(rem, roman_lower(k)) && may_follow_lower_numeral(
        rem.skip(roman_lower(k).len() as int),
    ) {
        Some((roman_degree(k), true, roman_lower(k).len()))
    } else {
        roman_scan(rem, k + 1)
    }
}

/// A Roman numeral root at the start of `s`: `(degree, is_minor, accidental, length)`.
/// A leading `b` counts as a flat only before `I` or `V`; a leading `#` is a sharp.
pub open spec fn spec_roman_root(s: Seq<char>) -> Option<(nat, bool, i8, nat)> {
    if s.len() == 0 {
        None
    } else if s[0] == 'b' && s.len() > 1 {
        if s[1] == 'I' || s[1] == 'V' {
            match roman_scan(s.skip(1), 0) {
                Some((d, m, n)) => Some((d, m, -1i8, n + 1)),
                None => None,
            }
        } else {
            None
        }
    } else if s[0] == '#' && s.len() > 1 {
        match roman_scan(s.skip(1), 0) {
            Some((d, m, n)) => Some((d, m, 1i8, n + 1)),
            None => None,
        }
    } else {
        match roman_scan(s, 0) {
            Some((d, m, n)) => Some((d, m, 0i8, n)),
            None => None,
        }
    }
}

proof fn lemma_roman_scan_bounds(rem: Seq<char>, k: int)
    ensures
        roman_scan(rem, k) matches Some((d, m, n)) ==> d <= 6 && 1 <= n <= 3 && n <= rem.len(),
    decreases 7 - k,
{
    if 0 <= k < 7 {
        lemma_roman_scan_bounds(rem, k + 1);
    }
}

proof fn lemma_roman_root_bounds(s: Seq<char>)
    ensures
        spec_roman_root(s) matches Some((d, m, a, n)) ==> d <= 6 && 1 <= n <= 4 && n <= s.len()
            && -1 <= a <= 1,
{
    lemma_roman_scan_bounds(s, 0);
    if s.len() > 0 {
        lemma_roman_scan_bounds(s.skip(1), 0);
    }
}

fn roman_entry(k: usize) -> (r: (Vec<char>, Vec<char>, usize))
    requires
        k < 7,
    ensures
        r.0@ == roman_upper(k as int),
        r.1@ == roman_lower(k as int),
        r.2 == roman_degree(k as int),
{
    if k == 0 {
        (vec!['V', 'I', 'I'], vec!['v', 'i', 'i'], 6)
    } else if k == 1 {
        (vec!['V', 'I'], vec!['v', 'i'], 5)
    } else if k == 2 {
        (vec!['I', 'V'], vec!['i', 'v'], 3)
    } else if k == 3 {
        (vec!['V'], vec!['v'], 4)
    } else if k == 4 {
        (vec!['I', 'I', 'I'], vec!['i', 'i', 'i'], 2)
    } else if k == 5 {
        (vec!['I', 'I'], vec!['i', 'i'], 1)
    } else {
        (vec!['I'], vec!['i'], 0)
    }
}

fn roman_scan_at(chars: &[char], pos: usize) -> (r: Option<(usize, bool, usize)>)
    requires
        pos <= chars@.len(),
    ensures
        match roman_scan(chars@.skip(pos as int), 0) {
            Some((d, m, n)) => r == Some((d as usize, m, n as usize)),
            None => r is None,
        },
        r matches Some((d, m, n)) ==> d <= 6 && 1 <= n <= 3,
{
    proof {
        lemma_roman_scan_bounds(chars@.skip(pos as int), 0);
    }
    let ghost rem = chars@.skip(pos as int);
    let mut k: usize = 0;
    while k < 7
        invariant
            pos <= chars@.len(),
            rem == chars@.skip(pos as int),
            k <= 7,
            roman_scan(rem, 0) == roman_scan(rem, k as int),
        decreases 7 - k,
    {
        let (upper, lower, degree) = roman_entry(k);
        if chars_have_prefix_at(chars, pos, upper.as_slice()) {
            return Some((degree, false, upper.len()));
        }
        if chars_have_prefix_at(chars, pos, lower.as_slice()) {
            let total = chars.len();
            assert(lower@.len() <= total - pos);
            let after = pos + lower.len();
            assert(rem.skip(roman_lower(k as int).len() as int) =~= chars@.skip(after as int));
            let ok = if after < chars.len() {
                let c = chars[after];
                !('a' <= c && c <= 'z') || c == 'm' || c == 'd' || c == 'a' || c == 's' || c == 'o'
            } else {
                true
            };
            if ok {
                return Some((degree, true, lower.len()));
            }
        }
        k = k + 1;
    }
    None
}

/// The Roman numeral root at position `pos` of `chars`.
fn roman_root_at(chars: &[char], pos: usize) -> (r: Option<(usize, bool, i8, usize)>)
    requires
        pos <= chars@.len(),
    ensures
        match spec_roman_root(chars@.skip(pos as int)) {
            Some((d, m, a, n)) => r == Some((d as usize, m, a, n as usize)),
            None => r is None,
        },
{
    let ghost s = chars@.skip(pos as int);
    if pos >= chars.len() {
        return None;
    }
    proof {
        lemma_roman_scan_bounds(chars@.skip(pos + 1), 0);
    }
    let c0 = chars[pos];
    let has_next = pos + 1 < chars.len();
    if c0 == 'b' && has_next {
        let c1 = chars[pos + 1];
        if c1 == 'I' || c1 == 'V' {
            assert(s.skip(1) =~= chars@.skip(pos + 1));
            match roman_scan_at(chars, pos + 1) {
                Some((d, m, n)) => Some((d, m, -1, n + 1)),
                None => None,
            }
        } else {
            None
        }
    } else if c0 == '#' && has_next {
        assert(s.skip(1) =~= chars@.skip(pos + 1));
        match roman_scan_at(chars, pos + 1) {
            Some((d, m, n)) => Some((d, m, 1, n + 1)),
            None => None,
        }
    } else {
        match roman_scan_at(chars, pos) {
            Some((d, m, n)) => Some((d, m, 0, n)),
            None => None,
        }
    }
}

/// Try to parse a Roman numeral root from the start of a string.
///
/// Recognizes I–VII in upper or lowercase, with optional `b`/`#` prefix for
/// borrowed chords. Returns `(degree_index, is_minor, accidental, consumed)`.
pub fn parse_roman_numeral_root(input: &str) -> (r: Option<(usize, bool, i8, usize)>)
    ensures
        match spec_roman_root(input@) {
            Some((d, m, a, n)) => r == Some((d as usize, m, a, n as usize)),
            None => r is None,
        },
{
    let chars = str_chars(input);
    assert(chars@.skip(0) =~= chars@);
    roman_root_at(&chars, 0)
}

// ── Diatonic Quality Inference ───────────────────────────────────────

/// Diatonic triad quality for a scale degree.
#[derive(Debug, Clone, Copy, PartialEq, Eq, Structural)]
pub enum DiatonicQuality {
    /// Major triad.
    Major,
    /// Minor triad.
    Minor,
    /// Diminished triad.
    Diminished,
    /// Augmented triad.
    Augmented,
}

/// Modes that support diatonic quality inference (heptatonic, well-defined triads).
pub open spec fn spec_supports_diatonic_inference(mode: Seq<char>) -> bool {
    mode == "major"@ || mode == "ionian"@ || mode == "dorian"@ || mode == "phrygian"@ || mode
        == "lydian"@ || mode == "mixolydian"@ || mode == "aeolian"@ || mode == "minor"@ || mode
        == "locrian"@ || mode == "melodic_minor"@ || mode == "harmonic_minor"@ || mode
        == "phrygian_dominant"@ || mode == "lydian_dominant"@
}

/// Modes that support diatonic quality inference (heptatonic, well-defined triads).
/// Modes not in this list require explicit quality suffixes.
pub fn supports_diatonic_inference(mode: &str) -> (r: bool)
    ensures
        r == spec_supports_diatonic_inference(mode@),
{
    str_eq(mode, "major") || str_eq(mode, "ionian") || str_eq(mode, "dorian") || str_eq(
        mode,
        "phrygian",
    ) || str_eq(mode, "lydian") || str_eq(mode, "mixolydian") || str_eq(mode, "aeolian")
        || str_eq(mode, "minor") || str_eq(mode, "locrian") || str_eq(mode, "melodic_minor")
        || str_eq(mode, "harmonic_minor") || str_eq(mode, "phrygian_dominant") || str_eq(
        mode,
        "lydian_dominant",
    )
}

/// The diatonic triad qualities of degrees I … VII in a mode, if the mode has them.
pub open spec fn diatonic_row(mode: Seq<char>) -> Option<Seq<DiatonicQuality>> {
    if mode == "major"@ || mode == "ionian"@ {
        Some(
            seq![
                DiatonicQuality::Major,
                DiatonicQuality::Minor,
                DiatonicQuality::Minor,
                DiatonicQuality::Major,
                DiatonicQuality::Major,
                DiatonicQuality::Minor,
                DiatonicQuality::Diminished,
            ],
        )
    } else if mode == "dorian"@ {
        Some(
            seq![
                DiatonicQuality::Minor,
                DiatonicQuality::Minor,
                DiatonicQuality::Major,
                DiatonicQuality::Major,
                DiatonicQuality::Minor,
                DiatonicQuality::Diminished,
                DiatonicQuality::Major,
            ],
        )
    } else if mode == "phrygian"@ {
        Some(
            seq![
                DiatonicQuality::Minor,
                DiatonicQuality::Major,
                DiatonicQuality::Major,
                DiatonicQuality::Minor,
                DiatonicQuality::Diminished,
                DiatonicQuality::Major,
                DiatonicQuality::Minor,
            ],
        )
    } else if mode == "lydian"@ {
        Some(
            seq![
                DiatonicQuality::Major,
                DiatonicQuality::Major,
                DiatonicQuality::Minor,
                DiatonicQuality::Diminished,
                DiatonicQuality::Major,
                DiatonicQuality::Minor,
                DiatonicQuality::Minor,
            ],
        )
    } else if mode == "mixolydian"@ {
        Some(
            seq![
                DiatonicQuality::Major,
                DiatonicQuality::Minor,
                DiatonicQuality::Diminished,
                DiatonicQuality::Major,
                DiatonicQuality::Minor,
                DiatonicQuality::Minor,
                DiatonicQuality::Major,
            ],
        )
    } else if mode == "aeolian"@ || mode == "minor"@ {
        Some(
            seq![
                DiatonicQuality::Minor,
                DiatonicQuality::Diminished,
                DiatonicQuality::Major,
                DiatonicQuality::Minor,
                DiatonicQuality::Minor,
                DiatonicQuality::Major,
                DiatonicQuality::Major,
            ],
        )
    } else if mode == "locrian"@ {
        Some(
            seq![
                DiatonicQuality::Diminished,
                DiatonicQuality::Major,
                DiatonicQuality::Minor,
                DiatonicQuality::Minor,
                DiatonicQuality::Major,
                DiatonicQuality::Major,
                DiatonicQuality::Minor,
            ],
        )
    } else if mode == "melodic_minor"@ {
        Some(
            seq![
                DiatonicQuality::Minor,
                DiatonicQuality::Minor,
                DiatonicQuality::Augmented,
                DiatonicQuality::Major,
                DiatonicQuality::Major,
                DiatonicQuality::Diminished,
                DiatonicQuality::Diminished,
            ],
        )
    } else if mode == "harmonic_minor"@ {
        Some(
            seq![
                DiatonicQuality::Minor,
                DiatonicQuality::Diminished,
                DiatonicQuality::Augmented,
                DiatonicQuality::Minor,
                DiatonicQuality::Major,
                DiatonicQuality::Major,
                DiatonicQuality::Diminished,
            ],
        )
    } else {
        None
    }
}

/// The diatonic triad quality of 0-based degree `degree` (clamped to 6) in `mode`.
pub open spec fn spec_diatonic_triad_quality(mode: Seq<char>, degree: nat) -> Option<
    DiatonicQuality,
> {
    match diatonic_row(mode) {
        Some(row) => Some(row[if degree > 6 { 6int } else { degree as int }]),
        None => None,
    }
}

/// Look up the diatonic triad quality for a given mode at 0-indexed degree (0=I ... 6=VII).
///
/// Returns `None` when the mode does not support diatonic inference.
pub fn diatonic_triad_quality(mode: &str, degree_idx: usize) -> (r: Option<DiatonicQuality>)
    ensures
        r == spec_diatonic_triad_quality(mode@, degree_idx as nat),
{
    let row: Vec<DiatonicQuality> = if str_eq(mode, "major") || str_eq(mode, "ionian") {
        vec![
            DiatonicQuality::Major,
            DiatonicQuality::Minor,
            DiatonicQuality::Minor,
            DiatonicQuality::Major,
            DiatonicQuality::Major,
            DiatonicQuality::Minor,
            DiatonicQuality::Diminished,
        ]
    } else if str_eq(mode, "dorian") {
        vec![
            DiatonicQuality::Minor,
            DiatonicQuality::Minor,
            DiatonicQuality::Major,
            DiatonicQuality::Major,
            DiatonicQuality::Minor,
            DiatonicQuality::Diminished,
            DiatonicQuality::Major,
        ]
    } else if str_eq(mode, "phrygian") {
        vec![
            DiatonicQuality::Minor,
            DiatonicQuality::Major,
            DiatonicQuality::Major,
            DiatonicQuality::Minor,
            DiatonicQuality::Diminished,
            DiatonicQuality::Major,
            DiatonicQuality::Minor,
        ]
    } else if str_eq(mode, "lydian") {
        vec![
            DiatonicQuality::Major,
            DiatonicQuality::Major,
            DiatonicQuality::Minor,
            DiatonicQuality::Diminished,
            DiatonicQuality::Major,
            DiatonicQuality::Minor,
            DiatonicQuality::Minor,
        ]
    } else if str_eq(mode, "mixolydian") {
        vec![
            DiatonicQuality::Major,
            DiatonicQuality::Minor,
            DiatonicQuality::Diminished,
            DiatonicQuality::Major,
            DiatonicQuality::Minor,
            DiatonicQuality::Minor,
            DiatonicQuality::Major,
        ]
    } else if str_eq(mode, "aeolian") || str_eq(mode, "minor") {
        vec![
            DiatonicQuality::Minor,
            DiatonicQuality::Diminished,
            DiatonicQuality::Major,
            DiatonicQuality::Minor,
            DiatonicQuality::Minor,
            DiatonicQuality::Major,
            DiatonicQuality::Major,
        ]
    } else if str_eq(mode, "locrian") {
        vec![
            DiatonicQuality::Diminished,
            DiatonicQuality::Major,
            DiatonicQuality::Minor,
            DiatonicQuality::Minor,
            DiatonicQuality::Major,
            DiatonicQuality::Major,
            DiatonicQuality::Minor,
        ]
    } else if str_eq(mode, "melodic_minor") {
        vec![
            DiatonicQuality::Minor,
            DiatonicQuality::Minor,
            DiatonicQuality::Augmented,
            DiatonicQuality::Major,
            DiatonicQuality::Major,
            DiatonicQuality::Diminished,
            DiatonicQuality::Diminished,
        ]
    } else if str_eq(mode, "harmonic_minor") {
        vec![
            DiatonicQuality::Minor,
            DiatonicQuality::Diminished,
            DiatonicQuality::Augmented,
            DiatonicQuality::Minor,
            DiatonicQuality::Major,
            DiatonicQuality::Major,
            DiatonicQuality::Diminished,
        ]
    } else {
        return None;
    };
    let d = if degree_idx > 6 {
        6
    } else {
        degree_idx
    };
    Some(row[d])
}

/// The intervals of a triad of quality `q`.
pub open spec fn triad_intervals(q: DiatonicQuality) -> Seq<u8> {
    match q {
        DiatonicQuality::Major => seq![0u8, 4, 7],
        DiatonicQuality::Minor => seq![0u8, 3, 7],
        DiatonicQuality::Diminished => seq![0u8, 3, 6],
        DiatonicQuality::Augmented => seq![0u8, 4, 8],
    }
}

fn triad_for(q: DiatonicQuality) -> (r: Vec<u8>)
    ensures
        r@ == triad_intervals(q),
{
    match q {
        DiatonicQuality::Major => vec![0, 4, 7],
        DiatonicQuality::Minor => vec![0, 3, 7],
        DiatonicQuality::Diminished => vec![0, 3, 6],
        DiatonicQuality::Augmented => vec![0, 4, 8],
    }
}

/// `s` with `x` appended unless it already occurs.
pub open spec fn add_if_absent(s: Seq<u8>, x: u8) -> Seq<u8> {
    if s.contains(x) {
        s
    } else {
        s.push(x)
    }
}

/// The diatonic distance in semitones from degree `degree` to the scale
/// tone `steps` scale steps above it (clamped at 0).
pub open spec fn diatonic_step_interval(mode: Seq<u8>, degree: int, steps: int) -> u8 {
    let v = mode[(degree + steps) % 7] as int - mode[degree] as int + ((degree + steps) / 7)
        * 12;
    if v < 0 {
        0u8
    } else {
        v as u8
    }
}

/// Diatonic chord intervals for a degree: the triad of quality `q`, then the
/// 7th, 9th, 11th and 13th up to `numeric` (6, 8, 10, 12 scale steps above
/// the root), each added unless already present. Modes with fewer than seven
/// tones, or `numeric <= 3`, give the bare triad.
pub open spec fn spec_build_diatonic_intervals(
    mode: Seq<u8>,
    degree: int,
    q: DiatonicQuality,
    numeric: u8,
) -> Seq<u8> {
    let base = triad_intervals(q);
    if numeric <= 3 || mode.len() < 7 {
        base
    } else {
        let s7 = if numeric >= 7 {
            add_if_absent(base, diatonic_step_interval(mode, degree, 6))
        } else {
            base
        };
        let s9 = if numeric >= 9 {
            add_if_absent(s7, diatonic_step_interval(mode, degree, 8))
        } else {
            s7
        };
        let s11 = if numeric >= 11 {
            add_if_absent(s9, diatonic_step_interval(mode, degree, 10))
        } else {
            s9
        };
        if numeric >= 13 {
            add_if_absent(s11, diatonic_step_interval(mode, degree, 12))
        } else {
            s11
        }
    }
}

proof fn lemma_add_if_absent(s: Seq<u8>, x: u8)
    ensures
        add_if_absent(s, x).contains(x),
        add_if_absent(s, x).len() >= s.len(),
        add_if_absent(s, x).subrange(0, s.len() as int) == s,
        forall|k: int|
            s.len() <= k < add_if_absent(s, x).len() ==> #[trigger] add_if_absent(s, x)[k] == x,
{
    if s.contains(x) {
        assert(s.subrange(0, s.len() as int) =~= s);
    } else {
        assert(s.push(x)[s.len() as int] == x);
        assert(s.push(x).subrange(0, s.len() as int) =~= s);
    }
}

/// Semitones from scale degree `degree` of `mode` up to the scale tone
/// `steps` scale steps above it, an octave higher for every seven steps
/// (never below 0).
pub open spec fn semitones_up_scale(mode: Seq<u8>, degree: int, steps: int) -> u8 {
    let target = mode[(degree + steps) % 7] as int + 12 * ((degree + steps) / 7);
    if target < mode[degree] as int {
        0
    } else {
        (target - mode[degree] as int) as u8
    }
}

/// The extensions of a diatonic chord are tones of its mode: the 7th is the
/// scale tone six scale steps above the degree, the 9th eight, the 11th ten
/// and the 13th twelve, each in semitones from the degree. The chord is the
/// triad of its quality followed by those of the extensions up to `numeric`
/// that it does not already hold, and nothing else.
pub proof fn lemma_diatonic_extensions_are_scale_steps(
    mode: Seq<u8>,
    degree: int,
    q: DiatonicQuality,
    numeric: u8,
)
    requires
        mode.len() >= 7,
        0 <= degree < 7,
        forall|i: int| 0 <= i < mode.len() ==> mode[i] < 128,
    ensures
        ({
            let r = spec_build_diatonic_intervals(mode, degree, q, numeric);
            &&& r.len() >= 3
            &&& r.subrange(0, 3) == triad_intervals(q)
            &&& numeric < 7 ==> r == triad_intervals(q)
            &&& numeric >= 7 ==> r.contains(semitones_up_scale(mode, degree, 6))
            &&& numeric >= 9 ==> r.contains(semitones_up_scale(mode, degree, 8))
            &&& numeric >= 11 ==> r.contains(semitones_up_scale(mode, degree, 10))
            &&& numeric >= 13 ==> r.contains(semitones_up_scale(mode, degree, 12))
            &&& forall|k: int|
                3 <= k < r.len() ==> {
                    ||| (numeric >= 7 && #[trigger] r[k] == semitones_up_scale(mode, degree, 6))
                    ||| (numeric >= 9 && r[k] == semitones_up_scale(mode, degree, 8))
                    ||| (numeric >= 11 && r[k] == semitones_up_scale(mode, degree, 10))
                    ||| (numeric >= 13 && r[k] == semitones_up_scale(mode, degree, 12))
                }
        }),
{
    let base = triad_intervals(q);
    assert(base.len() == 3);
    assert(base.subrange(0, 3) =~= base);
    let t6 = semitones_up_scale(mode, degree, 6);
    let t8 = semitones_up_scale(mode, degree, 8);
    let t10 = semitones_up_scale(mode, degree, 10);
    let t12 = semitones_up_scale(mode, degree, 12);
    assert(diatonic_step_interval(mode, degree, 6) == t6);
    assert(diatonic_step_interval(mode, degree, 8) == t8);
    assert(diatonic_step_interval(mode, degree, 10) == t10);
    assert(diatonic_step_interval(mode, degree, 12) == t12);
    if numeric > 3 && numeric >= 7 {
        let s7 = add_if_absent(base, t6);
        lemma_add_if_absent(base, t6);
        let s9 = if numeric >= 9 { add_if_absent(s7, t8) } else { s7 };
        lemma_add_if_absent(s7, t8);
        let s11 = if numeric >= 11 { add_if_absent(s9, t10) } else { s9 };
        lemma_add_if_absent(s9, t10);
        let r = if numeric >= 13 { add_if_absent(s11, t12) } else { s11 };
        lemma_add_if_absent(s11, t12);
        assert(r == spec_build_diatonic_intervals(mode, degree, q, numeric));
        assert(s7.subrange(0, 3) =~= base);
        assert(s9.subrange(0, s7.len() as int) == s7);
        assert(s11.subrange(0, s9.len() as int) == s9);
        assert(r.subrange(0, s11.len() as int) == s11);
        assert(r.subrange(0, 3) =~= base) by {
            assert forall|k: int| 0 <= k < 3 implies r[k] == base[k] by {
                assert(r[k] == r.subrange(0, s11.len() as int)[k]);
                assert(s11[k] == s11.subrange(0, s9.len() as int)[k]);
                assert(s9[k] == s9.subrange(0, s7.len() as int)[k]);
                assert(s7[k] == s7.subrange(0, 3)[k]);
            }
        }
        assert(s7.contains(t6));
        assert(s9.contains(t6)) by {
            let k = choose|k: int| 0 <= k < s7.len() && s7[k] == t6;
            assert(s9[k] == s9.subrange(0, s7.len() as int)[k]);
        }
        assert(s11.contains(t6)) by {
            let k = choose|k: int| 0 <= k < s9.len() && s9[k] == t6;
            assert(s11[k] == s11.subrange(0, s9.len() as int)[k]);
        }
        assert(r.contains(t6)) by {
            let k = choose|k: int| 0 <= k < s11.len() && s11[k] == t6;
            assert(r[k] == r.subrange(0, s11.len() as int)[k]);
        }
        if numeric >= 9 {
            assert(s9.contains(t8));
            assert(s11.contains(t8)) by {
                let k = choose|k: int| 0 <= k < s9.len() && s9[k] == t8;
                assert(s11[k] == s11.subrange(0, s9.len() as int)[k]);
            }
            assert(r.contains(t8)) by {
                let k = choose|k: int| 0 <= k < s11.len() && s11[k] == t8;
                assert(r[k] == r.subrange(0, s11.len() as int)[k]);
            }
        }
        if numeric >= 11 {
            assert(s11.contains(t10));
            assert(r.contains(t10)) by {
                let k = choose|k: int| 0 <= k < s11.len() && s11[k] == t10;
                assert(r[k] == r.subrange(0, s11.len() as int)[k]);
            }
        }
        assert forall|k: int| 3 <= k < r.len() implies {
            ||| (numeric >= 7 && #[trigger] r[k] == t6)
            ||| (numeric >= 9 && r[k] == t8)
            ||| (numeric >= 11 && r[k] == t10)
            ||| (numeric >= 13 && r[k] == t12)
        } by {
            if k >= s11.len() {
            } else {
                assert(r[k] == s11[k]) by {
                    assert(r[k] == r.subrange(0, s11.len() as int)[k]);
                }
                if k >= s9.len() {
                } else {
                    assert(s11[k] == s9[k]) by {
                        assert(s11[k] == s11.subrange(0, s9.len() as int)[k]);
                    }
                    if k >= s7.len() {
                    } else {
                        assert(s9[k] == s7[k]) by {
                            assert(s9[k] == s9.subrange(0, s7.len() as int)[k]);
                        }
                    }
                }
            }
        }
    }
}

fn push_if_absent(v: &mut Vec<u8>, x: u8)
    ensures
        final(v)@ == add_if_absent(old(v)@, x),
{
    if !contains_byte(v.as_slice(), x) {
        v.push(x);
    }
}

fn diatonic_interval(mode_intervals: &[u8], degree_idx: usize, scale_steps: usize) -> (r: u8)
    requires
        degree_idx < 7,
        scale_steps <= 12,
        mode_intervals@.len() >= 7,
        forall|i: int| 0 <= i < mode_intervals@.len() ==> mode_intervals@[i] < 128,
    ensures
        r == diatonic_step_interval(mode_intervals@, degree_idx as int, scale_steps as int),
{
    let target = (degree_idx + scale_steps) % 7;
    let octave_shift = (degree_idx + scale_steps) / 7;
    let interval: i16 = mode_intervals[target] as i16 - mode_intervals[degree_idx] as i16 + (
    octave_shift as i16) * 12;
    if interval < 0 {
        0
    } else {
        interval as u8
    }
}

/// Build diatonic chord intervals for a given degree, mode, and numeric extension.
///
/// `numeric` is 3 (triad only), 7, 9, 11, or 13. The 7th is 6 scale steps above
/// the root, the 9th is 8 steps, 11th is 10 steps, 13th is 12 steps.
pub fn build_diatonic_intervals(
    mode_intervals: &[u8],
    degree_idx: usize,
    triad_quality: DiatonicQuality,
    numeric: u8,
) -> (r: Vec<u8>)
    requires
        degree_idx < 7,
        forall|i: int| 0 <= i < mode_intervals@.len() ==> mode_intervals@[i] < 128,
    ensures
        r@ == spec_build_diatonic_intervals(
            mode_intervals@,
            degree_idx as int,
            triad_quality,
            numeric,
        ),
{
    let mut intervals = triad_for(triad_quality);
    if numeric <= 3 || mode_intervals.len() < 7 {
        return intervals;
    }
    if numeric >= 7 {
        let seventh = diatonic_interval(mode_intervals, degree_idx, 6);
        push_if_absent(&mut intervals, seventh);
    }
    if numeric >= 9 {
        let ninth = diatonic_interval(mode_intervals, degree_idx, 8);
        push_if_absent(&mut intervals, ninth);
    }
    if numeric >= 11 {
        let eleventh = diatonic_interval(mode_intervals, degree_idx, 10);
        push_if_absent(&mut intervals, eleventh);
    }
    if numeric >= 13 {
        let thirteenth = diatonic_interval(mode_intervals, degree_idx, 12);
        push_if_absent(&mut intervals, thirteenth);
    }
    intervals
}

/// The diatonic triad a bare Roman numeral on `degree` receives under the
/// first mode with these intervals, if that mode supports diatonic inference.
pub open spec fn spec_diatonic_triad_for_intervals(mode: Seq<u8>, degree: nat) -> Option<Seq<u8>> {
    match mode_index_by_intervals(mode) {
        None => None,
        Some(k) => if !spec_supports_diatonic_inference(mode_name(k)) {
            None
        } else {
            match spec_diatonic_triad_quality(mode_name(k), degree) {
                Some(q) => Some(triad_intervals(q)),
                None => None,
            }
        },
    }
}

/// The diatonic triad a bare Roman numeral receives at parse time under the
/// mode with these intervals, or `None` when the mode does not support
/// diatonic inference (then quality was case-implied or explicit and must
/// not be re-derived).
pub fn diatonic_triad_for_intervals(mode_intervals: &[u8], degree_idx: usize) -> (r: Option<
    Vec<u8>,
>)
    ensures
        match spec_diatonic_triad_for_intervals(mode_intervals@, degree_idx as nat) {
            Some(t) => r matches Some(v) && v@ == t,
            None => r is None,
        },
{
    let mode_name = match mode_name_for_intervals(mode_intervals) {
        Some(n) => n,
        None => return None,
    };
    if !supports_diatonic_inference(mode_name) {
        return None;
    }
    match diatonic_triad_quality(mode_name, degree_idx) {
        Some(q) => Some(triad_for(q)),
        None => None,
    }
}

/// The extension number of a numeric-only quality suffix (7, 9, 11 or 13).
pub open spec fn spec_numeric_only_suffix(s: Seq<char>) -> Option<u8> {
    if s == seq!['7'] {
        Some(7u8)
    } else if s == seq!['9'] {
        Some(9u8)
    } else if s == seq!['1', '1'] {
        Some(11u8)
    } else if s == seq!['1', '3'] {
        Some(13u8)
    } else {
        None
    }
}

/// If `s` is a numeric-only quality suffix (7, 9, 11, or 13), return the number.
pub fn numeric_only_suffix(s: &[char]) -> (r: Option<u8>)
    ensures
        r == spec_numeric_only_suffix(s@),
{
    if s.len() == 1 && s[0] == '7' {
        assert(s@ =~= seq!['7']);
        Some(7)
    } else if s.len() == 1 && s[0] == '9' {
        assert(s@ =~= seq!['9']);
        Some(9)
    } else if s.len() == 2 && s[0] == '1' && s[1] == '1' {
        assert(s@ =~= seq!['1', '1']);
        Some(11)
    } else if s.len() == 2 && s[0] == '1' && s[1] == '3' {
        assert(s@ =~= seq!['1', '3']);
        Some(13)
    } else {
        proof {
            if s@ == seq!['7'] || s@ == seq!['9'] {
                assert(s@.len() == 1);
            }
            if s@ == seq!['1', '1'] || s@ == seq!['1', '3'] {
                assert(s@.len() == 2);
            }
        }
        None
    }
}

// ── Chord Symbol Parsing ─────────────────────────────────────────────

/// The entries of the quality table consulted when parsing (all but the
/// trailing empty suffix, whose triad is also the fallback).
pub open spec fn parse_quality_count() -> int {
    quality_count() - 1
}

/// The first quality table entry, from `i` on, whose suffix starts `s`:
/// its intervals and suffix length; a major triad of length 0 if none does.
pub open spec fn quality_scan(s: Seq<char>, i: int) -> (Seq<u8>, nat)
    decreases parse_quality_count() - i,
{
    if i < 0 || i >= parse_quality_count() {
        (seq![0u8, 4, 7], 0nat)
    } else if is_prefix(s, quality_name(i)) {
        (quality_intervals(i), quality_name(i).len())
    } else {
        quality_scan(s, i + 1)
    }
}

/// The chord quality at the start of `s` and the number of characters it takes.
/// A leading `-` means minor (`-7` a minor seventh); otherwise the longest
/// table suffix wins by table order; with none, a major triad.
pub open spec fn spec_chord_quality(s: Seq<char>) -> (Seq<u8>, nat) {
    if s.len() > 0 && s[0] == '-' {
        if s.len() > 1 && s[1] == '7' {
            (seq![0u8, 3, 7, 10], 2nat)
        } else {
            (seq![0u8, 3, 7], 1nat)
        }
    } else {
        quality_scan(s, 0)
    }
}

proof fn lemma_quality_scan_len(s: Seq<char>, i: int)
    ensures
        quality_scan(s, i).1 <= s.len(),
    decreases parse_quality_count() - i,
{
    if 0 <= i < parse_quality_count() && !is_prefix(s, quality_name(i)) {
        lemma_quality_scan_len(s, i + 1);
    }
}

/// Parse the chord quality portion and return (intervals, characters consumed).
pub fn parse_chord_quality(s: &[char]) -> (r: (Vec<u8>, usize))
    ensures
        r.0@ == spec_chord_quality(s@).0,
        r.1 == spec_chord_quality(s@).1,
        r.1 <= s@.len(),
{
    if s.len() > 0 && s[0] == '-' {
        if s.len() > 1 && s[1] == '7' {
            return (vec![0, 3, 7, 10], 2);
        }
        return (vec![0, 3, 7], 1);
    }
    proof {
        lemma_quality_scan_len(s@, 0);
        assert(s@.skip(0) =~= s@);
    }
    let mut i: usize = 0;
    while i < 44
        invariant
            i <= 44,
            quality_scan(s@, 0) == quality_scan(s@, i as int),
            s@.skip(0) == s@,
        decreases 44 - i,
    {
        let (_name, name_chars, intervals) = quality_at(i);
        if chars_have_prefix_at(s, 0, name_chars.as_slice()) {
            return (intervals, name_chars.len());
        }
        i = i + 1;
    }
    (vec![0, 4, 7], 0)
}

/// The position of the first `x` in `s` at or after `from`.
pub open spec fn first_index_from(s: Seq<u8>, x: u8, from: int) -> Option<int>
    decreases s.len() - from,
{
    if from < 0 || from >= s.len() {
        None
    } else if s[from] == x {
        Some(from)
    } else {
        first_index_from(s, x, from + 1)
    }
}

/// `s` with its first `old` replaced by `new`, or with `new` appended when
/// `old` does not occur.
pub open spec fn replace_or_add_spec(s: Seq<u8>, from: u8, to: u8) -> Seq<u8> {
    match first_index_from(s, from, 0) {
        Some(i) => s.update(i, to),
        None => s.push(to),
    }
}

proof fn lemma_first_index_from_bounds(s: Seq<u8>, x: u8, from: int)
    ensures
        first_index_from(s, x, from) matches Some(i) ==> from <= i < s.len() && s[i] == x,
    decreases s.len() - from,
{
    if 0 <= from < s.len() && s[from] != x {
        lemma_first_index_from_bounds(s, x, from + 1);
    }
}

/// Replace an interval value in the vec, or add the new value if the old isn't present.
pub fn replace_or_add(intervals: &mut Vec<u8>, from: u8, to: u8)
    ensures
        final(intervals)@ == replace_or_add_spec(old(intervals)@, from, to),
{
    let mut i: usize = 0;
    while i < intervals.len()
        invariant
            i <= intervals@.len(),
            intervals@ == old(intervals)@,
            first_index_from(intervals@, from, 0) == first_index_from(intervals@, from, i as int),
        decreases intervals@.len() - i,
    {
        if intervals[i] == from {
            intervals.set(i, to);
            return;
        }
        i = i + 1;
    }
    intervals.push(to);
}

/// Apply alteration suffixes (`b5`, `#5`, `b9`, `#9`, `#11`, `b13`) in order.
/// `b5` and `#5` replace the fifth (or add the altered fifth when there is
/// none); the others add their interval unless present. Any other text is
/// an error that carries the unread rest.
pub open spec fn spec_alterations(s: Seq<char>, ivs: Seq<u8>) -> Result<Seq<u8>, Seq<char>>
    decreases s.len(),
{
    if s.len() == 0 {
        Ok(ivs)
    } else if is_prefix(s, seq!['b', '5']) {
        spec_alterations(s.skip(2), replace_or_add_spec(ivs, 7, 6))
    } else if is_prefix(s, seq!['#', '5']) {
        spec_alterations(s.skip(2), replace_or_add_spec(ivs, 7, 8))
    } else if is_prefix(s, seq!['b', '9']) {
        spec_alterations(s.skip(2), add_if_absent(ivs, 13))
    } else if is_prefix(s, seq!['#', '9']) {
        spec_alterations(s.skip(2), add_if_absent(ivs, 15))
    } else if is_prefix(s, seq!['#', '1', '1']) {
        spec_alterations(s.skip(3), add_if_absent(ivs, 18))
    } else if is_prefix(s, seq!['b', '1', '3']) {
        spec_alterations(s.skip(3), add_if_absent(ivs, 20))
    } else {
        Err(s)
    }
}

/// The message of an unrecognized alteration.
pub open spec fn alteration_message(rest: Seq<char>) -> Seq<char> {
    "unrecognized chord alteration: '"@ + rest + "'"@
}

/// Parse alteration suffixes in `text[start..end]` (character positions;
/// `chars` holds the characters of `text`) and modify `intervals`.
pub fn parse_alterations(
    text: &str,
    chars: &[char],
    start: usize,
    end: usize,
    intervals: &mut Vec<u8>,
) -> (r: CompileResult<()>)
    requires
        chars@ == text@,
        start <= end <= chars@.len(),
    ensures
        match spec_alterations(chars@.subrange(start as int, end as int), old(intervals)@) {
            Ok(v) => r is Ok && final(intervals)@ == v,
            Err(rest) => r matches Err(CompileError::ParseError { message, span }) && message@
                == alteration_message(rest) && span == (Span { start: 0, end: 0 }),
        },
{
    let mut pos = start;
    while pos < end
        invariant
            chars@ == text@,
            start <= pos <= end <= chars@.len(),
            spec_alterations(chars@.subrange(start as int, end as int), old(intervals)@)
                == spec_alterations(chars@.subrange(pos as int, end as int), intervals@),
        decreases end - pos,
    {
        let ghost rest = chars@.subrange(pos as int, end as int);
        let c0 = chars[pos];
        let has1 = end - pos > 1;
        let has2 = end - pos > 2;
        let c1 = if has1 { chars[pos + 1] } else { ' ' };
        let c2 = if has2 { chars[pos + 2] } else { ' ' };
        proof {
            assert(is_prefix(rest, seq!['b', '5']) <==> has1 && c0 == 'b' && c1 == '5') by {
                if has1 && c0 == 'b' && c1 == '5' {
                    assert(rest.subrange(0, 2) =~= seq!['b', '5']);
                }
            }
            assert(is_prefix(rest, seq!['#', '5']) <==> has1 && c0 == '#' && c1 == '5') by {
                if has1 && c0 == '#' && c1 == '5' {
                    assert(rest.subrange(0, 2) =~= seq!['#', '5']);
                }
            }
            assert(is_prefix(rest, seq!['b', '9']) <==> has1 && c0 == 'b' && c1 == '9') by {
                if has1 && c0 == 'b' && c1 == '9' {
                    assert(rest.subrange(0, 2) =~= seq!['b', '9']);
                }
            }
            assert(is_prefix(rest, seq!['#', '9']) <==> has1 && c0 == '#' && c1 == '9') by {
                if has1 && c0 == '#' && c1 == '9' {
                    assert(rest.subrange(0, 2) =~= seq!['#', '9']);
                }
            }
            assert(is_prefix(rest, seq!['#', '1', '1']) <==> has2 && c0 == '#' && c1 == '1' && c2
                == '1') by {
                if has2 && c0 == '#' && c1 == '1' && c2 == '1' {
                    assert(rest.subrange(0, 3) =~= seq!['#', '1', '1']);
                }
            }
            assert(is_prefix(rest, seq!['b', '1', '3']) <==> has2 && c0 == 'b' && c1 == '1' && c2
                == '3') by {
                if has2 && c0 == 'b' && c1 == '1' && c2 == '3' {
                    assert(rest.subrange(0, 3) =~= seq!['b', '1', '3']);
                }
            }
            if has1 {
                assert(rest.skip(2) =~= chars@.subrange(pos + 2, end as int));
            }
            if has2 {
                assert(rest.skip(3) =~= chars@.subrange(pos + 3, end as int));
            }
        }
        if has1 && c0 == 'b' && c1 == '5' {
            replace_or_add(intervals, 7, 6);
            pos = pos + 2;
        } else if has1 && c0 == '#' && c1 == '5' {
            replace_or_add(intervals, 7, 8);
            pos = pos + 2;
        } else if has1 && c0 == 'b' && c1 == '9' {
            push_if_absent(intervals, 13);
            pos = pos + 2;
        } else if has1 && c0 == '#' && c1 == '9' {
            push_if_absent(intervals, 15);
            pos = pos + 2;
        } else if has2 && c0 == '#' && c1 == '1' && c2 == '1' {
            push_if_absent(intervals, 18);
            pos = pos + 3;
        } else if has2 && c0 == 'b' && c1 == '1' && c2 == '3' {
            push_if_absent(intervals, 20);
            pos = pos + 3;
        } else {
            let rest_text = text.substring_char(pos, end);
            let message = concat3("unrecognized chord alteration: '", rest_text, "'");
            return Err(CompileError::ParseError { message, span: Span::new(0, 0) });
        }
    }
    proof {
        assert(chars@.subrange(pos as int, end as int).len() == 0);
    }
    Ok(())
}

/// Why a chord symbol does not parse.
pub enum ChordFailure {
    /// No note name where the root belongs.
    BadRoot,
    /// The text after a Roman numeral chord's `/` is neither a numeral nor a note.
    BadSlashBass,
    /// The tonal context names a mode that does not exist.
    UnknownMode,
    /// Unrecognized alteration text, with the unread rest.
    BadAlteration(Seq<char>),
}

/// A letter-based chord symbol: a note-name root, an optional `/bass`
/// (only when the text after the last `/` is a note name), a quality and
/// alterations.
pub open spec fn spec_parse_chord_symbol(s: Seq<char>) -> Result<ChordModel, ChordFailure> {
    match spec_note_name(s) {
        None => Err(ChordFailure::BadRoot),
        Some((root, consumed)) => {
            let rem = s.skip(consumed as int);
            let (qp, slash) = match last_index_of(rem, '/') {
                Some(p) => match spec_note_name(rem.skip(p + 1)) {
                    Some((pc, _)) => (rem.take(p), Some(pc)),
                    None => (rem, None),
                },
                None => (rem, None),
            };
            let (ivs, after) = spec_chord_quality(qp);
            match spec_alterations(qp.skip(after as int), ivs) {
                Ok(v) => Ok(ChordModel { root, intervals: v, slash_bass: slash, roman: None }),
                Err(rest) => Err(ChordFailure::BadAlteration(rest)),
            }
        },
    }
}

/// The message and span of the error a chord failure gives for `input`
/// under a tonal context with mode `mode` and span `tc_span`.
pub open spec fn chord_failure_error(
    f: ChordFailure,
    input: Seq<char>,
    mode: Seq<char>,
    tc_span: Span,
) -> (Seq<char>, Span) {
    match f {
        ChordFailure::BadRoot => (
            "invalid chord root in '"@ + input + "'"@,
            Span { start: 0, end: 0 },
        ),
        ChordFailure::BadSlashBass => ("invalid slash bass note in '"@ + input + "'"@, tc_span),
        ChordFailure::UnknownMode => ("unknown mode '"@ + mode + "' in tonal context"@, tc_span),
        ChordFailure::BadAlteration(rest) => (
            alteration_message(rest),
            Span { start: 0, end: 0 },
        ),
    }
}

/// Whether `r` is the outcome `spec` describes, failures rendered as `ParseError`s.
pub open spec fn chord_result_matches(
    r: CompileResult<ChordSymbol>,
    spec: Result<ChordModel, ChordFailure>,
    input: Seq<char>,
    mode: Seq<char>,
    tc_span: Span,
) -> bool {
    match spec {
        Ok(m) => r matches Ok(c) && c@ == m,
        Err(f) => r matches Err(CompileError::ParseError { message, span }) && (message@, span)
            == chord_failure_error(f, input, mode, tc_span),
    }
}

fn sub_chars(s: &[char], from: usize, to: usize) -> (r: Vec<char>)
    requires
        from <= to <= s@.len(),
    ensures
        r@ == s@.subrange(from as int, to as int),
{
    let mut r: Vec<char> = Vec::new();
    let mut i = from;
    while i < to
        invariant
            from <= i <= to <= s@.len(),
            r@ == s@.subrange(from as int, i as int),
        decreases to - i,
    {
        r.push(s[i]);
        i = i + 1;
        assert(r@ =~= s@.subrange(from as int, i as int));
    }
    r
}

/// Parse a chord symbol string (e.g., "Cmaj7", "Dm7b5", "G7#9", "Ab/Eb").
///
/// Returns a `ChordSymbol` with root pitch class, intervals, and optional slash bass.
pub fn parse_chord_symbol(input: &str) -> (r: CompileResult<ChordSymbol>)
    ensures
        chord_result_matches(
            r,
            spec_parse_chord_symbol(input@),
            input@,
            Seq::empty(),
            Span { start: 0, end: 0 },
        ),
{
    let chars = str_chars(input);
    let n = chars.len();
    proof {
        assert(chars@.skip(0) =~= chars@);
    }
    let (root, consumed) = match note_name_at(&chars, 0) {
        Some(x) => x,
        None => {
            let message = concat3("invalid chord root in '", input, "'");
            return Err(CompileError::ParseError { message, span: Span::new(0, 0) });
        },
    };
    let ghost rem = chars@.skip(consumed as int);
    // Split off a slash bass only when the text after the last `/` is a note name;
    // otherwise the slash belongs to the quality (e.g. "6/9").
    let mut q_end = n;
    let mut slash_bass: Option<u8> = None;
    match find_last_from(&chars, consumed, '/') {
        Some(p) => {
            proof {
                lemma_last_index_shift(chars@, consumed as int, '/');
                assert(rem.skip(p - consumed + 1) =~= chars@.skip(p + 1));
            }
            match note_name_at(&chars, p + 1) {
                Some((pc, _)) => {
                    q_end = p;
                    slash_bass = Some(pc);
                },
                None => {},
            }
        },
        None => {
            proof {
                lemma_last_index_shift(chars@, consumed as int, '/');
            }
        },
    }
    let qp = sub_chars(&chars, consumed, q_end);
    proof {
        if q_end == n {
            assert(qp@ =~= rem);
        } else {
            assert(qp@ =~= rem.take(q_end - consumed));
        }
    }
    let (mut intervals, after) = parse_chord_quality(qp.as_slice());
    proof {
        assert(qp@.skip(after as int) =~= chars@.subrange(consumed + after, q_end as int));
    }
    match parse_alterations(input, &chars, consumed + after, q_end, &mut intervals) {
        Ok(()) => {},
        Err(e) => return Err(e),
    }
    Ok(ChordSymbol { root, intervals, slash_bass, roman: None })
}

/// The pitch class of `x` semitones above C.
pub open spec fn pc_mod12(x: int) -> u8 {
    (x % 12) as u8
}

/// Semitones of 0-based degree `d` in `mode` (0 when the mode is shorter).
pub open spec fn degree_semitones(mode: Seq<u8>, d: nat) -> int {
    if d < mode.len() {
        mode[d as int] as int
    } else {
        0
    }
}

/// The triad implied by a numeral's case: minor for lower case, major otherwise.
pub open spec fn case_implied_triad(minor: bool) -> Seq<u8> {
    if minor {
        seq![0u8, 3, 7]
    } else {
        seq![0u8, 4, 7]
    }
}

/// An explicit quality suffix on a numeral; with no suffix, the case-implied triad.
pub open spec fn explicit_or_case_quality(qp: Seq<char>, minor: bool) -> (Seq<u8>, nat) {
    let (ivs, n) = spec_chord_quality(qp);
    if n == 0 {
        (case_implied_triad(minor), 0)
    } else {
        (ivs, n)
    }
}

/// The quality of a Roman numeral chord with quality text `qp`. A bare
/// numeral takes the mode's diatonic triad when the mode supports inference;
/// a numeric-only suffix on a minor or diminished diatonic degree extends it
/// diatonically; any other suffix is read absolutely.
pub open spec fn roman_quality(
    qp: Seq<char>,
    mode: Seq<u8>,
    degree: nat,
    minor: bool,
    diatonic: Option<DiatonicQuality>,
    use_diatonic: bool,
) -> (Seq<u8>, nat) {
    if qp.len() == 0 {
        if use_diatonic {
            match diatonic {
                Some(q) => (spec_build_diatonic_intervals(mode, degree as int, q, 3), 0nat),
                None => (case_implied_triad(minor), 0nat),
            }
        } else {
            (case_implied_triad(minor), 0nat)
        }
    } else if use_diatonic {
        match spec_numeric_only_suffix(qp) {
            Some(n) => {
                let q = match diatonic {
                    Some(q) => q,
                    None => if minor {
                        DiatonicQuality::Minor
                    } else {
                        DiatonicQuality::Major
                    },
                };
                if q == DiatonicQuality::Minor || q == DiatonicQuality::Diminished {
                    (spec_build_diatonic_intervals(mode, degree as int, q, n), qp.len())
                } else {
                    spec_chord_quality(qp)
                }
            },
            None => explicit_or_case_quality(qp, minor),
        }
    } else {
        explicit_or_case_quality(qp, minor)
    }
}

/// A chord symbol read against a tonal context. A Roman numeral resolves to
/// `key root + mode interval of its degree + accidental` (mod 12); its slash
/// bass, after the last `/`, is a numeral or a note name. Anything else is a
/// letter-based chord symbol.
pub open spec fn spec_parse_chord_with_context(
    s: Seq<char>,
    key_root: Option<u8>,
    mode: Seq<char>,
) -> Result<ChordModel, ChordFailure> {
    match spec_roman_root(s) {
        None => spec_parse_chord_symbol(s),
        Some((degree, minor, acc, consumed)) => match spec_lookup_mode(mode) {
            None => Err(ChordFailure::UnknownMode),
            Some(mi) => {
                let sr: int = match key_root {
                    Some(r) => r as int,
                    None => 0,
                };
                let root = pc_mod12(sr + degree_semitones(mi, degree) + acc);
                let rem = s.skip(consumed as int);
                let split: Result<(Seq<char>, Option<u8>), ChordFailure> = match last_index_of(
                    rem,
                    '/',
                ) {
                    Some(p) => {
                        let b = rem.skip(p + 1);
                        match spec_roman_root(b) {
                            Some((bd, _, bacc, _)) => Ok(
                                (rem.take(p), Some(pc_mod12(sr + degree_semitones(mi, bd) + bacc))),
                            ),
                            None => match spec_note_name(b) {
                                Some((pc, _)) => Ok((rem.take(p), Some(pc))),
                                None => Err(ChordFailure::BadSlashBass),
                            },
                        }
                    },
                    None => Ok((rem, None)),
                };
                match split {
                    Err(f) => Err(f),
                    Ok((qp, slash)) => {
                        let dq = if acc == 0 {
                            spec_diatonic_triad_quality(mode, degree)
                        } else {
                            None
                        };
                        let use_d = acc == 0 && spec_supports_diatonic_inference(mode);
                        let (ivs, after) = roman_quality(qp, mi, degree, minor, dq, use_d);
                        match spec_alterations(qp.skip(after as int), ivs) {
                            Ok(v) => Ok(
                                ChordModel {
                                    root,
                                    intervals: v,
                                    slash_bass: slash,
                                    roman: Some(
                                        RomanNumeralDegree {
                                            degree_idx: degree as u8,
                                            accidental: acc,
                                        },
                                    ),
                                },
                            ),
                            Err(rest) => Err(ChordFailure::BadAlteration(rest)),
                        }
                    },
                }
            },
        },
    }
}

/// The span a tonal context's errors point at.
pub open spec fn tonal_span(tc: TonalContext) -> Span {
    match tc.span {
        Some(sp) => sp,
        None => Span { start: 0, end: 0 },
    }
}

fn pc_from(scale_root: u8, semitones: u8, accidental: i8) -> (r: u8)
    requires
        -1 <= accidental <= 1,
    ensures
        r == pc_mod12(scale_root as int + semitones as int + accidental as int),
        r < 12,
{
    let t: u32 = scale_root as u32 + semitones as u32 + 12;
    let t2: u32 = if accidental < 0 {
        t - 1
    } else if accidental > 0 {
        t + 1
    } else {
        t
    };
    assert(t2 as int == scale_root as int + semitones as int + accidental as int + 12);
    (t2 % 12) as u8
}

fn degree_semis(mode: &[u8], d: usize) -> (r: u8)
    ensures
        r as int == degree_semitones(mode@, d as nat),
{
    if d < mode.len() {
        mode[d]
    } else {
        0
    }
}

fn explicit_or_case(qp: &[char], minor: bool) -> (r: (Vec<u8>, usize))
    ensures
        r.0@ == explicit_or_case_quality(qp@, minor).0,
        r.1 == explicit_or_case_quality(qp@, minor).1,
        r.1 <= qp@.len(),
{
    let (ivs, n) = parse_chord_quality(qp);
    if n == 0 {
        if minor {
            (vec![0, 3, 7], 0)
        } else {
            (vec![0, 4, 7], 0)
        }
    } else {
        (ivs, n)
    }
}

fn roman_quality_exec(
    qp: &[char],
    mode: &[u8],
    degree: usize,
    minor: bool,
    diatonic: Option<DiatonicQuality>,
    use_diatonic: bool,
) -> (r: (Vec<u8>, usize))
    requires
        degree < 7,
        forall|i: int| 0 <= i < mode@.len() ==> mode@[i] < 128,
    ensures
        r.0@ == roman_quality(qp@, mode@, degree as nat, minor, diatonic, use_diatonic).0,
        r.1 == roman_quality(qp@, mode@, degree as nat, minor, diatonic, use_diatonic).1,
        r.1 <= qp@.len(),
{
    if qp.len() == 0 {
        if use_diatonic {
            match diatonic {
                Some(q) => (build_diatonic_intervals(mode, degree, q, 3), 0),
                None => if minor {
                    (vec![0, 3, 7], 0)
                } else {
                    (vec![0, 4, 7], 0)
                },
            }
        } else if minor {
            (vec![0, 3, 7], 0)
        } else {
            (vec![0, 4, 7], 0)
        }
    } else if use_diatonic {
        match numeric_only_suffix(qp) {
            Some(n) => {
                let q = match diatonic {
                    Some(q) => q,
                    None => if minor {
                        DiatonicQuality::Minor
                    } else {
                        DiatonicQuality::Major
                    },
                };
                if q == DiatonicQuality::Minor || q == DiatonicQuality::Diminished {
                    (build_diatonic_intervals(mode, degree, q, n), qp.len())
                } else {
                    parse_chord_quality(qp)
                }
            },
            None => explicit_or_case(qp, minor),
        }
    } else {
        explicit_or_case(qp, minor)
    }
}

/// A mode found by name has at least five intervals, each below an octave.
pub proof fn lemma_lookup_mode_well_formed(name: Seq<char>)
    ensures
        spec_lookup_mode(name) matches Some(v) ==> v.len() >= 5 && forall|i: int|
            0 <= i < v.len() ==> v[i] < 12,
{
    lemma_mode_index_from_bounds(name, 0);
    if let Some(k) = mode_index(name) {
        lemma_mode_intervals_well_formed(k);
    }
}

proof fn lemma_lookup_mode_small(name: Seq<char>)
    ensures
        spec_lookup_mode(name) matches Some(v) ==> forall|i: int|
            0 <= i < v.len() ==> v[i] < 12,
{
    lemma_mode_index_from_bounds(name, 0);
    if let Some(k) = mode_index(name) {
        lemma_mode_intervals_well_formed(k);
    }
}

/// Parse a chord symbol that may be a Roman numeral, resolving against a tonal context.
///
/// If the input starts with a Roman numeral (I–VII, i–vii, with optional b/# prefix),
/// it is resolved to an absolute pitch class using the tonal context's root and mode.
/// Otherwise, delegates to `parse_chord_symbol()` for letter-based parsing.
pub fn parse_chord_symbol_with_context(input: &str, tonal_context: &TonalContext) -> (r:
    CompileResult<ChordSymbol>)
    ensures
        chord_result_matches(
            r,
            spec_parse_chord_with_context(input@, tonal_context.root, tonal_context.mode@),
            input@,
            tonal_context.mode@,
            tonal_span(*tonal_context),
        ),
{
    let chars = str_chars(input);
    let n = chars.len();
    proof {
        assert(chars@.skip(0) =~= chars@);
        lemma_roman_root_bounds(chars@);
    }
    let (degree, minor, accidental, consumed) = match roman_root_at(&chars, 0) {
        Some(x) => x,
        None => return parse_chord_symbol(input),
    };
    let tc_span = match tonal_context.span {
        Some(sp) => sp,
        None => Span::new(0, 0),
    };
    let mode = tonal_context.mode.as_str();
    let mode_intervals = match lookup_mode(mode) {
        Some(v) => v,
        None => {
            let message = concat3("unknown mode '", mode, "' in tonal context");
            return Err(CompileError::ParseError { message, span: tc_span });
        },
    };
    proof {
        lemma_lookup_mode_small(mode@);
    }
    let scale_root: u8 = match tonal_context.root {
        Some(r) => r,
        None => 0,
    };
    let root = pc_from(scale_root, degree_semis(mode_intervals.as_slice(), degree), accidental);
    let ghost rem = chars@.skip(consumed as int);
    let mut q_end = n;
    let mut slash_bass: Option<u8> = None;
    match find_last_from(&chars, consumed, '/') {
        Some(p) => {
            proof {
                lemma_last_index_shift(chars@, consumed as int, '/');
                assert(rem.skip(p - consumed + 1) =~= chars@.skip(p + 1));
                lemma_roman_root_bounds(chars@.skip(p + 1));
            }
            let bass = match roman_root_at(&chars, p + 1) {
                Some((bass_degree, _, bass_acc, _)) => pc_from(
                    scale_root,
                    degree_semis(mode_intervals.as_slice(), bass_degree),
                    bass_acc,
                ),
                None => match note_name_at(&chars, p + 1) {
                    Some((pc, _)) => pc,
                    None => {
                        let message = concat3("invalid slash bass note in '", input, "'");
                        return Err(CompileError::ParseError { message, span: tc_span });
                    },
                },
            };
            q_end = p;
            slash_bass = Some(bass);
        },
        None => {
            proof {
                lemma_last_index_shift(chars@, consumed as int, '/');
            }
        },
    }
    let qp = sub_chars(&chars, consumed, q_end);
    proof {
        if q_end == n {
            assert(qp@ =~= rem);
        } else {
            assert(qp@ =~= rem.take(q_end - consumed));
        }
    }
    let diatonic = if accidental == 0 {
        diatonic_triad_quality(mode, degree)
    } else {
        None
    };
    let use_diatonic = accidental == 0 && supports_diatonic_inference(mode);
    let (mut intervals, after) = roman_quality_exec(
        qp.as_slice(),
        mode_intervals.as_slice(),
        degree,
        minor,
        diatonic,
        use_diatonic,
    );
    proof {
        assert(qp@.skip(after as int) =~= chars@.subrange(consumed + after, q_end as int));
    }
    match parse_alterations(input, &chars, consumed + after, q_end, &mut intervals) {
        Ok(()) => {},
        Err(e) => return Err(e),
    }
    Ok(
        ChordSymbol {
            root,
            intervals,
            slash_bass,
            roman: Some(RomanNumeralDegree { degree_idx: degree as u8, accidental }),
        },
    )
}

/// A quality suffix with its Unicode sign, if it starts with one, spelled in
/// ASCII: `Δ` is `maj` (a bare `Δ` being `maj7`), `°` is `dim`, and `ø` is
/// `m7b5` (a `7` right after it belongs to the sign).
pub open spec fn ascii_quality(q: Seq<char>) -> Seq<char> {
    if q.len() > 0 && q[0] == 'Δ' {
        if q.len() == 1 {
            "maj7"@
        } else {
            "maj"@ + q.skip(1)
        }
    } else if q.len() > 0 && q[0] == '°' {
        "dim"@ + q.skip(1)
    } else if q.len() > 0 && q[0] == 'ø' {
        if q.len() > 1 && q[1] == '7' {
            "m7b5"@ + q.skip(2)
        } else {
            "m7b5"@ + q.skip(1)
        }
    } else {
        q
    }
}

/// Parse a chord symbol that may use Unicode quality symbols (Δ, °, ø).
/// This handles the conversion from lexer tokens back to a parseable string:
/// the sign is spelled in ASCII (`ascii_quality`) before parsing.
pub fn parse_chord_from_tokens(root_str: &str, quality_suffix: &str) -> (r: CompileResult<
    ChordSymbol,
>)
    ensures
        chord_result_matches(
            r,
            spec_parse_chord_symbol(root_str@ + ascii_quality(quality_suffix@)),
            root_str@ + ascii_quality(quality_suffix@),
            Seq::empty(),
            Span { start: 0, end: 0 },
        ),
{
    let mut full = String::from_str(root_str);
    let n = quality_suffix.unicode_len();
    let first = if n > 0 {
        quality_suffix.get_char(0)
    } else {
        ' '
    };
    let ghost q = quality_suffix@;
    if n > 0 && first == 'Δ' {
        if n == 1 {
            full.append("maj7");
        } else {
            full.append("maj");
            full.append(quality_suffix.substring_char(1, n));
        }
    } else if n > 0 && first == '°' {
        full.append("dim");
        full.append(quality_suffix.substring_char(1, n));
    } else if n > 0 && first == 'ø' {
        if n > 1 && quality_suffix.get_char(1) == '7' {
            full.append("m7b5");
            full.append(quality_suffix.substring_char(2, n));
        } else {
            full.append("m7b5");
            full.append(quality_suffix.substring_char(1, n));
        }
    } else {
        full.append(quality_suffix);
    }
    proof {
        assert(q.skip(1) =~= q.subrange(1, n as int));
        assert(q.skip(2) =~= q.subrange(2, n as int));
        assert(full@ =~= root_str@ + ascii_quality(q));
    }
    parse_chord_symbol(full.as_str())
}

// ── The quality table reads back ────────────────────────────────────

proof fn lemma_scan_reaches(s: Seq<char>, i: int, q: int)
    requires
        0 <= i <= q < parse_quality_count(),
        forall|j: int| i <= j < q ==> !is_prefix(s, #[trigger] quality_name(j)),
        is_prefix(s, quality_name(q)),
    ensures
        quality_scan(s, i) == (quality_intervals(q), quality_name(q).len()),
    decreases q - i,
{
    if i < q {
        assert(!is_prefix(s, quality_name(i)));
        lemma_scan_reaches(s, i + 1, q);
    }
}

proof fn lemma_scan_misses(s: Seq<char>, i: int)
    requires
        0 <= i <= parse_quality_count(),
        forall|j: int| i <= j < parse_quality_count() ==> !is_prefix(s, #[trigger] quality_name(j)),
    ensures
        quality_scan(s, i) == (seq![0u8, 4, 7], 0nat),
    decreases parse_quality_count() - i,
{
    if i < parse_quality_count() {
        assert(!is_prefix(s, quality_name(i)));
        lemma_scan_misses(s, i + 1);
    }
}

/// A quality suffix `n` that the scan reads whole as intervals `ivs`, with
/// no accidental or `-` first and no `/` that could pass for a slash bass,
/// parses after the root `C` as C with those intervals.
proof fn lemma_name_parses(n: Seq<char>, ivs: Seq<u8>, slash: Option<int>)
    requires
        quality_scan(n, 0) == (ivs, n.len()),
        n.len() > 0 ==> n[0] != '#' && n[0] != 'b' && n[0] != '-',
        match slash {
            None => forall|j: int| 0 <= j < n.len() ==> n[j] != '/',
            Some(p) => 0 <= p < n.len() && n[p] == '/' && (forall|j: int| p < j < n.len() ==> n[j]
                != '/') && spec_note_name(n.skip(p + 1)) is None,
        },
    ensures
        spec_parse_chord_symbol(seq!['C'] + n) == Ok::<ChordModel, ChordFailure>(
            ChordModel { root: 0, intervals: ivs, slash_bass: None, roman: None },
        ),
{
    let s = seq!['C'] + n;
    assert(s[0] == 'C');
    if n.len() > 0 {
        assert(s[1] == n[0]);
    }
    assert(spec_note_name(s) == Some((0u8, 1nat)));
    assert(s.skip(1) =~= n);
    match slash {
        None => {
            crate::text::lemma_last_index_from_none_after(n, 0, '/');
        },
        Some(p) => {
            crate::text::lemma_last_index_from_found(n, 0, p, '/');
        },
    }
    assert(spec_chord_quality(n) == (ivs, n.len()));
    assert(n.skip(n.len() as int) =~= Seq::<char>::empty());
}

proof fn lemma_table_entry_0()
    ensures
        spec_parse_chord_symbol(seq!['C'] + quality_name(0)) == Ok::<ChordModel, ChordFailure>(
            ChordModel { root: 0, intervals: quality_intervals(0), slash_bass: None, roman: None },
        ),
{
    let s = quality_name(0);
    assert(s == seq!['m', 'a', 'j', '1', '3']);
    assert(s.subrange(0, 5) =~= s);
    lemma_scan_reaches(s, 0, 0);
    lemma_name_parses(s, quality_intervals(0), None);
}

proof fn lemma_table_entry_1()
    ensures
        spec_parse_chord_symbol(seq!['C'] + quality_name(1)) == Ok::<ChordModel, ChordFailure>(
            ChordModel { root: 0, intervals: quality_intervals(1), slash_bass: None, roman: None },
        ),
{
    let s = quality_name(1);
    assert(s == seq!['m', 'a', 'j', '1', '1']);
    assert forall|j: int| 0 <= j < 1 implies !is_prefix(s, #[trigger] quality_name(j)) by {
        if j == 0 {
            assert(quality_name(0) == seq!['m', 'a', 'j', '1', '3']);
            assert(s.subrange(0, 5)[4] != quality_name(0)[4]);
        }
    }
    assert(s.subrange(0, 5) =~= s);
    lemma_scan_reaches(s, 0, 1);
    lemma_name_parses(s, quality_intervals(1), None);
}

proof fn lemma_table_entry_2()
    ensures
        spec_parse_chord_symbol(seq!['C'] + quality_name(2)) == Ok::<ChordModel, ChordFailure>(
            ChordModel { root: 0, intervals: quality_intervals(2), slash_bass: None, roman: None },
        ),
{
    let s = quality_name(2);
    assert(s == seq!['m', 'a', 'j', '9']);
    assert forall|j: int| 0 <= j < 2 implies !is_prefix(s, #[trigger] quality_name(j)) by {
        if j == 0 {
            assert(quality_name(0) == seq!['m', 'a', 'j', '1', '3']);
        } else if j == 1 {
            assert(quality_name(1) == seq!['m', 'a', 'j', '1', '1']);
        }
    }
    assert(s.subrange(0, 4) =~= s);
    lemma_scan_reaches(s, 0, 2);
    lemma_name_parses(s, quality_intervals(2), None);
}

proof fn lemma_table_entry_3()
    ensures
        spec_parse_chord_symbol(seq!['C'] + quality_name(3)) == Ok::<ChordModel, ChordFailure>(
            ChordModel { root: 0, intervals: quality_intervals(3), slash_bass: None, roman: None },
        ),
{
    let s = quality_name(3);
    assert(s == seq!['m', 'a', 'j', '7']);
    assert forall|j: int| 0 <= j < 3 implies !is_prefix(s, #[trigger] quality_name(j)) by {
        if j == 0 {
            assert(quality_name(0) == seq!['m', 'a', 'j', '1', '3']);
        } else if j == 1 {
            assert(quality_name(1) == seq!['m', 'a', 'j', '1', '1']);
        } else if j == 2 {
            assert(quality_name(2) == seq!['m', 'a', 'j', '9']);
            assert(s.subrange(0, 4)[3] != quality_name(2)[3]);
        }
    }
    assert(s.subrange(0, 4) =~= s);
    lemma_scan_reaches(s, 0, 3);
    lemma_name_parses(s, quality_intervals(3), None);
}

proof fn lemma_table_entry_4()
    ensures
        spec_parse_chord_symbol(seq!['C'] + quality_name(4)) == Ok::<ChordModel, ChordFailure>(
            ChordModel { root: 0, intervals: quality_intervals(4), slash_bass: None, roman: None },
        ),
{
    let s = quality_name(4);
    assert(s == seq!['m', 'i', 'n', '9']);
    assert forall|j: int| 0 <= j < 4 implies !is_prefix(s, #[trigger] quality_name(j)) by {
        if j == 0 {
            assert(quality_name(0) == seq!['m', 'a', 'j', '1', '3']);
        } else if j == 1 {
            assert(quality_name(1) == seq!['m', 'a', 'j', '1', '1']);
        } else if j == 2 {
            assert(quality_name(2) == seq!['m', 'a', 'j', '9']);
            assert(s.subrange(0, 4)[1] != quality_name(2)[1]);
        } else if j == 3 {
            assert(quality_name(3) == seq!['m', 'a', 'j', '7']);
            assert(s.subrange(0, 4)[1] != quality_name(3)[1]);
        }
    }
    assert(s.subrange(0, 4) =~= s);
    lemma_scan_reaches(s, 0, 4);
    lemma_name_parses(s, quality_intervals(4), None);
}

proof fn lemma_table_entry_5()
    ensures
        spec_parse_chord_symbol(seq!['C'] + quality_name(5)) == Ok::<ChordModel, ChordFailure>(
            ChordModel { root: 0, intervals: quality_intervals(5), slash_bass: None, roman: None },
        ),
{
    let s = quality_name(5);
    assert(s == seq!['m', 'i', 'n', '7']);
    assert forall|j: int| 0 <= j < 5 implies !is_prefix(s, #[trigger] quality_name(j)) by {
        if j == 0 {
            assert(quality_name(0) == seq!['m', 'a', 'j', '1', '3']);
        } else if j == 1 {
            assert(quality_name(1) == seq!['m', 'a', 'j', '1', '1']);
        } else if j == 2 {
            assert(quality_name(2) == seq!['m', 'a', 'j', '9']);
            assert(s.subrange(0, 4)[1] != quality_name(2)[1]);
        } else if j == 3 {
            assert(quality_name(3) == seq!['m', 'a', 'j', '7']);
            assert(s.subrange(0, 4)[1] != quality_name(3)[1]);
        } else if j == 4 {
            assert(quality_name(4) == seq!['m', 'i', 'n', '9']);
            assert(s.subrange(0, 4)[3] != quality_name(4)[3]);
        }
    }
    assert(s.subrange(0, 4) =~= s);
    lemma_scan_reaches(s, 0, 5);
    lemma_name_parses(s, quality_intervals(5), None);
}

proof fn lemma_table_entry_6()
    ensures
        spec_parse_chord_symbol(seq!['C'] + quality_name(6)) == Ok::<ChordModel, ChordFailure>(
            ChordModel { root: 0, intervals: quality_intervals(6), slash_bass: None, roman: None },
        ),
{
    let s = quality_name(6);
    assert(s == seq!['m', 'i', 'n']);
    assert forall|j: int| 0 <= j < 6 implies !is_prefix(s, #[trigger] quality_name(j)) by {
        if j == 0 {
            assert(quality_name(0) == seq!['m', 'a', 'j', '1', '3']);
        } else if j == 1 {
            assert(quality_name(1) == seq!['m', 'a', 'j', '1', '1']);
        } else if j == 2 {
            assert(quality_name(2) == seq!['m', 'a', 'j', '9']);
        } else if j == 3 {
            assert(quality_name(3) == seq!['m', 'a', 'j', '7']);
        } else if j == 4 {
            assert(quality_name(4) == seq!['m', 'i', 'n', '9']);
        } else if j == 5 {
            assert(quality_name(5) == seq!['m', 'i', 'n', '7']);
        }
    }
    assert(s.subrange(0, 3) =~= s);
    lemma_scan_reaches(s, 0, 6);
    lemma_name_parses(s, quality_intervals(6), None);
}

proof fn lemma_table_entry_7()
    ensures
        spec_parse_chord_symbol(seq!['C'] + quality_name(7)) == Ok::<ChordModel, ChordFailure>(
            ChordModel { root: 0, intervals: quality_intervals(7), slash_bass: None, roman: None },
        ),
{
    let s = quality_name(7);
    assert(s == seq!['m', 'M', 'a', 'j', '9']);
    assert forall|j: int| 0 <= j < 7 implies !is_prefix(s, #[trigger] quality_name(j)) by {
        if j == 0 {
            assert(quality_name(0) == seq!['m', 'a', 'j', '1', '3']);
            assert(s.subrange(0, 5)[1] != quality_name(0)[1]);
        } else if j == 1 {
            assert(quality_name(1) == seq!['m', 'a', 'j', '1', '1']);
            assert(s.subrange(0, 5)[1] != quality_name(1)[1]);
        } else if j == 2 {
            assert(quality_name(2) == seq!['m', 'a', 'j', '9']);
            assert(s.subrange(0, 4)[1] != quality_name(2)[1]);
        } else if j == 3 {
            assert(quality_name(3) == seq!['m', 'a', 'j', '7']);
            assert(s.subrange(0, 4)[1] != quality_name(3)[1]);
        } else if j == 4 {
            assert(quality_name(4) == seq!['m', 'i', 'n', '9']);
            assert(s.subrange(0, 4)[1] != quality_name(4)[1]);
        } else if j == 5 {
            assert(quality_name(5) == seq!['m', 'i', 'n', '7']);
            assert(s.subrange(0, 4)[1] != quality_name(5)[1]);
        } else if j == 6 {
            assert(quality_name(6) == seq!['m', 'i', 'n']);
            assert(s.subrange(0, 3)[1] != quality_name(6)[1]);
        }
    }
    assert(s.subrange(0, 5) =~= s);
    lemma_scan_reaches(s, 0, 7);
    lemma_name_parses(s, quality_intervals(7), None);
}

proof fn lemma_table_entry_8()
    ensures
        spec_parse_chord_symbol(seq!['C'] + quality_name(8)) == Ok::<ChordModel, ChordFailure>(
            ChordModel { root: 0, intervals: quality_intervals(8), slash_bass: None, roman: None },
        ),
{
    let s = quality_name(8);
    assert(s == seq!['m', 'M', 'a', 'j', '7']);
    assert forall|j: int| 0 <= j < 8 implies !is_prefix(s, #[trigger] quality_name(j)) by {
        if j == 0 {
            assert(quality_name(0) == seq!['m', 'a', 'j', '1', '3']);
            assert(s.subrange(0, 5)[1] != quality_name(0)[1]);
        } else if j == 1 {
            assert(quality_name(1) == seq!['m', 'a', 'j', '1', '1']);
            assert(s.subrange(0, 5)[1] != quality_name(1)[1]);
        } else if j == 2 {
            assert(quality_name(2) == seq!['m', 'a', 'j', '9']);
            assert(s.subrange(0, 4)[1] != quality_name(2)[1]);
        } else if j == 3 {
            assert(quality_name(3) == seq!['m', 'a', 'j', '7']);
            assert(s.subrange(0, 4)[1] != quality_name(3)[1]);
        } else if j == 4 {
            assert(quality_name(4) == seq!['m', 'i', 'n', '9']);
            assert(s.subrange(0, 4)[1] != quality_name(4)[1]);
        } else if j == 5 {
            assert(quality_name(5) == seq!['m', 'i', 'n', '7']);
            assert(s.subrange(0, 4)[1] != quality_name(5)[1]);
        } else if j == 6 {
            assert(quality_name(6) == seq!['m', 'i', 'n']);
            assert(s.subrange(0, 3)[1] != quality_name(6)[1]);
        } else if j == 7 {
            assert(quality_name(7) == seq!['m', 'M', 'a', 'j', '9']);
            assert(s.subrange(0, 5)[4] != quality_name(7)[4]);
        }
    }
    assert(s.subrange(0, 5) =~= s);
    lemma_scan_reaches(s, 0, 8);
    lemma_name_parses(s, quality_intervals(8), None);
}

proof fn lemma_table_entry_9()
    ensures
        spec_parse_chord_symbol(seq!['C'] + quality_name(9)) == Ok::<ChordModel, ChordFailure>(
            ChordModel { root: 0, intervals: quality_intervals(9), slash_bass: None, roman: None },
        ),
{
    let s = quality_name(9);
    assert(s == seq!['m', 'M', '9']);
    assert forall|j: int| 0 <= j < 9 implies !is_prefix(s, #[trigger] quality_name(j)) by {
        if j == 0 {
            assert(quality_name(0) == seq!['m', 'a', 'j', '1', '3']);
        } else if j == 1 {
            assert(quality_name(1) == seq!['m', 'a', 'j', '1', '1']);
        } else if j == 2 {
            assert(quality_name(2) == seq!['m', 'a', 'j', '9']);
        } else if j == 3 {
            assert(quality_name(3) == seq!['m', 'a', 'j', '7']);
        } else if j == 4 {
            assert(quality_name(4) == seq!['m', 'i', 'n', '9']);
        } else if j == 5 {
            assert(quality_name(5) == seq!['m', 'i', 'n', '7']);
        } else if j == 6 {
            assert(quality_name(6) == seq!['m', 'i', 'n']);
            assert(s.subrange(0, 3)[1] != quality_name(6)[1]);
        } else if j == 7 {
            assert(quality_name(7) == seq!['m', 'M', 'a', 'j', '9']);
        } else if j == 8 {
            assert(quality_name(8) == seq!['m', 'M', 'a', 'j', '7']);
        }
    }
    assert(s.subrange(0, 3) =~= s);
    lemma_scan_reaches(s, 0, 9);
    lemma_name_parses(s, quality_intervals(9), None);
}

proof fn lemma_table_entry_10()
    ensures
        spec_parse_chord_symbol(seq!['C'] + quality_name(10)) == Ok::<ChordModel, ChordFailure>(
            ChordModel { root: 0, intervals: quality_intervals(10), slash_bass: None, roman: None },
        ),
{
    let s = quality_name(10);
    assert(s == seq!['m', 'M', '7']);
    assert forall|j: int| 0 <= j < 10 implies !is_prefix(s, #[trigger] quality_name(j)) by {
        if j == 0 {
            assert(quality_name(0) == seq!['m', 'a', 'j', '1', '3']);
        } else if j == 1 {
            assert(quality_name(1) == seq!['m', 'a', 'j', '1', '1']);
        } else if j == 2 {
            assert(quality_name(2) == seq!['m', 'a', 'j', '9']);
        } else if j == 3 {
            assert(quality_name(3) == seq!['m', 'a', 'j', '7']);
        } else if j == 4 {
            assert(quality_name(4) == seq!['m', 'i', 'n', '9']);
        } else if j == 5 {
            assert(quality_name(5) == seq!['m', 'i', 'n', '7']);
        } else if j == 6 {
            assert(quality_name(6) == seq!['m', 'i', 'n']);
            assert(s.subrange(0, 3)[1] != quality_name(6)[1]);
        } else if j == 7 {
            assert(quality_name(7) == seq!['m', 'M', 'a', 'j', '9']);
        } else if j == 8 {
            assert(quality_name(8) == seq!['m', 'M', 'a', 'j', '7']);
        } else if j == 9 {
            assert(quality_name(9) == seq!['m', 'M', '9']);
            assert(s.subrange(0, 3)[2] != quality_name(9)[2]);
        }
    }
    assert(s.subrange(0, 3) =~= s);
    lemma_scan_reaches(s, 0, 10);
    lemma_name_parses(s, quality_intervals(10), None);
}

proof fn lemma_table_entry_11()
    ensures
        spec_parse_chord_symbol(seq!['C'] + quality_name(11)) == Ok::<ChordModel, ChordFailure>(
            ChordModel { root: 0, intervals: quality_intervals(11), slash_bass: None, roman: None },
        ),
{
    let s = quality_name(11);
    assert(s == seq!['m', '7', 'b', '5']);
    assert forall|j: int| 0 <= j < 11 implies !is_prefix(s, #[trigger] quality_name(j)) by {
        if j == 0 {
            assert(quality_name(0) == seq!['m', 'a', 'j', '1', '3']);
        } else if j == 1 {
            assert(quality_name(1) == seq!['m', 'a', 'j', '1', '1']);
        } else if j == 2 {
            assert(quality_name(2) == seq!['m', 'a', 'j', '9']);
            assert(s.subrange(0, 4)[1] != quality_name(2)[1]);
        } else if j == 3 {
            assert(quality_name(3) == seq!['m', 'a', 'j', '7']);
            assert(s.subrange(0, 4)[1] != quality_name(3)[1]);
        } else if j == 4 {
            assert(quality_name(4) == seq!['m', 'i', 'n', '9']);
            assert(s.subrange(0, 4)[1] != quality_name(4)[1]);
        } else if j == 5 {
            assert(quality_name(5) == seq!['m', 'i', 'n', '7']);
            assert(s.subrange(0, 4)[1] != quality_name(5)[1]);
        } else if j == 6 {
            assert(quality_name(6) == seq!['m', 'i', 'n']);
            assert(s.subrange(0, 3)[1] != quality_name(6)[1]);
        } else if j == 7 {
            assert(quality_name(7) == seq!['m', 'M', 'a', 'j', '9']);
        } else if j == 8 {
            assert(quality_name(8) == seq!['m', 'M', 'a', 'j', '7']);
        } else if j == 9 {
            assert(quality_name(9) == seq!['m', 'M', '9']);
            assert(s.subrange(0, 3)[1] != quality_name(9)[1]);
        } else if j == 10 {
            assert(quality_name(10) == seq!['m', 'M', '7']);
            assert(s.subrange(0, 3)[1] != quality_name(10)[1]);
        }
    }
    assert(s.subrange(0, 4) =~= s);
    lemma_scan_reaches(s, 0, 11);
    lemma_name_parses(s, quality_intervals(11), None);
}

proof fn lemma_table_entry_12()
    ensures
        spec_parse_chord_symbol(seq!['C'] + quality_name(12)) == Ok::<ChordModel, ChordFailure>(
            ChordModel { root: 0, intervals: quality_intervals(12), slash_bass: None, roman: None },
        ),
{
    let s = quality_name(12);
    assert(s == seq!['m', '(', 'a', 'd', 'd', '9', ')']);
    assert forall|j: int| 0 <= j < 12 implies !is_prefix(s, #[trigger] quality_name(j)) by {
        if j == 0 {
            assert(quality_name(0) == seq!['m', 'a', 'j', '1', '3']);
            assert(s.subrange(0, 5)[1] != quality_name(0)[1]);
        } else if j == 1 {
            assert(quality_name(1) == seq!['m', 'a', 'j', '1', '1']);
            assert(s.subrange(0, 5)[1] != quality_name(1)[1]);
        } else if j == 2 {
            assert(quality_name(2) == seq!['m', 'a', 'j', '9']);
            assert(s.subrange(0, 4)[1] != quality_name(2)[1]);
        } else if j == 3 {
            assert(quality_name(3) == seq!['m', 'a', 'j', '7']);
            assert(s.subrange(0, 4)[1] != quality_name(3)[1]);
        } else if j == 4 {
            assert(quality_name(4) == seq!['m', 'i', 'n', '9']);
            assert(s.subrange(0, 4)[1] != quality_name(4)[1]);
        } else if j == 5 {
            assert(quality_name(5) == seq!['m', 'i', 'n', '7']);
            assert(s.subrange(0, 4)[1] != quality_name(5)[1]);
        } else if j == 6 {
            assert(quality_name(6) == seq!['m', 'i', 'n']);
            assert(s.subrange(0, 3)[1] != quality_name(6)[1]);
        } else if j == 7 {
            assert(quality_name(7) == seq!['m', 'M', 'a', 'j', '9']);
            assert(s.subrange(0, 5)[1] != quality_name(7)[1]);
        } else if j == 8 {
            assert(quality_name(8) == seq!['m', 'M', 'a', 'j', '7']);
            assert(s.subrange(0, 5)[1] != quality_name(8)[1]);
        } else if j == 9 {
            assert(quality_name(9) == seq!['m', 'M', '9']);
            assert(s.subrange(0, 3)[1] != quality_name(9)[1]);
        } else if j == 10 {
            assert(quality_name(10) == seq!['m', 'M', '7']);
            assert(s.subrange(0, 3)[1] != quality_name(10)[1]);
        } else if j == 11 {
            assert(quality_name(11) == seq!['m', '7', 'b', '5']);
            assert(s.subrange(0, 4)[1] != quality_name(11)[1]);
        }
    }
    assert(s.subrange(0, 7) =~= s);
    lemma_scan_reaches(s, 0, 12);
    lemma_name_parses(s, quality_intervals(12), None);
}

proof fn lemma_table_entry_13()
    ensures
        spec_parse_chord_symbol(seq!['C'] + quality_name(13)) == Ok::<ChordModel, ChordFailure>(
            ChordModel { root: 0, intervals: quality_intervals(13), slash_bass: None, roman: None },
        ),
{
    let s = quality_name(13);
    assert(s == seq!['m', 'a', 'd', 'd', '9']);
    assert forall|j: int| 0 <= j < 13 implies !is_prefix(s, #[trigger] quality_name(j)) by {
        if j == 0 {
            assert(quality_name(0) == seq!['m', 'a', 'j', '1', '3']);
            assert(s.subrange(0, 5)[2] != quality_name(0)[2]);
        } else if j == 1 {
            assert(quality_name(1) == seq!['m', 'a', 'j', '1', '1']);
            assert(s.subrange(0, 5)[2] != quality_name(1)[2]);
        } else if j == 2 {
            assert(quality_name(2) == seq!['m', 'a', 'j', '9']);
            assert(s.subrange(0, 4)[2] != quality_name(2)[2]);
        } else if j == 3 {
            assert(quality_name(3) == seq!['m', 'a', 'j', '7']);
            assert(s.subrange(0, 4)[2] != quality_name(3)[2]);
        } else if j == 4 {
            assert(quality_name(4) == seq!['m', 'i', 'n', '9']);
            assert(s.subrange(0, 4)[1] != quality_name(4)[1]);
        } else if j == 5 {
            assert(quality_name(5) == seq!['m', 'i', 'n', '7']);
            assert(s.subrange(0, 4)[1] != quality_name(5)[1]);
        } else if j == 6 {
            assert(quality_name(6) == seq!['m', 'i', 'n']);
            assert(s.subrange(0, 3)[1] != quality_name(6)[1]);
        } else if j == 7 {
            assert(quality_name(7) == seq!['m', 'M', 'a', 'j', '9']);
            assert(s.subrange(0, 5)[1] != quality_name(7)[1]);
        } else if j == 8 {
            assert(quality_name(8) == seq!['m', 'M', 'a', 'j', '7']);
            assert(s.subrange(0, 5)[1] != quality_name(8)[1]);
        } else if j == 9 {
            assert(quality_name(9) == seq!['m', 'M', '9']);
            assert(s.subrange(0, 3)[1] != quality_name(9)[1]);
        } else if j == 10 {
            assert(quality_name(10) == seq!['m', 'M', '7']);
            assert(s.subrange(0, 3)[1] != quality_name(10)[1]);
        } else if j == 11 {
            assert(quality_name(11) == seq!['m', '7', 'b', '5']);
            assert(s.subrange(0, 4)[1] != quality_name(11)[1]);
        } else if j == 12 {
            assert(quality_name(12) == seq!['m', '(', 'a', 'd', 'd', '9', ')']);
        }
    }
    assert(s.subrange(0, 5) =~= s);
    lemma_scan_reaches(s, 0, 13);
    lemma_name_parses(s, quality_intervals(13), None);
}

proof fn lemma_table_entry_14()
    ensures
        spec_parse_chord_symbol(seq!['C'] + quality_name(14)) == Ok::<ChordModel, ChordFailure>(
            ChordModel { root: 0, intervals: quality_intervals(14), slash_bass: None, roman: None },
        ),
{
    let s = quality_name(14);
    assert(s == seq!['m', '1', '3']);
    assert forall|j: int| 0 <= j < 14 implies !is_prefix(s, #[trigger] quality_name(j)) by {
        if j == 0 {
            assert(quality_name(0) == seq!['m', 'a', 'j', '1', '3']);
        } else if j == 1 {
            assert(quality_name(1) == seq!['m', 'a', 'j', '1', '1']);
        } else if j == 2 {
            assert(quality_name(2) == seq!['m', 'a', 'j', '9']);
        } else if j == 3 {
            assert(quality_name(3) == seq!['m', 'a', 'j', '7']);
        } else if j == 4 {
            assert(quality_name(4) == seq!['m', 'i', 'n', '9']);
        } else if j == 5 {
            assert(quality_name(5) == seq!['m', 'i', 'n', '7']);
        } else if j == 6 {
            assert(quality_name(6) == seq!['m', 'i', 'n']);
            assert(s.subrange(0, 3)[1] != quality_name(6)[1]);
        } else if j == 7 {
            assert(quality_name(7) == seq!['m', 'M', 'a', 'j', '9']);
        } else if j == 8 {
            assert(quality_name(8) == seq!['m', 'M', 'a', 'j', '7']);
        } else if j == 9 {
            assert(quality_name(9) == seq!['m', 'M', '9']);
            assert(s.subrange(0, 3)[1] != quality_name(9)[1]);
        } else if j == 10 {
            assert(quality_name(10) == seq!['m', 'M', '7']);
            assert(s.subrange(0, 3)[1] != quality_name(10)[1]);
        } else if j == 11 {
            assert(quality_name(11) == seq!['m', '7', 'b', '5']);
        } else if j == 12 {
            assert(quality_name(12) == seq!['m', '(', 'a', 'd', 'd', '9', ')']);
        } else if j == 13 {
            assert(quality_name(13) == seq!['m', 'a', 'd', 'd', '9']);
        }
    }
    assert(s.subrange(0, 3) =~= s);
    lemma_scan_reaches(s, 0, 14);
    lemma_name_parses(s, quality_intervals(14), None);
}

proof fn lemma_table_entry_15()
    ensures
        spec_parse_chord_symbol(seq!['C'] + quality_name(15)) == Ok::<ChordModel, ChordFailure>(
            ChordModel { root: 0, intervals: quality_intervals(15), slash_bass: None, roman: None },
        ),
{
    let s = quality_name(15);
    assert(s == seq!['m', '1', '1']);
    assert forall|j: int| 0 <= j < 15 implies !is_prefix(s, #[trigger] quality_name(j)) by {
        if j == 0 {
            assert(quality_name(0) == seq!['m', 'a', 'j', '1', '3']);
        } else if j == 1 {
            assert(quality_name(1) == seq!['m', 'a', 'j', '1', '1']);
        } else if j == 2 {
            assert(quality_name(2) == seq!['m', 'a', 'j', '9']);
        } else if j == 3 {
            assert(quality_name(3) == seq!['m', 'a', 'j', '7']);
        } else if j == 4 {
            assert(quality_name(4) == seq!['m', 'i', 'n', '9']);
        } else if j == 5 {
            assert(quality_name(5) == seq!['m', 'i', 'n', '7']);
        } else if j == 6 {
            assert(quality_name(6) == seq!['m', 'i', 'n']);
            assert(s.subrange(0, 3)[1] != quality_name(6)[1]);
        } else if j == 7 {
            assert(quality_name(7) == seq!['m', 'M', 'a', 'j', '9']);
        } else if j == 8 {
            assert(quality_name(8) == seq!['m', 'M', 'a', 'j', '7']);
        } else if j == 9 {
            assert(quality_name(9) == seq!['m', 'M', '9']);
            assert(s.subrange(0, 3)[1] != quality_name(9)[1]);
        } else if j == 10 {
            assert(quality_name(10) == seq!['m', 'M', '7']);
            assert(s.subrange(0, 3)[1] != quality_name(10)[1]);
        } else if j == 11 {
            assert(quality_name(11) == seq!['m', '7', 'b', '5']);
        } else if j == 12 {
            assert(quality_name(12) == seq!['m', '(', 'a', 'd', 'd', '9', ')']);
        } else if j == 13 {
            assert(quality_name(13) == seq!['m', 'a', 'd', 'd', '9']);
        } else if j == 14 {
            assert(quality_name(14) == seq!['m', '1', '3']);
            assert(s.subrange(0, 3)[2] != quality_name(14)[2]);
        }
    }
    assert(s.subrange(0, 3) =~= s);
    lemma_scan_reaches(s, 0, 15);
    lemma_name_parses(s, quality_intervals(15), None);
}

proof fn lemma_table_entry_16()
    ensures
        spec_parse_chord_symbol(seq!['C'] + quality_name(16)) == Ok::<ChordModel, ChordFailure>(
            ChordModel { root: 0, intervals: quality_intervals(16), slash_bass: None, roman: None },
        ),
{
    let s = quality_name(16);
    assert(s == seq!['m', '9']);
    assert forall|j: int| 0 <= j < 16 implies !is_prefix(s, #[trigger] quality_name(j)) by {
        if j == 0 {
            assert(quality_name(0) == seq!['m', 'a', 'j', '1', '3']);
        } else if j == 1 {
            assert(quality_name(1) == seq!['m', 'a', 'j', '1', '1']);
        } else if j == 2 {
            assert(quality_name(2) == seq!['m', 'a', 'j', '9']);
        } else if j == 3 {
            assert(quality_name(3) == seq!['m', 'a', 'j', '7']);
        } else if j == 4 {
            assert(quality_name(4) == seq!['m', 'i', 'n', '9']);
        } else if j == 5 {
            assert(quality_name(5) == seq!['m', 'i', 'n', '7']);
        } else if j == 6 {
            assert(quality_name(6) == seq!['m', 'i', 'n']);
        } else if j == 7 {
            assert(quality_name(7) == seq!['m', 'M', 'a', 'j', '9']);
        } else if j == 8 {
            assert(quality_name(8) == seq!['m', 'M', 'a', 'j', '7']);
        } else if j == 9 {
            assert(quality_name(9) == seq!['m', 'M', '9']);
        } else if j == 10 {
            assert(quality_name(10) == seq!['m', 'M', '7']);
        } else if j == 11 {
            assert(quality_name(11) == seq!['m', '7', 'b', '5']);
        } else if j == 12 {
            assert(quality_name(12) == seq!['m', '(', 'a', 'd', 'd', '9', ')']);
        } else if j == 13 {
            assert(quality_name(13) == seq!['m', 'a', 'd', 'd', '9']);
        } else if j == 14 {
            assert(quality_name(14) == seq!['m', '1', '3']);
        } else if j == 15 {
            assert(quality_name(15) == seq!['m', '1', '1']);
        }
    }
    assert(s.subrange(0, 2) =~= s);
    lemma_scan_reaches(s, 0, 16);
    lemma_name_parses(s, quality_intervals(16), None);
}

proof fn lemma_table_entry_17()
    ensures
        spec_parse_chord_symbol(seq!['C'] + quality_name(17)) == Ok::<ChordModel, ChordFailure>(
            ChordModel { root: 0, intervals: quality_intervals(17), slash_bass: None, roman: None },
        ),
{
    let s = quality_name(17);
    assert(s == seq!['m', '7']);
    assert forall|j: int| 0 <= j < 17 implies !is_prefix(s, #[trigger] quality_name(j)) by {
        if j == 0 {
            assert(quality_name(0) == seq!['m', 'a', 'j', '1', '3']);
        } else if j == 1 {
            assert(quality_name(1) == seq!['m', 'a', 'j', '1', '1']);
        } else if j == 2 {
            assert(quality_name(2) == seq!['m', 'a', 'j', '9']);
        } else if j == 3 {
            assert(quality_name(3) == seq!['m', 'a', 'j', '7']);
        } else if j == 4 {
            assert(quality_name(4) == seq!['m', 'i', 'n', '9']);
        } else if j == 5 {
            assert(quality_name(5) == seq!['m', 'i', 'n', '7']);
        } else if j == 6 {
            assert(quality_name(6) == seq!['m', 'i', 'n']);
        } else if j == 7 {
            assert(quality_name(7) == seq!['m', 'M', 'a', 'j', '9']);
        } else if j == 8 {
            assert(quality_name(8) == seq!['m', 'M', 'a', 'j', '7']);
        } else if j == 9 {
            assert(quality_name(9) == seq!['m', 'M', '9']);
        } else if j == 10 {
            assert(quality_name(10) == seq!['m', 'M', '7']);
        } else if j == 11 {
            assert(quality_name(11) == seq!['m', '7', 'b', '5']);
        } else if j == 12 {
            assert(quality_name(12) == seq!['m', '(', 'a', 'd', 'd', '9', ')']);
        } else if j == 13 {
            assert(quality_name(13) == seq!['m', 'a', 'd', 'd', '9']);
        } else if j == 14 {
            assert(quality_name(14) == seq!['m', '1', '3']);
        } else if j == 15 {
            assert(quality_name(15) == seq!['m', '1', '1']);
        } else if j == 16 {
            assert(quality_name(16) == seq!['m', '9']);
            assert(s.subrange(0, 2)[1] != quality_name(16)[1]);
        }
    }
    assert(s.subrange(0, 2) =~= s);
    lemma_scan_reaches(s, 0, 17);
    lemma_name_parses(s, quality_intervals(17), None);
}

proof fn lemma_table_entry_18()
    ensures
        spec_parse_chord_symbol(seq!['C'] + quality_name(18)) == Ok::<ChordModel, ChordFailure>(
            ChordModel { root: 0, intervals: quality_intervals(18), slash_bass: None, roman: None },
        ),
{
    let s = quality_name(18);
    assert(s == seq!['m', '6', '/', '9']);
    assert forall|j: int| 0 <= j < 18 implies !is_prefix(s, #[trigger] quality_name(j)) by {
        if j == 0 {
            assert(quality_name(0) == seq!['m', 'a', 'j', '1', '3']);
        } else if j == 1 {
            assert(quality_name(1) == seq!['m', 'a', 'j', '1', '1']);
        } else if j == 2 {
            assert(quality_name(2) == seq!['m', 'a', 'j', '9']);
            assert(s.subrange(0, 4)[1] != quality_name(2)[1]);
        } else if j == 3 {
            assert(quality_name(3) == seq!['m', 'a', 'j', '7']);
            assert(s.subrange(0, 4)[1] != quality_name(3)[1]);
        } else if j == 4 {
            assert(quality_name(4) == seq!['m', 'i', 'n', '9']);
            assert(s.subrange(0, 4)[1] != quality_name(4)[1]);
        } else if j == 5 {
            assert(quality_name(5) == seq!['m', 'i', 'n', '7']);
            assert(s.subrange(0, 4)[1] != quality_name(5)[1]);
        } else if j == 6 {
            assert(quality_name(6) == seq!['m', 'i', 'n']);
            assert(s.subrange(0, 3)[1] != quality_name(6)[1]);
        } else if j == 7 {
            assert(quality_name(7) == seq!['m', 'M', 'a', 'j', '9']);
        } else if j == 8 {
            assert(quality_name(8) == seq!['m', 'M', 'a', 'j', '7']);
        } else if j == 9 {
            assert(quality_name(9) == seq!['m', 'M', '9']);
            assert(s.subrange(0, 3)[1] != quality_name(9)[1]);
        } else if j == 10 {
            assert(quality_name(10) == seq!['m', 'M', '7']);
            assert(s.subrange(0, 3)[1] != quality_name(10)[1]);
        } else if j == 11 {
            assert(quality_name(11) == seq!['m', '7', 'b', '5']);
            assert(s.subrange(0, 4)[1] != quality_name(11)[1]);
        } else if j == 12 {
            assert(quality_name(12) == seq!['m', '(', 'a', 'd', 'd', '9', ')']);
        } else if j == 13 {
            assert(quality_name(13) == seq!['m', 'a', 'd', 'd', '9']);
        } else if j == 14 {
            assert(quality_name(14) == seq!['m', '1', '3']);
            assert(s.subrange(0, 3)[1] != quality_name(14)[1]);
        } else if j == 15 {
            assert(quality_name(15) == seq!['m', '1', '1']);
            assert(s.subrange(0, 3)[1] != quality_name(15)[1]);
        } else if j == 16 {
            assert(quality_name(16) == seq!['m', '9']);
            assert(s.subrange(0, 2)[1] != quality_name(16)[1]);
        } else if j == 17 {
            assert(quality_name(17) == seq!['m', '7']);
            assert(s.subrange(0, 2)[1] != quality_name(17)[1]);
        }
    }
    assert(s.subrange(0, 4) =~= s);
    lemma_scan_reaches(s, 0, 18);
    assert(s.skip(3) =~= seq!['9']);
    lemma_name_parses(s, quality_intervals(18), Some(2));
}

proof fn lemma_table_entry_19()
    ensures
        spec_parse_chord_symbol(seq!['C'] + quality_name(19)) == Ok::<ChordModel, ChordFailure>(
            ChordModel { root: 0, intervals: quality_intervals(19), slash_bass: None, roman: None },
        ),
{
    let s = quality_name(19);
    assert(s == seq!['m', '6']);
    assert forall|j: int| 0 <= j < 19 implies !is_prefix(s, #[trigger] quality_name(j)) by {
        if j == 0 {
            assert(quality_name(0) == seq!['m', 'a', 'j', '1', '3']);
        } else if j == 1 {
            assert(quality_name(1) == seq!['m', 'a', 'j', '1', '1']);
        } else if j == 2 {
            assert(quality_name(2) == seq!['m', 'a', 'j', '9']);
        } else if j == 3 {
            assert(quality_name(3) == seq!['m', 'a', 'j', '7']);
        } else if j == 4 {
            assert(quality_name(4) == seq!['m', 'i', 'n', '9']);
        } else if j == 5 {
            assert(quality_name(5) == seq!['m', 'i', 'n', '7']);
        } else if j == 6 {
            assert(quality_name(6) == seq!['m', 'i', 'n']);
        } else if j == 7 {
            assert(quality_name(7) == seq!['m', 'M', 'a', 'j', '9']);
        } else if j == 8 {
            assert(quality_name(8) == seq!['m', 'M', 'a', 'j', '7']);
        } else if j == 9 {
            assert(quality_name(9) == seq!['m', 'M', '9']);
        } else if j == 10 {
            assert(quality_name(10) == seq!['m', 'M', '7']);
        } else if j == 11 {
            assert(quality_name(11) == seq!['m', '7', 'b', '5']);
        } else if j == 12 {
            assert(quality_name(12) == seq!['m', '(', 'a', 'd', 'd', '9', ')']);
        } else if j == 13 {
            assert(quality_name(13) == seq!['m', 'a', 'd', 'd', '9']);
        } else if j == 14 {
            assert(quality_name(14) == seq!['m', '1', '3']);
        } else if j == 15 {
            assert(quality_name(15) == seq!['m', '1', '1']);
        } else if j == 16 {
            assert(quality_name(16) == seq!['m', '9']);
            assert(s.subrange(0, 2)[1] != quality_name(16)[1]);
        } else if j == 17 {
            assert(quality_name(17) == seq!['m', '7']);
            assert(s.subrange(0, 2)[1] != quality_name(17)[1]);
        } else if j == 18 {
            assert(quality_name(18) == seq!['m', '6', '/', '9']);
        }
    }
    assert(s.subrange(0, 2) =~= s);
    lemma_scan_reaches(s, 0, 19);
    lemma_name_parses(s, quality_intervals(19), None);
}

proof fn lemma_table_entry_20()
    ensures
        spec_parse_chord_symbol(seq!['C'] + quality_name(20)) == Ok::<ChordModel, ChordFailure>(
            ChordModel { root: 0, intervals: quality_intervals(20), slash_bass: None, roman: None },
        ),
{
    let s = quality_name(20);
    assert(s == seq!['m']);
    assert forall|j: int| 0 <= j < 20 implies !is_prefix(s, #[trigger] quality_name(j)) by {
        if j == 0 {
            assert(quality_name(0) == seq!['m', 'a', 'j', '1', '3']);
        } else if j == 1 {
            assert(quality_name(1) == seq!['m', 'a', 'j', '1', '1']);
        } else if j == 2 {
            assert(quality_name(2) == seq!['m', 'a', 'j', '9']);
        } else if j == 3 {
            assert(quality_name(3) == seq!['m', 'a', 'j', '7']);
        } else if j == 4 {
            assert(quality_name(4) == seq!['m', 'i', 'n', '9']);
        } else if j == 5 {
            assert(quality_name(5) == seq!['m', 'i', 'n', '7']);
        } else if j == 6 {
            assert(quality_name(6) == seq!['m', 'i', 'n']);
        } else if j == 7 {
            assert(quality_name(7) == seq!['m', 'M', 'a', 'j', '9']);
        } else if j == 8 {
            assert(quality_name(8) == seq!['m', 'M', 'a', 'j', '7']);
        } else if j == 9 {
            assert(quality_name(9) == seq!['m', 'M', '9']);
        } else if j == 10 {
            assert(quality_name(10) == seq!['m', 'M', '7']);
        } else if j == 11 {
            assert(quality_name(11) == seq!['m', '7', 'b', '5']);
        } else if j == 12 {
            assert(quality_name(12) == seq!['m', '(', 'a', 'd', 'd', '9', ')']);
        } else if j == 13 {
            assert(quality_name(13) == seq!['m', 'a', 'd', 'd', '9']);
        } else if j == 14 {
            assert(quality_name(14) == seq!['m', '1', '3']);
        } else if j == 15 {
            assert(quality_name(15) == seq!['m', '1', '1']);
        } else if j == 16 {
            assert(quality_name(16) == seq!['m', '9']);
        } else if j == 17 {
            assert(quality_name(17) == seq!['m', '7']);
        } else if j == 18 {
            assert(quality_name(18) == seq!['m', '6', '/', '9']);
        } else if j == 19 {
            assert(quality_name(19) == seq!['m', '6']);
        }
    }
    assert(s.subrange(0, 1) =~= s);
    lemma_scan_reaches(s, 0, 20);
    lemma_name_parses(s, quality_intervals(20), None);
}

proof fn lemma_table_entry_21()
    ensures
        spec_parse_chord_symbol(seq!['C'] + quality_name(21)) == Ok::<ChordModel, ChordFailure>(
            ChordModel { root: 0, intervals: quality_intervals(21), slash_bass: None, roman: None },
        ),
{
    let s = quality_name(21);
    assert(s == seq!['M', '9']);
    assert forall|j: int| 0 <= j < 21 implies !is_prefix(s, #[trigger] quality_name(j)) by {
        if j == 0 {
            assert(quality_name(0) == seq!['m', 'a', 'j', '1', '3']);
        } else if j == 1 {
            assert(quality_name(1) == seq!['m', 'a', 'j', '1', '1']);
        } else if j == 2 {
            assert(quality_name(2) == seq!['m', 'a', 'j', '9']);
        } else if j == 3 {
            assert(quality_name(3) == seq!['m', 'a', 'j', '7']);
        } else if j == 4 {
            assert(quality_name(4) == seq!['m', 'i', 'n', '9']);
        } else if j == 5 {
            assert(quality_name(5) == seq!['m', 'i', 'n', '7']);
        } else if j == 6 {
            assert(quality_name(6) == seq!['m', 'i', 'n']);
        } else if j == 7 {
            assert(quality_name(7) == seq!['m', 'M', 'a', 'j', '9']);
        } else if j == 8 {
            assert(quality_name(8) == seq!['m', 'M', 'a', 'j', '7']);
        } else if j == 9 {
            assert(quality_name(9) == seq!['m', 'M', '9']);
        } else if j == 10 {
            assert(quality_name(10) == seq!['m', 'M', '7']);
        } else if j == 11 {
            assert(quality_name(11) == seq!['m', '7', 'b', '5']);
        } else if j == 12 {
            assert(quality_name(12) == seq!['m', '(', 'a', 'd', 'd', '9', ')']);
        } else if j == 13 {
            assert(quality_name(13) == seq!['m', 'a', 'd', 'd', '9']);
        } else if j == 14 {
            assert(quality_name(14) == seq!['m', '1', '3']);
        } else if j == 15 {
            assert(quality_name(15) == seq!['m', '1', '1']);
        } else if j == 16 {
            assert(quality_name(16) == seq!['m', '9']);
            assert(s.subrange(0, 2)[0] != quality_name(16)[0]);
        } else if j == 17 {
            assert(quality_name(17) == seq!['m', '7']);
            assert(s.subrange(0, 2)[0] != quality_name(17)[0]);
        } else if j == 18 {
            assert(quality_name(18) == seq!['m', '6', '/', '9']);
        } else if j == 19 {
            assert(quality_name(19) == seq!['m', '6']);
            assert(s.subrange(0, 2)[0] != quality_name(19)[0]);
        } else if j == 20 {
            assert(quality_name(20) == seq!['m']);
            assert(s.subrange(0, 1)[0] != quality_name(20)[0]);
        }
    }
    assert(s.subrange(0, 2) =~= s);
    lemma_scan_reaches(s, 0, 21);
    lemma_name_parses(s, quality_intervals(21), None);
}

proof fn lemma_table_entry_22()
    ensures
        spec_parse_chord_symbol(seq!['C'] + quality_name(22)) == Ok::<ChordModel, ChordFailure>(
            ChordModel { root: 0, intervals: quality_intervals(22), slash_bass: None, roman: None },
        ),
{
    let s = quality_name(22);
    assert(s == seq!['M', '7']);
    assert forall|j: int| 0 <= j < 22 implies !is_prefix(s, #[trigger] quality_name(j)) by {
        if j == 0 {
            assert(quality_name(0) == seq!['m', 'a', 'j', '1', '3']);
        } else if j == 1 {
            assert(quality_name(1) == seq!['m', 'a', 'j', '1', '1']);
        } else if j == 2 {
            assert(quality_name(2) == seq!['m', 'a', 'j', '9']);
        } else if j == 3 {
            assert(quality_name(3) == seq!['m', 'a', 'j', '7']);
        } else if j == 4 {
            assert(quality_name(4) == seq!['m', 'i', 'n', '9']);
        } else if j == 5 {
            assert(quality_name(5) == seq!['m', 'i', 'n', '7']);
        } else if j == 6 {
            assert(quality_name(6) == seq!['m', 'i', 'n']);
        } else if j == 7 {
            assert(quality_name(7) == seq!['m', 'M', 'a', 'j', '9']);
        } else if j == 8 {
            assert(quality_name(8) == seq!['m', 'M', 'a', 'j', '7']);
        } else if j == 9 {
            assert(quality_name(9) == seq!['m', 'M', '9']);
        } else if j == 10 {
            assert(quality_name(10) == seq!['m', 'M', '7']);
        } else if j == 11 {
            assert(quality_name(11) == seq!['m', '7', 'b', '5']);
        } else if j == 12 {
            assert(quality_name(12) == seq!['m', '(', 'a', 'd', 'd', '9', ')']);
        } else if j == 13 {
            assert(quality_name(13) == seq!['m', 'a', 'd', 'd', '9']);
        } else if j == 14 {
            assert(quality_name(14) == seq!['m', '1', '3']);
        } else if j == 15 {
            assert(quality_name(15) == seq!['m', '1', '1']);
        } else if j == 16 {
            assert(quality_name(16) == seq!['m', '9']);
            assert(s.subrange(0, 2)[0] != quality_name(16)[0]);
        } else if j == 17 {
            assert(quality_name(17) == seq!['m', '7']);
            assert(s.subrange(0, 2)[0] != quality_name(17)[0]);
        } else if j == 18 {
            assert(quality_name(18) == seq!['m', '6', '/', '9']);
        } else if j == 19 {
            assert(quality_name(19) == seq!['m', '6']);
            assert(s.subrange(0, 2)[0] != quality_name(19)[0]);
        } else if j == 20 {
            assert(quality_name(20) == seq!['m']);
            assert(s.subrange(0, 1)[0] != quality_name(20)[0]);
        } else if j == 21 {
            assert(quality_name(21) == seq!['M', '9']);
            assert(s.subrange(0, 2)[1] != quality_name(21)[1]);
        }
    }
    assert(s.subrange(0, 2) =~= s);
    lemma_scan_reaches(s, 0, 22);
    lemma_name_parses(s, quality_intervals(22), None);
}

proof fn lemma_table_entry_23()
    ensures
        spec_parse_chord_symbol(seq!['C'] + quality_name(23)) == Ok::<ChordModel, ChordFailure>(
            ChordModel { root: 0, intervals: quality_intervals(23), slash_bass: None, roman: None },
        ),
{
    let s = quality_name(23);
    assert(s == seq!['a', 'd', 'd', '1', '1']);
    assert forall|j: int| 0 <= j < 23 implies !is_prefix(s, #[trigger] quality_name(j)) by {
        if j == 0 {
            assert(quality_name(0) == seq!['m', 'a', 'j', '1', '3']);
            assert(s.subrange(0, 5)[0] != quality_name(0)[0]);
        } else if j == 1 {
            assert(quality_name(1) == seq!['m', 'a', 'j', '1', '1']);
            assert(s.subrange(0, 5)[0] != quality_name(1)[0]);
        } else if j == 2 {
            assert(quality_name(2) == seq!['m', 'a', 'j', '9']);
            assert(s.subrange(0, 4)[0] != quality_name(2)[0]);
        } else if j == 3 {
            assert(quality_name(3) == seq!['m', 'a', 'j', '7']);
            assert(s.subrange(0, 4)[0] != quality_name(3)[0]);
        } else if j == 4 {
            assert(quality_name(4) == seq!['m', 'i', 'n', '9']);
            assert(s.subrange(0, 4)[0] != quality_name(4)[0]);
        } else if j == 5 {
            assert(quality_name(5) == seq!['m', 'i', 'n', '7']);
            assert(s.subrange(0, 4)[0] != quality_name(5)[0]);
        } else if j == 6 {
            assert(quality_name(6) == seq!['m', 'i', 'n']);
            assert(s.subrange(0, 3)[0] != quality_name(6)[0]);
        } else if j == 7 {
            assert(quality_name(7) == seq!['m', 'M', 'a', 'j', '9']);
            assert(s.subrange(0, 5)[0] != quality_name(7)[0]);
        } else if j == 8 {
            assert(quality_name(8) == seq!['m', 'M', 'a', 'j', '7']);
            assert(s.subrange(0, 5)[0] != quality_name(8)[0]);
        } else if j == 9 {
            assert(quality_name(9) == seq!['m', 'M', '9']);
            assert(s.subrange(0, 3)[0] != quality_name(9)[0]);
        } else if j == 10 {
            assert(quality_name(10) == seq!['m', 'M', '7']);
            assert(s.subrange(0, 3)[0] != quality_name(10)[0]);
        } else if j == 11 {
            assert(quality_name(11) == seq!['m', '7', 'b', '5']);
            assert(s.subrange(0, 4)[0] != quality_name(11)[0]);
        } else if j == 12 {
            assert(quality_name(12) == seq!['m', '(', 'a', 'd', 'd', '9', ')']);
        } else if j == 13 {
            assert(quality_name(13) == seq!['m', 'a', 'd', 'd', '9']);
            assert(s.subrange(0, 5)[0] != quality_name(13)[0]);
        } else if j == 14 {
            assert(quality_name(14) == seq!['m', '1', '3']);
            assert(s.subrange(0, 3)[0] != quality_name(14)[0]);
        } else if j == 15 {
            assert(quality_name(15) == seq!['m', '1', '1']);
            assert(s.subrange(0, 3)[0] != quality_name(15)[0]);
        } else if j == 16 {
            assert(quality_name(16) == seq!['m', '9']);
            assert(s.subrange(0, 2)[0] != quality_name(16)[0]);
        } else if j == 17 {
            assert(quality_name(17) == seq!['m', '7']);
            assert(s.subrange(0, 2)[0] != quality_name(17)[0]);
        } else if j == 18 {
            assert(quality_name(18) == seq!['m', '6', '/', '9']);
            assert(s.subrange(0, 4)[0] != quality_name(18)[0]);
        } else if j == 19 {
            assert(quality_name(19) == seq!['m', '6']);
            assert(s.subrange(0, 2)[0] != quality_name(19)[0]);
        } else if j == 20 {
            assert(quality_name(20) == seq!['m']);
            assert(s.subrange(0, 1)[0] != quality_name(20)[0]);
        } else if j == 21 {
            assert(quality_name(21) == seq!['M', '9']);
            assert(s.subrange(0, 2)[0] != quality_name(21)[0]);
        } else if j == 22 {
            assert(quality_name(22) == seq!['M', '7']);
            assert(s.subrange(0, 2)[0] != quality_name(22)[0]);
        }
    }
    assert(s.subrange(0, 5) =~= s);
    lemma_scan_reaches(s, 0, 23);
    lemma_name_parses(s, quality_intervals(23), None);
}

proof fn lemma_table_entry_24()
    ensures
        spec_parse_chord_symbol(seq!['C'] + quality_name(24)) == Ok::<ChordModel, ChordFailure>(
            ChordModel { root: 0, intervals: quality_intervals(24), slash_bass: None, roman: None },
        ),
{
    let s = quality_name(24);
    assert(s == seq!['a', 'd', 'd', '9']);
    assert forall|j: int| 0 <= j < 24 implies !is_prefix(s, #[trigger] quality_name(j)) by {
        if j == 0 {
            assert(quality_name(0) == seq!['m', 'a', 'j', '1', '3']);
        } else if j == 1 {
            assert(quality_name(1) == seq!['m', 'a', 'j', '1', '1']);
        } else if j == 2 {
            assert(quality_name(2) == seq!['m', 'a', 'j', '9']);
            assert(s.subrange(0, 4)[0] != quality_name(2)[0]);
        } else if j == 3 {
            assert(quality_name(3) == seq!['m', 'a', 'j', '7']);
            assert(s.subrange(0, 4)[0] != quality_name(3)[0]);
        } else if j == 4 {
            assert(quality_name(4) == seq!['m', 'i', 'n', '9']);
            assert(s.subrange(0, 4)[0] != quality_name(4)[0]);
        } else if j == 5 {
            assert(quality_name(5) == seq!['m', 'i', 'n', '7']);
            assert(s.subrange(0, 4)[0] != quality_name(5)[0]);
        } else if j == 6 {
            assert(quality_name(6) == seq!['m', 'i', 'n']);
            assert(s.subrange(0, 3)[0] != quality_name(6)[0]);
        } else if j == 7 {
            assert(quality_name(7) == seq!['m', 'M', 'a', 'j', '9']);
        } else if j == 8 {
            assert(quality_name(8) == seq!['m', 'M', 'a', 'j', '7']);
        } else if j == 9 {
            assert(quality_name(9) == seq!['m', 'M', '9']);
            assert(s.subrange(0, 3)[0] != quality_name(9)[0]);
        } else if j == 10 {
            assert(quality_name(10) == seq!['m', 'M', '7']);
            assert(s.subrange(0, 3)[0] != quality_name(10)[0]);
        } else if j == 11 {
            assert(quality_name(11) == seq!['m', '7', 'b', '5']);
            assert(s.subrange(0, 4)[0] != quality_name(11)[0]);
        } else if j == 12 {
            assert(quality_name(12) == seq!['m', '(', 'a', 'd', 'd', '9', ')']);
        } else if j == 13 {
            assert(quality_name(13) == seq!['m', 'a', 'd', 'd', '9']);
        } else if j == 14 {
            assert(quality_name(14) == seq!['m', '1', '3']);
            assert(s.subrange(0, 3)[0] != quality_name(14)[0]);
        } else if j == 15 {
            assert(quality_name(15) == seq!['m', '1', '1']);
            assert(s.subrange(0, 3)[0] != quality_name(15)[0]);
        } else if j == 16 {
            assert(quality_name(16) == seq!['m', '9']);
            assert(s.subrange(0, 2)[0] != quality_name(16)[0]);
        } else if j == 17 {
            assert(quality_name(17) == seq!['m', '7']);
            assert(s.subrange(0, 2)[0] != quality_name(17)[0]);
        } else if j == 18 {
            assert(quality_name(18) == seq!['m', '6', '/', '9']);
            assert(s.subrange(0, 4)[0] != quality_name(18)[0]);
        } else if j == 19 {
            assert(quality_name(19) == seq!['m', '6']);
            assert(s.subrange(0, 2)[0] != quality_name(19)[0]);
        } else if j == 20 {
            assert(quality_name(20) == seq!['m']);
            assert(s.subrange(0, 1)[0] != quality_name(20)[0]);
        } else if j == 21 {
            assert(quality_name(21) == seq!['M', '9']);
            assert(s.subrange(0, 2)[0] != quality_name(21)[0]);
        } else if j == 22 {
            assert(quality_name(22) == seq!['M', '7']);
            assert(s.subrange(0, 2)[0] != quality_name(22)[0]);
        } else if j == 23 {
            assert(quality_name(23) == seq!['a', 'd', 'd', '1', '1']);
        }
    }
    assert(s.subrange(0, 4) =~= s);
    lemma_scan_reaches(s, 0, 24);
    lemma_name_parses(s, quality_intervals(24), None);
}

proof fn lemma_table_entry_25()
    ensures
        spec_parse_chord_symbol(seq!['C'] + quality_name(25)) == Ok::<ChordModel, ChordFailure>(
            ChordModel { root: 0, intervals: quality_intervals(25), slash_bass: None, roman: None },
        ),
{
    let s = quality_name(25);
    assert(s == seq!['a', 'd', 'd', '2']);
    assert forall|j: int| 0 <= j < 25 implies !is_prefix(s, #[trigger] quality_name(j)) by {
        if j == 0 {
            assert(quality_name(0) == seq!['m', 'a', 'j', '1', '3']);
        } else if j == 1 {
            assert(quality_name(1) == seq!['m', 'a', 'j', '1', '1']);
        } else if j == 2 {
            assert(quality_name(2) == seq!['m', 'a', 'j', '9']);
            assert(s.subrange(0, 4)[0] != quality_name(2)[0]);
        } else if j == 3 {
            assert(quality_name(3) == seq!['m', 'a', 'j', '7']);
            assert(s.subrange(0, 4)[0] != quality_name(3)[0]);
        } else if j == 4 {
            assert(quality_name(4) == seq!['m', 'i', 'n', '9']);
            assert(s.subrange(0, 4)[0] != quality_name(4)[0]);
        } else if j == 5 {
            assert(quality_name(5) == seq!['m', 'i', 'n', '7']);
            assert(s.subrange(0, 4)[0] != quality_name(5)[0]);
        } else if j == 6 {
            assert(quality_name(6) == seq!['m', 'i', 'n']);
            assert(s.subrange(0, 3)[0] != quality_name(6)[0]);
        } else if j == 7 {
            assert(quality_name(7) == seq!['m', 'M', 'a', 'j', '9']);
        } else if j == 8 {
            assert(quality_name(8) == seq!['m', 'M', 'a', 'j', '7']);
        } else if j == 9 {
            assert(quality_name(9) == seq!['m', 'M', '9']);
            assert(s.subrange(0, 3)[0] != quality_name(9)[0]);
        } else if j == 10 {
            assert(quality_name(10) == seq!['m', 'M', '7']);
            assert(s.subrange(0, 3)[0] != quality_name(10)[0]);
        } else if j == 11 {
            assert(quality_name(11) == seq!['m', '7', 'b', '5']);
            assert(s.subrange(0, 4)[0] != quality_name(11)[0]);
        } else if j == 12 {
            assert(quality_name(12) == seq!['m', '(', 'a', 'd', 'd', '9', ')']);
        } else if j == 13 {
            assert(quality_name(13) == seq!['m', 'a', 'd', 'd', '9']);
        } else if j == 14 {
            assert(quality_name(14) == seq!['m', '1', '3']);
            assert(s.subrange(0, 3)[0] != quality_name(14)[0]);
        } else if j == 15 {
            assert(quality_name(15) == seq!['m', '1', '1']);
            assert(s.subrange(0, 3)[0] != quality_name(15)[0]);
        } else if j == 16 {
            assert(quality_name(16) == seq!['m', '9']);
            assert(s.subrange(0, 2)[0] != quality_name(16)[0]);
        } else if j == 17 {
            assert(quality_name(17) == seq!['m', '7']);
            assert(s.subrange(0, 2)[0] != quality_name(17)[0]);
        } else if j == 18 {
            assert(quality_name(18) == seq!['m', '6', '/', '9']);
            assert(s.subrange(0, 4)[0] != quality_name(18)[0]);
        } else if j == 19 {
            assert(quality_name(19) == seq!['m', '6']);
            assert(s.subrange(0, 2)[0] != quality_name(19)[0]);
        } else if j == 20 {
            assert(quality_name(20) == seq!['m']);
            assert(s.subrange(0, 1)[0] != quality_name(20)[0]);
        } else if j == 21 {
            assert(quality_name(21) == seq!['M', '9']);
            assert(s.subrange(0, 2)[0] != quality_name(21)[0]);
        } else if j == 22 {
            assert(quality_name(22) == seq!['M', '7']);
            assert(s.subrange(0, 2)[0] != quality_name(22)[0]);
        } else if j == 23 {
            assert(quality_name(23) == seq!['a', 'd', 'd', '1', '1']);
        } else if j == 24 {
            assert(quality_name(24) == seq!['a', 'd', 'd', '9']);
            assert(s.subrange(0, 4)[3] != quality_name(24)[3]);
        }
    }
    assert(s.subrange(0, 4) =~= s);
    lemma_scan_reaches(s, 0, 25);
    lemma_name_parses(s, quality_intervals(25), None);
}

proof fn lemma_table_entry_26()
    ensures
        spec_parse_chord_symbol(seq!['C'] + quality_name(26)) == Ok::<ChordModel, ChordFailure>(
            ChordModel { root: 0, intervals: quality_intervals(26), slash_bass: None, roman: None },
        ),
{
    let s = quality_name(26);
    assert(s == seq!['a', 'u', 'g', 'm', 'a', 'j', '7']);
    assert forall|j: int| 0 <= j < 26 implies !is_prefix(s, #[trigger] quality_name(j)) by {
        if j == 0 {
            assert(quality_name(0) == seq!['m', 'a', 'j', '1', '3']);
            assert(s.subrange(0, 5)[0] != quality_name(0)[0]);
        } else if j == 1 {
            assert(quality_name(1) == seq!['m', 'a', 'j', '1', '1']);
            assert(s.subrange(0, 5)[0] != quality_name(1)[0]);
        } else if j == 2 {
            assert(quality_name(2) == seq!['m', 'a', 'j', '9']);
            assert(s.subrange(0, 4)[0] != quality_name(2)[0]);
        } else if j == 3 {
            assert(quality_name(3) == seq!['m', 'a', 'j', '7']);
            assert(s.subrange(0, 4)[0] != quality_name(3)[0]);
        } else if j == 4 {
            assert(quality_name(4) == seq!['m', 'i', 'n', '9']);
            assert(s.subrange(0, 4)[0] != quality_name(4)[0]);
        } else if j == 5 {
            assert(quality_name(5) == seq!['m', 'i', 'n', '7']);
            assert(s.subrange(0, 4)[0] != quality_name(5)[0]);
        } else if j == 6 {
            assert(quality_name(6) == seq!['m', 'i', 'n']);
            assert(s.subrange(0, 3)[0] != quality_name(6)[0]);
        } else if j == 7 {
            assert(quality_name(7) == seq!['m', 'M', 'a', 'j', '9']);
            assert(s.subrange(0, 5)[0] != quality_name(7)[0]);
        } else if j == 8 {
            assert(quality_name(8) == seq!['m', 'M', 'a', 'j', '7']);
            assert(s.subrange(0, 5)[0] != quality_name(8)[0]);
        } else if j == 9 {
            assert(quality_name(9) == seq!['m', 'M', '9']);
            assert(s.subrange(0, 3)[0] != quality_name(9)[0]);
        } else if j == 10 {
            assert(quality_name(10) == seq!['m', 'M', '7']);
            assert(s.subrange(0, 3)[0] != quality_name(10)[0]);
        } else if j == 11 {
            assert(quality_name(11) == seq!['m', '7', 'b', '5']);
            assert(s.subrange(0, 4)[0] != quality_name(11)[0]);
        } else if j == 12 {
            assert(quality_name(12) == seq!['m', '(', 'a', 'd', 'd', '9', ')']);
            assert(s.subrange(0, 7)[0] != quality_name(12)[0]);
        } else if j == 13 {
            assert(quality_name(13) == seq!['m', 'a', 'd', 'd', '9']);
            assert(s.subrange(0, 5)[0] != quality_name(13)[0]);
        } else if j == 14 {
            assert(quality_name(14) == seq!['m', '1', '3']);
            assert(s.subrange(0, 3)[0] != quality_name(14)[0]);
        } else if j == 15 {
            assert(quality_name(15) == seq!['m', '1', '1']);
            assert(s.subrange(0, 3)[0] != quality_name(15)[0]);
        } else if j == 16 {
            assert(quality_name(16) == seq!['m', '9']);
            assert(s.subrange(0, 2)[0] != quality_name(16)[0]);
        } else if j == 17 {
            assert(quality_name(17) == seq!['m', '7']);
            assert(s.subrange(0, 2)[0] != quality_name(17)[0]);
        } else if j == 18 {
            assert(quality_name(18) == seq!['m', '6', '/', '9']);
            assert(s.subrange(0, 4)[0] != quality_name(18)[0]);
        } else if j == 19 {
            assert(quality_name(19) == seq!['m', '6']);
            assert(s.subrange(0, 2)[0] != quality_name(19)[0]);
        } else if j == 20 {
            assert(quality_name(20) == seq!['m']);
            assert(s.subrange(0, 1)[0] != quality_name(20)[0]);
        } else if j == 21 {
            assert(quality_name(21) == seq!['M', '9']);
            assert(s.subrange(0, 2)[0] != quality_name(21)[0]);
        } else if j == 22 {
            assert(quality_name(22) == seq!['M', '7']);
            assert(s.subrange(0, 2)[0] != quality_name(22)[0]);
        } else if j == 23 {
            assert(quality_name(23) == seq!['a', 'd', 'd', '1', '1']);
            assert(s.subrange(0, 5)[1] != quality_name(23)[1]);
        } else if j == 24 {
            assert(quality_name(24) == seq!['a', 'd', 'd', '9']);
            assert(s.subrange(0, 4)[1] != quality_name(24)[1]);
        } else if j == 25 {
            assert(quality_name(25) == seq!['a', 'd', 'd', '2']);
            assert(s.subrange(0, 4)[1] != quality_name(25)[1]);
        }
    }
    assert(s.subrange(0, 7) =~= s);
    lemma_scan_reaches(s, 0, 26);
    lemma_name_parses(s, quality_intervals(26), None);
}

proof fn lemma_table_entry_27()
    ensures
        spec_parse_chord_symbol(seq!['C'] + quality_name(27)) == Ok::<ChordModel, ChordFailure>(
            ChordModel { root: 0, intervals: quality_intervals(27), slash_bass: None, roman: None },
        ),
{
    let s = quality_name(27);
    assert(s == seq!['a', 'u', 'g', '7']);
    assert forall|j: int| 0 <= j < 27 implies !is_prefix(s, #[trigger] quality_name(j)) by {
        if j == 0 {
            assert(quality_name(0) == seq!['m', 'a', 'j', '1', '3']);
        } else if j == 1 {
            assert(quality_name(1) == seq!['m', 'a', 'j', '1', '1']);
        } else if j == 2 {
            assert(quality_name(2) == seq!['m', 'a', 'j', '9']);
            assert(s.subrange(0, 4)[0] != quality_name(2)[0]);
        } else if j == 3 {
            assert(quality_name(3) == seq!['m', 'a', 'j', '7']);
            assert(s.subrange(0, 4)[0] != quality_name(3)[0]);
        } else if j == 4 {
            assert(quality_name(4) == seq!['m', 'i', 'n', '9']);
            assert(s.subrange(0, 4)[0] != quality_name(4)[0]);
        } else if j == 5 {
            assert(quality_name(5) == seq!['m', 'i', 'n', '7']);
            assert(s.subrange(0, 4)[0] != quality_name(5)[0]);
        } else if j == 6 {
            assert(quality_name(6) == seq!['m', 'i', 'n']);
            assert(s.subrange(0, 3)[0] != quality_name(6)[0]);
        } else if j == 7 {
            assert(quality_name(7) == seq!['m', 'M', 'a', 'j', '9']);
        } else if j == 8 {
            assert(quality_name(8) == seq!['m', 'M', 'a', 'j', '7']);
        } else if j == 9 {
            assert(quality_name(9) == seq!['m', 'M', '9']);
            assert(s.subrange(0, 3)[0] != quality_name(9)[0]);
        } else if j == 10 {
            assert(quality_name(10) == seq!['m', 'M', '7']);
            assert(s.subrange(0, 3)[0] != quality_name(10)[0]);
        } else if j == 11 {
            assert(quality_name(11) == seq!['m', '7', 'b', '5']);
            assert(s.subrange(0, 4)[0] != quality_name(11)[0]);
        } else if j == 12 {
            assert(quality_name(12) == seq!['m', '(', 'a', 'd', 'd', '9', ')']);
        } else if j == 13 {
            assert(quality_name(13) == seq!['m', 'a', 'd', 'd', '9']);
        } else if j == 14 {
            assert(quality_name(14) == seq!['m', '1', '3']);
            assert(s.subrange(0, 3)[0] != quality_name(14)[0]);
        } else if j == 15 {
            assert(quality_name(15) == seq!['m', '1', '1']);
            assert(s.subrange(0, 3)[0] != quality_name(15)[0]);
        } else if j == 16 {
            assert(quality_name(16) == seq!['m', '9']);
            assert(s.subrange(0, 2)[0] != quality_name(16)[0]);
        } else if j == 17 {
            assert(quality_name(17) == seq!['m', '7']);
            assert(s.subrange(0, 2)[0] != quality_name(17)[0]);
        } else if j == 18 {
            assert(quality_name(18) == seq!['m', '6', '/', '9']);
            assert(s.subrange(0, 4)[0] != quality_name(18)[0]);
        } else if j == 19 {
            assert(quality_name(19) == seq!['m', '6']);
            assert(s.subrange(0, 2)[0] != quality_name(19)[0]);
        } else if j == 20 {
            assert(quality_name(20) == seq!['m']);
            assert(s.subrange(0, 1)[0] != quality_name(20)[0]);
        } else if j == 21 {
            assert(quality_name(21) == seq!['M', '9']);
            assert(s.subrange(0, 2)[0] != quality_name(21)[0]);
        } else if j == 22 {
            assert(quality_name(22) == seq!['M', '7']);
            assert(s.subrange(0, 2)[0] != quality_name(22)[0]);
        } else if j == 23 {
            assert(quality_name(23) == seq!['a', 'd', 'd', '1', '1']);
        } else if j == 24 {
            assert(quality_name(24) == seq!['a', 'd', 'd', '9']);
            assert(s.subrange(0, 4)[1] != quality_name(24)[1]);
        } else if j == 25 {
            assert(quality_name(25) == seq!['a', 'd', 'd', '2']);
            assert(s.subrange(0, 4)[1] != quality_name(25)[1]);
        } else if j == 26 {
            assert(quality_name(26) == seq!['a', 'u', 'g', 'm', 'a', 'j', '7']);
        }
    }
    assert(s.subrange(0, 4) =~= s);
    lemma_scan_reaches(s, 0, 27);
    lemma_name_parses(s, quality_intervals(27), None);
}

proof fn lemma_table_entry_28()
    ensures
        spec_parse_chord_symbol(seq!['C'] + quality_name(28)) == Ok::<ChordModel, ChordFailure>(
            ChordModel { root: 0, intervals: quality_intervals(28), slash_bass: None, roman: None },
        ),
{
    let s = quality_name(28);
    assert(s == seq!['a', 'u', 'g']);
    assert forall|j: int| 0 <= j < 28 implies !is_prefix(s, #[trigger] quality_name(j)) by {
        if j == 0 {
            assert(quality_name(0) == seq!['m', 'a', 'j', '1', '3']);
        } else if j == 1 {
            assert(quality_name(1) == seq!['m', 'a', 'j', '1', '1']);
        } else if j == 2 {
            assert(quality_name(2) == seq!['m', 'a', 'j', '9']);
        } else if j == 3 {
            assert(quality_name(3) == seq!['m', 'a', 'j', '7']);
        } else if j == 4 {
            assert(quality_name(4) == seq!['m', 'i', 'n', '9']);
        } else if j == 5 {
            assert(quality_name(5) == seq!['m', 'i', 'n', '7']);
        } else if j == 6 {
            assert(quality_name(6) == seq!['m', 'i', 'n']);
            assert(s.subrange(0, 3)[0] != quality_name(6)[0]);
        } else if j == 7 {
            assert(quality_name(7) == seq!['m', 'M', 'a', 'j', '9']);
        } else if j == 8 {
            assert(quality_name(8) == seq!['m', 'M', 'a', 'j', '7']);
        } else if j == 9 {
            assert(quality_name(9) == seq!['m', 'M', '9']);
            assert(s.subrange(0, 3)[0] != quality_name(9)[0]);
        } else if j == 10 {
            assert(quality_name(10) == seq!['m', 'M', '7']);
            assert(s.subrange(0, 3)[0] != quality_name(10)[0]);
        } else if j == 11 {
            assert(quality_name(11) == seq!['m', '7', 'b', '5']);
        } else if j == 12 {
            assert(quality_name(12) == seq!['m', '(', 'a', 'd', 'd', '9', ')']);
        } else if j == 13 {
            assert(quality_name(13) == seq!['m', 'a', 'd', 'd', '9']);
        } else if j == 14 {
            assert(quality_name(14) == seq!['m', '1', '3']);
            assert(s.subrange(0, 3)[0] != quality_name(14)[0]);
        } else if j == 15 {
            assert(quality_name(15) == seq!['m', '1', '1']);
            assert(s.subrange(0, 3)[0] != quality_name(15)[0]);
        } else if j == 16 {
            assert(quality_name(16) == seq!['m', '9']);
            assert(s.subrange(0, 2)[0] != quality_name(16)[0]);
        } else if j == 17 {
            assert(quality_name(17) == seq!['m', '7']);
            assert(s.subrange(0, 2)[0] != quality_name(17)[0]);
        } else if j == 18 {
            assert(quality_name(18) == seq!['m', '6', '/', '9']);
        } else if j == 19 {
            assert(quality_name(19) == seq!['m', '6']);
            assert(s.subrange(0, 2)[0] != quality_name(19)[0]);
        } else if j == 20 {
            assert(quality_name(20) == seq!['m']);
            assert(s.subrange(0, 1)[0] != quality_name(20)[0]);
        } else if j == 21 {
            assert(quality_name(21) == seq!['M', '9']);
            assert(s.subrange(0, 2)[0] != quality_name(21)[0]);
        } else if j == 22 {
            assert(quality_name(22) == seq!['M', '7']);
            assert(s.subrange(0, 2)[0] != quality_name(22)[0]);
        } else if j == 23 {
            assert(quality_name(23) == seq!['a', 'd', 'd', '1', '1']);
        } else if j == 24 {
            assert(quality_name(24) == seq!['a', 'd', 'd', '9']);
        } else if j == 25 {
            assert(quality_name(25) == seq!['a', 'd', 'd', '2']);
        } else if j == 26 {
            assert(quality_name(26) == seq!['a', 'u', 'g', 'm', 'a', 'j', '7']);
        } else if j == 27 {
            assert(quality_name(27) == seq!['a', 'u', 'g', '7']);
        }
    }
    assert(s.subrange(0, 3) =~= s);
    lemma_scan_reaches(s, 0, 28);
    lemma_name_parses(s, quality_intervals(28), None);
}

proof fn lemma_table_entry_29()
    ensures
        spec_parse_chord_symbol(seq!['C'] + quality_name(29)) == Ok::<ChordModel, ChordFailure>(
            ChordModel { root: 0, intervals: quality_intervals(29), slash_bass: None, roman: None },
        ),
{
    let s = quality_name(29);
    assert(s == seq!['d', 'i', 'm', '7']);
    assert forall|j: int| 0 <= j < 29 implies !is_prefix(s, #[trigger] quality_name(j)) by {
        if j == 0 {
            assert(quality_name(0) == seq!['m', 'a', 'j', '1', '3']);
        } else if j == 1 {
            assert(quality_name(1) == seq!['m', 'a', 'j', '1', '1']);
        } else if j == 2 {
            assert(quality_name(2) == seq!['m', 'a', 'j', '9']);
            assert(s.subrange(0, 4)[0] != quality_name(2)[0]);
        } else if j == 3 {
            assert(quality_name(3) == seq!['m', 'a', 'j', '7']);
            assert(s.subrange(0, 4)[0] != quality_name(3)[0]);
        } else if j == 4 {
            assert(quality_name(4) == seq!['m', 'i', 'n', '9']);
            assert(s.subrange(0, 4)[0] != quality_name(4)[0]);
        } else if j == 5 {
            assert(quality_name(5) == seq!['m', 'i', 'n', '7']);
            assert(s.subrange(0, 4)[0] != quality_name(5)[0]);
        } else if j == 6 {
            assert(quality_name(6) == seq!['m', 'i', 'n']);
            assert(s.subrange(0, 3)[0] != quality_name(6)[0]);
        } else if j == 7 {
            assert(quality_name(7) == seq!['m', 'M', 'a', 'j', '9']);
        } else if j == 8 {
            assert(quality_name(8) == seq!['m', 'M', 'a', 'j', '7']);
        } else if j == 9 {
            assert(quality_name(9) == seq!['m', 'M', '9']);
            assert(s.subrange(0, 3)[0] != quality_name(9)[0]);
        } else if j == 10 {
            assert(quality_name(10) == seq!['m', 'M', '7']);
            assert(s.subrange(0, 3)[0] != quality_name(10)[0]);
        } else if j == 11 {
            assert(quality_name(11) == seq!['m', '7', 'b', '5']);
            assert(s.subrange(0, 4)[0] != quality_name(11)[0]);
        } else if j == 12 {
            assert(quality_name(12) == seq!['m', '(', 'a', 'd', 'd', '9', ')']);
        } else if j == 13 {
            assert(quality_name(13) == seq!['m', 'a', 'd', 'd', '9']);
        } else if j == 14 {
            assert(quality_name(14) == seq!['m', '1', '3']);
            assert(s.subrange(0, 3)[0] != quality_name(14)[0]);
        } else if j == 15 {
            assert(quality_name(15) == seq!['m', '1', '1']);
            assert(s.subrange(0, 3)[0] != quality_name(15)[0]);
        } else if j == 16 {
            assert(quality_name(16) == seq!['m', '9']);
            assert(s.subrange(0, 2)[0] != quality_name(16)[0]);
        } else if j == 17 {
            assert(quality_name(17) == seq!['m', '7']);
            assert(s.subrange(0, 2)[0] != quality_name(17)[0]);
        } else if j == 18 {
            assert(quality_name(18) == seq!['m', '6', '/', '9']);
            assert(s.subrange(0, 4)[0] != quality_name(18)[0]);
        } else if j == 19 {
            assert(quality_name(19) == seq!['m', '6']);
            assert(s.subrange(0, 2)[0] != quality_name(19)[0]);
        } else if j == 20 {
            assert(quality_name(20) == seq!['m']);
            assert(s.subrange(0, 1)[0] != quality_name(20)[0]);
        } else if j == 21 {
            assert(quality_name(21) == seq!['M', '9']);
            assert(s.subrange(0, 2)[0] != quality_name(21)[0]);
        } else if j == 22 {
            assert(quality_name(22) == seq!['M', '7']);
            assert(s.subrange(0, 2)[0] != quality_name(22)[0]);
        } else if j == 23 {
            assert(quality_name(23) == seq!['a', 'd', 'd', '1', '1']);
        } else if j == 24 {
            assert(quality_name(24) == seq!['a', 'd', 'd', '9']);
            assert(s.subrange(0, 4)[0] != quality_name(24)[0]);
        } else if j == 25 {
            assert(quality_name(25) == seq!['a', 'd', 'd', '2']);
            assert(s.subrange(0, 4)[0] != quality_name(25)[0]);
        } else if j == 26 {
            assert(quality_name(26) == seq!['a', 'u', 'g', 'm', 'a', 'j', '7']);
        } else if j == 27 {
            assert(quality_name(27) == seq!['a', 'u', 'g', '7']);
            assert(s.subrange(0, 4)[0] != quality_name(27)[0]);
        } else if j == 28 {
            assert(quality_name(28) == seq!['a', 'u', 'g']);
            assert(s.subrange(0, 3)[0] != quality_name(28)[0]);
        }
    }
    assert(s.subrange(0, 4) =~= s);
    lemma_scan_reaches(s, 0, 29);
    lemma_name_parses(s, quality_intervals(29), None);
}

proof fn lemma_table_entry_30()
    ensures
        spec_parse_chord_symbol(seq!['C'] + quality_name(30)) == Ok::<ChordModel, ChordFailure>(
            ChordModel { root: 0, intervals: quality_intervals(30), slash_bass: None, roman: None },
        ),
{
    let s = quality_name(30);
    assert(s == seq!['d', 'i', 'm']);
    assert forall|j: int| 0 <= j < 30 implies !is_prefix(s, #[trigger] quality_name(j)) by {
        if j == 0 {
            assert(quality_name(0) == seq!['m', 'a', 'j', '1', '3']);
        } else if j == 1 {
            assert(quality_name(1) == seq!['m', 'a', 'j', '1', '1']);
        } else if j == 2 {
            assert(quality_name(2) == seq!['m', 'a', 'j', '9']);
        } else if j == 3 {
            assert(quality_name(3) == seq!['m', 'a', 'j', '7']);
        } else if j == 4 {
            assert(quality_name(4) == seq!['m', 'i', 'n', '9']);
        } else if j == 5 {
            assert(quality_name(5) == seq!['m', 'i', 'n', '7']);
        } else if j == 6 {
            assert(quality_name(6) == seq!['m', 'i', 'n']);
            assert(s.subrange(0, 3)[0] != quality_name(6)[0]);
        } else if j == 7 {
            assert(quality_name(7) == seq!['m', 'M', 'a', 'j', '9']);
        } else if j == 8 {
            assert(quality_name(8) == seq!['m', 'M', 'a', 'j', '7']);
        } else if j == 9 {
            assert(quality_name(9) == seq!['m', 'M', '9']);
            assert(s.subrange(0, 3)[0] != quality_name(9)[0]);
        } else if j == 10 {
            assert(quality_name(10) == seq!['m', 'M', '7']);
            assert(s.subrange(0, 3)[0] != quality_name(10)[0]);
        } else if j == 11 {
            assert(quality_name(11) == seq!['m', '7', 'b', '5']);
        } else if j == 12 {
            assert(quality_name(12) == seq!['m', '(', 'a', 'd', 'd', '9', ')']);
        } else if j == 13 {
            assert(quality_name(13) == seq!['m', 'a', 'd', 'd', '9']);
        } else if j == 14 {
            assert(quality_name(14) == seq!['m', '1', '3']);
            assert(s.subrange(0, 3)[0] != quality_name(14)[0]);
        } else if j == 15 {
            assert(quality_name(15) == seq!['m', '1', '1']);
            assert(s.subrange(0, 3)[0] != quality_name(15)[0]);
        } else if j == 16 {
            assert(quality_name(16) == seq!['m', '9']);
            assert(s.subrange(0, 2)[0] != quality_name(16)[0]);
        } else if j == 17 {
            assert(quality_name(17) == seq!['m', '7']);
            assert(s.subrange(0, 2)[0] != quality_name(17)[0]);
        } else if j == 18 {
            assert(quality_name(18) == seq!['m', '6', '/', '9']);
        } else if j == 19 {
            assert(quality_name(19) == seq!['m', '6']);
            assert(s.subrange(0, 2)[0] != quality_name(19)[0]);
        } else if j == 20 {
            assert(quality_name(20) == seq!['m']);
            assert(s.subrange(0, 1)[0] != quality_name(20)[0]);
        } else if j == 21 {
            assert(quality_name(21) == seq!['M', '9']);
            assert(s.subrange(0, 2)[0] != quality_name(21)[0]);
        } else if j == 22 {
            assert(quality_name(22) == seq!['M', '7']);
            assert(s.subrange(0, 2)[0] != quality_name(22)[0]);
        } else if j == 23 {
            assert(quality_name(23) == seq!['a', 'd', 'd', '1', '1']);
        } else if j == 24 {
            assert(quality_name(24) == seq!['a', 'd', 'd', '9']);
        } else if j == 25 {
            assert(quality_name(25) == seq!['a', 'd', 'd', '2']);
        } else if j == 26 {
            assert(quality_name(26) == seq!['a', 'u', 'g', 'm', 'a', 'j', '7']);
        } else if j == 27 {
            assert(quality_name(27) == seq!['a', 'u', 'g', '7']);
        } else if j == 28 {
            assert(quality_name(28) == seq!['a', 'u', 'g']);
            assert(s.subrange(0, 3)[0] != quality_name(28)[0]);
        } else if j == 29 {
            assert(quality_name(29) == seq!['d', 'i', 'm', '7']);
        }
    }
    assert(s.subrange(0, 3) =~= s);
    lemma_scan_reaches(s, 0, 30);
    lemma_name_parses(s, quality_intervals(30), None);
}

proof fn lemma_table_entry_31()
    ensures
        spec_parse_chord_symbol(seq!['C'] + quality_name(31)) == Ok::<ChordModel, ChordFailure>(
            ChordModel { root: 0, intervals: quality_intervals(31), slash_bass: None, roman: None },
        ),
{
    let s = quality_name(31);
    assert(s == seq!['s', 'u', 's', '2']);
    assert forall|j: int| 0 <= j < 31 implies !is_prefix(s, #[trigger] quality_name(j)) by {
        if j == 0 {
            assert(quality_name(0) == seq!['m', 'a', 'j', '1', '3']);
        } else if j == 1 {
            assert(quality_name(1) == seq!['m', 'a', 'j', '1', '1']);
        } else if j == 2 {
            assert(quality_name(2) == seq!['m', 'a', 'j', '9']);
            assert(s.subrange(0, 4)[0] != quality_name(2)[0]);
        } else if j == 3 {
            assert(quality_name(3) == seq!['m', 'a', 'j', '7']);
            assert(s.subrange(0, 4)[0] != quality_name(3)[0]);
        } else if j == 4 {
            assert(quality_name(4) == seq!['m', 'i', 'n', '9']);
            assert(s.subrange(0, 4)[0] != quality_name(4)[0]);
        } else if j == 5 {
            assert(quality_name(5) == seq!['m', 'i', 'n', '7']);
            assert(s.subrange(0, 4)[0] != quality_name(5)[0]);
        } else if j == 6 {
            assert(quality_name(6) == seq!['m', 'i', 'n']);
            assert(s.subrange(0, 3)[0] != quality_name(6)[0]);
        } else if j == 7 {
            assert(quality_name(7) == seq!['m', 'M', 'a', 'j', '9']);
        } else if j == 8 {
            assert(quality_name(8) == seq!['m', 'M', 'a', 'j', '7']);
        } else if j == 9 {
            assert(quality_name(9) == seq!['m', 'M', '9']);
            assert(s.subrange(0, 3)[0] != quality_name(9)[0]);
        } else if j == 10 {
            assert(quality_name(10) == seq!['m', 'M', '7']);
            assert(s.subrange(0, 3)[0] != quality_name(10)[0]);
        } else if j == 11 {
            assert(quality_name(11) == seq!['m', '7', 'b', '5']);
            assert(s.subrange(0, 4)[0] != quality_name(11)[0]);
        } else if j == 12 {
            assert(quality_name(12) == seq!['m', '(', 'a', 'd', 'd', '9', ')']);
        } else if j == 13 {
            assert(quality_name(13) == seq!['m', 'a', 'd', 'd', '9']);
        } else if j == 14 {
            assert(quality_name(14) == seq!['m', '1', '3']);
            assert(s.subrange(0, 3)[0] != quality_name(14)[0]);
        } else if j == 15 {
            assert(quality_name(15) == seq!['m', '1', '1']);
            assert(s.subrange(0, 3)[0] != quality_name(15)[0]);
        } else if j == 16 {
            assert(quality_name(16) == seq!['m', '9']);
            assert(s.subrange(0, 2)[0] != quality_name(16)[0]);
        } else if j == 17 {
            assert(quality_name(17) == seq!['m', '7']);
            assert(s.subrange(0, 2)[0] != quality_name(17)[0]);
        } else if j == 18 {
            assert(quality_name(18) == seq!['m', '6', '/', '9']);
            assert(s.subrange(0, 4)[0] != quality_name(18)[0]);
        } else if j == 19 {
            assert(quality_name(19) == seq!['m', '6']);
            assert(s.subrange(0, 2)[0] != quality_name(19)[0]);
        } else if j == 20 {
            assert(quality_name(20) == seq!['m']);
            assert(s.subrange(0, 1)[0] != quality_name(20)[0]);
        } else if j == 21 {
            assert(quality_name(21) == seq!['M', '9']);
            assert(s.subrange(0, 2)[0] != quality_name(21)[0]);
        } else if j == 22 {
            assert(quality_name(22) == seq!['M', '7']);
            assert(s.subrange(0, 2)[0] != quality_name(22)[0]);
        } else if j == 23 {
            assert(quality_name(23) == seq!['a', 'd', 'd', '1', '1']);
        } else if j == 24 {
            assert(quality_name(24) == seq!['a', 'd', 'd', '9']);
            assert(s.subrange(0, 4)[0] != quality_name(24)[0]);
        } else if j == 25 {
            assert(quality_name(25) == seq!['a', 'd', 'd', '2']);
            assert(s.subrange(0, 4)[0] != quality_name(25)[0]);
        } else if j == 26 {
            assert(quality_name(26) == seq!['a', 'u', 'g', 'm', 'a', 'j', '7']);
        } else if j == 27 {
            assert(quality_name(27) == seq!['a', 'u', 'g', '7']);
            assert(s.subrange(0, 4)[0] != quality_name(27)[0]);
        } else if j == 28 {
            assert(quality_name(28) == seq!['a', 'u', 'g']);
            assert(s.subrange(0, 3)[0] != quality_name(28)[0]);
        } else if j == 29 {
            assert(quality_name(29) == seq!['d', 'i', 'm', '7']);
            assert(s.subrange(0, 4)[0] != quality_name(29)[0]);
        } else if j == 30 {
            assert(quality_name(30) == seq!['d', 'i', 'm']);
            assert(s.subrange(0, 3)[0] != quality_name(30)[0]);
        }
    }
    assert(s.subrange(0, 4) =~= s);
    lemma_scan_reaches(s, 0, 31);
    lemma_name_parses(s, quality_intervals(31), None);
}

proof fn lemma_table_entry_32()
    ensures
        spec_parse_chord_symbol(seq!['C'] + quality_name(32)) == Ok::<ChordModel, ChordFailure>(
            ChordModel { root: 0, intervals: quality_intervals(32), slash_bass: None, roman: None },
        ),
{
    let s = quality_name(32);
    assert(s == seq!['s', 'u', 's', '4']);
    assert forall|j: int| 0 <= j < 32 implies !is_prefix(s, #[trigger] quality_name(j)) by {
        if j == 0 {
            assert(quality_name(0) == seq!['m', 'a', 'j', '1', '3']);
        } else if j == 1 {
            assert(quality_name(1) == seq!['m', 'a', 'j', '1', '1']);
        } else if j == 2 {
            assert(quality_name(2) == seq!['m', 'a', 'j', '9']);
            assert(s.subrange(0, 4)[0] != quality_name(2)[0]);
        } else if j == 3 {
            assert(quality_name(3) == seq!['m', 'a', 'j', '7']);
            assert(s.subrange(0, 4)[0] != quality_name(3)[0]);
        } else if j == 4 {
            assert(quality_name(4) == seq!['m', 'i', 'n', '9']);
            assert(s.subrange(0, 4)[0] != quality_name(4)[0]);
        } else if j == 5 {
            assert(quality_name(5) == seq!['m', 'i', 'n', '7']);
            assert(s.subrange(0, 4)[0] != quality_name(5)[0]);
        } else if j == 6 {
            assert(quality_name(6) == seq!['m', 'i', 'n']);
            assert(s.subrange(0, 3)[0] != quality_name(6)[0]);
        } else if j == 7 {
            assert(quality_name(7) == seq!['m', 'M', 'a', 'j', '9']);
        } else if j == 8 {
            assert(quality_name(8) == seq!['m', 'M', 'a', 'j', '7']);
        } else if j == 9 {
            assert(quality_name(9) == seq!['m', 'M', '9']);
            assert(s.subrange(0, 3)[0] != quality_name(9)[0]);
        } else if j == 10 {
            assert(quality_name(10) == seq!['m', 'M', '7']);
            assert(s.subrange(0, 3)[0] != quality_name(10)[0]);
        } else if j == 11 {
            assert(quality_name(11) == seq!['m', '7', 'b', '5']);
            assert(s.subrange(0, 4)[0] != quality_name(11)[0]);
        } else if j == 12 {
            assert(quality_name(12) == seq!['m', '(', 'a', 'd', 'd', '9', ')']);
        } else if j == 13 {
            assert(quality_name(13) == seq!['m', 'a', 'd', 'd', '9']);
        } else if j == 14 {
            assert(quality_name(14) == seq!['m', '1', '3']);
            assert(s.subrange(0, 3)[0] != quality_name(14)[0]);
        } else if j == 15 {
            assert(quality_name(15) == seq!['m', '1', '1']);
            assert(s.subrange(0, 3)[0] != quality_name(15)[0]);
        } else if j == 16 {
            assert(quality_name(16) == seq!['m', '9']);
            assert(s.subrange(0, 2)[0] != quality_name(16)[0]);
        } else if j == 17 {
            assert(quality_name(17) == seq!['m', '7']);
            assert(s.subrange(0, 2)[0] != quality_name(17)[0]);
        } else if j == 18 {
            assert(quality_name(18) == seq!['m', '6', '/', '9']);
            assert(s.subrange(0, 4)[0] != quality_name(18)[0]);
        } else if j == 19 {
            assert(quality_name(19) == seq!['m', '6']);
            assert(s.subrange(0, 2)[0] != quality_name(19)[0]);
        } else if j == 20 {
            assert(quality_name(20) == seq!['m']);
            assert(s.subrange(0, 1)[0] != quality_name(20)[0]);
        } else if j == 21 {
            assert(quality_name(21) == seq!['M', '9']);
            assert(s.subrange(0, 2)[0] != quality_name(21)[0]);
        } else if j == 22 {
            assert(quality_name(22) == seq!['M', '7']);
            assert(s.subrange(0, 2)[0] != quality_name(22)[0]);
        } else if j == 23 {
            assert(quality_name(23) == seq!['a', 'd', 'd', '1', '1']);
        } else if j == 24 {
            assert(quality_name(24) == seq!['a', 'd', 'd', '9']);
            assert(s.subrange(0, 4)[0] != quality_name(24)[0]);
        } else if j == 25 {
            assert(quality_name(25) == seq!['a', 'd', 'd', '2']);
            assert(s.subrange(0, 4)[0] != quality_name(25)[0]);
        } else if j == 26 {
            assert(quality_name(26) == seq!['a', 'u', 'g', 'm', 'a', 'j', '7']);
        } else if j == 27 {
            assert(quality_name(27) == seq!['a', 'u', 'g', '7']);
            assert(s.subrange(0, 4)[0] != quality_name(27)[0]);
        } else if j == 28 {
            assert(quality_name(28) == seq!['a', 'u', 'g']);
            assert(s.subrange(0, 3)[0] != quality_name(28)[0]);
        } else if j == 29 {
            assert(quality_name(29) == seq!['d', 'i', 'm', '7']);
            assert(s.subrange(0, 4)[0] != quality_name(29)[0]);
        } else if j == 30 {
            assert(quality_name(30) == seq!['d', 'i', 'm']);
            assert(s.subrange(0, 3)[0] != quality_name(30)[0]);
        } else if j == 31 {
            assert(quality_name(31) == seq!['s', 'u', 's', '2']);
            assert(s.subrange(0, 4)[3] != quality_name(31)[3]);
        }
    }
    assert(s.subrange(0, 4) =~= s);
    lemma_scan_reaches(s, 0, 32);
    lemma_name_parses(s, quality_intervals(32), None);
}

proof fn lemma_table_entry_33()
    ensures
        spec_parse_chord_symbol(seq!['C'] + quality_name(33)) == Ok::<ChordModel, ChordFailure>(
            ChordModel { root: 0, intervals: quality_intervals(33), slash_bass: None, roman: None },
        ),
{
    let s = quality_name(33);
    assert(s == seq!['1', '3']);
    assert forall|j: int| 0 <= j < 33 implies !is_prefix(s, #[trigger] quality_name(j)) by {
        if j == 0 {
            assert(quality_name(0) == seq!['m', 'a', 'j', '1', '3']);
        } else if j == 1 {
            assert(quality_name(1) == seq!['m', 'a', 'j', '1', '1']);
        } else if j == 2 {
            assert(quality_name(2) == seq!['m', 'a', 'j', '9']);
        } else if j == 3 {
            assert(quality_name(3) == seq!['m', 'a', 'j', '7']);
        } else if j == 4 {
            assert(quality_name(4) == seq!['m', 'i', 'n', '9']);
        } else if j == 5 {
            assert(quality_name(5) == seq!['m', 'i', 'n', '7']);
        } else if j == 6 {
            assert(quality_name(6) == seq!['m', 'i', 'n']);
        } else if j == 7 {
            assert(quality_name(7) == seq!['m', 'M', 'a', 'j', '9']);
        } else if j == 8 {
            assert(quality_name(8) == seq!['m', 'M', 'a', 'j', '7']);
        } else if j == 9 {
            assert(quality_name(9) == seq!['m', 'M', '9']);
        } else if j == 10 {
            assert(quality_name(10) == seq!['m', 'M', '7']);
        } else if j == 11 {
            assert(quality_name(11) == seq!['m', '7', 'b', '5']);
        } else if j == 12 {
            assert(quality_name(12) == seq!['m', '(', 'a', 'd', 'd', '9', ')']);
        } else if j == 13 {
            assert(quality_name(13) == seq!['m', 'a', 'd', 'd', '9']);
        } else if j == 14 {
            assert(quality_name(14) == seq!['m', '1', '3']);
        } else if j == 15 {
            assert(quality_name(15) == seq!['m', '1', '1']);
        } else if j == 16 {
            assert(quality_name(16) == seq!['m', '9']);
            assert(s.subrange(0, 2)[0] != quality_name(16)[0]);
        } else if j == 17 {
            assert(quality_name(17) == seq!['m', '7']);
            assert(s.subrange(0, 2)[0] != quality_name(17)[0]);
        } else if j == 18 {
            assert(quality_name(18) == seq!['m', '6', '/', '9']);
        } else if j == 19 {
            assert(quality_name(19) == seq!['m', '6']);
            assert(s.subrange(0, 2)[0] != quality_name(19)[0]);
        } else if j == 20 {
            assert(quality_name(20) == seq!['m']);
            assert(s.subrange(0, 1)[0] != quality_name(20)[0]);
        } else if j == 21 {
            assert(quality_name(21) == seq!['M', '9']);
            assert(s.subrange(0, 2)[0] != quality_name(21)[0]);
        } else if j == 22 {
            assert(quality_name(22) == seq!['M', '7']);
            assert(s.subrange(0, 2)[0] != quality_name(22)[0]);
        } else if j == 23 {
            assert(quality_name(23) == seq!['a', 'd', 'd', '1', '1']);
        } else if j == 24 {
            assert(quality_name(24) == seq!['a', 'd', 'd', '9']);
        } else if j == 25 {
            assert(quality_name(25) == seq!['a', 'd', 'd', '2']);
        } else if j == 26 {
            assert(quality_name(26) == seq!['a', 'u', 'g', 'm', 'a', 'j', '7']);
        } else if j == 27 {
            assert(quality_name(27) == seq!['a', 'u', 'g', '7']);
        } else if j == 28 {
            assert(quality_name(28) == seq!['a', 'u', 'g']);
        } else if j == 29 {
            assert(quality_name(29) == seq!['d', 'i', 'm', '7']);
        } else if j == 30 {
            assert(quality_name(30) == seq!['d', 'i', 'm']);
        } else if j == 31 {
            assert(quality_name(31) == seq!['s', 'u', 's', '2']);
        } else if j == 32 {
            assert(quality_name(32) == seq!['s', 'u', 's', '4']);
        }
    }
    assert(s.subrange(0, 2) =~= s);
    lemma_scan_reaches(s, 0, 33);
    lemma_name_parses(s, quality_intervals(33), None);
}

proof fn lemma_table_entry_34()
    ensures
        spec_parse_chord_symbol(seq!['C'] + quality_name(34)) == Ok::<ChordModel, ChordFailure>(
            ChordModel { root: 0, intervals: quality_intervals(34), slash_bass: None, roman: None },
        ),
{
    let s = quality_name(34);
    assert(s == seq!['1', '1']);
    assert forall|j: int| 0 <= j < 34 implies !is_prefix(s, #[trigger] quality_name(j)) by {
        if j == 0 {
            assert(quality_name(0) == seq!['m', 'a', 'j', '1', '3']);
        } else if j == 1 {
            assert(quality_name(1) == seq!['m', 'a', 'j', '1', '1']);
        } else if j == 2 {
            assert(quality_name(2) == seq!['m', 'a', 'j', '9']);
        } else if j == 3 {
            assert(quality_name(3) == seq!['m', 'a', 'j', '7']);
        } else if j == 4 {
            assert(quality_name(4) == seq!['m', 'i', 'n', '9']);
        } else if j == 5 {
            assert(quality_name(5) == seq!['m', 'i', 'n', '7']);
        } else if j == 6 {
            assert(quality_name(6) == seq!['m', 'i', 'n']);
        } else if j == 7 {
            assert(quality_name(7) == seq!['m', 'M', 'a', 'j', '9']);
        } else if j == 8 {
            assert(quality_name(8) == seq!['m', 'M', 'a', 'j', '7']);
        } else if j == 9 {
            assert(quality_name(9) == seq!['m', 'M', '9']);
        } else if j == 10 {
            assert(quality_name(10) == seq!['m', 'M', '7']);
        } else if j == 11 {
            assert(quality_name(11) == seq!['m', '7', 'b', '5']);
        } else if j == 12 {
            assert(quality_name(12) == seq!['m', '(', 'a', 'd', 'd', '9', ')']);
        } else if j == 13 {
            assert(quality_name(13) == seq!['m', 'a', 'd', 'd', '9']);
        } else if j == 14 {
            assert(quality_name(14) == seq!['m', '1', '3']);
        } else if j == 15 {
            assert(quality_name(15) == seq!['m', '1', '1']);
        } else if j == 16 {
            assert(quality_name(16) == seq!['m', '9']);
            assert(s.subrange(0, 2)[0] != quality_name(16)[0]);
        } else if j == 17 {
            assert(quality_name(17) == seq!['m', '7']);
            assert(s.subrange(0, 2)[0] != quality_name(17)[0]);
        } else if j == 18 {
            assert(quality_name(18) == seq!['m', '6', '/', '9']);
        } else if j == 19 {
            assert(quality_name(19) == seq!['m', '6']);
            assert(s.subrange(0, 2)[0] != quality_name(19)[0]);
        } else if j == 20 {
            assert(quality_name(20) == seq!['m']);
            assert(s.subrange(0, 1)[0] != quality_name(20)[0]);
        } else if j == 21 {
            assert(quality_name(21) == seq!['M', '9']);
            assert(s.subrange(0, 2)[0] != quality_name(21)[0]);
        } else if j == 22 {
            assert(quality_name(22) == seq!['M', '7']);
            assert(s.subrange(0, 2)[0] != quality_name(22)[0]);
        } else if j == 23 {
            assert(quality_name(23) == seq!['a', 'd', 'd', '1', '1']);
        } else if j == 24 {
            assert(quality_name(24) == seq!['a', 'd', 'd', '9']);
        } else if j == 25 {
            assert(quality_name(25) == seq!['a', 'd', 'd', '2']);
        } else if j == 26 {
            assert(quality_name(26) == seq!['a', 'u', 'g', 'm', 'a', 'j', '7']);
        } else if j == 27 {
            assert(quality_name(27) == seq!['a', 'u', 'g', '7']);
        } else if j == 28 {
            assert(quality_name(28) == seq!['a', 'u', 'g']);
        } else if j == 29 {
            assert(quality_name(29) == seq!['d', 'i', 'm', '7']);
        } else if j == 30 {
            assert(quality_name(30) == seq!['d', 'i', 'm']);
        } else if j == 31 {
            assert(quality_name(31) == seq!['s', 'u', 's', '2']);
        } else if j == 32 {
            assert(quality_name(32) == seq!['s', 'u', 's', '4']);
        } else if j == 33 {
            assert(quality_name(33) == seq!['1', '3']);
            assert(s.subrange(0, 2)[1] != quality_name(33)[1]);
        }
    }
    assert(s.subrange(0, 2) =~= s);
    lemma_scan_reaches(s, 0, 34);
    lemma_name_parses(s, quality_intervals(34), None);
}

proof fn lemma_table_entry_35()
    ensures
        spec_parse_chord_symbol(seq!['C'] + quality_name(35)) == Ok::<ChordModel, ChordFailure>(
            ChordModel { root: 0, intervals: quality_intervals(35), slash_bass: None, roman: None },
        ),
{
    let s = quality_name(35);
    assert(s == seq!['9', 's', 'u', 's', '4']);
    assert forall|j: int| 0 <= j < 35 implies !is_prefix(s, #[trigger] quality_name(j)) by {
        if j == 0 {
            assert(quality_name(0) == seq!['m', 'a', 'j', '1', '3']);
            assert(s.subrange(0, 5)[0] != quality_name(0)[0]);
        } else if j == 1 {
            assert(quality_name(1) == seq!['m', 'a', 'j', '1', '1']);
            assert(s.subrange(0, 5)[0] != quality_name(1)[0]);
        } else if j == 2 {
            assert(quality_name(2) == seq!['m', 'a', 'j', '9']);
            assert(s.subrange(0, 4)[0] != quality_name(2)[0]);
        } else if j == 3 {
            assert(quality_name(3) == seq!['m', 'a', 'j', '7']);
            assert(s.subrange(0, 4)[0] != quality_name(3)[0]);
        } else if j == 4 {
            assert(quality_name(4) == seq!['m', 'i', 'n', '9']);
            assert(s.subrange(0, 4)[0] != quality_name(4)[0]);
        } else if j == 5 {
            assert(quality_name(5) == seq!['m', 'i', 'n', '7']);
            assert(s.subrange(0, 4)[0] != quality_name(5)[0]);
        } else if j == 6 {
            assert(quality_name(6) == seq!['m', 'i', 'n']);
            assert(s.subrange(0, 3)[0] != quality_name(6)[0]);
        } else if j == 7 {
            assert(quality_name(7) == seq!['m', 'M', 'a', 'j', '9']);
            assert(s.subrange(0, 5)[0] != quality_name(7)[0]);
        } else if j == 8 {
            assert(quality_name(8) == seq!['m', 'M', 'a', 'j', '7']);
            assert(s.subrange(0, 5)[0] != quality_name(8)[0]);
        } else if j == 9 {
            assert(quality_name(9) == seq!['m', 'M', '9']);
            assert(s.subrange(0, 3)[0] != quality_name(9)[0]);
        } else if j == 10 {
            assert(quality_name(10) == seq!['m', 'M', '7']);
            assert(s.subrange(0, 3)[0] != quality_name(10)[0]);
        } else if j == 11 {
            assert(quality_name(11) == seq!['m', '7', 'b', '5']);
            assert(s.subrange(0, 4)[0] != quality_name(11)[0]);
        } else if j == 12 {
            assert(quality_name(12) == seq!['m', '(', 'a', 'd', 'd', '9', ')']);
        } else if j == 13 {
            assert(quality_name(13) == seq!['m', 'a', 'd', 'd', '9']);
            assert(s.subrange(0, 5)[0] != quality_name(13)[0]);
        } else if j == 14 {
            assert(quality_name(14) == seq!['m', '1', '3']);
            assert(s.subrange(0, 3)[0] != quality_name(14)[0]);
        } else if j == 15 {
            assert(quality_name(15) == seq!['m', '1', '1']);
            assert(s.subrange(0, 3)[0] != quality_name(15)[0]);
        } else if j == 16 {
            assert(quality_name(16) == seq!['m', '9']);
            assert(s.subrange(0, 2)[0] != quality_name(16)[0]);
        } else if j == 17 {
            assert(quality_name(17) == seq!['m', '7']);
            assert(s.subrange(0, 2)[0] != quality_name(17)[0]);
        } else if j == 18 {
            assert(quality_name(18) == seq!['m', '6', '/', '9']);
            assert(s.subrange(0, 4)[0] != quality_name(18)[0]);
        } else if j == 19 {
            assert(quality_name(19) == seq!['m', '6']);
            assert(s.subrange(0, 2)[0] != quality_name(19)[0]);
        } else if j == 20 {
            assert(quality_name(20) == seq!['m']);
            assert(s.subrange(0, 1)[0] != quality_name(20)[0]);
        } else if j == 21 {
            assert(quality_name(21) == seq!['M', '9']);
            assert(s.subrange(0, 2)[0] != quality_name(21)[0]);
        } else if j == 22 {
            assert(quality_name(22) == seq!['M', '7']);
            assert(s.subrange(0, 2)[0] != quality_name(22)[0]);
        } else if j == 23 {
            assert(quality_name(23) == seq!['a', 'd', 'd', '1', '1']);
            assert(s.subrange(0, 5)[0] != quality_name(23)[0]);
        } else if j == 24 {
            assert(quality_name(24) == seq!['a', 'd', 'd', '9']);
            assert(s.subrange(0, 4)[0] != quality_name(24)[0]);
        } else if j == 25 {
            assert(quality_name(25) == seq!['a', 'd', 'd', '2']);
            assert(s.subrange(0, 4)[0] != quality_name(25)[0]);
        } else if j == 26 {
            assert(quality_name(26) == seq!['a', 'u', 'g', 'm', 'a', 'j', '7']);
        } else if j == 27 {
            assert(quality_name(27) == seq!['a', 'u', 'g', '7']);
            assert(s.subrange(0, 4)[0] != quality_name(27)[0]);
        } else if j == 28 {
            assert(quality_name(28) == seq!['a', 'u', 'g']);
            assert(s.subrange(0, 3)[0] != quality_name(28)[0]);
        } else if j == 29 {
            assert(quality_name(29) == seq!['d', 'i', 'm', '7']);
            assert(s.subrange(0, 4)[0] != quality_name(29)[0]);
        } else if j == 30 {
            assert(quality_name(30) == seq!['d', 'i', 'm']);
            assert(s.subrange(0, 3)[0] != quality_name(30)[0]);
        } else if j == 31 {
            assert(quality_name(31) == seq!['s', 'u', 's', '2']);
            assert(s.subrange(0, 4)[0] != quality_name(31)[0]);
        } else if j == 32 {
            assert(quality_name(32) == seq!['s', 'u', 's', '4']);
            assert(s.subrange(0, 4)[0] != quality_name(32)[0]);
        } else if j == 33 {
            assert(quality_name(33) == seq!['1', '3']);
            assert(s.subrange(0, 2)[0] != quality_name(33)[0]);
        } else if j == 34 {
            assert(quality_name(34) == seq!['1', '1']);
            assert(s.subrange(0, 2)[0] != quality_name(34)[0]);
        }
    }
    assert(s.subrange(0, 5) =~= s);
    lemma_scan_reaches(s, 0, 35);
    lemma_name_parses(s, quality_intervals(35), None);
}

proof fn lemma_table_entry_36()
    ensures
        spec_parse_chord_symbol(seq!['C'] + quality_name(36)) == Ok::<ChordModel, ChordFailure>(
            ChordModel { root: 0, intervals: quality_intervals(36), slash_bass: None, roman: None },
        ),
{
    let s = quality_name(36);
    assert(s == seq!['9']);
    assert forall|j: int| 0 <= j < 36 implies !is_prefix(s, #[trigger] quality_name(j)) by {
        if j == 0 {
            assert(quality_name(0) == seq!['m', 'a', 'j', '1', '3']);
        } else if j == 1 {
            assert(quality_name(1) == seq!['m', 'a', 'j', '1', '1']);
        } else if j == 2 {
            assert(quality_name(2) == seq!['m', 'a', 'j', '9']);
        } else if j == 3 {
            assert(quality_name(3) == seq!['m', 'a', 'j', '7']);
        } else if j == 4 {
            assert(quality_name(4) == seq!['m', 'i', 'n', '9']);
        } else if j == 5 {
            assert(quality_name(5) == seq!['m', 'i', 'n', '7']);
        } else if j == 6 {
            assert(quality_name(6) == seq!['m', 'i', 'n']);
        } else if j == 7 {
            assert(quality_name(7) == seq!['m', 'M', 'a', 'j', '9']);
        } else if j == 8 {
            assert(quality_name(8) == seq!['m', 'M', 'a', 'j', '7']);
        } else if j == 9 {
            assert(quality_name(9) == seq!['m', 'M', '9']);
        } else if j == 10 {
            assert(quality_name(10) == seq!['m', 'M', '7']);
        } else if j == 11 {
            assert(quality_name(11) == seq!['m', '7', 'b', '5']);
        } else if j == 12 {
            assert(quality_name(12) == seq!['m', '(', 'a', 'd', 'd', '9', ')']);
        } else if j == 13 {
            assert(quality_name(13) == seq!['m', 'a', 'd', 'd', '9']);
        } else if j == 14 {
            assert(quality_name(14) == seq!['m', '1', '3']);
        } else if j == 15 {
            assert(quality_name(15) == seq!['m', '1', '1']);
        } else if j == 16 {
            assert(quality_name(16) == seq!['m', '9']);
        } else if j == 17 {
            assert(quality_name(17) == seq!['m', '7']);
        } else if j == 18 {
            assert(quality_name(18) == seq!['m', '6', '/', '9']);
        } else if j == 19 {
            assert(quality_name(19) == seq!['m', '6']);
        } else if j == 20 {
            assert(quality_name(20) == seq!['m']);
            assert(s.subrange(0, 1)[0] != quality_name(20)[0]);
        } else if j == 21 {
            assert(quality_name(21) == seq!['M', '9']);
        } else if j == 22 {
            assert(quality_name(22) == seq!['M', '7']);
        } else if j == 23 {
            assert(quality_name(23) == seq!['a', 'd', 'd', '1', '1']);
        } else if j == 24 {
            assert(quality_name(24) == seq!['a', 'd', 'd', '9']);
        } else if j == 25 {
            assert(quality_name(25) == seq!['a', 'd', 'd', '2']);
        } else if j == 26 {
            assert(quality_name(26) == seq!['a', 'u', 'g', 'm', 'a', 'j', '7']);
        } else if j == 27 {
            assert(quality_name(27) == seq!['a', 'u', 'g', '7']);
        } else if j == 28 {
            assert(quality_name(28) == seq!['a', 'u', 'g']);
        } else if j == 29 {
            assert(quality_name(29) == seq!['d', 'i', 'm', '7']);
        } else if j == 30 {
            assert(quality_name(30) == seq!['d', 'i', 'm']);
        } else if j == 31 {
            assert(quality_name(31) == seq!['s', 'u', 's', '2']);
        } else if j == 32 {
            assert(quality_name(32) == seq!['s', 'u', 's', '4']);
        } else if j == 33 {
            assert(quality_name(33) == seq!['1', '3']);
        } else if j == 34 {
            assert(quality_name(34) == seq!['1', '1']);
        } else if j == 35 {
            assert(quality_name(35) == seq!['9', 's', 'u', 's', '4']);
        }
    }
    assert(s.subrange(0, 1) =~= s);
    lemma_scan_reaches(s, 0, 36);
    lemma_name_parses(s, quality_intervals(36), None);
}

proof fn lemma_table_entry_37()
    ensures
        spec_parse_chord_symbol(seq!['C'] + quality_name(37)) == Ok::<ChordModel, ChordFailure>(
            ChordModel { root: 0, intervals: quality_intervals(37), slash_bass: None, roman: None },
        ),
{
    let s = quality_name(37);
    assert(s == seq!['7', 's', 'u', 's', '4']);
    assert forall|j: int| 0 <= j < 37 implies !is_prefix(s, #[trigger] quality_name(j)) by {
        if j == 0 {
            assert(quality_name(0) == seq!['m', 'a', 'j', '1', '3']);
            assert(s.subrange(0, 5)[0] != quality_name(0)[0]);
        } else if j == 1 {
            assert(quality_name(1) == seq!['m', 'a', 'j', '1', '1']);
            assert(s.subrange(0, 5)[0] != quality_name(1)[0]);
        } else if j == 2 {
            assert(quality_name(2) == seq!['m', 'a', 'j', '9']);
            assert(s.subrange(0, 4)[0] != quality_name(2)[0]);
        } else if j == 3 {
            assert(quality_name(3) == seq!['m', 'a', 'j', '7']);
            assert(s.subrange(0, 4)[0] != quality_name(3)[0]);
        } else if j == 4 {
            assert(quality_name(4) == seq!['m', 'i', 'n', '9']);
            assert(s.subrange(0, 4)[0] != quality_name(4)[0]);
        } else if j == 5 {
            assert(quality_name(5) == seq!['m', 'i', 'n', '7']);
            assert(s.subrange(0, 4)[0] != quality_name(5)[0]);
        } else if j == 6 {
            assert(quality_name(6) == seq!['m', 'i', 'n']);
            assert(s.subrange(0, 3)[0] != quality_name(6)[0]);
        } else if j == 7 {
            assert(quality_name(7) == seq!['m', 'M', 'a', 'j', '9']);
            assert(s.subrange(0, 5)[0] != quality_name(7)[0]);
        } else if j == 8 {
            assert(quality_name(8) == seq!['m', 'M', 'a', 'j', '7']);
            assert(s.subrange(0, 5)[0] != quality_name(8)[0]);
        } else if j == 9 {
            assert(quality_name(9) == seq!['m', 'M', '9']);
            assert(s.subrange(0, 3)[0] != quality_name(9)[0]);
        } else if j == 10 {
            assert(quality_name(10) == seq!['m', 'M', '7']);
            assert(s.subrange(0, 3)[0] != quality_name(10)[0]);
        } else if j == 11 {
            assert(quality_name(11) == seq!['m', '7', 'b', '5']);
            assert(s.subrange(0, 4)[0] != quality_name(11)[0]);
        } else if j == 12 {
            assert(quality_name(12) == seq!['m', '(', 'a', 'd', 'd', '9', ')']);
        } else if j == 13 {
            assert(quality_name(13) == seq!['m', 'a', 'd', 'd', '9']);
            assert(s.subrange(0, 5)[0] != quality_name(13)[0]);
        } else if j == 14 {
            assert(quality_name(14) == seq!['m', '1', '3']);
            assert(s.subrange(0, 3)[0] != quality_name(14)[0]);
        } else if j == 15 {
            assert(quality_name(15) == seq!['m', '1', '1']);
            assert(s.subrange(0, 3)[0] != quality_name(15)[0]);
        } else if j == 16 {
            assert(quality_name(16) == seq!['m', '9']);
            assert(s.subrange(0, 2)[0] != quality_name(16)[0]);
        } else if j == 17 {
            assert(quality_name(17) == seq!['m', '7']);
            assert(s.subrange(0, 2)[0] != quality_name(17)[0]);
        } else if j == 18 {
            assert(quality_name(18) == seq!['m', '6', '/', '9']);
            assert(s.subrange(0, 4)[0] != quality_name(18)[0]);
        } else if j == 19 {
            assert(quality_name(19) == seq!['m', '6']);
            assert(s.subrange(0, 2)[0] != quality_name(19)[0]);
        } else if j == 20 {
            assert(quality_name(20) == seq!['m']);
            assert(s.subrange(0, 1)[0] != quality_name(20)[0]);
        } else if j == 21 {
            assert(quality_name(21) == seq!['M', '9']);
            assert(s.subrange(0, 2)[0] != quality_name(21)[0]);
        } else if j == 22 {
            assert(quality_name(22) == seq!['M', '7']);
            assert(s.subrange(0, 2)[0] != quality_name(22)[0]);
        } else if j == 23 {
            assert(quality_name(23) == seq!['a', 'd', 'd', '1', '1']);
            assert(s.subrange(0, 5)[0] != quality_name(23)[0]);
        } else if j == 24 {
            assert(quality_name(24) == seq!['a', 'd', 'd', '9']);
            assert(s.subrange(0, 4)[0] != quality_name(24)[0]);
        } else if j == 25 {
            assert(quality_name(25) == seq!['a', 'd', 'd', '2']);
            assert(s.subrange(0, 4)[0] != quality_name(25)[0]);
        } else if j == 26 {
            assert(quality_name(26) == seq!['a', 'u', 'g', 'm', 'a', 'j', '7']);
        } else if j == 27 {
            assert(quality_name(27) == seq!['a', 'u', 'g', '7']);
            assert(s.subrange(0, 4)[0] != quality_name(27)[0]);
        } else if j == 28 {
            assert(quality_name(28) == seq!['a', 'u', 'g']);
            assert(s.subrange(0, 3)[0] != quality_name(28)[0]);
        } else if j == 29 {
            assert(quality_name(29) == seq!['d', 'i', 'm', '7']);
            assert(s.subrange(0, 4)[0] != quality_name(29)[0]);
        } else if j == 30 {
            assert(quality_name(30) == seq!['d', 'i', 'm']);
            assert(s.subrange(0, 3)[0] != quality_name(30)[0]);
        } else if j == 31 {
            assert(quality_name(31) == seq!['s', 'u', 's', '2']);
            assert(s.subrange(0, 4)[0] != quality_name(31)[0]);
        } else if j == 32 {
            assert(quality_name(32) == seq!['s', 'u', 's', '4']);
            assert(s.subrange(0, 4)[0] != quality_name(32)[0]);
        } else if j == 33 {
            assert(quality_name(33) == seq!['1', '3']);
            assert(s.subrange(0, 2)[0] != quality_name(33)[0]);
        } else if j == 34 {
            assert(quality_name(34) == seq!['1', '1']);
            assert(s.subrange(0, 2)[0] != quality_name(34)[0]);
        } else if j == 35 {
            assert(quality_name(35) == seq!['9', 's', 'u', 's', '4']);
            assert(s.subrange(0, 5)[0] != quality_name(35)[0]);
        } else if j == 36 {
            assert(quality_name(36) == seq!['9']);
            assert(s.subrange(0, 1)[0] != quality_name(36)[0]);
        }
    }
    assert(s.subrange(0, 5) =~= s);
    lemma_scan_reaches(s, 0, 37);
    lemma_name_parses(s, quality_intervals(37), None);
}

proof fn lemma_table_entry_38()
    ensures
        spec_parse_chord_symbol(seq!['C'] + quality_name(38)) == Ok::<ChordModel, ChordFailure>(
            ChordModel { root: 0, intervals: quality_intervals(38), slash_bass: None, roman: None },
        ),
{
    let s = quality_name(38);
    assert(s == seq!['7', 's', 'u', 's', '2']);
    assert forall|j: int| 0 <= j < 38 implies !is_prefix(s, #[trigger] quality_name(j)) by {
        if j == 0 {
            assert(quality_name(0) == seq!['m', 'a', 'j', '1', '3']);
            assert(s.subrange(0, 5)[0] != quality_name(0)[0]);
        } else if j == 1 {
            assert(quality_name(1) == seq!['m', 'a', 'j', '1', '1']);
            assert(s.subrange(0, 5)[0] != quality_name(1)[0]);
        } else if j == 2 {
            assert(quality_name(2) == seq!['m', 'a', 'j', '9']);
            assert(s.subrange(0, 4)[0] != quality_name(2)[0]);
        } else if j == 3 {
            assert(quality_name(3) == seq!['m', 'a', 'j', '7']);
            assert(s.subrange(0, 4)[0] != quality_name(3)[0]);
        } else if j == 4 {
            assert(quality_name(4) == seq!['m', 'i', 'n', '9']);
            assert(s.subrange(0, 4)[0] != quality_name(4)[0]);
        } else if j == 5 {
            assert(quality_name(5) == seq!['m', 'i', 'n', '7']);
            assert(s.subrange(0, 4)[0] != quality_name(5)[0]);
        } else if j == 6 {
            assert(quality_name(6) == seq!['m', 'i', 'n']);
            assert(s.subrange(0, 3)[0] != quality_name(6)[0]);
        } else if j == 7 {
            assert(quality_name(7) == seq!['m', 'M', 'a', 'j', '9']);
            assert(s.subrange(0, 5)[0] != quality_name(7)[0]);
        } else if j == 8 {
            assert(quality_name(8) == seq!['m', 'M', 'a', 'j', '7']);
            assert(s.subrange(0, 5)[0] != quality_name(8)[0]);
        } else if j == 9 {
            assert(quality_name(9) == seq!['m', 'M', '9']);
            assert(s.subrange(0, 3)[0] != quality_name(9)[0]);
        } else if j == 10 {
            assert(quality_name(10) == seq!['m', 'M', '7']);
            assert(s.subrange(0, 3)[0] != quality_name(10)[0]);
        } else if j == 11 {
            assert(quality_name(11) == seq!['m', '7', 'b', '5']);
            assert(s.subrange(0, 4)[0] != quality_name(11)[0]);
        } else if j == 12 {
            assert(quality_name(12) == seq!['m', '(', 'a', 'd', 'd', '9', ')']);
        } else if j == 13 {
            assert(quality_name(13) == seq!['m', 'a', 'd', 'd', '9']);
            assert(s.subrange(0, 5)[0] != quality_name(13)[0]);
        } else if j == 14 {
            assert(quality_name(14) == seq!['m', '1', '3']);
            assert(s.subrange(0, 3)[0] != quality_name(14)[0]);
        } else if j == 15 {
            assert(quality_name(15) == seq!['m', '1', '1']);
            assert(s.subrange(0, 3)[0] != quality_name(15)[0]);
        } else if j == 16 {
            assert(quality_name(16) == seq!['m', '9']);
            assert(s.subrange(0, 2)[0] != quality_name(16)[0]);
        } else if j == 17 {
            assert(quality_name(17) == seq!['m', '7']);
            assert(s.subrange(0, 2)[0] != quality_name(17)[0]);
        } else if j == 18 {
            assert(quality_name(18) == seq!['m', '6', '/', '9']);
            assert(s.subrange(0, 4)[0] != quality_name(18)[0]);
        } else if j == 19 {
            assert(quality_name(19) == seq!['m', '6']);
            assert(s.subrange(0, 2)[0] != quality_name(19)[0]);
        } else if j == 20 {
            assert(quality_name(20) == seq!['m']);
            assert(s.subrange(0, 1)[0] != quality_name(20)[0]);
        } else if j == 21 {
            assert(quality_name(21) == seq!['M', '9']);
            assert(s.subrange(0, 2)[0] != quality_name(21)[0]);
        } else if j == 22 {
            assert(quality_name(22) == seq!['M', '7']);
            assert(s.subrange(0, 2)[0] != quality_name(22)[0]);
        } else if j == 23 {
            assert(quality_name(23) == seq!['a', 'd', 'd', '1', '1']);
            assert(s.subrange(0, 5)[0] != quality_name(23)[0]);
        } else if j == 24 {
            assert(quality_name(24) == seq!['a', 'd', 'd', '9']);
            assert(s.subrange(0, 4)[0] != quality_name(24)[0]);
        } else if j == 25 {
            assert(quality_name(25) == seq!['a', 'd', 'd', '2']);
            assert(s.subrange(0, 4)[0] != quality_name(25)[0]);
        } else if j == 26 {
            assert(quality_name(26) == seq!['a', 'u', 'g', 'm', 'a', 'j', '7']);
        } else if j == 27 {
            assert(quality_name(27) == seq!['a', 'u', 'g', '7']);
            assert(s.subrange(0, 4)[0] != quality_name(27)[0]);
        } else if j == 28 {
            assert(quality_name(28) == seq!['a', 'u', 'g']);
            assert(s.subrange(0, 3)[0] != quality_name(28)[0]);
        } else if j == 29 {
            assert(quality_name(29) == seq!['d', 'i', 'm', '7']);
            assert(s.subrange(0, 4)[0] != quality_name(29)[0]);
        } else if j == 30 {
            assert(quality_name(30) == seq!['d', 'i', 'm']);
            assert(s.subrange(0, 3)[0] != quality_name(30)[0]);
        } else if j == 31 {
            assert(quality_name(31) == seq!['s', 'u', 's', '2']);
            assert(s.subrange(0, 4)[0] != quality_name(31)[0]);
        } else if j == 32 {
            assert(quality_name(32) == seq!['s', 'u', 's', '4']);
            assert(s.subrange(0, 4)[0] != quality_name(32)[0]);
        } else if j == 33 {
            assert(quality_name(33) == seq!['1', '3']);
            assert(s.subrange(0, 2)[0] != quality_name(33)[0]);
        } else if j == 34 {
            assert(quality_name(34) == seq!['1', '1']);
            assert(s.subrange(0, 2)[0] != quality_name(34)[0]);
        } else if j == 35 {
            assert(quality_name(35) == seq!['9', 's', 'u', 's', '4']);
            assert(s.subrange(0, 5)[0] != quality_name(35)[0]);
        } else if j == 36 {
            assert(quality_name(36) == seq!['9']);
            assert(s.subrange(0, 1)[0] != quality_name(36)[0]);
        } else if j == 37 {
            assert(quality_name(37) == seq!['7', 's', 'u', 's', '4']);
            assert(s.subrange(0, 5)[4] != quality_name(37)[4]);
        }
    }
    assert(s.subrange(0, 5) =~= s);
    lemma_scan_reaches(s, 0, 38);
    lemma_name_parses(s, quality_intervals(38), None);
}

proof fn lemma_table_entry_39()
    ensures
        spec_parse_chord_symbol(seq!['C'] + quality_name(39)) == Ok::<ChordModel, ChordFailure>(
            ChordModel { root: 0, intervals: quality_intervals(39), slash_bass: None, roman: None },
        ),
{
    let s = quality_name(39);
    assert(s == seq!['7', 's', 'u', 's']);
    assert forall|j: int| 0 <= j < 39 implies !is_prefix(s, #[trigger] quality_name(j)) by {
        if j == 0 {
            assert(quality_name(0) == seq!['m', 'a', 'j', '1', '3']);
        } else if j == 1 {
            assert(quality_name(1) == seq!['m', 'a', 'j', '1', '1']);
        } else if j == 2 {
            assert(quality_name(2) == seq!['m', 'a', 'j', '9']);
            assert(s.subrange(0, 4)[0] != quality_name(2)[0]);
        } else if j == 3 {
            assert(quality_name(3) == seq!['m', 'a', 'j', '7']);
            assert(s.subrange(0, 4)[0] != quality_name(3)[0]);
        } else if j == 4 {
            assert(quality_name(4) == seq!['m', 'i', 'n', '9']);
            assert(s.subrange(0, 4)[0] != quality_name(4)[0]);
        } else if j == 5 {
            assert(quality_name(5) == seq!['m', 'i', 'n', '7']);
            assert(s.subrange(0, 4)[0] != quality_name(5)[0]);
        } else if j == 6 {
            assert(quality_name(6) == seq!['m', 'i', 'n']);
            assert(s.subrange(0, 3)[0] != quality_name(6)[0]);
        } else if j == 7 {
            assert(quality_name(7) == seq!['m', 'M', 'a', 'j', '9']);
        } else if j == 8 {
            assert(quality_name(8) == seq!['m', 'M', 'a', 'j', '7']);
        } else if j == 9 {
            assert(quality_name(9) == seq!['m', 'M', '9']);
            assert(s.subrange(0, 3)[0] != quality_name(9)[0]);
        } else if j == 10 {
            assert(quality_name(10) == seq!['m', 'M', '7']);
            assert(s.subrange(0, 3)[0] != quality_name(10)[0]);
        } else if j == 11 {
            assert(quality_name(11) == seq!['m', '7', 'b', '5']);
            assert(s.subrange(0, 4)[0] != quality_name(11)[0]);
        } else if j == 12 {
            assert(quality_name(12) == seq!['m', '(', 'a', 'd', 'd', '9', ')']);
        } else if j == 13 {
            assert(quality_name(13) == seq!['m', 'a', 'd', 'd', '9']);
        } else if j == 14 {
            assert(quality_name(14) == seq!['m', '1', '3']);
            assert(s.subrange(0, 3)[0] != quality_name(14)[0]);
        } else if j == 15 {
            assert(quality_name(15) == seq!['m', '1', '1']);
            assert(s.subrange(0, 3)[0] != quality_name(15)[0]);
        } else if j == 16 {
            assert(quality_name(16) == seq!['m', '9']);
            assert(s.subrange(0, 2)[0] != quality_name(16)[0]);
        } else if j == 17 {
            assert(quality_name(17) == seq!['m', '7']);
            assert(s.subrange(0, 2)[0] != quality_name(17)[0]);
        } else if j == 18 {
            assert(quality_name(18) == seq!['m', '6', '/', '9']);
            assert(s.subrange(0, 4)[0] != quality_name(18)[0]);
        } else if j == 19 {
            assert(quality_name(19) == seq!['m', '6']);
            assert(s.subrange(0, 2)[0] != quality_name(19)[0]);
        } else if j == 20 {
            assert(quality_name(20) == seq!['m']);
            assert(s.subrange(0, 1)[0] != quality_name(20)[0]);
        } else if j == 21 {
            assert(quality_name(21) == seq!['M', '9']);
            assert(s.subrange(0, 2)[0] != quality_name(21)[0]);
        } else if j == 22 {
            assert(quality_name(22) == seq!['M', '7']);
            assert(s.subrange(0, 2)[0] != quality_name(22)[0]);
        } else if j == 23 {
            assert(quality_name(23) == seq!['a', 'd', 'd', '1', '1']);
        } else if j == 24 {
            assert(quality_name(24) == seq!['a', 'd', 'd', '9']);
            assert(s.subrange(0, 4)[0] != quality_name(24)[0]);
        } else if j == 25 {
            assert(quality_name(25) == seq!['a', 'd', 'd', '2']);
            assert(s.subrange(0, 4)[0] != quality_name(25)[0]);
        } else if j == 26 {
            assert(quality_name(26) == seq!['a', 'u', 'g', 'm', 'a', 'j', '7']);
        } else if j == 27 {
            assert(quality_name(27) == seq!['a', 'u', 'g', '7']);
            assert(s.subrange(0, 4)[0] != quality_name(27)[0]);
        } else if j == 28 {
            assert(quality_name(28) == seq!['a', 'u', 'g']);
            assert(s.subrange(0, 3)[0] != quality_name(28)[0]);
        } else if j == 29 {
            assert(quality_name(29) == seq!['d', 'i', 'm', '7']);
            assert(s.subrange(0, 4)[0] != quality_name(29)[0]);
        } else if j == 30 {
            assert(quality_name(30) == seq!['d', 'i', 'm']);
            assert(s.subrange(0, 3)[0] != quality_name(30)[0]);
        } else if j == 31 {
            assert(quality_name(31) == seq!['s', 'u', 's', '2']);
            assert(s.subrange(0, 4)[0] != quality_name(31)[0]);
        } else if j == 32 {
            assert(quality_name(32) == seq!['s', 'u', 's', '4']);
            assert(s.subrange(0, 4)[0] != quality_name(32)[0]);
        } else if j == 33 {
            assert(quality_name(33) == seq!['1', '3']);
            assert(s.subrange(0, 2)[0] != quality_name(33)[0]);
        } else if j == 34 {
            assert(quality_name(34) == seq!['1', '1']);
            assert(s.subrange(0, 2)[0] != quality_name(34)[0]);
        } else if j == 35 {
            assert(quality_name(35) == seq!['9', 's', 'u', 's', '4']);
        } else if j == 36 {
            assert(quality_name(36) == seq!['9']);
            assert(s.subrange(0, 1)[0] != quality_name(36)[0]);
        } else if j == 37 {
            assert(quality_name(37) == seq!['7', 's', 'u', 's', '4']);
        } else if j == 38 {
            assert(quality_name(38) == seq!['7', 's', 'u', 's', '2']);
        }
    }
    assert(s.subrange(0, 4) =~= s);
    lemma_scan_reaches(s, 0, 39);
    lemma_name_parses(s, quality_intervals(39), None);
}

proof fn lemma_table_entry_40()
    ensures
        spec_parse_chord_symbol(seq!['C'] + quality_name(40)) == Ok::<ChordModel, ChordFailure>(
            ChordModel { root: 0, intervals: quality_intervals(40), slash_bass: None, roman: None },
        ),
{
    let s = quality_name(40);
    assert(s == seq!['7']);
    assert forall|j: int| 0 <= j < 40 implies !is_prefix(s, #[trigger] quality_name(j)) by {
        if j == 0 {
            assert(quality_name(0) == seq!['m', 'a', 'j', '1', '3']);
        } else if j == 1 {
            assert(quality_name(1) == seq!['m', 'a', 'j', '1', '1']);
        } else if j == 2 {
            assert(quality_name(2) == seq!['m', 'a', 'j', '9']);
        } else if j == 3 {
            assert(quality_name(3) == seq!['m', 'a', 'j', '7']);
        } else if j == 4 {
            assert(quality_name(4) == seq!['m', 'i', 'n', '9']);
        } else if j == 5 {
            assert(quality_name(5) == seq!['m', 'i', 'n', '7']);
        } else if j == 6 {
            assert(quality_name(6) == seq!['m', 'i', 'n']);
        } else if j == 7 {
            assert(quality_name(7) == seq!['m', 'M', 'a', 'j', '9']);
        } else if j == 8 {
            assert(quality_name(8) == seq!['m', 'M', 'a', 'j', '7']);
        } else if j == 9 {
            assert(quality_name(9) == seq!['m', 'M', '9']);
        } else if j == 10 {
            assert(quality_name(10) == seq!['m', 'M', '7']);
        } else if j == 11 {
            assert(quality_name(11) == seq!['m', '7', 'b', '5']);
        } else if j == 12 {
            assert(quality_name(12) == seq!['m', '(', 'a', 'd', 'd', '9', ')']);
        } else if j == 13 {
            assert(quality_name(13) == seq!['m', 'a', 'd', 'd', '9']);
        } else if j == 14 {
            assert(quality_name(14) == seq!['m', '1', '3']);
        } else if j == 15 {
            assert(quality_name(15) == seq!['m', '1', '1']);
        } else if j == 16 {
            assert(quality_name(16) == seq!['m', '9']);
        } else if j == 17 {
            assert(quality_name(17) == seq!['m', '7']);
        } else if j == 18 {
            assert(quality_name(18) == seq!['m', '6', '/', '9']);
        } else if j == 19 {
            assert(quality_name(19) == seq!['m', '6']);
        } else if j == 20 {
            assert(quality_name(20) == seq!['m']);
            assert(s.subrange(0, 1)[0] != quality_name(20)[0]);
        } else if j == 21 {
            assert(quality_name(21) == seq!['M', '9']);
        } else if j == 22 {
            assert(quality_name(22) == seq!['M', '7']);
        } else if j == 23 {
            assert(quality_name(23) == seq!['a', 'd', 'd', '1', '1']);
        } else if j == 24 {
            assert(quality_name(24) == seq!['a', 'd', 'd', '9']);
        } else if j == 25 {
            assert(quality_name(25) == seq!['a', 'd', 'd', '2']);
        } else if j == 26 {
            assert(quality_name(26) == seq!['a', 'u', 'g', 'm', 'a', 'j', '7']);
        } else if j == 27 {
            assert(quality_name(27) == seq!['a', 'u', 'g', '7']);
        } else if j == 28 {
            assert(quality_name(28) == seq!['a', 'u', 'g']);
        } else if j == 29 {
            assert(quality_name(29) == seq!['d', 'i', 'm', '7']);
        } else if j == 30 {
            assert(quality_name(30) == seq!['d', 'i', 'm']);
        } else if j == 31 {
            assert(quality_name(31) == seq!['s', 'u', 's', '2']);
        } else if j == 32 {
            assert(quality_name(32) == seq!['s', 'u', 's', '4']);
        } else if j == 33 {
            assert(quality_name(33) == seq!['1', '3']);
        } else if j == 34 {
            assert(quality_name(34) == seq!['1', '1']);
        } else if j == 35 {
            assert(quality_name(35) == seq!['9', 's', 'u', 's', '4']);
        } else if j == 36 {
            assert(quality_name(36) == seq!['9']);
            assert(s.subrange(0, 1)[0] != quality_name(36)[0]);
        } else if j == 37 {
            assert(quality_name(37) == seq!['7', 's', 'u', 's', '4']);
        } else if j == 38 {
            assert(quality_name(38) == seq!['7', 's', 'u', 's', '2']);
        } else if j == 39 {
            assert(quality_name(39) == seq!['7', 's', 'u', 's']);
        }
    }
    assert(s.subrange(0, 1) =~= s);
    lemma_scan_reaches(s, 0, 40);
    lemma_name_parses(s, quality_intervals(40), None);
}

proof fn lemma_table_entry_41()
    ensures
        spec_parse_chord_symbol(seq!['C'] + quality_name(41)) == Ok::<ChordModel, ChordFailure>(
            ChordModel { root: 0, intervals: quality_intervals(41), slash_bass: None, roman: None },
        ),
{
    let s = quality_name(41);
    assert(s == seq!['6', '/', '9']);
    assert forall|j: int| 0 <= j < 41 implies !is_prefix(s, #[trigger] quality_name(j)) by {
        if j == 0 {
            assert(quality_name(0) == seq!['m', 'a', 'j', '1', '3']);
        } else if j == 1 {
            assert(quality_name(1) == seq!['m', 'a', 'j', '1', '1']);
        } else if j == 2 {
            assert(quality_name(2) == seq!['m', 'a', 'j', '9']);
        } else if j == 3 {
            assert(quality_name(3) == seq!['m', 'a', 'j', '7']);
        } else if j == 4 {
            assert(quality_name(4) == seq!['m', 'i', 'n', '9']);
        } else if j == 5 {
            assert(quality_name(5) == seq!['m', 'i', 'n', '7']);
        } else if j == 6 {
            assert(quality_name(6) == seq!['m', 'i', 'n']);
            assert(s.subrange(0, 3)[0] != quality_name(6)[0]);
        } else if j == 7 {
            assert(quality_name(7) == seq!['m', 'M', 'a', 'j', '9']);
        } else if j == 8 {
            assert(quality_name(8) == seq!['m', 'M', 'a', 'j', '7']);
        } else if j == 9 {
            assert(quality_name(9) == seq!['m', 'M', '9']);
            assert(s.subrange(0, 3)[0] != quality_name(9)[0]);
        } else if j == 10 {
            assert(quality_name(10) == seq!['m', 'M', '7']);
            assert(s.subrange(0, 3)[0] != quality_name(10)[0]);
        } else if j == 11 {
            assert(quality_name(11) == seq!['m', '7', 'b', '5']);
        } else if j == 12 {
            assert(quality_name(12) == seq!['m', '(', 'a', 'd', 'd', '9', ')']);
        } else if j == 13 {
            assert(quality_name(13) == seq!['m', 'a', 'd', 'd', '9']);
        } else if j == 14 {
            assert(quality_name(14) == seq!['m', '1', '3']);
            assert(s.subrange(0, 3)[0] != quality_name(14)[0]);
        } else if j == 15 {
            assert(quality_name(15) == seq!['m', '1', '1']);
            assert(s.subrange(0, 3)[0] != quality_name(15)[0]);
        } else if j == 16 {
            assert(quality_name(16) == seq!['m', '9']);
            assert(s.subrange(0, 2)[0] != quality_name(16)[0]);
        } else if j == 17 {
            assert(quality_name(17) == seq!['m', '7']);
            assert(s.subrange(0, 2)[0] != quality_name(17)[0]);
        } else if j == 18 {
            assert(quality_name(18) == seq!['m', '6', '/', '9']);
        } else if j == 19 {
            assert(quality_name(19) == seq!['m', '6']);
            assert(s.subrange(0, 2)[0] != quality_name(19)[0]);
        } else if j == 20 {
            assert(quality_name(20) == seq!['m']);
            assert(s.subrange(0, 1)[0] != quality_name(20)[0]);
        } else if j == 21 {
            assert(quality_name(21) == seq!['M', '9']);
            assert(s.subrange(0, 2)[0] != quality_name(21)[0]);
        } else if j == 22 {
            assert(quality_name(22) == seq!['M', '7']);
            assert(s.subrange(0, 2)[0] != quality_name(22)[0]);
        } else if j == 23 {
            assert(quality_name(23) == seq!['a', 'd', 'd', '1', '1']);
        } else if j == 24 {
            assert(quality_name(24) == seq!['a', 'd', 'd', '9']);
        } else if j == 25 {
            assert(quality_name(25) == seq!['a', 'd', 'd', '2']);
        } else if j == 26 {
            assert(quality_name(26) == seq!['a', 'u', 'g', 'm', 'a', 'j', '7']);
        } else if j == 27 {
            assert(quality_name(27) == seq!['a', 'u', 'g', '7']);
        } else if j == 28 {
            assert(quality_name(28) == seq!['a', 'u', 'g']);
            assert(s.subrange(0, 3)[0] != quality_name(28)[0]);
        } else if j == 29 {
            assert(quality_name(29) == seq!['d', 'i', 'm', '7']);
        } else if j == 30 {
            assert(quality_name(30) == seq!['d', 'i', 'm']);
            assert(s.subrange(0, 3)[0] != quality_name(30)[0]);
        } else if j == 31 {
            assert(quality_name(31) == seq!['s', 'u', 's', '2']);
        } else if j == 32 {
            assert(quality_name(32) == seq!['s', 'u', 's', '4']);
        } else if j == 33 {
            assert(quality_name(33) == seq!['1', '3']);
            assert(s.subrange(0, 2)[0] != quality_name(33)[0]);
        } else if j == 34 {
            assert(quality_name(34) == seq!['1', '1']);
            assert(s.subrange(0, 2)[0] != quality_name(34)[0]);
        } else if j == 35 {
            assert(quality_name(35) == seq!['9', 's', 'u', 's', '4']);
        } else if j == 36 {
            assert(quality_name(36) == seq!['9']);
            assert(s.subrange(0, 1)[0] != quality_name(36)[0]);
        } else if j == 37 {
            assert(quality_name(37) == seq!['7', 's', 'u', 's', '4']);
        } else if j == 38 {
            assert(quality_name(38) == seq!['7', 's', 'u', 's', '2']);
        } else if j == 39 {
            assert(quality_name(39) == seq!['7', 's', 'u', 's']);
        } else if j == 40 {
            assert(quality_name(40) == seq!['7']);
            assert(s.subrange(0, 1)[0] != quality_name(40)[0]);
        }
    }
    assert(s.subrange(0, 3) =~= s);
    lemma_scan_reaches(s, 0, 41);
    assert(s.skip(2) =~= seq!['9']);
    lemma_name_parses(s, quality_intervals(41), Some(1));
}

proof fn lemma_table_entry_42()
    ensures
        spec_parse_chord_symbol(seq!['C'] + quality_name(42)) == Ok::<ChordModel, ChordFailure>(
            ChordModel { root: 0, intervals: quality_intervals(42), slash_bass: None, roman: None },
        ),
{
    let s = quality_name(42);
    assert(s == seq!['6']);
    assert forall|j: int| 0 <= j < 42 implies !is_prefix(s, #[trigger] quality_name(j)) by {
        if j == 0 {
            assert(quality_name(0) == seq!['m', 'a', 'j', '1', '3']);
        } else if j == 1 {
            assert(quality_name(1) == seq!['m', 'a', 'j', '1', '1']);
        } else if j == 2 {
            assert(quality_name(2) == seq!['m', 'a', 'j', '9']);
        } else if j == 3 {
            assert(quality_name(3) == seq!['m', 'a', 'j', '7']);
        } else if j == 4 {
            assert(quality_name(4) == seq!['m', 'i', 'n', '9']);
        } else if j == 5 {
            assert(quality_name(5) == seq!['m', 'i', 'n', '7']);
        } else if j == 6 {
            assert(quality_name(6) == seq!['m', 'i', 'n']);
        } else if j == 7 {
            assert(quality_name(7) == seq!['m', 'M', 'a', 'j', '9']);
        } else if j == 8 {
            assert(quality_name(8) == seq!['m', 'M', 'a', 'j', '7']);
        } else if j == 9 {
            assert(quality_name(9) == seq!['m', 'M', '9']);
        } else if j == 10 {
            assert(quality_name(10) == seq!['m', 'M', '7']);
        } else if j == 11 {
            assert(quality_name(11) == seq!['m', '7', 'b', '5']);
        } else if j == 12 {
            assert(quality_name(12) == seq!['m', '(', 'a', 'd', 'd', '9', ')']);
        } else if j == 13 {
            assert(quality_name(13) == seq!['m', 'a', 'd', 'd', '9']);
        } else if j == 14 {
            assert(quality_name(14) == seq!['m', '1', '3']);
        } else if j == 15 {
            assert(quality_name(15) == seq!['m', '1', '1']);
        } else if j == 16 {
            assert(quality_name(16) == seq!['m', '9']);
        } else if j == 17 {
            assert(quality_name(17) == seq!['m', '7']);
        } else if j == 18 {
            assert(quality_name(18) == seq!['m', '6', '/', '9']);
        } else if j == 19 {
            assert(quality_name(19) == seq!['m', '6']);
        } else if j == 20 {
            assert(quality_name(20) == seq!['m']);
            assert(s.subrange(0, 1)[0] != quality_name(20)[0]);
        } else if j == 21 {
            assert(quality_name(21) == seq!['M', '9']);
        } else if j == 22 {
            assert(quality_name(22) == seq!['M', '7']);
        } else if j == 23 {
            assert(quality_name(23) == seq!['a', 'd', 'd', '1', '1']);
        } else if j == 24 {
            assert(quality_name(24) == seq!['a', 'd', 'd', '9']);
        } else if j == 25 {
            assert(quality_name(25) == seq!['a', 'd', 'd', '2']);
        } else if j == 26 {
            assert(quality_name(26) == seq!['a', 'u', 'g', 'm', 'a', 'j', '7']);
        } else if j == 27 {
            assert(quality_name(27) == seq!['a', 'u', 'g', '7']);
        } else if j == 28 {
            assert(quality_name(28) == seq!['a', 'u', 'g']);
        } else if j == 29 {
            assert(quality_name(29) == seq!['d', 'i', 'm', '7']);
        } else if j == 30 {
            assert(quality_name(30) == seq!['d', 'i', 'm']);
        } else if j == 31 {
            assert(quality_name(31) == seq!['s', 'u', 's', '2']);
        } else if j == 32 {
            assert(quality_name(32) == seq!['s', 'u', 's', '4']);
        } else if j == 33 {
            assert(quality_name(33) == seq!['1', '3']);
        } else if j == 34 {
            assert(quality_name(34) == seq!['1', '1']);
        } else if j == 35 {
            assert(quality_name(35) == seq!['9', 's', 'u', 's', '4']);
        } else if j == 36 {
            assert(quality_name(36) == seq!['9']);
            assert(s.subrange(0, 1)[0] != quality_name(36)[0]);
        } else if j == 37 {
            assert(quality_name(37) == seq!['7', 's', 'u', 's', '4']);
        } else if j == 38 {
            assert(quality_name(38) == seq!['7', 's', 'u', 's', '2']);
        } else if j == 39 {
            assert(quality_name(39) == seq!['7', 's', 'u', 's']);
        } else if j == 40 {
            assert(quality_name(40) == seq!['7']);
            assert(s.subrange(0, 1)[0] != quality_name(40)[0]);
        } else if j == 41 {
            assert(quality_name(41) == seq!['6', '/', '9']);
        }
    }
    assert(s.subrange(0, 1) =~= s);
    lemma_scan_reaches(s, 0, 42);
    lemma_name_parses(s, quality_intervals(42), None);
}

proof fn lemma_table_entry_43()
    ensures
        spec_parse_chord_symbol(seq!['C'] + quality_name(43)) == Ok::<ChordModel, ChordFailure>(
            ChordModel { root: 0, intervals: quality_intervals(43), slash_bass: None, roman: None },
        ),
{
    let s = quality_name(43);
    assert(s == seq!['5']);
    assert forall|j: int| 0 <= j < 43 implies !is_prefix(s, #[trigger] quality_name(j)) by {
        if j == 0 {
            assert(quality_name(0) == seq!['m', 'a', 'j', '1', '3']);
        } else if j == 1 {
            assert(quality_name(1) == seq!['m', 'a', 'j', '1', '1']);
        } else if j == 2 {
            assert(quality_name(2) == seq!['m', 'a', 'j', '9']);
        } else if j == 3 {
            assert(quality_name(3) == seq!['m', 'a', 'j', '7']);
        } else if j == 4 {
            assert(quality_name(4) == seq!['m', 'i', 'n', '9']);
        } else if j == 5 {
            assert(quality_name(5) == seq!['m', 'i', 'n', '7']);
        } else if j == 6 {
            assert(quality_name(6) == seq!['m', 'i', 'n']);
        } else if j == 7 {
            assert(quality_name(7) == seq!['m', 'M', 'a', 'j', '9']);
        } else if j == 8 {
            assert(quality_name(8) == seq!['m', 'M', 'a', 'j', '7']);
        } else if j == 9 {
            assert(quality_name(9) == seq!['m', 'M', '9']);
        } else if j == 10 {
            assert(quality_name(10) == seq!['m', 'M', '7']);
        } else if j == 11 {
            assert(quality_name(11) == seq!['m', '7', 'b', '5']);
        } else if j == 12 {
            assert(quality_name(12) == seq!['m', '(', 'a', 'd', 'd', '9', ')']);
        } else if j == 13 {
            assert(quality_name(13) == seq!['m', 'a', 'd', 'd', '9']);
        } else if j == 14 {
            assert(quality_name(14) == seq!['m', '1', '3']);
        } else if j == 15 {
            assert(quality_name(15) == seq!['m', '1', '1']);
        } else if j == 16 {
            assert(quality_name(16) == seq!['m', '9']);
        } else if j == 17 {
            assert(quality_name(17) == seq!['m', '7']);
        } else if j == 18 {
            assert(quality_name(18) == seq!['m', '6', '/', '9']);
        } else if j == 19 {
            assert(quality_name(19) == seq!['m', '6']);
        } else if j == 20 {
            assert(quality_name(20) == seq!['m']);
            assert(s.subrange(0, 1)[0] != quality_name(20)[0]);
        } else if j == 21 {
            assert(quality_name(21) == seq!['M', '9']);
        } else if j == 22 {
            assert(quality_name(22) == seq!['M', '7']);
        } else if j == 23 {
            assert(quality_name(23) == seq!['a', 'd', 'd', '1', '1']);
        } else if j == 24 {
            assert(quality_name(24) == seq!['a', 'd', 'd', '9']);
        } else if j == 25 {
            assert(quality_name(25) == seq!['a', 'd', 'd', '2']);
        } else if j == 26 {
            assert(quality_name(26) == seq!['a', 'u', 'g', 'm', 'a', 'j', '7']);
        } else if j == 27 {
            assert(quality_name(27) == seq!['a', 'u', 'g', '7']);
        } else if j == 28 {
            assert(quality_name(28) == seq!['a', 'u', 'g']);
        } else if j == 29 {
            assert(quality_name(29) == seq!['d', 'i', 'm', '7']);
        } else if j == 30 {
            assert(quality_name(30) == seq!['d', 'i', 'm']);
        } else if j == 31 {
            assert(quality_name(31) == seq!['s', 'u', 's', '2']);
        } else if j == 32 {
            assert(quality_name(32) == seq!['s', 'u', 's', '4']);
        } else if j == 33 {
            assert(quality_name(33) == seq!['1', '3']);
        } else if j == 34 {
            assert(quality_name(34) == seq!['1', '1']);
        } else if j == 35 {
            assert(quality_name(35) == seq!['9', 's', 'u', 's', '4']);
        } else if j == 36 {
            assert(quality_name(36) == seq!['9']);
            assert(s.subrange(0, 1)[0] != quality_name(36)[0]);
        } else if j == 37 {
            assert(quality_name(37) == seq!['7', 's', 'u', 's', '4']);
        } else if j == 38 {
            assert(quality_name(38) == seq!['7', 's', 'u', 's', '2']);
        } else if j == 39 {
            assert(quality_name(39) == seq!['7', 's', 'u', 's']);
        } else if j == 40 {
            assert(quality_name(40) == seq!['7']);
            assert(s.subrange(0, 1)[0] != quality_name(40)[0]);
        } else if j == 41 {
            assert(quality_name(41) == seq!['6', '/', '9']);
        } else if j == 42 {
            assert(quality_name(42) == seq!['6']);
            assert(s.subrange(0, 1)[0] != quality_name(42)[0]);
        }
    }
    assert(s.subrange(0, 1) =~= s);
    lemma_scan_reaches(s, 0, 43);
    lemma_name_parses(s, quality_intervals(43), None);
}

proof fn lemma_table_entry_44()
    ensures
        spec_parse_chord_symbol(seq!['C'] + quality_name(44)) == Ok::<ChordModel, ChordFailure>(
            ChordModel { root: 0, intervals: quality_intervals(44), slash_bass: None, roman: None },
        ),
{
    let s = quality_name(44);
    assert(s == Seq::<char>::empty());
    assert forall|j: int| 0 <= j < 44 implies !is_prefix(s, #[trigger] quality_name(j)) by {
        if j == 0 {
            assert(quality_name(0) == seq!['m', 'a', 'j', '1', '3']);
        } else if j == 1 {
            assert(quality_name(1) == seq!['m', 'a', 'j', '1', '1']);
        } else if j == 2 {
            assert(quality_name(2) == seq!['m', 'a', 'j', '9']);
        } else if j == 3 {
            assert(quality_name(3) == seq!['m', 'a', 'j', '7']);
        } else if j == 4 {
            assert(quality_name(4) == seq!['m', 'i', 'n', '9']);
        } else if j == 5 {
            assert(quality_name(5) == seq!['m', 'i', 'n', '7']);
        } else if j == 6 {
            assert(quality_name(6) == seq!['m', 'i', 'n']);
        } else if j == 7 {
            assert(quality_name(7) == seq!['m', 'M', 'a', 'j', '9']);
        } else if j == 8 {
            assert(quality_name(8) == seq!['m', 'M', 'a', 'j', '7']);
        } else if j == 9 {
            assert(quality_name(9) == seq!['m', 'M', '9']);
        } else if j == 10 {
            assert(quality_name(10) == seq!['m', 'M', '7']);
        } else if j == 11 {
            assert(quality_name(11) == seq!['m', '7', 'b', '5']);
        } else if j == 12 {
            assert(quality_name(12) == seq!['m', '(', 'a', 'd', 'd', '9', ')']);
        } else if j == 13 {
            assert(quality_name(13) == seq!['m', 'a', 'd', 'd', '9']);
        } else if j == 14 {
            assert(quality_name(14) == seq!['m', '1', '3']);
        } else if j == 15 {
            assert(quality_name(15) == seq!['m', '1', '1']);
        } else if j == 16 {
            assert(quality_name(16) == seq!['m', '9']);
        } else if j == 17 {
            assert(quality_name(17) == seq!['m', '7']);
        } else if j == 18 {
            assert(quality_name(18) == seq!['m', '6', '/', '9']);
        } else if j == 19 {
            assert(quality_name(19) == seq!['m', '6']);
        } else if j == 20 {
            assert(quality_name(20) == seq!['m']);
        } else if j == 21 {
            assert(quality_name(21) == seq!['M', '9']);
        } else if j == 22 {
            assert(quality_name(22) == seq!['M', '7']);
        } else if j == 23 {
            assert(quality_name(23) == seq!['a', 'd', 'd', '1', '1']);
        } else if j == 24 {
            assert(quality_name(24) == seq!['a', 'd', 'd', '9']);
        } else if j == 25 {
            assert(quality_name(25) == seq!['a', 'd', 'd', '2']);
        } else if j == 26 {
            assert(quality_name(26) == seq!['a', 'u', 'g', 'm', 'a', 'j', '7']);
        } else if j == 27 {
            assert(quality_name(27) == seq!['a', 'u', 'g', '7']);
        } else if j == 28 {
            assert(quality_name(28) == seq!['a', 'u', 'g']);
        } else if j == 29 {
            assert(quality_name(29) == seq!['d', 'i', 'm', '7']);
        } else if j == 30 {
            assert(quality_name(30) == seq!['d', 'i', 'm']);
        } else if j == 31 {
            assert(quality_name(31) == seq!['s', 'u', 's', '2']);
        } else if j == 32 {
            assert(quality_name(32) == seq!['s', 'u', 's', '4']);
        } else if j == 33 {
            assert(quality_name(33) == seq!['1', '3']);
        } else if j == 34 {
            assert(quality_name(34) == seq!['1', '1']);
        } else if j == 35 {
            assert(quality_name(35) == seq!['9', 's', 'u', 's', '4']);
        } else if j == 36 {
            assert(quality_name(36) == seq!['9']);
        } else if j == 37 {
            assert(quality_name(37) == seq!['7', 's', 'u', 's', '4']);
        } else if j == 38 {
            assert(quality_name(38) == seq!['7', 's', 'u', 's', '2']);
        } else if j == 39 {
            assert(quality_name(39) == seq!['7', 's', 'u', 's']);
        } else if j == 40 {
            assert(quality_name(40) == seq!['7']);
        } else if j == 41 {
            assert(quality_name(41) == seq!['6', '/', '9']);
        } else if j == 42 {
            assert(quality_name(42) == seq!['6']);
        } else if j == 43 {
            assert(quality_name(43) == seq!['5']);
        }
    }
    lemma_scan_misses(s, 0);
    lemma_name_parses(s, quality_intervals(44), None);
}

/// The chord-quality catalog and the chord parser agree: for every entry of
/// the quality table, `C` followed by the entry's name parses as C with the
/// entry's intervals (the last entry, with no name, being the major triad).
pub proof fn lemma_catalog_names_parse(q: int)
    requires
        0 <= q < quality_count(),
    ensures
        spec_parse_chord_symbol(seq!['C'] + quality_name(q)) == Ok::<ChordModel, ChordFailure>(
            ChordModel { root: 0, intervals: quality_intervals(q), slash_bass: None, roman: None },
        ),
{
    if q == 0 {
        lemma_table_entry_0();
    } else if q == 1 {
        lemma_table_entry_1();
    } else if q == 2 {
        lemma_table_entry_2();
    } else if q == 3 {
        lemma_table_entry_3();
    } else if q == 4 {
        lemma_table_entry_4();
    } else if q == 5 {
        lemma_table_entry_5();
    } else if q == 6 {
        lemma_table_entry_6();
    } else if q == 7 {
        lemma_table_entry_7();
    } else if q == 8 {
        lemma_table_entry_8();
    } else if q == 9 {
        lemma_table_entry_9();
    } else if q == 10 {
        lemma_table_entry_10();
    } else if q == 11 {
        lemma_table_entry_11();
    } else if q == 12 {
        lemma_table_entry_12();
    } else if q == 13 {
        lemma_table_entry_13();
    } else if q == 14 {
        lemma_table_entry_14();
    } else if q == 15 {
        lemma_table_entry_15();
    } else if q == 16 {
        lemma_table_entry_16();
    } else if q == 17 {
        lemma_table_entry_17();
    } else if q == 18 {
        lemma_table_entry_18();
    } else if q == 19 {
        lemma_table_entry_19();
    } else if q == 20 {
        lemma_table_entry_20();
    } else if q == 21 {
        lemma_table_entry_21();
    } else if q == 22 {
        lemma_table_entry_22();
    } else if q == 23 {
        lemma_table_entry_23();
    } else if q == 24 {
        lemma_table_entry_24();
    } else if q == 25 {
        lemma_table_entry_25();
    } else if q == 26 {
        lemma_table_entry_26();
    } else if q == 27 {
        lemma_table_entry_27();
    } else if q == 28 {
        lemma_table_entry_28();
    } else if q == 29 {
        lemma_table_entry_29();
    } else if q == 30 {
        lemma_table_entry_30();
    } else if q == 31 {
        lemma_table_entry_31();
    } else if q == 32 {
        lemma_table_entry_32();
    } else if q == 33 {
        lemma_table_entry_33();
    } else if q == 34 {
        lemma_table_entry_34();
    } else if q == 35 {
        lemma_table_entry_35();
    } else if q == 36 {
        lemma_table_entry_36();
    } else if q == 37 {
        lemma_table_entry_37();
    } else if q == 38 {
        lemma_table_entry_38();
    } else if q == 39 {
        lemma_table_entry_39();
    } else if q == 40 {
        lemma_table_entry_40();
    } else if q == 41 {
        lemma_table_entry_41();
    } else if q == 42 {
        lemma_table_entry_42();
    } else if q == 43 {
        lemma_table_entry_43();
    } else if q == 44 {
        lemma_table_entry_44();
    }
}

// ── Scale Timeline ───────────────────────────────────────────────────

/// Whether `ivs` are the intervals of some mode table entry.
pub open spec fn is_table_mode(ivs: Seq<u8>) -> bool {
    exists|k: int| 0 <= k < mode_count() && mode_intervals(k) == ivs
}

/// The intervals of a table mode are below an octave.
pub proof fn lemma_table_mode_small(ivs: Seq<u8>)
    requires
        is_table_mode(ivs),
    ensures
        forall|i: int| 0 <= i < ivs.len() ==> ivs[i] < 12,
        ivs.len() >= 5,
{
    let k = choose|k: int| 0 <= k < mode_count() && mode_intervals(k) == ivs;
    lemma_mode_intervals_well_formed(k);
}

proof fn lemma_lookup_is_table_mode(name: Seq<char>)
    ensures
        spec_lookup_mode(name) matches Some(v) ==> is_table_mode(v),
{
    lemma_mode_index_from_bounds(name, 0);
}

/// One scale timeline entry: the 1-indexed bar where it takes effect, the
/// scale root and the mode intervals.
pub struct ScaleTimelineEntryModel {
    /// 1-indexed start bar.
    pub start_bar: u32,
    /// Scale root pitch class.
    pub scale_root: u8,
    /// Mode intervals.
    pub mode_intervals: Seq<u8>,
}

/// A single entry in the `ScaleTimeline`.
struct ScaleTimelineEntry {
    start_bar: u32,
    scale_root: u8,
    mode_intervals: Vec<u8>,
}

/// The compiled `@scale` timeline — maps bar ranges to tonal contexts.
///
/// Built from either a `ScaleBlock` (timeline form) or a `TonalContext` (scalar form).
/// `HarmonyIndex::build()` uses this to re-resolve Roman numeral chord roots per-bar.
pub struct ScaleTimeline {
    entries: Vec<ScaleTimelineEntry>,
}

/// A timeline starts at bar 1, its start bars never decrease, and every
/// entry's intervals are those of a table mode.
pub open spec fn scale_timeline_wf(m: Seq<ScaleTimelineEntryModel>) -> bool {
    &&& m.len() > 0
    &&& m[0].start_bar == 1
    &&& forall|i: int, j: int| 0 <= i <= j < m.len() ==> #[trigger] m[i].start_bar <= #[trigger] m[j].start_bar
    &&& forall|i: int| 0 <= i < m.len() ==> is_table_mode(#[trigger] m[i].mode_intervals)
}

/// Number of bars a `@scale` entry lasts (0 for the open-ended last entry).
pub open spec fn scale_entry_bars(e: crate::ast::ScaleEntry) -> nat {
    match e.bars {
        Some(b) => b as nat,
        None => 0,
    }
}

/// Sum of the bar counts of `@scale` entries.
pub open spec fn scale_bars_total(entries: Seq<crate::ast::ScaleEntry>) -> nat
    decreases entries.len(),
{
    if entries.len() == 0 {
        0
    } else {
        scale_bars_total(entries.drop_last()) + scale_entry_bars(entries.last())
    }
}

/// Why a `@scale` timeline does not build: the unknown mode name and the span of its entry.
pub struct ScaleFailure {
    /// The effective mode name.
    pub mode: Seq<char>,
    /// The entry's span, or the empty span at 0.
    pub span: Span,
}

/// The timeline entries built from `entries[i..]`, with root, mode and start
/// bar carried forward from the previous entry: an entry without `root=` or
/// `mode=` inherits them, and each entry starts where the previous one's
/// bars end.
pub open spec fn scale_fold(
    entries: Seq<crate::ast::ScaleEntry>,
    i: int,
    prev_root: u8,
    prev_mode: Seq<char>,
    bar: nat,
) -> Result<Seq<ScaleTimelineEntryModel>, ScaleFailure>
    decreases entries.len() - i,
{
    if i < 0 || i >= entries.len() {
        Ok(Seq::empty())
    } else {
        let e = entries[i];
        let root = match e.root {
            Some(r) => r,
            None => prev_root,
        };
        let mode = match e.mode {
            Some(m) => m@,
            None => prev_mode,
        };
        match spec_lookup_mode(mode) {
            None => Err(
                ScaleFailure {
                    mode,
                    span: match e.span {
                        Some(sp) => sp,
                        None => Span { start: 0, end: 0 },
                    },
                },
            ),
            Some(ivs) => match scale_fold(
                entries,
                i + 1,
                root,
                mode,
                bar + scale_entry_bars(e),
            ) {
                Ok(rest) => Ok(
                    seq![ScaleTimelineEntryModel { start_bar: bar as u32, scale_root: root, mode_intervals: ivs }]
                        + rest,
                ),
                Err(f) => Err(f),
            },
        }
    }
}

/// The single-entry C major timeline.
pub open spec fn c_major_timeline() -> Seq<ScaleTimelineEntryModel> {
    seq![ScaleTimelineEntryModel { start_bar: 1, scale_root: 0, mode_intervals: seq![0u8, 2, 4, 5, 7, 9, 11] }]
}

/// The timeline a `@scale` block builds (C major when it has no entries).
pub open spec fn spec_scale_timeline_from_block(entries: Seq<crate::ast::ScaleEntry>) -> Result<
    Seq<ScaleTimelineEntryModel>,
    ScaleFailure,
> {
    if entries.len() == 0 {
        Ok(c_major_timeline())
    } else {
        scale_fold(entries, 0, 0, "major"@, 1)
    }
}

/// The entry in effect at 1-indexed `bar`: the last one, at or before
/// index `i`, whose start bar is at or before `bar` (the first one otherwise).
pub open spec fn last_entry_by(m: Seq<ScaleTimelineEntryModel>, i: int, bar: u32) -> int
    decreases i,
{
    if i <= 0 {
        0
    } else if m[i].start_bar <= bar {
        i
    } else {
        last_entry_by(m, i - 1, bar)
    }
}

/// `(mode intervals, scale root)` in effect at 1-indexed `bar`.
pub open spec fn spec_context_at_bar(m: Seq<ScaleTimelineEntryModel>, bar: u32) -> (Seq<u8>, u8) {
    let e = m[last_entry_by(m, m.len() - 1, bar)];
    (e.mode_intervals, e.scale_root)
}

proof fn lemma_last_entry_by(m: Seq<ScaleTimelineEntryModel>, i: int, bar: u32, r: int)
    requires
        0 <= r <= i < m.len(),
        m[r].start_bar <= bar || r == 0,
        forall|j: int| r < j < m.len() ==> m[j].start_bar > bar,
    ensures
        last_entry_by(m, i, bar) == r,
    decreases i,
{
    if i > r {
        lemma_last_entry_by(m, i - 1, bar, r);
    }
}

proof fn lemma_last_entry_by_bounds(m: Seq<ScaleTimelineEntryModel>, i: int, bar: u32)
    requires
        0 <= i < m.len(),
    ensures
        0 <= last_entry_by(m, i, bar) <= i,
    decreases i,
{
    if i > 0 {
        lemma_last_entry_by_bounds(m, i - 1, bar);
    }
}

/// The mode intervals in effect at every bar are those of a table mode.
pub proof fn lemma_context_is_table_mode(m: Seq<ScaleTimelineEntryModel>, bar: u32)
    requires
        scale_timeline_wf(m),
    ensures
        is_table_mode(spec_context_at_bar(m, bar).0),
        forall|i: int|
            0 <= i < spec_context_at_bar(m, bar).0.len() ==> spec_context_at_bar(m, bar).0[i]
                < 12,
{
    lemma_last_entry_by_bounds(m, m.len() - 1, bar);
    let k = last_entry_by(m, m.len() - 1, bar);
    assert(is_table_mode(m[k].mode_intervals));
    lemma_table_mode_small(m[k].mode_intervals);
}

proof fn lemma_scale_fold_wf(
    entries: Seq<crate::ast::ScaleEntry>,
    i: int,
    prev_root: u8,
    prev_mode: Seq<char>,
    bar: nat,
)
    requires
        0 <= i <= entries.len(),
        bar + scale_bars_total(entries.skip(i)) <= u32::MAX,
    ensures
        scale_fold(entries, i, prev_root, prev_mode, bar) matches Ok(m) ==> {
            &&& m.len() == entries.len() - i
            &&& (m.len() > 0 ==> m[0].start_bar == bar)
            &&& forall|a: int, b: int| 0 <= a <= b < m.len() ==> bar <= #[trigger] m[a].start_bar <= #[trigger] m[b].start_bar
            &&& forall|a: int| 0 <= a < m.len() ==> is_table_mode(#[trigger] m[a].mode_intervals)
        },
    decreases entries.len() - i,
{
    if i < entries.len() {
        let e = entries[i];
        let root = match e.root {
            Some(r) => r,
            None => prev_root,
        };
        let mode = match e.mode {
            Some(m) => m@,
            None => prev_mode,
        };
        lemma_scale_bars_total_skip(entries, i);
        lemma_lookup_is_table_mode(mode);
        lemma_scale_fold_wf(entries, i + 1, root, mode, bar + scale_entry_bars(e));
    }
}

proof fn lemma_scale_bars_total_skip(entries: Seq<crate::ast::ScaleEntry>, i: int)
    requires
        0 <= i < entries.len(),
    ensures
        scale_bars_total(entries.skip(i)) == scale_entry_bars(entries[i]) + scale_bars_total(
            entries.skip(i + 1),
        ),
    decreases entries.len() - i,
{
    let s = entries.skip(i);
    if i + 1 == entries.len() {
        assert(s.drop_last() =~= Seq::<crate::ast::ScaleEntry>::empty());
        assert(entries.skip(i + 1) =~= Seq::<crate::ast::ScaleEntry>::empty());
    } else {
        lemma_scale_bars_total_skip(entries.drop_last(), i);
        assert(entries.drop_last().skip(i) =~= s.drop_last());
        assert(entries.drop_last().skip(i + 1) =~= entries.skip(i + 1).drop_last());
    }
}

impl ScaleTimeline {
    /// The timeline's entries.
    pub closed spec fn view(&self) -> Seq<ScaleTimelineEntryModel> {
        Seq::new(
            self.entries@.len(),
            |i: int|
                ScaleTimelineEntryModel {
                    start_bar: self.entries@[i].start_bar,
                    scale_root: self.entries@[i].scale_root,
                    mode_intervals: self.entries@[i].mode_intervals@,
                },
        )
    }

    /// The entries start at bar 1 in order and use table modes.
    #[verifier::type_invariant]
    spec fn inv(self) -> bool {
        scale_timeline_wf(self@)
    }

    /// Build from a `@scale` timeline block (inline or block form).
    ///
    /// Fields not specified in an entry (`root=` or `mode=` absent) inherit from the
    /// previous entry. The very first entry falls back to C major if
    /// neither field is provided.
    pub fn from_scale_block(sb: &ScaleBlock) -> (r: CompileResult<Self>)
        requires
            1 + scale_bars_total(sb.entries@) <= u32::MAX,
        ensures
            match spec_scale_timeline_from_block(sb.entries@) {
                Ok(m) => r matches Ok(t) && t@ == m,
                Err(f) => r matches Err(CompileError::ParseError { message, span }) && message@
                    == "unknown mode '"@ + f.mode + "' in @scale timeline"@ && span == f.span,
            },
    {
        if sb.entries.len() == 0 {
            return Ok(Self::default_c_major());
        }
        let ghost entries = sb.entries@;
        let mut out: Vec<ScaleTimelineEntry> = Vec::new();
        let mut current_bar: u32 = 1;
        let mut prev_root: u8 = 0;
        let mut prev_mode: String = String::from_str("major");
        let n = sb.entries.len();
        proof {
            assert(entries.skip(0) =~= entries);
            lemma_scale_fold_wf(entries, 0, 0, "major"@, 1);
        }
        let mut i: usize = 0;
        while i < n
            invariant
                n == entries.len(),
                entries == sb.entries@,
                i <= n,
                current_bar + scale_bars_total(entries.skip(i as int)) <= u32::MAX,
                scale_fold(entries, 0, 0, "major"@, 1) == match scale_fold(
                    entries,
                    i as int,
                    prev_root,
                    prev_mode@,
                    current_bar as nat,
                ) {
                    Ok(rest) => Ok(
                        Seq::new(
                            out@.len(),
                            |j: int|
                                ScaleTimelineEntryModel {
                                    start_bar: out@[j].start_bar,
                                    scale_root: out@[j].scale_root,
                                    mode_intervals: out@[j].mode_intervals@,
                                },
                        ) + rest,
                    ),
                    Err(f) => Err(f),
                },
            decreases n - i,
        {
            let e = &sb.entries[i];
            let effective_root = match e.root {
                Some(r) => r,
                None => prev_root,
            };
            let effective_mode: &str = match &e.mode {
                Some(m) => m.as_str(),
                None => prev_mode.as_str(),
            };
            let intervals = match lookup_mode(effective_mode) {
                Some(v) => v,
                None => {
                    let span = match e.span {
                        Some(sp) => sp,
                        None => Span::new(0, 0),
                    };
                    let message = concat3("unknown mode '", effective_mode, "' in @scale timeline");
                    return Err(CompileError::ParseError { message, span });
                },
            };
            let ghost before = out@;
            out.push(
                ScaleTimelineEntry {
                    start_bar: current_bar,
                    scale_root: effective_root,
                    mode_intervals: intervals,
                },
            );
            proof {
                lemma_scale_bars_total_skip(entries, i as int);
            }
            let next_mode = String::from_str(effective_mode);
            prev_root = effective_root;
            prev_mode = next_mode;
            match e.bars {
                Some(b) => {
                    current_bar = current_bar + b;
                },
                None => {},
            }
            i = i + 1;
            proof {
                let mk = |out: Seq<ScaleTimelineEntry>|
                    Seq::new(
                        out.len(),
                        |j: int|
                            ScaleTimelineEntryModel {
                                start_bar: out[j].start_bar,
                                scale_root: out[j].scale_root,
                                mode_intervals: out[j].mode_intervals@,
                            },
                    );
                assert(mk(out@) =~= mk(before) + seq![ScaleTimelineEntryModel { start_bar: out@.last().start_bar, scale_root: out@.last().scale_root, mode_intervals: out@.last().mode_intervals@ }]);
                match scale_fold(entries, i as int, prev_root, prev_mode@, current_bar as nat) {
                    Ok(rest) => {
                        assert(mk(out@) + rest =~= mk(before) + (seq![ScaleTimelineEntryModel { start_bar: out@.last().start_bar, scale_root: out@.last().scale_root, mode_intervals: out@.last().mode_intervals@ }] + rest));
                    },
                    Err(_) => {},
                }
            }
        }
        let t = ScaleTimeline { entries: out };
        proof {
            lemma_scale_fold_wf(entries, 0, 0, "major"@, 1);
            assert(t@ =~= Seq::new(
                out@.len(),
                |j: int|
                    ScaleTimelineEntryModel {
                        start_bar: out@[j].start_bar,
                        scale_root: out@[j].scale_root,
                        mode_intervals: out@[j].mode_intervals@,
                    },
            ));
            assert(t@ =~= t@ + Seq::<ScaleTimelineEntryModel>::empty());
        }
        Ok(t)
    }

    /// Build a single-entry timeline from a scalar `TonalContext`.
    pub fn from_tonal_context(tc: &TonalContext) -> (r: CompileResult<Self>)
        ensures
            match spec_lookup_mode(tc.mode@) {
                Some(ivs) => r matches Ok(t) && t@ == seq![
                    ScaleTimelineEntryModel {
                        start_bar: 1,
                        scale_root: match tc.root {
                            Some(x) => x,
                            None => 0u8,
                        },
                        mode_intervals: ivs,
                    },
                ],
                None => r matches Err(CompileError::ParseError { message, span }) && message@
                    == "unknown mode '"@ + tc.mode@ + "' in @scale"@ && span == tonal_span(*tc),
            },
    {
        let intervals = match lookup_mode(tc.mode.as_str()) {
            Some(v) => v,
            None => {
                let span = match tc.span {
                    Some(sp) => sp,
                    None => Span::new(0, 0),
                };
                let message = concat3("unknown mode '", tc.mode.as_str(), "' in @scale");
                return Err(CompileError::ParseError { message, span });
            },
        };
        proof {
            lemma_lookup_is_table_mode(tc.mode@);
        }
        let root = match tc.root {
            Some(x) => x,
            None => 0,
        };
        let t = ScaleTimeline {
            entries: vec![ScaleTimelineEntry { start_bar: 1, scale_root: root, mode_intervals: intervals }],
        };
        proof {
            assert(t@ =~= seq![
                ScaleTimelineEntryModel {
                    start_bar: 1,
                    scale_root: root,
                    mode_intervals: t.entries@[0].mode_intervals@,
                },
            ]);
        }
        Ok(t)
    }

    /// Single-entry C major fallback.
    pub fn default_c_major() -> (r: Self)
        ensures
            r@ == c_major_timeline(),
    {
        let ivs: Vec<u8> = vec![0, 2, 4, 5, 7, 9, 11];
        proof {
            assert(ivs@ == mode_intervals(0));
            assert(is_table_mode(ivs@));
        }
        let t = ScaleTimeline {
            entries: vec![ScaleTimelineEntry { start_bar: 1, scale_root: 0, mode_intervals: ivs }],
        };
        proof {
            assert(t@ =~= c_major_timeline());
        }
        t
    }

    /// Return `(mode_intervals, scale_root)` for the given 1-indexed bar number.
    ///
    /// Finds the last entry whose `start_bar <= bar`. The first entry always matches.
    pub fn context_at_bar(&self, bar: u32) -> (r: (&[u8], u8))
        ensures
            (r.0@, r.1) == spec_context_at_bar(self@, bar),
    {
        proof {
            use_type_invariant(self);
        }
        let mut lo: usize = 0;
        let mut hi: usize = self.entries.len() - 1;
        while lo < hi
            invariant
                self@.len() == self.entries@.len(),
                scale_timeline_wf(self@),
                lo <= hi < self@.len(),
                self@[lo as int].start_bar <= bar || lo == 0,
                forall|j: int| hi < j < self@.len() ==> self@[j].start_bar > bar,
            decreases hi - lo,
        {
            let mid = hi - (hi - lo) / 2;
            if self.entries[mid].start_bar <= bar {
                lo = mid;
            } else {
                proof {
                    assert forall|j: int| mid <= j < self@.len() implies self@[j].start_bar
                        > bar by {
                        assert(self@[mid as int].start_bar <= self@[j].start_bar);
                    }
                }
                hi = mid - 1;
            }
        }
        proof {
            lemma_last_entry_by(self@, self@.len() - 1, bar, lo as int);
        }
        (self.entries[lo].mode_intervals.as_slice(), self.entries[lo].scale_root)
    }
}

// ── Harmony Index ────────────────────────────────────────────────────

/// What a chord context holds.
pub struct ChordContextModel {
    /// The chord.
    pub chord: ChordModel,
    /// The mode intervals.
    pub mode_intervals: Seq<u8>,
    /// The scale root.
    pub scale_root: u8,
}

/// The chord context active at a given tick position.
#[derive(Debug, Clone)]
pub struct ChordContext {
    /// The active chord symbol.
    pub chord: ChordSymbol,
    /// The active mode/scale intervals.
    pub mode_intervals: Vec<u8>,
    /// The active scale root (pitch class, 0=C).
    pub scale_root: u8,
}

impl View for ChordContext {
    type V = ChordContextModel;

    open spec fn view(&self) -> ChordContextModel {
        ChordContextModel {
            chord: self.chord@,
            mode_intervals: self.mode_intervals@,
            scale_root: self.scale_root,
        }
    }
}

/// What a harmony span holds.
pub struct HarmonySpanModel {
    /// Start tick (inclusive).
    pub start_tick: u64,
    /// End tick (exclusive).
    pub end_tick: u64,
    /// The chord context.
    pub context: ChordContextModel,
}

/// A span in the harmony timeline: chord context over a tick range.
#[derive(Debug, Clone)]
pub struct HarmonySpan {
    /// Start tick (inclusive).
    pub start_tick: u64,
    /// End tick (exclusive).
    pub end_tick: u64,
    /// The chord context for this span.
    pub context: ChordContext,
}

impl View for HarmonySpan {
    type V = HarmonySpanModel;

    open spec fn view(&self) -> HarmonySpanModel {
        HarmonySpanModel {
            start_tick: self.start_tick,
            end_tick: self.end_tick,
            context: self.context@,
        }
    }
}

/// The harmony index — a sorted list of non-overlapping spans.
#[derive(Debug, Clone)]
pub struct HarmonyIndex {
    spans: Vec<HarmonySpan>,
    /// Total duration in ticks.
    pub total_ticks: u64,
    /// Name of the harmony block this index was built from.
    pub name: String,
}

/// The models of a sequence of spans.
pub open spec fn span_models(s: Seq<HarmonySpan>) -> Seq<HarmonySpanModel> {
    Seq::new(s.len(), |i: int| s[i]@)
}

/// Spans are ordered and do not overlap.
pub open spec fn spans_wf(s: Seq<HarmonySpanModel>) -> bool {
    &&& forall|i: int| 0 <= i < s.len() ==> #[trigger] s[i].start_tick <= s[i].end_tick
    &&& forall|i: int, j: int|
        0 <= i < j < s.len() ==> #[trigger] s[i].end_tick <= #[trigger] s[j].start_tick
}

/// The tick a query looks at: ticks beyond the timeline wrap to its start.
pub open spec fn effective_tick(total: u64, tick: u64) -> u64 {
    if total > 0 {
        (tick % total) as u64
    } else {
        tick
    }
}

/// The first span, from `i` on, that ends after `t` (`s.len()` if none does).
pub open spec fn first_span_ending_after(s: Seq<HarmonySpanModel>, t: u64, i: int) -> int
    decreases s.len() - i,
{
    if i < 0 || i >= s.len() {
        s.len() as int
    } else if s[i].end_tick > t {
        i
    } else {
        first_span_ending_after(s, t, i + 1)
    }
}

/// The chord context a query at `tick` finds: that of the span containing the
/// effective tick, if any.
pub open spec fn spec_query(s: Seq<HarmonySpanModel>, total: u64, tick: u64) -> Option<
    ChordContextModel,
> {
    let t = effective_tick(total, tick);
    let i = first_span_ending_after(s, t, 0);
    if i < s.len() && s[i].start_tick <= t {
        Some(s[i].context)
    } else {
        None
    }
}

proof fn lemma_first_span_ending_after(s: Seq<HarmonySpanModel>, t: u64, i: int, r: int)
    requires
        0 <= i <= r <= s.len(),
        forall|j: int| i <= j < r ==> s[j].end_tick <= t,
        r < s.len() ==> s[r].end_tick > t,
    ensures
        first_span_ending_after(s, t, i) == r,
    decreases s.len() - i,
{
    if i < r {
        lemma_first_span_ending_after(s, t, i + 1, r);
    }
}

impl HarmonyIndex {
    /// Total duration in ticks.
    pub closed spec fn spec_total_ticks(&self) -> u64 {
        self.total_ticks
    }

    /// Name of the harmony block.
    pub closed spec fn spec_name(&self) -> Seq<char> {
        self.name@
    }

    /// The index's spans.
    pub closed spec fn spans_model(&self) -> Seq<HarmonySpanModel> {
        span_models(self.spans@)
    }

    /// The spans are ordered and do not overlap.
    pub open spec fn wf(&self) -> bool {
        spans_wf(self.spans_model())
    }

    /// Query the chord context at a given tick position.
    ///
    /// Ticks beyond the harmony timeline wrap cyclically to the beginning,
    /// so that `rate=` tracks and conditional looping interact with harmony
    /// correctly without special cases.
    pub fn query(&self, tick: u64) -> (r: Option<&ChordContext>)
        requires
            self.wf(),
        ensures
            match spec_query(self.spans_model(), self.spec_total_ticks(), tick) {
                Some(c) => r matches Some(x) && x@ == c,
                None => r is None,
            },
    {
        let effective = if self.total_ticks > 0 {
            tick % self.total_ticks
        } else {
            tick
        };
        let ghost s = self.spans_model();
        let mut lo: usize = 0;
        let mut hi: usize = self.spans.len();
        while lo < hi
            invariant
                s == self.spans_model(),
                spans_wf(s),
                s.len() == self.spans@.len(),
                lo <= hi <= s.len(),
                forall|j: int| 0 <= j < lo ==> s[j].end_tick <= effective,
                forall|j: int| hi <= j < s.len() ==> s[j].end_tick > effective,
            decreases hi - lo,
        {
            let mid = lo + (hi - lo) / 2;
            if self.spans[mid].end_tick <= effective {
                proof {
                    assert forall|j: int| 0 <= j <= mid implies s[j].end_tick <= effective by {
                        if j < mid {
                            assert(s[j].end_tick <= s[mid as int].start_tick);
                            assert(s[mid as int].start_tick <= s[mid as int].end_tick);
                        }
                    }
                }
                lo = mid + 1;
            } else {
                proof {
                    assert forall|j: int| mid <= j < s.len() implies s[j].end_tick > effective by {
                        if j > mid {
                            assert(s[mid as int].end_tick <= s[j].start_tick);
                            assert(s[j].start_tick <= s[j].end_tick);
                        }
                    }
                }
                hi = mid;
            }
        }
        proof {
            lemma_first_span_ending_after(s, effective, 0, lo as int);
        }
        if lo < self.spans.len() && self.spans[lo].start_tick <= effective {
            Some(&self.spans[lo].context)
        } else {
            None
        }
    }

    /// Get all spans (for testing/debugging).
    pub fn spans(&self) -> (r: &[HarmonySpan])
        ensures
            span_models(r@) == self.spans_model(),
    {
        self.spans.as_slice()
    }
}

proof fn lemma_first_span_ending_after_spec(s: Seq<HarmonySpanModel>, t: u64, k: int)
    requires
        0 <= k <= s.len(),
    ensures
        k <= first_span_ending_after(s, t, k) <= s.len(),
        forall|m: int| k <= m < first_span_ending_after(s, t, k) ==> s[m].end_tick <= t,
        first_span_ending_after(s, t, k) < s.len() ==> s[first_span_ending_after(s, t, k)].end_tick
            > t,
    decreases s.len() - k,
{
    if k < s.len() && s[k].end_tick <= t {
        lemma_first_span_ending_after_spec(s, t, k + 1);
    }
}

/// Queries wrap around the harmony timeline: a tick one whole timeline
/// later finds the same chord context.
pub proof fn lemma_query_cyclic(s: Seq<HarmonySpanModel>, total: u64, tick: u64)
    requires
        total > 0,
        tick + total <= u64::MAX,
    ensures
        spec_query(s, total, (tick + total) as u64) == spec_query(s, total, tick),
{
    vstd::arithmetic::div_mod::lemma_mod_add_multiples_vanish(tick as int, total as int);
    assert(effective_tick(total, (tick + total) as u64) == effective_tick(total, tick));
}

/// On ordered spans, a query finds the chord context of the span that
/// holds the (wrapped) tick, and nothing when no span holds it.
pub proof fn lemma_query_finds_containing_span(s: Seq<HarmonySpanModel>, total: u64, tick: u64)
    requires
        spans_wf(s),
    ensures
        forall|i: int|
            0 <= i < s.len() && #[trigger] s[i].start_tick <= effective_tick(total, tick)
                < s[i].end_tick ==> spec_query(s, total, tick) == Some(s[i].context),
        spec_query(s, total, tick) is None <==> forall|i: int|
            0 <= i < s.len() ==> !(#[trigger] s[i].start_tick <= effective_tick(total, tick)
                < s[i].end_tick),
{
    let t = effective_tick(total, tick);
    let j = first_span_ending_after(s, t, 0);
    lemma_first_span_ending_after_spec(s, t, 0);
    assert forall|i: int|
        0 <= i < s.len() && #[trigger] s[i].start_tick <= t < s[i].end_tick implies spec_query(
        s,
        total,
        tick,
    ) == Some(s[i].context) by {
        if j < i {
            assert(s[j].end_tick <= s[i].start_tick);
        }
        if i < j {
            assert(s[i].end_tick <= t);
        }
    }
    if spec_query(s, total, tick) is None {
        assert forall|i: int| 0 <= i < s.len() implies !(#[trigger] s[i].start_tick <= t
            < s[i].end_tick) by {
            if s[i].start_tick <= t < s[i].end_tick {
                if j < i {
                    assert(s[j].end_tick <= s[i].start_tick);
                }
                if i < j {
                    assert(s[i].end_tick <= t);
                }
            }
        }
    }
    if j < s.len() && s[j].start_tick <= t {
        assert(s[j].start_tick <= t < s[j].end_tick);
    }
}

// ── Chord re-resolution across the scale timeline ────────────────────

/// A chord's root re-resolved against a bar's mode and root: a Roman numeral
/// whose degree the mode has moves to `root + interval + accidental`; any
/// other chord keeps its root.
pub open spec fn spec_re_resolve_root(c: ChordModel, mode: Seq<u8>, root: u8) -> u8 {
    match c.roman {
        Some(rn) => if (rn.degree_idx as int) < mode.len() {
            pc_mod12(root as int + mode[rn.degree_idx as int] as int + rn.accidental as int)
        } else {
            c.root
        },
        None => c.root,
    }
}

/// The chord context of `c` in a bar with mode `mode` and root `root`, for a
/// chord parsed under mode `base_mode`. The root re-resolves; a natural
/// numeral whose intervals are exactly the diatonic triad it received under
/// `base_mode` takes the diatonic triad of the bar's mode instead.
pub open spec fn spec_chord_context(
    c: ChordModel,
    base_mode: Seq<u8>,
    mode: Seq<u8>,
    root: u8,
) -> ChordContextModel {
    let intervals = match c.roman {
        Some(rn) => if rn.accidental == 0 {
            match spec_diatonic_triad_for_intervals(base_mode, rn.degree_idx as nat) {
                Some(parse_triad) => if c.intervals == parse_triad {
                    match spec_diatonic_triad_for_intervals(mode, rn.degree_idx as nat) {
                        Some(bar_triad) => bar_triad,
                        None => c.intervals,
                    }
                } else {
                    c.intervals
                },
                None => c.intervals,
            }
        } else {
            c.intervals
        },
        None => c.intervals,
    };
    ChordContextModel {
        chord: ChordModel {
            root: spec_re_resolve_root(c, mode, root),
            intervals,
            slash_bass: c.slash_bass,
            roman: c.roman,
        },
        mode_intervals: mode,
        scale_root: root,
    }
}

fn pc_from_any(scale_root: u8, semitones: u8, accidental: i8) -> (r: u8)
    ensures
        r == pc_mod12(scale_root as int + semitones as int + accidental as int),
{
    let t: i32 = scale_root as i32 + semitones as i32 + accidental as i32 + 1536;
    assert(t >= 0);
    let u: u32 = t as u32;
    assert(u as int % 12 == (scale_root as int + semitones as int + accidental as int) % 12);
    (u % 12) as u8
}

/// Re-resolve a chord's root pitch class from its stored Roman numeral degree.
///
/// For letter-based chords (`chord.roman == None`), returns the existing `chord.root`
/// unchanged. For Roman numeral chords, re-computes the root against the given
/// `mode_intervals` and `scale_root`.
pub fn re_resolve_chord_root(chord: &ChordSymbol, mode_intervals: &[u8], scale_root: u8) -> (r: u8)
    ensures
        r == spec_re_resolve_root(chord@, mode_intervals@, scale_root),
{
    match chord.roman {
        Some(rn) => if (rn.degree_idx as usize) < mode_intervals.len() {
            pc_from_any(scale_root, mode_intervals[rn.degree_idx as usize], rn.accidental)
        } else {
            chord.root
        },
        None => chord.root,
    }
}

/// A copy of `c`.
pub fn copy_chord(c: &ChordSymbol) -> (r: ChordSymbol)
    ensures
        r@ == c@,
{
    ChordSymbol {
        root: c.root,
        intervals: copy_bytes(c.intervals.as_slice()),
        slash_bass: c.slash_bass,
        roman: c.roman,
    }
}

/// Build the chord context of `chord` for a bar with `mode_intervals` and
/// `scale_root`, where the chord was parsed under `base_mode`.
pub fn make_chord_context(
    chord: &ChordSymbol,
    base_mode: &[u8],
    mode_intervals: &[u8],
    scale_root: u8,
) -> (r: ChordContext)
    ensures
        r@ == spec_chord_context(chord@, base_mode@, mode_intervals@, scale_root),
{
    let resolved_root = re_resolve_chord_root(chord, mode_intervals, scale_root);
    let mut resolved = copy_chord(chord);
    resolved.root = resolved_root;
    match chord.roman {
        Some(rn) => {
            if rn.accidental == 0 {
                let deg = rn.degree_idx as usize;
                match diatonic_triad_for_intervals(base_mode, deg) {
                    Some(parse_triad) => {
                        if bytes_eq(chord.intervals.as_slice(), parse_triad.as_slice()) {
                            match diatonic_triad_for_intervals(mode_intervals, deg) {
                                Some(bar_triad) => {
                                    resolved.intervals = bar_triad;
                                },
                                None => {},
                            }
                        }
                    },
                    None => {},
                }
            }
        },
        None => {},
    }
    ChordContext { chord: resolved, mode_intervals: copy_bytes(mode_intervals), scale_root }
}

// ── Deprecated `section:` directives ──────────────────────────────────

/// A section context: from bar `bar` on, this mode and root apply.
pub struct SectionContextModel {
    /// 1-indexed bar where the section starts.
    pub bar: u32,
    /// Mode intervals.
    pub mode_intervals: Seq<u8>,
    /// Scale root.
    pub scale_root: u8,
}

/// Context for a section: mode intervals and scale root.
struct SectionContext {
    bar: u32,
    mode_intervals: Vec<u8>,
    scale_root: u8,
}

/// Why the `section:` directives of a harmony block are invalid.
pub enum SectionFailure {
    /// A section bar is not after the previous one.
    NotIncreasing,
    /// A section bar is past the last bar.
    ExceedsTotal(u32),
    /// A section names an unknown mode.
    UnknownMode(Seq<char>),
}

/// The section contexts of `sections[i..]`: bars must strictly increase and
/// stay within `total_bars`; a section without `mode=` or `root=` keeps the
/// previous section's (at first the base mode and root).
pub open spec fn section_fold(
    sections: Seq<Section>,
    i: int,
    prev_bar: u32,
    total_bars: nat,
    last_mode: Seq<u8>,
    last_root: u8,
) -> Result<Seq<SectionContextModel>, SectionFailure>
    decreases sections.len() - i,
{
    if i < 0 || i >= sections.len() {
        Ok(Seq::empty())
    } else {
        let sec = sections[i];
        if sec.bar <= prev_bar {
            Err(SectionFailure::NotIncreasing)
        } else if sec.bar > total_bars {
            Err(SectionFailure::ExceedsTotal(sec.bar))
        } else {
            let mode: Result<Seq<u8>, SectionFailure> = match sec.mode {
                Some(name) => match spec_lookup_mode(name@) {
                    Some(v) => Ok(v),
                    None => Err(SectionFailure::UnknownMode(name@)),
                },
                None => Ok(last_mode),
            };
            match mode {
                Err(f) => Err(f),
                Ok(m) => {
                    let root = match sec.root {
                        Some(r) => r,
                        None => last_root,
                    };
                    match section_fold(sections, i + 1, sec.bar, total_bars, m, root) {
                        Ok(rest) => Ok(
                            seq![SectionContextModel { bar: sec.bar, mode_intervals: m, scale_root: root }]
                                + rest,
                        ),
                        Err(f) => Err(f),
                    }
                },
            }
        }
    }
}

/// The mode and root of the last section, from `i` on, that starts at or
/// before `bar`, scanning in order and stopping at the first later one.
pub open spec fn section_scan(
    ctxs: Seq<SectionContextModel>,
    bar: u32,
    i: int,
    mode: Seq<u8>,
    root: u8,
) -> (Seq<u8>, u8)
    decreases ctxs.len() - i,
{
    if i < 0 || i >= ctxs.len() {
        (mode, root)
    } else if ctxs[i].bar <= bar {
        section_scan(ctxs, bar, i + 1, ctxs[i].mode_intervals, ctxs[i].scale_root)
    } else {
        (mode, root)
    }
}

/// The models of a sequence of section contexts.
spec fn section_seq_model(v: Seq<SectionContext>) -> Seq<SectionContextModel> {
    Seq::new(
        v.len(),
        |j: int|
            SectionContextModel {
                bar: v[j].bar,
                mode_intervals: v[j].mode_intervals@,
                scale_root: v[j].scale_root,
            },
    )
}

/// Whether `e` is the error reported for the `section:` failure `f`.
pub open spec fn section_failure_matches(f: SectionFailure, e: CompileError) -> bool {
    match f {
        SectionFailure::NotIncreasing => e matches CompileError::SectionBarNotIncreasing {
            name,
            span,
        } && name@ == Seq::<char>::empty() && span == Span { start: 0, end: 0 },
        SectionFailure::ExceedsTotal(b) => e matches CompileError::SectionBarExceedsTotal {
            name,
            bar,
            span,
        } && name@ == Seq::<char>::empty() && bar == b && span == Span { start: 0, end: 0 },
        SectionFailure::UnknownMode(n) => e matches CompileError::ParseError { message, span }
            && message@ == "unknown mode '"@ + n + "'"@ && span == Span { start: 0, end: 0 },
    }
}

/// Build section contexts from section directives.
fn build_section_contexts(
    sections: &Vec<Section>,
    total_bars: u32,
    base_mode: &[u8],
    default_root: u8,
) -> (r: Result<Vec<SectionContext>, CompileError>)
    ensures
        match section_fold(sections@, 0, 0, total_bars as nat, base_mode@, default_root) {
            Ok(m) => r matches Ok(v) && section_seq_model(v@) == m,
            Err(f) => r matches Err(e) && section_failure_matches(f, e),
        },
{
    let mut contexts: Vec<SectionContext> = Vec::new();
    let mut prev_bar: u32 = 0;
    let mut last_mode: Vec<u8> = copy_bytes(base_mode);
    let mut last_root: u8 = default_root;
    let n = sections.len();
    let mut i: usize = 0;
    while i < n
        invariant
            n == sections@.len(),
            i <= n,
            section_fold(sections@, 0, 0, total_bars as nat, base_mode@, default_root) == match section_fold(
                sections@,
                i as int,
                prev_bar,
                total_bars as nat,
                last_mode@,
                last_root,
            ) {
                Ok(rest) => Ok(section_seq_model(contexts@) + rest),
                Err(f) => Err(f),
            },
        decreases n - i,
    {
        let section = &sections[i];
        if section.bar <= prev_bar {
            return Err(
                CompileError::SectionBarNotIncreasing { name: String::new(), span: Span::new(0, 0) },
            );
        }
        if section.bar > total_bars {
            return Err(
                CompileError::SectionBarExceedsTotal {
                    name: String::new(),
                    bar: section.bar,
                    span: Span::new(0, 0),
                },
            );
        }
        let mode_intervals = match &section.mode {
            Some(mode_name) => match lookup_mode(mode_name.as_str()) {
                Some(v) => v,
                None => {
                    let message = concat3("unknown mode '", mode_name.as_str(), "'");
                    return Err(CompileError::ParseError { message, span: Span::new(0, 0) });
                },
            },
            None => copy_bytes(last_mode.as_slice()),
        };
        let scale_root = match section.root {
            Some(r) => r,
            None => last_root,
        };
        let ghost before = contexts@;
        contexts.push(
            SectionContext {
                bar: section.bar,
                mode_intervals: copy_bytes(mode_intervals.as_slice()),
                scale_root,
            },
        );
        prev_bar = section.bar;
        last_mode = mode_intervals;
        last_root = scale_root;
        i = i + 1;
        proof {
            let item = SectionContextModel {
                bar: prev_bar,
                mode_intervals: last_mode@,
                scale_root: last_root,
            };
            assert(section_seq_model(contexts@) =~= section_seq_model(before) + seq![item]);
            match section_fold(sections@, i as int, prev_bar, total_bars as nat, last_mode@, last_root) {
                Ok(rest) => {
                    assert(section_seq_model(contexts@) + rest =~= section_seq_model(before) + (
                    seq![item] + rest));
                },
                Err(_) => {},
            }
        }
    }
    proof {
        assert(section_seq_model(contexts@) =~= section_seq_model(contexts@) + Seq::<
            SectionContextModel,
        >::empty());
    }
    Ok(contexts)
}

/// Find the active section context for a given bar number.
fn find_section_context<'a>(
    sections: &'a Vec<SectionContext>,
    bar: u32,
    base_mode: &'a [u8],
    default_root: u8,
) -> (r: (&'a [u8], u8))
    ensures
        (r.0@, r.1) == section_scan(section_seq_model(sections@), bar, 0, base_mode@, default_root),
{
    let ghost m = section_seq_model(sections@);
    let mut active_mode: &[u8] = base_mode;
    let mut active_root = default_root;
    let mut i: usize = 0;
    while i < sections.len()
        invariant
            m == section_seq_model(sections@),
            i <= sections@.len(),
            section_scan(m, bar, 0, base_mode@, default_root) == section_scan(
                m,
                bar,
                i as int,
                active_mode@,
                active_root,
            ),
        ensures
            section_scan(m, bar, 0, base_mode@, default_root) == (active_mode@, active_root),
        decreases sections@.len() - i,
    {
        if sections[i].bar <= bar {
            active_mode = sections[i].mode_intervals.as_slice();
            active_root = sections[i].scale_root;
        } else {
            assert(m[i as int].bar == sections@[i as int].bar);
            break;
        }
        i = i + 1;
    }
    (active_mode, active_root)
}


// ── Laying out the bars of a harmony block ───────────────────────────

/// Beats a chord of a bar takes: its explicit count, or one.
pub open spec fn chord_beats(c: BarChord) -> nat {
    match c.beats {
        Some(b) => b as nat,
        None => 1,
    }
}

/// Beats taken by the first `i` chords of a bar.
pub open spec fn beats_before(chords: Seq<BarChord>, i: int) -> nat
    decreases i,
{
    if i <= 0 {
        0
    } else {
        beats_before(chords, i - 1) + chord_beats(chords[i - 1])
    }
}

/// Whether the beat counts of a bar's chords sum within `u32`, the type the
/// sum is taken in.
pub open spec fn bar_beats_fit(bar: Bar) -> bool {
    beats_before(bar.chords@, bar.chords@.len() as int) <= u32::MAX
}

/// Whether some chord of a bar gives an explicit beat count.
pub open spec fn has_explicit_beats(chords: Seq<BarChord>) -> bool {
    exists|i: int| 0 <= i < chords.len() && (#[trigger] chords[i]).beats is Some
}

/// Tick offset of step `i` when `count` steps share `count * q + rem` ticks
/// and the last `rem` steps are one tick longer.
pub open spec fn step_offset(i: int, count: int, q: int, rem: int) -> int {
    i * q + if i > count - rem {
        i - (count - rem)
    } else {
        0
    }
}

/// Ticks of step `i` when `count` steps share `count * q + rem` ticks.
pub open spec fn step_len(i: int, count: int, q: int, rem: int) -> int {
    q + if i >= count - rem {
        1int
    } else {
        0int
    }
}

/// Beat offset of chord `i` when beats are shared evenly, `per` each and one
/// more for each of the first `extra` chords.
pub open spec fn even_offset(i: int, per: int, extra: int) -> int {
    i * per + if i < extra {
        i
    } else {
        extra
    }
}

/// Beats of chord `i` when beats are shared evenly.
pub open spec fn even_beats(i: int, per: int, extra: int) -> int {
    per + if i < extra {
        1int
    } else {
        0int
    }
}

/// The span from `start + from` to `start + to`.
pub open spec fn span_at(start: nat, from: int, to: int, context: ChordContextModel) -> HarmonySpanModel {
    HarmonySpanModel { start_tick: (start + from) as u64, end_tick: (start + to) as u64, context }
}

/// Spans of a `steps:` bar of `ticks` ticks starting at `start`: the bar is
/// split evenly and the last `ticks % count` steps take one tick more.
pub open spec fn step_spans(
    steps: Seq<ChordSymbol>,
    start: nat,
    ticks: nat,
    base_mode: Seq<u8>,
    mode: Seq<u8>,
    root: u8,
) -> Seq<HarmonySpanModel> {
    let count = steps.len() as int;
    let q = ticks as int / count;
    let rem = ticks as int % count;
    Seq::new(
        steps.len(),
        |i: int|
            span_at(
                start,
                step_offset(i, count, q, rem),
                step_offset(i, count, q, rem) + step_len(i, count, q, rem),
                spec_chord_context(steps[i]@, base_mode, mode, root),
            ),
    )
}

/// Spans of a bar whose chords give explicit beat counts, `tpb` ticks per beat.
pub open spec fn explicit_spans(
    chords: Seq<BarChord>,
    start: nat,
    tpb: nat,
    base_mode: Seq<u8>,
    mode: Seq<u8>,
    root: u8,
) -> Seq<HarmonySpanModel> {
    Seq::new(
        chords.len(),
        |i: int|
            span_at(
                start,
                (beats_before(chords, i) * tpb) as int,
                (beats_before(chords, i + 1) * tpb) as int,
                spec_chord_context(chords[i].chord@, base_mode, mode, root),
            ),
    )
}

/// Spans of a bar whose `num` beats are shared evenly among its chords.
pub open spec fn even_spans(
    chords: Seq<BarChord>,
    start: nat,
    num: nat,
    tpb: nat,
    base_mode: Seq<u8>,
    mode: Seq<u8>,
    root: u8,
) -> Seq<HarmonySpanModel> {
    let count = chords.len() as int;
    let per = num as int / count;
    let extra = num as int % count;
    Seq::new(
        chords.len(),
        |i: int|
            span_at(
                start,
                even_offset(i, per, extra) * tpb,
                (even_offset(i, per, extra) + even_beats(i, per, extra)) * tpb,
                spec_chord_context(chords[i].chord@, base_mode, mode, root),
            ),
    )
}

/// Why a bar of a harmony block cannot be laid out.
pub enum BarFailure {
    /// Explicit beat counts sum to this instead of the bar's numerator.
    BeatMismatch(nat),
    /// More chords than beats in a bar without explicit counts.
    TooManyChords,
}

/// The spans of one bar of `ticks` ticks starting at `start`, in time
/// signature numerator `num` with `tpb` ticks per beat: steps split the bar
/// evenly; explicit beat counts must sum to `num`; otherwise the `num` beats
/// are shared evenly, and more chords than beats is an error.
pub open spec fn bar_spans(
    bar: Bar,
    start: nat,
    ticks: nat,
    num: nat,
    tpb: nat,
    base_mode: Seq<u8>,
    mode: Seq<u8>,
    root: u8,
) -> Result<Seq<HarmonySpanModel>, BarFailure> {
    match bar.steps {
        Some(steps) => if steps@.len() == 0 {
            Ok(Seq::empty())
        } else {
            Ok(step_spans(steps@, start, ticks, base_mode, mode, root))
        },
        None => {
            let chords = bar.chords@;
            if has_explicit_beats(chords) {
                let sum = beats_before(chords, chords.len() as int);
                if sum != num {
                    Err(BarFailure::BeatMismatch(sum))
                } else {
                    Ok(explicit_spans(chords, start, tpb, base_mode, mode, root))
                }
            } else if chords.len() == 0 {
                Ok(Seq::empty())
            } else if chords.len() > num {
                Err(BarFailure::TooManyChords)
            } else {
                Ok(even_spans(chords, start, num, tpb, base_mode, mode, root))
            }
        },
    }
}

/// A span, or the zero span when there is none.
pub open spec fn span_or_zero(s: Option<Span>) -> Span {
    match s {
        Some(x) => x,
        None => Span { start: 0, end: 0 },
    }
}

/// The name a harmony block shows in errors.
pub open spec fn block_display_name(block: HarmonyBlock) -> Seq<char> {
    match block.name {
        Some(n) => n@,
        None => "<unnamed>"@,
    }
}

/// Whether `e` is the error reported for failure `f` of 1-indexed bar
/// `bar_num` of `block`, whose time signature numerator is `num`.
pub open spec fn bar_failure_matches(
    block: HarmonyBlock,
    bar_num: nat,
    num: u8,
    f: BarFailure,
    e: CompileError,
) -> bool {
    let bar = block.bars@[bar_num - 1];
    match f {
        BarFailure::BeatMismatch(sum) => e matches CompileError::BeatAssignmentMismatch {
            name,
            bar,
            actual,
            expected,
            span,
        } && name@ == block_display_name(block) && bar == bar_num && actual == sum && expected
            == num && span == span_or_zero(block.span),
        BarFailure::TooManyChords => e matches CompileError::ParseError { message, span }
            && message@ == "bar "@ + decimal_text(bar_num) + " has "@ + decimal_text(
            bar.chords@.len(),
        ) + " chords but only "@ + decimal_text(num as nat)
            + " beats; use steps: or explicit beat counts"@ && span == span_or_zero(
            match bar.span {
                Some(s) => Some(s),
                None => block.span,
            },
        ),
    }
}


proof fn lemma_step_offset(i: int, count: int, q: int, rem: int)
    requires
        0 <= i < count,
        0 <= rem < count,
        q >= 0,
    ensures
        step_offset(i + 1, count, q, rem) == step_offset(i, count, q, rem) + step_len(
            i,
            count,
            q,
            rem,
        ),
        0 <= step_offset(i, count, q, rem),
        step_offset(i + 1, count, q, rem) <= count * q + rem,
{
    assert((i + 1) * q == i * q + q) by (nonlinear_arith);
    assert((i + 1) * q <= count * q) by (nonlinear_arith)
        requires
            i + 1 <= count,
            q >= 0,
    ;
    assert(i * q >= 0) by (nonlinear_arith)
        requires
            i >= 0,
            q >= 0,
    ;
}

proof fn lemma_step_offset_monotone(i: int, j: int, count: int, q: int, rem: int)
    requires
        0 <= i <= j,
        q >= 0,
    ensures
        step_offset(i, count, q, rem) <= step_offset(j, count, q, rem),
{
    assert(i * q <= j * q) by (nonlinear_arith)
        requires
            i <= j,
            q >= 0,
    ;
}

proof fn lemma_beats_before_monotone(chords: Seq<BarChord>, i: int, j: int)
    requires
        0 <= i <= j,
    ensures
        beats_before(chords, i) <= beats_before(chords, j),
    decreases j,
{
    if i < j {
        lemma_beats_before_monotone(chords, i, j - 1);
    }
}

proof fn lemma_even_offset(i: int, count: int, per: int, extra: int)
    requires
        0 <= i < count,
        0 <= extra < count,
        per >= 0,
    ensures
        even_offset(i + 1, per, extra) == even_offset(i, per, extra) + even_beats(i, per, extra),
        0 <= even_offset(i, per, extra),
        even_offset(i + 1, per, extra) <= count * per + extra,
{
    assert((i + 1) * per == i * per + per) by (nonlinear_arith);
    assert((i + 1) * per <= count * per) by (nonlinear_arith)
        requires
            i + 1 <= count,
            per >= 0,
    ;
    assert(i * per >= 0) by (nonlinear_arith)
        requires
            i >= 0,
            per >= 0,
    ;
}

proof fn lemma_even_offset_monotone(i: int, j: int, per: int, extra: int)
    requires
        0 <= i <= j,
        per >= 0,
    ensures
        even_offset(i, per, extra) <= even_offset(j, per, extra),
{
    assert(i * per <= j * per) by (nonlinear_arith)
        requires
            i <= j,
            per >= 0,
    ;
}

/// Append the spans of a `steps:` bar.
fn push_step_spans(
    spans: &mut Vec<HarmonySpan>,
    steps: &Vec<ChordSymbol>,
    start: u64,
    ticks: u64,
    base_mode: &[u8],
    mode: &[u8],
    root: u8,
)
    requires
        steps@.len() > 0,
        start + ticks <= u64::MAX,
    ensures
        span_models(final(spans)@) == span_models(old(spans)@) + step_spans(
            steps@,
            start as nat,
            ticks as nat,
            base_mode@,
            mode@,
            root,
        ),
{
    let ghost target = step_spans(steps@, start as nat, ticks as nat, base_mode@, mode@, root);
    let ghost prefix = span_models(spans@);
    let count = steps.len();
    let step_ticks = ticks / (count as u64);
    let remainder = (ticks % (count as u64)) as usize;
    proof {
        vstd::arithmetic::div_mod::lemma_fundamental_div_mod(ticks as int, count as int);
    }
    let mut step_tick = start;
    let mut i: usize = 0;
    while i < count
        invariant
            count == steps@.len(),
            count > 0,
            step_ticks == ticks as int / count as int,
            remainder == ticks as int % count as int,
            ticks == count * step_ticks + remainder,
            start + ticks <= u64::MAX,
            i <= count,
            step_tick == start + step_offset(
                i as int,
                count as int,
                step_ticks as int,
                remainder as int,
            ),
            target == step_spans(steps@, start as nat, ticks as nat, base_mode@, mode@, root),
            span_models(spans@) == prefix + target.take(i as int),
        decreases count - i,
    {
        proof {
            lemma_step_offset(i as int, count as int, step_ticks as int, remainder as int);
        }
        let this_step_ticks = if i >= count - remainder {
            step_ticks + 1
        } else {
            step_ticks
        };
        let ctx = make_chord_context(&steps[i], base_mode, mode, root);
        let ghost before = spans@;
        spans.push(
            HarmonySpan {
                start_tick: step_tick,
                end_tick: step_tick + this_step_ticks,
                context: ctx,
            },
        );
        step_tick = step_tick + this_step_ticks;
        i = i + 1;
        proof {
            assert(span_models(spans@) =~= span_models(before).push(target[i - 1]));
            assert(target.take(i as int) =~= target.take(i - 1).push(target[i - 1]));
        }
    }
    proof {
        assert(target.take(count as int) =~= target);
    }
}

/// Append the spans of a bar whose chords give explicit beat counts.
fn push_explicit_spans(
    spans: &mut Vec<HarmonySpan>,
    chords: &Vec<BarChord>,
    start: u64,
    tpb: u64,
    base_mode: &[u8],
    mode: &[u8],
    root: u8,
)
    requires
        beats_before(chords@, chords@.len() as int) <= 255,
        start + 255 * tpb <= u64::MAX,
    ensures
        span_models(final(spans)@) == span_models(old(spans)@) + explicit_spans(
            chords@,
            start as nat,
            tpb as nat,
            base_mode@,
            mode@,
            root,
        ),
{
    let ghost target = explicit_spans(chords@, start as nat, tpb as nat, base_mode@, mode@, root);
    let ghost prefix = span_models(spans@);
    let n = chords.len();
    let mut chord_tick = start;
    let mut i: usize = 0;
    proof {
        let z = beats_before(chords@, 0);
        assert(z == 0);
        assert(z * tpb == 0) by (nonlinear_arith)
            requires
                z == 0,
        ;
    }
    while i < n
        invariant
            n == chords@.len(),
            beats_before(chords@, n as int) <= 255,
            start + 255 * tpb <= u64::MAX,
            i <= n,
            chord_tick == start + beats_before(chords@, i as int) * tpb,
            target == explicit_spans(chords@, start as nat, tpb as nat, base_mode@, mode@, root),
            span_models(spans@) == prefix + target.take(i as int),
        decreases n - i,
    {
        let ghost bb = beats_before(chords@, i as int);
        let ghost bb1 = beats_before(chords@, i + 1);
        proof {
            lemma_beats_before_monotone(chords@, i + 1, n as int);
            assert(bb1 == bb + chord_beats(chords@[i as int]));
            assert(bb1 * tpb <= 255 * tpb) by (nonlinear_arith)
                requires
                    bb1 <= 255,
            ;
            assert(bb * tpb + chord_beats(chords@[i as int]) * tpb == bb1 * tpb) by (
            nonlinear_arith)
                requires
                    bb1 == bb + chord_beats(chords@[i as int]),
            ;
            assert(chord_beats(chords@[i as int]) * tpb <= 255 * tpb) by (nonlinear_arith)
                requires
                    chord_beats(chords@[i as int]) <= 255,
            ;
        }
        let beats: u64 = match chords[i].beats {
            Some(b) => b as u64,
            None => 1,
        };
        let chord_ticks = beats * tpb;
        let ctx = make_chord_context(&chords[i].chord, base_mode, mode, root);
        let ghost before = spans@;
        spans.push(
            HarmonySpan { start_tick: chord_tick, end_tick: chord_tick + chord_ticks, context: ctx },
        );
        chord_tick = chord_tick + chord_ticks;
        i = i + 1;
        proof {
            assert(span_models(spans@) =~= span_models(before).push(target[i - 1]));
            assert(target.take(i as int) =~= target.take(i - 1).push(target[i - 1]));
        }
    }
    proof {
        assert(target.take(n as int) =~= target);
    }
}

/// Append the spans of a bar whose `num` beats are shared evenly.
fn push_even_spans(
    spans: &mut Vec<HarmonySpan>,
    chords: &Vec<BarChord>,
    start: u64,
    num: u8,
    tpb: u64,
    base_mode: &[u8],
    mode: &[u8],
    root: u8,
)
    requires
        0 < chords@.len() <= num,
        start + 255 * tpb <= u64::MAX,
    ensures
        span_models(final(spans)@) == span_models(old(spans)@) + even_spans(
            chords@,
            start as nat,
            num as nat,
            tpb as nat,
            base_mode@,
            mode@,
            root,
        ),
{
    let ghost target = even_spans(
        chords@,
        start as nat,
        num as nat,
        tpb as nat,
        base_mode@,
        mode@,
        root,
    );
    let ghost prefix = span_models(spans@);
    let n = chords.len();
    let num64 = num as u64;
    let per = num64 / (n as u64);
    let extra = num64 % (n as u64);
    proof {
        vstd::arithmetic::div_mod::lemma_fundamental_div_mod(num as int, n as int);
        assert(even_offset(0, per as int, extra as int) == 0);
    }
    let mut extra_beats = extra;
    let mut chord_tick = start;
    let mut i: usize = 0;
    while i < n
        invariant
            n == chords@.len(),
            0 < n <= num,
            per == num as int / n as int,
            extra == num as int % n as int,
            num == n * per + extra,
            start + 255 * tpb <= u64::MAX,
            i <= n,
            extra_beats == if i < extra {
                extra - i
            } else {
                0
            },
            chord_tick == start + even_offset(i as int, per as int, extra as int) * tpb,
            target == even_spans(
                chords@,
                start as nat,
                num as nat,
                tpb as nat,
                base_mode@,
                mode@,
                root,
            ),
            span_models(spans@) == prefix + target.take(i as int),
        decreases n - i,
    {
        let ghost off = even_offset(i as int, per as int, extra as int);
        let ghost len = even_beats(i as int, per as int, extra as int);
        proof {
            lemma_even_offset(i as int, n as int, per as int, extra as int);
            assert((off + len) * tpb <= 255 * tpb) by (nonlinear_arith)
                requires
                    off + len <= 255,
            ;
            assert(off * tpb + len * tpb == (off + len) * tpb) by (nonlinear_arith);
            assert(len * tpb <= 255 * tpb) by (nonlinear_arith)
                requires
                    0 <= len <= 255,
            ;
        }
        let this_beats = if extra_beats > 0 {
            extra_beats = extra_beats - 1;
            per + 1
        } else {
            per
        };
        let chord_ticks = this_beats * tpb;
        let ctx = make_chord_context(&chords[i].chord, base_mode, mode, root);
        let ghost before = spans@;
        spans.push(
            HarmonySpan { start_tick: chord_tick, end_tick: chord_tick + chord_ticks, context: ctx },
        );
        chord_tick = chord_tick + chord_ticks;
        i = i + 1;
        proof {
            assert(span_models(spans@) =~= span_models(before).push(target[i - 1]));
            assert(target.take(i as int) =~= target.take(i - 1).push(target[i - 1]));
        }
    }
    proof {
        assert(target.take(n as int) =~= target);
    }
}

/// Append the spans of bar `bar_idx` (0-indexed) of `block`, which starts at
/// tick `start`, lasts `ticks` ticks and has `num` beats of `tpb` ticks.
fn push_bar_spans(
    spans: &mut Vec<HarmonySpan>,
    block: &HarmonyBlock,
    bar_idx: usize,
    start: u64,
    ticks: u64,
    num: u8,
    tpb: u64,
    base_mode: &[u8],
    mode: &[u8],
    root: u8,
) -> (r: Result<(), CompileError>)
    requires
        bar_idx < block.bars@.len(),
        bar_idx < u32::MAX,
        bar_beats_fit(block.bars@[bar_idx as int]),
        start + ticks <= u64::MAX,
        start + 255 * tpb <= u64::MAX,
    ensures
        match bar_spans(
            block.bars@[bar_idx as int],
            start as nat,
            ticks as nat,
            num as nat,
            tpb as nat,
            base_mode@,
            mode@,
            root,
        ) {
            Ok(s) => r is Ok && span_models(final(spans)@) == span_models(old(spans)@) + s,
            Err(f) => r matches Err(e) && bar_failure_matches(*block, bar_idx as nat + 1, num, f, e),
        },
{
    let bar = &block.bars[bar_idx];
    match &bar.steps {
        Some(steps) => {
            if steps.len() > 0 {
                push_step_spans(spans, steps, start, ticks, base_mode, mode, root);
            } else {
                assert(span_models(spans@) =~= span_models(spans@) + Seq::<
                    HarmonySpanModel,
                >::empty());
            }
            Ok(())
        },
        None => {
            let ghost chords = bar.chords@;
            let n = bar.chords.len();
            let mut explicit = false;
            let mut i: usize = 0;
            while i < n
                invariant
                    n == chords.len(),
                    chords == bar.chords@,
                    i <= n,
                    explicit <==> exists|j: int| 0 <= j < i && (#[trigger] chords[j]).beats is Some,
                decreases n - i,
            {
                if bar.chords[i].beats.is_some() {
                    explicit = true;
                }
                i = i + 1;
            }
            if explicit {
                let mut sum: u32 = 0;
                let mut k: usize = 0;
                while k < n
                    invariant
                        n == chords.len(),
                        chords == bar.chords@,
                        beats_before(chords, n as int) <= u32::MAX,
                        k <= n,
                        sum == beats_before(chords, k as int),
                    decreases n - k,
                {
                    proof {
                        lemma_beats_before_monotone(chords, k + 1, n as int);
                    }
                    let b: u32 = match bar.chords[k].beats {
                        Some(b) => b as u32,
                        None => 1,
                    };
                    sum = sum + b;
                    k = k + 1;
                }
                if sum != num as u32 {
                    let name = match &block.name {
                        Some(nm) => nm.clone(),
                        None => String::from_str("<unnamed>"),
                    };
                    let span = match block.span {
                        Some(sp) => sp,
                        None => Span::new(0, 0),
                    };
                    return Err(
                        CompileError::BeatAssignmentMismatch {
                            name,
                            bar: bar_idx as u32 + 1,
                            actual: sum,
                            expected: num,
                            span,
                        },
                    );
                }
                push_explicit_spans(spans, &bar.chords, start, tpb, base_mode, mode, root);
            } else if n > 0 {
                if n as u64 > num as u64 {
                    let mut message = String::from_str("bar ");
                    let bar_text = decimal_string(bar_idx as u64 + 1);
                    message.append(bar_text.as_str());
                    message.append(" has ");
                    let count_text = decimal_string(n as u64);
                    message.append(count_text.as_str());
                    message.append(" chords but only ");
                    let num_text = decimal_string(num as u64);
                    message.append(num_text.as_str());
                    message.append(" beats; use steps: or explicit beat counts");
                    let span = match bar.span {
                        Some(sp) => sp,
                        None => match block.span {
                            Some(sp) => sp,
                            None => Span::new(0, 0),
                        },
                    };
                    return Err(CompileError::ParseError { message, span });
                }
                push_even_spans(spans, &bar.chords, start, num, tpb, base_mode, mode, root);
            } else {
                assert(span_models(spans@) =~= span_models(spans@) + Seq::<
                    HarmonySpanModel,
                >::empty());
            }
            Ok(())
        },
    }
}

// ── Building the harmony index ───────────────────────────────────────

/// Ticks of the first `k` bars of a layout.
pub open spec fn layout_ticks_before(m: BarLayoutModel, k: int) -> nat
    decreases k,
{
    if k <= 0 {
        0
    } else {
        layout_ticks_before(m, k - 1) + spec_ticks_for_bar(m, k) as nat
    }
}

/// Every one of the first `n` bars of the layout is as long as its time
/// signature makes it at `ppq` pulses per quarter note.
pub open spec fn layout_follows_ppq(m: BarLayoutModel, ppq: u32, n: int) -> bool {
    forall|b: int|
        1 <= b <= n ==> #[trigger] spec_ticks_for_bar(m, b) == bar_ticks(
            ppq,
            spec_ts_for_bar(m, b).0,
            spec_ts_for_bar(m, b).1,
        )
}

/// Mode and root in effect at 1-indexed `bar`: the scale timeline's, unless a
/// `section:` directive at or before the bar overrides them.
pub open spec fn bar_scale_context(
    timeline: Seq<ScaleTimelineEntryModel>,
    sections: Seq<SectionContextModel>,
    bar: u32,
) -> (Seq<u8>, u8) {
    let c = spec_context_at_bar(timeline, bar);
    section_scan(sections, bar, 0, c.0, c.1)
}

/// Ticks per beat in a bar whose time signature denominator is `den`.
pub open spec fn ticks_per_beat(ppq: u32, den: u8) -> nat {
    (ppq as nat * 4) / den as nat
}

/// The spans of bars `i..` of a harmony block, the first starting at `start`,
/// or the 1-indexed number of the first bar that cannot be laid out.
pub open spec fn build_fold(
    bars: Seq<Bar>,
    i: int,
    start: nat,
    layout: BarLayoutModel,
    ppq: u32,
    timeline: Seq<ScaleTimelineEntryModel>,
    sections: Seq<SectionContextModel>,
    base_mode: Seq<u8>,
) -> Result<Seq<HarmonySpanModel>, (nat, BarFailure)>
    decreases bars.len() - i,
{
    if i < 0 || i >= bars.len() {
        Ok(Seq::empty())
    } else {
        let b = i + 1;
        let ticks = spec_ticks_for_bar(layout, b);
        let ts = spec_ts_for_bar(layout, b);
        let ctx = bar_scale_context(timeline, sections, b as u32);
        match bar_spans(
            bars[i],
            start,
            ticks as nat,
            ts.0 as nat,
            ticks_per_beat(ppq, ts.1),
            base_mode,
            ctx.0,
            ctx.1,
        ) {
            Err(f) => Err((b as nat, f)),
            Ok(s) => match build_fold(
                bars,
                i + 1,
                start + ticks as nat,
                layout,
                ppq,
                timeline,
                sections,
                base_mode,
            ) {
                Ok(rest) => Ok(s + rest),
                Err(e) => Err(e),
            },
        }
    }
}

/// Why a harmony block cannot be indexed.
pub enum BuildFailure {
    /// Its `section:` directives are invalid.
    Section(SectionFailure),
    /// A 1-indexed bar cannot be laid out.
    Bar(nat, BarFailure),
}

/// The spans of a harmony block's index, laid out bar by bar on `layout`,
/// with the scale timeline's mode and root (as overridden by `section:`
/// directives) for each bar, Roman numerals having been parsed under the
/// timeline's first mode.
pub open spec fn spec_build(
    block: HarmonyBlock,
    ppq: u32,
    timeline: Seq<ScaleTimelineEntryModel>,
    layout: BarLayoutModel,
) -> Result<Seq<HarmonySpanModel>, BuildFailure> {
    let first = spec_context_at_bar(timeline, 1);
    match section_fold(block.sections@, 0, 0, block.bars@.len(), first.0, first.1) {
        Err(f) => Err(BuildFailure::Section(f)),
        Ok(secs) => match build_fold(block.bars@, 0, 0, layout, ppq, timeline, secs, first.0) {
            Ok(s) => Ok(s),
            Err((b, f)) => Err(BuildFailure::Bar(b, f)),
        },
    }
}

/// Whether `e` is the error reported for build failure `f` of `block`.
pub open spec fn build_failure_matches(
    block: HarmonyBlock,
    layout: BarLayoutModel,
    f: BuildFailure,
    e: CompileError,
) -> bool {
    match f {
        BuildFailure::Section(sf) => section_failure_matches(sf, e),
        BuildFailure::Bar(b, bf) => bar_failure_matches(
            block,
            b,
            spec_ts_for_bar(layout, b as int).0,
            bf,
            e,
        ),
    }
}

proof fn lemma_spans_wf_concat(a: Seq<HarmonySpanModel>, b: Seq<HarmonySpanModel>, mid: int)
    requires
        spans_wf(a),
        spans_wf(b),
        forall|k: int| 0 <= k < a.len() ==> #[trigger] a[k].end_tick <= mid,
        forall|k: int| 0 <= k < b.len() ==> mid <= #[trigger] b[k].start_tick,
    ensures
        spans_wf(a + b),
{
    let s = a + b;
    assert forall|i: int, j: int| 0 <= i < j < s.len() implies #[trigger] s[i].end_tick
        <= #[trigger] s[j].start_tick by {
        if j < a.len() {
            assert(s[i] == a[i] && s[j] == a[j]);
        } else if i >= a.len() {
            assert(s[i] == b[i - a.len()] && s[j] == b[j - a.len()]);
        } else {
            assert(s[i] == a[i] && s[j] == b[j - a.len()]);
        }
    }
    assert forall|i: int| 0 <= i < s.len() implies #[trigger] s[i].start_tick <= s[i].end_tick by {
        if i < a.len() {
            assert(s[i] == a[i]);
        } else {
            assert(s[i] == b[i - a.len()]);
        }
    }
}

/// Whether span `sp` holds tick `t`.
pub open spec fn span_holds(sp: HarmonySpanModel, t: int) -> bool {
    sp.start_tick <= t < sp.end_tick
}

/// Whether some span of `s` holds tick `t`.
pub open spec fn covers_tick(s: Seq<HarmonySpanModel>, t: int) -> bool {
    exists|k: int| 0 <= k < s.len() && span_holds(#[trigger] s[k], t)
}

/// Whether every tick from `a` up to `b` lies in some span of `s`.
pub open spec fn covers(s: Seq<HarmonySpanModel>, a: int, b: int) -> bool {
    forall|t: int| a <= t < b ==> #[trigger] covers_tick(s, t)
}

/// Whether a bar holds a chord: a non-empty `steps:` line, or some chord.
pub open spec fn bar_holds_chord(bar: Bar) -> bool {
    match bar.steps {
        Some(steps) => steps@.len() > 0,
        None => bar.chords@.len() > 0,
    }
}

/// Whether span `k` of `s` ends where span `k + 1` starts.
pub open spec fn span_meets_next(s: Seq<HarmonySpanModel>, k: int) -> bool {
    s[k].end_tick == s[k + 1].start_tick
}

/// Whether the spans lie end to end from tick `a` to tick `b`: the first
/// starts at `a`, each ends where the next starts, and the last ends at `b`
/// (no spans only when `a == b`).
pub open spec fn tiles(s: Seq<HarmonySpanModel>, a: int, b: int) -> bool {
    if s.len() == 0 {
        a == b
    } else {
        &&& s[0].start_tick == a
        &&& s.last().end_tick == b
        &&& forall|k: int| 0 <= k < s.len() - 1 ==> #[trigger] span_meets_next(s, k)
    }
}

proof fn lemma_chain_tiles(s: Seq<HarmonySpanModel>, start: int, f: spec_fn(int) -> int, total: int)
    requires
        s.len() > 0,
        forall|k: int|
            0 <= k < s.len() ==> (#[trigger] s[k]).start_tick == start + f(k) && s[k].end_tick
                == start + f(k + 1),
        f(0) == 0,
        f(s.len() as int) == total,
    ensures
        tiles(s, start, start + total),
{
    assert(s[0].start_tick == start + f(0));
    assert(s[s.len() - 1].end_tick == start + f(s.len() as int));
    assert forall|k: int| 0 <= k < s.len() - 1 implies #[trigger] span_meets_next(s, k) by {
        assert(s[k].end_tick == start + f(k + 1));
        assert(s[k + 1].start_tick == start + f(k + 1));
    }
}

proof fn lemma_tiles_concat(a: Seq<HarmonySpanModel>, b: Seq<HarmonySpanModel>, x: int, y: int, z: int)
    requires
        tiles(a, x, y),
        tiles(b, y, z),
    ensures
        tiles(a + b, x, z),
{
    let s = a + b;
    if a.len() == 0 {
        assert(s =~= b);
    } else if b.len() == 0 {
        assert(s =~= a);
    } else {
        assert(s[0] == a[0]);
        assert(s.last() == b.last());
        assert forall|k: int| 0 <= k < s.len() - 1 implies #[trigger] span_meets_next(s, k) by {
            if k < a.len() - 1 {
                assert(span_meets_next(a, k));
                assert(s[k] == a[k] && s[k + 1] == a[k + 1]);
            } else if k == a.len() - 1 {
                assert(s[k] == a.last() && s[k + 1] == b[0]);
            } else {
                assert(span_meets_next(b, k - a.len()));
                assert(s[k] == b[k - a.len()] && s[k + 1] == b[k + 1 - a.len()]);
            }
        }
    }
}

/// Spans laid end to end at offsets `f(0) == 0, f(1), …` from `start` cover
/// everything up to `start + f(n)`.
proof fn lemma_chain_covers(s: Seq<HarmonySpanModel>, start: int, f: spec_fn(int) -> int, n: int)
    requires
        0 <= n <= s.len(),
        forall|k: int|
            0 <= k < s.len() ==> (#[trigger] s[k]).start_tick == start + f(k) && s[k].end_tick
                == start + f(k + 1),
        f(0) == 0,
    ensures
        covers(s, start, start + f(n)),
    decreases n,
{
    if n > 0 {
        lemma_chain_covers(s, start, f, n - 1);
        assert forall|t: int| start <= t < start + f(n) implies #[trigger] covers_tick(s, t) by {
            if t >= start + f(n - 1) {
                assert(span_holds(s[n - 1], t));
            } else {
                assert(covers_tick(s, t));
            }
        }
    }
}

proof fn lemma_covers_concat(a: Seq<HarmonySpanModel>, b: Seq<HarmonySpanModel>, x: int, y: int, z: int)
    requires
        covers(a, x, y),
        covers(b, y, z),
    ensures
        covers(a + b, x, z),
{
    let s = a + b;
    assert forall|t: int| x <= t < z implies #[trigger] covers_tick(s, t) by {
        if t < y {
            assert(covers_tick(a, t));
            let k = choose|k: int| 0 <= k < a.len() && span_holds(#[trigger] a[k], t);
            assert(s[k] == a[k]);
        } else {
            assert(covers_tick(b, t));
            let k = choose|k: int| 0 <= k < b.len() && span_holds(#[trigger] b[k], t);
            assert(s[k + a.len()] == b[k]);
        }
    }
}

/// Spans laid end to end at offsets `f(k)` from `start`, `f` nondecreasing
/// from `f(0) >= 0` to `f(len) <= total`, are ordered and stay within
/// `start .. start + total`.
proof fn lemma_chain_wf(s: Seq<HarmonySpanModel>, start: int, f: spec_fn(int) -> int, total: int)
    requires
        forall|k: int|
            0 <= k < s.len() ==> (#[trigger] s[k]).start_tick == start + f(k) && s[k].end_tick
                == start + f(k + 1),
        forall|i: int, j: int| 0 <= i <= j <= s.len() ==> #[trigger] f(i) <= #[trigger] f(j),
        f(0) >= 0,
        f(s.len() as int) <= total,
    ensures
        spans_wf(s),
        forall|k: int|
            0 <= k < s.len() ==> start <= (#[trigger] s[k]).start_tick && s[k].end_tick <= start
                + total,
{
    assert forall|i: int, j: int| 0 <= i < j < s.len() implies #[trigger] s[i].end_tick
        <= #[trigger] s[j].start_tick by {
        assert(f(i + 1) <= f(j));
    }
    assert forall|k: int| 0 <= k < s.len() implies start <= (#[trigger] s[k]).start_tick
        && s[k].end_tick <= start + total by {
        assert(f(0) <= f(k));
        assert(f(k + 1) <= f(s.len() as int));
    }
    assert forall|k: int| 0 <= k < s.len() implies #[trigger] s[k].start_tick <= s[k].end_tick by {
        assert(f(k) <= f(k + 1));
    }
}

/// The spans of a bar are ordered and stay within the bar, provided that a
/// bar laid out by beats is exactly `num` beats long.
proof fn lemma_bar_spans_shape(
    bar: Bar,
    start: nat,
    ticks: nat,
    num: nat,
    tpb: nat,
    base_mode: Seq<u8>,
    mode: Seq<u8>,
    root: u8,
)
    requires
        bar_spans(bar, start, ticks, num, tpb, base_mode, mode, root) is Ok,
        start + ticks <= u64::MAX,
        bar.steps is None ==> ticks == num * tpb,
    ensures
        ({
            let s = bar_spans(bar, start, ticks, num, tpb, base_mode, mode, root)->Ok_0;
            &&& spans_wf(s)
            &&& forall|k: int|
                0 <= k < s.len() ==> start <= (#[trigger] s[k]).start_tick && s[k].end_tick
                    <= start + ticks
            &&& bar_holds_chord(bar) ==> covers(s, start as int, (start + ticks) as int)
            &&& bar_holds_chord(bar) ==> tiles(s, start as int, (start + ticks) as int)
        }),
{
    let s = bar_spans(bar, start, ticks, num, tpb, base_mode, mode, root)->Ok_0;
    match bar.steps {
        Some(steps) => {
            if steps@.len() > 0 {
                let count = steps@.len() as int;
                let q = ticks as int / count;
                let rem = ticks as int % count;
                vstd::arithmetic::div_mod::lemma_fundamental_div_mod(ticks as int, count);
                let f = |k: int| step_offset(k, count, q, rem);
                assert forall|k: int| 0 <= k < s.len() implies (#[trigger] s[k]).start_tick
                    == start + f(k) && s[k].end_tick == start + f(k + 1) by {
                    lemma_step_offset(k, count, q, rem);
                }
                assert forall|i: int, j: int| 0 <= i <= j <= s.len() implies #[trigger] f(i) <= #[trigger] f(j) by {
                    lemma_step_offset_monotone(i, j, count, q, rem);
                }
                assert(f(count) == count * q + rem);
                lemma_chain_wf(s, start as int, f, ticks as int);
                assert(f(0) == 0);
                lemma_chain_covers(s, start as int, f, count);
                lemma_chain_tiles(s, start as int, f, ticks as int);
            }
        },
        None => {
            let chords = bar.chords@;
            let count = chords.len() as int;
            if has_explicit_beats(chords) {
                let f = |k: int| (beats_before(chords, k) * tpb) as int;
                assert forall|i: int, j: int| 0 <= i <= j <= s.len() implies #[trigger] f(i) <= #[trigger] f(j) by {
                    lemma_beats_before_monotone(chords, i, j);
                    let a = beats_before(chords, i);
                    let b = beats_before(chords, j);
                    assert(a * tpb <= b * tpb) by (nonlinear_arith)
                        requires
                            a <= b,
                    ;
                }
                assert forall|k: int| 0 <= k < s.len() implies (#[trigger] s[k]).start_tick
                    == start + f(k) && s[k].end_tick == start + f(k + 1) by {
                    assert(f(k) <= f(count));
                    assert(f(k + 1) <= f(count));
                }
                lemma_chain_wf(s, start as int, f, ticks as int);
                assert(beats_before(chords, 0) == 0);
                assert(f(0) == 0 * tpb);
                assert(f(0) == 0);
                assert(f(count) == ticks);
                lemma_chain_covers(s, start as int, f, count);
                lemma_chain_tiles(s, start as int, f, ticks as int);
            } else if count > 0 {
                let per = num as int / count;
                let extra = num as int % count;
                vstd::arithmetic::div_mod::lemma_fundamental_div_mod(num as int, count);
                let f = |k: int| even_offset(k, per, extra) * tpb;
                assert forall|i: int, j: int| 0 <= i <= j <= s.len() implies #[trigger] f(i) <= #[trigger] f(j) by {
                    lemma_even_offset_monotone(i, j, per, extra);
                    let a = even_offset(i, per, extra);
                    let b = even_offset(j, per, extra);
                    assert(a * tpb <= b * tpb) by (nonlinear_arith)
                        requires
                            a <= b,
                    ;
                }
                assert(f(count) == num * tpb) by {
                    assert(even_offset(count, per, extra) == num);
                }
                assert forall|k: int| 0 <= k < s.len() implies (#[trigger] s[k]).start_tick
                    == start + f(k) && s[k].end_tick == start + f(k + 1) by {
                    lemma_even_offset(k, count, per, extra);
                    assert(f(k) <= f(count));
                    assert(f(k + 1) <= f(count));
                    let o = even_offset(k, per, extra);
                    let e = even_beats(k, per, extra);
                    assert((o + e) * tpb == o * tpb + e * tpb) by (nonlinear_arith);
                }
                lemma_chain_wf(s, start as int, f, ticks as int);
                assert(even_offset(0, per, extra) == 0);
                assert(f(0) == 0 * tpb);
                assert(f(0) == 0);
                lemma_chain_covers(s, start as int, f, count);
                lemma_chain_tiles(s, start as int, f, ticks as int);
            }
        },
    }
}

/// The spans of bars `i..` are ordered and stay within those bars, provided
/// that the layout follows `ppq`.
proof fn lemma_build_fold_shape(
    bars: Seq<Bar>,
    i: int,
    start: nat,
    layout: BarLayoutModel,
    ppq: u32,
    timeline: Seq<ScaleTimelineEntryModel>,
    sections: Seq<SectionContextModel>,
    base_mode: Seq<u8>,
)
    requires
        0 <= i <= bars.len(),
        layout_follows_ppq(layout, ppq, bars.len() as int),
        start + (layout_ticks_before(layout, bars.len() as int) - layout_ticks_before(layout, i))
            <= u64::MAX,
    ensures
        build_fold(bars, i, start, layout, ppq, timeline, sections, base_mode) matches Ok(s) ==> {
            &&& spans_wf(s)
            &&& forall|k: int|
                0 <= k < s.len() ==> start <= (#[trigger] s[k]).start_tick && s[k].end_tick
                    <= start + (layout_ticks_before(layout, bars.len() as int)
                    - layout_ticks_before(layout, i))
            &&& (forall|j: int| i <= j < bars.len() ==> bar_holds_chord(#[trigger] bars[j]))
                ==> covers(
                s,
                start as int,
                start + (layout_ticks_before(layout, bars.len() as int) - layout_ticks_before(
                    layout,
                    i,
                )),
            )
            &&& (forall|j: int| i <= j < bars.len() ==> bar_holds_chord(#[trigger] bars[j]))
                ==> tiles(
                s,
                start as int,
                start + (layout_ticks_before(layout, bars.len() as int) - layout_ticks_before(
                    layout,
                    i,
                )),
            )
        },
    decreases bars.len() - i,
{
    if i < bars.len() {
        let b = i + 1;
        let ticks = spec_ticks_for_bar(layout, b);
        let ts = spec_ts_for_bar(layout, b);
        let tpb = ticks_per_beat(ppq, ts.1);
        let ctx = bar_scale_context(timeline, sections, b as u32);
        let n = bars.len() as int;
        lemma_layout_ticks_monotone(layout, i + 1, n);
        assert(ticks == bar_ticks(ppq, ts.0, ts.1));
        assert(ticks == ts.0 as nat * tpb) by (nonlinear_arith)
            requires
                ticks == tpb * ts.0,
        ;
        let bs = bar_spans(bars[i], start, ticks as nat, ts.0 as nat, tpb, base_mode, ctx.0, ctx.1);
        lemma_build_fold_shape(
            bars,
            i + 1,
            start + ticks as nat,
            layout,
            ppq,
            timeline,
            sections,
            base_mode,
        );
        if bs is Ok {
            lemma_bar_spans_shape(bars[i], start, ticks as nat, ts.0 as nat, tpb, base_mode, ctx.0, ctx.1);
            let rest = build_fold(
                bars,
                i + 1,
                start + ticks as nat,
                layout,
                ppq,
                timeline,
                sections,
                base_mode,
            );
            if rest is Ok {
                lemma_spans_wf_concat(bs->Ok_0, rest->Ok_0, start + ticks);
                if forall|j: int| i <= j < bars.len() ==> bar_holds_chord(#[trigger] bars[j]) {
                    assert(bar_holds_chord(bars[i]));
                    lemma_covers_concat(
                        bs->Ok_0,
                        rest->Ok_0,
                        start as int,
                        start + ticks,
                        start + (layout_ticks_before(layout, n) - layout_ticks_before(layout, i)),
                    );
                    lemma_tiles_concat(
                        bs->Ok_0,
                        rest->Ok_0,
                        start as int,
                        start + ticks,
                        start + (layout_ticks_before(layout, n) - layout_ticks_before(layout, i)),
                    );
                }
            }
        }
    }
}

proof fn lemma_layout_ticks_monotone(m: BarLayoutModel, i: int, j: int)
    requires
        0 <= i <= j,
    ensures
        layout_ticks_before(m, i) <= layout_ticks_before(m, j),
    decreases j,
{
    if i < j {
        lemma_layout_ticks_monotone(m, i, j - 1);
    }
}

impl HarmonyIndex {
    /// Build a harmony index from a parsed harmony block, global header, and scale timeline.
    ///
    /// The scale timeline provides the base mode and scale root per bar from `@scale`.
    /// If no `@scale` is declared, the caller passes `ScaleTimeline::default_c_major()`.
    ///
    /// For Roman numeral chords (`chord.roman.is_some()`), the chord root is re-resolved
    /// bar-by-bar against the scale timeline, so that later scale timeline entries
    /// (e.g. `@scale root=C mode=major * 4 | root=G mode=major`) correctly affect
    /// Roman numeral resolution.
    pub fn build(
        block: &HarmonyBlock,
        header: &GlobalHeader,
        scale_timeline: &ScaleTimeline,
        bar_layout: &BarLayout,
    ) -> (r: CompileResult<Self>)
        requires
            block.bars@.len() <= u32::MAX,
            forall|b: int|
                1 <= b <= block.bars@.len() ==> #[trigger] spec_ts_for_bar(bar_layout@, b).1 > 0,
            forall|i: int| 0 <= i < block.bars@.len() ==> bar_beats_fit(#[trigger] block.bars@[i]),
            layout_ticks_before(bar_layout@, block.bars@.len() as int) + 1020 * header.ppq
                <= u64::MAX,
        ensures
            match spec_build(*block, header.ppq, scale_timeline@, bar_layout@) {
                Ok(s) => r matches Ok(idx) && idx.spans_model() == s && idx.spec_total_ticks()
                    == layout_ticks_before(bar_layout@, block.bars@.len() as int) && idx.spec_name()
                    == (match block.name {
                    Some(n) => n@,
                    None => Seq::<char>::empty(),
                }) && (layout_follows_ppq(bar_layout@, header.ppq, block.bars@.len() as int)
                    ==> idx.wf()),
                Err(f) => r matches Err(e) && build_failure_matches(*block, bar_layout@, f, e),
            },
    {
        let ppq = header.ppq as u64;
        let (base_mode_first, base_root_first) = scale_timeline.context_at_bar(1);
        let n = block.bars.len();
        let section_contexts = match build_section_contexts(
            &block.sections,
            n as u32,
            base_mode_first,
            base_root_first,
        ) {
            Ok(c) => c,
            Err(e) => return Err(e),
        };
        let ghost secs = section_seq_model(section_contexts@);
        proof {
            assert((n as u32) as nat == block.bars@.len());
            assert(section_fold(
                block.sections@,
                0,
                0,
                block.bars@.len(),
                base_mode_first@,
                base_root_first,
            ) == Ok::<Seq<SectionContextModel>, SectionFailure>(secs));
            assert(spec_build(*block, header.ppq, scale_timeline@, bar_layout@) == match build_fold(
                block.bars@,
                0,
                0,
                bar_layout@,
                header.ppq,
                scale_timeline@,
                secs,
                base_mode_first@,
            ) {
                Ok(sp) => Ok(sp),
                Err((b, f)) => Err(BuildFailure::Bar(b, f)),
            });
        }
        let ghost total = layout_ticks_before(bar_layout@, n as int);
        let mut spans: Vec<HarmonySpan> = Vec::new();
        let mut current_tick: u64 = 0;
        let mut bar_idx: usize = 0;
        while bar_idx < n
            invariant
                n == block.bars@.len(),
                n <= u32::MAX,
                ppq == header.ppq,
                forall|b: int|
                    1 <= b <= block.bars@.len() ==> #[trigger] spec_ts_for_bar(bar_layout@, b).1
                        > 0,
                forall|i: int|
                    0 <= i < block.bars@.len() ==> bar_beats_fit(#[trigger] block.bars@[i]),
                total == layout_ticks_before(bar_layout@, n as int),
                total + 1020 * header.ppq <= u64::MAX,
                secs == section_seq_model(section_contexts@),
                spec_build(*block, header.ppq, scale_timeline@, bar_layout@) == match build_fold(
                    block.bars@,
                    0,
                    0,
                    bar_layout@,
                    header.ppq,
                    scale_timeline@,
                    secs,
                    base_mode_first@,
                ) {
                    Ok(sp) => Ok(sp),
                    Err((b, f)) => Err(BuildFailure::Bar(b, f)),
                },
                bar_idx <= n,
                current_tick == layout_ticks_before(bar_layout@, bar_idx as int),
                build_fold(
                    block.bars@,
                    0,
                    0,
                    bar_layout@,
                    header.ppq,
                    scale_timeline@,
                    secs,
                    base_mode_first@,
                ) == match build_fold(
                    block.bars@,
                    bar_idx as int,
                    current_tick as nat,
                    bar_layout@,
                    header.ppq,
                    scale_timeline@,
                    secs,
                    base_mode_first@,
                ) {
                    Ok(rest) => Ok(span_models(spans@) + rest),
                    Err(e) => Err(e),
                },
            decreases n - bar_idx,
        {
            let bar_num = bar_idx as u32 + 1;
            let this_bar_ticks = bar_layout.ticks_for_bar(bar_num);
            let (ts_num, ts_den) = bar_layout.ts_for_bar(bar_num);
            assert(spec_ts_for_bar(bar_layout@, bar_num as int).1 > 0);
            let tpb = ppq * 4 / ts_den as u64;
            proof {
                lemma_layout_ticks_monotone(bar_layout@, bar_idx + 1, n as int);
                assert(tpb <= 4 * ppq);
                assert(255 * tpb <= 1020 * ppq) by (nonlinear_arith)
                    requires
                        tpb <= 4 * ppq,
                ;
            }
            let (scale_mode, scale_root_base) = scale_timeline.context_at_bar(bar_num);
            let (mode_intervals, scale_root) = find_section_context(
                &section_contexts,
                bar_num,
                scale_mode,
                scale_root_base,
            );
            let ghost before = span_models(spans@);
            let ghost bs = bar_spans(
                block.bars@[bar_idx as int],
                current_tick as nat,
                this_bar_ticks as nat,
                ts_num as nat,
                tpb as nat,
                base_mode_first@,
                mode_intervals@,
                scale_root,
            );
            proof {
                assert(ticks_per_beat(header.ppq, ts_den) == tpb);
                assert(bar_scale_context(scale_timeline@, secs, bar_num) == (
                mode_intervals@, scale_root));
                assert(build_fold(
                    block.bars@,
                    bar_idx as int,
                    current_tick as nat,
                    bar_layout@,
                    header.ppq,
                    scale_timeline@,
                    secs,
                    base_mode_first@,
                ) == match bs {
                    Err(f) => Err(((bar_idx + 1) as nat, f)),
                    Ok(bsp) => match build_fold(
                        block.bars@,
                        bar_idx + 1,
                        (current_tick + this_bar_ticks) as nat,
                        bar_layout@,
                        header.ppq,
                        scale_timeline@,
                        secs,
                        base_mode_first@,
                    ) {
                        Ok(rest) => Ok(bsp + rest),
                        Err(e) => Err(e),
                    },
                });
            }
            match push_bar_spans(
                &mut spans,
                block,
                bar_idx,
                current_tick,
                this_bar_ticks,
                ts_num,
                tpb,
                base_mode_first,
                mode_intervals,
                scale_root,
            ) {
                Ok(()) => {},
                Err(e) => {
                    return Err(e);
                },
            }
            proof {
                let bsp = bs->Ok_0;
                assert(span_models(spans@) == before + bsp);
                let rest = build_fold(
                    block.bars@,
                    bar_idx + 1,
                    (current_tick + this_bar_ticks) as nat,
                    bar_layout@,
                    header.ppq,
                    scale_timeline@,
                    secs,
                    base_mode_first@,
                );
                match rest {
                    Ok(rs) => {
                        assert((before + bsp) + rs =~= before + (bsp + rs));
                    },
                    Err(_) => {},
                }
            }
            current_tick = current_tick + this_bar_ticks;
            bar_idx = bar_idx + 1;
        }
        proof {
            assert(span_models(spans@) =~= span_models(spans@) + Seq::<HarmonySpanModel>::empty());
        }
        let name = match &block.name {
            Some(nm) => nm.clone(),
            None => String::new(),
        };
        let idx = HarmonyIndex { spans, total_ticks: current_tick, name };
        proof {
            if layout_follows_ppq(bar_layout@, header.ppq, n as int) {
                lemma_build_fold_shape(
                    block.bars@,
                    0,
                    0,
                    bar_layout@,
                    header.ppq,
                    scale_timeline@,
                    secs,
                    base_mode_first@,
                );
            }
        }
        Ok(idx)
    }
}

// ── Laws of the bar layouts an index is built on ─────────────────────

proof fn lemma_ts_bar_seq_lengths(entries: Seq<crate::ast::TsEntry>, ppq: u32)
    ensures
        forall|i: int|
            0 <= i < ts_bar_seq(entries, ppq).len() ==> #[trigger] ts_bar_seq(entries, ppq)[i].1
                == bar_ticks(
                ppq,
                ts_bar_seq(entries, ppq)[i].2,
                ts_bar_seq(entries, ppq)[i].3,
            ) || bar_ticks(
                ppq,
                ts_bar_seq(entries, ppq)[i].2,
                ts_bar_seq(entries, ppq)[i].3,
            ) > u64::MAX,
    decreases entries.len(),
{
    if entries.len() > 0 {
        lemma_ts_bar_seq_lengths(entries.drop_last(), ppq);
        let a = ts_bar_seq(entries.drop_last(), ppq);
        let b = crate::compiler::entry_bar_seq(
            crate::compiler::ts_total(entries.drop_last(), ppq),
            entries.last(),
            ppq,
        );
        let all = ts_bar_seq(entries, ppq);
        assert(all == a + b);
        assert forall|i: int| 0 <= i < all.len() implies #[trigger] all[i].1 == bar_ticks(
            ppq,
            all[i].2,
            all[i].3,
        ) || bar_ticks(ppq, all[i].2, all[i].3) > u64::MAX by {
            if i < a.len() {
                assert(all[i] == a[i]);
            } else {
                assert(all[i] == b[i - a.len()]);
            }
        }
    }
}

/// A bar is at most 1020 quarter notes long.
proof fn lemma_bar_ticks_bound(ppq: u32, num: u8, den: u8)
    requires
        den > 0,
    ensures
        bar_ticks(ppq, num, den) <= 1020 * ppq,
{
    let q = (ppq as nat * 4) / den as nat;
    assert(q <= ppq * 4) by (nonlinear_arith)
        requires
            q == (ppq as nat * 4) / den as nat,
            den > 0,
    ;
    assert(q * num <= ppq * 4 * 255) by (nonlinear_arith)
        requires
            q <= ppq * 4,
            num <= 255,
    ;
}

/// A harmony index built from a block whose every bar holds a chord has a
/// chord at every tick: the bars' spans leave no gap between tick 0 and the
/// end of the last bar, and queries past the end wrap around. This holds
/// where every bar is as long as its time signature makes it.
pub proof fn lemma_build_has_chord_everywhere(
    block: HarmonyBlock,
    ppq: u32,
    timeline: Seq<ScaleTimelineEntryModel>,
    layout: BarLayoutModel,
    tick: u64,
)
    requires
        spec_build(block, ppq, timeline, layout) is Ok,
        layout_follows_ppq(layout, ppq, block.bars@.len() as int),
        forall|j: int| 0 <= j < block.bars@.len() ==> bar_holds_chord(#[trigger] block.bars@[j]),
        0 < layout_ticks_before(layout, block.bars@.len() as int) <= u64::MAX,
    ensures
        spec_query(
            spec_build(block, ppq, timeline, layout)->Ok_0,
            layout_ticks_before(layout, block.bars@.len() as int) as u64,
            tick,
        ) is Some,
{
    let n = block.bars@.len() as int;
    let total = layout_ticks_before(layout, n) as u64;
    let first = spec_context_at_bar(timeline, 1);
    let secs = section_fold(block.sections@, 0, 0, block.bars@.len(), first.0, first.1)->Ok_0;
    let s = spec_build(block, ppq, timeline, layout)->Ok_0;
    assert(layout_ticks_before(layout, 0) == 0);
    lemma_build_fold_shape(block.bars@, 0, 0, layout, ppq, timeline, secs, first.0);
    let t = effective_tick(total, tick);
    assert(t < total);
    assert(covers_tick(s, t as int));
    let k = choose|k: int| 0 <= k < s.len() && span_holds(#[trigger] s[k], t as int);
    lemma_query_finds_containing_span(s, total, tick);
    assert(s[k].start_tick <= effective_tick(total, tick) < s[k].end_tick);
}

/// A harmony index built from a block whose every bar holds a chord lies end
/// to end over the whole timeline: its spans are ordered, the first starts
/// at tick 0, each ends where the next starts, and the last ends at the
/// index's total (the ticks of all its bars). This holds where every bar is
/// as long as its time signature makes it.
pub proof fn lemma_build_spans_tile(
    block: HarmonyBlock,
    ppq: u32,
    timeline: Seq<ScaleTimelineEntryModel>,
    layout: BarLayoutModel,
)
    requires
        spec_build(block, ppq, timeline, layout) is Ok,
        layout_follows_ppq(layout, ppq, block.bars@.len() as int),
        forall|j: int| 0 <= j < block.bars@.len() ==> bar_holds_chord(#[trigger] block.bars@[j]),
        layout_ticks_before(layout, block.bars@.len() as int) <= u64::MAX,
    ensures
        spans_wf(spec_build(block, ppq, timeline, layout)->Ok_0),
        tiles(
            spec_build(block, ppq, timeline, layout)->Ok_0,
            0,
            layout_ticks_before(layout, block.bars@.len() as int) as int,
        ),
{
    let first = spec_context_at_bar(timeline, 1);
    let secs = section_fold(block.sections@, 0, 0, block.bars@.len(), first.0, first.1)->Ok_0;
    assert(layout_ticks_before(layout, 0) == 0);
    lemma_build_fold_shape(block.bars@, 0, 0, layout, ppq, timeline, secs, first.0);
}

/// A layout with no explicit bars whose bar length is that of its time
/// signature at `ppq` (as `BarLayout::from_header` builds it) follows `ppq`
/// for any number of bars.
pub proof fn lemma_uniform_layout_follows_ppq(m: BarLayoutModel, ppq: u32, n: int)
    requires
        m.bars.len() == 0,
        m.default_ticks == bar_ticks(ppq, m.default_num, m.default_den),
    ensures
        layout_follows_ppq(m, ppq, n),
{
}

/// A layout laid out from a `@ts` timeline at `ppq` (as
/// `BarLayout::from_ts_block` builds it, with default bars of the same ppq)
/// follows `ppq` for any number of bars.
pub proof fn lemma_timeline_layout_follows_ppq(
    m: BarLayoutModel,
    entries: Seq<crate::ast::TsEntry>,
    ppq: u32,
    n: int,
)
    requires
        crate::compiler::layout_wf(m),
        m.bars == ts_bar_seq(entries, ppq),
        m.bars.len() == 0 ==> m.default_ticks == bar_ticks(ppq, m.default_num, m.default_den),
        forall|i: int| 0 <= i < m.bars.len() ==> #[trigger] m.bars[i].3 > 0,
    ensures
        layout_follows_ppq(m, ppq, n),
{
    lemma_ts_bar_seq_lengths(entries, ppq);
    assert forall|i: int| 0 <= i < m.bars.len() implies bar_ticks(
        ppq,
        #[trigger] m.bars[i].2,
        m.bars[i].3,
    ) <= u64::MAX by {
        lemma_bar_ticks_bound(ppq, m.bars[i].2, m.bars[i].3);
    }
    assert forall|b: int| 1 <= b <= n implies #[trigger] spec_ticks_for_bar(m, b) == bar_ticks(
        ppq,
        spec_ts_for_bar(m, b).0,
        spec_ts_for_bar(m, b).1,
    ) by {
        if b - 1 < m.bars.len() {
            assert(m.bars[b - 1].1 == bar_ticks(ppq, m.bars[b - 1].2, m.bars[b - 1].3));
        } else if m.bars.len() > 0 {
            let l = m.bars.len() - 1;
            assert(m.bars.last() == m.bars[l]);
            assert(m.bars[l].1 == bar_ticks(ppq, m.bars[l].2, m.bars[l].3));
        }
    }
}

// ── Laws of Roman-numeral resolution ─────────────────────────────────

proof fn lemma_pc_shift(a: int, b: int)
    ensures
        pc_mod12(pc_mod12(a) as int + b) == pc_mod12(a + b),
{
    vstd::arithmetic::div_mod::lemma_add_mod_noop(a, b, 12);
    vstd::arithmetic::div_mod::lemma_add_mod_noop(a % 12, b, 12);
    vstd::arithmetic::div_mod::lemma_mod_twice(a, 12);
}

/// Changing the key root moves a Roman-numeral chord's root by the same
/// interval (mod 12) and keeps its quality and numeral; whether the symbol
/// parses does not depend on the key root. Transposing a piece is changing
/// one `@scale root=`.
pub proof fn lemma_roman_chord_transposes(s: Seq<char>, r1: u8, r2: u8, mode: Seq<char>)
    requires
        spec_roman_root(s) is Some,
    ensures
        match (
            spec_parse_chord_with_context(s, Some(r1), mode),
            spec_parse_chord_with_context(s, Some(r2), mode),
        ) {
            (Ok(c1), Ok(c2)) => c2.root == pc_mod12(c1.root + r2 - r1) && c2.intervals
                == c1.intervals && c2.roman == c1.roman,
            (Err(f1), Err(f2)) => f1 == f2,
            _ => false,
        },
{
    let (degree, minor, acc, consumed) = spec_roman_root(s)->Some_0;
    match spec_lookup_mode(mode) {
        None => {},
        Some(mi) => {
            let x = degree_semitones(mi, degree) + acc;
            lemma_pc_shift(r1 + x, r2 - r1);
            assert(r1 + x + (r2 - r1) == r2 + x);
        },
    }
}

/// A letter chord keeps its root and quality in every bar: re-resolution
/// against a bar's scale only moves Roman numerals.
pub proof fn lemma_letter_chord_untouched(c: ChordModel, base_mode: Seq<u8>, mode: Seq<u8>, root: u8)
    requires
        c.roman is None,
    ensures
        spec_chord_context(c, base_mode, mode, root).chord == c,
{
}

/// A Roman numeral whose degree the bar's mode has resolves, in that bar,
/// to the bar's scale root plus the degree's interval and the numeral's
/// accidental (mod 12).
pub proof fn lemma_roman_chord_follows_bar_scale(
    c: ChordModel,
    base_mode: Seq<u8>,
    mode: Seq<u8>,
    root: u8,
)
    requires
        c.roman matches Some(rn) && (rn.degree_idx as int) < mode.len(),
    ensures
        spec_chord_context(c, base_mode, mode, root).chord.root == pc_mod12(
            root as int + mode[c.roman->Some_0.degree_idx as int] as int
                + c.roman->Some_0.accidental as int,
        ),
        spec_chord_context(c, base_mode, mode, root).mode_intervals == mode,
        spec_chord_context(c, base_mode, mode, root).scale_root == root,
{
}

} // verus!
