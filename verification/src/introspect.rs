//! Introspection API for Interval.
//!
//! Provides programmatic access to the language's chord qualities, scales,
//! directives, and transforms, and names chords and pitches for display.
//! Designed for IDE integration, autocomplete, and educational tools.

use vstd::prelude::*;
use crate::ast::{ChordModel, ChordSymbol, RomanNumeralDegree, TonalContext};
use crate::harmony::{
    mode_at, mode_count, mode_index_by_intervals, mode_intervals, mode_name,
    mode_name_for_intervals, quality_at, quality_count, quality_intervals, quality_name,
    spec_lookup_mode, lookup_mode, ScaleTimeline, spec_context_at_bar, first_index_from,
    spec_parse_chord_with_context, parse_chord_symbol_with_context,
};
use crate::compiler::{BarLayout, BarLayoutModel, spec_bar_at_tick, spec_ts_for_bar};
use crate::edit::{OutlineBlock, SourceOutline};
use crate::error::Span;
use crate::harmony::{HarmonyIndex, HarmonySpanModel};
use vstd::string::*;
use crate::text::{is_prefix, str_chars, chars_have_prefix_at, bytes_eq, signed_decimal_text,
    signed_decimal_string, copy_bytes, decimal_text, decimal_string};

verus! {

// ── Chord qualities ──────────────────────────────────────────────────

/// A chord quality with its name and interval pattern.
#[derive(Debug, Clone)]
pub struct ChordQualityInfo {
    /// Quality suffix (e.g., "maj7", "m7", "dim").
    pub name: &'static str,
    /// Intervals from root in semitones.
    pub intervals: Vec<u8>,
}

/// All supported chord qualities, in the order the chord parser tries them,
/// ending with the bare major triad.
pub fn all_chord_qualities() -> (r: Vec<ChordQualityInfo>)
    ensures
        r@.len() == quality_count(),
        forall|i: int|
            0 <= i < quality_count() ==> #[trigger] r@[i].name@ == quality_name(i)
                && r@[i].intervals@ == quality_intervals(i),
{
    let mut r: Vec<ChordQualityInfo> = Vec::new();
    let mut i: usize = 0;
    while i < 45
        invariant
            i <= 45,
            r@.len() == i,
            forall|k: int|
                0 <= k < i ==> #[trigger] r@[k].name@ == quality_name(k) && r@[k].intervals@
                    == quality_intervals(k),
        decreases 45 - i,
    {
        let (name, _chars, intervals) = quality_at(i);
        r.push(ChordQualityInfo { name, intervals });
        i = i + 1;
    }
    r
}

/// Quality names, from table entry `i` on, that are non-empty and start with `prefix`.
pub open spec fn completions_from(prefix: Seq<char>, i: int) -> Seq<Seq<char>>
    decreases quality_count() - i,
{
    if i < 0 || i >= quality_count() {
        Seq::empty()
    } else if quality_name(i).len() > 0 && is_prefix(quality_name(i), prefix) {
        seq![quality_name(i)] + completions_from(prefix, i + 1)
    } else {
        completions_from(prefix, i + 1)
    }
}

/// Autocomplete chord quality suffixes matching a prefix.
pub fn complete_chord(prefix: &str) -> (r: Vec<&'static str>)
    ensures
        r@.len() == completions_from(prefix@, 0).len(),
        forall|k: int| 0 <= k < r@.len() ==> #[trigger] r@[k]@ == completions_from(prefix@, 0)[k],
{
    let p = str_chars(prefix);
    let mut r: Vec<&'static str> = Vec::new();
    let ghost views: Seq<Seq<char>> = Seq::empty();
    let mut i: usize = 0;
    while i < 45
        invariant
            i <= 45,
            p@ == prefix@,
            r@.len() == views.len(),
            forall|k: int| 0 <= k < r@.len() ==> #[trigger] r@[k]@ == views[k],
            completions_from(prefix@, 0) == views + completions_from(prefix@, i as int),
        decreases 45 - i,
    {
        let (name, chars, _intervals) = quality_at(i);
        proof {
            assert(chars@.skip(0) =~= chars@);
        }
        if chars.len() > 0 && chars_have_prefix_at(&chars, 0, &p) {
            r.push(name);
            proof {
                assert(views + completions_from(prefix@, i as int) =~= views.push(name@)
                    + completions_from(prefix@, i + 1));
                views = views.push(name@);
            }
        }
        i = i + 1;
    }
    proof {
        assert(views + completions_from(prefix@, 45) =~= views);
    }
    r
}

// ── Scales ───────────────────────────────────────────────────────────

/// A scale/mode with its name and interval pattern.
#[derive(Debug, Clone)]
pub struct ScaleInfo {
    /// Scale name (e.g., "major", "dorian").
    pub name: &'static str,
    /// Intervals from root in semitones.
    pub intervals: Vec<u8>,
}

/// All supported scales/modes, in mode table order.
pub fn all_scales() -> (r: Vec<ScaleInfo>)
    ensures
        r@.len() == mode_count(),
        forall|i: int|
            0 <= i < mode_count() ==> #[trigger] r@[i].name@ == mode_name(i) && r@[i].intervals@
                == mode_intervals(i),
{
    let mut r: Vec<ScaleInfo> = Vec::new();
    let mut i: usize = 0;
    while i < 40
        invariant
            i <= 40,
            r@.len() == i,
            forall|k: int|
                0 <= k < i ==> #[trigger] r@[k].name@ == mode_name(k) && r@[k].intervals@
                    == mode_intervals(k),
        decreases 40 - i,
    {
        let m = mode_at(i);
        r.push(ScaleInfo { name: m.name, intervals: m.intervals });
        i = i + 1;
    }
    r
}

/// Pitch classes of the scale with root `root` and intervals `ivs`.
pub open spec fn pitch_classes(root: u8, ivs: Seq<u8>) -> Seq<u8> {
    Seq::new(ivs.len(), |j: int| ((root + ivs[j]) % 12) as u8)
}

/// `root` can be added to every interval without leaving a byte.
pub open spec fn root_fits(root: u8, ivs: Seq<u8>) -> bool {
    forall|j: int| 0 <= j < ivs.len() ==> root + #[trigger] ivs[j] <= 255
}

fn pitch_classes_of(root: u8, ivs: &[u8]) -> (r: Vec<u8>)
    requires
        root_fits(root, ivs@),
    ensures
        r@ == pitch_classes(root, ivs@),
{
    let mut r: Vec<u8> = Vec::new();
    let mut i: usize = 0;
    while i < ivs.len()
        invariant
            root_fits(root, ivs@),
            i <= ivs@.len(),
            r@ == pitch_classes(root, ivs@).take(i as int),
        decreases ivs@.len() - i,
    {
        assert(root + ivs@[i as int] <= 255);
        r.push((root + ivs[i]) % 12);
        i = i + 1;
        assert(r@ =~= pitch_classes(root, ivs@).take(i as int));
    }
    assert(pitch_classes(root, ivs@).take(ivs@.len() as int) =~= pitch_classes(root, ivs@));
    r
}

/// Compute the pitches of a scale given root pitch class and mode name.
///
/// Returns MIDI pitch classes (0-11) for each scale degree, or `None` if mode not found.
pub fn scale_pitches(root: u8, mode: &str) -> (r: Option<Vec<u8>>)
    requires
        spec_lookup_mode(mode@) matches Some(ivs) ==> root_fits(root, ivs),
    ensures
        match spec_lookup_mode(mode@) {
            Some(ivs) => r matches Some(v) && v@ == pitch_classes(root, ivs),
            None => r is None,
        },
{
    match lookup_mode(mode) {
        Some(ivs) => Some(pitch_classes_of(root, ivs.as_slice())),
        None => None,
    }
}

// ── Directives and transforms ────────────────────────────────────────

/// A directive description for the introspection catalog.
#[derive(Debug, Clone)]
pub struct DirectiveInfo {
    /// Directive name (e.g., "@ppq", "@harmony").
    pub name: &'static str,
    /// Brief description.
    pub description: &'static str,
    /// Whether it's a header directive or block declaration.
    pub kind: DirectiveKind,
}

/// Directive category.
#[derive(Debug, Clone, Copy, PartialEq, Eq, Structural)]
pub enum DirectiveKind {
    /// A header directive.
    Header,
    /// A block declaration.
    Block,
}

/// Name, description and kind of directive catalog entry `i`.
pub open spec fn directive_entry(i: int) -> (Seq<char>, Seq<char>, DirectiveKind) {
    if i == 0 {
        ("@ppq"@, "Pulses per quarter note (default 480)"@, DirectiveKind::Header)
    } else if i == 1 {
        ("@bpm"@, "Tempo: scalar, inline timeline, or block form (e.g., `120 * 8 | 140`)"@, DirectiveKind::Header)
    } else if i == 2 {
        ("@ts"@, "Time signature: scalar or timeline form (e.g., `4/4 * 8 | 3/4`)"@, DirectiveKind::Header)
    } else if i == 3 {
        ("@title"@, "Optional title string"@, DirectiveKind::Header)
    } else if i == 4 {
        ("@seed"@, "Global seed for seeded operations"@, DirectiveKind::Header)
    } else if i == 5 {
        ("@bars"@, "Global bar count for automatic pattern fill (e.g., `@bars 16`)"@, DirectiveKind::Header)
    } else if i == 6 {
        ("@scale"@, "Tonal context: scalar or timeline form (e.g., `root=C mode=major * 8`)"@, DirectiveKind::Block)
    } else if i == 7 {
        ("@harmony"@, "Harmony timeline with chord progression; name optional when single block"@, DirectiveKind::Block)
    } else if i == 8 {
        ("@pattern"@, "Named pattern with step body"@, DirectiveKind::Block)
    } else if i == 9 {
        ("@track"@, "Track declaration with play/steps"@, DirectiveKind::Block)
    } else if i == 10 {
        ("@drummap"@, "Drum map (identifier to MIDI note)"@, DirectiveKind::Block)
    } else {
        ("@tempo"@, "[DEPRECATED in v0.5] Use @bpm timeline form instead"@, DirectiveKind::Block)
    }
}

fn directive_at(i: usize) -> (r: DirectiveInfo)
    requires
        i < 12,
    ensures
        (r.name@, r.description@, r.kind) == directive_entry(i as int),
{
    if i == 0 {
        DirectiveInfo { name: "@ppq", description: "Pulses per quarter note (default 480)", kind: DirectiveKind::Header }
    } else if i == 1 {
        DirectiveInfo { name: "@bpm", description: "Tempo: scalar, inline timeline, or block form (e.g., `120 * 8 | 140`)", kind: DirectiveKind::Header }
    } else if i == 2 {
        DirectiveInfo { name: "@ts", description: "Time signature: scalar or timeline form (e.g., `4/4 * 8 | 3/4`)", kind: DirectiveKind::Header }
    } else if i == 3 {
        DirectiveInfo { name: "@title", description: "Optional title string", kind: DirectiveKind::Header }
    } else if i == 4 {
        DirectiveInfo { name: "@seed", description: "Global seed for seeded operations", kind: DirectiveKind::Header }
    } else if i == 5 {
        DirectiveInfo { name: "@bars", description: "Global bar count for automatic pattern fill (e.g., `@bars 16`)", kind: DirectiveKind::Header }
    } else if i == 6 {
        DirectiveInfo { name: "@scale", description: "Tonal context: scalar or timeline form (e.g., `root=C mode=major * 8`)", kind: DirectiveKind::Block }
    } else if i == 7 {
        DirectiveInfo { name: "@harmony", description: "Harmony timeline with chord progression; name optional when single block", kind: DirectiveKind::Block }
    } else if i == 8 {
        DirectiveInfo { name: "@pattern", description: "Named pattern with step body", kind: DirectiveKind::Block }
    } else if i == 9 {
        DirectiveInfo { name: "@track", description: "Track declaration with play/steps", kind: DirectiveKind::Block }
    } else if i == 10 {
        DirectiveInfo { name: "@drummap", description: "Drum map (identifier to MIDI note)", kind: DirectiveKind::Block }
    } else {
        DirectiveInfo { name: "@tempo", description: "[DEPRECATED in v0.5] Use @bpm timeline form instead", kind: DirectiveKind::Block }
    }
}

/// All supported directives.
pub fn all_directives() -> (r: Vec<DirectiveInfo>)
    ensures
        r@.len() == 12,
        forall|i: int|
            0 <= i < 12 ==> (#[trigger] r@[i].name@, r@[i].description@, r@[i].kind)
                == directive_entry(i),
{
    let mut r: Vec<DirectiveInfo> = Vec::new();
    let mut i: usize = 0;
    while i < 12
        invariant
            i <= 12,
            r@.len() == i,
            forall|k: int|
                0 <= k < i ==> (#[trigger] r@[k].name@, r@[k].description@, r@[k].kind)
                    == directive_entry(k),
        decreases 12 - i,
    {
        r.push(directive_at(i));
        i = i + 1;
    }
    r
}

/// A transform description for the introspection catalog.
#[derive(Debug, Clone)]
pub struct TransformInfo {
    /// Transform name (e.g., "reverse", "transpose").
    pub name: &'static str,
    /// Parameter signature (e.g., "(semitones)", "(ratio, unit)").
    pub signature: &'static str,
    /// Brief description.
    pub description: &'static str,
}

/// Name, signature and description of transform catalog entry `i`.
pub open spec fn transform_entry(i: int) -> (Seq<char>, Seq<char>, Seq<char>) {
    if i == 0 {
        ("reverse"@, ""@, "Reverse step order"@)
    } else if i == 1 {
        ("invert"@, ""@, "Invert intervals around first pitch"@)
    } else if i == 2 {
        ("retrograde"@, ""@, "Reverse + invert"@)
    } else if i == 3 {
        ("mirror"@, ""@, "Concatenate with own reverse"@)
    } else if i == 4 {
        ("rotate"@, "(steps)"@, "Cyclic rotation by N steps"@)
    } else if i == 5 {
        ("stretch"@, "(factor)"@, "Multiply durations by factor"@)
    } else if i == 6 {
        ("compress"@, "(factor)"@, "Divide durations by factor"@)
    } else if i == 7 {
        ("transpose"@, "(semitones)"@, "Transpose absolute pitches"@)
    } else if i == 8 {
        ("shift_oct"@, "(octaves)"@, "Shift octave for all notes"@)
    } else if i == 9 {
        ("subset"@, "(indices...)"@, "Retain only specified step indices"@)
    } else if i == 10 {
        ("interleave"@, "(pattern_name)"@, "Alternate steps with another pattern"@)
    } else if i == 11 {
        ("humanize"@, "(timing, intensity)"@, "Apply humanization"@)
    } else if i == 12 {
        ("vary"@, "(probability)"@, "Select variant pool alternatives"@)
    } else if i == 13 {
        ("swing"@, "(ratio, unit)"@, "Apply swing timing"@)
    } else if i == 14 {
        ("rubato"@, "(depth, curve)"@, "Time envelope deformation"@)
    } else if i == 15 {
        ("ritardando"@, "(depth)"@, "Gradual tempo decrease"@)
    } else if i == 16 {
        ("accelerando"@, "(depth)"@, "Gradual tempo increase"@)
    } else if i == 17 {
        ("agogic"@, "(steps...)"@, "Duration emphasis on steps"@)
    } else if i == 18 {
        ("breathe"@, "(position, duration)"@, "Micro-pause at position"@)
    } else if i == 19 {
        ("swell"@, "(peak, curve)"@, "Velocity envelope"@)
    } else if i == 20 {
        ("phrase"@, "(tension, release)"@, "Composite rubato + agogic + swell"@)
    } else if i == 21 {
        ("evolve"@, "(toggle_probability)"@, "Shift register mutation"@)
    } else if i == 22 {
        ("euclid_gate"@, "(pulses, steps)"@, "Euclidean rhythm gate"@)
    } else if i == 23 {
        ("echo"@, "(rate, repeats, decay)"@, "Repeat notes with decay"@)
    } else if i == 24 {
        ("vel_curve"@, "(wave, min, max, repeat)"@, "Shape velocity across steps"@)
    } else if i == 25 {
        ("gate_curve"@, "(wave, min, max, repeat)"@, "Shape gate across steps"@)
    } else if i == 26 {
        ("scale_lock"@, "(scale, root, snap_mode)"@, "Snap pitches to a scale"@)
    } else {
        ("arp"@, "(pattern, rate, octaves)"@, "Explode chord steps into arpeggiated sequences (emission-phase)"@)
    }
}

fn transform_at(i: usize) -> (r: TransformInfo)
    requires
        i < 28,
    ensures
        (r.name@, r.signature@, r.description@) == transform_entry(i as int),
{
    if i == 0 {
        TransformInfo { name: "reverse", signature: "", description: "Reverse step order" }
    } else if i == 1 {
        TransformInfo { name: "invert", signature: "", description: "Invert intervals around first pitch" }
    } else if i == 2 {
        TransformInfo { name: "retrograde", signature: "", description: "Reverse + invert" }
    } else if i == 3 {
        TransformInfo { name: "mirror", signature: "", description: "Concatenate with own reverse" }
    } else if i == 4 {
        TransformInfo { name: "rotate", signature: "(steps)", description: "Cyclic rotation by N steps" }
    } else if i == 5 {
        TransformInfo { name: "stretch", signature: "(factor)", description: "Multiply durations by factor" }
    } else if i == 6 {
        TransformInfo { name: "compress", signature: "(factor)", description: "Divide durations by factor" }
    } else if i == 7 {
        TransformInfo { name: "transpose", signature: "(semitones)", description: "Transpose absolute pitches" }
    } else if i == 8 {
        TransformInfo { name: "shift_oct", signature: "(octaves)", description: "Shift octave for all notes" }
    } else if i == 9 {
        TransformInfo { name: "subset", signature: "(indices...)", description: "Retain only specified step indices" }
    } else if i == 10 {
        TransformInfo { name: "interleave", signature: "(pattern_name)", description: "Alternate steps with another pattern" }
    } else if i == 11 {
        TransformInfo { name: "humanize", signature: "(timing, intensity)", description: "Apply humanization" }
    } else if i == 12 {
        TransformInfo { name: "vary", signature: "(probability)", description: "Select variant pool alternatives" }
    } else if i == 13 {
        TransformInfo { name: "swing", signature: "(ratio, unit)", description: "Apply swing timing" }
    } else if i == 14 {
        TransformInfo { name: "rubato", signature: "(depth, curve)", description: "Time envelope deformation" }
    } else if i == 15 {
        TransformInfo { name: "ritardando", signature: "(depth)", description: "Gradual tempo decrease" }
    } else if i == 16 {
        TransformInfo { name: "accelerando", signature: "(depth)", description: "Gradual tempo increase" }
    } else if i == 17 {
        TransformInfo { name: "agogic", signature: "(steps...)", description: "Duration emphasis on steps" }
    } else if i == 18 {
        TransformInfo { name: "breathe", signature: "(position, duration)", description: "Micro-pause at position" }
    } else if i == 19 {
        TransformInfo { name: "swell", signature: "(peak, curve)", description: "Velocity envelope" }
    } else if i == 20 {
        TransformInfo { name: "phrase", signature: "(tension, release)", description: "Composite rubato + agogic + swell" }
    } else if i == 21 {
        TransformInfo { name: "evolve", signature: "(toggle_probability)", description: "Shift register mutation" }
    } else if i == 22 {
        TransformInfo { name: "euclid_gate", signature: "(pulses, steps)", description: "Euclidean rhythm gate" }
    } else if i == 23 {
        TransformInfo { name: "echo", signature: "(rate, repeats, decay)", description: "Repeat notes with decay" }
    } else if i == 24 {
        TransformInfo { name: "vel_curve", signature: "(wave, min, max, repeat)", description: "Shape velocity across steps" }
    } else if i == 25 {
        TransformInfo { name: "gate_curve", signature: "(wave, min, max, repeat)", description: "Shape gate across steps" }
    } else if i == 26 {
        TransformInfo { name: "scale_lock", signature: "(scale, root, snap_mode)", description: "Snap pitches to a scale" }
    } else {
        TransformInfo { name: "arp", signature: "(pattern, rate, octaves)", description: "Explode chord steps into arpeggiated sequences (emission-phase)" }
    }
}

/// All supported transforms.
#[verifier::spinoff_prover]
pub fn all_transforms() -> (r: Vec<TransformInfo>)
    ensures
        r@.len() == 28,
        forall|i: int|
            0 <= i < 28 ==> (#[trigger] r@[i].name@, r@[i].signature@, r@[i].description@)
                == transform_entry(i),
{
    let mut r: Vec<TransformInfo> = Vec::new();
    let mut i: usize = 0;
    while i < 28
        invariant
            i <= 28,
            r@.len() == i,
            forall|k: int|
                0 <= k < i ==> (#[trigger] r@[k].name@, r@[k].signature@, r@[k].description@)
                    == transform_entry(k),
        decreases 28 - i,
    {
        r.push(transform_at(i));
        i = i + 1;
    }
    r
}

// ── Naming pitches and chords ────────────────────────────────────────

/// Sharp-preferring name of pitch class `pc` (0 = C … 11 = B).
pub open spec fn pc_sharp_name(pc: nat) -> Seq<char> {
    if pc == 0 {
        "C"@
    } else if pc == 1 {
        "C#"@
    } else if pc == 2 {
        "D"@
    } else if pc == 3 {
        "D#"@
    } else if pc == 4 {
        "E"@
    } else if pc == 5 {
        "F"@
    } else if pc == 6 {
        "F#"@
    } else if pc == 7 {
        "G"@
    } else if pc == 8 {
        "G#"@
    } else if pc == 9 {
        "A"@
    } else if pc == 10 {
        "A#"@
    } else {
        "B"@
    }
}

/// Pitch class to note name (sharps preferred).
pub fn pitch_class_name(pc: u8) -> (r: &'static str)
    ensures
        r@ == pc_sharp_name((pc % 12) as nat),
{
    let k = pc % 12;
    if k == 0 {
        "C"
    } else if k == 1 {
        "C#"
    } else if k == 2 {
        "D"
    } else if k == 3 {
        "D#"
    } else if k == 4 {
        "E"
    } else if k == 5 {
        "F"
    } else if k == 6 {
        "F#"
    } else if k == 7 {
        "G"
    } else if k == 8 {
        "G#"
    } else if k == 9 {
        "A"
    } else if k == 10 {
        "A#"
    } else {
        "B"
    }
}

/// Flat-preferring name of pitch class `pc`, as MIDI note names use.
pub open spec fn pc_flat_name(pc: nat) -> Seq<char> {
    if pc == 0 {
        "C"@
    } else if pc == 1 {
        "C#"@
    } else if pc == 2 {
        "D"@
    } else if pc == 3 {
        "Eb"@
    } else if pc == 4 {
        "E"@
    } else if pc == 5 {
        "F"@
    } else if pc == 6 {
        "F#"@
    } else if pc == 7 {
        "G"@
    } else if pc == 8 {
        "Ab"@
    } else if pc == 9 {
        "A"@
    } else if pc == 10 {
        "Bb"@
    } else {
        "B"@
    }
}

fn pc_flat_str(pc: u8) -> (r: &'static str)
    requires
        pc < 12,
    ensures
        r@ == pc_flat_name(pc as nat),
{
    if pc == 0 {
        "C"
    } else if pc == 1 {
        "C#"
    } else if pc == 2 {
        "D"
    } else if pc == 3 {
        "Eb"
    } else if pc == 4 {
        "E"
    } else if pc == 5 {
        "F"
    } else if pc == 6 {
        "F#"
    } else if pc == 7 {
        "G"
    } else if pc == 8 {
        "Ab"
    } else if pc == 9 {
        "A"
    } else if pc == 10 {
        "Bb"
    } else {
        "B"
    }
}

/// Name of MIDI note `note`: its pitch class and octave, C4 being 60.
pub open spec fn spec_midi_note_name(note: u8) -> Seq<char> {
    pc_flat_name((note % 12) as nat) + signed_decimal_text(note / 12 - 1)
}

/// Format a MIDI note number as a readable pitch name (e.g., 60 → "C4", 63 → "Eb4").
pub fn midi_note_name(note: u8) -> (r: String)
    ensures
        r@ == spec_midi_note_name(note),
{
    let octave: i64 = (note / 12) as i64 - 1;
    let mut s = String::from_str(pc_flat_str(note % 12));
    let o = signed_decimal_string(octave);
    s.append(o.as_str());
    s
}

/// The first quality table entry, from `i` on, with exactly these intervals.
pub open spec fn quality_index_by_intervals_from(ivs: Seq<u8>, i: int) -> Option<int>
    decreases quality_count() - i,
{
    if i < 0 || i >= quality_count() {
        None
    } else if quality_intervals(i) == ivs {
        Some(i)
    } else {
        quality_index_by_intervals_from(ivs, i + 1)
    }
}

/// The quality suffix of a chord: the first table name with exactly its
/// intervals, or none (the bare major triad) when no entry matches.
pub open spec fn spec_quality_suffix(ivs: Seq<u8>) -> Seq<char> {
    match quality_index_by_intervals_from(ivs, 0) {
        Some(i) => quality_name(i),
        None => Seq::empty(),
    }
}

/// Reverse-map a chord's intervals to a quality suffix string.
pub fn chord_quality_suffix(intervals: &[u8]) -> (r: &'static str)
    ensures
        r@ == spec_quality_suffix(intervals@),
{
    let mut i: usize = 0;
    while i < 45
        invariant
            i <= 45,
            quality_index_by_intervals_from(intervals@, 0) == quality_index_by_intervals_from(
                intervals@,
                i as int,
            ),
        decreases 45 - i,
    {
        let (name, _chars, ivs) = quality_at(i);
        if bytes_eq(ivs.as_slice(), intervals) {
            return name;
        }
        i = i + 1;
    }
    proof {
        reveal_strlit("");
    }
    ""
}

/// Roman numeral of 0-based degree `d`, upper or lower case.
pub open spec fn numeral_text(d: nat, lower: bool) -> Seq<char> {
    if d == 0 {
        if lower { "i"@ } else { "I"@ }
    } else if d == 1 {
        if lower { "ii"@ } else { "II"@ }
    } else if d == 2 {
        if lower { "iii"@ } else { "III"@ }
    } else if d == 3 {
        if lower { "iv"@ } else { "IV"@ }
    } else if d == 4 {
        if lower { "v"@ } else { "V"@ }
    } else if d == 5 {
        if lower { "vi"@ } else { "VI"@ }
    } else {
        if lower { "vii"@ } else { "VII"@ }
    }
}

fn numeral_str(d: u8, lower: bool) -> (r: &'static str)
    requires
        d < 7,
    ensures
        r@ == numeral_text(d as nat, lower),
{
    if d == 0 {
        if lower { "i" } else { "I" }
    } else if d == 1 {
        if lower { "ii" } else { "II" }
    } else if d == 2 {
        if lower { "iii" } else { "III" }
    } else if d == 3 {
        if lower { "iv" } else { "IV" }
    } else if d == 4 {
        if lower { "v" } else { "V" }
    } else if d == 5 {
        if lower { "vi" } else { "VI" }
    } else {
        if lower { "vii" } else { "VII" }
    }
}

/// Accidental prefix of a Roman numeral: `b` for flat, `#` for sharp.
pub open spec fn accidental_text(a: i8) -> Seq<char> {
    if a == -1 {
        "b"@
    } else if a == 1 {
        "#"@
    } else {
        Seq::empty()
    }
}

/// A chord is minor when its second interval is a minor third.
pub open spec fn is_minor_quality(ivs: Seq<u8>) -> bool {
    ivs.len() >= 2 && ivs[1] == 3
}

/// The quality suffix shown after a lower-case numeral: a leading `min`
/// goes, and so does a leading `m` before nothing, a digit or `(`.
pub open spec fn minor_display_suffix(s: Seq<char>) -> Seq<char> {
    if is_prefix(s, seq!['m', 'i', 'n']) {
        s.skip(3)
    } else if is_prefix(s, seq!['m']) {
        let rest = s.skip(1);
        if rest.len() == 0 || ('0' <= rest[0] <= '9') || rest[0] == '(' {
            rest
        } else {
            s
        }
    } else {
        s
    }
}

fn minor_display_suffix_str<'a>(s: &'a str) -> (r: &'a str)
    ensures
        r@ == minor_display_suffix(s@),
{
    let n = s.unicode_len();
    if n >= 3 && s.get_char(0) == 'm' && s.get_char(1) == 'i' && s.get_char(2) == 'n' {
        assert(s@.subrange(0, 3) =~= seq!['m', 'i', 'n']);
        let rest = s.substring_char(3, n);
        assert(rest@ =~= s@.skip(3));
        return rest;
    }
    if n >= 1 && s.get_char(0) == 'm' {
        assert(s@.subrange(0, 1) =~= seq!['m']);
        assert(!is_prefix(s@, seq!['m', 'i', 'n']));
        let rest = s.substring_char(1, n);
        assert(rest@ =~= s@.skip(1));
        if n == 1 {
            return rest;
        }
        let c = s.get_char(1);
        if ('0' <= c && c <= '9') || c == '(' {
            return rest;
        }
        return s;
    }
    proof {
        if is_prefix(s@, seq!['m']) {
            assert(s@.subrange(0, 1)[0] == 'm');
        }
        if is_prefix(s@, seq!['m', 'i', 'n']) {
            assert(s@.subrange(0, 3)[0] == 'm');
        }
    }
    s
}

/// Roman-numeral name of a chord: accidental, numeral (lower case for a
/// minor chord), then its quality suffix as `minor_display_suffix` shows it.
pub open spec fn spec_format_roman(r: RomanNumeralDegree, ivs: Seq<u8>) -> Seq<char> {
    let minor = is_minor_quality(ivs);
    let suffix = spec_quality_suffix(ivs);
    accidental_text(r.accidental) + numeral_text((r.degree_idx % 7) as nat, minor) + if minor {
        minor_display_suffix(suffix)
    } else {
        suffix
    }
}

/// Format a Roman numeral string from a `RomanNumeralDegree` and chord intervals.
///
/// Produces strings like "I", "iv7", "bVImaj7". Minor chords use lowercase numerals;
/// major/dominant use uppercase.
pub fn format_roman_numeral(roman: &RomanNumeralDegree, intervals: &[u8]) -> (r: String)
    ensures
        r@ == spec_format_roman(*roman, intervals@),
{
    let idx = roman.degree_idx % 7;
    let is_minor = intervals.len() >= 2 && intervals[1] == 3;
    let mut s = String::new();
    if roman.accidental == -1 {
        s.append("b");
    } else if roman.accidental == 1 {
        s.append("#");
    }
    s.append(numeral_str(idx, is_minor));
    let suffix = chord_quality_suffix(intervals);
    let display = if is_minor {
        minor_display_suffix_str(suffix)
    } else {
        suffix
    };
    s.append(display);
    s
}

/// Absolute name of a chord: root, quality suffix and `/bass` when it has one.
pub open spec fn spec_format_chord(c: ChordModel) -> Seq<char> {
    pc_sharp_name((c.root % 12) as nat) + spec_quality_suffix(c.intervals) + match c.slash_bass {
        Some(b) => "/"@ + pc_sharp_name((b % 12) as nat),
        None => Seq::empty(),
    }
}

/// Format a chord symbol string from root + intervals.
pub fn format_chord_symbol(chord: &ChordSymbol) -> (r: String)
    ensures
        r@ == spec_format_chord(chord@),
{
    let mut s = String::from_str(pitch_class_name(chord.root));
    s.append(chord_quality_suffix(chord.intervals.as_slice()));
    match chord.slash_bass {
        Some(b) => {
            s.append("/");
            s.append(pitch_class_name(b));
        },
        None => {},
    }
    s
}

// ── Chords in a key ──────────────────────────────────────────────────

/// A chord resolved against a key for two-row display in a chord track.
///
/// `rendered` is the absolute name (e.g. "Cmaj7", "G7"); `relative` is the
/// Roman-numeral name in the key (e.g. "I", "V7", "bVII"). `root`/`intervals` are
/// the resolved concrete chord, so a caller can voice it without re-parsing.
#[derive(Debug, Clone)]
pub struct ChordDescription {
    /// Absolute chord name.
    pub rendered: String,
    /// Roman-numeral name in the key.
    pub relative: String,
    /// Root pitch class.
    pub root: u8,
    /// Intervals from the root.
    pub intervals: Vec<u8>,
}

fn index_of(s: &[u8], x: u8) -> (r: Option<usize>)
    ensures
        match first_index_from(s@, x, 0) {
            Some(i) => r == Some(i as usize),
            None => r is None,
        },
{
    let mut i: usize = 0;
    while i < s.len()
        invariant
            i <= s@.len(),
            first_index_from(s@, x, 0) == first_index_from(s@, x, i as int),
        decreases s@.len() - i,
    {
        if s[i] == x {
            return Some(i);
        }
        i = i + 1;
    }
    None
}

/// Roman-numeral name, in the key `key_root` / `mode`, of the chord with
/// root pitch class `root`: the scale degree at the root's distance from
/// the key root, else the flat of the degree a semitone above, else the
/// sharp of the degree a semitone below; empty for an unknown mode or a
/// root that none of these reaches.
pub open spec fn spec_roman_from_absolute(
    root: u8,
    ivs: Seq<u8>,
    key_root: u8,
    mode: Seq<char>,
) -> Seq<char> {
    match spec_lookup_mode(mode) {
        None => Seq::empty(),
        Some(m) => {
            let rel = ((root as int - key_root as int) % 12) as u8;
            match first_index_from(m, rel, 0) {
                Some(j) => spec_format_roman(
                    RomanNumeralDegree { degree_idx: j as u8, accidental: 0i8 },
                    ivs,
                ),
                None => match first_index_from(m, ((rel + 1) % 12) as u8, 0) {
                    Some(j) => spec_format_roman(
                        RomanNumeralDegree { degree_idx: j as u8, accidental: -1i8 },
                        ivs,
                    ),
                    None => match first_index_from(m, ((rel + 11) % 12) as u8, 0) {
                        Some(j) => spec_format_roman(
                            RomanNumeralDegree { degree_idx: j as u8, accidental: 1i8 },
                            ivs,
                        ),
                        None => Seq::empty(),
                    },
                },
            }
        },
    }
}

proof fn lemma_first_index_bounds(s: Seq<u8>, x: u8, from: int)
    ensures
        first_index_from(s, x, from) matches Some(i) ==> from <= i < s.len(),
    decreases s.len() - from,
{
    if 0 <= from < s.len() && s[from] != x {
        lemma_first_index_bounds(s, x, from + 1);
    }
}

/// Derive a Roman-numeral name for an absolute chord (root pitch-class +
/// intervals) relative to a key.
pub fn roman_from_absolute(root: u8, intervals: &[u8], key_root: u8, key_mode: &str) -> (r: String)
    ensures
        r@ == spec_roman_from_absolute(root, intervals@, key_root, key_mode@),
{
    let mode_ivs = match lookup_mode(key_mode) {
        Some(ivs) => ivs,
        None => return String::new(),
    };
    let rel: u8 = ((root as i16 - key_root as i16) % 12 + 12) as u8 % 12;
    assert(rel == ((root as int - key_root as int) % 12) as u8);
    proof {
        lemma_first_index_bounds(mode_ivs@, rel, 0);
        lemma_first_index_bounds(mode_ivs@, ((rel + 1) % 12) as u8, 0);
        lemma_first_index_bounds(mode_ivs@, ((rel + 11) % 12) as u8, 0);
    }
    match index_of(mode_ivs.as_slice(), rel) {
        Some(j) => {
            return format_roman_numeral(
                &RomanNumeralDegree { degree_idx: j as u8, accidental: 0i8 },
                intervals,
            );
        },
        None => {},
    }
    match index_of(mode_ivs.as_slice(), (rel + 1) % 12) {
        Some(j) => {
            return format_roman_numeral(
                &RomanNumeralDegree { degree_idx: j as u8, accidental: -1i8 },
                intervals,
            );
        },
        None => {},
    }
    match index_of(mode_ivs.as_slice(), (rel + 11) % 12) {
        Some(j) => {
            return format_roman_numeral(
                &RomanNumeralDegree { degree_idx: j as u8, accidental: 1i8 },
                intervals,
            );
        },
        None => {},
    }
    String::new()
}

/// What `describe_chord_in_key` gives for a parsed chord `c` in the key.
pub open spec fn spec_relative_name(c: ChordModel, key_root: u8, mode: Seq<char>) -> Seq<char> {
    match c.roman {
        Some(rn) => spec_format_roman(rn, c.intervals),
        None => spec_roman_from_absolute(c.root, c.intervals, key_root, mode),
    }
}

/// Resolve a chord symbol — a Roman numeral (`V7`, `bVII`) OR a letter chord
/// (`Cmaj7`, `Dm`) — against a key into its rendered (absolute) + relative (Roman)
/// names. Returns `None` if the symbol can't be parsed.
pub fn describe_chord_in_key(symbol: &str, key_root: u8, key_mode: &str) -> (r: Option<
    ChordDescription,
>)
    ensures
        match spec_parse_chord_with_context(symbol@, Some((key_root % 12) as u8), key_mode@) {
            Ok(c) => r matches Some(d) && d.rendered@ == spec_format_chord(c) && d.relative@
                == spec_relative_name(c, key_root, key_mode@) && d.root == c.root
                && d.intervals@ == c.intervals,
            Err(_) => r is None,
        },
{
    let tc = TonalContext { root: Some(key_root % 12), mode: String::from_str(key_mode), span: None };
    let chord = match parse_chord_symbol_with_context(symbol, &tc) {
        Ok(c) => c,
        Err(_) => return None,
    };
    let rendered = format_chord_symbol(&chord);
    let relative = match chord.roman {
        Some(rn) => format_roman_numeral(&rn, chord.intervals.as_slice()),
        None => roman_from_absolute(chord.root, chord.intervals.as_slice(), key_root, key_mode),
    };
    Some(ChordDescription { rendered, relative, root: chord.root, intervals: chord.intervals })
}

// ── Scale degrees ────────────────────────────────────────────────────

/// The pitch of a scale degree before it is clamped to the MIDI range.
pub open spec fn degree_pitch_unclamped(degree: u8, accidental: i8, octave: u8, ivs: Seq<u8>, root: u8) -> int {
    let d = degree as int - 1;
    let idx = d % (ivs.len() as int);
    let oct = octave as int + d / (ivs.len() as int);
    oct * 12 + 12 + root as int + ivs[idx] as int + accidental as int
}

/// MIDI pitch of 1-indexed scale degree `degree` (`degree >= 1`) with the
/// given accidental, in octave `octave` of the scale with intervals `ivs`
/// and root pitch class `root`: `(octave * 12 + 12) + root + interval +
/// accidental`, where degrees past the scale's length continue in the
/// octaves above, clamped to 0–127.
pub open spec fn spec_resolve_degree(degree: u8, accidental: i8, octave: u8, ivs: Seq<u8>, root: u8) -> u8 {
    let raw = degree_pitch_unclamped(degree, accidental, octave, ivs, root);
    if raw < 0 {
        0
    } else if raw > 127 {
        127
    } else {
        raw as u8
    }
}

/// Resolve a scale degree to a MIDI pitch.
///
/// `root`: pitch class (0=C), `mode`: scale name, `degree`: 1-indexed,
/// `octave`: MIDI octave, `accidental`: -1/0/1 for flat/natural/sharp.
/// `midi = (oct * 12 + 12) + scale_root_semitone + interval`; degree 5 in
/// C major at octave 4 is MIDI 67. The result is clamped to 0–127. Returns
/// `None` only for an unknown mode or degree 0.
pub fn resolve_degree(root: u8, mode: &str, degree: u8, octave: u8, accidental: i8) -> (r: Option<
    u8,
>)
    ensures
        match spec_lookup_mode(mode@) {
            Some(ivs) => if degree == 0 {
                r is None
            } else {
                r == Some(spec_resolve_degree(degree, accidental, octave, ivs, root))
            },
            None => r is None,
        },
{
    let intervals = match lookup_mode(mode) {
        Some(ivs) => ivs,
        None => return None,
    };
    if degree == 0 {
        return None;
    }
    proof {
        crate::harmony::lemma_lookup_mode_well_formed(mode@);
    }
    let len = intervals.len();
    let d = (degree - 1) as usize;
    let idx = d % len;
    let oct: i64 = octave as i64 + (d / len) as i64;
    let raw: i64 = oct * 12 + 12 + root as i64 + intervals[idx] as i64 + accidental as i64;
    if raw < 0 {
        Some(0)
    } else if raw > 127 {
        Some(127)
    } else {
        Some(raw as u8)
    }
}

/// Moving the scale root up by `k` semitones moves every resolved degree up
/// by `k`, wherever neither pitch is clamped: transposing a piece is a change
/// of its root alone.
pub proof fn lemma_degree_transposes(
    degree: u8,
    accidental: i8,
    octave: u8,
    ivs: Seq<u8>,
    root: u8,
    k: u8,
)
    requires
        degree >= 1,
        ivs.len() > 0,
        root + k <= u8::MAX,
        0 <= degree_pitch_unclamped(degree, accidental, octave, ivs, root),
        degree_pitch_unclamped(degree, accidental, octave, ivs, root) + k <= 127,
    ensures
        spec_resolve_degree(degree, accidental, octave, ivs, (root + k) as u8)
            == spec_resolve_degree(degree, accidental, octave, ivs, root) + k,
{
}

/// A degree one scale length further up is the same degree an octave higher,
/// wherever neither pitch is clamped.
pub proof fn lemma_degree_wraps_to_next_octave(
    degree: u8,
    accidental: i8,
    octave: u8,
    ivs: Seq<u8>,
    root: u8,
)
    requires
        degree >= 1,
        ivs.len() > 0,
        degree + ivs.len() <= u8::MAX,
        0 <= degree_pitch_unclamped(degree, accidental, octave, ivs, root),
        degree_pitch_unclamped(degree, accidental, octave, ivs, root) + 12 <= 127,
    ensures
        spec_resolve_degree((degree + ivs.len()) as u8, accidental, octave, ivs, root)
            == spec_resolve_degree(degree, accidental, octave, ivs, root) + 12,
{
    let n = ivs.len() as int;
    let d = degree as int - 1;
    vstd::arithmetic::div_mod::lemma_div_plus_one(d, n);
    vstd::arithmetic::div_mod::lemma_mod_add_multiples_vanish(d, n);
    assert((degree + ivs.len()) as u8 as int - 1 == n + d);
}

// ── Harmony timeline ─────────────────────────────────────────────────

/// A single chord within a bar's harmony.
///
/// Its beat positions within the bar are `(tick - bar_start_tick) *
/// beat_unit / whole_note_ticks` for `tick_start` and `tick_end`.
#[derive(Debug, Clone)]
pub struct HarmonyChordInfo {
    /// Display symbol (e.g., "Cmaj7").
    pub symbol: String,
    /// Root pitch class (0=C … 11=B).
    pub root: u8,
    /// Chord intervals from root.
    pub intervals: Vec<u8>,
    /// Roman numeral representation (e.g., "iv7", "bVImaj7"), if chord was specified as Roman numeral.
    pub roman_numeral: Option<String>,
    /// Start tick of the bar the chord starts in.
    pub bar_start_tick: u64,
    /// Note value of one beat of that bar: its time signature's denominator.
    pub beat_unit: u8,
    /// Ticks of a whole note (four quarters).
    pub whole_note_ticks: u64,
    /// Tick start (absolute).
    pub tick_start: u64,
    /// Tick end (absolute, exclusive).
    pub tick_end: u64,
}

/// What a harmony chord entry holds.
pub struct HarmonyChordModel {
    /// Display symbol.
    pub symbol: Seq<char>,
    /// Root pitch class.
    pub root: u8,
    /// Chord intervals.
    pub intervals: Seq<u8>,
    /// Roman numeral text, if any.
    pub roman_numeral: Option<Seq<char>>,
    /// Start tick of the chord's bar.
    pub bar_start_tick: u64,
    /// Beat note value of that bar.
    pub beat_unit: u8,
    /// Ticks of a whole note.
    pub whole_note_ticks: u64,
    /// Tick start.
    pub tick_start: u64,
    /// Tick end.
    pub tick_end: u64,
}

impl View for HarmonyChordInfo {
    type V = HarmonyChordModel;

    open spec fn view(&self) -> HarmonyChordModel {
        HarmonyChordModel {
            symbol: self.symbol@,
            root: self.root,
            intervals: self.intervals@,
            roman_numeral: match self.roman_numeral {
                Some(r) => Some(r@),
                None => None,
            },
            bar_start_tick: self.bar_start_tick,
            beat_unit: self.beat_unit,
            whole_note_ticks: self.whole_note_ticks,
            tick_start: self.tick_start,
            tick_end: self.tick_end,
        }
    }
}

/// Harmony information for a single bar.
#[derive(Debug, Clone)]
pub struct HarmonyBarInfo {
    /// Bar number (1-indexed).
    pub bar: u32,
    /// Chords active in this bar.
    pub chords: Vec<HarmonyChordInfo>,
}

/// What a bar of the harmony timeline holds.
pub struct HarmonyBarModel {
    /// Bar number.
    pub bar: u32,
    /// The bar's chords, in order.
    pub chords: Seq<HarmonyChordModel>,
}

impl View for HarmonyBarInfo {
    type V = HarmonyBarModel;

    open spec fn view(&self) -> HarmonyBarModel {
        HarmonyBarModel { bar: self.bar, chords: Seq::new(self.chords@.len(), |i: int| self.chords@[i]@) }
    }
}

/// The models of a sequence of bars.
pub open spec fn bar_models(s: Seq<HarmonyBarInfo>) -> Seq<HarmonyBarModel> {
    Seq::new(s.len(), |i: int| s[i]@)
}

/// The display entry of a harmony span, placed in the bar its start falls
/// in, at `ppq` pulses per quarter note.
pub open spec fn chord_entry(sp: HarmonySpanModel, m: BarLayoutModel, ppq: u32) -> HarmonyChordModel {
    let (bar, bar_start) = spec_bar_at_tick(m, sp.start_tick);
    let c = sp.context.chord;
    HarmonyChordModel {
        symbol: spec_format_chord(c),
        root: c.root,
        intervals: c.intervals,
        roman_numeral: match c.roman {
            Some(r) => Some(spec_format_roman(r, c.intervals)),
            None => None,
        },
        bar_start_tick: bar_start,
        beat_unit: spec_ts_for_bar(m, bar as int).1,
        whole_note_ticks: (4 * ppq) as u64,
        tick_start: sp.start_tick,
        tick_end: sp.end_tick,
    }
}

/// The spans grouped into bars: each span joins the bar before it when it
/// starts in the same bar, and opens a new bar otherwise.
pub open spec fn timeline_bars(s: Seq<HarmonySpanModel>, m: BarLayoutModel, ppq: u32) -> Seq<
    HarmonyBarModel,
>
    decreases s.len(),
{
    if s.len() == 0 {
        Seq::empty()
    } else {
        let g = timeline_bars(s.drop_last(), m, ppq);
        let c = chord_entry(s.last(), m, ppq);
        let b = spec_bar_at_tick(m, s.last().start_tick).0;
        if g.len() > 0 && g.last().bar == b {
            g.update(g.len() - 1, HarmonyBarModel { bar: b, chords: g.last().chords.push(c) })
        } else {
            g.push(HarmonyBarModel { bar: b, chords: seq![c] })
        }
    }
}

proof fn lemma_timeline_bars_step(s: Seq<HarmonySpanModel>, m: BarLayoutModel, ppq: u32, k: int)
    requires
        0 <= k < s.len(),
    ensures
        ({
            let g = timeline_bars(s.take(k), m, ppq);
            let c = chord_entry(s[k], m, ppq);
            let b = spec_bar_at_tick(m, s[k].start_tick).0;
            timeline_bars(s.take(k + 1), m, ppq) == if g.len() > 0 && g.last().bar == b {
                g.update(g.len() - 1, HarmonyBarModel { bar: b, chords: g.last().chords.push(c) })
            } else {
                g.push(HarmonyBarModel { bar: b, chords: seq![c] })
            }
        }),
{
    assert(s.take(k + 1).drop_last() =~= s.take(k));
    assert(s.take(k + 1).last() == s[k]);
}

/// Whether `bar_at_tick` can place every span of `s` in `m`.
pub open spec fn spans_placeable(s: Seq<HarmonySpanModel>, m: BarLayoutModel) -> bool {
    &&& m.default_ticks > 0
    &&& forall|i: int|
        0 <= i < s.len() ==> #[trigger] s[i].start_tick / m.default_ticks + m.bars.len() + 1
            <= u32::MAX
}

/// Build a structured harmony timeline from a HarmonyIndex.
///
/// Groups spans into bars for display. Uses the bar layout to find each
/// chord's bar and the beat unit of that bar.
#[verifier::spinoff_prover]
pub fn harmony_timeline(index: &HarmonyIndex, bar_layout: &BarLayout, ppq: u32) -> (r: Vec<
    HarmonyBarInfo,
>)
    requires
        spans_placeable(index.spans_model(), bar_layout@),
    ensures
        bar_models(r@) == timeline_bars(index.spans_model(), bar_layout@, ppq),
{
    let spans = index.spans();
    let ghost s = index.spans_model();
    let ghost m = bar_layout@;
    let mut bars: Vec<HarmonyBarInfo> = Vec::new();
    let mut current_bar: u32 = 0;
    let mut current: Option<HarmonyBarInfo> = None;
    let mut k: usize = 0;
    while k < spans.len()
        invariant
            s == crate::harmony::span_models(spans@),
            m == bar_layout@,
            spans_placeable(s, m),
            k <= spans@.len(),
            k == 0 ==> current is None && current_bar == 0 && bars@.len() == 0,
            k > 0 ==> (current matches Some(c) && c.bar == current_bar && bar_models(bars@).push(
                c@,
            ) == timeline_bars(s.take(k as int), m, ppq)),
        decreases spans@.len() - k,
    {
        let span = &spans[k];
        assert(s[k as int] == span@);
        proof {
            lemma_timeline_bars_step(s, m, ppq, k as int);
        }
        let (bar_num, bar_start) = bar_layout.bar_at_tick(span.start_tick);
        let (_ts_num, ts_den) = bar_layout.ts_for_bar(bar_num);
        let roman_numeral = match &span.context.chord.roman {
            Some(r) => Some(format_roman_numeral(r, span.context.chord.intervals.as_slice())),
            None => None,
        };
        let info = HarmonyChordInfo {
            symbol: format_chord_symbol(&span.context.chord),
            root: span.context.chord.root,
            intervals: copy_bytes(span.context.chord.intervals.as_slice()),
            roman_numeral,
            bar_start_tick: bar_start,
            beat_unit: ts_den,
            whole_note_ticks: 4 * ppq as u64,
            tick_start: span.start_tick,
            tick_end: span.end_tick,
        };
        assert(info@ == chord_entry(span@, m, ppq));
        if bar_num != current_bar {
            let ghost done = bars@;
            match current {
                Some(c) => {
                    bars.push(c);
                    assert(bar_models(bars@) =~= bar_models(done).push(c@));
                },
                None => {},
            }
            current_bar = bar_num;
            let mut chords: Vec<HarmonyChordInfo> = Vec::new();
            chords.push(info);
            let opened = HarmonyBarInfo { bar: bar_num, chords };
            assert(opened@.chords =~= seq![chord_entry(span@, m, ppq)]);
            proof {
                assert(bar_models(bars@).push(opened@) =~= timeline_bars(s.take(k + 1), m, ppq));
            }
            current = Some(opened);
        } else {
            let mut c = current.unwrap();
            let ghost old_c = c@;
            c.chords.push(info);
            assert(c@.chords =~= old_c.chords.push(chord_entry(span@, m, ppq)));
            proof {
                assert(bar_models(bars@).push(c@) =~= timeline_bars(s.take(k + 1), m, ppq));
            }
            current = Some(c);
        }
        k = k + 1;
    }
    assert(s.take(k as int) =~= s);
    match current {
        Some(c) => {
            let ghost done = bars@;
            bars.push(c);
            assert(bar_models(bars@) =~= bar_models(done).push(c@));
        },
        None => {
            assert(bar_models(bars@) =~= Seq::<HarmonyBarModel>::empty());
        },
    }
    bars
}

// ── Structured scale timeline ────────────────────────────────────────

/// What a scale bar entry holds.
pub struct ScaleBarModel {
    /// Bar number (1-indexed).
    pub bar: u32,
    /// Root pitch class.
    pub root: u8,
    /// Root note name.
    pub root_name: Seq<char>,
    /// Mode name.
    pub mode: Seq<char>,
    /// Pitch classes of the scale.
    pub pitch_classes: Seq<u8>,
}

/// Per-bar scale information for IDE display.
#[derive(Debug, Clone)]
pub struct ScaleBarInfo {
    /// Bar number (1-indexed).
    pub bar: u32,
    /// Root pitch class (0=C … 11=B).
    pub root: u8,
    /// Root note name.
    pub root_name: String,
    /// Mode/scale name.
    pub mode: String,
    /// Pitch classes in this scale.
    pub pitch_classes: Vec<u8>,
}

impl View for ScaleBarInfo {
    type V = ScaleBarModel;

    open spec fn view(&self) -> ScaleBarModel {
        ScaleBarModel {
            bar: self.bar,
            root: self.root,
            root_name: self.root_name@,
            mode: self.mode@,
            pitch_classes: self.pitch_classes@,
        }
    }
}

/// Name of the first mode with these intervals, or `unknown`.
pub open spec fn mode_display_name(ivs: Seq<u8>) -> Seq<char> {
    match mode_index_by_intervals(ivs) {
        Some(k) => mode_name(k),
        None => "unknown"@,
    }
}

/// Scale entries for bars `bar..=last`: an entry for each bar whose root or
/// pitch classes differ from those of the bar before (`prev`).
pub open spec fn scale_info_from(
    t: Seq<crate::harmony::ScaleTimelineEntryModel>,
    last: nat,
    bar: nat,
    prev: Option<(u8, Seq<u8>)>,
) -> Seq<ScaleBarModel>
    decreases last + 1 - bar,
{
    if bar == 0 || bar > last {
        Seq::empty()
    } else {
        let c = spec_context_at_bar(t, bar as u32);
        let pcs = pitch_classes(c.1, c.0);
        let emit = match prev {
            None => true,
            Some((r, p)) => r != c.1 || p != pcs,
        };
        let rest = scale_info_from(t, last, bar + 1, Some((c.1, pcs)));
        if emit {
            seq![
                ScaleBarModel {
                    bar: bar as u32,
                    root: c.1,
                    root_name: pc_sharp_name((c.1 % 12) as nat),
                    mode: mode_display_name(c.0),
                    pitch_classes: pcs,
                },
            ] + rest
        } else {
            rest
        }
    }
}

/// The last bar a scale timeline listing covers: `total_bars`, at least 1.
pub open spec fn listing_last_bar(total_bars: u32) -> nat {
    if total_bars == 0 {
        1
    } else {
        total_bars as nat
    }
}

/// Build a structured scale timeline.
///
/// Returns one entry per distinct scale change, with the bar range where it applies.
pub fn scale_timeline_info(scale_timeline: &ScaleTimeline, total_bars: u32) -> (r: Vec<ScaleBarInfo>)
    requires
        forall|b: int|
            1 <= b <= listing_last_bar(total_bars) ==> root_fits(
                #[trigger] spec_context_at_bar(scale_timeline@, b as u32).1,
                spec_context_at_bar(scale_timeline@, b as u32).0,
            ),
    ensures
        r@.len() == scale_info_from(scale_timeline@, listing_last_bar(total_bars), 1, None).len(),
        forall|k: int|
            0 <= k < r@.len() ==> #[trigger] r@[k]@ == scale_info_from(
                scale_timeline@,
                listing_last_bar(total_bars),
                1,
                None,
            )[k],
{
    let last: u64 = if total_bars == 0 {
        1
    } else {
        total_bars as u64
    };
    let ghost target = scale_info_from(scale_timeline@, last as nat, 1, None);
    let ghost done: Seq<ScaleBarModel> = Seq::empty();
    let mut result: Vec<ScaleBarInfo> = Vec::new();
    let mut prev_root: u8 = 0;
    let mut prev_pcs: Vec<u8> = Vec::new();
    let mut have_prev = false;
    let mut bar: u64 = 1;
    while bar <= last
        invariant
            last == listing_last_bar(total_bars),
            last <= u32::MAX,
            1 <= bar <= last + 1,
            forall|b: int|
                1 <= b <= listing_last_bar(total_bars) ==> root_fits(
                    #[trigger] spec_context_at_bar(scale_timeline@, b as u32).1,
                    spec_context_at_bar(scale_timeline@, b as u32).0,
                ),
            target == scale_info_from(scale_timeline@, last as nat, 1, None),
            result@.len() == done.len(),
            forall|k: int| 0 <= k < result@.len() ==> #[trigger] result@[k]@ == done[k],
            target == done + scale_info_from(
                scale_timeline@,
                last as nat,
                bar as nat,
                if have_prev {
                    Some((prev_root, prev_pcs@))
                } else {
                    None
                },
            ),
        decreases last + 1 - bar,
    {
        let (intervals, root) = scale_timeline.context_at_bar(bar as u32);
        assert(root_fits(root, intervals@)) by {
            assert(spec_context_at_bar(scale_timeline@, bar as u32) == (intervals@, root));
        }
        let pcs = pitch_classes_of(root, intervals);
        let emit = !have_prev || prev_root != root || !bytes_eq(prev_pcs.as_slice(), pcs.as_slice());
        if emit {
            let mode_name = match mode_name_for_intervals(intervals) {
                Some(n) => n,
                None => "unknown",
            };
            let info = ScaleBarInfo {
                bar: bar as u32,
                root,
                root_name: String::from_str(pitch_class_name(root)),
                mode: String::from_str(mode_name),
                pitch_classes: pcs,
            };
            proof {
                done = done.push(info@);
            }
            result.push(info);
            prev_pcs = pitch_classes_of(root, intervals);
        } else {
            prev_pcs = pcs;
        }
        prev_root = root;
        have_prev = true;
        bar = bar + 1;
    }
    proof {
        assert(done + scale_info_from(scale_timeline@, last as nat, bar as nat, Some((prev_root, prev_pcs@))) =~= done);
    }
    result
}

// ── Cursor context types ─────────────────────────────────────────────

/// Block type identifier for cursor context.
#[derive(Debug, Clone, Copy, PartialEq, Eq, Structural)]
pub enum BlockType {
    /// A `@scale` block.
    Scale,
    /// A `@harmony` block.
    Harmony,
    /// A `@pattern` block.
    Pattern,
    /// A `@track` block.
    Track,
    /// A `@drummap` block.
    DrumMap,
}

/// Chord info at cursor position.
#[derive(Debug, Clone)]
pub struct ChordInfo {
    /// Display symbol (e.g., "Cmaj7").
    pub symbol: String,
    /// Root pitch class (0=C … 11=B).
    pub root: u8,
    /// Chord intervals.
    pub intervals: Vec<u8>,
    /// Roman numeral if applicable.
    pub roman_numeral: Option<String>,
}

/// Category of a completion item.
#[derive(Debug, Clone, Copy, PartialEq, Eq, Structural)]
pub enum CompletionKind {
    /// Chord symbol (e.g., "Cmaj7", "Dm7").
    ChordSymbol,
    /// Scale/mode name.
    ScaleName,
    /// Transform name.
    Transform,
    /// Annotation keyword.
    Annotation,
    /// Directive (e.g., "@harmony", "@pattern").
    Directive,
    /// Step token (e.g., "^1", "%1", ".", "~").
    StepToken,
    /// Pattern reference name.
    PatternRef,
}

// ── Completions at the cursor ────────────────────────────────────────

/// A single completion suggestion.
#[derive(Debug, Clone)]
pub struct CompletionItem {
    /// Display label (shown in autocomplete list).
    pub label: String,
    /// Optional detail string (e.g., parameter signature or description).
    pub detail: Option<String>,
    /// Completion category.
    pub kind: CompletionKind,
    /// Text to insert when accepted.
    pub insert_text: String,
    /// Relevance score in hundredths (0–100, higher = more relevant).
    pub relevance: u32,
    /// Grouping category for display.
    pub category: String,
}

/// What a completion item holds.
pub struct CompletionModel {
    /// Display label.
    pub label: Seq<char>,
    /// Detail text, if any.
    pub detail: Option<Seq<char>>,
    /// Completion category.
    pub kind: CompletionKind,
    /// Text to insert.
    pub insert_text: Seq<char>,
    /// Relevance in hundredths.
    pub relevance: u32,
    /// Grouping category.
    pub category: Seq<char>,
}

impl View for CompletionItem {
    type V = CompletionModel;

    open spec fn view(&self) -> CompletionModel {
        CompletionModel {
            label: self.label@,
            detail: match self.detail {
                Some(d) => Some(d@),
                None => None,
            },
            kind: self.kind,
            insert_text: self.insert_text@,
            relevance: self.relevance,
            category: self.category@,
        }
    }
}

/// The models of a sequence of completion items.
pub open spec fn item_models(s: Seq<CompletionItem>) -> Seq<CompletionModel> {
    Seq::new(s.len(), |i: int| s[i]@)
}

/// What completion needs of a `@pattern` block: its name, step count and unit.
#[derive(Debug)]
pub struct PatternHeader {
    /// Pattern name.
    pub name: String,
    /// Step count.
    pub steps: u32,
    /// Step unit as a fraction (numerator, denominator).
    pub unit: (u32, u32),
}

/// What a pattern header holds.
pub struct PatternHeaderModel {
    /// Pattern name.
    pub name: Seq<char>,
    /// Step count.
    pub steps: u32,
    /// Step unit.
    pub unit: (u32, u32),
}

impl View for PatternHeader {
    type V = PatternHeaderModel;

    open spec fn view(&self) -> PatternHeaderModel {
        PatternHeaderModel { name: self.name@, steps: self.steps, unit: self.unit }
    }
}

/// The numbers of `s` in decimal, separated by `", "`.
pub open spec fn list_items(s: Seq<u8>) -> Seq<char>
    decreases s.len(),
{
    if s.len() == 0 {
        Seq::empty()
    } else if s.len() == 1 {
        decimal_text(s[0] as nat)
    } else {
        list_items(s.drop_last()) + ", "@ + decimal_text(s.last() as nat)
    }
}

/// A list of numbers written as `[0, 4, 7]`.
pub open spec fn list_text(s: Seq<u8>) -> Seq<char> {
    "["@ + list_items(s) + "]"@
}

/// Token and description of step token entry `i`.
pub open spec fn step_token_entry(i: int) -> (Seq<char>, Seq<char>) {
    if i == 0 {
        ("^1"@, "Scale degree 1"@)
    } else if i == 1 {
        ("^2"@, "Scale degree 2"@)
    } else if i == 2 {
        ("^3"@, "Scale degree 3"@)
    } else if i == 3 {
        ("^4"@, "Scale degree 4"@)
    } else if i == 4 {
        ("^5"@, "Scale degree 5"@)
    } else if i == 5 {
        ("^6"@, "Scale degree 6"@)
    } else if i == 6 {
        ("^7"@, "Scale degree 7"@)
    } else if i == 7 {
        ("%1"@, "Chord tone 1 (root)"@)
    } else if i == 8 {
        ("%2"@, "Chord tone 2 (3rd)"@)
    } else if i == 9 {
        ("%3"@, "Chord tone 3 (5th)"@)
    } else if i == 10 {
        ("%4"@, "Chord tone 4 (7th)"@)
    } else if i == 11 {
        ("."@, "Rest"@)
    } else if i == 12 {
        ("~"@, "Tie"@)
    } else {
        ("$chord"@, "Current harmony chord"@)
    }
}

fn step_token_at(i: usize) -> (r: (&'static str, &'static str))
    requires
        i < 14,
    ensures
        (r.0@, r.1@) == step_token_entry(i as int),
{
    if i == 0 {
        ("^1", "Scale degree 1")
    } else if i == 1 {
        ("^2", "Scale degree 2")
    } else if i == 2 {
        ("^3", "Scale degree 3")
    } else if i == 3 {
        ("^4", "Scale degree 4")
    } else if i == 4 {
        ("^5", "Scale degree 5")
    } else if i == 5 {
        ("^6", "Scale degree 6")
    } else if i == 6 {
        ("^7", "Scale degree 7")
    } else if i == 7 {
        ("%1", "Chord tone 1 (root)")
    } else if i == 8 {
        ("%2", "Chord tone 2 (3rd)")
    } else if i == 9 {
        ("%3", "Chord tone 3 (5th)")
    } else if i == 10 {
        ("%4", "Chord tone 4 (7th)")
    } else if i == 11 {
        (".", "Rest")
    } else if i == 12 {
        ("~", "Tie")
    } else {
        ("$chord", "Current harmony chord")
    }
}

/// Name of step annotation entry `i`.
pub open spec fn annotation_name(i: int) -> Seq<char> {
    if i == 0 {
        "vel"@
    } else if i == 1 {
        "gate"@
    } else if i == 2 {
        "dur"@
    } else if i == 3 {
        "shift"@
    } else if i == 4 {
        "lshift"@
    } else if i == 5 {
        "oct"@
    } else if i == 6 {
        "expr"@
    } else if i == 7 {
        "dyn"@
    } else if i == 8 {
        "sus"@
    } else if i == 9 {
        "pan"@
    } else if i == 10 {
        "vol"@
    } else if i == 11 {
        "pb"@
    } else if i == 12 {
        "at"@
    } else if i == 13 {
        "cc"@
    } else if i == 14 {
        "cond"@
    } else if i == 15 {
        "every"@
    } else if i == 16 {
        "once"@
    } else if i == 17 {
        "pre"@
    } else if i == 18 {
        "ratch"@
    } else if i == 19 {
        "ratch_decay"@
    } else if i == 20 {
        "prob"@
    } else {
        "glide"@
    }
}

fn annotation_at(i: usize) -> (r: &'static str)
    requires
        i < 22,
    ensures
        r@ == annotation_name(i as int),
{
    if i == 0 {
        "vel"
    } else if i == 1 {
        "gate"
    } else if i == 2 {
        "dur"
    } else if i == 3 {
        "shift"
    } else if i == 4 {
        "lshift"
    } else if i == 5 {
        "oct"
    } else if i == 6 {
        "expr"
    } else if i == 7 {
        "dyn"
    } else if i == 8 {
        "sus"
    } else if i == 9 {
        "pan"
    } else if i == 10 {
        "vol"
    } else if i == 11 {
        "pb"
    } else if i == 12 {
        "at"
    } else if i == 13 {
        "cc"
    } else if i == 14 {
        "cond"
    } else if i == 15 {
        "every"
    } else if i == 16 {
        "once"
    } else if i == 17 {
        "pre"
    } else if i == 18 {
        "ratch"
    } else if i == 19 {
        "ratch_decay"
    } else if i == 20 {
        "prob"
    } else {
        "glide"
    }
}

/// The completion offered for chord quality `i` inside a harmony block.
pub open spec fn chord_item(i: int) -> CompletionModel {
    CompletionModel {
        label: quality_name(i),
        detail: Some("intervals: "@ + list_text(quality_intervals(i))),
        kind: CompletionKind::ChordSymbol,
        insert_text: quality_name(i),
        relevance: 80,
        category: "Chord Quality"@,
    }
}

/// Chord-quality completions for the named qualities from table entry `i` on.
pub open spec fn chord_items_from(i: int) -> Seq<CompletionModel>
    decreases quality_count() - i,
{
    if i < 0 || i >= quality_count() {
        Seq::empty()
    } else if quality_name(i).len() == 0 {
        chord_items_from(i + 1)
    } else {
        seq![chord_item(i)] + chord_items_from(i + 1)
    }
}

/// The completion offered for step token entry `i` inside a pattern block.
pub open spec fn step_token_item(i: int) -> CompletionModel {
    CompletionModel {
        label: step_token_entry(i).0,
        detail: Some(step_token_entry(i).1),
        kind: CompletionKind::StepToken,
        insert_text: step_token_entry(i).0,
        relevance: 90,
        category: "Step Token"@,
    }
}

/// The completion offered for annotation entry `i` inside a pattern block.
pub open spec fn annotation_item(i: int) -> CompletionModel {
    CompletionModel {
        label: "["@ + annotation_name(i) + ":]"@,
        detail: Some(annotation_name(i) + " annotation"@),
        kind: CompletionKind::Annotation,
        insert_text: "["@ + annotation_name(i) + ":]"@,
        relevance: 60,
        category: "Annotation"@,
    }
}

/// The completion offered for a pattern of the program inside a track block.
pub open spec fn pattern_item(p: PatternHeaderModel) -> CompletionModel {
    CompletionModel {
        label: p.name,
        detail: Some(
            "pattern ("@ + decimal_text(p.steps as nat) + " steps, unit="@ + decimal_text(
                p.unit.0 as nat,
            ) + "/"@ + decimal_text(p.unit.1 as nat) + ")"@,
        ),
        kind: CompletionKind::PatternRef,
        insert_text: p.name,
        relevance: 95,
        category: "Pattern"@,
    }
}

/// The completion offered for transform entry `i` inside a track block.
pub open spec fn transform_item(i: int) -> CompletionModel {
    let (name, signature, description) = transform_entry(i);
    CompletionModel {
        label: name,
        detail: Some(name + signature + " — "@ + description),
        kind: CompletionKind::Transform,
        insert_text: if signature.len() == 0 {
            name
        } else {
            name + "()"@
        },
        relevance: 70,
        category: "Transform"@,
    }
}

/// The completion offered for directive entry `i` at the top level.
pub open spec fn directive_item(i: int) -> CompletionModel {
    let (name, description, kind) = directive_entry(i);
    CompletionModel {
        label: name,
        detail: Some(description),
        kind: CompletionKind::Directive,
        insert_text: name,
        relevance: 90,
        category: match kind {
            DirectiveKind::Header => "Header Directive"@,
            DirectiveKind::Block => "Block Directive"@,
        },
    }
}

/// The completion offered for scale entry `i` at the top level.
pub open spec fn scale_item(i: int) -> CompletionModel {
    CompletionModel {
        label: mode_name(i),
        detail: Some("intervals: "@ + list_text(mode_intervals(i))),
        kind: CompletionKind::ScaleName,
        insert_text: mode_name(i),
        relevance: 70,
        category: "Scale"@,
    }
}

/// The completions for a cursor in a block of kind `block` (`None` outside
/// any block) of a program whose patterns are `patterns`, most relevant first.
pub open spec fn spec_completions(
    block: Option<BlockType>,
    patterns: Seq<PatternHeaderModel>,
) -> Seq<CompletionModel> {
    match block {
        Some(BlockType::Harmony) => chord_items_from(0),
        Some(BlockType::Pattern) => Seq::new(14, |i: int| step_token_item(i)) + Seq::new(
            22,
            |i: int| annotation_item(i),
        ),
        Some(BlockType::Track) => Seq::new(patterns.len(), |i: int| pattern_item(patterns[i]))
            + Seq::new(28, |i: int| transform_item(i)),
        _ => Seq::new(12, |i: int| directive_item(i)) + Seq::new(
            mode_count(),
            |i: int| scale_item(i),
        ),
    }
}

proof fn lemma_item_models_push(s: Seq<CompletionItem>, x: CompletionItem)
    ensures
        item_models(s.push(x)) == item_models(s).push(x@),
{
    assert(item_models(s.push(x)) =~= item_models(s).push(x@));
}

proof fn lemma_list_items_push(s: Seq<u8>, i: int)
    requires
        0 <= i < s.len(),
    ensures
        list_items(s.subrange(0, i + 1)) == list_items(s.subrange(0, i)) + (if i == 0 {
            Seq::empty()
        } else {
            ", "@
        }) + decimal_text(s[i] as nat),
{
    let t = s.subrange(0, i + 1);
    assert(t.drop_last() =~= s.subrange(0, i));
    if i == 0 {
        assert(list_items(s.subrange(0, 0)) == Seq::<char>::empty());
        assert(Seq::<char>::empty() + Seq::<char>::empty() + decimal_text(s[0] as nat) =~= decimal_text(s[0] as nat));
    }
}

/// `s` written as `[0, 4, 7]`.
fn list_string(s: &[u8]) -> (r: String)
    ensures
        r@ == list_text(s@),
{
    let mut out = String::from_str("[");
    proof {
        assert(s@.subrange(0, 0) =~= Seq::<u8>::empty());
        assert(out@ =~= "["@ + list_items(s@.subrange(0, 0)));
    }
    let mut i: usize = 0;
    while i < s.len()
        invariant
            i <= s.len(),
            out@ == "["@ + list_items(s@.subrange(0, i as int)),
        decreases s.len() - i,
    {
        proof {
            lemma_list_items_push(s@, i as int);
        }
        if i > 0 {
            out.append(", ");
        } else {
            proof {
                assert(out@ + Seq::<char>::empty() =~= out@);
            }
        }
        let d = decimal_string(s[i] as u64);
        out.append(d.as_str());
        proof {
            assert(out@ =~= "["@ + list_items(s@.subrange(0, i + 1)));
        }
        i = i + 1;
    }
    out.append("]");
    proof {
        assert(s@.subrange(0, s@.len() as int) =~= s@);
    }
    out
}

/// `a` followed by `b`.
fn concat(a: &str, b: &str) -> (r: String)
    ensures
        r@ == a@ + b@,
{
    let mut s = String::from_str(a);
    s.append(b);
    s
}

fn chord_completion(q: &ChordQualityInfo) -> (r: CompletionItem)
    ensures
        r@.label == q.name@,
        r@.detail == Some("intervals: "@ + list_text(q.intervals@)),
        r@.kind == CompletionKind::ChordSymbol,
        r@.insert_text == q.name@,
        r@.relevance == 80,
        r@.category == "Chord Quality"@,
{
    let ivs = list_string(q.intervals.as_slice());
    CompletionItem {
        label: String::from_str(q.name),
        detail: Some(concat("intervals: ", ivs.as_str())),
        kind: CompletionKind::ChordSymbol,
        insert_text: String::from_str(q.name),
        relevance: 80,
        category: String::from_str("Chord Quality"),
    }
}

fn step_token_completion(i: usize) -> (r: CompletionItem)
    requires
        i < 14,
    ensures
        r@ == step_token_item(i as int),
{
    let (token, desc) = step_token_at(i);
    CompletionItem {
        label: String::from_str(token),
        detail: Some(String::from_str(desc)),
        kind: CompletionKind::StepToken,
        insert_text: String::from_str(token),
        relevance: 90,
        category: String::from_str("Step Token"),
    }
}

fn annotation_completion(i: usize) -> (r: CompletionItem)
    requires
        i < 22,
    ensures
        r@ == annotation_item(i as int),
{
    let ann = annotation_at(i);
    let open = concat("[", ann);
    let label = concat(open.as_str(), ":]");
    let open2 = concat("[", ann);
    let insert = concat(open2.as_str(), ":]");
    CompletionItem {
        label,
        detail: Some(concat(ann, " annotation")),
        kind: CompletionKind::Annotation,
        insert_text: insert,
        relevance: 60,
        category: String::from_str("Annotation"),
    }
}

fn pattern_completion(p: &PatternHeader) -> (r: CompletionItem)
    ensures
        r@ == pattern_item(p@),
{
    let steps = decimal_string(p.steps as u64);
    let num = decimal_string(p.unit.0 as u64);
    let den = decimal_string(p.unit.1 as u64);
    let mut d = String::from_str("pattern (");
    d.append(steps.as_str());
    d.append(" steps, unit=");
    d.append(num.as_str());
    d.append("/");
    d.append(den.as_str());
    d.append(")");
    CompletionItem {
        label: String::from_str(p.name.as_str()),
        detail: Some(d),
        kind: CompletionKind::PatternRef,
        insert_text: String::from_str(p.name.as_str()),
        relevance: 95,
        category: String::from_str("Pattern"),
    }
}

fn transform_completion(t: &TransformInfo) -> (r: CompletionItem)
    ensures
        r@.label == t.name@,
        r@.detail == Some(t.name@ + t.signature@ + " — "@ + t.description@),
        r@.kind == CompletionKind::Transform,
        r@.insert_text == (if t.signature@.len() == 0 {
            t.name@
        } else {
            t.name@ + "()"@
        }),
        r@.relevance == 70,
        r@.category == "Transform"@,
{
    let mut d = String::from_str(t.name);
    d.append(t.signature);
    d.append(" — ");
    d.append(t.description);
    let insert = if t.signature.unicode_len() == 0 {
        String::from_str(t.name)
    } else {
        concat(t.name, "()")
    };
    CompletionItem {
        label: String::from_str(t.name),
        detail: Some(d),
        kind: CompletionKind::Transform,
        insert_text: insert,
        relevance: 70,
        category: String::from_str("Transform"),
    }
}

fn directive_completion(d: &DirectiveInfo) -> (r: CompletionItem)
    ensures
        r@.label == d.name@,
        r@.detail == Some(d.description@),
        r@.kind == CompletionKind::Directive,
        r@.insert_text == d.name@,
        r@.relevance == 90,
        r@.category == (match d.kind {
            DirectiveKind::Header => "Header Directive"@,
            DirectiveKind::Block => "Block Directive"@,
        }),
{
    let category = match d.kind {
        DirectiveKind::Header => String::from_str("Header Directive"),
        DirectiveKind::Block => String::from_str("Block Directive"),
    };
    CompletionItem {
        label: String::from_str(d.name),
        detail: Some(String::from_str(d.description)),
        kind: CompletionKind::Directive,
        insert_text: String::from_str(d.name),
        relevance: 90,
        category,
    }
}

fn scale_completion(s: &ScaleInfo) -> (r: CompletionItem)
    ensures
        r@.label == s.name@,
        r@.detail == Some("intervals: "@ + list_text(s.intervals@)),
        r@.kind == CompletionKind::ScaleName,
        r@.insert_text == s.name@,
        r@.relevance == 70,
        r@.category == "Scale"@,
{
    let ivs = list_string(s.intervals.as_slice());
    CompletionItem {
        label: String::from_str(s.name),
        detail: Some(concat("intervals: ", ivs.as_str())),
        kind: CompletionKind::ScaleName,
        insert_text: String::from_str(s.name),
        relevance: 70,
        category: String::from_str("Scale"),
    }
}

#[verifier::loop_isolation(false)]
fn chord_completions() -> (r: Vec<CompletionItem>)
    ensures
        item_models(r@) == chord_items_from(0),
{
    let qualities = all_chord_qualities();
    let mut r: Vec<CompletionItem> = Vec::new();
    let mut i: usize = 0;
    while i < qualities.len()
        invariant
            i <= qualities@.len() == quality_count(),
            item_models(r@) + chord_items_from(i as int) == chord_items_from(0),
        decreases qualities.len() - i,
    {
        let q = &qualities[i];
        if q.name.unicode_len() > 0 {
            let item = chord_completion(q);
            proof {
                assert(item@ == chord_item(i as int));
                assert(item_models(r@.push(item)) =~= item_models(r@).push(item@));
                assert(item_models(r@) + chord_items_from(i as int) =~= item_models(r@).push(item@)
                    + chord_items_from(i + 1));
            }
            r.push(item);
        }
        i = i + 1;
    }
    proof {
        assert(item_models(r@) + chord_items_from(quality_count() as int) =~= item_models(r@));
    }
    r
}

fn pattern_block_completions() -> (r: Vec<CompletionItem>)
    ensures
        item_models(r@) == Seq::new(14, |i: int| step_token_item(i)) + Seq::new(
            22,
            |i: int| annotation_item(i),
        ),
{
    let mut r: Vec<CompletionItem> = Vec::new();
    let mut i: usize = 0;
    while i < 14
        invariant
            i <= 14,
            item_models(r@) =~= Seq::new(i as nat, |k: int| step_token_item(k)),
        decreases 14 - i,
    {
        let item = step_token_completion(i);
        proof {
            lemma_item_models_push(r@, item);
        }
        r.push(item);
        i = i + 1;
    }
    let mut j: usize = 0;
    while j < 22
        invariant
            j <= 22,
            item_models(r@) =~= Seq::new(14, |k: int| step_token_item(k)) + Seq::new(
                j as nat,
                |k: int| annotation_item(k),
            ),
        decreases 22 - j,
    {
        let item = annotation_completion(j);
        proof {
            lemma_item_models_push(r@, item);
        }
        r.push(item);
        j = j + 1;
    }
    r
}

fn track_block_completions(patterns: &[PatternHeader]) -> (r: Vec<CompletionItem>)
    ensures
        item_models(r@) == Seq::new(patterns@.len(), |i: int| pattern_item(patterns@[i]@))
            + Seq::new(28, |i: int| transform_item(i)),
{
    let mut r: Vec<CompletionItem> = Vec::new();
    let mut i: usize = 0;
    while i < patterns.len()
        invariant
            i <= patterns@.len(),
            item_models(r@) =~= Seq::new(i as nat, |k: int| pattern_item(patterns@[k]@)),
        decreases patterns.len() - i,
    {
        let item = pattern_completion(&patterns[i]);
        proof {
            lemma_item_models_push(r@, item);
        }
        r.push(item);
        i = i + 1;
    }
    let transforms = all_transforms();
    let mut j: usize = 0;
    while j < transforms.len()
        invariant
            j <= transforms@.len() == 28,
            forall|k: int|
                0 <= k < 28 ==> (#[trigger] transforms@[k].name@, transforms@[k].signature@,
                transforms@[k].description@) == transform_entry(k),
            item_models(r@) =~= Seq::new(patterns@.len(), |k: int| pattern_item(patterns@[k]@))
                + Seq::new(j as nat, |k: int| transform_item(k)),
        decreases transforms.len() - j,
    {
        let item = transform_completion(&transforms[j]);
        proof {
            assert((transforms@[j as int].name@, transforms@[j as int].signature@,
                transforms@[j as int].description@) == transform_entry(j as int));
            assert(item@ == transform_item(j as int));
            lemma_item_models_push(r@, item);
        }
        r.push(item);
        j = j + 1;
    }
    r
}

#[verifier::loop_isolation(false)]
fn top_level_completions() -> (r: Vec<CompletionItem>)
    ensures
        item_models(r@) == Seq::new(12, |i: int| directive_item(i)) + Seq::new(
            mode_count(),
            |i: int| scale_item(i),
        ),
{
    let mut r: Vec<CompletionItem> = Vec::new();
    let directives = all_directives();
    let mut i: usize = 0;
    while i < directives.len()
        invariant
            i <= directives@.len() == 12,
            forall|k: int|
                0 <= k < 12 ==> (#[trigger] directives@[k].name@, directives@[k].description@,
                directives@[k].kind) == directive_entry(k),
            item_models(r@) =~= Seq::new(i as nat, |k: int| directive_item(k)),
        decreases directives.len() - i,
    {
        let item = directive_completion(&directives[i]);
        proof {
            assert((directives@[i as int].name@, directives@[i as int].description@,
                directives@[i as int].kind) == directive_entry(i as int));
            assert(item@ == directive_item(i as int));
            lemma_item_models_push(r@, item);
        }
        r.push(item);
        i = i + 1;
    }
    let scales = all_scales();
    let mut j: usize = 0;
    while j < scales.len()
        invariant
            j <= scales@.len() == mode_count(),
            item_models(r@) =~= Seq::new(12, |k: int| directive_item(k)) + Seq::new(
                j as nat,
                |k: int| scale_item(k),
            ),
        decreases scales.len() - j,
    {
        let item = scale_completion(&scales[j]);
        proof {
            assert(item@ == scale_item(j as int));
            lemma_item_models_push(r@, item);
        }
        r.push(item);
        j = j + 1;
    }
    r
}

/// Completions for a cursor that stands in a block of kind `block` (`None`
/// when it stands in no block), in a program whose `@pattern` blocks are
/// `patterns`, in source order.
///
/// A harmony block offers the named chord qualities; a pattern block the
/// step tokens and then the step annotations; a track block the program's
/// patterns and then the transforms; anywhere else the directives and then
/// the scales. The items come most relevant first.
pub fn completions_in(block: Option<BlockType>, patterns: &[PatternHeader]) -> (r: Vec<
    CompletionItem,
>)
    ensures
        item_models(r@) == spec_completions(block, Seq::new(
            patterns@.len(),
            |i: int| patterns@[i]@,
        )),
{
    match block {
        Some(BlockType::Harmony) => chord_completions(),
        Some(BlockType::Pattern) => pattern_block_completions(),
        Some(BlockType::Track) => {
            let r = track_block_completions(patterns);
            proof {
                let ps = Seq::new(patterns@.len(), |i: int| patterns@[i]@);
                assert(Seq::new(ps.len(), |i: int| pattern_item(ps[i])) =~= Seq::new(
                    patterns@.len(),
                    |i: int| pattern_item(patterns@[i]@),
                ));
            }
            r
        },
        _ => top_level_completions(),
    }
}

/// Whether `span` is known and holds byte offset `off`.
pub open spec fn span_holds(span: Option<Span>, off: int) -> bool {
    span matches Some(sp) && sp.start <= off < sp.end
}

/// The kind of block the cursor at byte `off` stands in, walking `blocks`
/// from `i` on with `found` the kind settled so far: the first harmony,
/// pattern, track or drum-map block whose span holds the cursor; else a
/// scale block, once one has been passed (its extent is not known); else
/// none.
pub open spec fn cursor_block_from(
    blocks: Seq<OutlineBlock>,
    off: int,
    i: int,
    found: Option<BlockType>,
) -> Option<BlockType>
    decreases blocks.len() - i,
{
    if i < 0 || i >= blocks.len() {
        found
    } else {
        match blocks[i] {
            OutlineBlock::Harmony { span } => if span_holds(span, off) {
                Some(BlockType::Harmony)
            } else {
                cursor_block_from(blocks, off, i + 1, found)
            },
            OutlineBlock::Pattern { span, .. } => if span_holds(span, off) {
                Some(BlockType::Pattern)
            } else {
                cursor_block_from(blocks, off, i + 1, found)
            },
            OutlineBlock::Track { span, .. } => if span_holds(span, off) {
                Some(BlockType::Track)
            } else {
                cursor_block_from(blocks, off, i + 1, found)
            },
            OutlineBlock::DrumMap { span } => if span_holds(span, off) {
                Some(BlockType::DrumMap)
            } else {
                cursor_block_from(blocks, off, i + 1, found)
            },
            OutlineBlock::Scale => cursor_block_from(blocks, off, i + 1, Some(BlockType::Scale)),
            OutlineBlock::Other => cursor_block_from(blocks, off, i + 1, found),
        }
    }
}

/// The kind of block the cursor at byte `off` stands in.
pub open spec fn spec_cursor_block(blocks: Seq<OutlineBlock>, off: int) -> Option<BlockType> {
    cursor_block_from(blocks, off, 0, None)
}

/// The headers of the pattern blocks among `blocks`, from `i` on, in order.
pub open spec fn pattern_headers_from(blocks: Seq<OutlineBlock>, i: int) -> Seq<
    PatternHeaderModel,
>
    decreases blocks.len() - i,
{
    if i < 0 || i >= blocks.len() {
        Seq::empty()
    } else {
        match blocks[i] {
            OutlineBlock::Pattern { name, step_count, unit_num, unit_den, .. } => seq![
                PatternHeaderModel { name: name@, steps: step_count, unit: (unit_num, unit_den) },
            ] + pattern_headers_from(blocks, i + 1),
            _ => pattern_headers_from(blocks, i + 1),
        }
    }
}

fn span_contains(span: &Option<Span>, off: usize) -> (r: bool)
    ensures
        r == span_holds(*span, off as int),
{
    match span {
        Some(sp) => sp.start <= off && off < sp.end,
        None => false,
    }
}

/// The kind of block of `outline` in which the cursor at `byte_offset`
/// stands.
pub fn cursor_block_type(outline: &SourceOutline, byte_offset: usize) -> (r: Option<BlockType>)
    ensures
        r == spec_cursor_block(outline.blocks@, byte_offset as int),
{
    let blocks = &outline.blocks;
    let mut found: Option<BlockType> = None;
    let mut i: usize = 0;
    while i < blocks.len()
        invariant
            i <= blocks@.len(),
            blocks@ == outline.blocks@,
            spec_cursor_block(blocks@, byte_offset as int) == cursor_block_from(
                blocks@,
                byte_offset as int,
                i as int,
                found,
            ),
        decreases blocks.len() - i,
    {
        match &blocks[i] {
            OutlineBlock::Harmony { span } => {
                if span_contains(span, byte_offset) {
                    return Some(BlockType::Harmony);
                }
            },
            OutlineBlock::Pattern { span, .. } => {
                if span_contains(span, byte_offset) {
                    return Some(BlockType::Pattern);
                }
            },
            OutlineBlock::Track { span, .. } => {
                if span_contains(span, byte_offset) {
                    return Some(BlockType::Track);
                }
            },
            OutlineBlock::DrumMap { span } => {
                if span_contains(span, byte_offset) {
                    return Some(BlockType::DrumMap);
                }
            },
            OutlineBlock::Scale => {
                found = Some(BlockType::Scale);
            },
            OutlineBlock::Other => {},
        }
        i = i + 1;
    }
    found
}

/// The headers of the pattern blocks of `outline`, in source order.
pub fn pattern_headers(outline: &SourceOutline) -> (r: Vec<PatternHeader>)
    ensures
        Seq::new(r@.len(), |i: int| r@[i]@) == pattern_headers_from(outline.blocks@, 0),
{
    let blocks = &outline.blocks;
    let mut r: Vec<PatternHeader> = Vec::new();
    let mut i: usize = 0;
    while i < blocks.len()
        invariant
            i <= blocks@.len(),
            blocks@ == outline.blocks@,
            Seq::new(r@.len(), |k: int| r@[k]@) + pattern_headers_from(blocks@, i as int)
                == pattern_headers_from(blocks@, 0),
        decreases blocks.len() - i,
    {
        let ghost before = Seq::new(r@.len(), |k: int| r@[k]@);
        match &blocks[i] {
            OutlineBlock::Pattern { name, step_count, unit_num, unit_den, .. } => {
                let h = PatternHeader {
                    name: String::from_str(name.as_str()),
                    steps: *step_count,
                    unit: (*unit_num, *unit_den),
                };
                r.push(h);
                proof {
                    assert(Seq::new(r@.len(), |k: int| r@[k]@) =~= before.push(
                        PatternHeaderModel { name: name@, steps: *step_count, unit: (*unit_num, *unit_den) },
                    ));
                    assert(before + pattern_headers_from(blocks@, i as int) =~= Seq::new(
                        r@.len(),
                        |k: int| r@[k]@,
                    ) + pattern_headers_from(blocks@, i + 1));
                }
            },
            _ => {},
        }
        i = i + 1;
    }
    proof {
        assert(Seq::new(r@.len(), |k: int| r@[k]@) + pattern_headers_from(blocks@, blocks@.len() as int)
            =~= Seq::new(r@.len(), |k: int| r@[k]@));
    }
    r
}

/// Context-aware completions at byte `byte_offset` of `source`.
///
/// `parse` parses a source text into its outline, or gives the parser's
/// message. The cursor's block decides what is offered (see
/// `completions_in`); when the source does not parse, the cursor stands in
/// no block. Pattern names of the source are offered in a track block.
pub fn complete_at_cursor<F: Fn(&str) -> Result<SourceOutline, String>>(
    source: &str,
    byte_offset: usize,
    parse: &F,
) -> (r: Vec<CompletionItem>)
    requires
        call_requires(*parse, (source,)),
    ensures
        exists|v: Result<SourceOutline, String>|
            #[trigger] call_ensures(*parse, (source,), v) && item_models(r@) == match v {
                Ok(o) => spec_completions(
                    spec_cursor_block(o.blocks@, byte_offset as int),
                    pattern_headers_from(o.blocks@, 0),
                ),
                Err(_) => spec_completions(None, Seq::empty()),
            },
{
    let v = parse(source);
    proof {
        assert(call_ensures(*parse, (source,), v));
    }
    match v {
        Ok(outline) => {
            let block = cursor_block_type(&outline, byte_offset);
            let headers = pattern_headers(&outline);
            completions_in(block, headers.as_slice())
        },
        Err(_) => {
            let none: Vec<PatternHeader> = Vec::new();
            let r = completions_in(None, none.as_slice());
            proof {
                assert(Seq::new(none@.len(), |i: int| none@[i]@) =~= Seq::<PatternHeaderModel>::empty());
            }
            r
        },
    }
}

/// The pattern blocks of `blocks`, in order.
pub open spec fn pattern_blocks(blocks: Seq<OutlineBlock>) -> Seq<OutlineBlock> {
    blocks.filter(|b: OutlineBlock| b is Pattern)
}

/// The header a pattern block offers: its name, step count and unit.
pub open spec fn header_of_block(b: OutlineBlock) -> PatternHeaderModel {
    match b {
        OutlineBlock::Pattern { name, step_count, unit_num, unit_den, .. } => PatternHeaderModel {
            name: name@,
            steps: step_count,
            unit: (unit_num, unit_den),
        },
        _ => PatternHeaderModel { name: Seq::empty(), steps: 0, unit: (0, 0) },
    }
}

proof fn lemma_filter_single(b: OutlineBlock)
    ensures
        seq![b].filter(|x: OutlineBlock| x is Pattern) == (if b is Pattern {
            seq![b]
        } else {
            Seq::<OutlineBlock>::empty()
        }),
{
    reveal_with_fuel(Seq::filter, 2);
    assert(seq![b].drop_last() =~= Seq::<OutlineBlock>::empty());
}

proof fn lemma_headers_suffix(blocks: Seq<OutlineBlock>, i: int)
    requires
        0 <= i <= blocks.len(),
    ensures
        pattern_headers_from(blocks, i) == Seq::new(
            pattern_blocks(blocks.subrange(i, blocks.len() as int)).len(),
            |k: int| header_of_block(pattern_blocks(blocks.subrange(i, blocks.len() as int))[k]),
        ),
    decreases blocks.len() - i,
{
    let rest = blocks.subrange(i, blocks.len() as int);
    if i == blocks.len() {
        reveal_with_fuel(Seq::filter, 1);
        assert(rest =~= Seq::<OutlineBlock>::empty());
        assert(pattern_blocks(rest) =~= Seq::<OutlineBlock>::empty());
        assert(pattern_headers_from(blocks, i) =~= Seq::new(0, |k: int| header_of_block(pattern_blocks(rest)[k])));
    } else {
        lemma_headers_suffix(blocks, i + 1);
        let tail = blocks.subrange(i + 1, blocks.len() as int);
        assert(rest =~= seq![blocks[i]] + tail);
        Seq::filter_distributes_over_add(seq![blocks[i]], tail, |x: OutlineBlock| x is Pattern);
        lemma_filter_single(blocks[i]);
        if blocks[i] is Pattern {
            assert(pattern_blocks(rest) =~= seq![blocks[i]] + pattern_blocks(tail));
            assert(pattern_headers_from(blocks, i) =~= Seq::new(
                pattern_blocks(rest).len(),
                |k: int| header_of_block(pattern_blocks(rest)[k]),
            ));
        } else {
            assert(pattern_blocks(rest) =~= pattern_blocks(tail));
            assert(pattern_headers_from(blocks, i) == pattern_headers_from(blocks, i + 1));
        }
    }
}

/// The patterns a track block offers for completion are exactly the pattern
/// blocks of the program, one per block, in source order, each with its
/// name, step count and unit.
pub proof fn lemma_pattern_headers_are_pattern_blocks(blocks: Seq<OutlineBlock>)
    ensures
        pattern_headers_from(blocks, 0).len() == pattern_blocks(blocks).len(),
        forall|k: int|
            0 <= k < pattern_blocks(blocks).len() ==> (#[trigger] pattern_blocks(blocks)[k] matches OutlineBlock::Pattern {
                name,
                step_count,
                unit_num,
                unit_den,
                ..
            } && pattern_headers_from(blocks, 0)[k] == PatternHeaderModel {
                name: name@,
                steps: step_count,
                unit: (unit_num, unit_den),
            }),
{
    lemma_headers_suffix(blocks, 0);
    assert(blocks.subrange(0, blocks.len() as int) =~= blocks);
    assert forall|k: int| 0 <= k < pattern_blocks(blocks).len() implies #[trigger] pattern_blocks(blocks)[k] is Pattern by {
        blocks.lemma_filter_pred(|b: OutlineBlock| b is Pattern, k);
    }
}

proof fn lemma_chord_items_relevance(i: int)
    ensures
        forall|k: int|
            0 <= k < chord_items_from(i).len() ==> #[trigger] chord_items_from(i)[k].relevance
                == 80,
    decreases quality_count() - i,
{
    if 0 <= i < quality_count() {
        lemma_chord_items_relevance(i + 1);
    }
}

/// Completions come most relevant first: relevance never rises along the list.
pub proof fn lemma_completions_ranked(block: Option<BlockType>, patterns: Seq<PatternHeaderModel>)
    ensures
        forall|i: int, j: int|
            0 <= i < j < spec_completions(block, patterns).len() ==> #[trigger] spec_completions(
                block,
                patterns,
            )[i].relevance >= #[trigger] spec_completions(block, patterns)[j].relevance,
{
    lemma_chord_items_relevance(0);
}

// ── Laws ─────────────────────────────────────────────────────────────

proof fn lemma_completions_from(prefix: Seq<char>, i: int)
    ensures
        forall|k: int|
            0 <= k < completions_from(prefix, i).len() ==> #[trigger] completions_from(
                prefix,
                i,
            )[k].len() > 0 && is_prefix(completions_from(prefix, i)[k], prefix) && exists|q: int|
                i <= q < quality_count() && quality_name(q) == completions_from(prefix, i)[k],
    decreases quality_count() - i,
{
    if 0 <= i < quality_count() {
        lemma_completions_from(prefix, i + 1);
        let rest = completions_from(prefix, i + 1);
        let all = completions_from(prefix, i);
        if quality_name(i).len() > 0 && is_prefix(quality_name(i), prefix) {
            assert forall|k: int| 0 <= k < all.len() implies #[trigger] all[k].len() > 0
                && is_prefix(all[k], prefix) && exists|q: int|
                i <= q < quality_count() && quality_name(q) == all[k] by {
                if k == 0 {
                    assert(all[0] == quality_name(i));
                } else {
                    assert(all[k] == rest[k - 1]);
                    let q = choose|q: int| i + 1 <= q < quality_count() && quality_name(q) == rest[k
                        - 1];
                    assert(quality_name(q) == all[k]);
                }
            }
        } else {
            assert forall|k: int| 0 <= k < all.len() implies #[trigger] all[k].len() > 0
                && is_prefix(all[k], prefix) && exists|q: int|
                i <= q < quality_count() && quality_name(q) == all[k] by {
                let q = choose|q: int| i + 1 <= q < quality_count() && quality_name(q) == rest[k];
                assert(quality_name(q) == all[k]);
            }
        }
    }
}

/// Every chord completion is a non-empty quality name that starts with the prefix.
pub proof fn lemma_completions_match_prefix(prefix: Seq<char>)
    ensures
        forall|k: int|
            0 <= k < completions_from(prefix, 0).len() ==> #[trigger] completions_from(
                prefix,
                0,
            )[k].len() > 0 && is_prefix(completions_from(prefix, 0)[k], prefix) && exists|q: int|
                0 <= q < quality_count() && quality_name(q) == completions_from(prefix, 0)[k],
{
    lemma_completions_from(prefix, 0);
}

/// The pitches of a scale are pitch classes (0–11), one per scale degree.
pub proof fn lemma_scale_pitches_are_pitch_classes(root: u8, ivs: Seq<u8>)
    ensures
        pitch_classes(root, ivs).len() == ivs.len(),
        forall|j: int| 0 <= j < ivs.len() ==> #[trigger] pitch_classes(root, ivs)[j] < 12,
{
}

} // verus!
