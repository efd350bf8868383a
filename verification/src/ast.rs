//! Syntax-tree types for Interval constructs that the harmony, timing and
//! introspection logic reads.
//!
//! Every type here holds plain integers, strings and vectors. Tempo values,
//! gates and other quantities that the language writes as decimals belong to
//! the emission stage and are not represented here.

use vstd::prelude::*;
use crate::error::Span;

verus! {

/// Global bar-count setting from `@bars`.
#[derive(Debug, Clone, Copy, PartialEq, Eq, Structural)]
pub enum BarsSetting {
    /// Fill every track to this many bars.
    Count(u32),
    /// Explicitly disabled.
    Off,
}

/// The integer part of the global header: resolution, time signature,
/// title, seed and the `@ts` / `@scale` timelines.
#[derive(Debug, Clone)]
pub struct GlobalHeader {
    /// Pulses per quarter note.
    pub ppq: u32,
    /// Time signature numerator.
    pub ts_numerator: u8,
    /// Time signature denominator.
    pub ts_denominator: u8,
    /// Optional title.
    pub title: Option<String>,
    /// Seed from `@seed`.
    pub seed: Option<u64>,
    /// Seed resolved by the caller for seeded transforms.
    pub resolved_seed: Option<u64>,
    /// `@ts` timeline block, if any.
    pub ts_block: Option<TsBlock>,
    /// `@scale` timeline block, if any.
    pub scale_block: Option<ScaleBlock>,
    /// `@bars` setting.
    pub bars: Option<BarsSetting>,
    /// Source span.
    pub span: Option<Span>,
}

impl Default for GlobalHeader {
    fn default() -> (h: Self)
        ensures
            h.ppq == 480,
            h.ts_numerator == 4,
            h.ts_denominator == 4,
            h.title.is_none(),
            h.seed.is_none(),
            h.resolved_seed.is_none(),
            h.ts_block.is_none(),
            h.scale_block.is_none(),
            h.bars.is_none(),
            h.span.is_none(),
    {
        GlobalHeader {
            ppq: 480,
            ts_numerator: 4,
            ts_denominator: 4,
            title: None,
            seed: None,
            resolved_seed: None,
            ts_block: None,
            scale_block: None,
            bars: None,
            span: None,
        }
    }
}

/// One entry of a `@ts` timeline.
#[derive(Debug, Clone)]
pub struct TsEntry {
    /// Numerator.
    pub numerator: u8,
    /// Denominator.
    pub denominator: u8,
    /// Number of bars this entry lasts (`None` for the last entry: one bar).
    pub bars: Option<u32>,
    /// Source span.
    pub span: Option<Span>,
}

/// A `@ts` timeline block.
#[derive(Debug, Clone)]
pub struct TsBlock {
    /// Entries in order.
    pub entries: Vec<TsEntry>,
    /// Source span.
    pub span: Option<Span>,
}

/// One entry of a `@scale` timeline. Absent fields inherit from the previous entry.
#[derive(Debug, Clone)]
pub struct ScaleEntry {
    /// Root pitch class.
    pub root: Option<u8>,
    /// Mode name.
    pub mode: Option<String>,
    /// Number of bars this entry lasts (`None` for the last entry).
    pub bars: Option<u32>,
    /// Source span.
    pub span: Option<Span>,
}

/// A `@scale` timeline block.
#[derive(Debug, Clone)]
pub struct ScaleBlock {
    /// Entries in order.
    pub entries: Vec<ScaleEntry>,
    /// Source span.
    pub span: Option<Span>,
}

/// A scalar tonal context: root pitch class and mode name.
#[derive(Debug, Clone)]
pub struct TonalContext {
    /// Root pitch class (`None` means C).
    pub root: Option<u8>,
    /// Mode name.
    pub mode: String,
    /// Source span.
    pub span: Option<Span>,
}

impl Default for TonalContext {
    fn default() -> (tc: Self)
        ensures
            tc.root == Some(0u8),
            tc.mode@ == "major"@,
            tc.span.is_none(),
    {
        TonalContext { root: Some(0), mode: String::from_str("major"), span: None }
    }
}

/// A `@harmony` block.
#[derive(Debug, Clone)]
pub struct HarmonyBlock {
    /// Block name.
    pub name: Option<String>,
    /// Whether the harmony itself is played.
    pub play: bool,
    /// Channel for played harmony.
    pub channel: Option<u8>,
    /// Program for played harmony.
    pub program: Option<u8>,
    /// Voicing strategy.
    pub voice: VoicingStrategy,
    /// Base octave.
    pub octave: u8,
    /// Velocity.
    pub velocity: u8,
    /// Inversion.
    pub inv: Inversion,
    /// Bars in order.
    pub bars: Vec<Bar>,
    /// Deprecated `section:` directives.
    pub sections: Vec<Section>,
    /// Source span.
    pub span: Option<Span>,
}

/// One bar of a harmony block.
#[derive(Debug, Clone)]
pub struct Bar {
    /// Chords of the bar.
    pub chords: Vec<BarChord>,
    /// `steps:` subdivision, which replaces `chords` when present.
    pub steps: Option<Vec<ChordSymbol>>,
    /// Source span.
    pub span: Option<Span>,
}

/// A chord in a bar with an optional explicit beat count.
#[derive(Debug, Clone)]
pub struct BarChord {
    /// The chord.
    pub chord: ChordSymbol,
    /// Explicit number of beats.
    pub beats: Option<u8>,
    /// Source span.
    pub span: Option<Span>,
}

/// The degree a Roman-numeral chord was written with.
#[derive(Debug, Clone, Copy, PartialEq, Eq, Structural)]
pub struct RomanNumeralDegree {
    /// 0-based degree (0 = I … 6 = VII).
    pub degree_idx: u8,
    /// -1 flat, 0 natural, 1 sharp.
    pub accidental: i8,
}

/// The mathematical content of a chord symbol.
pub struct ChordModel {
    /// Root pitch class.
    pub root: u8,
    /// Intervals above the root, in semitones.
    pub intervals: Seq<u8>,
    /// Slash bass pitch class.
    pub slash_bass: Option<u8>,
    /// Written Roman numeral degree.
    pub roman: Option<RomanNumeralDegree>,
}

/// A parsed chord symbol.
#[derive(Debug, Clone)]
pub struct ChordSymbol {
    /// Root pitch class (0 = C … 11 = B).
    pub root: u8,
    /// Intervals above the root, in semitones.
    pub intervals: Vec<u8>,
    /// Slash bass pitch class.
    pub slash_bass: Option<u8>,
    /// Roman numeral degree, when written as a numeral.
    pub roman: Option<RomanNumeralDegree>,
}

impl View for ChordSymbol {
    type V = ChordModel;

    open spec fn view(&self) -> ChordModel {
        ChordModel {
            root: self.root,
            intervals: self.intervals@,
            slash_bass: self.slash_bass,
            roman: self.roman,
        }
    }
}

/// A deprecated `section:` directive inside a harmony block.
#[derive(Debug, Clone)]
pub struct Section {
    /// 1-indexed bar where the section starts.
    pub bar: u32,
    /// Mode name override.
    pub mode: Option<String>,
    /// Root override.
    pub root: Option<u8>,
    /// Source span.
    pub span: Option<Span>,
}

/// A step playback condition.
#[derive(Debug, Clone, Copy, PartialEq, Eq, Structural)]
pub enum StepCondition {
    /// Every N-th loop.
    Every(u32),
    /// Loop A of every B.
    Cond(u32, u32),
    /// First loop only.
    Once,
    /// Not on the first loop.
    Pre,
}

/// A CC value, static or ramped.
#[derive(Debug, Clone, Copy, PartialEq, Eq, Structural)]
pub enum CcValue {
    /// Fixed value.
    Static(u8),
    /// Linear ramp.
    Ramp { start: u8, end: u8 },
}

/// A timing value in one of three formats. Decimal amounts are held as the
/// bits of an IEEE 754 double.
#[derive(Debug, Clone, Copy, PartialEq, Eq, Structural)]
pub enum TimingValue {
    /// Percent of step duration (the bits of the double).
    Percent(u64),
    /// Fraction of a whole note (numerator, denominator).
    Fraction(i32, u32),
    /// Absolute milliseconds (the bits of the double).
    Milliseconds(u64),
}

/// A step annotation (per-step override). Decimal amounts are held as the
/// bits of an IEEE 754 double.
#[derive(Debug, Clone, Copy, PartialEq, Eq, Structural)]
pub enum Annotation {
    /// Velocity override.
    Vel(u8),
    /// Gate ratio override (the bits of the double).
    Gate(u64),
    /// Explicit duration as fraction (numerator, denominator).
    Dur(u32, u32),
    /// Microtiming shift.
    Shift(TimingValue),
    /// Lane event timing shift.
    LShift(TimingValue),
    /// Octave override.
    Oct(u8),
    /// CC11 expression (static or ramp).
    Expr(CcValue),
    /// CC1 modulation (static or ramp).
    Dyn(CcValue),
    /// CC64 sustain pedal.
    Sus(u8),
    /// CC10 pan (static or ramp).
    Pan(CcValue),
    /// CC7 volume (static or ramp).
    Vol(CcValue),
    /// Pitch bend.
    PitchBend(i16),
    /// Channel aftertouch.
    Aftertouch(u8),
    /// Arbitrary CC number (static or ramp).
    Cc(u8, CcValue),
    /// Conditional step playback.
    Condition(StepCondition),
    /// Ratchet: repeat the note N times within the step duration.
    Ratch(u32),
    /// Ratchet velocity decay factor (the bits of the double; 1.0 is no decay).
    RatchDecay(u64),
    /// Probability of playing this step, 0.0–1.0 (the bits of the double).
    Prob(u64),
    /// Portamento/glide to this note: `None` for the full duration, or the
    /// fraction of it (the bits of the double).
    Glide(Option<u64>),
}

/// A single token in a step line.
#[derive(Debug)]
pub enum StepToken {
    /// Scale degree with optional accidental and octave displacement.
    Degree {
        /// Scale degree number (1-13).
        degree: u8,
        /// Accidental: -1 = flat, 0 = natural, 1 = sharp.
        accidental: i8,
        /// Optional octave override.
        octave: Option<u8>,
        /// Step annotations.
        annotations: Vec<Annotation>,
    },
    /// Absolute pitch (e.g., C4, D#5).
    AbsolutePitch {
        /// MIDI note number.
        midi_note: u8,
        /// Step annotations.
        annotations: Vec<Annotation>,
    },
    /// Direct MIDI note number (e.g., n60).
    MidiNumber {
        /// MIDI note number (0-127).
        note: u8,
        /// Step annotations.
        annotations: Vec<Annotation>,
    },
    /// Chord symbol in step context (e.g., $Cmaj7).
    ChordStep {
        /// The chord symbol.
        chord: ChordSymbol,
        /// Step annotations.
        annotations: Vec<Annotation>,
    },
    /// Rest — silence for one step.
    Rest,
    /// Tie — extend previous note by one step.
    Tie,
    /// Subdivision bracket — divides parent step among contained tokens.
    Subdivision {
        /// Tokens within the subdivision.
        tokens: Vec<StepToken>,
    },
    /// Variant pool — alternatives selected by `vary()` transform.
    Variant {
        /// Alternative step tokens (first is default).
        alternatives: Vec<Vec<StepToken>>,
    },
    /// Drum hit by name (resolved via drummap).
    DrumHit {
        /// Identifier name from drummap.
        name: String,
        /// Step annotations.
        annotations: Vec<Annotation>,
    },
    /// Current harmony chord (`$chord`). Resolved at compile time via harmony index.
    CurrentChord {
        /// Step annotations.
        annotations: Vec<Annotation>,
    },
    /// Chord ordinal (`%n`) — Nth chord tone in ordinal order.
    ///
    /// `%1` = root, `%2` = 3rd (second tone), `%3` = 5th (third tone), etc.
    /// Ordinals beyond the chord tone count wrap with an octave shift:
    /// `%5` over a 4-note chord gives the root + one octave.
    ChordOrdinal {
        /// 1-based ordinal position.
        degree: u32,
        /// Forced octave override (from `%1/4` notation). None = use default + ordinal shift.
        octave: Option<u8>,
        /// Step annotations.
        annotations: Vec<Annotation>,
    },
}

/// Chord voicing strategies.
#[derive(Debug, Clone, Copy, PartialEq, Eq, Structural)]
pub enum VoicingStrategy {
    /// Close position.
    Close,
    /// Open position.
    Open,
    /// Drop-2.
    Drop2,
    /// Shell voicing.
    Shell,
    /// Triad only.
    Triad,
    /// Drop-3.
    Drop3,
    /// Rootless.
    Rootless,
}

impl Default for VoicingStrategy {
    fn default() -> (v: Self)
        ensures
            v == VoicingStrategy::Close,
    {
        VoicingStrategy::Close
    }
}

/// Chord inversion setting.
#[derive(Debug, Clone, Copy, PartialEq, Eq, Structural)]
pub enum Inversion {
    /// Fixed inversion number.
    Fixed(u8),
    /// Automatic voice leading.
    Auto,
}

impl Default for Inversion {
    fn default() -> (v: Self)
        ensures
            v == Inversion::Fixed(0),
    {
        Inversion::Fixed(0)
    }
}

/// Arpeggio direction.
#[derive(Debug, Clone, Copy, PartialEq, Eq, Structural)]
pub enum ArpPattern {
    /// Ascending.
    Up,
    /// Descending.
    Down,
    /// Ascending then descending.
    UpDown,
    /// Shuffled.
    Random,
}

/// Expressive timing curve.
#[derive(Debug, Clone, Copy, PartialEq, Eq, Structural)]
pub enum ExpressiveCurve {
    /// Ease in.
    EaseIn,
    /// Ease out.
    EaseOut,
    /// Ease in and out.
    EaseInOut,
    /// Arch.
    Arch,
}

/// The name a curve is written with.
pub open spec fn curve_name(c: ExpressiveCurve) -> Seq<char> {
    match c {
        ExpressiveCurve::EaseIn => "ease_in"@,
        ExpressiveCurve::EaseOut => "ease_out"@,
        ExpressiveCurve::EaseInOut => "ease_in_out"@,
        ExpressiveCurve::Arch => "arch"@,
    }
}

impl ExpressiveCurve {
    /// The curve's name as written in source (e.g. `ease_in`).
    pub fn to_string(&self) -> (r: String)
        ensures
            r@ == curve_name(*self),
    {
        match self {
            ExpressiveCurve::EaseIn => String::from_str("ease_in"),
            ExpressiveCurve::EaseOut => String::from_str("ease_out"),
            ExpressiveCurve::EaseInOut => String::from_str("ease_in_out"),
            ExpressiveCurve::Arch => String::from_str("arch"),
        }
    }
}

/// Wave shape for `vel_curve` / `gate_curve`.
#[derive(Debug, Clone, Copy, PartialEq, Eq, Structural)]
pub enum WaveShape {
    /// Sine.
    Sine,
    /// Triangle.
    Tri,
    /// Ramp.
    Ramp,
    /// Square.
    Square,
    /// Random.
    Random,
}

/// Snap direction for `scale_lock`.
#[derive(Debug, Clone, Copy, PartialEq, Eq, Structural)]
pub enum SnapMode {
    /// Snap down.
    Down,
    /// Snap up.
    Up,
    /// Drop notes outside the scale.
    Filter,
}

/// A `@drummap` block.
#[derive(Debug, Clone)]
pub struct DrumMapBlock {
    /// Block name.
    pub name: Option<String>,
    /// Identifier-to-note mappings.
    pub mappings: Vec<(String, u8)>,
    /// Source span.
    pub span: Option<Span>,
}

} // verus!
