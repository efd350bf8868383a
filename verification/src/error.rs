//! Error and warning types with source spans.
//!
//! Errors carry source spans for precise location reporting. Rendering to a
//! terminal happens outside the library; `message` produces the text.

use vstd::prelude::*;
use crate::text::{decimal_text, signed_decimal_text, decimal_string, signed_decimal_string};

verus! {

/// A byte-offset span in the source file.
#[derive(Debug, Clone, Copy, PartialEq, Eq, Structural)]
pub struct Span {
    /// Start byte offset (inclusive).
    pub start: usize,
    /// End byte offset (exclusive).
    pub end: usize,
}

impl Span {
    /// Create a new span from start and end byte offsets.
    pub fn new(start: usize, end: usize) -> (s: Self)
        ensures
            s.start == start,
            s.end == end,
    {
        Span { start, end }
    }
}

/// A compile error with source location and description.
#[derive(Debug, Clone)]
pub enum CompileError {
    /// Pattern step count mismatch.
    StepCountMismatch {
        /// Pattern name.
        name: String,
        /// Declared step count.
        declared: u32,
        /// Actual body line count.
        actual: u32,
        /// Source span.
        span: Span,
    },
    /// Tie at pattern start with no prior context.
    TieWithNoPriorNote {
        /// Pattern name.
        name: String,
        /// Source span.
        span: Span,
    },
    /// Follow references undefined harmony block.
    UndefinedHarmonyBlock {
        /// Track name.
        track: String,
        /// Referenced harmony block name.
        harmony: String,
        /// Source span.
        span: Span,
    },
    /// Current chord token ($chord) used without follow= harmony reference.
    CurrentChordWithoutFollow {
        /// Track name.
        name: String,
        /// Source span.
        span: Span,
    },
    /// Drum track with follow directive.
    DrumTrackWithFollow {
        /// Track name.
        name: String,
        /// Source span.
        span: Span,
    },
    /// Track has both play and steps.
    PlayAndSteps {
        /// Track name.
        name: String,
        /// Source span.
        span: Span,
    },
    /// Track has neither play nor steps.
    NeitherPlayNorSteps {
        /// Track name.
        name: String,
        /// Source span.
        span: Span,
    },
    /// Pattern composition with mismatched units.
    UnitMismatch {
        /// Source span.
        span: Span,
    },
    /// Channel out of range.
    ChannelOutOfRange {
        /// Track name.
        name: String,
        /// Source span.
        span: Span,
    },
    /// Velocity out of range.
    VelocityOutOfRange {
        /// Context description.
        context: String,
        /// Source span.
        span: Span,
    },
    /// Gate out of range.
    GateOutOfRange {
        /// Context description.
        context: String,
        /// Source span.
        span: Span,
    },
    /// Inversion exceeds chord tone count.
    InversionExceedsChordTones {
        /// Context description.
        context: String,
        /// Requested inversion.
        inv: u8,
        /// Source span.
        span: Span,
    },
    /// Bar beat assignments don't sum to time signature numerator.
    BeatAssignmentMismatch {
        /// Harmony block name.
        name: String,
        /// Bar number.
        bar: u32,
        /// Actual sum.
        actual: u32,
        /// Expected sum (ts numerator).
        expected: u8,
        /// Source span.
        span: Span,
    },
    /// Undefined pattern reference.
    UndefinedPattern {
        /// Track name.
        track: String,
        /// Referenced pattern name.
        pattern: String,
        /// Source span.
        span: Span,
    },
    /// Interleave step count mismatch.
    InterleaveMismatch {
        /// Source span.
        span: Span,
    },
    /// Forward reference to pattern.
    ForwardReference {
        /// Pattern name.
        name: String,
        /// Source span.
        span: Span,
    },
    /// Section bar numbers not strictly increasing.
    SectionBarNotIncreasing {
        /// Harmony block name.
        name: String,
        /// Source span.
        span: Span,
    },
    /// Section bar exceeds total bar count.
    SectionBarExceedsTotal {
        /// Harmony block name.
        name: String,
        /// Bar number.
        bar: u32,
        /// Source span.
        span: Span,
    },
    /// Deprecated `|` used as transform pipe operator (v0.5: use `->` instead).
    DeprecatedPipeOperator {
        /// Source span.
        span: Span,
    },
    /// Deprecated `|` inside `{{}}` variant pool (v0.5: use `,` instead).
    DeprecatedVariantPipe {
        /// Source span.
        span: Span,
    },
    /// Deprecated `$_` current-chord token (v0.5: use `$chord` instead).
    DeprecatedCurrentChordToken {
        /// Source span.
        span: Span,
    },
    /// Chord ordinal token (%n) used without follow= harmony reference.
    ChordOrdinalWithoutFollow {
        /// Track name.
        name: String,
        /// Source span.
        span: Span,
    },
    /// Multiple @harmony blocks exist but at least one is unnamed; all must be named for
        /// explicit follow= references.
    MultipleHarmonyBlocksRequireNames {
        /// Source span.
        span: Span,
    },
    /// `@tempo` was removed in v0.5 — use `@bpm` block/inline form.
    DeprecatedTempo {
        /// Source span.
        span: Span,
    },
    /// Generic parse error.
    ParseError {
        /// Error message.
        message: String,
        /// Source span.
        span: Span,
    },
}

impl CompileError {
    /// The text of the message, as the error displays it.
    pub open spec fn message_text(&self) -> Seq<char> {
        match self {
            CompileError::StepCountMismatch { name, declared, actual, .. } => "pattern '"@ + name@ + "': declared steps="@ + decimal_text(declared as nat) + " but body has "@ + decimal_text(actual as nat) + " lines"@,
            CompileError::TieWithNoPriorNote { name, .. } => "pattern '"@ + name@ + "' step 1: tie with no prior note"@,
            CompileError::UndefinedHarmonyBlock { track, harmony, .. } => "track '"@ + track@ + "': harmony block '"@ + harmony@ + "' not defined"@,
            CompileError::CurrentChordWithoutFollow { name, .. } => "track '"@ + name@ + "': $chord requires follow= to reference a harmony block"@,
            CompileError::DrumTrackWithFollow { name, .. } => "track '"@ + name@ + "': drum tracks cannot follow a harmony block"@,
            CompileError::PlayAndSteps { name, .. } => "track '"@ + name@ + "': cannot have both play: and steps:"@,
            CompileError::NeitherPlayNorSteps { name, .. } => "track '"@ + name@ + "': must have either play: or steps:"@,
            CompileError::UnitMismatch { .. } => "pattern expression: cannot compose patterns with different units"@,
            CompileError::ChannelOutOfRange { name, .. } => "track '"@ + name@ + "': ch must be 1-16"@,
            CompileError::VelocityOutOfRange { context, .. } => context@ + ": vel must be 1-127"@,
            CompileError::GateOutOfRange { context, .. } => context@ + ": gate must be 0.0-1.0"@,
            CompileError::InversionExceedsChordTones { context, inv, .. } => context@ + ": inversion "@ + decimal_text(inv as nat) + " exceeds chord tone count"@,
            CompileError::BeatAssignmentMismatch { name, bar, actual, expected, .. } => "harmony '"@ + name@ + "' bar "@ + decimal_text(bar as nat) + ": beat assignments sum to "@ + decimal_text(actual as nat) + ", expected "@ + decimal_text(expected as nat),
            CompileError::UndefinedPattern { track, pattern, .. } => "track '"@ + track@ + "': pattern '"@ + pattern@ + "' not defined"@,
            CompileError::InterleaveMismatch { .. } => "interleave: pattern step counts must match"@,
            CompileError::ForwardReference { name, .. } => "pattern '"@ + name@ + "': forward references not permitted"@,
            CompileError::SectionBarNotIncreasing { name, .. } => "harmony '"@ + name@ + "': section bar numbers must be strictly increasing"@,
            CompileError::SectionBarExceedsTotal { name, bar, .. } => "harmony '"@ + name@ + "': section bar="@ + decimal_text(bar as nat) + " exceeds total bar count"@,
            CompileError::DeprecatedPipeOperator { .. } => "`|` is no longer the transform pipe in v0.5 — use `->` instead (e.g., `pat -> reverse`)"@,
            CompileError::DeprecatedVariantPipe { .. } => "`|` inside `{}` is no longer valid in v0.5 — use `,` to separate variants (e.g., `{a, b, c}`)"@,
            CompileError::DeprecatedCurrentChordToken { .. } => "`$_` was renamed to `$chord` in v0.5"@,
            CompileError::ChordOrdinalWithoutFollow { name, .. } => "track '"@ + name@ + "': %n requires follow= to reference a harmony block"@,
            CompileError::MultipleHarmonyBlocksRequireNames { .. } => "multiple @harmony blocks require names — add a name after @harmony"@,
            CompileError::DeprecatedTempo { .. } => "@tempo was removed in v0.5 — use @bpm block or inline form instead"@,
            CompileError::ParseError { message, .. } => message@,
        }
    }

    /// Render the message text.
    pub fn message(&self) -> (r: String)
        ensures
            r@ == self.message_text(),
    {
        match self {
            CompileError::StepCountMismatch { name, declared, actual, .. } => {
                let mut s = String::new();
                s.append("pattern '");
                s.append(name.as_str());
                s.append("': declared steps=");
                let t = decimal_string(*declared as u64);
                s.append(t.as_str());
                s.append(" but body has ");
                let t = decimal_string(*actual as u64);
                s.append(t.as_str());
                s.append(" lines");
                proof { assert(s@ =~= self.message_text()); }
                s
            },
            CompileError::TieWithNoPriorNote { name, .. } => {
                let mut s = String::new();
                s.append("pattern '");
                s.append(name.as_str());
                s.append("' step 1: tie with no prior note");
                proof { assert(s@ =~= self.message_text()); }
                s
            },
            CompileError::UndefinedHarmonyBlock { track, harmony, .. } => {
                let mut s = String::new();
                s.append("track '");
                s.append(track.as_str());
                s.append("': harmony block '");
                s.append(harmony.as_str());
                s.append("' not defined");
                proof { assert(s@ =~= self.message_text()); }
                s
            },
            CompileError::CurrentChordWithoutFollow { name, .. } => {
                let mut s = String::new();
                s.append("track '");
                s.append(name.as_str());
                s.append("': $chord requires follow= to reference a harmony block");
                proof { assert(s@ =~= self.message_text()); }
                s
            },
            CompileError::DrumTrackWithFollow { name, .. } => {
                let mut s = String::new();
                s.append("track '");
                s.append(name.as_str());
                s.append("': drum tracks cannot follow a harmony block");
                proof { assert(s@ =~= self.message_text()); }
                s
            },
            CompileError::PlayAndSteps { name, .. } => {
                let mut s = String::new();
                s.append("track '");
                s.append(name.as_str());
                s.append("': cannot have both play: and steps:");
                proof { assert(s@ =~= self.message_text()); }
                s
            },
            CompileError::NeitherPlayNorSteps { name, .. } => {
                let mut s = String::new();
                s.append("track '");
                s.append(name.as_str());
                s.append("': must have either play: or steps:");
                proof { assert(s@ =~= self.message_text()); }
                s
            },
            CompileError::UnitMismatch { .. } => {
                let mut s = String::new();
                s.append("pattern expression: cannot compose patterns with different units");
                proof { assert(s@ =~= self.message_text()); }
                s
            },
            CompileError::ChannelOutOfRange { name, .. } => {
                let mut s = String::new();
                s.append("track '");
                s.append(name.as_str());
                s.append("': ch must be 1-16");
                proof { assert(s@ =~= self.message_text()); }
                s
            },
            CompileError::VelocityOutOfRange { context, .. } => {
                let mut s = String::new();
                s.append(context.as_str());
                s.append(": vel must be 1-127");
                proof { assert(s@ =~= self.message_text()); }
                s
            },
            CompileError::GateOutOfRange { context, .. } => {
                let mut s = String::new();
                s.append(context.as_str());
                s.append(": gate must be 0.0-1.0");
                proof { assert(s@ =~= self.message_text()); }
                s
            },
            CompileError::InversionExceedsChordTones { context, inv, .. } => {
                let mut s = String::new();
                s.append(context.as_str());
                s.append(": inversion ");
                let t = decimal_string(*inv as u64);
                s.append(t.as_str());
                s.append(" exceeds chord tone count");
                proof { assert(s@ =~= self.message_text()); }
                s
            },
            CompileError::BeatAssignmentMismatch { name, bar, actual, expected, .. } => {
                let mut s = String::new();
                s.append("harmony '");
                s.append(name.as_str());
                s.append("' bar ");
                let t = decimal_string(*bar as u64);
                s.append(t.as_str());
                s.append(": beat assignments sum to ");
                let t = decimal_string(*actual as u64);
                s.append(t.as_str());
                s.append(", expected ");
                let t = decimal_string(*expected as u64);
                s.append(t.as_str());
                proof { assert(s@ =~= self.message_text()); }
                s
            },
            CompileError::UndefinedPattern { track, pattern, .. } => {
                let mut s = String::new();
                s.append("track '");
                s.append(track.as_str());
                s.append("': pattern '");
                s.append(pattern.as_str());
                s.append("' not defined");
                proof { assert(s@ =~= self.message_text()); }
                s
            },
            CompileError::InterleaveMismatch { .. } => {
                let mut s = String::new();
                s.append("interleave: pattern step counts must match");
                proof { assert(s@ =~= self.message_text()); }
                s
            },
            CompileError::ForwardReference { name, .. } => {
                let mut s = String::new();
                s.append("pattern '");
                s.append(name.as_str());
                s.append("': forward references not permitted");
                proof { assert(s@ =~= self.message_text()); }
                s
            },
            CompileError::SectionBarNotIncreasing { name, .. } => {
                let mut s = String::new();
                s.append("harmony '");
                s.append(name.as_str());
                s.append("': section bar numbers must be strictly increasing");
                proof { assert(s@ =~= self.message_text()); }
                s
            },
            CompileError::SectionBarExceedsTotal { name, bar, .. } => {
                let mut s = String::new();
                s.append("harmony '");
                s.append(name.as_str());
                s.append("': section bar=");
                let t = decimal_string(*bar as u64);
                s.append(t.as_str());
                s.append(" exceeds total bar count");
                proof { assert(s@ =~= self.message_text()); }
                s
            },
            CompileError::DeprecatedPipeOperator { .. } => {
                let mut s = String::new();
                s.append("`|` is no longer the transform pipe in v0.5 — use `->` instead (e.g., `pat -> reverse`)");
                proof { assert(s@ =~= self.message_text()); }
                s
            },
            CompileError::DeprecatedVariantPipe { .. } => {
                let mut s = String::new();
                s.append("`|` inside `{}` is no longer valid in v0.5 — use `,` to separate variants (e.g., `{a, b, c}`)");
                proof { assert(s@ =~= self.message_text()); }
                s
            },
            CompileError::DeprecatedCurrentChordToken { .. } => {
                let mut s = String::new();
                s.append("`$_` was renamed to `$chord` in v0.5");
                proof { assert(s@ =~= self.message_text()); }
                s
            },
            CompileError::ChordOrdinalWithoutFollow { name, .. } => {
                let mut s = String::new();
                s.append("track '");
                s.append(name.as_str());
                s.append("': %n requires follow= to reference a harmony block");
                proof { assert(s@ =~= self.message_text()); }
                s
            },
            CompileError::MultipleHarmonyBlocksRequireNames { .. } => {
                let mut s = String::new();
                s.append("multiple @harmony blocks require names — add a name after @harmony");
                proof { assert(s@ =~= self.message_text()); }
                s
            },
            CompileError::DeprecatedTempo { .. } => {
                let mut s = String::new();
                s.append("@tempo was removed in v0.5 — use @bpm block or inline form instead");
                proof { assert(s@ =~= self.message_text()); }
                s
            },
            CompileError::ParseError { message, .. } => {
                let mut s = String::new();
                s.append(message.as_str());
                proof { assert(s@ =~= self.message_text()); }
                s
            },
        }
    }
}

/// A compile warning with source location.
#[derive(Debug, Clone)]
pub enum CompileWarning {
    /// Degree token with no follow directive.
    DegreeWithNoFollow {
        /// Track name.
        track: String,
        /// Source span.
        span: Span,
    },
    /// Note clamped to MIDI range.
    NoteClamped {
        /// Track name.
        track: String,
        /// Step number.
        step: u32,
        /// Original note value.
        original: i32,
        /// Source span.
        span: Span,
    },
    /// play=true without ch= on harmony block.
    PlayWithoutChannel {
        /// Harmony block name.
        name: String,
        /// Source span.
        span: Span,
    },
    /// `section:` inside `@harmony` is deprecated in v0.5.
    DeprecatedSection {
        /// Source span.
        span: Span,
    },
    /// `[prob:N]` annotation on a rest step — has no effect since rests never play.
    ProbOnRest {
        /// Track name.
        track: String,
        /// Source span.
        span: Span,
    },
    /// `[prob:0.0]` on a note step — step can never play.
    ProbZeroNeverPlays {
        /// Track name.
        track: String,
        /// Source span.
        span: Span,
    },
    /// `[glide]` on the first note of a pattern — no prior pitch to glide from, ignored.
    GlideOnFirstNote {
        /// Track name.
        track: String,
        /// Source span.
        span: Span,
    },
    /// `[glide]` on a tied note — glide has no effect on ties, ignored.
    GlideOnTiedNote {
        /// Track name.
        track: String,
        /// Source span.
        span: Span,
    },
    /// `[glide]` on a drum track — portamento is not meaningful on drums, ignored.
    GlideOnDrumTrack {
        /// Track name.
        track: String,
        /// Source span.
        span: Span,
    },
}

impl CompileWarning {
    /// The text of the message, as the error displays it.
    pub open spec fn message_text(&self) -> Seq<char> {
        match self {
            CompileWarning::DegreeWithNoFollow { track, .. } => "track '"@ + track@ + "': degree token without follow= — defaulting to C major"@,
            CompileWarning::NoteClamped { track, step, original, .. } => "track '"@ + track@ + "' step "@ + decimal_text(step as nat) + ": note "@ + signed_decimal_text(original as int) + " clamped to MIDI range 0-127"@,
            CompileWarning::PlayWithoutChannel { name, .. } => "@harmony '"@ + name@ + "': play=true requires ch= — defaulting to channel 1"@,
            CompileWarning::DeprecatedSection { .. } => "`section:` inside @harmony is deprecated in v0.5 — use `@scale` timeline form instead"@,
            CompileWarning::ProbOnRest { track, .. } => "track '"@ + track@ + "': [prob:N] on a rest has no effect — rests are always silent"@,
            CompileWarning::ProbZeroNeverPlays { track, .. } => "track '"@ + track@ + "': [prob:0.0] — step can never play"@,
            CompileWarning::GlideOnFirstNote { track, .. } => "track '"@ + track@ + "': [glide] on first note has no prior pitch to glide from — ignored"@,
            CompileWarning::GlideOnTiedNote { track, .. } => "track '"@ + track@ + "': [glide] on a tied note has no effect — ignored"@,
            CompileWarning::GlideOnDrumTrack { track, .. } => "track '"@ + track@ + "': [glide] annotation ignored on drum track"@,
        }
    }

    /// Render the message text.
    pub fn message(&self) -> (r: String)
        ensures
            r@ == self.message_text(),
    {
        match self {
            CompileWarning::DegreeWithNoFollow { track, .. } => {
                let mut s = String::new();
                s.append("track '");
                s.append(track.as_str());
                s.append("': degree token without follow= — defaulting to C major");
                proof { assert(s@ =~= self.message_text()); }
                s
            },
            CompileWarning::NoteClamped { track, step, original, .. } => {
                let mut s = String::new();
                s.append("track '");
                s.append(track.as_str());
                s.append("' step ");
                let t = decimal_string(*step as u64);
                s.append(t.as_str());
                s.append(": note ");
                let t = signed_decimal_string(*original as i64);
                s.append(t.as_str());
                s.append(" clamped to MIDI range 0-127");
                proof { assert(s@ =~= self.message_text()); }
                s
            },
            CompileWarning::PlayWithoutChannel { name, .. } => {
                let mut s = String::new();
                s.append("@harmony '");
                s.append(name.as_str());
                s.append("': play=true requires ch= — defaulting to channel 1");
                proof { assert(s@ =~= self.message_text()); }
                s
            },
            CompileWarning::DeprecatedSection { .. } => {
                let mut s = String::new();
                s.append("`section:` inside @harmony is deprecated in v0.5 — use `@scale` timeline form instead");
                proof { assert(s@ =~= self.message_text()); }
                s
            },
            CompileWarning::ProbOnRest { track, .. } => {
                let mut s = String::new();
                s.append("track '");
                s.append(track.as_str());
                s.append("': [prob:N] on a rest has no effect — rests are always silent");
                proof { assert(s@ =~= self.message_text()); }
                s
            },
            CompileWarning::ProbZeroNeverPlays { track, .. } => {
                let mut s = String::new();
                s.append("track '");
                s.append(track.as_str());
                s.append("': [prob:0.0] — step can never play");
                proof { assert(s@ =~= self.message_text()); }
                s
            },
            CompileWarning::GlideOnFirstNote { track, .. } => {
                let mut s = String::new();
                s.append("track '");
                s.append(track.as_str());
                s.append("': [glide] on first note has no prior pitch to glide from — ignored");
                proof { assert(s@ =~= self.message_text()); }
                s
            },
            CompileWarning::GlideOnTiedNote { track, .. } => {
                let mut s = String::new();
                s.append("track '");
                s.append(track.as_str());
                s.append("': [glide] on a tied note has no effect — ignored");
                proof { assert(s@ =~= self.message_text()); }
                s
            },
            CompileWarning::GlideOnDrumTrack { track, .. } => {
                let mut s = String::new();
                s.append("track '");
                s.append(track.as_str());
                s.append("': [glide] annotation ignored on drum track");
                proof { assert(s@ =~= self.message_text()); }
                s
            },
        }
    }
}

/// The span an error points at.
pub open spec fn spec_error_span(err: CompileError) -> Span {
    match err {
        CompileError::StepCountMismatch { span, .. } => span,
        CompileError::TieWithNoPriorNote { span, .. } => span,
        CompileError::UndefinedHarmonyBlock { span, .. } => span,
        CompileError::CurrentChordWithoutFollow { span, .. } => span,
        CompileError::DrumTrackWithFollow { span, .. } => span,
        CompileError::PlayAndSteps { span, .. } => span,
        CompileError::NeitherPlayNorSteps { span, .. } => span,
        CompileError::UnitMismatch { span, .. } => span,
        CompileError::ChannelOutOfRange { span, .. } => span,
        CompileError::VelocityOutOfRange { span, .. } => span,
        CompileError::GateOutOfRange { span, .. } => span,
        CompileError::InversionExceedsChordTones { span, .. } => span,
        CompileError::BeatAssignmentMismatch { span, .. } => span,
        CompileError::UndefinedPattern { span, .. } => span,
        CompileError::InterleaveMismatch { span, .. } => span,
        CompileError::ForwardReference { span, .. } => span,
        CompileError::SectionBarNotIncreasing { span, .. } => span,
        CompileError::SectionBarExceedsTotal { span, .. } => span,
        CompileError::DeprecatedPipeOperator { span, .. } => span,
        CompileError::DeprecatedVariantPipe { span, .. } => span,
        CompileError::DeprecatedCurrentChordToken { span, .. } => span,
        CompileError::ChordOrdinalWithoutFollow { span, .. } => span,
        CompileError::MultipleHarmonyBlocksRequireNames { span, .. } => span,
        CompileError::DeprecatedTempo { span, .. } => span,
        CompileError::ParseError { span, .. } => span,
    }
}

/// Extract the span from a `CompileError`.
pub fn error_span(err: &CompileError) -> (s: Span)
    ensures
        s == spec_error_span(*err),
{
    match err {
        CompileError::StepCountMismatch { span, .. } => *span,
        CompileError::TieWithNoPriorNote { span, .. } => *span,
        CompileError::UndefinedHarmonyBlock { span, .. } => *span,
        CompileError::CurrentChordWithoutFollow { span, .. } => *span,
        CompileError::DrumTrackWithFollow { span, .. } => *span,
        CompileError::PlayAndSteps { span, .. } => *span,
        CompileError::NeitherPlayNorSteps { span, .. } => *span,
        CompileError::UnitMismatch { span, .. } => *span,
        CompileError::ChannelOutOfRange { span, .. } => *span,
        CompileError::VelocityOutOfRange { span, .. } => *span,
        CompileError::GateOutOfRange { span, .. } => *span,
        CompileError::InversionExceedsChordTones { span, .. } => *span,
        CompileError::BeatAssignmentMismatch { span, .. } => *span,
        CompileError::UndefinedPattern { span, .. } => *span,
        CompileError::InterleaveMismatch { span, .. } => *span,
        CompileError::ForwardReference { span, .. } => *span,
        CompileError::SectionBarNotIncreasing { span, .. } => *span,
        CompileError::SectionBarExceedsTotal { span, .. } => *span,
        CompileError::DeprecatedPipeOperator { span, .. } => *span,
        CompileError::DeprecatedVariantPipe { span, .. } => *span,
        CompileError::DeprecatedCurrentChordToken { span, .. } => *span,
        CompileError::ChordOrdinalWithoutFollow { span, .. } => *span,
        CompileError::MultipleHarmonyBlocksRequireNames { span, .. } => *span,
        CompileError::DeprecatedTempo { span, .. } => *span,
        CompileError::ParseError { span, .. } => *span,
    }
}

/// Result type for compilation operations.
pub type CompileResult<T> = Result<T, CompileError>;

} // verus!
