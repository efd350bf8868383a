//! Lexer for the Interval language.
//!
//! Turns source text into a flat stream of tokens with their byte spans:
//! header directives, block declarations, keywords, step tokens, operators,
//! brackets, literals, identifiers and comments. At each position the
//! longest token wins; a keyword or a `cc<N>` controller name beats an
//! identifier of the same length. Blanks (spaces and tabs) separate tokens
//! and are dropped.
//!
//! The lexer is context-free: context-sensitive disambiguation (e.g. `b` as
//! a flat or as a note name) happens in the parser.

use vstd::prelude::*;
use vstd::string::*;
use crate::edit::{char_width, lemma_prefix_bytes_monotone, prefix_bytes};
use crate::text::{chars_match_str_at, is_prefix, str_chars};

verus! {

/// All token types produced by the Interval lexer.
///
/// `|` is exclusively the bar separator for harmony blocks and timeline
/// directives; the transform pipe is `->` and the variant separator is `,`.
/// The parser enforces these rules.
#[derive(Debug, Clone, PartialEq)]
pub enum Token {
    /// Newline (significant: each step occupies exactly one line).
    Newline,

    /// Line comment, from `//` to the end of the line.
    Comment,

    /// `@ppq` — pulses per quarter note.
    AtPpq,

    /// `@bpm` — tempo in beats per minute.
    AtBpm,

    /// `@ts` — time signature.
    AtTs,

    /// `@title` — optional title string.
    AtTitle,

    /// `@seed` — global seed for seeded operations.
    AtSeed,

    /// `@bars` — global bar count for automatic pattern fill.
    AtBars,

    /// `@scale` — global tonal context block.
    AtScale,

    /// `@harmony` — harmony timeline block.
    AtHarmony,

    /// `@pattern` — pattern block.
    AtPattern,

    /// `@track` — track block.
    AtTrack,

    /// `@drummap` — drum map block.
    AtDrummap,

    /// `@tempo` — tempo timeline block.
    AtTempo,

    /// `mode` keyword (in `mode=`).
    KwMode,

    /// `play` keyword (in `play=` or `play:`).
    KwPlay,

    /// `steps` keyword (in `steps=` or `steps:`).
    KwSteps,

    /// `unit` keyword (in `unit=`).
    KwUnit,

    /// `vel` keyword.
    KwVel,

    /// `gate` keyword.
    KwGate,

    /// `oct` keyword.
    KwOct,

    /// `ch` keyword.
    KwCh,

    /// `prog` keyword.
    KwProg,

    /// `voice` keyword.
    KwVoice,

    /// `inv` keyword.
    KwInv,

    /// `seed` keyword (track-level).
    KwSeed,

    /// `follow` keyword.
    KwFollow,

    /// `shift` keyword.
    KwShift,

    /// `lshift` keyword.
    KwLshift,

    /// `type` keyword (in `type=drums`).
    KwType,

    /// `drummap` keyword (in `drummap=name`).
    KwDrummap,

    /// `section` keyword (in `section:` modulation directive).
    KwSection,

    /// `bar` keyword (in `bar=N` within section directive).
    KwBar,

    /// `root` keyword (in `root=X` within section directive).
    KwRoot,

    /// `dur` annotation keyword.
    KwDur,

    /// `expr` annotation keyword.
    KwExpr,

    /// `dyn` annotation keyword.
    KwDyn,

    /// `sus` annotation keyword.
    KwSus,

    /// `pan` annotation keyword.
    KwPan,

    /// `vol` annotation keyword.
    KwVol,

    /// `pb` annotation keyword (pitch bend).
    KwPb,

    /// `at` annotation keyword (aftertouch).
    KwAt,

    /// `auto` keyword (for `inv=auto`).
    KwAuto,

    /// `every` conditional annotation keyword.
    KwEvery,

    /// `cond` conditional annotation keyword.
    KwCond,

    /// `once` conditional annotation keyword.
    KwOnce,

    /// `pre` conditional annotation keyword.
    KwPre,

    /// `rate` keyword.
    KwRate,

    /// `evolve` keyword.
    KwEvolve,

    /// `euclid_gate` keyword.
    KwEuclidGate,

    /// `echo` keyword.
    KwEcho,

    /// `vel_curve` keyword.
    KwVelCurve,

    /// `gate_curve` keyword.
    KwGateCurve,

    /// `sine` keyword (wave shape).
    KwSine,

    /// `tri` keyword (wave shape).
    KwTri,

    /// `ramp` keyword (wave shape).
    KwRamp,

    /// `square` keyword (wave shape).
    KwSquare,

    /// `random` keyword (wave shape).
    KwRandom,

    /// `arp` transform name.
    KwArp,

    /// `updown` arp pattern (up then down, no repeat at top).
    KwUpDown,

    /// `scale_lock` keyword.
    KwScaleLock,

    /// `down` keyword (snap mode).
    KwDown,

    /// `up` keyword (snap mode).
    KwUp,

    /// `filter` keyword (snap mode).
    KwFilter,

    /// `swing` keyword.
    KwSwing,

    /// `swingunit` keyword.
    KwSwingUnit,

    /// `ratch` keyword (ratchet count annotation).
    KwRatch,

    /// `ratch_decay` keyword (ratchet velocity decay annotation).
    KwRatchDecay,

    /// `true` literal.
    KwTrue,

    /// `false` literal.
    KwFalse,

    /// `drums` keyword (for `type=drums`).
    KwDrums,

    /// `start` keyword (in `start=<bar>`).
    KwStart,

    /// `prob` annotation keyword (step probability).
    KwProb,

    /// `glide` annotation keyword (portamento).
    KwGlide,

    /// `reverse` transform.
    KwReverse,

    /// `invert` transform.
    KwInvert,

    /// `retrograde` transform.
    KwRetrograde,

    /// `rotate` transform.
    KwRotate,

    /// `stretch` transform.
    KwStretch,

    /// `compress` transform.
    KwCompress,

    /// `transpose` transform.
    KwTranspose,

    /// `shift_oct` transform.
    KwShiftOct,

    /// `subset` transform.
    KwSubset,

    /// `interleave` transform.
    KwInterleave,

    /// `mirror` transform.
    KwMirror,

    /// `humanize` transform.
    KwHumanize,

    /// `vary` transform.
    KwVary,

    /// `rubato` expressive transform.
    KwRubato,

    /// `ritardando` expressive transform.
    KwRitardando,

    /// `accelerando` expressive transform.
    KwAccelerando,

    /// `agogic` expressive transform.
    KwAgogic,

    /// `breathe` expressive transform.
    KwBreathe,

    /// `swell` expressive transform.
    KwSwell,

    /// `phrase` expressive transform.
    KwPhrase,

    /// `ease_in` curve name.
    KwEaseIn,

    /// `ease_out` curve name.
    KwEaseOut,

    /// `ease_in_out` curve name.
    KwEaseInOut,

    /// `arch` curve name.
    KwArch,

    /// `linear` curve name (for `@bpm` timeline ramp).
    KwLinear,

    /// `cc<N>` arbitrary CC annotation (e.g., `cc74`).
    KwCc(u8),

    /// `^` degree prefix.
    Caret,

    /// `.` rest.
    Dot,

    /// `~` tie / hold.
    Tilde,

    /// `+` simultaneous notes separator.
    Plus,

    /// `$` chord symbol prefix (in step lines).
    Dollar,

    /// `%` bare percent sign (chord ordinal prefix: `%1`, `%2`, etc.).
    /// Distinct from `Percent`, which requires preceding digits (e.g., `5%`).
    PercentSign,

    /// `@` bare at sign (per-reference rate modifier: `pattern@2.0`).
    At,

    /// `(` open parenthesis (subdivision or transform args).
    LParen,

    /// `)` close parenthesis.
    RParen,

    /// `[` open square bracket (step annotation).
    LBracket,

    /// `]` close square bracket.
    RBracket,

    /// `{` open curly brace (variant pool).
    LBrace,

    /// `}` close curly brace.
    RBrace,

    /// `|` bar separator (harmony blocks and timeline directives); the transform
    /// pipe is `->` and the variant separator is `,`.
    Pipe,

    /// `*~` soft boundary repetition.
    StarTilde,

    /// `*` hard boundary repetition.
    Star,

    /// `~>>` soft boundary concatenation.
    TildeRShift,

    /// `>>` hard boundary concatenation.
    RShift,

    /// `->` ramp arrow in annotations (e.g., `expr:40->88`).
    Arrow,

    /// `=` assignment / key-value separator in directives.
    Equals,

    /// `:` key-value separator in annotations and beat assignment.
    Colon,

    /// `/` fraction separator (e.g., `1/4`, `4/4`).
    Slash,

    /// `,` comma (transform argument separator).
    Comma,

    /// `#` sharp accidental.
    Sharp,

    /// Integer literal.
    Integer(i64),

    /// Decimal literal (with a decimal point), as written (e.g. `120.0`, `-0.5`).
    Float(String),

    /// Percent literal (e.g., `5%`, `-3.5%`): the number as written, without the `%`.
    Percent(String),

    /// Millisecond literal (e.g., `8ms`, `-5ms`): the number as written, without the `ms`.
    Milliseconds(String),

    /// Quoted string literal (double quotes).
    StringLiteral(String),

    /// General identifier (pattern names, harmony names, track names,
    /// drum hit names, mode names, voicing names, note names, etc.).
    /// The parser resolves the meaning based on context.
    Ident(String),

    /// `Δ` (delta) — major seventh quality symbol.
    Delta,

    /// `°` (degree sign) — diminished quality symbol.
    Degree,

    /// `ø` (slashed o) — half-diminished quality symbol.
    HalfDim,
}

/// A token's contents: its kind, and the text or value it carries.
pub enum TokenView {
    /// See [`Token::Newline`].
    Newline,
    /// See [`Token::Comment`].
    Comment,
    /// See [`Token::AtPpq`].
    AtPpq,
    /// See [`Token::AtBpm`].
    AtBpm,
    /// See [`Token::AtTs`].
    AtTs,
    /// See [`Token::AtTitle`].
    AtTitle,
    /// See [`Token::AtSeed`].
    AtSeed,
    /// See [`Token::AtBars`].
    AtBars,
    /// See [`Token::AtScale`].
    AtScale,
    /// See [`Token::AtHarmony`].
    AtHarmony,
    /// See [`Token::AtPattern`].
    AtPattern,
    /// See [`Token::AtTrack`].
    AtTrack,
    /// See [`Token::AtDrummap`].
    AtDrummap,
    /// See [`Token::AtTempo`].
    AtTempo,
    /// See [`Token::KwMode`].
    KwMode,
    /// See [`Token::KwPlay`].
    KwPlay,
    /// See [`Token::KwSteps`].
    KwSteps,
    /// See [`Token::KwUnit`].
    KwUnit,
    /// See [`Token::KwVel`].
    KwVel,
    /// See [`Token::KwGate`].
    KwGate,
    /// See [`Token::KwOct`].
    KwOct,
    /// See [`Token::KwCh`].
    KwCh,
    /// See [`Token::KwProg`].
    KwProg,
    /// See [`Token::KwVoice`].
    KwVoice,
    /// See [`Token::KwInv`].
    KwInv,
    /// See [`Token::KwSeed`].
    KwSeed,
    /// See [`Token::KwFollow`].
    KwFollow,
    /// See [`Token::KwShift`].
    KwShift,
    /// See [`Token::KwLshift`].
    KwLshift,
    /// See [`Token::KwType`].
    KwType,
    /// See [`Token::KwDrummap`].
    KwDrummap,
    /// See [`Token::KwSection`].
    KwSection,
    /// See [`Token::KwBar`].
    KwBar,
    /// See [`Token::KwRoot`].
    KwRoot,
    /// See [`Token::KwDur`].
    KwDur,
    /// See [`Token::KwExpr`].
    KwExpr,
    /// See [`Token::KwDyn`].
    KwDyn,
    /// See [`Token::KwSus`].
    KwSus,
    /// See [`Token::KwPan`].
    KwPan,
    /// See [`Token::KwVol`].
    KwVol,
    /// See [`Token::KwPb`].
    KwPb,
    /// See [`Token::KwAt`].
    KwAt,
    /// See [`Token::KwAuto`].
    KwAuto,
    /// See [`Token::KwEvery`].
    KwEvery,
    /// See [`Token::KwCond`].
    KwCond,
    /// See [`Token::KwOnce`].
    KwOnce,
    /// See [`Token::KwPre`].
    KwPre,
    /// See [`Token::KwRate`].
    KwRate,
    /// See [`Token::KwEvolve`].
    KwEvolve,
    /// See [`Token::KwEuclidGate`].
    KwEuclidGate,
    /// See [`Token::KwEcho`].
    KwEcho,
    /// See [`Token::KwVelCurve`].
    KwVelCurve,
    /// See [`Token::KwGateCurve`].
    KwGateCurve,
    /// See [`Token::KwSine`].
    KwSine,
    /// See [`Token::KwTri`].
    KwTri,
    /// See [`Token::KwRamp`].
    KwRamp,
    /// See [`Token::KwSquare`].
    KwSquare,
    /// See [`Token::KwRandom`].
    KwRandom,
    /// See [`Token::KwArp`].
    KwArp,
    /// See [`Token::KwUpDown`].
    KwUpDown,
    /// See [`Token::KwScaleLock`].
    KwScaleLock,
    /// See [`Token::KwDown`].
    KwDown,
    /// See [`Token::KwUp`].
    KwUp,
    /// See [`Token::KwFilter`].
    KwFilter,
    /// See [`Token::KwSwing`].
    KwSwing,
    /// See [`Token::KwSwingUnit`].
    KwSwingUnit,
    /// See [`Token::KwRatch`].
    KwRatch,
    /// See [`Token::KwRatchDecay`].
    KwRatchDecay,
    /// See [`Token::KwTrue`].
    KwTrue,
    /// See [`Token::KwFalse`].
    KwFalse,
    /// See [`Token::KwDrums`].
    KwDrums,
    /// See [`Token::KwStart`].
    KwStart,
    /// See [`Token::KwProb`].
    KwProb,
    /// See [`Token::KwGlide`].
    KwGlide,
    /// See [`Token::KwReverse`].
    KwReverse,
    /// See [`Token::KwInvert`].
    KwInvert,
    /// See [`Token::KwRetrograde`].
    KwRetrograde,
    /// See [`Token::KwRotate`].
    KwRotate,
    /// See [`Token::KwStretch`].
    KwStretch,
    /// See [`Token::KwCompress`].
    KwCompress,
    /// See [`Token::KwTranspose`].
    KwTranspose,
    /// See [`Token::KwShiftOct`].
    KwShiftOct,
    /// See [`Token::KwSubset`].
    KwSubset,
    /// See [`Token::KwInterleave`].
    KwInterleave,
    /// See [`Token::KwMirror`].
    KwMirror,
    /// See [`Token::KwHumanize`].
    KwHumanize,
    /// See [`Token::KwVary`].
    KwVary,
    /// See [`Token::KwRubato`].
    KwRubato,
    /// See [`Token::KwRitardando`].
    KwRitardando,
    /// See [`Token::KwAccelerando`].
    KwAccelerando,
    /// See [`Token::KwAgogic`].
    KwAgogic,
    /// See [`Token::KwBreathe`].
    KwBreathe,
    /// See [`Token::KwSwell`].
    KwSwell,
    /// See [`Token::KwPhrase`].
    KwPhrase,
    /// See [`Token::KwEaseIn`].
    KwEaseIn,
    /// See [`Token::KwEaseOut`].
    KwEaseOut,
    /// See [`Token::KwEaseInOut`].
    KwEaseInOut,
    /// See [`Token::KwArch`].
    KwArch,
    /// See [`Token::KwLinear`].
    KwLinear,
    /// See [`Token::KwCc`].
    KwCc(u8),
    /// See [`Token::Caret`].
    Caret,
    /// See [`Token::Dot`].
    Dot,
    /// See [`Token::Tilde`].
    Tilde,
    /// See [`Token::Plus`].
    Plus,
    /// See [`Token::Dollar`].
    Dollar,
    /// See [`Token::PercentSign`].
    PercentSign,
    /// See [`Token::At`].
    At,
    /// See [`Token::LParen`].
    LParen,
    /// See [`Token::RParen`].
    RParen,
    /// See [`Token::LBracket`].
    LBracket,
    /// See [`Token::RBracket`].
    RBracket,
    /// See [`Token::LBrace`].
    LBrace,
    /// See [`Token::RBrace`].
    RBrace,
    /// See [`Token::Pipe`].
    Pipe,
    /// See [`Token::StarTilde`].
    StarTilde,
    /// See [`Token::Star`].
    Star,
    /// See [`Token::TildeRShift`].
    TildeRShift,
    /// See [`Token::RShift`].
    RShift,
    /// See [`Token::Arrow`].
    Arrow,
    /// See [`Token::Equals`].
    Equals,
    /// See [`Token::Colon`].
    Colon,
    /// See [`Token::Slash`].
    Slash,
    /// See [`Token::Comma`].
    Comma,
    /// See [`Token::Sharp`].
    Sharp,
    /// See [`Token::Integer`].
    Integer(i64),
    /// See [`Token::Float`].
    Float(Seq<char>),
    /// See [`Token::Percent`].
    Percent(Seq<char>),
    /// See [`Token::Milliseconds`].
    Milliseconds(Seq<char>),
    /// See [`Token::StringLiteral`].
    StringLiteral(Seq<char>),
    /// See [`Token::Ident`].
    Ident(Seq<char>),
    /// See [`Token::Delta`].
    Delta,
    /// See [`Token::Degree`].
    Degree,
    /// See [`Token::HalfDim`].
    HalfDim,
}

impl View for Token {
    type V = TokenView;

    open spec fn view(&self) -> TokenView {
        match self {
            Token::Newline => TokenView::Newline,
            Token::Comment => TokenView::Comment,
            Token::AtPpq => TokenView::AtPpq,
            Token::AtBpm => TokenView::AtBpm,
            Token::AtTs => TokenView::AtTs,
            Token::AtTitle => TokenView::AtTitle,
            Token::AtSeed => TokenView::AtSeed,
            Token::AtBars => TokenView::AtBars,
            Token::AtScale => TokenView::AtScale,
            Token::AtHarmony => TokenView::AtHarmony,
            Token::AtPattern => TokenView::AtPattern,
            Token::AtTrack => TokenView::AtTrack,
            Token::AtDrummap => TokenView::AtDrummap,
            Token::AtTempo => TokenView::AtTempo,
            Token::KwMode => TokenView::KwMode,
            Token::KwPlay => TokenView::KwPlay,
            Token::KwSteps => TokenView::KwSteps,
            Token::KwUnit => TokenView::KwUnit,
            Token::KwVel => TokenView::KwVel,
            Token::KwGate => TokenView::KwGate,
            Token::KwOct => TokenView::KwOct,
            Token::KwCh => TokenView::KwCh,
            Token::KwProg => TokenView::KwProg,
            Token::KwVoice => TokenView::KwVoice,
            Token::KwInv => TokenView::KwInv,
            Token::KwSeed => TokenView::KwSeed,
            Token::KwFollow => TokenView::KwFollow,
            Token::KwShift => TokenView::KwShift,
            Token::KwLshift => TokenView::KwLshift,
            Token::KwType => TokenView::KwType,
            Token::KwDrummap => TokenView::KwDrummap,
            Token::KwSection => TokenView::KwSection,
            Token::KwBar => TokenView::KwBar,
            Token::KwRoot => TokenView::KwRoot,
            Token::KwDur => TokenView::KwDur,
            Token::KwExpr => TokenView::KwExpr,
            Token::KwDyn => TokenView::KwDyn,
            Token::KwSus => TokenView::KwSus,
            Token::KwPan => TokenView::KwPan,
            Token::KwVol => TokenView::KwVol,
            Token::KwPb => TokenView::KwPb,
            Token::KwAt => TokenView::KwAt,
            Token::KwAuto => TokenView::KwAuto,
            Token::KwEvery => TokenView::KwEvery,
            Token::KwCond => TokenView::KwCond,
            Token::KwOnce => TokenView::KwOnce,
            Token::KwPre => TokenView::KwPre,
            Token::KwRate => TokenView::KwRate,
            Token::KwEvolve => TokenView::KwEvolve,
            Token::KwEuclidGate => TokenView::KwEuclidGate,
            Token::KwEcho => TokenView::KwEcho,
            Token::KwVelCurve => TokenView::KwVelCurve,
            Token::KwGateCurve => TokenView::KwGateCurve,
            Token::KwSine => TokenView::KwSine,
            Token::KwTri => TokenView::KwTri,
            Token::KwRamp => TokenView::KwRamp,
            Token::KwSquare => TokenView::KwSquare,
            Token::KwRandom => TokenView::KwRandom,
            Token::KwArp => TokenView::KwArp,
            Token::KwUpDown => TokenView::KwUpDown,
            Token::KwScaleLock => TokenView::KwScaleLock,
            Token::KwDown => TokenView::KwDown,
            Token::KwUp => TokenView::KwUp,
            Token::KwFilter => TokenView::KwFilter,
            Token::KwSwing => TokenView::KwSwing,
            Token::KwSwingUnit => TokenView::KwSwingUnit,
            Token::KwRatch => TokenView::KwRatch,
            Token::KwRatchDecay => TokenView::KwRatchDecay,
            Token::KwTrue => TokenView::KwTrue,
            Token::KwFalse => TokenView::KwFalse,
            Token::KwDrums => TokenView::KwDrums,
            Token::KwStart => TokenView::KwStart,
            Token::KwProb => TokenView::KwProb,
            Token::KwGlide => TokenView::KwGlide,
            Token::KwReverse => TokenView::KwReverse,
            Token::KwInvert => TokenView::KwInvert,
            Token::KwRetrograde => TokenView::KwRetrograde,
            Token::KwRotate => TokenView::KwRotate,
            Token::KwStretch => TokenView::KwStretch,
            Token::KwCompress => TokenView::KwCompress,
            Token::KwTranspose => TokenView::KwTranspose,
            Token::KwShiftOct => TokenView::KwShiftOct,
            Token::KwSubset => TokenView::KwSubset,
            Token::KwInterleave => TokenView::KwInterleave,
            Token::KwMirror => TokenView::KwMirror,
            Token::KwHumanize => TokenView::KwHumanize,
            Token::KwVary => TokenView::KwVary,
            Token::KwRubato => TokenView::KwRubato,
            Token::KwRitardando => TokenView::KwRitardando,
            Token::KwAccelerando => TokenView::KwAccelerando,
            Token::KwAgogic => TokenView::KwAgogic,
            Token::KwBreathe => TokenView::KwBreathe,
            Token::KwSwell => TokenView::KwSwell,
            Token::KwPhrase => TokenView::KwPhrase,
            Token::KwEaseIn => TokenView::KwEaseIn,
            Token::KwEaseOut => TokenView::KwEaseOut,
            Token::KwEaseInOut => TokenView::KwEaseInOut,
            Token::KwArch => TokenView::KwArch,
            Token::KwLinear => TokenView::KwLinear,
            Token::KwCc(v) => TokenView::KwCc(*v),
            Token::Caret => TokenView::Caret,
            Token::Dot => TokenView::Dot,
            Token::Tilde => TokenView::Tilde,
            Token::Plus => TokenView::Plus,
            Token::Dollar => TokenView::Dollar,
            Token::PercentSign => TokenView::PercentSign,
            Token::At => TokenView::At,
            Token::LParen => TokenView::LParen,
            Token::RParen => TokenView::RParen,
            Token::LBracket => TokenView::LBracket,
            Token::RBracket => TokenView::RBracket,
            Token::LBrace => TokenView::LBrace,
            Token::RBrace => TokenView::RBrace,
            Token::Pipe => TokenView::Pipe,
            Token::StarTilde => TokenView::StarTilde,
            Token::Star => TokenView::Star,
            Token::TildeRShift => TokenView::TildeRShift,
            Token::RShift => TokenView::RShift,
            Token::Arrow => TokenView::Arrow,
            Token::Equals => TokenView::Equals,
            Token::Colon => TokenView::Colon,
            Token::Slash => TokenView::Slash,
            Token::Comma => TokenView::Comma,
            Token::Sharp => TokenView::Sharp,
            Token::Integer(v) => TokenView::Integer(*v),
            Token::Float(s) => TokenView::Float(s@),
            Token::Percent(s) => TokenView::Percent(s@),
            Token::Milliseconds(s) => TokenView::Milliseconds(s@),
            Token::StringLiteral(s) => TokenView::StringLiteral(s@),
            Token::Ident(s) => TokenView::Ident(s@),
            Token::Delta => TokenView::Delta,
            Token::Degree => TokenView::Degree,
            Token::HalfDim => TokenView::HalfDim,
        }
    }
}

/// The contents of an optional token.
pub open spec fn option_token_view(t: Option<Token>) -> Option<TokenView> {
    match t {
        Some(x) => Some(x@),
        None => None,
    }
}

/// A token with its source span.
#[derive(Debug, Clone)]
pub struct SpannedToken {
    /// The token type.
    pub token: Token,
    /// Start byte offset in source (inclusive).
    pub start: usize,
    /// End byte offset in source (exclusive).
    pub end: usize,
}

/// What a spanned token holds.
pub struct SpannedTokenView {
    /// The token's contents.
    pub token: TokenView,
    /// Start byte offset.
    pub start: usize,
    /// End byte offset.
    pub end: usize,
}

impl View for SpannedToken {
    type V = SpannedTokenView;

    open spec fn view(&self) -> SpannedTokenView {
        SpannedTokenView { token: self.token@, start: self.start, end: self.end }
    }
}

/// The contents of a sequence of spanned tokens.
pub open spec fn token_views(v: Seq<SpannedToken>) -> Seq<SpannedTokenView> {
    Seq::new(v.len(), |k: int| v[k]@)
}

// ── Character classes and runs ───────────────────────────────────────

/// An ASCII digit.
pub open spec fn is_digit(c: char) -> bool {
    '0' <= c && c <= '9'
}

/// A character that can start an identifier.
pub open spec fn is_ident_start(c: char) -> bool {
    ('A' <= c && c <= 'Z') || ('a' <= c && c <= 'z') || c == '_'
}

/// A character that can continue an identifier.
pub open spec fn is_ident_char(c: char) -> bool {
    is_ident_start(c) || is_digit(c)
}

/// Number of digits from position `i` on.
pub open spec fn digit_run(s: Seq<char>, i: int) -> nat
    decreases s.len() - i,
{
    if 0 <= i < s.len() && is_digit(s[i]) {
        1 + digit_run(s, i + 1)
    } else {
        0
    }
}

/// Number of identifier characters from position `i` on.
pub open spec fn ident_run(s: Seq<char>, i: int) -> nat
    decreases s.len() - i,
{
    if 0 <= i < s.len() && is_ident_char(s[i]) {
        1 + ident_run(s, i + 1)
    } else {
        0
    }
}

/// Number of characters from position `i` on before the next newline.
pub open spec fn line_run(s: Seq<char>, i: int) -> nat
    decreases s.len() - i,
{
    if 0 <= i < s.len() && s[i] != '\n' {
        1 + line_run(s, i + 1)
    } else {
        0
    }
}

/// The position of the first `"` from `i` on.
pub open spec fn next_quote(s: Seq<char>, i: int) -> Option<int>
    decreases s.len() - i,
{
    if i < 0 || i >= s.len() {
        None
    } else if s[i] == '"' {
        Some(i)
    } else {
        next_quote(s, i + 1)
    }
}

/// The value of a decimal digit.
pub open spec fn digit_value(c: char) -> nat {
    (c as u32 - '0' as u32) as nat
}

/// The value of a string of decimal digits.
pub open spec fn decimal_value(ds: Seq<char>) -> nat
    decreases ds.len(),
{
    if ds.len() == 0 {
        0
    } else {
        decimal_value(ds.drop_last()) * 10 + digit_value(ds.last())
    }
}

// ── Keywords and directives ──────────────────────────────────────────

/// The documented spelling of each keyword token; `None` for a token that is
/// not a keyword.
pub open spec fn keyword_spelling(t: TokenView) -> Option<Seq<char>> {
    match t {
        TokenView::KwMode => Some("mode"@),
        TokenView::KwPlay => Some("play"@),
        TokenView::KwSteps => Some("steps"@),
        TokenView::KwUnit => Some("unit"@),
        TokenView::KwVel => Some("vel"@),
        TokenView::KwGate => Some("gate"@),
        TokenView::KwOct => Some("oct"@),
        TokenView::KwCh => Some("ch"@),
        TokenView::KwProg => Some("prog"@),
        TokenView::KwVoice => Some("voice"@),
        TokenView::KwInv => Some("inv"@),
        TokenView::KwSeed => Some("seed"@),
        TokenView::KwFollow => Some("follow"@),
        TokenView::KwShift => Some("shift"@),
        TokenView::KwLshift => Some("lshift"@),
        TokenView::KwType => Some("type"@),
        TokenView::KwDrummap => Some("drummap"@),
        TokenView::KwSection => Some("section"@),
        TokenView::KwBar => Some("bar"@),
        TokenView::KwRoot => Some("root"@),
        TokenView::KwDur => Some("dur"@),
        TokenView::KwExpr => Some("expr"@),
        TokenView::KwDyn => Some("dyn"@),
        TokenView::KwSus => Some("sus"@),
        TokenView::KwPan => Some("pan"@),
        TokenView::KwVol => Some("vol"@),
        TokenView::KwPb => Some("pb"@),
        TokenView::KwAt => Some("at"@),
        TokenView::KwAuto => Some("auto"@),
        TokenView::KwEvery => Some("every"@),
        TokenView::KwCond => Some("cond"@),
        TokenView::KwOnce => Some("once"@),
        TokenView::KwPre => Some("pre"@),
        TokenView::KwRate => Some("rate"@),
        TokenView::KwEvolve => Some("evolve"@),
        TokenView::KwEuclidGate => Some("euclid_gate"@),
        TokenView::KwEcho => Some("echo"@),
        TokenView::KwVelCurve => Some("vel_curve"@),
        TokenView::KwGateCurve => Some("gate_curve"@),
        TokenView::KwSine => Some("sine"@),
        TokenView::KwTri => Some("tri"@),
        TokenView::KwRamp => Some("ramp"@),
        TokenView::KwSquare => Some("square"@),
        TokenView::KwRandom => Some("random"@),
        TokenView::KwArp => Some("arp"@),
        TokenView::KwUpDown => Some("updown"@),
        TokenView::KwScaleLock => Some("scale_lock"@),
        TokenView::KwDown => Some("down"@),
        TokenView::KwUp => Some("up"@),
        TokenView::KwFilter => Some("filter"@),
        TokenView::KwSwing => Some("swing"@),
        TokenView::KwSwingUnit => Some("swingunit"@),
        TokenView::KwRatch => Some("ratch"@),
        TokenView::KwRatchDecay => Some("ratch_decay"@),
        TokenView::KwTrue => Some("true"@),
        TokenView::KwFalse => Some("false"@),
        TokenView::KwDrums => Some("drums"@),
        TokenView::KwStart => Some("start"@),
        TokenView::KwProb => Some("prob"@),
        TokenView::KwGlide => Some("glide"@),
        TokenView::KwReverse => Some("reverse"@),
        TokenView::KwInvert => Some("invert"@),
        TokenView::KwRetrograde => Some("retrograde"@),
        TokenView::KwRotate => Some("rotate"@),
        TokenView::KwStretch => Some("stretch"@),
        TokenView::KwCompress => Some("compress"@),
        TokenView::KwTranspose => Some("transpose"@),
        TokenView::KwShiftOct => Some("shift_oct"@),
        TokenView::KwSubset => Some("subset"@),
        TokenView::KwInterleave => Some("interleave"@),
        TokenView::KwMirror => Some("mirror"@),
        TokenView::KwHumanize => Some("humanize"@),
        TokenView::KwVary => Some("vary"@),
        TokenView::KwRubato => Some("rubato"@),
        TokenView::KwRitardando => Some("ritardando"@),
        TokenView::KwAccelerando => Some("accelerando"@),
        TokenView::KwAgogic => Some("agogic"@),
        TokenView::KwBreathe => Some("breathe"@),
        TokenView::KwSwell => Some("swell"@),
        TokenView::KwPhrase => Some("phrase"@),
        TokenView::KwEaseIn => Some("ease_in"@),
        TokenView::KwEaseOut => Some("ease_out"@),
        TokenView::KwEaseInOut => Some("ease_in_out"@),
        TokenView::KwArch => Some("arch"@),
        TokenView::KwLinear => Some("linear"@),
        _ => None,
    }
}

/// Every keyword token comes only from its own spelling: a word read as a
/// keyword is exactly the text documented for that keyword, so no two words
/// give the same keyword and no word gives another word's keyword.
pub proof fn lemma_keyword_from_own_spelling(w: Seq<char>)
    ensures
        spec_keyword(w) matches Some(t) ==> keyword_spelling(t) == Some(w),
{
}

/// Every keyword's documented spelling is read as that keyword, so each
/// keyword can be written and none is lost.
pub proof fn lemma_keyword_spellings_read_back(t: TokenView)
    ensures
        keyword_spelling(t) matches Some(w) ==> spec_keyword(w) == Some(t),
{
    // Any two spellings differ in length or within their first four
    // characters: naming those characters tells every pair apart.
    reveal_strlit("mode");
    assert("mode"@.len() == 4 && "mode"@[0] == 'm' && "mode"@[1] == 'o' && "mode"@[2] == 'd' && "mode"@[3] == 'e');
    reveal_strlit("play");
    assert("play"@.len() == 4 && "play"@[0] == 'p' && "play"@[1] == 'l' && "play"@[2] == 'a' && "play"@[3] == 'y');
    reveal_strlit("steps");
    assert("steps"@.len() == 5 && "steps"@[0] == 's' && "steps"@[1] == 't' && "steps"@[2] == 'e' && "steps"@[3] == 'p');
    reveal_strlit("unit");
    assert("unit"@.len() == 4 && "unit"@[0] == 'u' && "unit"@[1] == 'n' && "unit"@[2] == 'i' && "unit"@[3] == 't');
    reveal_strlit("vel");
    assert("vel"@.len() == 3 && "vel"@[0] == 'v' && "vel"@[1] == 'e' && "vel"@[2] == 'l');
    reveal_strlit("gate");
    assert("gate"@.len() == 4 && "gate"@[0] == 'g' && "gate"@[1] == 'a' && "gate"@[2] == 't' && "gate"@[3] == 'e');
    reveal_strlit("oct");
    assert("oct"@.len() == 3 && "oct"@[0] == 'o' && "oct"@[1] == 'c' && "oct"@[2] == 't');
    reveal_strlit("ch");
    assert("ch"@.len() == 2 && "ch"@[0] == 'c' && "ch"@[1] == 'h');
    reveal_strlit("prog");
    assert("prog"@.len() == 4 && "prog"@[0] == 'p' && "prog"@[1] == 'r' && "prog"@[2] == 'o' && "prog"@[3] == 'g');
    reveal_strlit("voice");
    assert("voice"@.len() == 5 && "voice"@[0] == 'v' && "voice"@[1] == 'o' && "voice"@[2] == 'i' && "voice"@[3] == 'c');
    reveal_strlit("inv");
    assert("inv"@.len() == 3 && "inv"@[0] == 'i' && "inv"@[1] == 'n' && "inv"@[2] == 'v');
    reveal_strlit("seed");
    assert("seed"@.len() == 4 && "seed"@[0] == 's' && "seed"@[1] == 'e' && "seed"@[2] == 'e' && "seed"@[3] == 'd');
    reveal_strlit("follow");
    assert("follow"@.len() == 6 && "follow"@[0] == 'f' && "follow"@[1] == 'o' && "follow"@[2] == 'l' && "follow"@[3] == 'l');
    reveal_strlit("shift");
    assert("shift"@.len() == 5 && "shift"@[0] == 's' && "shift"@[1] == 'h' && "shift"@[2] == 'i' && "shift"@[3] == 'f');
    reveal_strlit("lshift");
    assert("lshift"@.len() == 6 && "lshift"@[0] == 'l' && "lshift"@[1] == 's' && "lshift"@[2] == 'h' && "lshift"@[3] == 'i');
    reveal_strlit("type");
    assert("type"@.len() == 4 && "type"@[0] == 't' && "type"@[1] == 'y' && "type"@[2] == 'p' && "type"@[3] == 'e');
    reveal_strlit("drummap");
    assert("drummap"@.len() == 7 && "drummap"@[0] == 'd' && "drummap"@[1] == 'r' && "drummap"@[2] == 'u' && "drummap"@[3] == 'm');
    reveal_strlit("section");
    assert("section"@.len() == 7 && "section"@[0] == 's' && "section"@[1] == 'e' && "section"@[2] == 'c' && "section"@[3] == 't');
    reveal_strlit("bar");
    assert("bar"@.len() == 3 && "bar"@[0] == 'b' && "bar"@[1] == 'a' && "bar"@[2] == 'r');
    reveal_strlit("root");
    assert("root"@.len() == 4 && "root"@[0] == 'r' && "root"@[1] == 'o' && "root"@[2] == 'o' && "root"@[3] == 't');
    reveal_strlit("dur");
    assert("dur"@.len() == 3 && "dur"@[0] == 'd' && "dur"@[1] == 'u' && "dur"@[2] == 'r');
    reveal_strlit("expr");
    assert("expr"@.len() == 4 && "expr"@[0] == 'e' && "expr"@[1] == 'x' && "expr"@[2] == 'p' && "expr"@[3] == 'r');
    reveal_strlit("dyn");
    assert("dyn"@.len() == 3 && "dyn"@[0] == 'd' && "dyn"@[1] == 'y' && "dyn"@[2] == 'n');
    reveal_strlit("sus");
    assert("sus"@.len() == 3 && "sus"@[0] == 's' && "sus"@[1] == 'u' && "sus"@[2] == 's');
    reveal_strlit("pan");
    assert("pan"@.len() == 3 && "pan"@[0] == 'p' && "pan"@[1] == 'a' && "pan"@[2] == 'n');
    reveal_strlit("vol");
    assert("vol"@.len() == 3 && "vol"@[0] == 'v' && "vol"@[1] == 'o' && "vol"@[2] == 'l');
    reveal_strlit("pb");
    assert("pb"@.len() == 2 && "pb"@[0] == 'p' && "pb"@[1] == 'b');
    reveal_strlit("at");
    assert("at"@.len() == 2 && "at"@[0] == 'a' && "at"@[1] == 't');
    reveal_strlit("auto");
    assert("auto"@.len() == 4 && "auto"@[0] == 'a' && "auto"@[1] == 'u' && "auto"@[2] == 't' && "auto"@[3] == 'o');
    reveal_strlit("every");
    assert("every"@.len() == 5 && "every"@[0] == 'e' && "every"@[1] == 'v' && "every"@[2] == 'e' && "every"@[3] == 'r');
    reveal_strlit("cond");
    assert("cond"@.len() == 4 && "cond"@[0] == 'c' && "cond"@[1] == 'o' && "cond"@[2] == 'n' && "cond"@[3] == 'd');
    reveal_strlit("once");
    assert("once"@.len() == 4 && "once"@[0] == 'o' && "once"@[1] == 'n' && "once"@[2] == 'c' && "once"@[3] == 'e');
    reveal_strlit("pre");
    assert("pre"@.len() == 3 && "pre"@[0] == 'p' && "pre"@[1] == 'r' && "pre"@[2] == 'e');
    reveal_strlit("rate");
    assert("rate"@.len() == 4 && "rate"@[0] == 'r' && "rate"@[1] == 'a' && "rate"@[2] == 't' && "rate"@[3] == 'e');
    reveal_strlit("evolve");
    assert("evolve"@.len() == 6 && "evolve"@[0] == 'e' && "evolve"@[1] == 'v' && "evolve"@[2] == 'o' && "evolve"@[3] == 'l');
    reveal_strlit("euclid_gate");
    assert("euclid_gate"@.len() == 11 && "euclid_gate"@[0] == 'e' && "euclid_gate"@[1] == 'u' && "euclid_gate"@[2] == 'c' && "euclid_gate"@[3] == 'l');
    reveal_strlit("echo");
    assert("echo"@.len() == 4 && "echo"@[0] == 'e' && "echo"@[1] == 'c' && "echo"@[2] == 'h' && "echo"@[3] == 'o');
    reveal_strlit("vel_curve");
    assert("vel_curve"@.len() == 9 && "vel_curve"@[0] == 'v' && "vel_curve"@[1] == 'e' && "vel_curve"@[2] == 'l' && "vel_curve"@[3] == '_');
    reveal_strlit("gate_curve");
    assert("gate_curve"@.len() == 10 && "gate_curve"@[0] == 'g' && "gate_curve"@[1] == 'a' && "gate_curve"@[2] == 't' && "gate_curve"@[3] == 'e');
    reveal_strlit("sine");
    assert("sine"@.len() == 4 && "sine"@[0] == 's' && "sine"@[1] == 'i' && "sine"@[2] == 'n' && "sine"@[3] == 'e');
    reveal_strlit("tri");
    assert("tri"@.len() == 3 && "tri"@[0] == 't' && "tri"@[1] == 'r' && "tri"@[2] == 'i');
    reveal_strlit("ramp");
    assert("ramp"@.len() == 4 && "ramp"@[0] == 'r' && "ramp"@[1] == 'a' && "ramp"@[2] == 'm' && "ramp"@[3] == 'p');
    reveal_strlit("square");
    assert("square"@.len() == 6 && "square"@[0] == 's' && "square"@[1] == 'q' && "square"@[2] == 'u' && "square"@[3] == 'a');
    reveal_strlit("random");
    assert("random"@.len() == 6 && "random"@[0] == 'r' && "random"@[1] == 'a' && "random"@[2] == 'n' && "random"@[3] == 'd');
    reveal_strlit("arp");
    assert("arp"@.len() == 3 && "arp"@[0] == 'a' && "arp"@[1] == 'r' && "arp"@[2] == 'p');
    reveal_strlit("updown");
    assert("updown"@.len() == 6 && "updown"@[0] == 'u' && "updown"@[1] == 'p' && "updown"@[2] == 'd' && "updown"@[3] == 'o');
    reveal_strlit("scale_lock");
    assert("scale_lock"@.len() == 10 && "scale_lock"@[0] == 's' && "scale_lock"@[1] == 'c' && "scale_lock"@[2] == 'a' && "scale_lock"@[3] == 'l');
    reveal_strlit("down");
    assert("down"@.len() == 4 && "down"@[0] == 'd' && "down"@[1] == 'o' && "down"@[2] == 'w' && "down"@[3] == 'n');
    reveal_strlit("up");
    assert("up"@.len() == 2 && "up"@[0] == 'u' && "up"@[1] == 'p');
    reveal_strlit("filter");
    assert("filter"@.len() == 6 && "filter"@[0] == 'f' && "filter"@[1] == 'i' && "filter"@[2] == 'l' && "filter"@[3] == 't');
    reveal_strlit("swing");
    assert("swing"@.len() == 5 && "swing"@[0] == 's' && "swing"@[1] == 'w' && "swing"@[2] == 'i' && "swing"@[3] == 'n');
    reveal_strlit("swingunit");
    assert("swingunit"@.len() == 9 && "swingunit"@[0] == 's' && "swingunit"@[1] == 'w' && "swingunit"@[2] == 'i' && "swingunit"@[3] == 'n');
    reveal_strlit("ratch");
    assert("ratch"@.len() == 5 && "ratch"@[0] == 'r' && "ratch"@[1] == 'a' && "ratch"@[2] == 't' && "ratch"@[3] == 'c');
    reveal_strlit("ratch_decay");
    assert("ratch_decay"@.len() == 11 && "ratch_decay"@[0] == 'r' && "ratch_decay"@[1] == 'a' && "ratch_decay"@[2] == 't' && "ratch_decay"@[3] == 'c');
    reveal_strlit("true");
    assert("true"@.len() == 4 && "true"@[0] == 't' && "true"@[1] == 'r' && "true"@[2] == 'u' && "true"@[3] == 'e');
    reveal_strlit("false");
    assert("false"@.len() == 5 && "false"@[0] == 'f' && "false"@[1] == 'a' && "false"@[2] == 'l' && "false"@[3] == 's');
    reveal_strlit("drums");
    assert("drums"@.len() == 5 && "drums"@[0] == 'd' && "drums"@[1] == 'r' && "drums"@[2] == 'u' && "drums"@[3] == 'm');
    reveal_strlit("start");
    assert("start"@.len() == 5 && "start"@[0] == 's' && "start"@[1] == 't' && "start"@[2] == 'a' && "start"@[3] == 'r');
    reveal_strlit("prob");
    assert("prob"@.len() == 4 && "prob"@[0] == 'p' && "prob"@[1] == 'r' && "prob"@[2] == 'o' && "prob"@[3] == 'b');
    reveal_strlit("glide");
    assert("glide"@.len() == 5 && "glide"@[0] == 'g' && "glide"@[1] == 'l' && "glide"@[2] == 'i' && "glide"@[3] == 'd');
    reveal_strlit("reverse");
    assert("reverse"@.len() == 7 && "reverse"@[0] == 'r' && "reverse"@[1] == 'e' && "reverse"@[2] == 'v' && "reverse"@[3] == 'e');
    reveal_strlit("invert");
    assert("invert"@.len() == 6 && "invert"@[0] == 'i' && "invert"@[1] == 'n' && "invert"@[2] == 'v' && "invert"@[3] == 'e');
    reveal_strlit("retrograde");
    assert("retrograde"@.len() == 10 && "retrograde"@[0] == 'r' && "retrograde"@[1] == 'e' && "retrograde"@[2] == 't' && "retrograde"@[3] == 'r');
    reveal_strlit("rotate");
    assert("rotate"@.len() == 6 && "rotate"@[0] == 'r' && "rotate"@[1] == 'o' && "rotate"@[2] == 't' && "rotate"@[3] == 'a');
    reveal_strlit("stretch");
    assert("stretch"@.len() == 7 && "stretch"@[0] == 's' && "stretch"@[1] == 't' && "stretch"@[2] == 'r' && "stretch"@[3] == 'e');
    reveal_strlit("compress");
    assert("compress"@.len() == 8 && "compress"@[0] == 'c' && "compress"@[1] == 'o' && "compress"@[2] == 'm' && "compress"@[3] == 'p');
    reveal_strlit("transpose");
    assert("transpose"@.len() == 9 && "transpose"@[0] == 't' && "transpose"@[1] == 'r' && "transpose"@[2] == 'a' && "transpose"@[3] == 'n');
    reveal_strlit("shift_oct");
    assert("shift_oct"@.len() == 9 && "shift_oct"@[0] == 's' && "shift_oct"@[1] == 'h' && "shift_oct"@[2] == 'i' && "shift_oct"@[3] == 'f');
    reveal_strlit("subset");
    assert("subset"@.len() == 6 && "subset"@[0] == 's' && "subset"@[1] == 'u' && "subset"@[2] == 'b' && "subset"@[3] == 's');
    reveal_strlit("interleave");
    assert("interleave"@.len() == 10 && "interleave"@[0] == 'i' && "interleave"@[1] == 'n' && "interleave"@[2] == 't' && "interleave"@[3] == 'e');
    reveal_strlit("mirror");
    assert("mirror"@.len() == 6 && "mirror"@[0] == 'm' && "mirror"@[1] == 'i' && "mirror"@[2] == 'r' && "mirror"@[3] == 'r');
    reveal_strlit("humanize");
    assert("humanize"@.len() == 8 && "humanize"@[0] == 'h' && "humanize"@[1] == 'u' && "humanize"@[2] == 'm' && "humanize"@[3] == 'a');
    reveal_strlit("vary");
    assert("vary"@.len() == 4 && "vary"@[0] == 'v' && "vary"@[1] == 'a' && "vary"@[2] == 'r' && "vary"@[3] == 'y');
    reveal_strlit("rubato");
    assert("rubato"@.len() == 6 && "rubato"@[0] == 'r' && "rubato"@[1] == 'u' && "rubato"@[2] == 'b' && "rubato"@[3] == 'a');
    reveal_strlit("ritardando");
    assert("ritardando"@.len() == 10 && "ritardando"@[0] == 'r' && "ritardando"@[1] == 'i' && "ritardando"@[2] == 't' && "ritardando"@[3] == 'a');
    reveal_strlit("accelerando");
    assert("accelerando"@.len() == 11 && "accelerando"@[0] == 'a' && "accelerando"@[1] == 'c' && "accelerando"@[2] == 'c' && "accelerando"@[3] == 'e');
    reveal_strlit("agogic");
    assert("agogic"@.len() == 6 && "agogic"@[0] == 'a' && "agogic"@[1] == 'g' && "agogic"@[2] == 'o' && "agogic"@[3] == 'g');
    reveal_strlit("breathe");
    assert("breathe"@.len() == 7 && "breathe"@[0] == 'b' && "breathe"@[1] == 'r' && "breathe"@[2] == 'e' && "breathe"@[3] == 'a');
    reveal_strlit("swell");
    assert("swell"@.len() == 5 && "swell"@[0] == 's' && "swell"@[1] == 'w' && "swell"@[2] == 'e' && "swell"@[3] == 'l');
    reveal_strlit("phrase");
    assert("phrase"@.len() == 6 && "phrase"@[0] == 'p' && "phrase"@[1] == 'h' && "phrase"@[2] == 'r' && "phrase"@[3] == 'a');
    reveal_strlit("ease_in");
    assert("ease_in"@.len() == 7 && "ease_in"@[0] == 'e' && "ease_in"@[1] == 'a' && "ease_in"@[2] == 's' && "ease_in"@[3] == 'e');
    reveal_strlit("ease_out");
    assert("ease_out"@.len() == 8 && "ease_out"@[0] == 'e' && "ease_out"@[1] == 'a' && "ease_out"@[2] == 's' && "ease_out"@[3] == 'e');
    reveal_strlit("ease_in_out");
    assert("ease_in_out"@.len() == 11 && "ease_in_out"@[0] == 'e' && "ease_in_out"@[1] == 'a' && "ease_in_out"@[2] == 's' && "ease_in_out"@[3] == 'e');
    reveal_strlit("arch");
    assert("arch"@.len() == 4 && "arch"@[0] == 'a' && "arch"@[1] == 'r' && "arch"@[2] == 'c' && "arch"@[3] == 'h');
    reveal_strlit("linear");
    assert("linear"@.len() == 6 && "linear"@[0] == 'l' && "linear"@[1] == 'i' && "linear"@[2] == 'n' && "linear"@[3] == 'e');
}

/// The keyword token spelled `w`, if `w` is a keyword.
pub open spec fn spec_keyword(w: Seq<char>) -> Option<TokenView> {
    if w == "mode"@ {
        Some(TokenView::KwMode)
    } else if w == "play"@ {
        Some(TokenView::KwPlay)
    } else if w == "steps"@ {
        Some(TokenView::KwSteps)
    } else if w == "unit"@ {
        Some(TokenView::KwUnit)
    } else if w == "vel"@ {
        Some(TokenView::KwVel)
    } else if w == "gate"@ {
        Some(TokenView::KwGate)
    } else if w == "oct"@ {
        Some(TokenView::KwOct)
    } else if w == "ch"@ {
        Some(TokenView::KwCh)
    } else if w == "prog"@ {
        Some(TokenView::KwProg)
    } else if w == "voice"@ {
        Some(TokenView::KwVoice)
    } else if w == "inv"@ {
        Some(TokenView::KwInv)
    } else if w == "seed"@ {
        Some(TokenView::KwSeed)
    } else if w == "follow"@ {
        Some(TokenView::KwFollow)
    } else if w == "shift"@ {
        Some(TokenView::KwShift)
    } else if w == "lshift"@ {
        Some(TokenView::KwLshift)
    } else if w == "type"@ {
        Some(TokenView::KwType)
    } else if w == "drummap"@ {
        Some(TokenView::KwDrummap)
    } else if w == "section"@ {
        Some(TokenView::KwSection)
    } else if w == "bar"@ {
        Some(TokenView::KwBar)
    } else if w == "root"@ {
        Some(TokenView::KwRoot)
    } else if w == "dur"@ {
        Some(TokenView::KwDur)
    } else if w == "expr"@ {
        Some(TokenView::KwExpr)
    } else if w == "dyn"@ {
        Some(TokenView::KwDyn)
    } else if w == "sus"@ {
        Some(TokenView::KwSus)
    } else if w == "pan"@ {
        Some(TokenView::KwPan)
    } else if w == "vol"@ {
        Some(TokenView::KwVol)
    } else if w == "pb"@ {
        Some(TokenView::KwPb)
    } else if w == "at"@ {
        Some(TokenView::KwAt)
    } else if w == "auto"@ {
        Some(TokenView::KwAuto)
    } else if w == "every"@ {
        Some(TokenView::KwEvery)
    } else if w == "cond"@ {
        Some(TokenView::KwCond)
    } else if w == "once"@ {
        Some(TokenView::KwOnce)
    } else if w == "pre"@ {
        Some(TokenView::KwPre)
    } else if w == "rate"@ {
        Some(TokenView::KwRate)
    } else if w == "evolve"@ {
        Some(TokenView::KwEvolve)
    } else if w == "euclid_gate"@ {
        Some(TokenView::KwEuclidGate)
    } else if w == "echo"@ {
        Some(TokenView::KwEcho)
    } else if w == "vel_curve"@ {
        Some(TokenView::KwVelCurve)
    } else if w == "gate_curve"@ {
        Some(TokenView::KwGateCurve)
    } else if w == "sine"@ {
        Some(TokenView::KwSine)
    } else if w == "tri"@ {
        Some(TokenView::KwTri)
    } else if w == "ramp"@ {
        Some(TokenView::KwRamp)
    } else if w == "square"@ {
        Some(TokenView::KwSquare)
    } else if w == "random"@ {
        Some(TokenView::KwRandom)
    } else if w == "arp"@ {
        Some(TokenView::KwArp)
    } else if w == "updown"@ {
        Some(TokenView::KwUpDown)
    } else if w == "scale_lock"@ {
        Some(TokenView::KwScaleLock)
    } else if w == "down"@ {
        Some(TokenView::KwDown)
    } else if w == "up"@ {
        Some(TokenView::KwUp)
    } else if w == "filter"@ {
        Some(TokenView::KwFilter)
    } else if w == "swing"@ {
        Some(TokenView::KwSwing)
    } else if w == "swingunit"@ {
        Some(TokenView::KwSwingUnit)
    } else if w == "ratch"@ {
        Some(TokenView::KwRatch)
    } else if w == "ratch_decay"@ {
        Some(TokenView::KwRatchDecay)
    } else if w == "true"@ {
        Some(TokenView::KwTrue)
    } else if w == "false"@ {
        Some(TokenView::KwFalse)
    } else if w == "drums"@ {
        Some(TokenView::KwDrums)
    } else if w == "start"@ {
        Some(TokenView::KwStart)
    } else if w == "prob"@ {
        Some(TokenView::KwProb)
    } else if w == "glide"@ {
        Some(TokenView::KwGlide)
    } else if w == "reverse"@ {
        Some(TokenView::KwReverse)
    } else if w == "invert"@ {
        Some(TokenView::KwInvert)
    } else if w == "retrograde"@ {
        Some(TokenView::KwRetrograde)
    } else if w == "rotate"@ {
        Some(TokenView::KwRotate)
    } else if w == "stretch"@ {
        Some(TokenView::KwStretch)
    } else if w == "compress"@ {
        Some(TokenView::KwCompress)
    } else if w == "transpose"@ {
        Some(TokenView::KwTranspose)
    } else if w == "shift_oct"@ {
        Some(TokenView::KwShiftOct)
    } else if w == "subset"@ {
        Some(TokenView::KwSubset)
    } else if w == "interleave"@ {
        Some(TokenView::KwInterleave)
    } else if w == "mirror"@ {
        Some(TokenView::KwMirror)
    } else if w == "humanize"@ {
        Some(TokenView::KwHumanize)
    } else if w == "vary"@ {
        Some(TokenView::KwVary)
    } else if w == "rubato"@ {
        Some(TokenView::KwRubato)
    } else if w == "ritardando"@ {
        Some(TokenView::KwRitardando)
    } else if w == "accelerando"@ {
        Some(TokenView::KwAccelerando)
    } else if w == "agogic"@ {
        Some(TokenView::KwAgogic)
    } else if w == "breathe"@ {
        Some(TokenView::KwBreathe)
    } else if w == "swell"@ {
        Some(TokenView::KwSwell)
    } else if w == "phrase"@ {
        Some(TokenView::KwPhrase)
    } else if w == "ease_in"@ {
        Some(TokenView::KwEaseIn)
    } else if w == "ease_out"@ {
        Some(TokenView::KwEaseOut)
    } else if w == "ease_in_out"@ {
        Some(TokenView::KwEaseInOut)
    } else if w == "arch"@ {
        Some(TokenView::KwArch)
    } else if w == "linear"@ {
        Some(TokenView::KwLinear)
    } else {
        None
    }
}

/// The header or block directive that `rest` starts with, and its length.
pub open spec fn spec_directive(rest: Seq<char>) -> Option<(TokenView, nat)> {
    if is_prefix(rest, "@ppq"@) {
        Some((TokenView::AtPpq, "@ppq"@.len()))
    } else if is_prefix(rest, "@bpm"@) {
        Some((TokenView::AtBpm, "@bpm"@.len()))
    } else if is_prefix(rest, "@ts"@) {
        Some((TokenView::AtTs, "@ts"@.len()))
    } else if is_prefix(rest, "@title"@) {
        Some((TokenView::AtTitle, "@title"@.len()))
    } else if is_prefix(rest, "@seed"@) {
        Some((TokenView::AtSeed, "@seed"@.len()))
    } else if is_prefix(rest, "@bars"@) {
        Some((TokenView::AtBars, "@bars"@.len()))
    } else if is_prefix(rest, "@scale"@) {
        Some((TokenView::AtScale, "@scale"@.len()))
    } else if is_prefix(rest, "@harmony"@) {
        Some((TokenView::AtHarmony, "@harmony"@.len()))
    } else if is_prefix(rest, "@pattern"@) {
        Some((TokenView::AtPattern, "@pattern"@.len()))
    } else if is_prefix(rest, "@track"@) {
        Some((TokenView::AtTrack, "@track"@.len()))
    } else if is_prefix(rest, "@drummap"@) {
        Some((TokenView::AtDrummap, "@drummap"@.len()))
    } else if is_prefix(rest, "@tempo"@) {
        Some((TokenView::AtTempo, "@tempo"@.len()))
    } else {
        None
    }
}

/// The token of a one-character operator, bracket or symbol.
pub open spec fn single_char_token(c: char) -> Option<TokenView> {
    if c == '^' {
        Some(TokenView::Caret)
    } else if c == '.' {
        Some(TokenView::Dot)
    } else if c == '+' {
        Some(TokenView::Plus)
    } else if c == '$' {
        Some(TokenView::Dollar)
    } else if c == '%' {
        Some(TokenView::PercentSign)
    } else if c == '(' {
        Some(TokenView::LParen)
    } else if c == ')' {
        Some(TokenView::RParen)
    } else if c == '[' {
        Some(TokenView::LBracket)
    } else if c == ']' {
        Some(TokenView::RBracket)
    } else if c == '{' {
        Some(TokenView::LBrace)
    } else if c == '}' {
        Some(TokenView::RBrace)
    } else if c == '|' {
        Some(TokenView::Pipe)
    } else if c == '=' {
        Some(TokenView::Equals)
    } else if c == ':' {
        Some(TokenView::Colon)
    } else if c == ',' {
        Some(TokenView::Comma)
    } else if c == '#' {
        Some(TokenView::Sharp)
    } else if c == 'Δ' {
        Some(TokenView::Delta)
    } else if c == '°' {
        Some(TokenView::Degree)
    } else if c == 'ø' {
        Some(TokenView::HalfDim)
    } else {
        None
    }
}

fn single_char(c: char) -> (r: Option<Token>)
    ensures
        option_token_view(r) == single_char_token(c),
{
    if c == '^' {
        Some(Token::Caret)
    } else if c == '.' {
        Some(Token::Dot)
    } else if c == '+' {
        Some(Token::Plus)
    } else if c == '$' {
        Some(Token::Dollar)
    } else if c == '%' {
        Some(Token::PercentSign)
    } else if c == '(' {
        Some(Token::LParen)
    } else if c == ')' {
        Some(Token::RParen)
    } else if c == '[' {
        Some(Token::LBracket)
    } else if c == ']' {
        Some(Token::RBracket)
    } else if c == '{' {
        Some(Token::LBrace)
    } else if c == '}' {
        Some(Token::RBrace)
    } else if c == '|' {
        Some(Token::Pipe)
    } else if c == '=' {
        Some(Token::Equals)
    } else if c == ':' {
        Some(Token::Colon)
    } else if c == ',' {
        Some(Token::Comma)
    } else if c == '#' {
        Some(Token::Sharp)
    } else if c == 'Δ' {
        Some(Token::Delta)
    } else if c == '°' {
        Some(Token::Degree)
    } else if c == 'ø' {
        Some(Token::HalfDim)
    } else {
        None
    }
}

/// The keyword token spelled by the `n` characters of `s` at `i`, if they spell one.
fn keyword(s: &[char], i: usize, n: usize) -> (r: Option<Token>)
    requires
        i + n <= s@.len(),
    ensures
        option_token_view(r) == spec_keyword(s@.subrange(i as int, (i + n) as int)),
{
    if word_is(s, i, n, "mode") {
        Some(Token::KwMode)
    } else if word_is(s, i, n, "play") {
        Some(Token::KwPlay)
    } else if word_is(s, i, n, "steps") {
        Some(Token::KwSteps)
    } else if word_is(s, i, n, "unit") {
        Some(Token::KwUnit)
    } else if word_is(s, i, n, "vel") {
        Some(Token::KwVel)
    } else if word_is(s, i, n, "gate") {
        Some(Token::KwGate)
    } else if word_is(s, i, n, "oct") {
        Some(Token::KwOct)
    } else if word_is(s, i, n, "ch") {
        Some(Token::KwCh)
    } else if word_is(s, i, n, "prog") {
        Some(Token::KwProg)
    } else if word_is(s, i, n, "voice") {
        Some(Token::KwVoice)
    } else if word_is(s, i, n, "inv") {
        Some(Token::KwInv)
    } else if word_is(s, i, n, "seed") {
        Some(Token::KwSeed)
    } else if word_is(s, i, n, "follow") {
        Some(Token::KwFollow)
    } else if word_is(s, i, n, "shift") {
        Some(Token::KwShift)
    } else if word_is(s, i, n, "lshift") {
        Some(Token::KwLshift)
    } else if word_is(s, i, n, "type") {
        Some(Token::KwType)
    } else if word_is(s, i, n, "drummap") {
        Some(Token::KwDrummap)
    } else if word_is(s, i, n, "section") {
        Some(Token::KwSection)
    } else if word_is(s, i, n, "bar") {
        Some(Token::KwBar)
    } else if word_is(s, i, n, "root") {
        Some(Token::KwRoot)
    } else if word_is(s, i, n, "dur") {
        Some(Token::KwDur)
    } else if word_is(s, i, n, "expr") {
        Some(Token::KwExpr)
    } else if word_is(s, i, n, "dyn") {
        Some(Token::KwDyn)
    } else if word_is(s, i, n, "sus") {
        Some(Token::KwSus)
    } else if word_is(s, i, n, "pan") {
        Some(Token::KwPan)
    } else if word_is(s, i, n, "vol") {
        Some(Token::KwVol)
    } else if word_is(s, i, n, "pb") {
        Some(Token::KwPb)
    } else if word_is(s, i, n, "at") {
        Some(Token::KwAt)
    } else if word_is(s, i, n, "auto") {
        Some(Token::KwAuto)
    } else if word_is(s, i, n, "every") {
        Some(Token::KwEvery)
    } else if word_is(s, i, n, "cond") {
        Some(Token::KwCond)
    } else if word_is(s, i, n, "once") {
        Some(Token::KwOnce)
    } else if word_is(s, i, n, "pre") {
        Some(Token::KwPre)
    } else if word_is(s, i, n, "rate") {
        Some(Token::KwRate)
    } else if word_is(s, i, n, "evolve") {
        Some(Token::KwEvolve)
    } else if word_is(s, i, n, "euclid_gate") {
        Some(Token::KwEuclidGate)
    } else if word_is(s, i, n, "echo") {
        Some(Token::KwEcho)
    } else if word_is(s, i, n, "vel_curve") {
        Some(Token::KwVelCurve)
    } else if word_is(s, i, n, "gate_curve") {
        Some(Token::KwGateCurve)
    } else if word_is(s, i, n, "sine") {
        Some(Token::KwSine)
    } else if word_is(s, i, n, "tri") {
        Some(Token::KwTri)
    } else if word_is(s, i, n, "ramp") {
        Some(Token::KwRamp)
    } else if word_is(s, i, n, "square") {
        Some(Token::KwSquare)
    } else if word_is(s, i, n, "random") {
        Some(Token::KwRandom)
    } else if word_is(s, i, n, "arp") {
        Some(Token::KwArp)
    } else if word_is(s, i, n, "updown") {
        Some(Token::KwUpDown)
    } else if word_is(s, i, n, "scale_lock") {
        Some(Token::KwScaleLock)
    } else if word_is(s, i, n, "down") {
        Some(Token::KwDown)
    } else if word_is(s, i, n, "up") {
        Some(Token::KwUp)
    } else if word_is(s, i, n, "filter") {
        Some(Token::KwFilter)
    } else if word_is(s, i, n, "swing") {
        Some(Token::KwSwing)
    } else if word_is(s, i, n, "swingunit") {
        Some(Token::KwSwingUnit)
    } else if word_is(s, i, n, "ratch") {
        Some(Token::KwRatch)
    } else if word_is(s, i, n, "ratch_decay") {
        Some(Token::KwRatchDecay)
    } else if word_is(s, i, n, "true") {
        Some(Token::KwTrue)
    } else if word_is(s, i, n, "false") {
        Some(Token::KwFalse)
    } else if word_is(s, i, n, "drums") {
        Some(Token::KwDrums)
    } else if word_is(s, i, n, "start") {
        Some(Token::KwStart)
    } else if word_is(s, i, n, "prob") {
        Some(Token::KwProb)
    } else if word_is(s, i, n, "glide") {
        Some(Token::KwGlide)
    } else if word_is(s, i, n, "reverse") {
        Some(Token::KwReverse)
    } else if word_is(s, i, n, "invert") {
        Some(Token::KwInvert)
    } else if word_is(s, i, n, "retrograde") {
        Some(Token::KwRetrograde)
    } else if word_is(s, i, n, "rotate") {
        Some(Token::KwRotate)
    } else if word_is(s, i, n, "stretch") {
        Some(Token::KwStretch)
    } else if word_is(s, i, n, "compress") {
        Some(Token::KwCompress)
    } else if word_is(s, i, n, "transpose") {
        Some(Token::KwTranspose)
    } else if word_is(s, i, n, "shift_oct") {
        Some(Token::KwShiftOct)
    } else if word_is(s, i, n, "subset") {
        Some(Token::KwSubset)
    } else if word_is(s, i, n, "interleave") {
        Some(Token::KwInterleave)
    } else if word_is(s, i, n, "mirror") {
        Some(Token::KwMirror)
    } else if word_is(s, i, n, "humanize") {
        Some(Token::KwHumanize)
    } else if word_is(s, i, n, "vary") {
        Some(Token::KwVary)
    } else if word_is(s, i, n, "rubato") {
        Some(Token::KwRubato)
    } else if word_is(s, i, n, "ritardando") {
        Some(Token::KwRitardando)
    } else if word_is(s, i, n, "accelerando") {
        Some(Token::KwAccelerando)
    } else if word_is(s, i, n, "agogic") {
        Some(Token::KwAgogic)
    } else if word_is(s, i, n, "breathe") {
        Some(Token::KwBreathe)
    } else if word_is(s, i, n, "swell") {
        Some(Token::KwSwell)
    } else if word_is(s, i, n, "phrase") {
        Some(Token::KwPhrase)
    } else if word_is(s, i, n, "ease_in") {
        Some(Token::KwEaseIn)
    } else if word_is(s, i, n, "ease_out") {
        Some(Token::KwEaseOut)
    } else if word_is(s, i, n, "ease_in_out") {
        Some(Token::KwEaseInOut)
    } else if word_is(s, i, n, "arch") {
        Some(Token::KwArch)
    } else if word_is(s, i, n, "linear") {
        Some(Token::KwLinear)
    } else {
        None
    }
}

/// The directive starting at `pos`, and its length.
fn directive_at(s: &[char], pos: usize) -> (r: Option<(Token, usize)>)
    requires
        pos <= s@.len(),
    ensures
        match (r, spec_directive(s@.skip(pos as int))) {
            (Some((t, n)), Some((v, m))) => t@ == v && n == m,
            (None, None) => true,
            _ => false,
        },
{
    if chars_match_str_at(s, pos, "@ppq") {
        Some((Token::AtPpq, "@ppq".unicode_len()))
    } else if chars_match_str_at(s, pos, "@bpm") {
        Some((Token::AtBpm, "@bpm".unicode_len()))
    } else if chars_match_str_at(s, pos, "@ts") {
        Some((Token::AtTs, "@ts".unicode_len()))
    } else if chars_match_str_at(s, pos, "@title") {
        Some((Token::AtTitle, "@title".unicode_len()))
    } else if chars_match_str_at(s, pos, "@seed") {
        Some((Token::AtSeed, "@seed".unicode_len()))
    } else if chars_match_str_at(s, pos, "@bars") {
        Some((Token::AtBars, "@bars".unicode_len()))
    } else if chars_match_str_at(s, pos, "@scale") {
        Some((Token::AtScale, "@scale".unicode_len()))
    } else if chars_match_str_at(s, pos, "@harmony") {
        Some((Token::AtHarmony, "@harmony".unicode_len()))
    } else if chars_match_str_at(s, pos, "@pattern") {
        Some((Token::AtPattern, "@pattern".unicode_len()))
    } else if chars_match_str_at(s, pos, "@track") {
        Some((Token::AtTrack, "@track".unicode_len()))
    } else if chars_match_str_at(s, pos, "@drummap") {
        Some((Token::AtDrummap, "@drummap".unicode_len()))
    } else if chars_match_str_at(s, pos, "@tempo") {
        Some((Token::AtTempo, "@tempo".unicode_len()))
    } else {
        None
    }
}

/// The directives are three to eight characters long.
pub proof fn lemma_directive_lengths(rest: Seq<char>)
    ensures
        spec_directive(rest) matches Some((_, n)) ==> 3 <= n <= 8 && n <= rest.len(),
{
    reveal_strlit("@ppq");
    reveal_strlit("@bpm");
    reveal_strlit("@ts");
    reveal_strlit("@title");
    reveal_strlit("@seed");
    reveal_strlit("@bars");
    reveal_strlit("@scale");
    reveal_strlit("@harmony");
    reveal_strlit("@pattern");
    reveal_strlit("@track");
    reveal_strlit("@drummap");
    reveal_strlit("@tempo");
}

// ── Lexemes ──────────────────────────────────────────────────────────

/// What the lexer reads at a position: blank space, a token, or text that
/// is no token.
pub enum LexemeView {
    /// A space or tab, dropped.
    Blank,
    /// A token.
    Tok(TokenView),
    /// Text that is no token, reported as an error.
    Bad,
}

/// A word (identifier characters from position `i`): `cc` and digits name a
/// controller (an error when the number exceeds 255), a keyword is its
/// token, anything else an identifier.
pub open spec fn lex_word(s: Seq<char>, i: int) -> (LexemeView, nat) {
    let n = ident_run(s, i);
    let w = s.subrange(i, i + n);
    if n >= 3 && w[0] == 'c' && w[1] == 'c' && digit_run(s, i + 2) == n - 2 {
        let v = decimal_value(w.subrange(2, n as int));
        if v <= 255 {
            (LexemeView::Tok(TokenView::KwCc(v as u8)), n)
        } else {
            (LexemeView::Bad, n)
        }
    } else {
        match spec_keyword(w) {
            Some(t) => (LexemeView::Tok(t), n),
            None => (LexemeView::Tok(TokenView::Ident(w)), n),
        }
    }
}

/// A number from position `i` (an optional `-`, digits, and an optional
/// fraction of `.` and digits): a percentage when `%` follows, milliseconds
/// when `ms` follows, else a decimal when it has a fraction, else an integer
/// (an error when it does not fit in `i64`).
pub open spec fn lex_number(s: Seq<char>, i: int) -> (LexemeView, nat) {
    let neg = s[i] == '-';
    let a = if neg {
        i + 1
    } else {
        i
    };
    let e = a + digit_run(s, a);
    let frac = e + 1 < s.len() && s[e] == '.' && is_digit(s[e + 1]);
    let f = if frac {
        e + 1 + digit_run(s, e + 1)
    } else {
        e
    };
    if f < s.len() && s[f] == '%' {
        (LexemeView::Tok(TokenView::Percent(s.subrange(i, f))), (f + 1 - i) as nat)
    } else if f + 1 < s.len() && s[f] == 'm' && s[f + 1] == 's' {
        (LexemeView::Tok(TokenView::Milliseconds(s.subrange(i, f))), (f + 2 - i) as nat)
    } else if frac {
        (LexemeView::Tok(TokenView::Float(s.subrange(i, f))), (f - i) as nat)
    } else {
        let m = decimal_value(s.subrange(a, e)) as int;
        let v = if neg {
            -m
        } else {
            m
        };
        if i64::MIN <= v <= i64::MAX {
            (LexemeView::Tok(TokenView::Integer(v as i64)), (e - i) as nat)
        } else {
            (LexemeView::Bad, (e - i) as nat)
        }
    }
}

/// What the lexer reads at position `i` of `s`, and how many characters it
/// takes: the longest token that starts there.
pub open spec fn lex_at(s: Seq<char>, i: int) -> (LexemeView, nat) {
    let c = s[i];
    let has = |k: int| i + k < s.len();
    if c == ' ' || c == '\t' {
        (LexemeView::Blank, 1)
    } else if c == '\n' {
        (LexemeView::Tok(TokenView::Newline), 1)
    } else if c == '\r' {
        if has(1) && s[i + 1] == '\n' {
            (LexemeView::Tok(TokenView::Newline), 2)
        } else {
            (LexemeView::Bad, 1)
        }
    } else if c == '/' {
        if has(1) && s[i + 1] == '/' {
            (LexemeView::Tok(TokenView::Comment), 2 + line_run(s, i + 2))
        } else {
            (LexemeView::Tok(TokenView::Slash), 1)
        }
    } else if c == '@' {
        match spec_directive(s.skip(i)) {
            Some((t, n)) => (LexemeView::Tok(t), n),
            None => (LexemeView::Tok(TokenView::At), 1),
        }
    } else if is_ident_start(c) {
        lex_word(s, i)
    } else if is_digit(c) || (c == '-' && has(1) && is_digit(s[i + 1])) {
        lex_number(s, i)
    } else if c == '-' {
        if has(1) && s[i + 1] == '>' {
            (LexemeView::Tok(TokenView::Arrow), 2)
        } else {
            (LexemeView::Bad, 1)
        }
    } else if c == '*' {
        if has(1) && s[i + 1] == '~' {
            (LexemeView::Tok(TokenView::StarTilde), 2)
        } else {
            (LexemeView::Tok(TokenView::Star), 1)
        }
    } else if c == '~' {
        if has(2) && s[i + 1] == '>' && s[i + 2] == '>' {
            (LexemeView::Tok(TokenView::TildeRShift), 3)
        } else {
            (LexemeView::Tok(TokenView::Tilde), 1)
        }
    } else if c == '>' {
        if has(1) && s[i + 1] == '>' {
            (LexemeView::Tok(TokenView::RShift), 2)
        } else {
            (LexemeView::Bad, 1)
        }
    } else if c == '"' {
        match next_quote(s, i + 1) {
            Some(j) => (LexemeView::Tok(TokenView::StringLiteral(s.subrange(i + 1, j))), (j + 1 - i) as nat),
            None => (LexemeView::Bad, 1),
        }
    } else {
        match single_char_token(c) {
            Some(t) => (LexemeView::Tok(t), 1),
            None => (LexemeView::Bad, 1),
        }
    }
}

pub proof fn lemma_runs(s: Seq<char>, i: int)
    requires
        0 <= i <= s.len(),
    ensures
        digit_run(s, i) <= s.len() - i,
        ident_run(s, i) <= s.len() - i,
        line_run(s, i) <= s.len() - i,
        next_quote(s, i) matches Some(j) ==> i <= j < s.len() && s[j] == '"',
        forall|k: int| i <= k < i + digit_run(s, i) ==> is_digit(#[trigger] s[k]),
        forall|k: int| i <= k < i + ident_run(s, i) ==> is_ident_char(#[trigger] s[k]),
    decreases s.len() - i,
{
    if i < s.len() {
        lemma_runs(s, i + 1);
    }
}

/// A lexeme takes at least one character, and no more than are left.
pub proof fn lemma_lex_len(s: Seq<char>, i: int)
    requires
        0 <= i < s.len(),
    ensures
        1 <= lex_at(s, i).1 <= s.len() - i,
{
    lemma_runs(s, i);
    lemma_runs(s, i + 1);
    if i + 2 <= s.len() {
        lemma_runs(s, i + 2);
    }
    let c = s[i];
    if c == '@' {
        lemma_directive_lengths(s.skip(i));
    } else if is_ident_start(c) {
        assert(ident_run(s, i) >= 1);
    } else if is_digit(c) || (c == '-' && i + 1 < s.len() && is_digit(s[i + 1])) {
        let a = if c == '-' {
            i + 1
        } else {
            i
        };
        lemma_runs(s, a);
        let e = a + digit_run(s, a);
        assert(digit_run(s, a) >= 1);
        if e + 1 < s.len() {
            lemma_runs(s, e + 1);
        }
    }
}

/// The tokens and errors the lexer reports from position `i` of `s` on:
/// tokens with their byte spans, and the byte spans of text that is no token.
pub open spec fn scan(s: Seq<char>, i: int) -> (Seq<SpannedTokenView>, Seq<(usize, usize)>)
    decreases s.len() - i,
{
    if i < 0 || i >= s.len() {
        (Seq::empty(), Seq::empty())
    } else {
        proof {
            lemma_lex_len(s, i);
        }
        let (lx, n) = lex_at(s, i);
        let rest = scan(s, i + n);
        let start = prefix_bytes(s, i) as usize;
        let end = prefix_bytes(s, i + n) as usize;
        match lx {
            LexemeView::Blank => rest,
            LexemeView::Tok(t) => (seq![SpannedTokenView { token: t, start, end }] + rest.0, rest.1),
            LexemeView::Bad => (rest.0, seq![(start, end)] + rest.1),
        }
    }
}

// ── What the lexer keeps ─────────────────────────────────────────────

/// A space or tab: the only characters the lexer drops between tokens.
pub open spec fn is_blank(c: char) -> bool {
    c == ' ' || c == '\t'
}

/// Whether byte offset `b` lies in one of the token spans `t` or error spans `e`.
pub open spec fn in_some_span(t: Seq<SpannedTokenView>, e: Seq<(usize, usize)>, b: int) -> bool {
    ||| exists|j: int| 0 <= j < t.len() && (#[trigger] t[j]).start <= b < t[j].end
    ||| exists|j: int| 0 <= j < e.len() && (#[trigger] e[j]).0 <= b < e[j].1
}

/// Token spans are non-empty, in order, disjoint, and within `lo..hi`.
pub open spec fn tokens_ordered_within(t: Seq<SpannedTokenView>, lo: int, hi: int) -> bool {
    &&& forall|j: int| 0 <= j < t.len() ==> lo <= (#[trigger] t[j]).start < t[j].end <= hi
    &&& forall|j: int, k: int| 0 <= j < k < t.len() ==> (#[trigger] t[j]).end <= (#[trigger] t[k]).start
}

/// Error spans are non-empty, in order, disjoint, and within `lo..hi`.
pub open spec fn errors_ordered_within(e: Seq<(usize, usize)>, lo: int, hi: int) -> bool {
    &&& forall|j: int| 0 <= j < e.len() ==> lo <= (#[trigger] e[j]).0 < e[j].1 <= hi
    &&& forall|j: int, k: int| 0 <= j < k < e.len() ==> (#[trigger] e[j]).1 <= (#[trigger] e[k]).0
}

proof fn lemma_prefix_bytes_step(s: Seq<char>, k: int)
    requires
        0 <= k < s.len(),
    ensures
        prefix_bytes(s, k) < prefix_bytes(s, k + 1),
{
}

proof fn lemma_scan_shape(s: Seq<char>, i: int)
    requires
        0 <= i <= s.len(),
        prefix_bytes(s, s.len() as int) <= usize::MAX,
    ensures
        tokens_ordered_within(scan(s, i).0, prefix_bytes(s, i) as int, prefix_bytes(s, s.len() as int) as int),
        errors_ordered_within(scan(s, i).1, prefix_bytes(s, i) as int, prefix_bytes(s, s.len() as int) as int),
        forall|k: int|
            i <= k < s.len() && !is_blank(s[k]) ==> in_some_span(
                scan(s, i).0,
                scan(s, i).1,
                #[trigger] prefix_bytes(s, k) as int,
            ),
    decreases s.len() - i,
{
    let len = s.len() as int;
    if i < len {
        lemma_lex_len(s, i);
        let (lx, n) = lex_at(s, i);
        let rest = scan(s, i + n);
        lemma_scan_shape(s, i + n);
        lemma_prefix_bytes_monotone(s, i, i + n);
        lemma_prefix_bytes_monotone(s, i + n, len);
        let a = prefix_bytes(s, i) as int;
        let b = prefix_bytes(s, i + n) as int;
        let hi = prefix_bytes(s, len) as int;
        assert(a < b);
        assert forall|k: int| i <= k < i + n implies a <= #[trigger] prefix_bytes(s, k) < b by {
            lemma_prefix_bytes_monotone(s, i, k);
            lemma_prefix_bytes_monotone(s, k + 1, i + n);
            lemma_prefix_bytes_step(s, k);
        }
        let r = scan(s, i);
        match lx {
            LexemeView::Blank => {
                assert(r == rest);
                assert(n == 1);
                assert forall|k: int| i <= k < len && !is_blank(s[k]) implies in_some_span(
                    r.0,
                    r.1,
                    #[trigger] prefix_bytes(s, k) as int,
                ) by {
                    assert(k >= i + n);
                }
            },
            LexemeView::Tok(tv) => {
                let st = SpannedTokenView { token: tv, start: a as usize, end: b as usize };
                assert(r.0 == seq![st] + rest.0);
                assert(r.1 == rest.1);
                assert forall|j: int, k: int| 0 <= j < k < r.0.len() implies (#[trigger] r.0[j]).end
                    <= (#[trigger] r.0[k]).start by {
                    if j > 0 {
                        assert(r.0[j] == rest.0[j - 1]);
                    }
                    assert(r.0[k] == rest.0[k - 1]);
                }
                assert forall|j: int| 0 <= j < r.0.len() implies a <= (#[trigger] r.0[j]).start
                    < r.0[j].end <= hi by {
                    if j > 0 {
                        assert(r.0[j] == rest.0[j - 1]);
                    }
                }
                assert forall|k: int| i <= k < len && !is_blank(s[k]) implies in_some_span(
                    r.0,
                    r.1,
                    #[trigger] prefix_bytes(s, k) as int,
                ) by {
                    if k < i + n {
                        assert(r.0[0] == st);
                    } else {
                        let pb = prefix_bytes(s, k) as int;
                        assert(in_some_span(rest.0, rest.1, pb));
                        if exists|j: int| 0 <= j < rest.0.len() && (#[trigger] rest.0[j]).start <= pb < rest.0[j].end {
                            let j = choose|j: int| 0 <= j < rest.0.len() && (#[trigger] rest.0[j]).start <= pb < rest.0[j].end;
                            assert(r.0[j + 1] == rest.0[j]);
                        }
                    }
                }
            },
            LexemeView::Bad => {
                assert(r.1 == seq![(a as usize, b as usize)] + rest.1);
                assert(r.0 == rest.0);
                assert forall|j: int, k: int| 0 <= j < k < r.1.len() implies (#[trigger] r.1[j]).1
                    <= (#[trigger] r.1[k]).0 by {
                    if j > 0 {
                        assert(r.1[j] == rest.1[j - 1]);
                    }
                    assert(r.1[k] == rest.1[k - 1]);
                }
                assert forall|j: int| 0 <= j < r.1.len() implies a <= (#[trigger] r.1[j]).0 < r.1[j].1
                    <= hi by {
                    if j > 0 {
                        assert(r.1[j] == rest.1[j - 1]);
                    }
                }
                assert forall|k: int| i <= k < len && !is_blank(s[k]) implies in_some_span(
                    r.0,
                    r.1,
                    #[trigger] prefix_bytes(s, k) as int,
                ) by {
                    if k < i + n {
                        assert(r.1[0] == (a as usize, b as usize));
                    } else {
                        let pb = prefix_bytes(s, k) as int;
                        assert(in_some_span(rest.0, rest.1, pb));
                        if exists|j: int| 0 <= j < rest.1.len() && (#[trigger] rest.1[j]).0 <= pb < rest.1[j].1 {
                            let j = choose|j: int| 0 <= j < rest.1.len() && (#[trigger] rest.1[j]).0 <= pb < rest.1[j].1;
                            assert(r.1[j + 1] == rest.1[j]);
                        }
                    }
                }
            },
        }
    }
}

/// The lexer loses no input and reads it in order: token spans and error
/// spans are each non-empty, in order and disjoint, lie within the source's
/// bytes, and every character other than a space or tab lies in one of them.
pub proof fn lemma_tokenize_covers_source(s: Seq<char>)
    requires
        prefix_bytes(s, s.len() as int) <= usize::MAX,
    ensures
        tokens_ordered_within(scan(s, 0).0, 0, prefix_bytes(s, s.len() as int) as int),
        errors_ordered_within(scan(s, 0).1, 0, prefix_bytes(s, s.len() as int) as int),
        forall|k: int|
            0 <= k < s.len() && !is_blank(s[k]) ==> in_some_span(
                scan(s, 0).0,
                scan(s, 0).1,
                #[trigger] prefix_bytes(s, k) as int,
            ),
{
    lemma_scan_shape(s, 0);
}

proof fn lemma_ident_run_end(s: Seq<char>, i: int)
    requires
        0 <= i <= s.len(),
    ensures
        i + ident_run(s, i) == s.len() || !is_ident_char(s[i + ident_run(s, i)]),
    decreases s.len() - i,
{
    if i < s.len() && is_ident_char(s[i]) {
        lemma_ident_run_end(s, i + 1);
    }
}

/// Words are read whole: a keyword, controller name or identifier takes
/// every identifier character that follows its first, so no identifier
/// character comes right after it.
pub proof fn lemma_words_read_whole(s: Seq<char>, i: int)
    requires
        0 <= i < s.len(),
        is_ident_start(s[i]),
    ensures
        lex_at(s, i).1 == ident_run(s, i),
        i + lex_at(s, i).1 == s.len() || !is_ident_char(s[i + lex_at(s, i).1]),
{
    lemma_ident_run_end(s, i);
}

// ── Reading lexemes ──────────────────────────────────────────────────

/// What the lexer read at a position.
enum Lexed {
    Blank,
    Tok(Token),
    Bad,
}

spec fn lexed_view(l: Lexed) -> LexemeView {
    match l {
        Lexed::Blank => LexemeView::Blank,
        Lexed::Tok(t) => LexemeView::Tok(t@),
        Lexed::Bad => LexemeView::Bad,
    }
}

/// Whether the `n` characters of `s` at `i` are exactly those of `lit`.
fn word_is(s: &[char], i: usize, n: usize, lit: &str) -> (r: bool)
    requires
        i + n <= s@.len(),
    ensures
        r == (s@.subrange(i as int, (i + n) as int) == lit@),
{
    if n != lit.unicode_len() {
        return false;
    }
    let r = chars_match_str_at(s, i, lit);
    assert(s@.skip(i as int).subrange(0, n as int) =~= s@.subrange(i as int, (i + n) as int));
    r
}

fn digits_from(s: &[char], i: usize) -> (r: usize)
    requires
        i <= s@.len(),
    ensures
        r == digit_run(s@, i as int),
        i + r <= s@.len(),
{
    proof {
        lemma_runs(s@, i as int);
    }
    let mut j = i;
    while j < s.len() && '0' <= s[j] && s[j] <= '9'
        invariant
            i <= j <= s@.len(),
            digit_run(s@, i as int) == (j - i) + digit_run(s@, j as int),
        decreases s@.len() - j,
    {
        j = j + 1;
    }
    j - i
}

fn ident_from(s: &[char], i: usize) -> (r: usize)
    requires
        i <= s@.len(),
    ensures
        r == ident_run(s@, i as int),
        i + r <= s@.len(),
{
    proof {
        lemma_runs(s@, i as int);
    }
    let mut j = i;
    while j < s.len() && (('A' <= s[j] && s[j] <= 'Z') || ('a' <= s[j] && s[j] <= 'z') || s[j] == '_'
        || ('0' <= s[j] && s[j] <= '9'))
        invariant
            i <= j <= s@.len(),
            ident_run(s@, i as int) == (j - i) + ident_run(s@, j as int),
        decreases s@.len() - j,
    {
        j = j + 1;
    }
    j - i
}

fn line_from(s: &[char], i: usize) -> (r: usize)
    requires
        i <= s@.len(),
    ensures
        r == line_run(s@, i as int),
        i + r <= s@.len(),
{
    proof {
        lemma_runs(s@, i as int);
    }
    let mut j = i;
    while j < s.len() && s[j] != '\n'
        invariant
            i <= j <= s@.len(),
            line_run(s@, i as int) == (j - i) + line_run(s@, j as int),
        decreases s@.len() - j,
    {
        j = j + 1;
    }
    j - i
}

fn quote_from(s: &[char], i: usize) -> (r: Option<usize>)
    requires
        i <= s@.len(),
    ensures
        match next_quote(s@, i as int) {
            Some(j) => r == Some(j as usize),
            None => r is None,
        },
{
    let mut j = i;
    while j < s.len()
        invariant
            i <= j <= s@.len(),
            next_quote(s@, i as int) == next_quote(s@, j as int),
        decreases s@.len() - j,
    {
        if s[j] == '"' {
            return Some(j);
        }
        j = j + 1;
    }
    None
}

proof fn lemma_decimal_prefix(ds: Seq<char>, k: int)
    requires
        0 <= k <= ds.len(),
    ensures
        decimal_value(ds.subrange(0, k)) <= decimal_value(ds),
    decreases ds.len() - k,
{
    if k < ds.len() {
        lemma_decimal_prefix(ds.drop_last(), k);
        assert(ds.drop_last().subrange(0, k) =~= ds.subrange(0, k));
    } else {
        assert(ds.subrange(0, k) =~= ds);
    }
}

/// The value of the digits of `s` from `a` to `e`, if it is at most `limit`.
fn decimal_upto(s: &[char], a: usize, e: usize, limit: u128) -> (r: Option<u128>)
    requires
        a <= e <= s@.len(),
        forall|k: int| a <= k < e ==> is_digit(#[trigger] s@[k]),
        limit <= u64::MAX,
    ensures
        match r {
            Some(v) => v == decimal_value(s@.subrange(a as int, e as int)) && v <= limit,
            None => decimal_value(s@.subrange(a as int, e as int)) > limit,
        },
{
    let ghost ds = s@.subrange(a as int, e as int);
    let mut acc: u128 = 0;
    let mut k = a;
    assert(s@.subrange(a as int, a as int) =~= Seq::<char>::empty());
    while k < e
        invariant
            a <= k <= e <= s@.len(),
            forall|j: int| a <= j < e ==> is_digit(#[trigger] s@[j]),
            limit <= u64::MAX,
            ds == s@.subrange(a as int, e as int),
            acc == decimal_value(s@.subrange(a as int, k as int)),
            acc <= limit,
        decreases e - k,
    {
        let c = s[k];
        assert(is_digit(s@[k as int]));
        let d = (c as u32 - '0' as u32) as u128;
        assert(acc * 10 <= u64::MAX * 10) by (nonlinear_arith)
            requires
                acc <= u64::MAX,
        ;
        acc = acc * 10 + d;
        assert(s@.subrange(a as int, k + 1).drop_last() =~= s@.subrange(a as int, k as int));
        k = k + 1;
        if acc > limit {
            proof {
                assert(ds.subrange(0, k - a) =~= s@.subrange(a as int, k as int));
                lemma_decimal_prefix(ds, k - a);
            }
            return None;
        }
    }
    Some(acc)
}

/// A word at `i`: a controller name, a keyword or an identifier.
fn lex_word_at(source: &str, s: &[char], i: usize) -> (r: (Lexed, usize))
    requires
        s@ == source@,
        i < s@.len(),
        is_ident_start(s@[i as int]),
    ensures
        lexed_view(r.0) == lex_word(s@, i as int).0,
        r.1 == lex_word(s@, i as int).1,
{
    proof {
        lemma_runs(s@, i as int);
    }
    let total = s.len();
    let n = ident_from(s, i);
    assert(i + n <= total);
    let end = i + n;
    let ghost w = s@.subrange(i as int, (i + n) as int);
    if n >= 3 && s[i] == 'c' && s[i + 1] == 'c' && digits_from(s, i + 2) == n - 2 {
        proof {
            lemma_runs(s@, i + 2);
            assert(w.subrange(2, n as int) =~= s@.subrange(i + 2, (i + n) as int));
        }
        match decimal_upto(s, i + 2, i + n, 255) {
            Some(v) => (Lexed::Tok(Token::KwCc(v as u8)), n),
            None => (Lexed::Bad, n),
        }
    } else {
        match keyword(s, i, n) {
            Some(t) => (Lexed::Tok(t), n),
            None => {
                let text = String::from_str(source.substring_char(i, end));
                (Lexed::Tok(Token::Ident(text)), n)
            },
        }
    }
}

/// A number at `i`: a percentage, milliseconds, a decimal or an integer.
fn lex_number_at(source: &str, s: &[char], i: usize) -> (r: (Lexed, usize))
    requires
        s@ == source@,
        i < s@.len(),
        is_digit(s@[i as int]) || (s@[i as int] == '-' && i + 1 < s@.len() && is_digit(
            s@[i + 1],
        )),
    ensures
        lexed_view(r.0) == lex_number(s@, i as int).0,
        r.1 == lex_number(s@, i as int).1,
{
    let neg = s[i] == '-';
    let a = if neg {
        i + 1
    } else {
        i
    };
    proof {
        lemma_runs(s@, a as int);
    }
    let e = a + digits_from(s, a);
    let frac = s.len() - e > 1 && s[e] == '.' && '0' <= s[e + 1] && s[e + 1] <= '9';
    let f = if frac {
        e + 1 + digits_from(s, e + 1)
    } else {
        e
    };
    if f < s.len() && s[f] == '%' {
        (Lexed::Tok(Token::Percent(String::from_str(source.substring_char(i, f)))), f + 1 - i)
    } else if s.len() - f > 1 && s[f] == 'm' && s[f + 1] == 's' {
        (Lexed::Tok(Token::Milliseconds(String::from_str(source.substring_char(i, f)))), f + 2 - i)
    } else if frac {
        (Lexed::Tok(Token::Float(String::from_str(source.substring_char(i, f)))), f - i)
    } else {
        let limit: u128 = if neg {
            9223372036854775808
        } else {
            9223372036854775807
        };
        match decimal_upto(s, a, e, limit) {
            Some(m) => {
                let v: i64 = if neg {
                    if m == 9223372036854775808 {
                        i64::MIN
                    } else {
                        -(m as i64)
                    }
                } else {
                    m as i64
                };
                (Lexed::Tok(Token::Integer(v)), e - i)
            },
            None => (Lexed::Bad, e - i),
        }
    }
}

/// What the lexer reads at position `i`, and how many characters it takes.
fn lex_at_pos(source: &str, s: &[char], i: usize) -> (r: (Lexed, usize))
    requires
        s@ == source@,
        i < s@.len(),
    ensures
        lexed_view(r.0) == lex_at(s@, i as int).0,
        r.1 == lex_at(s@, i as int).1,
{
    let c = s[i];
    let n = s.len();
    if c == ' ' || c == '\t' {
        (Lexed::Blank, 1)
    } else if c == '\n' {
        (Lexed::Tok(Token::Newline), 1)
    } else if c == '\r' {
        if i + 1 < n && s[i + 1] == '\n' {
            (Lexed::Tok(Token::Newline), 2)
        } else {
            (Lexed::Bad, 1)
        }
    } else if c == '/' {
        if i + 1 < n && s[i + 1] == '/' {
            (Lexed::Tok(Token::Comment), 2 + line_from(s, i + 2))
        } else {
            (Lexed::Tok(Token::Slash), 1)
        }
    } else if c == '@' {
        match directive_at(s, i) {
            Some((t, len)) => (Lexed::Tok(t), len),
            None => (Lexed::Tok(Token::At), 1),
        }
    } else if ('A' <= c && c <= 'Z') || ('a' <= c && c <= 'z') || c == '_' {
        lex_word_at(source, s, i)
    } else if ('0' <= c && c <= '9') || (c == '-' && i + 1 < n && '0' <= s[i + 1] && s[i + 1]
        <= '9') {
        lex_number_at(source, s, i)
    } else if c == '-' {
        if i + 1 < n && s[i + 1] == '>' {
            (Lexed::Tok(Token::Arrow), 2)
        } else {
            (Lexed::Bad, 1)
        }
    } else if c == '*' {
        if i + 1 < n && s[i + 1] == '~' {
            (Lexed::Tok(Token::StarTilde), 2)
        } else {
            (Lexed::Tok(Token::Star), 1)
        }
    } else if c == '~' {
        if n - i > 2 && s[i + 1] == '>' && s[i + 2] == '>' {
            (Lexed::Tok(Token::TildeRShift), 3)
        } else {
            (Lexed::Tok(Token::Tilde), 1)
        }
    } else if c == '>' {
        if i + 1 < n && s[i + 1] == '>' {
            (Lexed::Tok(Token::RShift), 2)
        } else {
            (Lexed::Bad, 1)
        }
    } else if c == '"' {
        proof {
            lemma_runs(s@, i + 1);
        }
        match quote_from(s, i + 1) {
            Some(j) => {
                let text = String::from_str(source.substring_char(i + 1, j));
                (Lexed::Tok(Token::StringLiteral(text)), j + 1 - i)
            },
            None => (Lexed::Bad, 1),
        }
    } else {
        match single_char(c) {
            Some(t) => (Lexed::Tok(t), 1),
            None => (Lexed::Bad, 1),
        }
    }
}

// ── Tokenizing ───────────────────────────────────────────────────────

/// Tokenize a Interval source string into a sequence of spanned tokens.
///
/// Comments are included in the token stream (the parser can skip them).
/// Text that starts no token (or a number out of range) is reported by its
/// byte span, and lexing goes on after it.
pub fn tokenize(source: &str) -> (r: (Vec<SpannedToken>, Vec<(usize, usize)>))
    requires
        prefix_bytes(source@, source@.len() as int) <= usize::MAX,
    ensures
        token_views(r.0@) == scan(source@, 0).0,
        r.1@ == scan(source@, 0).1,
{
    let ghost s = source@;
    let chars = str_chars(source);
    let n = chars.len();
    let mut tokens: Vec<SpannedToken> = Vec::new();
    let mut errors: Vec<(usize, usize)> = Vec::new();
    let mut i: usize = 0;
    let mut b: usize = 0;
    assert(token_views(tokens@) + scan(s, 0).0 =~= scan(s, 0).0);
    assert(errors@ + scan(s, 0).1 =~= scan(s, 0).1);
    while i < n
        invariant
            chars@ == s,
            s == source@,
            n == s.len(),
            i <= n,
            b == prefix_bytes(s, i as int),
            prefix_bytes(s, n as int) <= usize::MAX,
            token_views(tokens@) + scan(s, i as int).0 == scan(s, 0).0,
            errors@ + scan(s, i as int).1 == scan(s, 0).1,
        decreases n - i,
    {
        let (lx, len) = lex_at_pos(source, chars.as_slice(), i);
        proof {
            lemma_lex_len(s, i as int);
            lemma_prefix_bytes_monotone(s, (i + len) as int, n as int);
        }
        let mut b2 = b;
        let mut k = i;
        while k < i + len
            invariant
                chars@ == s,
                n == s.len(),
                i <= k <= i + len <= n,
                b2 == prefix_bytes(s, k as int),
                prefix_bytes(s, (i + len) as int) <= usize::MAX,
            decreases i + len - k,
        {
            proof {
                lemma_prefix_bytes_monotone(s, (k + 1) as int, (i + len) as int);
            }
            b2 = b2 + char_width(chars[k]) as usize;
            k = k + 1;
        }
        let ghost rest = scan(s, (i + len) as int);
        let ghost before = token_views(tokens@);
        match lx {
            Lexed::Blank => {},
            Lexed::Tok(t) => {
                let st = SpannedToken { token: t, start: b, end: b2 };
                tokens.push(st);
                assert(token_views(tokens@) =~= before.push(st@));
                assert(before.push(st@) + rest.0 =~= before + (seq![st@] + rest.0));
            },
            Lexed::Bad => {
                let ghost errs = errors@;
                errors.push((b, b2));
                assert(errs.push((b, b2)) + rest.1 =~= errs + (seq![(b, b2)] + rest.1));
            },
        }
        i = i + len;
        b = b2;
    }
    assert(token_views(tokens@) + scan(s, n as int).0 =~= token_views(tokens@));
    assert(errors@ + scan(s, n as int).1 =~= errors@);
    (tokens, errors)
}

} // verus!
