//! Event stream types for the Interval compiler output.
//!
//! The compiler produces a `Vec<TimedEvent>` sorted by tick. This event stream
//! is the shared intermediate representation consumed by both the SMF renderer
//! and the RT scheduler. `BarMarker` events exist for RT hot-swap seeking and
//! are stripped by the SMF renderer.

use vstd::prelude::*;
use crate::ast::StepCondition;
use crate::text::str_eq;

verus! {

/// A MIDI event with no timing information.
#[derive(Debug, Clone)]
pub enum MidiEvent {
    /// Note-on with channel, note, and velocity.
    NoteOn {
        /// MIDI channel (0-15 internal, 1-16 user-facing).
        channel: u8,
        /// MIDI note number (0-127).
        note: u8,
        /// Velocity (1-127).
        velocity: u8,
    },
    /// Note-off with channel and note.
    NoteOff {
        /// MIDI channel.
        channel: u8,
        /// MIDI note number.
        note: u8,
    },
    /// Control change.
    CC {
        /// MIDI channel.
        channel: u8,
        /// Controller number (0-127).
        controller: u8,
        /// Value (0-127).
        value: u8,
    },
    /// Program change.
    ProgramChange {
        /// MIDI channel.
        channel: u8,
        /// Program number (0-127).
        program: u8,
    },
    /// Pitch bend.
    PitchBend {
        /// MIDI channel.
        channel: u8,
        /// Pitch bend value (-8192 to 8191).
        value: i16,
    },
    /// Channel aftertouch.
    Aftertouch {
        /// MIDI channel.
        channel: u8,
        /// Aftertouch value (0-127).
        value: u8,
    },
    /// Tempo meta event.
    Tempo {
        /// Tempo in beats per minute, as the bits of an IEEE 754 double.
        bpm_bits: u64,
    },
    /// Time signature meta event.
    TimeSignature {
        /// Numerator.
        numerator: u8,
        /// Denominator.
        denominator: u8,
    },
    /// Track name meta event.
    TrackName {
        /// Track name string.
        name: String,
    },
    /// Text meta event (for embedding metadata like seed).
    TextMeta {
        /// Text content.
        text: String,
    },
    /// Bar marker (for RT scheduler hot-swap, stripped by SMF renderer).
    BarMarker {
        /// Bar number (1-indexed).
        bar: u32,
    },
    /// Pattern boundary marker (for RT scheduler loop counting, stripped by SMF renderer).
    PatternBoundary {
        /// Track index this boundary belongs to.
        track: usize,
        /// Pattern name for identity comparison during hot-swap.
        pattern_name: String,
    },
}

/// Intra-tick ordering of events: meta events, then note-offs, program
/// changes, controllers, pitch bends, aftertouch, note-ons and markers.
pub open spec fn spec_priority(e: MidiEvent) -> u8 {
    match e {
        MidiEvent::Tempo { .. } => 0,
        MidiEvent::TimeSignature { .. } => 1,
        MidiEvent::TrackName { .. } => 2,
        MidiEvent::TextMeta { .. } => 2,
        MidiEvent::NoteOff { .. } => 3,
        MidiEvent::ProgramChange { .. } => 4,
        MidiEvent::CC { .. } => 5,
        MidiEvent::PitchBend { .. } => 6,
        MidiEvent::Aftertouch { .. } => 7,
        MidiEvent::NoteOn { .. } => 8,
        MidiEvent::BarMarker { .. } => 9,
        MidiEvent::PatternBoundary { .. } => 10,
    }
}

/// Two events are the same: same kind, equal fields (texts by their characters).
pub open spec fn spec_event_eq(a: MidiEvent, b: MidiEvent) -> bool {
    match (a, b) {
        (
            MidiEvent::NoteOn { channel: c1, note: n1, velocity: v1 },
            MidiEvent::NoteOn { channel: c2, note: n2, velocity: v2 },
        ) => c1 == c2 && n1 == n2 && v1 == v2,
        (MidiEvent::NoteOff { channel: c1, note: n1 }, MidiEvent::NoteOff { channel: c2, note: n2 }) =>
            c1 == c2 && n1 == n2,
        (
            MidiEvent::CC { channel: c1, controller: t1, value: v1 },
            MidiEvent::CC { channel: c2, controller: t2, value: v2 },
        ) => c1 == c2 && t1 == t2 && v1 == v2,
        (
            MidiEvent::ProgramChange { channel: c1, program: p1 },
            MidiEvent::ProgramChange { channel: c2, program: p2 },
        ) => c1 == c2 && p1 == p2,
        (
            MidiEvent::PitchBend { channel: c1, value: v1 },
            MidiEvent::PitchBend { channel: c2, value: v2 },
        ) => c1 == c2 && v1 == v2,
        (
            MidiEvent::Aftertouch { channel: c1, value: v1 },
            MidiEvent::Aftertouch { channel: c2, value: v2 },
        ) => c1 == c2 && v1 == v2,
        (MidiEvent::Tempo { bpm_bits: b1 }, MidiEvent::Tempo { bpm_bits: b2 }) => b1 == b2,
        (
            MidiEvent::TimeSignature { numerator: n1, denominator: d1 },
            MidiEvent::TimeSignature { numerator: n2, denominator: d2 },
        ) => n1 == n2 && d1 == d2,
        (MidiEvent::TrackName { name: n1 }, MidiEvent::TrackName { name: n2 }) => n1@ == n2@,
        (MidiEvent::TextMeta { text: t1 }, MidiEvent::TextMeta { text: t2 }) => t1@ == t2@,
        (MidiEvent::BarMarker { bar: b1 }, MidiEvent::BarMarker { bar: b2 }) => b1 == b2,
        (
            MidiEvent::PatternBoundary { track: t1, pattern_name: n1 },
            MidiEvent::PatternBoundary { track: t2, pattern_name: n2 },
        ) => t1 == t2 && n1@ == n2@,
        _ => false,
    }
}

impl MidiEvent {
    /// Returns the sort priority for intra-tick event ordering.
    /// Lower values sort first:
    /// Meta (Tempo/TS/TrackName) → NoteOff → ProgramChange → CC → PitchBend → Aftertouch → NoteOn → BarMarker.
    pub fn sort_priority(&self) -> (r: u8)
        ensures
            r == spec_priority(*self),
    {
        match self {
            MidiEvent::Tempo { .. } => 0,
            MidiEvent::TimeSignature { .. } => 1,
            MidiEvent::TrackName { .. } => 2,
            MidiEvent::TextMeta { .. } => 2,
            MidiEvent::NoteOff { .. } => 3,
            MidiEvent::ProgramChange { .. } => 4,
            MidiEvent::CC { .. } => 5,
            MidiEvent::PitchBend { .. } => 6,
            MidiEvent::Aftertouch { .. } => 7,
            MidiEvent::NoteOn { .. } => 8,
            MidiEvent::BarMarker { .. } => 9,
            MidiEvent::PatternBoundary { .. } => 10,
        }
    }
}

impl PartialEq for MidiEvent {
    fn eq(&self, other: &Self) -> (r: bool) {
        match (self, other) {
            (
                MidiEvent::NoteOn { channel: c1, note: n1, velocity: v1 },
                MidiEvent::NoteOn { channel: c2, note: n2, velocity: v2 },
            ) => *c1 == *c2 && *n1 == *n2 && *v1 == *v2,
            (
                MidiEvent::NoteOff { channel: c1, note: n1 },
                MidiEvent::NoteOff { channel: c2, note: n2 },
            ) => *c1 == *c2 && *n1 == *n2,
            (
                MidiEvent::CC { channel: c1, controller: t1, value: v1 },
                MidiEvent::CC { channel: c2, controller: t2, value: v2 },
            ) => *c1 == *c2 && *t1 == *t2 && *v1 == *v2,
            (
                MidiEvent::ProgramChange { channel: c1, program: p1 },
                MidiEvent::ProgramChange { channel: c2, program: p2 },
            ) => *c1 == *c2 && *p1 == *p2,
            (
                MidiEvent::PitchBend { channel: c1, value: v1 },
                MidiEvent::PitchBend { channel: c2, value: v2 },
            ) => *c1 == *c2 && *v1 == *v2,
            (
                MidiEvent::Aftertouch { channel: c1, value: v1 },
                MidiEvent::Aftertouch { channel: c2, value: v2 },
            ) => *c1 == *c2 && *v1 == *v2,
            (MidiEvent::Tempo { bpm_bits: b1 }, MidiEvent::Tempo { bpm_bits: b2 }) => *b1 == *b2,
            (
                MidiEvent::TimeSignature { numerator: n1, denominator: d1 },
                MidiEvent::TimeSignature { numerator: n2, denominator: d2 },
            ) => *n1 == *n2 && *d1 == *d2,
            (MidiEvent::TrackName { name: n1 }, MidiEvent::TrackName { name: n2 }) => str_eq(
                n1.as_str(),
                n2.as_str(),
            ),
            (MidiEvent::TextMeta { text: t1 }, MidiEvent::TextMeta { text: t2 }) => str_eq(
                t1.as_str(),
                t2.as_str(),
            ),
            (MidiEvent::BarMarker { bar: b1 }, MidiEvent::BarMarker { bar: b2 }) => *b1 == *b2,
            (
                MidiEvent::PatternBoundary { track: t1, pattern_name: n1 },
                MidiEvent::PatternBoundary { track: t2, pattern_name: n2 },
            ) => *t1 == *t2 && str_eq(n1.as_str(), n2.as_str()),
            _ => false,
        }
    }
}

impl vstd::std_specs::cmp::PartialEqSpecImpl for MidiEvent {
    open spec fn obeys_eq_spec() -> bool {
        true
    }

    open spec fn eq_spec(&self, other: &Self) -> bool {
        spec_event_eq(*self, *other)
    }
}

impl Eq for MidiEvent {
}

/// A timed event in the event stream.
#[derive(Debug, Clone, PartialEq, Eq)]
pub struct TimedEvent {
    /// Absolute tick position.
    pub tick: u64,
    /// Track index (0 = tempo track, 1+ = user tracks in declaration order).
    pub track: usize,
    /// The MIDI event.
    pub event: MidiEvent,
    /// Optional conditional playback annotation. When present, the RT scheduler
    /// evaluates the condition against `PlaybackState` loop count before emitting
    /// the event. The SMF renderer evaluates at iteration 1 (first pass).
    pub condition: Option<StepCondition>,
    /// Index of the originating step within the resolved pattern.
    /// Set for note/CC events emitted from the step iteration loop;
    /// `None` for structural events (BarMarker, Tempo, etc.).
    pub step_index: Option<usize>,
}

impl TimedEvent {
    /// Create a new unconditional timed event.
    pub fn new(tick: u64, track: usize, event: MidiEvent) -> (r: Self)
        ensures
            r == (TimedEvent { tick, track, event, condition: None, step_index: None }),
    {
        TimedEvent { tick, track, event, condition: None, step_index: None }
    }

    /// Create a new conditional timed event.
    pub fn with_condition(tick: u64, track: usize, event: MidiEvent, condition: StepCondition) -> (r:
        Self)
        ensures
            r == (TimedEvent { tick, track, event, condition: Some(condition), step_index: None }),
    {
        TimedEvent { tick, track, event, condition: Some(condition), step_index: None }
    }
}

// ── Sorting the event stream ─────────────────────────────────────────

/// The order of an event in the stream: tick, then intra-tick priority, then track.
pub open spec fn event_key(e: TimedEvent) -> (u64, u8, usize) {
    (e.tick, spec_priority(e.event), e.track)
}

/// Keys compare by tick, then priority, then track.
pub open spec fn key_le(a: (u64, u8, usize), b: (u64, u8, usize)) -> bool {
    a.0 < b.0 || (a.0 == b.0 && (a.1 < b.1 || (a.1 == b.1 && a.2 <= b.2)))
}

/// Events in stream order.
pub open spec fn stream_sorted(s: Seq<TimedEvent>) -> bool {
    forall|i: int, j: int| 0 <= i < j < s.len() ==> key_le(event_key(#[trigger] s[i]), event_key(#[trigger] s[j]))
}

/// The events of `s` with key `k`, in their order in `s`.
pub open spec fn events_with_key(s: Seq<TimedEvent>, k: (u64, u8, usize)) -> Seq<TimedEvent>
    decreases s.len(),
{
    if s.len() == 0 {
        Seq::empty()
    } else if event_key(s.last()) == k {
        events_with_key(s.drop_last(), k).push(s.last())
    } else {
        events_with_key(s.drop_last(), k)
    }
}

/// Merge of two sorted runs, taken from the back: the later of the two last
/// events goes last, the right run's on equal keys.
pub open spec fn merge_events(a: Seq<TimedEvent>, b: Seq<TimedEvent>) -> Seq<TimedEvent>
    decreases a.len() + b.len(),
{
    if a.len() == 0 {
        b
    } else if b.len() == 0 {
        a
    } else if !key_le(event_key(a.last()), event_key(b.last())) {
        merge_events(a.drop_last(), b).push(a.last())
    } else {
        merge_events(a, b.drop_last()).push(b.last())
    }
}

proof fn lemma_with_key_concat(a: Seq<TimedEvent>, b: Seq<TimedEvent>, k: (u64, u8, usize))
    ensures
        events_with_key(a + b, k) == events_with_key(a, k) + events_with_key(b, k),
    decreases b.len(),
{
    if b.len() == 0 {
        assert(a + b =~= a);
        assert(events_with_key(a, k) + events_with_key(b, k) =~= events_with_key(a, k));
    } else {
        assert((a + b).drop_last() =~= a + b.drop_last());
        assert((a + b).last() == b.last());
        lemma_with_key_concat(a, b.drop_last(), k);
        if event_key(b.last()) == k {
            assert(events_with_key(a, k) + events_with_key(b.drop_last(), k).push(b.last())
                =~= (events_with_key(a, k) + events_with_key(b.drop_last(), k)).push(b.last()));
        }
    }
}

proof fn lemma_with_key_absent(s: Seq<TimedEvent>, k: (u64, u8, usize))
    requires
        forall|i: int| 0 <= i < s.len() ==> event_key(#[trigger] s[i]) != k,
    ensures
        events_with_key(s, k) == Seq::<TimedEvent>::empty(),
    decreases s.len(),
{
    if s.len() > 0 {
        assert(s.last() == s[s.len() - 1]);
        lemma_with_key_absent(s.drop_last(), k);
    }
}

/// All keys of a merge are bounded when those of both runs are.
proof fn lemma_merge_bounded(a: Seq<TimedEvent>, b: Seq<TimedEvent>, bound: (u64, u8, usize))
    requires
        forall|i: int| 0 <= i < a.len() ==> key_le(event_key(#[trigger] a[i]), bound),
        forall|i: int| 0 <= i < b.len() ==> key_le(event_key(#[trigger] b[i]), bound),
    ensures
        merge_events(a, b).len() == a.len() + b.len(),
        forall|i: int|
            0 <= i < merge_events(a, b).len() ==> key_le(
                event_key(#[trigger] merge_events(a, b)[i]),
                bound,
            ),
    decreases a.len() + b.len(),
{
    if a.len() > 0 && b.len() > 0 {
        if !key_le(event_key(a.last()), event_key(b.last())) {
            lemma_merge_bounded(a.drop_last(), b, bound);
            assert(a.last() == a[a.len() - 1]);
        } else {
            lemma_merge_bounded(a, b.drop_last(), bound);
            assert(b.last() == b[b.len() - 1]);
        }
    }
}

/// Merging two sorted runs gives a sorted run holding, for each key, the
/// left run's events of that key followed by the right run's.
proof fn lemma_merge_events(a: Seq<TimedEvent>, b: Seq<TimedEvent>)
    requires
        stream_sorted(a),
        stream_sorted(b),
    ensures
        stream_sorted(merge_events(a, b)),
        merge_events(a, b).len() == a.len() + b.len(),
        forall|k: (u64, u8, usize)|
            #[trigger] events_with_key(merge_events(a, b), k) == events_with_key(a, k)
                + events_with_key(b, k),
    decreases a.len() + b.len(),
{
    let m = merge_events(a, b);
    if a.len() == 0 {
        assert(a =~= Seq::<TimedEvent>::empty());
        assert forall|k: (u64, u8, usize)| #[trigger] events_with_key(m, k) == events_with_key(a, k)
            + events_with_key(b, k) by {
            assert(events_with_key(a, k) =~= Seq::<TimedEvent>::empty());
            assert(events_with_key(a, k) + events_with_key(b, k) =~= events_with_key(b, k));
        }
    } else if b.len() == 0 {
        assert forall|k: (u64, u8, usize)| #[trigger] events_with_key(m, k) == events_with_key(a, k)
            + events_with_key(b, k) by {
            assert(events_with_key(b, k) =~= Seq::<TimedEvent>::empty());
            assert(events_with_key(a, k) + events_with_key(b, k) =~= events_with_key(a, k));
        }
    } else if !key_le(event_key(a.last()), event_key(b.last())) {
        let a1 = a.drop_last();
        let x = a.last();
        assert(x == a[a.len() - 1]);
        assert(stream_sorted(a1)) by {
            assert forall|i: int, j: int| 0 <= i < j < a1.len() implies key_le(
                event_key(#[trigger] a1[i]),
                event_key(#[trigger] a1[j]),
            ) by {
                assert(a1[i] == a[i] && a1[j] == a[j]);
            }
        }
        lemma_merge_events(a1, b);
        let m1 = merge_events(a1, b);
        assert forall|i: int| 0 <= i < a1.len() implies key_le(
            event_key(#[trigger] a1[i]),
            event_key(x),
        ) by {
            assert(a1[i] == a[i]);
        }
        assert forall|i: int| 0 <= i < b.len() implies key_le(
            event_key(#[trigger] b[i]),
            event_key(x),
        ) by {
            if i < b.len() - 1 {
                assert(key_le(event_key(b[i]), event_key(b[b.len() - 1])));
            }
        }
        lemma_merge_bounded(a1, b, event_key(x));
        assert(m == m1.push(x));
        assert forall|i: int, j: int| 0 <= i < j < m.len() implies key_le(
            event_key(#[trigger] m[i]),
            event_key(#[trigger] m[j]),
        ) by {
            if j < m.len() - 1 {
                assert(m[i] == m1[i] && m[j] == m1[j]);
            } else {
                assert(m[i] == m1[i]);
            }
        }
        assert forall|k: (u64, u8, usize)| #[trigger] events_with_key(m, k) == events_with_key(a, k)
            + events_with_key(b, k) by {
            assert(m.drop_last() =~= m1);
            assert(m.last() == x);
            assert(events_with_key(m1, k) == events_with_key(a1, k) + events_with_key(b, k));
            if event_key(x) == k {
                assert(events_with_key(m, k) == events_with_key(m1, k).push(x));
                assert forall|i: int| 0 <= i < b.len() implies event_key(#[trigger] b[i]) != k by {
                    if i < b.len() - 1 {
                        assert(key_le(event_key(b[i]), event_key(b[b.len() - 1])));
                    }
                }
                lemma_with_key_absent(b, k);
                assert(events_with_key(a, k) == events_with_key(a1, k).push(x));
                assert(events_with_key(a1, k).push(x) + events_with_key(b, k) =~= (events_with_key(
                    a1,
                    k,
                ) + events_with_key(b, k)).push(x));
            } else {
                assert(events_with_key(m, k) == events_with_key(m1, k));
                assert(events_with_key(a, k) == events_with_key(a1, k));
            }
        }
    } else {
        let b1 = b.drop_last();
        let y = b.last();
        assert(y == b[b.len() - 1]);
        assert(stream_sorted(b1)) by {
            assert forall|i: int, j: int| 0 <= i < j < b1.len() implies key_le(
                event_key(#[trigger] b1[i]),
                event_key(#[trigger] b1[j]),
            ) by {
                assert(b1[i] == b[i] && b1[j] == b[j]);
            }
        }
        lemma_merge_events(a, b1);
        let m1 = merge_events(a, b1);
        assert forall|i: int| 0 <= i < a.len() implies key_le(
            event_key(#[trigger] a[i]),
            event_key(y),
        ) by {
            if i < a.len() - 1 {
                assert(key_le(event_key(a[i]), event_key(a[a.len() - 1])));
            }
        }
        assert forall|i: int| 0 <= i < b1.len() implies key_le(
            event_key(#[trigger] b1[i]),
            event_key(y),
        ) by {
            assert(b1[i] == b[i]);
        }
        lemma_merge_bounded(a, b1, event_key(y));
        assert(m == m1.push(y));
        assert forall|i: int, j: int| 0 <= i < j < m.len() implies key_le(
            event_key(#[trigger] m[i]),
            event_key(#[trigger] m[j]),
        ) by {
            if j < m.len() - 1 {
                assert(m[i] == m1[i] && m[j] == m1[j]);
            } else {
                assert(m[i] == m1[i]);
            }
        }
        assert forall|k: (u64, u8, usize)| #[trigger] events_with_key(m, k) == events_with_key(a, k)
            + events_with_key(b, k) by {
            assert(m.drop_last() =~= m1);
            assert(m.last() == y);
            assert(events_with_key(m1, k) == events_with_key(a, k) + events_with_key(b1, k));
            if event_key(y) == k {
                assert(events_with_key(m, k) == events_with_key(m1, k).push(y));
                assert(events_with_key(b, k) == events_with_key(b1, k).push(y));
                assert(events_with_key(a, k) + events_with_key(b1, k).push(y) =~= (events_with_key(
                    a,
                    k,
                ) + events_with_key(b1, k)).push(y));
            } else {
                assert(events_with_key(m, k) == events_with_key(m1, k));
                assert(events_with_key(b, k) == events_with_key(b1, k));
            }
        }
    }
}

fn event_key_of(e: &TimedEvent) -> (r: (u64, u8, usize))
    ensures
        r == event_key(*e),
{
    (e.tick, e.event.sort_priority(), e.track)
}

fn key_le_exec(a: (u64, u8, usize), b: (u64, u8, usize)) -> (r: bool)
    ensures
        r == key_le(a, b),
{
    a.0 < b.0 || (a.0 == b.0 && (a.1 < b.1 || (a.1 == b.1 && a.2 <= b.2)))
}

fn reversed(v: Vec<TimedEvent>) -> (r: Vec<TimedEvent>)
    ensures
        r@ == v@.reverse(),
{
    let mut v = v;
    let ghost orig = v@;
    let mut out: Vec<TimedEvent> = Vec::new();
    while v.len() > 0
        invariant
            orig.reverse() == out@ + v@.reverse(),
        decreases v@.len(),
    {
        let ghost before = v@;
        match v.pop() {
            Some(x) => {
                proof {
                    assert(before.reverse() =~= seq![x] + v@.reverse());
                    assert(out@.push(x) + v@.reverse() =~= out@ + (seq![x] + v@.reverse()));
                }
                out.push(x);
            },
            None => {},
        }
    }
    proof {
        assert(out@ + v@.reverse() =~= out@);
    }
    out
}

fn merge(a: Vec<TimedEvent>, b: Vec<TimedEvent>) -> (r: Vec<TimedEvent>)
    ensures
        r@ == merge_events(a@, b@),
{
    let ghost target = merge_events(a@, b@);
    let mut a = a;
    let mut b = b;
    let mut rev: Vec<TimedEvent> = Vec::new();
    while a.len() > 0 || b.len() > 0
        invariant
            target == merge_events(a@, b@) + rev@.reverse(),
        decreases a@.len() + b@.len(),
    {
        let take_a = if b.len() == 0 {
            true
        } else if a.len() == 0 {
            false
        } else {
            !key_le_exec(event_key_of(&a[a.len() - 1]), event_key_of(&b[b.len() - 1]))
        };
        let ghost pa = a@;
        let ghost pb = b@;
        if take_a {
            match a.pop() {
                Some(x) => {
                    proof {
                        assert(merge_events(pa, pb) == merge_events(a@, pb).push(x));
                        assert(rev@.push(x).reverse() =~= seq![x] + rev@.reverse());
                        assert(merge_events(a@, pb).push(x) + rev@.reverse() =~= merge_events(
                            a@,
                            pb,
                        ) + (seq![x] + rev@.reverse()));
                    }
                    rev.push(x);
                },
                None => {},
            }
        } else {
            match b.pop() {
                Some(y) => {
                    proof {
                        assert(merge_events(pa, pb) == merge_events(pa, b@).push(y));
                        assert(rev@.push(y).reverse() =~= seq![y] + rev@.reverse());
                        assert(merge_events(pa, b@).push(y) + rev@.reverse() =~= merge_events(
                            pa,
                            b@,
                        ) + (seq![y] + rev@.reverse()));
                    }
                    rev.push(y);
                },
                None => {},
            }
        }
    }
    proof {
        assert(merge_events(a@, b@) + rev@.reverse() =~= rev@.reverse());
    }
    reversed(rev)
}

fn merge_sort(v: Vec<TimedEvent>) -> (r: Vec<TimedEvent>)
    ensures
        stream_sorted(r@),
        r@.len() == v@.len(),
        forall|k: (u64, u8, usize)| #[trigger] events_with_key(r@, k) == events_with_key(v@, k),
    decreases v@.len(),
{
    if v.len() <= 1 {
        return v;
    }
    let mid = v.len() / 2;
    let mut left = v;
    let ghost whole = left@;
    let right = left.split_off(mid);
    proof {
        assert(whole =~= left@ + right@);
    }
    let sl = merge_sort(left);
    let sr = merge_sort(right);
    proof {
        lemma_merge_events(sl@, sr@);
        assert forall|k: (u64, u8, usize)| #[trigger] events_with_key(merge_events(sl@, sr@), k)
            == events_with_key(whole, k) by {
            lemma_with_key_concat(left@, right@, k);
        }
    }
    merge(sl, sr)
}

/// Sort an event stream by tick, then by event priority, then by track
/// index; events that tie keep their order.
pub fn sort_event_stream(events: &mut Vec<TimedEvent>)
    ensures
        stream_sorted(final(events)@),
        final(events)@.len() == old(events)@.len(),
        forall|k: (u64, u8, usize)|
            #[trigger] events_with_key(final(events)@, k) == events_with_key(old(events)@, k),
{
    let mut taken: Vec<TimedEvent> = Vec::new();
    std::mem::swap(&mut taken, events);
    let sorted = merge_sort(taken);
    *events = sorted;
}

proof fn lemma_count_by_key(s: Seq<TimedEvent>, e: TimedEvent)
    ensures
        s.to_multiset().count(e) == events_with_key(s, event_key(e)).to_multiset().count(e),
    decreases s.len(),
{
    broadcast use vstd::multiset::group_multiset_axioms;

    if s.len() == 0 {
        assert(s.to_multiset() =~= vstd::multiset::Multiset::<TimedEvent>::empty()) by {
            vstd::seq_lib::to_multiset_len(s);
        }
        assert(events_with_key(s, event_key(e)).to_multiset() =~= vstd::multiset::Multiset::<TimedEvent>::empty())
            by {
            vstd::seq_lib::to_multiset_len(events_with_key(s, event_key(e)));
        }
    } else {
        let p = s.drop_last();
        let x = s.last();
        lemma_count_by_key(p, e);
        assert(s =~= p.push(x));
        vstd::seq_lib::to_multiset_build(p, x);
        if event_key(x) == event_key(e) {
            vstd::seq_lib::to_multiset_build(events_with_key(p, event_key(e)), x);
        } else {
            assert(x != e);
        }
    }
}

/// Sequences that agree, key by key, on their events hold the same events:
/// a sort that keeps each key's events in order loses and adds nothing.
pub proof fn lemma_same_events(a: Seq<TimedEvent>, b: Seq<TimedEvent>)
    requires
        forall|k: (u64, u8, usize)| #[trigger] events_with_key(a, k) == events_with_key(b, k),
    ensures
        a.to_multiset() == b.to_multiset(),
{
    assert forall|e: TimedEvent| a.to_multiset().count(e) == b.to_multiset().count(e) by {
        lemma_count_by_key(a, e);
        lemma_count_by_key(b, e);
        assert(events_with_key(a, event_key(e)) == events_with_key(b, event_key(e)));
    }
    assert(a.to_multiset() =~= b.to_multiset());
}

/// Position of an event's kind in the documented intra-tick order: meta
/// events (tempo, time signature, track name and text), note-offs, program
/// changes, controllers, pitch bends, aftertouch, note-ons, bar markers,
/// pattern boundaries.
pub open spec fn documented_kind_position(e: MidiEvent) -> int {
    if e is Tempo {
        0
    } else if e is TimeSignature {
        1
    } else if e is TrackName || e is TextMeta {
        2
    } else if e is NoteOff {
        3
    } else if e is ProgramChange {
        4
    } else if e is CC {
        5
    } else if e is PitchBend {
        6
    } else if e is Aftertouch {
        7
    } else if e is NoteOn {
        8
    } else if e is BarMarker {
        9
    } else {
        10
    }
}

/// The intra-tick priority orders event kinds as documented: one event's
/// priority is at most another's exactly when its kind comes no later in
/// the documented order.
pub proof fn lemma_priority_follows_documented_order(a: MidiEvent, b: MidiEvent)
    ensures
        (spec_priority(a) <= spec_priority(b)) == (documented_kind_position(a)
            <= documented_kind_position(b)),
{
}

/// Within one tick of a sorted stream (the result of `sort_event_stream`),
/// events come in the documented order of their kinds; in particular every
/// meta event, note-off, program change, controller, pitch bend and
/// aftertouch comes before every note-on, so a note sounds with the program
/// and controllers set at its tick.
pub proof fn lemma_sorted_stream_kind_order(s: Seq<TimedEvent>, i: int, j: int)
    requires
        stream_sorted(s),
        0 <= i < j < s.len(),
        s[i].tick == s[j].tick,
    ensures
        documented_kind_position(s[i].event) <= documented_kind_position(s[j].event),
        s[j].event is NoteOn ==> !(s[i].event is BarMarker || s[i].event is PatternBoundary),
        s[i].event is NoteOn ==> !(s[j].event is ProgramChange || s[j].event is CC
            || s[j].event is PitchBend || s[j].event is Aftertouch || s[j].event is NoteOff
            || s[j].event is Tempo || s[j].event is TimeSignature || s[j].event is TrackName
            || s[j].event is TextMeta),
{
    assert(key_le(event_key(s[i]), event_key(s[j])));
}

// ── Pairing note-offs ────────────────────────────────────────────────

/// `e` is a note-off of `channel`/`note` on `track`, from the step
/// `step_index`, at or after `on_tick`.
pub open spec fn is_paired_off(
    e: TimedEvent,
    track: usize,
    channel: u8,
    note: u8,
    step_index: Option<usize>,
    on_tick: u64,
) -> bool {
    &&& e.track == track
    &&& e.step_index == step_index
    &&& e.tick >= on_tick
    &&& e.event matches MidiEvent::NoteOff { channel: c, note: n } && c == channel && n == note
}

/// The first unclaimed paired note-off from position `j` on.
pub open spec fn paired_off_from(
    events: Seq<TimedEvent>,
    claimed: Seq<bool>,
    track: usize,
    channel: u8,
    note: u8,
    step_index: Option<usize>,
    on_tick: u64,
    j: int,
) -> Option<int>
    decreases events.len() - j,
{
    if j < 0 || j >= events.len() {
        None
    } else if !claimed[j] && is_paired_off(events[j], track, channel, note, step_index, on_tick) {
        Some(j)
    } else {
        paired_off_from(events, claimed, track, channel, note, step_index, on_tick, j + 1)
    }
}

/// The scan for a paired note-off from position `j` on reads only claimed
/// flags that exist.
pub open spec fn claims_cover_scan(
    events: Seq<TimedEvent>,
    claimed: Seq<bool>,
    track: usize,
    channel: u8,
    note: u8,
    step_index: Option<usize>,
    on_tick: u64,
    j: int,
) -> bool
    decreases events.len() - j,
{
    if j < 0 || j >= events.len() {
        true
    } else if j >= claimed.len() {
        false
    } else if !claimed[j] && is_paired_off(events[j], track, channel, note, step_index, on_tick) {
        true
    } else {
        claims_cover_scan(events, claimed, track, channel, note, step_index, on_tick, j + 1)
    }
}

/// Find the index of the NoteOff paired with a NoteOn in the accumulated
/// stream, or `None` if the pair is incomplete.
///
/// The pair is identified by (track, channel, note, step_index) plus
/// `off.tick >= on_tick`; `claimed[j] == true` marks offs already paired to
/// an earlier NoteOn.
pub fn find_paired_note_off(
    events: &Vec<TimedEvent>,
    claimed: &[bool],
    track_number: usize,
    channel: u8,
    note: u8,
    step_index: Option<usize>,
    on_tick: u64,
) -> (r: Option<usize>)
    requires
        claims_cover_scan(events@, claimed@, track_number, channel, note, step_index, on_tick, 0),
    ensures
        match paired_off_from(
            events@,
            claimed@,
            track_number,
            channel,
            note,
            step_index,
            on_tick,
            0,
        ) {
            Some(j) => r == Some(j as usize),
            None => r is None,
        },
{
    let mut j: usize = 0;
    while j < events.len()
        invariant
            j <= events@.len(),
            claims_cover_scan(events@, claimed@, track_number, channel, note, step_index, on_tick, j as int),
            paired_off_from(events@, claimed@, track_number, channel, note, step_index, on_tick, 0)
                == paired_off_from(
                events@,
                claimed@,
                track_number,
                channel,
                note,
                step_index,
                on_tick,
                j as int,
            ),
        decreases events@.len() - j,
    {
        let e = &events[j];
        let is_off = match &e.event {
            MidiEvent::NoteOff { channel: c, note: n } => *c == channel && *n == note,
            _ => false,
        };
        let same_step = match (e.step_index, step_index) {
            (Some(a), Some(b)) => a == b,
            (None, None) => true,
            _ => false,
        };
        if !claimed[j] && e.track == track_number && same_step && e.tick >= on_tick && is_off {
            return Some(j);
        }
        j = j + 1;
    }
    None
}

} // verus!
