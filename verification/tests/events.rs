use interval::ast::StepCondition;
use interval::event::{find_paired_note_off, sort_event_stream, MidiEvent, TimedEvent};

fn note_on(note: u8) -> MidiEvent {
    MidiEvent::NoteOn {
        channel: 0,
        note,
        velocity: 100,
    }
}

#[test]
fn priorities_order_meta_before_notes() {
    assert_eq!(MidiEvent::Tempo { bpm_bits: 120f64.to_bits() }.sort_priority(), 0);
    assert_eq!(
        MidiEvent::TimeSignature {
            numerator: 4,
            denominator: 4
        }
        .sort_priority(),
        1
    );
    assert_eq!(MidiEvent::TrackName { name: "a".into() }.sort_priority(), 2);
    assert_eq!(MidiEvent::TextMeta { text: "a".into() }.sort_priority(), 2);
    assert_eq!(MidiEvent::NoteOff { channel: 0, note: 60 }.sort_priority(), 3);
    assert_eq!(note_on(60).sort_priority(), 8);
    assert_eq!(MidiEvent::BarMarker { bar: 1 }.sort_priority(), 9);
}

#[test]
fn event_equality_by_fields() {
    assert_eq!(note_on(60), note_on(60));
    assert_ne!(note_on(60), note_on(61));
    assert_ne!(note_on(60), MidiEvent::NoteOff { channel: 0, note: 60 });
    assert_eq!(
        MidiEvent::Tempo { bpm_bits: 90f64.to_bits() },
        MidiEvent::Tempo { bpm_bits: 90f64.to_bits() }
    );
    assert_eq!(
        MidiEvent::PatternBoundary {
            track: 1,
            pattern_name: "verse".into()
        },
        MidiEvent::PatternBoundary {
            track: 1,
            pattern_name: "verse".into()
        }
    );
    assert_ne!(
        MidiEvent::TrackName { name: "a".into() },
        MidiEvent::TrackName { name: "b".into() }
    );
}

#[test]
fn constructors() {
    let e = TimedEvent::new(10, 2, note_on(64));
    assert_eq!(e.tick, 10);
    assert_eq!(e.track, 2);
    assert!(e.condition.is_none());
    assert!(e.step_index.is_none());
    let c = TimedEvent::with_condition(5, 1, note_on(60), StepCondition::Every(2));
    assert_eq!(c.condition, Some(StepCondition::Every(2)));
}

#[test]
fn sort_orders_by_tick_priority_track_and_is_stable() {
    let mut events = vec![
        TimedEvent::new(480, 1, note_on(62)),
        TimedEvent::new(0, 2, note_on(60)),
        TimedEvent::new(0, 1, note_on(64)),
        TimedEvent::new(0, 1, MidiEvent::NoteOff { channel: 0, note: 50 }),
        TimedEvent::new(0, 0, MidiEvent::Tempo { bpm_bits: 120f64.to_bits() }),
        TimedEvent::new(0, 1, note_on(67)),
        TimedEvent::new(480, 1, MidiEvent::BarMarker { bar: 2 }),
    ];
    sort_event_stream(&mut events);
    let summary: Vec<(u64, usize, u8)> = events
        .iter()
        .map(|e| (e.tick, e.track, e.event.sort_priority()))
        .collect();
    assert_eq!(
        summary,
        vec![(0, 0, 0), (0, 1, 3), (0, 1, 8), (0, 1, 8), (0, 2, 8), (480, 1, 8), (480, 1, 9)]
    );
    // Equal keys keep their order: note 64 was before note 67.
    assert_eq!(events[2].event, note_on(64));
    assert_eq!(events[3].event, note_on(67));
}

#[test]
fn sort_large_reverse_stream() {
    let mut events: Vec<TimedEvent> = (0..2000u64)
        .rev()
        .map(|t| TimedEvent::new(t / 2, 1, note_on((t % 100) as u8)))
        .collect();
    sort_event_stream(&mut events);
    assert_eq!(events.len(), 2000);
    for w in events.windows(2) {
        assert!(w[0].tick <= w[1].tick);
    }
    // Two events per tick, in their input (descending) order.
    assert_eq!(events[0].event, note_on(1));
    assert_eq!(events[1].event, note_on(0));
}

#[test]
fn paired_note_off_skips_claimed_and_early_offs() {
    let off = |tick: u64, note: u8, step: usize| TimedEvent {
        tick,
        track: 1,
        event: MidiEvent::NoteOff { channel: 0, note },
        condition: None,
        step_index: Some(step),
    };
    let events = vec![
        off(5, 60, 0),
        off(20, 60, 0),
        off(30, 60, 0),
        off(30, 61, 0),
        off(40, 60, 1),
    ];
    let mut claimed = vec![false; events.len()];
    assert_eq!(find_paired_note_off(&events, &claimed, 1, 0, 60, Some(0), 10), Some(1));
    claimed[1] = true;
    assert_eq!(find_paired_note_off(&events, &claimed, 1, 0, 60, Some(0), 10), Some(2));
    assert_eq!(find_paired_note_off(&events, &claimed, 1, 0, 60, Some(1), 10), Some(4));
    assert_eq!(find_paired_note_off(&events, &claimed, 2, 0, 60, Some(0), 10), None);
    assert_eq!(find_paired_note_off(&events, &claimed, 1, 3, 60, Some(0), 0), None);
}
