use interval::ast::{
    Annotation, ArpPattern, CcValue, GlobalHeader, StepCondition, StepToken, TimingValue, TsBlock,
    TsEntry,
};
use interval::compiler::{
    apply_shift, bjorklund, collect_expr_transforms, compute_euclid_gate_mask, compute_unit_ticks,
    annotation_aftertouch, annotation_condition, annotation_dur, annotation_gate, annotation_glide,
    annotation_lshift, annotation_octave, annotation_pitch_bend, annotation_prob, annotation_ratch,
    annotation_ratch_decay, annotation_shift, annotation_vel, emit_annotation_cc, emit_cc_value,
    emit_ts_timeline, token_annotations, arp_cycle_from_draws, generate_arp_cycle, lerp_u8, settle_active_notes, ActiveNote,
    TieState, round_div, transform_order_phase, validate_expr_transform_order,
    validate_transform_order, BarLayout, PipelineExpr, TransformKind,
};
use interval::error::{CompileError, Span};
use interval::event::{MidiEvent, TimedEvent};

#[test]
fn test_compute_unit_ticks_quarter() {
    assert_eq!(compute_unit_ticks(480, 1, 4), 480);
}

#[test]
fn test_compute_unit_ticks_eighth() {
    assert_eq!(compute_unit_ticks(480, 1, 8), 240);
}

#[test]
fn test_compute_unit_ticks_sixteenth() {
    assert_eq!(compute_unit_ticks(480, 1, 16), 120);
}

#[test]
fn test_compute_unit_ticks_half() {
    assert_eq!(compute_unit_ticks(480, 1, 2), 960);
}

#[test]
fn test_compute_bar_ticks_4_4() {
    let header = GlobalHeader {
        ppq: 480,
        ts_numerator: 4,
        ts_denominator: 4,
        ..Default::default()
    };
    assert_eq!(BarLayout::from_header(&header).ticks_for_bar(1), 1920); // 480 * 4
}

#[test]
fn test_compute_bar_ticks_3_4() {
    let header = GlobalHeader {
        ppq: 480,
        ts_numerator: 3,
        ts_denominator: 4,
        ..Default::default()
    };
    assert_eq!(BarLayout::from_header(&header).ticks_for_bar(1), 1440); // 480 * 3
}

#[test]
fn test_apply_shift_positive() {
    assert_eq!(apply_shift(100, 10), 110);
}

#[test]
fn test_apply_shift_negative_clamp() {
    assert_eq!(apply_shift(5, -10), 0);
}

fn order_error(kinds: &[TransformKind]) -> CompileError {
    validate_transform_order(kinds, Span::new(3, 9)).expect_err("misordered pipeline must error")
}

#[test]
fn test_order_humanize_before_swing_is_error() {
    let err = order_error(&[TransformKind::Humanize, TransformKind::Swing]);
    match err {
        CompileError::ParseError { message, .. } => {
            assert!(
                message.contains("swing") && message.contains("humanize"),
                "error must name the misordered pair, got: {message}"
            );
        }
        other => panic!("expected ParseError for transform order, got: {other:?}"),
    }
}

#[test]
fn test_order_humanize_before_expressive_is_error() {
    let err = order_error(&[TransformKind::Humanize, TransformKind::Rubato]);
    match err {
        CompileError::ParseError { message, .. } => {
            assert!(
                message.contains("rubato") && message.contains("humanize"),
                "error must name the misordered pair, got: {message}"
            );
        }
        other => panic!("expected ParseError for transform order, got: {other:?}"),
    }
}

#[test]
fn test_order_expressive_before_swing_is_error() {
    let err = order_error(&[TransformKind::Rubato, TransformKind::Swing]);
    assert!(
        matches!(err, CompileError::ParseError { .. }),
        "expected ParseError for transform order, got: {err:?}"
    );
}

// ── Further scenarios ───────────────────────────────────────────

#[test]
fn canonical_order_is_accepted() {
    let ok = validate_transform_order(
        &[
            TransformKind::Reverse,
            TransformKind::Swing,
            TransformKind::Rubato,
            TransformKind::Humanize,
            TransformKind::Echo,
        ],
        Span::new(0, 0),
    );
    assert!(ok.is_ok());
    assert!(validate_transform_order(&[], Span::new(0, 0)).is_ok());
}

#[test]
fn order_error_message_and_span() {
    let err = order_error(&[TransformKind::Swell, TransformKind::Humanize, TransformKind::Swing]);
    match err {
        CompileError::ParseError { message, span } => {
            assert_eq!(
                message,
                "transform pipeline order: 'swing' must come before 'humanize' — canonical order is swing → expressive transforms → humanize"
            );
            assert_eq!(span, Span::new(3, 9));
        }
        other => panic!("unexpected {other:?}"),
    }
}

#[test]
fn order_phases() {
    assert_eq!(transform_order_phase(TransformKind::Swing), Some((1, "swing")));
    assert_eq!(transform_order_phase(TransformKind::Phrase), Some((2, "phrase")));
    assert_eq!(transform_order_phase(TransformKind::Humanize), Some((3, "humanize")));
    assert_eq!(transform_order_phase(TransformKind::Arp), None);
}

#[test]
fn round_div_rounds_half_up() {
    assert_eq!(round_div(7, 2), 4);
    assert_eq!(round_div(5, 3), 2);
    assert_eq!(round_div(4, 3), 1);
    assert_eq!(compute_unit_ticks(480, 1, 7), 274);
}

#[test]
fn apply_shift_exact_zero() {
    assert_eq!(apply_shift(10, -10), 0);
    assert_eq!(apply_shift(0, 0), 0);
}

#[test]
fn bjorklund_patterns() {
    let x = true;
    let o = false;
    assert_eq!(bjorklund(3, 8), vec![x, o, o, x, o, o, x, o]);
    assert_eq!(bjorklund(2, 5), vec![x, o, x, o, o]);
    assert_eq!(bjorklund(0, 3), vec![o, o, o]);
    assert_eq!(bjorklund(5, 3), vec![x, x, x]);
    assert!(bjorklund(1, 0).is_empty());
}

#[test]
fn bjorklund_counts() {
    for steps in 0u32..=16 {
        for pulses in 0u32..=18 {
            let r = bjorklund(pulses, steps);
            assert_eq!(r.len(), steps as usize);
            let count = r.iter().filter(|b| **b).count() as u32;
            assert_eq!(count, pulses.min(steps));
        }
    }
}

#[test]
fn euclid_mask_cycles() {
    let m = compute_euclid_gate_mask(7, 1, 3);
    assert_eq!(m, vec![true, false, false, true, false, false, true]);
    assert_eq!(compute_euclid_gate_mask(3, 2, 0), vec![true, true, true]);
    assert!(compute_euclid_gate_mask(0, 2, 4).is_empty());
}

#[test]
fn arp_cycles() {
    let tones = [60u8, 64, 67, 71];
    assert_eq!(arp_cycle_from_draws(&tones, ArpPattern::Up, &[]), vec![60, 64, 67, 71]);
    assert_eq!(arp_cycle_from_draws(&tones, ArpPattern::Down, &[]), vec![71, 67, 64, 60]);
    assert_eq!(
        arp_cycle_from_draws(&tones, ArpPattern::UpDown, &[]),
        vec![60, 64, 67, 71, 67, 64]
    );
    assert_eq!(arp_cycle_from_draws(&[60, 64, 67], ArpPattern::UpDown, &[]), vec![60, 64, 67, 64]);
    assert_eq!(arp_cycle_from_draws(&[60], ArpPattern::UpDown, &[]), vec![60]);
    assert!(arp_cycle_from_draws(&[], ArpPattern::Random, &[]).is_empty());
}

#[test]
fn arp_random_is_seeded_shuffle() {
    let tones = [60u8, 64, 67, 71];
    // i = 3: 5 % 4 = 1 → swap 3,1; i = 2: 2 % 3 = 2 → no change; i = 1: 7 % 2 = 1 → no change.
    assert_eq!(
        arp_cycle_from_draws(&tones, ArpPattern::Random, &[5, 2, 7]),
        vec![60, 71, 67, 64]
    );
    let mut shuffled = arp_cycle_from_draws(&tones, ArpPattern::Random, &[9, 4, 0]);
    shuffled.sort();
    assert_eq!(shuffled, vec![60, 64, 67, 71]);
}

fn header() -> GlobalHeader {
    GlobalHeader::default()
}

#[test]
fn bar_layout_from_header() {
    let layout = BarLayout::from_header(&header());
    assert_eq!(layout.ticks_for_bar(1), 1920);
    assert_eq!(layout.ticks_for_bar(99), 1920);
    assert_eq!(layout.bar_start_tick(3), 3840);
    assert_eq!(layout.ts_for_bar(5), (4, 4));
    assert_eq!(layout.bar_at_tick(3839), (2, 1920));
    assert!(layout.is_bar_start(5760));
    assert!(!layout.is_bar_start(5761));
    assert_eq!(BarLayout::compute_bar_ticks_for(480, 3, 4), 1440);
    assert_eq!(BarLayout::compute_bar_ticks_for(480, 7, 8), 1680);
}

#[test]
fn bar_layout_from_timeline() {
    let ts = TsBlock {
        entries: vec![
            TsEntry {
                numerator: 4,
                denominator: 4,
                bars: Some(2),
                span: None,
            },
            TsEntry {
                numerator: 3,
                denominator: 4,
                bars: None,
                span: None,
            },
        ],
        span: None,
    };
    let layout = BarLayout::from_ts_block(&ts, 480, 4, 4);
    assert_eq!(layout.ticks_for_bar(1), 1920);
    assert_eq!(layout.ticks_for_bar(3), 1440);
    assert_eq!(layout.ticks_for_bar(4), 1440);
    assert_eq!(layout.bar_start_tick(3), 3840);
    assert_eq!(layout.bar_start_tick(5), 3840 + 2 * 1440);
    assert_eq!(layout.ts_for_bar(2), (4, 4));
    assert_eq!(layout.ts_for_bar(6), (3, 4));
    assert_eq!(layout.bar_at_tick(4000), (3, 3840));
    assert_eq!(layout.bar_at_tick(5300), (4, 5280));
    assert!(layout.is_bar_start(5280));
}

fn pref(name: &str) -> Box<PipelineExpr> {
    Box::new(PipelineExpr::Ref {
        name: name.to_string(),
    })
}

fn apply(pattern: Box<PipelineExpr>, transform: TransformKind) -> Box<PipelineExpr> {
    Box::new(PipelineExpr::Transform { pattern, transform })
}

#[test]
fn test_order_canonical_pipeline_compiles() {
    // p -> reverse -> swing -> rubato -> humanize
    let e = apply(
        apply(
            apply(apply(pref("p"), TransformKind::Reverse), TransformKind::Swing),
            TransformKind::Rubato,
        ),
        TransformKind::Humanize,
    );
    assert!(validate_expr_transform_order(&e, Span::new(0, 0)).is_ok());
}

#[test]
fn test_order_separate_pipelines_are_independent() {
    // (a -> humanize) >> (b -> swing)
    let e = PipelineExpr::Concat {
        left: apply(pref("a"), TransformKind::Humanize),
        right: apply(pref("b"), TransformKind::Swing),
    };
    assert!(validate_expr_transform_order(&e, Span::new(0, 0)).is_ok());
}

#[test]
fn chain_inside_repeat_is_checked() {
    // (p -> humanize -> swing) * 2
    let e = PipelineExpr::Repeat {
        pattern: apply(apply(pref("p"), TransformKind::Humanize), TransformKind::Swing),
        count: 2,
    };
    let err = validate_expr_transform_order(&e, Span::new(1, 2)).unwrap_err();
    assert_eq!(
        err.message(),
        "transform pipeline order: 'swing' must come before 'humanize' — canonical order is swing → expressive transforms → humanize"
    );
    // A chain applied to a parenthesized chain is a separate pipeline.
    let nested = apply(
        Box::new(PipelineExpr::Concat {
            left: apply(pref("a"), TransformKind::Swing),
            right: pref("b"),
        }),
        TransformKind::Humanize,
    );
    assert!(validate_expr_transform_order(&nested, Span::new(0, 0)).is_ok());
}

#[test]
fn collect_transforms_in_order() {
    let e = PipelineExpr::ConcatSoft {
        left: apply(apply(pref("a"), TransformKind::Reverse), TransformKind::Swing),
        right: Box::new(PipelineExpr::RepeatSoft {
            pattern: apply(pref("b"), TransformKind::Echo),
            count: 3,
        }),
    };
    assert_eq!(
        collect_expr_transforms(&e),
        vec![TransformKind::Reverse, TransformKind::Swing, TransformKind::Echo]
    );
}

fn ts(numerator: u8, denominator: u8, bars: Option<u32>) -> TsEntry {
    TsEntry {
        numerator,
        denominator,
        bars,
        span: None,
    }
}

#[test]
fn ts_timeline_emits_changes_only() {
    let block = TsBlock {
        entries: vec![
            ts(4, 4, Some(2)),
            ts(3, 4, Some(1)),
            ts(3, 4, Some(1)),
            ts(4, 4, None),
        ],
        span: None,
    };
    let layout = BarLayout::from_ts_block(&block, 480, 4, 4);
    let mut events = vec![TimedEvent::new(7, 2, MidiEvent::BarMarker { bar: 1 })];
    emit_ts_timeline(&mut events, &block, &layout);
    let sig = |tick: u64, numerator: u8, denominator: u8| {
        TimedEvent::new(tick, 0, MidiEvent::TimeSignature { numerator, denominator })
    };
    assert_eq!(
        events,
        vec![
            TimedEvent::new(7, 2, MidiEvent::BarMarker { bar: 1 }),
            sig(0, 4, 4),
            sig(3840, 3, 4),
            sig(6720, 4, 4),
        ]
    );
}

#[test]
fn ts_timeline_entry_without_bars_does_not_advance() {
    let block = TsBlock {
        entries: vec![ts(5, 8, None), ts(7, 8, Some(1))],
        span: None,
    };
    let layout = BarLayout::from_ts_block(&block, 480, 4, 4);
    let mut events = Vec::new();
    emit_ts_timeline(&mut events, &block, &layout);
    assert_eq!(events.len(), 2);
    assert_eq!(events[0].tick, 0);
    assert_eq!(events[1].tick, 0);
    assert_eq!(events[1].event, MidiEvent::TimeSignature { numerator: 7, denominator: 8 });
}

fn note(note: u8, on_tick: u64, slot: u64, nominal: u64, gated: Option<u64>, carried: bool) -> ActiveNote {
    ActiveNote {
        note,
        on_tick,
        slot,
        nominal_ticks: nominal,
        gated_ticks: gated.unwrap_or(0),
        gated: gated.is_some(),
        carried,
        condition: None,
        step_index: Some(slot as usize / 480),
    }
}

fn off(tick: u64, note: u8, step: usize) -> TimedEvent {
    TimedEvent {
        tick,
        track: 1,
        event: MidiEvent::NoteOff { channel: 3, note },
        condition: None,
        step_index: Some(step),
    }
}

#[test]
fn settle_keeps_siblings_and_truncates_restrikes() {
    let mut ties = TieState::new("p".to_string());
    ties.active = vec![
        note(60, 0, 0, 960, Some(768), false),
        note(64, 480, 480, 480, Some(384), false),
        note(67, 480, 480, 960, None, false),
    ];
    let mut events = Vec::new();
    settle_active_notes(&mut events, &mut ties, 1, 3, Some(480), Some(480), Some(&[60]));
    // The restruck C4 would sound until 768; it is cut at the new onset.
    assert_eq!(events, vec![off(480, 60, 0)]);
    assert_eq!(ties.active.len(), 2);
    assert_eq!(ties.active[0].note, 64);
    assert_eq!(ties.active[1].note, 67);

    settle_active_notes(&mut events, &mut ties, 1, 3, None, None, None);
    assert_eq!(events, vec![off(480, 60, 0), off(864, 64, 1), off(1440, 67, 1)]);
    assert!(ties.active.is_empty());
}

#[test]
fn settle_carried_note_ends_at_next_onset() {
    let mut ties = TieState::new("p".to_string());
    ties.active = vec![
        note(62, 0, 0, 480, Some(240), true),
        note(65, 0, 0, 480, Some(240), false),
    ];
    let mut events = Vec::new();
    settle_active_notes(&mut events, &mut ties, 1, 3, Some(960), Some(960), Some(&[65]));
    // A restruck pitch already off before the onset keeps its own end.
    assert_eq!(events, vec![off(960, 62, 0), off(240, 65, 0)]);
    assert!(ties.active.is_empty());
}

#[test]
fn test_lerp_u8() {
    // The fraction of the way is given in quarters: 0.0, 1.0, 0.5, 0.25.
    assert_eq!(lerp_u8(0, 127, 0), 0);
    assert_eq!(lerp_u8(0, 127, 4), 127);
    assert_eq!(lerp_u8(0, 127, 2), 64);
    assert_eq!(lerp_u8(40, 88, 1), 52);
}

#[test]
fn lerp_u8_rounds_and_clamps() {
    // 127 * 0.75 = 95.25 and 200 * 0.5 = 100 (descending ramps too).
    assert_eq!(lerp_u8(0, 127, 3), 95);
    assert_eq!(lerp_u8(200, 0, 2), 100);
    assert_eq!(lerp_u8(255, 255, 1), 127);
    assert_eq!(lerp_u8(1, 2, 2), 2); // 1.5 rounds away from zero
}

fn cc(tick: u64, controller: u8, value: u8) -> TimedEvent {
    TimedEvent::new(tick, 2, MidiEvent::CC { channel: 5, controller, value })
}

#[test]
fn emit_cc_value_static_and_ramp() {
    let mut events = Vec::new();
    emit_cc_value(&mut events, 64, &CcValue::Static(100), 1000, 480, -10, 2, 5);
    assert_eq!(events, vec![cc(990, 64, 100)]);

    let mut events = Vec::new();
    emit_cc_value(&mut events, 11, &CcValue::Ramp { start: 0, end: 127 }, 1000, 480, -10, 2, 5);
    assert_eq!(
        events,
        vec![cc(990, 11, 0), cc(1110, 11, 32), cc(1230, 11, 64), cc(1350, 11, 95)]
    );

    // A shift before tick 0 clamps to 0.
    let mut events = Vec::new();
    emit_cc_value(&mut events, 7, &CcValue::Ramp { start: 100, end: 20 }, 0, 100, -30, 2, 5);
    assert_eq!(
        events,
        vec![cc(0, 7, 100), cc(0, 7, 80), cc(20, 7, 60), cc(45, 7, 40)]
    );
}

#[test]
fn bjorklund_spreads_pulses_evenly() {
    for steps in 2..=24u32 {
        for pulses in 1..steps {
            let r = bjorklund(pulses, steps);
            assert!(r[0], "E({pulses},{steps}) starts with a rest");
            let q = ((steps - pulses) / pulses) as usize;
            let mut gaps = Vec::new();
            for (i, &hit) in r.iter().enumerate() {
                if hit {
                    gaps.push(r[i + 1..].iter().take_while(|&&h| !h).count());
                }
            }
            assert_eq!(gaps.len(), pulses as usize);
            assert!(
                gaps.iter().all(|&g| g == q || g == q + 1),
                "E({pulses},{steps}) gaps {gaps:?}"
            );
        }
    }
}

#[test]
fn annotation_extraction_takes_the_first_of_each_kind() {
    let anns = vec![
        Annotation::Vel(90),
        Annotation::Gate(0.5f64.to_bits()),
        Annotation::Vel(30),
        Annotation::Dur(1, 8),
        Annotation::Shift(TimingValue::Fraction(-1, 32)),
        Annotation::LShift(TimingValue::Percent(5.0f64.to_bits())),
        Annotation::Oct(5),
        Annotation::PitchBend(-200),
        Annotation::Condition(StepCondition::Cond(2, 4)),
        Annotation::Aftertouch(64),
        Annotation::Ratch(3),
        Annotation::RatchDecay(0.8f64.to_bits()),
        Annotation::Prob(0.25f64.to_bits()),
        Annotation::Glide(None),
        Annotation::Glide(Some(0.5f64.to_bits())),
    ];
    assert_eq!(annotation_vel(&anns), Some(90));
    assert_eq!(annotation_gate(&anns).map(f64::from_bits), Some(0.5));
    assert_eq!(annotation_dur(&anns), Some((1, 8)));
    assert_eq!(annotation_shift(&anns), Some(TimingValue::Fraction(-1, 32)));
    assert_eq!(annotation_lshift(&anns), Some(TimingValue::Percent(5.0f64.to_bits())));
    assert_eq!(annotation_octave(&anns), Some(5));
    assert_eq!(annotation_pitch_bend(&anns), Some(-200));
    assert_eq!(annotation_condition(&anns), Some(StepCondition::Cond(2, 4)));
    assert_eq!(annotation_aftertouch(&anns), Some(64));
    assert_eq!(annotation_ratch(&anns), Some(3));
    assert_eq!(f64::from_bits(annotation_ratch_decay(&anns)), 0.8);
    assert_eq!(annotation_prob(&anns).map(f64::from_bits), Some(0.25));
    assert_eq!(annotation_glide(&anns), Some(None));

    let none: Vec<Annotation> = vec![Annotation::Sus(127)];
    assert_eq!(annotation_vel(&none), None);
    assert_eq!(annotation_glide(&none), None);
    assert_eq!(f64::from_bits(annotation_ratch_decay(&none)), 1.0);
}

#[test]
fn token_annotations_by_kind() {
    let degree = StepToken::Degree {
        degree: 1,
        accidental: 0,
        octave: None,
        annotations: vec![Annotation::Vel(100), Annotation::Oct(3)],
    };
    assert_eq!(token_annotations(&degree), &[Annotation::Vel(100), Annotation::Oct(3)]);
    assert!(token_annotations(&StepToken::Rest).is_empty());
    let sub = StepToken::Subdivision { tokens: vec![degree] };
    assert!(token_annotations(&sub).is_empty());
}

#[test]
fn annotation_controllers_in_order() {
    let anns = vec![
        Annotation::Vel(100),
        Annotation::Sus(127),
        Annotation::Expr(CcValue::Ramp { start: 40, end: 88 }),
        Annotation::Cc(74, CcValue::Static(30)),
        Annotation::Pan(CcValue::Static(64)),
    ];
    let mut events = Vec::new();
    emit_annotation_cc(&mut events, &anns, 960, 480, 0, 2, 5);
    assert_eq!(
        events,
        vec![
            cc(960, 64, 127),
            cc(960, 11, 40),
            cc(1080, 11, 52),
            cc(1200, 11, 64),
            cc(1320, 11, 76),
            cc(960, 74, 30),
            cc(960, 10, 64),
        ]
    );
}

fn xorshift_step(s: u64) -> (u64, u64) {
    let mut x = s;
    x ^= x << 13;
    x ^= x >> 7;
    x ^= x << 17;
    (x, x)
}

#[test]
fn arp_cycle_draws_from_the_seeded_generator() {
    let tones = [60u8, 64, 67, 71];
    let mut state: u64 = 42;
    assert_eq!(generate_arp_cycle(&tones, ArpPattern::UpDown, &mut state, &xorshift_step), vec![60, 64, 67, 71, 67, 64]);
    assert_eq!(state, 42);

    let (d1, s1) = xorshift_step(42);
    let (d2, s2) = xorshift_step(s1);
    let (d3, s3) = xorshift_step(s2);
    let shuffled = generate_arp_cycle(&tones, ArpPattern::Random, &mut state, &xorshift_step);
    assert_eq!(shuffled, arp_cycle_from_draws(&tones, ArpPattern::Random, &[d1, d2, d3]));
    assert_eq!(state, s3);
    assert_ne!(state, 42);
}
