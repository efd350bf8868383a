use interval::ast::{
    Bar, BarChord, ChordSymbol, GlobalHeader, HarmonyBlock, Inversion, ScaleBlock, ScaleEntry,
    Section, TonalContext, VoicingStrategy,
};
use interval::compiler::BarLayout;
use interval::introspect::harmony_timeline;
use interval::harmony::{
    parse_chord_symbol, parse_chord_symbol_with_context, HarmonyIndex, ScaleTimeline,
};

fn make_header() -> GlobalHeader {
    GlobalHeader {
        ppq: 480,
        ts_numerator: 4,
        ts_denominator: 4,
        ..Default::default()
    }
}

fn make_chord(root_str: &str) -> ChordSymbol {
    parse_chord_symbol(root_str).unwrap()
}

fn default_scale_timeline() -> ScaleTimeline {
    ScaleTimeline::from_tonal_context(&TonalContext::default()).unwrap()
}

fn bar_chord(chord: ChordSymbol, beats: Option<u8>) -> BarChord {
    BarChord {
        chord,
        beats,
        span: None,
    }
}

fn block_with_bars(name: &str, bars: Vec<Bar>, sections: Vec<Section>) -> HarmonyBlock {
    HarmonyBlock {
        name: Some(name.to_string()),
        play: false,
        channel: None,
        program: None,
        voice: VoicingStrategy::Close,
        octave: 4,
        velocity: 72,
        inv: Inversion::Fixed(0),
        bars,
        sections,
        span: None,
    }
}

/// Build a minimal harmony block from per-bar chord lists.
fn make_block(bars: Vec<Vec<ChordSymbol>>) -> HarmonyBlock {
    block_with_bars(
        "main",
        bars.into_iter()
            .map(|chords| Bar {
                chords: chords.into_iter().map(|c| bar_chord(c, None)).collect(),
                steps: None,
                span: None,
            })
            .collect(),
        vec![],
    )
}

fn build(block: &HarmonyBlock, header: &GlobalHeader, timeline: &ScaleTimeline) -> HarmonyIndex {
    HarmonyIndex::build(block, header, timeline, &BarLayout::from_header(header)).unwrap()
}

#[test]
fn test_simple_harmony_index() {
    let block = block_with_bars(
        "main",
        vec![
            Bar {
                chords: vec![bar_chord(make_chord("Cmaj7"), None)],
                steps: None,
                span: None,
            },
            Bar {
                chords: vec![bar_chord(make_chord("Am7"), None)],
                steps: None,
                span: None,
            },
            Bar {
                chords: vec![
                    bar_chord(make_chord("Dm7"), None),
                    bar_chord(make_chord("G7"), None),
                ],
                steps: None,
                span: None,
            },
            Bar {
                chords: vec![bar_chord(make_chord("Cmaj7"), None)],
                steps: None,
                span: None,
            },
        ],
        vec![],
    );
    let header = make_header();
    let index = build(&block, &header, &default_scale_timeline());

    // 4 bars at 480 ppq, 4/4 = 1920 ticks per bar, total 7680
    assert_eq!(index.total_ticks, 7680);

    let ctx = index.query(0).unwrap();
    assert_eq!(ctx.chord.root, 0);
    let ctx = index.query(1919).unwrap();
    assert_eq!(ctx.chord.root, 0);
    let ctx = index.query(1920).unwrap();
    assert_eq!(ctx.chord.root, 9);
    let ctx = index.query(3840).unwrap();
    assert_eq!(ctx.chord.root, 2);
    let ctx = index.query(4800).unwrap();
    assert_eq!(ctx.chord.root, 7);
    let ctx = index.query(5760).unwrap();
    assert_eq!(ctx.chord.root, 0);
}

#[test]
fn test_more_chords_than_beats_is_error() {
    let block = make_block(vec![vec![
        make_chord("C"),
        make_chord("Dm"),
        make_chord("Em"),
        make_chord("F"),
        make_chord("G"),
    ]]);
    let header = make_header();
    let err = HarmonyIndex::build(
        &block,
        &header,
        &default_scale_timeline(),
        &BarLayout::from_header(&header),
    )
    .expect_err("5 chords in 4 beats must error");
    let msg = err.message();
    assert!(
        msg.contains("bar 1 has 5 chords but only 4 beats"),
        "unexpected message: {msg}"
    );
    assert!(msg.contains("use steps: or explicit beat counts"));
}

#[test]
fn test_chords_equal_beats_still_allowed() {
    let block = make_block(vec![vec![
        make_chord("C"),
        make_chord("Dm"),
        make_chord("Em"),
        make_chord("F"),
    ]]);
    let header = make_header();
    let index = HarmonyIndex::build(
        &block,
        &header,
        &default_scale_timeline(),
        &BarLayout::from_header(&header),
    )
    .expect("4 chords in 4 beats is fine");
    assert_eq!(index.spans().len(), 4);
    assert!(index.spans().iter().all(|s| s.end_tick > s.start_tick));
}

/// C major for 1 bar, then C minor (aeolian) from bar 2 on.
fn major_then_minor_timeline() -> ScaleTimeline {
    ScaleTimeline::from_scale_block(&ScaleBlock {
        entries: vec![
            ScaleEntry {
                root: Some(0),
                mode: Some("major".to_string()),
                bars: Some(1),
                span: None,
            },
            ScaleEntry {
                root: None,
                mode: Some("minor".to_string()),
                bars: None,
                span: None,
            },
        ],
        span: None,
    })
    .unwrap()
}

fn c_major_context() -> TonalContext {
    TonalContext {
        root: Some(0),
        mode: "major".to_string(),
        span: None,
    }
}

#[test]
fn test_bare_roman_quality_rederived_across_mode_change() {
    let i_chord = parse_chord_symbol_with_context("I", &c_major_context()).unwrap();
    let block = make_block(vec![vec![i_chord.clone()], vec![i_chord]]);
    let header = make_header();
    let index = build(&block, &header, &major_then_minor_timeline());

    let bar1 = index.query(0).unwrap();
    assert_eq!(bar1.chord.root, 0);
    assert_eq!(bar1.chord.intervals, vec![0, 4, 7], "bar 1: C major triad");

    let bar2 = index.query(1920).unwrap();
    assert_eq!(bar2.chord.root, 0);
    assert_eq!(
        bar2.chord.intervals,
        vec![0, 3, 7],
        "bar 2 (C minor): tonic triad re-derived to minor"
    );
}

#[test]
fn test_bare_roman_diminished_rederived_across_mode_change() {
    let ii_chord = parse_chord_symbol_with_context("ii", &c_major_context()).unwrap();
    let block = make_block(vec![vec![ii_chord.clone()], vec![ii_chord]]);
    let header = make_header();
    let index = build(&block, &header, &major_then_minor_timeline());
    let bar1 = index.query(0).unwrap();
    assert_eq!(
        (bar1.chord.root, bar1.chord.intervals.clone()),
        (2, vec![0, 3, 7])
    );
    let bar2 = index.query(1920).unwrap();
    assert_eq!(
        (bar2.chord.root, bar2.chord.intervals.clone()),
        (2, vec![0, 3, 6]),
        "ii in C minor is the diminished supertonic triad"
    );
}

#[test]
fn test_explicit_roman_quality_kept_across_mode_change() {
    let v7_chord = parse_chord_symbol_with_context("V7", &c_major_context()).unwrap();
    assert_eq!(v7_chord.intervals, vec![0, 4, 7, 10]);
    let maj7 = parse_chord_symbol_with_context("IIImaj7", &c_major_context()).unwrap();
    let block = make_block(vec![vec![v7_chord.clone()], vec![v7_chord, maj7]]);
    let header = make_header();
    let index = build(&block, &header, &major_then_minor_timeline());
    let bar2_v7 = index.query(1920).unwrap();
    assert_eq!(bar2_v7.chord.root, 7, "root re-resolves against the bar's mode");
    assert_eq!(
        bar2_v7.chord.intervals,
        vec![0, 4, 7, 10],
        "explicit V7 quality is kept verbatim"
    );
    let bar2_iiimaj7 = index.query(2880).unwrap();
    assert_eq!(
        bar2_iiimaj7.chord.root, 3,
        "III root moves to the minor-mode mediant (Eb)"
    );
    assert_eq!(
        bar2_iiimaj7.chord.intervals,
        vec![0, 4, 7, 11],
        "explicit maj7 quality is kept verbatim"
    );
}

#[test]
fn test_letter_chords_untouched_by_mode_change() {
    let block = make_block(vec![vec![make_chord("Cmaj7")], vec![make_chord("Cmaj7")]]);
    let header = make_header();
    let index = build(&block, &header, &major_then_minor_timeline());
    let bar2 = index.query(1920).unwrap();
    assert_eq!(bar2.chord.root, 0);
    assert_eq!(bar2.chord.intervals, vec![0, 4, 7, 11]);
}

#[test]
fn test_explicit_beat_assignment() {
    let block = block_with_bars(
        "main",
        vec![Bar {
            chords: vec![
                bar_chord(make_chord("Dm7"), Some(3)),
                bar_chord(make_chord("G7"), Some(1)),
            ],
            steps: None,
            span: None,
        }],
        vec![],
    );
    let header = make_header();
    let index = build(&block, &header, &default_scale_timeline());

    let ctx = index.query(0).unwrap();
    assert_eq!(ctx.chord.root, 2);
    let ctx = index.query(1439).unwrap();
    assert_eq!(ctx.chord.root, 2);
    let ctx = index.query(1440).unwrap();
    assert_eq!(ctx.chord.root, 7);
}

#[test]
fn test_steps_block() {
    let block = block_with_bars(
        "main",
        vec![Bar {
            chords: vec![bar_chord(make_chord("Cmaj7"), None)],
            steps: Some(vec![
                make_chord("Bbmaj7"),
                make_chord("Bbmaj7"),
                make_chord("Amaj7"),
                make_chord("Amaj7"),
                make_chord("Abmaj7"),
                make_chord("Abmaj7"),
                make_chord("Gmaj7"),
                make_chord("Gmaj7"),
            ]),
            span: None,
        }],
        vec![],
    );
    let header = make_header();
    let index = build(&block, &header, &default_scale_timeline());

    let ctx = index.query(0).unwrap();
    assert_eq!(ctx.chord.root, 10);
    let ctx = index.query(480).unwrap();
    assert_eq!(ctx.chord.root, 9);
    let ctx = index.query(960).unwrap();
    assert_eq!(ctx.chord.root, 8);
    let ctx = index.query(1440).unwrap();
    assert_eq!(ctx.chord.root, 7);
}

#[test]
fn test_section_modulation() {
    let one = |name: &str| Bar {
        chords: vec![bar_chord(make_chord(name), None)],
        steps: None,
        span: None,
    };
    let block = block_with_bars(
        "main",
        vec![one("Cmaj7"), one("Cmaj7"), one("Dm7"), one("Dm7")],
        vec![Section {
            bar: 3,
            mode: Some("dorian".to_string()),
            root: Some(2),
            span: None,
        }],
    );
    let header = make_header();
    let index = build(&block, &header, &default_scale_timeline());

    let ctx = index.query(0).unwrap();
    assert_eq!(ctx.mode_intervals, vec![0, 2, 4, 5, 7, 9, 11]);

    let ctx = index.query(3840).unwrap();
    assert_eq!(ctx.mode_intervals, vec![0, 2, 3, 5, 7, 9, 10]);
    assert_eq!(ctx.scale_root, 2);
}

#[test]
fn test_query_cyclic_wrap() {
    let block = make_block(vec![vec![make_chord("C")]]);
    let header = make_header();
    let index = build(&block, &header, &default_scale_timeline());

    // Past the end: wraps cyclically (2000 % 1920 = 80, within C chord span)
    let ctx = index.query(2000);
    assert!(ctx.is_some());
    assert_eq!(ctx.unwrap().chord.root, 0);
}

#[test]
fn test_remainder_goes_to_last_steps() {
    let block = block_with_bars(
        "test",
        vec![Bar {
            chords: vec![bar_chord(make_chord("C"), None)],
            steps: Some(vec![make_chord("C"), make_chord("E"), make_chord("G")]),
            span: None,
        }],
        vec![],
    );
    let mut header = make_header();
    header.ppq = 100;
    header.ts_numerator = 5;
    let index = build(&block, &header, &default_scale_timeline());
    let spans = index.spans();
    assert_eq!(spans.len(), 3);
    assert_eq!(spans[0].end_tick - spans[0].start_tick, 166);
    assert_eq!(spans[1].end_tick - spans[1].start_tick, 167);
    assert_eq!(spans[2].end_tick - spans[2].start_tick, 167);
    assert_eq!(spans[2].end_tick, 500);
}

#[test]
fn test_beat_assignment_mismatch() {
    let block = block_with_bars(
        "test",
        vec![Bar {
            chords: vec![
                bar_chord(make_chord("C"), Some(2)),
                bar_chord(make_chord("G"), Some(1)),
            ],
            steps: None,
            span: None,
        }],
        vec![],
    );
    let header = make_header();
    let result = HarmonyIndex::build(
        &block,
        &header,
        &default_scale_timeline(),
        &BarLayout::from_header(&header),
    );
    assert!(result.is_err());
    let err = result.unwrap_err().message();
    assert!(
        err.to_lowercase().contains("beat"),
        "expected beat mismatch error, got: {err}"
    );
}

#[test]
fn test_beat_assignment_valid() {
    let block = block_with_bars(
        "test",
        vec![Bar {
            chords: vec![
                bar_chord(make_chord("C"), Some(3)),
                bar_chord(make_chord("G"), Some(1)),
            ],
            steps: None,
            span: None,
        }],
        vec![],
    );
    let header = make_header();
    let result = HarmonyIndex::build(
        &block,
        &header,
        &default_scale_timeline(),
        &BarLayout::from_header(&header),
    );
    assert!(result.is_ok());
}

// ── Further scenarios ───────────────────────────────────────────

#[test]
fn beat_mismatch_names_block_bar_and_sums() {
    let block = block_with_bars(
        "verse",
        vec![
            Bar {
                chords: vec![bar_chord(make_chord("C"), None)],
                steps: None,
                span: None,
            },
            Bar {
                chords: vec![
                    bar_chord(make_chord("C"), Some(2)),
                    bar_chord(make_chord("G"), None),
                ],
                steps: None,
                span: None,
            },
        ],
        vec![],
    );
    let header = make_header();
    let err = HarmonyIndex::build(
        &block,
        &header,
        &default_scale_timeline(),
        &BarLayout::from_header(&header),
    )
    .unwrap_err();
    assert_eq!(
        err.message(),
        "harmony 'verse' bar 2: beat assignments sum to 3, expected 4"
    );
}

#[test]
fn section_bar_past_the_end_is_error() {
    let block = block_with_bars(
        "main",
        vec![Bar {
            chords: vec![bar_chord(make_chord("C"), None)],
            steps: None,
            span: None,
        }],
        vec![Section {
            bar: 2,
            mode: None,
            root: None,
            span: None,
        }],
    );
    let header = make_header();
    let err = HarmonyIndex::build(
        &block,
        &header,
        &default_scale_timeline(),
        &BarLayout::from_header(&header),
    )
    .unwrap_err();
    assert_eq!(err.message(), "harmony '': section bar=2 exceeds total bar count");
}

#[test]
fn query_on_empty_index_finds_nothing() {
    let block = make_block(vec![]);
    let header = make_header();
    let index = build(&block, &header, &default_scale_timeline());
    assert_eq!(index.total_ticks, 0);
    assert!(index.query(0).is_none());
    assert!(index.query(12345).is_none());
}

#[test]
fn query_wraps_after_whole_timeline() {
    let block = make_block(vec![vec![make_chord("C")], vec![make_chord("F")]]);
    let header = make_header();
    let index = build(&block, &header, &default_scale_timeline());
    for t in [0u64, 100, 1919, 1920, 3839] {
        let a = index.query(t).unwrap().chord.root;
        let b = index.query(t + index.total_ticks).unwrap().chord.root;
        assert_eq!(a, b);
    }
}

#[test]
fn index_name_defaults_to_empty() {
    let mut block = make_block(vec![vec![make_chord("C")]]);
    block.name = None;
    let header = make_header();
    let index = build(&block, &header, &default_scale_timeline());
    assert_eq!(index.name, "");
}

#[test]
fn harmony_timeline_groups_spans_by_bar() {
    let v7 = parse_chord_symbol_with_context("V7", &c_major_context()).unwrap();
    let block = make_block(vec![
        vec![make_chord("Cmaj7")],
        vec![make_chord("Dm7"), make_chord("G7")],
        vec![v7],
    ]);
    let header = make_header();
    let layout = BarLayout::from_header(&header);
    let index = HarmonyIndex::build(&block, &header, &default_scale_timeline(), &layout).unwrap();
    let bars = harmony_timeline(&index, &layout, header.ppq);
    assert_eq!(bars.len(), 3);
    assert_eq!(bars.iter().map(|b| b.bar).collect::<Vec<_>>(), vec![1, 2, 3]);
    assert_eq!(bars[0].chords.len(), 1);
    assert_eq!(bars[0].chords[0].symbol, "Cmaj7");
    assert_eq!(bars[0].chords[0].roman_numeral, None);
    let second: Vec<(&str, u64, u64, u64)> = bars[1]
        .chords
        .iter()
        .map(|c| (c.symbol.as_str(), c.tick_start, c.tick_end, c.bar_start_tick))
        .collect();
    assert_eq!(second, vec![("Dmin7", 1920, 2880, 1920), ("G7", 2880, 3840, 1920)]);
    // Beat of G7 within bar 2: (2880 - 1920) * 4 / 1920 = 2.
    let g7 = &bars[1].chords[1];
    assert_eq!((g7.tick_start - g7.bar_start_tick) * g7.beat_unit as u64 / g7.whole_note_ticks, 2);
    assert_eq!(bars[2].chords[0].symbol, "G7");
    assert_eq!(bars[2].chords[0].roman_numeral.as_deref(), Some("V7"));
    assert_eq!(bars[2].chords[0].intervals, vec![0, 4, 7, 10]);
}

#[test]
fn every_tick_has_a_chord_when_every_bar_does() {
    let block = make_block(vec![
        vec![make_chord("C"), make_chord("F"), make_chord("G")],
        vec![make_chord("Am7")],
        vec![make_chord("Dm7"), make_chord("G7")],
    ]);
    let header = make_header();
    let index = build(&block, &header, &default_scale_timeline());
    assert_eq!(index.total_ticks, 3 * 1920);
    for tick in (0..2 * index.total_ticks).step_by(7) {
        assert!(index.query(tick).is_some(), "no chord at tick {tick}");
    }
    // Three chords in four beats: the first takes two.
    assert_eq!(index.query(959).unwrap().chord.root, 0);
    assert_eq!(index.query(960).unwrap().chord.root, 5);
    assert_eq!(index.query(1440).unwrap().chord.root, 7);
}
