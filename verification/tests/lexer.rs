use interval::lexer::{tokenize, Token};

/// The value of a decimal, percent or millisecond literal.
fn number_value(t: &Token) -> Option<f64> {
    match t {
        Token::Float(s) | Token::Percent(s) | Token::Milliseconds(s) => s.parse().ok(),
        _ => None,
    }
}

#[test]
fn test_header_tokens() {
    let source = "@ppq 480\n@bpm 120.0\n@ts 4/4\n@title \"Hello\"\n@seed 42";
    let (tokens, errors) = tokenize(source);
    assert!(errors.is_empty(), "unexpected lexer errors: {errors:?}");

    // Filter out newlines for easier assertion
    let toks: Vec<&Token> = tokens.iter().map(|t| &t.token).collect();
    assert_eq!(toks[0], &Token::AtPpq);
    assert_eq!(toks[1], &Token::Integer(480));
    assert_eq!(toks[2], &Token::Newline);
    assert_eq!(toks[3], &Token::AtBpm);
    assert!(matches!(toks[4], Token::Float(_)));
    assert_eq!(number_value(toks[4]), Some(120.0));
    assert_eq!(toks[5], &Token::Newline);
    assert_eq!(toks[6], &Token::AtTs);
    assert_eq!(toks[7], &Token::Integer(4));
    assert_eq!(toks[8], &Token::Slash);
    assert_eq!(toks[9], &Token::Integer(4));
    assert_eq!(toks[10], &Token::Newline);
    assert_eq!(toks[11], &Token::AtTitle);
    assert_eq!(toks[12], &Token::StringLiteral("Hello".to_string()));
    assert_eq!(toks[13], &Token::Newline);
    assert_eq!(toks[14], &Token::AtSeed);
    assert_eq!(toks[15], &Token::Integer(42));
}

#[test]
fn test_step_tokens() {
    let source = "^1+^3+^5 . ~ (^1 ^3) {^1, ^b7}";
    let (tokens, errors) = tokenize(source);
    assert!(errors.is_empty(), "unexpected lexer errors: {errors:?}");

    let toks: Vec<&Token> = tokens.iter().map(|t| &t.token).collect();
    assert_eq!(toks[0], &Token::Caret);
    assert_eq!(toks[1], &Token::Integer(1));
    assert_eq!(toks[2], &Token::Plus);
    assert_eq!(toks[3], &Token::Caret);
    assert_eq!(toks[4], &Token::Integer(3));
    assert_eq!(toks[5], &Token::Plus);
    assert_eq!(toks[6], &Token::Caret);
    assert_eq!(toks[7], &Token::Integer(5));
    assert_eq!(toks[8], &Token::Dot);
    assert_eq!(toks[9], &Token::Tilde);
    assert_eq!(toks[10], &Token::LParen);
    assert_eq!(toks[11], &Token::Caret);
    assert_eq!(toks[12], &Token::Integer(1));
    assert_eq!(toks[13], &Token::Caret);
    assert_eq!(toks[14], &Token::Integer(3));
    assert_eq!(toks[15], &Token::RParen);
    assert_eq!(toks[16], &Token::LBrace);
    assert_eq!(toks[17], &Token::Caret);
    assert_eq!(toks[18], &Token::Integer(1));
    assert_eq!(toks[19], &Token::Comma);
    assert_eq!(toks[20], &Token::Caret);
}

#[test]
fn test_annotation_tokens() {
    let source = "^1[vel:110 shift:-3%]";
    let (tokens, errors) = tokenize(source);
    assert!(errors.is_empty(), "unexpected lexer errors: {errors:?}");

    let toks: Vec<&Token> = tokens.iter().map(|t| &t.token).collect();
    assert_eq!(toks[0], &Token::Caret);
    assert_eq!(toks[1], &Token::Integer(1));
    assert_eq!(toks[2], &Token::LBracket);
    assert_eq!(toks[3], &Token::KwVel);
    assert_eq!(toks[4], &Token::Colon);
    assert_eq!(toks[5], &Token::Integer(110));
    assert_eq!(toks[6], &Token::KwShift);
    assert_eq!(toks[7], &Token::Colon);
    assert!(matches!(toks[8], Token::Percent(_)));
    assert_eq!(number_value(toks[8]), Some(-3.0));
    assert_eq!(toks[9], &Token::RBracket);
}

#[test]
fn test_pattern_composition_tokens() {
    let source = "play: verse >> chorus * 4 ~>> outro";
    let (tokens, errors) = tokenize(source);
    assert!(errors.is_empty(), "unexpected lexer errors: {errors:?}");

    let toks: Vec<&Token> = tokens.iter().map(|t| &t.token).collect();
    assert_eq!(toks[0], &Token::KwPlay);
    assert_eq!(toks[1], &Token::Colon);
    assert_eq!(toks[2], &Token::Ident("verse".to_string()));
    assert_eq!(toks[3], &Token::RShift);
    assert_eq!(toks[4], &Token::Ident("chorus".to_string()));
    assert_eq!(toks[5], &Token::Star);
    assert_eq!(toks[6], &Token::Integer(4));
    assert_eq!(toks[7], &Token::TildeRShift);
    assert_eq!(toks[8], &Token::Ident("outro".to_string()));
}

#[test]
fn test_ramp_annotation() {
    let source = "[expr:40->88]";
    let (tokens, errors) = tokenize(source);
    assert!(errors.is_empty(), "unexpected lexer errors: {errors:?}");

    let toks: Vec<&Token> = tokens.iter().map(|t| &t.token).collect();
    assert_eq!(toks[0], &Token::LBracket);
    assert_eq!(toks[1], &Token::KwExpr);
    assert_eq!(toks[2], &Token::Colon);
    assert_eq!(toks[3], &Token::Integer(40));
    assert_eq!(toks[4], &Token::Arrow);
    assert_eq!(toks[5], &Token::Integer(88));
    assert_eq!(toks[6], &Token::RBracket);
}

#[test]
fn test_comment_stripping() {
    let source = "@ppq 480 // pulses per quarter note\n@bpm 120.0";
    let (tokens, errors) = tokenize(source);
    assert!(errors.is_empty(), "unexpected lexer errors: {errors:?}");

    let toks: Vec<&Token> = tokens.iter().map(|t| &t.token).collect();
    assert_eq!(toks[0], &Token::AtPpq);
    assert_eq!(toks[1], &Token::Integer(480));
    assert_eq!(toks[2], &Token::Comment);
    assert_eq!(toks[3], &Token::Newline);
    assert_eq!(toks[4], &Token::AtBpm);
    assert!(matches!(toks[5], Token::Float(_)));
    assert_eq!(number_value(toks[5]), Some(120.0));
}

#[test]
fn test_harmony_block_tokens() {
    let source = "@harmony main mode=dorian\nCm7 | Fm7";
    let (tokens, errors) = tokenize(source);
    assert!(errors.is_empty(), "unexpected lexer errors: {errors:?}");

    let toks: Vec<&Token> = tokens.iter().map(|t| &t.token).collect();
    assert_eq!(toks[0], &Token::AtHarmony);
    assert_eq!(toks[1], &Token::Ident("main".to_string()));
    assert_eq!(toks[2], &Token::KwMode);
    assert_eq!(toks[3], &Token::Equals);
    assert_eq!(toks[4], &Token::Ident("dorian".to_string()));
    assert_eq!(toks[5], &Token::Newline);
    // "Cm7" is a single identifier
    assert_eq!(toks[6], &Token::Ident("Cm7".to_string()));
    assert_eq!(toks[7], &Token::Pipe);
    assert_eq!(toks[8], &Token::Ident("Fm7".to_string()));
}

#[test]
fn test_soft_repetition() {
    let source = "pattern *~ 4";
    let (tokens, errors) = tokenize(source);
    assert!(errors.is_empty(), "unexpected lexer errors: {errors:?}");

    let toks: Vec<&Token> = tokens.iter().map(|t| &t.token).collect();
    assert_eq!(toks[0], &Token::Ident("pattern".to_string()));
    assert_eq!(toks[1], &Token::StarTilde);
    assert_eq!(toks[2], &Token::Integer(4));
}

#[test]
fn test_cc_annotation() {
    let source = "[cc74:30->80]";
    let (tokens, errors) = tokenize(source);
    assert!(errors.is_empty(), "unexpected lexer errors: {errors:?}");

    let toks: Vec<&Token> = tokens.iter().map(|t| &t.token).collect();
    assert_eq!(toks[0], &Token::LBracket);
    assert_eq!(toks[1], &Token::KwCc(74));
    assert_eq!(toks[2], &Token::Colon);
    assert_eq!(toks[3], &Token::Integer(30));
    assert_eq!(toks[4], &Token::Arrow);
    assert_eq!(toks[5], &Token::Integer(80));
    assert_eq!(toks[6], &Token::RBracket);
}

#[test]
fn test_millisecond_timing() {
    let source = "shift=8ms";
    let (tokens, errors) = tokenize(source);
    assert!(errors.is_empty(), "unexpected lexer errors: {errors:?}");

    let toks: Vec<&Token> = tokens.iter().map(|t| &t.token).collect();
    assert_eq!(toks[0], &Token::KwShift);
    assert_eq!(toks[1], &Token::Equals);
    assert!(matches!(toks[2], Token::Milliseconds(_)));
    assert_eq!(number_value(toks[2]), Some(8.0));
}

#[test]
fn test_track_declaration() {
    let source = "@track bass ch=2 prog=32 oct=2 vel=88 follow=main";
    let (tokens, errors) = tokenize(source);
    assert!(errors.is_empty(), "unexpected lexer errors: {errors:?}");

    let toks: Vec<&Token> = tokens.iter().map(|t| &t.token).collect();
    assert_eq!(toks[0], &Token::AtTrack);
    assert_eq!(toks[1], &Token::Ident("bass".to_string()));
    assert_eq!(toks[2], &Token::KwCh);
    assert_eq!(toks[3], &Token::Equals);
    assert_eq!(toks[4], &Token::Integer(2));
    assert_eq!(toks[5], &Token::KwProg);
    assert_eq!(toks[6], &Token::Equals);
    assert_eq!(toks[7], &Token::Integer(32));
}

#[test]
fn test_unicode_chord_symbols() {
    let source = "Δ7 °7 ø7";
    let (tokens, errors) = tokenize(source);
    assert!(errors.is_empty(), "unexpected lexer errors: {errors:?}");

    let toks: Vec<&Token> = tokens.iter().map(|t| &t.token).collect();
    assert_eq!(toks[0], &Token::Delta);
    assert_eq!(toks[1], &Token::Integer(7));
    assert_eq!(toks[2], &Token::Degree);
    assert_eq!(toks[3], &Token::Integer(7));
    assert_eq!(toks[4], &Token::HalfDim);
    assert_eq!(toks[5], &Token::Integer(7));
}

#[test]
fn test_drummap_tokens() {
    let source = "@drummap kit\n  kick = 36\n  snare = 38";
    let (tokens, errors) = tokenize(source);
    assert!(errors.is_empty(), "unexpected lexer errors: {errors:?}");

    let toks: Vec<&Token> = tokens.iter().map(|t| &t.token).collect();
    assert_eq!(toks[0], &Token::AtDrummap);
    assert_eq!(toks[1], &Token::Ident("kit".to_string()));
    assert_eq!(toks[2], &Token::Newline);
    assert_eq!(toks[3], &Token::Ident("kick".to_string()));
    assert_eq!(toks[4], &Token::Equals);
    assert_eq!(toks[5], &Token::Integer(36));
}

#[test]
fn test_pattern_with_transforms() {
    let source = "@pattern arp_down = arp_up -> reverse";
    let (tokens, errors) = tokenize(source);
    assert!(errors.is_empty(), "unexpected lexer errors: {errors:?}");

    let toks: Vec<&Token> = tokens.iter().map(|t| &t.token).collect();
    assert_eq!(toks[0], &Token::AtPattern);
    assert_eq!(toks[1], &Token::Ident("arp_down".to_string()));
    assert_eq!(toks[2], &Token::Equals);
    assert_eq!(toks[3], &Token::Ident("arp_up".to_string()));
    assert_eq!(toks[4], &Token::Arrow);
    assert_eq!(toks[5], &Token::KwReverse);
}

#[test]
fn test_section_directive() {
    let source = "section: bar=5 mode=dorian root=D";
    let (tokens, errors) = tokenize(source);
    assert!(errors.is_empty(), "unexpected lexer errors: {errors:?}");

    let toks: Vec<&Token> = tokens.iter().map(|t| &t.token).collect();
    assert_eq!(toks[0], &Token::KwSection);
    assert_eq!(toks[1], &Token::Colon);
    assert_eq!(toks[2], &Token::KwBar);
    assert_eq!(toks[3], &Token::Equals);
    assert_eq!(toks[4], &Token::Integer(5));
    assert_eq!(toks[5], &Token::KwMode);
    assert_eq!(toks[6], &Token::Equals);
    assert_eq!(toks[7], &Token::Ident("dorian".to_string()));
    assert_eq!(toks[8], &Token::KwRoot);
    assert_eq!(toks[9], &Token::Equals);
    // D will be parsed as an identifier
    assert_eq!(toks[10], &Token::Ident("D".to_string()));
}

// ── Further scenarios ───────────────────────────────────────────────

fn kinds(source: &str) -> Vec<Token> {
    let (tokens, errors) = tokenize(source);
    assert!(errors.is_empty(), "unexpected lexer errors: {errors:?}");
    tokens.into_iter().map(|t| t.token).collect()
}

#[test]
fn longest_match_and_keyword_priority() {
    assert_eq!(
        kinds("ratch ratch_decay ratch_ modes cc74 cc7a cc"),
        vec![
            Token::KwRatch,
            Token::KwRatchDecay,
            Token::Ident("ratch_".to_string()),
            Token::Ident("modes".to_string()),
            Token::KwCc(74),
            Token::Ident("cc7a".to_string()),
            Token::Ident("cc".to_string()),
        ]
    );
    assert_eq!(
        kinds("@tsx @t *~~>>~"),
        vec![
            Token::AtTs,
            Token::Ident("x".to_string()),
            Token::At,
            Token::Ident("t".to_string()),
            Token::StarTilde,
            Token::TildeRShift,
            Token::Tilde,
        ]
    );
}

#[test]
fn numbers_take_their_suffixes() {
    assert_eq!(
        kinds("1.5.3 1.% 5ms2 -7sus4 -3.25%"),
        vec![
            Token::Float("1.5".to_string()),
            Token::Dot,
            Token::Integer(3),
            Token::Integer(1),
            Token::Dot,
            Token::PercentSign,
            Token::Milliseconds("5".to_string()),
            Token::Integer(2),
            Token::Integer(-7),
            Token::Ident("sus4".to_string()),
            Token::Percent("-3.25".to_string()),
        ]
    );
    assert_eq!(kinds("-9223372036854775808"), vec![Token::Integer(i64::MIN)]);
}

#[test]
fn spans_are_byte_offsets() {
    let (tokens, errors) = tokenize("Δ7 \"a b\"\r\n// note\r\nx");
    assert!(errors.is_empty());
    let spans: Vec<(usize, usize)> = tokens.iter().map(|t| (t.start, t.end)).collect();
    // Δ takes two bytes; the comment keeps the carriage return before its newline.
    assert_eq!(spans, vec![(0, 2), (2, 3), (4, 9), (9, 11), (11, 19), (19, 20), (20, 21)]);
    assert_eq!(tokens[2].token, Token::StringLiteral("a b".to_string()));
    assert_eq!(tokens[4].token, Token::Comment);
}

#[test]
fn errors_are_reported_and_skipped() {
    let (tokens, errors) = tokenize("a ? -x > cc300 99999999999999999999 \"open");
    assert_eq!(errors, vec![(2, 3), (4, 5), (7, 8), (9, 14), (15, 35), (36, 37)]);
    let kinds: Vec<Token> = tokens.into_iter().map(|t| t.token).collect();
    assert_eq!(
        kinds,
        vec![Token::Ident("a".to_string()), Token::Ident("x".to_string()), Token::Ident("open".to_string())]
    );
}

#[test]
fn every_non_blank_character_is_in_a_span() {
    let source = "@pattern p unit=1/4 // π\n  ^1[vel:110] ?? Δ7 \"x y\"\t-\n";
    let (tokens, errors) = tokenize(source);
    let mut spans: Vec<(usize, usize)> = tokens.iter().map(|t| (t.start, t.end)).collect();
    for w in spans.windows(2) {
        assert!(w[0].0 < w[0].1 && w[0].1 <= w[1].0);
    }
    for w in errors.windows(2) {
        assert!(w[0].0 < w[0].1 && w[0].1 <= w[1].0);
    }
    spans.extend(errors.iter().copied());
    for (b, c) in source.char_indices() {
        if c != ' ' && c != '\t' {
            assert!(spans.iter().any(|&(s, e)| s <= b && b < e), "byte {b} ({c:?}) lost");
        }
    }
    assert_eq!(errors, vec![(40, 41), (41, 42), (53, 54)]);
}

#[test]
fn words_are_read_whole() {
    assert_eq!(
        kinds("steps stepsize up_down updown"),
        vec![
            Token::KwSteps,
            Token::Ident("stepsize".to_string()),
            Token::Ident("up_down".to_string()),
            Token::KwUpDown,
        ]
    );
}
