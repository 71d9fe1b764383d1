use tenutoc::ir::{
    compile, process_voice, AtomicEvent, CompileError, Cursor, EventKind, Timeline, Track,
    TrackMap, PPQ,
};
use tenutoc::lexer::scan;
use tenutoc::parser::{parser, Event, Score, Voice};
use tenutoc::{Pipeline, Rational, TenutoError};

fn score(src: &str) -> Score {
    let (tokens, odd) = scan(src);
    assert!(odd.is_empty());
    let (ast, errors) = parser().parse_recovery(&tokens);
    assert!(errors.is_empty());
    ast.unwrap()
}

fn staff(body: &str) -> Result<Timeline, CompileError> {
    compile(score(&format!("tenuto {{ def vln \"Violin\" measure 1 {{ vln: {} }} }}", body)))
}

fn notes(body: &str) -> Vec<(u64, u64, u8)> {
    let timeline = staff(body).unwrap();
    timeline
        .tracks
        .get("vln")
        .unwrap()
        .events
        .iter()
        .map(|e| match e.kind {
            EventKind::Note { pitch, velocity } => {
                assert_eq!(velocity, 100);
                (e.tick, e.duration_ticks, pitch)
            }
            EventKind::Rest => panic!("a rest in the timeline"),
        })
        .collect()
}

#[test]
fn sticky_duration_and_octave() {
    assert_eq!(notes("c4:4 d e |"), vec![(0, 1920, 60), (1920, 1920, 62), (3840, 1920, 64)]);
}

#[test]
fn dotted_and_double_dotted() {
    assert_eq!(notes("c4:4."), vec![(0, 2880, 60)]);
    assert_eq!(notes("c4:4.."), vec![(0, 3360, 60)]);
    assert_eq!(notes("c4:8. d"), vec![(0, 1440, 60), (1440, 1440, 62)]);
}

#[test]
fn accidentals() {
    assert_eq!(notes("c#4:4 db4 c4"), vec![(0, 1920, 61), (1920, 1920, 61), (3840, 1920, 60)]);
    assert_eq!(notes("cb4 b#3"), vec![(0, 1920, 59), (1920, 1920, 60)]);
}

#[test]
fn rests_advance_without_events() {
    assert_eq!(notes("c4:4 r:4 c4"), vec![(0, 1920, 60), (3840, 1920, 60)]);
    assert_eq!(notes("r:2 r c4:4"), vec![(7680, 1920, 60)]);
}

#[test]
fn tuplet_scales_durations() {
    assert_eq!(notes("(c4 d e):3/2"), vec![(0, 1280, 60), (1280, 1280, 62), (2560, 1280, 64)]);
}

#[test]
fn tuplet_puts_the_scalar_back() {
    assert_eq!(
        notes("(c4:8 d e):3/2 f"),
        vec![(0, 640, 60), (640, 640, 62), (1280, 640, 64), (1920, 960, 65)]
    );
}

#[test]
fn nested_tuplets_multiply() {
    // a triplet inside a triplet: 1/4 * 2/3 * 2/3
    assert_eq!(
        notes("((c4 d e):3/2 f g):3/2"),
        vec![
            (0, 853, 60),
            (853, 853, 62),
            (1706, 853, 64),
            (2559, 1280, 65),
            (3839, 1280, 67)
        ]
    );
}

#[test]
fn chord_notes_share_tick_and_length() {
    assert_eq!(notes("[c4 e4 g4]:4"), vec![(0, 1920, 60), (0, 1920, 64), (0, 1920, 67)]);
    assert_eq!(
        notes("[c4 e g]:2 c5:4"),
        vec![(0, 3840, 60), (0, 3840, 64), (0, 3840, 67), (3840, 1920, 72)]
    );
}

#[test]
fn chord_octave_is_sticky_inside_and_after() {
    assert_eq!(notes("[c5 e] g"), vec![(0, 1920, 72), (0, 1920, 76), (1920, 1920, 79)]);
}

#[test]
fn tabs_and_percussion_leave_no_trace() {
    assert_eq!(notes("c4:8 3-5:2 kick:1 d"), vec![(0, 960, 60), (960, 960, 62)]);
}

#[test]
fn voices_have_their_own_cursors_and_events_are_sorted() {
    let timeline = staff("c4:2 d | e4:4 f g").unwrap();
    let events = &timeline.tracks.get("vln").unwrap().events;
    let got: Vec<(u64, u8)> = events
        .iter()
        .map(|e| match e.kind {
            EventKind::Note { pitch, .. } => (e.tick, pitch),
            EventKind::Rest => panic!("a rest in the timeline"),
        })
        .collect();
    assert_eq!(got, vec![(0, 60), (0, 64), (1920, 65), (3840, 62), (3840, 67)]);
}

#[test]
fn cursors_carry_over_measures() {
    let timeline = compile(score(
        r#"tenuto { def vln "V" measure 1 { vln: c5:8 d } measure 2 { vln: e } }"#,
    ))
    .unwrap();
    let events = &timeline.tracks.get("vln").unwrap().events;
    assert_eq!(events.len(), 3);
    assert_eq!(events[2].tick, 1920);
    assert_eq!(events[2].duration_ticks, 960);
    assert_eq!(events[2].kind, EventKind::Note { pitch: 76, velocity: 100 });
}

#[test]
fn undefined_staff_is_skipped() {
    let timeline =
        compile(score(r#"tenuto { def vln "V" measure { vla: c4 } measure { vln: d4 } }"#))
            .unwrap();
    assert_eq!(timeline.tracks.len(), 1);
    assert_eq!(timeline.tracks.get("vln").unwrap().events.len(), 1);
    assert!(timeline.tracks.get("vla").is_none());
}

#[test]
fn defaults_without_metadata() {
    let timeline = compile(score(r#"tenuto { def vln "Violin" }"#)).unwrap();
    assert_eq!(timeline.title, "Untitled");
    assert_eq!(timeline.tempo, 120);
    let track = timeline.tracks.get("vln").unwrap();
    assert_eq!(track.label, "Violin");
    assert_eq!(track.patch, "Grand Piano");
    assert!(track.events.is_empty());
}

#[test]
fn metadata_sets_title_and_tempo() {
    let timeline = compile(score(r#"tenuto { meta { title: "Heroic", tempo: 150 } }"#)).unwrap();
    assert_eq!(timeline.title, "Heroic");
    assert_eq!(timeline.tempo, 150);
    assert_eq!(timeline.tracks.len(), 0);
}

#[test]
fn later_metadata_wins_and_wrong_kinds_are_ignored() {
    let timeline = compile(score(
        r#"tenuto { meta { title: 7, tempo: "fast" } meta { title: "A", tempo: 90 } meta { title: "B" } }"#,
    ))
    .unwrap();
    assert_eq!(timeline.title, "B");
    assert_eq!(timeline.tempo, 90);
}

#[test]
fn tempo_is_cut_to_32_bits() {
    let timeline = compile(score("tenuto { meta { tempo: 4294967297 } }")).unwrap();
    assert_eq!(timeline.tempo, 1);
}

#[test]
fn tracks_are_kept_in_order_of_id() {
    let timeline =
        compile(score(r#"tenuto { def vln "1" def cel "2" def vla "3" def Bsn "4" }"#)).unwrap();
    let ids: Vec<String> =
        (0..timeline.tracks.len()).map(|i| timeline.tracks.id_at(i).clone()).collect();
    assert_eq!(ids, vec!["Bsn", "cel", "vla", "vln"]);
    assert_eq!(timeline.tracks.track_at(1).label, "2");
    assert_eq!(timeline.tracks.position_of("vla"), Some(2));
    assert_eq!(timeline.tracks.position_of("v"), None);
    assert!(timeline.tracks.contains_key("Bsn"));
    assert!(!timeline.tracks.contains_key("bsn"));
}

#[test]
fn a_second_definition_replaces_the_first() {
    let timeline =
        compile(score(r#"tenuto { def vln "One" patch="Flute" def vln "Two" }"#)).unwrap();
    assert_eq!(timeline.tracks.len(), 1);
    let track = timeline.tracks.get("vln").unwrap();
    assert_eq!(track.label, "Two");
    assert_eq!(track.patch, "Grand Piano");
}

#[test]
fn zero_denominator_is_an_error() {
    assert_eq!(staff("c4:0").unwrap_err(), CompileError::DivisionByZero);
    assert_eq!(staff("(c4 d e):0/2").unwrap_err(), CompileError::DivisionByZero);
}

#[test]
fn overflow_is_an_error() {
    assert_eq!(staff("c4:18446744073709551615.").unwrap_err(), CompileError::Overflow);
    // the ticks of the scaled duration leave 64 bits
    assert_eq!(staff("(c4):1/9223372036854775807").unwrap_err(), CompileError::Overflow);
    // the product of the scalars leaves 64 bits
    assert_eq!(
        staff("((c4):1/9223372036854775807):1/9223372036854775807").unwrap_err(),
        CompileError::Overflow
    );
}

#[test]
fn pitch_outside_midi_is_an_error() {
    assert_eq!(notes("g9"), vec![(0, 1920, 127)]);
    assert_eq!(staff("a9").unwrap_err(), CompileError::PitchOutOfRange);
}

#[test]
fn note_shorter_than_a_tick_is_an_error() {
    assert_eq!(notes("c4:7680"), vec![(0, 1, 60)]);
    assert_eq!(staff("c4:7681").unwrap_err(), CompileError::EmptyDuration);
    assert_eq!(staff("[c4 e]:16384").unwrap_err(), CompileError::EmptyDuration);
    assert_eq!(notes("r:16384 c4:4"), vec![(0, 1920, 60)]);
}

#[test]
fn cursor_starts_at_quarter_notes_in_octave_four() {
    let c = Cursor::new(PPQ);
    assert_eq!(c.current_tick, 0);
    assert_eq!(c.last_duration, Rational { num: 1, den: 4 });
    assert_eq!(c.last_octave, 4);
    assert_eq!(c.time_scalar, Rational { num: 1, den: 1 });
    assert_eq!(c.ppq, 1920);
}

#[test]
fn parse_duration_on_a_cursor() {
    let mut c = Cursor::new(1920);
    assert_eq!(c.parse_duration(None), Ok(1920));
    assert_eq!(c.parse_duration(Some(&":8".to_string())), Ok(960));
    assert_eq!(c.last_duration, Rational { num: 1, den: 8 });
    assert_eq!(c.parse_duration(None), Ok(960));
    assert_eq!(c.parse_duration(Some(&":4..".to_string())), Ok(3360));
    assert_eq!(c.last_duration, Rational { num: 7, den: 16 });
    // three dots count as none
    assert_eq!(c.parse_duration(Some(&":4...".to_string())), Ok(1920));
    // no number: a quarter
    assert_eq!(c.parse_duration(Some(&":x".to_string())), Ok(1920));
    assert_eq!(c.parse_duration(Some(&String::new())), Ok(1920));
    // an error leaves the cursor alone
    let before = c;
    assert_eq!(c.parse_duration(Some(&":0".to_string())), Err(CompileError::DivisionByZero));
    assert_eq!(c, before);
    c.time_scalar = Rational { num: 2, den: 3 };
    assert_eq!(c.parse_duration(Some(&":8".to_string())), Ok(640));
    assert_eq!(c.current_tick, 0);
}

#[test]
fn parse_pitch_on_a_cursor() {
    let mut c = Cursor::new(1920);
    assert_eq!(c.parse_pitch("c4"), Ok(60));
    assert_eq!(c.parse_pitch("C4"), Ok(60));
    assert_eq!(c.parse_pitch(""), Ok(60));
    assert_eq!(c.parse_pitch("a"), Ok(69));
    assert_eq!(c.parse_pitch("B2"), Ok(47));
    assert_eq!(c.last_octave, 2);
    assert_eq!(c.parse_pitch("bb"), Ok(46));
    assert_eq!(c.parse_pitch("f##5"), Ok(79));
    assert_eq!(c.last_octave, 5);
    // only the first digit counts
    assert_eq!(c.parse_pitch("c31"), Ok(48));
    assert_eq!(c.last_octave, 3);
    // other characters are ignored, other steps count as C
    assert_eq!(c.parse_pitch("dx4"), Ok(62));
    assert_eq!(c.parse_pitch("h4"), Ok(60));
    assert_eq!(c.parse_pitch("c0"), Ok(12));
    assert_eq!(c.parse_pitch("cb0"), Ok(11));
    let before = c;
    assert_eq!(c.parse_pitch("b9"), Err(CompileError::PitchOutOfRange));
    assert_eq!(c, before);
}

#[test]
fn process_voice_pushes_onto_the_track() {
    let voice = Voice {
        events: vec![
            Event::Note { pitch: "e4".into(), duration: Some(":2".into()), attributes: vec![] },
            Event::Rest { duration: None },
            Event::Chord { notes: vec!["c".into(), "g".into()], duration: None, attributes: vec![] },
        ],
    };
    let mut cursor = Cursor::new(1920);
    cursor.current_tick = 100;
    let mut track = Track {
        label: "L".into(),
        patch: "P".into(),
        events: vec![AtomicEvent { tick: 5, duration_ticks: 1, kind: EventKind::Rest }],
    };
    assert_eq!(process_voice(&voice, &mut cursor, &mut track), Ok(()));
    assert_eq!(cursor.current_tick, 100 + 3 * 3840);
    assert_eq!(
        track.events,
        vec![
            AtomicEvent { tick: 5, duration_ticks: 1, kind: EventKind::Rest },
            AtomicEvent {
                tick: 100,
                duration_ticks: 3840,
                kind: EventKind::Note { pitch: 64, velocity: 100 }
            },
            AtomicEvent {
                tick: 7780,
                duration_ticks: 3840,
                kind: EventKind::Note { pitch: 60, velocity: 100 }
            },
            AtomicEvent {
                tick: 7780,
                duration_ticks: 3840,
                kind: EventKind::Note { pitch: 67, velocity: 100 }
            },
        ]
    );
}

#[test]
fn tick_overflow_is_an_error() {
    let voice = Voice {
        events: vec![Event::Note { pitch: "c4".into(), duration: None, attributes: vec![] }],
    };
    let mut cursor = Cursor::new(1920);
    cursor.current_tick = u64::MAX - 1000;
    let mut track = Track { label: String::new(), patch: String::new(), events: vec![] };
    assert_eq!(process_voice(&voice, &mut cursor, &mut track), Err(CompileError::Overflow));
}

#[test]
fn track_map_by_hand() {
    let mut map = TrackMap::new();
    assert_eq!(map.len(), 0);
    let track = |label: &str| Track { label: label.into(), patch: String::new(), events: vec![] };
    map.insert("m".into(), track("1"));
    map.insert("a".into(), track("2"));
    map.insert("z".into(), track("3"));
    map.insert("ma".into(), track("4"));
    map.insert("m".into(), track("5"));
    assert_eq!(map.len(), 4);
    let ids: Vec<&str> = (0..map.len()).map(|i| map.id_at(i).as_str()).collect();
    assert_eq!(ids, vec!["a", "m", "ma", "z"]);
    assert_eq!(map.get("m").unwrap().label, "5");
    assert_eq!(map.get("ma").unwrap().label, "4");
    assert!(map.get("b").is_none());
}

#[test]
fn pipeline_runs_all_stages() {
    let p = Pipeline::new(
        "tenuto { meta { title: \"T\" } def vln \"Violin\" measure 1 { vln: c4:4 d } }".into(),
    );
    assert!(!p.strict_mode);
    let timeline = p.compile().unwrap();
    assert_eq!(timeline.title, "T");
    assert_eq!(timeline.tracks.get("vln").unwrap().events.len(), 2);
}

#[test]
fn pipeline_strict_mode_refuses_anomalies() {
    let source = "tenuto { // title\n def vln \"Violin\" @ }";
    let mut p = Pipeline::new(source.into());
    assert_eq!(p.compile().unwrap().tracks.len(), 1);
    p.strict_mode = true;
    match p.compile() {
        Err(TenutoError::LexicalError(9)) => {}
        other => panic!("unexpected {:?}", other.map(|t| t.title)),
    }
}

#[test]
fn pipeline_reports_syntax_and_linearization_errors() {
    match Pipeline::new("tenuto { def }".into()).compile() {
        Err(TenutoError::SyntaxError(e)) => assert_eq!(e.position, 2),
        other => panic!("unexpected {:?}", other.map(|t| t.title)),
    }
    match Pipeline::new("tenuto { def v \"V\" measure { v: c4:0 } }".into()).compile() {
        Err(TenutoError::LinearizationError(CompileError::DivisionByZero)) => {}
        other => panic!("unexpected {:?}", other.map(|t| t.title)),
    }
}

#[test]
fn clones_are_equal_in_content() {
    let s = score(r#"tenuto { meta { title: "T" } def vln "V" measure 1 { vln: [c4 e]:4.stacc (d e):3/2 | r } }"#);
    let copy = s.clone();
    assert_eq!(format!("{:?}", s), format!("{:?}", copy));
    let timeline = compile(s).unwrap();
    let twin = timeline.clone();
    assert_eq!(format!("{:?}", timeline), format!("{:?}", twin));
    assert_eq!(twin.tracks.get("vln").unwrap().events.len(), 4);
}

#[test]
fn io_errors_convert_and_are_fatal() {
    let e: TenutoError = std::io::Error::new(std::io::ErrorKind::NotFound, "gone").into();
    assert!(matches!(e, TenutoError::IoError(_)));
    assert!(e.is_fatal());
    assert!(TenutoError::LinearizationError(CompileError::Overflow).is_fatal());
    assert!(!TenutoError::LexicalError(3).is_fatal());
}

#[test]
fn pipeline_run_yields_the_file() {
    let p = Pipeline::new("tenuto { meta { title: \"T\", tempo: 60 } }".into());
    let bytes = p.run().unwrap();
    assert_eq!(&bytes[..14], &[b'M', b'T', b'h', b'd', 0, 0, 0, 6, 0, 1, 0, 1, 0x07, 0x80]);
    assert_eq!(bytes.len(), 14 + 8 + 16);
    match Pipeline::new("tenuto { meta { tempo: 0 } }".into()).run() {
        Err(TenutoError::EncodingError(tenutoc::midi::ExportError::ZeroTempo)) => {}
        other => panic!("unexpected {:?}", other),
    }
    assert!(TenutoError::EncodingError(tenutoc::midi::ExportError::Encoding).is_fatal());
}
