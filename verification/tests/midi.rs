use tenutoc::ir::{compile, AtomicEvent, EventKind, Timeline, Track, TrackMap};
use tenutoc::lexer::scan;
use tenutoc::midi::{
    export, finish_export, midi_tracks, parse_patch_name, program_of_lowercase, ExportError,
    MidiEvent, MidiEventKind,
};
use tenutoc::parser::parser;

fn timeline(src: &str) -> Timeline {
    let (tokens, _) = scan(src);
    let (ast, errors) = parser().parse_recovery(&tokens);
    assert!(errors.is_empty());
    compile(ast.unwrap()).unwrap()
}

fn note(tick: u64, duration_ticks: u64, pitch: u8, velocity: u8) -> AtomicEvent {
    AtomicEvent { tick, duration_ticks, kind: EventKind::Note { pitch, velocity } }
}

fn by_hand(tempo: u32, tracks: Vec<(&str, &str, Vec<AtomicEvent>)>) -> Timeline {
    let mut map = TrackMap::new();
    for (id, patch, events) in tracks {
        map.insert(id.into(), Track { label: String::new(), patch: patch.into(), events });
    }
    Timeline { title: "T".into(), tempo, tracks: map }
}

fn ev(delta: u32, kind: MidiEventKind) -> MidiEvent {
    MidiEvent { delta, kind }
}

#[test]
fn patch_names_map_to_programs() {
    assert_eq!(parse_patch_name("Grand Piano"), 0);
    assert_eq!(parse_patch_name("Violin"), 40);
    assert_eq!(parse_patch_name("VIOLA da gamba"), 41);
    assert_eq!(parse_patch_name("my cello"), 42);
    assert_eq!(parse_patch_name("Electric Guitar"), 24);
    assert_eq!(parse_patch_name("Double Bass"), 32);
    assert_eq!(parse_patch_name("FLUTE"), 73);
    assert_eq!(parse_patch_name("Drum Kit"), 0);
    assert_eq!(parse_patch_name("theremin"), 0);
    assert_eq!(parse_patch_name(""), 0);
}

#[test]
fn the_first_name_of_the_table_decides() {
    assert_eq!(parse_patch_name("Bass Guitar"), 24);
    assert_eq!(parse_patch_name("violin and piano"), 0);
    assert_eq!(parse_patch_name("bass flute"), 32);
}

#[test]
fn lowering_is_that_of_the_standard_library() {
    // KELVIN SIGN lowers to k
    assert_eq!(parse_patch_name("\u{212A}it"), 0);
    assert_eq!(parse_patch_name("\u{212A}it flute"), 73);
    assert_eq!(program_of_lowercase("VIOLIN"), 0);
    assert_eq!(program_of_lowercase("violin"), 40);
}

#[test]
fn model_of_a_small_timeline() {
    let t = timeline(r#"tenuto { meta { title: "T" } def vln "Violin" patch="Violin" measure { vln: c4:4 d } }"#);
    let tracks = midi_tracks(&t).unwrap();
    assert_eq!(tracks.len(), 2);
    assert_eq!(
        tracks[0],
        vec![
            ev(0, MidiEventKind::TrackName("T".into())),
            ev(0, MidiEventKind::Tempo(500_000)),
            ev(0, MidiEventKind::EndOfTrack),
        ]
    );
    assert_eq!(
        tracks[1],
        vec![
            ev(0, MidiEventKind::ProgramChange { channel: 0, program: 40 }),
            ev(0, MidiEventKind::NoteOn { channel: 0, key: 60, vel: 100 }),
            ev(1920, MidiEventKind::NoteOff { channel: 0, key: 60, vel: 0 }),
            ev(0, MidiEventKind::NoteOn { channel: 0, key: 62, vel: 100 }),
            ev(1920, MidiEventKind::NoteOff { channel: 0, key: 62, vel: 0 }),
            ev(0, MidiEventKind::EndOfTrack),
        ]
    );
}

#[test]
fn messages_are_sorted_stably_by_tick() {
    // unsorted on purpose: the encoder sorts what it emits
    let t = by_hand(
        120,
        vec![("a", "flute", vec![note(100, 50, 70, 90), note(0, 100, 60, 80), note(100, 10, 65, 1)])],
    );
    let tracks = midi_tracks(&t).unwrap();
    assert_eq!(
        tracks[1],
        vec![
            ev(0, MidiEventKind::ProgramChange { channel: 0, program: 73 }),
            ev(0, MidiEventKind::NoteOn { channel: 0, key: 60, vel: 80 }),
            ev(100, MidiEventKind::NoteOn { channel: 0, key: 70, vel: 90 }),
            ev(0, MidiEventKind::NoteOff { channel: 0, key: 60, vel: 0 }),
            ev(0, MidiEventKind::NoteOn { channel: 0, key: 65, vel: 1 }),
            ev(10, MidiEventKind::NoteOff { channel: 0, key: 65, vel: 0 }),
            ev(40, MidiEventKind::NoteOff { channel: 0, key: 70, vel: 0 }),
            ev(0, MidiEventKind::EndOfTrack),
        ]
    );
}

#[test]
fn rests_emit_nothing() {
    let t = by_hand(
        120,
        vec![("a", "", vec![AtomicEvent { tick: 7, duration_ticks: 9, kind: EventKind::Rest }])],
    );
    assert_eq!(
        midi_tracks(&t).unwrap()[1],
        vec![
            ev(0, MidiEventKind::ProgramChange { channel: 0, program: 0 }),
            ev(0, MidiEventKind::EndOfTrack),
        ]
    );
}

#[test]
fn channels_follow_the_order_of_ids_and_wrap_at_sixteen() {
    let names: Vec<String> = (0..18).map(|i| format!("t{:02}", 17 - i)).collect();
    let t = by_hand(120, names.iter().map(|n| (n.as_str(), "", vec![])).collect());
    let tracks = midi_tracks(&t).unwrap();
    assert_eq!(tracks.len(), 19);
    for i in 0..18usize {
        assert_eq!(
            tracks[i + 1][0],
            ev(0, MidiEventKind::ProgramChange { channel: (i % 16) as u8, program: 0 })
        );
    }
}

#[test]
fn keys_and_velocities_are_cut_to_seven_bits() {
    let t = by_hand(120, vec![("a", "", vec![note(0, 1, 200, 255)])]);
    let track = &midi_tracks(&t).unwrap()[1];
    assert_eq!(track[1], ev(0, MidiEventKind::NoteOn { channel: 0, key: 72, vel: 127 }));
    assert_eq!(track[2], ev(1, MidiEventKind::NoteOff { channel: 0, key: 72, vel: 0 }));
}

#[test]
fn deltas_are_cut_to_28_bits() {
    let t = by_hand(120, vec![("a", "", vec![note((1 << 28) + 5, 1 << 30, 60, 100)])]);
    let track = &midi_tracks(&t).unwrap()[1];
    assert_eq!(track[1].delta, 5);
    assert_eq!(track[2].delta, 0);
}

#[test]
fn tempo_is_microseconds_per_quarter_cut_to_24_bits() {
    let micros = |tempo: u32| match &midi_tracks(&by_hand(tempo, vec![])).unwrap()[0][1].kind {
        MidiEventKind::Tempo(m) => *m,
        _ => panic!("expected the tempo"),
    };
    assert_eq!(micros(120), 500_000);
    assert_eq!(micros(150), 400_000);
    assert_eq!(micros(7), 8_571_428);
    assert_eq!(micros(3), 20_000_000 % (1 << 24));
    assert_eq!(micros(u32::MAX), 0);
}

#[test]
fn zero_tempo_is_an_error() {
    let t = by_hand(0, vec![("a", "", vec![note(u64::MAX, 1, 60, 100)])]);
    assert_eq!(midi_tracks(&t).unwrap_err(), ExportError::ZeroTempo);
    assert_eq!(export(&t).unwrap_err(), ExportError::ZeroTempo);
}

#[test]
fn note_behind_the_last_tick_is_an_error() {
    let t = by_hand(120, vec![("a", "", vec![note(u64::MAX, 1, 60, 100)])]);
    assert_eq!(midi_tracks(&t).unwrap_err(), ExportError::TickOverflow);
    assert_eq!(export(&t).unwrap_err(), ExportError::TickOverflow);
    let t = by_hand(120, vec![("a", "", vec![note(u64::MAX - 1, 1, 60, 100)])]);
    assert!(export(&t).is_ok());
}

#[test]
fn finish_export_maps_a_refusal() {
    assert_eq!(finish_export(None), Err(ExportError::Encoding));
    assert_eq!(finish_export(Some(vec![1, 2, 3])), Ok(vec![1, 2, 3]));
}

#[test]
fn bytes_of_a_small_file() {
    let t = timeline(r#"tenuto { meta { title: "T" } def vln "Violin" patch="Violin" measure { vln: c4:4 } }"#);
    let bytes = export(&t).unwrap();
    let expected: Vec<u8> = vec![
        // header: format 1, two tracks, 1920 ticks per quarter note
        b'M', b'T', b'h', b'd', 0, 0, 0, 6, 0, 1, 0, 2, 0x07, 0x80,
        // conductor track
        b'M', b'T', b'r', b'k', 0, 0, 0, 16,
        0x00, 0xFF, 0x03, 0x01, b'T',
        0x00, 0xFF, 0x51, 0x03, 0x07, 0xA1, 0x20,
        0x00, 0xFF, 0x2F, 0x00,
        // instrument track
        b'M', b'T', b'r', b'k', 0, 0, 0, 16,
        0x00, 0xC0, 40,
        0x00, 0x90, 60, 100,
        0x8F, 0x00, 0x80, 60, 0,
        0x00, 0xFF, 0x2F, 0x00,
    ];
    assert_eq!(bytes, expected);
}

#[test]
fn bytes_of_an_empty_timeline() {
    let t = timeline(r#"tenuto { meta { title: "Héro", tempo: 60 } }"#);
    let bytes = export(&t).unwrap();
    let expected: Vec<u8> = vec![
        b'M', b'T', b'h', b'd', 0, 0, 0, 6, 0, 1, 0, 1, 0x07, 0x80,
        b'M', b'T', b'r', b'k', 0, 0, 0, 20,
        0x00, 0xFF, 0x03, 0x05, b'H', 0xC3, 0xA9, b'r', b'o',
        0x00, 0xFF, 0x51, 0x03, 0x0F, 0x42, 0x40,
        0x00, 0xFF, 0x2F, 0x00,
    ];
    assert_eq!(bytes, expected);
}

#[test]
fn export_is_deterministic_over_track_order() {
    let a = timeline(r#"tenuto { def vln "V" def cel "C" measure { vln: c4 } measure { cel: e4 } }"#);
    let b = timeline(r#"tenuto { def cel "C" def vln "V" measure { cel: e4 } measure { vln: c4 } }"#);
    assert_eq!(export(&a).unwrap(), export(&b).unwrap());
}
