//! Encoding of a timeline as a Standard MIDI File.

use vstd::prelude::*;
use crate::ir::{AtomicEvent, EventKind, Timeline, TimelineView, Track, TrackView, PPQ};
use crate::sorting::{lemma_sorted_by_tick, sort_by_tick, sorted_by_tick, ticks_ascend, Timed};
use crate::text::{contains_chars, contains_text, to_chars};

verus! {

/// What a MIDI event does, apart from when.
#[derive(Debug, Clone, PartialEq, Eq)]
pub enum MidiEventKind {
    /// The track-name meta event.
    TrackName(String),
    /// The tempo meta event, in microseconds per quarter note.
    Tempo(u32),
    /// The end-of-track meta event.
    EndOfTrack,
    ProgramChange { channel: u8, program: u8 },
    NoteOn { channel: u8, key: u8, vel: u8 },
    NoteOff { channel: u8, key: u8, vel: u8 },
}

/// One event of a MIDI track.
#[derive(Debug, Clone, PartialEq, Eq)]
pub struct MidiEvent {
    /// Ticks since the previous event of the track.
    pub delta: u32,
    pub kind: MidiEventKind,
}

/// The mathematical value of a [`MidiEventKind`].
pub enum MidiEventKindView {
    TrackName(Seq<char>),
    Tempo(u32),
    EndOfTrack,
    ProgramChange { channel: u8, program: u8 },
    NoteOn { channel: u8, key: u8, vel: u8 },
    NoteOff { channel: u8, key: u8, vel: u8 },
}

/// The mathematical value of a [`MidiEvent`].
pub struct MidiEventView {
    pub delta: u32,
    pub kind: MidiEventKindView,
}

impl DeepView for MidiEventKind {
    type V = MidiEventKindView;

    open spec fn deep_view(&self) -> MidiEventKindView {
        match self {
            MidiEventKind::TrackName(s) => MidiEventKindView::TrackName(s@),
            MidiEventKind::Tempo(t) => MidiEventKindView::Tempo(*t),
            MidiEventKind::EndOfTrack => MidiEventKindView::EndOfTrack,
            MidiEventKind::ProgramChange { channel, program } => MidiEventKindView::ProgramChange {
                channel: *channel,
                program: *program,
            },
            MidiEventKind::NoteOn { channel, key, vel } => MidiEventKindView::NoteOn {
                channel: *channel,
                key: *key,
                vel: *vel,
            },
            MidiEventKind::NoteOff { channel, key, vel } => MidiEventKindView::NoteOff {
                channel: *channel,
                key: *key,
                vel: *vel,
            },
        }
    }
}

impl DeepView for MidiEvent {
    type V = MidiEventView;

    open spec fn deep_view(&self) -> MidiEventView {
        MidiEventView { delta: self.delta, kind: self.kind.deep_view() }
    }
}

/// `midly::Smf`: a MIDI file in memory, a header and a list of tracks.
#[verifier::external_type_specification]
#[verifier::external_body]
pub struct ExSmf<'a>(midly::Smf<'a>);

/// The tracks that a `midly::Smf` holds, each the list of its events. An
/// event of a sort that no `MidiEventView` stands for counts as an end of
/// track; a plain file holds none.
pub uninterp spec fn smf_tracks(smf: midly::Smf) -> Seq<Seq<MidiEventView>>;

/// The ticks per quarter note in the header of a `midly::Smf`.
pub uninterp spec fn smf_ppq(smf: midly::Smf) -> u16;

/// Whether a `midly::Smf` is of the plain sort that this library builds: its
/// header is of format `Parallel` with metrical timing, and its tracks hold
/// only events that a `MidiEventView` stands for.
pub uninterp spec fn smf_plain(smf: midly::Smf) -> bool;

/// The bytes that `midly::Smf::write` produces for a plain file with `ppq`
/// ticks per quarter note and the given tracks, or `None` where it refuses
/// them.
pub uninterp spec fn smf_encoding(ppq: u16, tracks: Seq<Seq<MidiEventView>>) -> Option<Seq<u8>>;

/// `midly::Smf::new` on a `midly::Header` of format `Parallel` with metrical
/// timing: a file without tracks. The ticks per quarter note fit the 15 bits
/// that `midly::num::u15` keeps.
#[verifier::external_body]
fn smf_new<'a>(ppq: u16) -> (smf: midly::Smf<'a>)
    requires
        ppq < 0x8000,
    ensures
        smf_plain(smf),
        smf_tracks(smf) == Seq::<Seq<MidiEventView>>::empty(),
        smf_ppq(smf) == ppq,
{
    midly::Smf::new(midly::Header::new(midly::Format::Parallel, midly::Timing::Metrical(ppq.into())))
}

/// Pushes an empty track onto the public field `tracks` of a `midly::Smf`.
#[verifier::external_body]
fn smf_add_track<'a>(smf: &mut midly::Smf<'a>)
    ensures
        smf_tracks(*final(smf)) == smf_tracks(*old(smf)).push(Seq::empty()),
        smf_ppq(*final(smf)) == smf_ppq(*old(smf)),
        smf_plain(*final(smf)) == smf_plain(*old(smf)),
{
    smf.tracks.push(Vec::new());
}

/// Whether the last track of `tracks` exists and `after` is `tracks` with `e`
/// appended to that track.
pub open spec fn appended(
    before: Seq<Seq<MidiEventView>>,
    after: Seq<Seq<MidiEventView>>,
    e: MidiEventView,
) -> bool {
    before.len() > 0 && after == before.update(before.len() - 1, before.last().push(e))
}

/// Appends a `midly::TrackEvent` holding `MetaMessage::TrackName` to the
/// last track.
#[verifier::external_body]
fn smf_push_track_name<'a>(smf: &mut midly::Smf<'a>, delta: u32, name: &'a str)
    requires
        smf_tracks(*old(smf)).len() > 0,
        delta < 0x1000_0000,
    ensures
        appended(
            smf_tracks(*old(smf)),
            smf_tracks(*final(smf)),
            MidiEventView { delta, kind: MidiEventKindView::TrackName(name@) },
        ),
        smf_ppq(*final(smf)) == smf_ppq(*old(smf)),
        smf_plain(*final(smf)) == smf_plain(*old(smf)),
{
    let kind = midly::TrackEventKind::Meta(midly::MetaMessage::TrackName(name.as_bytes()));
    smf.tracks.last_mut().unwrap().push(midly::TrackEvent { delta: delta.into(), kind });
}

/// `midly::Smf::write` into a `Vec<u8>`: the encoding of the file, which
/// depends on the header and the tracks alone, or nothing where the writer
/// reports that they break the limits of the format.
#[verifier::external_body]
fn smf_write<'a>(smf: &midly::Smf<'a>) -> (r: Option<Vec<u8>>)
    requires
        smf_plain(*smf),
    ensures
        match r {
            Some(bytes) => smf_encoding(smf_ppq(*smf), smf_tracks(*smf)) == Some(bytes@),
            None => smf_encoding(smf_ppq(*smf), smf_tracks(*smf)) is None,
        },
{
    let mut out = Vec::new();
    match smf.write(&mut out) {
        Ok(_) => Some(out),
        Err(_) => None,
    }
}

/// Appends a `midly::TrackEvent` holding `MetaMessage::Tempo` to the last
/// track.
#[verifier::external_body]
fn smf_push_tempo<'a>(smf: &mut midly::Smf<'a>, delta: u32, micros: u32)
    requires
        smf_tracks(*old(smf)).len() > 0,
        delta < 0x1000_0000,
        micros < 0x100_0000,
    ensures
        appended(
            smf_tracks(*old(smf)),
            smf_tracks(*final(smf)),
            MidiEventView { delta, kind: MidiEventKindView::Tempo(micros) },
        ),
        smf_ppq(*final(smf)) == smf_ppq(*old(smf)),
        smf_plain(*final(smf)) == smf_plain(*old(smf)),
{
    let kind = midly::TrackEventKind::Meta(midly::MetaMessage::Tempo(micros.into()));
    smf.tracks.last_mut().unwrap().push(midly::TrackEvent { delta: delta.into(), kind });
}

/// Appends a `midly::TrackEvent` holding `MetaMessage::EndOfTrack` to the
/// last track.
#[verifier::external_body]
fn smf_push_end_of_track<'a>(smf: &mut midly::Smf<'a>, delta: u32)
    requires
        smf_tracks(*old(smf)).len() > 0,
        delta < 0x1000_0000,
    ensures
        appended(
            smf_tracks(*old(smf)),
            smf_tracks(*final(smf)),
            MidiEventView { delta, kind: MidiEventKindView::EndOfTrack },
        ),
        smf_ppq(*final(smf)) == smf_ppq(*old(smf)),
        smf_plain(*final(smf)) == smf_plain(*old(smf)),
{
    let kind = midly::TrackEventKind::Meta(midly::MetaMessage::EndOfTrack);
    smf.tracks.last_mut().unwrap().push(midly::TrackEvent { delta: delta.into(), kind });
}

/// Appends a `midly::TrackEvent` holding `MidiMessage::ProgramChange` to the
/// last track.
#[verifier::external_body]
fn smf_push_program_change<'a>(smf: &mut midly::Smf<'a>, delta: u32, channel: u8, program: u8)
    requires
        smf_tracks(*old(smf)).len() > 0,
        delta < 0x1000_0000,
        channel < 16,
        program < 128,
    ensures
        appended(
            smf_tracks(*old(smf)),
            smf_tracks(*final(smf)),
            MidiEventView { delta, kind: MidiEventKindView::ProgramChange { channel, program } },
        ),
        smf_ppq(*final(smf)) == smf_ppq(*old(smf)),
        smf_plain(*final(smf)) == smf_plain(*old(smf)),
{
    let message = midly::MidiMessage::ProgramChange { program: program.into() };
    let kind = midly::TrackEventKind::Midi { channel: channel.into(), message };
    smf.tracks.last_mut().unwrap().push(midly::TrackEvent { delta: delta.into(), kind });
}

/// Appends a `midly::TrackEvent` holding `MidiMessage::NoteOn` to the last
/// track.
#[verifier::external_body]
fn smf_push_note_on<'a>(smf: &mut midly::Smf<'a>, delta: u32, channel: u8, key: u8, vel: u8)
    requires
        smf_tracks(*old(smf)).len() > 0,
        delta < 0x1000_0000,
        channel < 16,
        key < 128,
        vel < 128,
    ensures
        appended(
            smf_tracks(*old(smf)),
            smf_tracks(*final(smf)),
            MidiEventView { delta, kind: MidiEventKindView::NoteOn { channel, key, vel } },
        ),
        smf_ppq(*final(smf)) == smf_ppq(*old(smf)),
        smf_plain(*final(smf)) == smf_plain(*old(smf)),
{
    let message = midly::MidiMessage::NoteOn { key: key.into(), vel: vel.into() };
    let kind = midly::TrackEventKind::Midi { channel: channel.into(), message };
    smf.tracks.last_mut().unwrap().push(midly::TrackEvent { delta: delta.into(), kind });
}

/// Appends a `midly::TrackEvent` holding `MidiMessage::NoteOff` to the last
/// track.
#[verifier::external_body]
fn smf_push_note_off<'a>(smf: &mut midly::Smf<'a>, delta: u32, channel: u8, key: u8, vel: u8)
    requires
        smf_tracks(*old(smf)).len() > 0,
        delta < 0x1000_0000,
        channel < 16,
        key < 128,
        vel < 128,
    ensures
        appended(
            smf_tracks(*old(smf)),
            smf_tracks(*final(smf)),
            MidiEventView { delta, kind: MidiEventKindView::NoteOff { channel, key, vel } },
        ),
        smf_ppq(*final(smf)) == smf_ppq(*old(smf)),
        smf_plain(*final(smf)) == smf_plain(*old(smf)),
{
    let message = midly::MidiMessage::NoteOff { key: key.into(), vel: vel.into() };
    let kind = midly::TrackEventKind::Midi { channel: channel.into(), message };
    smf.tracks.last_mut().unwrap().push(midly::TrackEvent { delta: delta.into(), kind });
}

/// The lower-case form of a string, as `str::to_lowercase` gives it.
pub uninterp spec fn lowercase_of(s: Seq<char>) -> Seq<char>;

/// `str::to_lowercase`.
#[verifier::external_body]
fn lowercase(s: &str) -> (r: String)
    ensures
        r@ == lowercase_of(s@),
{
    s.to_lowercase()
}

/// The General MIDI program for a patch name in lower case: the first of
/// `piano`, `violin`, `viola`, `cello`, `guitar`, `bass`, `flute`, `drum`,
/// `kit` that occurs in it decides, and without any of them it is `0`.
pub open spec fn patch_program(lower: Seq<char>) -> u8 {
    if contains_text(lower, "piano"@) {
        0
    } else if contains_text(lower, "violin"@) {
        40
    } else if contains_text(lower, "viola"@) {
        41
    } else if contains_text(lower, "cello"@) {
        42
    } else if contains_text(lower, "guitar"@) {
        24
    } else if contains_text(lower, "bass"@) {
        32
    } else if contains_text(lower, "flute"@) {
        73
    } else {
        0
    }
}

/// The General MIDI program for a patch name that is already in lower case.
pub fn program_of_lowercase(lower: &str) -> (program: u8)
    ensures
        program == patch_program(lower@),
{
    let n = to_chars(lower);
    if contains_chars(&n, &to_chars("piano")) {
        return 0;
    }
    if contains_chars(&n, &to_chars("violin")) {
        return 40;
    }
    if contains_chars(&n, &to_chars("viola")) {
        return 41;
    }
    if contains_chars(&n, &to_chars("cello")) {
        return 42;
    }
    if contains_chars(&n, &to_chars("guitar")) {
        return 24;
    }
    if contains_chars(&n, &to_chars("bass")) {
        return 32;
    }
    if contains_chars(&n, &to_chars("flute")) {
        return 73;
    }
    0
}

/// The General MIDI program for a patch name, whatever its case.
pub fn parse_patch_name(name: &str) -> (program: u8)
    ensures
        program == patch_program(lowercase_of(name@)),
{
    let lower = lowercase(name);
    program_of_lowercase(lower.as_str())
}

/// Why a timeline has no MIDI file.
#[derive(Debug, Clone, Copy, PartialEq, Eq, Structural)]
pub enum ExportError {
    /// The tempo is zero beats per minute.
    ZeroTempo,
    /// A note ends behind the last tick that 64 bits can hold.
    TickOverflow,
    /// The encoder refused the tracks: too many of them, or one too long.
    Encoding,
}

/// A message on the channel of an instrument track.
#[derive(Debug, Clone, Copy, PartialEq, Eq, Structural)]
pub enum ChannelMessage {
    ProgramChange { program: u8 },
    NoteOn { key: u8, vel: u8 },
    NoteOff { key: u8, vel: u8 },
}

/// A channel message at an absolute tick.
#[derive(Debug, Clone, Copy, PartialEq, Eq, Structural)]
pub struct TimedMessage {
    pub tick: u64,
    pub message: ChannelMessage,
}

impl Timed for TimedMessage {
    open spec fn tick_of(&self) -> u64 {
        self.tick
    }

    fn tick(&self) -> (t: u64) {
        self.tick
    }
}

/// The note-on and the note-off of a note; nothing for a rest.
pub open spec fn note_messages(e: AtomicEvent) -> Seq<TimedMessage> {
    match e.kind {
        EventKind::Note { pitch, velocity } => seq![
            TimedMessage {
                tick: e.tick,
                message: ChannelMessage::NoteOn { key: pitch, vel: velocity },
            },
            TimedMessage {
                tick: (e.tick + e.duration_ticks) as u64,
                message: ChannelMessage::NoteOff { key: pitch, vel: 0 },
            },
        ],
        EventKind::Rest => seq![],
    }
}

/// `acc` followed by the messages of `events[i..]`, or `None` where one of
/// these notes ends behind the last tick.
pub open spec fn emitted_from(events: Seq<AtomicEvent>, i: int, acc: Seq<TimedMessage>) -> Option<
    Seq<TimedMessage>,
>
    decreases events.len() - i,
{
    if i < 0 || i >= events.len() {
        Some(acc)
    } else if events[i].kind is Note && events[i].tick + events[i].duration_ticks > u64::MAX {
        None
    } else {
        emitted_from(events, i + 1, acc + note_messages(events[i]))
    }
}

/// The messages of an instrument track before they are sorted: the program
/// change at tick 0, then the messages of each note.
pub open spec fn emitted(track: TrackView) -> Option<Seq<TimedMessage>> {
    emitted_from(
        track.events,
        0,
        seq![
            TimedMessage {
                tick: 0,
                message: ChannelMessage::ProgramChange {
                    program: patch_program(lowercase_of(track.patch)),
                },
            },
        ],
    )
}

/// The delta time from `prev` to `tick`, cut to 28 bits.
pub open spec fn delta_between(prev: u64, tick: u64) -> u32 {
    ((tick - prev) % 0x1000_0000) as u32
}

/// The event of a MIDI track for a message on `channel` that follows an
/// event at tick `prev`, with program, key and velocity cut to seven bits.
pub open spec fn channel_event(m: TimedMessage, prev: u64, channel: u8) -> MidiEventView {
    MidiEventView {
        delta: delta_between(prev, m.tick),
        kind: match m.message {
            ChannelMessage::ProgramChange { program } => MidiEventKindView::ProgramChange {
                channel,
                program: program % 128,
            },
            ChannelMessage::NoteOn { key, vel } => MidiEventKindView::NoteOn {
                channel,
                key: key % 128,
                vel: vel % 128,
            },
            ChannelMessage::NoteOff { key, vel } => MidiEventKindView::NoteOff {
                channel,
                key: key % 128,
                vel: vel % 128,
            },
        },
    }
}

/// `acc` followed by the events for `sorted[i..]`, each with the delta time
/// from the message before it, the first from tick 0.
pub open spec fn with_deltas_from(
    sorted: Seq<TimedMessage>,
    channel: u8,
    i: int,
    acc: Seq<MidiEventView>,
) -> Seq<MidiEventView>
    decreases sorted.len() - i,
{
    if i < 0 || i >= sorted.len() {
        acc
    } else {
        let prev = if i == 0 {
            0
        } else {
            sorted[i - 1].tick
        };
        with_deltas_from(sorted, channel, i + 1, acc.push(channel_event(sorted[i], prev, channel)))
    }
}

/// The end-of-track event.
pub open spec fn end_of_track() -> MidiEventView {
    MidiEventView { delta: 0, kind: MidiEventKindView::EndOfTrack }
}

/// The MIDI track of the instrument track at position `index`: on channel
/// `index mod 16`, its messages stably sorted by tick, then the end of track.
pub open spec fn instrument_track(track: TrackView, index: int) -> Option<Seq<MidiEventView>> {
    match emitted(track) {
        Some(messages) => Some(
            with_deltas_from(sorted_by_tick(messages), (index % 16) as u8, 0, seq![]).push(
                end_of_track(),
            ),
        ),
        None => None,
    }
}

/// The conductor track: the title as track name, the tempo in microseconds
/// per quarter note cut to 24 bits, and the end of track.
pub open spec fn conductor_track(title: Seq<char>, tempo: u32) -> Seq<MidiEventView> {
    seq![
        MidiEventView { delta: 0, kind: MidiEventKindView::TrackName(title) },
        MidiEventView {
            delta: 0,
            kind: MidiEventKindView::Tempo(((60_000_000u32 / tempo) % 0x100_0000) as u32),
        },
        end_of_track(),
    ]
}

/// `acc` followed by the MIDI tracks of `tracks[i..]`.
pub open spec fn instrument_tracks_from(
    tracks: Seq<(Seq<char>, TrackView)>,
    i: int,
    acc: Seq<Seq<MidiEventView>>,
) -> Option<Seq<Seq<MidiEventView>>>
    decreases tracks.len() - i,
{
    if i < 0 || i >= tracks.len() {
        Some(acc)
    } else {
        match instrument_track(tracks[i].1, i) {
            Some(t) => instrument_tracks_from(tracks, i + 1, acc.push(t)),
            None => None,
        }
    }
}

/// The tracks of the MIDI file of a timeline: the conductor track, then one
/// track for each track of the timeline, in ascending order of id.
pub open spec fn midi_model(timeline: TimelineView) -> Result<Seq<Seq<MidiEventView>>, ExportError> {
    if timeline.tempo == 0 {
        Err(ExportError::ZeroTempo)
    } else {
        match instrument_tracks_from(
            timeline.tracks,
            0,
            seq![conductor_track(timeline.title, timeline.tempo)],
        ) {
            Some(tracks) => Ok(tracks),
            None => Err(ExportError::TickOverflow),
        }
    }
}

/// Whether every field of the event fits the width that the file format
/// gives it.
pub open spec fn encodable(e: MidiEventView) -> bool {
    e.delta < 0x1000_0000 && match e.kind {
        MidiEventKindView::TrackName(_) => true,
        MidiEventKindView::Tempo(micros) => micros < 0x100_0000,
        MidiEventKindView::EndOfTrack => true,
        MidiEventKindView::ProgramChange { channel, program } => channel < 16 && program < 128,
        MidiEventKindView::NoteOn { channel, key, vel } => channel < 16 && key < 128 && vel < 128,
        MidiEventKindView::NoteOff { channel, key, vel } => channel < 16 && key < 128 && vel < 128,
    }
}

/// Whether every event of every track is encodable.
pub open spec fn all_encodable(tracks: Seq<Seq<MidiEventView>>) -> bool {
    forall|i: int, j: int|
        0 <= i < tracks.len() && 0 <= j < tracks[i].len() ==> encodable(#[trigger] tracks[i][j])
}

fn emit(track: &Track) -> (r: Option<Vec<TimedMessage>>)
    ensures
        match r {
            Some(m) => emitted(track.deep_view()) == Some(m@),
            None => emitted(track.deep_view()) is None,
        },
{
    let program = parse_patch_name(track.patch.as_str());
    let mut out: Vec<TimedMessage> = Vec::new();
    out.push(TimedMessage { tick: 0, message: ChannelMessage::ProgramChange { program } });
    assert(out@ =~= seq![
        TimedMessage { tick: 0, message: ChannelMessage::ProgramChange { program } },
    ]);
    let mut i: usize = 0;
    while i < track.events.len()
        invariant
            i <= track.events.len(),
            emitted(track.deep_view()) == emitted_from(track.events@, i as int, out@),
        decreases track.events.len() - i,
    {
        let e = track.events[i];
        match e.kind {
            EventKind::Note { pitch, velocity } => {
                let end = match e.tick.checked_add(e.duration_ticks) {
                    Some(end) => end,
                    None => {
                        return None;
                    },
                };
                let ghost before = out@;
                out.push(
                    TimedMessage {
                        tick: e.tick,
                        message: ChannelMessage::NoteOn { key: pitch, vel: velocity },
                    },
                );
                out.push(
                    TimedMessage {
                        tick: end,
                        message: ChannelMessage::NoteOff { key: pitch, vel: 0 },
                    },
                );
                assert(out@ =~= before + note_messages(e));
            },
            EventKind::Rest => {
                assert(out@ =~= out@ + note_messages(e));
            },
        }
        i += 1;
    }
    Some(out)
}

fn with_deltas(sorted: &Vec<TimedMessage>, channel: u8) -> (r: Vec<MidiEvent>)
    requires
        ticks_ascend(sorted@),
        channel < 16,
    ensures
        r.deep_view() == with_deltas_from(sorted@, channel, 0, seq![]),
        forall|i: int| 0 <= i < r.len() ==> encodable(#[trigger] r[i].deep_view()),
{
    let mut out: Vec<MidiEvent> = Vec::new();
    let mut prev: u64 = 0;
    let mut i: usize = 0;
    assert(out.deep_view() =~= Seq::<MidiEventView>::empty());
    while i < sorted.len()
        invariant
            i <= sorted.len(),
            ticks_ascend(sorted@),
            channel < 16,
            prev == if i == 0 {
                0
            } else {
                sorted[i - 1].tick
            },
            with_deltas_from(sorted@, channel, 0, seq![]) == with_deltas_from(
                sorted@,
                channel,
                i as int,
                out.deep_view(),
            ),
            forall|k: int| 0 <= k < out.len() ==> encodable(#[trigger] out[k].deep_view()),
        decreases sorted.len() - i,
    {
        let m = sorted[i];
        assert(prev <= m.tick) by {
            if i > 0 {
                assert(sorted@[i - 1].tick_of() <= sorted@[i as int].tick_of());
            }
        }
        let delta: u32 = ((m.tick - prev) % 0x1000_0000) as u32;
        let kind = match m.message {
            ChannelMessage::ProgramChange { program } => MidiEventKind::ProgramChange {
                channel,
                program: program % 128,
            },
            ChannelMessage::NoteOn { key, vel } => MidiEventKind::NoteOn {
                channel,
                key: key % 128,
                vel: vel % 128,
            },
            ChannelMessage::NoteOff { key, vel } => MidiEventKind::NoteOff {
                channel,
                key: key % 128,
                vel: vel % 128,
            },
        };
        let event = MidiEvent { delta, kind };
        assert(event.deep_view() == channel_event(m, prev, channel));
        let ghost before = out;
        out.push(event);
        assert(out.deep_view() =~= before.deep_view().push(event.deep_view()));
        prev = m.tick;
        i += 1;
    }
    out
}

fn instrument(track: &Track, index: usize) -> (r: Option<Vec<MidiEvent>>)
    ensures
        match r {
            Some(t) => instrument_track(track.deep_view(), index as int) == Some(t.deep_view())
                && forall|i: int| 0 <= i < t.len() ==> encodable(#[trigger] t[i].deep_view()),
            None => instrument_track(track.deep_view(), index as int) is None,
        },
{
    let messages = match emit(track) {
        Some(m) => m,
        None => {
            return None;
        },
    };
    let sorted = sort_by_tick(&messages);
    proof {
        lemma_sorted_by_tick(messages@);
    }
    let channel: u8 = (index % 16) as u8;
    let mut events = with_deltas(&sorted, channel);
    let ghost before = events;
    let end = MidiEvent { delta: 0, kind: MidiEventKind::EndOfTrack };
    events.push(end);
    assert(events.deep_view() =~= before.deep_view().push(end_of_track()));
    Some(events)
}

fn conductor(title: &String, tempo: u32) -> (r: Vec<MidiEvent>)
    requires
        tempo != 0,
    ensures
        r.deep_view() == conductor_track(title@, tempo),
        forall|i: int| 0 <= i < r.len() ==> encodable(#[trigger] r[i].deep_view()),
{
    let mut events: Vec<MidiEvent> = Vec::new();
    events.push(MidiEvent { delta: 0, kind: MidiEventKind::TrackName(title.clone()) });
    events.push(MidiEvent { delta: 0, kind: MidiEventKind::Tempo((60_000_000u32 / tempo) % 0x100_0000) });
    events.push(MidiEvent { delta: 0, kind: MidiEventKind::EndOfTrack });
    assert(events.deep_view() =~= conductor_track(title@, tempo));
    events
}

/// The tracks of the MIDI file of a timeline, as [`midi_model`] defines them.
pub fn midi_tracks(timeline: &Timeline) -> (r: Result<Vec<Vec<MidiEvent>>, ExportError>)
    ensures
        match r {
            Ok(tracks) => midi_model(timeline.deep_view()) == Ok::<_, ExportError>(
                tracks.deep_view(),
            ) && all_encodable(tracks.deep_view()),
            Err(e) => midi_model(timeline.deep_view()) == Err::<Seq<Seq<MidiEventView>>, _>(e),
        },
{
    if timeline.tempo == 0 {
        return Err(ExportError::ZeroTempo);
    }
    let mut tracks: Vec<Vec<MidiEvent>> = Vec::new();
    let first = conductor(&timeline.title, timeline.tempo);
    tracks.push(first);
    assert(tracks.deep_view() =~= seq![conductor_track(timeline.title@, timeline.tempo)]);
    let n = timeline.tracks.len();
    let mut i: usize = 0;
    while i < n
        invariant
            i <= n,
            n == timeline.tracks.deep_view().len(),
            timeline.tempo != 0,
            instrument_tracks_from(
                timeline.tracks.deep_view(),
                0,
                seq![conductor_track(timeline.title@, timeline.tempo)],
            ) == instrument_tracks_from(timeline.tracks.deep_view(), i as int, tracks.deep_view()),
            all_encodable(tracks.deep_view()),
        decreases n - i,
    {
        match instrument(timeline.tracks.track_at(i), i) {
            Some(t) => {
                let ghost before = tracks;
                tracks.push(t);
                assert(tracks.deep_view() =~= before.deep_view().push(t.deep_view()));
                assert forall|a: int, b: int|
                    0 <= a < tracks.deep_view().len() && 0 <= b
                        < tracks.deep_view()[a].len() implies encodable(
                    #[trigger] tracks.deep_view()[a][b],
                ) by {
                    if a < before.len() {
                        assert(tracks.deep_view()[a][b] == before.deep_view()[a][b]);
                    } else {
                        assert(tracks.deep_view()[a][b] == t[b].deep_view());
                    }
                }
            },
            None => {
                return Err(ExportError::TickOverflow);
            },
        }
        i += 1;
    }
    Ok(tracks)
}

fn push_event<'a>(smf: &mut midly::Smf<'a>, e: &'a MidiEvent)
    requires
        smf_tracks(*old(smf)).len() > 0,
        encodable(e.deep_view()),
    ensures
        appended(smf_tracks(*old(smf)), smf_tracks(*final(smf)), e.deep_view()),
        smf_ppq(*final(smf)) == smf_ppq(*old(smf)),
        smf_plain(*final(smf)) == smf_plain(*old(smf)),
{
    match &e.kind {
        MidiEventKind::TrackName(name) => smf_push_track_name(smf, e.delta, name.as_str()),
        MidiEventKind::Tempo(micros) => smf_push_tempo(smf, e.delta, *micros),
        MidiEventKind::EndOfTrack => smf_push_end_of_track(smf, e.delta),
        MidiEventKind::ProgramChange { channel, program } => smf_push_program_change(
            smf,
            e.delta,
            *channel,
            *program,
        ),
        MidiEventKind::NoteOn { channel, key, vel } => smf_push_note_on(
            smf,
            e.delta,
            *channel,
            *key,
            *vel,
        ),
        MidiEventKind::NoteOff { channel, key, vel } => smf_push_note_off(
            smf,
            e.delta,
            *channel,
            *key,
            *vel,
        ),
    }
}

fn feed<'a>(tracks: &'a Vec<Vec<MidiEvent>>) -> (smf: midly::Smf<'a>)
    requires
        all_encodable(tracks.deep_view()),
    ensures
        smf_plain(smf),
        smf_tracks(smf) == tracks.deep_view(),
        smf_ppq(smf) == PPQ,
{
    let mut smf = smf_new(PPQ as u16);
    let mut i: usize = 0;
    assert(tracks.deep_view().take(0) =~= Seq::<Seq<MidiEventView>>::empty());
    while i < tracks.len()
        invariant
            i <= tracks.len(),
            all_encodable(tracks.deep_view()),
            smf_plain(smf),
            smf_tracks(smf) == tracks.deep_view().take(i as int),
            smf_ppq(smf) == PPQ,
        decreases tracks.len() - i,
    {
        smf_add_track(&mut smf);
        let track = &tracks[i];
        let mut j: usize = 0;
        assert(track.deep_view().take(0) =~= Seq::<MidiEventView>::empty());
        while j < track.len()
            invariant
                j <= track.len(),
                i < tracks.len(),
                track == tracks[i as int],
                all_encodable(tracks.deep_view()),
                smf_plain(smf),
                smf_tracks(smf) == tracks.deep_view().take(i as int).push(
                    track.deep_view().take(j as int),
                ),
                smf_ppq(smf) == PPQ,
            decreases track.len() - j,
        {
            assert(encodable(tracks.deep_view()[i as int][j as int]));
            push_event(&mut smf, &track[j]);
            assert(track.deep_view().take(j + 1) =~= track.deep_view().take(j as int).push(
                track[j as int].deep_view(),
            ));
            assert(smf_tracks(smf) =~= tracks.deep_view().take(i as int).push(
                track.deep_view().take(j + 1),
            ));
            j += 1;
        }
        assert(track.deep_view().take(track.len() as int) =~= track.deep_view());
        assert(tracks.deep_view().take(i + 1) =~= tracks.deep_view().take(i as int).push(
            track.deep_view(),
        ));
        i += 1;
    }
    assert(tracks.deep_view().take(tracks.len() as int) =~= tracks.deep_view());
    smf
}

/// What `export` returns for the model of a timeline and for what the
/// encoder makes of that model.
pub open spec fn export_outcome(
    model: Result<Seq<Seq<MidiEventView>>, ExportError>,
    encoding: Option<Seq<u8>>,
) -> Result<Seq<u8>, ExportError> {
    match model {
        Err(e) => Err(e),
        Ok(_) => match encoding {
            Some(bytes) => Ok(bytes),
            None => Err(ExportError::Encoding),
        },
    }
}

/// The result of an export whose tracks were built, from what the encoder
/// returned for them.
pub fn finish_export(written: Option<Vec<u8>>) -> (r: Result<Vec<u8>, ExportError>)
    ensures
        match written {
            Some(bytes) => r == Ok::<_, ExportError>(bytes),
            None => r == Err::<Vec<u8>, _>(ExportError::Encoding),
        },
{
    match written {
        Some(bytes) => Ok(bytes),
        None => Err(ExportError::Encoding),
    }
}

/// The encoding of a whole list of tracks at [`PPQ`] ticks per quarter note.
pub open spec fn encoding_of(model: Result<Seq<Seq<MidiEventView>>, ExportError>) -> Option<
    Seq<u8>,
> {
    match model {
        Ok(tracks) => smf_encoding(PPQ as u16, tracks),
        Err(_) => None,
    }
}

/// The bytes of the Standard MIDI File of a timeline: format 1, with
/// [`PPQ`] ticks per quarter note and the tracks of [`midi_model`].
pub fn export(timeline: &Timeline) -> (r: Result<Vec<u8>, ExportError>)
    ensures
        match r {
            Ok(bytes) => export_outcome(
                midi_model(timeline.deep_view()),
                encoding_of(midi_model(timeline.deep_view())),
            ) == Ok::<_, ExportError>(bytes@),
            Err(e) => export_outcome(
                midi_model(timeline.deep_view()),
                encoding_of(midi_model(timeline.deep_view())),
            ) == Err::<Seq<u8>, _>(e),
        },
{
    let tracks = match midi_tracks(timeline) {
        Ok(tracks) => tracks,
        Err(e) => {
            return Err(e);
        },
    };
    let smf = feed(&tracks);
    finish_export(smf_write(&smf))
}

} // verus!
