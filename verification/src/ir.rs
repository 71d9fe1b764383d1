//! The timeline that linearization produces, and the inference engine that
//! resolves sticky durations, octaves and tuplets into absolute ticks.

use vstd::prelude::*;
use crate::sorting::{
    lemma_sorted_by_tick, lemma_sorted_member, sort_by_tick, sorted_by_tick, ticks_ascend, Timed,
};
use crate::parser::{
    lemma_tuplet_view, Event, EventView, Score, ScoreView, Statement, StatementView, TopLevel,
    TopLevelView, Value, ValueView, Voice, VoiceView,
};
use crate::rational::Rational;
use crate::text::{
    char_is_digit, comes_before, decimal_upto, find_char, index_of, is_digit, parse_decimal,
    same_chars, same_text, text_before, to_chars,
};

verus! {

/// Ticks per quarter note.
pub const PPQ: u32 = 1920;

/// What happens at an event of the timeline.
#[derive(Debug, Clone, Copy, PartialEq, Eq, Structural)]
pub enum EventKind {
    Note { pitch: u8, velocity: u8 },
    Rest,
}

/// One event of a track, at an absolute tick.
#[derive(Debug, Clone, Copy, PartialEq, Eq, Structural)]
pub struct AtomicEvent {
    pub tick: u64,
    pub duration_ticks: u64,
    pub kind: EventKind,
}

impl Timed for AtomicEvent {
    open spec fn tick_of(&self) -> u64 {
        self.tick
    }

    fn tick(&self) -> (t: u64) {
        self.tick
    }
}

/// One staff of the timeline.
#[derive(Debug)]
pub struct Track {
    pub label: String,
    pub patch: String,
    pub events: Vec<AtomicEvent>,
}

impl Clone for Track {
    fn clone(&self) -> (r: Self)
        ensures
            r.deep_view() == self.deep_view(),
    {
        let mut events: Vec<AtomicEvent> = Vec::new();
        let mut i: usize = 0;
        while i < self.events.len()
            invariant
                i <= self.events.len(),
                events@ == self.events@.take(i as int),
            decreases self.events.len() - i,
        {
            events.push(self.events[i]);
            assert(self.events@.take(i + 1) =~= self.events@.take(i as int).push(
                self.events@[i as int],
            ));
            i += 1;
        }
        assert(self.events@.take(self.events.len() as int) =~= self.events@);
        Track { label: self.label.clone(), patch: self.patch.clone(), events }
    }
}

/// The mathematical value of a [`Track`].
pub struct TrackView {
    pub label: Seq<char>,
    pub patch: Seq<char>,
    pub events: Seq<AtomicEvent>,
}

impl DeepView for Track {
    type V = TrackView;

    open spec fn deep_view(&self) -> TrackView {
        TrackView { label: self.label@, patch: self.patch@, events: self.events@ }
    }
}

/// The number of entries of `s`, from position `i` on, whose id comes before
/// `id`, added to `i`: where `s` is in ascending order from `i` on, the place
/// of `id` among its ids.
pub open spec fn rank_from(s: Seq<(Seq<char>, TrackView)>, id: Seq<char>, i: int) -> int
    decreases s.len() - i,
{
    if 0 <= i < s.len() && text_before(s[i].0, id) {
        rank_from(s, id, i + 1)
    } else {
        i
    }
}

/// The place of `id` among the ids of `s`.
pub open spec fn rank(s: Seq<(Seq<char>, TrackView)>, id: Seq<char>) -> int {
    rank_from(s, id, 0)
}

/// The position of the entry of `s` with this id, if there is one.
pub open spec fn position(s: Seq<(Seq<char>, TrackView)>, id: Seq<char>) -> Option<int> {
    let i = rank(s, id);
    if i < s.len() && s[i].0 == id {
        Some(i)
    } else {
        None
    }
}

/// The track of `s` with this id, if there is one.
pub open spec fn lookup(s: Seq<(Seq<char>, TrackView)>, id: Seq<char>) -> Option<TrackView> {
    match position(s, id) {
        Some(i) => Some(s[i].1),
        None => None,
    }
}

/// `s` with `track` under `id`: in the place of the track that had this id,
/// or else as a new entry at the place that keeps the ids ascending.
pub open spec fn upsert(s: Seq<(Seq<char>, TrackView)>, id: Seq<char>, track: TrackView) -> Seq<
    (Seq<char>, TrackView),
> {
    match position(s, id) {
        Some(i) => s.update(i, (id, track)),
        None => s.insert(rank(s, id), (id, track)),
    }
}

/// Each id comes before the next.
pub open spec fn ids_ascend(s: Seq<(Seq<char>, TrackView)>) -> bool {
    forall|i: int| 0 <= i < s.len() - 1 ==> text_before(#[trigger] s[i].0, s[i + 1].0)
}

/// `rank_from` stays within the sequence.
pub proof fn lemma_rank_bounds(s: Seq<(Seq<char>, TrackView)>, id: Seq<char>, i: int)
    requires
        0 <= i <= s.len(),
    ensures
        i <= rank_from(s, id, i) <= s.len(),
    decreases s.len() - i,
{
    if i < s.len() && text_before(s[i].0, id) {
        lemma_rank_bounds(s, id, i + 1);
    }
}

/// Every entry before the rank of `id` has an id that comes before `id`, and
/// the entry at the rank has not.
pub proof fn lemma_rank_splits(s: Seq<(Seq<char>, TrackView)>, id: Seq<char>, i: int)
    requires
        0 <= i <= s.len(),
    ensures
        forall|k: int| i <= k < rank_from(s, id, i) ==> text_before(#[trigger] s[k].0, id),
        rank_from(s, id, i) < s.len() ==> !text_before(s[rank_from(s, id, i)].0, id),
    decreases s.len() - i,
{
    if i < s.len() && text_before(s[i].0, id) {
        lemma_rank_splits(s, id, i + 1);
    }
}

/// `upsert` keeps the ids in ascending order.
pub proof fn lemma_upsert_ascends(s: Seq<(Seq<char>, TrackView)>, id: Seq<char>, track: TrackView)
    requires
        ids_ascend(s),
    ensures
        ids_ascend(upsert(s, id, track)),
{
    let r = rank(s, id);
    let u = upsert(s, id, track);
    lemma_rank_bounds(s, id, 0);
    lemma_rank_splits(s, id, 0);
    match position(s, id) {
        Some(i) => {
            assert forall|k: int| 0 <= k < u.len() - 1 implies text_before(
                #[trigger] u[k].0,
                u[k + 1].0,
            ) by {
                assert(text_before(s[k].0, s[k + 1].0));
            }
        },
        None => {
            assert forall|k: int| 0 <= k < u.len() - 1 implies text_before(
                #[trigger] u[k].0,
                u[k + 1].0,
            ) by {
                if k + 1 < r {
                    assert(text_before(s[k].0, s[k + 1].0));
                } else if k + 1 == r {
                    assert(text_before(s[k].0, id));
                } else if k == r {
                    crate::text::lemma_text_order(s[r].0, id);
                } else {
                    assert(text_before(s[k - 1].0, s[k].0));
                }
            }
        },
    }
}

/// After `upsert` the list holds a track under `id` and under every id that
/// it held one under before, and under no other.
pub proof fn lemma_upsert_ids(s: Seq<(Seq<char>, TrackView)>, id: Seq<char>, track: TrackView)
    ensures
        track_ids(upsert(s, id, track)) == track_ids(s).insert(id),
{
    let u = upsert(s, id, track);
    lemma_rank_bounds(s, id, 0);
    let r = rank(s, id);
    assert forall|k: Seq<char>| track_ids(u).contains(k) <==> track_ids(s).insert(id).contains(
        k,
    ) by {
        match position(s, id) {
            Some(i) => {
                assert(u[i].0 == id);
                assert(s[i].0 == id);
                if track_ids(u).contains(k) {
                    let j = choose|j: int| 0 <= j < u.len() && (#[trigger] u[j]).0 == k;
                    assert(s[j].0 == k);
                }
                if track_ids(s).contains(k) {
                    let j = choose|j: int| 0 <= j < s.len() && (#[trigger] s[j]).0 == k;
                    assert(u[j].0 == k);
                }
            },
            None => {
                assert(u[r].0 == id);
                if track_ids(u).contains(k) {
                    let j = choose|j: int| 0 <= j < u.len() && (#[trigger] u[j]).0 == k;
                    if j < r {
                        assert(s[j].0 == k);
                    } else if j > r {
                        assert(s[j - 1].0 == k);
                    }
                }
                if track_ids(s).contains(k) {
                    let j = choose|j: int| 0 <= j < s.len() && (#[trigger] s[j]).0 == k;
                    if j < r {
                        assert(u[j].0 == k);
                    } else {
                        assert(u[j + 1].0 == k);
                    }
                }
            },
        }
    }
    assert(track_ids(u) =~= track_ids(s).insert(id));
}

/// After `upsert` every track is the given one or one that the list held.
pub proof fn lemma_upsert_members(
    s: Seq<(Seq<char>, TrackView)>,
    id: Seq<char>,
    track: TrackView,
    j: int,
)
    requires
        0 <= j < upsert(s, id, track).len(),
    ensures
        upsert(s, id, track)[j] == (id, track) || exists|i: int|
            0 <= i < s.len() && s[i] == upsert(s, id, track)[j],
{
    let u = upsert(s, id, track);
    lemma_rank_bounds(s, id, 0);
    let r = rank(s, id);
    match position(s, id) {
        Some(i) => {
            if j != i {
                assert(s[j] == u[j]);
            }
        },
        None => {
            if j < r {
                assert(s[j] == u[j]);
            } else if j > r {
                assert(s[j - 1] == u[j]);
            }
        },
    }
}

/// In a list whose ids ascend, an earlier id comes before a later one.
pub proof fn lemma_ids_ordered(s: Seq<(Seq<char>, TrackView)>, i: int, j: int)
    requires
        ids_ascend(s),
        0 <= i < j < s.len(),
    ensures
        text_before(s[i].0, s[j].0),
    decreases j - i,
{
    if i + 1 < j {
        lemma_ids_ordered(s, i, j - 1);
        assert(text_before(s[j - 1].0, s[j - 1 + 1].0));
        crate::text::lemma_text_before_transitive(s[i].0, s[j - 1].0, s[j].0, 0);
    } else {
        assert(text_before(s[i].0, s[i + 1].0));
    }
}

/// In a list whose ids ascend, each track is found under its id, and no
/// track is found under an id that the list does not hold.
pub proof fn lemma_lookup(s: Seq<(Seq<char>, TrackView)>, id: Seq<char>)
    requires
        ids_ascend(s),
    ensures
        lookup(s, id) is Some <==> track_ids(s).contains(id),
        forall|i: int| 0 <= i < s.len() && (#[trigger] s[i]).0 == id ==> position(s, id) == Some(i),
{
    lemma_rank_bounds(s, id, 0);
    lemma_rank_splits(s, id, 0);
    let r = rank(s, id);
    assert forall|i: int| 0 <= i < s.len() && (#[trigger] s[i]).0 == id implies position(s, id)
        == Some(i) by {
        crate::text::lemma_text_order(id, id);
        if r < i {
            lemma_ids_ordered(s, r, i);
            assert(text_before(s[r].0, id));
        } else if r > i {
            assert(text_before(s[i].0, id));
        }
    }
    if track_ids(s).contains(id) {
        let i = choose|i: int| 0 <= i < s.len() && (#[trigger] s[i]).0 == id;
        assert(position(s, id) == Some(i));
    }
    if lookup(s, id) is Some {
        assert(s[r].0 == id);
    }
}

/// Lists with the same ids in the same order hold tracks under the same ids.
pub proof fn lemma_same_ids(a: Seq<(Seq<char>, TrackView)>, b: Seq<(Seq<char>, TrackView)>)
    requires
        same_ids(a, b),
    ensures
        track_ids(a) == track_ids(b),
        ids_ascend(b) ==> ids_ascend(a),
{
    assert forall|k: Seq<char>| track_ids(a).contains(k) <==> track_ids(b).contains(k) by {
        if track_ids(a).contains(k) {
            let j = choose|j: int| 0 <= j < a.len() && (#[trigger] a[j]).0 == k;
            assert(b[j].0 == k);
        }
        if track_ids(b).contains(k) {
            let j = choose|j: int| 0 <= j < b.len() && (#[trigger] b[j]).0 == k;
            assert(a[j].0 == k);
        }
    }
    assert(track_ids(a) =~= track_ids(b));
    if ids_ascend(b) {
        assert forall|i: int| 0 <= i < a.len() - 1 implies text_before(
            #[trigger] a[i].0,
            a[i + 1].0,
        ) by {
            assert(text_before(b[i].0, b[i + 1].0));
            assert(a[i].0 == b[i].0);
            assert(a[i + 1].0 == b[i + 1].0);
        }
    }
}

fn find_rank(entries: &Vec<(String, Track)>, id: &Vec<char>) -> (i: usize)
    ensures
        i == rank(entries.deep_view(), id@),
        i <= entries.len(),
{
    let mut i: usize = 0;
    while i < entries.len()
        invariant
            i <= entries.len(),
            rank(entries.deep_view(), id@) == rank_from(entries.deep_view(), id@, i as int),
        decreases entries.len() - i,
    {
        let key = to_chars(entries[i].0.as_str());
        if !comes_before(&key, id) {
            return i;
        }
        i += 1;
    }
    i
}

fn find_position(entries: &Vec<(String, Track)>, id: &str) -> (r: Option<usize>)
    ensures
        match r {
            Some(i) => position(entries.deep_view(), id@) == Some(i as int) && i < entries.len(),
            None => position(entries.deep_view(), id@) is None,
        },
{
    let chars = to_chars(id);
    let i = find_rank(entries, &chars);
    if i < entries.len() {
        let key = to_chars(entries[i].0.as_str());
        if same_chars(&key, &chars) {
            return Some(i);
        }
    }
    None
}

/// The tracks of a timeline by their ids, in ascending order of id.
#[derive(Debug)]
pub struct TrackMap {
    entries: Vec<(String, Track)>,
}

impl DeepView for TrackMap {
    type V = Seq<(Seq<char>, TrackView)>;

    closed spec fn deep_view(&self) -> Seq<(Seq<char>, TrackView)> {
        self.entries.deep_view()
    }
}

impl TrackMap {
    #[verifier::type_invariant]
    spec fn ordered(&self) -> bool {
        ids_ascend(self.entries.deep_view())
    }

    /// A map without tracks.
    pub fn new() -> (m: Self)
        ensures
            m.deep_view() == Seq::<(Seq<char>, TrackView)>::empty(),
    {
        let entries: Vec<(String, Track)> = Vec::new();
        assert(entries.deep_view() =~= Seq::<(Seq<char>, TrackView)>::empty());
        TrackMap { entries }
    }

    /// The number of tracks. The ids of a map always ascend.
    pub fn len(&self) -> (n: usize)
        ensures
            n == self.deep_view().len(),
            ids_ascend(self.deep_view()),
    {
        proof {
            use_type_invariant(self);
        }
        self.entries.len()
    }

    /// The id of the track at position `i`.
    pub fn id_at(&self, i: usize) -> (id: &String)
        requires
            i < self.deep_view().len(),
        ensures
            id@ == self.deep_view()[i as int].0,
    {
        &self.entries[i].0
    }

    /// The track at position `i`.
    pub fn track_at(&self, i: usize) -> (track: &Track)
        requires
            i < self.deep_view().len(),
        ensures
            track.deep_view() == self.deep_view()[i as int].1,
    {
        &self.entries[i].1
    }

    /// The position of the track with this id.
    pub fn position_of(&self, id: &str) -> (r: Option<usize>)
        ensures
            match r {
                Some(i) => position(self.deep_view(), id@) == Some(i as int) && i
                    < self.deep_view().len(),
                None => position(self.deep_view(), id@) is None,
            },
    {
        find_position(&self.entries, id)
    }

    /// The track with this id.
    pub fn get(&self, id: &str) -> (r: Option<&Track>)
        ensures
            r.deep_view() == lookup(self.deep_view(), id@),
    {
        match self.position_of(id) {
            Some(i) => Some(&self.entries[i].1),
            None => None,
        }
    }

    /// Whether there is a track with this id.
    pub fn contains_key(&self, id: &str) -> (r: bool)
        ensures
            r == lookup(self.deep_view(), id@).is_some(),
    {
        self.position_of(id).is_some()
    }

    /// Puts `track` under `id`, in the place of the track that had this id
    /// if there was one.
    pub fn insert(&mut self, id: String, track: Track)
        ensures
            final(self).deep_view() == upsert(old(self).deep_view(), id@, track.deep_view()),
    {
        proof {
            use_type_invariant(&*self);
            lemma_upsert_ascends(self.deep_view(), id@, track.deep_view());
        }
        let ghost before = self.entries.deep_view();
        let found = self.position_of(id.as_str());
        let chars = to_chars(id.as_str());
        let at = find_rank(&self.entries, &chars);
        let mut taken = TrackMap::new();
        std::mem::swap(self, &mut taken);
        let mut entries = taken.entries;
        match found {
            Some(i) => {
                entries[i] = (id, track);
                assert(entries.deep_view() =~= before.update(i as int, (id@, track.deep_view())));
            },
            None => {
                entries.insert(at, (id, track));
                assert(entries.deep_view() =~= before.insert(at as int, (id@, track.deep_view())));
            },
        }
        *self = TrackMap { entries };
    }
}

impl Clone for TrackMap {
    fn clone(&self) -> (r: Self)
        ensures
            r.deep_view() == self.deep_view(),
    {
        proof {
            use_type_invariant(self);
        }
        let mut entries: Vec<(String, Track)> = Vec::new();
        let mut i: usize = 0;
        while i < self.entries.len()
            invariant
                i <= self.entries.len(),
                entries.len() == i,
                forall|j: int|
                    0 <= j < i ==> (#[trigger] entries[j]).deep_view()
                        == self.entries[j].deep_view(),
            decreases self.entries.len() - i,
        {
            entries.push((self.entries[i].0.clone(), self.entries[i].1.clone()));
            i += 1;
        }
        assert(entries.deep_view() =~= self.entries.deep_view());
        TrackMap { entries }
    }
}

impl Clone for Timeline {
    fn clone(&self) -> (r: Self)
        ensures
            r.deep_view() == self.deep_view(),
    {
        Timeline { title: self.title.clone(), tempo: self.tempo, tracks: self.tracks.clone() }
    }
}

/// The result of linearization: the title, the tempo in beats per minute
/// and the tracks.
#[derive(Debug)]
pub struct Timeline {
    pub title: String,
    pub tempo: u32,
    pub tracks: TrackMap,
}

/// The mathematical value of a [`Timeline`].
pub struct TimelineView {
    pub title: Seq<char>,
    pub tempo: u32,
    /// The tracks with their ids, in ascending order of id.
    pub tracks: Seq<(Seq<char>, TrackView)>,
}

impl DeepView for Timeline {
    type V = TimelineView;

    open spec fn deep_view(&self) -> TimelineView {
        TimelineView { title: self.title@, tempo: self.tempo, tracks: self.tracks.deep_view() }
    }
}

/// Why a score has no timeline.
#[derive(Debug, Clone, Copy, PartialEq, Eq, Structural)]
pub enum CompileError {
    /// A duration or a tuplet ratio has a zero denominator.
    DivisionByZero,
    /// A fraction or a tick leaves 64 bits.
    Overflow,
    /// A pitch lies outside the MIDI range `0..=127`.
    PitchOutOfRange,
    /// A note or chord is shorter than one tick.
    EmptyDuration,
}

/// The state that one voice of one track carries from event to event.
#[derive(Debug, Clone, Copy, PartialEq, Eq, Structural)]
pub struct Cursor {
    /// Where the next event starts.
    pub current_tick: u64,
    /// The duration that an event without one inherits.
    pub last_duration: Rational,
    /// The octave that a pitch without one inherits.
    pub last_octave: u8,
    /// The factor that tuplets put on every duration.
    pub time_scalar: Rational,
    pub ppq: u32,
}

/// The number of times `c` occurs in `s` from position `i` on.
pub open spec fn count_char_from(s: Seq<char>, c: char, i: int) -> nat
    decreases s.len() - i,
{
    if i < 0 || i >= s.len() {
        0
    } else if s[i] == c {
        1 + count_char_from(s, c, i + 1)
    } else {
        count_char_from(s, c, i + 1)
    }
}

/// The number, or `4` where there stands none that fits 64 bits, that a
/// duration spells behind its colon and before its first dot.
pub open spec fn duration_denominator(raw: Seq<char>) -> u64 {
    match decimal_upto(raw.take(find_char(raw, '.', 0)), u64::MAX as nat) {
        Some(n) => n as u64,
        None => 4,
    }
}

/// The fraction of a whole note that a duration `:N` with its dots names:
/// `1/N` without a dot, `3/(2N)` with one, `7/(4N)` with two, and `1/N` with
/// more.
pub open spec fn duration_fraction(text: Seq<char>) -> Result<Rational, CompileError> {
    let raw = if text.len() > 0 {
        text.skip(1)
    } else {
        text
    };
    let n = duration_denominator(raw);
    let dots = count_char_from(raw, '.', 0);
    let (num, factor) = if dots == 1 {
        (3u64, 2u64)
    } else if dots == 2 {
        (7u64, 4u64)
    } else {
        (1u64, 1u64)
    };
    if n == 0 {
        Err(CompileError::DivisionByZero)
    } else if n * factor > u64::MAX {
        Err(CompileError::Overflow)
    } else {
        Ok(Rational::spec_new(num, (n * factor) as u64))
    }
}

/// The product of two fractions in lowest terms.
pub open spec fn scaled(a: Rational, b: Rational) -> Result<Rational, CompileError> {
    if a.num * b.num > u64::MAX || a.den * b.den > u64::MAX {
        Err(CompileError::Overflow)
    } else if a.den * b.den == 0 {
        Err(CompileError::DivisionByZero)
    } else {
        Ok(Rational::spec_new((a.num * b.num) as u64, (a.den * b.den) as u64))
    }
}

/// The length in ticks of an event with this duration, and the cursor after
/// it: a written duration becomes the inherited one, an absent one inherits.
pub open spec fn resolve_duration(c: Cursor, d: Option<Seq<char>>) -> Result<
    (Cursor, u64),
    CompileError,
> {
    let base = match d {
        Some(text) => duration_fraction(text),
        None => Ok(c.last_duration),
    };
    match base {
        Err(e) => Err(e),
        Ok(base) => match scaled(base, c.time_scalar) {
            Err(e) => Err(e),
            Ok(f) => if f.ticks(c.ppq) > u64::MAX {
                Err(CompileError::Overflow)
            } else {
                Ok((Cursor { last_duration: base, ..c }, f.ticks(c.ppq) as u64))
            },
        },
    }
}

/// The semitones from C to the step that a letter names, in either case;
/// `0` for any other character.
pub open spec fn step_offset(c: char) -> int {
    if c == 'd' || c == 'D' {
        2
    } else if c == 'e' || c == 'E' {
        4
    } else if c == 'f' || c == 'F' {
        5
    } else if c == 'g' || c == 'G' {
        7
    } else if c == 'a' || c == 'A' {
        9
    } else if c == 'b' || c == 'B' {
        11
    } else {
        0
    }
}

/// The semitones that the accidentals of `p` from position `i` on add: one
/// up for each `#`, one down for each `b`.
pub open spec fn accidental_shift_from(p: Seq<char>, i: int) -> int
    decreases p.len() - i,
{
    if i < 0 || i >= p.len() {
        0
    } else if p[i] == '#' {
        accidental_shift_from(p, i + 1) + 1
    } else if p[i] == 'b' {
        accidental_shift_from(p, i + 1) - 1
    } else {
        accidental_shift_from(p, i + 1)
    }
}

/// The value of the first digit of `p` at or behind position `i`.
pub open spec fn octave_digit_from(p: Seq<char>, i: int) -> Option<u8>
    decreases p.len() - i,
{
    if i < 0 || i >= p.len() {
        None
    } else if is_digit(p[i]) {
        Some((p[i] as u32 - '0' as u32) as u8)
    } else {
        octave_digit_from(p, i + 1)
    }
}

/// The MIDI pitch of a pitch literal, `(octave + 1) * 12` plus the
/// semitones of step and accidentals, and the cursor after it: a written
/// octave becomes the inherited one. An empty literal is middle C.
pub open spec fn resolve_pitch(c: Cursor, p: Seq<char>) -> Result<(Cursor, u8), CompileError> {
    if p.len() == 0 {
        Ok((c, 60u8))
    } else {
        let octave = match octave_digit_from(p, 1) {
            Some(d) => d,
            None => c.last_octave,
        };
        let value = (octave + 1) * 12 + step_offset(p[0]) + accidental_shift_from(p, 1);
        if 0 <= value <= 127 {
            Ok((Cursor { last_octave: octave, ..c }, value as u8))
        } else {
            Err(CompileError::PitchOutOfRange)
        }
    }
}

fn read_duration(text: &String) -> (r: Result<Rational, CompileError>)
    ensures
        r == duration_fraction(text@),
        r matches Ok(f) ==> f.wf(),
{
    let chars = to_chars(text.as_str());
    let start: usize = if chars.len() > 0 {
        1
    } else {
        0
    };
    let ghost raw = chars@.subrange(start as int, chars@.len() as int);
    assert(raw =~= if text@.len() > 0 {
        text@.skip(1)
    } else {
        text@
    });
    let mut dots: usize = 0;
    let mut i: usize = start;
    while i < chars.len()
        invariant
            start <= i <= chars.len(),
            raw == chars@.subrange(start as int, chars@.len() as int),
            dots <= i - start,
            count_char_from(raw, '.', 0) == dots + count_char_from(raw, '.', i - start),
        decreases chars.len() - i,
    {
        assert(raw[i - start] == chars@[i as int]);
        if chars[i] == '.' {
            dots += 1;
        }
        i += 1;
    }
    let dot = index_of(&chars, '.', start);
    proof {
        lemma_find_shifted(chars@, '.', start as int, start as int);
        assert(raw.take(dot - start) =~= chars@.subrange(start as int, dot as int));
    }
    let n: u64 = match parse_decimal(&chars, start, dot, u64::MAX) {
        Some(n) => n,
        None => 4,
    };
    let (num, factor): (u64, u64) = if dots == 1 {
        (3, 2)
    } else if dots == 2 {
        (7, 4)
    } else {
        (1, 1)
    };
    if n == 0 {
        return Err(CompileError::DivisionByZero);
    }
    match n.checked_mul(factor) {
        Some(den) => {
            assert(den != 0) by (nonlinear_arith)
                requires
                    den == n * factor,
                    n != 0,
                    factor != 0,
            ;
            Ok(Rational::new(num, den))
        },
        None => Err(CompileError::Overflow),
    }
}

/// `find_char` on the part of `s` behind `start` finds what it finds on `s`.
proof fn lemma_find_shifted(s: Seq<char>, c: char, start: int, i: int)
    requires
        0 <= start <= i <= s.len(),
    ensures
        find_char(s.subrange(start, s.len() as int), c, i - start) == find_char(s, c, i) - start,
    decreases s.len() - i,
{
    let t = s.subrange(start, s.len() as int);
    if i < s.len() {
        assert(t[i - start] == s[i]);
        if s[i] != c {
            lemma_find_shifted(s, c, start, i + 1);
        }
    }
}

fn scale(a: Rational, b: Rational) -> (r: Result<Rational, CompileError>)
    ensures
        r == scaled(a, b),
        r matches Ok(f) ==> f.wf(),
{
    let num = match a.num.checked_mul(b.num) {
        Some(n) => n,
        None => {
            return Err(CompileError::Overflow);
        },
    };
    let den = match a.den.checked_mul(b.den) {
        Some(d) => d,
        None => {
            return Err(CompileError::Overflow);
        },
    };
    match Rational::checked_new(num, den) {
        Some(f) => Ok(f),
        None => Err(CompileError::DivisionByZero),
    }
}

impl Cursor {
    /// The cursor at the start of a voice: tick 0, quarter notes, octave 4,
    /// no tuplet.
    pub open spec fn initial(ppq: u32) -> Cursor {
        Cursor {
            current_tick: 0,
            last_duration: Rational { num: 1, den: 4 },
            last_octave: 4,
            time_scalar: Rational { num: 1, den: 1 },
            ppq,
        }
    }

    /// The cursor at the start of a voice.
    pub fn new(ppq: u32) -> (c: Self)
        ensures
            c == Self::initial(ppq),
    {
        Cursor {
            current_tick: 0,
            last_duration: Rational { num: 1, den: 4 },
            last_octave: 4,
            time_scalar: Rational { num: 1, den: 1 },
            ppq,
        }
    }

    /// Resolves the duration of an event to ticks and remembers a written
    /// duration. On an error the cursor stays as it was.
    pub fn parse_duration(&mut self, d_str: Option<&String>) -> (r: Result<u64, CompileError>)
        ensures
            match r {
                Ok(ticks) => resolve_duration(*old(self), d_str.deep_view()) == Ok::<
                    _,
                    CompileError,
                >((*final(self), ticks)),
                Err(e) => resolve_duration(*old(self), d_str.deep_view()) == Err::<
                    (Cursor, u64),
                    _,
                >(e) && *final(self) == *old(self),
            },
    {
        let base = match d_str {
            Some(text) => match read_duration(text) {
                Ok(f) => f,
                Err(e) => {
                    return Err(e);
                },
            },
            None => self.last_duration,
        };
        let f = match scale(base, self.time_scalar) {
            Ok(f) => f,
            Err(e) => {
                return Err(e);
            },
        };
        match f.checked_to_ticks(self.ppq) {
            Some(ticks) => {
                self.last_duration = base;
                Ok(ticks)
            },
            None => Err(CompileError::Overflow),
        }
    }

    /// Resolves a pitch literal to a MIDI pitch and remembers a written
    /// octave. On an error the cursor stays as it was.
    pub fn parse_pitch(&mut self, p_str: &str) -> (r: Result<u8, CompileError>)
        ensures
            match r {
                Ok(pitch) => resolve_pitch(*old(self), p_str@) == Ok::<_, CompileError>(
                    (*final(self), pitch),
                ),
                Err(e) => resolve_pitch(*old(self), p_str@) == Err::<(Cursor, u8), _>(e)
                    && *final(self) == *old(self),
            },
    {
        let chars = to_chars(p_str);
        if chars.len() == 0 {
            return Ok(60);
        }
        let c = chars[0];
        let step: i128 = if c == 'd' || c == 'D' {
            2
        } else if c == 'e' || c == 'E' {
            4
        } else if c == 'f' || c == 'F' {
            5
        } else if c == 'g' || c == 'G' {
            7
        } else if c == 'a' || c == 'A' {
            9
        } else if c == 'b' || c == 'B' {
            11
        } else {
            0
        };
        let mut shift: i128 = 0;
        let mut octave: Option<u8> = None;
        let mut i: usize = 1;
        while i < chars.len()
            invariant
                1 <= i <= chars.len(),
                -(i as int) <= shift <= i as int,
                accidental_shift_from(chars@, 1) == shift + accidental_shift_from(chars@, i as int),
                octave_digit_from(chars@, 1) == match octave {
                    Some(d) => Some(d),
                    None => octave_digit_from(chars@, i as int),
                },
            decreases chars.len() - i,
        {
            let c = chars[i];
            if c == '#' {
                shift = shift + 1;
            } else if c == 'b' {
                shift = shift - 1;
            } else if char_is_digit(c) {
                if octave.is_none() {
                    octave = Some((c as u32 - '0' as u32) as u8);
                }
            }
            i += 1;
        }
        let octave: u8 = match octave {
            Some(d) => d,
            None => self.last_octave,
        };
        let value: i128 = (octave as i128 + 1) * 12 + step + shift;
        if 0 <= value && value <= 127 {
            self.last_octave = octave;
            Ok(value as u8)
        } else {
            Err(CompileError::PitchOutOfRange)
        }
    }
}

/// Whether an event may stand in a timeline: a note of positive length that
/// ends within 64 bits, with a MIDI pitch and at velocity 100.
pub open spec fn event_wf(e: AtomicEvent) -> bool {
    &&& e.duration_ticks > 0
    &&& e.tick + e.duration_ticks <= u64::MAX
    &&& e.kind matches EventKind::Note { pitch, velocity } && pitch <= 127 && velocity == 100
}

/// Whether every event of the sequence may stand in a timeline.
pub open spec fn events_wf(s: Seq<AtomicEvent>) -> bool {
    forall|i: int| 0 <= i < s.len() ==> event_wf(#[trigger] s[i])
}

/// Whether every event of every track may stand in a timeline.
pub open spec fn tracks_wf(s: Seq<(Seq<char>, TrackView)>) -> bool {
    forall|i: int| 0 <= i < s.len() ==> events_wf((#[trigger] s[i]).1.events)
}

/// The invariants of a timeline: the ids of its tracks ascend, and each
/// track holds valid events in ascending order of tick.
pub open spec fn timeline_wf(tl: TimelineView) -> bool {
    &&& ids_ascend(tl.tracks)
    &&& tracks_wf(tl.tracks)
    &&& forall|i: int| 0 <= i < tl.tracks.len() ==> ticks_ascend((#[trigger] tl.tracks[i]).1.events)
}

/// The ids under which the list holds a track.
pub open spec fn track_ids(s: Seq<(Seq<char>, TrackView)>) -> Set<Seq<char>> {
    Set::new(|k: Seq<char>| exists|i: int| 0 <= i < s.len() && (#[trigger] s[i]).0 == k)
}

/// The ids of the staff definitions among the items from position `i` on.
pub open spec fn declared_ids_from(items: Seq<TopLevelView>, i: int) -> Set<Seq<char>> {
    Set::new(
        |k: Seq<char>|
            exists|j: int|
                i <= j < items.len() && (#[trigger] items[j]) is Def && items[j]->Def_id == k,
    )
}

/// The cursor moved on by `ticks`.
pub open spec fn advance(c: Cursor, ticks: u64) -> Result<Cursor, CompileError> {
    if c.current_tick + ticks > u64::MAX {
        Err(CompileError::Overflow)
    } else {
        Ok(Cursor { current_tick: (c.current_tick + ticks) as u64, ..c })
    }
}

/// The event of a note: always at velocity 100.
pub open spec fn note_event(tick: u64, ticks: u64, pitch: u8) -> AtomicEvent {
    AtomicEvent { tick, duration_ticks: ticks, kind: EventKind::Note { pitch, velocity: 100 } }
}

/// The notes of a chord from position `i` on: each is resolved in turn and
/// starts at the tick of the cursor, which does not move.
pub open spec fn chord_from(
    c: Cursor,
    sink: Seq<AtomicEvent>,
    notes: Seq<Seq<char>>,
    i: int,
    ticks: u64,
) -> Result<(Cursor, Seq<AtomicEvent>), CompileError>
    decreases notes.len() - i,
{
    if i < 0 || i >= notes.len() {
        Ok((c, sink))
    } else {
        match resolve_pitch(c, notes[i]) {
            Err(e) => Err(e),
            Ok((c1, pitch)) => chord_from(
                c1,
                sink.push(note_event(c.current_tick, ticks, pitch)),
                notes,
                i + 1,
                ticks,
            ),
        }
    }
}

/// A note is pushed at the cursor and moves it by its length.
pub open spec fn play_note(
    c: Cursor,
    sink: Seq<AtomicEvent>,
    pitch: Seq<char>,
    duration: Option<Seq<char>>,
) -> Result<(Cursor, Seq<AtomicEvent>), CompileError> {
    match resolve_duration(c, duration) {
        Err(e) => Err(e),
        Ok((c1, ticks)) => match resolve_pitch(c1, pitch) {
            Err(e) => Err(e),
            Ok((c2, midi)) => if ticks == 0 {
                Err(CompileError::EmptyDuration)
            } else {
                match advance(c2, ticks) {
                    Err(e) => Err(e),
                    Ok(c3) => Ok((c3, sink.push(note_event(c2.current_tick, ticks, midi)))),
                }
            },
        },
    }
}

/// A chord pushes each of its notes at the cursor and moves it once.
pub open spec fn play_chord(
    c: Cursor,
    sink: Seq<AtomicEvent>,
    notes: Seq<Seq<char>>,
    duration: Option<Seq<char>>,
) -> Result<(Cursor, Seq<AtomicEvent>), CompileError> {
    match resolve_duration(c, duration) {
        Err(e) => Err(e),
        Ok((c1, ticks)) => if notes.len() > 0 && ticks == 0 {
            Err(CompileError::EmptyDuration)
        } else {
            match advance(c1, ticks) {
                Err(e) => Err(e),
                Ok(_) => match chord_from(c1, sink, notes, 0, ticks) {
                    Err(e) => Err(e),
                    Ok((c2, sink2)) => Ok(
                        (Cursor { current_tick: (c1.current_tick + ticks) as u64, ..c2 }, sink2),
                    ),
                },
            }
        },
    }
}

/// A rest only moves the cursor.
pub open spec fn play_rest(c: Cursor, sink: Seq<AtomicEvent>, duration: Option<Seq<char>>) -> Result<
    (Cursor, Seq<AtomicEvent>),
    CompileError,
> {
    match resolve_duration(c, duration) {
        Err(e) => Err(e),
        Ok((c1, ticks)) => match advance(c1, ticks) {
            Err(e) => Err(e),
            Ok(c2) => Ok((c2, sink)),
        },
    }
}

/// The time scalar inside a tuplet of `p` in the time of `q`: the scalar
/// outside multiplied by `q/p`.
pub open spec fn tuplet_scalar(outer: Rational, p: u64, q: u64) -> Result<Rational, CompileError> {
    if p == 0 {
        Err(CompileError::DivisionByZero)
    } else {
        scaled(outer, Rational::spec_new(q, p))
    }
}

/// What one event does to the cursor of its voice and to the events of its
/// track. A tuplet plays its events with its own time scalar and puts the
/// old one back. Tabs and percussion leave everything as it is.
pub open spec fn play_event(c: Cursor, sink: Seq<AtomicEvent>, e: EventView) -> Result<
    (Cursor, Seq<AtomicEvent>),
    CompileError,
>
    decreases e, 0nat,
{
    match e {
        EventView::Note { pitch, duration, attributes } => play_note(c, sink, pitch, duration),
        EventView::Chord { notes, duration, attributes } => play_chord(c, sink, notes, duration),
        EventView::Rest { duration } => play_rest(c, sink, duration),
        EventView::Tuplet { content, p, q } => match tuplet_scalar(c.time_scalar, p, q) {
            Err(e) => Err(e),
            Ok(s) => match play_voice(Cursor { time_scalar: s, ..c }, sink, content.events, 0) {
                Err(e) => Err(e),
                Ok((c1, sink1)) => Ok((Cursor { time_scalar: c.time_scalar, ..c1 }, sink1)),
            },
        },
        EventView::Tab { .. } => Ok((c, sink)),
        EventView::Percussion { .. } => Ok((c, sink)),
    }
}

/// What the events of a voice from position `i` on do, one after the other.
pub open spec fn play_voice(c: Cursor, sink: Seq<AtomicEvent>, events: Seq<EventView>, i: int) -> Result<
    (Cursor, Seq<AtomicEvent>),
    CompileError,
>
    decreases events, events.len() - i,
{
    if i < 0 || i >= events.len() {
        Ok((c, sink))
    } else {
        match play_event(c, sink, events[i]) {
            Err(e) => Err(e),
            Ok((c1, sink1)) => play_voice(c1, sink1, events, i + 1),
        }
    }
}

fn process_chord(notes: &Vec<String>, cursor: &mut Cursor, track: &mut Track, ticks: u64) -> (r:
    Result<(), CompileError>)
    requires
        notes.len() > 0 ==> ticks > 0,
        old(cursor).current_tick + ticks <= u64::MAX,
    ensures
        match r {
            Ok(_) => chord_from(*old(cursor), old(track).events@, notes.deep_view(), 0, ticks)
                == Ok::<_, CompileError>((*final(cursor), final(track).events@)),
            Err(e) => chord_from(*old(cursor), old(track).events@, notes.deep_view(), 0, ticks)
                == Err::<(Cursor, Seq<AtomicEvent>), _>(e),
        },
        final(track).label == old(track).label,
        final(track).patch == old(track).patch,
        events_wf(old(track).events@) ==> events_wf(final(track).events@),
        final(cursor).current_tick == old(cursor).current_tick,
{
    let mut i: usize = 0;
    while i < notes.len()
        invariant
            i <= notes.len(),
            chord_from(*old(cursor), old(track).events@, notes.deep_view(), 0, ticks)
                == chord_from(*cursor, track.events@, notes.deep_view(), i as int, ticks),
            track.label == old(track).label,
            track.patch == old(track).patch,
            notes.len() > 0 ==> ticks > 0,
            cursor.current_tick + ticks <= u64::MAX,
            events_wf(old(track).events@) ==> events_wf(track.events@),
            cursor.current_tick == old(cursor).current_tick,
        decreases notes.len() - i,
    {
        let tick = cursor.current_tick;
        let pitch = match cursor.parse_pitch(notes[i].as_str()) {
            Ok(pitch) => pitch,
            Err(e) => {
                return Err(e);
            },
        };
        track.events.push(
            AtomicEvent {
                tick,
                duration_ticks: ticks,
                kind: EventKind::Note { pitch, velocity: 100 },
            },
        );
        i += 1;
    }
    Ok(())
}

fn process_note(pitch: &String, duration: &Option<String>, cursor: &mut Cursor, track: &mut Track) -> (r:
    Result<(), CompileError>)
    ensures
        match r {
            Ok(_) => play_note(*old(cursor), old(track).events@, pitch@, duration.deep_view())
                == Ok::<_, CompileError>((*final(cursor), final(track).events@)),
            Err(e) => play_note(*old(cursor), old(track).events@, pitch@, duration.deep_view())
                == Err::<(Cursor, Seq<AtomicEvent>), _>(e),
        },
        final(track).label == old(track).label,
        final(track).patch == old(track).patch,
        events_wf(old(track).events@) ==> events_wf(final(track).events@),
{
    let ticks = match cursor.parse_duration(duration.as_ref()) {
        Ok(t) => t,
        Err(e) => {
            return Err(e);
        },
    };
    let midi = match cursor.parse_pitch(pitch.as_str()) {
        Ok(m) => m,
        Err(e) => {
            return Err(e);
        },
    };
    if ticks == 0 {
        return Err(CompileError::EmptyDuration);
    }
    let end = match cursor.current_tick.checked_add(ticks) {
        Some(end) => end,
        None => {
            return Err(CompileError::Overflow);
        },
    };
    track.events.push(
        AtomicEvent {
            tick: cursor.current_tick,
            duration_ticks: ticks,
            kind: EventKind::Note { pitch: midi, velocity: 100 },
        },
    );
    cursor.current_tick = end;
    Ok(())
}

fn process_chord_event(
    notes: &Vec<String>,
    duration: &Option<String>,
    cursor: &mut Cursor,
    track: &mut Track,
) -> (r: Result<(), CompileError>)
    ensures
        match r {
            Ok(_) => play_chord(
                *old(cursor),
                old(track).events@,
                notes.deep_view(),
                duration.deep_view(),
            ) == Ok::<_, CompileError>((*final(cursor), final(track).events@)),
            Err(e) => play_chord(
                *old(cursor),
                old(track).events@,
                notes.deep_view(),
                duration.deep_view(),
            ) == Err::<(Cursor, Seq<AtomicEvent>), _>(e),
        },
        final(track).label == old(track).label,
        final(track).patch == old(track).patch,
        events_wf(old(track).events@) ==> events_wf(final(track).events@),
{
    let ticks = match cursor.parse_duration(duration.as_ref()) {
        Ok(t) => t,
        Err(e) => {
            return Err(e);
        },
    };
    if notes.len() > 0 && ticks == 0 {
        return Err(CompileError::EmptyDuration);
    }
    let end = match cursor.current_tick.checked_add(ticks) {
        Some(end) => end,
        None => {
            return Err(CompileError::Overflow);
        },
    };
    match process_chord(notes, cursor, track, ticks) {
        Ok(_) => {},
        Err(e) => {
            return Err(e);
        },
    }
    cursor.current_tick = end;
    Ok(())
}

fn process_rest(duration: &Option<String>, cursor: &mut Cursor, track: &Track) -> (r: Result<
    (),
    CompileError,
>)
    ensures
        match r {
            Ok(_) => play_rest(*old(cursor), track.events@, duration.deep_view()) == Ok::<
                _,
                CompileError,
            >((*final(cursor), track.events@)),
            Err(e) => play_rest(*old(cursor), track.events@, duration.deep_view()) == Err::<
                (Cursor, Seq<AtomicEvent>),
                _,
            >(e),
        },
{
    let ticks = match cursor.parse_duration(duration.as_ref()) {
        Ok(t) => t,
        Err(e) => {
            return Err(e);
        },
    };
    match cursor.current_tick.checked_add(ticks) {
        Some(end) => {
            cursor.current_tick = end;
            Ok(())
        },
        None => Err(CompileError::Overflow),
    }
}

fn enter_tuplet(outer: Rational, p: u64, q: u64) -> (r: Result<Rational, CompileError>)
    ensures
        r == tuplet_scalar(outer, p, q),
{
    if p == 0 {
        return Err(CompileError::DivisionByZero);
    }
    scale(outer, Rational::new(q, p))
}

fn process_event(event: &Event, cursor: &mut Cursor, track: &mut Track) -> (r: Result<
    (),
    CompileError,
>)
    ensures
        match r {
            Ok(_) => play_event(*old(cursor), old(track).events@, event.deep_view()) == Ok::<
                _,
                CompileError,
            >((*final(cursor), final(track).events@)),
            Err(e) => play_event(*old(cursor), old(track).events@, event.deep_view()) == Err::<
                (Cursor, Seq<AtomicEvent>),
                _,
            >(e),
        },
        final(track).label == old(track).label,
        final(track).patch == old(track).patch,
        events_wf(old(track).events@) ==> events_wf(final(track).events@),
    decreases event, 0nat,
{
    match event {
        Event::Note { pitch, duration, .. } => process_note(pitch, duration, cursor, track),
        Event::Chord { notes, duration, .. } => process_chord_event(
            notes,
            duration,
            cursor,
            track,
        ),
        Event::Rest { duration } => process_rest(duration, cursor, track),
        Event::Tuplet { content, p, q } => {
            proof {
                lemma_tuplet_view(*content, *p, *q);
            }
            let outer = cursor.time_scalar;
            let scalar = match enter_tuplet(outer, *p, *q) {
                Ok(s) => s,
                Err(e) => {
                    return Err(e);
                },
            };
            cursor.time_scalar = scalar;
            match process_voice(content, cursor, track) {
                Ok(_) => {},
                Err(e) => {
                    return Err(e);
                },
            }
            cursor.time_scalar = outer;
            Ok(())
        },
        Event::Tab { .. } => Ok(()),
        Event::Percussion { .. } => Ok(()),
    }
}

/// Plays the events of a voice on its cursor, pushing the notes onto the
/// track. After an error the cursor and the track are left as they stood when
/// it was met.
pub fn process_voice(voice: &Voice, cursor: &mut Cursor, track: &mut Track) -> (r: Result<
    (),
    CompileError,
>)
    ensures
        match r {
            Ok(_) => play_voice(*old(cursor), old(track).events@, voice.deep_view().events, 0)
                == Ok::<_, CompileError>((*final(cursor), final(track).events@)),
            Err(e) => play_voice(*old(cursor), old(track).events@, voice.deep_view().events, 0)
                == Err::<(Cursor, Seq<AtomicEvent>), _>(e),
        },
        final(track).label == old(track).label,
        final(track).patch == old(track).patch,
        events_wf(old(track).events@) ==> events_wf(final(track).events@),
    decreases voice, 1nat,
{
    let ghost events = voice.deep_view().events;
    let mut i: usize = 0;
    while i < voice.events.len()
        invariant
            i <= voice.events.len(),
            events == voice.deep_view().events,
            play_voice(*old(cursor), old(track).events@, events, 0) == play_voice(
                *cursor,
                track.events@,
                events,
                i as int,
            ),
            track.label == old(track).label,
            track.patch == old(track).patch,
            events_wf(old(track).events@) ==> events_wf(track.events@),
        decreases voice.events.len() - i,
    {
        assert(events[i as int] == voice.events[i as int].deep_view());
        match process_event(&voice.events[i], cursor, track) {
            Ok(_) => {},
            Err(e) => {
                return Err(e);
            },
        }
        i += 1;
    }
    Ok(())
}

/// The timeline after one metadata entry: a string under `title` is the
/// title, a number under `tempo` is the tempo, cut to 32 bits.
pub open spec fn apply_entry(tl: TimelineView, key: Seq<char>, value: ValueView) -> TimelineView {
    if key == "title"@ {
        match value {
            ValueView::Str(s) => TimelineView { title: s, ..tl },
            _ => tl,
        }
    } else if key == "tempo"@ {
        match value {
            ValueView::Num(n) => TimelineView { tempo: n as u32, ..tl },
            _ => tl,
        }
    } else {
        tl
    }
}

/// The timeline after the metadata entries from position `i` on.
pub open spec fn apply_meta_from(
    tl: TimelineView,
    entries: Seq<(Seq<char>, ValueView)>,
    i: int,
) -> TimelineView
    decreases entries.len() - i,
{
    if i < 0 || i >= entries.len() {
        tl
    } else {
        apply_meta_from(apply_entry(tl, entries[i].0, entries[i].1), entries, i + 1)
    }
}

/// The patch of a staff after its attributes from position `i` on: a string
/// under `patch` replaces it.
pub open spec fn patch_from(attributes: Seq<(Seq<char>, ValueView)>, i: int, patch: Seq<char>) -> Seq<
    char,
>
    decreases attributes.len() - i,
{
    if i < 0 || i >= attributes.len() {
        patch
    } else if attributes[i].0 == "patch"@ && attributes[i].1 is Str {
        patch_from(attributes, i + 1, attributes[i].1->Str_0)
    } else {
        patch_from(attributes, i + 1, patch)
    }
}

/// The timeline after one item of the first sweep: metadata sets title and
/// tempo, a staff definition puts an empty track under its id, with the patch
/// `Grand Piano` unless it names another.
pub open spec fn declare(tl: TimelineView, item: TopLevelView) -> TimelineView {
    match item {
        TopLevelView::Meta(entries) => apply_meta_from(tl, entries, 0),
        TopLevelView::Def { id, label, attributes } => TimelineView {
            tracks: upsert(
                tl.tracks,
                id,
                TrackView {
                    label,
                    patch: patch_from(attributes, 0, "Grand Piano"@),
                    events: Seq::empty(),
                },
            ),
            ..tl
        },
        _ => tl,
    }
}

/// The timeline after the first sweep over the items from position `i` on.
pub open spec fn declare_from(tl: TimelineView, items: Seq<TopLevelView>, i: int) -> TimelineView
    decreases items.len() - i,
{
    if i < 0 || i >= items.len() {
        tl
    } else {
        declare_from(declare(tl, items[i]), items, i + 1)
    }
}

/// The state of the second sweep: the tracks, and for each track the cursors
/// of its voices.
pub struct LinearState {
    pub tracks: Seq<(Seq<char>, TrackView)>,
    pub cursors: Seq<Seq<Cursor>>,
}

/// The state after the voices of an assignment to track `t`, from voice `v`
/// on. Each voice plays on its own cursor, which starts as
/// `Cursor::initial` when the voice is first met.
pub open spec fn play_voices(st: LinearState, t: int, voices: Seq<VoiceView>, v: int) -> Result<
    LinearState,
    CompileError,
>
    decreases voices.len() - v,
{
    if v < 0 || v >= voices.len() {
        Ok(st)
    } else {
        let row = if v >= st.cursors[t].len() {
            st.cursors[t].push(Cursor::initial(PPQ))
        } else {
            st.cursors[t]
        };
        match play_voice(row[v], st.tracks[t].1.events, voices[v].events, 0) {
            Err(e) => Err(e),
            Ok((c, events)) => play_voices(
                LinearState {
                    tracks: st.tracks.update(
                        t,
                        (st.tracks[t].0, TrackView { events, ..st.tracks[t].1 }),
                    ),
                    cursors: st.cursors.update(t, row.update(v, c)),
                },
                t,
                voices,
                v + 1,
            ),
        }
    }
}

/// The state after one statement: an assignment plays its voices on the
/// track of its staff, if that staff is defined; anything else is skipped.
pub open spec fn play_statement(st: LinearState, s: StatementView) -> Result<
    LinearState,
    CompileError,
> {
    match s {
        StatementView::Assignment { staff_id, voices } => match position(st.tracks, staff_id) {
            Some(t) => play_voices(st, t, voices, 0),
            None => Ok(st),
        },
        StatementView::LocalMeta(_) => Ok(st),
    }
}

/// The state after the statements of a measure from position `i` on.
pub open spec fn play_statements(st: LinearState, content: Seq<StatementView>, i: int) -> Result<
    LinearState,
    CompileError,
>
    decreases content.len() - i,
{
    if i < 0 || i >= content.len() {
        Ok(st)
    } else {
        match play_statement(st, content[i]) {
            Err(e) => Err(e),
            Ok(next) => play_statements(next, content, i + 1),
        }
    }
}

/// The state after the second sweep over the items from position `i` on:
/// measures are played, one after the other on the same cursors.
pub open spec fn play_items(st: LinearState, items: Seq<TopLevelView>, i: int) -> Result<
    LinearState,
    CompileError,
>
    decreases items.len() - i,
{
    if i < 0 || i >= items.len() {
        Ok(st)
    } else {
        match items[i] {
            TopLevelView::Measure { id, content } => match play_statements(st, content, 0) {
                Err(e) => Err(e),
                Ok(next) => play_items(next, items, i + 1),
            },
            _ => play_items(st, items, i + 1),
        }
    }
}

/// The tracks with the events of each of the first `k` stably sorted by tick.
pub open spec fn sorted_tracks_upto(tracks: Seq<(Seq<char>, TrackView)>, k: int) -> Seq<
    (Seq<char>, TrackView),
> {
    Seq::new(
        tracks.len(),
        |i: int|
            if i < k {
                (tracks[i].0, TrackView { events: sorted_by_tick(tracks[i].1.events), ..tracks[i].1 })
            } else {
                tracks[i]
            },
    )
}

/// The tracks with the events of each stably sorted by tick.
pub open spec fn sorted_tracks(tracks: Seq<(Seq<char>, TrackView)>) -> Seq<(Seq<char>, TrackView)> {
    sorted_tracks_upto(tracks, tracks.len() as int)
}

/// The timeline before the first sweep.
pub open spec fn untitled() -> TimelineView {
    TimelineView { title: "Untitled"@, tempo: 120, tracks: Seq::empty() }
}

/// The timeline of a score: the first sweep sets title, tempo and tracks,
/// the second plays the measures, each track starting with one cursor, and
/// at last the events of each track are stably sorted by tick.
pub open spec fn linearize(score: ScoreView) -> Result<TimelineView, CompileError> {
    let declared = declare_from(untitled(), score.items, 0);
    let start = LinearState {
        tracks: declared.tracks,
        cursors: Seq::new(declared.tracks.len(), |i: int| seq![Cursor::initial(PPQ)]),
    };
    match play_items(start, score.items, 0) {
        Err(e) => Err(e),
        Ok(st) => Ok(TimelineView { tracks: sorted_tracks(st.tracks), ..declared }),
    }
}

/// The cursors of each track as sequences.
pub open spec fn rows(cursors: Seq<Vec<Cursor>>) -> Seq<Seq<Cursor>> {
    Seq::new(cursors.len(), |i: int| cursors[i]@)
}

/// Metadata leaves the tracks as they are.
pub proof fn lemma_meta_keeps_tracks(
    tl: TimelineView,
    entries: Seq<(Seq<char>, ValueView)>,
    i: int,
)
    ensures
        apply_meta_from(tl, entries, i).tracks == tl.tracks,
    decreases entries.len() - i,
{
    if 0 <= i < entries.len() {
        lemma_meta_keeps_tracks(apply_entry(tl, entries[i].0, entries[i].1), entries, i + 1);
    }
}

/// After the first sweep the timeline holds a track under each id that it
/// held one under before and under each id of a staff definition, and under
/// no other.
pub proof fn lemma_declared_ids(tl: TimelineView, items: Seq<TopLevelView>, i: int)
    requires
        0 <= i,
    ensures
        track_ids(declare_from(tl, items, i).tracks) == track_ids(tl.tracks).union(
            declared_ids_from(items, i),
        ),
    decreases items.len() - i,
{
    if i < items.len() {
        let next = declare(tl, items[i]);
        lemma_declared_ids(next, items, i + 1);
        match items[i] {
            TopLevelView::Meta(entries) => {
                lemma_meta_keeps_tracks(tl, entries, 0);
            },
            TopLevelView::Def { id, label, attributes } => {
                lemma_upsert_ids(
                    tl.tracks,
                    id,
                    TrackView {
                        label,
                        patch: patch_from(attributes, 0, "Grand Piano"@),
                        events: Seq::empty(),
                    },
                );
            },
            _ => {},
        }
        assert forall|k: Seq<char>|
            track_ids(next.tracks).union(declared_ids_from(items, i + 1)).contains(k)
                <==> track_ids(tl.tracks).union(declared_ids_from(items, i)).contains(k) by {
            if declared_ids_from(items, i).contains(k) {
                let j = choose|j: int|
                    i <= j < items.len() && (#[trigger] items[j]) is Def && items[j]->Def_id == k;
                if j > i {
                    assert(declared_ids_from(items, i + 1).contains(k));
                }
            }
            if declared_ids_from(items, i + 1).contains(k) {
                let j = choose|j: int|
                    i + 1 <= j < items.len() && (#[trigger] items[j]) is Def && items[j]->Def_id
                        == k;
                assert(declared_ids_from(items, i).contains(k));
            }
            if items[i] is Def && items[i]->Def_id == k {
                assert(declared_ids_from(items, i).contains(k));
            }
        }
        assert(track_ids(next.tracks).union(declared_ids_from(items, i + 1)) =~= track_ids(
            tl.tracks,
        ).union(declared_ids_from(items, i)));
    } else {
        assert(declared_ids_from(items, i) =~= Set::empty());
        assert(track_ids(tl.tracks).union(declared_ids_from(items, i)) =~= track_ids(tl.tracks));
    }
}

/// The state that the working lists of the second sweep stand for.
pub open spec fn state_of(entries: Vec<(String, Track)>, cursors: Vec<Vec<Cursor>>) -> LinearState {
    LinearState { tracks: entries.deep_view(), cursors: rows(cursors@) }
}

/// Whether two lists of tracks have the same ids in the same order.
pub open spec fn same_ids(a: Seq<(Seq<char>, TrackView)>, b: Seq<(Seq<char>, TrackView)>) -> bool {
    a.len() == b.len() && forall|i: int| 0 <= i < a.len() ==> (#[trigger] a[i]).0 == b[i].0
}

fn apply_meta(entries: &Vec<(String, Value)>, timeline: &mut Timeline)
    ensures
        final(timeline).deep_view() == apply_meta_from(
            old(timeline).deep_view(),
            entries.deep_view(),
            0,
        ),
{
    let mut i: usize = 0;
    while i < entries.len()
        invariant
            i <= entries.len(),
            apply_meta_from(old(timeline).deep_view(), entries.deep_view(), 0) == apply_meta_from(
                timeline.deep_view(),
                entries.deep_view(),
                i as int,
            ),
        decreases entries.len() - i,
    {
        let entry = &entries[i];
        assert(entries.deep_view()[i as int] == (entry.0@, entry.1.deep_view()));
        if same_text(entry.0.as_str(), "title") {
            match &entry.1 {
                Value::Str(s) => {
                    timeline.title = s.clone();
                },
                _ => {},
            }
        } else if same_text(entry.0.as_str(), "tempo") {
            match &entry.1 {
                Value::Num(n) => {
                    timeline.tempo = #[verifier::truncate] (*n as u32);
                },
                _ => {},
            }
        }
        i += 1;
    }
}

fn read_patch(attributes: &Vec<(String, Value)>) -> (patch: String)
    ensures
        patch@ == patch_from(attributes.deep_view(), 0, "Grand Piano"@),
{
    let mut patch = "Grand Piano".to_owned();
    let mut i: usize = 0;
    while i < attributes.len()
        invariant
            i <= attributes.len(),
            patch_from(attributes.deep_view(), 0, "Grand Piano"@) == patch_from(
                attributes.deep_view(),
                i as int,
                patch@,
            ),
        decreases attributes.len() - i,
    {
        let entry = &attributes[i];
        assert(attributes.deep_view()[i as int] == (entry.0@, entry.1.deep_view()));
        if same_text(entry.0.as_str(), "patch") {
            match &entry.1 {
                Value::Str(s) => {
                    patch = s.clone();
                },
                _ => {},
            }
        }
        i += 1;
    }
    patch
}

fn declare_item(item: &TopLevel, timeline: &mut Timeline)
    ensures
        final(timeline).deep_view() == declare(old(timeline).deep_view(), item.deep_view()),
        tracks_wf(old(timeline).deep_view().tracks) ==> tracks_wf(
            final(timeline).deep_view().tracks,
        ),
{
    match item {
        TopLevel::Meta(entries) => {
            proof {
                lemma_meta_keeps_tracks(timeline.deep_view(), entries.deep_view(), 0);
            }
            apply_meta(entries, timeline)
        },
        TopLevel::Def { id, label, attributes } => {
            let patch = read_patch(attributes);
            let track = Track { label: label.clone(), patch, events: Vec::new() };
            proof {
                let before = timeline.deep_view().tracks;
                let after = upsert(before, id@, track.deep_view());
                if tracks_wf(before) {
                    assert forall|j: int| 0 <= j < after.len() implies events_wf(
                        (#[trigger] after[j]).1.events,
                    ) by {
                        lemma_upsert_members(before, id@, track.deep_view(), j);
                    }
                }
            }
            timeline.tracks.insert(id.clone(), track);
        },
        _ => {},
    }
}

fn play_assignment(
    staff_id: &String,
    voices: &Vec<Voice>,
    entries: &mut Vec<(String, Track)>,
    cursors: &mut Vec<Vec<Cursor>>,
) -> (r: Result<(), CompileError>)
    requires
        old(cursors).len() == old(entries).len(),
    ensures
        final(cursors).len() == final(entries).len(),
        same_ids(final(entries).deep_view(), old(entries).deep_view()),
        tracks_wf(old(entries).deep_view()) ==> tracks_wf(final(entries).deep_view()),
        match r {
            Ok(_) => play_statement(
                state_of(*old(entries), *old(cursors)),
                (StatementView::Assignment { staff_id: staff_id@, voices: voices.deep_view() }),
            ) == Ok::<_, CompileError>(state_of(*final(entries), *final(cursors))),
            Err(e) => play_statement(
                state_of(*old(entries), *old(cursors)),
                (StatementView::Assignment { staff_id: staff_id@, voices: voices.deep_view() }),
            ) == Err::<LinearState, _>(e),
        },
{
    let t = match find_position(entries, staff_id.as_str()) {
        Some(t) => t,
        None => {
            return Ok(());
        },
    };
    let ghost start = state_of(*entries, *cursors);
    let ghost views = voices.deep_view();
    let mut v: usize = 0;
    while v < voices.len()
        invariant
            v <= voices.len(),
            t < entries.len(),
            cursors.len() == entries.len(),
            views == voices.deep_view(),
            start == state_of(*old(entries), *old(cursors)),
            position(start.tracks, staff_id@) == Some(t as int),
            same_ids(entries.deep_view(), old(entries).deep_view()),
            tracks_wf(old(entries).deep_view()) ==> tracks_wf(entries.deep_view()),
            play_voices(start, t as int, views, 0) == play_voices(
                state_of(*entries, *cursors),
                t as int,
                views,
                v as int,
            ),
            v <= cursors[t as int].len(),
        decreases voices.len() - v,
    {
        let ghost before = state_of(*entries, *cursors);
        let ghost ids = entries.deep_view();
        if v >= cursors[t].len() {
            cursors[t].push(Cursor::new(PPQ));
        }
        let ghost row = cursors[t as int]@;
        let ghost id = entries[t as int].0@;
        let ghost track = entries[t as int].1.deep_view();
        let res = process_voice(&voices[v], &mut cursors[t][v], &mut entries[t].1);
        proof {
            let events = entries[t as int].1.events@;
            let c = cursors[t as int][v as int];
            assert(entries.deep_view() =~= before.tracks.update(
                t as int,
                (id, TrackView { events, ..track }),
            ));
            assert(rows(cursors@) =~= before.cursors.update(t as int, row.update(v as int, c)));
            assert(same_ids(entries.deep_view(), ids));
        }
        match res {
            Ok(_) => {},
            Err(e) => {
                return Err(e);
            },
        }
        v += 1;
    }
    Ok(())
}

fn play_measure(
    content: &Vec<Statement>,
    entries: &mut Vec<(String, Track)>,
    cursors: &mut Vec<Vec<Cursor>>,
) -> (r: Result<(), CompileError>)
    requires
        old(cursors).len() == old(entries).len(),
    ensures
        final(cursors).len() == final(entries).len(),
        same_ids(final(entries).deep_view(), old(entries).deep_view()),
        tracks_wf(old(entries).deep_view()) ==> tracks_wf(final(entries).deep_view()),
        match r {
            Ok(_) => play_statements(
                state_of(*old(entries), *old(cursors)),
                content.deep_view(),
                0,
            ) == Ok::<_, CompileError>(state_of(*final(entries), *final(cursors))),
            Err(e) => play_statements(
                state_of(*old(entries), *old(cursors)),
                content.deep_view(),
                0,
            ) == Err::<LinearState, _>(e),
        },
{
    let mut i: usize = 0;
    while i < content.len()
        invariant
            i <= content.len(),
            cursors.len() == entries.len(),
            same_ids(entries.deep_view(), old(entries).deep_view()),
            tracks_wf(old(entries).deep_view()) ==> tracks_wf(entries.deep_view()),
            play_statements(state_of(*old(entries), *old(cursors)), content.deep_view(), 0)
                == play_statements(state_of(*entries, *cursors), content.deep_view(), i as int),
        decreases content.len() - i,
    {
        assert(content.deep_view()[i as int] == content[i as int].deep_view());
        match &content[i] {
            Statement::Assignment { staff_id, voices } => {
                match play_assignment(staff_id, voices, entries, cursors) {
                    Ok(_) => {},
                    Err(e) => {
                        return Err(e);
                    },
                }
            },
            Statement::LocalMeta(_) => {},
        }
        i += 1;
    }
    Ok(())
}

fn play_score(
    items: &Vec<TopLevel>,
    entries: &mut Vec<(String, Track)>,
    cursors: &mut Vec<Vec<Cursor>>,
) -> (r: Result<(), CompileError>)
    requires
        old(cursors).len() == old(entries).len(),
    ensures
        final(cursors).len() == final(entries).len(),
        same_ids(final(entries).deep_view(), old(entries).deep_view()),
        tracks_wf(old(entries).deep_view()) ==> tracks_wf(final(entries).deep_view()),
        match r {
            Ok(_) => play_items(state_of(*old(entries), *old(cursors)), items.deep_view(), 0)
                == Ok::<_, CompileError>(state_of(*final(entries), *final(cursors))),
            Err(e) => play_items(state_of(*old(entries), *old(cursors)), items.deep_view(), 0)
                == Err::<LinearState, _>(e),
        },
{
    let mut i: usize = 0;
    while i < items.len()
        invariant
            i <= items.len(),
            cursors.len() == entries.len(),
            same_ids(entries.deep_view(), old(entries).deep_view()),
            tracks_wf(old(entries).deep_view()) ==> tracks_wf(entries.deep_view()),
            play_items(state_of(*old(entries), *old(cursors)), items.deep_view(), 0) == play_items(
                state_of(*entries, *cursors),
                items.deep_view(),
                i as int,
            ),
        decreases items.len() - i,
    {
        assert(items.deep_view()[i as int] == items[i as int].deep_view());
        match &items[i] {
            TopLevel::Measure { content, .. } => {
                match play_measure(content, entries, cursors) {
                    Ok(_) => {},
                    Err(e) => {
                        return Err(e);
                    },
                }
            },
            _ => {},
        }
        i += 1;
    }
    Ok(())
}

fn sort_tracks(entries: &mut Vec<(String, Track)>)
    ensures
        final(entries).deep_view() == sorted_tracks(old(entries).deep_view()),
        final(entries).len() == old(entries).len(),
        same_ids(final(entries).deep_view(), old(entries).deep_view()),
        tracks_wf(old(entries).deep_view()) ==> tracks_wf(final(entries).deep_view()),
        forall|i: int|
            0 <= i < final(entries).len() ==> ticks_ascend(
                (#[trigger] final(entries).deep_view()[i]).1.events,
            ),
{
    proof {
        let start = entries.deep_view();
        let done = sorted_tracks(start);
        assert forall|i: int| 0 <= i < done.len() implies ticks_ascend(
            (#[trigger] done[i]).1.events,
        ) && (events_wf(start[i].1.events) ==> events_wf(done[i].1.events)) by {
            let raw = start[i].1.events;
            lemma_sorted_by_tick(raw);
            if events_wf(raw) {
                assert forall|j: int| 0 <= j < sorted_by_tick(raw).len() implies event_wf(
                    #[trigger] sorted_by_tick(raw)[j],
                ) by {
                    lemma_sorted_member(raw, j);
                }
            }
        }
    }
    let ghost start = entries.deep_view();
    let mut k: usize = 0;
    assert(entries.deep_view() =~= sorted_tracks_upto(start, 0));
    while k < entries.len()
        invariant
            k <= entries.len(),
            entries.len() == start.len(),
            entries.deep_view() == sorted_tracks_upto(start, k as int),
        decreases entries.len() - k,
    {
        let ghost before = entries.deep_view();
        let ghost prior = *entries;
        let sorted = sort_by_tick(&entries[k].1.events);
        entries[k].1.events = sorted;
        proof {
            let after = entries.deep_view();
            assert(after.len() == before.len());
            assert forall|j: int| 0 <= j < after.len() implies after[j] == sorted_tracks_upto(
                start,
                k + 1,
            )[j] by {
                if j == k {
                    assert(entries[j].0 == prior[j].0);
                    assert(entries[j].1.label == prior[j].1.label);
                    assert(entries[j].1.patch == prior[j].1.patch);
                    assert(entries[j].1.events@ == sorted_by_tick(prior[j].1.events@));
                    assert(before[j] == prior[j].deep_view());
                } else {
                    assert(entries[j] == prior[j]);
                    assert(before[j] == prior[j].deep_view());
                }
            }
        }
        assert(entries.deep_view() =~= sorted_tracks_upto(start, k + 1));
        k += 1;
    }
}

/// Linearizes a score into its timeline: title, tempo and tracks from the
/// metadata and the staff definitions, and on each track the notes of its
/// voices at absolute ticks, stably sorted by tick.
pub fn compile(score: Score) -> (r: Result<Timeline, CompileError>)
    ensures
        match r {
            Ok(timeline) => linearize(score.deep_view()) == Ok::<_, CompileError>(
                timeline.deep_view(),
            ),
            Err(e) => linearize(score.deep_view()) == Err::<TimelineView, _>(e),
        },
        r matches Ok(timeline) ==> timeline_wf(timeline.deep_view()),
        r matches Ok(timeline) ==> track_ids(timeline.deep_view().tracks) == declared_ids_from(
            score.deep_view().items,
            0,
        ),
{
    let mut timeline = Timeline {
        title: "Untitled".to_owned(),
        tempo: 120,
        tracks: TrackMap::new(),
    };
    let mut i: usize = 0;
    while i < score.items.len()
        invariant
            i <= score.items.len(),
            declare_from(untitled(), score.deep_view().items, 0) == declare_from(
                timeline.deep_view(),
                score.deep_view().items,
                i as int,
            ),
            tracks_wf(timeline.deep_view().tracks),
        decreases score.items.len() - i,
    {
        assert(score.deep_view().items[i as int] == score.items[i as int].deep_view());
        declare_item(&score.items[i], &mut timeline);
        i += 1;
    }
    let ghost declared = timeline.deep_view();
    let Timeline { title, tempo, tracks } = timeline;
    let n = tracks.len();
    let mut entries = tracks.entries;
    let mut cursors: Vec<Vec<Cursor>> = Vec::new();
    let mut k: usize = 0;
    while k < n
        invariant
            k <= n,
            cursors.len() == k,
            forall|j: int| 0 <= j < k ==> (#[trigger] cursors[j])@ == seq![Cursor::initial(PPQ)],
        decreases n - k,
    {
        let mut row: Vec<Cursor> = Vec::new();
        row.push(Cursor::new(PPQ));
        assert(row@ =~= seq![Cursor::initial(PPQ)]);
        cursors.push(row);
        k += 1;
    }
    assert(rows(cursors@) =~= Seq::new(
        declared.tracks.len(),
        |i: int| seq![Cursor::initial(PPQ)],
    ));
    match play_score(&score.items, &mut entries, &mut cursors) {
        Ok(_) => {},
        Err(e) => {
            return Err(e);
        },
    }
    let ghost played = entries.deep_view();
    sort_tracks(&mut entries);
    proof {
        let done = entries.deep_view();
        lemma_same_ids(done, played);
        lemma_same_ids(played, declared.tracks);
        lemma_declared_ids(untitled(), score.deep_view().items, 0);
        assert(track_ids(untitled().tracks) =~= Set::empty());
        assert(track_ids(untitled().tracks).union(
            declared_ids_from(score.deep_view().items, 0),
        ) =~= declared_ids_from(score.deep_view().items, 0));
    }
    Ok(Timeline { title, tempo, tracks: TrackMap { entries } })
}

} // verus!
