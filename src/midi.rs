use vstd::prelude::*;
use crate::capture::RecordingEventType;
use crate::smf::{check_bad_division, has_bad_division, parse_smf, smf_of, EntryKind, MidiFile, Timing, TrackEntry};
use crate::timing::{saturate, spec_ticks_for, spec_time_for, ticks_for, time_for, DEFAULT_TEMPO, DEFAULT_TICKS_PER_QUARTER};

verus! {

/// A note message of a loaded sequence.
#[derive(Clone, Copy, Debug, PartialEq, Eq)]
pub enum MidiMessage {
    NoteOn { key: u8, vel: u8 },
    NoteOff { key: u8 },
}

impl MidiMessage {
    /// The live note event this message plays: a note-on with velocity zero
    /// releases the note, as a note-off does.
    pub fn to_live_event(&self) -> (r: RecordingEventType)
        ensures
            r == match *self {
                MidiMessage::NoteOn { key, vel } => if vel > 0 {
                    RecordingEventType::NoteOn { midi_note: key, velocity: vel }
                } else {
                    RecordingEventType::NoteOff { midi_note: key }
                },
                MidiMessage::NoteOff { key } => RecordingEventType::NoteOff { midi_note: key },
            },
    {
        match *self {
            MidiMessage::NoteOn { key, vel } => if vel > 0 {
                RecordingEventType::NoteOn { midi_note: key, velocity: vel }
            } else {
                RecordingEventType::NoteOff { midi_note: key }
            },
            MidiMessage::NoteOff { key } => RecordingEventType::NoteOff { midi_note: key },
        }
    }
}

/// A message stamped with its absolute tick.
#[derive(Clone, Copy, Debug, PartialEq, Eq)]
pub struct MidiEvent {
    pub delta_time: u32,
    pub absolute_time: u64,
    pub event: MidiMessage,
}

/// Why a file could not be loaded.
#[derive(Clone, Copy, Debug, PartialEq, Eq)]
pub enum LoadError {
    /// The bytes are not a Standard MIDI File.
    Malformed,
    /// The header declares a resolution of zero ticks.
    InvalidTiming,
    /// A track's ticks do not fit in 64 bits.
    TooLong,
}

/// Where playback stands.
#[derive(Clone, Copy, Debug, PartialEq, Eq)]
pub enum PlayState {
    Stopped,
    Playing,
    Paused,
}

pub open spec fn note_message(k: EntryKind) -> Option<MidiMessage> {
    match k {
        EntryKind::NoteOn(key, vel) => Some(MidiMessage::NoteOn { key, vel }),
        EntryKind::NoteOff(key) => Some(MidiMessage::NoteOff { key }),
        _ => None,
    }
}

/// Tick of the last entry of `t`: the sum of its deltas.
pub open spec fn track_end(t: Seq<TrackEntry>) -> int
    decreases t.len(),
{
    if t.len() == 0 {
        0
    } else {
        track_end(t.drop_last()) + t.last().delta
    }
}

/// The note events of one track, stamped with absolute ticks, in track order.
pub open spec fn track_events(t: Seq<TrackEntry>) -> Seq<MidiEvent>
    decreases t.len(),
{
    if t.len() == 0 {
        seq![]
    } else {
        let prev = track_events(t.drop_last());
        match note_message(t.last().kind) {
            Some(m) => prev.push(
                MidiEvent { delta_time: t.last().delta, absolute_time: track_end(t) as u64, event: m },
            ),
            None => prev,
        }
    }
}

/// The note events of all tracks, track after track.
pub open spec fn file_events(ts: Seq<Seq<TrackEntry>>) -> Seq<MidiEvent>
    decreases ts.len(),
{
    if ts.len() == 0 {
        seq![]
    } else {
        file_events(ts.drop_last()) + track_events(ts.last())
    }
}

pub open spec fn first_of(a: Option<u32>, b: Option<u32>) -> Option<u32> {
    if a is Some { a } else { b }
}

pub open spec fn entry_tempo(k: EntryKind) -> Option<u32> {
    match k {
        EntryKind::Tempo(t) => if t > 0 { Some(t) } else { None },
        _ => None,
    }
}

/// The first positive tempo of a track.
pub open spec fn track_tempo(t: Seq<TrackEntry>) -> Option<u32>
    decreases t.len(),
{
    if t.len() == 0 {
        None
    } else {
        first_of(track_tempo(t.drop_last()), entry_tempo(t.last().kind))
    }
}

/// The first positive tempo of a file, tracks taken in order.
pub open spec fn file_tempo(ts: Seq<Seq<TrackEntry>>) -> Option<u32>
    decreases ts.len(),
{
    if ts.len() == 0 {
        None
    } else {
        first_of(file_tempo(ts.drop_last()), track_tempo(ts.last()))
    }
}

pub open spec fn fits(ts: Seq<Seq<TrackEntry>>) -> bool {
    forall|i: int| 0 <= i < ts.len() ==> track_end(#[trigger] ts[i]) <= u64::MAX
}

/// Tempo given to a timecode file: one second per quarter note, so that its
/// frames-per-second times ticks-per-frame ticks last exactly one second,
/// whatever tempo events the file holds.
pub const TIMECODE_TEMPO: u32 = 1_000_000;

/// Ticks per quarter note declared by a header. A timecode header counts
/// frames per second times ticks per frame, the ticks of one second, which
/// `TIMECODE_TEMPO` makes the length of a quarter note.
pub open spec fn resolution(t: Timing) -> int {
    match t {
        Timing::Metrical(q) => q as int,
        Timing::Timecode(f, s) => f as int * s as int,
    }
}

pub open spec fn sorted_by_tick(s: Seq<MidiEvent>) -> bool {
    forall|i: int, j: int| 0 <= i <= j < s.len() ==> s[i].absolute_time <= s[j].absolute_time
}

pub open spec fn at_tick(s: Seq<MidiEvent>, k: u64) -> Seq<MidiEvent> {
    s.filter(|e: MidiEvent| e.absolute_time == k)
}

/// `r` orders `s` by tick, keeping the order of `s` among equal ticks.
pub open spec fn is_stable_sort_of(r: Seq<MidiEvent>, s: Seq<MidiEvent>) -> bool {
    &&& sorted_by_tick(r)
    &&& forall|k: u64| #[trigger] at_tick(r, k) == at_tick(s, k)
}

pub open spec fn last_tick(s: Seq<MidiEvent>) -> u64 {
    if s.len() == 0 { 0 } else { s.last().absolute_time }
}

/// Relies on `slice::sort_by_key`, which std documents as a stable sort:
/// the events come out ordered by tick, and events with equal ticks keep
/// their order.
#[verifier::external_body]
fn sort_by_tick(v: &mut Vec<MidiEvent>)
    ensures
        is_stable_sort_of(final(v)@, old(v)@),
{
    v.sort_by_key(|e| e.absolute_time);
}

proof fn lemma_track_end_prefix(t: Seq<TrackEntry>, n: int)
    requires
        0 <= n <= t.len(),
    ensures
        track_end(t.take(n)) <= track_end(t),
    decreases t.len(),
{
    if n < t.len() {
        assert(t.take(n) == t.drop_last().take(n));
        lemma_track_end_prefix(t.drop_last(), n);
    } else {
        assert(t.take(n) == t);
    }
}

/// Collects the note events of every track and the first positive tempo.
fn collect_events(tracks: &Vec<Vec<TrackEntry>>) -> (r: Result<(Vec<MidiEvent>, Option<u32>), LoadError>)
    ensures
        ({
            let ts = tracks@.map_values(|t: Vec<TrackEntry>| t@);
            match r {
                Ok((evs, tempo)) => {
                    &&& fits(ts)
                    &&& evs@ == file_events(ts)
                    &&& tempo == file_tempo(ts)
                    &&& (tempo is Some ==> tempo->0 > 0)
                },
                Err(e) => !fits(ts) && e == LoadError::TooLong,
            }
        }),
{
    let ghost ts = tracks@.map_values(|t: Vec<TrackEntry>| t@);
    let mut events: Vec<MidiEvent> = Vec::new();
    let mut tempo: Option<u32> = None;
    let mut i: usize = 0;
    while i < tracks.len()
        invariant
            ts == tracks@.map_values(|t: Vec<TrackEntry>| t@),
            0 <= i <= tracks.len(),
            forall|x: int| 0 <= x < i ==> track_end(#[trigger] ts[x]) <= u64::MAX,
            events@ == file_events(ts.take(i as int)),
            tempo == file_tempo(ts.take(i as int)),
            tempo is Some ==> tempo->0 > 0,
        decreases tracks.len() - i,
    {
        let track = &tracks[i];
        let ghost t = track@;
        assert(t == ts[i as int]);
        let mut acc: u64 = 0;
        let mut j: usize = 0;
        assert(t.take(0) =~= seq![]);
        assert(events@ =~= file_events(ts.take(i as int)) + track_events(t.take(0)));
        while j < track.len()
            invariant
                t == track@,
                ts == tracks@.map_values(|t: Vec<TrackEntry>| t@),
                i < tracks.len(),
                t == ts[i as int],
                0 <= j <= track.len(),
                acc == track_end(t.take(j as int)),
                events@ == file_events(ts.take(i as int)) + track_events(t.take(j as int)),
                tempo == first_of(file_tempo(ts.take(i as int)), track_tempo(t.take(j as int))),
                tempo is Some ==> tempo->0 > 0,
            decreases track.len() - j,
        {
            let entry = track[j];
            assert(t.take(j + 1).drop_last() == t.take(j as int));
            assert(t.take(j + 1).last() == entry);
            match acc.checked_add(entry.delta as u64) {
                None => {
                    proof {
                        assert(track_end(t.take(j + 1)) == acc + entry.delta);
                        lemma_track_end_prefix(t, j + 1);
                        assert(!fits(ts)) by {
                            assert(track_end(ts[i as int]) > u64::MAX);
                        }
                    }
                    return Err(LoadError::TooLong);
                },
                Some(sum) => {
                    acc = sum;
                },
            }
            match entry.kind {
                EntryKind::NoteOn(key, vel) => {
                    events.push(MidiEvent { delta_time: entry.delta, absolute_time: acc, event: MidiMessage::NoteOn { key, vel } });
                },
                EntryKind::NoteOff(key) => {
                    events.push(MidiEvent { delta_time: entry.delta, absolute_time: acc, event: MidiMessage::NoteOff { key } });
                },
                EntryKind::Tempo(us) => {
                    if tempo.is_none() && us > 0 {
                        tempo = Some(us);
                    }
                },
                EntryKind::Other => {},
            }
            j = j + 1;
            assert(events@ =~= file_events(ts.take(i as int)) + track_events(t.take(j as int)));
        }
        assert(t.take(j as int) == t);
        assert(ts.take(i + 1).drop_last() == ts.take(i as int));
        assert(ts.take(i + 1).last() == t);
        i = i + 1;
        assert(events@ =~= file_events(ts.take(i as int)));
    }
    assert(ts.take(i as int) == ts);
    Ok((events, tempo))
}

/// Index of the first event at or after `i` whose tick exceeds `tick`,
/// stopping at the first one that does.
pub open spec fn due_end(s: Seq<MidiEvent>, i: int, tick: int) -> int
    decreases s.len() - i,
{
    if 0 <= i < s.len() && s[i].absolute_time <= tick {
        due_end(s, i + 1, tick)
    } else {
        i
    }
}

pub proof fn lemma_due_end(s: Seq<MidiEvent>, i: int, tick: int)
    requires
        sorted_by_tick(s),
        0 <= i <= s.len(),
    ensures
        i <= due_end(s, i, tick) <= s.len(),
        forall|k: int| i <= k < due_end(s, i, tick) ==> s[k].absolute_time <= tick,
        forall|k: int| due_end(s, i, tick) <= k < s.len() ==> s[k].absolute_time > tick,
    decreases s.len() - i,
{
    if i < s.len() && s[i].absolute_time <= tick {
        lemma_due_end(s, i + 1, tick);
    }
}

/// Plays a loaded event sequence against a wall clock given in microseconds.
///
/// The pending queue is the loaded sequence from `cursor` on. While
/// playing, the tick reached at instant `now` is `anchor_tick` plus the
/// ticks elapsed since `start_time`.
#[derive(Debug)]
pub struct MidiPlayer {
    pub loaded: bool,
    pub sequence: Vec<MidiEvent>,
    pub cursor: usize,
    pub state: PlayState,
    pub start_time: Option<u64>,
    pub anchor_tick: u64,
    pub current_position: u64,
    pub tempo: u32,
    pub ticks_per_quarter: u16,
    pub total_ticks: u64,
    pub loop_enabled: bool,
}

/// What loading the decoded file `f` does to a player, given the outcome `r`.
pub open spec fn load_outcome(
    old: MidiPlayer,
    new: MidiPlayer,
    f: (Timing, Seq<Seq<TrackEntry>>),
    r: Result<(), LoadError>,
) -> bool {
    match r {
        Ok(()) => {
            &&& resolution(f.0) != 0
            &&& fits(f.1)
            &&& new.loaded
            &&& is_stable_sort_of(new.sequence@, file_events(f.1))
            &&& new.cursor == 0
            &&& new.state == PlayState::Stopped
            &&& new.start_time is None
            &&& new.anchor_tick == 0
            &&& new.current_position == 0
            &&& new.tempo == (match f.0 {
                Timing::Metrical(_) => match file_tempo(f.1) {
                    Some(t) => t,
                    None => DEFAULT_TEMPO,
                },
                Timing::Timecode(_, _) => TIMECODE_TEMPO,
            })
            &&& new.ticks_per_quarter == resolution(f.0)
            &&& (f.0 is Timecode ==> spec_time_for(resolution(f.0), new.tempo as int, new.ticks_per_quarter as int)
                == 1_000_000)
            &&& new.total_ticks == last_tick(new.sequence@)
            &&& new.loop_enabled == old.loop_enabled
        },
        Err(e) => {
            &&& new == old
            &&& (e == LoadError::InvalidTiming <==> resolution(f.0) == 0)
            &&& (e == LoadError::TooLong <==> resolution(f.0) != 0 && !fits(f.1))
            &&& e != LoadError::Malformed
        },
    }
}

impl MidiPlayer {
    pub open spec fn wf(&self) -> bool {
        &&& sorted_by_tick(self.sequence@)
        &&& self.cursor <= self.sequence@.len()
        &&& self.tempo > 0
        &&& self.ticks_per_quarter > 0
        &&& self.total_ticks == last_tick(self.sequence@)
        &&& self.current_position <= self.total_ticks
        &&& (self.state == PlayState::Playing ==> self.start_time is Some)
        &&& (!self.loaded ==> self.sequence@.len() == 0)
        &&& (self.state != PlayState::Stopped ==> self.loaded)
        &&& self.sequence@.len() <= usize::MAX
    }

    /// The events not yet released, next due first.
    pub open spec fn pending(&self) -> Seq<MidiEvent> {
        self.sequence@.subrange(self.cursor as int, self.sequence@.len() as int)
    }

    /// The tick reached at instant `now` while playing.
    pub open spec fn tick_at(&self, now: u64) -> int {
        let anchor = self.start_time->0;
        let elapsed = if now >= anchor { now - anchor } else { 0 };
        saturate(self.anchor_tick + saturate(spec_ticks_for(elapsed, self.tempo as int, self.ticks_per_quarter as int)))
    }

    /// End of the run of pending events that are due at `now`.
    pub open spec fn due_at(&self, now: u64) -> int {
        due_end(self.sequence@, self.cursor as int, self.tick_at(now))
    }

    /// The events that a poll at `now` releases.
    pub open spec fn released(&self, now: u64) -> Seq<MidiEvent> {
        if self.state == PlayState::Playing {
            self.sequence@.subrange(self.cursor as int, self.due_at(now))
        } else {
            seq![]
        }
    }

    /// The player after a poll at `now`.
    pub open spec fn after_poll(self, now: u64) -> MidiPlayer {
        if self.state != PlayState::Playing {
            self
        } else {
            let tick = self.tick_at(now);
            let c = self.due_at(now);
            let reached = if tick > self.current_position { tick } else { self.current_position as int };
            let pos = if reached > self.total_ticks { self.total_ticks } else { reached as u64 };
            if c < self.sequence@.len() {
                MidiPlayer { cursor: c as usize, current_position: pos, ..self }
            } else if self.loop_enabled {
                MidiPlayer {
                    cursor: 0,
                    start_time: Some(now),
                    anchor_tick: 0,
                    current_position: 0,
                    ..self
                }
            } else {
                MidiPlayer {
                    cursor: c as usize,
                    state: PlayState::Stopped,
                    start_time: None,
                    current_position: pos,
                    ..self
                }
            }
        }
    }

    /// The player after `play` at `now`: a loaded sequence plays on from the
    /// current position, or from the start once its queue is exhausted.
    pub open spec fn after_play(self, now: u64) -> MidiPlayer {
        if !self.loaded || self.state == PlayState::Playing {
            self
        } else if self.cursor == self.sequence@.len() {
            MidiPlayer {
                cursor: 0,
                state: PlayState::Playing,
                start_time: Some(now),
                anchor_tick: 0,
                current_position: 0,
                ..self
            }
        } else {
            MidiPlayer {
                state: PlayState::Playing,
                start_time: Some(now),
                anchor_tick: self.current_position,
                ..self
            }
        }
    }

    pub open spec fn after_pause(self) -> MidiPlayer {
        if self.state == PlayState::Playing {
            MidiPlayer { state: PlayState::Paused, ..self }
        } else {
            self
        }
    }

    pub open spec fn after_stop(self) -> MidiPlayer {
        MidiPlayer {
            cursor: 0,
            state: PlayState::Stopped,
            start_time: None,
            anchor_tick: 0,
            current_position: 0,
            ..self
        }
    }

    /// Tick that seeking to the fraction `num / den` (clamped to one) aims at.
    pub open spec fn seek_target(self, num: u64, den: u64) -> u64 {
        let n = if num > den { den } else { num };
        (self.total_ticks as int * n as int / den as int) as u64
    }

    /// The player after seeking to `num / den` at instant `now`: every event
    /// at or before the target tick is dropped from the queue.
    pub open spec fn after_seek(self, num: u64, den: u64, now: u64) -> MidiPlayer {
        if !self.loaded {
            self
        } else {
            let target = self.seek_target(num, den);
            let c = due_end(self.sequence@, 0, target as int);
            if self.state == PlayState::Playing {
                MidiPlayer {
                    cursor: c as usize,
                    current_position: target,
                    start_time: Some(now),
                    anchor_tick: target,
                    ..self
                }
            } else {
                MidiPlayer { cursor: c as usize, current_position: target, ..self }
            }
        }
    }

    /// An empty player at 120 beats per minute and 480 ticks per quarter note.
    pub fn new() -> (r: MidiPlayer)
        ensures
            r.wf(),
            !r.loaded,
            r.state == PlayState::Stopped,
            r.current_position == 0,
            r.total_ticks == 0,
            r.tempo == DEFAULT_TEMPO,
            r.ticks_per_quarter == DEFAULT_TICKS_PER_QUARTER,
            !r.loop_enabled,
    {
        MidiPlayer {
            loaded: false,
            sequence: Vec::new(),
            cursor: 0,
            state: PlayState::Stopped,
            start_time: None,
            anchor_tick: 0,
            current_position: 0,
            tempo: DEFAULT_TEMPO,
            ticks_per_quarter: DEFAULT_TICKS_PER_QUARTER,
            total_ticks: 0,
            loop_enabled: false,
        }
    }

    /// Loads a decoded file: its note events ordered by tick (ties keep file
    /// order), the header's resolution and, for a metrical header, the first
    /// positive tempo (120 beats per minute if none). A timecode header gets
    /// `TIMECODE_TEMPO`. On error the player is left as it was.
    pub fn load_parsed(&mut self, file: &MidiFile) -> (r: Result<(), LoadError>)
        requires
            old(self).wf(),
        ensures
            final(self).wf(),
            load_outcome(*old(self), *final(self), file@, r),
    {
        let resolution: u16 = match file.timing {
            Timing::Metrical(q) => q,
            Timing::Timecode(f, s) => {
                proof {
                    assert(f as int * s as int <= 255 * 255) by (nonlinear_arith)
                        requires f <= 255, s <= 255;
                }
                (f as u16) * (s as u16)
            },
        };
        if resolution == 0 {
            return Err(LoadError::InvalidTiming);
        }
        let collected = collect_events(&file.tracks);
        if collected.is_err() {
            return Err(LoadError::TooLong);
        }
        let (mut events, tempo) = collected.unwrap();
        sort_by_tick(&mut events);
        let n = events.len();
        let total = if n == 0 { 0 } else { events[n - 1].absolute_time };
        self.loaded = true;
        self.sequence = events;
        self.cursor = 0;
        self.state = PlayState::Stopped;
        self.start_time = None;
        self.anchor_tick = 0;
        self.current_position = 0;
        self.tempo = match file.timing {
            Timing::Metrical(_) => match tempo {
                Some(t) => t,
                None => DEFAULT_TEMPO,
            },
            Timing::Timecode(_, _) => TIMECODE_TEMPO,
        };
        proof {
            let r = resolution as int;
            assert(r * 1_000_000 / r == 1_000_000) by (nonlinear_arith)
                requires r > 0;
        }
        self.ticks_per_quarter = resolution;
        self.total_ticks = total;
        Ok(())
    }

    /// Decodes a Standard MIDI File and loads it as `load_parsed` does; bytes
    /// that do not decode give `Malformed` and leave the player as it was. A
    /// timecode division with 0x80 frames per second is no valid rate: such a
    /// file is `Malformed` too, wherever in the file such a header stands.
    /// After a load the queue is ordered by tick.
    pub fn load(&mut self, data: &[u8]) -> (r: Result<(), LoadError>)
        requires
            old(self).wf(),
        ensures
            final(self).wf(),
            has_bad_division(data@) ==> r == Err::<(), LoadError>(LoadError::Malformed)
                && *final(self) == *old(self),
            !has_bad_division(data@) ==> match smf_of(data@) {
                None => r == Err::<(), LoadError>(LoadError::Malformed) && *final(self) == *old(self),
                Some(f) => load_outcome(*old(self), *final(self), f, r),
            },
            r is Ok ==> forall|i: int|
                0 <= i < final(self).pending().len() - 1 ==> #[trigger] final(self).pending()[i].absolute_time
                    <= final(self).pending()[i + 1].absolute_time,
    {
        if check_bad_division(data) {
            return Err(LoadError::Malformed);
        }
        let r = match parse_smf(data) {
            Err(_) => Err(LoadError::Malformed),
            Ok(file) => self.load_parsed(&file),
        };
        assert(r is Ok ==> self.pending() =~= self.sequence@);
        r
    }

    /// Starts or resumes playback at instant `now`; does nothing without a
    /// loaded sequence or while already playing.
    pub fn play(&mut self, now: u64)
        requires
            old(self).wf(),
        ensures
            final(self).wf(),
            *final(self) == old(self).after_play(now),
    {
        if !self.loaded || matches!(self.state, PlayState::Playing) {
            return;
        }
        if self.cursor == self.sequence.len() {
            self.cursor = 0;
            self.current_position = 0;
        }
        self.state = PlayState::Playing;
        self.start_time = Some(now);
        self.anchor_tick = self.current_position;
    }

    /// Pauses playback, keeping the position reached.
    pub fn pause(&mut self)
        requires
            old(self).wf(),
        ensures
            final(self).wf(),
            *final(self) == old(self).after_pause(),
    {
        if matches!(self.state, PlayState::Playing) {
            self.state = PlayState::Paused;
        }
    }

    /// Stops playback and rewinds to the start of the loaded sequence.
    pub fn stop(&mut self)
        requires
            old(self).wf(),
        ensures
            final(self).wf(),
            *final(self) == old(self).after_stop(),
    {
        self.cursor = 0;
        self.state = PlayState::Stopped;
        self.start_time = None;
        self.anchor_tick = 0;
        self.current_position = 0;
    }

    /// Pauses while playing; otherwise plays.
    pub fn toggle_playback(&mut self, now: u64)
        requires
            old(self).wf(),
        ensures
            final(self).wf(),
            *final(self) == if old(self).state == PlayState::Playing {
                old(self).after_pause()
            } else {
                old(self).after_play(now)
            },
    {
        if matches!(self.state, PlayState::Playing) {
            self.pause();
        } else {
            self.play(now);
        }
    }

    pub fn is_playing(&self) -> (r: bool)
        ensures
            r == (self.state == PlayState::Playing),
    {
        matches!(self.state, PlayState::Playing)
    }

    /// Releases every pending event due at instant `now`, in tick order, and
    /// advances the position. Once the queue is empty the sequence starts
    /// over if looping is on, and playback stops otherwise.
    pub fn get_pending_events(&mut self, now: u64) -> (r: Vec<MidiMessage>)
        requires
            old(self).wf(),
        ensures
            final(self).wf(),
            *final(self) == old(self).after_poll(now),
            r@ == old(self).released(now).map_values(|e: MidiEvent| e.event),
    {
        if !matches!(self.state, PlayState::Playing) {
            return Vec::new();
        }
        let anchor = match self.start_time {
            Some(t) => t,
            None => 0,
        };
        let elapsed = if now >= anchor { now - anchor } else { 0 };
        let tick = self.anchor_tick.saturating_add(ticks_for(elapsed, self.tempo, self.ticks_per_quarter));
        let ghost s = self.sequence@;
        let ghost c0 = self.cursor as int;
        assert(tick == self.tick_at(now));
        let mut out: Vec<MidiMessage> = Vec::new();
        let mut c = self.cursor;
        while c < self.sequence.len() && self.sequence[c].absolute_time <= tick
            invariant
                s == self.sequence@,
                0 <= c0 <= c <= s.len(),
                due_end(s, c as int, tick as int) == due_end(s, c0, tick as int),
                out@ == s.subrange(c0, c as int).map_values(|e: MidiEvent| e.event),
            decreases s.len() - c,
        {
            let ghost old_c = c as int;
            out.push(self.sequence[c].event);
            c = c + 1;
            assert(s.subrange(c0, c as int) =~= s.subrange(c0, old_c).push(s[old_c]));
            assert(out@ =~= s.subrange(c0, c as int).map_values(|e: MidiEvent| e.event));
        }
        let reached = if tick > self.current_position { tick } else { self.current_position };
        let pos = if reached > self.total_ticks { self.total_ticks } else { reached };
        if c < self.sequence.len() {
            self.cursor = c;
            self.current_position = pos;
        } else if self.loop_enabled {
            self.cursor = 0;
            self.start_time = Some(now);
            self.anchor_tick = 0;
            self.current_position = 0;
        } else {
            self.cursor = c;
            self.state = PlayState::Stopped;
            self.start_time = None;
            self.current_position = pos;
        }
        out
    }

    /// Jumps to the fraction `num / den` of the sequence (clamped to one):
    /// the position becomes that tick, and every event at or before it leaves
    /// the queue. While playing, playback goes on from there at `now`.
    pub fn seek_to_position(&mut self, num: u64, den: u64, now: u64)
        requires
            old(self).wf(),
            den > 0,
        ensures
            final(self).wf(),
            *final(self) == old(self).after_seek(num, den, now),
    {
        if !self.loaded {
            return;
        }
        let n = if num > den { den } else { num };
        proof {
            assert((self.total_ticks as int) * (n as int) <= (self.total_ticks as int) * (den as int)) by (nonlinear_arith)
                requires n <= den, self.total_ticks >= 0;
            assert((self.total_ticks as int) * (den as int) / (den as int) == self.total_ticks as int) by (nonlinear_arith)
                requires den > 0;
            vstd::arithmetic::div_mod::lemma_div_is_ordered((self.total_ticks as int) * (n as int), (self.total_ticks as int) * (den as int), den as int);
            assert((self.total_ticks as int) * (n as int) >= 0) by (nonlinear_arith)
                requires n >= 0, self.total_ticks >= 0;
            assert(self.total_ticks as u128 * n as u128 <= 0xffff_ffff_ffff_ffffu128 * 0xffff_ffff_ffff_ffffu128) by (nonlinear_arith)
                requires self.total_ticks <= 0xffff_ffff_ffff_ffffu64, n <= 0xffff_ffff_ffff_ffffu64;
        }
        let target = ((self.total_ticks as u128) * (n as u128) / (den as u128)) as u64;
        let ghost s = self.sequence@;
        let mut c: usize = 0;
        while c < self.sequence.len() && self.sequence[c].absolute_time <= target
            invariant
                s == self.sequence@,
                c <= s.len(),
                due_end(s, c as int, target as int) == due_end(s, 0, target as int),
            decreases s.len() - c,
        {
            c = c + 1;
        }
        self.cursor = c;
        self.current_position = target;
        if matches!(self.state, PlayState::Playing) {
            self.start_time = Some(now);
            self.anchor_tick = target;
        }
    }

    /// Position and total length in microseconds.
    pub fn get_time_info(&self) -> (r: (u64, u64))
        requires
            self.wf(),
        ensures
            r.0 == saturate(spec_time_for(self.current_position as int, self.tempo as int, self.ticks_per_quarter as int)),
            r.1 == saturate(spec_time_for(self.total_ticks as int, self.tempo as int, self.ticks_per_quarter as int)),
    {
        (
            time_for(self.current_position, self.tempo, self.ticks_per_quarter),
            time_for(self.total_ticks, self.tempo, self.ticks_per_quarter),
        )
    }

    /// Ticks in `elapsed_us` microseconds at the current tempo and resolution.
    pub fn time_to_ticks(&self, elapsed_us: u64) -> (r: u64)
        requires
            self.wf(),
        ensures
            r == saturate(spec_ticks_for(elapsed_us as int, self.tempo as int, self.ticks_per_quarter as int)),
    {
        ticks_for(elapsed_us, self.tempo, self.ticks_per_quarter)
    }

    /// Microseconds taken by `ticks` at the current tempo and resolution.
    pub fn ticks_to_time(&self, ticks: u64) -> (r: u64)
        requires
            self.wf(),
        ensures
            r == saturate(spec_time_for(ticks as int, self.tempo as int, self.ticks_per_quarter as int)),
    {
        time_for(ticks, self.tempo, self.ticks_per_quarter)
    }

    pub fn set_loop(&mut self, enabled: bool)
        requires
            old(self).wf(),
        ensures
            final(self).wf(),
            *final(self) == (MidiPlayer { loop_enabled: enabled, ..*old(self) }),
    {
        self.loop_enabled = enabled;
    }

    pub fn is_loop_enabled(&self) -> (r: bool)
        ensures
            r == self.loop_enabled,
    {
        self.loop_enabled
    }

    /// A copy of the pending queue, next due first.
    pub fn pending_events(&self) -> (r: Vec<MidiEvent>)
        requires
            self.wf(),
        ensures
            r@ == self.pending(),
    {
        let mut out: Vec<MidiEvent> = Vec::new();
        let mut i = self.cursor;
        while i < self.sequence.len()
            invariant
                self.cursor <= i <= self.sequence@.len(),
                out@ == self.sequence@.subrange(self.cursor as int, i as int),
            decreases self.sequence@.len() - i,
        {
            out.push(self.sequence[i]);
            i = i + 1;
            assert(out@ =~= self.sequence@.subrange(self.cursor as int, i as int));
        }
        out
    }
}

/// After a successful load, the pending queue is ordered by tick: each
/// event is due no later than the one after it.
pub proof fn lemma_load_queue_sorted(
    old: MidiPlayer,
    new: MidiPlayer,
    f: (Timing, Seq<Seq<TrackEntry>>),
    r: Result<(), LoadError>,
)
    requires
        load_outcome(old, new, f, r),
        r is Ok,
    ensures
        forall|i: int|
            0 <= i < new.pending().len() - 1 ==> #[trigger] new.pending()[i].absolute_time
                <= new.pending()[i + 1].absolute_time,
{
    assert(new.pending() =~= new.sequence@);
}

/// Seeking to `num / den` puts the position at the target tick, which lies
/// within the sequence; every event left pending lies after it, and so does
/// every event that a later poll releases.
pub proof fn lemma_seek_then_poll(p: MidiPlayer, num: u64, den: u64, seek_now: u64, poll_now: u64)
    requires
        p.wf(),
        p.loaded,
        den > 0,
    ensures
        ({
            let q = p.after_seek(num, den, seek_now);
            let t = p.seek_target(num, den);
            &&& t <= p.total_ticks
            &&& q.current_position == t
            &&& forall|k: int| 0 <= k < q.pending().len() ==> #[trigger] q.pending()[k].absolute_time > t
            &&& forall|k: int|
                0 <= k < q.released(poll_now).len() ==> #[trigger] q.released(poll_now)[k].absolute_time > t
        }),
{
    let q = p.after_seek(num, den, seek_now);
    let total = p.total_ticks as int;
    let n: int = if num > den { den as int } else { num as int };
    let d = den as int;
    assert(total * n <= total * d) by (nonlinear_arith)
        requires 0 <= n <= d, total >= 0;
    assert(total * d / d == total) by (nonlinear_arith)
        requires d > 0;
    vstd::arithmetic::div_mod::lemma_div_is_ordered(total * n, total * d, d);
    assert(total * n >= 0) by (nonlinear_arith)
        requires n >= 0, total >= 0;
    vstd::arithmetic::div_mod::lemma_div_pos_is_pos(total * n, d);
    let t = p.seek_target(num, den);
    lemma_due_end(p.sequence@, 0, t as int);
    let c = due_end(p.sequence@, 0, t as int);
    assert(q.cursor == c);
    if q.state == PlayState::Playing {
        lemma_due_end(q.sequence@, q.cursor as int, q.tick_at(poll_now));
    }
}

/// A poll takes what it releases from the front of the pending queue and
/// leaves the rest pending, in order; only a loop restart refills the queue.
pub proof fn lemma_poll_splits_queue(p: MidiPlayer, now: u64)
    requires
        p.wf(),
        !(p.state == PlayState::Playing && p.loop_enabled && p.due_at(now) == p.sequence@.len()),
    ensures
        p.pending() == p.released(now) + p.after_poll(now).pending(),
{
    if p.state == PlayState::Playing {
        lemma_due_end(p.sequence@, p.cursor as int, p.tick_at(now));
        assert(p.pending() =~= p.released(now) + p.after_poll(now).pending());
    } else {
        assert(p.pending() =~= p.released(now) + p.after_poll(now).pending());
    }
}

/// The player after a poll at each instant of `nows`, in turn.
pub open spec fn after_polls(p: MidiPlayer, nows: Seq<u64>) -> MidiPlayer
    decreases nows.len(),
{
    if nows.len() == 0 {
        p
    } else {
        after_polls(p, nows.drop_last()).after_poll(nows.last())
    }
}

/// Everything that those polls release, in the order released.
pub open spec fn released_by_polls(p: MidiPlayer, nows: Seq<u64>) -> Seq<MidiEvent>
    decreases nows.len(),
{
    if nows.len() == 0 {
        seq![]
    } else {
        released_by_polls(p, nows.drop_last()) + after_polls(p, nows.drop_last()).released(nows.last())
    }
}

proof fn lemma_poll_wf(p: MidiPlayer, now: u64)
    requires
        p.wf(),
    ensures
        p.after_poll(now).wf(),
{
    lemma_due_end(p.sequence@, p.cursor as int, p.tick_at(now));
}

/// Without looping, polls never bring back an event: when every pending
/// event lies after tick `t`, so does every event that any run of polls
/// releases, and every event still pending after it.
proof fn lemma_polls_stay_after(p: MidiPlayer, nows: Seq<u64>, t: int)
    requires
        p.wf(),
        !p.loop_enabled,
        forall|k: int| 0 <= k < p.pending().len() ==> #[trigger] p.pending()[k].absolute_time > t,
    ensures
        after_polls(p, nows).wf(),
        !after_polls(p, nows).loop_enabled,
        forall|k: int| 0 <= k < after_polls(p, nows).pending().len() ==> #[trigger] after_polls(p, nows).pending()[k].absolute_time > t,
        forall|k: int| 0 <= k < released_by_polls(p, nows).len() ==> #[trigger] released_by_polls(p, nows)[k].absolute_time > t,
    decreases nows.len(),
{
    if nows.len() > 0 {
        let rest = nows.drop_last();
        let now = nows.last();
        lemma_polls_stay_after(p, rest, t);
        let q = after_polls(p, rest);
        lemma_poll_wf(q, now);
        lemma_poll_splits_queue(q, now);
        let a = q.released(now);
        let b = q.after_poll(now).pending();
        assert forall|k: int| 0 <= k < a.len() implies #[trigger] a[k].absolute_time > t by {
            assert(q.pending()[k] == a[k]);
        }
        assert forall|k: int| 0 <= k < b.len() implies #[trigger] b[k].absolute_time > t by {
            assert(q.pending()[a.len() + k] == b[k]);
        }
        let all = released_by_polls(p, nows);
        let before = released_by_polls(p, rest);
        assert forall|k: int| 0 <= k < all.len() implies #[trigger] all[k].absolute_time > t by {
            if k < before.len() {
                assert(all[k] == before[k]);
            } else {
                assert(all[k] == a[k - before.len()]);
            }
        }
    }
}

/// Seeking to `num / den`, then playing, then polling any number of times
/// releases only events after the target tick, as long as looping is off and
/// some event lies after the target (with none left, `play` starts over).
pub proof fn lemma_seek_play_polls(
    p: MidiPlayer,
    num: u64,
    den: u64,
    seek_now: u64,
    play_now: u64,
    nows: Seq<u64>,
)
    requires
        p.wf(),
        p.loaded,
        den > 0,
        !p.loop_enabled,
        p.seek_target(num, den) < p.total_ticks,
    ensures
        ({
            let q = p.after_seek(num, den, seek_now).after_play(play_now);
            let t = p.seek_target(num, den);
            &&& q.state == PlayState::Playing
            &&& q.current_position == t
            &&& forall|k: int| 0 <= k < released_by_polls(q, nows).len() ==> #[trigger] released_by_polls(q, nows)[k].absolute_time > t
        }),
{
    lemma_seek_then_poll(p, num, den, seek_now, 0);
    let t = p.seek_target(num, den);
    let s = p.sequence@;
    lemma_due_end(s, 0, t as int);
    let c = due_end(s, 0, t as int);
    assert(s.len() > 0);
    assert(c < s.len()) by {
        if c == s.len() {
            assert(s[s.len() - 1].absolute_time <= t);
        }
    }
    let m = p.after_seek(num, den, seek_now);
    let q = m.after_play(play_now);
    assert(m.cursor < m.sequence@.len());
    assert(q.pending() == m.pending());
    lemma_polls_stay_after(q, nows, t as int);
}

/// With looping on, the poll that empties the queue starts the sequence
/// over at once: still playing, at tick zero, with every event pending again.
pub proof fn lemma_loop_restarts(p: MidiPlayer, now: u64)
    requires
        p.wf(),
        p.loop_enabled,
        p.state == PlayState::Playing,
        p.due_at(now) == p.sequence@.len(),
    ensures
        ({
            let q = p.after_poll(now);
            &&& q.state == PlayState::Playing
            &&& q.current_position == 0
            &&& q.tick_at(now) == 0
            &&& q.pending() == p.sequence@
        }),
{
    let q = p.after_poll(now);
    assert(q.pending() =~= p.sequence@);
    assert(0 * (q.ticks_per_quarter as int) / (q.tempo as int) == 0) by (nonlinear_arith)
        requires q.tempo > 0;
}

/// Pausing after a poll and resuming at any later instant keeps the position
/// the poll reached; a poll at the instant of resuming finds that position
/// unchanged.
pub proof fn lemma_pause_resume(p: MidiPlayer, poll_at: u64, resume_at: u64)
    requires
        p.wf(),
        p.state == PlayState::Playing,
        p.after_poll(poll_at).state == PlayState::Playing,
    ensures
        ({
            let polled = p.after_poll(poll_at);
            let resumed = polled.after_pause().after_play(resume_at);
            &&& resumed.state == PlayState::Playing
            &&& resumed.current_position == polled.current_position
            &&& resumed.tick_at(resume_at) == polled.current_position
        }),
{
    lemma_due_end(p.sequence@, p.cursor as int, p.tick_at(poll_at));
    let polled = p.after_poll(poll_at);
    let resumed = polled.after_pause().after_play(resume_at);
    assert(0 * (resumed.ticks_per_quarter as int) / (resumed.tempo as int) == 0) by (nonlinear_arith)
        requires resumed.tempo > 0;
}

} // verus!
