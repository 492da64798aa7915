use vstd::prelude::*;

verus! {

/// A live-performance event.
#[derive(Clone, Copy, Debug, PartialEq, Eq)]
pub enum RecordingEventType {
    NoteOn { midi_note: u8, velocity: u8 },
    NoteOff { midi_note: u8 },
    SustainPedal { pressed: bool },
}

/// An event stamped with its offset from the start of the capture, in
/// microseconds.
#[derive(Clone, Copy, Debug, PartialEq, Eq)]
pub struct RecordingEvent {
    pub timestamp: u64,
    pub event_type: RecordingEventType,
}

/// A captured performance. Offsets never decrease and never pass the
/// duration; `start_time` is the instant the capture began, in microseconds.
#[derive(Clone, Debug)]
pub struct Recording {
    pub events: Vec<RecordingEvent>,
    pub duration: u64,
    pub start_time: u64,
}

/// An event as it is stored: its offset in whole milliseconds.
#[derive(Clone, Copy, Debug, PartialEq, Eq)]
pub struct SavedEvent {
    pub offset_ms: u64,
    pub event: RecordingEventType,
}

/// A recording as it is stored.
#[derive(Clone, Debug)]
pub struct SavedRecording {
    pub events: Vec<SavedEvent>,
    pub duration_ms: u64,
}

pub open spec fn stamps_ordered(s: Seq<RecordingEvent>, duration: u64) -> bool {
    &&& forall|i: int, j: int| 0 <= i <= j < s.len() ==> s[i].timestamp <= s[j].timestamp
    &&& forall|i: int| 0 <= i < s.len() ==> #[trigger] s[i].timestamp <= duration
}

/// Microseconds since `start` at `now`; zero for an instant before it.
pub open spec fn since(start: u64, now: u64) -> u64 {
    if now >= start { (now - start) as u64 } else { 0 }
}

pub open spec fn saved_events(s: Seq<RecordingEvent>) -> Seq<SavedEvent> {
    s.map_values(|e: RecordingEvent| SavedEvent { offset_ms: e.timestamp / 1000, event: e.event_type })
}

/// A stored recording is accepted when its offsets never decrease, none
/// passes the duration, and the duration fits in microseconds.
pub open spec fn saved_valid(s: Seq<SavedEvent>, duration_ms: u64) -> bool {
    &&& forall|i: int, j: int| 0 <= i <= j < s.len() ==> s[i].offset_ms <= s[j].offset_ms
    &&& forall|i: int| 0 <= i < s.len() ==> #[trigger] s[i].offset_ms <= duration_ms
    &&& duration_ms * 1000 <= u64::MAX
}

pub open spec fn restored_events(s: Seq<SavedEvent>) -> Seq<RecordingEvent> {
    s.map_values(|e: SavedEvent| RecordingEvent { timestamp: (e.offset_ms * 1000) as u64, event_type: e.event })
}

impl Recording {
    pub open spec fn wf(&self) -> bool {
        stamps_ordered(self.events@, self.duration)
    }

    /// The offset that an event added at `now` receives: the time since the
    /// start, but never less than the last offset.
    pub open spec fn stamp_at(&self, now: u64) -> u64 {
        let t = since(self.start_time, now);
        if t > self.duration { t } else { self.duration }
    }

    /// An empty recording that starts at instant `now`.
    pub fn new(now: u64) -> (r: Recording)
        ensures
            r.wf(),
            r.events@.len() == 0,
            r.duration == 0,
            r.start_time == now,
    {
        Recording { events: Vec::new(), duration: 0, start_time: now }
    }

    /// Appends `event_type`, stamped with the time since the start.
    pub fn add_event(&mut self, event_type: RecordingEventType, now: u64)
        requires
            old(self).wf(),
        ensures
            final(self).wf(),
            final(self).events@ == old(self).events@.push(
                RecordingEvent { timestamp: old(self).stamp_at(now), event_type },
            ),
            final(self).duration == old(self).stamp_at(now),
            final(self).start_time == old(self).start_time,
    {
        let t = if now >= self.start_time { now - self.start_time } else { 0 };
        let stamp = if t > self.duration { t } else { self.duration };
        self.events.push(RecordingEvent { timestamp: stamp, event_type });
        self.duration = stamp;
    }

    /// Seals the recording at instant `now`.
    pub fn finish(&mut self, now: u64)
        requires
            old(self).wf(),
        ensures
            final(self).wf(),
            final(self).events@ == old(self).events@,
            final(self).duration == old(self).stamp_at(now),
            final(self).start_time == old(self).start_time,
    {
        let t = if now >= self.start_time { now - self.start_time } else { 0 };
        if t > self.duration {
            self.duration = t;
        }
    }

    /// The stored form: offsets and duration in whole milliseconds, rounded
    /// down.
    pub fn to_saved(&self) -> (r: SavedRecording)
        ensures
            r.events@ == saved_events(self.events@),
            r.duration_ms == self.duration / 1000,
    {
        let mut out: Vec<SavedEvent> = Vec::new();
        let mut i: usize = 0;
        while i < self.events.len()
            invariant
                i <= self.events@.len(),
                out@ == saved_events(self.events@.take(i as int)),
            decreases self.events@.len() - i,
        {
            let e = self.events[i];
            out.push(SavedEvent { offset_ms: e.timestamp / 1000, event: e.event_type });
            i = i + 1;
            assert(out@ =~= saved_events(self.events@.take(i as int)));
        }
        assert(self.events@.take(i as int) =~= self.events@);
        SavedRecording { events: out, duration_ms: self.duration / 1000 }
    }

    /// Rebuilds a recording from its stored form, starting at instant `now`;
    /// `None` when the stored form is not valid.
    pub fn from_saved(saved: &SavedRecording, now: u64) -> (r: Option<Recording>)
        ensures
            r is Some <==> saved_valid(saved.events@, saved.duration_ms),
            r matches Some(rec) ==> {
                &&& rec.wf()
                &&& rec.events@ == restored_events(saved.events@)
                &&& rec.duration == saved.duration_ms * 1000
                &&& rec.start_time == now
            },
    {
        if saved.duration_ms > u64::MAX / 1000 {
            return None;
        }
        let d = saved.duration_ms;
        let mut out: Vec<RecordingEvent> = Vec::new();
        let mut i: usize = 0;
        let mut last: u64 = 0;
        while i < saved.events.len()
            invariant
                i <= saved.events@.len(),
                d == saved.duration_ms,
                d * 1000 <= u64::MAX,
                forall|a: int, b: int| 0 <= a <= b < i ==> saved.events@[a].offset_ms <= saved.events@[b].offset_ms,
                forall|a: int| 0 <= a < i ==> #[trigger] saved.events@[a].offset_ms <= d,
                i > 0 ==> last == saved.events@[i - 1].offset_ms,
                out@ == restored_events(saved.events@.take(i as int)),
            decreases saved.events@.len() - i,
        {
            let e = saved.events[i];
            if e.offset_ms > d || (i > 0 && e.offset_ms < last) {
                return None;
            }
            proof {
                assert(e.offset_ms * 1000 <= d * 1000) by (nonlinear_arith)
                    requires e.offset_ms <= d;
            }
            out.push(RecordingEvent { timestamp: e.offset_ms * 1000, event_type: e.event });
            last = e.offset_ms;
            i = i + 1;
            assert(out@ =~= restored_events(saved.events@.take(i as int)));
        }
        assert(saved.events@.take(i as int) =~= saved.events@);
        let rec = Recording { events: out, duration: d * 1000, start_time: now };
        proof {
            assert forall|a: int, b: int| 0 <= a <= b < rec.events@.len() implies rec.events@[a].timestamp <= rec.events@[b].timestamp by {
                let x = saved.events@[a].offset_ms;
                let y = saved.events@[b].offset_ms;
                assert(x * 1000 <= y * 1000) by (nonlinear_arith)
                    requires x <= y;
            }
            assert forall|a: int| 0 <= a < rec.events@.len() implies #[trigger] rec.events@[a].timestamp <= rec.duration by {
                let x = saved.events@[a].offset_ms;
                assert(x * 1000 <= d * 1000) by (nonlinear_arith)
                    requires x <= d;
            }
        }
        Some(rec)
    }
}

/// `new` is `old` with `event_type` appended at instant `now`.
pub open spec fn appended(old: Recording, new: Recording, event_type: RecordingEventType, now: u64) -> bool {
    &&& new.events@ == old.events@.push(RecordingEvent { timestamp: old.stamp_at(now), event_type })
    &&& new.duration == old.stamp_at(now)
    &&& new.start_time == old.start_time
}

/// Captures a live performance: while a capture runs, each recorded event
/// is appended to it.
#[derive(Debug)]
pub struct MidiRecorder {
    pub recording: Option<Recording>,
    pub is_recording: bool,
}

impl MidiRecorder {
    pub open spec fn wf(&self) -> bool {
        &&& self.is_recording == self.recording is Some
        &&& self.recording matches Some(r) ==> r.wf()
    }

    /// What recording `event_type` at `now` does: appends it to a running
    /// capture, and nothing otherwise.
    pub open spec fn recorded(old: MidiRecorder, new: MidiRecorder, event_type: RecordingEventType, now: u64) -> bool {
        &&& new.is_recording == old.is_recording
        &&& match old.recording {
            None => new.recording is None,
            Some(r) => new.recording matches Some(n) && appended(r, n, event_type, now),
        }
    }

    pub fn new() -> (r: MidiRecorder)
        ensures
            r.wf(),
            !r.is_recording,
    {
        MidiRecorder { recording: None, is_recording: false }
    }

    /// Begins a capture at instant `now`; does nothing while one runs.
    pub fn start_recording(&mut self, now: u64)
        requires
            old(self).wf(),
        ensures
            final(self).wf(),
            final(self).is_recording,
            old(self).is_recording ==> *final(self) == *old(self),
            !old(self).is_recording ==> (final(self).recording matches Some(r) && r.events@.len() == 0
                && r.duration == 0 && r.start_time == now),
    {
        if !self.is_recording {
            self.recording = Some(Recording::new(now));
            self.is_recording = true;
        }
    }

    /// Ends the capture at instant `now` and hands over the sealed recording,
    /// if one was running.
    pub fn stop_recording(&mut self, now: u64) -> (r: Option<Recording>)
        requires
            old(self).wf(),
        ensures
            final(self).wf(),
            !final(self).is_recording,
            final(self).recording is None,
            match old(self).recording {
                None => r is None,
                Some(o) => r matches Some(n) && n.wf() && n.events@ == o.events@ && n.duration == o.stamp_at(now)
                    && n.start_time == o.start_time,
            },
    {
        self.is_recording = false;
        match self.recording.take() {
            None => None,
            Some(rec) => {
                let mut rec = rec;
                rec.finish(now);
                Some(rec)
            },
        }
    }

    fn record(&mut self, event_type: RecordingEventType, now: u64)
        requires
            old(self).wf(),
        ensures
            final(self).wf(),
            MidiRecorder::recorded(*old(self), *final(self), event_type, now),
    {
        match self.recording.take() {
            None => {},
            Some(rec) => {
                let mut rec = rec;
                rec.add_event(event_type, now);
                self.recording = Some(rec);
            },
        }
    }

    pub fn record_note_on(&mut self, midi_note: u8, velocity: u8, now: u64)
        requires
            old(self).wf(),
        ensures
            final(self).wf(),
            MidiRecorder::recorded(*old(self), *final(self), RecordingEventType::NoteOn { midi_note, velocity }, now),
    {
        self.record(RecordingEventType::NoteOn { midi_note, velocity }, now);
    }

    pub fn record_note_off(&mut self, midi_note: u8, now: u64)
        requires
            old(self).wf(),
        ensures
            final(self).wf(),
            MidiRecorder::recorded(*old(self), *final(self), RecordingEventType::NoteOff { midi_note }, now),
    {
        self.record(RecordingEventType::NoteOff { midi_note }, now);
    }

    pub fn record_sustain_pedal(&mut self, pressed: bool, now: u64)
        requires
            old(self).wf(),
        ensures
            final(self).wf(),
            MidiRecorder::recorded(*old(self), *final(self), RecordingEventType::SustainPedal { pressed }, now),
    {
        self.record(RecordingEventType::SustainPedal { pressed }, now);
    }

    /// Stops a running capture and returns it, or starts one and returns
    /// `None`.
    pub fn toggle_recording(&mut self, now: u64) -> (r: Option<Recording>)
        requires
            old(self).wf(),
        ensures
            final(self).wf(),
            final(self).is_recording == !old(self).is_recording,
            !old(self).is_recording ==> r is None && (final(self).recording matches Some(n)
                && n.events@.len() == 0 && n.start_time == now),
            old(self).is_recording ==> (r matches Some(n) && (old(self).recording matches Some(o)
                && n.wf() && n.events@ == o.events@ && n.duration == o.stamp_at(now) && n.start_time
                == o.start_time)),
            old(self).is_recording ==> final(self).recording is None,
    {
        if self.is_recording {
            self.stop_recording(now)
        } else {
            self.start_recording(now);
            None
        }
    }
}

/// Index of the first event at or after `i` whose offset exceeds
/// `elapsed`, stopping at the first one that does.
pub open spec fn replay_due_end(s: Seq<RecordingEvent>, i: int, elapsed: int) -> int
    decreases s.len() - i,
{
    if 0 <= i < s.len() && s[i].timestamp <= elapsed {
        replay_due_end(s, i + 1, elapsed)
    } else {
        i
    }
}

/// Replays a recording against the wall clock: a poll at instant `now`
/// delivers the events whose offset has been reached since `start_time`.
#[derive(Debug)]
pub struct Replay {
    pub events: Vec<RecordingEvent>,
    pub next: usize,
    pub start_time: u64,
    pub cancelled: bool,
}

impl Replay {
    pub open spec fn wf(&self) -> bool {
        self.next <= self.events@.len()
    }

    /// The events that a poll at `now` delivers.
    pub open spec fn due(&self, now: u64) -> Seq<RecordingEvent> {
        if self.cancelled {
            seq![]
        } else {
            self.events@.subrange(
                self.next as int,
                replay_due_end(self.events@, self.next as int, since(self.start_time, now) as int),
            )
        }
    }

    /// Starts replaying `recording` at instant `now`.
    pub fn new(recording: Recording, now: u64) -> (r: Replay)
        ensures
            r.wf(),
            r.events@ == recording.events@,
            r.next == 0,
            r.start_time == now,
            !r.cancelled,
    {
        Replay { events: recording.events, next: 0, start_time: now, cancelled: false }
    }

    /// Delivers, in offset order, every event due at instant `now` that was
    /// not delivered before; nothing once cancelled.
    pub fn poll(&mut self, now: u64) -> (r: Vec<RecordingEventType>)
        requires
            old(self).wf(),
        ensures
            final(self).wf(),
            r@ == old(self).due(now).map_values(|e: RecordingEvent| e.event_type),
            final(self).events@ == old(self).events@,
            final(self).start_time == old(self).start_time,
            final(self).cancelled == old(self).cancelled,
            final(self).next == old(self).next + old(self).due(now).len(),
    {
        let mut out: Vec<RecordingEventType> = Vec::new();
        if self.cancelled {
            return out;
        }
        let elapsed = if now >= self.start_time { now - self.start_time } else { 0 };
        let ghost s = self.events@;
        let ghost n0 = self.next as int;
        let mut c = self.next;
        while c < self.events.len() && self.events[c].timestamp <= elapsed
            invariant
                s == self.events@,
                0 <= n0 <= c <= s.len(),
                replay_due_end(s, c as int, elapsed as int) == replay_due_end(s, n0, elapsed as int),
                out@ == s.subrange(n0, c as int).map_values(|e: RecordingEvent| e.event_type),
            decreases s.len() - c,
        {
            let ghost old_c = c as int;
            out.push(self.events[c].event_type);
            c = c + 1;
            assert(s.subrange(n0, c as int) =~= s.subrange(n0, old_c).push(s[old_c]));
            assert(out@ =~= s.subrange(n0, c as int).map_values(|e: RecordingEvent| e.event_type));
        }
        self.next = c;
        out
    }

    /// Microseconds from `now` until the next event is due: `Some(0)` when
    /// one is due already, `None` when nothing is left to deliver.
    pub fn next_due_in(&self, now: u64) -> (r: Option<u64>)
        requires
            self.wf(),
        ensures
            (self.cancelled || self.next == self.events@.len()) <==> r is None,
            r matches Some(w) ==> ({
                let t = self.events@[self.next as int].timestamp;
                let e = since(self.start_time, now);
                w == if t > e { (t - e) as u64 } else { 0 }
            }),
    {
        if self.cancelled || self.next == self.events.len() {
            return None;
        }
        let t = self.events[self.next].timestamp;
        let e = if now >= self.start_time { now - self.start_time } else { 0 };
        Some(if t > e { t - e } else { 0 })
    }

    /// Stops the replay: no later poll delivers anything.
    pub fn cancel(&mut self)
        requires
            old(self).wf(),
        ensures
            final(self).wf(),
            final(self).cancelled,
            forall|now: u64| #[trigger] final(self).due(now) == Seq::<RecordingEvent>::empty(),
    {
        self.cancelled = true;
    }

    pub fn is_finished(&self) -> (r: bool)
        ensures
            r == (self.cancelled || self.next == self.events@.len()),
    {
        self.cancelled || self.next == self.events.len()
    }
}

/// Storing a recording and rebuilding it gives back the same events in the
/// same order, each offset rounded down to its millisecond: never later than
/// the recorded offset and less than one millisecond earlier.
pub proof fn lemma_save_restore(events: Seq<RecordingEvent>, duration: u64)
    requires
        stamps_ordered(events, duration),
    ensures
        saved_valid(saved_events(events), duration / 1000),
        ({
            let back = restored_events(saved_events(events));
            &&& back.len() == events.len()
            &&& forall|i: int| 0 <= i < events.len() ==> {
                &&& (#[trigger] back[i]).event_type == events[i].event_type
                &&& back[i].timestamp <= events[i].timestamp < back[i].timestamp + 1000
            }
        }),
{
    let s = saved_events(events);
    let dm = duration / 1000;
    assert forall|i: int, j: int| 0 <= i <= j < s.len() implies s[i].offset_ms <= s[j].offset_ms by {
        vstd::arithmetic::div_mod::lemma_div_is_ordered(events[i].timestamp as int, events[j].timestamp as int, 1000);
    }
    assert forall|i: int| 0 <= i < s.len() implies #[trigger] s[i].offset_ms <= dm by {
        vstd::arithmetic::div_mod::lemma_div_is_ordered(events[i].timestamp as int, duration as int, 1000);
    }
    assert(dm * 1000 <= duration) by {
        vstd::arithmetic::div_mod::lemma_fundamental_div_mod(duration as int, 1000);
    }
    let back = restored_events(s);
    assert forall|i: int| 0 <= i < events.len() implies {
        &&& (#[trigger] back[i]).event_type == events[i].event_type
        &&& back[i].timestamp <= events[i].timestamp < back[i].timestamp + 1000
    } by {
        let t = events[i].timestamp as int;
        vstd::arithmetic::div_mod::lemma_fundamental_div_mod(t, 1000);
        vstd::arithmetic::div_mod::lemma_mod_pos_bound(t, 1000);
        assert((t / 1000) * 1000 <= t);
    }
}

} // verus!
