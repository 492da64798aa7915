use vstd::prelude::*;

verus! {

/// A sounding voice: the note it plays and the handle the output backend
/// knows it by.
#[derive(Clone, Copy, Debug, PartialEq, Eq)]
pub struct Voice {
    pub note: u8,
    pub id: u64,
}

/// Work for the output backend, in the order given.
#[derive(Clone, Copy, Debug, PartialEq, Eq)]
pub enum VoiceCommand {
    /// Create voice `id` sounding `note` at `volume` percent.
    Start { id: u64, note: u8, volume: u8 },
    /// Silence and discard voice `id`.
    Stop { id: u64 },
    /// Set the volume of voice `id`, in percent.
    SetVolume { id: u64, volume: u8 },
}

/// The voices that stay once those whose handle is in `finished` are dropped.
pub open spec fn live_after(vs: Seq<Voice>, finished: Seq<u64>) -> Seq<Voice>
    decreases vs.len(),
{
    if vs.len() == 0 {
        vs
    } else {
        let rest = live_after(vs.drop_last(), finished);
        if finished.contains(vs.last().id) {
            rest
        } else {
            rest.push(vs.last())
        }
    }
}

/// Whether some voice of `vs` sounds `note`.
pub open spec fn sounds(vs: Seq<Voice>, note: u8) -> bool {
    exists|i: int| 0 <= i < vs.len() && #[trigger] vs[i].note == note
}

/// Where in `vs` the voice for `note` stands, when one sounds it.
pub open spec fn voice_index(vs: Seq<Voice>, note: u8) -> int {
    choose|i: int| 0 <= i < vs.len() && #[trigger] vs[i].note == note
}

/// `vs` without the voice for `note`.
pub open spec fn without_voice(vs: Seq<Voice>, note: u8) -> Seq<Voice> {
    if sounds(vs, note) { vs.remove(voice_index(vs, note)) } else { vs }
}

/// The command that silences the voice for `note`, if one sounds.
pub open spec fn stop_for(vs: Seq<Voice>, note: u8) -> Seq<VoiceCommand> {
    if sounds(vs, note) {
        seq![VoiceCommand::Stop { id: vs[voice_index(vs, note)].id }]
    } else {
        seq![]
    }
}

/// Tracks which voice sounds each note: at most one per note.
///
/// Each operation returns the commands that carry it out on the output
/// backend; the backend reports back which voices finished on their own.
#[derive(Debug)]
pub struct VoiceRegistry {
    pub voices: Vec<Voice>,
    pub next_id: u64,
    pub volume: u8,
}

impl VoiceRegistry {
    pub open spec fn wf(&self) -> bool {
        &&& self.volume <= 100
        &&& forall|i: int, j: int|
            0 <= i < self.voices@.len() && 0 <= j < self.voices@.len() && #[trigger] self.voices@[i].note
                == #[trigger] self.voices@[j].note ==> i == j
        &&& forall|i: int| 0 <= i < self.voices@.len() ==> #[trigger] self.voices@[i].id < self.next_id
    }

    /// Whether a voice sounds `note`.
    pub open spec fn sounding(&self, note: u8) -> bool {
        sounds(self.voices@, note)
    }

    /// An empty registry whose voices start at `volume` percent (at most 100).
    pub fn new(volume: u8) -> (r: VoiceRegistry)
        ensures
            r.wf(),
            r.voices@.len() == 0,
            r.next_id == 0,
            r.volume == if volume > 100 { 100 } else { volume },
    {
        VoiceRegistry { voices: Vec::new(), next_id: 0, volume: if volume > 100 { 100 } else { volume } }
    }

    fn position_of(&self, note: u8) -> (r: Option<usize>)
        requires
            self.wf(),
        ensures
            match r {
                Some(i) => i < self.voices@.len() && self.voices@[i as int].note == note,
                None => !self.sounding(note),
            },
    {
        let mut i: usize = 0;
        while i < self.voices.len()
            invariant
                i <= self.voices@.len(),
                forall|k: int| 0 <= k < i ==> #[trigger] self.voices@[k].note != note,
            decreases self.voices@.len() - i,
        {
            if self.voices[i].note == note {
                return Some(i);
            }
            i = i + 1;
        }
        None
    }

    /// Stops and removes the voice for `note`, if one sounds.
    pub fn note_off(&mut self, note: u8) -> (r: Vec<VoiceCommand>)
        requires
            old(self).wf(),
        ensures
            final(self).wf(),
            final(self).voices@ == without_voice(old(self).voices@, note),
            final(self).next_id == old(self).next_id,
            final(self).volume == old(self).volume,
            r@ == stop_for(old(self).voices@, note),
            !final(self).sounding(note),
    {
        let mut out: Vec<VoiceCommand> = Vec::new();
        match self.position_of(note) {
            None => {},
            Some(i) => {
                let ghost before = self.voices@;
                proof {
                    let j = voice_index(before, note);
                    assert(sounds(before, note));
                    assert(before[j].note == before[i as int].note);
                }
                let v = self.voices.remove(i);
                out.push(VoiceCommand::Stop { id: v.id });
                assert(out@ =~= seq![VoiceCommand::Stop { id: before[i as int].id }]);
                assert(!self.sounding(note)) by {
                    if self.sounding(note) {
                        let k = choose|k: int| 0 <= k < self.voices@.len() && #[trigger] self.voices@[k].note == note;
                        if k < i {
                            assert(before[k].note == before[i as int].note);
                        } else {
                            assert(before[k + 1].note == before[i as int].note);
                        }
                    }
                }
            },
        }
        out
    }

    /// Starts a voice for `note` at the registry's volume, first stopping the
    /// one that already sounds it. Once voice handles run out the note is
    /// dropped.
    pub fn note_on(&mut self, note: u8) -> (r: Vec<VoiceCommand>)
        requires
            old(self).wf(),
        ensures
            final(self).wf(),
            final(self).volume == old(self).volume,
            ({
                let id = old(self).next_id;
                let rest = without_voice(old(self).voices@, note);
                let stops = stop_for(old(self).voices@, note);
                if id < u64::MAX {
                    &&& final(self).voices@ == rest.push(Voice { note, id })
                    &&& final(self).next_id == id + 1
                    &&& r@ == stops.push(VoiceCommand::Start { id, note, volume: old(self).volume })
                    &&& final(self).sounding(note)
                } else {
                    &&& final(self).voices@ == rest
                    &&& final(self).next_id == id
                    &&& r@ == stops
                }
            }),
    {
        let mut out = self.note_off(note);
        let ghost mid = *self;
        if self.next_id == u64::MAX {
            return out;
        }
        let id = self.next_id;
        self.voices.push(Voice { note, id });
        self.next_id = id + 1;
        out.push(VoiceCommand::Start { id, note, volume: self.volume });
        proof {
            let n = self.voices@.len() - 1;
            assert(self.voices@[n].note == note);
            assert forall|i: int, j: int|
                0 <= i < self.voices@.len() && 0 <= j < self.voices@.len() && #[trigger] self.voices@[i].note
                    == #[trigger] self.voices@[j].note implies i == j by {
                if i == n && j != n {
                    assert(mid.voices@[j].note == note);
                } else if j == n && i != n {
                    assert(mid.voices@[i].note == note);
                } else if i != n && j != n {
                    assert(mid.voices@[i].note == mid.voices@[j].note);
                }
            }
        }
        out
    }

    /// Sets the volume, clamped to 100 percent, for every future voice and
    /// for each sounding one.
    pub fn set_volume(&mut self, volume: u8) -> (r: Vec<VoiceCommand>)
        requires
            old(self).wf(),
        ensures
            final(self).wf(),
            final(self).voices@ == old(self).voices@,
            final(self).next_id == old(self).next_id,
            final(self).volume == if volume > 100 { 100 } else { volume },
            r@ == old(self).voices@.map_values(|v: Voice| VoiceCommand::SetVolume { id: v.id, volume: final(self).volume }),
    {
        self.volume = if volume > 100 { 100 } else { volume };
        let mut out: Vec<VoiceCommand> = Vec::new();
        let mut i: usize = 0;
        while i < self.voices.len()
            invariant
                i <= self.voices@.len(),
                out@ == self.voices@.take(i as int).map_values(|v: Voice| VoiceCommand::SetVolume { id: v.id, volume: self.volume }),
            decreases self.voices@.len() - i,
        {
            out.push(VoiceCommand::SetVolume { id: self.voices[i].id, volume: self.volume });
            i = i + 1;
            assert(out@ =~= self.voices@.take(i as int).map_values(|v: Voice| VoiceCommand::SetVolume { id: v.id, volume: self.volume }));
        }
        assert(self.voices@.take(i as int) =~= self.voices@);
        out
    }

    pub fn get_volume(&self) -> (r: u8)
        ensures
            r == self.volume,
    {
        self.volume
    }

    /// Stops every voice.
    pub fn stop_all(&mut self) -> (r: Vec<VoiceCommand>)
        requires
            old(self).wf(),
        ensures
            final(self).wf(),
            final(self).voices@.len() == 0,
            final(self).next_id == old(self).next_id,
            final(self).volume == old(self).volume,
            r@ == old(self).voices@.map_values(|v: Voice| VoiceCommand::Stop { id: v.id }),
    {
        let mut out: Vec<VoiceCommand> = Vec::new();
        let mut i: usize = 0;
        while i < self.voices.len()
            invariant
                i <= self.voices@.len(),
                out@ == self.voices@.take(i as int).map_values(|v: Voice| VoiceCommand::Stop { id: v.id }),
            decreases self.voices@.len() - i,
        {
            out.push(VoiceCommand::Stop { id: self.voices[i].id });
            i = i + 1;
            assert(out@ =~= self.voices@.take(i as int).map_values(|v: Voice| VoiceCommand::Stop { id: v.id }));
        }
        assert(self.voices@.take(i as int) =~= self.voices@);
        self.voices = Vec::new();
        out
    }

    /// Forgets the voices that finished on their own: those whose handle the
    /// backend lists in `finished`. The others keep their order.
    pub fn cleanup(&mut self, finished: &Vec<u64>)
        requires
            old(self).wf(),
        ensures
            final(self).wf(),
            final(self).voices@ == live_after(old(self).voices@, finished@),
            final(self).next_id == old(self).next_id,
            final(self).volume == old(self).volume,
    {
        let ghost vs = self.voices@;
        let mut kept: Vec<Voice> = Vec::new();
        let mut i: usize = 0;
        while i < self.voices.len()
            invariant
                vs == self.voices@,
                i <= vs.len(),
                kept@ == live_after(vs.take(i as int), finished@),
                forall|k: int| 0 <= k < kept@.len() ==> exists|m: int| 0 <= m < i && #[trigger] kept@[k] == vs[m],
                forall|a: int, b: int| 0 <= a < b < kept@.len() ==> exists|x: int, y: int| 0 <= x < y < i && #[trigger] kept@[a] == vs[x] && #[trigger] kept@[b] == vs[y],
            decreases vs.len() - i,
        {
            let v = self.voices[i];
            let mut found = false;
            let mut j: usize = 0;
            while j < finished.len()
                invariant
                    j <= finished@.len(),
                    found == exists|k: int| 0 <= k < j && finished@[k] == v.id,
                decreases finished@.len() - j,
            {
                if finished[j] == v.id {
                    found = true;
                }
                j = j + 1;
            }
            assert(vs.take(i + 1).drop_last() =~= vs.take(i as int));
            assert(found == finished@.contains(v.id));
            if !found {
                kept.push(v);
            }
            i = i + 1;
        }
        assert(vs.take(i as int) =~= vs);
        self.voices = kept;
        proof {
            assert forall|a: int, b: int|
                0 <= a < self.voices@.len() && 0 <= b < self.voices@.len() && #[trigger] self.voices@[a].note
                    == #[trigger] self.voices@[b].note implies a == b by {
                if a < b {
                    let (x, y) = choose|x: int, y: int| 0 <= x < y < vs.len() && self.voices@[a] == vs[x] && self.voices@[b] == vs[y];
                    assert(vs[x].note == vs[y].note);
                } else if b < a {
                    let (x, y) = choose|x: int, y: int| 0 <= x < y < vs.len() && self.voices@[b] == vs[x] && self.voices@[a] == vs[y];
                    assert(vs[x].note == vs[y].note);
                }
            }
            assert forall|k: int| 0 <= k < self.voices@.len() implies #[trigger] self.voices@[k].id < self.next_id by {
                let m = choose|m: int| 0 <= m < vs.len() && self.voices@[k] == vs[m];
            }
        }
    }
}

/// A well-formed registry never holds two voices for one note: whatever
/// sequence of operations led to it, at most one voice sounds any note.
pub proof fn lemma_one_voice_per_note(r: VoiceRegistry, note: u8)
    requires
        r.wf(),
    ensures
        r.voices@.filter(|v: Voice| v.note == note).len() <= 1,
{
    lemma_unique_filter(r.voices@, note);
}

proof fn lemma_unique_filter(vs: Seq<Voice>, note: u8)
    requires
        forall|i: int, j: int|
            0 <= i < vs.len() && 0 <= j < vs.len() && #[trigger] vs[i].note == #[trigger] vs[j].note ==> i == j,
    ensures
        vs.filter(|v: Voice| v.note == note).len() <= 1,
    decreases vs.len(),
{
    reveal_with_fuel(Seq::filter, 1);
    if vs.len() > 0 {
        let pred = |v: Voice| v.note == note;
        let rest = vs.drop_last();
        lemma_unique_filter(rest, note);
        if vs.last().note == note {
            assert forall|k: int| 0 <= k < rest.len() implies #[trigger] rest[k].note != note by {
                assert(vs[k].note == rest[k].note);
                if rest[k].note == note {
                    assert(vs[k].note == vs[vs.len() - 1].note);
                }
            }
            lemma_filter_none(rest, note);
        }
    }
}

proof fn lemma_filter_none(vs: Seq<Voice>, note: u8)
    requires
        forall|k: int| 0 <= k < vs.len() ==> #[trigger] vs[k].note != note,
    ensures
        vs.filter(|v: Voice| v.note == note).len() == 0,
    decreases vs.len(),
{
    reveal_with_fuel(Seq::filter, 1);
    if vs.len() > 0 {
        let rest = vs.drop_last();
        assert forall|k: int| 0 <= k < rest.len() implies #[trigger] rest[k].note != note by {
            assert(vs[k].note == rest[k].note);
        }
        lemma_filter_none(rest, note);
    }
}

/// Cleaning up twice with the same finished voices leaves what cleaning up
/// once leaves.
pub proof fn lemma_cleanup_idempotent(vs: Seq<Voice>, finished: Seq<u64>)
    ensures
        live_after(live_after(vs, finished), finished) == live_after(vs, finished),
    decreases vs.len(),
{
    if vs.len() > 0 {
        lemma_cleanup_idempotent(vs.drop_last(), finished);
        let rest = live_after(vs.drop_last(), finished);
        if !finished.contains(vs.last().id) {
            assert(rest.push(vs.last()).drop_last() =~= rest);
        }
    }
}

} // verus!
