use vstd::prelude::*;
use vstd::string::StrSliceExecFns;
use crate::capture::since;

verus! {

#[derive(Clone, Copy, Debug, PartialEq, Eq, Hash)]
pub enum NoteType {
    White,
    Black,
}

#[derive(Clone, Copy, Debug, PartialEq, Eq, Hash)]
pub enum NoteName {
    C,
    CSharp,
    D,
    DSharp,
    E,
    F,
    FSharp,
    G,
    GSharp,
    A,
    ASharp,
    B,
}

/// A note of the keyboard: its MIDI number, octave, name and key colour.
#[derive(Clone, Copy, Debug, PartialEq, Eq, Hash)]
pub struct Note {
    pub midi_note: u8,
    pub octave: u8,
    pub note_name: NoteName,
    pub note_type: NoteType,
}

/// The name of the pitch class `pc` (0 is C, 11 is B).
pub open spec fn name_of_class(pc: int) -> NoteName {
    if pc == 0 {
        NoteName::C
    } else if pc == 1 {
        NoteName::CSharp
    } else if pc == 2 {
        NoteName::D
    } else if pc == 3 {
        NoteName::DSharp
    } else if pc == 4 {
        NoteName::E
    } else if pc == 5 {
        NoteName::F
    } else if pc == 6 {
        NoteName::FSharp
    } else if pc == 7 {
        NoteName::G
    } else if pc == 8 {
        NoteName::GSharp
    } else if pc == 9 {
        NoteName::A
    } else if pc == 10 {
        NoteName::ASharp
    } else {
        NoteName::B
    }
}

pub open spec fn is_black_class(pc: int) -> bool {
    pc == 1 || pc == 3 || pc == 6 || pc == 8 || pc == 10
}

pub open spec fn name_text(n: NoteName) -> Seq<char> {
    match n {
        NoteName::C => seq!['C'],
        NoteName::CSharp => seq!['C', '#'],
        NoteName::D => seq!['D'],
        NoteName::DSharp => seq!['D', '#'],
        NoteName::E => seq!['E'],
        NoteName::F => seq!['F'],
        NoteName::FSharp => seq!['F', '#'],
        NoteName::G => seq!['G'],
        NoteName::GSharp => seq!['G', '#'],
        NoteName::A => seq!['A'],
        NoteName::ASharp => seq!['A', '#'],
        NoteName::B => seq!['B'],
    }
}

impl NoteName {
    /// The pitch class of a name, 0 for C up to 11 for B.
    pub open spec fn class(self) -> int {
        match self {
            NoteName::C => 0,
            NoteName::CSharp => 1,
            NoteName::D => 2,
            NoteName::DSharp => 3,
            NoteName::E => 4,
            NoteName::F => 5,
            NoteName::FSharp => 6,
            NoteName::G => 7,
            NoteName::GSharp => 8,
            NoteName::A => 9,
            NoteName::ASharp => 10,
            NoteName::B => 11,
        }
    }

    pub fn from_midi(midi_note: u8) -> (r: NoteName)
        ensures
            r == name_of_class(midi_note as int % 12),
            r.class() == midi_note as int % 12,
    {
        match midi_note % 12 {
            0 => NoteName::C,
            1 => NoteName::CSharp,
            2 => NoteName::D,
            3 => NoteName::DSharp,
            4 => NoteName::E,
            5 => NoteName::F,
            6 => NoteName::FSharp,
            7 => NoteName::G,
            8 => NoteName::GSharp,
            9 => NoteName::A,
            10 => NoteName::ASharp,
            _ => NoteName::B,
        }
    }

    pub fn is_black_key(&self) -> (r: bool)
        ensures
            r == is_black_class(self.class()),
    {
        match self {
            NoteName::CSharp | NoteName::DSharp | NoteName::FSharp | NoteName::GSharp | NoteName::ASharp => true,
            _ => false,
        }
    }

    pub fn to_string(&self) -> (r: &'static str)
        ensures
            r@ == name_text(*self),
    {
        proof {
            reveal_strlit("C");
            reveal_strlit("C#");
            reveal_strlit("D");
            reveal_strlit("D#");
            reveal_strlit("E");
            reveal_strlit("F");
            reveal_strlit("F#");
            reveal_strlit("G");
            reveal_strlit("G#");
            reveal_strlit("A");
            reveal_strlit("A#");
            reveal_strlit("B");
        }
        match self {
            NoteName::C => "C",
            NoteName::CSharp => "C#",
            NoteName::D => "D",
            NoteName::DSharp => "D#",
            NoteName::E => "E",
            NoteName::F => "F",
            NoteName::FSharp => "F#",
            NoteName::G => "G",
            NoteName::GSharp => "G#",
            NoteName::A => "A",
            NoteName::ASharp => "A#",
            NoteName::B => "B",
        }
    }
}

/// The note for MIDI number `m`.
pub open spec fn note_of(m: u8) -> Note {
    Note {
        midi_note: m,
        octave: (m / 12) as u8,
        note_name: name_of_class(m as int % 12),
        note_type: if is_black_class(m as int % 12) { NoteType::Black } else { NoteType::White },
    }
}

impl Note {
    pub fn new(midi_note: u8) -> (r: Note)
        ensures
            r == note_of(midi_note),
    {
        let note_name = NoteName::from_midi(midi_note);
        let octave = midi_note / 12;
        let note_type = if note_name.is_black_key() { NoteType::Black } else { NoteType::White };
        Note { midi_note, octave, note_name, note_type }
    }
}

/// Keys held down for this long without a release are let go.
pub const KEY_HOLD_US: u64 = 300000;

/// Highest selectable octave.
pub const MAX_OCTAVE: u8 = 8;

/// The two keyboard rows in pitch order: the first plays the twelve notes
/// of the current octave, the second the twelve above.
pub open spec fn row_keys() -> Seq<char> {
    seq!['q', '2', 'w', '3', 'e', 'r', '5', 't', '6', 'y', '7', 'u',
         'a', '1', 's', '4', 'd', 'f', '8', 'g', '-', 'h', '=', 'j']
}

/// Keys for the white notes below the current octave, and how far below.
pub open spec fn lower_keys() -> Seq<char> {
    seq!['z', 'x', 'c', 'v', 'b', 'n', 'm']
}

pub open spec fn lower_steps() -> Seq<u8> {
    seq![12u8, 10, 8, 7, 5, 3, 1]
}

/// The key mappings for `octave`, in the order they are listed: the two
/// rows from the octave's C upward, then the lower keys (never below note 0).
pub open spec fn key_table(octave: u8) -> Seq<(char, u8)> {
    let base = octave as int * 12;
    Seq::new(24, |k: int| (row_keys()[k], (base + k) as u8)) + Seq::new(
        7,
        |k: int| (lower_keys()[k], if base >= lower_steps()[k] { (base - lower_steps()[k]) as u8 } else { 0u8 }),
    )
}

/// The note mapped to `key` by the first mapping that lists it.
pub open spec fn lookup(maps: Seq<(char, u8)>, key: char) -> Option<u8>
    decreases maps.len(),
{
    if maps.len() == 0 {
        None
    } else if maps[0].0 == key {
        Some(maps[0].1)
    } else {
        lookup(maps.drop_first(), key)
    }
}

/// Live keyboard state: the current octave, the pressed notes with the
/// instant each was pressed (indexed by note), the sustain pedal, the volume
/// in percent and the key mappings of the current octave.
#[derive(Debug)]
pub struct Piano {
    pub current_octave: u8,
    pub pressed_keys: Vec<Option<u64>>,
    pub sustain_pedal: bool,
    pub volume: u8,
    pub key_mappings: Vec<(char, u8)>,
}

fn key_mappings_for(octave: u8) -> (r: Vec<(char, u8)>)
    requires
        octave <= MAX_OCTAVE,
    ensures
        r@ == key_table(octave),
{
    let rows: [char; 24] = ['q', '2', 'w', '3', 'e', 'r', '5', 't', '6', 'y', '7', 'u',
        'a', '1', 's', '4', 'd', 'f', '8', 'g', '-', 'h', '=', 'j'];
    let lower: [char; 7] = ['z', 'x', 'c', 'v', 'b', 'n', 'm'];
    let steps: [u8; 7] = [12, 10, 8, 7, 5, 3, 1];
    assert(rows@ == row_keys());
    assert(lower@ == lower_keys());
    assert(steps@ == lower_steps());
    let base: u8 = octave * 12;
    let mut out: Vec<(char, u8)> = Vec::new();
    let mut k: usize = 0;
    while k < 24
        invariant
            k <= 24,
            base == octave * 12,
            octave <= MAX_OCTAVE,
            rows@ == row_keys(),
            out@ == key_table(octave).take(k as int),
        decreases 24 - k,
    {
        out.push((rows[k], base + k as u8));
        k = k + 1;
        assert(out@ =~= key_table(octave).take(k as int));
    }
    let mut k: usize = 0;
    while k < 7
        invariant
            k <= 7,
            base == octave * 12,
            lower@ == lower_keys(),
            steps@ == lower_steps(),
            out@ == key_table(octave).take(24 + k),
        decreases 7 - k,
    {
        out.push((lower[k], base.saturating_sub(steps[k])));
        k = k + 1;
        assert(out@ =~= key_table(octave).take(24 + k));
    }
    assert(key_table(octave).take(31) =~= key_table(octave));
    out
}

impl Piano {
    pub open spec fn wf(&self) -> bool {
        &&& self.current_octave <= MAX_OCTAVE
        &&& self.pressed_keys@.len() == 256
        &&& self.volume <= 100
        &&& self.key_mappings@ == key_table(self.current_octave)
    }

    pub open spec fn is_pressed(&self, note: u8) -> bool {
        self.pressed_keys@[note as int] is Some
    }

    /// Octave 4, nothing pressed, sustain off, volume 70 percent.
    pub fn new() -> (r: Piano)
        ensures
            r.wf(),
            r.current_octave == 4,
            !r.sustain_pedal,
            r.volume == 70,
            forall|n: u8| !#[trigger] r.is_pressed(n),
    {
        let mut pressed: Vec<Option<u64>> = Vec::new();
        let mut i: usize = 0;
        while i < 256
            invariant
                i <= 256,
                pressed@.len() == i,
                forall|k: int| 0 <= k < i ==> #[trigger] pressed@[k] is None,
            decreases 256 - i,
        {
            pressed.push(None);
            i = i + 1;
        }
        Piano {
            current_octave: 4,
            pressed_keys: pressed,
            sustain_pedal: false,
            volume: 70,
            key_mappings: key_mappings_for(4),
        }
    }

    /// Marks `note` pressed at instant `now`.
    pub fn press_key(&mut self, note: u8, now: u64)
        requires
            old(self).wf(),
        ensures
            final(self).wf(),
            final(self).pressed_keys@ == old(self).pressed_keys@.update(note as int, Some(now)),
            final(self).current_octave == old(self).current_octave,
            final(self).sustain_pedal == old(self).sustain_pedal,
            final(self).volume == old(self).volume,
    {
        self.pressed_keys.set(note as usize, Some(now));
    }

    /// Releases `note`, unless the sustain pedal holds it.
    ///
    /// The pedal holds keys in this pressed set only: it keeps a released key
    /// shown as pressed until the pedal is let go. Sound is a separate matter;
    /// the voice of a released key is stopped whatever the pedal does, a
    /// deliberate choice that keeps the pedal a visual aid.
    pub fn release_key(&mut self, note: u8)
        requires
            old(self).wf(),
        ensures
            final(self).wf(),
            final(self).pressed_keys@ == if old(self).sustain_pedal {
                old(self).pressed_keys@
            } else {
                old(self).pressed_keys@.update(note as int, None)
            },
            final(self).current_octave == old(self).current_octave,
            final(self).sustain_pedal == old(self).sustain_pedal,
            final(self).volume == old(self).volume,
    {
        if !self.sustain_pedal {
            self.pressed_keys.set(note as usize, None);
        }
    }

    /// Flips the sustain pedal; letting it go releases every key.
    pub fn toggle_sustain(&mut self)
        requires
            old(self).wf(),
        ensures
            final(self).wf(),
            final(self).sustain_pedal == !old(self).sustain_pedal,
            old(self).sustain_pedal ==> forall|n: u8| !#[trigger] final(self).is_pressed(n),
            !old(self).sustain_pedal ==> final(self).pressed_keys@ == old(self).pressed_keys@,
            final(self).current_octave == old(self).current_octave,
            final(self).volume == old(self).volume,
    {
        self.sustain_pedal = !self.sustain_pedal;
        if !self.sustain_pedal {
            let mut i: usize = 0;
            while i < 256
                invariant
                    i <= 256,
                    self.pressed_keys@.len() == 256,
                    forall|k: int| 0 <= k < i ==> #[trigger] self.pressed_keys@[k] is None,
                    self.sustain_pedal == !old(self).sustain_pedal,
                    self.current_octave == old(self).current_octave,
                    self.volume == old(self).volume,
                    self.current_octave <= MAX_OCTAVE,
                    self.volume <= 100,
                    self.key_mappings@ == key_table(self.current_octave),
                decreases 256 - i,
            {
                self.pressed_keys.set(i, None);
                i = i + 1;
            }
        }
    }

    /// Moves the octave by `delta`, staying within 0 to 8, and remaps the keys.
    pub fn change_octave(&mut self, delta: i8)
        requires
            old(self).wf(),
        ensures
            final(self).wf(),
            final(self).current_octave == ({
                let t = old(self).current_octave as int + delta as int;
                if t < 0 { 0 } else if t > MAX_OCTAVE { MAX_OCTAVE as int } else { t }
            }),
            final(self).pressed_keys@ == old(self).pressed_keys@,
            final(self).sustain_pedal == old(self).sustain_pedal,
            final(self).volume == old(self).volume,
    {
        let t = self.current_octave as i16 + delta as i16;
        let new_octave: u8 = if t < 0 { 0 } else if t > MAX_OCTAVE as i16 { MAX_OCTAVE } else { t as u8 };
        if new_octave != self.current_octave {
            self.current_octave = new_octave;
            self.key_mappings = key_mappings_for(new_octave);
        }
    }

    /// Moves the volume by `delta` percent, staying within 0 to 100.
    pub fn adjust_volume(&mut self, delta: i8)
        requires
            old(self).wf(),
        ensures
            final(self).wf(),
            final(self).volume == ({
                let t = old(self).volume as int + delta as int;
                if t < 0 { 0 } else if t > 100 { 100 } else { t }
            }),
            final(self).pressed_keys@ == old(self).pressed_keys@,
            final(self).current_octave == old(self).current_octave,
            final(self).sustain_pedal == old(self).sustain_pedal,
    {
        let t = self.volume as i16 + delta as i16;
        self.volume = if t < 0 { 0 } else if t > 100 { 100 } else { t as u8 };
    }

    /// The note that keyboard key `key` plays in the current octave.
    pub fn get_midi_note_from_key(&self, key: char) -> (r: Option<u8>)
        requires
            self.wf(),
        ensures
            r == lookup(key_table(self.current_octave), key),
    {
        let mut i: usize = 0;
        assert(self.key_mappings@.subrange(0, self.key_mappings@.len() as int) =~= self.key_mappings@);
        while i < self.key_mappings.len()
            invariant
                self.wf(),
                i <= self.key_mappings@.len(),
                lookup(self.key_mappings@.subrange(i as int, self.key_mappings@.len() as int), key)
                    == lookup(self.key_mappings@, key),
            decreases self.key_mappings@.len() - i,
        {
            let (c, n) = self.key_mappings[i];
            assert(self.key_mappings@.subrange(i as int, self.key_mappings@.len() as int).drop_first()
                =~= self.key_mappings@.subrange(i + 1, self.key_mappings@.len() as int));
            if c == key {
                assert(self.key_mappings@.subrange(i as int, self.key_mappings@.len() as int)[0] == (c, n));
                return Some(n);
            }
            i = i + 1;
        }
        None
    }

    /// First and one-past-last note of the current octave.
    pub fn get_octave_range(&self) -> (r: (u8, u8))
        requires
            self.wf(),
        ensures
            r.0 == self.current_octave * 12,
            r.1 == self.current_octave * 12 + 12,
    {
        let start = self.current_octave * 12;
        (start, start + 12)
    }

    /// Without the sustain pedal, lets go of every key held for 300 ms or
    /// more at instant `now`.
    pub fn update(&mut self, now: u64)
        requires
            old(self).wf(),
        ensures
            final(self).wf(),
            old(self).sustain_pedal ==> final(self).pressed_keys@ == old(self).pressed_keys@,
            !old(self).sustain_pedal ==> forall|n: u8| #[trigger] final(self).pressed_keys@[n as int] == match old(self).pressed_keys@[n as int] {
                Some(t) => if since(t, now) < KEY_HOLD_US { Some(t) } else { None },
                None => None,
            },
            final(self).current_octave == old(self).current_octave,
            final(self).sustain_pedal == old(self).sustain_pedal,
            final(self).volume == old(self).volume,
    {
        if self.sustain_pedal {
            return;
        }
        let ghost before = self.pressed_keys@;
        let mut i: usize = 0;
        while i < 256
            invariant
                i <= 256,
                self.pressed_keys@.len() == 256,
                before.len() == 256,
                forall|k: int| 0 <= k < i ==> #[trigger] self.pressed_keys@[k] == match before[k] {
                    Some(t) => if since(t, now) < KEY_HOLD_US { Some(t) } else { None },
                    None => None,
                },
                forall|k: int| i <= k < 256 ==> #[trigger] self.pressed_keys@[k] == before[k],
                self.sustain_pedal == old(self).sustain_pedal,
                !self.sustain_pedal,
                self.current_octave == old(self).current_octave,
                self.volume == old(self).volume,
                self.current_octave <= MAX_OCTAVE,
                self.volume <= 100,
                self.key_mappings@ == key_table(self.current_octave),
            decreases 256 - i,
        {
            match self.pressed_keys[i] {
                Some(t) => {
                    let held = if now >= t { now - t } else { 0 };
                    if held >= KEY_HOLD_US {
                        self.pressed_keys.set(i, None);
                    }
                },
                None => {},
            }
            i = i + 1;
        }
    }

    /// Every key mapping with its note and whether that note is pressed,
    /// ordered by note (mappings to one note keep their order).
    pub fn get_key_layout(&self) -> (r: Vec<(char, Note, bool)>)
        requires
            self.wf(),
        ensures
            r@ == layout_below(self.key_mappings@, self.pressed_keys@, 256),
    {
        let maps = &self.key_mappings;
        let mut out: Vec<(char, Note, bool)> = Vec::new();
        let mut n: usize = 0;
        while n < 256
            invariant
                self.wf(),
                n <= 256,
                maps@ == self.key_mappings@,
                out@ == layout_below(maps@, self.pressed_keys@, n as int),
            decreases 256 - n,
        {
            let ghost pred = |m: (char, u8)| m.1 == n as u8;
            let ghost entry = |m: (char, u8)| layout_entry(m, self.pressed_keys@);
            let ghost start = out@;
            let mut j: usize = 0;
            while j < maps.len()
                invariant
                    self.wf(),
                    n < 256,
                    j <= maps@.len(),
                    maps@ == self.key_mappings@,
                    pred == (|m: (char, u8)| m.1 == n as u8),
                    entry == (|m: (char, u8)| layout_entry(m, self.pressed_keys@)),
                    out@ == start + maps@.take(j as int).filter(pred).map_values(entry),
                decreases maps@.len() - j,
            {
                let (c, m) = maps[j];
                proof {
                    assert(maps@.take(j + 1) =~= maps@.take(j as int).push((c, m)));
                    lemma_filter_push(maps@.take(j as int), (c, m), pred);
                }
                if m as usize == n {
                    let note = Note::new(m);
                    let pressed = self.pressed_keys[m as usize].is_some();
                    out.push((c, note, pressed));
                    assert(out@ =~= start + maps@.take(j + 1).filter(pred).map_values(entry));
                } else {
                    assert(out@ =~= start + maps@.take(j + 1).filter(pred).map_values(entry));
                }
                j = j + 1;
            }
            assert(maps@.take(j as int) =~= maps@);
            assert(pred == (|m: (char, u8)| m.1 == (n + 1) - 1));
            n = n + 1;
        }
        out
    }
}

/// The first key that a mapping list binds to `note`.
pub open spec fn key_for(maps: Seq<(char, u8)>, note: u8) -> Option<char>
    decreases maps.len(),
{
    if maps.len() == 0 {
        None
    } else if maps[0].1 == note {
        Some(maps[0].0)
    } else {
        key_for(maps.drop_first(), note)
    }
}

pub open spec fn layout_entry(m: (char, u8), pressed: Seq<Option<u64>>) -> (char, Note, bool) {
    (m.0, note_of(m.1), pressed[m.1 as int] is Some)
}

/// The mappings to notes below `n`, grouped by note from the lowest up,
/// each group in mapping order, with each note's key state.
pub open spec fn layout_below(maps: Seq<(char, u8)>, pressed: Seq<Option<u64>>, n: int) -> Seq<(char, Note, bool)>
    decreases n,
{
    if n <= 0 {
        seq![]
    } else {
        layout_below(maps, pressed, n - 1) + maps.filter(|m: (char, u8)| m.1 == n - 1).map_values(
            |m: (char, u8)| layout_entry(m, pressed),
        )
    }
}

proof fn lemma_filter_push<A>(s: Seq<A>, x: A, pred: spec_fn(A) -> bool)
    ensures
        s.push(x).filter(pred) == if pred(x) { s.filter(pred).push(x) } else { s.filter(pred) },
{
    reveal_with_fuel(Seq::filter, 1);
    assert(s.push(x).drop_last() =~= s);
}

/// Pitch classes of the white keys of an octave, and of the black keys.
pub open spec fn white_classes() -> Seq<int> {
    seq![0int, 2, 4, 5, 7, 9, 11]
}

pub open spec fn black_classes() -> Seq<int> {
    seq![1int, 3, 6, 8, 10]
}

/// For each black key of an octave, how many white keys of the octave lie
/// below it.
pub open spec fn whites_below_black() -> Seq<int> {
    seq![1int, 2, 4, 5, 6]
}

pub open spec fn usable_width(w: u16) -> int {
    if w >= 4 { w - 4 } else { 0 }
}

/// Octaves drawn in a terminal `w` columns wide: as many as fit with keys
/// six columns wide, at least two and at most seven.
pub open spec fn layout_octaves(w: u16) -> int {
    let fit = usable_width(w) / 6 / 7;
    if fit < 2 { 2 } else if fit > 7 { 7 } else { fit }
}

pub open spec fn white_width(w: u16) -> int {
    usable_width(w) / (layout_octaves(w) * 7)
}

/// Black keys are three fifths as wide as white keys, and at least three
/// columns.
pub open spec fn black_width(w: u16) -> int {
    let b = white_width(w) * 3 / 5;
    if b < 3 { 3 } else { b }
}

/// One past the highest note drawn.
pub open spec fn layout_end(w: u16) -> int {
    let e = 48 + 12 * layout_octaves(w);
    if e > 127 { 127 } else { e }
}

pub open spec fn white_key_at(piano: &Piano, w: u16, o: int, k: int) -> WhiteKey {
    let m = (48 + 12 * o + white_classes()[k]) as u8;
    WhiteKey {
        note: note_of(m),
        x: (2 + (7 * o + k) * white_width(w)) as u16,
        width: white_width(w) as u16,
        is_pressed: piano.is_pressed(m),
        key_char: key_for(piano.key_mappings@, m),
    }
}

pub open spec fn black_key_at(piano: &Piano, w: u16, o: int, k: int) -> BlackKey {
    let m = (48 + 12 * o + black_classes()[k]) as u8;
    let below = 7 * o + whites_below_black()[k];
    BlackKey {
        note: note_of(m),
        x: (2 + (below - 1) * white_width(w) + white_width(w) - black_width(w) / 2) as u16,
        width: black_width(w) as u16,
        is_pressed: piano.is_pressed(m),
        key_char: key_for(piano.key_mappings@, m),
    }
}

/// A white key of the on-screen keyboard: its note, left column and width.
#[derive(Clone, Copy, Debug, PartialEq, Eq)]
pub struct WhiteKey {
    pub note: Note,
    pub x: u16,
    pub width: u16,
    pub is_pressed: bool,
    pub key_char: Option<char>,
}

/// A black key of the on-screen keyboard, drawn across the boundary of the
/// white keys around it.
#[derive(Clone, Copy, Debug, PartialEq, Eq)]
pub struct BlackKey {
    pub note: Note,
    pub x: u16,
    pub width: u16,
    pub is_pressed: bool,
    pub key_char: Option<char>,
}

/// The on-screen keyboard for a terminal of a given width.
#[derive(Clone, Debug)]
pub struct PianoLayout {
    pub white_keys: Vec<WhiteKey>,
    pub black_keys: Vec<BlackKey>,
    pub width: u16,
    pub height: u16,
}

pub open spec fn white_note(o: int, k: int) -> int {
    48 + 12 * o + white_classes()[k]
}

pub open spec fn black_note(o: int, k: int) -> int {
    48 + 12 * o + black_classes()[k]
}

/// Index of the `k`-th white key of octave `o` among all white keys.
pub open spec fn white_slot(o: int, k: int) -> int {
    7 * o + k
}

/// Index of the `k`-th black key of octave `o` among all black keys.
pub open spec fn black_slot(o: int, k: int) -> int {
    5 * o + k
}

/// How many white (or black) pitch classes lie below `pc`.
pub open spec fn white_rank(pc: int) -> int {
    if pc <= 0 { 0 } else if pc <= 2 { 1 } else if pc <= 4 { 2 } else if pc <= 5 { 3 } else if pc <= 7 { 4 } else if pc <= 9 { 5 } else { 6 }
}

pub open spec fn black_rank(pc: int) -> int {
    if pc <= 1 { 0 } else if pc <= 3 { 1 } else if pc <= 6 { 2 } else if pc <= 8 { 3 } else { 4 }
}

proof fn lemma_class_tables()
    ensures
        forall|k: int| 0 <= k < 7 ==> 0 <= #[trigger] white_classes()[k] <= 11 && !is_black_class(white_classes()[k])
            && white_rank(white_classes()[k]) == k,
        forall|k: int| 0 <= k < 5 ==> 1 <= #[trigger] black_classes()[k] <= 10 && is_black_class(black_classes()[k])
            && black_rank(black_classes()[k]) == k,
        forall|k: int| 1 <= k < 7 ==> white_classes()[k - 1] < #[trigger] white_classes()[k],
        forall|k: int| 0 <= k < 5 ==> {
            let w = #[trigger] whites_below_black()[k];
            &&& 1 <= w < 7
            &&& white_classes()[w - 1] < black_classes()[k] < white_classes()[w]
        },
        forall|pc: int| 0 <= pc < 12 && !is_black_class(pc) ==> 0 <= #[trigger] white_rank(pc) < 7
            && white_classes()[white_rank(pc)] == pc,
        forall|pc: int| 0 <= pc < 12 && is_black_class(pc) ==> 0 <= #[trigger] black_rank(pc) < 5
            && black_classes()[black_rank(pc)] == pc && whites_below_black()[black_rank(pc)] == white_rank(pc),
{
    assert(white_classes()[0] == 0 && white_classes()[1] == 2 && white_classes()[2] == 4 && white_classes()[3] == 5
        && white_classes()[4] == 7 && white_classes()[5] == 9 && white_classes()[6] == 11);
    assert(black_classes()[0] == 1 && black_classes()[1] == 3 && black_classes()[2] == 6 && black_classes()[3] == 8
        && black_classes()[4] == 10);
    assert(whites_below_black()[0] == 1 && whites_below_black()[1] == 2 && whites_below_black()[2] == 4
        && whites_below_black()[3] == 5 && whites_below_black()[4] == 6);
}

fn first_key_for(maps: &Vec<(char, u8)>, note: u8) -> (r: Option<char>)
    ensures
        r == key_for(maps@, note),
{
    let mut i: usize = 0;
    assert(maps@.subrange(0, maps@.len() as int) =~= maps@);
    while i < maps.len()
        invariant
            i <= maps@.len(),
            key_for(maps@.subrange(i as int, maps@.len() as int), note) == key_for(maps@, note),
        decreases maps@.len() - i,
    {
        let (c, n) = maps[i];
        assert(maps@.subrange(i as int, maps@.len() as int).drop_first() =~= maps@.subrange(i + 1, maps@.len() as int));
        if n == note {
            assert(maps@.subrange(i as int, maps@.len() as int)[0] == (c, n));
            return Some(c);
        }
        i = i + 1;
    }
    None
}

impl PianoLayout {
    /// Lays out the keyboard from C3 upward for a terminal `terminal_width`
    /// columns wide: the white keys side by side from column 2, each black
    /// key centred on the right edge of the white key below it, and for each
    /// key whether it is pressed and which keyboard key plays it.
    #[verifier::rlimit(60)]
    pub fn new(piano: &Piano, terminal_width: u16) -> (r: PianoLayout)
        requires
            piano.wf(),
        ensures
            r.width == terminal_width,
            r.height == 12,
            forall|o: int, k: int|
                0 <= o && 0 <= k < 7 ==> (#[trigger] white_slot(o, k) < r.white_keys@.len() <==> white_note(o, k)
                    < layout_end(terminal_width)),
            forall|o: int, k: int|
                0 <= o && 0 <= k < 7 && #[trigger] white_slot(o, k) < r.white_keys@.len() ==> r.white_keys@[white_slot(o, k)]
                    == white_key_at(piano, terminal_width, o, k),
            forall|o: int, k: int|
                0 <= o && 0 <= k < 5 ==> (#[trigger] black_slot(o, k) < r.black_keys@.len() <==> black_note(o, k)
                    < layout_end(terminal_width)),
            forall|o: int, k: int|
                0 <= o && 0 <= k < 5 && #[trigger] black_slot(o, k) < r.black_keys@.len() ==> r.black_keys@[black_slot(o, k)]
                    == black_key_at(piano, terminal_width, o, k),
    {
        let w = terminal_width;
        let usable = w.saturating_sub(4);
        let fit = usable / 6 / 7;
        let octaves: u16 = if fit < 2 { 2 } else if fit > 7 { 7 } else { fit };
        let kw = usable / (octaves * 7);
        proof {
            let (u, d, q) = (usable as int, octaves as int * 7, kw as int);
            assert(q * d <= u) by (nonlinear_arith)
                requires q == u / d, d > 0, u >= 0;
            assert(q * 3 <= u) by (nonlinear_arith)
                requires q * d <= u, d >= 14, q >= 0;
        }
        let b = kw * 3 / 5;
        let bw = if b < 3 { 3 } else { b };
        proof {
            lemma_class_tables();
            assert(usable == usable_width(w));
            assert(octaves == layout_octaves(w));
            assert(kw == white_width(w));
            let (u, d, q) = (usable as int, octaves as int * 7, kw as int);
            assert(q * d <= u) by (nonlinear_arith)
                requires q == u / d, d > 0, u >= 0;
            assert(bw == black_width(w));
            assert(usable <= 65531);
        }
        let mut white_keys: Vec<WhiteKey> = Vec::new();
        let mut black_keys: Vec<BlackKey> = Vec::new();
        let mut o: u16 = 0;
        while o < octaves
            invariant
                piano.wf(),
                octaves == layout_octaves(w),
                2 <= octaves <= 7,
                kw == white_width(w),
                bw == black_width(w),
                kw * (octaves * 7) <= usable,
                usable <= 65531,
                o <= octaves,
                forall|o2: int, k: int|
                    0 <= o2 && 0 <= k < 7 ==> (#[trigger] white_slot(o2, k) < white_keys@.len() <==> white_note(o2, k)
                        < (if 48 + 12 * o > 127 { 127 } else { 48 + 12 * o })),
                forall|o2: int, k: int|
                    0 <= o2 && 0 <= k < 7 && #[trigger] white_slot(o2, k) < white_keys@.len() ==> white_keys@[white_slot(o2, k)]
                        == white_key_at(piano, w, o2, k),
                forall|o2: int, k: int|
                    0 <= o2 && 0 <= k < 5 ==> (#[trigger] black_slot(o2, k) < black_keys@.len() <==> black_note(o2, k)
                        < (if 48 + 12 * o > 127 { 127 } else { 48 + 12 * o })),
                forall|o2: int, k: int|
                    0 <= o2 && 0 <= k < 5 && #[trigger] black_slot(o2, k) < black_keys@.len() ==> black_keys@[black_slot(o2, k)]
                        == black_key_at(piano, w, o2, k),
            decreases octaves - o,
        {
            let mut pc: u16 = 0;
            while pc < 12
                invariant
                    piano.wf(),
                    octaves == layout_octaves(w),
                    2 <= octaves <= 7,
                    kw == white_width(w),
                    bw == black_width(w),
                    kw * (octaves * 7) <= usable,
                    usable <= 65531,
                    o < octaves,
                    pc <= 12,
                    forall|o2: int, k: int|
                        0 <= o2 && 0 <= k < 7 ==> (#[trigger] white_slot(o2, k) < white_keys@.len() <==> white_note(o2, k)
                            < (if 48 + 12 * o + pc > 127 { 127 } else { 48 + 12 * o + pc })),
                    forall|o2: int, k: int|
                        0 <= o2 && 0 <= k < 7 && #[trigger] white_slot(o2, k) < white_keys@.len() ==> white_keys@[white_slot(o2, k)]
                            == white_key_at(piano, w, o2, k),
                    forall|o2: int, k: int|
                        0 <= o2 && 0 <= k < 5 ==> (#[trigger] black_slot(o2, k) < black_keys@.len() <==> black_note(o2, k)
                            < (if 48 + 12 * o + pc > 127 { 127 } else { 48 + 12 * o + pc })),
                    forall|o2: int, k: int|
                        0 <= o2 && 0 <= k < 5 && #[trigger] black_slot(o2, k) < black_keys@.len() ==> black_keys@[black_slot(o2, k)]
                            == black_key_at(piano, w, o2, k),
                decreases 12 - pc,
            {
                let m = 48 + 12 * o + pc;
                if m < 127 {
                    let note = Note::new(m as u8);
                    let is_pressed = piano.pressed_keys[m as usize].is_some();
                    let key_char = first_key_for(&piano.key_mappings, m as u8);
                    let black = pc == 1 || pc == 3 || pc == 6 || pc == 8 || pc == 10;
                    proof {
                        assert(pc as int == (m as int) % 12 && m as int / 12 == 4 + o);
                    }
                    if !black {
                        let ghost k0 = white_rank(pc as int);
                        let wi = white_keys.len() as u16;
                        proof {
                            assert(white_note(o as int, k0) == m);
                            assert(white_slot(o as int, k0) >= white_keys@.len());
                            if k0 > 0 {
                                assert(white_slot(o as int, k0 - 1) < white_keys@.len());
                            } else if o > 0 {
                                assert(white_note(o - 1, 6) < m);
                                assert(white_slot(o - 1, 6) < white_keys@.len());
                            }
                            assert(wi == 7 * o + k0);
                            assert(wi * kw <= usable) by (nonlinear_arith)
                                requires wi <= octaves * 7, kw >= 0, kw * (octaves * 7) <= usable;
                        }
                        white_keys.push(WhiteKey { note, x: 2 + wi * kw, width: kw, is_pressed, key_char });
                        proof {
                            assert forall|o2: int, k: int|
                                0 <= o2 && 0 <= k < 7 implies (#[trigger] white_slot(o2, k) < white_keys@.len() <==> white_note(o2, k)
                                    < (if 48 + 12 * o + pc + 1 > 127 { 127 } else { 48 + 12 * o + pc + 1 })) by {
                                if white_note(o2, k) == m {
                                    assert(o2 == o);
                                }
                            }
                            assert forall|o2: int, k: int|
                                0 <= o2 && 0 <= k < 5 implies (#[trigger] black_slot(o2, k) < black_keys@.len() <==> black_note(o2, k)
                                    < (if 48 + 12 * o + pc + 1 > 127 { 127 } else { 48 + 12 * o + pc + 1 })) by {
                                if black_note(o2, k) == m {
                                    assert(o2 == o);
                                }
                            }
                        }
                    } else {
                        let ghost k0 = black_rank(pc as int);
                        let wi = white_keys.len() as u16;
                        proof {
                            let wb = whites_below_black()[k0];
                            assert(black_note(o as int, k0) == m);
                            assert(black_slot(o as int, k0) >= black_keys@.len());
                            if k0 > 0 {
                                assert(black_slot(o as int, k0 - 1) < black_keys@.len());
                            } else if o > 0 {
                                assert(black_note(o - 1, 4) < m);
                                assert(black_slot(o - 1, 4) < black_keys@.len());
                            }
                            assert(white_note(o as int, wb) > m);
                            assert(white_slot(o as int, wb) >= white_keys@.len());
                            assert(white_note(o as int, wb - 1) < m);
                            assert(white_slot(o as int, wb - 1) < white_keys@.len());
                            assert(wi == 7 * o + wb);
                            assert(wi * kw <= usable) by (nonlinear_arith)
                                requires wi <= octaves * 7, kw >= 0, kw * (octaves * 7) <= usable;
                            assert((wi - 1) * kw + kw == wi * kw) by (nonlinear_arith);
                        }
                        let wx = if wi > 0 { 2 + (wi - 1) * kw } else { 2 };
                        let x = wx + kw - bw / 2;
                        black_keys.push(BlackKey { note, x, width: bw, is_pressed, key_char });
                        proof {
                            assert forall|o2: int, k: int|
                                0 <= o2 && 0 <= k < 7 implies (#[trigger] white_slot(o2, k) < white_keys@.len() <==> white_note(o2, k)
                                    < (if 48 + 12 * o + pc + 1 > 127 { 127 } else { 48 + 12 * o + pc + 1 })) by {
                                if white_note(o2, k) == m {
                                    assert(o2 == o);
                                }
                            }
                            assert forall|o2: int, k: int|
                                0 <= o2 && 0 <= k < 5 implies (#[trigger] black_slot(o2, k) < black_keys@.len() <==> black_note(o2, k)
                                    < (if 48 + 12 * o + pc + 1 > 127 { 127 } else { 48 + 12 * o + pc + 1 })) by {
                                if black_note(o2, k) == m {
                                    assert(o2 == o);
                                }
                            }
                        }
                    }
                }
                pc = pc + 1;
            }
            o = o + 1;
        }
        PianoLayout { white_keys, black_keys, width: w, height: 12 }
    }
}

/// Why a note name could not be turned into a MIDI number.
#[derive(Clone, Copy, Debug, PartialEq, Eq)]
pub enum NoteError {
    /// Not one of C, C#/Db, D, D#/Eb, E, F, F#/Gb, G, G#/Ab, A, A#/Bb, B.
    InvalidName,
    /// The note lies above MIDI number 255.
    OutOfRange,
}

/// Pitch class of a natural note letter, in either case.
pub open spec fn letter_class(c: char) -> Option<int> {
    if c == 'C' || c == 'c' {
        Some(0)
    } else if c == 'D' || c == 'd' {
        Some(2)
    } else if c == 'E' || c == 'e' {
        Some(4)
    } else if c == 'F' || c == 'f' {
        Some(5)
    } else if c == 'G' || c == 'g' {
        Some(7)
    } else if c == 'A' || c == 'a' {
        Some(9)
    } else if c == 'B' || c == 'b' {
        Some(11)
    } else {
        None
    }
}

/// Pitch class named by `s`, letters in either case: a letter, a letter
/// with `#` (C, D, F, G, A), or a letter with `b` for flat (D, E, G, A, B).
pub open spec fn name_class(s: Seq<char>) -> Option<int> {
    if s.len() == 1 {
        letter_class(s[0])
    } else if s.len() == 2 {
        match letter_class(s[0]) {
            Some(b) => if s[1] == '#' && (b == 0 || b == 2 || b == 5 || b == 7 || b == 9) {
                Some(b + 1)
            } else if (s[1] == 'b' || s[1] == 'B') && (b == 2 || b == 4 || b == 7 || b == 9 || b == 11) {
                Some(b - 1)
            } else {
                None
            },
            None => None,
        }
    } else {
        None
    }
}

fn letter_value(c: char) -> (r: Option<u8>)
    ensures
        match letter_class(c) {
            Some(v) => r == Some(v as u8),
            None => r is None,
        },
{
    if c == 'C' || c == 'c' {
        Some(0)
    } else if c == 'D' || c == 'd' {
        Some(2)
    } else if c == 'E' || c == 'e' {
        Some(4)
    } else if c == 'F' || c == 'f' {
        Some(5)
    } else if c == 'G' || c == 'g' {
        Some(7)
    } else if c == 'A' || c == 'a' {
        Some(9)
    } else if c == 'B' || c == 'b' {
        Some(11)
    } else {
        None
    }
}

/// The MIDI number of `note_name` in `octave`: twelve per octave plus the
/// pitch class. Names match regardless of letter case.
pub fn note_name_to_midi_note(note_name: &str, octave: u8) -> (r: Result<u8, NoteError>)
    ensures
        match name_class(note_name@) {
            None => r == Err::<u8, NoteError>(NoteError::InvalidName),
            Some(pc) => if octave as int * 12 + pc <= 255 {
                r == Ok::<u8, NoteError>((octave as int * 12 + pc) as u8)
            } else {
                r == Err::<u8, NoteError>(NoteError::OutOfRange)
            },
        },
{
    let n = note_name.unicode_len();
    let class: u8 = if n == 1 {
        match letter_value(note_name.get_char(0)) {
            Some(b) => b,
            None => return Err(NoteError::InvalidName),
        }
    } else if n == 2 {
        let b = match letter_value(note_name.get_char(0)) {
            Some(b) => b,
            None => return Err(NoteError::InvalidName),
        };
        let m = note_name.get_char(1);
        if m == '#' && (b == 0 || b == 2 || b == 5 || b == 7 || b == 9) {
            b + 1
        } else if (m == 'b' || m == 'B') && (b == 2 || b == 4 || b == 7 || b == 9 || b == 11) {
            b - 1
        } else {
            return Err(NoteError::InvalidName);
        }
    } else {
        return Err(NoteError::InvalidName);
    };
    let total: u16 = octave as u16 * 12 + class as u16;
    if total > 255 {
        Err(NoteError::OutOfRange)
    } else {
        Ok(total as u8)
    }
}

/// The name of `midi_note`'s pitch class and its octave (`midi_note / 12`).
pub fn midi_note_to_note_name(midi_note: u8) -> (r: (String, u8))
    ensures
        r.0@ == name_text(name_of_class(midi_note as int % 12)),
        r.1 == midi_note / 12,
{
    let name = NoteName::from_midi(midi_note);
    (name.to_string().to_owned(), midi_note / 12)
}

/// Where a note's key-press effect is drawn, relative to the keyboard:
/// white keys 10 columns apart from column 10 on row 8, black keys 12
/// apart from column 15 on row 3.
pub fn key_position(midi_note: u8) -> (r: (u16, u16))
    ensures
        ({
            let pc = midi_note as int % 12;
            if is_black_class(pc) {
                let k = if pc == 1 { 0 } else if pc == 3 { 1 } else if pc == 6 { 2 } else if pc == 8 { 3 } else { 4int };
                r.0 == 15 + 12 * k && r.1 == 3
            } else {
                let k = if pc == 0 { 0 } else if pc == 2 { 1 } else if pc == 4 { 2 } else if pc == 5 { 3 } else if pc == 7 {
                    4
                } else if pc == 9 {
                    5
                } else {
                    6int
                };
                r.0 == 10 + 10 * k && r.1 == 8
            }
        }),
{
    let pc = midi_note % 12;
    if pc == 1 || pc == 3 || pc == 6 || pc == 8 || pc == 10 {
        let k: u16 = if pc == 1 { 0 } else if pc == 3 { 1 } else if pc == 6 { 2 } else if pc == 8 { 3 } else { 4 };
        (15 + 12 * k, 3)
    } else {
        let k: u16 = if pc == 0 { 0 } else if pc == 2 { 1 } else if pc == 4 { 2 } else if pc == 5 { 3 } else if pc == 7 {
            4
        } else if pc == 9 {
            5
        } else {
            6
        };
        (10 + 10 * k, 8)
    }
}

} // verus!
