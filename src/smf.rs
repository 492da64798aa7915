use vstd::prelude::*;
use crate::smf::EntryKind::Other;
use midly::MetaMessage::Tempo;
use midly::MidiMessage::{NoteOff, NoteOn};
use midly::Smf;
use midly::Timing::{Metrical, Timecode};
use midly::TrackEventKind::{Meta, Midi};

verus! {

/// Resolution declared in a file's header.
#[derive(Clone, Copy, Debug, PartialEq, Eq)]
pub enum Timing {
    /// Ticks per quarter note.
    Metrical(u16),
    /// Frames per second and ticks per frame.
    Timecode(u8, u8),
}

/// What one track entry carries, as far as playback is concerned.
#[derive(Clone, Copy, Debug, PartialEq, Eq)]
pub enum EntryKind {
    /// Key and velocity.
    NoteOn(u8, u8),
    /// Key.
    NoteOff(u8),
    /// A tempo meta event: microseconds per quarter note.
    Tempo(u32),
    /// Any other channel, system or meta event.
    Other,
}

/// One delta-time-prefixed entry of a track.
#[derive(Clone, Copy, Debug, PartialEq, Eq)]
pub struct TrackEntry {
    pub delta: u32,
    pub kind: EntryKind,
}

/// A decoded file: its header's timing and its tracks in file order.
#[derive(Clone, Debug)]
pub struct MidiFile {
    pub timing: Timing,
    pub tracks: Vec<Vec<TrackEntry>>,
}

impl View for MidiFile {
    type V = (Timing, Seq<Seq<TrackEntry>>);

    open spec fn view(&self) -> (Timing, Seq<Seq<TrackEntry>>) {
        (self.timing, self.tracks@.map_values(|t: Vec<TrackEntry>| t@))
    }
}

/// Whether `s` starts with the four bytes `a b c d`.
pub open spec fn tag(s: Seq<u8>, a: u8, b: u8, c: u8, d: u8) -> bool {
    s.len() >= 4 && s[0] == a && s[1] == b && s[2] == c && s[3] == d
}

pub open spec fn be32(s: Seq<u8>, i: int) -> int {
    s[i] * 16777216 + s[i + 1] * 65536 + s[i + 2] * 256 + s[i + 3]
}

pub open spec fn le32(s: Seq<u8>, i: int) -> int {
    s[i] + s[i + 1] * 256 + s[i + 2] * 65536 + s[i + 3] * 16777216
}

/// End of a chunk of `len` data bytes at the start of `s`, after its
/// eight-byte id and length; a chunk that overruns `s` ends with `s`.
pub open spec fn chunk_end(s: Seq<u8>, len: int) -> int {
    if 8 + len <= s.len() { 8 + len } else { s.len() as int }
}

/// Whether some `MThd` chunk of a chunk stream with big-endian lengths has
/// a division word whose high byte is 0x80. Every chunk is stepped over
/// by its length, as the parser frames them, whatever its id.
pub open spec fn bad_division(s: Seq<u8>) -> bool
    decreases s.len(),
{
    if s.len() < 8 {
        false
    } else {
        let end = chunk_end(s, be32(s, 4));
        (tag(s, 0x4d, 0x54, 0x68, 0x64) && end > 12 && s[12] == 0x80) || bad_division(
            s.subrange(end, s.len() as int),
        )
    }
}

/// The data of the first `data` chunk of a RIFF chunk list (little-endian
/// lengths, odd lengths padded by one byte).
pub open spec fn rmid_data(s: Seq<u8>) -> Option<Seq<u8>>
    decreases s.len(),
{
    if s.len() < 8 {
        None
    } else {
        let len = le32(s, 4);
        let end = chunk_end(s, len);
        if tag(s, 0x64, 0x61, 0x74, 0x61) {
            Some(s.subrange(8, end))
        } else {
            let next = if len % 2 == 1 && end < s.len() { end + 1 } else { end };
            rmid_data(s.subrange(next, s.len() as int))
        }
    }
}

/// The chunk stream of a file: the whole file when it starts with `MThd`,
/// the `data` chunk of an RMID file when it starts with `RIFF`.
pub open spec fn smf_body(s: Seq<u8>) -> Option<Seq<u8>> {
    if tag(s, 0x52, 0x49, 0x46, 0x46) {
        if s.len() < 8 {
            None
        } else {
            let riff = s.subrange(8, chunk_end(s, le32(s, 4)));
            if tag(riff, 0x52, 0x4d, 0x49, 0x44) {
                rmid_data(riff.subrange(4, riff.len() as int))
            } else {
                None
            }
        }
    } else if tag(s, 0x4d, 0x54, 0x68, 0x64) {
        Some(s)
    } else {
        None
    }
}

/// Whether the chunk stream of the file holds a header whose division has
/// high byte 0x80: no frame rate, and a value the parser cannot negate.
pub open spec fn has_bad_division(s: Seq<u8>) -> bool {
    match smf_body(s) {
        Some(b) => bad_division(b),
        None => false,
    }
}

fn tag_at(data: &[u8], i: usize, hi: usize, a: u8, b: u8, c: u8, d: u8) -> (r: bool)
    requires
        i <= hi <= data@.len(),
    ensures
        r == tag(data@.subrange(i as int, hi as int), a, b, c, d),
{
    hi - i >= 4 && data[i] == a && data[i + 1] == b && data[i + 2] == c && data[i + 3] == d
}

/// The end of the chunk at `pos` whose length is `len`, within `hi`.
fn chunk_end_at(pos: usize, hi: usize, len: u64) -> (r: usize)
    requires
        pos + 8 <= hi,
    ensures
        r == pos + if 8 + len <= hi - pos { 8 + len } else { hi - pos },
        pos + 8 <= r <= hi,
{
    if len <= (hi - pos - 8) as u64 { pos + 8 + len as usize } else { hi }
}

/// Whether the chunk stream `data[lo..hi]` is `bad_division`.
fn scan_divisions(data: &[u8], lo: usize, hi: usize) -> (r: bool)
    requires
        lo <= hi <= data@.len(),
    ensures
        r == bad_division(data@.subrange(lo as int, hi as int)),
{
    let mut pos = lo;
    while pos < hi
        invariant
            lo <= pos <= hi <= data@.len(),
            bad_division(data@.subrange(pos as int, hi as int)) == bad_division(data@.subrange(lo as int, hi as int)),
        decreases hi - pos,
    {
        let ghost w = data@.subrange(pos as int, hi as int);
        if hi - pos < 8 {
            return false;
        }
        let len = data[pos + 4] as u64 * 16777216 + data[pos + 5] as u64 * 65536 + data[pos + 6] as u64 * 256
            + data[pos + 7] as u64;
        assert(len == be32(w, 4));
        let end = chunk_end_at(pos, hi, len);
        assert(end - pos == chunk_end(w, be32(w, 4)));
        if tag_at(data, pos, hi, 0x4d, 0x54, 0x68, 0x64) && end - pos > 12 && data[pos + 12] == 0x80 {
            return true;
        }
        assert(w.subrange(end - pos, w.len() as int) =~= data@.subrange(end as int, hi as int));
        pos = end;
    }
    assert(data@.subrange(pos as int, hi as int).len() == 0);
    false
}

/// Bounds of the `data` chunk in the RIFF chunk list `data[lo..hi]`.
fn rmid_window(data: &[u8], lo: usize, hi: usize) -> (r: Option<(usize, usize)>)
    requires
        lo <= hi <= data@.len(),
    ensures
        match r {
            Some((a, b)) => a <= b <= data@.len() && rmid_data(data@.subrange(lo as int, hi as int)) == Some(
                data@.subrange(a as int, b as int),
            ),
            None => rmid_data(data@.subrange(lo as int, hi as int)) is None,
        },
{
    let mut pos = lo;
    while pos < hi
        invariant
            lo <= pos <= hi <= data@.len(),
            rmid_data(data@.subrange(pos as int, hi as int)) == rmid_data(data@.subrange(lo as int, hi as int)),
        decreases hi - pos,
    {
        let ghost w = data@.subrange(pos as int, hi as int);
        if hi - pos < 8 {
            return None;
        }
        let len = data[pos + 4] as u64 + data[pos + 5] as u64 * 256 + data[pos + 6] as u64 * 65536
            + data[pos + 7] as u64 * 16777216;
        assert(len == le32(w, 4));
        let end = chunk_end_at(pos, hi, len);
        assert(end - pos == chunk_end(w, le32(w, 4)));
        if tag_at(data, pos, hi, 0x64, 0x61, 0x74, 0x61) {
            assert(w.subrange(8, end - pos) =~= data@.subrange(pos + 8, end as int));
            return Some((pos + 8, end));
        }
        let next = if len % 2 == 1 && end < hi { end + 1 } else { end };
        assert(w.subrange(next - pos, w.len() as int) =~= data@.subrange(next as int, hi as int));
        pos = next;
    }
    assert(data@.subrange(pos as int, hi as int).len() == 0);
    None
}

/// Whether the file is `has_bad_division`.
pub fn check_bad_division(data: &[u8]) -> (r: bool)
    ensures
        r == has_bad_division(data@),
{
    let n = data.len();
    assert(data@.subrange(0, n as int) =~= data@);
    let body: Option<(usize, usize)> = if tag_at(data, 0, n, 0x52, 0x49, 0x46, 0x46) {
        if n < 8 {
            None
        } else {
            let len = data[4] as u64 + data[5] as u64 * 256 + data[6] as u64 * 65536 + data[7] as u64 * 16777216;
            let end = chunk_end_at(0, n, len);
            let ghost riff = data@.subrange(8, end as int);
            assert(riff =~= data@.subrange(8, chunk_end(data@, le32(data@, 4))));
            if tag_at(data, 8, end, 0x52, 0x4d, 0x49, 0x44) {
                assert(riff.subrange(4, riff.len() as int) =~= data@.subrange(12, end as int));
                rmid_window(data, 12, end)
            } else {
                None
            }
        }
    } else if tag_at(data, 0, n, 0x4d, 0x54, 0x68, 0x64) {
        Some((0, n))
    } else {
        None
    };
    match body {
        None => false,
        Some((a, b)) => scan_divisions(data, a, b),
    }
}

/// The decoding of a Standard MIDI File, `None` where the bytes are not one.
pub uninterp spec fn smf_of(data: Seq<u8>) -> Option<(Timing, Seq<Seq<TrackEntry>>)>;

/// The error of midly's parser, carried without looking inside.
#[verifier::external_type_specification]
#[verifier::external_body]
pub struct ExSmfError(midly::Error);

/// Relies on `midly::Smf::parse` to decode the file; its outcome depends on
/// the bytes alone. A header division whose high byte is 0x80, in the first
/// header or in any later one the parser reads, makes it negate `i8::MIN`,
/// which panics with overflow checks on: such bytes are not handed to it. Note messages and tempo events are carried over field by
/// field, every other event becomes `Other`.
#[verifier::external_body]
pub(crate) fn parse_smf(data: &[u8]) -> (r: Result<MidiFile, midly::Error>)
    requires
        !has_bad_division(data@),
    ensures
        match r {
            Ok(f) => smf_of(data@) == Some(f@),
            Err(_) => smf_of(data@) is None,
        },
{
    Smf::parse(data).map(|smf| MidiFile { timing: match smf.header.timing {
        Metrical(q) => Timing::Metrical(q.as_int()),
        Timecode(f, s) => Timing::Timecode(f.as_int(), s),
    }, tracks: smf.tracks.iter().map(|t| t.iter().map(|e| TrackEntry { delta: e.delta.as_int(), kind: match e.kind {
        Midi { message: NoteOn { key, vel }, .. } => EntryKind::NoteOn(key.as_int(), vel.as_int()),
        Midi { message: NoteOff { key, .. }, .. } => EntryKind::NoteOff(key.as_int()),
        Meta(Tempo(t)) => EntryKind::Tempo(t.as_int()),
        _ => Other,
    } }).collect()).collect() })
}

} // verus!
