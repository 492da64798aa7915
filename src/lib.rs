//! Real-time sequencing and note-output engine for a terminal piano.
//!
//! The library holds the logic: tick/time conversion, the sequencer that
//! releases a loaded event stream against a wall clock, the voice registry
//! that keeps at most one sounding voice per note, the capture/replay log of
//! a live performance, and the live keyboard state. Wall-clock instants are
//! passed in as microsecond counts, so every decision is a function of its
//! inputs.

mod capture;
mod config;
mod effects;
mod midi;
mod piano;
mod smf;
mod timing;
mod voices;

pub use capture::{
    lemma_save_restore, MidiRecorder, Recording, RecordingEvent, RecordingEventType, Replay,
    SavedEvent, SavedRecording,
};
pub use config::{KeyBindings, MidiConfig};
pub use effects::SimpleEffects;
pub use midi::{
    lemma_load_queue_sorted, lemma_loop_restarts, lemma_pause_resume, lemma_poll_splits_queue,
    lemma_seek_play_polls, lemma_seek_then_poll,
    LoadError, MidiEvent, MidiMessage, MidiPlayer, PlayState, TIMECODE_TEMPO,
};
pub use piano::{
    key_position, midi_note_to_note_name, note_name_to_midi_note, BlackKey, Note, NoteError,
    NoteName, NoteType, Piano, PianoLayout, WhiteKey, KEY_HOLD_US, MAX_OCTAVE,
};
pub use smf::{EntryKind, MidiFile, Timing, TrackEntry};
pub use timing::{
    lemma_round_trip, ticks_for, time_for, DEFAULT_TEMPO, DEFAULT_TICKS_PER_QUARTER,
};
pub use voices::{
    lemma_cleanup_idempotent, lemma_one_voice_per_note, Voice, VoiceCommand, VoiceRegistry,
};
