use terminal_piano::{
    ticks_for, time_for, EntryKind, LoadError, MidiFile, MidiMessage, MidiPlayer, PlayState,
    RecordingEventType, Timing, TrackEntry,
};

fn note_on(delta: u32, key: u8) -> TrackEntry {
    TrackEntry { delta, kind: EntryKind::NoteOn(key, 100) }
}

fn note_off(delta: u32, key: u8) -> TrackEntry {
    TrackEntry { delta, kind: EntryKind::NoteOff(key) }
}

/// One track of four quarter notes at 480 ticks per quarter note.
fn scale_file() -> MidiFile {
    MidiFile {
        timing: Timing::Metrical(480),
        tracks: vec![vec![
            note_on(0, 60),
            note_off(480, 60),
            note_on(0, 62),
            note_off(480, 62),
            note_on(0, 64),
            note_off(480, 64),
        ]],
    }
}

/// A file with `total_ticks = 1000`: events at 0, 250, 500, 750 and 1000.
fn thousand_tick_file() -> MidiFile {
    MidiFile {
        timing: Timing::Metrical(480),
        tracks: vec![vec![
            note_on(0, 60),
            note_on(250, 61),
            note_on(250, 62),
            note_on(250, 63),
            note_off(250, 63),
        ]],
    }
}

/// A two-track Standard MIDI File: a tempo track, then middle C for one
/// quarter note.
fn smf_bytes(tempo: [u8; 3]) -> Vec<u8> {
    smf_with_division(tempo, [0x01, 0xE0])
}

fn smf_with_division(tempo: [u8; 3], division: [u8; 2]) -> Vec<u8> {
    let mut v = vec![b'M', b'T', b'h', b'd', 0, 0, 0, 6, 0, 1, 0, 2, division[0], division[1]];
    v.extend_from_slice(&[b'M', b'T', b'r', b'k', 0, 0, 0, 11]);
    v.extend_from_slice(&[0x00, 0xFF, 0x51, 0x03, tempo[0], tempo[1], tempo[2], 0x00, 0xFF, 0x2F, 0x00]);
    v.extend_from_slice(&[b'M', b'T', b'r', b'k', 0, 0, 0, 13]);
    v.extend_from_slice(&[0x00, 0x90, 0x3C, 0x64, 0x83, 0x60, 0x80, 0x3C, 0x40, 0x00, 0xFF, 0x2F, 0x00]);
    v
}

#[test]
fn test_time_conversion() {
    let mut player = MidiPlayer::new();
    player.tempo = 500000; // 120 BPM
    player.ticks_per_quarter = 480;

    let one_second: u64 = 1_000_000;
    let ticks = player.time_to_ticks(one_second);
    let time_back = player.ticks_to_time(ticks);

    assert!((time_back as f64 / 1_000_000.0 - 1.0).abs() < 0.01);
}

#[test]
fn conversion_exact_values() {
    assert_eq!(ticks_for(1_000_000, 500_000, 480), 960);
    assert_eq!(time_for(960, 500_000, 480), 1_000_000);
    assert_eq!(ticks_for(1_041, 500_000, 480), 0);
    assert_eq!(ticks_for(1_042, 500_000, 480), 1);
    assert_eq!(time_for(1, 500_000, 480), 1_041);
}

#[test]
fn conversion_saturates() {
    assert_eq!(ticks_for(u64::MAX, 1, 2), u64::MAX);
    assert_eq!(time_for(u64::MAX, 2, 1), u64::MAX);
}

#[test]
fn round_trip_within_one_tick() {
    let (tempo, tpq) = (500_000u32, 480u16);
    let tick_us = (tempo as u64 + tpq as u64 - 1) / tpq as u64;
    for elapsed in [0u64, 1, 999, 1_000_000, 1_234_567, 60_000_000, 3_600_000_123] {
        let back = time_for(ticks_for(elapsed, tempo, tpq), tempo, tpq);
        assert!(back <= elapsed);
        assert!(elapsed - back <= tick_us);
    }
}

#[test]
fn load_sorts_across_tracks_and_keeps_file_order_on_ties() {
    let file = MidiFile {
        timing: Timing::Metrical(96),
        tracks: vec![
            vec![note_on(10, 1), note_on(10, 2)],
            vec![note_on(5, 3), note_on(15, 4), TrackEntry { delta: 0, kind: EntryKind::Tempo(600_000) }],
        ],
    };
    let mut p = MidiPlayer::new();
    assert_eq!(p.load_parsed(&file), Ok(()));
    let ticks: Vec<u64> = p.pending_events().iter().map(|e| e.absolute_time).collect();
    assert_eq!(ticks, vec![5, 10, 20, 20]);
    let keys: Vec<u8> = p
        .pending_events()
        .iter()
        .map(|e| match e.event {
            MidiMessage::NoteOn { key, .. } => key,
            MidiMessage::NoteOff { key } => key,
        })
        .collect();
    assert_eq!(keys, vec![3, 1, 2, 4]);
    assert_eq!(p.total_ticks, 20);
    assert_eq!(p.tempo, 600_000);
    assert_eq!(p.ticks_per_quarter, 96);
}

#[test]
fn queue_is_monotone_after_load() {
    let file = MidiFile {
        timing: Timing::Metrical(480),
        tracks: vec![
            vec![note_on(300, 1), note_on(1, 2), note_on(50, 3)],
            vec![note_on(0, 4), note_on(400, 5)],
            vec![note_on(100, 6), note_on(100, 7), note_on(100, 8)],
        ],
    };
    let mut p = MidiPlayer::new();
    p.load_parsed(&file).unwrap();
    let pending = p.pending_events();
    assert_eq!(pending.len(), 8);
    for w in pending.windows(2) {
        assert!(w[0].absolute_time <= w[1].absolute_time);
    }
}

#[test]
fn timecode_resolution_and_default_tempo() {
    let file = MidiFile { timing: Timing::Timecode(25, 40), tracks: vec![vec![note_on(0, 60)]] };
    let mut p = MidiPlayer::new();
    p.tempo = 123;
    p.load_parsed(&file).unwrap();
    assert_eq!(p.ticks_per_quarter, 1000);
    assert_eq!(p.tempo, 1_000_000);
    assert_eq!(p.ticks_to_time(1000), 1_000_000);
    let with_tempo = MidiFile {
        timing: Timing::Timecode(24, 4),
        tracks: vec![vec![TrackEntry { delta: 0, kind: EntryKind::Tempo(250_000) }, note_on(96, 60)]],
    };
    p.load_parsed(&with_tempo).unwrap();
    assert_eq!(p.tempo, 1_000_000);
    assert_eq!(p.ticks_to_time(96), 1_000_000);
    let mut q = MidiPlayer::new();
    q.load_parsed(&MidiFile { timing: Timing::Metrical(96), tracks: vec![] }).unwrap();
    assert_eq!(q.tempo, 500_000);
}

#[test]
fn first_positive_tempo_wins() {
    let tempo = |t| TrackEntry { delta: 0, kind: EntryKind::Tempo(t) };
    let file = MidiFile {
        timing: Timing::Metrical(480),
        tracks: vec![vec![tempo(0), tempo(400_000)], vec![tempo(300_000)]],
    };
    let mut p = MidiPlayer::new();
    p.load_parsed(&file).unwrap();
    assert_eq!(p.tempo, 400_000);
}

#[test]
fn load_errors_leave_player_unchanged() {
    let mut p = MidiPlayer::new();
    p.load_parsed(&scale_file()).unwrap();
    p.play(0);
    let zero = MidiFile { timing: Timing::Metrical(0), tracks: vec![vec![note_on(0, 1)]] };
    assert_eq!(p.load_parsed(&zero), Err(LoadError::InvalidTiming));
    let zero_fps = MidiFile { timing: Timing::Timecode(24, 0), tracks: vec![] };
    assert_eq!(p.load_parsed(&zero_fps), Err(LoadError::InvalidTiming));
    assert_eq!(p.state, PlayState::Playing);
    assert_eq!(p.total_ticks, 1440);
    let mut q = MidiPlayer::new();
    q.load_parsed(&scale_file()).unwrap();
    assert_eq!(q.load(&[1, 2, 3]), Err(LoadError::Malformed));
    assert_eq!(q.total_ticks, 1440);
    assert!(q.loaded);
}

#[test]
fn load_decodes_standard_midi_file() {
    let mut p = MidiPlayer::new();
    assert_eq!(p.load(&smf_bytes([0x07, 0xA1, 0x20])), Ok(()));
    assert_eq!(p.ticks_per_quarter, 480);
    assert_eq!(p.tempo, 500_000);
    assert_eq!(p.total_ticks, 480);
    let pending = p.pending_events();
    assert_eq!(pending.len(), 2);
    assert_eq!(pending[0].event, MidiMessage::NoteOn { key: 60, vel: 100 });
    assert_eq!(pending[1].event, MidiMessage::NoteOff { key: 60 });
    assert_eq!(pending[1].absolute_time, 480);

    let mut q = MidiPlayer::new();
    assert_eq!(q.load(&smf_bytes([0x0F, 0x42, 0x40])), Ok(()));
    assert_eq!(q.tempo, 1_000_000);
}

#[test]
fn poll_releases_due_events_in_order() {
    let mut p = MidiPlayer::new();
    p.load_parsed(&scale_file()).unwrap();
    assert!(p.get_pending_events(0).is_empty());
    p.play(1_000);
    assert_eq!(p.get_pending_events(1_000), vec![MidiMessage::NoteOn { key: 60, vel: 100 }]);
    // 480 ticks at 120 BPM take half a second.
    assert!(p.get_pending_events(400_000).is_empty());
    assert_eq!(
        p.get_pending_events(501_000),
        vec![MidiMessage::NoteOff { key: 60 }, MidiMessage::NoteOn { key: 62, vel: 100 }]
    );
    assert_eq!(p.current_position, 480);
    // A late poll drains everything that is overdue at once.
    assert_eq!(p.get_pending_events(5_000_000).len(), 3);
    assert_eq!(p.state, PlayState::Stopped);
    assert_eq!(p.current_position, 1440);
    assert!(p.loaded);
}

#[test]
fn seek_half_way() {
    let mut p = MidiPlayer::new();
    p.load_parsed(&thousand_tick_file()).unwrap();
    assert_eq!(p.total_ticks, 1000);
    p.play(0);
    p.seek_to_position(1, 2, 10_000);
    assert!(p.current_position >= 490 && p.current_position <= 510);
    assert_eq!(p.current_position, 500);
    assert!(p.pending_events().iter().all(|e| e.absolute_time >= 500));
    let mut seen = 0;
    for t in [10_000u64, 300_000, 600_000, 2_000_000] {
        seen += p.get_pending_events(t).len();
    }
    assert_eq!(seen, 2);
    // Seeking back brings earlier events back.
    let mut q = MidiPlayer::new();
    q.load_parsed(&thousand_tick_file()).unwrap();
    q.seek_to_position(3, 4, 0);
    assert_eq!(q.pending_events().len(), 1);
    q.seek_to_position(0, 1, 0);
    assert_eq!(q.pending_events().len(), 4);
    assert_eq!(q.current_position, 0);
    q.seek_to_position(7, 2, 0);
    assert_eq!(q.current_position, 1000);
    assert_eq!(q.pending_events().len(), 0);
}

#[test]
fn loop_restarts_without_play() {
    let mut p = MidiPlayer::new();
    p.load_parsed(&scale_file()).unwrap();
    p.set_loop(true);
    assert!(p.is_loop_enabled());
    p.play(0);
    let all = p.get_pending_events(10_000_000);
    assert_eq!(all.len(), 6);
    assert!(p.is_playing());
    assert_eq!(p.current_position, 0);
    assert_eq!(p.pending_events().len(), 6);
    assert_eq!(p.get_pending_events(10_000_000), vec![MidiMessage::NoteOn { key: 60, vel: 100 }]);
}

#[test]
fn pause_resume_keeps_position() {
    let mut p = MidiPlayer::new();
    p.load_parsed(&scale_file()).unwrap();
    p.play(0);
    p.get_pending_events(600_000);
    let before = p.current_position;
    assert_eq!(before, 576);
    p.pause();
    assert_eq!(p.state, PlayState::Paused);
    assert!(p.get_pending_events(9_000_000).is_empty());
    p.play(9_000_000);
    assert_eq!(p.current_position, before);
    assert!(p.get_pending_events(9_000_000).is_empty());
    assert_eq!(p.current_position, before);
    // Playback goes on from there: the next event is 384 ticks (400 ms) away.
    assert!(p.get_pending_events(9_399_000).is_empty());
    assert_eq!(p.get_pending_events(9_401_000).len(), 2);
}

#[test]
fn toggle_stop_and_replay_after_end() {
    let mut p = MidiPlayer::new();
    p.toggle_playback(0);
    assert!(!p.is_playing());
    p.load_parsed(&scale_file()).unwrap();
    p.toggle_playback(0);
    assert!(p.is_playing());
    p.toggle_playback(100);
    assert_eq!(p.state, PlayState::Paused);
    p.toggle_playback(100);
    p.get_pending_events(10_000_000);
    assert_eq!(p.state, PlayState::Stopped);
    p.play(20_000_000);
    assert_eq!(p.current_position, 0);
    assert_eq!(p.get_pending_events(20_000_000).len(), 1);
    p.stop();
    assert_eq!(p.state, PlayState::Stopped);
    assert_eq!(p.pending_events().len(), 6);
    assert_eq!(p.get_time_info(), (0, 1_500_000));
}

#[test]
fn live_event_of_messages() {
    assert_eq!(
        MidiMessage::NoteOn { key: 60, vel: 90 }.to_live_event(),
        RecordingEventType::NoteOn { midi_note: 60, velocity: 90 }
    );
    assert_eq!(
        MidiMessage::NoteOn { key: 60, vel: 0 }.to_live_event(),
        RecordingEventType::NoteOff { midi_note: 60 }
    );
    assert_eq!(
        MidiMessage::NoteOff { key: 61 }.to_live_event(),
        RecordingEventType::NoteOff { midi_note: 61 }
    );
}

/// Wraps a Standard MIDI File in an RMID container, after an unrelated chunk.
fn rmid(smf: &[u8]) -> Vec<u8> {
    let mut body = vec![b'R', b'M', b'I', b'D', b'I', b'N', b'F', b'O', 3, 0, 0, 0, 1, 2, 3, 0];
    body.extend_from_slice(b"data");
    body.extend_from_slice(&(smf.len() as u32).to_le_bytes());
    body.extend_from_slice(smf);
    let mut v = b"RIFF".to_vec();
    v.extend_from_slice(&(body.len() as u32).to_le_bytes());
    v.extend_from_slice(&body);
    v
}

#[test]
fn division_with_high_byte_0x80_is_malformed() {
    let mut p = MidiPlayer::new();
    p.load_parsed(&scale_file()).unwrap();
    let bad = smf_with_division([0x07, 0xA1, 0x20], [0x80, 0x00]);
    assert_eq!(p.load(&bad), Err(LoadError::Malformed));
    assert_eq!(p.load(&rmid(&bad)), Err(LoadError::Malformed));
    // A second header further on is read by the parser too.
    let mut twice = smf_bytes([0x07, 0xA1, 0x20]);
    twice.extend_from_slice(&[b'M', b'T', b'h', b'd', 0, 0, 0, 6, 0, 0, 0, 1, 0x80, 0x00]);
    assert_eq!(p.load(&twice), Err(LoadError::Malformed));
    let mut good_twice = smf_bytes([0x07, 0xA1, 0x20]);
    good_twice.extend_from_slice(&[b'M', b'T', b'h', b'd', 0, 0, 0, 6, 0, 0, 0, 1, 0x01, 0xE0]);
    assert_eq!(p.load(&good_twice), Ok(()));
    assert_eq!(p.total_ticks, 480);
}

#[test]
fn rmid_file_loads() {
    let mut p = MidiPlayer::new();
    assert_eq!(p.load(&rmid(&smf_bytes([0x07, 0xA1, 0x20]))), Ok(()));
    assert_eq!(p.ticks_per_quarter, 480);
    assert_eq!(p.pending_events().len(), 2);
}

#[test]
fn timecode_file_ticks_last_their_fraction_of_a_second() {
    // 25 frames per second, 40 ticks per frame.
    let mut p = MidiPlayer::new();
    assert_eq!(p.load(&smf_with_division([0x07, 0xA1, 0x20], [0xE7, 0x28])), Ok(()));
    assert_eq!(p.ticks_per_quarter, 1000);
    assert_eq!(p.ticks_to_time(1000), 1_000_000);
    assert_eq!(p.get_time_info(), (0, 480_000));
}
