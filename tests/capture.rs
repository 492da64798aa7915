use terminal_piano::{MidiRecorder, Recording, RecordingEventType, Replay, SavedEvent, SavedRecording};

#[test]
fn capture_save_reload_replay() {
    let mut rec = MidiRecorder::new();
    rec.start_recording(1_000);
    rec.record_note_on(60, 100, 1_000);
    rec.record_note_off(60, 501_000);
    let log = rec.stop_recording(600_000).unwrap();
    assert_eq!(log.events.len(), 2);
    assert_eq!(log.duration, 599_000);

    let saved = log.to_saved();
    assert_eq!(
        saved.events,
        vec![
            SavedEvent { offset_ms: 0, event: RecordingEventType::NoteOn { midi_note: 60, velocity: 100 } },
            SavedEvent { offset_ms: 500, event: RecordingEventType::NoteOff { midi_note: 60 } },
        ]
    );
    assert_eq!(saved.duration_ms, 599);
    let back = Recording::from_saved(&saved, 0).unwrap();
    for (a, b) in back.events.iter().zip(log.events.iter()) {
        assert_eq!(a.event_type, b.event_type);
        assert!(a.timestamp <= b.timestamp && b.timestamp - a.timestamp < 1_000);
    }

    let mut replay = Replay::new(back, 2_000_000);
    assert_eq!(
        replay.poll(2_000_000),
        vec![RecordingEventType::NoteOn { midi_note: 60, velocity: 100 }]
    );
    assert_eq!(replay.next_due_in(2_000_000), Some(500_000));
    assert!(replay.poll(2_499_999).is_empty());
    assert_eq!(replay.poll(2_500_000), vec![RecordingEventType::NoteOff { midi_note: 60 }]);
    assert!(replay.is_finished());
    assert_eq!(replay.next_due_in(2_500_000), None);
}

#[test]
fn offsets_rounded_to_milliseconds() {
    let mut r = Recording::new(0);
    r.add_event(RecordingEventType::SustainPedal { pressed: true }, 1_999);
    r.add_event(RecordingEventType::SustainPedal { pressed: false }, 2_000);
    r.finish(2_500);
    let saved = r.to_saved();
    assert_eq!(saved.events[0].offset_ms, 1);
    assert_eq!(saved.events[1].offset_ms, 2);
    assert_eq!(saved.duration_ms, 2);
    let back = Recording::from_saved(&saved, 0).unwrap();
    assert_eq!(back.events[0].timestamp, 1_000);
    assert_eq!(back.events[1].timestamp, 2_000);
    assert_eq!(back.duration, 2_000);
}

#[test]
fn stamps_never_decrease() {
    let mut r = Recording::new(1_000);
    r.add_event(RecordingEventType::NoteOn { midi_note: 1, velocity: 1 }, 5_000);
    r.add_event(RecordingEventType::NoteOff { midi_note: 1 }, 3_000);
    r.add_event(RecordingEventType::NoteOff { midi_note: 2 }, 500);
    assert_eq!(r.events[0].timestamp, 4_000);
    assert_eq!(r.events[1].timestamp, 4_000);
    assert_eq!(r.events[2].timestamp, 4_000);
    r.finish(10_000);
    assert_eq!(r.duration, 9_000);
}

#[test]
fn invalid_saved_logs_are_refused() {
    let ev = |offset_ms| SavedEvent { offset_ms, event: RecordingEventType::NoteOff { midi_note: 1 } };
    let out_of_order = SavedRecording { events: vec![ev(5), ev(4)], duration_ms: 10 };
    assert!(Recording::from_saved(&out_of_order, 0).is_none());
    let past_end = SavedRecording { events: vec![ev(5), ev(11)], duration_ms: 10 };
    assert!(Recording::from_saved(&past_end, 0).is_none());
    let too_long = SavedRecording { events: vec![], duration_ms: u64::MAX / 1000 + 1 };
    assert!(Recording::from_saved(&too_long, 0).is_none());
    let fine = SavedRecording { events: vec![ev(4), ev(4), ev(10)], duration_ms: 10 };
    assert!(Recording::from_saved(&fine, 0).is_some());
}

#[test]
fn recorder_ignores_events_when_idle_and_toggles() {
    let mut rec = MidiRecorder::new();
    rec.record_note_on(60, 1, 0);
    assert!(rec.recording.is_none());
    assert!(rec.toggle_recording(100).is_none());
    assert!(rec.is_recording);
    rec.start_recording(5_000);
    assert_eq!(rec.recording.as_ref().unwrap().start_time, 100);
    rec.record_sustain_pedal(true, 200);
    let done = rec.toggle_recording(1_100).unwrap();
    assert!(!rec.is_recording);
    assert_eq!(done.events.len(), 1);
    assert_eq!(done.events[0].timestamp, 100);
    assert_eq!(done.duration, 1_000);
    assert!(rec.stop_recording(2_000).is_none());
}

#[test]
fn cancelled_replay_delivers_nothing() {
    let mut r = Recording::new(0);
    r.add_event(RecordingEventType::NoteOn { midi_note: 1, velocity: 1 }, 0);
    r.add_event(RecordingEventType::NoteOff { midi_note: 1 }, 1_000);
    let mut replay = Replay::new(r, 0);
    assert_eq!(replay.poll(0).len(), 1);
    replay.cancel();
    assert!(replay.poll(5_000).is_empty());
    assert!(replay.is_finished());
    assert_eq!(replay.next_due_in(0), None);
}
