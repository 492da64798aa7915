use terminal_piano::{Voice, VoiceCommand, VoiceRegistry};

fn notes(r: &VoiceRegistry) -> Vec<u8> {
    r.voices.iter().map(|v| v.note).collect()
}

#[test]
fn retrigger_stops_previous_voice() {
    let mut r = VoiceRegistry::new(70);
    assert_eq!(r.note_on(60), vec![VoiceCommand::Start { id: 0, note: 60, volume: 70 }]);
    assert_eq!(
        r.note_on(60),
        vec![VoiceCommand::Stop { id: 0 }, VoiceCommand::Start { id: 1, note: 60, volume: 70 }]
    );
    assert_eq!(r.voices, vec![Voice { note: 60, id: 1 }]);
}

#[test]
fn at_most_one_voice_per_note() {
    let mut r = VoiceRegistry::new(100);
    let ops: [(bool, u8); 12] = [
        (true, 60), (true, 60), (true, 62), (false, 60), (true, 60), (true, 60),
        (false, 62), (false, 62), (true, 62), (true, 60), (false, 60), (true, 60),
    ];
    for (on, n) in ops {
        if on {
            r.note_on(n);
        } else {
            r.note_off(n);
        }
        for note in [60u8, 62] {
            assert!(r.voices.iter().filter(|v| v.note == note).count() <= 1);
        }
    }
    let mut ns = notes(&r);
    ns.sort();
    assert_eq!(ns, vec![60, 62]);
}

#[test]
fn note_off_without_voice_is_noop() {
    let mut r = VoiceRegistry::new(50);
    r.note_on(40);
    assert!(r.note_off(41).is_empty());
    assert_eq!(r.note_off(40), vec![VoiceCommand::Stop { id: 0 }]);
    assert!(r.voices.is_empty());
}

#[test]
fn volume_is_clamped_and_applied() {
    let mut r = VoiceRegistry::new(250);
    assert_eq!(r.get_volume(), 100);
    r.note_on(1);
    r.note_on(2);
    assert_eq!(
        r.set_volume(130),
        vec![
            VoiceCommand::SetVolume { id: 0, volume: 100 },
            VoiceCommand::SetVolume { id: 1, volume: 100 }
        ]
    );
    r.set_volume(30);
    assert_eq!(r.get_volume(), 30);
    assert_eq!(r.note_on(3), vec![VoiceCommand::Start { id: 2, note: 3, volume: 30 }]);
}

#[test]
fn cleanup_drops_finished_voices_and_is_idempotent() {
    let mut r = VoiceRegistry::new(70);
    r.note_on(10);
    r.note_on(11);
    r.note_on(12);
    let finished = vec![1u64, 7];
    r.cleanup(&finished);
    assert_eq!(notes(&r), vec![10, 12]);
    let once = r.voices.clone();
    r.cleanup(&finished);
    assert_eq!(r.voices, once);
}

#[test]
fn stop_all_stops_every_voice() {
    let mut r = VoiceRegistry::new(70);
    r.note_on(10);
    r.note_on(11);
    assert_eq!(r.stop_all(), vec![VoiceCommand::Stop { id: 0 }, VoiceCommand::Stop { id: 1 }]);
    assert!(r.voices.is_empty());
    assert_eq!(r.note_on(10), vec![VoiceCommand::Start { id: 2, note: 10, volume: 70 }]);
}

#[test]
fn handles_running_out_drops_the_note() {
    let mut r = VoiceRegistry::new(70);
    r.note_on(5);
    r.next_id = u64::MAX;
    assert_eq!(r.note_on(5), vec![VoiceCommand::Stop { id: 0 }]);
    assert!(r.voices.is_empty());
}
