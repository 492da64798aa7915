use terminal_piano::{
    key_position, midi_note_to_note_name, note_name_to_midi_note, KeyBindings, MidiConfig, Note,
    NoteError, NoteName, NoteType, Piano, PianoLayout, SimpleEffects,
};

#[test]
fn test_midi_note_conversion() {
    let (note, octave) = midi_note_to_note_name(69);
    assert_eq!(note, "A");
    assert_eq!(octave, 5);

    assert_eq!(note_name_to_midi_note("A", 5).unwrap(), 69);
}

#[test]
fn note_names_in_any_case_and_flats() {
    assert_eq!(note_name_to_midi_note("C", 5), Ok(60));
    assert_eq!(note_name_to_midi_note("C", 4), Ok(48));
    assert_eq!(note_name_to_midi_note("c#", 5), Ok(61));
    assert_eq!(note_name_to_midi_note("Db", 5), Ok(61));
    assert_eq!(note_name_to_midi_note("DB", 5), Ok(61));
    assert_eq!(note_name_to_midi_note("bb", 0), Ok(10));
    assert_eq!(note_name_to_midi_note("E#", 4), Err(NoteError::InvalidName));
    assert_eq!(note_name_to_midi_note("H", 4), Err(NoteError::InvalidName));
    assert_eq!(note_name_to_midi_note("", 4), Err(NoteError::InvalidName));
    assert_eq!(note_name_to_midi_note("C##", 4), Err(NoteError::InvalidName));
    assert_eq!(note_name_to_midi_note("B", 20), Ok(251));
    assert_eq!(note_name_to_midi_note("C", 22), Err(NoteError::OutOfRange));
    assert_eq!(midi_note_to_note_name(61), ("C#".to_string(), 5));
}

#[test]
fn note_classification() {
    let n = Note::new(61);
    assert_eq!(n.note_name, NoteName::CSharp);
    assert_eq!(n.note_type, NoteType::Black);
    assert_eq!(n.octave, 5);
    assert_eq!(Note::new(64).note_type, NoteType::White);
    assert_eq!(NoteName::from_midi(71), NoteName::B);
    assert!(NoteName::GSharp.is_black_key());
    assert!(!NoteName::E.is_black_key());
    assert_eq!(NoteName::FSharp.to_string(), "F#");
}

#[test]
fn key_mappings_follow_octave() {
    let mut p = Piano::new();
    assert_eq!(p.get_midi_note_from_key('q'), Some(48));
    assert_eq!(p.get_midi_note_from_key('2'), Some(49));
    assert_eq!(p.get_midi_note_from_key('u'), Some(59));
    assert_eq!(p.get_midi_note_from_key('a'), Some(60));
    assert_eq!(p.get_midi_note_from_key('='), Some(70));
    assert_eq!(p.get_midi_note_from_key('z'), Some(36));
    assert_eq!(p.get_midi_note_from_key('m'), Some(47));
    assert_eq!(p.get_midi_note_from_key('i'), None);
    assert_eq!(p.get_octave_range(), (48, 60));
    p.change_octave(10);
    assert_eq!(p.current_octave, 8);
    assert_eq!(p.get_midi_note_from_key('j'), Some(119));
    p.change_octave(-20);
    assert_eq!(p.current_octave, 0);
    assert_eq!(p.get_midi_note_from_key('x'), Some(0));
    assert_eq!(p.get_midi_note_from_key('w'), Some(2));
}

#[test]
fn keys_release_after_grace_unless_sustained() {
    let mut p = Piano::new();
    p.press_key(60, 0);
    p.press_key(62, 200_000);
    p.update(299_999);
    assert!(p.pressed_keys[60].is_some());
    p.update(300_000);
    assert!(p.pressed_keys[60].is_none());
    assert!(p.pressed_keys[62].is_some());
    p.toggle_sustain();
    p.press_key(64, 0);
    p.release_key(64);
    p.update(10_000_000);
    assert!(p.pressed_keys[64].is_some());
    p.toggle_sustain();
    assert!(p.pressed_keys.iter().all(|k| k.is_none()));
    p.press_key(65, 0);
    p.release_key(65);
    assert!(p.pressed_keys[65].is_none());
}

#[test]
fn volume_steps_are_clamped() {
    let mut p = Piano::new();
    assert_eq!(p.volume, 70);
    p.adjust_volume(10);
    p.adjust_volume(10);
    p.adjust_volume(10);
    p.adjust_volume(10);
    assert_eq!(p.volume, 100);
    for _ in 0..12 {
        p.adjust_volume(-10);
    }
    assert_eq!(p.volume, 0);
}

#[test]
fn key_positions() {
    assert_eq!(key_position(60), (10, 8));
    assert_eq!(key_position(71), (70, 8));
    assert_eq!(key_position(61), (15, 3));
    assert_eq!(key_position(70), (63, 3));
}

#[test]
fn defaults() {
    let m = MidiConfig::default();
    assert_eq!(m.input_device, "auto");
    assert_eq!(m.output_device, "auto");
    let k = KeyBindings::default();
    assert_eq!(k.white_keys.len(), 20);
    assert_eq!(k.black_keys.len(), 12);
    assert_eq!(k.quit, 'Q');
    assert!(SimpleEffects::new().enabled);
}

#[test]
fn key_layout_is_ordered_by_note() {
    let mut p = Piano::new();
    p.press_key(60, 0);
    let layout = p.get_key_layout();
    assert_eq!(layout.len(), 31);
    for w in layout.windows(2) {
        assert!(w[0].1.midi_note <= w[1].1.midi_note);
    }
    assert_eq!(layout[0].0, 'z');
    assert_eq!(layout[0].1.midi_note, 36);
    let a = layout.iter().find(|e| e.0 == 'a').unwrap();
    assert_eq!(a.1.midi_note, 60);
    assert!(a.2);
    assert!(!layout.iter().find(|e| e.0 == 'q').unwrap().2);
    // At octave 0 the lower keys all fall on note 0, after 'q' in mapping order.
    p.change_octave(-4);
    let low = p.get_key_layout();
    let at_zero: Vec<char> = low.iter().filter(|e| e.1.midi_note == 0).map(|e| e.0).collect();
    assert_eq!(at_zero, vec!['q', 'z', 'x', 'c', 'v', 'b', 'n', 'm']);
}

#[test]
fn layout_for_a_narrow_terminal() {
    let mut p = Piano::new();
    p.press_key(49, 0);
    let l = PianoLayout::new(&p, 100);
    assert_eq!(l.width, 100);
    assert_eq!(l.height, 12);
    assert_eq!(l.white_keys.len(), 14);
    assert_eq!(l.black_keys.len(), 10);
    assert_eq!(l.white_keys[0].note.midi_note, 48);
    assert_eq!(l.white_keys[0].x, 2);
    assert_eq!(l.white_keys[1].x, 8);
    assert_eq!(l.white_keys[0].width, 6);
    assert_eq!(l.white_keys[0].key_char, Some('q'));
    assert_eq!(l.black_keys[0].note.midi_note, 49);
    assert_eq!(l.black_keys[0].x, 7);
    assert_eq!(l.black_keys[0].width, 3);
    assert!(l.black_keys[0].is_pressed);
    assert_eq!(l.white_keys[13].note.midi_note, 71);
}

#[test]
fn layout_for_a_wide_terminal_stops_below_127() {
    let p = Piano::new();
    let l = PianoLayout::new(&p, 300);
    assert_eq!(l.white_keys.len(), 46);
    assert_eq!(l.black_keys.len(), 33);
    assert_eq!(l.white_keys[45].note.midi_note, 125);
    assert_eq!(l.white_keys[45].x, 2 + 45 * 6);
    assert_eq!(l.black_keys[32].note.midi_note, 126);
}

#[test]
fn layout_for_a_tiny_terminal() {
    let p = Piano::new();
    let l = PianoLayout::new(&p, 10);
    assert_eq!(l.white_keys.len(), 14);
    assert!(l.white_keys.iter().all(|k| k.x == 2 && k.width == 0));
    assert!(l.black_keys.iter().all(|k| k.x == 1 && k.width == 3));
}
