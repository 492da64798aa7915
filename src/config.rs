use vstd::prelude::*;

verus! {

/// MIDI devices to use; "auto" picks the system default.
#[derive(Clone, Debug)]
pub struct MidiConfig {
    pub input_device: String,
    pub output_device: String,
}

/// Keyboard bindings of the piano and its controls.
#[derive(Clone, Debug)]
pub struct KeyBindings {
    pub white_keys: Vec<char>,
    pub black_keys: Vec<char>,
    pub octave_up: char,
    pub octave_down: char,
    pub volume_up: char,
    pub volume_down: char,
    pub sustain: char,
    pub record: char,
    pub playback: char,
    pub metronome: char,
    pub load: char,
    pub help: char,
    pub quit: char,
}

impl Default for MidiConfig {
    fn default() -> (r: MidiConfig)
        ensures
            r.input_device@ == seq!['a', 'u', 't', 'o'],
            r.output_device@ == seq!['a', 'u', 't', 'o'],
    {
        proof {
            reveal_strlit("auto");
        }
        MidiConfig { input_device: "auto".to_owned(), output_device: "auto".to_owned() }
    }
}

impl Default for KeyBindings {
    fn default() -> (r: KeyBindings)
        ensures
            r.white_keys@ == seq!['a', 's', 'd', 'f', 'g', 'h', 'j', 'k', 'l', ';', 'z', 'x', 'c', 'v', 'b', 'n', 'm', ',', '.', '/'],
            r.black_keys@ == seq!['1', '2', '3', '4', '5', '6', '7', '8', '9', '0', '-', '='],
            r.octave_up == '+',
            r.octave_down == '_',
            r.volume_up == ']',
            r.volume_down == '[',
            r.sustain == ' ',
            r.record == 'R',
            r.playback == 'P',
            r.metronome == 'M',
            r.load == 'L',
            r.help == 'F',
            r.quit == 'Q',
    {
        KeyBindings {
            white_keys: vec!['a', 's', 'd', 'f', 'g', 'h', 'j', 'k', 'l', ';', 'z', 'x', 'c', 'v', 'b', 'n', 'm', ',', '.', '/'],
            black_keys: vec!['1', '2', '3', '4', '5', '6', '7', '8', '9', '0', '-', '='],
            octave_up: '+',
            octave_down: '_',
            volume_up: ']',
            volume_down: '[',
            sustain: ' ',
            record: 'R',
            playback: 'P',
            metronome: 'M',
            load: 'L',
            // F1 is written as 'F'.
            help: 'F',
            quit: 'Q',
        }
    }
}

} // verus!
