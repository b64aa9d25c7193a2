//! Control core of a small polyphonic synthesizer: MIDI note events are
//! decoded and mapped onto a fixed pool of voices, and stereo samples are laid
//! out into interleaved output frames.
//!
//! The library holds what can be counted: which voice sounds which key, what
//! each voice is tuned to, where each oscillator stands in its period, which
//! channel gets which sample. The signal values themselves are computed by
//! the caller. Two calls leave the verified code and are trusted: the MIDI
//! parser of `midi_control` and the substring search of `str`.

pub mod midi;
pub mod oscillator;
pub mod voice;
pub mod allocator;
pub mod synth;
pub mod frames;
pub mod ports;

pub use allocator::{Outcome, SynthView};
pub use midi::{decode, MidiNoteEvent};
pub use oscillator::{Oscillator, OscillatorShape, MIN_HERTZ};
pub use synth::{Synth, DEFAULT_VOICES};
pub use voice::{
    Tuning, Voice, VoiceView, LOWPASS_HERTZ, ON_VOLUME, OSCILLATORS_PER_VOICE, REST_HERTZ,
};
pub use frames::{frame_count, write_data, write_frame};
pub use ports::{find_port, DEVICE};
