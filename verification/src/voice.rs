//! One voice of the pool: a bank of detuned oscillators under a shared
//! tuning and a shared volume.

use crate::oscillator::{Oscillator, OscillatorShape};
use vstd::prelude::*;

verus! {

/// Oscillators in the bank of one voice.
pub const OSCILLATORS_PER_VOICE: usize = 3;

/// The frequency, in hertz, of a voice that has not played a key yet.
pub const REST_HERTZ: u32 = 100;

/// The volume, in percent of full scale, of a voice that sounds a key.
pub const ON_VOLUME: u8 = 60;

/// The cutoff, in hertz, of the lowpass that follows each oscillator.
pub const LOWPASS_HERTZ: u32 = 500;

/// What sets the frequency of a voice.
#[derive(Clone, Copy, Debug, PartialEq, Eq, Structural)]
pub enum Tuning {
    /// A fixed frequency in whole hertz.
    Fixed { hertz: u32 },
    /// The equal-tempered frequency of a MIDI key, where key 69 is the A of
    /// 440 Hz and twelve keys make an octave; one octave lower where `halved`.
    Key { key: u8, halved: bool },
}

/// A voice as contracts see it.
pub struct VoiceView {
    /// The oscillator bank, lowest detune first.
    pub oscillators: Seq<Oscillator>,
    /// What the shared frequency is set to.
    pub tuning: Tuning,
    /// The shared volume, in percent of full scale.
    pub volume: u8,
    /// Samples per second of the stream that the voice feeds.
    pub sample_rate: u32,
}

impl VoiceView {
    /// The voice after it was given `key` to sound.
    pub open spec fn sounding(self, key: u8, halved: bool) -> VoiceView {
        VoiceView { tuning: Tuning::Key { key, halved }, volume: ON_VOLUME, ..self }
    }

    /// The voice after it was silenced: it keeps its tuning and its
    /// oscillators, which run on unheard.
    pub open spec fn silenced(self) -> VoiceView {
        VoiceView { volume: 0, ..self }
    }
}

/// The bank that a voice plays through: three sawtooth oscillators at the
/// start of their period, detuned by minus one, zero and plus one half unit.
pub open spec fn detuned_bank(sample_rate: u32) -> Seq<Oscillator> {
    Seq::new(
        OSCILLATORS_PER_VOICE as nat,
        |i: int|
            Oscillator {
                shape: OscillatorShape::Sawtooth,
                sample_rate,
                detune: (i - 1) as i8,
                sample_clock: 0,
            },
    )
}

/// One independently pitched and volumed unit of polyphony.
pub struct Voice {
    oscillators: Vec<Oscillator>,
    tuning: Tuning,
    volume: u8,
    sample_rate: u32,
}

impl View for Voice {
    type V = VoiceView;

    closed spec fn view(&self) -> VoiceView {
        VoiceView {
            oscillators: self.oscillators@,
            tuning: self.tuning,
            volume: self.volume,
            sample_rate: self.sample_rate,
        }
    }
}

impl Voice {
    /// A silent voice at the rest frequency, with no oscillators yet.
    pub fn new(sample_rate: u32) -> (voice: Voice)
        ensures
            voice@ == (VoiceView {
                oscillators: Seq::empty(),
                tuning: Tuning::Fixed { hertz: REST_HERTZ },
                volume: 0,
                sample_rate,
            }),
    {
        Voice {
            oscillators: Vec::new(),
            tuning: Tuning::Fixed { hertz: REST_HERTZ },
            volume: 0,
            sample_rate,
        }
    }

    /// Instantiates the oscillator bank, replacing any earlier one. Tuning
    /// and volume are not stored in the oscillators, so a later change of
    /// either reaches all three at the next sample.
    pub fn init(&mut self)
        ensures
            final(self)@ == (VoiceView { oscillators: detuned_bank(old(self)@.sample_rate), ..old(self)@ }),
    {
        self.oscillators.clear();
        let mut detune: i8 = -1;
        while detune <= 1
            invariant
                -1 <= detune <= 2,
                self.tuning == old(self).tuning,
                self.volume == old(self).volume,
                self.sample_rate == old(self).sample_rate,
                self.oscillators@ == detuned_bank(self.sample_rate).take(detune + 1),
            decreases 2 - detune,
        {
            let osc = Oscillator::new(self.sample_rate, OscillatorShape::Sawtooth).with_detune(detune);
            self.oscillators.push(osc);
            detune = detune + 1;
            assert(self.oscillators@ =~= detuned_bank(self.sample_rate).take(detune + 1));
        }
        assert(self.oscillators@ =~= detuned_bank(self.sample_rate));
    }

    /// Gives the voice a key to sound: the shared frequency follows the key
    /// and the shared volume goes to [`ON_VOLUME`].
    pub fn sound(&mut self, key: u8, halved: bool)
        ensures
            final(self)@ == old(self)@.sounding(key, halved),
    {
        self.tuning = Tuning::Key { key, halved };
        self.volume = ON_VOLUME;
    }

    /// Turns the shared volume to zero and leaves everything else as it is.
    pub fn silence(&mut self)
        ensures
            final(self)@ == old(self)@.silenced(),
    {
        self.volume = 0;
    }

    /// What the shared frequency is set to.
    pub fn tuning(&self) -> (tuning: Tuning)
        ensures
            tuning == self@.tuning,
    {
        self.tuning
    }

    /// The shared volume, in percent of full scale.
    pub fn volume(&self) -> (volume: u8)
        ensures
            volume == self@.volume,
    {
        self.volume
    }

    /// Samples per second of the stream that the voice feeds.
    pub fn sample_rate(&self) -> (rate: u32)
        ensures
            rate == self@.sample_rate,
    {
        self.sample_rate
    }

    /// The oscillator bank, lowest detune first.
    pub fn oscillators(&self) -> (bank: &Vec<Oscillator>)
        ensures
            bank@ == self@.oscillators,
    {
        &self.oscillators
    }
}

} // verus!
