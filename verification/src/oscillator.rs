//! The countable part of an oscillator: its shape, its detune and its phase
//! accumulator, which counts whole samples within one period of the waveform.

use vstd::prelude::*;

verus! {

/// The waveform that an oscillator produces.
#[derive(Clone, Copy, Debug, PartialEq, Eq, Structural)]
pub enum OscillatorShape {
    Sine,
    Triangle,
    Sawtooth,
    Square,
}

/// One periodic signal generator, without its signal values.
#[derive(Clone, Copy, Debug, PartialEq, Eq, Structural)]
pub struct Oscillator {
    /// The selected waveform.
    pub shape: OscillatorShape,
    /// Samples per second of the stream that the oscillator feeds.
    pub sample_rate: u32,
    /// Offset from the frequency of the owning voice, in half units:
    /// `-1` stands for half a unit below, `1` for half a unit above.
    pub detune: i8,
    /// Phase accumulator: samples since the current period began.
    pub sample_clock: u32,
}

/// The lowest frequency, in hertz, that an oscillator plays at. A lower
/// one, zero and a negative one are raised to it.
pub const MIN_HERTZ: u32 = 1;

/// The period, in samples, that an oscillator at `sample_rate` plays with
/// when it is asked for `period`: at least one sample, and at most the period
/// of the lowest frequency.
pub open spec fn clamped_period(period: u32, sample_rate: u32) -> u32 {
    if period < 1 || sample_rate / MIN_HERTZ < 1 {
        1
    } else if period > sample_rate / MIN_HERTZ {
        sample_rate / MIN_HERTZ
    } else {
        period
    }
}

/// The phase that follows `clock` in a waveform of `period` samples: one
/// more, or zero where that would reach the period.
pub open spec fn next_clock(clock: u32, period: u32) -> u32 {
    if clock + 1 >= period {
        0
    } else {
        (clock + 1) as u32
    }
}

/// The phase reached from `clock` after `steps` samples of a waveform of
/// `period` samples.
pub open spec fn clock_after(clock: u32, period: u32, steps: nat) -> u32
    decreases steps,
{
    if steps == 0 {
        clock
    } else {
        next_clock(clock_after(clock, period, (steps - 1) as nat), period)
    }
}

impl Oscillator {
    /// An oscillator at the start of its period, in tune with its owner.
    pub fn new(sample_rate: u32, shape: OscillatorShape) -> (osc: Oscillator)
        ensures
            osc == (Oscillator { shape, sample_rate, detune: 0, sample_clock: 0 }),
    {
        Oscillator { shape, sample_rate, detune: 0, sample_clock: 0 }
    }

    /// The same oscillator, set off from its owner's frequency by `detune`
    /// half units.
    pub fn with_detune(self, detune: i8) -> (osc: Oscillator)
        ensures
            osc == (Oscillator { detune, ..self }),
    {
        Oscillator { detune, ..self }
    }

    /// Samples per second of the stream that the oscillator feeds.
    pub fn sample_rate(&self) -> (rate: u32)
        ensures
            rate == self.sample_rate,
    {
        self.sample_rate
    }

    /// The oscillator one sample later, in a waveform of `period` samples.
    pub open spec fn advanced(self, period: u32) -> Oscillator {
        Oscillator {
            sample_clock: next_clock(self.sample_clock, clamped_period(period, self.sample_rate)),
            ..self
        }
    }

    /// Advances the phase accumulator by one sample of a waveform whose
    /// period is `period` samples: the sample rate divided by the frequency,
    /// rounded up. A period outside of what [`clamped_period`] allows is
    /// brought into it first. Returns the new phase.
    pub fn advance(&mut self, period: u32) -> (clock: u32)
        ensures
            *final(self) == old(self).advanced(period),
            clock == final(self).sample_clock,
    {
        let longest = self.sample_rate / MIN_HERTZ;
        let period = if period < 1 || longest < 1 {
            1
        } else if period > longest {
            longest
        } else {
            period
        };
        if self.sample_clock >= period - 1 {
            self.sample_clock = 0;
        } else {
            self.sample_clock = self.sample_clock + 1;
        }
        self.sample_clock
    }
}

/// However an oscillator is driven, after a step its phase lies within the
/// period it plays with, which is no longer than the period of the lowest
/// frequency.
pub proof fn lemma_phase_stays_in_period(osc: Oscillator, period: u32)
    ensures
        osc.advanced(period).sample_clock < clamped_period(period, osc.sample_rate),
        1 <= clamped_period(period, osc.sample_rate),
        osc.sample_rate >= MIN_HERTZ ==> clamped_period(period, osc.sample_rate) * MIN_HERTZ
            <= osc.sample_rate,
        1 <= period && period * MIN_HERTZ <= osc.sample_rate ==> clamped_period(
            period,
            osc.sample_rate,
        ) == period,
{
}

/// A phase that starts within the period counts samples modulo the period:
/// after `steps` samples it stands at `(clock + steps) % period`, so it never
/// runs away however long the oscillator plays. For an oscillator, `period`
/// is the clamped period that it plays with.
pub proof fn lemma_clock_is_periodic(clock: u32, period: u32, steps: nat)
    requires
        clock < period,
    ensures
        clock_after(clock, period, steps) == (clock + steps) % (period as int),
    decreases steps,
{
    if steps == 0 {
        vstd::arithmetic::div_mod::lemma_small_mod(clock as nat, period as nat);
    } else {
        let before = (steps - 1) as nat;
        lemma_clock_is_periodic(clock, period, before);
        let p = period as int;
        let c = clock_after(clock, period, before) as int;
        vstd::arithmetic::div_mod::lemma_mod_bound(clock + before, p);
        vstd::arithmetic::div_mod::lemma_fundamental_div_mod(clock + before, p);
        let q = (clock + before) / p;
        if c + 1 >= p {
            assert(clock + steps == p * (q + 1)) by (nonlinear_arith)
                requires
                    clock + before == p * q + c,
                    c + 1 == p,
                    steps == before + 1,
            ;
            vstd::arithmetic::div_mod::lemma_mod_multiples_basic(q + 1, p);
            assert(p * (q + 1) == (q + 1) * p) by (nonlinear_arith);
        } else {
            vstd::arithmetic::div_mod::lemma_fundamental_div_mod_converse(clock + steps, p, q, c + 1);
        }
    }
}

} // verus!
