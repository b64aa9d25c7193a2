use polysynth::{Oscillator, OscillatorShape, Voice, Tuning};

#[test]
fn new_oscillator_starts_its_period_in_tune() {
    let osc = Oscillator::new(44_100, OscillatorShape::Triangle);
    assert_eq!(osc.shape, OscillatorShape::Triangle);
    assert_eq!(osc.sample_rate(), 44_100);
    assert_eq!(osc.sample_rate, 44_100);
    assert_eq!(osc.detune, 0);
    assert_eq!(osc.sample_clock, 0);
}

#[test]
fn with_detune_changes_the_detune_only() {
    let osc = Oscillator::new(48_000, OscillatorShape::Square).with_detune(-1);
    assert_eq!(
        osc,
        Oscillator { shape: OscillatorShape::Square, sample_rate: 48_000, detune: -1, sample_clock: 0 }
    );
}

#[test]
fn advance_counts_up_and_wraps_at_the_period() {
    let mut osc = Oscillator::new(44_100, OscillatorShape::Sine);
    assert_eq!(osc.advance(4), 1);
    assert_eq!(osc.advance(4), 2);
    assert_eq!(osc.advance(4), 3);
    assert_eq!(osc.advance(4), 0);
    assert_eq!(osc.advance(4), 1);
    assert_eq!(osc.sample_clock, 1);
    assert_eq!(osc.shape, OscillatorShape::Sine);
    assert_eq!(osc.sample_rate, 44_100);
}

#[test]
fn advance_with_period_of_one_or_none_stays_at_zero() {
    let mut osc = Oscillator::new(44_100, OscillatorShape::Sawtooth);
    assert_eq!(osc.advance(1), 0);
    assert_eq!(osc.advance(1), 0);
    assert_eq!(osc.advance(0), 0);
}

#[test]
fn advance_wraps_a_phase_that_lies_beyond_a_shorter_period() {
    let mut osc = Oscillator { shape: OscillatorShape::Sine, sample_rate: 8_000, detune: 0, sample_clock: 90 };
    assert_eq!(osc.advance(10), 0);
    let mut osc = Oscillator { shape: OscillatorShape::Sine, sample_rate: u32::MAX, detune: 0, sample_clock: u32::MAX };
    assert_eq!(osc.advance(u32::MAX), 0);
    let mut osc = Oscillator { shape: OscillatorShape::Sine, sample_rate: u32::MAX, detune: 0, sample_clock: u32::MAX - 2 };
    assert_eq!(osc.advance(u32::MAX), u32::MAX - 1);
    assert_eq!(osc.advance(u32::MAX), 0);
}

#[test]
fn advance_plays_no_lower_than_one_hertz() {
    // A period of more than one second is cut to one second.
    let mut osc = Oscillator::new(4, OscillatorShape::Square);
    let clocks: Vec<u32> = (0..9).map(|_| osc.advance(1_000)).collect();
    assert_eq!(clocks, vec![1, 2, 3, 0, 1, 2, 3, 0, 1]);
    // Exactly one second is left as it is.
    let mut osc = Oscillator::new(4, OscillatorShape::Square);
    let clocks: Vec<u32> = (0..5).map(|_| osc.advance(4)).collect();
    assert_eq!(clocks, vec![1, 2, 3, 0, 1]);
    // Without a sample rate the phase stays where a period begins.
    let mut osc = Oscillator::new(0, OscillatorShape::Square);
    assert_eq!(osc.advance(100), 0);
    assert_eq!(osc.advance(0), 0);
}

#[test]
fn phase_is_the_sample_count_modulo_the_period() {
    // 44100 Hz over 440 Hz is 100.2..., rounded up: 101 samples.
    let period = 101u32;
    let mut osc = Oscillator::new(44_100, OscillatorShape::Sine);
    for step in 1..=10_000u32 {
        let clock = osc.advance(period);
        assert_eq!(clock, step % period);
        assert!(clock < period);
    }
}

#[test]
fn new_voice_is_silent_at_rest() {
    let voice = Voice::new(44_100);
    assert_eq!(voice.tuning(), Tuning::Fixed { hertz: 100 });
    assert_eq!(voice.volume(), 0);
    assert_eq!(voice.sample_rate(), 44_100);
    assert!(voice.oscillators().is_empty());
}

#[test]
fn init_builds_three_detuned_sawtooth_oscillators() {
    let mut voice = Voice::new(44_100);
    voice.init();
    let expected = vec![
        Oscillator { shape: OscillatorShape::Sawtooth, sample_rate: 44_100, detune: -1, sample_clock: 0 },
        Oscillator { shape: OscillatorShape::Sawtooth, sample_rate: 44_100, detune: 0, sample_clock: 0 },
        Oscillator { shape: OscillatorShape::Sawtooth, sample_rate: 44_100, detune: 1, sample_clock: 0 },
    ];
    assert_eq!(voice.oscillators(), &expected);
    // A second call replaces the bank; it does not add to it.
    voice.init();
    assert_eq!(voice.oscillators(), &expected);
    assert_eq!(voice.tuning(), Tuning::Fixed { hertz: 100 });
    assert_eq!(voice.volume(), 0);
}

#[test]
fn sound_and_silence_set_the_shared_controls() {
    let mut voice = Voice::new(44_100);
    voice.init();
    voice.sound(69, true);
    assert_eq!(voice.tuning(), Tuning::Key { key: 69, halved: true });
    assert_eq!(voice.volume(), 60);
    assert_eq!(voice.oscillators().len(), 3);
    voice.silence();
    assert_eq!(voice.tuning(), Tuning::Key { key: 69, halved: true });
    assert_eq!(voice.volume(), 0);
    voice.sound(0, false);
    assert_eq!(voice.tuning(), Tuning::Key { key: 0, halved: false });
    assert_eq!(voice.volume(), 60);
}
