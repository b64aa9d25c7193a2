use polysynth::{MidiNoteEvent, Outcome, Synth, Tuning, ON_VOLUME};

fn on(key: u8) -> MidiNoteEvent {
    MidiNoteEvent::NoteOn { channel: 0, key, velocity: 100 }
}

fn off(key: u8) -> MidiNoteEvent {
    MidiNoteEvent::NoteOff { channel: 0, key, velocity: 0 }
}

/// Checks by hand what the invariant says: every voice of the pool is either
/// in the free queue, once, or sounds exactly one key, and its controls agree.
fn assert_partitioned(synth: &Synth) {
    let size = synth.pool_size();
    let free = synth.free_voices();
    let mut seen = vec![0usize; size];
    for voice in &free {
        assert!((*voice as usize) < size);
        seen[*voice as usize] += 1;
        assert_eq!(synth.voice(*voice).unwrap().volume(), 0);
    }
    let mut sounding = 0usize;
    for key in 0..=255u8 {
        if let Some(voice) = synth.voice_for_key(key) {
            assert!((voice as usize) < size);
            seen[voice as usize] += 1;
            sounding += 1;
            let slot = synth.voice(voice).unwrap();
            assert_eq!(slot.tuning(), Tuning::Key { key, halved: synth.is_halved() });
            assert_eq!(slot.volume(), ON_VOLUME);
        }
    }
    assert!(seen.iter().all(|count| *count == 1));
    assert_eq!(sounding, synth.active_notes());
    assert!(sounding <= size);
    assert_eq!(free.len() + sounding, size);
}

#[test]
fn new_synth_has_four_silent_free_voices() {
    let synth = Synth::new(44_100);
    assert_eq!(synth.pool_size(), 4);
    assert_eq!(synth.sample_rate(), 44_100);
    assert!(synth.is_halved());
    assert_eq!(synth.active_notes(), 0);
    assert_eq!(synth.free_voices(), vec![0, 1, 2, 3]);
    for index in 0..4u8 {
        let voice = synth.voice(index).unwrap();
        assert_eq!(voice.tuning(), Tuning::Fixed { hertz: 100 });
        assert_eq!(voice.volume(), 0);
        assert_eq!(voice.sample_rate(), 44_100);
        assert!(voice.oscillators().is_empty());
    }
    assert!(synth.voice(4).is_none());
    assert_partitioned(&synth);
}

#[test]
fn note_on_takes_voice_zero_and_note_off_returns_it_to_the_tail() {
    let mut synth = Synth::new(44_100);

    assert_eq!(synth.note_on(69, 100), Outcome::Assigned { voice: 0 });
    let voice = synth.voice(0).unwrap();
    assert_eq!(voice.tuning(), Tuning::Key { key: 69, halved: true });
    assert_eq!(voice.volume(), 60);
    assert_eq!(synth.voice_for_key(69), Some(0));
    assert_eq!(synth.free_voices(), vec![1, 2, 3]);
    assert_partitioned(&synth);

    assert_eq!(synth.note_off(69), Outcome::Released { voice: 0 });
    let voice = synth.voice(0).unwrap();
    assert_eq!(voice.volume(), 0);
    assert_eq!(voice.tuning(), Tuning::Key { key: 69, halved: true });
    assert_eq!(synth.voice_for_key(69), None);
    assert_eq!(synth.free_voices(), vec![1, 2, 3, 0]);
    assert_partitioned(&synth);
}

#[test]
fn fifth_note_is_dropped_when_all_four_voices_sound() {
    let mut synth = Synth::new(48_000);
    assert_eq!(synth.note_on(60, 1), Outcome::Assigned { voice: 0 });
    assert_eq!(synth.note_on(62, 1), Outcome::Assigned { voice: 1 });
    assert_eq!(synth.note_on(64, 1), Outcome::Assigned { voice: 2 });
    assert_eq!(synth.note_on(65, 1), Outcome::Assigned { voice: 3 });
    assert_eq!(synth.note_on(67, 1), Outcome::Dropped);

    assert_eq!(synth.active_notes(), 4);
    assert_eq!(synth.free_voices(), Vec::<u8>::new());
    assert_eq!(synth.voice_for_key(67), None);
    assert_eq!(synth.voice_for_key(60), Some(0));
    assert_eq!(synth.voice_for_key(62), Some(1));
    assert_eq!(synth.voice_for_key(64), Some(2));
    assert_eq!(synth.voice_for_key(65), Some(3));
    assert_partitioned(&synth);

    // Once a voice is free again, the key that was dropped can be played.
    assert_eq!(synth.note_off(62), Outcome::Released { voice: 1 });
    assert_eq!(synth.note_on(67, 1), Outcome::Assigned { voice: 1 });
    assert_partitioned(&synth);
}

#[test]
fn repeated_note_on_takes_no_second_voice() {
    let mut synth = Synth::new(44_100);
    assert_eq!(synth.note_on(72, 90), Outcome::Assigned { voice: 0 });
    assert_eq!(synth.note_on(72, 40), Outcome::Ignored);
    assert_eq!(synth.note_on(72, 0), Outcome::Ignored);
    assert_eq!(synth.active_notes(), 1);
    assert_eq!(synth.voice_for_key(72), Some(0));
    assert_eq!(synth.free_voices(), vec![1, 2, 3]);
    assert_eq!(synth.voice(1).unwrap().volume(), 0);
    assert_partitioned(&synth);
}

#[test]
fn note_off_for_silent_key_changes_nothing() {
    let mut synth = Synth::new(44_100);
    assert_eq!(synth.note_off(10), Outcome::Ignored);
    assert_eq!(synth.free_voices(), vec![0, 1, 2, 3]);
    assert_eq!(synth.note_on(11, 1), Outcome::Assigned { voice: 0 });
    assert_eq!(synth.note_off(10), Outcome::Ignored);
    assert_eq!(synth.free_voices(), vec![1, 2, 3]);
    assert_eq!(synth.voice_for_key(11), Some(0));
    assert_eq!(synth.voice(0).unwrap().volume(), 60);
    // A second note-off for a key that was released is ignored too.
    assert_eq!(synth.note_off(11), Outcome::Released { voice: 0 });
    assert_eq!(synth.note_off(11), Outcome::Ignored);
    assert_eq!(synth.free_voices(), vec![1, 2, 3, 0]);
    assert_partitioned(&synth);
}

#[test]
fn released_voices_are_reused_in_the_order_of_release() {
    let mut synth = Synth::new(44_100);
    for key in [50u8, 51, 52, 53] {
        assert!(matches!(synth.note_on(key, 1), Outcome::Assigned { .. }));
    }
    // Release voices 2, 0, 3 in that order.
    assert_eq!(synth.note_off(52), Outcome::Released { voice: 2 });
    assert_eq!(synth.note_off(50), Outcome::Released { voice: 0 });
    assert_eq!(synth.note_off(53), Outcome::Released { voice: 3 });
    assert_eq!(synth.free_voices(), vec![2, 0, 3]);
    assert_eq!(synth.note_on(60, 1), Outcome::Assigned { voice: 2 });
    assert_eq!(synth.note_on(61, 1), Outcome::Assigned { voice: 0 });
    assert_eq!(synth.note_on(62, 1), Outcome::Assigned { voice: 3 });
    assert_eq!(synth.voice(2).unwrap().tuning(), Tuning::Key { key: 60, halved: true });
    assert_eq!(synth.voice(0).unwrap().tuning(), Tuning::Key { key: 61, halved: true });
    assert_eq!(synth.voice(3).unwrap().tuning(), Tuning::Key { key: 62, halved: true });
    assert_partitioned(&synth);
}

#[test]
fn a_voice_that_was_free_before_is_reused_before_a_released_one() {
    let mut synth = Synth::new(44_100);
    assert_eq!(synth.note_on(50, 1), Outcome::Assigned { voice: 0 });
    assert_eq!(synth.note_on(51, 1), Outcome::Assigned { voice: 1 });
    assert_eq!(synth.note_on(52, 1), Outcome::Assigned { voice: 2 });
    assert_eq!(synth.note_off(50), Outcome::Released { voice: 0 });
    assert_eq!(synth.free_voices(), vec![3, 0]);
    assert_eq!(synth.note_on(60, 1), Outcome::Assigned { voice: 3 });
    assert_eq!(synth.note_on(61, 1), Outcome::Assigned { voice: 0 });
}

#[test]
fn process_event_dispatches_notes_and_ignores_the_rest() {
    let mut synth = Synth::new(44_100);
    assert_eq!(synth.process_event(MidiNoteEvent::Invalid), Outcome::Ignored);
    assert_eq!(synth.process_event(MidiNoteEvent::Other), Outcome::Ignored);
    assert_eq!(synth.free_voices(), vec![0, 1, 2, 3]);
    assert_eq!(synth.active_notes(), 0);

    assert_eq!(synth.process_event(on(69)), Outcome::Assigned { voice: 0 });
    assert_eq!(synth.process_event(on(69)), Outcome::Ignored);
    assert_eq!(synth.process_event(MidiNoteEvent::Other), Outcome::Ignored);
    assert_eq!(synth.voice_for_key(69), Some(0));
    assert_eq!(synth.process_event(off(69)), Outcome::Released { voice: 0 });
    assert_eq!(synth.process_event(off(69)), Outcome::Ignored);
    assert_eq!(synth.free_voices(), vec![1, 2, 3, 0]);
    assert_partitioned(&synth);
}

#[test]
fn channel_and_velocity_do_not_matter() {
    let mut synth = Synth::new(44_100);
    let outcome = synth.process_event(MidiNoteEvent::NoteOn { channel: 9, key: 40, velocity: 0 });
    assert_eq!(outcome, Outcome::Assigned { voice: 0 });
    assert_eq!(synth.voice(0).unwrap().volume(), 60);
    let outcome = synth.process_event(MidiNoteEvent::NoteOff { channel: 2, key: 40, velocity: 127 });
    assert_eq!(outcome, Outcome::Released { voice: 0 });
}

#[test]
fn invariant_holds_at_every_point_of_a_long_run() {
    let mut synth = Synth::new(44_100);
    // A fixed pseudo-random walk over a few keys, more than the pool can hold.
    let mut state: u32 = 12345;
    for _ in 0..2000 {
        state = state.wrapping_mul(1_103_515_245).wrapping_add(12_345);
        let key = 60 + ((state >> 16) % 7) as u8;
        let press = (state >> 8) & 1 == 0;
        let before_free = synth.free_voices();
        let before_voice = synth.voice_for_key(key);
        let outcome = synth.process_event(if press { on(key) } else { off(key) });
        match (press, before_voice, before_free.first()) {
            (true, Some(_), _) => assert_eq!(outcome, Outcome::Ignored),
            (true, None, None) => assert_eq!(outcome, Outcome::Dropped),
            (true, None, Some(head)) => assert_eq!(outcome, Outcome::Assigned { voice: *head }),
            (false, Some(voice), _) => assert_eq!(outcome, Outcome::Released { voice }),
            (false, None, _) => assert_eq!(outcome, Outcome::Ignored),
        }
        assert_partitioned(&synth);
    }
}

#[test]
fn held_keys_all_sound_while_they_fit_the_pool() {
    let mut synth = Synth::with_pool(44_100, 3, false);
    let events = [on(1), on(2), off(1), on(3), on(4), off(2), off(3), on(5), on(2), off(9)];
    let mut held: Vec<u8> = Vec::new();
    for event in events {
        match event {
            MidiNoteEvent::NoteOn { key, .. } => {
                if !held.contains(&key) {
                    held.push(key);
                }
            }
            MidiNoteEvent::NoteOff { key, .. } => held.retain(|k| *k != key),
            _ => {}
        }
        assert!(held.len() <= 3);
        assert_ne!(synth.process_event(event), Outcome::Dropped);
        for key in 0..=255u8 {
            assert_eq!(synth.voice_for_key(key).is_some(), held.contains(&key));
        }
    }
    assert_eq!(synth.active_notes(), 3);
}

#[test]
fn pool_of_chosen_size_and_tuning() {
    let mut synth = Synth::with_pool(22_050, 2, false);
    assert_eq!(synth.pool_size(), 2);
    assert_eq!(synth.sample_rate(), 22_050);
    assert!(!synth.is_halved());
    assert_eq!(synth.free_voices(), vec![0, 1]);
    assert_eq!(synth.note_on(69, 1), Outcome::Assigned { voice: 0 });
    assert_eq!(synth.voice(0).unwrap().tuning(), Tuning::Key { key: 69, halved: false });
    assert_eq!(synth.note_on(70, 1), Outcome::Assigned { voice: 1 });
    assert_eq!(synth.note_on(71, 1), Outcome::Dropped);
    assert_partitioned(&synth);
}

#[test]
fn empty_pool_drops_every_note() {
    let mut synth = Synth::with_pool(44_100, 0, true);
    assert_eq!(synth.pool_size(), 0);
    assert_eq!(synth.note_on(69, 1), Outcome::Dropped);
    assert_eq!(synth.note_off(69), Outcome::Ignored);
    assert!(synth.voice(0).is_none());
    assert_partitioned(&synth);
}

#[test]
fn largest_pool_hands_out_every_voice_once() {
    let mut synth = Synth::with_pool(44_100, 255, true);
    assert_eq!(synth.pool_size(), 255);
    for key in 0..255u8 {
        assert_eq!(synth.note_on(key, 1), Outcome::Assigned { voice: key });
    }
    assert_eq!(synth.note_on(255, 1), Outcome::Dropped);
    assert_partitioned(&synth);
}

#[test]
fn init_gives_every_voice_its_bank_and_keeps_the_allocation() {
    let mut synth = Synth::new(44_100);
    assert_eq!(synth.note_on(69, 1), Outcome::Assigned { voice: 0 });
    synth.init();
    for index in 0..4u8 {
        assert_eq!(synth.voice(index).unwrap().oscillators().len(), 3);
    }
    assert_eq!(synth.voice_for_key(69), Some(0));
    assert_eq!(synth.voice(0).unwrap().volume(), 60);
    assert_eq!(synth.free_voices(), vec![1, 2, 3]);
    assert_partitioned(&synth);
}

#[test]
fn process_events_serves_a_batch_in_order() {
    let mut batch = Synth::new(44_100);
    let events = [on(60), on(61), on(60), off(62), MidiNoteEvent::Other, off(60), on(62), on(63), on(64), on(65)];
    let outcomes = batch.process_events(&events);
    assert_eq!(
        outcomes,
        vec![
            Outcome::Assigned { voice: 0 },
            Outcome::Assigned { voice: 1 },
            Outcome::Ignored,
            Outcome::Ignored,
            Outcome::Ignored,
            Outcome::Released { voice: 0 },
            Outcome::Assigned { voice: 2 },
            Outcome::Assigned { voice: 3 },
            Outcome::Assigned { voice: 0 },
            Outcome::Dropped,
        ]
    );
    assert_partitioned(&batch);

    // One by one the same events do the same.
    let mut single = Synth::new(44_100);
    for (event, outcome) in events.iter().zip(outcomes.iter()) {
        assert_eq!(single.process_event(*event), *outcome);
    }
    assert_eq!(single.free_voices(), batch.free_voices());
    for key in 0..=255u8 {
        assert_eq!(single.voice_for_key(key), batch.voice_for_key(key));
    }
    assert_eq!(batch.process_events(&[]), Vec::<Outcome>::new());
}
