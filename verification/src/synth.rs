//! The synthesizer: a fixed pool of voices, the queue of the free ones and
//! the map from sounding keys to the voices that sound them.

use crate::allocator::{
    lemma_initial_wf, lemma_initialized_preserves_wf, lemma_note_off_preserves_wf,
    lemma_note_on_preserves_wf, Outcome, SynthView,
};
use crate::midi::MidiNoteEvent;
use crate::voice::Voice;
use std::collections::{HashMap, VecDeque};
use vstd::prelude::*;

verus! {

/// Voices in the pool of [`Synth::new`].
pub const DEFAULT_VOICES: u8 = 4;

/// A polyphonic synthesizer's control state.
pub struct Synth {
    voices: Vec<Voice>,
    next_voice: VecDeque<u8>,
    key_map: HashMap<u8, u8>,
    sample_rate: u32,
    halved: bool,
}

impl View for Synth {
    type V = SynthView;

    closed spec fn view(&self) -> SynthView {
        SynthView {
            voices: Seq::new(self.voices@.len(), |i: int| self.voices@[i]@),
            free: self.next_voice@,
            assigned: self.key_map@,
            sample_rate: self.sample_rate,
            halved: self.halved,
        }
    }
}

impl Synth {
    /// A synthesizer with [`DEFAULT_VOICES`] voices, whose keys sound an
    /// octave below their pitch.
    pub fn new(sample_rate: u32) -> (synth: Synth)
        ensures
            synth@ == SynthView::initial(sample_rate, DEFAULT_VOICES, true),
            synth@.wf(),
    {
        Synth::with_pool(sample_rate, DEFAULT_VOICES, true)
    }

    /// A synthesizer with `size` voices, all silent and free, to be handed
    /// out in index order. Where `halved`, keys sound an octave below their
    /// pitch.
    pub fn with_pool(sample_rate: u32, size: u8, halved: bool) -> (synth: Synth)
        ensures
            synth@ == SynthView::initial(sample_rate, size, halved),
            synth@.wf(),
    {
        let mut voices: Vec<Voice> = Vec::new();
        let mut next_voice: VecDeque<u8> = VecDeque::new();
        let mut index: u8 = 0;
        while index < size
            invariant
                index <= size,
                voices@.len() == index,
                next_voice@.len() == index,
                forall|i: int| 0 <= i < index ==> next_voice@[i] == i,
                forall|i: int|
                    0 <= i < index ==> (#[trigger] voices@[i])@ == SynthView::initial(
                        sample_rate,
                        size,
                        halved,
                    ).voices[i],
            decreases size - index,
        {
            voices.push(Voice::new(sample_rate));
            next_voice.push_back(index);
            index = index + 1;
        }
        let synth = Synth { voices, next_voice, key_map: HashMap::new(), sample_rate, halved };
        proof {
            let initial = SynthView::initial(sample_rate, size, halved);
            assert(synth@.voices =~= initial.voices);
            assert(synth@.free =~= initial.free);
            lemma_initial_wf(sample_rate, size, halved);
        }
        synth
    }

    /// Instantiates the oscillator bank of every voice. The allocation is
    /// left as it is.
    pub fn init(&mut self)
        ensures
            final(self)@ == old(self)@.initialized(),
            old(self)@.wf() ==> final(self)@.wf(),
    {
        let mut index: usize = 0;
        while index < self.voices.len()
            invariant
                index <= self.voices@.len(),
                self.voices@.len() == old(self).voices@.len(),
                self.next_voice == old(self).next_voice,
                self.key_map == old(self).key_map,
                self.sample_rate == old(self).sample_rate,
                self.halved == old(self).halved,
                forall|i: int|
                    0 <= i < index ==> (#[trigger] self.voices@[i])@ == old(self)@.initialized().voices[i],
                forall|i: int|
                    index <= i < self.voices@.len() ==> #[trigger] self.voices@[i] == old(self).voices@[i],
            decreases self.voices@.len() - index,
        {
            self.voices[index].init();
            index = index + 1;
        }
        proof {
            assert(self@.voices =~= old(self)@.initialized().voices);
            if old(self)@.wf() {
                lemma_initialized_preserves_wf(old(self)@);
            }
        }
    }

    /// Serves a note-on. A key that sounds already is ignored, so that no
    /// second voice is spent on it. Otherwise the voice that has been free
    /// the longest is tuned to the key, set to the on-volume and assigned to
    /// it; with no free voice the note is dropped. The velocity has no
    /// effect: every note sounds at the same volume.
    pub fn note_on(&mut self, key: u8, velocity: u8) -> (outcome: Outcome)
        requires
            old(self)@.wf(),
        ensures
            final(self)@ == old(self)@.note_on(key),
            outcome == old(self)@.note_on_outcome(key),
            final(self)@.wf(),
    {
        proof {
            lemma_note_on_preserves_wf(self@, key);
        }
        if self.key_map.contains_key(&key) {
            return Outcome::Ignored;
        }
        match self.next_voice.pop_front() {
            None => Outcome::Dropped,
            Some(voice) => {
                assert(old(self)@.is_free(voice)) by {
                    assert(old(self)@.free[0] == voice);
                }
                self.voices[voice as usize].sound(key, self.halved);
                self.key_map.insert(key, voice);
                assert(self@.voices =~= old(self)@.note_on(key).voices);
                Outcome::Assigned { voice }
            },
        }
    }

    /// Serves a note-off. A key that does not sound is ignored. Otherwise
    /// its voice is silenced, the assignment is removed, and the voice joins
    /// the tail of the free queue, so that it is the last to be reused.
    pub fn note_off(&mut self, key: u8) -> (outcome: Outcome)
        requires
            old(self)@.wf(),
        ensures
            final(self)@ == old(self)@.note_off(key),
            outcome == old(self)@.note_off_outcome(key),
            final(self)@.wf(),
    {
        proof {
            lemma_note_off_preserves_wf(self@, key);
        }
        match self.key_map.remove(&key) {
            None => {
                assert(self.key_map@ =~= old(self).key_map@);
                Outcome::Ignored
            },
            Some(voice) => {
                assert(old(self)@.is_assigned(voice)) by {
                    assert(old(self)@.assigned.contains_key(key) && old(self)@.assigned[key] == voice);
                }
                self.voices[voice as usize].silence();
                self.next_voice.push_back(voice);
                assert(self@.voices =~= old(self)@.note_off(key).voices);
                Outcome::Released { voice }
            },
        }
    }

    /// Serves one decoded MIDI message: note-on and note-off reach the
    /// allocator, anything else is ignored.
    pub fn process_event(&mut self, event: MidiNoteEvent) -> (outcome: Outcome)
        requires
            old(self)@.wf(),
        ensures
            final(self)@ == old(self)@.step(event),
            outcome == old(self)@.step_outcome(event),
            final(self)@.wf(),
    {
        match event {
            MidiNoteEvent::NoteOn { channel: _, key, velocity } => self.note_on(key, velocity),
            MidiNoteEvent::NoteOff { channel: _, key, velocity: _ } => self.note_off(key),
            _ => Outcome::Ignored,
        }
    }

    /// Serves a batch of decoded MIDI messages in order, as they were drained
    /// from the input queue, and reports what each of them did.
    pub fn process_events(&mut self, events: &[MidiNoteEvent]) -> (outcomes: Vec<Outcome>)
        requires
            old(self)@.wf(),
        ensures
            final(self)@ == old(self)@.run(events@),
            final(self)@.wf(),
            outcomes@.len() == events@.len(),
            forall|i: int|
                0 <= i < events@.len() ==> #[trigger] outcomes@[i] == old(self)@.run(
                    events@.take(i),
                ).step_outcome(events@[i]),
    {
        let mut outcomes: Vec<Outcome> = Vec::new();
        let mut served: usize = 0;
        while served < events.len()
            invariant
                served <= events@.len(),
                self@.wf(),
                self@ == old(self)@.run(events@.take(served as int)),
                outcomes@.len() == served,
                forall|i: int|
                    0 <= i < served ==> #[trigger] outcomes@[i] == old(self)@.run(
                        events@.take(i),
                    ).step_outcome(events@[i]),
            decreases events@.len() - served,
        {
            let outcome = self.process_event(events[served]);
            outcomes.push(outcome);
            proof {
                assert(events@.take(served + 1).drop_last() =~= events@.take(served as int));
            }
            served = served + 1;
        }
        proof {
            assert(events@.take(events@.len() as int) =~= events@);
        }
        outcomes
    }

    /// The number of voices in the pool.
    pub fn pool_size(&self) -> (size: usize)
        ensures
            size == self@.voices.len(),
    {
        self.voices.len()
    }

    /// The voice at `index`, if the pool has one there.
    pub fn voice(&self, index: u8) -> (voice: Option<&Voice>)
        ensures
            match voice {
                Some(v) => (index as int) < self@.voices.len() && v@ == self@.voices[index as int],
                None => index as int >= self@.voices.len(),
            },
    {
        if (index as usize) < self.voices.len() {
            Some(&self.voices[index as usize])
        } else {
            None
        }
    }

    /// The voice that sounds `key`, if the key sounds.
    pub fn voice_for_key(&self, key: u8) -> (voice: Option<u8>)
        ensures
            voice == (if self@.assigned.contains_key(key) {
                Some(self@.assigned[key])
            } else {
                None
            }),
    {
        match self.key_map.get(&key) {
            Some(voice) => Some(*voice),
            None => None,
        }
    }

    /// The free voices, the next one to be handed out first.
    pub fn free_voices(&self) -> (free: Vec<u8>)
        ensures
            free@ == self@.free,
    {
        let mut free: Vec<u8> = Vec::new();
        let mut i: usize = 0;
        while i < self.next_voice.len()
            invariant
                i <= self.next_voice@.len(),
                free@ == self.next_voice@.take(i as int),
            decreases self.next_voice@.len() - i,
        {
            free.push(self.next_voice[i]);
            i = i + 1;
            assert(free@ =~= self.next_voice@.take(i as int));
        }
        assert(free@ =~= self.next_voice@);
        free
    }

    /// The number of keys that sound.
    pub fn active_notes(&self) -> (count: usize)
        ensures
            count == self@.assigned.len(),
    {
        self.key_map.len()
    }

    /// Samples per second of the output stream.
    pub fn sample_rate(&self) -> (rate: u32)
        ensures
            rate == self@.sample_rate,
    {
        self.sample_rate
    }

    /// Whether keys sound an octave below their pitch.
    pub fn is_halved(&self) -> (halved: bool)
        ensures
            halved == self@.halved,
    {
        self.halved
    }
}

} // verus!
