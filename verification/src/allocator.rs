//! The voice allocator as a state machine over mathematical values: which
//! voices are free, in which order they will be handed out, and which key
//! each of the others sounds.

use crate::midi::MidiNoteEvent;
use crate::voice::{detuned_bank, Tuning, VoiceView, ON_VOLUME, REST_HERTZ};
use vstd::prelude::*;

verus! {

/// What an event did to the pool.
#[derive(Clone, Copy, Debug, PartialEq, Eq, Structural)]
pub enum Outcome {
    /// The voice at the head of the free queue was taken and sounds the key.
    Assigned { voice: u8 },
    /// The voice that sounded the key was silenced and queued for reuse.
    Released { voice: u8 },
    /// Nothing changed: a note-on for a key that sounds already, a note-off
    /// for a key that does not sound, or a message that is no note.
    Ignored,
    /// Nothing changed: a note-on for a new key while every voice is taken.
    /// No voice is stolen.
    Dropped,
}

/// A synthesizer as contracts see it.
pub struct SynthView {
    /// The pool, by voice index.
    pub voices: Seq<VoiceView>,
    /// The free voices, the next one to be handed out first.
    pub free: Seq<u8>,
    /// The sounding keys, each with the voice that sounds it.
    pub assigned: Map<u8, u8>,
    /// Samples per second of the output stream.
    pub sample_rate: u32,
    /// Whether keys sound an octave below their pitch.
    pub halved: bool,
}

impl SynthView {
    /// The state of a new synthesizer: `size` silent voices, all free, in
    /// index order.
    pub open spec fn initial(sample_rate: u32, size: u8, halved: bool) -> SynthView {
        SynthView {
            voices: Seq::new(
                size as nat,
                |i: int|
                    VoiceView {
                        oscillators: Seq::empty(),
                        tuning: Tuning::Fixed { hertz: REST_HERTZ },
                        volume: 0,
                        sample_rate,
                    },
            ),
            free: Seq::new(size as nat, |i: int| i as u8),
            assigned: Map::empty(),
            sample_rate,
            halved,
        }
    }

    /// The state after every voice was given its oscillator bank. The
    /// allocation is left as it is.
    pub open spec fn initialized(self) -> SynthView {
        SynthView {
            voices: Seq::new(
                self.voices.len(),
                |i: int|
                    VoiceView {
                        oscillators: detuned_bank(self.voices[i].sample_rate),
                        ..self.voices[i]
                    },
            ),
            ..self
        }
    }

    /// Whether `voice` waits in the free queue.
    pub open spec fn is_free(self, voice: u8) -> bool {
        self.free.contains(voice)
    }

    /// Whether some key sounds through `voice`.
    pub open spec fn is_assigned(self, voice: u8) -> bool {
        exists|key: u8| self.assigned.contains_key(key) && #[trigger] self.assigned[key] == voice
    }

    /// Free and assigned voices partition the pool: no voice is queued
    /// twice, no voice sounds two keys, every voice of the pool is free or
    /// assigned, none is both, and nothing else is either.
    pub open spec fn partitioned(self) -> bool {
        &&& self.free.no_duplicates()
        &&& forall|a: u8, b: u8|
            self.assigned.contains_key(a) && self.assigned.contains_key(b) && a != b
                ==> #[trigger] self.assigned[a] != #[trigger] self.assigned[b]
        &&& forall|voice: u8|
            #![trigger self.is_free(voice)]
            #![trigger self.is_assigned(voice)]
            (self.is_free(voice) || self.is_assigned(voice)) <==> (voice as int) < self.voices.len()
        &&& forall|voice: u8|
            #![trigger self.is_free(voice)]
            #![trigger self.is_assigned(voice)]
            !(self.is_free(voice) && self.is_assigned(voice))
    }

    /// The voices' controls agree with the allocation: an assigned voice is
    /// tuned to its key at the on-volume, a free voice is silent.
    pub open spec fn controls_agree(self) -> bool {
        &&& forall|key: u8| #[trigger]
            self.assigned.contains_key(key) ==> self.voices[self.assigned[key] as int].tuning
                == (Tuning::Key { key, halved: self.halved })
                && self.voices[self.assigned[key] as int].volume == ON_VOLUME
        &&& forall|i: int|
            0 <= i < self.free.len() ==> self.voices[#[trigger] self.free[i] as int].volume == 0
    }

    /// The invariant of the allocator.
    pub open spec fn wf(self) -> bool {
        &&& self.assigned.dom().finite()
        &&& self.partitioned()
        &&& self.free.len() + self.assigned.len() == self.voices.len()
        &&& self.controls_agree()
    }

    /// The state after a note-on for `key`. A key that sounds already is
    /// ignored; with no free voice the note is dropped; otherwise the voice
    /// at the head of the free queue is tuned to the key and assigned to it.
    pub open spec fn note_on(self, key: u8) -> SynthView {
        if self.assigned.contains_key(key) || self.free.len() == 0 {
            self
        } else {
            let voice = self.free[0];
            SynthView {
                voices: self.voices.update(
                    voice as int,
                    self.voices[voice as int].sounding(key, self.halved),
                ),
                free: self.free.subrange(1, self.free.len() as int),
                assigned: self.assigned.insert(key, voice),
                ..self
            }
        }
    }

    /// What a note-on for `key` reports.
    pub open spec fn note_on_outcome(self, key: u8) -> Outcome {
        if self.assigned.contains_key(key) {
            Outcome::Ignored
        } else if self.free.len() == 0 {
            Outcome::Dropped
        } else {
            Outcome::Assigned { voice: self.free[0] }
        }
    }

    /// The state after a note-off for `key`. A key that does not sound is
    /// ignored; otherwise its voice is silenced, the assignment is removed
    /// and the voice joins the tail of the free queue.
    pub open spec fn note_off(self, key: u8) -> SynthView {
        if !self.assigned.contains_key(key) {
            self
        } else {
            let voice = self.assigned[key];
            SynthView {
                voices: self.voices.update(voice as int, self.voices[voice as int].silenced()),
                free: self.free.push(voice),
                assigned: self.assigned.remove(key),
                ..self
            }
        }
    }

    /// What a note-off for `key` reports.
    pub open spec fn note_off_outcome(self, key: u8) -> Outcome {
        if self.assigned.contains_key(key) {
            Outcome::Released { voice: self.assigned[key] }
        } else {
            Outcome::Ignored
        }
    }

    /// The state after one event.
    pub open spec fn step(self, event: MidiNoteEvent) -> SynthView {
        match event {
            MidiNoteEvent::NoteOn { key, .. } => self.note_on(key),
            MidiNoteEvent::NoteOff { key, .. } => self.note_off(key),
            _ => self,
        }
    }

    /// What one event reports.
    pub open spec fn step_outcome(self, event: MidiNoteEvent) -> Outcome {
        match event {
            MidiNoteEvent::NoteOn { key, .. } => self.note_on_outcome(key),
            MidiNoteEvent::NoteOff { key, .. } => self.note_off_outcome(key),
            _ => Outcome::Ignored,
        }
    }

    /// The state after a sequence of events, taken in order.
    pub open spec fn run(self, events: Seq<MidiNoteEvent>) -> SynthView
        decreases events.len(),
    {
        if events.len() == 0 {
            self
        } else {
            self.run(events.drop_last()).step(events.last())
        }
    }
}

/// Note-on events for `keys`, in order.
pub open spec fn note_ons(keys: Seq<u8>) -> Seq<MidiNoteEvent> {
    Seq::new(keys.len(), |i: int| MidiNoteEvent::NoteOn { channel: 0, key: keys[i], velocity: 0 })
}

/// Note-off events for `keys`, in order.
pub open spec fn note_offs(keys: Seq<u8>) -> Seq<MidiNoteEvent> {
    Seq::new(keys.len(), |i: int| MidiNoteEvent::NoteOff { channel: 0, key: keys[i], velocity: 0 })
}

/// The keys that are held down after `events`, where `held` were held down
/// before: a note-on adds its key, a note-off takes it away.
pub open spec fn held_after(held: Set<u8>, events: Seq<MidiNoteEvent>) -> Set<u8>
    decreases events.len(),
{
    if events.len() == 0 {
        held
    } else {
        let before = held_after(held, events.drop_last());
        match events.last() {
            MidiNoteEvent::NoteOn { key, .. } => before.insert(key),
            MidiNoteEvent::NoteOff { key, .. } => before.remove(key),
            _ => before,
        }
    }
}

/// A new synthesizer meets the invariant.
pub proof fn lemma_initial_wf(sample_rate: u32, size: u8, halved: bool)
    ensures
        SynthView::initial(sample_rate, size, halved).wf(),
{
    let s = SynthView::initial(sample_rate, size, halved);
    assert forall|voice: u8| (s.is_free(voice) || s.is_assigned(voice)) <==> (voice as int)
        < s.voices.len() by {
        if voice < size {
            assert(s.free[voice as int] == voice);
        }
    }
}

/// Instantiating the oscillator banks keeps the invariant.
pub proof fn lemma_initialized_preserves_wf(s: SynthView)
    requires
        s.wf(),
    ensures
        s.initialized().wf(),
{
    let t = s.initialized();
    assert forall|v: u8| t.is_free(v) == s.is_free(v) && t.is_assigned(v) == s.is_assigned(v) by {
        if s.is_assigned(v) {
            let k = choose|k: u8| s.assigned.contains_key(k) && s.assigned[k] == v;
            assert(t.assigned.contains_key(k) && t.assigned[k] == v);
        }
        if t.is_assigned(v) {
            let k = choose|k: u8| t.assigned.contains_key(k) && t.assigned[k] == v;
            assert(s.assigned.contains_key(k) && s.assigned[k] == v);
        }
    }
    assert forall|k: u8| #[trigger]
        t.assigned.contains_key(k) implies t.voices[t.assigned[k] as int].tuning == (Tuning::Key {
        key: k,
        halved: t.halved,
    }) && t.voices[t.assigned[k] as int].volume == ON_VOLUME by {
        assert(s.is_assigned(s.assigned[k]));
    }
    assert forall|i: int| 0 <= i < t.free.len() implies t.voices[#[trigger] t.free[i] as int].volume
        == 0 by {
        assert(s.is_free(s.free[i]));
    }
}

/// A note-on keeps the invariant, whether it assigns a voice or not.
pub proof fn lemma_note_on_preserves_wf(s: SynthView, key: u8)
    requires
        s.wf(),
    ensures
        s.note_on(key).wf(),
{
    let t = s.note_on(key);
    if !s.assigned.contains_key(key) && s.free.len() > 0 {
        let voice = s.free[0];
        assert(s.is_free(voice));
        assert forall|v: u8| t.is_free(v) <==> (s.is_free(v) && v != voice) by {
            if t.is_free(v) {
                let i = choose|i: int| 0 <= i < t.free.len() && t.free[i] == v;
                assert(s.free[i + 1] == v);
            }
            if s.is_free(v) && v != voice {
                let i = choose|i: int| 0 <= i < s.free.len() && s.free[i] == v;
                assert(t.free[i - 1] == v);
            }
        }
        assert forall|v: u8| t.is_assigned(v) <==> (s.is_assigned(v) || v == voice) by {
            if t.is_assigned(v) && v != voice {
                let k = choose|k: u8| t.assigned.contains_key(k) && t.assigned[k] == v;
                assert(s.assigned.contains_key(k) && s.assigned[k] == v);
            }
            if s.is_assigned(v) {
                let k = choose|k: u8| s.assigned.contains_key(k) && s.assigned[k] == v;
                assert(t.assigned.contains_key(k) && t.assigned[k] == v);
            }
            if v == voice {
                assert(t.assigned.contains_key(key) && t.assigned[key] == v);
            }
        }
        assert forall|a: u8, b: u8|
            t.assigned.contains_key(a) && t.assigned.contains_key(b) && a != b implies t.assigned[a]
            != t.assigned[b] by {
            if a != key {
                assert(s.is_assigned(s.assigned[a]));
            }
            if b != key {
                assert(s.is_assigned(s.assigned[b]));
            }
        }
        assert forall|v: u8|
            (t.is_free(v) || t.is_assigned(v)) <==> (v as int) < t.voices.len() by {
            assert(s.is_free(v) || s.is_assigned(v) <==> (v as int) < s.voices.len());
        }
        assert forall|v: u8| !(t.is_free(v) && t.is_assigned(v)) by {
            assert(!(s.is_free(v) && s.is_assigned(v)));
        }
        assert forall|k: u8| #[trigger]
            t.assigned.contains_key(k) implies t.voices[t.assigned[k] as int].tuning == (
        Tuning::Key { key: k, halved: t.halved }) && t.voices[t.assigned[k] as int].volume
            == ON_VOLUME by {
            if k != key {
                assert(s.is_assigned(s.assigned[k]));
            }
        }
        assert forall|i: int| 0 <= i < t.free.len() implies t.voices[#[trigger] t.free[i] as int].volume
            == 0 by {
            assert(t.free[i] == s.free[i + 1]);
            assert(t.is_free(t.free[i]));
        }
    }
}

/// A note-off keeps the invariant, whether it releases a voice or not.
pub proof fn lemma_note_off_preserves_wf(s: SynthView, key: u8)
    requires
        s.wf(),
    ensures
        s.note_off(key).wf(),
{
    let t = s.note_off(key);
    if s.assigned.contains_key(key) {
        let voice = s.assigned[key];
        assert(s.is_assigned(voice));
        assert forall|v: u8| t.is_free(v) <==> (s.is_free(v) || v == voice) by {
            if t.is_free(v) && v != voice {
                let i = choose|i: int| 0 <= i < t.free.len() && t.free[i] == v;
                assert(s.free[i] == v);
            }
            if s.is_free(v) {
                let i = choose|i: int| 0 <= i < s.free.len() && s.free[i] == v;
                assert(t.free[i] == v);
            }
            if v == voice {
                assert(t.free[s.free.len() as int] == v);
            }
        }
        assert forall|v: u8| t.is_assigned(v) <==> (s.is_assigned(v) && v != voice) by {
            if t.is_assigned(v) {
                let k = choose|k: u8| t.assigned.contains_key(k) && t.assigned[k] == v;
                assert(s.assigned.contains_key(k) && s.assigned[k] == v);
            }
            if s.is_assigned(v) && v != voice {
                let k = choose|k: u8| s.assigned.contains_key(k) && s.assigned[k] == v;
                assert(t.assigned.contains_key(k) && t.assigned[k] == v);
            }
        }
        assert(t.free.no_duplicates()) by {
            assert forall|i: int, j: int|
                0 <= i < t.free.len() && 0 <= j < t.free.len() && i != j implies t.free[i]
                != t.free[j] by {
                if i < s.free.len() {
                    assert(s.is_free(s.free[i]));
                }
                if j < s.free.len() {
                    assert(s.is_free(s.free[j]));
                }
            }
        }
        assert forall|v: u8|
            (t.is_free(v) || t.is_assigned(v)) <==> (v as int) < t.voices.len() by {
            assert(s.is_free(v) || s.is_assigned(v) <==> (v as int) < s.voices.len());
        }
        assert forall|v: u8| !(t.is_free(v) && t.is_assigned(v)) by {
            assert(!(s.is_free(v) && s.is_assigned(v)));
        }
        assert forall|k: u8| #[trigger]
            t.assigned.contains_key(k) implies t.voices[t.assigned[k] as int].tuning == (
        Tuning::Key { key: k, halved: t.halved }) && t.voices[t.assigned[k] as int].volume
            == ON_VOLUME by {
            assert(s.assigned.contains_key(k) && k != key);
            assert(s.is_assigned(s.assigned[k]));
            assert(s.assigned[k] != s.assigned[key]);
        }
        assert forall|i: int| 0 <= i < t.free.len() implies t.voices[#[trigger] t.free[i] as int].volume
            == 0 by {
            if i < s.free.len() {
                assert(t.free[i] == s.free[i]);
                assert(s.is_free(s.free[i]));
            }
        }
    }
}

/// One event keeps the invariant and the size of the pool.
pub proof fn lemma_step_preserves_wf(s: SynthView, event: MidiNoteEvent)
    requires
        s.wf(),
    ensures
        s.step(event).wf(),
        s.step(event).voices.len() == s.voices.len(),
{
    match event {
        MidiNoteEvent::NoteOn { key, .. } => lemma_note_on_preserves_wf(s, key),
        MidiNoteEvent::NoteOff { key, .. } => lemma_note_off_preserves_wf(s, key),
        _ => {},
    }
}

/// Whatever events arrive, in whatever order, the allocator ends in a state
/// that meets the invariant: the pool keeps its size, no more keys sound
/// than the pool has voices, and free and assigned voices partition the pool.
pub proof fn lemma_run_preserves_wf(s: SynthView, events: Seq<MidiNoteEvent>)
    requires
        s.wf(),
    ensures
        s.run(events).wf(),
        s.run(events).partitioned(),
        s.run(events).voices.len() == s.voices.len(),
        s.run(events).assigned.len() <= s.voices.len(),
        s.run(events).free.len() + s.run(events).assigned.len() == s.voices.len(),
    decreases events.len(),
{
    if events.len() > 0 {
        lemma_run_preserves_wf(s, events.drop_last());
        lemma_step_preserves_wf(s.run(events.drop_last()), events.last());
    }
}

/// The invariant holds at every point of a sequence of events, not only at
/// its end.
pub proof fn lemma_wf_at_every_point(s: SynthView, events: Seq<MidiNoteEvent>)
    requires
        s.wf(),
    ensures
        forall|n: int|
            0 <= n <= events.len() ==> {
                let t = #[trigger] s.run(events.take(n));
                &&& t.wf()
                &&& t.partitioned()
                &&& t.assigned.len() <= s.voices.len()
                &&& t.voices.len() == s.voices.len()
            },
{
    assert forall|n: int| 0 <= n <= events.len() implies {
        let t = #[trigger] s.run(events.take(n));
        &&& t.wf()
        &&& t.partitioned()
        &&& t.assigned.len() <= s.voices.len()
        &&& t.voices.len() == s.voices.len()
    } by {
        lemma_run_preserves_wf(s, events.take(n));
    }
}

/// A note-on for a key that sounds already changes nothing: no second voice
/// is taken from the queue.
pub proof fn lemma_note_on_for_sounding_key_is_noop(s: SynthView, key: u8)
    requires
        s.assigned.contains_key(key),
    ensures
        s.note_on(key) == s,
        s.note_on_outcome(key) == Outcome::Ignored,
{
}

/// A note-on repeated at once has no further effect, whatever the first one
/// did, and takes no voice.
pub proof fn lemma_repeated_note_on_is_noop(s: SynthView, key: u8)
    ensures
        s.note_on(key).note_on(key) == s.note_on(key),
        !(s.note_on(key).note_on_outcome(key) is Assigned),
{
}

/// A note-off for a key that does not sound changes nothing.
pub proof fn lemma_note_off_for_silent_key_is_noop(s: SynthView, key: u8)
    requires
        !s.assigned.contains_key(key),
    ensures
        s.note_off(key) == s,
        s.note_off_outcome(key) == Outcome::Ignored,
{
}

/// A note-off repeated at once has no further effect.
pub proof fn lemma_repeated_note_off_is_noop(s: SynthView, key: u8)
    ensures
        s.note_off(key).note_off(key) == s.note_off(key),
        s.note_off(key).note_off_outcome(key) == Outcome::Ignored,
{
}

/// While fewer keys sound than the pool has voices, a note-on for a new key
/// is served: it is dropped only when every voice is taken.
pub proof fn lemma_dropped_only_when_full(s: SynthView, key: u8)
    requires
        s.wf(),
    ensures
        s.note_on_outcome(key) == Outcome::Dropped <==> !s.assigned.contains_key(key)
            && s.assigned.len() == s.voices.len(),
{
}

/// Running two sequences of events one after the other is running their
/// concatenation.
pub proof fn lemma_run_concat(s: SynthView, first: Seq<MidiNoteEvent>, second: Seq<MidiNoteEvent>)
    ensures
        s.run(first + second) == s.run(first).run(second),
    decreases second.len(),
{
    if second.len() == 0 {
        assert(first + second =~= first);
    } else {
        lemma_run_concat(s, first, second.drop_last());
        assert((first + second).drop_last() =~= first + second.drop_last());
    }
}

/// Releasing sounding keys queues their voices behind the voices that are
/// free already, in the order of the releases, and ends their assignments.
pub proof fn lemma_releases_join_the_tail(s: SynthView, keys: Seq<u8>)
    requires
        s.wf(),
        keys.no_duplicates(),
        forall|i: int| 0 <= i < keys.len() ==> s.assigned.contains_key(#[trigger] keys[i]),
    ensures
        s.run(note_offs(keys)).wf(),
        s.run(note_offs(keys)).free == s.free + Seq::new(keys.len(), |i: int| s.assigned[keys[i]]),
        s.run(note_offs(keys)).assigned == s.assigned.remove_keys(keys.to_set()),
    decreases keys.len(),
{
    let t = s.run(note_offs(keys));
    if keys.len() == 0 {
        assert(t.free =~= s.free + Seq::new(keys.len(), |i: int| s.assigned[keys[i]]));
        assert(t.assigned =~= s.assigned.remove_keys(keys.to_set()));
    } else {
        let front = keys.drop_last();
        let key = keys.last();
        lemma_releases_join_the_tail(s, front);
        assert(note_offs(keys).drop_last() =~= note_offs(front));
        let u = s.run(note_offs(front));
        assert(t == u.note_off(key));
        assert(!front.to_set().contains(key)) by {
            if front.contains(key) {
                let i = choose|i: int| 0 <= i < front.len() && front[i] == key;
                assert(keys[i] == keys[keys.len() - 1]);
            }
        }
        assert(u.assigned.contains_key(key));
        lemma_note_off_preserves_wf(u, key);
        assert(t.free =~= s.free + Seq::new(keys.len(), |i: int| s.assigned[keys[i]]));
        assert(t.assigned =~= s.assigned.remove_keys(keys.to_set())) by {
            assert forall|k: u8| keys.to_set().contains(k) <==> (front.to_set().contains(k) || k
                == key) by {
                if keys.contains(k) {
                    let i = choose|i: int| 0 <= i < keys.len() && keys[i] == k;
                    if i < front.len() {
                        assert(front[i] == k);
                    }
                }
                if front.contains(k) {
                    let i = choose|i: int| 0 <= i < front.len() && front[i] == k;
                    assert(keys[i] == k);
                }
                if k == key {
                    assert(keys[keys.len() - 1] == k);
                }
            }
        }
    }
}

/// Requests for new keys are served from the head of the free queue, one
/// voice each, in the order of the requests.
pub proof fn lemma_requests_follow_the_queue(s: SynthView, keys: Seq<u8>)
    requires
        s.wf(),
        keys.no_duplicates(),
        forall|i: int| 0 <= i < keys.len() ==> !s.assigned.contains_key(#[trigger] keys[i]),
        keys.len() <= s.free.len(),
    ensures
        s.run(note_ons(keys)).wf(),
        s.run(note_ons(keys)).free == s.free.skip(keys.len() as int),
        forall|i: int|
            0 <= i < keys.len() ==> s.run(note_ons(keys)).assigned.contains_key(#[trigger] keys[i])
                && s.run(note_ons(keys)).assigned[keys[i]] == s.free[i],
        forall|k: u8|
            s.assigned.contains_key(k) ==> #[trigger] s.run(note_ons(keys)).assigned.contains_key(k)
                && s.run(note_ons(keys)).assigned[k] == s.assigned[k],
        forall|k: u8| #[trigger]
            s.run(note_ons(keys)).assigned.contains_key(k) ==> s.assigned.contains_key(k)
                || keys.contains(k),
    decreases keys.len(),
{
    let t = s.run(note_ons(keys));
    if keys.len() == 0 {
        assert(t.free =~= s.free.skip(0));
    } else {
        let front = keys.drop_last();
        let key = keys.last();
        lemma_requests_follow_the_queue(s, front);
        assert(note_ons(keys).drop_last() =~= note_ons(front));
        let u = s.run(note_ons(front));
        assert(t == u.note_on(key));
        assert(!u.assigned.contains_key(key)) by {
            if front.contains(key) {
                let i = choose|i: int| 0 <= i < front.len() && front[i] == key;
                assert(keys[i] == keys[keys.len() - 1]);
            }
            assert(!s.assigned.contains_key(keys[keys.len() - 1]));
        }
        lemma_note_on_preserves_wf(u, key);
        assert(u.free.len() > 0);
        assert(u.free[0] == s.free[front.len() as int]);
        assert(t.free =~= s.free.skip(keys.len() as int));
        assert forall|i: int| 0 <= i < keys.len() implies t.assigned.contains_key(#[trigger] keys[i])
            && t.assigned[keys[i]] == s.free[i] by {
            if i < front.len() {
                assert(front[i] == keys[i]);
            }
        }
        assert forall|k: u8| #[trigger] t.assigned.contains_key(k) implies s.assigned.contains_key(k)
            || keys.contains(k) by {
            if k == key {
                assert(keys[keys.len() - 1] == k);
            } else {
                assert(u.assigned.contains_key(k));
                if front.contains(k) {
                    let i = choose|i: int| 0 <= i < front.len() && front[i] == k;
                    assert(keys[i] == k);
                }
            }
        }
    }
}

/// Round-robin reuse. With no voice free, releasing the voices of some keys
/// in one order and then requesting as many new keys hands those voices out
/// again in the order in which they were released: the voice released first
/// goes to the first request.
pub proof fn lemma_fifo_reuse(s: SynthView, released: Seq<u8>, requested: Seq<u8>)
    requires
        s.wf(),
        s.free.len() == 0,
        released.no_duplicates(),
        forall|i: int| 0 <= i < released.len() ==> s.assigned.contains_key(#[trigger] released[i]),
        requested.no_duplicates(),
        requested.len() == released.len(),
        forall|i: int|
            0 <= i < requested.len() ==> !s.assigned.contains_key(#[trigger] requested[i])
                || released.contains(requested[i]),
    ensures
        forall|i: int|
            0 <= i < requested.len() ==> {
                let t = s.run(note_offs(released) + note_ons(requested));
                &&& t.assigned.contains_key(#[trigger] requested[i])
                &&& t.assigned[requested[i]] == s.assigned[released[i]]
            },
{
    let u = s.run(note_offs(released));
    lemma_run_concat(s, note_offs(released), note_ons(requested));
    lemma_releases_join_the_tail(s, released);
    assert forall|i: int| 0 <= i < requested.len() implies !u.assigned.contains_key(
        #[trigger] requested[i],
    ) by {
        if released.contains(requested[i]) {
            assert(released.to_set().contains(requested[i]));
        }
    }
    lemma_requests_follow_the_queue(u, requested);
}

/// Polyphony within the pool. Where at no point more keys are held down than
/// the pool has voices, no note is ever dropped: after the events, the keys
/// that sound are exactly the keys that are held down.
pub proof fn lemma_held_keys_sound(s: SynthView, events: Seq<MidiNoteEvent>)
    requires
        s.wf(),
        forall|n: int|
            0 <= n <= events.len() ==> (#[trigger] held_after(
                s.assigned.dom(),
                events.take(n),
            )).len() <= s.voices.len(),
    ensures
        s.run(events).assigned.dom() == held_after(s.assigned.dom(), events),
    decreases events.len(),
{
    if events.len() > 0 {
        let front = events.drop_last();
        assert forall|n: int| 0 <= n <= front.len() implies (#[trigger] held_after(
            s.assigned.dom(),
            front.take(n),
        )).len() <= s.voices.len() by {
            assert(front.take(n) =~= events.take(n));
        }
        lemma_held_keys_sound(s, front);
        lemma_run_preserves_wf(s, front);
        let u = s.run(front);
        let held = held_after(s.assigned.dom(), events);
        assert(events.take(events.len() as int) =~= events);
        assert(held.len() <= s.voices.len());
        match events.last() {
            MidiNoteEvent::NoteOn { key, .. } => {
                if !u.assigned.contains_key(key) {
                    assert(held.len() == u.assigned.dom().len() + 1);
                    assert(u.free.len() > 0);
                }
                assert(u.note_on(key).assigned.dom() =~= held);
            },
            MidiNoteEvent::NoteOff { key, .. } => {
                assert(u.note_off(key).assigned.dom() =~= held);
            },
            _ => {},
        }
    }
}

} // verus!
