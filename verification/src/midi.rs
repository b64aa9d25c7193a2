//! MIDI note events and their decoding from raw bytes.

use midi_control::MidiMessage;
use vstd::prelude::*;

verus! {

/// The status byte that opens a system-exclusive message.
pub const SYSEX: u8 = 0xF0;

/// The bits of a status byte that hold the kind of a channel message.
pub const EVENT_MASK: u8 = 0xF0;

/// The bits of a status byte that hold the channel of a channel message.
pub const CHANNEL_MASK: u8 = 0x0F;

/// The kind bits of a note-off message.
pub const NOTE_OFF: u8 = 0x80;

/// The kind bits of a note-on message.
pub const NOTE_ON: u8 = 0x90;

/// The kind bits of the first channel message after note-on; every kind from
/// here up to system-exclusive is a recognised message that is no note.
pub const KEY_PRESSURE: u8 = 0xA0;

/// One decoded MIDI message, as far as the synthesizer tells messages apart.
#[derive(Clone, Copy, Debug, PartialEq, Eq, Structural)]
pub enum MidiNoteEvent {
    /// A key was pressed.
    NoteOn { channel: u8, key: u8, velocity: u8 },
    /// A key was released.
    NoteOff { channel: u8, key: u8, velocity: u8 },
    /// The bytes are no message: too short, or with an unknown status byte.
    Invalid,
    /// A well-formed message that is neither note-on nor note-off.
    Other,
}

/// The event that a raw message stands for.
///
/// A message has at least three bytes. Below [`SYSEX`] the status byte holds
/// the kind in its high four bits and the channel in its low four bits; the
/// two bytes after it are key and velocity.
pub open spec fn decoded(data: Seq<u8>) -> MidiNoteEvent {
    if data.len() < 3 {
        MidiNoteEvent::Invalid
    } else if data[0] == SYSEX {
        MidiNoteEvent::Other
    } else if data[0] > SYSEX {
        MidiNoteEvent::Invalid
    } else if data[0] & EVENT_MASK == NOTE_ON {
        MidiNoteEvent::NoteOn { channel: data[0] & CHANNEL_MASK, key: data[1], velocity: data[2] }
    } else if data[0] & EVENT_MASK == NOTE_OFF {
        MidiNoteEvent::NoteOff { channel: data[0] & CHANNEL_MASK, key: data[1], velocity: data[2] }
    } else if data[0] >= KEY_PRESSURE {
        MidiNoteEvent::Other
    } else {
        MidiNoteEvent::Invalid
    }
}

/// Calls `MidiMessage::from(&[u8])` of `midi_control` and keeps of its answer
/// the variant, and for the two note variants channel, key and velocity.
///
/// Trusted: the parser returns `Invalid` for fewer than three bytes, for a
/// status byte under `0x80` and for one over `0xF0`; `NoteOn` and `NoteOff` for
/// the kinds `0x90` and `0x80`, with the channel taken from the low four bits
/// and key and velocity from the next two bytes; and another variant for the
/// kinds `0xA0` to `0xE0`. Input that opens with `0xF0` is left out: there
/// the parser reads on behind the third byte without asking how many bytes
/// there are.
#[verifier::external_body]
fn parse_channel_message(data: &[u8]) -> (event: MidiNoteEvent)
    requires
        data@.len() >= 3 ==> data@[0] != SYSEX,
    ensures
        event == decoded(data@),
{
    match MidiMessage::from(data) {
        MidiMessage::NoteOn(c, k) => MidiNoteEvent::NoteOn { channel: c as u8, key: k.key, velocity: k.value },
        MidiMessage::NoteOff(c, k) => MidiNoteEvent::NoteOff { channel: c as u8, key: k.key, velocity: k.value },
        MidiMessage::Invalid => MidiNoteEvent::Invalid,
        _ => MidiNoteEvent::Other,
    }
}

/// Decodes one raw MIDI message.
///
/// Every input is accepted. A system-exclusive message is reported as
/// [`MidiNoteEvent::Other`] without being parsed: it is no note whatever it
/// holds, and the synthesizer has no use for its payload.
pub fn decode(data: &[u8]) -> (event: MidiNoteEvent)
    ensures
        event == decoded(data@),
{
    if data.len() >= 3 && data[0] == SYSEX {
        MidiNoteEvent::Other
    } else {
        parse_channel_message(data)
    }
}

} // verus!
