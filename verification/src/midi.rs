//! Decoding of raw MIDI input messages into note events.
//!
//! Note on / note off on any channel become note events (a note on with
//! velocity zero is a note off, as MIDI prescribes); control change 123 (All
//! Notes Off) releases every key. Everything else is ignored.

use vstd::prelude::*;

use crate::params::{spec_push, EventQueue, MidiMsg};

verus! {

/// Byte `i` of a message, or 0 when the message is shorter.
pub open spec fn byte_or_zero(message: Seq<u8>, i: int) -> u8 {
    if i < message.len() {
        message[i]
    } else {
        0
    }
}

/// The note event that a raw MIDI message stands for, if any.
pub open spec fn spec_parse_message(message: Seq<u8>) -> Option<MidiMsg> {
    if message.len() == 0 {
        None
    } else {
        let status = message[0] / 16;
        let note = byte_or_zero(message, 1);
        if status == 9 {
            let velocity = byte_or_zero(message, 2);
            if velocity == 0 {
                Some(MidiMsg::NoteOff { note })
            } else {
                Some(MidiMsg::NoteOn { note, velocity })
            }
        } else if status == 8 {
            Some(MidiMsg::NoteOff { note })
        } else if status == 11 && message.len() > 1 && message[1] == 123 {
            Some(MidiMsg::AllNotesOff)
        } else {
            None
        }
    }
}

/// Decode one raw MIDI message.
pub fn parse_message(message: &[u8]) -> (msg: Option<MidiMsg>)
    ensures
        msg == spec_parse_message(message@),
        msg matches Some(MidiMsg::NoteOn { velocity, .. }) ==> velocity > 0,
{
    if message.len() == 0 {
        return None;
    }
    // The high nibble of the status byte is the message kind; the low nibble,
    // the channel, does not matter.
    let status = message[0] / 16;
    let note = if message.len() > 1 {
        message[1]
    } else {
        0
    };
    if status == 9 {
        let velocity = if message.len() > 2 {
            message[2]
        } else {
            0
        };
        if velocity == 0 {
            Some(MidiMsg::NoteOff { note })
        } else {
            Some(MidiMsg::NoteOn { note, velocity })
        }
    } else if status == 8 {
        Some(MidiMsg::NoteOff { note })
    } else if status == 11 && message.len() > 1 && message[1] == 123 {
        Some(MidiMsg::AllNotesOff)
    } else {
        None
    }
}

/// Decode one raw MIDI message and queue the note event it stands for.
pub fn handle_message(queue: &mut EventQueue, message: &[u8])
    ensures
        final(queue)@ == match spec_parse_message(message@) {
            Some(msg) => spec_push(old(queue)@, msg),
            None => old(queue)@,
        },
{
    if let Some(msg) = parse_message(message) {
        queue.push_event(msg);
    }
}

/// Only note on (status `0x90..=0x9F`), note off (`0x80..=0x8F`) and control
/// change 123 (`0xB0..=0xBF`, All Notes Off) produce an event; every other
/// message (pitch bend, pressure, program change, other controllers, system
/// messages, running-status data) is ignored. A note event carries the
/// message's note and velocity bytes.
pub proof fn lemma_parse_message_kinds(message: Seq<u8>)
    ensures
        message.len() == 0 ==> spec_parse_message(message) is None,
        message.len() > 0 && !(0x80 <= message[0] <= 0x9F || 0xB0 <= message[0] <= 0xBF)
            ==> spec_parse_message(message) is None,
        spec_parse_message(message) == Some(MidiMsg::AllNotesOff) <==> (message.len() > 1
            && 0xB0 <= message[0] <= 0xBF && message[1] == 123),
        forall|note: u8, velocity: u8|
            #![auto]
            spec_parse_message(message) == Some(MidiMsg::NoteOn { note, velocity }) <==> (
            message.len() > 2 && 0x90 <= message[0] <= 0x9F && note == message[1] && velocity
                == message[2] && velocity > 0),
        forall|note: u8|
            #![auto]
            spec_parse_message(message) == Some(MidiMsg::NoteOff { note }) <==> (message.len()
                > 0 && (0x80 <= message[0] <= 0x8F || (0x90 <= message[0] <= 0x9F && (
            message.len() <= 2 || message[2] == 0))) && note == (if message.len() > 1 {
                message[1]
            } else {
                0
            })),
{
}

/// The channel (low nibble of the status byte) does not matter: a message
/// decodes the same on every channel.
pub proof fn lemma_channel_ignored(message: Seq<u8>, channel: u8)
    requires
        message.len() > 0,
        channel < 16,
    ensures
        spec_parse_message(message.update(0, (16 * (message[0] / 16) + channel) as u8))
            == spec_parse_message(message),
{
    let b = message[0];
    let m2 = message.update(0, (16 * (b / 16) + channel) as u8);
    assert((16 * (b / 16) + channel) / 16 == b / 16 && 16 * (b / 16) + channel < 256)
        by (nonlinear_arith)
        requires
            channel < 16,
    ;
    assert(byte_or_zero(m2, 1) == byte_or_zero(message, 1));
    assert(byte_or_zero(m2, 2) == byte_or_zero(message, 2));
}

} // verus!
