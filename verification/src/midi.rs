//! Decoding of raw MIDI frames into typed channel events.

use vstd::prelude::*;

verus! {

/// Status nibble of a Note Off message.
pub const NOTE_OFF: u8 = 0x80;

/// Status nibble of a Note On message.
pub const NOTE_ON: u8 = 0x90;

/// Status nibble of a Control Change message.
pub const CONTROL_CHANGE: u8 = 0xB0;

/// A channel message the bridge forwards. The first field of every variant is
/// the channel; the others are the data bytes of the frame in wire order.
#[derive(Debug, Clone, Copy, PartialEq, Eq, Structural)]
pub enum MidiEvent {
    /// Channel, controller number, controller value.
    ControlChange(u8, u8, u8),
    /// Channel, note number, velocity.
    NoteOn(u8, u8, u8),
    /// Channel, note number.
    NoteOff(u8, u8),
}

/// The message kind of a status byte: its upper four bits, in place.
pub open spec fn high_nibble(status: u8) -> u8 {
    status & 0xF0
}

/// The channel of a status byte: its lower four bits.
pub open spec fn low_nibble(status: u8) -> u8 {
    status & 0x0F
}

/// The two nibbles read arithmetically: the channel is the remainder by 16,
/// the kind is what is left of the byte once the channel is taken off.
pub proof fn lemma_nibbles(status: u8)
    ensures
        low_nibble(status) == status % 16,
        high_nibble(status) == status - status % 16,
        low_nibble(status) < 16,
        high_nibble(status) + low_nibble(status) == status,
{
    assert(status & 0x0F == status % 16) by (bit_vector);
    assert(status & 0xF0 == status - status % 16) by (bit_vector);
}

impl MidiEvent {
    /// The channel the event was sent on.
    pub open spec fn channel(self) -> u8 {
        match self {
            MidiEvent::ControlChange(ch, _, _) => ch,
            MidiEvent::NoteOn(ch, _, _) => ch,
            MidiEvent::NoteOff(ch, _) => ch,
        }
    }

    /// Whether the event could have come off a MIDI wire: the channel is one
    /// of sixteen and every data byte has its top bit clear.
    pub open spec fn well_formed(self) -> bool {
        match self {
            MidiEvent::ControlChange(ch, num, value) => ch < 16 && num < 128 && value < 128,
            MidiEvent::NoteOn(ch, note, velocity) => ch < 16 && note < 128 && velocity < 128,
            MidiEvent::NoteOff(ch, note) => ch < 16 && note < 128,
        }
    }

    /// The note or controller number: the first data byte.
    pub open spec fn number(self) -> u8 {
        match self {
            MidiEvent::ControlChange(_, num, _) => num,
            MidiEvent::NoteOn(_, note, _) => note,
            MidiEvent::NoteOff(_, note) => note,
        }
    }
}

/// What a frame decodes to. Only frames of exactly three bytes whose status
/// byte announces Note Off, Note On or Control Change carry an event; the
/// channel is the low nibble of the status byte and the data bytes are taken
/// as they are.
pub open spec fn decoded(frame: Seq<u8>) -> Option<MidiEvent> {
    if frame.len() != 3 {
        None
    } else if high_nibble(frame[0]) == NOTE_OFF {
        Some(MidiEvent::NoteOff(low_nibble(frame[0]), frame[1]))
    } else if high_nibble(frame[0]) == NOTE_ON {
        Some(MidiEvent::NoteOn(low_nibble(frame[0]), frame[1], frame[2]))
    } else if high_nibble(frame[0]) == CONTROL_CHANGE {
        Some(MidiEvent::ControlChange(low_nibble(frame[0]), frame[1], frame[2]))
    } else {
        None
    }
}

/// Decodes one frame as delivered by the input source. Frames of any other
/// length or kind yield `None`; that is not an error.
pub fn decode(frame: &[u8]) -> (event: Option<MidiEvent>)
    ensures
        event == decoded(frame@),
        event is Some <==> frame@.len() == 3 && (high_nibble(frame@[0]) == NOTE_OFF || high_nibble(
            frame@[0],
        ) == NOTE_ON || high_nibble(frame@[0]) == CONTROL_CHANGE),
        event matches Some(e) ==> e.channel() == frame@[0] % 16 && e.channel() < 16 && e.number()
            == frame@[1],
        event matches Some(e) ==> (frame@[1] < 128 && frame@[2] < 128 ==> e.well_formed()),
{
    if frame.len() != 3 {
        return None;
    }
    let status: u8 = frame[0];
    let kind: u8 = status & 0xF0;
    let channel: u8 = status & 0x0F;
    proof {
        lemma_nibbles(status);
    }
    if kind == NOTE_OFF {
        Some(MidiEvent::NoteOff(channel, frame[1]))
    } else if kind == NOTE_ON {
        Some(MidiEvent::NoteOn(channel, frame[1], frame[2]))
    } else if kind == CONTROL_CHANGE {
        Some(MidiEvent::ControlChange(channel, frame[1], frame[2]))
    } else {
        None
    }
}

} // verus!
