//! From a typed event to what is published: an address and an encoded value.

use vstd::prelude::*;
use crate::address::{
    cc_address, cc_address_text, lemma_addresses_apart, note_address, note_address_text,
};
use crate::midi::MidiEvent;

verus! {

/// The divisor of the normalized encoding: the largest value a MIDI data byte
/// can carry.
pub const FULL_SCALE: u8 = 127;

/// A value as it is published. `Raw(v)` is the integer `v`; `Normalized(v)`
/// stands for the fraction `v / 127`, which for a MIDI data byte lies between
/// zero and one.
#[derive(Debug, Clone, Copy, PartialEq, Eq, Structural)]
pub enum EncodedValue {
    /// The value as an integer.
    Raw(u8),
    /// The value as the numerator of a fraction of full scale.
    Normalized(u8),
}

impl EncodedValue {
    /// The integer the value was encoded from.
    pub open spec fn spec_raw(self) -> u8 {
        match self {
            EncodedValue::Raw(v) => v,
            EncodedValue::Normalized(v) => v,
        }
    }

    /// Whether the value lies within full scale, so that its fraction lies
    /// between zero and one.
    pub open spec fn within_full_scale(self) -> bool {
        self.spec_raw() <= FULL_SCALE
    }

    /// Whether the value stands for a fraction of full scale.
    pub open spec fn spec_is_normalized(self) -> bool {
        self is Normalized
    }

    /// The integer the value was encoded from.
    #[verifier::when_used_as_spec(spec_raw)]
    pub fn raw(self) -> (v: u8)
        ensures
            v == self.spec_raw(),
    {
        match self {
            EncodedValue::Raw(v) => v,
            EncodedValue::Normalized(v) => v,
        }
    }

    /// Whether the value stands for a fraction of full scale.
    #[verifier::when_used_as_spec(spec_is_normalized)]
    pub fn is_normalized(self) -> (b: bool)
        ensures
            b == self.spec_is_normalized(),
    {
        match self {
            EncodedValue::Raw(_) => false,
            EncodedValue::Normalized(_) => true,
        }
    }
}

/// The encoding of an integer under the process-wide policy.
pub open spec fn encoded(raw: u8, normalize: bool) -> EncodedValue {
    if normalize {
        EncodedValue::Normalized(raw)
    } else {
        EncodedValue::Raw(raw)
    }
}

/// Where an event is published. Note On and Note Off of one key share an
/// address; the value carried plays no part.
pub open spec fn address_of(event: MidiEvent) -> Seq<char> {
    match event {
        MidiEvent::NoteOn(channel, note, _) => note_address(channel, note),
        MidiEvent::NoteOff(channel, note) => note_address(channel, note),
        MidiEvent::ControlChange(channel, controller, _) => cc_address(channel, controller),
    }
}

/// Whether two events come from the same key or the same controller: both
/// are note events or both are controller events, on the same channel and
/// with the same number.
pub open spec fn same_source(a: MidiEvent, b: MidiEvent) -> bool {
    &&& a is ControlChange <==> b is ControlChange
    &&& a.channel() == b.channel()
    &&& a.number() == b.number()
}

/// The integer an event carries: the velocity of a Note On, the value of a
/// Control Change, and zero for a Note Off.
pub open spec fn raw_value_of(event: MidiEvent) -> u8 {
    match event {
        MidiEvent::NoteOn(_, _, velocity) => velocity,
        MidiEvent::NoteOff(_, _) => 0,
        MidiEvent::ControlChange(_, _, value) => value,
    }
}

/// Maps an event to its address and its value, encoded as `normalize` asks.
pub fn translate(event: MidiEvent, normalize: bool) -> (message: (String, EncodedValue))
    ensures
        message.0@ == address_of(event),
        message.1 == encoded(raw_value_of(event), normalize),
        message.1.is_normalized() == normalize,
        event is NoteOff ==> message.1.raw() == 0,
        event.well_formed() ==> message.1.within_full_scale(),
{
    let (address, raw): (String, u8) = match event {
        MidiEvent::NoteOff(channel, note) => (note_address_text(channel, note), 0),
        MidiEvent::NoteOn(channel, note, velocity) => (note_address_text(channel, note), velocity),
        MidiEvent::ControlChange(channel, controller, value) => (
            cc_address_text(channel, controller),
            value,
        ),
    };
    let value = if normalize {
        EncodedValue::Normalized(raw)
    } else {
        EncodedValue::Raw(raw)
    };
    (address, value)
}

/// The address identifies the source and nothing else: two events are
/// published at the same address exactly when they come from the same key or
/// the same controller, whatever values they carry.
pub proof fn lemma_address_identifies_source(a: MidiEvent, b: MidiEvent)
    ensures
        address_of(a) == address_of(b) <==> same_source(a, b),
{
    lemma_addresses_apart(a.channel(), a.number(), b.channel(), b.number());
    lemma_addresses_apart(b.channel(), b.number(), a.channel(), a.number());
}

} // verus!
