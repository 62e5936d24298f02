use std::collections::HashSet;

use midiosch::address::{cc_address_text, note_address_text, push_decimal};
use midiosch::midi::MidiEvent;
use midiosch::translate::{translate, EncodedValue, FULL_SCALE};

fn fraction(value: EncodedValue) -> f32 {
    f32::from(value.raw()) / f32::from(FULL_SCALE)
}

#[test]
fn note_on_passes_its_velocity_through_as_an_integer() {
    let (address, value) = translate(MidiEvent::NoteOn(0, 60, 127), false);
    assert_eq!(address, "/note/0/60");
    assert_eq!(value, EncodedValue::Raw(127));
    assert_eq!(value.raw(), 127);
    assert!(!value.is_normalized());
}

#[test]
fn note_on_at_full_velocity_normalizes_to_one() {
    let (address, value) = translate(MidiEvent::NoteOn(0, 60, 127), true);
    assert_eq!(address, "/note/0/60");
    assert_eq!(value, EncodedValue::Normalized(127));
    assert!(value.is_normalized());
    assert_eq!(fraction(value), 1.0);
}

#[test]
fn control_change_normalizes_to_its_share_of_full_scale() {
    let (address, value) = translate(MidiEvent::ControlChange(1, 7, 64), true);
    assert_eq!(address, "/cc/1/7");
    assert_eq!(value, EncodedValue::Normalized(64));
    assert_eq!(fraction(value), 64.0f32 / 127.0f32);
}

#[test]
fn control_change_passes_its_value_through_as_an_integer() {
    let (address, value) = translate(MidiEvent::ControlChange(1, 7, 64), false);
    assert_eq!(address, "/cc/1/7");
    assert_eq!(value, EncodedValue::Raw(64));
}

#[test]
fn note_off_is_zero_whatever_the_encoding() {
    let (address, value) = translate(MidiEvent::NoteOff(2, 40), false);
    assert_eq!(address, "/note/2/40");
    assert_eq!(value, EncodedValue::Raw(0));
    let (address, value) = translate(MidiEvent::NoteOff(2, 40), true);
    assert_eq!(address, "/note/2/40");
    assert_eq!(value, EncodedValue::Normalized(0));
    assert_eq!(fraction(value), 0.0);
}

#[test]
fn note_off_is_zero_for_every_key_on_every_channel() {
    for channel in 0u8..16 {
        for note in 0u8..128 {
            for normalize in [false, true] {
                let (_, value) = translate(MidiEvent::NoteOff(channel, note), normalize);
                assert_eq!(value.raw(), 0);
                assert_eq!(value.is_normalized(), normalize);
            }
        }
    }
}

#[test]
fn note_on_and_note_off_of_one_key_share_an_address() {
    for normalize in [false, true] {
        let (on, _) = translate(MidiEvent::NoteOn(9, 36, 90), normalize);
        let (off, _) = translate(MidiEvent::NoteOff(9, 36), normalize);
        assert_eq!(on, off);
        assert_eq!(on, "/note/9/36");
    }
}

#[test]
fn the_address_does_not_depend_on_the_value() {
    let (quiet, _) = translate(MidiEvent::NoteOn(4, 61, 1), false);
    let (loud, _) = translate(MidiEvent::NoteOn(4, 61, 127), true);
    assert_eq!(quiet, loud);
    let (low, _) = translate(MidiEvent::ControlChange(4, 61, 0), true);
    let (high, _) = translate(MidiEvent::ControlChange(4, 61, 127), false);
    assert_eq!(low, high);
    assert_ne!(quiet, low);
}

#[test]
fn zero_normalizes_to_zero_and_mid_scale_stays_below_one() {
    let (_, value) = translate(MidiEvent::NoteOn(0, 60, 0), true);
    assert_eq!(fraction(value), 0.0);
    let (_, value) = translate(MidiEvent::NoteOn(0, 60, 100), true);
    assert_eq!(value, EncodedValue::Normalized(100));
    assert_eq!(fraction(value), 100.0f32 / 127.0f32);
    assert!(fraction(value) > 0.0 && fraction(value) < 1.0);
}

#[test]
fn addresses_are_written_in_decimal_without_padding() {
    assert_eq!(note_address_text(0, 0), "/note/0/0");
    assert_eq!(note_address_text(9, 9), "/note/9/9");
    assert_eq!(note_address_text(10, 10), "/note/10/10");
    assert_eq!(note_address_text(15, 99), "/note/15/99");
    assert_eq!(note_address_text(15, 100), "/note/15/100");
    assert_eq!(note_address_text(15, 127), "/note/15/127");
    assert_eq!(note_address_text(255, 255), "/note/255/255");
    assert_eq!(cc_address_text(0, 0), "/cc/0/0");
    assert_eq!(cc_address_text(1, 7), "/cc/1/7");
    assert_eq!(cc_address_text(12, 101), "/cc/12/101");
    assert_eq!(cc_address_text(200, 110), "/cc/200/110");
}

#[test]
fn every_address_is_what_formatting_gives() {
    for channel in 0u8..=255 {
        for number in 0u8..=255 {
            assert_eq!(note_address_text(channel, number), format!("/note/{}/{}", channel, number));
            assert_eq!(cc_address_text(channel, number), format!("/cc/{}/{}", channel, number));
        }
    }
}

#[test]
fn decimal_text_is_appended_to_what_is_there() {
    let mut text = String::from("n=");
    push_decimal(&mut text, 0);
    assert_eq!(text, "n=0");
    push_decimal(&mut text, 7);
    push_decimal(&mut text, 42);
    push_decimal(&mut text, 255);
    assert_eq!(text, "n=0742255");
    for n in 0u8..=255 {
        let mut text = String::new();
        push_decimal(&mut text, n);
        assert_eq!(text, n.to_string());
    }
}

#[test]
fn values_out_of_the_midi_range_are_passed_on_unchanged() {
    let (address, value) = translate(MidiEvent::ControlChange(0, 200, 255), false);
    assert_eq!(address, "/cc/0/200");
    assert_eq!(value, EncodedValue::Raw(255));
    let (_, value) = translate(MidiEvent::NoteOn(0, 1, 128), true);
    assert_eq!(value, EncodedValue::Normalized(128));
}

#[test]
fn every_key_and_every_controller_has_an_address_of_its_own() {
    let mut seen = HashSet::new();
    for channel in 0u8..=255 {
        for number in 0u8..=255 {
            assert!(seen.insert(note_address_text(channel, number)));
            assert!(seen.insert(cc_address_text(channel, number)));
        }
    }
    assert_eq!(seen.len(), 2 * 256 * 256);
}

#[test]
fn addresses_that_read_alike_are_still_apart() {
    assert_ne!(note_address_text(1, 10), note_address_text(11, 0));
    assert_ne!(note_address_text(1, 23), note_address_text(12, 3));
    assert_ne!(cc_address_text(10, 1), cc_address_text(101, 0));
    assert_ne!(note_address_text(0, 0), cc_address_text(0, 0));
    let (note, _) = translate(MidiEvent::NoteOn(1, 7, 64), true);
    let (controller, _) = translate(MidiEvent::ControlChange(1, 7, 64), true);
    assert_ne!(note, controller);
}
