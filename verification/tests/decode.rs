use midiosch::midi::{decode, MidiEvent};

#[test]
fn note_on_frame_decodes_with_channel_and_data_in_order() {
    assert_eq!(decode(&[0x90, 60, 100]), Some(MidiEvent::NoteOn(0, 60, 100)));
    assert_eq!(decode(&[0x93, 61, 1]), Some(MidiEvent::NoteOn(3, 61, 1)));
    assert_eq!(decode(&[0x9F, 0, 127]), Some(MidiEvent::NoteOn(15, 0, 127)));
}

#[test]
fn note_off_frame_keeps_the_note_and_drops_the_second_data_byte() {
    assert_eq!(decode(&[0x80, 60, 0]), Some(MidiEvent::NoteOff(0, 60)));
    assert_eq!(decode(&[0x82, 40, 64]), Some(MidiEvent::NoteOff(2, 40)));
    assert_eq!(decode(&[0x8F, 127, 127]), Some(MidiEvent::NoteOff(15, 127)));
}

#[test]
fn control_change_frame_decodes_controller_then_value() {
    assert_eq!(decode(&[0xB0, 7, 64]), Some(MidiEvent::ControlChange(0, 7, 64)));
    assert_eq!(decode(&[0xB1, 7, 64]), Some(MidiEvent::ControlChange(1, 7, 64)));
    assert_eq!(decode(&[0xBF, 127, 0]), Some(MidiEvent::ControlChange(15, 127, 0)));
}

#[test]
fn every_status_byte_decodes_by_its_nibbles() {
    for status in 0u8..=255 {
        let channel = status % 16;
        let expected = match status / 16 {
            0x8 => Some(MidiEvent::NoteOff(channel, 11)),
            0x9 => Some(MidiEvent::NoteOn(channel, 11, 22)),
            0xB => Some(MidiEvent::ControlChange(channel, 11, 22)),
            _ => None,
        };
        assert_eq!(decode(&[status, 11, 22]), expected, "status {:#04x}", status);
    }
}

#[test]
fn frames_of_any_other_length_carry_no_event() {
    assert_eq!(decode(&[]), None);
    assert_eq!(decode(&[0x90]), None);
    assert_eq!(decode(&[0x90, 60]), None);
    assert_eq!(decode(&[0x90, 60, 100, 0]), None);
    assert_eq!(decode(&[0xB0, 7, 64, 1, 2, 3]), None);
    let long = vec![0x80u8; 64];
    assert_eq!(decode(&long), None);
}

#[test]
fn other_kinds_of_message_carry_no_event() {
    assert_eq!(decode(&[0xA0, 60, 100]), None);
    assert_eq!(decode(&[0xC0, 5, 0]), None);
    assert_eq!(decode(&[0xD0, 5, 0]), None);
    assert_eq!(decode(&[0xE0, 0, 64]), None);
    assert_eq!(decode(&[0xF0, 1, 0xF7]), None);
    assert_eq!(decode(&[0xF8, 0, 0]), None);
    assert_eq!(decode(&[0x00, 0, 0]), None);
    assert_eq!(decode(&[0x7F, 60, 100]), None);
}

#[test]
fn data_bytes_are_taken_as_they_are() {
    assert_eq!(decode(&[0x90, 200, 255]), Some(MidiEvent::NoteOn(0, 200, 255)));
    assert_eq!(decode(&[0x81, 128, 9]), Some(MidiEvent::NoteOff(1, 128)));
    assert_eq!(decode(&[0xB2, 255, 128]), Some(MidiEvent::ControlChange(2, 255, 128)));
}

#[test]
fn decoding_a_vector_is_decoding_its_slice() {
    let frame: Vec<u8> = vec![0x95, 72, 33];
    assert_eq!(decode(&frame), Some(MidiEvent::NoteOn(5, 72, 33)));
    assert_eq!(decode(frame.as_slice()), decode(&[0x95, 72, 33]));
}
