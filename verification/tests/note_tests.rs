use midi_practice::Note;

#[test]
fn new_keeps_all_four_fields() {
    let note = Note::new(60, 4, 8, 9);
    assert_eq!(note.pitch, 60);
    assert_eq!(note.duration, 4);
    assert_eq!(note.position, 8);
    assert_eq!(note.channel, 9);
}

#[test]
fn new_does_not_validate() {
    let note = Note::new(200, 0, 0, 99);
    assert_eq!(note, Note { pitch: 200, duration: 0, position: 0, channel: 99 });
}

#[test]
fn checked_new_accepts_the_highest_pitch_and_channel() {
    assert_eq!(
        Note::checked_new(127, 1, 2, 15),
        Some(Note { pitch: 127, duration: 1, position: 2, channel: 15 })
    );
    assert_eq!(
        Note::checked_new(0, 0, 0, 0),
        Some(Note { pitch: 0, duration: 0, position: 0, channel: 0 })
    );
}

#[test]
fn checked_new_rejects_pitch_128() {
    assert_eq!(Note::checked_new(128, 1, 2, 0), None);
    assert_eq!(Note::checked_new(255, 1, 2, 0), None);
}

#[test]
fn checked_new_rejects_channel_16() {
    assert_eq!(Note::checked_new(60, 1, 2, 16), None);
    assert_eq!(Note::checked_new(60, 1, 2, 255), None);
}

#[test]
fn checked_new_rejects_when_both_are_out_of_range() {
    assert_eq!(Note::checked_new(128, 1, 2, 16), None);
}

#[test]
fn quad_becomes_note_field_by_field() {
    let note = Note::from((61u8, 3u16, 7u16, 2u8));
    assert_eq!(note, Note { pitch: 61, duration: 3, position: 7, channel: 2 });
}

#[test]
fn triple_becomes_note_on_channel_zero() {
    let note = Note::from((61u8, 3u16, 7u16));
    assert_eq!(note, Note { pitch: 61, duration: 3, position: 7, channel: 0 });
}

#[test]
fn tuple_conversion_does_not_validate() {
    let note: Note = (250u8, 1u16, 1u16, 77u8).into();
    assert_eq!(note.pitch, 250);
    assert_eq!(note.channel, 77);
}

#[test]
fn note_becomes_quad_and_triple() {
    let note = Note::new(61, 3, 7, 2);
    let quad: (u8, u16, u16, u8) = note.into();
    let triple: (u8, u16, u16) = note.into();
    assert_eq!(quad, (61, 3, 7, 2));
    assert_eq!(triple, (61, 3, 7));
}

#[test]
fn quad_round_trip_gives_the_note_back() {
    let notes = [
        Note::new(0, 0, 0, 0),
        Note::new(60, 4, 16, 9),
        Note::new(255, 65535, 65535, 255),
    ];
    for note in notes {
        let quad: (u8, u16, u16, u8) = note.into();
        assert_eq!(Note::from(quad), note);
    }
}

#[test]
fn triple_round_trip_gives_the_note_back_on_channel_zero() {
    let note = Note::new(60, 4, 16, 0);
    let triple: (u8, u16, u16) = note.into();
    assert_eq!(Note::from(triple), note);
}

#[test]
fn triple_round_trip_resets_the_channel() {
    let note = Note::new(60, 4, 16, 9);
    let triple: (u8, u16, u16) = note.into();
    assert_eq!(Note::from(triple), Note::new(60, 4, 16, 0));
    assert_ne!(Note::from(triple), note);
}

#[test]
fn tuples_survive_the_trip_through_a_note() {
    let quad = (12u8, 34u16, 56u16, 7u8);
    let triple = (12u8, 34u16, 56u16);
    let from_quad: (u8, u16, u16, u8) = Note::from(quad).into();
    let from_triple: (u8, u16, u16) = Note::from(triple).into();
    assert_eq!(from_quad, quad);
    assert_eq!(from_triple, triple);
}

#[test]
fn notes_are_equal_when_all_fields_agree() {
    assert_eq!(Note::new(1, 2, 3, 4), Note::new(1, 2, 3, 4));
    assert_ne!(Note::new(1, 2, 3, 4), Note::new(9, 2, 3, 4));
    assert_ne!(Note::new(1, 2, 3, 4), Note::new(1, 9, 3, 4));
    assert_ne!(Note::new(1, 2, 3, 4), Note::new(1, 2, 9, 4));
    assert_ne!(Note::new(1, 2, 3, 4), Note::new(1, 2, 3, 9));
}
