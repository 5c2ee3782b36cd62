//! The events that notes turn into.

use crate::note::Note;
use vstd::prelude::*;

verus! {

/// Ticks in one beat. A beat is a crotchet, four semiquavers.
pub const TICKS_PER_BEAT: u16 = 24;

/// Semiquavers in one beat.
pub const SEMIQUAVERS_PER_BEAT: u16 = 4;

/// Velocity of every note-on.
pub const VELOCITY_ON: u8 = 127;

/// Velocity of every note-off.
pub const VELOCITY_OFF: u8 = 0;

/// The latest time, in semiquavers, at which a note can end.
pub const LATEST_TIME: u32 = 131070;

/// What happens at an event.
#[derive(Clone, Copy, Debug, PartialEq, Eq, Structural)]
pub enum EventKind {
    /// A key goes down.
    NoteOn { channel: u8, key: u8, vel: u8 },
    /// A key goes up.
    NoteOff { channel: u8, key: u8, vel: u8 },
    /// The track is over.
    EndOfTrack,
}

/// An event with the time at which it happens, in semiquavers from the
/// start of the score.
#[derive(Clone, Copy, Debug, PartialEq, Eq, Structural)]
pub struct TimedEvent {
    /// When it happens, in semiquavers from the start of the score.
    pub time: u32,
    /// What happens.
    pub kind: EventKind,
}

/// An event of a track with the ticks that pass between the event before it
/// (or the start of the track) and itself.
#[derive(Clone, Copy, Debug, PartialEq, Eq, Structural)]
pub struct DeltaEvent {
    /// The ticks since the event before it.
    pub delta: u32,
    /// What happens.
    pub kind: EventKind,
}

impl EventKind {
    /// Channel, key and velocity are values that a MIDI message can carry.
    pub open spec fn on_the_wire(self) -> bool {
        match self {
            EventKind::NoteOn { channel, key, vel } => channel < 16 && key < 128 && vel < 128,
            EventKind::NoteOff { channel, key, vel } => channel < 16 && key < 128 && vel < 128,
            EventKind::EndOfTrack => true,
        }
    }
}

/// The key that a pitch is sent as: its low seven bits.
pub open spec fn key_of(pitch: u8) -> u8 {
    pitch & 0x7f
}

/// The channel that a channel number is sent on: its low four bits.
pub open spec fn channel_of(channel: u8) -> u8 {
    channel & 0x0f
}

/// The event that starts `note`.
pub open spec fn note_on(note: Note) -> TimedEvent {
    TimedEvent {
        time: note.position as u32,
        kind: EventKind::NoteOn {
            channel: channel_of(note.channel),
            key: key_of(note.pitch),
            vel: VELOCITY_ON,
        },
    }
}

/// The event that ends `note`.
pub open spec fn note_off(note: Note) -> TimedEvent {
    TimedEvent {
        time: (note.position + note.duration) as u32,
        kind: EventKind::NoteOff {
            channel: channel_of(note.channel),
            key: key_of(note.pitch),
            vel: VELOCITY_OFF,
        },
    }
}

/// The events of `notes` before sorting: for each note in turn its note-on,
/// then its note-off.
pub open spec fn note_events(notes: Seq<Note>) -> Seq<TimedEvent> {
    Seq::new(
        2 * notes.len(),
        |k: int|
            if k % 2 == 0 {
                note_on(notes[k / 2])
            } else {
                note_off(notes[k / 2])
            },
    )
}

/// Every event is one that the wire can carry and happens no later than a
/// note can end.
pub open spec fn well_formed(events: Seq<TimedEvent>) -> bool {
    forall|k: int|
        0 <= k < events.len() ==> (#[trigger] events[k]).time <= LATEST_TIME
            && events[k].kind.on_the_wire()
}

/// Keys stay below 128 and channels below 16, and a pitch or channel that
/// is below that bound already is sent as it is.
pub proof fn lemma_low_bits(pitch: u8, channel: u8)
    ensures
        key_of(pitch) < 128,
        channel_of(channel) < 16,
        pitch < 128 ==> key_of(pitch) == pitch,
        channel < 16 ==> channel_of(channel) == channel,
{
    assert(pitch & 0x7f < 128) by (bit_vector);
    assert(channel & 0x0f < 16) by (bit_vector);
    assert(pitch < 128 ==> pitch & 0x7f == pitch) by (bit_vector);
    assert(channel < 16 ==> channel & 0x0f == channel) by (bit_vector);
}

/// The note-on and note-off of every note, in the order of the notes.
pub fn events_of_notes(notes: &[Note]) -> (events: Vec<TimedEvent>)
    ensures
        events@ == note_events(notes@),
        well_formed(events@),
{
    let mut events: Vec<TimedEvent> = Vec::new();
    for i in 0..notes.len()
        invariant
            events@ == note_events(notes@.take(i as int)),
            well_formed(events@),
    {
        let note = notes[i];
        let channel = note.channel & 0x0f;
        let key = note.pitch & 0x7f;
        let start: u32 = note.position as u32;
        let end: u32 = note.position as u32 + note.duration as u32;
        proof {
            lemma_low_bits(note.pitch, note.channel);
        }
        let ghost before = events@;
        events.push(TimedEvent { time: start, kind: EventKind::NoteOn { channel, key, vel: VELOCITY_ON } });
        events.push(TimedEvent { time: end, kind: EventKind::NoteOff { channel, key, vel: VELOCITY_OFF } });
        proof {
            let shorter = notes@.take(i as int);
            let longer = notes@.take(i + 1);
            assert(longer.len() == i + 1);
            assert forall|k: int| 0 <= k < 2 * (i + 1) implies events@[k] == note_events(longer)[k] by {
                if k < 2 * i {
                    assert(events@[k] == before[k]);
                    assert(shorter[k / 2] == longer[k / 2]);
                } else {
                    assert(longer[k / 2] == note);
                }
            }
            assert(events@ =~= note_events(longer));
        }
    }
    assert(notes@.take(notes@.len() as int) == notes@);
    events
}

/// A note whose pitch and channel are in range is sent with that pitch and
/// on that channel.
pub proof fn lemma_in_range_note_is_sent_as_it_is(note: Note)
    requires
        note.in_range(),
    ensures
        note_on(note).kind == (EventKind::NoteOn {
            channel: note.channel,
            key: note.pitch,
            vel: VELOCITY_ON,
        }),
        note_off(note).kind == (EventKind::NoteOff {
            channel: note.channel,
            key: note.pitch,
            vel: VELOCITY_OFF,
        }),
{
    lemma_low_bits(note.pitch, note.channel);
}

/// The events of any notes are well-formed.
pub proof fn lemma_note_events_well_formed(notes: Seq<Note>)
    ensures
        well_formed(note_events(notes)),
{
    let events = note_events(notes);
    assert forall|k: int| 0 <= k < events.len() implies (#[trigger] events[k]).time
        <= LATEST_TIME && events[k].kind.on_the_wire() by {
        lemma_low_bits(notes[k / 2].pitch, notes[k / 2].channel);
    }
}

} // verus!
