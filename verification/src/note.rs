//! A single musical note and its conversions to and from plain tuples.

use vstd::prelude::*;
use vstd::std_specs::convert::FromSpec;
use vstd::std_specs::convert::FromSpecImpl;

verus! {

/// One note of a score.
///
/// Times are counted in semiquavers (sixteenth notes) from the start of the
/// score. A note is a plain value: two notes are the same note exactly when
/// all four fields agree.
#[derive(Clone, Copy, Debug, PartialEq, Eq, Structural)]
pub struct Note {
    /// MIDI key number. Keys above 127 do not exist on the wire.
    pub pitch: u8,
    /// Length of the note in semiquavers.
    pub duration: u16,
    /// Start of the note in semiquavers from the beginning of the score.
    pub position: u16,
    /// MIDI channel. Channels above 15 do not exist on the wire; channel 9
    /// is percussion by convention.
    pub channel: u8,
}

impl Note {
    /// Whether pitch and channel are values that a MIDI message can carry.
    pub open spec fn in_range(self) -> bool {
        self.pitch < 128 && self.channel < 16
    }

    /// Builds a note from its four fields without looking at them.
    pub fn new(pitch: u8, duration: u16, position: u16, channel: u8) -> (note: Self)
        ensures
            note == (Note { pitch, duration, position, channel }),
    {
        Note { pitch, duration, position, channel }
    }

    /// Builds a note, refusing a pitch above 127 or a channel above 15.
    pub fn checked_new(pitch: u8, duration: u16, position: u16, channel: u8) -> (note: Option<Self>)
        ensures
            note == if pitch < 128 && channel < 16 {
                Some(Note { pitch, duration, position, channel })
            } else {
                None
            },
            note matches Some(n) ==> n.in_range(),
    {
        if pitch < 128 && channel < 16 {
            Some(Note { pitch, duration, position, channel })
        } else {
            None
        }
    }
}

impl From<(u8, u16, u16, u8)> for Note {
    /// `(pitch, duration, position, channel)` as a note.
    fn from(value: (u8, u16, u16, u8)) -> (note: Self) {
        Note { pitch: value.0, duration: value.1, position: value.2, channel: value.3 }
    }
}

impl FromSpecImpl<(u8, u16, u16, u8)> for Note {
    open spec fn obeys_from_spec() -> bool {
        true
    }

    open spec fn from_spec(value: (u8, u16, u16, u8)) -> Self {
        Note { pitch: value.0, duration: value.1, position: value.2, channel: value.3 }
    }
}

impl From<(u8, u16, u16)> for Note {
    /// `(pitch, duration, position)` as a note on channel 0.
    fn from(value: (u8, u16, u16)) -> (note: Self) {
        Note { pitch: value.0, duration: value.1, position: value.2, channel: 0 }
    }
}

impl FromSpecImpl<(u8, u16, u16)> for Note {
    open spec fn obeys_from_spec() -> bool {
        true
    }

    open spec fn from_spec(value: (u8, u16, u16)) -> Self {
        Note { pitch: value.0, duration: value.1, position: value.2, channel: 0 }
    }
}

impl From<Note> for (u8, u16, u16, u8) {
    /// The note as `(pitch, duration, position, channel)`.
    fn from(value: Note) -> (tuple: Self) {
        (value.pitch, value.duration, value.position, value.channel)
    }
}

impl FromSpecImpl<Note> for (u8, u16, u16, u8) {
    open spec fn obeys_from_spec() -> bool {
        true
    }

    open spec fn from_spec(value: Note) -> Self {
        (value.pitch, value.duration, value.position, value.channel)
    }
}

impl From<Note> for (u8, u16, u16) {
    /// The note as `(pitch, duration, position)`; the channel is dropped.
    fn from(value: Note) -> (tuple: Self) {
        (value.pitch, value.duration, value.position)
    }
}

impl FromSpecImpl<Note> for (u8, u16, u16) {
    open spec fn obeys_from_spec() -> bool {
        true
    }

    open spec fn from_spec(value: Note) -> Self {
        (value.pitch, value.duration, value.position)
    }
}

/// Std's identity conversion, `impl<T> From<T> for T`.
///
/// Its documentation reads "Returns the argument unchanged."; that is all
/// this states. It is what makes a `Note` handed to a function that takes
/// `Into<Note>` arrive as itself.
pub assume_specification<Same>[ <Same as core::convert::From<Same>>::from ](same: Same) -> (out:
    Same)
    ensures
        out == same,
;

/// A note written out as four fields and read back is the same note.
pub proof fn lemma_note_quad_round_trip(note: Note)
    ensures
        <Note as FromSpec<(u8, u16, u16, u8)>>::from_spec(
            <(u8, u16, u16, u8) as FromSpec<Note>>::from_spec(note),
        ) == note,
{
}

/// A note written out as three fields and read back keeps pitch, duration
/// and position and lands on channel 0. It is the same note exactly when it
/// was on channel 0 to begin with.
pub proof fn lemma_note_triple_round_trip(note: Note)
    ensures
        <Note as FromSpec<(u8, u16, u16)>>::from_spec(
            <(u8, u16, u16) as FromSpec<Note>>::from_spec(note),
        ) == (Note { channel: 0, ..note }),
        <Note as FromSpec<(u8, u16, u16)>>::from_spec(
            <(u8, u16, u16) as FromSpec<Note>>::from_spec(note),
        ) == note <==> note.channel == 0,
{
}

/// Four fields read as a note and written out again are the same four fields.
pub proof fn lemma_quad_note_round_trip(quad: (u8, u16, u16, u8))
    ensures
        <(u8, u16, u16, u8) as FromSpec<Note>>::from_spec(
            <Note as FromSpec<(u8, u16, u16, u8)>>::from_spec(quad),
        ) == quad,
{
}

/// Three fields read as a note and written out again are the same three fields.
pub proof fn lemma_triple_note_round_trip(triple: (u8, u16, u16))
    ensures
        <(u8, u16, u16) as FromSpec<Note>>::from_spec(
            <Note as FromSpec<(u8, u16, u16)>>::from_spec(triple),
        ) == triple,
{
}

} // verus!
