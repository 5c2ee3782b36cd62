//! Playing a track in real time: how long to wait before each event and
//! which bytes to send for it.

use crate::event::DeltaEvent;
use crate::event::EventKind;
use crate::event::TICKS_PER_BEAT;
use crate::score::Score;
use crate::track::track_of;
use vstd::prelude::*;

verus! {

/// The tempo at which a track is played.
pub const BEATS_PER_MINUTE: u16 = 120;

/// Milliseconds in a minute.
pub const MILLIS_PER_MINUTE: u64 = 60000;

/// Status byte of a note-on message on channel 0.
pub const NOTE_ON: u8 = 0x90;

/// Status byte of a note-off message on channel 0.
pub const NOTE_OFF: u8 = 0x80;

/// One step of playing a track: wait, then send the message if there is one.
#[derive(Clone, Copy, Debug, PartialEq, Eq)]
pub struct PlaybackStep {
    /// How long to wait before the event, in milliseconds.
    pub wait_millis: u64,
    /// The three bytes of the channel voice message to send, if the event
    /// is one to send.
    pub message: Option<[u8; 3]>,
}

impl View for PlaybackStep {
    type V = (u64, Option<Seq<u8>>);

    /// The wait and the bytes of the message.
    open spec fn view(&self) -> (u64, Option<Seq<u8>>) {
        (
            self.wait_millis,
            match self.message {
                Some(bytes) => Some(bytes@),
                None => None,
            },
        )
    }
}

/// The milliseconds that `delta` ticks last: the ticks times the
/// milliseconds of a minute, divided by the ticks of a beat and then by the
/// beats of a minute, each division dropping its remainder.
pub open spec fn millis_of(delta: int) -> int {
    delta * MILLIS_PER_MINUTE / (TICKS_PER_BEAT as int) / (BEATS_PER_MINUTE as int)
}

/// The bytes that go over the wire for an event: status with the channel in
/// its low four bits, key, velocity. The end of a track is not sent.
pub open spec fn wire_bytes(kind: EventKind) -> Option<Seq<u8>> {
    match kind {
        EventKind::NoteOn { channel, key, vel } => Some(seq![NOTE_ON | channel, key, vel]),
        EventKind::NoteOff { channel, key, vel } => Some(seq![NOTE_OFF | channel, key, vel]),
        EventKind::EndOfTrack => None,
    }
}

/// What playing `event` takes.
pub open spec fn step_of(event: DeltaEvent) -> (u64, Option<Seq<u8>>) {
    (millis_of(event.delta as int) as u64, wire_bytes(event.kind))
}

/// How long `delta` ticks last, in milliseconds.
pub fn delay_millis(delta: u32) -> (wait: u64)
    ensures
        wait == millis_of(delta as int),
{
    (delta as u64) * MILLIS_PER_MINUTE / (TICKS_PER_BEAT as u64) / (BEATS_PER_MINUTE as u64)
}

/// The channel voice message for an event, if it is one to send.
pub fn wire_message(kind: EventKind) -> (message: Option<[u8; 3]>)
    ensures
        match message {
            Some(bytes) => wire_bytes(kind) == Some(bytes@),
            None => wire_bytes(kind) == None::<Seq<u8>>,
        },
{
    match kind {
        EventKind::NoteOn { channel, key, vel } => {
            let bytes = [NOTE_ON | channel, key, vel];
            assert(bytes@ =~= seq![NOTE_ON | channel, key, vel]);
            Some(bytes)
        },
        EventKind::NoteOff { channel, key, vel } => {
            let bytes = [NOTE_OFF | channel, key, vel];
            assert(bytes@ =~= seq![NOTE_OFF | channel, key, vel]);
            Some(bytes)
        },
        EventKind::EndOfTrack => None,
    }
}

/// The wait and the message for one event of a track.
pub fn playback_step(event: DeltaEvent) -> (step: PlaybackStep)
    ensures
        step@ == step_of(event),
{
    PlaybackStep { wait_millis: delay_millis(event.delta), message: wire_message(event.kind) }
}

impl Score {
    /// The steps that play the score: one for each event of its track, in
    /// the order of the track.
    pub fn playback(&self) -> (steps: Vec<PlaybackStep>)
        ensures
            steps@.len() == track_of(self@).len(),
            forall|k: int|
                0 <= k < steps@.len() ==> (#[trigger] steps@[k])@ == step_of(track_of(self@)[k]),
    {
        let track = self.to_track();
        let mut steps: Vec<PlaybackStep> = Vec::with_capacity(track.len());
        for k in 0..track.len()
            invariant
                steps@.len() == k,
                forall|j: int| 0 <= j < k ==> (#[trigger] steps@[j])@ == step_of(track@[j]),
        {
            steps.push(playback_step(track[k]));
        }
        steps
    }
}

/// On a channel that exists the status byte is the status of channel 0 plus
/// the channel: the channel fills the low four bits and leaves the high four
/// alone.
pub proof fn lemma_status_byte(channel: u8)
    requires
        channel < 16,
    ensures
        NOTE_ON | channel == NOTE_ON + channel,
        NOTE_OFF | channel == NOTE_OFF + channel,
{
    assert(channel < 16 ==> 0x90u8 | channel == 0x90u8 + channel) by (bit_vector);
    assert(channel < 16 ==> 0x80u8 | channel == 0x80u8 + channel) by (bit_vector);
}

/// At 24 ticks to the beat and 120 beats to the minute `delta` ticks last
/// `delta * 125 / 6` milliseconds, rounded down. A beat lasts half a second,
/// so a whole number of beats lasts a whole number of milliseconds.
pub proof fn lemma_millis_of(delta: int)
    requires
        0 <= delta,
    ensures
        millis_of(delta) == delta * 125 / 6,
        delta % (TICKS_PER_BEAT as int) == 0 ==> millis_of(delta) == delta / (TICKS_PER_BEAT as int)
            * 500,
{
}

} // verus!
