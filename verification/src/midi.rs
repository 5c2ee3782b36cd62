//! The score as a Standard MIDI File, in the types of the `midly` crate.
//!
//! `midly` keeps its values behind its own narrow integer types. This module
//! builds them from plain integers and describes what they hold through
//! [`event_model`], [`smf_tracks`], [`smf_is_single_track`] and
//! [`smf_ticks_per_beat`]. What is said of these four is taken on trust from
//! the code of `midly`; everything else here is proved from it.

use crate::event::DeltaEvent;
use crate::event::EventKind;
use crate::event::TICKS_PER_BEAT;
use crate::score::Score;
use crate::track::lemma_track_shape;
use crate::track::track_of;
use vstd::prelude::*;

verus! {

/// `midly::Smf`, a MIDI file in memory: a header and a list of tracks.
/// Nothing inside it is visible to the proofs.
#[verifier::external_type_specification]
#[verifier::external_body]
pub struct ExSmf<'a>(midly::Smf<'a>);

/// `midly::TrackEvent`, one event of a track with its delta. Nothing inside
/// it is visible to the proofs.
#[verifier::external_type_specification]
#[verifier::external_body]
pub struct ExTrackEvent<'a>(midly::TrackEvent<'a>);

/// What a `midly` event holds, in the terms of this library: its `delta` as
/// a plain integer and its `kind` with channel, key and velocity as plain
/// integers. Of events that are neither note-on, note-off nor end of track
/// nothing is said; this library builds none.
pub uninterp spec fn event_model(event: midly::TrackEvent<'static>) -> DeltaEvent;

/// The `tracks` of a `midly` file, each as the models of its events in order.
pub uninterp spec fn smf_tracks(smf: midly::Smf<'static>) -> Seq<Seq<DeltaEvent>>;

/// Whether the header of a `midly` file gives `Format::SingleTrack`.
pub uninterp spec fn smf_is_single_track(smf: midly::Smf<'static>) -> bool;

/// The ticks per beat in the header of a `midly` file whose timing is
/// `Timing::Metrical`.
pub uninterp spec fn smf_ticks_per_beat(smf: midly::Smf<'static>) -> u16;

/// The models of `events`, in order.
pub open spec fn event_models(events: Seq<midly::TrackEvent<'static>>) -> Seq<DeltaEvent> {
    Seq::new(events.len(), |k: int| event_model(events[k]))
}

/// The event is one that a `midly` event can hold without loss: the delta
/// fits in 28 bits, the channel in 4, key and velocity in 7.
pub open spec fn fits_midly(event: DeltaEvent) -> bool {
    event.delta < 0x1000_0000 && event.kind.on_the_wire()
}

/// Builds the `midly` note-on event for these values.
///
/// `midly` stores delta, channel, key and velocity through `u28::from`,
/// `u4::from` and `u7::from`, which keep the low 28, 4 and 7 bits. For values
/// that fit, and no others are let in, that is the value itself, so the
/// event holds what it was given.
#[verifier::external_body]
fn midly_note_on(delta: u32, channel: u8, key: u8, vel: u8) -> (event: midly::TrackEvent<'static>)
    requires
        delta < 0x1000_0000,
        channel < 16,
        key < 128,
        vel < 128,
    ensures
        event_model(event) == (DeltaEvent { delta, kind: EventKind::NoteOn { channel, key, vel } }),
{
    midly::TrackEvent {
        delta: midly::num::u28::from(delta),
        kind: midly::TrackEventKind::Midi {
            channel: midly::num::u4::from(channel),
            message: midly::MidiMessage::NoteOn {
                key: midly::num::u7::from(key),
                vel: midly::num::u7::from(vel),
            },
        },
    }
}

/// Builds the `midly` note-off event for these values, through the same
/// conversions as [`midly_note_on`] and under the same bounds.
#[verifier::external_body]
fn midly_note_off(delta: u32, channel: u8, key: u8, vel: u8) -> (event: midly::TrackEvent<'static>)
    requires
        delta < 0x1000_0000,
        channel < 16,
        key < 128,
        vel < 128,
    ensures
        event_model(event) == (DeltaEvent { delta, kind: EventKind::NoteOff { channel, key, vel } }),
{
    midly::TrackEvent {
        delta: midly::num::u28::from(delta),
        kind: midly::TrackEventKind::Midi {
            channel: midly::num::u4::from(channel),
            message: midly::MidiMessage::NoteOff {
                key: midly::num::u7::from(key),
                vel: midly::num::u7::from(vel),
            },
        },
    }
}

/// Builds the `midly` end-of-track event with this delta, which `u28::from`
/// keeps as it is where it fits in 28 bits.
#[verifier::external_body]
fn midly_end_of_track(delta: u32) -> (event: midly::TrackEvent<'static>)
    requires
        delta < 0x1000_0000,
    ensures
        event_model(event) == (DeltaEvent { delta, kind: EventKind::EndOfTrack }),
{
    midly::TrackEvent {
        delta: midly::num::u28::from(delta),
        kind: midly::TrackEventKind::Meta(midly::MetaMessage::EndOfTrack),
    }
}

/// Builds the `midly` file that has `track` as its only track, under a
/// header that says single track and metrical timing with `ticks_per_beat`,
/// which `u15::from` keeps as it is where it fits in 15 bits.
#[verifier::external_body]
fn midly_single_track(ticks_per_beat: u16, track: Vec<midly::TrackEvent<'static>>) -> (smf:
    midly::Smf<'static>)
    requires
        ticks_per_beat < 0x8000,
    ensures
        smf_is_single_track(smf),
        smf_ticks_per_beat(smf) == ticks_per_beat,
        smf_tracks(smf) == seq![event_models(track@)],
{
    midly::Smf {
        header: midly::Header {
            format: midly::Format::SingleTrack,
            timing: midly::Timing::Metrical(midly::num::u15::from(ticks_per_beat)),
        },
        tracks: vec![track],
    }
}

/// The `midly` event for an event of this library.
fn midly_event(event: DeltaEvent) -> (converted: midly::TrackEvent<'static>)
    requires
        fits_midly(event),
    ensures
        event_model(converted) == event,
{
    match event.kind {
        EventKind::NoteOn { channel, key, vel } => midly_note_on(event.delta, channel, key, vel),
        EventKind::NoteOff { channel, key, vel } => midly_note_off(event.delta, channel, key, vel),
        EventKind::EndOfTrack => midly_end_of_track(event.delta),
    }
}

impl Score {
    /// The score as a MIDI file: one track, the track of the score, at 24
    /// ticks to the beat. No tempo is written into it.
    pub fn to_midi(&self) -> (smf: midly::Smf<'static>)
        ensures
            smf_is_single_track(smf),
            smf_ticks_per_beat(smf) == TICKS_PER_BEAT,
            smf_tracks(smf) == seq![track_of(self@)],
    {
        let track = self.to_track();
        proof {
            lemma_track_shape(self@);
        }
        let mut events: Vec<midly::TrackEvent<'static>> = Vec::with_capacity(track.len());
        for k in 0..track.len()
            invariant
                track@ == track_of(self@),
                forall|j: int| 0 <= j < track@.len() ==> fits_midly(#[trigger] track@[j]),
                events@.len() == k,
                event_models(events@) == track@.take(k as int),
        {
            let ghost before = events@;
            let converted = midly_event(track[k]);
            events.push(converted);
            assert forall|j: int| 0 <= j < k + 1 implies event_models(events@)[j] == track@[j] by {
                if j < k {
                    assert(events@[j] == before[j]);
                    assert(event_models(before)[j] == track@.take(k as int)[j]);
                }
            }
            assert(event_models(events@) =~= track@.take(k + 1));
        }
        assert(track@.take(track@.len() as int) == track@);
        midly_single_track(TICKS_PER_BEAT, events)
    }
}

} // verus!
