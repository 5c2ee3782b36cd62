//! From notes to a track: every note becomes a note-on and a note-off, the
//! events are put in time order, and each is stamped with the ticks that
//! pass since the event before it.

use crate::event::events_of_notes;
use crate::event::lemma_note_events_well_formed;
use crate::event::note_events;
use crate::event::note_off;
use crate::event::well_formed;
use crate::event::DeltaEvent;
use crate::event::EventKind;
use crate::event::TimedEvent;
use crate::event::LATEST_TIME;
use crate::event::SEMIQUAVERS_PER_BEAT;
use crate::event::TICKS_PER_BEAT;
use crate::note::Note;
use crate::order::ascends;
use crate::order::lemma_sorted_by_time_ascends;
use crate::order::lemma_sorted_by_time_is_stable;
use crate::order::lemma_sorted_by_time_permutes;
use crate::order::lemma_sorted_by_time_well_formed;
use crate::order::sort_by_time;
use crate::order::sorted_by_time;
use crate::score::Score;
use vstd::prelude::*;

verus! {

/// A span of `semiquavers` in ticks.
pub open spec fn ticks(semiquavers: int) -> int {
    semiquavers * TICKS_PER_BEAT / (SEMIQUAVERS_PER_BEAT as int)
}

/// The semiquavers between event `k` of `sorted` and the event before it,
/// or the start of the score for the first event.
pub open spec fn gap_before(sorted: Seq<TimedEvent>, k: int) -> int {
    if k == 0 {
        sorted[0].time as int
    } else {
        sorted[k].time - sorted[k - 1].time
    }
}

/// The events of `sorted`, each with the ticks since the event before it in
/// place of its time.
pub open spec fn delta_encoded(sorted: Seq<TimedEvent>) -> Seq<DeltaEvent> {
    Seq::new(
        sorted.len(),
        |k: int| DeltaEvent { delta: ticks(gap_before(sorted, k)) as u32, kind: sorted[k].kind },
    )
}

/// The event that closes a track.
pub open spec fn end_of_track() -> DeltaEvent {
    DeltaEvent { delta: 0, kind: EventKind::EndOfTrack }
}

/// The track that `notes` compile to.
pub open spec fn track_of(notes: Seq<Note>) -> Seq<DeltaEvent> {
    delta_encoded(sorted_by_time(note_events(notes))).push(end_of_track())
}

/// Replaces the time of each event by the ticks since the event before it.
fn delta_encode(sorted: &Vec<TimedEvent>) -> (track: Vec<DeltaEvent>)
    requires
        ascends(sorted@),
        well_formed(sorted@),
    ensures
        track@ == delta_encoded(sorted@),
{
    let mut track: Vec<DeltaEvent> = Vec::with_capacity(sorted.len());
    let mut previous: u32 = 0;
    for k in 0..sorted.len()
        invariant
            ascends(sorted@),
            well_formed(sorted@),
            track@ == delta_encoded(sorted@).take(k as int),
            previous == if k == 0 {
                0
            } else {
                sorted@[k - 1].time
            },
    {
        let event = sorted[k];
        assert(sorted@[k as int].time <= LATEST_TIME);
        assert(k > 0 ==> sorted@[k - 1].time <= sorted@[k as int].time);
        let gap: u32 = event.time - previous;
        assert(gap * TICKS_PER_BEAT <= LATEST_TIME * TICKS_PER_BEAT) by (nonlinear_arith)
            requires
                gap <= LATEST_TIME,
        ;
        let delta: u32 = gap * (TICKS_PER_BEAT as u32) / (SEMIQUAVERS_PER_BEAT as u32);
        assert(delta == ticks(gap_before(sorted@, k as int)));
        track.push(DeltaEvent { delta, kind: event.kind });
        previous = event.time;
        assert(track@ == delta_encoded(sorted@).take(k + 1));
    }
    assert(delta_encoded(sorted@).take(sorted@.len() as int) == delta_encoded(sorted@));
    track
}

impl Score {
    /// Compiles the score into its track: the note-ons and note-offs of all
    /// notes in time order, each with the ticks since the one before it,
    /// and the end-of-track event behind them.
    pub fn to_track(&self) -> (track: Vec<DeltaEvent>)
        ensures
            track@ == track_of(self@),
    {
        let events = events_of_notes(self.as_slice());
        let sorted = sort_by_time(&events);
        proof {
            lemma_sorted_by_time_ascends(events@);
            lemma_sorted_by_time_well_formed(events@);
        }
        let mut track = delta_encode(&sorted);
        track.push(DeltaEvent { delta: 0, kind: EventKind::EndOfTrack });
        track
    }
}

/// The ticks from the start of `track` to its event number `count`: the sum
/// of the deltas of the `count` events in front of it.
pub open spec fn ticks_until(track: Seq<DeltaEvent>, count: int) -> int
    decreases count,
{
    if count <= 0 {
        0
    } else {
        ticks_until(track, count - 1) + track[count - 1].delta
    }
}

/// The latest time, in semiquavers, at which a note of `notes` ends; 0 for
/// no notes.
pub open spec fn latest_end(notes: Seq<Note>) -> int
    decreases notes.len(),
{
    if notes.len() == 0 {
        0
    } else {
        let rest = latest_end(notes.drop_last());
        let end = notes.last().position + notes.last().duration;
        if end > rest {
            end
        } else {
            rest
        }
    }
}

/// A note of `notes` that ends last.
pub open spec fn latest_note(notes: Seq<Note>) -> int
    decreases notes.len(),
{
    if notes.len() <= 1 {
        0
    } else {
        let rest = latest_end(notes.drop_last());
        let end = notes.last().position + notes.last().duration;
        if end > rest {
            notes.len() - 1
        } else {
            latest_note(notes.drop_last())
        }
    }
}

/// No note ends after the latest end, and the latest note ends at it.
pub proof fn lemma_latest_end(notes: Seq<Note>, i: int)
    requires
        0 <= i < notes.len(),
    ensures
        notes[i].position + notes[i].duration <= latest_end(notes),
        0 <= latest_note(notes) < notes.len(),
        notes[latest_note(notes)].position + notes[latest_note(notes)].duration == latest_end(
            notes,
        ),
    decreases notes.len(),
{
    if notes.len() > 1 {
        let shorter = notes.drop_last();
        lemma_latest_end(shorter, if i < shorter.len() { i } else { 0 });
        assert(shorter[latest_note(shorter)] == notes[latest_note(shorter)]);
        if i < shorter.len() {
            assert(shorter[i] == notes[i]);
        }
    } else {
        assert(notes.drop_last().len() == 0);
        assert(latest_end(notes.drop_last()) == 0);
    }
}

/// Ticks are whole: 24 ticks to a beat of 4 semiquavers is 6 ticks to the
/// semiquaver, and the division leaves no remainder.
pub proof fn lemma_ticks_are_whole(semiquavers: int)
    ensures
        ticks(semiquavers) == 6 * semiquavers,
        ticks(semiquavers) * SEMIQUAVERS_PER_BEAT == semiquavers * TICKS_PER_BEAT,
{
}

/// A score without notes compiles to the end-of-track event alone.
pub proof fn lemma_empty_track()
    ensures
        track_of(Seq::<Note>::empty()) == seq![end_of_track()],
{
    let events = note_events(Seq::<Note>::empty());
    assert(events.len() == 0);
    assert(track_of(Seq::<Note>::empty()) =~= seq![end_of_track()]);
}

/// A track has two events for each note and the end-of-track event behind
/// them. The end-of-track event has delta 0; every other event is a note-on
/// or note-off that the wire can carry, of the event in the same place of the
/// sorted events, with a delta below 2^28.
pub proof fn lemma_track_shape(notes: Seq<Note>)
    ensures
        track_of(notes).len() == 2 * notes.len() + 1,
        track_of(notes).last() == end_of_track(),
        forall|k: int|
            0 <= k < 2 * notes.len() ==> {
                &&& (#[trigger] track_of(notes)[k]).kind == sorted_by_time(note_events(notes))[k].kind
                &&& track_of(notes)[k].kind != EventKind::EndOfTrack
                &&& track_of(notes)[k].kind.on_the_wire()
                &&& track_of(notes)[k].delta == ticks(gap_before(sorted_by_time(note_events(notes)), k))
                &&& track_of(notes)[k].delta <= ticks(LATEST_TIME as int) < 0x1000_0000
            },
{
    let events = note_events(notes);
    let sorted = sorted_by_time(events);
    lemma_note_events_well_formed(notes);
    lemma_sorted_by_time_ascends(events);
    lemma_sorted_by_time_well_formed(events);
    let order = lemma_sorted_by_time_is_stable(events);
    assert forall|k: int| 0 <= k < 2 * notes.len() implies {
        &&& (#[trigger] track_of(notes)[k]).kind == sorted[k].kind
        &&& track_of(notes)[k].kind != EventKind::EndOfTrack
        &&& track_of(notes)[k].kind.on_the_wire()
        &&& track_of(notes)[k].delta == ticks(gap_before(sorted, k))
        &&& track_of(notes)[k].delta <= ticks(LATEST_TIME as int) < 0x1000_0000
    } by {
        assert(track_of(notes)[k] == delta_encoded(sorted)[k]);
        assert(sorted[k] == events[order[k]]);
        assert(sorted[k].time <= LATEST_TIME);
        if k > 0 {
            assert(sorted[k - 1].time <= sorted[k].time);
        }
    }
}

/// Adding up the deltas of a track gives back the times of its events: the
/// ticks from the start of the track to event `k` are the time of the
/// `k`-th of the sorted events, in ticks.
pub proof fn lemma_deltas_add_up_to_times(notes: Seq<Note>, k: int)
    requires
        0 <= k < 2 * notes.len(),
    ensures
        ticks_until(track_of(notes), k + 1) == ticks(
            sorted_by_time(note_events(notes))[k].time as int,
        ),
    decreases k,
{
    let sorted = sorted_by_time(note_events(notes));
    lemma_track_shape(notes);
    lemma_sorted_by_time_ascends(note_events(notes));
    assert(track_of(notes)[k].delta == ticks(gap_before(sorted, k)));
    if k > 0 {
        lemma_deltas_add_up_to_times(notes, k - 1);
        assert(sorted[k - 1].time <= sorted[k].time);
    } else {
        assert(ticks_until(track_of(notes), 0) == 0);
    }
}

/// A track is as long as its score: the deltas of its note events together
/// are the latest end of a note, in ticks, and the end-of-track event adds
/// nothing to that.
pub proof fn lemma_track_length(notes: Seq<Note>)
    ensures
        ticks_until(track_of(notes), track_of(notes).len() - 1) == ticks(latest_end(notes)),
        ticks_until(track_of(notes), track_of(notes).len() as int) == ticks(latest_end(notes)),
{
    let events = note_events(notes);
    let sorted = sorted_by_time(events);
    let track = track_of(notes);
    lemma_track_shape(notes);
    lemma_sorted_by_time_ascends(events);
    assert(track[track.len() - 1].delta == 0);
    if notes.len() == 0 {
        assert(ticks_until(track, 0) == 0);
    } else {
        let last = 2 * notes.len() - 1;
        lemma_deltas_add_up_to_times(notes, last);
        let order = lemma_sorted_by_time_is_stable(events);
        assert(sorted[last] == events[order[last]]);
        lemma_latest_end(notes, order[last] / 2);
        let j = latest_note(notes);
        let off = events[2 * j + 1];
        assert(off == note_off(notes[j]));
        lemma_sorted_by_time_permutes(events);
        vstd::seq_lib::to_multiset_contains(events, off);
        vstd::seq_lib::to_multiset_contains(sorted, off);
        assert(events.contains(off));
        let at = choose|at: int| 0 <= at < sorted.len() && sorted[at] == off;
        assert(sorted[at].time <= sorted[last].time);
    }
}

} // verus!
