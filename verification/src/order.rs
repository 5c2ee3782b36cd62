//! Putting events in time order without disturbing simultaneous ones.

use crate::event::well_formed;
use crate::event::TimedEvent;
use crate::event::LATEST_TIME;
use vstd::prelude::*;

verus! {

/// Where an event that happens at `time` goes into `sorted`: behind the last
/// event that happens no later.
pub open spec fn insert_position(sorted: Seq<TimedEvent>, time: u32) -> int
    decreases sorted.len(),
{
    if sorted.len() == 0 || sorted.last().time <= time {
        sorted.len() as int
    } else {
        insert_position(sorted.drop_last(), time)
    }
}

/// `events` in time order. Events that happen at the same time keep the
/// order in which `events` holds them.
pub open spec fn sorted_by_time(events: Seq<TimedEvent>) -> Seq<TimedEvent>
    decreases events.len(),
{
    if events.len() == 0 {
        Seq::empty()
    } else {
        let earlier = sorted_by_time(events.drop_last());
        earlier.insert(insert_position(earlier, events.last().time), events.last())
    }
}

/// No event happens before one that stands in front of it.
pub open spec fn ascends(events: Seq<TimedEvent>) -> bool {
    forall|a: int, b: int| 0 <= a <= b < events.len() ==> events[a].time <= events[b].time
}

/// Finds where an event that happens at `time` goes into events that are in
/// time order already, by halving the stretch in which the place can lie.
fn find_insert_position(sorted: &Vec<TimedEvent>, time: u32) -> (pos: usize)
    requires
        ascends(sorted@),
    ensures
        pos == insert_position(sorted@, time),
        pos <= sorted@.len(),
{
    let mut low: usize = 0;
    let mut high: usize = sorted.len();
    while low < high
        invariant
            low <= high <= sorted@.len(),
            ascends(sorted@),
            forall|j: int| 0 <= j < low ==> (#[trigger] sorted@[j]).time <= time,
            forall|j: int| high <= j < sorted@.len() ==> (#[trigger] sorted@[j]).time > time,
        decreases high - low,
    {
        let middle = low + (high - low) / 2;
        if sorted[middle].time <= time {
            assert forall|j: int| 0 <= j < middle + 1 implies (#[trigger] sorted@[j]).time
                <= time by {
                assert(sorted@[j].time <= sorted@[middle as int].time);
            }
            low = middle + 1;
        } else {
            assert forall|j: int| middle <= j < sorted@.len() implies (#[trigger] sorted@[j]).time
                > time by {
                assert(sorted@[middle as int].time <= sorted@[j].time);
            }
            high = middle;
        }
    }
    proof {
        lemma_insert_position(sorted@, time);
        let pos = insert_position(sorted@, time);
        if pos < low {
            assert(sorted@[pos].time > time);
        }
        if pos > low {
            assert(sorted@[pos - 1].time <= time);
        }
    }
    low
}

/// Puts events in time order, keeping the order of simultaneous events.
pub fn sort_by_time(events: &Vec<TimedEvent>) -> (sorted: Vec<TimedEvent>)
    ensures
        sorted@ == sorted_by_time(events@),
{
    let mut sorted: Vec<TimedEvent> = Vec::with_capacity(events.len());
    for i in 0..events.len()
        invariant
            sorted@ == sorted_by_time(events@.take(i as int)),
    {
        let event = events[i];
        proof {
            lemma_sorted_by_time_ascends(events@.take(i as int));
        }
        let pos = find_insert_position(&sorted, event.time);
        assert(events@.take(i + 1).drop_last() == events@.take(i as int));
        sorted.insert(pos, event);
    }
    assert(events@.take(events@.len() as int) == events@);
    sorted
}

/// Everything from the insert position on happens later than `time`, and
/// the event just in front of it does not.
pub proof fn lemma_insert_position(sorted: Seq<TimedEvent>, time: u32)
    ensures
        0 <= insert_position(sorted, time) <= sorted.len(),
        forall|j: int|
            insert_position(sorted, time) <= j < sorted.len() ==> (#[trigger] sorted[j]).time
                > time,
        insert_position(sorted, time) > 0 ==> sorted[insert_position(sorted, time) - 1].time
            <= time,
    decreases sorted.len(),
{
    if !(sorted.len() == 0 || sorted.last().time <= time) {
        let shorter = sorted.drop_last();
        lemma_insert_position(shorter, time);
        assert forall|j: int| insert_position(sorted, time) <= j < sorted.len() implies (
        #[trigger] sorted[j]).time > time by {
            if j < shorter.len() {
                assert(shorter[j] == sorted[j]);
            }
        }
    }
}

/// Sorting keeps the number of events and leaves them in ascending time.
pub proof fn lemma_sorted_by_time_ascends(events: Seq<TimedEvent>)
    ensures
        sorted_by_time(events).len() == events.len(),
        ascends(sorted_by_time(events)),
    decreases events.len(),
{
    if events.len() > 0 {
        let earlier = sorted_by_time(events.drop_last());
        let event = events.last();
        let pos = insert_position(earlier, event.time);
        lemma_sorted_by_time_ascends(events.drop_last());
        lemma_insert_position(earlier, event.time);
        let sorted = earlier.insert(pos, event);
        assert forall|a: int, b: int| 0 <= a <= b < sorted.len() implies sorted[a].time
            <= sorted[b].time by {
            if a < pos {
                assert(sorted[a] == earlier[a]);
                assert(earlier[a].time <= earlier[pos - 1].time);
            }
            if a > pos {
                assert(sorted[a] == earlier[a - 1]);
            }
            if b < pos {
                assert(sorted[b] == earlier[b]);
            }
            if b > pos {
                assert(sorted[b] == earlier[b - 1]);
            }
        }
    }
}

/// Sorting neither drops nor invents an event: every event is there as
/// often as before.
pub proof fn lemma_sorted_by_time_permutes(events: Seq<TimedEvent>)
    ensures
        sorted_by_time(events).to_multiset() == events.to_multiset(),
    decreases events.len(),
{
    if events.len() > 0 {
        let shorter = events.drop_last();
        let earlier = sorted_by_time(shorter);
        let event = events.last();
        lemma_sorted_by_time_permutes(shorter);
        lemma_insert_position(earlier, event.time);
        vstd::seq_lib::to_multiset_insert(earlier, insert_position(earlier, event.time), event);
        vstd::seq_lib::to_multiset_build(shorter, event);
        assert(shorter.push(event) == events);
    } else {
        assert(events == Seq::<TimedEvent>::empty());
    }
}

/// Event `i` of `events` is played before event `j`: it happens earlier, or
/// at the same time and stands in front of it.
pub open spec fn plays_before(events: Seq<TimedEvent>, i: int, j: int) -> bool {
    events[i].time < events[j].time || (events[i].time == events[j].time && i < j)
}

/// `order` lists the places of `events` in the order in which they are
/// played. As that order is strict no place is listed twice, so with as
/// many entries as there are events every place is listed once.
pub open spec fn is_playing_order(events: Seq<TimedEvent>, order: Seq<int>) -> bool {
    &&& order.len() == events.len()
    &&& forall|k: int| 0 <= k < order.len() ==> 0 <= #[trigger] order[k] < events.len()
    &&& forall|a: int, b: int|
        #![trigger order[a], order[b]]
        0 <= a < b < order.len() ==> plays_before(events, order[a], order[b])
}

/// The events of `events` at the places that `order` lists.
pub open spec fn reordered(events: Seq<TimedEvent>, order: Seq<int>) -> Seq<TimedEvent> {
    Seq::new(order.len(), |k: int| events[order[k]])
}

/// Sorting is stable: the sorted events are the events taken in playing
/// order, in which simultaneous events keep their places relative to each
/// other. The order is handed back.
pub proof fn lemma_sorted_by_time_is_stable(events: Seq<TimedEvent>) -> (order: Seq<int>)
    ensures
        is_playing_order(events, order),
        sorted_by_time(events) == reordered(events, order),
    decreases events.len(),
{
    if events.len() == 0 {
        let order = Seq::<int>::empty();
        assert(sorted_by_time(events) =~= reordered(events, order));
        order
    } else {
        let shorter = events.drop_last();
        let earlier = sorted_by_time(shorter);
        let event = events.last();
        let pos = insert_position(earlier, event.time);
        let before = lemma_sorted_by_time_is_stable(shorter);
        lemma_sorted_by_time_ascends(shorter);
        lemma_insert_position(earlier, event.time);
        let order = before.insert(pos, events.len() - 1);
        let sorted = earlier.insert(pos, event);
        assert forall|k: int| 0 <= k < order.len() implies 0 <= #[trigger] order[k]
            < events.len() && sorted[k] == events[order[k]] by {
            if k < pos {
                assert(order[k] == before[k]);
                assert(sorted[k] == earlier[k]);
                assert(shorter[before[k]] == events[before[k]]);
            } else if k > pos {
                assert(order[k] == before[k - 1]);
                assert(sorted[k] == earlier[k - 1]);
                assert(shorter[before[k - 1]] == events[before[k - 1]]);
            }
        }
        assert forall|a: int, b: int| 0 <= a < b < order.len() implies plays_before(
            events,
            #[trigger] order[a],
            #[trigger] order[b],
        ) by {
            assert(sorted[a] == events[order[a]]);
            assert(sorted[b] == events[order[b]]);
            if a == pos {
                assert(sorted[b] == earlier[b - 1]);
            } else if b == pos {
                assert(sorted[a] == earlier[a]);
                assert(earlier[a].time <= earlier[pos - 1].time);
                assert(order[a] == before[a]);
            } else {
                let a0 = if a < pos { a } else { a - 1 };
                let b0 = if b < pos { b } else { b - 1 };
                assert(order[a] == before[a0]);
                assert(order[b] == before[b0]);
                assert(plays_before(shorter, before[a0], before[b0]));
                assert(shorter[before[a0]] == events[before[a0]]);
                assert(shorter[before[b0]] == events[before[b0]]);
            }
        }
        assert(sorted =~= reordered(events, order));
        order
    }
}

/// Sorting well-formed events gives well-formed events.
pub proof fn lemma_sorted_by_time_well_formed(events: Seq<TimedEvent>)
    requires
        well_formed(events),
    ensures
        well_formed(sorted_by_time(events)),
{
    let order = lemma_sorted_by_time_is_stable(events);
    let sorted = sorted_by_time(events);
    assert forall|k: int| 0 <= k < sorted.len() implies (#[trigger] sorted[k]).time
        <= LATEST_TIME && sorted[k].kind.on_the_wire() by {
        assert(sorted[k] == events[order[k]]);
    }
}

/// A playing order lists every place: it lists none twice, and it has as
/// many entries as there are places.
pub proof fn lemma_playing_order_lists_all(events: Seq<TimedEvent>, order: Seq<int>, place: int)
    requires
        is_playing_order(events, order),
        0 <= place < events.len(),
    ensures
        order.contains(place),
{
    assert forall|i: int, j: int|
        0 <= i < order.len() && 0 <= j < order.len() && i != j implies order[i] != order[j] by {
        if i < j {
            assert(plays_before(events, order[i], order[j]));
        } else {
            assert(plays_before(events, order[j], order[i]));
        }
    }
    order.unique_seq_to_set();
    if !order.contains(place) {
        let places = vstd::set_lib::set_int_range(0, events.len() as int);
        vstd::set_lib::lemma_int_range(0, events.len() as int);
        let others = places.remove(place);
        assert forall|listed: int| order.to_set().contains(listed) implies others.contains(
            listed,
        ) by {
            let k = choose|k: int| 0 <= k < order.len() && order[k] == listed;
            assert(0 <= order[k] < events.len());
        }
        vstd::set_lib::lemma_len_subset(order.to_set(), others);
        assert(false);
    }
}

/// Two playing orders of the same events agree in every place.
proof fn lemma_playing_orders_agree_at(
    events: Seq<TimedEvent>,
    one: Seq<int>,
    other: Seq<int>,
    k: int,
)
    requires
        is_playing_order(events, one),
        is_playing_order(events, other),
        0 <= k < events.len(),
    ensures
        one[k] == other[k],
    decreases k,
{
    assert forall|m: int| 0 <= m < k implies one[m] == other[m] by {
        lemma_playing_orders_agree_at(events, one, other, m);
    }
    assert(0 <= one[k] < events.len());
    assert(0 <= other[k] < events.len());
    lemma_playing_order_lists_all(events, other, one[k]);
    lemma_playing_order_lists_all(events, one, other[k]);
    let j = choose|j: int| 0 <= j < other.len() && other[j] == one[k];
    let i = choose|i: int| 0 <= i < one.len() && one[i] == other[k];
    if j < k {
        assert(one[j] == other[j]);
        assert(plays_before(events, one[j], one[k]));
    } else if i < k {
        assert(one[i] == other[i]);
        assert(plays_before(events, other[i], other[k]));
    } else if j > k {
        assert(plays_before(events, other[k], other[j]));
        if i > k {
            assert(plays_before(events, one[k], one[i]));
        }
    }
}

/// Events have one playing order only.
pub proof fn lemma_playing_order_is_unique(events: Seq<TimedEvent>, one: Seq<int>, other: Seq<int>)
    requires
        is_playing_order(events, one),
        is_playing_order(events, other),
    ensures
        one == other,
{
    assert forall|k: int| 0 <= k < one.len() implies one[k] == other[k] by {
        lemma_playing_orders_agree_at(events, one, other, k);
    }
    assert(one =~= other);
}

/// Whatever takes events in their playing order gets `sorted_by_time`:
/// there is no second way to sort by time and keep simultaneous events in
/// their order.
pub proof fn lemma_stable_sort_is_unique(events: Seq<TimedEvent>, order: Seq<int>)
    requires
        is_playing_order(events, order),
    ensures
        reordered(events, order) == sorted_by_time(events),
{
    let sorting = lemma_sorted_by_time_is_stable(events);
    lemma_playing_order_is_unique(events, order, sorting);
}

} // verus!
