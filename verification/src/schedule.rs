//! The saved schedule of wake events, kept one event per id.
use vstd::prelude::*;
use vstd::set_lib::lemma_int_range;
use vstd::set_lib::lemma_len_subset;
use vstd::set_lib::set_int_range;

use crate::time::TimeOfDay;
use crate::time::UtcTime;

verus! {

broadcast use vstd::seq_lib::seq_to_set_is_finite;

#[derive(Clone, Copy, Debug, PartialEq, Eq, Structural)]
pub enum Weekday {
    Mon,
    Tue,
    Wed,
    Thu,
    Fri,
    Sat,
    Sun,
}

/// When a wake event fires.
#[derive(Debug)]
pub enum EventKind {
    /// Once, at an instant.
    Once(UtcTime),
    /// Every week, on the given days, at a time of day.
    Weekly { days: Vec<Weekday>, time: TimeOfDay },
}

#[derive(Debug)]
pub struct Event {
    pub id: u64,
    pub kind: EventKind,
}

#[derive(Debug)]
pub struct Schedule {
    pub events: Vec<Event>,
}

impl Default for Schedule {
    /// The empty schedule.
    fn default() -> (r: Schedule)
        ensures
            r.events@ == Seq::<Event>::empty(),
    {
        Schedule { events: Vec::new() }
    }
}

/// Whether some event of `events` has the id `id`.
pub open spec fn has_id(events: Seq<Event>, id: u64) -> bool {
    exists|i: int| 0 <= i < events.len() && (#[trigger] events[i]).id == id
}

/// The events of `events` whose id is not `id`, in order.
pub open spec fn without_id(events: Seq<Event>, id: u64) -> Seq<Event> {
    events.filter(|e: Event| e.id != id)
}

/// Whether `id` is in use by some event of the schedule.
pub fn id_in_use(events: &Vec<Event>, id: u64) -> (r: bool)
    ensures
        r == has_id(events@, id),
{
    for i in 0..events.len()
        invariant
            forall|j: int| 0 <= j < i ==> (#[trigger] events@[j]).id != id,
    {
        if events[i].id == id {
            return true;
        }
    }
    false
}

/// If every id from 1 to `n` is in use, there are at least `n` events.
pub proof fn lemma_used_ids_fit(events: Seq<Event>, n: int)
    requires
        0 <= n <= u64::MAX,
        forall|k: u64| 1 <= k <= n ==> #[trigger] has_id(events, k),
    ensures
        n <= events.len(),
{
    let ids = events.map_values(|e: Event| e.id as int);
    let used = ids.to_set();
    ids.lemma_cardinality_of_set();
    lemma_int_range(1, n + 1);
    assert(set_int_range(1, n + 1).subset_of(used)) by {
        assert forall|k: int| #[trigger] set_int_range(1, n + 1).contains(k) implies used.contains(
            k,
        ) by {
            let ku = k as u64;
            assert(ku as int == k);
            assert(has_id(events, ku));
            let i = choose|i: int| 0 <= i < events.len() && (#[trigger] events[i]).id == ku;
            assert(ids[i] == k);
        }
    }
    lemma_len_subset(set_int_range(1, n + 1), used);
}

/// `id` is the smallest positive id that no event of `events` uses.
pub open spec fn lowest_unused_id(events: Seq<Event>, id: u64) -> bool {
    &&& id >= 1
    &&& !has_id(events, id)
    &&& forall|k: u64| 1 <= k < id ==> #[trigger] has_id(events, k)
}

/// The smallest positive id that no event of the schedule uses.
pub fn get_unused_id(schedule: &Schedule) -> (r: u64)
    requires
        schedule.events@.len() < u64::MAX,
    ensures
        lowest_unused_id(schedule.events@, r),
{
    let mut index: u64 = 1;
    while id_in_use(&schedule.events, index)
        invariant
            1 <= index,
            schedule.events@.len() < u64::MAX,
            forall|k: u64| 1 <= k < index ==> #[trigger] has_id(schedule.events@, k),
        decreases schedule.events@.len() + 1 - index,
    {
        proof {
            assert forall|k: u64| 1 <= k <= index implies #[trigger] has_id(
                schedule.events@,
                k,
            ) by {
                if k < index {
                    assert(has_id(schedule.events@, k));
                }
            }
            lemma_used_ids_fit(schedule.events@, index as int);
        }
        index = index + 1;
    }
    proof {
        if index > 1 {
            assert(has_id(schedule.events@, (index - 1) as u64));
            lemma_used_ids_fit(schedule.events@, index - 1);
        }
    }
    index
}

/// Puts `event_in` last in the schedule, in place of every event with its id.
pub fn add_to_schedule(schedule: &mut Schedule, event_in: Event)
    ensures
        final(schedule).events@ == without_id(old(schedule).events@, event_in.id).push(event_in),
{
    let id = event_in.id;
    let ghost old_events = schedule.events@;
    let ghost keep = |e: Event| e.id != id;
    let mut i: usize = 0;
    let ghost mut j: int = 0;
    proof {
        reveal(Seq::filter);
        assert(old_events.take(0) =~= Seq::<Event>::empty());
        assert(old_events.skip(0) =~= old_events);
    }
    while i < schedule.events.len()
        invariant
            0 <= j <= old_events.len(),
            keep == (|e: Event| e.id != id),
            i == old_events.take(j).filter(keep).len(),
            schedule.events@ == old_events.take(j).filter(keep) + old_events.skip(j),
        decreases old_events.len() - j,
    {
        proof {
            reveal(Seq::filter);
            assert(old_events.take(j + 1).drop_last() =~= old_events.take(j));
            assert(old_events.take(j + 1).last() == old_events[j]);
            assert(schedule.events@[i as int] == old_events[j]);
        }
        if schedule.events[i].id == id {
            schedule.events.remove(i);
            proof {
                assert(schedule.events@ =~= old_events.take(j + 1).filter(keep) + old_events.skip(
                    j + 1,
                ));
            }
        } else {
            i = i + 1;
            proof {
                assert(schedule.events@ =~= old_events.take(j + 1).filter(keep) + old_events.skip(
                    j + 1,
                ));
            }
        }
        proof {
            j = j + 1;
        }
    }
    proof {
        assert(old_events.take(j).filter(keep).len() + old_events.skip(j).len() == i);
        assert(old_events.skip(j).len() == 0);
        assert(old_events.take(j) =~= old_events);
        assert(schedule.events@ =~= old_events.filter(keep));
    }
    schedule.events.push(event_in);
}

/// No two events share an id.
pub open spec fn unique_ids(events: Seq<Event>) -> bool {
    forall|i: int, j: int|
        0 <= i < j < events.len() ==> (#[trigger] events[i]).id != (#[trigger] events[j]).id
}

/// The events without the id `id` are events of the schedule, with ids other
/// than `id`, and every such event stays.
pub proof fn lemma_without_id_members(events: Seq<Event>, id: u64)
    ensures
        forall|i: int|
            0 <= i < without_id(events, id).len() ==> events.contains(
                #[trigger] without_id(events, id)[i],
            ) && without_id(events, id)[i].id != id,
        forall|e: Event| events.contains(e) && e.id != id ==> #[trigger] without_id(
            events,
            id,
        ).contains(e),
    decreases events.len(),
{
    reveal(Seq::filter);
    if events.len() > 0 {
        let rest = events.drop_last();
        lemma_without_id_members(rest, id);
        assert forall|e: Event| events.contains(e) && e.id != id implies #[trigger] without_id(
            events,
            id,
        ).contains(e) by {
            let i = choose|i: int| 0 <= i < events.len() && events[i] == e;
            if i < events.len() - 1 {
                assert(rest[i] == e);
                assert(rest.contains(e));
                let w = without_id(rest, id);
                assert(w.contains(e));
                let k = choose|k: int| 0 <= k < w.len() && w[k] == e;
                if events.last().id != id {
                    assert(without_id(events, id) == w.push(events.last()));
                    assert(without_id(events, id)[k] == e);
                } else {
                    assert(without_id(events, id) == w);
                }
            } else {
                let w = without_id(rest, id);
                assert(without_id(events, id)[w.len() as int] == e);
            }
        }
        assert forall|i: int| 0 <= i < without_id(events, id).len() implies events.contains(
            #[trigger] without_id(events, id)[i],
        ) && without_id(events, id)[i].id != id by {
            let w = without_id(rest, id);
            if i < w.len() {
                assert(without_id(events, id)[i] == w[i]);
                let k = choose|k: int| 0 <= k < rest.len() && rest[k] == w[i];
                assert(events[k] == w[i]);
            } else {
                assert(events[events.len() - 1] == without_id(events, id)[i]);
            }
        }
    }
}

/// Where no event has the id `id`, taking out the events with that id keeps
/// every event.
pub proof fn lemma_without_absent_id(events: Seq<Event>, id: u64)
    requires
        !has_id(events, id),
    ensures
        without_id(events, id) == events,
    decreases events.len(),
{
    reveal(Seq::filter);
    if events.len() > 0 {
        let rest = events.drop_last();
        assert(!has_id(rest, id)) by {
            if has_id(rest, id) {
                let i = choose|i: int| 0 <= i < rest.len() && (#[trigger] rest[i]).id == id;
                assert(events[i].id == id);
            }
        }
        lemma_without_absent_id(rest, id);
        assert(events[events.len() - 1].id != id);
        assert(rest.push(events.last()) =~= events);
    }
}

/// Adding an event leaves exactly one event with its id, the one added,
/// last; every other id stays in use exactly where it was in use before.
pub proof fn law_add_replaces_same_id(events: Seq<Event>, event_in: Event)
    ensures
        ({
            let added = without_id(events, event_in.id).push(event_in);
            &&& added.last() == event_in
            &&& forall|i: int| 0 <= i < added.len() - 1 ==> (#[trigger] added[i]).id != event_in.id
            &&& forall|k: u64| k != event_in.id ==> (has_id(added, k) <==> has_id(events, k))
        }),
{
    let w = without_id(events, event_in.id);
    let added = w.push(event_in);
    lemma_without_id_members(events, event_in.id);
    assert forall|i: int| 0 <= i < added.len() - 1 implies (#[trigger] added[i]).id
        != event_in.id by {
        assert(added[i] == w[i]);
    }
    assert forall|k: u64| k != event_in.id implies (has_id(added, k) <==> has_id(events, k)) by {
        if has_id(added, k) {
            let i = choose|i: int| 0 <= i < added.len() && (#[trigger] added[i]).id == k;
            assert(added[i] == w[i]);
            assert(events.contains(w[i]));
            let j = choose|j: int| 0 <= j < events.len() && events[j] == w[i];
            assert(events[j].id == k);
        }
        if has_id(events, k) {
            let j = choose|j: int| 0 <= j < events.len() && (#[trigger] events[j]).id == k;
            assert(events.contains(events[j]));
            assert(w.contains(events[j]));
            let i = choose|i: int| 0 <= i < w.len() && w[i] == events[j];
            assert(added[i] == w[i]);
        }
    }
}

/// Adding an event keeps the ids of a schedule unique.
pub proof fn law_add_keeps_ids_unique(events: Seq<Event>, event_in: Event)
    requires
        unique_ids(events),
    ensures
        unique_ids(without_id(events, event_in.id).push(event_in)),
    decreases events.len(),
{
    reveal(Seq::filter);
    let w = without_id(events, event_in.id);
    lemma_without_id_members(events, event_in.id);
    assert(unique_ids(w)) by {
        if events.len() > 0 {
            let rest = events.drop_last();
            assert(unique_ids(rest)) by {
                assert forall|i: int, j: int| 0 <= i < j < rest.len() implies (#[trigger] rest[i]).id
                    != (#[trigger] rest[j]).id by {
                    assert(rest[i] == events[i] && rest[j] == events[j]);
                }
            }
            law_add_keeps_ids_unique(rest, event_in);
            let wr = without_id(rest, event_in.id);
            assert(unique_ids(wr.push(event_in)));
            assert(unique_ids(wr)) by {
                assert forall|i: int, j: int| 0 <= i < j < wr.len() implies (#[trigger] wr[i]).id
                    != (#[trigger] wr[j]).id by {
                    assert(wr.push(event_in)[i] == wr[i]);
                    assert(wr.push(event_in)[j] == wr[j]);
                }
            }
            if events.last().id != event_in.id {
                lemma_without_id_members(rest, event_in.id);
                assert forall|i: int| 0 <= i < wr.len() implies (#[trigger] wr[i]).id
                    != events.last().id by {
                    assert(rest.contains(wr[i]));
                    let k = choose|k: int| 0 <= k < rest.len() && rest[k] == wr[i];
                    assert(events[k] == wr[i]);
                }
                assert forall|i: int, j: int| 0 <= i < j < w.len() implies (#[trigger] w[i]).id
                    != (#[trigger] w[j]).id by {
                    if j < wr.len() {
                        assert(w[i] == wr[i] && w[j] == wr[j]);
                    } else {
                        assert(w[i] == wr[i]);
                        assert(w[j] == events.last());
                    }
                }
            }
        }
    }
    let added = w.push(event_in);
    assert forall|i: int, j: int| 0 <= i < j < added.len() implies (#[trigger] added[i]).id
        != (#[trigger] added[j]).id by {
        assert(added[i] == w[i]);
        if j < w.len() {
            assert(added[j] == w[j]);
        }
    }
}

/// An event added under an id that no event uses, such as the one that
/// `get_unused_id` gives, is put after all the events already there.
pub proof fn law_add_fresh_id_appends(events: Seq<Event>, event_in: Event)
    requires
        !has_id(events, event_in.id),
    ensures
        without_id(events, event_in.id).push(event_in) == events.push(event_in),
{
    lemma_without_absent_id(events, event_in.id);
}

/// The smallest unused id of a schedule is one id: two readings of the same
/// schedule by `get_unused_id` agree.
pub proof fn law_unused_id_is_determined(events: Seq<Event>, first: u64, second: u64)
    requires
        lowest_unused_id(events, first),
        lowest_unused_id(events, second),
    ensures
        first == second,
{
    if first < second {
        assert(has_id(events, first));
    } else if second < first {
        assert(has_id(events, second));
    }
}

/// Adding an event under the id that `get_unused_id` gave for the same
/// schedule replaces and reorders nothing: the event goes last and the
/// schedule grows by one.
pub proof fn law_add_under_unused_id(events: Seq<Event>, event_in: Event)
    requires
        lowest_unused_id(events, event_in.id),
    ensures
        without_id(events, event_in.id).push(event_in) == events.push(event_in),
        without_id(events, event_in.id).push(event_in).len() == events.len() + 1,
{
    law_add_fresh_id_appends(events, event_in);
}

} // verus!
