//! Ordering occurrences by their start and collecting them by calendar day.

use crate::model::{OccurrenceWithEvent, OccurrenceWithEventView};
use crate::time::{day_of, Date};
use vstd::prelude::*;

verus! {

/// An occurrence with its event, as the schedule lists it.
pub type Entry = OccurrenceWithEventView;

/// One day of the schedule: the day and what is listed on it.
pub type Day = (int, Seq<Entry>);

/// The instant at which `entry` starts.
pub open spec fn entry_start(entry: Entry) -> int {
    entry.occurrence.occurrence.start@
}

/// The day on which `entry` starts.
pub open spec fn entry_day(entry: Entry) -> int {
    day_of(entry_start(entry))
}

/// Selects the entries that start at the instant `start`.
pub open spec fn starts_at(start: int) -> spec_fn(Entry) -> bool {
    |entry: Entry| entry_start(entry) == start
}

/// Selects the entries that start on the day `day`.
pub open spec fn on_day(day: int) -> spec_fn(Entry) -> bool {
    |entry: Entry| entry_day(entry) == day
}

/// No entry starts before one that stands ahead of it.
pub open spec fn ascending(list: Seq<Entry>) -> bool {
    forall|i: int, j: int|
        0 <= i < j < list.len() ==> entry_start(#[trigger] list[i]) <= entry_start(
            #[trigger] list[j],
        )
}

/// `sorted` holds the entries of `source` in ascending order of start, and
/// those that start at one instant in the order they have in `source`.
pub open spec fn stable_sort_of(sorted: Seq<Entry>, source: Seq<Entry>) -> bool {
    &&& ascending(sorted)
    &&& forall|start: int| #[trigger]
        sorted.filter(starts_at(start)) == source.filter(starts_at(start))
}

/// The days stand in strictly ascending order.
pub open spec fn ascending_days(days: Seq<Day>) -> bool {
    forall|i: int, j: int|
        0 <= i < j < days.len() ==> (#[trigger] days[i]).0 < (#[trigger] days[j]).0
}

/// Whether `day` is one of `days`.
pub open spec fn has_day(days: Seq<Day>, day: int) -> bool {
    exists|i: int| 0 <= i < days.len() && (#[trigger] days[i]).0 == day
}

/// `days` is `list` collected by day: the days ascend, each day holds
/// exactly the entries of `list` that start on it, in the order they have in
/// `list`, no day is empty, and no entry is left out.
pub open spec fn grouping_of(days: Seq<Day>, list: Seq<Entry>) -> bool {
    &&& ascending_days(days)
    &&& forall|i: int|
        0 <= i < days.len() ==> (#[trigger] days[i]).1 == list.filter(on_day(days[i].0))
            && days[i].1.len() > 0
    &&& forall|k: int| 0 <= k < list.len() ==> has_day(days, entry_day(#[trigger] list[k]))
}

/// Where no element meets the selection, nothing is selected.
pub proof fn lemma_filter_none<A>(list: Seq<A>, selected: spec_fn(A) -> bool)
    requires
        forall|i: int| 0 <= i < list.len() ==> !selected(#[trigger] list[i]),
    ensures
        list.filter(selected) == Seq::<A>::empty(),
    decreases list.len(),
{
    reveal(Seq::filter);
    if list.len() > 0 {
        let shorter = list.drop_last();
        assert forall|i: int| 0 <= i < shorter.len() implies !selected(#[trigger] shorter[i]) by {
            assert(shorter[i] == list[i]);
        }
        lemma_filter_none(shorter, selected);
        assert(!selected(list[list.len() - 1]));
    } else {
        assert(list.filter(selected) =~= Seq::<A>::empty());
    }
}

/// An entry put behind everything that starts no later and ahead of
/// everything that starts later keeps the list ascending, and joins, as the
/// last of them, the entries that start when it does.
pub proof fn lemma_insert_by_start(sorted: Seq<Entry>, entry: Entry, place: int)
    requires
        ascending(sorted),
        0 <= place <= sorted.len(),
        forall|k: int| 0 <= k < place ==> entry_start(#[trigger] sorted[k]) <= entry_start(entry),
        forall|k: int|
            place <= k < sorted.len() ==> entry_start(#[trigger] sorted[k]) > entry_start(entry),
    ensures
        ascending(sorted.insert(place, entry)),
        forall|start: int| #[trigger]
            sorted.insert(place, entry).filter(starts_at(start)) == if start == entry_start(
                entry,
            ) {
                sorted.filter(starts_at(start)).push(entry)
            } else {
                sorted.filter(starts_at(start))
            },
{
    let longer = sorted.insert(place, entry);
    assert forall|i: int, j: int| 0 <= i < j < longer.len() implies entry_start(
        #[trigger] longer[i],
    ) <= entry_start(#[trigger] longer[j]) by {
        let a = if i < place {
            i
        } else {
            i - 1
        };
        let b = if j < place {
            j
        } else {
            j - 1
        };
        if i != place && j != place {
            assert(longer[i] == sorted[a]);
            assert(longer[j] == sorted[b]);
        } else if i == place {
            assert(longer[j] == sorted[b]);
        } else {
            assert(longer[i] == sorted[a]);
        }
    }
    let ahead = sorted.take(place);
    let behind = sorted.skip(place);
    assert(sorted =~= ahead + behind);
    assert(longer =~= ahead.push(entry) + behind);
    assert forall|start: int| #[trigger]
        longer.filter(starts_at(start)) == if start == entry_start(entry) {
            sorted.filter(starts_at(start)).push(entry)
        } else {
            sorted.filter(starts_at(start))
        } by {
        let selected = starts_at(start);
        Seq::filter_distributes_over_add(ahead, behind, selected);
        Seq::filter_distributes_over_add(ahead.push(entry), behind, selected);
        ahead.lemma_filter_push(entry, selected);
        if start == entry_start(entry) {
            assert forall|i: int| 0 <= i < behind.len() implies !selected(
                #[trigger] behind[i],
            ) by {
                assert(behind[i] == sorted[place + i]);
            }
            lemma_filter_none(behind, selected);
            assert(ahead.filter(selected) + Seq::<Entry>::empty() =~= ahead.filter(selected));
            assert(ahead.filter(selected).push(entry) + Seq::<Entry>::empty()
                =~= ahead.filter(selected).push(entry));
        }
    }
}

/// Puts `entry` into a list that ascends by start, behind every entry that
/// starts no later than it.
pub fn insert_by_start(list: &mut Vec<OccurrenceWithEvent>, entry: OccurrenceWithEvent)
    requires
        ascending(old(list).deep_view()),
    ensures
        ascending(final(list).deep_view()),
        final(list)@.len() == old(list)@.len() + 1,
        forall|start: int| #[trigger]
            final(list).deep_view().filter(starts_at(start)) == if start == entry_start(entry@) {
                old(list).deep_view().filter(starts_at(start)).push(entry@)
            } else {
                old(list).deep_view().filter(starts_at(start))
            },
{
    let start: i64 = entry.occurrence.occurrence.start.seconds;
    let mut place: usize = list.len();
    while place > 0 && list[place - 1].occurrence.occurrence.start.seconds > start
        invariant
            place <= list@.len(),
            start == entry_start(entry@),
            forall|k: int|
                place <= k < list@.len() ==> entry_start((#[trigger] list@[k])@) > start,
        decreases place,
    {
        place -= 1;
    }
    let ghost before = list.deep_view();
    proof {
        assert forall|k: int| 0 <= k < place implies entry_start(#[trigger] before[k])
            <= entry_start(entry@) by {
            assert(entry_start(before[k]) <= entry_start(before[place - 1]));
        }
        assert forall|k: int| place <= k < before.len() implies entry_start(#[trigger] before[k])
            > entry_start(entry@) by {
            assert(before[k] == list@[k]@);
        }
        lemma_insert_by_start(before, entry@, place as int);
    }
    let ghost model = entry@;
    list.insert(place, entry);
    proof {
        assert(list.deep_view() =~= before.insert(place as int, model));
    }
}

/// The entries of `list` in ascending order of start. Entries that start at
/// one instant keep the order they have in `list`.
pub fn sort_by_start(list: Vec<OccurrenceWithEvent>) -> (sorted: Vec<OccurrenceWithEvent>)
    ensures
        stable_sort_of(sorted.deep_view(), list.deep_view()),
        sorted@.len() == list@.len(),
{
    let ghost source = list.deep_view();
    let mut sorted: Vec<OccurrenceWithEvent> = Vec::new();
    proof {
        reveal(Seq::filter);
        assert(source.take(0) =~= sorted.deep_view());
    }
    for entry in iter: list
        invariant
            source == list.deep_view(),
            iter.seq() == list@,
            sorted@.len() == iter.index(),
            stable_sort_of(sorted.deep_view(), source.take(iter.index() as int)),
    {
        let ghost before = sorted.deep_view();
        let ghost seen = source.take(iter.index() as int);
        proof {
            assert(entry@ == source[iter.index() as int]);
            assert(source.take(iter.index() + 1) =~= seen.push(entry@));
            assert forall|start: int| #[trigger]
                seen.push(entry@).filter(starts_at(start)) == if start == entry_start(entry@) {
                    before.filter(starts_at(start)).push(entry@)
                } else {
                    before.filter(starts_at(start))
                } by {
                seen.lemma_filter_push(entry@, starts_at(start));
                assert(before.filter(starts_at(start)) == seen.filter(starts_at(start)));
            }
        }
        insert_by_start(&mut sorted, entry);
    }
    proof {
        assert(source.take(list@.len() as int) =~= source);
    }
    sorted
}

/// One more entry on a day that is already listed: the day grows by the
/// entry, and the grouping holds of the longer list.
pub proof fn lemma_group_known_day(days: Seq<Day>, list: Seq<Entry>, entry: Entry, place: int)
    requires
        grouping_of(days, list),
        0 <= place < days.len(),
        days[place].0 == entry_day(entry),
    ensures
        grouping_of(
            days.update(place, (days[place].0, days[place].1.push(entry))),
            list.push(entry),
        ),
{
    let day = entry_day(entry);
    let longer = list.push(entry);
    let grown = days.update(place, (days[place].0, days[place].1.push(entry)));
    assert forall|i: int, j: int| 0 <= i < j < grown.len() implies (#[trigger] grown[i]).0 < (
    #[trigger] grown[j]).0 by {
        assert(days[i].0 < days[j].0);
    }
    assert forall|i: int| 0 <= i < grown.len() implies (#[trigger] grown[i]).1 == longer.filter(
        on_day(grown[i].0),
    ) && grown[i].1.len() > 0 by {
        list.lemma_filter_push(entry, on_day(days[i].0));
        if i != place {
            if i < place {
                assert(days[i].0 < days[place].0);
            } else {
                assert(days[place].0 < days[i].0);
            }
        }
    }
    assert forall|k: int| 0 <= k < longer.len() implies has_day(
        grown,
        entry_day(#[trigger] longer[k]),
    ) by {
        if k < list.len() {
            assert(has_day(days, entry_day(list[k])));
            let i = choose|i: int|
                0 <= i < days.len() && (#[trigger] days[i]).0 == entry_day(list[k]);
            assert(grown[i].0 == entry_day(longer[k]));
        } else {
            assert(grown[place].0 == entry_day(longer[k]));
        }
    }
}

/// One more entry on a day that is not listed yet: the day comes in at its
/// place in the order, holding the entry alone, and the grouping holds of the
/// longer list.
pub proof fn lemma_group_new_day(days: Seq<Day>, list: Seq<Entry>, entry: Entry, place: int)
    requires
        grouping_of(days, list),
        0 <= place <= days.len(),
        forall|i: int| 0 <= i < place ==> (#[trigger] days[i]).0 < entry_day(entry),
        forall|i: int| place <= i < days.len() ==> (#[trigger] days[i]).0 > entry_day(entry),
    ensures
        grouping_of(days.insert(place, (entry_day(entry), seq![entry])), list.push(entry)),
{
    let day = entry_day(entry);
    let longer = list.push(entry);
    let grown = days.insert(place, (day, seq![entry]));
    assert forall|i: int, j: int| 0 <= i < j < grown.len() implies (#[trigger] grown[i]).0 < (
    #[trigger] grown[j]).0 by {
        let a = if i < place {
            i
        } else {
            i - 1
        };
        let b = if j < place {
            j
        } else {
            j - 1
        };
        if i != place && j != place {
            assert(grown[i] == days[a]);
            assert(grown[j] == days[b]);
            assert(days[a].0 < days[b].0);
        } else if i == place {
            assert(grown[j] == days[b]);
        } else {
            assert(grown[i] == days[a]);
        }
    }
    assert forall|k: int| 0 <= k < list.len() implies !on_day(day)(#[trigger] list[k]) by {
        assert(has_day(days, entry_day(list[k])));
        let i = choose|i: int| 0 <= i < days.len() && (#[trigger] days[i]).0 == entry_day(list[k]);
        if i < place {
            assert(days[i].0 < day);
        } else {
            assert(days[i].0 > day);
        }
    }
    lemma_filter_none(list, on_day(day));
    assert forall|i: int| 0 <= i < grown.len() implies (#[trigger] grown[i]).1 == longer.filter(
        on_day(grown[i].0),
    ) && grown[i].1.len() > 0 by {
        list.lemma_filter_push(entry, on_day(grown[i].0));
        if i == place {
            assert(Seq::<Entry>::empty().push(entry) =~= seq![entry]);
        } else {
            let a = if i < place {
                i
            } else {
                i - 1
            };
            assert(grown[i] == days[a]);
            if a < place {
                assert(days[a].0 < day);
            } else {
                assert(days[a].0 > day);
            }
        }
    }
    assert forall|k: int| 0 <= k < longer.len() implies has_day(
        grown,
        entry_day(#[trigger] longer[k]),
    ) by {
        if k < list.len() {
            assert(has_day(days, entry_day(list[k])));
            let i = choose|i: int|
                0 <= i < days.len() && (#[trigger] days[i]).0 == entry_day(list[k]);
            let a = if i < place {
                i
            } else {
                i + 1
            };
            assert(grown[a] == days[i]);
            assert(grown[a].0 == entry_day(longer[k]));
        } else {
            assert(grown[place].0 == entry_day(longer[k]));
        }
    }
}

/// Collects `list` by the day on which each entry starts. The days come in
/// ascending order; within a day the entries keep the order they have in
/// `list`.
pub fn group_by_date(list: Vec<OccurrenceWithEvent>) -> (days: Vec<
    (Date, Vec<OccurrenceWithEvent>),
>)
    ensures
        grouping_of(days.deep_view(), list.deep_view()),
{
    let ghost source = list.deep_view();
    let mut days: Vec<(Date, Vec<OccurrenceWithEvent>)> = Vec::new();
    proof {
        assert(grouping_of(days.deep_view(), source.take(0)));
    }
    for entry in iter: list
        invariant
            source == list.deep_view(),
            iter.seq() == list@,
            grouping_of(days.deep_view(), source.take(iter.index() as int)),
    {
        let ghost before = days.deep_view();
        let ghost seen = source.take(iter.index() as int);
        let ghost model = entry@;
        proof {
            assert(model == source[iter.index() as int]);
            assert(source.take(iter.index() + 1) =~= seen.push(model));
        }
        let date = entry.occurrence.occurrence.start.date();
        let mut place: usize = 0;
        while place < days.len() && days[place].0.days < date.days
            invariant
                place <= days@.len(),
                before == days.deep_view(),
                forall|i: int| 0 <= i < place ==> (#[trigger] before[i]).0 < date@,
            decreases days@.len() - place,
        {
            proof {
                assert(before[place as int].0 == days@[place as int].0@);
            }
            place += 1;
        }
        if place < days.len() && days[place].0.days == date.days {
            days[place].1.push(entry);
            proof {
                assert(days@[place as int].1.deep_view() =~= before[place as int].1.push(model));
                assert(days.deep_view() =~~= before.update(
                    place as int,
                    (before[place as int].0, before[place as int].1.push(model)),
                ));
                lemma_group_known_day(before, seen, model, place as int);
            }
        } else {
            let mut listed: Vec<OccurrenceWithEvent> = Vec::new();
            listed.push(entry);
            assert(listed.deep_view() =~= seq![model]);
            days.insert(place, (date, listed));
            proof {
                assert forall|i: int| place <= i < before.len() implies (#[trigger] before[i]).0
                    > date@ by {
                    assert(before[place as int].0 == days@[place as int + 1].0@);
                    if i > place {
                        assert(before[place as int].0 < before[i].0);
                    }
                }
                assert(days.deep_view() =~~= before.insert(place as int, (date@, seq![model])));
                lemma_group_new_day(before, seen, model, place as int);
            }
        }
    }
    proof {
        assert(source.take(list@.len() as int) =~= source);
    }
    days
}

} // verus!
