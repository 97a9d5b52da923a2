//! A table of items keyed by identifier, kept in insertion order.

use crate::id::Id;
use std::marker::PhantomData;
use vstd::prelude::*;

verus! {

/// Whether some row of `rows` carries the identifier `id`.
pub open spec fn has_id<T>(rows: Seq<(u128, T)>, id: u128) -> bool {
    exists|i: int| 0 <= i < rows.len() && (#[trigger] rows[i]).0 == id
}

/// The position of a row that carries `id`; meaningful where `has_id` holds.
pub open spec fn index_of<T>(rows: Seq<(u128, T)>, id: u128) -> int {
    choose|i: int| 0 <= i < rows.len() && (#[trigger] rows[i]).0 == id
}

/// No identifier occurs in two rows.
pub open spec fn unique_ids<T>(rows: Seq<(u128, T)>) -> bool {
    forall|i: int, j: int|
        0 <= i < j < rows.len() ==> (#[trigger] rows[i]).0 != (#[trigger] rows[j]).0
}

/// The item stored under `id`, if any.
pub open spec fn lookup<T>(rows: Seq<(u128, T)>, id: u128) -> Option<T> {
    if has_id(rows, id) {
        Some(rows[index_of(rows, id)].1)
    } else {
        None
    }
}

/// The rows with each item replaced by its model.
pub open spec fn deep_rows<V: DeepView>(rows: Seq<(u128, V)>) -> Seq<(u128, V::V)> {
    Seq::new(rows.len(), |i: int| (rows[i].0, rows[i].1.deep_view()))
}

/// In a table without repeated identifiers the position of an identifier is
/// the one place where it stands.
pub proof fn lemma_index_of_unique<T>(rows: Seq<(u128, T)>, i: int)
    requires
        unique_ids(rows),
        0 <= i < rows.len(),
    ensures
        has_id(rows, rows[i].0),
        index_of(rows, rows[i].0) == i,
        lookup(rows, rows[i].0) == Some(rows[i].1),
{
    let id = rows[i].0;
    assert(has_id(rows, id));
    let j = index_of(rows, id);
    assert(0 <= j < rows.len() && rows[j].0 == id);
    if j < i {
        assert(rows[j].0 != rows[i].0);
    } else if i < j {
        assert(rows[i].0 != rows[j].0);
    }
}

/// Taking models keeps identifiers, their uniqueness and what is found
/// under each of them.
pub proof fn lemma_deep_rows<V: DeepView>(rows: Seq<(u128, V)>, id: u128)
    requires
        unique_ids(rows),
    ensures
        unique_ids(deep_rows(rows)),
        has_id(deep_rows(rows), id) == has_id(rows, id),
        has_id(rows, id) ==> index_of(deep_rows(rows), id) == index_of(rows, id),
        lookup(deep_rows(rows), id) == match lookup(rows, id) {
            Some(item) => Some(item.deep_view()),
            None => None,
        },
{
    let deep = deep_rows(rows);
    assert forall|i: int, j: int| 0 <= i < j < deep.len() implies (#[trigger] deep[i]).0
        != (#[trigger] deep[j]).0 by {
        assert(rows[i].0 != rows[j].0);
    }
    if has_id(rows, id) {
        let i = index_of(rows, id);
        assert(deep[i].0 == id);
        lemma_index_of_unique(deep, i);
    }
    if has_id(deep, id) {
        let i = index_of(deep, id);
        assert(rows[i].0 == id);
    }
}

/// A row under a new identifier keeps the identifiers of a table unique.
pub proof fn lemma_push_unique<T>(rows: Seq<(u128, T)>, id: u128, item: T)
    requires
        unique_ids(rows),
        !has_id(rows, id),
    ensures
        unique_ids(rows.push((id, item))),
        has_id(rows.push((id, item)), id),
        index_of(rows.push((id, item)), id) == rows.len(),
        lookup(rows.push((id, item)), id) == Some(item),
        forall|other: u128|
            other != id ==> has_id(rows.push((id, item)), other) == has_id(rows, other),
        forall|other: u128|
            other != id ==> lookup(rows.push((id, item)), other) == lookup(rows, other),
{
    let longer = rows.push((id, item));
    assert forall|i: int, j: int| 0 <= i < j < longer.len() implies (#[trigger] longer[i]).0 != (
    #[trigger] longer[j]).0 by {
        if j == rows.len() {
            assert(rows[i].0 != id);
        } else {
            assert(rows[i].0 != rows[j].0);
        }
    }
    assert(longer[rows.len() as int].0 == id);
    lemma_index_of_unique(longer, rows.len() as int);
    assert forall|other: u128| other != id implies has_id(longer, other) == has_id(
        rows,
        other,
    ) && lookup(longer, other) == lookup(rows, other) by {
        if has_id(rows, other) {
            let i = index_of(rows, other);
            assert(longer[i].0 == other);
            lemma_index_of_unique(longer, i);
            lemma_index_of_unique(rows, i);
        }
        if has_id(longer, other) {
            let i = index_of(longer, other);
            assert(rows[i].0 == other);
        }
    }
}

/// Replacing the item of a row changes what is found under that row's
/// identifier and nothing else.
pub proof fn lemma_update_unique<T>(rows: Seq<(u128, T)>, id: u128, item: T)
    requires
        unique_ids(rows),
        has_id(rows, id),
    ensures
        unique_ids(rows.update(index_of(rows, id), (id, item))),
        lookup(rows.update(index_of(rows, id), (id, item)), id) == Some(item),
        forall|other: u128|
            has_id(rows.update(index_of(rows, id), (id, item)), other) == has_id(rows, other),
        forall|other: u128|
            other != id ==> lookup(rows.update(index_of(rows, id), (id, item)), other) == lookup(
                rows,
                other,
            ),
{
    let place = index_of(rows, id);
    let changed = rows.update(place, (id, item));
    assert forall|i: int, j: int| 0 <= i < j < changed.len() implies (#[trigger] changed[i]).0 != (
    #[trigger] changed[j]).0 by {
        assert(rows[i].0 != rows[j].0);
    }
    lemma_index_of_unique(changed, place);
    assert forall|other: u128|
        has_id(changed, other) == has_id(rows, other) && (other != id ==> lookup(changed, other)
            == lookup(rows, other)) by {
        if has_id(rows, other) {
            let i = index_of(rows, other);
            assert(changed[i].0 == other);
            lemma_index_of_unique(changed, i);
            lemma_index_of_unique(rows, i);
        }
        if has_id(changed, other) {
            let i = index_of(changed, other);
            assert(rows[i].0 == other);
        }
    }
}

/// Taking a row out leaves nothing under its identifier and changes nothing
/// else.
pub proof fn lemma_remove_unique<T>(rows: Seq<(u128, T)>, id: u128)
    requires
        unique_ids(rows),
        has_id(rows, id),
    ensures
        unique_ids(rows.remove(index_of(rows, id))),
        !has_id(rows.remove(index_of(rows, id)), id),
        lookup(rows.remove(index_of(rows, id)), id) == None::<T>,
        forall|other: u128|
            other != id ==> has_id(rows.remove(index_of(rows, id)), other) == has_id(rows, other),
        forall|other: u128|
            other != id ==> lookup(rows.remove(index_of(rows, id)), other) == lookup(rows, other),
{
    let place = index_of(rows, id);
    let fewer = rows.remove(place);
    assert forall|i: int| 0 <= i < fewer.len() implies #[trigger] fewer[i] == rows[if i < place {
        i
    } else {
        i + 1
    }] by {}
    assert forall|i: int, j: int| 0 <= i < j < fewer.len() implies (#[trigger] fewer[i]).0 != (
    #[trigger] fewer[j]).0 by {
        let a = if i < place {
            i
        } else {
            i + 1
        };
        let b = if j < place {
            j
        } else {
            j + 1
        };
        assert(rows[a].0 != rows[b].0);
    }
    if has_id(fewer, id) {
        let i = index_of(fewer, id);
        let a = if i < place {
            i
        } else {
            i + 1
        };
        assert(rows[a].0 == id);
        lemma_index_of_unique(rows, a);
    }
    assert forall|other: u128| other != id implies has_id(fewer, other) == has_id(rows, other)
        && lookup(fewer, other) == lookup(rows, other) by {
        if has_id(rows, other) {
            let i = index_of(rows, other);
            let a = if i < place {
                i
            } else {
                i - 1
            };
            assert(fewer[a].0 == other);
            lemma_index_of_unique(fewer, a);
            lemma_index_of_unique(rows, i);
        }
        if has_id(fewer, other) {
            let i = index_of(fewer, other);
            let a = if i < place {
                i
            } else {
                i + 1
            };
            assert(rows[a].0 == other);
        }
    }
}

/// Selecting rows keeps identifiers unique, brings in no identifier, and
/// keeps under each identifier that stays what was found under it.
pub proof fn lemma_filter_rows<T>(rows: Seq<(u128, T)>, selected: spec_fn((u128, T)) -> bool)
    requires
        unique_ids(rows),
    ensures
        unique_ids(rows.filter(selected)),
        forall|id: u128| #[trigger]
            has_id(rows.filter(selected), id) <==> has_id(rows, id) && selected(
                rows[index_of(rows, id)],
            ),
        forall|id: u128| #[trigger]
            has_id(rows.filter(selected), id) ==> lookup(rows.filter(selected), id) == lookup(
                rows,
                id,
            ),
    decreases rows.len(),
{
    reveal(Seq::filter);
    let kept = rows.filter(selected);
    if rows.len() == 0 {
        assert forall|id: u128| #[trigger]
            has_id(kept, id) <==> has_id(rows, id) && selected(rows[index_of(rows, id)]) by {}
    } else {
        let shorter = rows.drop_last();
        let last = rows.last();
        assert forall|i: int, j: int| 0 <= i < j < shorter.len() implies (#[trigger] shorter[i]).0
            != (#[trigger] shorter[j]).0 by {
            assert(rows[i].0 != rows[j].0);
        }
        lemma_filter_rows(shorter, selected);
        let before = shorter.filter(selected);
        assert(!has_id(shorter, last.0)) by {
            if has_id(shorter, last.0) {
                let i = index_of(shorter, last.0);
                assert(rows[i].0 != rows[rows.len() - 1].0);
            }
        }
        assert(!has_id(before, last.0));
        if selected(last) {
            lemma_push_unique(before, last.0, last.1);
            assert(kept == before.push(last));
        } else {
            assert(kept == before);
        }
        assert((last.0, last.1) == last);
        lemma_index_of_unique(rows, rows.len() - 1);
        assert forall|id: u128|
            (#[trigger] has_id(kept, id) <==> has_id(rows, id) && selected(
                rows[index_of(rows, id)],
            )) && (has_id(kept, id) ==> lookup(kept, id) == lookup(rows, id)) by {
            if id != last.0 {
                assert(has_id(before, id) <==> has_id(shorter, id) && selected(
                    shorter[index_of(shorter, id)],
                ));
                assert(has_id(before, id) ==> lookup(before, id) == lookup(shorter, id));
                assert(has_id(kept, id) == has_id(before, id));
                assert(lookup(kept, id) == lookup(before, id));
                if has_id(rows, id) {
                    let i = index_of(rows, id);
                    assert(shorter[i].0 == id);
                    lemma_index_of_unique(shorter, i);
                    lemma_index_of_unique(rows, i);
                }
                if has_id(shorter, id) {
                    let i = index_of(shorter, id);
                    assert(rows[i].0 == id);
                    lemma_index_of_unique(rows, i);
                    lemma_index_of_unique(shorter, i);
                }
            }
        }
    }
}

/// Items of one kind under their identifiers, in the order in which they were
/// inserted. No identifier is held twice.
pub struct IdMap<K, V> {
    rows: Vec<(u128, V)>,
    kind: PhantomData<K>,
}

impl<K, V> View for IdMap<K, V> {
    type V = Seq<(u128, V)>;

    closed spec fn view(&self) -> Seq<(u128, V)> {
        self.rows@
    }
}

impl<K, V: DeepView> DeepView for IdMap<K, V> {
    type V = Seq<(u128, V::V)>;

    open spec fn deep_view(&self) -> Seq<(u128, V::V)> {
        deep_rows(self@)
    }
}

impl<K, V> IdMap<K, V> {
    /// The invariant of the table: no identifier is held twice.
    pub open spec fn wf(&self) -> bool {
        unique_ids(self@)
    }

    /// An empty table.
    pub fn new() -> (table: Self)
        ensures
            table@ == Seq::<(u128, V)>::empty(),
            table.wf(),
    {
        IdMap { rows: Vec::new(), kind: PhantomData }
    }

    /// The number of rows.
    pub fn len(&self) -> (len: usize)
        ensures
            len == self@.len(),
    {
        self.rows.len()
    }

    /// The identifier of the row at `index`.
    pub fn id_at(&self, index: usize) -> (id: Id<K>)
        requires
            index < self@.len(),
        ensures
            id@ == self@[index as int].0,
    {
        Id::new(self.rows[index].0)
    }

    /// The item of the row at `index`.
    pub fn item_at(&self, index: usize) -> (item: &V)
        requires
            index < self@.len(),
        ensures
            *item == self@[index as int].1,
    {
        &self.rows[index].1
    }

    /// The position of the row that carries `id`.
    pub fn position(&self, id: Id<K>) -> (found: Option<usize>)
        requires
            self.wf(),
        ensures
            match found {
                Some(index) => has_id(self@, id@) && index == index_of(self@, id@),
                None => !has_id(self@, id@),
            },
    {
        let raw: u128 = id.value();
        let mut index: usize = 0;
        while index < self.rows.len()
            invariant
                index <= self.rows@.len(),
                unique_ids(self.rows@),
                raw == id@,
                forall|j: int| 0 <= j < index ==> (#[trigger] self.rows@[j]).0 != raw,
            decreases self.rows@.len() - index,
        {
            if self.rows[index].0 == raw {
                proof {
                    lemma_index_of_unique(self.rows@, index as int);
                }
                return Some(index);
            }
            index += 1;
        }
        None
    }

    /// Whether a row carries `id`.
    pub fn contains(&self, id: Id<K>) -> (found: bool)
        requires
            self.wf(),
        ensures
            found == has_id(self@, id@),
    {
        self.position(id).is_some()
    }

    /// The typed identifier for a raw value, given only where the table holds
    /// a row under it.
    pub fn validate(&self, raw: u128) -> (id: Option<Id<K>>)
        requires
            self.wf(),
        ensures
            match id {
                Some(id) => has_id(self@, raw) && id@ == raw,
                None => !has_id(self@, raw),
            },
    {
        let id: Id<K> = Id::new(raw);
        if self.contains(id) {
            Some(id)
        } else {
            None
        }
    }

    /// The item stored under `id`.
    pub fn get(&self, id: Id<K>) -> (item: Option<&V>)
        requires
            self.wf(),
        ensures
            match item {
                Some(item) => lookup(self@, id@) == Some(*item),
                None => lookup(self@, id@).is_none(),
            },
    {
        match self.position(id) {
            Some(index) => Some(&self.rows[index].1),
            None => None,
        }
    }

    /// Appends `item` under `id`. Where `id` is already held the table stays
    /// as it is and the answer is `false`.
    pub fn insert(&mut self, id: Id<K>, item: V) -> (inserted: bool)
        requires
            old(self).wf(),
        ensures
            inserted == !has_id(old(self)@, id@),
            inserted ==> final(self)@ == old(self)@.push((id@, item)),
            !inserted ==> final(self)@ == old(self)@,
            final(self).wf(),
    {
        if self.contains(id) {
            false
        } else {
            self.rows.push((id.value(), item));
            true
        }
    }

    /// Replaces the item under `id` and gives back the one it held. Where
    /// `id` is not held the table stays as it is.
    pub fn set(&mut self, id: Id<K>, item: V) -> (previous: Option<V>)
        requires
            old(self).wf(),
        ensures
            match previous {
                Some(previous) => has_id(old(self)@, id@)
                    && previous == old(self)@[index_of(old(self)@, id@)].1
                    && final(self)@ == old(self)@.update(index_of(old(self)@, id@), (id@, item)),
                None => !has_id(old(self)@, id@) && final(self)@ == old(self)@,
            },
            final(self).wf(),
    {
        match self.position(id) {
            Some(index) => {
                self.rows.push((id.value(), item));
                let row = self.rows.swap_remove(index);
                assert(self.rows@ =~= old(self).rows@.update(index as int, (id@, item)));
                Some(row.1)
            },
            None => None,
        }
    }

    /// Takes the row under `id` out and gives back its item; the rows behind
    /// it keep their order. Where `id` is not held the table stays as it is.
    pub fn remove(&mut self, id: Id<K>) -> (removed: Option<V>)
        requires
            old(self).wf(),
        ensures
            match removed {
                Some(removed) => has_id(old(self)@, id@)
                    && removed == old(self)@[index_of(old(self)@, id@)].1
                    && final(self)@ == old(self)@.remove(index_of(old(self)@, id@)),
                None => !has_id(old(self)@, id@) && final(self)@ == old(self)@,
            },
            final(self).wf(),
    {
        match self.position(id) {
            Some(index) => {
                let row = self.rows.remove(index);
                Some(row.1)
            },
            None => None,
        }
    }
}

} // verus!
