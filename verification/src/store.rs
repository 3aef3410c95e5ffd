//! The relational store: items, snapshots and positions, with their
//! integrity constraints.
//!
//! The store is the in-memory model of the persisted tables. Ordinals of
//! snapshots are unique, item ids are unique, and at most one position exists
//! per (item, snapshot) pair; every position refers to a recorded snapshot
//! and a recorded item.

use vstd::prelude::*;

use crate::date::ChartDate;
use crate::ChartError;

verus! {

/// A ranked entity: created the first time it is observed; its attributes
/// are never overwritten afterwards.
#[derive(Debug)]
pub struct Item {
    pub id: u32,
    pub name: String,
    pub artist: String,
}

impl Item {
    /// A field-by-field copy of the row.
    pub fn duplicate(&self) -> (r: Item)
        ensures
            r == *self,
    {
        Item { id: self.id, name: self.name.clone(), artist: self.artist.clone() }
    }
}

/// One published edition of the ranking.
#[derive(Clone, Copy, Debug, PartialEq, Eq, Structural)]
pub struct Snapshot {
    pub ordinal: u16,
    pub date: ChartDate,
}

/// The fact that an item held a rank in a snapshot, possibly in the
/// overflow ("waiting room") tier.
#[derive(Clone, Copy, Debug, PartialEq, Eq, Structural)]
pub struct Position {
    pub item_id: u32,
    pub snapshot_ordinal: u16,
    pub rank: u16,
    pub waiting_room: bool,
}

/// The highest ordinal among `snaps`, or 0 when there is none.
pub open spec fn max_ordinal_of(snaps: Seq<Snapshot>) -> u16
    decreases snaps.len(),
{
    if snaps.len() == 0 {
        0u16
    } else {
        let m = max_ordinal_of(snaps.drop_last());
        if snaps.last().ordinal > m {
            snaps.last().ordinal
        } else {
            m
        }
    }
}

/// Every ordinal in `snaps` is bounded by `max_ordinal_of(snaps)`.
pub proof fn lemma_max_ordinal_is_bound(snaps: Seq<Snapshot>)
    ensures
        forall|i: int| 0 <= i < snaps.len() ==> (#[trigger] snaps[i]).ordinal <= max_ordinal_of(
            snaps,
        ),
    decreases snaps.len(),
{
    if snaps.len() > 0 {
        lemma_max_ordinal_is_bound(snaps.drop_last());
        assert(forall|i: int| 0 <= i < snaps.len() - 1 ==> snaps[i] == snaps.drop_last()[i]);
    }
}

/// The relational store.
pub struct Store {
    pub snapshots: Vec<Snapshot>,
    pub items: Vec<Item>,
    pub positions: Vec<Position>,
}

impl Store {
    /// A snapshot with this ordinal is recorded.
    pub open spec fn has_ordinal(self, o: u16) -> bool {
        exists|i: int|
            0 <= i < self.snapshots@.len() && (#[trigger] self.snapshots@[i]).ordinal == o
    }

    /// An item with this id is recorded.
    pub open spec fn has_item(self, id: u32) -> bool {
        exists|i: int| 0 <= i < self.items@.len() && (#[trigger] self.items@[i]).id == id
    }

    /// A position for this (item, snapshot) pair is recorded.
    pub open spec fn has_position(self, item_id: u32, o: u16) -> bool {
        exists|i: int|
            0 <= i < self.positions@.len() && (#[trigger] self.positions@[i]).item_id == item_id
                && self.positions@[i].snapshot_ordinal == o
    }

    /// The store's integrity constraints: unique snapshot ordinals, unique
    /// item ids, at most one position per (item, snapshot) pair, referential
    /// integrity of positions, and valid dates.
    pub open spec fn wf(self) -> bool {
        &&& forall|i: int, j: int|
            0 <= i < j < self.snapshots@.len() ==> (#[trigger] self.snapshots@[i]).ordinal != (
            #[trigger] self.snapshots@[j]).ordinal
        &&& forall|i: int, j: int|
            0 <= i < j < self.items@.len() ==> (#[trigger] self.items@[i]).id != (
            #[trigger] self.items@[j]).id
        &&& forall|i: int, j: int|
            0 <= i < j < self.positions@.len() ==> !((#[trigger] self.positions@[i]).item_id == (
            #[trigger] self.positions@[j]).item_id && self.positions@[i].snapshot_ordinal
                == self.positions@[j].snapshot_ordinal)
        &&& forall|i: int|
            0 <= i < self.positions@.len() ==> self.has_ordinal(
                (#[trigger] self.positions@[i]).snapshot_ordinal,
            ) && self.has_item(self.positions@[i].item_id)
        &&& forall|i: int|
            0 <= i < self.snapshots@.len() ==> (#[trigger] self.snapshots@[i]).date.valid()
    }

    /// An empty store.
    pub fn new() -> (s: Store)
        ensures
            s.wf(),
            s.snapshots@.len() == 0,
            s.items@.len() == 0,
            s.positions@.len() == 0,
    {
        Store { snapshots: Vec::new(), items: Vec::new(), positions: Vec::new() }
    }

    /// Whether a snapshot with ordinal `o` is recorded.
    pub fn contains_ordinal(&self, o: u16) -> (b: bool)
        ensures
            b == self.has_ordinal(o),
    {
        let mut i: usize = 0;
        while i < self.snapshots.len()
            invariant
                0 <= i <= self.snapshots@.len(),
                forall|j: int| 0 <= j < i ==> (#[trigger] self.snapshots@[j]).ordinal != o,
            decreases self.snapshots@.len() - i,
        {
            if self.snapshots[i].ordinal == o {
                return true;
            }
            i += 1;
        }
        false
    }

    /// Whether an item with id `id` is recorded.
    pub fn contains_item(&self, id: u32) -> (b: bool)
        ensures
            b == self.has_item(id),
    {
        let mut i: usize = 0;
        while i < self.items.len()
            invariant
                0 <= i <= self.items@.len(),
                forall|j: int| 0 <= j < i ==> (#[trigger] self.items@[j]).id != id,
            decreases self.items@.len() - i,
        {
            if self.items[i].id == id {
                return true;
            }
            i += 1;
        }
        false
    }

    /// Whether a position for `(item_id, o)` is recorded.
    pub fn contains_position(&self, item_id: u32, o: u16) -> (b: bool)
        ensures
            b == self.has_position(item_id, o),
    {
        let mut i: usize = 0;
        while i < self.positions.len()
            invariant
                0 <= i <= self.positions@.len(),
                forall|j: int|
                    0 <= j < i ==> !((#[trigger] self.positions@[j]).item_id == item_id
                        && self.positions@[j].snapshot_ordinal == o),
            decreases self.positions@.len() - i,
        {
            if self.positions[i].item_id == item_id && self.positions[i].snapshot_ordinal == o {
                return true;
            }
            i += 1;
        }
        false
    }

    /// The highest recorded snapshot ordinal, or 0 for an empty store.
    pub fn max_ordinal(&self) -> (r: u16)
        ensures
            r == max_ordinal_of(self.snapshots@),
    {
        let mut m: u16 = 0;
        let mut i: usize = 0;
        while i < self.snapshots.len()
            invariant
                0 <= i <= self.snapshots@.len(),
                m == max_ordinal_of(self.snapshots@.take(i as int)),
            decreases self.snapshots@.len() - i,
        {
            proof {
                assert(self.snapshots@.take(i + 1).drop_last() =~= self.snapshots@.take(i as int));
                assert(self.snapshots@.take(i + 1).last() == self.snapshots@[i as int]);
            }
            if self.snapshots[i].ordinal > m {
                m = self.snapshots[i].ordinal;
            }
            i += 1;
        }
        proof {
            assert(self.snapshots@.take(self.snapshots@.len() as int) =~= self.snapshots@);
        }
        m
    }

    /// Records one snapshot edition. A duplicate ordinal is an integrity
    /// conflict and is rejected; the store is then unchanged.
    pub fn insert_snapshot(&mut self, s: Snapshot) -> (r: Result<(), ChartError>)
        requires
            old(self).wf(),
            s.date.valid(),
        ensures
            final(self).wf(),
            match r {
                Ok(()) => !old(self).has_ordinal(s.ordinal)
                    && final(self).snapshots@ == old(self).snapshots@.push(s)
                    && final(self).items@ == old(self).items@
                    && final(self).positions@ == old(self).positions@,
                Err(e) => e == ChartError::DuplicateSnapshot && old(self).has_ordinal(s.ordinal)
                    && *final(self) == *old(self),
            },
    {
        if self.contains_ordinal(s.ordinal) {
            return Err(ChartError::DuplicateSnapshot);
        }
        self.snapshots.push(s);
        proof {
            assert(forall|i: int|
                0 <= i < old(self).snapshots@.len() ==> final(self).snapshots@[i] == old(
                    self).snapshots@[i]);
        }
        Ok(())
    }

    /// Records an item unless one with the same id already exists:
    /// first-seen attributes win and are never overwritten.
    pub fn upsert_item(&mut self, item: &Item)
        requires
            old(self).wf(),
        ensures
            final(self).wf(),
            old(self).has_item(item.id) ==> *final(self) == *old(self),
            !old(self).has_item(item.id) ==> final(self).items@ == old(self).items@.push(*item)
                && final(self).snapshots@ == old(self).snapshots@
                && final(self).positions@ == old(self).positions@,
    {
        if !self.contains_item(item.id) {
            self.items.push(item.duplicate());
            proof {
                assert(forall|i: int|
                    0 <= i < old(self).items@.len() ==> final(self).items@[i] == old(
                        self).items@[i]);
            }
        }
    }

    /// Records one position fact. A duplicate (item, snapshot) pair is
    /// rejected; the store is then unchanged.
    pub fn insert_position(&mut self, p: Position) -> (r: Result<(), ChartError>)
        requires
            old(self).wf(),
            old(self).has_ordinal(p.snapshot_ordinal),
            old(self).has_item(p.item_id),
        ensures
            final(self).wf(),
            match r {
                Ok(()) => !old(self).has_position(p.item_id, p.snapshot_ordinal)
                    && final(self).positions@ == old(self).positions@.push(p)
                    && final(self).snapshots@ == old(self).snapshots@
                    && final(self).items@ == old(self).items@,
                Err(e) => e == ChartError::DuplicatePosition
                    && old(self).has_position(p.item_id, p.snapshot_ordinal)
                    && *final(self) == *old(self),
            },
    {
        if self.contains_position(p.item_id, p.snapshot_ordinal) {
            return Err(ChartError::DuplicatePosition);
        }
        self.positions.push(p);
        proof {
            assert(forall|i: int|
                0 <= i < old(self).positions@.len() ==> final(self).positions@[i] == old(
                    self).positions@[i]);
            assert forall|o: u16| old(self).has_ordinal(o) implies self.has_ordinal(o) by {
                let k = choose|k: int|
                    0 <= k < old(self).snapshots@.len() && (#[trigger] old(
                        self,
                    ).snapshots@[k]).ordinal == o;
                assert(self.snapshots@[k].ordinal == o);
            }
            assert forall|id: u32| old(self).has_item(id) implies self.has_item(id) by {
                let k = choose|k: int|
                    0 <= k < old(self).items@.len() && (#[trigger] old(self).items@[k]).id == id;
                assert(self.items@[k].id == id);
            }
        }
        Ok(())
    }
}

} // verus!
