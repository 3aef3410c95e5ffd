//! The decoded form of one remote chart snapshot.
//!
//! The remote document groups item entries into labeled sections; a section
//! that carries a label is the overflow ("waiting room") tier. The fetching
//! and decoding itself is a collaborator's job; the library consumes the
//! decoded values.

use vstd::prelude::*;

use crate::date::ChartDate;
use crate::store::{Item, Position};

verus! {

/// One item entry of a remote snapshot: identity, attributes, and its rank
/// within its section.
#[derive(Debug)]
pub struct RemoteItem {
    pub id: u32,
    pub name: String,
    pub artist: String,
    pub rank: u16,
}

impl RemoteItem {
    /// A field-by-field copy of the entry.
    pub fn duplicate(&self) -> (r: RemoteItem)
        ensures
            r == *self,
    {
        RemoteItem {
            id: self.id,
            name: self.name.clone(),
            artist: self.artist.clone(),
            rank: self.rank,
        }
    }
}

/// One section of a remote snapshot. `waiting_room` records whether the
/// section carried an overflow label.
#[derive(Debug)]
pub struct RemoteSection {
    pub waiting_room: bool,
    pub items: Vec<RemoteItem>,
}

/// One decoded remote snapshot: its ordinal, publication date and sections.
#[derive(Debug)]
pub struct RemoteSnapshot {
    pub ordinal: u16,
    pub date: ChartDate,
    pub sections: Vec<RemoteSection>,
}

/// The item row that an entry creates when it is first seen.
pub open spec fn item_of(it: RemoteItem) -> Item {
    Item { id: it.id, name: it.name, artist: it.artist }
}

/// The position row that an entry contributes to snapshot `ordinal`.
pub open spec fn position_of(it: RemoteItem, ordinal: u16, waiting_room: bool) -> Position {
    Position { item_id: it.id, snapshot_ordinal: ordinal, rank: it.rank, waiting_room }
}

/// The entries of one section, each paired with the section's tier flag.
pub open spec fn section_entries(sec: RemoteSection) -> Seq<(RemoteItem, bool)> {
    sec.items@.map_values(|it: RemoteItem| (it, sec.waiting_room))
}

/// The entries of a run of sections, in section order.
pub open spec fn entries_of_sections(secs: Seq<RemoteSection>) -> Seq<(RemoteItem, bool)>
    decreases secs.len(),
{
    if secs.len() == 0 {
        Seq::empty()
    } else {
        entries_of_sections(secs.drop_last()) + section_entries(secs.last())
    }
}

/// All entries of a snapshot, across its sections.
pub open spec fn snap_entries(s: RemoteSnapshot) -> Seq<(RemoteItem, bool)> {
    entries_of_sections(s.sections@)
}

/// The position rows a snapshot contributes, in entry order.
pub open spec fn snap_positions(s: RemoteSnapshot) -> Seq<Position> {
    snap_entries(s).map_values(|e: (RemoteItem, bool)| position_of(e.0, s.ordinal, e.1))
}

/// No item appears twice across the sections of one snapshot; a violation
/// would break the one-position-per-(item, snapshot) constraint.
pub open spec fn snap_ids_distinct(s: RemoteSnapshot) -> bool {
    forall|i: int, j: int|
        0 <= i < j < snap_entries(s).len() ==> (#[trigger] snap_entries(s)[i]).0.id != (
        #[trigger] snap_entries(s)[j]).0.id
}

/// Appending one more section appends its entries.
pub proof fn lemma_entries_take_succ(secs: Seq<RemoteSection>, si: int)
    requires
        0 <= si < secs.len(),
    ensures
        entries_of_sections(secs.take(si + 1)) == entries_of_sections(secs.take(si))
            + section_entries(secs[si]),
{
    assert(secs.take(si + 1).drop_last() =~= secs.take(si));
    assert(secs.take(si + 1).last() == secs[si]);
}

/// The entries of a prefix of the sections are a prefix of all entries.
pub proof fn lemma_entries_prefix(secs: Seq<RemoteSection>, si: int)
    requires
        0 <= si <= secs.len(),
    ensures
        entries_of_sections(secs.take(si)).len() <= entries_of_sections(secs).len(),
        entries_of_sections(secs.take(si)) == entries_of_sections(secs).take(
            entries_of_sections(secs.take(si)).len() as int,
        ),
    decreases secs.len() - si,
{
    if si == secs.len() {
        assert(secs.take(si) =~= secs);
        assert(entries_of_sections(secs).take(entries_of_sections(secs).len() as int)
            =~= entries_of_sections(secs));
    } else {
        lemma_entries_take_succ(secs, si);
        lemma_entries_prefix(secs, si + 1);
        assert(entries_of_sections(secs.take(si)) =~= entries_of_sections(secs).take(
            entries_of_sections(secs.take(si)).len() as int,
        ));
    }
}

/// Flattens a snapshot's sections into the entry run that `snap_entries`
/// describes.
pub fn flatten_entries(s: &RemoteSnapshot) -> (v: Vec<(RemoteItem, bool)>)
    ensures
        v@ =~= snap_entries(*s),
{
    let mut v: Vec<(RemoteItem, bool)> = Vec::new();
    let mut si: usize = 0;
    while si < s.sections.len()
        invariant
            0 <= si <= s.sections@.len(),
            v@ == entries_of_sections(s.sections@.take(si as int)),
        decreases s.sections@.len() - si,
    {
        let ghost base = v@.len() as int;
        let sec = &s.sections[si];
        let mut j: usize = 0;
        while j < sec.items.len()
            invariant
                0 <= j <= sec.items@.len(),
                sec == &s.sections@[si as int],
                0 <= si < s.sections@.len(),
                base == entries_of_sections(s.sections@.take(si as int)).len(),
                v@.len() == base + j,
                v@.take(base) == entries_of_sections(s.sections@.take(si as int)),
                forall|t: int|
                    0 <= t < j ==> v@[base + t] == (sec.items@[t], sec.waiting_room),
            decreases sec.items@.len() - j,
        {
            v.push((sec.items[j].duplicate(), sec.waiting_room));
            proof {
                assert(v@.take(base) =~= entries_of_sections(s.sections@.take(si as int)));
            }
            j += 1;
        }
        proof {
            lemma_entries_take_succ(s.sections@, si as int);
            assert(v@ =~= entries_of_sections(s.sections@.take(si as int)) + section_entries(
                s.sections@[si as int],
            ));
        }
        si += 1;
    }
    proof {
        assert(s.sections@.take(s.sections@.len() as int) =~= s.sections@);
    }
    v
}

/// Whether the entry ids of `v` are pairwise distinct.
pub fn entry_ids_distinct(v: &Vec<(RemoteItem, bool)>) -> (b: bool)
    ensures
        b == (forall|i: int, j: int|
            0 <= i < j < v@.len() ==> (#[trigger] v@[i]).0.id != (#[trigger] v@[j]).0.id),
{
    let mut i: usize = 0;
    while i < v.len()
        invariant
            0 <= i <= v@.len(),
            forall|a: int, b: int| 0 <= a < b < i ==> (#[trigger] v@[a]).0.id != (#[trigger] v@[b]).0.id,
        decreases v@.len() - i,
    {
        let mut j: usize = 0;
        while j < i
            invariant
                0 <= j <= i < v@.len(),
                forall|a: int| 0 <= a < j ==> (#[trigger] v@[a]).0.id != v@[i as int].0.id,
            decreases i - j,
        {
            if v[j].0.id == v[i].0.id {
                return false;
            }
            j += 1;
        }
        i += 1;
    }
    true
}

/// Checks that no item appears twice across the sections of `s`.
pub fn check_snapshot_ids(s: &RemoteSnapshot) -> (b: bool)
    ensures
        b == snap_ids_distinct(*s),
{
    let v = flatten_entries(s);
    entry_ids_distinct(&v)
}

} // verus!
