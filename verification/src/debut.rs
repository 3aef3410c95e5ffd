//! The debut resolver: the read-side query that computes, for every tracked
//! item, its earliest recorded position.
//!
//! An item's debut is its position with the smallest snapshot ordinal.
//! The query keeps only debuts whose rank is within `max_rank` and, on
//! request, outside the waiting-room tier; orders the result by debut
//! publication date descending, then debut rank ascending (ties broken by
//! item id); and truncates it to `limit` records.

use vstd::prelude::*;

use crate::date::{date_before, date_lt, ChartDate};
use crate::store::{Position, Store};

verus! {

/// One row of the query's answer: the item and its earliest position.
#[derive(Debug)]
pub struct DebutRecord {
    pub item_id: u32,
    pub name: String,
    pub artist: String,
    pub date: ChartDate,
    pub ordinal: u16,
    pub rank: u16,
}

/// `s.positions[i]` is a debut: the same item holds no position in any
/// earlier snapshot.
#[verifier::opaque]
pub open spec fn is_debut_index(s: Store, i: int) -> bool {
    0 <= i < s.positions@.len() && forall|j: int|
        0 <= j < s.positions@.len() && (#[trigger] s.positions@[j]).item_id
            == s.positions@[i].item_id ==> s.positions@[i].snapshot_ordinal
            <= s.positions@[j].snapshot_ordinal
}

/// The rank and tier filters of the query.
pub open spec fn passes_filters(p: Position, max_rank: u16, exclude_waiting: bool) -> bool {
    p.rank <= max_rank && (exclude_waiting ==> !p.waiting_room)
}

/// `s.positions[i]` is a debut that the filters keep.
pub open spec fn eligible(s: Store, i: int, max_rank: u16, exclude_waiting: bool) -> bool {
    is_debut_index(s, i) && passes_filters(s.positions@[i], max_rank, exclude_waiting)
}

/// `r` reports position `i` of the store: its item, rank, ordinal, and the
/// attributes and date looked up from the item and snapshot tables.
#[verifier::opaque]
pub open spec fn record_matches(s: Store, r: DebutRecord, i: int) -> bool {
    &&& r.item_id == s.positions@[i].item_id
    &&& r.ordinal == s.positions@[i].snapshot_ordinal
    &&& r.rank == s.positions@[i].rank
    &&& exists|a: int|
        0 <= a < s.items@.len() && (#[trigger] s.items@[a]).id == r.item_id && r.name
            == s.items@[a].name && r.artist == s.items@[a].artist
    &&& exists|b: int|
        0 <= b < s.snapshots@.len() && (#[trigger] s.snapshots@[b]).ordinal == r.ordinal && r.date
            == s.snapshots@[b].date
}

/// How many of the first `n` positions are eligible.
pub open spec fn count_eligible(s: Store, max_rank: u16, exclude_waiting: bool, n: int) -> int
    decreases n,
{
    if n <= 0 {
        0
    } else {
        count_eligible(s, max_rank, exclude_waiting, n - 1) + if eligible(
            s,
            n - 1,
            max_rank,
            exclude_waiting,
        ) {
            1int
        } else {
            0int
        }
    }
}

/// The result order: debut date descending, then rank ascending, then
/// item id ascending.
pub open spec fn rec_le(a: DebutRecord, b: DebutRecord) -> bool {
    ||| date_lt(b.date, a.date)
    ||| (a.date == b.date && (a.rank < b.rank || (a.rank == b.rank && a.item_id <= b.item_id)))
}

/// The run is ordered by `rec_le`.
pub open spec fn sorted_records(rs: Seq<DebutRecord>) -> bool {
    forall|i: int, j: int| 0 <= i < j < rs.len() ==> rec_le(#[trigger] rs[i], #[trigger] rs[j])
}

/// `r` reports some debut of the first `n` positions that the filters keep.
pub open spec fn reports_debut_in_prefix(
    s: Store,
    max_rank: u16,
    exclude_waiting: bool,
    r: DebutRecord,
    n: int,
) -> bool {
    exists|p: int|
        0 <= p < n && #[trigger] eligible(s, p, max_rank, exclude_waiting) && record_matches(
            s,
            r,
            p,
        )
}

/// Debut position `p` is reported by some record of `rs`.
pub open spec fn reported_in(s: Store, rs: Seq<DebutRecord>, p: int) -> bool {
    exists|t: int| 0 <= t < rs.len() && record_matches(s, #[trigger] rs[t], p)
}

/// `rs` is the full, untruncated answer of the query on `s`: one record per
/// eligible debut, nothing else, no item twice, in the result order.
pub open spec fn all_results(
    s: Store,
    max_rank: u16,
    exclude_waiting: bool,
    rs: Seq<DebutRecord>,
) -> bool {
    &&& sorted_records(rs)
    &&& rs.len() == count_eligible(s, max_rank, exclude_waiting, s.positions@.len() as int)
    &&& forall|t: int|
        0 <= t < rs.len() ==> reports_debut_in_prefix(
            s,
            max_rank,
            exclude_waiting,
            #[trigger] rs[t],
            s.positions@.len() as int,
        )
    &&& forall|p: int|
        #[trigger] eligible(s, p, max_rank, exclude_waiting) ==> reported_in(s, rs, p)
    &&& forall|t1: int, t2: int|
        0 <= t1 < t2 < rs.len() ==> (#[trigger] rs[t1]).item_id != (#[trigger] rs[t2]).item_id
}

/// The rank bound actually applied: unbounded when absent.
pub open spec fn effective_max_rank(max_rank: Option<u16>) -> u16 {
    match max_rank {
        Option::Some(v) => v,
        Option::None => u16::MAX,
    }
}

/// The tier filter actually applied: off when absent.
pub open spec fn effective_exclude(exclude_waiting_room: Option<bool>) -> bool {
    match exclude_waiting_room {
        Option::Some(v) => v,
        Option::None => false,
    }
}

/// The length of the truncated answer: `limit` caps a run of `n` records.
pub open spec fn capped_len(limit: Option<u32>, n: int) -> int {
    match limit {
        Option::None => n,
        Option::Some(l) => if l < n {
            l as int
        } else {
            n
        },
    }
}

/// Compares two records in the result order.
#[verifier::spinoff_prover]
fn record_le(a: &DebutRecord, b: &DebutRecord) -> (r: bool)
    ensures
        r == rec_le(*a, *b),
{
    if date_before(&b.date, &a.date) {
        true
    } else if a.date == b.date {
        if a.rank < b.rank {
            true
        } else if a.rank == b.rank {
            a.item_id <= b.item_id
        } else {
            false
        }
    } else {
        false
    }
}

/// The result order is total.
proof fn lemma_rec_le_total(a: DebutRecord, b: DebutRecord)
    ensures
        rec_le(a, b) || rec_le(b, a),
{
}

/// The result order is transitive.
proof fn lemma_rec_le_trans(a: DebutRecord, b: DebutRecord, c: DebutRecord)
    requires
        rec_le(a, b),
        rec_le(b, c),
    ensures
        rec_le(a, c),
{
}

/// Inserting the debut record of position `i` at its sorted place keeps
/// every property the collection loop maintains.
#[verifier::rlimit(60)]
#[verifier::spinoff_prover]
proof fn lemma_insert_record(
    s: Store,
    mr: u16,
    ex: bool,
    recs0: Seq<DebutRecord>,
    rec: DebutRecord,
    i: int,
    idx: int,
)
    requires
        s.wf(),
        0 <= idx <= recs0.len(),
        0 <= i < s.positions@.len(),
        eligible(s, i, mr, ex),
        record_matches(s, rec, i),
        sorted_records(recs0),
        forall|t: int| 0 <= t < idx ==> rec_le(#[trigger] recs0[t], rec),
        forall|t: int| idx <= t < recs0.len() ==> rec_le(rec, #[trigger] recs0[t]),
        forall|t: int|
            0 <= t < recs0.len() ==> reports_debut_in_prefix(s, mr, ex, #[trigger] recs0[t], i),
        forall|p: int|
            0 <= p < i && #[trigger] eligible(s, p, mr, ex) ==> reported_in(s, recs0, p),
        forall|t1: int, t2: int|
            0 <= t1 < t2 < recs0.len() ==> (#[trigger] recs0[t1]).item_id != (
            #[trigger] recs0[t2]).item_id,
    ensures
        sorted_records(recs0.insert(idx, rec)),
        recs0.insert(idx, rec).len() == recs0.len() + 1,
        forall|t: int|
            0 <= t < recs0.insert(idx, rec).len() ==> reports_debut_in_prefix(
                s,
                mr,
                ex,
                #[trigger] recs0.insert(idx, rec)[t],
                i + 1,
            ),
        forall|p: int|
            0 <= p < i + 1 && #[trigger] eligible(s, p, mr, ex) ==> reported_in(
                s,
                recs0.insert(idx, rec),
                p,
            ),
        forall|t1: int, t2: int|
            0 <= t1 < t2 < recs0.insert(idx, rec).len() ==> (#[trigger] recs0.insert(
                idx,
                rec,
            )[t1]).item_id != (#[trigger] recs0.insert(idx, rec)[t2]).item_id,
{
    let new = recs0.insert(idx, rec);
    recs0.insert_ensures(idx, rec);
    // no item is reported twice: the new record's item differs from them all
    assert forall|t: int| 0 <= t < recs0.len() implies (#[trigger] recs0[t]).item_id
        != rec.item_id by {
        reveal(crate::debut::is_debut_index);
        reveal(crate::debut::record_matches);
        let q = choose|q: int|
            0 <= q < i && #[trigger] eligible(s, q, mr, ex) && record_matches(s, recs0[t], q);
        if recs0[t].item_id == rec.item_id {
            assert(s.positions@[q].item_id == s.positions@[i].item_id);
            assert(s.positions@[q].snapshot_ordinal <= s.positions@[i].snapshot_ordinal);
            assert(s.positions@[i].snapshot_ordinal <= s.positions@[q].snapshot_ordinal);
            assert(false);
        }
    }
    assert forall|a: int, b: int| 0 <= a < b < new.len() implies rec_le(
        #[trigger] new[a],
        #[trigger] new[b],
    ) by {
        if b < idx {
        } else if a < idx && b == idx {
            assert(new[a] == recs0[a] && new[b] == rec);
        } else if a < idx && b > idx {
            assert(new[a] == recs0[a] && new[b] == recs0[b - 1]);
            if a == b - 1 {
            } else {
                assert(rec_le(recs0[a], recs0[b - 1]));
            }
        } else if a == idx {
            assert(new[a] == rec && new[b] == recs0[b - 1]);
        } else {
            assert(new[a] == recs0[a - 1] && new[b] == recs0[b - 1]);
        }
    }
    assert forall|t: int| 0 <= t < new.len() implies reports_debut_in_prefix(
        s,
        mr,
        ex,
        #[trigger] new[t],
        i + 1,
    ) by {
        if t == idx {
            assert(new[t] == rec);
            assert(reports_debut_in_prefix(s, mr, ex, rec, i + 1));
        } else {
            let t0 = if t < idx { t } else { t - 1 };
            assert(new[t] == recs0[t0]);
            let p = choose|p: int|
                0 <= p < i && #[trigger] eligible(s, p, mr, ex) && record_matches(
                    s,
                    recs0[t0],
                    p,
                );
            assert(reports_debut_in_prefix(s, mr, ex, new[t], i + 1));
        }
    }
    assert forall|p: int| 0 <= p < i + 1 && #[trigger] eligible(s, p, mr, ex) implies reported_in(
        s,
        new,
        p,
    ) by {
        if p == i {
            assert(new[idx] == rec);
            assert(record_matches(s, new[idx], p));
        } else {
            let t = choose|t: int|
                0 <= t < recs0.len() && record_matches(s, #[trigger] recs0[t], p);
            if t < idx {
                assert(new[t] == recs0[t]);
                assert(record_matches(s, new[t], p));
            } else {
                assert(new[t + 1] == recs0[t]);
                assert(record_matches(s, new[t + 1], p));
            }
        }
    }
    assert forall|t1: int, t2: int| 0 <= t1 < t2 < new.len() implies (
    #[trigger] new[t1]).item_id != (#[trigger] new[t2]).item_id by {
        if t2 < idx {
        } else if t1 < idx && t2 == idx {
            assert(new[t1] == recs0[t1] && new[t2] == rec);
        } else if t1 < idx && t2 > idx {
            assert(new[t1] == recs0[t1] && new[t2] == recs0[t2 - 1]);
        } else if t1 == idx {
            assert(new[t1] == rec && new[t2] == recs0[t2 - 1]);
        } else {
            assert(new[t1] == recs0[t1 - 1] && new[t2] == recs0[t2 - 1]);
        }
    }
}

impl Store {
    /// Whether position `i` is the earliest one of its item.
    #[verifier::loop_isolation(false)]
    #[verifier::spinoff_prover]
    pub fn is_debut_at(&self, i: usize) -> (b: bool)
        requires
            i < self.positions@.len(),
        ensures
            b == is_debut_index(*self, i as int),
    {
        proof {
            reveal(crate::debut::is_debut_index);
        }
        let p_item = self.positions[i].item_id;
        let p_ord = self.positions[i].snapshot_ordinal;
        let mut j: usize = 0;
        while j < self.positions.len()
            invariant
                0 <= j <= self.positions@.len(),
                forall|t: int|
                    0 <= t < j ==> ((#[trigger] self.positions@[t]).item_id == p_item ==> p_ord
                        <= self.positions@[t].snapshot_ordinal),
            decreases self.positions@.len() - j,
        {
            if self.positions[j].item_id == p_item && self.positions[j].snapshot_ordinal < p_ord {
                proof {
                    reveal(crate::debut::is_debut_index);
                }
                return false;
            }
            j += 1;
        }
        proof {
            reveal(crate::debut::is_debut_index);
        }
        true
    }

    /// The index of the item row with id `id`.
    #[verifier::loop_isolation(false)]
    fn find_item_index(&self, id: u32) -> (a: usize)
        requires
            self.has_item(id),
        ensures
            a < self.items@.len() && self.items@[a as int].id == id,
    {
        let mut a: usize = 0;
        while a < self.items.len()
            invariant
                0 <= a <= self.items@.len(),
                forall|t: int| 0 <= t < a ==> (#[trigger] self.items@[t]).id != id,
            decreases self.items@.len() - a,
        {
            if self.items[a].id == id {
                return a;
            }
            a += 1;
        }
        proof {
            let w = choose|w: int| 0 <= w < self.items@.len() && (#[trigger] self.items@[w]).id == id;
            assert(self.items@[w].id != id);
        }
        vstd::pervasive::unreached()
    }

    /// The index of the snapshot row with ordinal `o`.
    #[verifier::loop_isolation(false)]
    fn find_snapshot_index(&self, o: u16) -> (b: usize)
        requires
            self.has_ordinal(o),
        ensures
            b < self.snapshots@.len() && self.snapshots@[b as int].ordinal == o,
    {
        let mut b: usize = 0;
        while b < self.snapshots.len()
            invariant
                0 <= b <= self.snapshots@.len(),
                forall|t: int| 0 <= t < b ==> (#[trigger] self.snapshots@[t]).ordinal != o,
            decreases self.snapshots@.len() - b,
        {
            if self.snapshots[b].ordinal == o {
                return b;
            }
            b += 1;
        }
        proof {
            let w = choose|w: int|
                0 <= w < self.snapshots@.len() && (#[trigger] self.snapshots@[w]).ordinal == o;
            assert(self.snapshots@[w].ordinal != o);
        }
        vstd::pervasive::unreached()
    }

    /// Builds the answer row for position `i`.
    #[verifier::spinoff_prover]
    fn record_at(&self, i: usize) -> (r: DebutRecord)
        requires
            self.wf(),
            i < self.positions@.len(),
        ensures
            record_matches(*self, r, i as int),
    {
        proof {
            reveal(crate::debut::record_matches);
        }
        let p = self.positions[i];
        let a = self.find_item_index(p.item_id);
        let b = self.find_snapshot_index(p.snapshot_ordinal);
        DebutRecord {
            item_id: p.item_id,
            name: self.items[a].name.clone(),
            artist: self.items[a].artist.clone(),
            date: self.snapshots[b].date,
            ordinal: p.snapshot_ordinal,
            rank: p.rank,
        }
    }

    /// The query: one record per eligible debut, ordered by debut date
    /// descending then rank ascending, truncated to `limit`. Absent
    /// parameters mean: no rank bound, keep the waiting room, no length cap.
    #[verifier::rlimit(100)]
    #[verifier::spinoff_prover]
    pub fn get_debut_records(
        &self,
        max_rank: Option<u16>,
        exclude_waiting_room: Option<bool>,
        limit: Option<u32>,
    ) -> (r: Vec<DebutRecord>)
        requires
            self.wf(),
        ensures
            exists|full: Seq<DebutRecord>|
                #[trigger] all_results(
                    *self,
                    effective_max_rank(max_rank),
                    effective_exclude(exclude_waiting_room),
                    full,
                ) && r@ == full.take(capped_len(limit, full.len() as int)),
    {
        let mr = match max_rank {
            Option::Some(v) => v,
            Option::None => u16::MAX,
        };
        let ex = match exclude_waiting_room {
            Option::Some(v) => v,
            Option::None => false,
        };
        let mut recs: Vec<DebutRecord> = Vec::new();
        let mut i: usize = 0;
        while i < self.positions.len()
            invariant
                self.wf(),
                0 <= i <= self.positions@.len(),
                sorted_records(recs@),
                recs@.len() == count_eligible(*self, mr, ex, i as int),
                forall|t: int|
                    0 <= t < recs@.len() ==> reports_debut_in_prefix(
                        *self,
                        mr,
                        ex,
                        #[trigger] recs@[t],
                        i as int,
                    ),
                forall|p: int|
                    0 <= p < i && #[trigger] eligible(*self, p, mr, ex) ==> reported_in(
                        *self,
                        recs@,
                        p,
                    ),
                forall|t1: int, t2: int|
                    0 <= t1 < t2 < recs@.len() ==> (#[trigger] recs@[t1]).item_id != (
                    #[trigger] recs@[t2]).item_id,
            decreases self.positions@.len() - i,
        {
            let p = self.positions[i];
            let ghost recs0 = recs@;
            if p.rank <= mr && (!ex || !p.waiting_room) {
                if self.is_debut_at(i) {
                    let rec = self.record_at(i);
                    // find the sorted place of the new record
                    let mut idx: usize = 0;
                    while idx < recs.len() && record_le(&recs[idx], &rec)
                        invariant
                            0 <= idx <= recs@.len(),
                            recs@ == recs0,
                            forall|t: int| 0 <= t < idx ==> rec_le(#[trigger] recs@[t], rec),
                        decreases recs@.len() - idx,
                    {
                        idx += 1;
                    }
                    proof {
                        assert(eligible(*self, i as int, mr, ex));
                        assert forall|t: int| idx <= t < recs0.len() implies rec_le(
                            rec,
                            #[trigger] recs0[t],
                        ) by {
                            lemma_rec_le_total(recs0[idx as int], rec);
                            if t > idx {
                                lemma_rec_le_trans(rec, recs0[idx as int], recs0[t]);
                            }
                        }
                        lemma_insert_record(
                            *self,
                            mr,
                            ex,
                            recs0,
                            rec,
                            i as int,
                            idx as int,
                        );
                    }
                    recs.insert(idx, rec);
                    proof {
                        assert(recs@ == recs0.insert(idx as int, rec));
                    }
                }
            }
            proof {
                reveal(crate::debut::is_debut_index);
                assert(count_eligible(*self, mr, ex, i + 1) == count_eligible(
                    *self,
                    mr,
                    ex,
                    i as int,
                ) + if eligible(*self, i as int, mr, ex) {
                    1int
                } else {
                    0int
                });
                if !(eligible(*self, i as int, mr, ex)) {
                    assert(recs@ == recs0);
                    assert forall|t: int| 0 <= t < recs@.len() implies reports_debut_in_prefix(
                        *self,
                        mr,
                        ex,
                        #[trigger] recs@[t],
                        i + 1,
                    ) by {
                        let q = choose|q: int|
                            0 <= q < i && #[trigger] eligible(*self, q, mr, ex) && record_matches(
                                *self,
                                recs@[t],
                                q,
                            );
                        assert(reports_debut_in_prefix(*self, mr, ex, recs@[t], i + 1));
                    }
                }
            }
            i += 1;
        }
        proof {
            reveal(crate::debut::is_debut_index);
            assert forall|p: int| #[trigger] eligible(*self, p, mr, ex) implies reported_in(
                *self,
                recs@,
                p,
            ) by {
                assert(0 <= p < self.positions@.len());
            }
            assert(all_results(*self, mr, ex, recs@));
        }
        let ghost full = recs@;
        let cap: usize = match limit {
            Option::Some(l) => {
                let l = l as usize;
                if l < recs.len() {
                    l
                } else {
                    recs.len()
                }
            },
            Option::None => recs.len(),
        };
        let mut out = recs;
        out.truncate(cap);
        proof {
            assert(out@ == full.take(capped_len(limit, full.len() as int))) by {
                assert(full.subrange(0, cap as int) =~= full.take(cap as int));
                assert(full.take(full.len() as int) =~= full);
            }
            assert(mr == effective_max_rank(max_rank));
            assert(ex == effective_exclude(exclude_waiting_room));
        }
        out
    }
}

} // verus!
