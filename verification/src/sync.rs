//! The reconciler: merges the new prefix of a remote chain into the store
//! inside one all-or-nothing run.
//!
//! A synchronization cycle walks the remote chain from the latest snapshot
//! backward (strictly decreasing ordinals), stops at the first ordinal that
//! is already known locally, and records every snapshot before that point.
//! Either the whole new prefix is recorded or the store is left untouched.

use vstd::prelude::*;

use crate::remote::{
    check_snapshot_ids, entry_ids_distinct, flatten_entries, item_of, position_of, snap_entries,
    snap_ids_distinct, snap_positions, RemoteItem, RemoteSnapshot,
};
use crate::store::{lemma_max_ordinal_is_bound, max_ordinal_of, Item, Position, Snapshot, Store};
use crate::ChartError;

verus! {

/// One upsert step: an item row is added only when its id is new.
pub open spec fn upsert_one(items: Seq<Item>, it: Item) -> Seq<Item> {
    if exists|k: int| 0 <= k < items.len() && (#[trigger] items[k]).id == it.id {
        items
    } else {
        items.push(it)
    }
}

/// The item table after upserting every entry of `entries` in order:
/// first-seen attributes win.
pub open spec fn merge_items(items: Seq<Item>, entries: Seq<(RemoteItem, bool)>) -> Seq<Item>
    decreases entries.len(),
{
    if entries.len() == 0 {
        items
    } else {
        upsert_one(merge_items(items, entries.drop_last()), item_of(entries.last().0))
    }
}

/// The snapshot row a remote snapshot creates.
pub open spec fn snapshot_of(s: RemoteSnapshot) -> Snapshot {
    Snapshot { ordinal: s.ordinal, date: s.date }
}

/// The snapshot rows of a chain prefix, in chain order.
pub open spec fn chain_snapshots(chain: Seq<RemoteSnapshot>) -> Seq<Snapshot> {
    chain.map_values(|s: RemoteSnapshot| snapshot_of(s))
}

/// The position rows of a chain prefix, in chain order.
pub open spec fn chain_positions(chain: Seq<RemoteSnapshot>) -> Seq<Position>
    decreases chain.len(),
{
    if chain.len() == 0 {
        Seq::empty()
    } else {
        chain_positions(chain.drop_last()) + snap_positions(chain.last())
    }
}

/// The item table after staging every snapshot of `chain` in order.
pub open spec fn chain_items(items: Seq<Item>, chain: Seq<RemoteSnapshot>) -> Seq<Item>
    decreases chain.len(),
{
    if chain.len() == 0 {
        items
    } else {
        merge_items(chain_items(items, chain.drop_last()), snap_entries(chain.last()))
    }
}

/// The walker's guarantee: ordinals strictly decrease along the chain.
pub open spec fn strictly_decreasing(chain: Seq<RemoteSnapshot>) -> bool {
    forall|i: int, j: int|
        0 <= i < j < chain.len() ==> (#[trigger] chain[i]).ordinal > (#[trigger] chain[j]).ordinal
}

/// Every snapshot of the chain carries a real calendar date.
pub open spec fn chain_dates_valid(chain: Seq<RemoteSnapshot>) -> bool {
    forall|i: int| 0 <= i < chain.len() ==> (#[trigger] chain[i]).date.valid()
}

/// Every snapshot of the chain has pairwise distinct item ids.
pub open spec fn chain_ids_distinct(chain: Seq<RemoteSnapshot>) -> bool {
    forall|i: int| 0 <= i < chain.len() ==> snap_ids_distinct(#[trigger] chain[i])
}

/// Where the reconciler stops consuming the walk: the index of the first
/// snapshot whose ordinal is at most `local_max`, or the chain's length.
pub open spec fn stop_index(chain: Seq<RemoteSnapshot>, local_max: u16) -> int
    decreases chain.len(),
{
    if chain.len() == 0 {
        0
    } else if chain[0].ordinal <= local_max {
        0
    } else {
        1 + stop_index(chain.drop_first(), local_max)
    }
}

/// The stop index splits the chain: everything before it is new, and the
/// snapshot at it (when any) is already known.
pub proof fn lemma_stop_index_splits(chain: Seq<RemoteSnapshot>, local_max: u16)
    ensures
        0 <= stop_index(chain, local_max) <= chain.len(),
        forall|j: int|
            0 <= j < stop_index(chain, local_max) ==> (#[trigger] chain[j]).ordinal > local_max,
        stop_index(chain, local_max) < chain.len() ==> chain[stop_index(chain, local_max)].ordinal
            <= local_max,
    decreases chain.len(),
{
    if chain.len() > 0 && chain[0].ordinal > local_max {
        lemma_stop_index_splits(chain.drop_first(), local_max);
        let k = stop_index(chain, local_max);
        assert forall|j: int| 0 <= j < k implies (#[trigger] chain[j]).ordinal > local_max by {
            if j > 0 {
                assert(chain.drop_first()[j - 1] == chain[j]);
            }
        }
        if k < chain.len() {
            assert(chain.drop_first()[k - 1] == chain[k]);
        }
    }
}

/// A position satisfying the split conditions is the stop index.
pub proof fn lemma_stop_index_from_conditions(chain: Seq<RemoteSnapshot>, local_max: u16, i: int)
    requires
        0 <= i <= chain.len(),
        forall|j: int| 0 <= j < i ==> (#[trigger] chain[j]).ordinal > local_max,
        i < chain.len() ==> chain[i].ordinal <= local_max,
    ensures
        stop_index(chain, local_max) == i,
    decreases chain.len(),
{
    if chain.len() == 0 {
    } else if i == 0 {
    } else {
        assert(chain[0].ordinal > local_max);
        assert forall|j: int| 0 <= j < i - 1 implies (#[trigger] chain.drop_first()[j]).ordinal
            > local_max by {
            assert(chain.drop_first()[j] == chain[j + 1]);
        }
        if i - 1 < chain.drop_first().len() {
            assert(chain.drop_first()[i - 1] == chain[i]);
        }
        lemma_stop_index_from_conditions(chain.drop_first(), local_max, i - 1);
    }
}

/// The reconciler's stop rule, for the driver of the walk: a fetched
/// snapshot is staged — and the walk continued — only while its ordinal
/// exceeds the highest one recorded locally.
pub fn should_stage(local_max: u16, ordinal: u16) -> (b: bool)
    ensures
        b == (ordinal > local_max),
{
    ordinal > local_max
}

/// Stages one snapshot: the snapshot row, then for every entry the item
/// upsert and the position row. Rejection leaves the store unchanged.
pub fn stage_snapshot(store: &mut Store, snap: &RemoteSnapshot) -> (r: Result<(), ChartError>)
    requires
        old(store).wf(),
        snap.date.valid(),
    ensures
        final(store).wf(),
        match r {
            Ok(()) => !old(store).has_ordinal(snap.ordinal) && snap_ids_distinct(*snap)
                && final(store).snapshots@ == old(store).snapshots@.push(snapshot_of(*snap))
                && final(store).positions@ == old(store).positions@ + snap_positions(*snap)
                && final(store).items@ == merge_items(old(store).items@, snap_entries(*snap)),
            Err(e) => *final(store) == *old(store) && (e == ChartError::DuplicateSnapshot || e
                == ChartError::DuplicatePosition) && (e == ChartError::DuplicateSnapshot <==> old(
                store,
            ).has_ordinal(snap.ordinal)) && (e == ChartError::DuplicatePosition <==> !old(
                store,
            ).has_ordinal(snap.ordinal) && !snap_ids_distinct(*snap)),
        },
{
    if store.contains_ordinal(snap.ordinal) {
        return Err(ChartError::DuplicateSnapshot);
    }
    let entries = flatten_entries(snap);
    if !entry_ids_distinct(&entries) {
        return Err(ChartError::DuplicatePosition);
    }
    let res = store.insert_snapshot(Snapshot { ordinal: snap.ordinal, date: snap.date });
    match res {
        Ok(()) => {}
        Err(_) => {
            proof {
                assert(false);
            }
            return Err(ChartError::DuplicateSnapshot);
        }
    }
    let mut t: usize = 0;
    while t < entries.len()
        invariant
            0 <= t <= entries@.len(),
            entries@ == snap_entries(*snap),
            snap_ids_distinct(*snap),
            old(store).wf(),
            !old(store).has_ordinal(snap.ordinal),
            store.wf(),
            store.snapshots@ == old(store).snapshots@.push(snapshot_of(*snap)),
            store.positions@ == old(store).positions@ + snap_positions(*snap).take(t as int),
            store.items@ == merge_items(old(store).items@, snap_entries(*snap).take(t as int)),
        decreases entries@.len() - t,
    {
        let it = &entries[t].0;
        let item = Item { id: it.id, name: it.name.clone(), artist: it.artist.clone() };
        proof {
            assert(item == item_of(entries@[t as int].0));
            assert(snap_entries(*snap).take(t + 1).drop_last() =~= snap_entries(*snap).take(
                t as int,
            ));
            assert(snap_entries(*snap).take(t + 1).last() == snap_entries(*snap)[t as int]);
        }
        let ghost pre = *store;
        store.upsert_item(&item);
        let pos = Position {
            item_id: it.id,
            snapshot_ordinal: snap.ordinal,
            rank: it.rank,
            waiting_room: entries[t].1,
        };
        proof {
            // the pushed snapshot row witnesses the ordinal
            assert(store.snapshots@[store.snapshots@.len() - 1].ordinal == snap.ordinal);
            // the upsert just witnessed the item id
            assert(store.has_item(pos.item_id)) by {
                if !pre.has_item(item.id) {
                    assert(store.items@[store.items@.len() - 1].id == item.id);
                }
            }
            // no position for (item, ordinal) can exist yet
            if store.has_position(pos.item_id, pos.snapshot_ordinal) {
                let idx = choose|idx: int|
                    0 <= idx < store.positions@.len() && (#[trigger] store.positions@[idx]).item_id
                        == pos.item_id && store.positions@[idx].snapshot_ordinal
                        == pos.snapshot_ordinal;
                if idx < old(store).positions@.len() {
                    assert(old(store).positions@[idx] == store.positions@[idx]);
                    assert(old(store).has_ordinal(old(store).positions@[idx].snapshot_ordinal));
                    assert(false);
                } else {
                    let u = idx - old(store).positions@.len();
                    assert(store.positions@[idx] == snap_positions(*snap).take(t as int)[u]);
                    assert(snap_positions(*snap)[u] == position_of(
                        snap_entries(*snap)[u].0,
                        snap.ordinal,
                        snap_entries(*snap)[u].1,
                    ));
                    assert(snap_entries(*snap)[u].0.id == snap_entries(*snap)[t as int].0.id);
                    assert(false);
                }
            }
        }
        let res = store.insert_position(pos);
        match res {
            Ok(()) => {}
            Err(_) => {
                proof {
                    assert(false);
                }
                return Err(ChartError::DuplicatePosition);
            }
        }
        proof {
            assert(snap_positions(*snap).take(t + 1) =~= snap_positions(*snap).take(
                t as int,
            ).push(snap_positions(*snap)[t as int]));
            assert(snap_positions(*snap)[t as int] == position_of(
                snap_entries(*snap)[t as int].0,
                snap.ordinal,
                snap_entries(*snap)[t as int].1,
            ));
            assert(store.positions@ =~= old(store).positions@ + snap_positions(*snap).take(t + 1));
        }
        t += 1;
    }
    proof {
        assert(snap_positions(*snap).take(entries@.len() as int) =~= snap_positions(*snap));
        assert(snap_entries(*snap).take(entries@.len() as int) =~= snap_entries(*snap));
    }
    Ok(())
}

/// One synchronization run: stages every snapshot of the chain that is newer
/// than the local maximum, all-or-nothing, and reports how many were staged.
#[verifier::loop_isolation(false)]
pub fn synchronize(store: &mut Store, chain: &Vec<RemoteSnapshot>) -> (r: Result<
    usize,
    ChartError,
>)
    requires
        old(store).wf(),
        strictly_decreasing(chain@),
        chain_dates_valid(chain@),
    ensures
        final(store).wf(),
        match r {
            Ok(n) => n as int == stop_index(chain@, max_ordinal_of(old(store).snapshots@))
                && chain_ids_distinct(
                chain@.take(stop_index(chain@, max_ordinal_of(old(store).snapshots@))),
            ) && final(store).snapshots@ == old(store).snapshots@ + chain_snapshots(
                chain@.take(stop_index(chain@, max_ordinal_of(old(store).snapshots@))),
            ) && final(store).positions@ == old(store).positions@ + chain_positions(
                chain@.take(stop_index(chain@, max_ordinal_of(old(store).snapshots@))),
            ) && final(store).items@ == chain_items(
                old(store).items@,
                chain@.take(stop_index(chain@, max_ordinal_of(old(store).snapshots@))),
            ),
            Err(e) => e == ChartError::DuplicatePosition && !chain_ids_distinct(
                chain@.take(stop_index(chain@, max_ordinal_of(old(store).snapshots@))),
            ) && *final(store) == *old(store),
        },
{
    let local_max = store.max_ordinal();
    proof {
        lemma_max_ordinal_is_bound(store.snapshots@);
    }
    // find where the walk stops: the first ordinal already known locally
    let mut k: usize = 0;
    while k < chain.len() && chain[k].ordinal > local_max
        invariant
            0 <= k <= chain@.len(),
            forall|j: int| 0 <= j < k ==> (#[trigger] chain@[j]).ordinal > local_max,
        decreases chain@.len() - k,
    {
        k += 1;
    }
    proof {
        lemma_stop_index_from_conditions(chain@, local_max, k as int);
    }
    // validate the whole prefix before touching the store
    let mut j: usize = 0;
    while j < k
        invariant
            0 <= j <= k <= chain@.len(),
            local_max == max_ordinal_of(old(store).snapshots@),
            k as int == stop_index(chain@, local_max),
            forall|t: int| 0 <= t < j ==> snap_ids_distinct(#[trigger] chain@[t]),
        decreases k - j,
    {
        if !check_snapshot_ids(&chain[j]) {
            proof {
                assert(chain@.take(k as int)[j as int] == chain@[j as int]);
            }
            return Err(ChartError::DuplicatePosition);
        }
        j += 1;
    }
    proof {
        assert forall|t: int| 0 <= t < chain@.take(k as int).len() implies snap_ids_distinct(
            #[trigger] chain@.take(k as int)[t],
        ) by {
            assert(chain@.take(k as int)[t] == chain@[t]);
        }
    }
    // stage the validated prefix
    let mut j: usize = 0;
    while j < k
        invariant
            0 <= j <= k <= chain@.len(),
            local_max == max_ordinal_of(old(store).snapshots@),
            k as int == stop_index(chain@, local_max),
            forall|t: int| 0 <= t < k ==> (#[trigger] chain@[t]).ordinal > local_max,
            chain_ids_distinct(chain@.take(k as int)),
            store.wf(),
            store.snapshots@ == old(store).snapshots@ + chain_snapshots(chain@.take(j as int)),
            store.positions@ == old(store).positions@ + chain_positions(chain@.take(j as int)),
            store.items@ == chain_items(old(store).items@, chain@.take(j as int)),
        decreases k - j,
    {
        proof {
            lemma_max_ordinal_is_bound(old(store).snapshots@);
            assert(chain@.take(k as int)[j as int] == chain@[j as int]);
            assert(snap_ids_distinct(chain@[j as int]));
            if store.has_ordinal(chain@[j as int].ordinal) {
                let idx = choose|idx: int|
                    0 <= idx < store.snapshots@.len() && (#[trigger] store.snapshots@[idx]).ordinal
                        == chain@[j as int].ordinal;
                if idx < old(store).snapshots@.len() {
                    assert(old(store).snapshots@[idx].ordinal <= local_max);
                    assert(false);
                } else {
                    let u = idx - old(store).snapshots@.len();
                    assert(store.snapshots@[idx] == chain_snapshots(chain@.take(j as int))[u]);
                    assert(chain_snapshots(chain@.take(j as int))[u] == snapshot_of(chain@[u]));
                    assert(false);
                }
            }
        }
        let res = stage_snapshot(store, &chain[j]);
        match res {
            Ok(()) => {}
            Err(_) => {
                proof {
                    assert(chain@.take(k as int)[j as int] == chain@[j as int]);
                    assert(false);
                }
                return Err(ChartError::DuplicatePosition);
            }
        }
        proof {
            assert(chain@.take(j + 1).drop_last() =~= chain@.take(j as int));
            assert(chain@.take(j + 1).last() == chain@[j as int]);
            assert(chain_snapshots(chain@.take(j + 1)) =~= chain_snapshots(chain@.take(
                j as int,
            )).push(snapshot_of(chain@[j as int])));
            assert(store.snapshots@ =~= old(store).snapshots@ + chain_snapshots(chain@.take(j + 1)));
            assert(store.positions@ =~= old(store).positions@ + chain_positions(chain@.take(j + 1)));
        }
        j += 1;
    }
    Ok(k)
}

/// The greatest ordinal of a concatenation is the greater of the two maxima.
pub proof fn lemma_max_ordinal_concat(a: Seq<Snapshot>, b: Seq<Snapshot>)
    ensures
        max_ordinal_of(a + b) == if max_ordinal_of(b) > max_ordinal_of(a) {
            max_ordinal_of(b)
        } else {
            max_ordinal_of(a)
        },
    decreases b.len(),
{
    if b.len() == 0 {
        assert(a + b =~= a);
    } else {
        assert((a + b).drop_last() =~= a + b.drop_last());
        lemma_max_ordinal_concat(a, b.drop_last());
    }
}

/// A non-empty run of snapshots attains its maximum ordinal.
pub proof fn lemma_max_ordinal_attained(snaps: Seq<Snapshot>)
    requires
        snaps.len() > 0,
    ensures
        exists|i: int|
            0 <= i < snaps.len() && (#[trigger] snaps[i]).ordinal == max_ordinal_of(snaps),
    decreases snaps.len(),
{
    if snaps.len() == 1 {
        assert(max_ordinal_of(snaps.drop_last()) == 0);
        assert(snaps[0].ordinal == max_ordinal_of(snaps));
    } else {
        lemma_max_ordinal_attained(snaps.drop_last());
        if max_ordinal_of(snaps) == snaps.last().ordinal {
            assert(snaps[snaps.len() - 1].ordinal == max_ordinal_of(snaps));
        } else {
            let i = choose|i: int|
                0 <= i < snaps.drop_last().len() && (#[trigger] snaps.drop_last()[i]).ordinal
                    == max_ordinal_of(snaps.drop_last());
            assert(snaps[i] == snaps.drop_last()[i]);
            assert(snaps[i].ordinal == max_ordinal_of(snaps));
        }
    }
}

/// Idempotence law: after a synchronization run has recorded the new prefix
/// of a remote chain, a second walk of the same chain stops at its very
/// first snapshot, so a repeated run stages nothing.
pub proof fn lemma_synchronize_idempotent(snaps: Seq<Snapshot>, chain: Seq<RemoteSnapshot>)
    requires
        strictly_decreasing(chain),
    ensures
        stop_index(
            chain,
            max_ordinal_of(
                snaps + chain_snapshots(chain.take(stop_index(chain, max_ordinal_of(snaps)))),
            ),
        ) == 0,
{
    let m = max_ordinal_of(snaps);
    let k = stop_index(chain, m);
    lemma_stop_index_splits(chain, m);
    let staged = chain_snapshots(chain.take(k));
    lemma_max_ordinal_concat(snaps, staged);
    if k == 0 {
        assert(staged =~= Seq::<Snapshot>::empty());
        assert(max_ordinal_of(staged) == 0);
        assert(max_ordinal_of(snaps + staged) == m);
    } else {
        assert(staged[0] == snapshot_of(chain[0]));
        lemma_max_ordinal_is_bound(staged);
        lemma_max_ordinal_attained(staged);
        let i = choose|i: int|
            0 <= i < staged.len() && (#[trigger] staged[i]).ordinal == max_ordinal_of(staged);
        assert(staged[i] == snapshot_of(chain[i]));
        assert(chain[i].ordinal <= chain[0].ordinal);
        assert(max_ordinal_of(staged) == chain[0].ordinal);
        assert(chain[0].ordinal > m);
        assert(max_ordinal_of(snaps + staged) == chain[0].ordinal);
    }
}

/// Monotonic stop law: a snapshot of the chain is staged exactly when its
/// ordinal exceeds the local maximum — the walk stops at the first known
/// ordinal and re-processes nothing before or after it.
pub proof fn lemma_stop_partitions(chain: Seq<RemoteSnapshot>, local_max: u16)
    requires
        strictly_decreasing(chain),
    ensures
        0 <= stop_index(chain, local_max) <= chain.len(),
        forall|j: int|
            0 <= j < chain.len() ==> ((#[trigger] chain[j]).ordinal > local_max <==> j < stop_index(
                chain,
                local_max,
            )),
{
    lemma_stop_index_splits(chain, local_max);
    let k = stop_index(chain, local_max);
    assert forall|j: int| 0 <= j < chain.len() implies ((#[trigger] chain[j]).ordinal > local_max
        <==> j < k) by {
        if j >= k {
            if j > k {
                assert(chain[k].ordinal > chain[j].ordinal);
            }
        }
    }
}

} // verus!
