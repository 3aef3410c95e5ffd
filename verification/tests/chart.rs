use chart_debut::date::ChartDate;
use chart_debut::remote::{RemoteItem, RemoteSection, RemoteSnapshot};
use chart_debut::store::{Item, Position, Snapshot, Store};
use chart_debut::sync::synchronize;
use chart_debut::ChartError;

fn day(d: u8) -> ChartDate {
    ChartDate { year: 2024, month: 1, day: d }
}

fn snap(ordinal: u16, d: u8, items: Vec<(u32, u16)>) -> RemoteSnapshot {
    let items = items
        .into_iter()
        .map(|(id, rank)| RemoteItem {
            id,
            name: format!("song{}", id),
            artist: format!("artist{}", id),
            rank,
        })
        .collect();
    RemoteSnapshot {
        ordinal,
        date: day(d),
        sections: vec![RemoteSection { waiting_room: false, items }],
    }
}

#[test]
fn synchronize_inserts_new_prefix_and_stops() {
    let mut store = Store::new();
    let chain = vec![
        snap(3, 3, vec![(1, 5)]),
        snap(2, 2, vec![(1, 7)]),
        snap(1, 1, vec![(1, 9)]),
    ];
    let n = synchronize(&mut store, &chain).unwrap();
    assert_eq!(n, 3);
    assert_eq!(store.snapshots.len(), 3);
    assert_eq!(store.positions.len(), 3);
    assert_eq!(store.items.len(), 1);

    // monotonic stop: with ordinal 3 known, a longer chain adds only 4 and 5
    let chain2 = vec![
        snap(5, 5, vec![(2, 1)]),
        snap(4, 4, vec![(2, 2)]),
        snap(3, 3, vec![(1, 5)]),
        snap(2, 2, vec![(1, 7)]),
    ];
    let n2 = synchronize(&mut store, &chain2).unwrap();
    assert_eq!(n2, 2);
    assert_eq!(store.snapshots.len(), 5);
}

#[test]
fn synchronize_twice_is_idempotent() {
    let mut store = Store::new();
    let chain = vec![snap(2, 2, vec![(1, 1)]), snap(1, 1, vec![(1, 2)])];
    assert_eq!(synchronize(&mut store, &chain).unwrap(), 2);
    assert_eq!(synchronize(&mut store, &chain).unwrap(), 0);
    assert_eq!(store.snapshots.len(), 2);
    assert_eq!(store.positions.len(), 2);
}

#[test]
fn synchronize_failure_leaves_store_unchanged() {
    let mut store = Store::new();
    assert_eq!(synchronize(&mut store, &vec![snap(1, 1, vec![(9, 1)])]).unwrap(), 1);
    // snapshot 2 lists the same item twice: the whole run is rejected
    let bad = vec![snap(3, 3, vec![(7, 1)]), snap(2, 2, vec![(8, 1), (8, 2)])];
    let err = synchronize(&mut store, &bad).unwrap_err();
    assert_eq!(err, ChartError::DuplicatePosition);
    assert_eq!(store.snapshots.len(), 1);
    assert_eq!(store.positions.len(), 1);
    assert_eq!(store.items.len(), 1);
}

#[test]
fn insert_position_rejects_duplicate_pair() {
    let mut store = Store::new();
    store
        .insert_snapshot(Snapshot { ordinal: 1, date: day(1) })
        .unwrap();
    store.upsert_item(&Item { id: 10, name: "a".to_string(), artist: "b".to_string() });
    let p = Position { item_id: 10, snapshot_ordinal: 1, rank: 4, waiting_room: false };
    assert!(store.insert_position(p).is_ok());
    let q = Position { item_id: 10, snapshot_ordinal: 1, rank: 6, waiting_room: true };
    assert_eq!(store.insert_position(q).unwrap_err(), ChartError::DuplicatePosition);
    assert_eq!(store.positions.len(), 1);
}

#[test]
fn insert_snapshot_rejects_duplicate_ordinal() {
    let mut store = Store::new();
    store
        .insert_snapshot(Snapshot { ordinal: 5, date: day(1) })
        .unwrap();
    let err = store
        .insert_snapshot(Snapshot { ordinal: 5, date: day(2) })
        .unwrap_err();
    assert_eq!(err, ChartError::DuplicateSnapshot);
}

#[test]
fn upsert_item_keeps_first_seen_attributes() {
    let mut store = Store::new();
    store.upsert_item(&Item { id: 1, name: "first".to_string(), artist: "a".to_string() });
    store.upsert_item(&Item { id: 1, name: "second".to_string(), artist: "b".to_string() });
    assert_eq!(store.items.len(), 1);
    assert_eq!(store.items[0].name, "first");
}
