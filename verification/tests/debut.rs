use chart_debut::date::ChartDate;
use chart_debut::remote::{RemoteItem, RemoteSection, RemoteSnapshot};
use chart_debut::store::{Item, Position, Snapshot, Store};
use chart_debut::sync::synchronize;

fn day(d: u8) -> ChartDate {
    ChartDate { year: 2024, month: 1, day: d }
}

fn add_snapshot(store: &mut Store, ordinal: u16, d: u8) {
    store
        .insert_snapshot(Snapshot { ordinal, date: day(d) })
        .unwrap();
}

fn add_item(store: &mut Store, id: u32) {
    store.upsert_item(&Item {
        id,
        name: format!("song{}", id),
        artist: format!("artist{}", id),
    });
}

fn add_position(store: &mut Store, item_id: u32, ordinal: u16, rank: u16, waiting: bool) {
    store
        .insert_position(Position {
            item_id,
            snapshot_ordinal: ordinal,
            rank,
            waiting_room: waiting,
        })
        .unwrap();
}

#[test]
fn debut_is_smallest_ordinal() {
    let mut store = Store::new();
    add_snapshot(&mut store, 3, 3);
    add_snapshot(&mut store, 5, 5);
    add_snapshot(&mut store, 7, 7);
    add_item(&mut store, 1);
    add_position(&mut store, 1, 5, 10, false);
    add_position(&mut store, 1, 3, 2, false);
    add_position(&mut store, 1, 7, 1, false);
    let recs = store.get_debut_records(None, None, None);
    assert_eq!(recs.len(), 1);
    assert_eq!(recs[0].ordinal, 3);
    assert_eq!(recs[0].rank, 2);
    assert_eq!(recs[0].item_id, 1);
    assert_eq!(recs[0].date, day(3));
    assert_eq!(recs[0].name, "song1");
    assert_eq!(recs[0].artist, "artist1");
}

#[test]
fn waiting_room_filter_excludes_and_includes() {
    let mut store = Store::new();
    add_snapshot(&mut store, 1, 1);
    add_item(&mut store, 1);
    add_position(&mut store, 1, 1, 3, true);
    let included = store.get_debut_records(None, None, None);
    assert_eq!(included.len(), 1);
    let also_included = store.get_debut_records(None, Some(false), None);
    assert_eq!(also_included.len(), 1);
    let excluded = store.get_debut_records(None, Some(true), None);
    assert!(excluded.is_empty());
}

#[test]
fn rank_filter_and_limit() {
    let mut store = Store::new();
    for i in 1u16..=5 {
        add_snapshot(&mut store, i, i as u8);
        let id = 100 + i as u32;
        add_item(&mut store, id);
        let rank = if i == 5 { 6 } else { i };
        add_position(&mut store, id, i, rank, false);
    }
    // max_rank = 5 drops the item whose debut rank is 6
    let filtered = store.get_debut_records(Some(5), None, None);
    assert_eq!(filtered.len(), 4);
    assert!(filtered.iter().all(|r| r.rank <= 5));
    // limit = 2 keeps the two most recent debut dates, newest first
    let limited = store.get_debut_records(None, None, Some(2));
    assert_eq!(limited.len(), 2);
    assert_eq!(limited[0].item_id, 105);
    assert_eq!(limited[0].date, day(5));
    assert_eq!(limited[1].item_id, 104);
    assert_eq!(limited[1].date, day(4));
}

#[test]
fn ordering_is_date_descending_then_rank_ascending() {
    let mut store = Store::new();
    add_snapshot(&mut store, 1, 1);
    add_snapshot(&mut store, 2, 2);
    for (id, ordinal, rank) in [(1u32, 1u16, 8u16), (2, 1, 4), (3, 2, 9), (4, 2, 5)] {
        add_item(&mut store, id);
        add_position(&mut store, id, ordinal, rank, false);
    }
    let recs = store.get_debut_records(None, None, None);
    let order: Vec<(u32, u16)> = recs.iter().map(|r| (r.item_id, r.rank)).collect();
    assert_eq!(order, vec![(4, 5), (3, 9), (2, 4), (1, 8)]);
}

#[test]
fn end_to_end_sync_then_debut() {
    let mut store = Store::new();
    let chain: Vec<RemoteSnapshot> = [(3u16, 3u8, 1u16), (2, 2, 7), (1, 1, 5)]
        .into_iter()
        .map(|(ordinal, d, rank)| RemoteSnapshot {
            ordinal,
            date: day(d),
            sections: vec![RemoteSection {
                waiting_room: false,
                items: vec![RemoteItem {
                    id: 42,
                    name: "the song".to_string(),
                    artist: "the artist".to_string(),
                    rank,
                }],
            }],
        })
        .collect();
    assert_eq!(synchronize(&mut store, &chain).unwrap(), 3);
    assert_eq!(store.snapshots.len(), 3);
    assert_eq!(store.positions.len(), 3);
    let recs = store.get_debut_records(None, None, None);
    assert_eq!(recs.len(), 1);
    assert_eq!(recs[0].ordinal, 1);
    assert_eq!(recs[0].rank, 5);
    assert_eq!(recs[0].date, day(1));
}

#[test]
fn resolver_is_read_only() {
    let mut store = Store::new();
    add_snapshot(&mut store, 1, 1);
    add_item(&mut store, 1);
    add_position(&mut store, 1, 1, 2, false);
    let _ = store.get_debut_records(Some(1), Some(true), Some(1));
    assert_eq!(store.snapshots.len(), 1);
    assert_eq!(store.items.len(), 1);
    assert_eq!(store.positions.len(), 1);
}
