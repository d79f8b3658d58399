use legion_prof_viewer::data::{
    DataSource, EntryInfo, Field, FieldValue, Initializer, Item, ItemMeta, SlotMetaTile, SlotTile,
    SummaryTile, UtilPoint,
};
use legion_prof_viewer::deferred_data::{DeferredDataSource, QueueDataSource};
use legion_prof_viewer::entry_id::{EntryID, TileID};
use legion_prof_viewer::interval::Interval;
use legion_prof_viewer::ledger::{DedupLedger, FetchKind, Fingerprint, Subject};
use legion_prof_viewer::queue::{Data, Work};
use legion_prof_viewer::schema::{endpoint, request_body, RequestBody};
use legion_prof_viewer::tile_list::TileListCache;
use legion_prof_viewer::tile_store::TileStore;
use legion_prof_viewer::wrapper::DeferredDataSourceWrapper;

fn tile(start: i64, stop: i64) -> TileID {
    TileID(Interval::new(start, stop))
}

fn summary(entry: &EntryID, t: TileID, points: Vec<UtilPoint>) -> SummaryTile {
    SummaryTile { entry_id: entry.clone(), tile_id: t, utilization: points }
}

#[test]
fn entry_id_round_trip() {
    let e = EntryID::root().child(2).child(0).child(5);
    assert_eq!(e.level(), 3);
    assert_eq!(e.slot_index(1), Some(0));
    assert_eq!(e.slot_index(0), Some(2));
    assert_eq!(e.slot_index(2), Some(5));
    assert_eq!(e.slot_index(3), None);
    assert_eq!(e.last_slot_index(), Some(5));
    assert_eq!(EntryID::root().last_slot_index(), None);
    assert_eq!(EntryID::root().level(), 0);
}

#[test]
fn entry_id_ancestor_and_equality() {
    let e = EntryID::root().child(2).child(0).child(5);
    assert!(e.ancestor(2).unwrap() == EntryID::root().child(2).child(0));
    assert!(e.ancestor(0).unwrap() == EntryID::root());
    assert!(e.ancestor(3).unwrap() == e);
    assert!(e.ancestor(4).is_none());
    assert!(e != EntryID::root().child(2).child(0).child(6));
    assert!(e == EntryID::from_path(vec![2, 0, 5]));
}

#[test]
fn interval_intersection_of_disjoint_is_invalid() {
    let a = Interval::new(0, 5);
    let b = Interval::new(7, 9);
    assert!(!a.overlaps(b));
    let i = a.intersection(b);
    assert_eq!(i, Interval::new(7, 5));
    assert!(!i.is_valid());
}

#[test]
fn interval_intersection_of_overlapping_is_valid() {
    let a = Interval::new(0, 10);
    let b = Interval::new(10, 20);
    assert!(a.overlaps(b));
    assert_eq!(a.intersection(b), Interval::new(10, 10));
    assert!(a.intersection(b).is_valid());
    assert_eq!(Interval::new(0, 15).intersection(Interval::new(5, 30)), Interval::new(5, 15));
}

#[test]
fn interval_union_and_contains() {
    assert_eq!(Interval::new(0, 5).union(Interval::new(7, 9)), Interval::new(0, 9));
    assert!(Interval::new(0, 5).contains(5));
    assert!(!Interval::new(0, 5).contains(6));
}

#[test]
fn ledger_claims_once() {
    let mut l = DedupLedger::new();
    let fp = Fingerprint::new(EntryID::root().child(1), Subject::Tile(tile(0, 10)), FetchKind::SlotTile);
    assert!(l.should_issue(&fp));
    assert!(!l.should_issue(&fp));
    let other = Fingerprint::new(EntryID::root().child(1), Subject::Tile(tile(0, 10)), FetchKind::SummaryTile);
    assert!(l.should_issue(&other));
    l.release(&fp);
    assert!(!l.contains(&fp));
    assert!(l.contains(&other));
    assert!(l.should_issue(&fp));
    l.clear();
    assert!(!l.contains(&other));
}

#[test]
fn tile_listing_merges_by_union() {
    let mut c = TileListCache::new();
    let e = EntryID::root().child(0);
    c.merge(&e, &vec![tile(0, 10), tile(10, 20)]);
    c.merge(&e, &vec![tile(10, 20), tile(20, 30), tile(20, 30)]);
    assert_eq!(c.get(&e), vec![tile(0, 10), tile(10, 20), tile(20, 30)]);
    assert!(c.get(&EntryID::root().child(1)).is_empty());
}

#[test]
fn tile_store_put_replaces_and_invalidates() {
    let mut s: TileStore<SummaryTile> = TileStore::new();
    let e = EntryID::root().child(0);
    let f = EntryID::root().child(1);
    s.put(e.clone(), tile(0, 10), summary(&e, tile(0, 10), vec![UtilPoint::new(1, 1)]));
    s.put(f.clone(), tile(0, 10), summary(&f, tile(0, 10), vec![UtilPoint::new(2, 2)]));
    s.put(e.clone(), tile(10, 20), summary(&e, tile(10, 20), vec![UtilPoint::new(3, 3)]));
    s.put(e.clone(), tile(0, 10), summary(&e, tile(0, 10), vec![UtilPoint::new(4, 4)]));
    let all = s.get_all(&e);
    assert_eq!(all.len(), 2);
    assert_eq!(all[0].utilization, vec![UtilPoint::new(4, 4)]);
    assert_eq!(all[1].utilization, vec![UtilPoint::new(3, 3)]);
    assert_eq!(s.get(&f, tile(0, 10)).unwrap().utilization, vec![UtilPoint::new(2, 2)]);
    s.invalidate(&e);
    assert!(s.get_all(&e).is_empty());
    assert_eq!(s.get_all(&f).len(), 1);
}

#[test]
fn summary_tile_arrives_after_transport() {
    let mut src = QueueDataSource::new();
    let entry = EntryID::root().child(2).child(1);
    let t = tile(100, 200);
    src.fetch_summary_tile(entry.clone(), t);
    assert!(src.get_summary_tiles(&entry).is_empty());
    let requests = src.take_requests();
    assert_eq!(requests.len(), 1);
    let points = vec![UtilPoint::new(120, 0.5f32.to_bits()), UtilPoint::new(180, 0.8f32.to_bits())];
    src.push_result(Work::FetchSummaryTile(entry.clone(), t, Data::Ready(summary(&entry, t, points.clone()))));
    let got = src.get_summary_tiles(&entry);
    assert_eq!(got.len(), 1);
    assert_eq!(got[0].utilization, points);
    assert_eq!(f32::from_bits(got[0].utilization[0].util_bits), 0.5);
    assert_eq!(f32::from_bits(got[0].utilization[1].util_bits), 0.8);
    assert!(src.get_summary_tiles(&EntryID::root().child(2)).is_empty());
}

#[test]
fn fetching_twice_sends_one_request() {
    let mut src = QueueDataSource::new();
    let entry = EntryID::root().child(0);
    src.fetch_tiles(entry.clone(), Interval::new(0, 100));
    src.fetch_tiles(entry.clone(), Interval::new(0, 100));
    let first = src.take_requests();
    assert_eq!(first.len(), 1);
    src.fetch_tiles(entry.clone(), Interval::new(0, 100));
    assert!(src.take_requests().is_empty());
    src.fetch_tiles(entry.clone(), Interval::new(50, 150));
    assert_eq!(src.take_requests().len(), 1);
}

#[test]
fn overlapping_listings_accumulate() {
    let mut src = QueueDataSource::new();
    let entry = EntryID::root().child(0);
    src.fetch_tiles(entry.clone(), Interval::new(0, 20));
    src.fetch_tiles(entry.clone(), Interval::new(10, 30));
    assert_eq!(src.take_requests().len(), 2);
    src.push_result(Work::FetchTiles(entry.clone(), Interval::new(10, 30), Data::Ready(vec![tile(10, 20), tile(20, 30)])));
    src.push_result(Work::FetchTiles(entry.clone(), Interval::new(0, 20), Data::Ready(vec![tile(0, 10), tile(10, 20)])));
    assert_eq!(src.get_tiles(&entry), vec![tile(10, 20), tile(20, 30), tile(0, 10)]);
}

#[test]
fn failed_request_can_be_retried() {
    let mut src = QueueDataSource::new();
    src.fetch_interval();
    assert_eq!(src.take_requests().len(), 1);
    src.fetch_interval();
    assert!(src.take_requests().is_empty());
    src.push_result(Work::FetchInterval(Data::Failed("timeout".to_string())));
    assert_eq!(src.get_interval(), None);
    src.fetch_interval();
    assert_eq!(src.take_requests().len(), 1);
    src.push_result(Work::FetchInterval(Data::Ready(Interval::new(0, 1000))));
    assert_eq!(src.get_interval(), Some(Interval::new(0, 1000)));
}

#[test]
fn view_change_clears_ledger() {
    let mut src = QueueDataSource::new();
    let entry = EntryID::root().child(0);
    src.set_view_interval(Interval::new(0, 10));
    src.fetch_slot_tile(entry.clone(), tile(0, 10));
    assert_eq!(src.take_requests().len(), 1);
    src.set_view_interval(Interval::new(0, 10));
    src.fetch_slot_tile(entry.clone(), tile(0, 10));
    assert!(src.take_requests().is_empty());
    src.set_view_interval(Interval::new(5, 10));
    src.fetch_slot_tile(entry.clone(), tile(0, 10));
    assert_eq!(src.take_requests().len(), 1);
}

#[test]
fn info_and_meta_tiles_are_cached() {
    let mut src = QueueDataSource::new();
    let entry = EntryID::root().child(0).child(0).child(0);
    src.fetch_info();
    assert!(src.get_info().is_none());
    let init = Initializer {
        interval: Interval::new(0, 500),
        info: EntryInfo::Panel {
            short_name: "root".to_string(),
            long_name: "root".to_string(),
            summary: None,
            slots: vec![EntryInfo::Summary { color: 7 }],
        },
    };
    src.push_result(Work::FetchInfo(Data::Ready(init)));
    let got = src.get_info().unwrap();
    assert_eq!(got.interval, Interval::new(0, 500));
    assert_eq!(got.info.nodes(), 1);

    let meta = ItemMeta {
        item_uid: 9,
        title: "task".to_string(),
        fields: vec![Field { name: "size".to_string(), value: FieldValue::U64(4) }],
    };
    let t = tile(0, 10);
    src.fetch_slot_meta_tile(entry.clone(), t);
    src.push_result(Work::FetchSlotMetaTile(entry.clone(), t, Data::Ready(SlotMetaTile { entry_id: entry.clone(), tile_id: t, items: vec![vec![meta]] })));
    let metas = src.get_slot_meta_tile(&entry);
    assert_eq!(metas.len(), 1);
    assert_eq!(metas[0].items[0][0].title, "task");
    assert_eq!(metas[0].items[0][0].item_uid, 9);
}

#[test]
fn requests_map_to_endpoints_and_bodies() {
    let e = EntryID::root().child(3);
    assert_eq!(endpoint(FetchKind::Tiles), "/tiles");
    assert_eq!(endpoint(FetchKind::SlotMetaTile), "/slot_meta_tile");
    assert_eq!(endpoint(FetchKind::Info), "/info");
    match request_body(&Work::FetchTiles(e.clone(), Interval::new(1, 2), Data::Requested)) {
        RequestBody::Tiles(b) => {
            assert!(b.entry_id == e);
            assert_eq!(b.interval, Interval::new(1, 2));
        }
        _ => panic!("expected a tiles body"),
    }
    assert!(matches!(request_body(&Work::FetchInfo(Data::Requested)), RequestBody::Empty));
}

struct FixedSource {
    calls: u64,
}

impl DataSource for FixedSource {
    fn init(&mut self) -> Initializer {
        Initializer {
            interval: Interval::new(0, 100),
            info: EntryInfo::Panel { short_name: "r".to_string(), long_name: "r".to_string(), summary: None, slots: vec![] },
        }
    }
    fn interval(&mut self) -> Interval {
        Interval::new(0, 100)
    }
    fn fetch_tiles(&mut self, _entry_id: &EntryID, request_interval: Interval) -> Vec<TileID> {
        self.calls += 1;
        vec![TileID(request_interval), tile(0, 10)]
    }
    fn fetch_summary_tile(&mut self, entry_id: &EntryID, tile_id: TileID) -> SummaryTile {
        summary(entry_id, tile_id, vec![UtilPoint::new(tile_id.0.start, 0)])
    }
    fn fetch_slot_tile(&mut self, entry_id: &EntryID, tile_id: TileID) -> SlotTile {
        SlotTile {
            entry_id: entry_id.clone(),
            tile_id,
            items: vec![vec![Item { interval: tile_id.0, color: 1, item_uid: 2 }]],
        }
    }
    fn fetch_slot_meta_tile(&mut self, entry_id: &EntryID, tile_id: TileID) -> SlotMetaTile {
        SlotMetaTile { entry_id: entry_id.clone(), tile_id, items: vec![] }
    }
}

#[test]
fn wrapper_serves_synchronous_backend() {
    let mut w = DeferredDataSourceWrapper::new(FixedSource { calls: 0 });
    let e = EntryID::root().child(1);
    assert!(w.get_info().is_none());
    w.fetch_info();
    assert_eq!(w.get_info().unwrap().interval, Interval::new(0, 100));
    w.fetch_tiles(e.clone(), Interval::new(20, 30));
    w.fetch_tiles(e.clone(), Interval::new(30, 40));
    assert_eq!(w.get_tiles(&e), vec![tile(20, 30), tile(0, 10), tile(30, 40)]);
    w.fetch_summary_tile(e.clone(), tile(20, 30));
    w.fetch_summary_tile(e.clone(), tile(20, 30));
    let s = w.get_summary_tiles(&e);
    assert_eq!(s.len(), 1);
    assert_eq!(s[0].utilization, vec![UtilPoint::new(20, 0)]);
    w.fetch_slot_tile(e.clone(), tile(0, 10));
    assert_eq!(w.get_slot_tile(&e)[0].items[0][0].item_uid, 2);
    w.fetch_interval();
    assert_eq!(w.get_interval(), Some(Interval::new(0, 100)));
}

#[test]
fn invalidate_drops_tiles_but_keeps_listing() {
    let mut src = QueueDataSource::new();
    let e = EntryID::root().child(4);
    let f = EntryID::root().child(5);
    src.push_result(Work::FetchTiles(e.clone(), Interval::new(0, 10), Data::Ready(vec![tile(0, 10)])));
    src.push_result(Work::FetchSummaryTile(e.clone(), tile(0, 10), Data::Ready(summary(&e, tile(0, 10), vec![]))));
    src.push_result(Work::FetchSummaryTile(f.clone(), tile(0, 10), Data::Ready(summary(&f, tile(0, 10), vec![]))));
    src.process_queue();
    src.invalidate(&e);
    assert!(src.get_summary_tiles(&e).is_empty());
    assert_eq!(src.get_summary_tiles(&f).len(), 1);
    assert_eq!(src.get_tiles(&e), vec![tile(0, 10)]);
}
