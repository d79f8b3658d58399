use legion_prof_viewer::data::{EntryInfo, Initializer, ItemMeta, SlotMetaTile, SummaryTile, UtilPoint};
use legion_prof_viewer::deferred_data::QueueDataSource;
use legion_prof_viewer::entry_id::{EntryID, TileID};
use legion_prof_viewer::interval::Interval;
use legion_prof_viewer::queue::{Data, Work};
use legion_prof_viewer::search::{search_words, SelectedItem, SelectedState};
use legion_prof_viewer::timeline::{
    find_meta_tile, get_entries_with_level, get_filtered_entries, keep_overlapping_summaries, Config, Slot, Summary,
};
use legion_prof_viewer::zoom::{edit_start, edit_stop, IntervalEditError, ZoomState};

fn tile(start: i64, stop: i64) -> TileID {
    TileID(Interval::new(start, stop))
}

fn answer_all(src: &mut QueueDataSource, entry: &EntryID) {
    for w in src.take_requests() {
        match w {
            Work::FetchSummaryTile(e, t, Data::Requested) => src.push_result(Work::FetchSummaryTile(
                e.clone(),
                t,
                Data::Ready(SummaryTile { entry_id: e, tile_id: t, utilization: vec![UtilPoint::new(t.0.start, 1)] }),
            )),
            Work::FetchTiles(e, i, Data::Requested) => {
                assert!(e == *entry);
                let _ = i;
            }
            _ => {}
        }
    }
}

#[test]
fn summary_keeps_only_tiles_of_the_view() {
    let entry = EntryID::root().child(0).child(1);
    let mut src = QueueDataSource::new();
    let mut summary = Summary::new(&EntryInfo::Summary { color: 3 }, entry.clone());
    assert_eq!(summary.color, 3);
    let config = Interval::new(0, 1000);

    summary.update(&mut src, config, Interval::new(0, 100));
    assert!(summary.tiles.is_empty());
    let requests = src.take_requests();
    assert_eq!(requests.len(), 1);
    src.push_result(Work::FetchTiles(
        entry.clone(),
        Interval::new(0, 100),
        Data::Ready(vec![tile(0, 50), tile(50, 99), tile(200, 300)]),
    ));

    summary.update(&mut src, config, Interval::new(0, 100));
    let requests = src.take_requests();
    assert_eq!(requests.len(), 2);
    for w in requests {
        if let Work::FetchSummaryTile(e, t, _) = w {
            src.push_result(Work::FetchSummaryTile(
                e.clone(),
                t,
                Data::Ready(SummaryTile { entry_id: e, tile_id: t, utilization: vec![UtilPoint::new(t.0.start, 1)] }),
            ));
        }
    }
    summary.update(&mut src, config, Interval::new(0, 100));
    assert_eq!(summary.tiles.len(), 2);
    assert_eq!(summary.utilization(), vec![UtilPoint::new(0, 1), UtilPoint::new(50, 1)]);

    summary.update(&mut src, config, Interval::new(200, 400));
    assert!(summary.tiles.is_empty());
    answer_all(&mut src, &entry);
    summary.update(&mut src, config, Interval::new(200, 400));
    assert_eq!(summary.tiles.len(), 1);
    assert_eq!(summary.tiles[0].tile_id, tile(200, 300));
    assert_eq!(summary.utilization(), vec![UtilPoint::new(200, 1)]);
    assert_eq!(summary.last_view_interval, Some(Interval::new(200, 400)));
}

#[test]
fn slot_rows_and_meta_tiles() {
    let entry = EntryID::root().child(0).child(0).child(2);
    let info = EntryInfo::Slot { short_name: "cpu".to_string(), long_name: "cpu 2".to_string(), max_rows: 5 };
    let mut slot = Slot::new(&info, entry.clone());
    assert_eq!(slot.short_name, "cpu");
    assert_eq!(slot.long_name, "cpu 2");
    assert!(slot.expanded);
    assert_eq!(slot.rows(), 5);
    slot.toggle_expanded();
    assert_eq!(slot.rows(), 2);
    slot.toggle_expanded();
    slot.max_rows = 1;
    assert_eq!(slot.rows(), 2);

    let mut src = QueueDataSource::new();
    let t = tile(0, 10);
    assert!(slot.fetch_meta_tile(t, &mut src).is_none());
    assert_eq!(src.take_requests().len(), 1);
    let meta = ItemMeta { item_uid: 4, title: "copy".to_string(), fields: vec![] };
    src.push_result(Work::FetchSlotMetaTile(
        entry.clone(),
        t,
        Data::Ready(SlotMetaTile { entry_id: entry.clone(), tile_id: t, items: vec![vec![meta]] }),
    ));
    let got = slot.fetch_meta_tile(t, &mut src).unwrap();
    assert_eq!(got.tile_id, t);
    assert_eq!(got.items[0][0].title, "copy");
    assert_eq!(slot.tile_metas.len(), 1);
    assert!(slot.fetch_meta_tile(t, &mut src).is_some());
    assert_eq!(slot.tile_metas.len(), 1);
    slot.clear();
    assert!(slot.tile_metas.is_empty());
    assert!(slot.tiles.is_empty());
}

#[test]
fn slot_update_filters_by_view() {
    let entry = EntryID::root().child(0).child(0).child(0);
    let info = EntryInfo::Slot { short_name: "s".to_string(), long_name: "s".to_string(), max_rows: 1 };
    let mut slot = Slot::new(&info, entry.clone());
    let mut src = QueueDataSource::new();
    slot.update(&mut src, Interval::new(0, 50), Interval::new(0, 100));
    let requests = src.take_requests();
    assert_eq!(requests.len(), 1);
    match &requests[0] {
        Work::FetchTiles(_, i, _) => assert_eq!(*i, Interval::new(0, 50)),
        _ => panic!("expected a tile listing request"),
    }
}

#[test]
fn config_from_initializer_shows_all_nodes() {
    let init = Initializer {
        interval: Interval::new(5, 95),
        info: EntryInfo::Panel {
            short_name: "root".to_string(),
            long_name: "root".to_string(),
            summary: None,
            slots: vec![EntryInfo::Summary { color: 1 }, EntryInfo::Summary { color: 2 }],
        },
    };
    let config = Config::from_initializer(&init, ());
    assert_eq!(config.min_node, 0);
    assert_eq!(config.max_node, 2);
    assert_eq!(config.interval, Interval::new(5, 95));
}

#[test]
fn node_visibility() {
    let config = Config { min_node: 1, max_node: 2, interval: Interval::new(0, 10), data_source: () };
    assert!(!config.is_slot_visible(&EntryID::root().child(0)));
    assert!(config.is_slot_visible(&EntryID::root().child(1)));
    assert!(config.is_slot_visible(&EntryID::root().child(2)));
    assert!(!config.is_slot_visible(&EntryID::root().child(3)));
    assert!(config.is_slot_visible(&EntryID::root().child(3).child(0)));
}

#[test]
fn entries_grouped_by_level() {
    let a = EntryID::from_path(vec![0, 0]);
    let b = EntryID::from_path(vec![0, 1]);
    let c = EntryID::from_path(vec![1, 0]);
    let d = EntryID::from_path(vec![0, 2]);
    let items = vec![&a, &b, &c, &d];
    let groups = get_entries_with_level(&items, 0);
    assert_eq!(groups.len(), 3);
    assert_eq!(groups[0].len(), 2);
    assert!(*groups[1][0] == c);
    assert!(*groups[2][0] == d);
    let by_second = get_entries_with_level(&items, 1);
    assert_eq!(by_second.len(), 4);
    let empty: Vec<&EntryID> = vec![];
    let none = get_entries_with_level(&empty, 0);
    assert_eq!(none.len(), 1);
    assert!(none[0].is_empty());

    let found = get_filtered_entries(&groups, 0, 1);
    assert_eq!(found.len(), 1);
    assert!(*found[0] == c);
    let first = get_filtered_entries(&groups, 0, 0);
    assert_eq!(first.len(), 2);
    assert!(get_filtered_entries(&groups, 0, 7).is_empty());
}

#[test]
fn zoom_history() {
    let mut z = ZoomState::new();
    let mut view = Interval::new(0, 100);
    z.zoom(&mut view, Interval::new(0, 100));
    assert!(z.levels.is_empty());
    z.zoom(&mut view, Interval::new(10, 20));
    z.zoom(&mut view, Interval::new(12, 14));
    assert_eq!(z.levels, vec![Interval::new(10, 20), Interval::new(12, 14)]);
    assert_eq!(z.index, 1);
    z.undo(&mut view);
    assert_eq!(view, Interval::new(10, 20));
    assert_eq!(z.index, 0);
    z.undo(&mut view);
    assert_eq!(view, Interval::new(10, 20));
    z.redo(&mut view);
    assert_eq!(view, Interval::new(12, 14));
    z.redo(&mut view);
    assert_eq!(z.index, 1);
    z.undo(&mut view);
    z.zoom(&mut view, Interval::new(15, 16));
    assert_eq!(z.levels, vec![Interval::new(10, 20), Interval::new(15, 16)]);
    assert_eq!(z.zoom_count, 0);
}

fn item(entry: &EntryID) -> SelectedItem {
    SelectedItem {
        entry_id: entry.clone(),
        tile_id: tile(0, 1),
        item_uid: 1,
        meta: ItemMeta { item_uid: 1, title: "t".to_string(), fields: vec![] },
        row: 0,
        index: 0,
    }
}

#[test]
fn highlighting_marks_ancestors() {
    let mut s = SelectedState::new();
    let e = EntryID::from_path(vec![1, 2, 3]);
    s.add_highlighted_item(item(&e));
    s.add_highlighted_item(item(&EntryID::from_path(vec![1, 5])));
    assert_eq!(s.highlighted_items.len(), 2);
    assert_eq!(s.entries_highlighted.len(), 4);
    assert!(s.entries_highlighted.iter().any(|x| *x == EntryID::from_path(vec![1])));
    assert!(s.entries_highlighted.iter().any(|x| *x == EntryID::from_path(vec![1, 2])));
    assert!(s.entries_highlighted.iter().any(|x| *x == e));
    assert!(s.entries_highlighted.iter().any(|x| *x == EntryID::from_path(vec![1, 5])));
    s.num_matches = 3;
    s.clear_highlighted_items();
    assert!(s.highlighted_items.is_empty());
    assert!(s.entries_highlighted.is_empty());
    assert_eq!(s.num_matches, 0);
}

#[test]
fn search_words_split_on_spaces() {
    let words = search_words(&"  copy  task ".to_string());
    assert_eq!(words, vec![vec!['c', 'o', 'p', 'y'], vec!['t', 'a', 's', 'k']]);
    assert!(search_words(&"   ".to_string()).is_empty());
}

#[test]
fn search_counts_every_word() {
    let mut s = SelectedState::new();
    s.search = "Copy TASK".to_string();
    assert!(s.search("a copy of task 7"));
    assert!(!s.search("a copy of nothing"));
    assert!(s.search("TASK COPY"));
    s.clear_search();
    assert!(s.search.is_empty());
    assert!(s.search("anything"));
}

#[test]
fn editing_view_bounds() {
    let view = Interval::new(10, 50);
    let total = Interval::new(0, 40);
    assert_eq!(edit_start(view, total, 20), Ok(Interval::new(20, 50)));
    assert_eq!(edit_start(view, total, 60), Err(IntervalEditError::StartAfterStop));
    assert_eq!(edit_start(view, total, 45), Err(IntervalEditError::StartAfterTrace));
    assert_eq!(edit_stop(view, 5), Err(IntervalEditError::StopBeforeStart));
    assert_eq!(edit_stop(view, 10), Ok(Interval::new(10, 10)));
    assert_eq!(IntervalEditError::StopBeforeStart.message(), "Stop must be after start");
    assert_eq!(IntervalEditError::StartAfterTrace.message(), "Start must be before end of trace");
}

#[test]
fn node_range_selection_stays_ordered() {
    let mut config = Config { min_node: 0, max_node: 3, interval: Interval::new(0, 1), data_source: () };
    config.select_first_node(5);
    assert_eq!((config.min_node, config.max_node), (5, 5));
    config.select_last_node(2);
    assert_eq!((config.min_node, config.max_node), (2, 2));
    config.select_last_node(4);
    assert_eq!((config.min_node, config.max_node), (2, 4));
}

#[test]
fn search_lowercases_the_text() {
    let mut s = SelectedState::new();
    s.search = "café".to_string();
    assert!(s.search("CAFÉ"));
    assert!(!s.search("CAFE"));
}

#[test]
fn disjoint_config_and_view_request_no_tiles() {
    let entry = EntryID::root().child(0).child(0).child(1);
    let info = EntryInfo::Slot { short_name: "s".to_string(), long_name: "s".to_string(), max_rows: 1 };
    let mut slot = Slot::new(&info, entry.clone());
    let mut src = QueueDataSource::new();
    src.push_result(Work::FetchTiles(entry.clone(), Interval::new(0, 100), Data::Ready(vec![tile(10, 20)])));
    slot.update(&mut src, Interval::new(0, 10), Interval::new(20, 30));
    let requests = src.take_requests();
    assert_eq!(requests.len(), 1);
    match &requests[0] {
        Work::FetchTiles(_, i, _) => assert_eq!(*i, Interval::new(20, 10)),
        _ => panic!("expected only the listing request"),
    }
    assert!(slot.tiles.is_empty());
    assert!(!tile(10, 20).0.overlaps(Interval::new(20, 10)));
}

#[test]
fn repeated_inflate_sends_nothing() {
    let entry = EntryID::root().child(1);
    let mut src = QueueDataSource::new();
    src.push_result(Work::FetchTiles(entry.clone(), Interval::new(0, 100), Data::Ready(vec![tile(0, 10), tile(10, 20)])));
    let mut summary = Summary::new(&EntryInfo::Summary { color: 0 }, entry.clone());
    summary.inflate(&mut src, Interval::new(0, 100));
    assert_eq!(src.take_requests().len(), 3);
    summary.inflate(&mut src, Interval::new(0, 100));
    assert!(src.take_requests().is_empty());
}

#[test]
fn keeping_and_finding_arrived_tiles() {
    let e = EntryID::root().child(2);
    let mk = |t: TileID, x: i64| SummaryTile { entry_id: e.clone(), tile_id: t, utilization: vec![UtilPoint::new(x, 0)] };
    let kept = keep_overlapping_summaries(vec![mk(tile(0, 5), 1), mk(tile(50, 60), 2), mk(tile(8, 12), 3)], Interval::new(4, 10));
    assert_eq!(kept.len(), 2);
    assert_eq!(kept[0].utilization[0].time, 1);
    assert_eq!(kept[1].utilization[0].time, 3);
    let meta = |t: TileID, uid: u64| SlotMetaTile {
        entry_id: e.clone(),
        tile_id: t,
        items: vec![vec![ItemMeta { item_uid: uid, title: String::new(), fields: vec![] }]],
    };
    let found = find_meta_tile(vec![meta(tile(0, 1), 1), meta(tile(2, 3), 2), meta(tile(0, 1), 3)], tile(0, 1)).unwrap();
    assert_eq!(found.items[0][0].item_uid, 3);
    assert!(find_meta_tile(vec![meta(tile(0, 1), 1)], tile(5, 6)).is_none());
}
