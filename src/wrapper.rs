use vstd::prelude::*;

use crate::data::{DataSource, Initializer, SlotMetaTile, SlotTile, SummaryTile};
use crate::deferred_data::{DeferredDataSource, SourceState};
use crate::entry_id::{EntryID, TileID};
use crate::interval::Interval;
use crate::ledger::FingerprintView;
use crate::tile_list::{listing, merge_tiles, TileListCache};
use crate::tile_store::{put_value, values_for, TileStore};

verus! {

/// Serves the deferred protocol from a backend that answers at once: each
/// `fetch_*` asks the backend and caches the answer, each `get_*` reads
/// the cache.
pub struct DeferredDataSourceWrapper<D: DataSource> {
    data_source: D,
    info: Option<Initializer>,
    interval: Option<Interval>,
    tiles: TileListCache,
    summary_tiles: TileStore<SummaryTile>,
    slot_tiles: TileStore<SlotTile>,
    slot_meta_tiles: TileStore<SlotMetaTile>,
}

impl<D: DataSource> View for DeferredDataSourceWrapper<D> {
    type V = SourceState;

    /// The caches; a synchronous backend leaves ledger and queue empty.
    closed spec fn view(&self) -> SourceState {
        SourceState {
            info: self.info,
            interval: self.interval,
            tiles: self.tiles@,
            summary_tiles: self.summary_tiles.model(),
            slot_tiles: self.slot_tiles.model(),
            slot_meta_tiles: self.slot_meta_tiles.model(),
            ledger: Set::empty(),
            scope: None,
            queue: Seq::empty(),
        }
    }
}

impl<D: DataSource> DeferredDataSourceWrapper<D> {
    pub closed spec fn caches_wf(&self) -> bool {
        &&& self.tiles.wf()
        &&& self.summary_tiles.wf()
        &&& self.slot_tiles.wf()
        &&& self.slot_meta_tiles.wf()
    }

    /// The backend being served.
    pub closed spec fn backend(&self) -> D {
        self.data_source
    }

    pub fn new(data_source: D) -> (r: Self)
        ensures
            r.wf(),
            r.backend() == data_source,
            r@.info is None,
            r@.interval is None,
            r@.tiles == Map::<Seq<u64>, Seq<TileID>>::empty(),
            r@.summary_tiles.len() == 0,
            r@.slot_tiles.len() == 0,
            r@.slot_meta_tiles.len() == 0,
            r@.ledger == Set::<FingerprintView>::empty(),
            r@.queue.len() == 0,
    {
        DeferredDataSourceWrapper {
            data_source,
            info: None,
            interval: None,
            tiles: TileListCache::new(),
            summary_tiles: TileStore::new(),
            slot_tiles: TileStore::new(),
            slot_meta_tiles: TileStore::new(),
        }
    }
}

impl<D: DataSource> DeferredDataSource for DeferredDataSourceWrapper<D> {
    open spec fn wf(&self) -> bool {
        self.caches_wf()
    }

    fn fetch_info(&mut self)
        ensures
            final(self)@.info is Some,
            final(self)@ == (SourceState { info: final(self)@.info, ..old(self)@ }),
    {
        let i = self.data_source.init();
        self.info = Some(i);
    }

    fn get_info(&mut self) -> (r: Option<&Initializer>)
        ensures
            final(self)@ == old(self)@,
            r is Some == final(self)@.info is Some,
            r matches Some(i) ==> *i == final(self)@.info->0,
    {
        self.info.as_ref()
    }

    fn fetch_interval(&mut self)
        ensures
            final(self)@.interval is Some,
            final(self)@ == (SourceState { interval: final(self)@.interval, ..old(self)@ }),
    {
        let i = self.data_source.interval();
        self.interval = Some(i);
    }

    fn get_interval(&mut self) -> (r: Option<Interval>)
        ensures
            final(self)@ == old(self)@,
            r == final(self)@.interval,
    {
        self.interval
    }

    fn fetch_tiles(&mut self, entry_id: EntryID, request_interval: Interval)
        ensures
            final(self)@ == (SourceState { tiles: final(self)@.tiles, ..old(self)@ }),
            final(self)@.tiles == old(self)@.tiles.insert(entry_id@, final(self)@.tiles[entry_id@]),
            exists|ts: Seq<TileID>|
                #[trigger] merge_tiles(listing(old(self)@.tiles, entry_id@), ts) == final(self)@.tiles[entry_id@],
    {
        let ts = self.data_source.fetch_tiles(&entry_id, request_interval);
        self.tiles.merge(&entry_id, &ts);
        assert(self@ == (SourceState {
            tiles: old(self)@.tiles.insert(entry_id@, merge_tiles(listing(old(self)@.tiles, entry_id@), ts@)),
            ..old(self)@
        }));
    }

    fn get_tiles(&mut self, entry_id: &EntryID) -> (r: Vec<TileID>)
        ensures
            final(self)@ == old(self)@,
            r@ == listing(final(self)@.tiles, entry_id@),
    {
        self.tiles.get(entry_id)
    }

    fn fetch_summary_tile(&mut self, entry_id: EntryID, tile_id: TileID)
        ensures
            final(self)@ == (SourceState { summary_tiles: final(self)@.summary_tiles, ..old(self)@ }),
            exists|v: <SummaryTile as View>::V|
                #[trigger] put_value(old(self)@.summary_tiles, entry_id@, tile_id, v) == final(self)@.summary_tiles,
    {
        let v = self.data_source.fetch_summary_tile(&entry_id, tile_id);
        let ghost gv = v@;
        self.summary_tiles.put(entry_id, tile_id, v);
        assert(self@ == (SourceState {
            summary_tiles: put_value(old(self)@.summary_tiles, entry_id@, tile_id, gv),
            ..old(self)@
        }));
    }

    fn get_summary_tiles(&mut self, entry_id: &EntryID) -> (r: Vec<SummaryTile>)
        ensures
            final(self)@ == old(self)@,
            r@.map_values(|x: SummaryTile| x@) == values_for(final(self)@.summary_tiles, entry_id@),
    {
        self.summary_tiles.get_all(entry_id)
    }

    fn fetch_slot_tile(&mut self, entry_id: EntryID, tile_id: TileID)
        ensures
            final(self)@ == (SourceState { slot_tiles: final(self)@.slot_tiles, ..old(self)@ }),
            exists|v: <SlotTile as View>::V|
                #[trigger] put_value(old(self)@.slot_tiles, entry_id@, tile_id, v) == final(self)@.slot_tiles,
    {
        let v = self.data_source.fetch_slot_tile(&entry_id, tile_id);
        let ghost gv = v@;
        self.slot_tiles.put(entry_id, tile_id, v);
        assert(self@ == (SourceState {
            slot_tiles: put_value(old(self)@.slot_tiles, entry_id@, tile_id, gv),
            ..old(self)@
        }));
    }

    fn get_slot_tile(&mut self, entry_id: &EntryID) -> (r: Vec<SlotTile>)
        ensures
            final(self)@ == old(self)@,
            r@.map_values(|x: SlotTile| x@) == values_for(final(self)@.slot_tiles, entry_id@),
    {
        self.slot_tiles.get_all(entry_id)
    }

    fn fetch_slot_meta_tile(&mut self, entry_id: EntryID, tile_id: TileID)
        ensures
            final(self)@ == (SourceState { slot_meta_tiles: final(self)@.slot_meta_tiles, ..old(self)@ }),
            exists|v: <SlotMetaTile as View>::V|
                #[trigger] put_value(old(self)@.slot_meta_tiles, entry_id@, tile_id, v) == final(self)@.slot_meta_tiles,
    {
        let v = self.data_source.fetch_slot_meta_tile(&entry_id, tile_id);
        let ghost gv = v@;
        self.slot_meta_tiles.put(entry_id, tile_id, v);
        assert(self@ == (SourceState {
            slot_meta_tiles: put_value(old(self)@.slot_meta_tiles, entry_id@, tile_id, gv),
            ..old(self)@
        }));
    }

    fn get_slot_meta_tile(&mut self, entry_id: &EntryID) -> (r: Vec<SlotMetaTile>)
        ensures
            final(self)@ == old(self)@,
            r@.map_values(|x: SlotMetaTile| x@) == values_for(final(self)@.slot_meta_tiles, entry_id@),
    {
        self.slot_meta_tiles.get_all(entry_id)
    }
}

} // verus!
