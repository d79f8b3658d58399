use vstd::prelude::*;

use crate::data::{views, CacheValue, DataSource, EntryInfo, Initializer, SlotMetaTile, SlotTile, SummaryTile, UtilPoint};
use crate::deferred_data::{
    all_requested, asked, drained, invalidated, lemma_drained_idle, scoped, tile_asks, DeferredDataSource,
    QueueDataSource, SourceState,
};
use crate::entry_id::{EntryID, TileID};
use crate::interval::Interval;
use crate::ledger::{FetchKind, Subject};
use crate::tile_list::listing;
use crate::tile_store::values_for;

verus! {

/// The entries of `s` whose tile overlaps `query`, in order.
pub open spec fn keep_overlapping<X>(s: Seq<(Seq<u64>, TileID, X)>, query: Interval) -> Seq<(Seq<u64>, TileID, X)>
    decreases s.len(),
{
    if s.len() == 0 {
        Seq::empty()
    } else if s.last().1.0.overlaps_spec(query) {
        keep_overlapping(s.drop_last(), query).push(s.last())
    } else {
        keep_overlapping(s.drop_last(), query)
    }
}

/// The last entry of `s` for tile `t`, if any.
pub open spec fn last_for_tile<X>(s: Seq<(Seq<u64>, TileID, X)>, t: TileID) -> Option<(Seq<u64>, TileID, X)>
    decreases s.len(),
{
    if s.len() == 0 {
        None
    } else if s.last().1 == t {
        Some(s.last())
    } else {
        last_for_tile(s.drop_last(), t)
    }
}

proof fn lemma_last_for_tile_matches<X>(s: Seq<(Seq<u64>, TileID, X)>, t: TileID)
    ensures
        last_for_tile(s, t) matches Some(v) ==> v.1 == t,
    decreases s.len(),
{
    if s.len() > 0 {
        lemma_last_for_tile_matches(s.drop_last(), t);
    }
}

/// The source state an update starts from: when the view changed, the
/// ledger is scoped to the new view and the entry's cached tiles dropped.
pub open spec fn refreshed(st: SourceState, changed: bool, e: Seq<u64>, view: Interval) -> SourceState {
    if changed {
        invalidated(scoped(st, view), e)
    } else {
        st
    }
}

/// The summary tiles of `arrived` that overlap `query`, in order.
pub fn keep_overlapping_summaries(arrived: Vec<SummaryTile>, query: Interval) -> (r: Vec<SummaryTile>)
    ensures
        views(r@) == keep_overlapping(views(arrived@), query),
{
    let mut arrived = arrived;
    let ghost all = arrived@;
    let ghost taken: Seq<SummaryTile> = Seq::empty();
    let mut kept: Vec<SummaryTile> = Vec::new();
    assert(views(taken) =~= Seq::<<SummaryTile as View>::V>::empty());
    while arrived.len() > 0
        invariant
            taken + arrived@ == all,
            views(kept@) == keep_overlapping(views(taken), query),
        decreases arrived.len(),
    {
        let t = arrived.remove(0);
        let ghost gt = t@;
        proof {
            assert(taken.push(t) + arrived@ =~= all);
            assert(views(taken.push(t)).drop_last() =~= views(taken));
            assert(views(taken.push(t)).last() == gt);
        }
        let ghost prev = kept@;
        if t.tile_id.0.overlaps(query) {
            kept.push(t);
            assert(views(kept@) =~= views(prev).push(gt));
        }
        proof {
            taken = taken.push(t);
        }
    }
    assert(taken =~= all);
    kept
}

/// The slot tiles of `arrived` that overlap `query`, in order.
pub fn keep_overlapping_slots(arrived: Vec<SlotTile>, query: Interval) -> (r: Vec<SlotTile>)
    ensures
        views(r@) == keep_overlapping(views(arrived@), query),
{
    let mut arrived = arrived;
    let ghost all = arrived@;
    let ghost taken: Seq<SlotTile> = Seq::empty();
    let mut kept: Vec<SlotTile> = Vec::new();
    assert(views(taken) =~= Seq::<<SlotTile as View>::V>::empty());
    while arrived.len() > 0
        invariant
            taken + arrived@ == all,
            views(kept@) == keep_overlapping(views(taken), query),
        decreases arrived.len(),
    {
        let t = arrived.remove(0);
        let ghost gt = t@;
        proof {
            assert(taken.push(t) + arrived@ =~= all);
            assert(views(taken.push(t)).drop_last() =~= views(taken));
            assert(views(taken.push(t)).last() == gt);
        }
        let ghost prev = kept@;
        if t.tile_id.0.overlaps(query) {
            kept.push(t);
            assert(views(kept@) =~= views(prev).push(gt));
        }
        proof {
            taken = taken.push(t);
        }
    }
    assert(taken =~= all);
    kept
}

/// The last metadata tile of `arrived` for `tile_id`, if any.
pub fn find_meta_tile(arrived: Vec<SlotMetaTile>, tile_id: TileID) -> (r: Option<SlotMetaTile>)
    ensures
        match r {
            Some(m) => last_for_tile(views(arrived@), tile_id) == Some(m@),
            None => last_for_tile(views(arrived@), tile_id) is None,
        },
{
    let mut arrived = arrived;
    let ghost all = arrived@;
    let ghost taken: Seq<SlotMetaTile> = Seq::empty();
    let mut found: Option<SlotMetaTile> = None;
    assert(views(taken) =~= Seq::<<SlotMetaTile as View>::V>::empty());
    while arrived.len() > 0
        invariant
            taken + arrived@ == all,
            match found {
                Some(m) => last_for_tile(views(taken), tile_id) == Some(m@),
                None => last_for_tile(views(taken), tile_id) is None,
            },
        decreases arrived.len(),
    {
        let m = arrived.remove(0);
        let ghost gm = m@;
        proof {
            assert(taken.push(m) + arrived@ =~= all);
            assert(views(taken.push(m)).drop_last() =~= views(taken));
            assert(views(taken.push(m)).last() == gm);
        }
        if m.tile_id == tile_id {
            found = Some(m);
        }
        proof {
            taken = taken.push(m);
        }
    }
    assert(taken =~= all);
    found
}

/// The utilization samples of `tiles`, concatenated in order.
pub open spec fn samples_of(tiles: Seq<SummaryTile>) -> Seq<UtilPoint>
    decreases tiles.len(),
{
    if tiles.len() == 0 {
        Seq::empty()
    } else {
        samples_of(tiles.drop_last()) + tiles.last().utilization@
    }
}

/// The utilization plot of one panel: the summary tiles visible in the
/// current view.
#[derive(Debug)]
pub struct Summary {
    pub entry_id: EntryID,
    pub color: u32,
    pub tiles: Vec<SummaryTile>,
    pub last_view_interval: Option<Interval>,
}

impl Summary {
    /// A summary for `entry_id`, described by `info`.
    pub fn new(info: &EntryInfo, entry_id: EntryID) -> (r: Summary)
        requires
            info is Summary,
        ensures
            r.entry_id@ == entry_id@,
            r.color == info->color,
            r.tiles@.len() == 0,
            r.last_view_interval is None,
    {
        let color = match info {
            EntryInfo::Summary { color } => *color,
            _ => 0,
        };
        Summary { entry_id, color, tiles: Vec::new(), last_view_interval: None }
    }

    pub fn clear(&mut self)
        ensures
            final(self).tiles@.len() == 0,
            final(self).entry_id == old(self).entry_id,
            final(self).color == old(self).color,
            final(self).last_view_interval == old(self).last_view_interval,
    {
        self.tiles.clear();
    }

    /// Asks the source for the listing of this entry over `query` and for
    /// each listed summary tile overlapping `query`, then keeps the arrived
    /// summary tiles of this entry that overlap `query`, in order.
    pub fn inflate(&mut self, source: &mut QueueDataSource, query: Interval)
        requires
            old(source).wf(),
        ensures
            final(source).wf(),
            all_requested(final(source)@.queue),
            asked(
                drained(old(source)@),
                final(source)@,
                tile_asks(
                    old(self).entry_id@,
                    query,
                    FetchKind::SummaryTile,
                    listing(drained(old(source)@).tiles, old(self).entry_id@),
                ),
            ),
            views(final(self).tiles@) == keep_overlapping(
                values_for(final(source)@.summary_tiles, old(self).entry_id@),
                query,
            ),
            final(self).entry_id == old(self).entry_id,
            final(self).color == old(self).color,
            final(self).last_view_interval == old(self).last_view_interval,
    {
        source.request_tiles(&self.entry_id, query, FetchKind::SummaryTile);
        proof {
            lemma_drained_idle(source@);
        }
        let arrived = source.get_summary_tiles(&self.entry_id);
        assert(views(arrived@) =~= arrived@.map_values(|x: SummaryTile| x@));
        self.tiles = keep_overlapping_summaries(arrived, query);
    }

    /// Brings the plot up to date for the view. When the view changed, the
    /// kept tiles are dropped, the source's ledger is scoped to the new view
    /// and this entry's cached tiles are invalidated; then the entry is
    /// inflated over the visible part of `config_interval`.
    pub fn update(&mut self, source: &mut QueueDataSource, config_interval: Interval, view_interval: Interval)
        requires
            old(source).wf(),
        ensures
            final(source).wf(),
            final(self).entry_id == old(self).entry_id,
            final(self).last_view_interval == Some(view_interval),
            asked(
                drained(
                    refreshed(
                        old(source)@,
                        old(self).last_view_interval != Some(view_interval),
                        old(self).entry_id@,
                        view_interval,
                    ),
                ),
                final(source)@,
                tile_asks(
                    old(self).entry_id@,
                    config_interval.intersection_spec(view_interval),
                    FetchKind::SummaryTile,
                    listing(
                        drained(
                            refreshed(
                                old(source)@,
                                old(self).last_view_interval != Some(view_interval),
                                old(self).entry_id@,
                                view_interval,
                            ),
                        ).tiles,
                        old(self).entry_id@,
                    ),
                ),
            ),
            views(final(self).tiles@) == keep_overlapping(
                values_for(final(source)@.summary_tiles, old(self).entry_id@),
                config_interval.intersection_spec(view_interval),
            ),
    {
        if self.last_view_interval != Some(view_interval) {
            self.clear();
            source.set_view_interval(view_interval);
            source.invalidate(&self.entry_id);
        }
        self.last_view_interval = Some(view_interval);
        let query = config_interval.intersection(view_interval);
        self.inflate(source, query);
    }

    /// The samples of the kept tiles, in order.
    pub fn utilization(&self) -> (r: Vec<UtilPoint>)
        ensures
            r@ == samples_of(self.tiles@),
    {
        let mut r: Vec<UtilPoint> = Vec::new();
        let mut i: usize = 0;
        while i < self.tiles.len()
            invariant
                i <= self.tiles.len(),
                r@ == samples_of(self.tiles@.subrange(0, i as int)),
            decreases self.tiles.len() - i,
        {
            let ghost prev = r@;
            let pts = &self.tiles[i].utilization;
            let mut j: usize = 0;
            while j < pts.len()
                invariant
                    j <= pts.len(),
                    r@ == prev + pts@.subrange(0, j as int),
                decreases pts.len() - j,
            {
                r.push(pts[j]);
                j = j + 1;
                assert(r@ =~= prev + pts@.subrange(0, j as int));
            }
            assert(self.tiles@.subrange(0, i + 1).drop_last() =~= self.tiles@.subrange(0, i as int));
            assert(pts@.subrange(0, pts@.len() as int) =~= pts@);
            i = i + 1;
        }
        assert(self.tiles@.subrange(0, self.tiles@.len() as int) =~= self.tiles@);
        r
    }
}

/// Rows a slot shows when collapsed.
pub const UNEXPANDED_ROWS: u64 = 2;

/// One processor, channel or memory lane: the slot tiles visible in the
/// current view, and the metadata tiles fetched so far.
#[derive(Debug)]
pub struct Slot {
    pub entry_id: EntryID,
    pub short_name: String,
    pub long_name: String,
    pub expanded: bool,
    pub max_rows: u64,
    pub tiles: Vec<SlotTile>,
    pub tile_metas: Vec<SlotMetaTile>,
    pub last_view_interval: Option<Interval>,
}

impl Slot {
    /// At most one metadata tile is kept per tile.
    pub open spec fn wf(&self) -> bool {
        forall|a: int, b: int|
            0 <= a < self.tile_metas@.len() && 0 <= b < self.tile_metas@.len() && a != b ==> (
            #[trigger] self.tile_metas@[a]).tile_id != (#[trigger] self.tile_metas@[b]).tile_id
    }

    /// A slot for `entry_id`, described by `info`; it starts expanded.
    pub fn new(info: &EntryInfo, entry_id: EntryID) -> (r: Slot)
        requires
            info is Slot,
        ensures
            r.entry_id@ == entry_id@,
            r.short_name == info->Slot_short_name,
            r.long_name == info->Slot_long_name,
            r.max_rows == info->max_rows,
            r.expanded,
            r.wf(),
            r.tiles@.len() == 0,
            r.tile_metas@.len() == 0,
            r.last_view_interval is None,
    {
        match info {
            EntryInfo::Slot { short_name, long_name, max_rows } => Slot {
                entry_id,
                short_name: short_name.clone(),
                long_name: long_name.clone(),
                expanded: true,
                max_rows: *max_rows,
                tiles: Vec::new(),
                tile_metas: Vec::new(),
                last_view_interval: None,
            },
            _ => Slot {
                entry_id,
                short_name: String::new(),
                long_name: String::new(),
                expanded: true,
                max_rows: 0,
                tiles: Vec::new(),
                tile_metas: Vec::new(),
                last_view_interval: None,
            },
        }
    }

    /// The number of rows shown: all of them, but at least the collapsed
    /// count, when expanded; the collapsed count otherwise.
    pub fn rows(&self) -> (r: u64)
        ensures
            r == if self.expanded && self.max_rows > UNEXPANDED_ROWS {
                self.max_rows
            } else {
                UNEXPANDED_ROWS
            },
    {
        if self.expanded {
            if self.max_rows > UNEXPANDED_ROWS {
                self.max_rows
            } else {
                UNEXPANDED_ROWS
            }
        } else {
            UNEXPANDED_ROWS
        }
    }

    pub fn is_expandable(&self) -> (r: bool)
        ensures
            r,
    {
        true
    }

    pub fn toggle_expanded(&mut self)
        ensures
            final(self).expanded == !old(self).expanded,
            final(self).max_rows == old(self).max_rows,
            final(self).entry_id == old(self).entry_id,
    {
        self.expanded = !self.expanded;
    }

    /// Drops the kept slot tiles and metadata tiles.
    pub fn clear(&mut self)
        ensures
            final(self).tiles@.len() == 0,
            final(self).tile_metas@.len() == 0,
            final(self).entry_id == old(self).entry_id,
            final(self).expanded == old(self).expanded,
            final(self).max_rows == old(self).max_rows,
            final(self).last_view_interval == old(self).last_view_interval,
    {
        self.tiles.clear();
        self.tile_metas.clear();
    }

    /// Asks the source for the listing of this slot over `query` and for
    /// each listed slot tile overlapping `query`, then keeps the arrived
    /// slot tiles of this slot that overlap `query`, in order.
    pub fn inflate(&mut self, source: &mut QueueDataSource, query: Interval)
        requires
            old(source).wf(),
        ensures
            final(source).wf(),
            all_requested(final(source)@.queue),
            asked(
                drained(old(source)@),
                final(source)@,
                tile_asks(
                    old(self).entry_id@,
                    query,
                    FetchKind::SlotTile,
                    listing(drained(old(source)@).tiles, old(self).entry_id@),
                ),
            ),
            views(final(self).tiles@) == keep_overlapping(values_for(final(source)@.slot_tiles, old(self).entry_id@), query),
            final(self).entry_id == old(self).entry_id,
            final(self).expanded == old(self).expanded,
            final(self).max_rows == old(self).max_rows,
            final(self).tile_metas == old(self).tile_metas,
            final(self).last_view_interval == old(self).last_view_interval,
    {
        source.request_tiles(&self.entry_id, query, FetchKind::SlotTile);
        proof {
            lemma_drained_idle(source@);
        }
        let arrived = source.get_slot_tile(&self.entry_id);
        assert(views(arrived@) =~= arrived@.map_values(|x: SlotTile| x@));
        self.tiles = keep_overlapping_slots(arrived, query);
    }

    /// Brings the slot up to date for the view. When the view changed, the
    /// kept tiles and metadata are dropped, the source's ledger is scoped to
    /// the new view and this slot's cached tiles are invalidated; then the
    /// slot is inflated over the visible part of `config_interval`.
    pub fn update(&mut self, source: &mut QueueDataSource, config_interval: Interval, view_interval: Interval)
        requires
            old(source).wf(),
            old(self).wf(),
        ensures
            final(source).wf(),
            final(self).wf(),
            final(self).entry_id == old(self).entry_id,
            final(self).last_view_interval == Some(view_interval),
            old(self).last_view_interval != Some(view_interval) ==> final(self).tile_metas@.len() == 0,
            old(self).last_view_interval == Some(view_interval) ==> final(self).tile_metas == old(self).tile_metas,
            asked(
                drained(
                    refreshed(
                        old(source)@,
                        old(self).last_view_interval != Some(view_interval),
                        old(self).entry_id@,
                        view_interval,
                    ),
                ),
                final(source)@,
                tile_asks(
                    old(self).entry_id@,
                    config_interval.intersection_spec(view_interval),
                    FetchKind::SlotTile,
                    listing(
                        drained(
                            refreshed(
                                old(source)@,
                                old(self).last_view_interval != Some(view_interval),
                                old(self).entry_id@,
                                view_interval,
                            ),
                        ).tiles,
                        old(self).entry_id@,
                    ),
                ),
            ),
            views(final(self).tiles@) == keep_overlapping(
                values_for(final(source)@.slot_tiles, old(self).entry_id@),
                config_interval.intersection_spec(view_interval),
            ),
    {
        if self.last_view_interval != Some(view_interval) {
            self.clear();
            source.set_view_interval(view_interval);
            source.invalidate(&self.entry_id);
        }
        self.last_view_interval = Some(view_interval);
        let query = config_interval.intersection(view_interval);
        self.inflate(source, query);
    }

    /// Whether a metadata tile for `tile_id` is kept.
    pub open spec fn keeps_meta(&self, tile_id: TileID) -> bool {
        exists|k: int| 0 <= k < self.tile_metas@.len() && (#[trigger] self.tile_metas@[k]).tile_id == tile_id
    }

    /// The metadata tile for `tile_id`. A kept one is returned as it is,
    /// without asking the source. Otherwise the source is asked for it
    /// (once: the ledger suppresses a repeat) and the last arrived one for
    /// that tile, if any, is kept and returned.
    pub fn fetch_meta_tile(&mut self, tile_id: TileID, source: &mut QueueDataSource) -> (r: Option<SlotMetaTile>)
        requires
            old(source).wf(),
            old(self).wf(),
        ensures
            final(source).wf(),
            final(self).wf(),
            final(self).entry_id == old(self).entry_id,
            final(self).tiles == old(self).tiles,
            final(self).last_view_interval == old(self).last_view_interval,
            old(self).keeps_meta(tile_id) ==> {
                &&& *final(source) == *old(source)
                &&& final(self).tile_metas == old(self).tile_metas
                &&& exists|k: int|
                    0 <= k < old(self).tile_metas@.len() && (#[trigger] old(self).tile_metas@[k]).tile_id == tile_id
                        && (r matches Some(m) && m@ == old(self).tile_metas@[k]@)
            },
            !old(self).keeps_meta(tile_id) ==> {
                &&& all_requested(final(source)@.queue)
                &&& asked(
                    drained(old(source)@),
                    final(source)@,
                    seq![(old(self).entry_id@, Subject::Tile(tile_id), FetchKind::SlotMetaTile)],
                )
                &&& match r {
                    Some(m) => {
                        &&& last_for_tile(values_for(final(source)@.slot_meta_tiles, old(self).entry_id@), tile_id)
                            == Some(m@)
                        &&& final(self).tile_metas@.len() == old(self).tile_metas@.len() + 1
                        &&& final(self).tile_metas@.subrange(0, old(self).tile_metas@.len() as int)
                            == old(self).tile_metas@
                        &&& final(self).tile_metas@.last()@ == m@
                    },
                    None => {
                        &&& last_for_tile(values_for(final(source)@.slot_meta_tiles, old(self).entry_id@), tile_id)
                            is None
                        &&& final(self).tile_metas == old(self).tile_metas
                    },
                }
            },
    {
        let mut i: usize = 0;
        while i < self.tile_metas.len()
            invariant
                *source == *old(source),
                *self == *old(self),
                source.wf(),
                self.wf(),
                i <= self.tile_metas.len(),
                forall|k: int| 0 <= k < i ==> (#[trigger] self.tile_metas@[k]).tile_id != tile_id,
            decreases self.tile_metas.len() - i,
        {
            if self.tile_metas[i].tile_id == tile_id {
                let m = self.tile_metas[i].duplicate();
                return Some(m);
            }
            i = i + 1;
        }
        source.request_meta_tile(&self.entry_id, tile_id);
        proof {
            lemma_drained_idle(source@);
        }
        let arrived = source.get_slot_meta_tile(&self.entry_id);
        assert(views(arrived@) =~= arrived@.map_values(|x: SlotMetaTile| x@));
        let found = find_meta_tile(arrived, tile_id);
        match found {
            Some(m) => {
                proof {
                    lemma_last_for_tile_matches(values_for(source@.slot_meta_tiles, self.entry_id@), tile_id);
                }
                let ghost prev = self.tile_metas@;
                let keep = m.duplicate();
                self.tile_metas.push(keep);
                assert(self.tile_metas@.subrange(0, prev.len() as int) =~= prev);
                assert forall|a: int, b: int|
                    0 <= a < self.tile_metas@.len() && 0 <= b < self.tile_metas@.len() && a != b implies (
                    #[trigger] self.tile_metas@[a]).tile_id != (#[trigger] self.tile_metas@[b]).tile_id by {
                    if a < prev.len() && b < prev.len() {
                        assert(self.tile_metas@[a] == prev[a] && self.tile_metas@[b] == prev[b]);
                    } else if a < prev.len() {
                        assert(self.tile_metas@[a] == prev[a]);
                    } else {
                        assert(self.tile_metas@[b] == prev[b]);
                    }
                }
                Some(m)
            },
            None => None,
        }
    }
}

/// Per-window settings: which nodes are shown, and the profile's interval.
#[derive(Debug)]
pub struct Config<D> {
    pub min_node: u64,
    pub max_node: u64,
    pub interval: Interval,
    pub data_source: D,
}

impl<D> Config<D> {
    /// Settings that show every node of `init`, over its whole interval.
    pub fn from_initializer(init: &Initializer, data_source: D) -> (r: Config<D>)
        ensures
            r.min_node == 0,
            r.max_node == match init.info {
                EntryInfo::Panel { slots, .. } => slots@.len() as u64,
                _ => 0u64,
            },
            r.interval == init.interval,
            r.data_source == data_source,
    {
        Config { min_node: 0, max_node: init.info.nodes(), interval: init.interval, data_source }
    }

    /// Whether a panel's child entry is shown: nodes (the children of the
    /// root) only within the selected range, every other entry always.
    pub fn is_slot_visible(&self, entry_id: &EntryID) -> (r: bool)
        requires
            entry_id@.len() > 0,
        ensures
            r == (entry_id@.len() != 1 || (self.min_node <= entry_id@.last() && entry_id@.last() <= self.max_node)),
    {
        match entry_id.last_slot_index() {
            Some(index) => entry_id.level() != 1 || (index >= self.min_node && index <= self.max_node),
            None => true,
        }
    }
}

impl<D> Config<D> {
    /// Sets the first node shown, moving the last one up to it if needed.
    pub fn select_first_node(&mut self, first: u64)
        ensures
            final(self).min_node == first,
            final(self).max_node == if old(self).max_node < first { first } else { old(self).max_node },
            final(self).interval == old(self).interval,
    {
        self.min_node = first;
        if self.min_node > self.max_node {
            self.max_node = self.min_node;
        }
    }

    /// Sets the last node shown, moving the first one down to it if needed.
    pub fn select_last_node(&mut self, last: u64)
        ensures
            final(self).max_node == last,
            final(self).min_node == if old(self).min_node > last { last } else { old(self).min_node },
            final(self).interval == old(self).interval,
    {
        self.max_node = last;
        if self.min_node > self.max_node {
            self.min_node = self.max_node;
        }
    }
}

impl<D: DataSource> Config<D> {
    /// Asks the backend for its initializer and shows every node of it.
    pub fn new(data_source: D) -> (r: Config<D>)
        ensures
            r.min_node == 0,
    {
        let mut data_source = data_source;
        let init = data_source.init();
        Config::from_initializer(&init, data_source)
    }
}

/// The entries of the groups `gs`, concatenated in order.
pub open spec fn concat_groups<'a>(gs: Seq<Vec<&'a EntryID>>) -> Seq<&'a EntryID>
    decreases gs.len(),
{
    if gs.len() == 0 {
        Seq::empty()
    } else {
        concat_groups(gs.drop_last()) + gs.last()@
    }
}

/// Whether every entry of `g` has the same component at `level` as the
/// first one.
pub open spec fn same_component<'a>(g: Seq<&'a EntryID>, level: int) -> bool {
    forall|j: int| 0 <= j < g.len() ==> (#[trigger] g[j])@[level] == g[0]@[level]
}

/// Splits `items` into runs of consecutive entries that agree on their
/// component at `level`. Without items the result is one empty run.
pub fn get_entries_with_level<'a>(items: &Vec<&'a EntryID>, level: u64) -> (r: Vec<Vec<&'a EntryID>>)
    requires
        forall|i: int| 0 <= i < items@.len() ==> (#[trigger] items@[i])@.len() > level,
    ensures
        r@.len() >= 1,
        items@.len() == 0 ==> r@.len() == 1,
        concat_groups(r@) == items@,
        items@.len() > 0 ==> forall|k: int| 0 <= k < r@.len() ==> (#[trigger] r@[k])@.len() > 0,
        forall|k: int| 0 <= k < r@.len() ==> same_component((#[trigger] r@[k])@, level as int),
        forall|k: int|
            0 <= k < r@.len() - 1 ==> (#[trigger] r@[k])@.last()@[level as int] != r@[k + 1]@[0]@[level as int],
{
    let mut done: Vec<Vec<&'a EntryID>> = Vec::new();
    let mut current: Vec<&'a EntryID> = Vec::new();
    let mut i: usize = 0;
    while i < items.len()
        invariant
            i <= items.len(),
            forall|i: int| 0 <= i < items@.len() ==> (#[trigger] items@[i])@.len() > level,
            concat_groups(done@) + current@ == items@.subrange(0, i as int),
            i > 0 ==> current@.len() > 0,
            done@.len() > 0 ==> current@.len() > 0,
            forall|k: int| 0 <= k < done@.len() ==> (#[trigger] done@[k])@.len() > 0,
            forall|k: int| 0 <= k < done@.len() ==> same_component((#[trigger] done@[k])@, level as int),
            same_component(current@, level as int),
            forall|j: int| 0 <= j < current@.len() ==> (#[trigger] current@[j])@.len() > level,
            forall|k: int|
                0 <= k < done@.len() - 1 ==> (#[trigger] done@[k])@.last()@[level as int] != done@[k
                    + 1]@[0]@[level as int],
            done@.len() > 0 ==> done@.last()@.last()@[level as int] != current@[0]@[level as int],
        decreases items.len() - i,
    {
        let entry = items[i];
        assert(items@.subrange(0, i + 1) =~= items@.subrange(0, i as int).push(entry));
        assert(entry == items@[i as int]);
        let key = match entry.slot_index(level) {
            Some(k) => k,
            None => 0,
        };
        let mut starts_run = false;
        if current.len() > 0 {
            let last = current[current.len() - 1];
            let last_key = match last.slot_index(level) {
                Some(k) => k,
                None => 0,
            };
            starts_run = key != last_key;
        }
        if starts_run {
            let ghost prev_done = done@;
            let ghost prev_current = current@;
            let mut run: Vec<&'a EntryID> = Vec::new();
            std::mem::swap(&mut run, &mut current);
            done.push(run);
            current.push(entry);
            assert(done@.drop_last() == prev_done);
            assert(concat_groups(done@) == concat_groups(prev_done) + prev_current);
            assert(concat_groups(done@) + current@ =~= items@.subrange(0, i + 1));
            assert forall|k: int| 0 <= k < done@.len() - 1 implies (#[trigger] done@[k])@.last()@[level as int]
                != done@[k + 1]@[0]@[level as int] by {
                if k < prev_done.len() - 1 {
                    assert(done@[k] == prev_done[k] && done@[k + 1] == prev_done[k + 1]);
                } else {
                    assert(done@[k] == prev_done[k]);
                }
            }
            assert forall|k: int| 0 <= k < done@.len() implies same_component((#[trigger] done@[k])@, level as int) by {
                if k < prev_done.len() {
                    assert(done@[k] == prev_done[k]);
                }
            }
            assert forall|k: int| 0 <= k < done@.len() implies (#[trigger] done@[k])@.len() > 0 by {
                if k < prev_done.len() {
                    assert(done@[k] == prev_done[k]);
                }
            }
        } else {
            let ghost prev_current = current@;
            current.push(entry);
            assert(concat_groups(done@) + current@ =~= (concat_groups(done@) + prev_current).push(entry));
            assert forall|j: int| 0 <= j < current@.len() implies (#[trigger] current@[j])@[level as int]
                == current@[0]@[level as int] by {
                if j < prev_current.len() {
                    assert(current@[j] == prev_current[j]);
                } else if prev_current.len() > 0 {
                    assert(prev_current[prev_current.len() - 1]@[level as int] == prev_current[0]@[level as int]);
                }
            }
            assert forall|j: int| 0 <= j < current@.len() implies (#[trigger] current@[j])@.len() > level by {
                if j < prev_current.len() {
                    assert(current@[j] == prev_current[j]);
                }
            }
        }
        i = i + 1;
    }
    let ghost prev_done = done@;
    done.push(current);
    assert(done@.drop_last() == prev_done);
    assert(items@.subrange(0, items@.len() as int) =~= items@);
    assert forall|k: int| 0 <= k < done@.len() - 1 implies (#[trigger] done@[k])@.last()@[level as int]
        != done@[k + 1]@[0]@[level as int] by {
        if k < prev_done.len() - 1 {
            assert(done@[k] == prev_done[k] && done@[k + 1] == prev_done[k + 1]);
        } else {
            assert(done@[k] == prev_done[k]);
        }
    }
    assert forall|k: int| 0 <= k < done@.len() implies same_component((#[trigger] done@[k])@, level as int) by {
        if k < prev_done.len() {
            assert(done@[k] == prev_done[k]);
        }
    }
    assert(items@.len() > 0 ==> forall|k: int| 0 <= k < done@.len() ==> (#[trigger] done@[k])@.len() > 0) by {
        assert forall|k: int| items@.len() > 0 && 0 <= k < done@.len() implies (#[trigger] done@[k])@.len() > 0 by {
            if k < prev_done.len() {
                assert(done@[k] == prev_done[k]);
            }
        }
    }
    done
}

/// Whether group `g` is non-empty and its first entry has component `i`
/// at `level`.
pub open spec fn group_matches<'a>(g: Seq<&'a EntryID>, level: int, i: int) -> bool {
    g.len() > 0 && g[0]@[level] == i
}

/// The first group whose first entry has component `i` at `slot_index`;
/// empty when there is none.
pub fn get_filtered_entries<'a>(level_entries: &Vec<Vec<&'a EntryID>>, slot_index: u64, i: usize) -> (r: Vec<&'a EntryID>)
    requires
        forall|k: int|
            0 <= k < level_entries@.len() && (#[trigger] level_entries@[k])@.len() > 0 ==> level_entries@[k]@[0]@.len()
                > slot_index,
    ensures
        (exists|k: int| 0 <= k < level_entries@.len() && group_matches((#[trigger] level_entries@[k])@, slot_index as int, i as int))
            ==> exists|k: int|
            0 <= k < level_entries@.len() && group_matches((#[trigger] level_entries@[k])@, slot_index as int, i as int)
                && (forall|j: int| 0 <= j < k ==> !group_matches((#[trigger] level_entries@[j])@, slot_index as int, i as int))
                && r@ == level_entries@[k]@,
        !(exists|k: int| 0 <= k < level_entries@.len() && group_matches((#[trigger] level_entries@[k])@, slot_index as int, i as int))
            ==> r@.len() == 0,
{
    let mut k: usize = 0;
    while k < level_entries.len()
        invariant
            k <= level_entries@.len(),
            forall|j: int| 0 <= j < k ==> !group_matches((#[trigger] level_entries@[j])@, slot_index as int, i as int),
            forall|k: int|
                0 <= k < level_entries@.len() && (#[trigger] level_entries@[k])@.len() > 0 ==> level_entries@[k]@[0]@.len()
                    > slot_index,
        decreases level_entries.len() - k,
    {
        let g = &level_entries[k];
        if g.len() > 0 && g[0].slot_index(slot_index) == Some(i as u64) {
            let mut r: Vec<&'a EntryID> = Vec::new();
            let mut j: usize = 0;
            while j < g.len()
                invariant
                    j <= g@.len(),
                    r@ == g@.subrange(0, j as int),
                decreases g.len() - j,
            {
                r.push(g[j]);
                j = j + 1;
                assert(r@ =~= g@.subrange(0, j as int));
            }
            assert(r@ =~= g@);
            assert(group_matches(level_entries@[k as int]@, slot_index as int, i as int));
            return r;
        }
        k = k + 1;
    }
    Vec::new()
}

} // verus!
