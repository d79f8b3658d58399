use vstd::prelude::*;

use crate::data::{CacheValue, Initializer, SlotMetaTile, SlotTile, SummaryTile};
use crate::entry_id::{EntryID, TileID};
use crate::interval::Interval;
use crate::ledger::{DedupLedger, FetchKind, FingerprintView, Subject};
use crate::queue::{fingerprint_of, is_failed, is_requested, Data, Work};
use crate::tile_list::{lemma_merge_is_union, listing, merge_tiles, TileListCache};
use crate::tile_store::{put_value, values_for, without_entry, TileStore};

verus! {

/// The operations a renderer uses: each `fetch_*` asks for data without
/// blocking, each `get_*` returns what has arrived so far.
pub trait DeferredDataSource {
    /// The source's internal consistency, kept by every operation.
    spec fn wf(&self) -> bool;

    fn fetch_info(&mut self)
        requires
            old(self).wf(),
        ensures
            final(self).wf(),
    ;

    fn get_info(&mut self) -> (r: Option<&Initializer>)
        requires
            old(self).wf(),
        ensures
            final(self).wf(),
    ;

    fn fetch_interval(&mut self)
        requires
            old(self).wf(),
        ensures
            final(self).wf(),
    ;

    fn get_interval(&mut self) -> (r: Option<Interval>)
        requires
            old(self).wf(),
        ensures
            final(self).wf(),
    ;

    fn fetch_tiles(&mut self, entry_id: EntryID, request_interval: Interval)
        requires
            old(self).wf(),
        ensures
            final(self).wf(),
    ;

    fn get_tiles(&mut self, entry_id: &EntryID) -> (r: Vec<TileID>)
        requires
            old(self).wf(),
        ensures
            final(self).wf(),
    ;

    fn fetch_summary_tile(&mut self, entry_id: EntryID, tile_id: TileID)
        requires
            old(self).wf(),
        ensures
            final(self).wf(),
    ;

    fn get_summary_tiles(&mut self, entry_id: &EntryID) -> (r: Vec<SummaryTile>)
        requires
            old(self).wf(),
        ensures
            final(self).wf(),
    ;

    fn fetch_slot_tile(&mut self, entry_id: EntryID, tile_id: TileID)
        requires
            old(self).wf(),
        ensures
            final(self).wf(),
    ;

    fn get_slot_tile(&mut self, entry_id: &EntryID) -> (r: Vec<SlotTile>)
        requires
            old(self).wf(),
        ensures
            final(self).wf(),
    ;

    fn fetch_slot_meta_tile(&mut self, entry_id: EntryID, tile_id: TileID)
        requires
            old(self).wf(),
        ensures
            final(self).wf(),
    ;

    fn get_slot_meta_tile(&mut self, entry_id: &EntryID) -> (r: Vec<SlotMetaTile>)
        requires
            old(self).wf(),
        ensures
            final(self).wf(),
    ;
}

/// The abstract state of a queue-backed source.
pub struct SourceState {
    pub info: Option<Initializer>,
    pub interval: Option<Interval>,
    pub tiles: Map<Seq<u64>, Seq<TileID>>,
    pub summary_tiles: Seq<(Seq<u64>, TileID, <SummaryTile as View>::V)>,
    pub slot_tiles: Seq<(Seq<u64>, TileID, <SlotTile as View>::V)>,
    pub slot_meta_tiles: Seq<(Seq<u64>, TileID, <SlotMetaTile as View>::V)>,
    pub ledger: Set<FingerprintView>,
    pub scope: Option<Interval>,
    pub queue: Seq<Work>,
}

/// `st` after folding one arrived item into the caches: a result lands in
/// the cache of its kind, a failure frees its fingerprint for a retry.
pub open spec fn fold_result(st: SourceState, w: Work) -> SourceState {
    match w {
        Work::FetchInfo(Data::Ready(i)) => SourceState { info: Some(i), ..st },
        Work::FetchInterval(Data::Ready(i)) => SourceState { interval: Some(i), ..st },
        Work::FetchTiles(e, _, Data::Ready(ts)) => SourceState {
            tiles: st.tiles.insert(e@, merge_tiles(listing(st.tiles, e@), ts@)),
            ..st
        },
        Work::FetchSummaryTile(e, t, Data::Ready(v)) => SourceState {
            summary_tiles: put_value(st.summary_tiles, e@, t, v@),
            ..st
        },
        Work::FetchSlotTile(e, t, Data::Ready(v)) => SourceState {
            slot_tiles: put_value(st.slot_tiles, e@, t, v@),
            ..st
        },
        Work::FetchSlotMetaTile(e, t, Data::Ready(v)) => SourceState {
            slot_meta_tiles: put_value(st.slot_meta_tiles, e@, t, v@),
            ..st
        },
        _ => if is_failed(w) {
            SourceState { ledger: st.ledger.remove(fingerprint_of(w)), ..st }
        } else {
            st
        },
    }
}

/// One step of draining: a pending request goes back on the queue, an
/// arrived item is folded in.
pub open spec fn drain_step(st: SourceState, w: Work) -> SourceState {
    if is_requested(w) {
        SourceState { queue: st.queue.push(w), ..st }
    } else {
        fold_result(st, w)
    }
}

/// Drains `items` in order into `st`.
pub open spec fn drain_from(st: SourceState, items: Seq<Work>) -> SourceState
    decreases items.len(),
{
    if items.len() == 0 {
        st
    } else {
        drain_from(drain_step(st, items[0]), items.drop_first())
    }
}

/// `st` after its whole queue is drained: every arrived item folded in, in
/// queue order, and only pending requests left on the queue.
pub open spec fn drained(st: SourceState) -> SourceState {
    drain_from(SourceState { queue: Seq::empty(), ..st }, st.queue)
}

/// `st` after asking for `w`: enqueued and recorded in the ledger, unless
/// the ledger already holds its fingerprint.
pub open spec fn issue(st: SourceState, w: Work) -> SourceState {
    if st.ledger.contains(fingerprint_of(w)) {
        st
    } else {
        SourceState { ledger: st.ledger.insert(fingerprint_of(w)), queue: st.queue.push(w), ..st }
    }
}

/// The pending requests of `q`, in order.
pub open spec fn requests_in(q: Seq<Work>) -> Seq<Work>
    decreases q.len(),
{
    if q.len() == 0 {
        Seq::empty()
    } else if is_requested(q.last()) {
        requests_in(q.drop_last()).push(q.last())
    } else {
        requests_in(q.drop_last())
    }
}

/// The arrived (answered or failed) items of `q`, in order.
pub open spec fn arrivals_in(q: Seq<Work>) -> Seq<Work>
    decreases q.len(),
{
    if q.len() == 0 {
        Seq::empty()
    } else if is_requested(q.last()) {
        arrivals_in(q.drop_last())
    } else {
        arrivals_in(q.drop_last()).push(q.last())
    }
}


/// Draining never puts anything but pending requests on the queue.
proof fn lemma_drain_leaves_requests(st: SourceState, items: Seq<Work>)
    requires
        forall|i: int| 0 <= i < st.queue.len() ==> is_requested(#[trigger] st.queue[i]),
    ensures
        forall|i: int|
            0 <= i < drain_from(st, items).queue.len() ==> is_requested(
                #[trigger] drain_from(st, items).queue[i],
            ),
    decreases items.len(),
{
    if items.len() > 0 {
        let next = drain_step(st, items[0]);
        assert forall|i: int| 0 <= i < next.queue.len() implies is_requested(#[trigger] next.queue[i]) by {
            if is_requested(items[0]) && i == st.queue.len() {
                assert(next.queue[i] == items[0]);
            } else {
                assert(next.queue[i] == st.queue[i]);
            }
        }
        lemma_drain_leaves_requests(next, items.drop_first());
    }
}

/// Draining a run of pending requests only moves them onto the queue.
proof fn lemma_drain_requests_only(st: SourceState, items: Seq<Work>)
    requires
        forall|i: int| 0 <= i < items.len() ==> is_requested(#[trigger] items[i]),
    ensures
        drain_from(st, items) == (SourceState { queue: st.queue + items, ..st }),
    decreases items.len(),
{
    if items.len() > 0 {
        let next = drain_step(st, items[0]);
        assert forall|i: int| 0 <= i < items.drop_first().len() implies is_requested(
            #[trigger] items.drop_first()[i],
        ) by {
            assert(items.drop_first()[i] == items[i + 1]);
        }
        lemma_drain_requests_only(next, items.drop_first());
        assert(st.queue.push(items[0]) + items.drop_first() =~= st.queue + items);
    } else {
        assert(st.queue + items =~= st.queue);
    }
}

/// Asking twice for the same data, with nothing arriving in between, puts
/// one request in front of the transport: the first call enqueues it (or
/// nothing, when the ledger already holds it) and the second changes
/// nothing.
pub proof fn lemma_fetch_twice_enqueues_once(st: SourceState, w: Work)
    requires
        is_requested(w),
    ensures
        issue(drained(issue(drained(st), w)), w) == issue(drained(st), w),
        !drained(st).ledger.contains(fingerprint_of(w)) ==> issue(drained(st), w).queue == drained(
            st,
        ).queue.push(w),
        drained(st).ledger.contains(fingerprint_of(w)) ==> issue(drained(st), w) == drained(st),
{
    let start = SourceState { queue: Seq::empty(), ..st };
    lemma_drain_leaves_requests(start, st.queue);
    let once = issue(drained(st), w);
    assert forall|i: int| 0 <= i < once.queue.len() implies is_requested(#[trigger] once.queue[i]) by {
        if i < drained(st).queue.len() {
            assert(once.queue[i] == drained(st).queue[i]);
        }
    }
    lemma_drain_requests_only(SourceState { queue: Seq::empty(), ..once }, once.queue);
    assert(Seq::<Work>::empty() + once.queue =~= once.queue);
    assert(drained(once) == once);
    assert(once.ledger.contains(fingerprint_of(w)));
}

/// Two tile listings that arrive for the same entry accumulate: the cached
/// listing becomes the set union of what was cached and both listings,
/// without duplicates, whatever intervals they were fetched for.
pub proof fn lemma_tile_listings_union(st: SourceState, first: Work, second: Work)
    requires
        first matches Work::FetchTiles(_, _, Data::Ready(_)),
        second matches Work::FetchTiles(_, _, Data::Ready(_)),
        fingerprint_of(first).0 == fingerprint_of(second).0,
        listing(st.tiles, fingerprint_of(first).0).no_duplicates(),
    ensures
        ({
            let e = fingerprint_of(first).0;
            let after = fold_result(fold_result(st, first), second);
            &&& listing(after.tiles, e).no_duplicates()
            &&& listing(after.tiles, e).to_set() == listing(st.tiles, e).to_set() + tile_payload(
                first,
            ).to_set() + tile_payload(second).to_set()
        }),
{
    let e = fingerprint_of(first).0;
    let known = listing(st.tiles, e);
    let mid = fold_result(st, first);
    lemma_merge_is_union(known, tile_payload(first));
    assert(listing(mid.tiles, e) == merge_tiles(known, tile_payload(first)));
    lemma_merge_is_union(listing(mid.tiles, e), tile_payload(second));
}

/// The tiles carried by an answered tile-listing item.
pub open spec fn tile_payload(w: Work) -> Seq<TileID> {
    match w {
        Work::FetchTiles(_, _, Data::Ready(ts)) => ts@,
        _ => Seq::empty(),
    }
}


/// The ledger and the fingerprints sent, after asking for `f`: recorded
/// and sent when new, nothing otherwise.
pub open spec fn ask(ledger: Set<FingerprintView>, sent: Seq<FingerprintView>, f: FingerprintView) -> (
    Set<FingerprintView>,
    Seq<FingerprintView>,
) {
    if ledger.contains(f) {
        (ledger, sent)
    } else {
        (ledger.insert(f), sent.push(f))
    }
}

/// Asks for each of `fs`, in order.
pub open spec fn ask_all(ledger: Set<FingerprintView>, sent: Seq<FingerprintView>, fs: Seq<FingerprintView>) -> (
    Set<FingerprintView>,
    Seq<FingerprintView>,
)
    decreases fs.len(),
{
    if fs.len() == 0 {
        (ledger, sent)
    } else {
        let p = ask_all(ledger, sent, fs.drop_last());
        ask(p.0, p.1, fs.last())
    }
}

/// The fingerprints of the items of `q`, in order.
pub open spec fn fingerprints(q: Seq<Work>) -> Seq<FingerprintView> {
    q.map_values(|w: Work| fingerprint_of(w))
}

/// The tiles of `s` that overlap `query`, in order.
pub open spec fn overlapping_tiles(s: Seq<TileID>, query: Interval) -> Seq<TileID>
    decreases s.len(),
{
    if s.len() == 0 {
        Seq::empty()
    } else if s.last().0.overlaps_spec(query) {
        overlapping_tiles(s.drop_last(), query).push(s.last())
    } else {
        overlapping_tiles(s.drop_last(), query)
    }
}

/// What inflating entry `e` over `query` asks for: the listing of `e` over
/// `query`, then a tile of `kind` for each listed tile overlapping `query`.
pub open spec fn tile_asks(e: Seq<u64>, query: Interval, kind: FetchKind, listed: Seq<TileID>) -> Seq<FingerprintView> {
    seq![(e, Subject::Range(query), FetchKind::Tiles)] + overlapping_tiles(listed, query).map_values(
        |t: TileID| (e, Subject::Tile(t), kind),
    )
}

/// `after` is `before` once each of `asks` was asked for in turn: the new
/// ones recorded in the ledger and enqueued as pending requests, nothing
/// else changed.
pub open spec fn asked(before: SourceState, after: SourceState, asks: Seq<FingerprintView>) -> bool {
    let r = ask_all(before.ledger, fingerprints(before.queue), asks);
    &&& after.ledger == r.0
    &&& fingerprints(after.queue) == r.1
    &&& after.queue.len() >= before.queue.len()
    &&& after.queue.subrange(0, before.queue.len() as int) == before.queue
    &&& forall|i: int| before.queue.len() <= i < after.queue.len() ==> is_requested(#[trigger] after.queue[i])
    &&& after == (SourceState { ledger: after.ledger, queue: after.queue, ..before })
}

/// Whether every item of `q` is a pending request.
pub open spec fn all_requested(q: Seq<Work>) -> bool {
    forall|i: int| 0 <= i < q.len() ==> is_requested(#[trigger] q[i])
}

/// `st` with the ledger scoped to `view`: cleared when the view changed.
pub open spec fn scoped(st: SourceState, view: Interval) -> SourceState {
    if st.scope == Some(view) {
        st
    } else {
        SourceState { ledger: Set::empty(), scope: Some(view), ..st }
    }
}

/// `st` without the summary, slot and metadata tiles of entry `e`.
pub open spec fn invalidated(st: SourceState, e: Seq<u64>) -> SourceState {
    SourceState {
        summary_tiles: without_entry(st.summary_tiles, e),
        slot_tiles: without_entry(st.slot_tiles, e),
        slot_meta_tiles: without_entry(st.slot_meta_tiles, e),
        ..st
    }
}

/// Draining a source whose queue holds only pending requests changes
/// nothing.
pub proof fn lemma_drained_idle(st: SourceState)
    requires
        all_requested(st.queue),
    ensures
        drained(st) == st,
{
    lemma_drain_requests_only(SourceState { queue: Seq::empty(), ..st }, st.queue);
    assert(Seq::<Work>::empty() + st.queue =~= st.queue);
}

/// After draining, only pending requests are left on the queue.
pub proof fn lemma_drained_requests(st: SourceState)
    ensures
        all_requested(drained(st).queue),
{
    lemma_drain_leaves_requests(SourceState { queue: Seq::empty(), ..st }, st.queue);
}

/// Asking for fingerprints that are all already recorded changes nothing.
proof fn lemma_ask_all_known(ledger: Set<FingerprintView>, sent: Seq<FingerprintView>, fs: Seq<FingerprintView>)
    requires
        forall|i: int| 0 <= i < fs.len() ==> ledger.contains(#[trigger] fs[i]),
    ensures
        ask_all(ledger, sent, fs) == (ledger, sent),
    decreases fs.len(),
{
    if fs.len() > 0 {
        lemma_ask_all_known(ledger, sent, fs.drop_last());
        assert(ledger.contains(fs[fs.len() - 1]));
    }
}

/// Everything asked for ends up recorded in the ledger.
proof fn lemma_ask_all_records(ledger: Set<FingerprintView>, sent: Seq<FingerprintView>, fs: Seq<FingerprintView>)
    ensures
        forall|i: int| 0 <= i < fs.len() ==> ask_all(ledger, sent, fs).0.contains(#[trigger] fs[i]),
        ledger.subset_of(ask_all(ledger, sent, fs).0),
    decreases fs.len(),
{
    if fs.len() > 0 {
        lemma_ask_all_records(ledger, sent, fs.drop_last());
        assert forall|i: int| 0 <= i < fs.len() implies ask_all(ledger, sent, fs).0.contains(#[trigger] fs[i]) by {
            if i < fs.len() - 1 {
                assert(fs.drop_last()[i] == fs[i]);
            }
        }
    }
}

/// Asking for the same fingerprints a second time, with nothing arriving
/// in between, sends nothing: every one of them is already in the ledger.
pub proof fn lemma_asking_twice_sends_nothing(
    ledger: Set<FingerprintView>,
    sent: Seq<FingerprintView>,
    fs: Seq<FingerprintView>,
)
    ensures
        ask_all(ask_all(ledger, sent, fs).0, ask_all(ledger, sent, fs).1, fs) == ask_all(ledger, sent, fs),
{
    lemma_ask_all_records(ledger, sent, fs);
    let r = ask_all(ledger, sent, fs);
    lemma_ask_all_known(r.0, r.1, fs);
}

/// Inflating an entry twice over the same query, with nothing arriving in
/// between, sends no new request and leaves the source as the first left
/// it: the listing is the same, so the same fingerprints are asked for, and
/// the ledger already holds them all.
pub proof fn lemma_inflate_twice_sends_nothing(
    before: SourceState,
    mid: SourceState,
    after: SourceState,
    e: Seq<u64>,
    query: Interval,
    kind: FetchKind,
)
    requires
        all_requested(mid.queue),
        asked(drained(before), mid, tile_asks(e, query, kind, listing(drained(before).tiles, e))),
        asked(drained(mid), after, tile_asks(e, query, kind, listing(drained(mid).tiles, e))),
    ensures
        after == mid,
{
    lemma_drained_idle(mid);
    let d = drained(before);
    let asks = tile_asks(e, query, kind, listing(d.tiles, e));
    lemma_asking_twice_sends_nothing(d.ledger, fingerprints(d.queue), asks);
    assert(mid.tiles == d.tiles);
    assert(ask_all(mid.ledger, fingerprints(mid.queue), asks) == (mid.ledger, fingerprints(mid.queue)));
    assert(fingerprints(after.queue).len() == after.queue.len());
    assert(fingerprints(mid.queue).len() == mid.queue.len());
    assert(after.queue.len() == mid.queue.len());
    assert(after.queue =~= after.queue.subrange(0, mid.queue.len() as int));
}

/// A query that is inverted (as the intersection of a configured range
/// and a disjoint view is) overlaps no tile, so inflating over it asks for
/// the listing alone.
pub proof fn lemma_inverted_query_asks_listing_only(e: Seq<u64>, query: Interval, kind: FetchKind, listed: Seq<TileID>)
    requires
        query.start > query.stop,
    ensures
        tile_asks(e, query, kind, listed) == seq![(e, Subject::Range(query), FetchKind::Tiles)],
    decreases listed.len(),
{
    lemma_overlapping_none(listed, query);
    assert(tile_asks(e, query, kind, listed) =~= seq![(e, Subject::Range(query), FetchKind::Tiles)]);
}

proof fn lemma_overlapping_none(s: Seq<TileID>, query: Interval)
    requires
        query.start > query.stop,
    ensures
        overlapping_tiles(s, query).len() == 0,
    decreases s.len(),
{
    if s.len() > 0 {
        lemma_overlapping_none(s.drop_last(), query);
    }
}

/// A data source whose requests go through a work queue to a transport
/// that answers later, on its own schedule.
///
/// `fetch_*` enqueues a request unless the ledger shows it was already
/// made; the transport takes requests with `take_requests` and hands each
/// result back with `push_result`; every operation first drains the arrived
/// results into the caches.
pub struct QueueDataSource {
    queue: Vec<Work>,
    ledger: DedupLedger,
    info: Option<Initializer>,
    interval: Option<Interval>,
    tiles: TileListCache,
    summary_tiles: TileStore<SummaryTile>,
    slot_tiles: TileStore<SlotTile>,
    slot_meta_tiles: TileStore<SlotMetaTile>,
    scope: Option<Interval>,
}

impl View for QueueDataSource {
    type V = SourceState;

    closed spec fn view(&self) -> SourceState {
        SourceState {
            info: self.info,
            interval: self.interval,
            tiles: self.tiles@,
            summary_tiles: self.summary_tiles.model(),
            slot_tiles: self.slot_tiles.model(),
            slot_meta_tiles: self.slot_meta_tiles.model(),
            ledger: self.ledger@,
            scope: self.scope,
            queue: self.queue@,
        }
    }
}

impl QueueDataSource {
    pub closed spec fn caches_wf(&self) -> bool {
        &&& self.tiles.wf()
        &&& self.summary_tiles.wf()
        &&& self.slot_tiles.wf()
        &&& self.slot_meta_tiles.wf()
    }

    /// An empty source: no data, no requests, nothing queued.
    pub fn new() -> (r: QueueDataSource)
        ensures
            r.wf(),
            r@.info is None,
            r@.interval is None,
            r@.tiles == Map::<Seq<u64>, Seq<TileID>>::empty(),
            r@.summary_tiles.len() == 0,
            r@.slot_tiles.len() == 0,
            r@.slot_meta_tiles.len() == 0,
            r@.ledger == Set::<FingerprintView>::empty(),
            r@.scope is None,
            r@.queue.len() == 0,
    {
        QueueDataSource {
            queue: Vec::new(),
            ledger: DedupLedger::new(),
            info: None,
            interval: None,
            tiles: TileListCache::new(),
            summary_tiles: TileStore::new(),
            slot_tiles: TileStore::new(),
            slot_meta_tiles: TileStore::new(),
            scope: None,
        }
    }

    /// Hands a completed (or failed) item back, as the transport does when a
    /// request resolves; it is folded in by the next operation.
    pub fn push_result(&mut self, work: Work)
        ensures
            final(self).wf() == old(self).wf(),
            final(self)@ == (SourceState { queue: old(self)@.queue.push(work), ..old(self)@ }),
    {
        self.queue.push(work);
    }

    /// Removes the pending requests from the queue and returns them, in
    /// order, for the transport to perform.
    pub fn take_requests(&mut self) -> (r: Vec<Work>)
        ensures
            final(self).wf() == old(self).wf(),
            r@ == requests_in(old(self)@.queue),
            final(self)@ == (SourceState { queue: arrivals_in(old(self)@.queue), ..old(self)@ }),
    {
        let mut items: Vec<Work> = Vec::new();
        std::mem::swap(&mut items, &mut self.queue);
        let ghost all = items@;
        let mut requests: Vec<Work> = Vec::new();
        let ghost taken: Seq<Work> = Seq::empty();
        while items.len() > 0
            invariant
                taken + items@ == all,
                requests@ == requests_in(taken),
                self.queue@ == arrivals_in(taken),
                self.info == old(self).info,
                self.interval == old(self).interval,
                self.tiles == old(self).tiles,
                self.summary_tiles == old(self).summary_tiles,
                self.slot_tiles == old(self).slot_tiles,
                self.slot_meta_tiles == old(self).slot_meta_tiles,
                self.ledger == old(self).ledger,
                self.scope == old(self).scope,
            decreases items.len(),
        {
            let w = items.remove(0);
            proof {
                assert((taken.push(w)).drop_last() =~= taken);
                assert(taken.push(w) + items@ =~= all);
                taken = taken.push(w);
            }
            if w.is_requested() {
                requests.push(w);
            } else {
                self.queue.push(w);
            }
        }
        assert(taken =~= all);
        requests
    }

    /// Applies `drain_step` for one item.
    fn drain_one(&mut self, w: Work)
        requires
            old(self).wf(),
        ensures
            final(self).wf(),
            final(self)@ == drain_step(old(self)@, w),
    {
        if w.is_requested() {
            self.queue.push(w);
            return;
        }
        let ghost gw = w;
        let fp = w.fingerprint();
        match w {
            Work::FetchInfo(Data::Ready(i)) => {
                self.info = Some(i);
            },
            Work::FetchInterval(Data::Ready(i)) => {
                self.interval = Some(i);
            },
            Work::FetchTiles(e, _, Data::Ready(ts)) => {
                self.tiles.merge(&e, &ts);
            },
            Work::FetchSummaryTile(e, t, Data::Ready(v)) => {
                self.summary_tiles.put(e, t, v);
            },
            Work::FetchSlotTile(e, t, Data::Ready(v)) => {
                self.slot_tiles.put(e, t, v);
            },
            Work::FetchSlotMetaTile(e, t, Data::Ready(v)) => {
                self.slot_meta_tiles.put(e, t, v);
            },
            _ => {
                assert(is_failed(gw));
                self.ledger.release(&fp);
            },
        }
    }

    /// Folds every arrived item into the caches, in queue order, and keeps
    /// the pending requests on the queue.
    pub fn process_queue(&mut self)
        requires
            old(self).wf(),
        ensures
            final(self).wf(),
            final(self)@ == drained(old(self)@),
    {
        let mut items: Vec<Work> = Vec::new();
        std::mem::swap(&mut items, &mut self.queue);
        assert(self@ == (SourceState { queue: Seq::empty(), ..old(self)@ }));
        while items.len() > 0
            invariant
                self.wf(),
                drain_from(self@, items@) == drained(old(self)@),
            decreases items.len(),
        {
            let ghost rest = items@;
            let w = items.remove(0);
            assert(rest.drop_first() =~= items@);
            self.drain_one(w);
        }
    }

    /// Records `w` in the ledger and enqueues it, unless already recorded.
    fn issue(&mut self, w: Work)
        requires
            old(self).wf(),
        ensures
            final(self).wf(),
            final(self)@ == issue(old(self)@, w),
    {
        let fp = w.fingerprint();
        if self.ledger.should_issue(&fp) {
            self.queue.push(w);
        } else {
            assert(self.ledger@ == old(self).ledger@);
        }
    }


    /// Asks, after draining, for the listing of `entry_id` over `query` and
    /// then for a tile of `kind` for each listed tile that overlaps `query`;
    /// what was already asked for is not sent again.
    pub fn request_tiles(&mut self, entry_id: &EntryID, query: Interval, kind: FetchKind)
        requires
            old(self).wf(),
            kind == FetchKind::SummaryTile || kind == FetchKind::SlotTile,
        ensures
            final(self).wf(),
            all_requested(final(self)@.queue),
            asked(
                drained(old(self)@),
                final(self)@,
                tile_asks(entry_id@, query, kind, listing(drained(old(self)@).tiles, entry_id@)),
            ),
    {
        self.process_queue();
        let ghost d = self@;
        proof {
            lemma_drained_requests(old(self)@);
            assert(d.queue.subrange(0, d.queue.len() as int) =~= d.queue);
        }
        let first = Work::FetchTiles(entry_id.clone(), query, Data::Requested);
        let ghost f0 = fingerprint_of(first);
        self.issue_one(first);
        let ghost asks: Seq<FingerprintView> = seq![f0];
        proof {
            assert(asks.drop_last() =~= Seq::<FingerprintView>::empty());
        }
        let listed = self.tiles.get(entry_id);
        let mut i: usize = 0;
        assert(listed@.subrange(0, 0) =~= Seq::<TileID>::empty());
        assert(asks =~= tile_asks(entry_id@, query, kind, listed@.subrange(0, 0)));
        while i < listed.len()
            invariant
                self.caches_wf(),
                kind == FetchKind::SummaryTile || kind == FetchKind::SlotTile,
                i <= listed@.len(),
                all_requested(d.queue),
                asked(d, self@, asks),
                asks == tile_asks(entry_id@, query, kind, listed@.subrange(0, i as int)),
            decreases listed.len() - i,
        {
            let t = listed[i];
            let ghost prev = asks;
            assert(listed@.subrange(0, i + 1).drop_last() =~= listed@.subrange(0, i as int));
            if t.0.overlaps(query) {
                let w = if kind == FetchKind::SummaryTile {
                    Work::FetchSummaryTile(entry_id.clone(), t, Data::Requested)
                } else {
                    Work::FetchSlotTile(entry_id.clone(), t, Data::Requested)
                };
                assert(fingerprint_of(w) == (entry_id@, Subject::Tile(t), kind));
                self.issue_one(w);
                proof {
                    asks = asks.push(fingerprint_of(w));
                    assert(asks.drop_last() =~= prev);
                    assert(overlapping_tiles(listed@.subrange(0, i + 1), query) == overlapping_tiles(
                        listed@.subrange(0, i as int),
                        query,
                    ).push(t));
                    assert(asks =~= tile_asks(entry_id@, query, kind, listed@.subrange(0, i + 1)));
                }
            } else {
                assert(asks =~= tile_asks(entry_id@, query, kind, listed@.subrange(0, i + 1)));
            }
            i = i + 1;
        }
        assert(listed@.subrange(0, listed@.len() as int) =~= listed@);
        assert(all_requested(self@.queue)) by {
            assert forall|k: int| 0 <= k < self@.queue.len() implies is_requested(#[trigger] self@.queue[k]) by {
                if k < d.queue.len() {
                    assert(self@.queue.subrange(0, d.queue.len() as int)[k] == self@.queue[k]);
                }
            }
        }
    }

    /// Asks, after draining, for the metadata tile `tile_id` of `entry_id`,
    /// unless it was already asked for.
    pub fn request_meta_tile(&mut self, entry_id: &EntryID, tile_id: TileID)
        requires
            old(self).wf(),
        ensures
            final(self).wf(),
            all_requested(final(self)@.queue),
            asked(drained(old(self)@), final(self)@, seq![(entry_id@, Subject::Tile(tile_id), FetchKind::SlotMetaTile)]),
    {
        self.process_queue();
        let ghost d = self@;
        proof {
            lemma_drained_requests(old(self)@);
            assert(d.queue.subrange(0, d.queue.len() as int) =~= d.queue);
            assert(Seq::<FingerprintView>::empty().len() == 0);
        }
        let w = Work::FetchSlotMetaTile(entry_id.clone(), tile_id, Data::Requested);
        self.issue_one(w);
        assert(seq![(entry_id@, Subject::Tile(tile_id), FetchKind::SlotMetaTile)] =~= Seq::<FingerprintView>::empty().push(
            fingerprint_of(w),
        ));
        assert(all_requested(self@.queue)) by {
            assert forall|k: int| 0 <= k < self@.queue.len() implies is_requested(#[trigger] self@.queue[k]) by {
                if k < d.queue.len() {
                    assert(self@.queue.subrange(0, d.queue.len() as int)[k] == self@.queue[k]);
                }
            }
        }
    }

    /// Issues `w` and accounts for it as one more ask.
    fn issue_one(&mut self, w: Work)
        requires
            old(self).caches_wf(),
            is_requested(w),
        ensures
            final(self).caches_wf(),
            final(self)@ == issue(old(self)@, w),
            forall|before: SourceState, asks: Seq<FingerprintView>|
                asked(before, old(self)@, asks) ==> #[trigger] asked(before, final(self)@, asks.push(fingerprint_of(w))),
    {
        let ghost o = self@;
        self.issue(w);
        assert forall|before: SourceState, asks: Seq<FingerprintView>|
            asked(before, o, asks) implies #[trigger] asked(before, self@, asks.push(fingerprint_of(w))) by {
            assert(asks.push(fingerprint_of(w)).drop_last() =~= asks);
            if !o.ledger.contains(fingerprint_of(w)) {
                assert(fingerprints(o.queue.push(w)) =~= fingerprints(o.queue).push(fingerprint_of(w)));
                assert(self@.queue.subrange(0, before.queue.len() as int) =~= o.queue.subrange(
                    0,
                    before.queue.len() as int,
                ));
            }
        }
    }

    /// Drops the summary, slot and metadata tiles cached for `entry_id`, as
    /// when the interval it is queried over changed; its tile listing, which
    /// accumulates across intervals, stays.
    pub fn invalidate(&mut self, entry_id: &EntryID)
        requires
            old(self).wf(),
        ensures
            final(self).wf(),
            final(self)@ == invalidated(old(self)@, entry_id@),
    {
        self.summary_tiles.invalidate(entry_id);
        self.slot_tiles.invalidate(entry_id);
        self.slot_meta_tiles.invalidate(entry_id);
    }

    /// Scopes the ledger to the view interval: when the view changes, every
    /// fingerprint is forgotten so that requests for the new window go out.
    pub fn set_view_interval(&mut self, view: Interval)
        ensures
            final(self).wf() == old(self).wf(),
            final(self)@ == scoped(old(self)@, view),
    {
        let unchanged = match self.scope {
            Some(s) => s == view,
            None => false,
        };
        if !unchanged {
            self.ledger.clear();
            self.scope = Some(view);
        }
    }
}

impl DeferredDataSource for QueueDataSource {
    open spec fn wf(&self) -> bool {
        self.caches_wf()
    }

    fn fetch_info(&mut self)
        ensures
            final(self)@ == issue(drained(old(self)@), Work::FetchInfo(Data::Requested)),
    {
        self.process_queue();
        self.issue(Work::FetchInfo(Data::Requested));
    }

    fn get_info(&mut self) -> (r: Option<&Initializer>)
        ensures
            final(self)@ == drained(old(self)@),
            r is Some == final(self)@.info is Some,
            r matches Some(i) ==> *i == final(self)@.info->0,
    {
        self.process_queue();
        self.info.as_ref()
    }

    fn fetch_interval(&mut self)
        ensures
            final(self)@ == issue(drained(old(self)@), Work::FetchInterval(Data::Requested)),
    {
        self.process_queue();
        self.issue(Work::FetchInterval(Data::Requested));
    }

    fn get_interval(&mut self) -> (r: Option<Interval>)
        ensures
            final(self)@ == drained(old(self)@),
            r == final(self)@.interval,
    {
        self.process_queue();
        self.interval
    }

    fn fetch_tiles(&mut self, entry_id: EntryID, request_interval: Interval)
        ensures
            final(self)@ == issue(
                drained(old(self)@),
                Work::FetchTiles(entry_id, request_interval, Data::Requested),
            ),
    {
        self.process_queue();
        self.issue(Work::FetchTiles(entry_id, request_interval, Data::Requested));
    }

    fn get_tiles(&mut self, entry_id: &EntryID) -> (r: Vec<TileID>)
        ensures
            final(self)@ == drained(old(self)@),
            r@ == listing(final(self)@.tiles, entry_id@),
            r@.no_duplicates(),
    {
        self.process_queue();
        self.tiles.get(entry_id)
    }

    fn fetch_summary_tile(&mut self, entry_id: EntryID, tile_id: TileID)
        ensures
            final(self)@ == issue(
                drained(old(self)@),
                Work::FetchSummaryTile(entry_id, tile_id, Data::Requested),
            ),
    {
        self.process_queue();
        self.issue(Work::FetchSummaryTile(entry_id, tile_id, Data::Requested));
    }

    fn get_summary_tiles(&mut self, entry_id: &EntryID) -> (r: Vec<SummaryTile>)
        ensures
            final(self)@ == drained(old(self)@),
            r@.map_values(|x: SummaryTile| x@) == values_for(final(self)@.summary_tiles, entry_id@),
    {
        self.process_queue();
        self.summary_tiles.get_all(entry_id)
    }

    fn fetch_slot_tile(&mut self, entry_id: EntryID, tile_id: TileID)
        ensures
            final(self)@ == issue(
                drained(old(self)@),
                Work::FetchSlotTile(entry_id, tile_id, Data::Requested),
            ),
    {
        self.process_queue();
        self.issue(Work::FetchSlotTile(entry_id, tile_id, Data::Requested));
    }

    fn get_slot_tile(&mut self, entry_id: &EntryID) -> (r: Vec<SlotTile>)
        ensures
            final(self)@ == drained(old(self)@),
            r@.map_values(|x: SlotTile| x@) == values_for(final(self)@.slot_tiles, entry_id@),
    {
        self.process_queue();
        self.slot_tiles.get_all(entry_id)
    }

    fn fetch_slot_meta_tile(&mut self, entry_id: EntryID, tile_id: TileID)
        ensures
            final(self)@ == issue(
                drained(old(self)@),
                Work::FetchSlotMetaTile(entry_id, tile_id, Data::Requested),
            ),
    {
        self.process_queue();
        self.issue(Work::FetchSlotMetaTile(entry_id, tile_id, Data::Requested));
    }

    fn get_slot_meta_tile(&mut self, entry_id: &EntryID) -> (r: Vec<SlotMetaTile>)
        ensures
            final(self)@ == drained(old(self)@),
            r@.map_values(|x: SlotMetaTile| x@) == values_for(final(self)@.slot_meta_tiles, entry_id@),
    {
        self.process_queue();
        self.slot_meta_tiles.get_all(entry_id)
    }
}

} // verus!
