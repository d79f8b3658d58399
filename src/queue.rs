use vstd::prelude::*;

use crate::data::{Initializer, SlotMetaTile, SlotTile, SummaryTile};
use crate::entry_id::{EntryID, TileID};
use crate::interval::Interval;
use crate::ledger::{FetchKind, Fingerprint, FingerprintView, Subject};

verus! {

/// The state of a request's payload.
#[derive(Debug)]
pub enum Data<T> {
    /// Enqueued; the result is pending.
    Requested,
    /// The transport attached the result.
    Ready(T),
    /// The transport gave up, for the reason given.
    Failed(String),
}

/// One unit of deferred work: which operation, on what, and its payload.
#[derive(Debug)]
pub enum Work {
    FetchInfo(Data<Initializer>),
    FetchInterval(Data<Interval>),
    FetchTiles(EntryID, Interval, Data<Vec<TileID>>),
    FetchSummaryTile(EntryID, TileID, Data<SummaryTile>),
    FetchSlotTile(EntryID, TileID, Data<SlotTile>),
    FetchSlotMetaTile(EntryID, TileID, Data<SlotMetaTile>),
}

/// Whether the item still waits for its result.
pub open spec fn is_requested(w: Work) -> bool {
    match w {
        Work::FetchInfo(d) => d is Requested,
        Work::FetchInterval(d) => d is Requested,
        Work::FetchTiles(_, _, d) => d is Requested,
        Work::FetchSummaryTile(_, _, d) => d is Requested,
        Work::FetchSlotTile(_, _, d) => d is Requested,
        Work::FetchSlotMetaTile(_, _, d) => d is Requested,
    }
}

/// Whether the transport reported the item as failed.
pub open spec fn is_failed(w: Work) -> bool {
    match w {
        Work::FetchInfo(d) => d is Failed,
        Work::FetchInterval(d) => d is Failed,
        Work::FetchTiles(_, _, d) => d is Failed,
        Work::FetchSummaryTile(_, _, d) => d is Failed,
        Work::FetchSlotTile(_, _, d) => d is Failed,
        Work::FetchSlotMetaTile(_, _, d) => d is Failed,
    }
}

/// The request an item answers: entry (the root for profile-wide
/// requests), subject and operation.
pub open spec fn fingerprint_of(w: Work) -> FingerprintView {
    match w {
        Work::FetchInfo(_) => (Seq::empty(), Subject::Whole, FetchKind::Info),
        Work::FetchInterval(_) => (Seq::empty(), Subject::Whole, FetchKind::Interval),
        Work::FetchTiles(e, i, _) => (e@, Subject::Range(i), FetchKind::Tiles),
        Work::FetchSummaryTile(e, t, _) => (e@, Subject::Tile(t), FetchKind::SummaryTile),
        Work::FetchSlotTile(e, t, _) => (e@, Subject::Tile(t), FetchKind::SlotTile),
        Work::FetchSlotMetaTile(e, t, _) => (e@, Subject::Tile(t), FetchKind::SlotMetaTile),
    }
}

fn data_is_requested<T>(d: &Data<T>) -> (r: bool)
    ensures
        r == d is Requested,
{
    match d {
        Data::Requested => true,
        _ => false,
    }
}

impl Work {
    pub fn is_requested(&self) -> (r: bool)
        ensures
            r == is_requested(*self),
    {
        match self {
            Work::FetchInfo(d) => data_is_requested(d),
            Work::FetchInterval(d) => data_is_requested(d),
            Work::FetchTiles(_, _, d) => data_is_requested(d),
            Work::FetchSummaryTile(_, _, d) => data_is_requested(d),
            Work::FetchSlotTile(_, _, d) => data_is_requested(d),
            Work::FetchSlotMetaTile(_, _, d) => data_is_requested(d),
        }
    }

    /// The fingerprint of the request this item answers.
    pub fn fingerprint(&self) -> (r: Fingerprint)
        ensures
            r@ == fingerprint_of(*self),
    {
        match self {
            Work::FetchInfo(_) => Fingerprint::new(EntryID::root(), Subject::Whole, FetchKind::Info),
            Work::FetchInterval(_) => Fingerprint::new(EntryID::root(), Subject::Whole, FetchKind::Interval),
            Work::FetchTiles(e, i, _) => Fingerprint::new(e.clone(), Subject::Range(*i), FetchKind::Tiles),
            Work::FetchSummaryTile(e, t, _) => Fingerprint::new(
                e.clone(),
                Subject::Tile(*t),
                FetchKind::SummaryTile,
            ),
            Work::FetchSlotTile(e, t, _) => Fingerprint::new(e.clone(), Subject::Tile(*t), FetchKind::SlotTile),
            Work::FetchSlotMetaTile(e, t, _) => Fingerprint::new(
                e.clone(),
                Subject::Tile(*t),
                FetchKind::SlotMetaTile,
            ),
        }
    }

    /// The operation of this item.
    pub fn kind(&self) -> (r: FetchKind)
        ensures
            r == fingerprint_of(*self).2,
    {
        match self {
            Work::FetchInfo(_) => FetchKind::Info,
            Work::FetchInterval(_) => FetchKind::Interval,
            Work::FetchTiles(..) => FetchKind::Tiles,
            Work::FetchSummaryTile(..) => FetchKind::SummaryTile,
            Work::FetchSlotTile(..) => FetchKind::SlotTile,
            Work::FetchSlotMetaTile(..) => FetchKind::SlotMetaTile,
        }
    }
}

} // verus!
