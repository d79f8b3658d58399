use vstd::prelude::*;

use crate::entry_id::{EntryID, TileID};
use crate::interval::Interval;
use crate::ledger::FetchKind;
use crate::queue::Work;

verus! {

/// The body of a request for one tile of one entry.
#[derive(Debug)]
pub struct FetchRequest {
    pub entry_id: EntryID,
    pub tile_id: TileID,
}

/// The body of a request for the tiles of one entry over an interval.
#[derive(Debug)]
pub struct FetchTilesRequest {
    pub entry_id: EntryID,
    pub interval: Interval,
}

/// The raw text of a response.
#[derive(Debug)]
pub struct ProfResponse {
    pub body: String,
}

/// What a request carries to the backend.
#[derive(Debug)]
pub enum RequestBody {
    Empty,
    Tile(FetchRequest),
    Tiles(FetchTilesRequest),
}

/// The path of the backend endpoint that serves each kind of request.
pub fn endpoint(kind: FetchKind) -> (r: &'static str)
    ensures
        r@ == match kind {
            FetchKind::Info => "/info"@,
            FetchKind::Interval => "/interval"@,
            FetchKind::Tiles => "/tiles"@,
            FetchKind::SummaryTile => "/summary_tile"@,
            FetchKind::SlotTile => "/slot_tile"@,
            FetchKind::SlotMetaTile => "/slot_meta_tile"@,
        },
{
    match kind {
        FetchKind::Info => "/info",
        FetchKind::Interval => "/interval",
        FetchKind::Tiles => "/tiles",
        FetchKind::SummaryTile => "/summary_tile",
        FetchKind::SlotTile => "/slot_tile",
        FetchKind::SlotMetaTile => "/slot_meta_tile",
    }
}

/// The body that asks for `work`: the entry and tile for a tile request,
/// the entry and interval for a listing, nothing for profile-wide ones.
pub fn request_body(work: &Work) -> (r: RequestBody)
    ensures
        match *work {
            Work::FetchInfo(_) | Work::FetchInterval(_) => r is Empty,
            Work::FetchTiles(e, i, _) => r matches RequestBody::Tiles(b) && b.entry_id@ == e@ && b.interval == i,
            Work::FetchSummaryTile(e, t, _) | Work::FetchSlotTile(e, t, _) | Work::FetchSlotMetaTile(e, t, _) =>
                r matches RequestBody::Tile(b) && b.entry_id@ == e@ && b.tile_id == t,
        },
{
    match work {
        Work::FetchInfo(_) | Work::FetchInterval(_) => RequestBody::Empty,
        Work::FetchTiles(e, i, _) => RequestBody::Tiles(FetchTilesRequest { entry_id: e.clone(), interval: *i }),
        Work::FetchSummaryTile(e, t, _) | Work::FetchSlotTile(e, t, _) | Work::FetchSlotMetaTile(e, t, _) =>
            RequestBody::Tile(FetchRequest { entry_id: e.clone(), tile_id: *t }),
    }
}

} // verus!
