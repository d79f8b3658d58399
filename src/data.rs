use vstd::prelude::*;

use crate::entry_id::{EntryID, TileID};
use crate::interval::Interval;

verus! {

/// A value that a tile cache can hand out copies of.
pub trait CacheValue: Sized + View {
    fn duplicate(&self) -> (r: Self)
        ensures
            r@ == self@,
    ;
}

/// Copies a vector element by element, keeping the view of each element.
pub fn duplicate_all<T: CacheValue>(v: &Vec<T>) -> (r: Vec<T>)
    ensures
        r@.len() == v@.len(),
        forall|i: int| 0 <= i < v@.len() ==> (#[trigger] r@[i])@ == v@[i]@,
{
    let mut r: Vec<T> = Vec::new();
    let mut i: usize = 0;
    while i < v.len()
        invariant
            i <= v.len(),
            r@.len() == i,
            forall|k: int| 0 <= k < i ==> (#[trigger] r@[k])@ == v@[k]@,
        decreases v.len() - i,
    {
        r.push(v[i].duplicate());
        i = i + 1;
    }
    r
}

/// The views of the elements of `s`, in order.
pub open spec fn views<T: View>(s: Seq<T>) -> Seq<T::V> {
    s.map_values(|x: T| x@)
}

/// One utilization sample: a time and the utilization fraction at that
/// time, carried as the bit pattern of an IEEE-754 single-precision number.
#[derive(Clone, Copy, Debug, PartialEq, Eq, Structural, Hash)]
pub struct UtilPoint {
    pub time: i64,
    pub util_bits: u32,
}

impl UtilPoint {
    pub fn new(time: i64, util_bits: u32) -> (r: UtilPoint)
        ensures
            r.time == time,
            r.util_bits == util_bits,
    {
        UtilPoint { time, util_bits }
    }
}

/// Aggregate utilization samples of one entry over one tile.
#[derive(Debug)]
pub struct SummaryTile {
    pub entry_id: EntryID,
    pub tile_id: TileID,
    pub utilization: Vec<UtilPoint>,
}

impl View for SummaryTile {
    type V = (Seq<u64>, TileID, Seq<UtilPoint>);

    open spec fn view(&self) -> (Seq<u64>, TileID, Seq<UtilPoint>) {
        (self.entry_id@, self.tile_id, self.utilization@)
    }
}

impl CacheValue for SummaryTile {
    fn duplicate(&self) -> (r: SummaryTile) {
        let utilization = self.utilization.clone();
        assert(utilization@ =~= self.utilization@);
        SummaryTile { entry_id: self.entry_id.clone(), tile_id: self.tile_id, utilization }
    }
}

/// One timed item of a slot, without its metadata.
#[derive(Clone, Copy, Debug, PartialEq, Eq, Structural, Hash)]
pub struct Item {
    pub interval: Interval,
    pub color: u32,
    pub item_uid: u64,
}

/// A copyable vector row, as a cache value.
impl CacheValue for Vec<Item> {
    fn duplicate(&self) -> (r: Vec<Item>) {
        let r = self.clone();
        assert(r@ =~= self@);
        r
    }
}

/// The rows of items of one slot over one tile.
#[derive(Debug)]
pub struct SlotTile {
    pub entry_id: EntryID,
    pub tile_id: TileID,
    pub items: Vec<Vec<Item>>,
}

impl View for SlotTile {
    type V = (Seq<u64>, TileID, Seq<Seq<Item>>);

    open spec fn view(&self) -> (Seq<u64>, TileID, Seq<Seq<Item>>) {
        (self.entry_id@, self.tile_id, views(self.items@))
    }
}

impl CacheValue for SlotTile {
    fn duplicate(&self) -> (r: SlotTile) {
        let items = duplicate_all(&self.items);
        assert(views(items@) =~= views(self.items@));
        SlotTile { entry_id: self.entry_id.clone(), tile_id: self.tile_id, items }
    }
}

/// The value of one metadata field.
#[derive(Debug)]
pub enum FieldValue {
    I64(i64),
    U64(u64),
    Text(String),
    Interval(Interval),
    Empty,
}

impl Clone for FieldValue {
    fn clone(&self) -> (r: FieldValue)
        ensures
            r == *self,
    {
        match self {
            FieldValue::I64(v) => FieldValue::I64(*v),
            FieldValue::U64(v) => FieldValue::U64(*v),
            FieldValue::Text(s) => FieldValue::Text(s.clone()),
            FieldValue::Interval(i) => FieldValue::Interval(*i),
            FieldValue::Empty => FieldValue::Empty,
        }
    }
}

/// A named metadata field.
#[derive(Debug)]
pub struct Field {
    pub name: String,
    pub value: FieldValue,
}

impl Clone for Field {
    fn clone(&self) -> (r: Field)
        ensures
            r == *self,
    {
        Field { name: self.name.clone(), value: self.value.clone() }
    }
}

/// The full metadata of one item: its title and structured fields.
#[derive(Debug)]
pub struct ItemMeta {
    pub item_uid: u64,
    pub title: String,
    pub fields: Vec<Field>,
}

impl View for ItemMeta {
    type V = (u64, String, Seq<Field>);

    open spec fn view(&self) -> (u64, String, Seq<Field>) {
        (self.item_uid, self.title, self.fields@)
    }
}

impl CacheValue for ItemMeta {
    fn duplicate(&self) -> (r: ItemMeta) {
        let mut fields: Vec<Field> = Vec::new();
        let mut i: usize = 0;
        while i < self.fields.len()
            invariant
                i <= self.fields.len(),
                fields@ == self.fields@.subrange(0, i as int),
            decreases self.fields.len() - i,
        {
            fields.push(self.fields[i].clone());
            i = i + 1;
            assert(fields@ =~= self.fields@.subrange(0, i as int));
        }
        assert(fields@ =~= self.fields@);
        ItemMeta { item_uid: self.item_uid, title: self.title.clone(), fields }
    }
}

/// The views of the metadata rows of a slot meta tile.
pub open spec fn meta_rows(rows: Seq<Vec<ItemMeta>>) -> Seq<Seq<(u64, String, Seq<Field>)>> {
    rows.map_values(|row: Vec<ItemMeta>| views(row@))
}

/// The metadata of the items of one slot over one tile, laid out in the
/// same rows as the matching `SlotTile`.
#[derive(Debug)]
pub struct SlotMetaTile {
    pub entry_id: EntryID,
    pub tile_id: TileID,
    pub items: Vec<Vec<ItemMeta>>,
}

impl View for SlotMetaTile {
    type V = (Seq<u64>, TileID, Seq<Seq<(u64, String, Seq<Field>)>>);

    open spec fn view(&self) -> (Seq<u64>, TileID, Seq<Seq<(u64, String, Seq<Field>)>>) {
        (self.entry_id@, self.tile_id, meta_rows(self.items@))
    }
}

impl CacheValue for SlotMetaTile {
    fn duplicate(&self) -> (r: SlotMetaTile) {
        let mut items: Vec<Vec<ItemMeta>> = Vec::new();
        let mut i: usize = 0;
        while i < self.items.len()
            invariant
                i <= self.items.len(),
                items@.len() == i,
                meta_rows(items@) == meta_rows(self.items@.subrange(0, i as int)),
            decreases self.items.len() - i,
        {
            let row = duplicate_all(&self.items[i]);
            assert(views(row@) =~= views(self.items@[i as int]@));
            let ghost prev = items@;
            items.push(row);
            assert forall|k: int| 0 <= k <= i implies #[trigger] meta_rows(items@)[k] == meta_rows(
                self.items@.subrange(0, i + 1),
            )[k] by {
                if k < i {
                    assert(items@[k] == prev[k]);
                    assert(meta_rows(prev)[k] == meta_rows(self.items@.subrange(0, i as int))[k]);
                }
            }
            i = i + 1;
            assert(meta_rows(items@) =~= meta_rows(self.items@.subrange(0, i as int)));
        }
        assert(self.items@.subrange(0, self.items.len() as int) =~= self.items@);
        SlotMetaTile { entry_id: self.entry_id.clone(), tile_id: self.tile_id, items }
    }
}

/// The shape of one entry of the profile hierarchy, as the backend
/// describes it at startup.
#[derive(Debug)]
pub enum EntryInfo {
    Panel {
        short_name: String,
        long_name: String,
        summary: Option<Box<EntryInfo>>,
        slots: Vec<EntryInfo>,
    },
    Slot { short_name: String, long_name: String, max_rows: u64 },
    Summary { color: u32 },
}

impl Clone for EntryInfo {
    fn clone(&self) -> (r: EntryInfo)
        decreases self,
    {
        match self {
            EntryInfo::Panel { short_name, long_name, summary, slots } => {
                let summary = match summary {
                    Some(b) => Some(Box::new((**b).clone())),
                    None => None,
                };
                let mut copies: Vec<EntryInfo> = Vec::new();
                let mut i: usize = 0;
                #[verifier::loop_isolation(false)]
                while i < slots.len()
                    invariant
                        i <= slots.len(),
                    decreases slots.len() - i,
                {
                    proof {
                        broadcast use vstd::std_specs::vec::axiom_vec_decreases_to_view;
                        broadcast use vstd::std_specs::vec::axiom_vec_index_decreases;

                        assert(decreases_to!(*self => *slots));
                        assert(decreases_to!(*slots => slots@[i as int]));
                    }
                    copies.push(slots[i].clone());
                    i = i + 1;
                }
                EntryInfo::Panel {
                    short_name: short_name.clone(),
                    long_name: long_name.clone(),
                    summary,
                    slots: copies,
                }
            },
            EntryInfo::Slot { short_name, long_name, max_rows } => EntryInfo::Slot {
                short_name: short_name.clone(),
                long_name: long_name.clone(),
                max_rows: *max_rows,
            },
            EntryInfo::Summary { color } => EntryInfo::Summary { color: *color },
        }
    }
}

impl EntryInfo {
    /// The number of children of a panel (the nodes, for the root panel);
    /// zero for a slot or a summary.
    pub fn nodes(&self) -> (r: u64)
        ensures
            r == match self {
                EntryInfo::Panel { slots, .. } => slots@.len() as u64,
                _ => 0u64,
            },
    {
        match self {
            EntryInfo::Panel { slots, .. } => slots.len() as u64,
            _ => 0,
        }
    }
}

/// What the backend reports once at startup: the whole profile's interval
/// and its hierarchy.
#[derive(Debug)]
pub struct Initializer {
    pub interval: Interval,
    pub info: EntryInfo,
}

impl Clone for Initializer {
    fn clone(&self) -> (r: Initializer)
        ensures
            r.interval == self.interval,
    {
        Initializer { interval: self.interval, info: self.info.clone() }
    }
}

/// A backend that answers each request at once.
pub trait DataSource {
    fn init(&mut self) -> Initializer;

    fn interval(&mut self) -> Interval;

    fn fetch_tiles(&mut self, entry_id: &EntryID, request_interval: Interval) -> Vec<TileID>;

    fn fetch_summary_tile(&mut self, entry_id: &EntryID, tile_id: TileID) -> SummaryTile;

    fn fetch_slot_tile(&mut self, entry_id: &EntryID, tile_id: TileID) -> SlotTile;

    fn fetch_slot_meta_tile(&mut self, entry_id: &EntryID, tile_id: TileID) -> SlotMetaTile;
}

} // verus!
