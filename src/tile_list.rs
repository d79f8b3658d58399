use vstd::prelude::*;

use crate::entry_id::{EntryID, TileID};

verus! {

/// Adds `tile` to `known` unless it is already there.
pub open spec fn add_tile(known: Seq<TileID>, tile: TileID) -> Seq<TileID> {
    if known.contains(tile) {
        known
    } else {
        known.push(tile)
    }
}

/// Folds `incoming` into `known` in order, skipping tiles already present.
pub open spec fn merge_tiles(known: Seq<TileID>, incoming: Seq<TileID>) -> Seq<TileID>
    decreases incoming.len(),
{
    if incoming.len() == 0 {
        known
    } else {
        merge_tiles(add_tile(known, incoming[0]), incoming.drop_first())
    }
}

/// Merging keeps a duplicate-free listing duplicate-free and yields the
/// set union of what was known and what came in.
pub proof fn lemma_merge_is_union(known: Seq<TileID>, incoming: Seq<TileID>)
    requires
        known.no_duplicates(),
    ensures
        merge_tiles(known, incoming).no_duplicates(),
        merge_tiles(known, incoming).to_set() == known.to_set() + incoming.to_set(),
    decreases incoming.len(),
{
    if incoming.len() > 0 {
        let next = add_tile(known, incoming[0]);
        if !known.contains(incoming[0]) {
            assert forall|i: int, j: int|
                0 <= i < next.len() && 0 <= j < next.len() && i != j implies next[i] != next[j] by {
                if i == known.len() as int {
                    assert(known[j] == next[j]);
                } else if j == known.len() as int {
                    assert(known[i] == next[i]);
                }
            }
        }
        lemma_merge_is_union(next, incoming.drop_first());
        assert(next.to_set() =~= known.to_set().insert(incoming[0])) by {
            if !known.contains(incoming[0]) {
                assert forall|t: TileID| next.contains(t) <==> known.contains(t) || t == incoming[0] by {
                    if known.contains(t) {
                        let i = choose|i: int| 0 <= i < known.len() && known[i] == t;
                        assert(next[i] == t);
                    }
                    if next.contains(t) && t != incoming[0] {
                        let i = choose|i: int| 0 <= i < next.len() && next[i] == t;
                        assert(known[i] == t);
                    }
                    if t == incoming[0] {
                        assert(next[known.len() as int] == t);
                    }
                }
            }
        }
        assert(incoming.to_set() =~= incoming.drop_first().to_set().insert(incoming[0])) by {
            assert forall|t: TileID| incoming.contains(t) <==> incoming.drop_first().contains(t) || t == incoming[0] by {
                if incoming.contains(t) && t != incoming[0] {
                    let i = choose|i: int| 0 <= i < incoming.len() && incoming[i] == t;
                    assert(incoming.drop_first()[i - 1] == t);
                }
                if incoming.drop_first().contains(t) {
                    let i = choose|i: int| 0 <= i < incoming.len() - 1 && incoming.drop_first()[i] == t;
                    assert(incoming[i + 1] == t);
                }
                if t == incoming[0] {
                    assert(incoming[0] == t);
                }
            }
        }
        assert(merge_tiles(known, incoming).to_set() =~= known.to_set() + incoming.to_set());
    } else {
        assert(incoming.to_set() =~= Set::<TileID>::empty());
        assert(known.to_set() + incoming.to_set() =~= known.to_set());
    }
}

/// Two tile listings for one entry, merged one after the other into an
/// empty listing, give exactly the set union of their tiles, without
/// duplicates, whichever order they arrive in.
pub proof fn lemma_listings_accumulate(first: Seq<TileID>, second: Seq<TileID>)
    ensures
        merge_tiles(merge_tiles(Seq::empty(), first), second).no_duplicates(),
        merge_tiles(merge_tiles(Seq::empty(), first), second).to_set() == first.to_set() + second.to_set(),
        merge_tiles(merge_tiles(Seq::empty(), second), first).to_set() == first.to_set() + second.to_set(),
{
    let empty = Seq::<TileID>::empty();
    lemma_merge_is_union(empty, first);
    lemma_merge_is_union(merge_tiles(empty, first), second);
    lemma_merge_is_union(empty, second);
    lemma_merge_is_union(merge_tiles(empty, second), first);
    assert(empty.to_set() =~= Set::<TileID>::empty());
    assert(first.to_set() + second.to_set() =~= second.to_set() + first.to_set());
    assert(empty.to_set() + first.to_set() =~= first.to_set());
    assert(empty.to_set() + second.to_set() =~= second.to_set());
}

/// Merges `incoming` into `known`, in place, skipping tiles already there.
pub fn merge_into(known: &mut Vec<TileID>, incoming: &Vec<TileID>)
    ensures
        final(known)@ == merge_tiles(old(known)@, incoming@),
{
    let mut i: usize = 0;
    assert(incoming@.subrange(0, incoming.len() as int) =~= incoming@);
    while i < incoming.len()
        invariant
            i <= incoming.len(),
            merge_tiles(known@, incoming@.subrange(i as int, incoming.len() as int)) == merge_tiles(
                old(known)@,
                incoming@,
            ),
        decreases incoming.len() - i,
    {
        let ghost rest = incoming@.subrange(i as int, incoming.len() as int);
        let tile = incoming[i];
        let mut found = false;
        let mut j: usize = 0;
        while j < known.len()
            invariant
                j <= known.len(),
                found == (exists|k: int| 0 <= k < j && known@[k] == tile),
            decreases known.len() - j,
        {
            if known[j] == tile {
                found = true;
            }
            j = j + 1;
        }
        assert(found == known@.contains(tile));
        assert(rest[0] == tile);
        assert(rest.drop_first() =~= incoming@.subrange(i + 1, incoming.len() as int));
        if !found {
            known.push(tile);
        }
        i = i + 1;
    }
    assert(incoming@.subrange(incoming.len() as int, incoming.len() as int) =~= Seq::<TileID>::empty());
}

/// The listing that `m` holds for entry `e`, empty when it holds none.
pub open spec fn listing(m: Map<Seq<u64>, Seq<TileID>>, e: Seq<u64>) -> Seq<TileID> {
    if m.contains_key(e) {
        m[e]
    } else {
        Seq::empty()
    }
}

/// For each entry, the tiles known to exist, accumulated over every
/// listing received for it.
#[derive(Debug)]
pub struct TileListCache {
    lists: Vec<(EntryID, Vec<TileID>)>,
}

impl View for TileListCache {
    type V = Map<Seq<u64>, Seq<TileID>>;

    closed spec fn view(&self) -> Map<Seq<u64>, Seq<TileID>> {
        Map::new(|e: Seq<u64>| self.has_entry(e), |e: Seq<u64>| self.tiles_of(e))
    }
}

impl TileListCache {
    pub closed spec fn keys_unique(self) -> bool {
        forall|i: int, j: int|
            0 <= i < self.lists.len() && 0 <= j < self.lists.len() && i != j ==> (
            #[trigger] self.lists@[i]).0@ != (#[trigger] self.lists@[j]).0@
    }

    closed spec fn has_entry(self, e: Seq<u64>) -> bool {
        exists|i: int| 0 <= i < self.lists.len() && (#[trigger] self.lists@[i]).0@ == e
    }

    closed spec fn tiles_of(self, e: Seq<u64>) -> Seq<TileID> {
        if self.has_entry(e) {
            self.lists@[choose|i: int| 0 <= i < self.lists.len() && (#[trigger] self.lists@[i]).0@ == e].1@
        } else {
            Seq::empty()
        }
    }

    /// Keys are unique and every listing is duplicate-free.
    pub closed spec fn wf(self) -> bool {
        &&& self.keys_unique()
        &&& forall|i: int| 0 <= i < self.lists.len() ==> (#[trigger] self.lists@[i]).1@.no_duplicates()
    }

    proof fn lemma_at(self, i: int)
        requires
            self.wf(),
            0 <= i < self.lists.len(),
        ensures
            self.tiles_of(self.lists@[i].0@) == self.lists@[i].1@,
    {
        let e = self.lists@[i].0@;
        assert(self.has_entry(e));
        let j = choose|j: int| 0 <= j < self.lists.len() && (#[trigger] self.lists@[j]).0@ == e;
        assert(i == j);
    }

    pub fn new() -> (r: TileListCache)
        ensures
            r.wf(),
            r@ == Map::<Seq<u64>, Seq<TileID>>::empty(),
    {
        let r = TileListCache { lists: Vec::new() };
        assert(r@ =~= Map::<Seq<u64>, Seq<TileID>>::empty());
        r
    }

    fn find(&self, entry_id: &EntryID) -> (r: Option<usize>)
        requires
            self.wf(),
        ensures
            r matches Some(i) ==> i < self.lists.len() && self.lists@[i as int].0@ == entry_id@,
            r is None ==> !self.has_entry(entry_id@),
    {
        let mut i: usize = 0;
        while i < self.lists.len()
            invariant
                i <= self.lists.len(),
                forall|k: int| 0 <= k < i ==> (#[trigger] self.lists@[k]).0@ != entry_id@,
            decreases self.lists.len() - i,
        {
            if self.lists[i].0 == *entry_id {
                return Some(i);
            }
            i = i + 1;
        }
        None
    }

    /// The tiles known for `entry_id`, in the order they were first seen.
    pub fn get(&self, entry_id: &EntryID) -> (r: Vec<TileID>)
        requires
            self.wf(),
        ensures
            r@ == listing(self@, entry_id@),
            r@.no_duplicates(),
    {
        match self.find(entry_id) {
            Some(i) => {
                proof {
                    self.lemma_at(i as int);
                }
                let r = self.lists[i].1.clone();
                assert(r@ =~= self.lists@[i as int].1@);
                r
            },
            None => Vec::new(),
        }
    }

    /// Folds a listing for `entry_id` into what is known, by set union.
    pub fn merge(&mut self, entry_id: &EntryID, incoming: &Vec<TileID>)
        requires
            old(self).wf(),
        ensures
            final(self).wf(),
            final(self)@ == old(self)@.insert(entry_id@, merge_tiles(listing(old(self)@, entry_id@), incoming@)),
    {
        let ghost before = *self;
        match self.find(entry_id) {
            Some(i) => {
                proof {
                    before.lemma_at(i as int);
                }
                let mut known: Vec<TileID> = Vec::new();
                std::mem::swap(&mut known, &mut self.lists[i].1);
                let ghost old_known = known@;
                merge_into(&mut known, incoming);
                proof {
                    lemma_merge_is_union(old_known, incoming@);
                }
                std::mem::swap(&mut known, &mut self.lists[i].1);
                assert(self.wf()) by {
                    assert forall|k: int| 0 <= k < self.lists.len() implies (#[trigger] self.lists@[k]).1@.no_duplicates() by {
                        if k != i {
                            assert(self.lists@[k] == before.lists@[k]);
                        }
                    }
                    assert forall|a: int, b: int|
                        0 <= a < self.lists.len() && 0 <= b < self.lists.len() && a != b implies (
                        #[trigger] self.lists@[a]).0@ != (#[trigger] self.lists@[b]).0@ by {
                        assert(before.lists@[a].0 == self.lists@[a].0);
                        assert(before.lists@[b].0 == self.lists@[b].0);
                    }
                }
                proof {
                    self.lemma_at(i as int);
                }
                assert forall|e: Seq<u64>| e != entry_id@ implies #[trigger] self.tiles_of(e) == before.tiles_of(e) by {
                    if before.has_entry(e) {
                        let k = choose|k: int| 0 <= k < before.lists.len() && (#[trigger] before.lists@[k]).0@ == e;
                        before.lemma_at(k);
                        assert(self.lists@[k] == before.lists@[k]);
                        self.lemma_at(k);
                    } else {
                        assert(!self.has_entry(e)) by {
                            if self.has_entry(e) {
                                let k = choose|k: int| 0 <= k < self.lists.len() && (#[trigger] self.lists@[k]).0@ == e;
                                assert(before.lists@[k].0 == self.lists@[k].0);
                            }
                        }
                    }
                }
                assert forall|e: Seq<u64>| #[trigger] self.has_entry(e) == before.has_entry(e) by {
                    if self.has_entry(e) {
                        let k = choose|k: int| 0 <= k < self.lists.len() && (#[trigger] self.lists@[k]).0@ == e;
                        assert(before.lists@[k].0 == self.lists@[k].0);
                    }
                    if before.has_entry(e) {
                        let k = choose|k: int| 0 <= k < before.lists.len() && (#[trigger] before.lists@[k]).0@ == e;
                        assert(before.lists@[k].0 == self.lists@[k].0);
                    }
                }
                assert(self.has_entry(entry_id@));
                assert(self@ =~= before@.insert(entry_id@, merge_tiles(listing(before@, entry_id@), incoming@)));
            },
            None => {
                let mut known: Vec<TileID> = Vec::new();
                let ghost old_known = known@;
                merge_into(&mut known, incoming);
                proof {
                    lemma_merge_is_union(old_known, incoming@);
                }
                self.lists.push((entry_id.clone(), known));
                assert(self.wf()) by {
                    assert forall|k: int| 0 <= k < self.lists.len() implies (#[trigger] self.lists@[k]).1@.no_duplicates() by {
                        if k < before.lists.len() {
                            assert(self.lists@[k] == before.lists@[k]);
                        }
                    }
                    assert forall|a: int, b: int|
                        0 <= a < self.lists.len() && 0 <= b < self.lists.len() && a != b implies (
                        #[trigger] self.lists@[a]).0@ != (#[trigger] self.lists@[b]).0@ by {
                        if a < before.lists.len() {
                            assert(self.lists@[a] == before.lists@[a]);
                        }
                        if b < before.lists.len() {
                            assert(self.lists@[b] == before.lists@[b]);
                        }
                    }
                }
                proof {
                    self.lemma_at(before.lists.len() as int);
                }
                assert forall|e: Seq<u64>| e != entry_id@ implies #[trigger] self.tiles_of(e) == before.tiles_of(e) by {
                    if before.has_entry(e) {
                        let k = choose|k: int| 0 <= k < before.lists.len() && (#[trigger] before.lists@[k]).0@ == e;
                        before.lemma_at(k);
                        assert(self.lists@[k] == before.lists@[k]);
                        self.lemma_at(k);
                    } else {
                        assert(!self.has_entry(e)) by {
                            if self.has_entry(e) {
                                let k = choose|k: int| 0 <= k < self.lists.len() && (#[trigger] self.lists@[k]).0@ == e;
                                if k < before.lists.len() {
                                    assert(before.lists@[k] == self.lists@[k]);
                                }
                            }
                        }
                    }
                }
                assert forall|e: Seq<u64>| e != entry_id@ implies #[trigger] self.has_entry(e) == before.has_entry(e) by {
                    if self.has_entry(e) {
                        let k = choose|k: int| 0 <= k < self.lists.len() && (#[trigger] self.lists@[k]).0@ == e;
                        if k < before.lists.len() {
                            assert(before.lists@[k] == self.lists@[k]);
                        }
                    }
                    if before.has_entry(e) {
                        let k = choose|k: int| 0 <= k < before.lists.len() && (#[trigger] before.lists@[k]).0@ == e;
                        assert(before.lists@[k] == self.lists@[k]);
                    }
                }
                assert(self.has_entry(entry_id@)) by {
                    assert(self.lists@[before.lists.len() as int].0@ == entry_id@);
                }
                assert(self@ =~= before@.insert(entry_id@, merge_tiles(listing(before@, entry_id@), incoming@)));
            },
        }
    }
}

} // verus!
