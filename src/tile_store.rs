use vstd::prelude::*;

use crate::data::CacheValue;
use crate::entry_id::{EntryID, TileID};

verus! {

/// The values cached for entry `e`, in the order of `s`.
pub open spec fn values_for<V>(s: Seq<(Seq<u64>, TileID, V)>, e: Seq<u64>) -> Seq<V>
    decreases s.len(),
{
    if s.len() == 0 {
        Seq::empty()
    } else {
        let rest = values_for(s.drop_last(), e);
        if s.last().0 == e {
            rest.push(s.last().2)
        } else {
            rest
        }
    }
}

/// `s` without the values of entry `e`, order kept.
pub open spec fn without_entry<V>(s: Seq<(Seq<u64>, TileID, V)>, e: Seq<u64>) -> Seq<(Seq<u64>, TileID, V)>
    decreases s.len(),
{
    if s.len() == 0 {
        Seq::empty()
    } else {
        let rest = without_entry(s.drop_last(), e);
        if s.last().0 == e {
            rest
        } else {
            rest.push(s.last())
        }
    }
}

/// Whether `s` holds a value for the key `(e, t)`.
pub open spec fn has_key<V>(s: Seq<(Seq<u64>, TileID, V)>, e: Seq<u64>, t: TileID) -> bool {
    exists|i: int| 0 <= i < s.len() && (#[trigger] s[i]).0 == e && s[i].1 == t
}

/// `s` after storing `v` under `(e, t)`: the value in place replaced, or
/// appended when the key is new.
pub open spec fn put_value<V>(s: Seq<(Seq<u64>, TileID, V)>, e: Seq<u64>, t: TileID, v: V) -> Seq<(Seq<u64>, TileID, V)> {
    if has_key(s, e, t) {
        s.update(choose|i: int| 0 <= i < s.len() && (#[trigger] s[i]).0 == e && s[i].1 == t, (e, t, v))
    } else {
        s.push((e, t, v))
    }
}

/// Tiles of one kind, keyed by entry and tile, in insertion order.
#[derive(Debug)]
pub struct TileStore<T> {
    entries: Vec<(EntryID, TileID, T)>,
}

impl<T: CacheValue> TileStore<T> {
    /// The cached values, each with its key, in insertion order.
    pub closed spec fn model(self) -> Seq<(Seq<u64>, TileID, T::V)> {
        self.entries@.map_values(|x: (EntryID, TileID, T)| (x.0@, x.1, x.2@))
    }

    /// No key is stored twice.
    pub open spec fn wf(self) -> bool {
        forall|i: int, j: int|
            0 <= i < self.model().len() && 0 <= j < self.model().len() && i != j ==> (
            #[trigger] self.model()[i]).0 != (#[trigger] self.model()[j]).0 || self.model()[i].1
                != self.model()[j].1
    }

    pub fn new() -> (r: TileStore<T>)
        ensures
            r.wf(),
            r.model() == Seq::<(Seq<u64>, TileID, T::V)>::empty(),
    {
        let r = TileStore { entries: Vec::new() };
        assert(r.model() =~= Seq::<(Seq<u64>, TileID, T::V)>::empty());
        r
    }

    fn find(&self, entry_id: &EntryID, tile_id: TileID) -> (r: Option<usize>)
        ensures
            r matches Some(i) ==> i < self.model().len() && self.model()[i as int].0 == entry_id@
                && self.model()[i as int].1 == tile_id,
            r is None ==> !has_key(self.model(), entry_id@, tile_id),
    {
        let mut i: usize = 0;
        while i < self.entries.len()
            invariant
                i <= self.entries.len(),
                forall|k: int|
                    0 <= k < i ==> (#[trigger] self.model()[k]).0 != entry_id@ || self.model()[k].1
                        != tile_id,
            decreases self.entries.len() - i,
        {
            if self.entries[i].1 == tile_id && self.entries[i].0 == *entry_id {
                return Some(i);
            }
            i = i + 1;
        }
        None
    }

    /// Stores `value` under `(entry_id, tile_id)`; a later write for the
    /// same key replaces the earlier one.
    pub fn put(&mut self, entry_id: EntryID, tile_id: TileID, value: T)
        requires
            old(self).wf(),
        ensures
            final(self).wf(),
            final(self).model() == put_value(old(self).model(), entry_id@, tile_id, value@),
    {
        let ghost before = self.model();
        let ghost e = entry_id@;
        let ghost v = value@;
        match self.find(&entry_id, tile_id) {
            Some(i) => {
                self.entries.set(i, (entry_id, tile_id, value));
                proof {
                    let c = choose|c: int| 0 <= c < before.len() && (#[trigger] before[c]).0 == e && before[c].1 == tile_id;
                    assert(c == i);
                    assert(self.model() =~= before.update(i as int, (e, tile_id, v)));
                }
            },
            None => {
                self.entries.push((entry_id, tile_id, value));
                assert(self.model() =~= before.push((e, tile_id, v)));
                assert forall|a: int, b: int|
                    0 <= a < self.model().len() && 0 <= b < self.model().len() && a != b implies (
                    #[trigger] self.model()[a]).0 != (#[trigger] self.model()[b]).0 || self.model()[a].1
                        != self.model()[b].1 by {
                    if a == before.len() as int {
                        assert(!(before[b].0 == e && before[b].1 == tile_id));
                    }
                    if b == before.len() as int {
                        assert(!(before[a].0 == e && before[a].1 == tile_id));
                    }
                }
            },
        }
    }

    /// The value stored under `(entry_id, tile_id)`, if any.
    pub fn get(&self, entry_id: &EntryID, tile_id: TileID) -> (r: Option<T>)
        requires
            self.wf(),
        ensures
            r is Some == has_key(self.model(), entry_id@, tile_id),
            r matches Some(v) ==> exists|i: int|
                0 <= i < self.model().len() && (#[trigger] self.model()[i]) == (entry_id@, tile_id, v@),
    {
        match self.find(entry_id, tile_id) {
            Some(i) => {
                let v = self.entries[i].2.duplicate();
                assert(self.model()[i as int] == (entry_id@, tile_id, v@));
                Some(v)
            },
            None => None,
        }
    }

    /// Everything cached for `entry_id`, in insertion order.
    pub fn get_all(&self, entry_id: &EntryID) -> (r: Vec<T>)
        ensures
            r@.map_values(|x: T| x@) == values_for(self.model(), entry_id@),
    {
        let mut r: Vec<T> = Vec::new();
        let mut i: usize = 0;
        while i < self.entries.len()
            invariant
                i <= self.entries.len(),
                r@.map_values(|x: T| x@) == values_for(self.model().subrange(0, i as int), entry_id@),
            decreases self.entries.len() - i,
        {
            let ghost prev = r@;
            assert(self.model().subrange(0, i + 1).drop_last() =~= self.model().subrange(0, i as int));
            if self.entries[i].0 == *entry_id {
                r.push(self.entries[i].2.duplicate());
                assert(r@.map_values(|x: T| x@) =~= prev.map_values(|x: T| x@).push(self.model()[i as int].2));
            }
            i = i + 1;
        }
        assert(self.model().subrange(0, self.entries.len() as int) =~= self.model());
        r
    }

    /// Drops everything cached for `entry_id`.
    pub fn invalidate(&mut self, entry_id: &EntryID)
        requires
            old(self).wf(),
        ensures
            final(self).wf(),
            final(self).model() == without_entry(old(self).model(), entry_id@),
    {
        let mut kept: Vec<(EntryID, TileID, T)> = Vec::new();
        let mut i: usize = 0;
        while i < self.entries.len()
            invariant
                i <= self.entries.len(),
                kept@.map_values(|x: (EntryID, TileID, T)| (x.0@, x.1, x.2@)) == without_entry(
                    self.model().subrange(0, i as int),
                    entry_id@,
                ),
            decreases self.entries.len() - i,
        {
            let ghost prev = kept@;
            assert(self.model().subrange(0, i + 1).drop_last() =~= self.model().subrange(0, i as int));
            if !(self.entries[i].0 == *entry_id) {
                let item = (self.entries[i].0.clone(), self.entries[i].1, self.entries[i].2.duplicate());
                kept.push(item);
                assert(kept@.map_values(|x: (EntryID, TileID, T)| (x.0@, x.1, x.2@)) =~= prev.map_values(
                    |x: (EntryID, TileID, T)| (x.0@, x.1, x.2@),
                ).push(self.model()[i as int]));
            }
            i = i + 1;
        }
        assert(self.model().subrange(0, self.entries.len() as int) =~= self.model());
        let ghost before = self.model();
        self.entries = kept;
        proof {
            lemma_without_entry_keeps_order(before, entry_id@);
        }
    }
}

/// Every element of `without_entry(s, e)` comes from `s`, at a position
/// that grows with its position in the result.
proof fn lemma_without_entry_keeps_order<V>(s: Seq<(Seq<u64>, TileID, V)>, e: Seq<u64>)
    requires
        forall|i: int, j: int|
            0 <= i < s.len() && 0 <= j < s.len() && i != j ==> (#[trigger] s[i]).0 != (#[trigger] s[j]).0
                || s[i].1 != s[j].1,
    ensures
        forall|i: int, j: int|
            0 <= i < without_entry(s, e).len() && 0 <= j < without_entry(s, e).len() && i != j ==> (
            #[trigger] without_entry(s, e)[i]).0 != (#[trigger] without_entry(s, e)[j]).0
                || without_entry(s, e)[i].1 != without_entry(s, e)[j].1,
        forall|i: int|
            0 <= i < without_entry(s, e).len() ==> #[trigger] s.contains(without_entry(s, e)[i]),
    decreases s.len(),
{
    if s.len() > 0 {
        let t = s.drop_last();
        assert forall|i: int, j: int|
            0 <= i < t.len() && 0 <= j < t.len() && i != j implies (#[trigger] t[i]).0 != (
            #[trigger] t[j]).0 || t[i].1 != t[j].1 by {
            assert(t[i] == s[i] && t[j] == s[j]);
        }
        lemma_without_entry_keeps_order(t, e);
        let rest = without_entry(t, e);
        assert forall|i: int| 0 <= i < rest.len() implies #[trigger] s.contains(rest[i]) by {
            assert(t.contains(rest[i]));
            let k = choose|k: int| 0 <= k < t.len() && t[k] == rest[i];
            assert(s[k] == rest[i]);
        }
        if s.last().0 != e {
            let r = rest.push(s.last());
            assert(s[s.len() - 1] == s.last());
            assert forall|i: int, j: int|
                0 <= i < r.len() && 0 <= j < r.len() && i != j implies (#[trigger] r[i]).0 != (
                #[trigger] r[j]).0 || r[i].1 != r[j].1 by {
                if i == rest.len() && j < rest.len() {
                    assert(t.contains(rest[j]));
                    let k = choose|k: int| 0 <= k < t.len() && t[k] == rest[j];
                    assert(s[k] == t[k]);
                } else if j == rest.len() && i < rest.len() {
                    assert(t.contains(rest[i]));
                    let k = choose|k: int| 0 <= k < t.len() && t[k] == rest[i];
                    assert(s[k] == t[k]);
                } else if i < rest.len() && j < rest.len() {
                    assert(r[i] == rest[i] && r[j] == rest[j]);
                }
            }
            assert forall|i: int| 0 <= i < r.len() implies #[trigger] s.contains(r[i]) by {
                if i < rest.len() {
                    assert(r[i] == rest[i]);
                    assert(s.contains(rest[i]));
                } else {
                    assert(s[s.len() - 1] == r[i]);
                }
            }
        }
    }
}

} // verus!
