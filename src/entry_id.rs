use vstd::prelude::*;

use crate::interval::Interval;

verus! {

/// A path through the profile hierarchy (node, kind, slot, ...).
///
/// The root has no components; `child(i)` appends component `i`.
#[derive(Debug, Hash)]
pub struct EntryID {
    path: Vec<u64>,
}

impl View for EntryID {
    type V = Seq<u64>;

    closed spec fn view(&self) -> Seq<u64> {
        self.path@
    }
}

impl Clone for EntryID {
    fn clone(&self) -> (r: EntryID)
        ensures
            r@ == self@,
    {
        let path = self.path.clone();
        assert(path@ =~= self.path@);
        EntryID { path }
    }
}

impl PartialEq for EntryID {
    fn eq(&self, other: &EntryID) -> (r: bool)
        ensures
            r == (self@ == other@),
    {
        if self.path.len() != other.path.len() {
            return false;
        }
        let mut i: usize = 0;
        while i < self.path.len()
            invariant
                self.path.len() == other.path.len(),
                i <= self.path.len(),
                forall|j: int| 0 <= j < i ==> self@[j] == other@[j],
            decreases self.path.len() - i,
        {
            if self.path[i] != other.path[i] {
                return false;
            }
            i = i + 1;
        }
        assert(self@ =~= other@);
        true
    }
}

impl vstd::std_specs::cmp::PartialEqSpecImpl for EntryID {
    open spec fn obeys_eq_spec() -> bool {
        true
    }

    open spec fn eq_spec(&self, other: &EntryID) -> bool {
        self@ == other@
    }
}

impl Eq for EntryID {
}

impl EntryID {
    /// The entry with an empty path.
    pub fn root() -> (r: EntryID)
        ensures
            r@ == Seq::<u64>::empty(),
    {
        EntryID { path: Vec::new() }
    }

    /// Builds an entry from its path components.
    pub fn from_path(path: Vec<u64>) -> (r: EntryID)
        ensures
            r@ == path@,
    {
        EntryID { path }
    }

    /// The path components, root first.
    pub fn path(&self) -> (r: &Vec<u64>)
        ensures
            r@ == self@,
    {
        &self.path
    }

    /// The entry one level below this one, at index `index`.
    pub fn child(&self, index: u64) -> (r: EntryID)
        ensures
            r@ == self@.push(index),
    {
        let mut path = self.path.clone();
        assert(path@ =~= self.path@);
        path.push(index);
        EntryID { path }
    }

    /// The depth of the entry: the number of path components.
    pub fn level(&self) -> (r: u64)
        ensures
            r as int == self@.len(),
    {
        self.path.len() as u64
    }

    /// The path component at `level`, if the path is that deep.
    pub fn slot_index(&self, level: u64) -> (r: Option<u64>)
        ensures
            (level as int) < self@.len() ==> r == Some(self@[level as int]),
            (level as int) >= self@.len() ==> r.is_none(),
    {
        if level < self.path.len() as u64 {
            Some(self.path[level as usize])
        } else {
            None
        }
    }

    /// The last path component, or `None` for the root.
    pub fn last_slot_index(&self) -> (r: Option<u64>)
        ensures
            self@.len() > 0 ==> r == Some(self@.last()),
            self@.len() == 0 ==> r.is_none(),
    {
        if self.path.len() > 0 {
            Some(self.path[self.path.len() - 1])
        } else {
            None
        }
    }

    /// The ancestor at depth `level` (the entry itself when `level` is its
    /// own depth), or `None` when the entry is shallower than that.
    pub fn ancestor(&self, level: u64) -> (r: Option<EntryID>)
        ensures
            (level as int) <= self@.len() ==> (r matches Some(a) && a@ == self@.subrange(0, level as int)),
            (level as int) > self@.len() ==> r.is_none(),
    {
        if level > self.path.len() as u64 {
            return None;
        }
        let mut path: Vec<u64> = Vec::new();
        let mut i: usize = 0;
        while i < level as usize
            invariant
                level as int <= self@.len(),
                i <= level,
                path@ == self@.subrange(0, i as int),
            decreases level - i,
        {
            path.push(self.path[i]);
            i = i + 1;
            assert(path@ =~= self@.subrange(0, i as int));
        }
        Some(EntryID { path })
    }
}

/// The unit of cached data for one entry: the interval the tile covers.
#[derive(Clone, Copy, Debug, PartialEq, Eq, Structural, Hash)]
pub struct TileID(pub Interval);

} // verus!
