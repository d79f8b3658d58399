use vstd::prelude::*;

use crate::entry_id::{EntryID, TileID};
use crate::interval::Interval;

verus! {

/// Which of the deferred operations a request is.
#[derive(Clone, Copy, Debug, PartialEq, Eq, Structural, Hash)]
pub enum FetchKind {
    Info,
    Interval,
    Tiles,
    SummaryTile,
    SlotTile,
    SlotMetaTile,
}

/// What a request is about: a time range, one tile, or the whole profile.
#[derive(Clone, Copy, Debug, PartialEq, Eq, Structural, Hash)]
pub enum Subject {
    Whole,
    Range(Interval),
    Tile(TileID),
}

/// The identity of one logical request: entry, subject and operation.
#[derive(Debug)]
pub struct Fingerprint {
    pub entry_id: EntryID,
    pub subject: Subject,
    pub kind: FetchKind,
}

/// The mathematical value of a fingerprint.
pub type FingerprintView = (Seq<u64>, Subject, FetchKind);

impl View for Fingerprint {
    type V = FingerprintView;

    open spec fn view(&self) -> FingerprintView {
        (self.entry_id@, self.subject, self.kind)
    }
}

impl Fingerprint {
    pub fn new(entry_id: EntryID, subject: Subject, kind: FetchKind) -> (r: Fingerprint)
        ensures
            r@ == (entry_id@, subject, kind),
    {
        Fingerprint { entry_id, subject, kind }
    }

    pub fn same(&self, other: &Fingerprint) -> (r: bool)
        ensures
            r == (self@ == other@),
    {
        self.kind == other.kind && self.subject == other.subject && self.entry_id == other.entry_id
    }

    pub fn duplicate(&self) -> (r: Fingerprint)
        ensures
            r@ == self@,
    {
        Fingerprint { entry_id: self.entry_id.clone(), subject: self.subject, kind: self.kind }
    }
}

/// The set of requests that were issued and may not be issued again until
/// the ledger is cleared or the request is released.
#[derive(Debug)]
pub struct DedupLedger {
    stamps: Vec<Fingerprint>,
}

/// Whether some fingerprint of `s` has the value `f`.
pub open spec fn recorded(s: Seq<Fingerprint>, f: FingerprintView) -> bool {
    exists|i: int| 0 <= i < s.len() && (#[trigger] s[i])@ == f
}

impl View for DedupLedger {
    type V = Set<FingerprintView>;

    closed spec fn view(&self) -> Set<FingerprintView> {
        Set::new(|f: FingerprintView| recorded(self.stamps@, f))
    }
}

impl DedupLedger {
    pub fn new() -> (r: DedupLedger)
        ensures
            r@ == Set::<FingerprintView>::empty(),
    {
        let r = DedupLedger { stamps: Vec::new() };
        assert(r@ =~= Set::<FingerprintView>::empty());
        r
    }

    /// Whether the request was already issued.
    pub fn contains(&self, fp: &Fingerprint) -> (r: bool)
        ensures
            r == self@.contains(fp@),
    {
        let mut i: usize = 0;
        while i < self.stamps.len()
            invariant
                i <= self.stamps.len(),
                forall|j: int| 0 <= j < i ==> self.stamps@[j]@ != fp@,
            decreases self.stamps.len() - i,
        {
            if self.stamps[i].same(fp) {
                return true;
            }
            i = i + 1;
        }
        false
    }

    /// Claims the request: returns whether the caller must issue it, and
    /// records it either way.
    pub fn should_issue(&mut self, fp: &Fingerprint) -> (r: bool)
        ensures
            r == !old(self)@.contains(fp@),
            final(self)@ == old(self)@.insert(fp@),
    {
        if self.contains(fp) {
            assert(self@ =~= self@.insert(fp@));
            false
        } else {
            let ghost before = self@;
            self.stamps.push(fp.duplicate());
            assert forall|f: FingerprintView| self@.contains(f) <==> before.insert(fp@).contains(f) by {
                if f == fp@ {
                    assert(self.stamps@[self.stamps.len() - 1]@ == f);
                }
                if before.contains(f) {
                    let i = choose|i: int| 0 <= i < self.stamps.len() - 1 && (#[trigger] old(self).stamps@[i])@ == f;
                    assert(self.stamps@[i] == old(self).stamps@[i]);
                }
            }
            assert(self@ =~= before.insert(fp@));
            true
        }
    }

    /// Forgets one request, so that it may be issued again.
    pub fn release(&mut self, fp: &Fingerprint)
        ensures
            final(self)@ == old(self)@.remove(fp@),
    {
        let mut kept: Vec<Fingerprint> = Vec::new();
        let mut i: usize = 0;
        while i < self.stamps.len()
            invariant
                i <= self.stamps.len(),
                forall|f: FingerprintView| #[trigger] recorded(kept@, f) <==>
                    (f != fp@ && recorded(self.stamps@.subrange(0, i as int), f)),
            decreases self.stamps.len() - i,
        {
            let ghost prev = kept@;
            let ghost done = self.stamps@.subrange(0, i as int);
            if !self.stamps[i].same(fp) {
                kept.push(self.stamps[i].duplicate());
            }
            let ghost now = self.stamps@.subrange(0, i + 1);
            assert forall|f: FingerprintView| #[trigger] recorded(kept@, f) <==>
                (f != fp@ && recorded(now, f)) by {
                if recorded(kept@, f) {
                    let j = choose|j: int| 0 <= j < kept.len() && (#[trigger] kept@[j])@ == f;
                    if j < prev.len() {
                        assert(prev[j] == kept@[j]);
                        assert(recorded(prev, f));
                        let k = choose|k: int| 0 <= k < done.len() && (#[trigger] done[k])@ == f;
                        assert(now[k] == done[k]);
                    } else {
                        assert(now[i as int] == self.stamps@[i as int]);
                    }
                }
                if f != fp@ && recorded(now, f) {
                    let j = choose|j: int| 0 <= j < now.len() && (#[trigger] now[j])@ == f;
                    if j < i {
                        assert(done[j] == now[j]);
                        assert(recorded(done, f));
                        assert(recorded(prev, f));
                        let k = choose|k: int| 0 <= k < prev.len() && (#[trigger] prev[k])@ == f;
                        assert(kept@[k] == prev[k]);
                    } else {
                        assert(kept@[kept.len() - 1]@ == f);
                    }
                }
            }
            i = i + 1;
        }
        assert(self.stamps@.subrange(0, self.stamps.len() as int) =~= self.stamps@);
        let ghost before = self@;
        self.stamps = kept;
        assert(self@ =~= before.remove(fp@));
    }

    /// Forgets every request.
    pub fn clear(&mut self)
        ensures
            final(self)@ == Set::<FingerprintView>::empty(),
    {
        self.stamps.clear();
        assert(self@ =~= Set::<FingerprintView>::empty());
    }
}

} // verus!
