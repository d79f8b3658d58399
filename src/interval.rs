use vstd::prelude::*;

verus! {

/// A time range `[start, stop]` in nanoseconds.
///
/// A well-formed interval has `start <= stop`; `intersection` may produce an
/// inverted one, which callers detect with `is_valid` or `overlaps`.
#[derive(Clone, Copy, Debug, PartialEq, Eq, Structural, Hash, Default)]
pub struct Interval {
    pub start: i64,
    pub stop: i64,
}

impl Interval {
    pub open spec fn wf(self) -> bool {
        self.start <= self.stop
    }

    /// Both are well-formed and their closed intersection is non-empty.
    pub open spec fn overlaps_spec(self, other: Interval) -> bool {
        self.start <= self.stop && other.start <= other.stop && self.start <= other.stop && other.start
            <= self.stop
    }

    pub open spec fn intersection_spec(self, other: Interval) -> Interval {
        Interval {
            start: if self.start >= other.start { self.start } else { other.start },
            stop: if self.stop <= other.stop { self.stop } else { other.stop },
        }
    }

    pub open spec fn union_spec(self, other: Interval) -> Interval {
        Interval {
            start: if self.start <= other.start { self.start } else { other.start },
            stop: if self.stop >= other.stop { self.stop } else { other.stop },
        }
    }

    pub open spec fn contains_spec(self, point: i64) -> bool {
        self.start <= point && point <= self.stop
    }

    pub fn new(start: i64, stop: i64) -> (r: Interval)
        ensures
            r.start == start,
            r.stop == stop,
    {
        Interval { start, stop }
    }

    /// Whether `start <= stop`.
    pub fn is_valid(&self) -> (r: bool)
        ensures
            r == self.wf(),
    {
        self.start <= self.stop
    }

    /// Whether both are well-formed and the closed ranges share at least
    /// one point; an inverted interval overlaps nothing.
    pub fn overlaps(&self, other: Interval) -> (r: bool)
        ensures
            r == self.overlaps_spec(other),
    {
        self.start <= self.stop && other.start <= other.stop && self.start <= other.stop && other.start
            <= self.stop
    }

    /// The tightest interval contained in both; inverted when they are disjoint.
    pub fn intersection(&self, other: Interval) -> (r: Interval)
        ensures
            r == self.intersection_spec(other),
    {
        Interval {
            start: if self.start >= other.start { self.start } else { other.start },
            stop: if self.stop <= other.stop { self.stop } else { other.stop },
        }
    }

    /// The smallest interval that contains both.
    pub fn union(&self, other: Interval) -> (r: Interval)
        ensures
            r == self.union_spec(other),
    {
        Interval {
            start: if self.start <= other.start { self.start } else { other.start },
            stop: if self.stop >= other.stop { self.stop } else { other.stop },
        }
    }

    /// Whether `point` lies in the closed range.
    pub fn contains(&self, point: i64) -> (r: bool)
        ensures
            r == self.contains_spec(point),
    {
        self.start <= point && point <= self.stop
    }
}

/// The intersection is well-formed exactly when the two overlap: disjoint
/// (or inverted) inputs always yield an inverted intersection, which
/// overlaps nothing, and overlapping inputs yield exactly the points common
/// to both.
pub proof fn lemma_intersection_detects_disjoint(a: Interval, b: Interval)
    ensures
        a.overlaps_spec(b) <==> a.intersection_spec(b).wf(),
        !a.overlaps_spec(b) ==> a.intersection_spec(b).stop < a.intersection_spec(b).start,
        !a.overlaps_spec(b) ==> forall|c: Interval| !#[trigger] c.overlaps_spec(a.intersection_spec(b)),
        a.overlaps_spec(b) ==> (forall|p: i64|
            a.intersection_spec(b).contains_spec(p) <==> a.contains_spec(p) && b.contains_spec(p)),
{
}

} // verus!
