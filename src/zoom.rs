use vstd::prelude::*;

use crate::interval::Interval;

verus! {

/// Why an edited view bound was refused.
#[derive(Clone, Copy, Debug, PartialEq, Eq, Structural)]
pub enum IntervalEditError {
    StartAfterStop,
    StartAfterTrace,
    StopBeforeStart,
}

impl IntervalEditError {
    /// The message shown in place of the refused value.
    pub fn message(&self) -> (r: &'static str)
        ensures
            r@ == match *self {
                IntervalEditError::StartAfterStop => "Start must be before stop"@,
                IntervalEditError::StartAfterTrace => "Start must be before end of trace"@,
                IntervalEditError::StopBeforeStart => "Stop must be after start"@,
            },
    {
        match self {
            IntervalEditError::StartAfterStop => "Start must be before stop",
            IntervalEditError::StartAfterTrace => "Start must be before end of trace",
            IntervalEditError::StopBeforeStart => "Stop must be after start",
        }
    }
}

/// The view with its start moved to `start`, refused when that would pass
/// the view's stop or the end of the whole trace.
pub fn edit_start(view: Interval, total: Interval, start: i64) -> (r: Result<Interval, IntervalEditError>)
    ensures
        start > view.stop ==> r == Err::<Interval, IntervalEditError>(IntervalEditError::StartAfterStop),
        start <= view.stop && start > total.stop ==> r == Err::<Interval, IntervalEditError>(
            IntervalEditError::StartAfterTrace,
        ),
        start <= view.stop && start <= total.stop ==> r == Ok::<Interval, IntervalEditError>(
            Interval { start, stop: view.stop },
        ),
{
    if start > view.stop {
        return Err(IntervalEditError::StartAfterStop);
    }
    if start > total.stop {
        return Err(IntervalEditError::StartAfterTrace);
    }
    Ok(Interval { start, stop: view.stop })
}

/// The view with its stop moved to `stop`, refused when that would come
/// before the view's start.
pub fn edit_stop(view: Interval, stop: i64) -> (r: Result<Interval, IntervalEditError>)
    ensures
        stop < view.start ==> r == Err::<Interval, IntervalEditError>(IntervalEditError::StopBeforeStart),
        stop >= view.start ==> r == Ok::<Interval, IntervalEditError>(Interval { start: view.start, stop }),
{
    if stop < view.start {
        return Err(IntervalEditError::StopBeforeStart);
    }
    Ok(Interval { start: view.start, stop })
}

/// The history of view intervals, for undo and redo of zooming.
#[derive(Debug, Default)]
pub struct ZoomState {
    pub levels: Vec<Interval>,
    pub index: usize,
    pub zoom_count: u32,
}

impl ZoomState {
    /// The position points into the history, or both are at their start.
    pub open spec fn wf(&self) -> bool {
        (self.levels@.len() == 0 && self.index == 0) || self.index < self.levels@.len()
    }

    pub fn new() -> (r: ZoomState)
        ensures
            r.wf(),
            r.levels@.len() == 0,
            r.index == 0,
            r.zoom_count == 0,
    {
        ZoomState { levels: Vec::new(), index: 0, zoom_count: 0 }
    }

    /// Moves the view to `interval`, dropping the redo history and
    /// recording the new level; nothing happens when the view is already
    /// there.
    pub fn zoom(&mut self, view: &mut Interval, interval: Interval)
        requires
            old(self).wf(),
        ensures
            final(self).wf(),
            *old(view) == interval ==> *final(self) == *old(self) && *final(view) == *old(view),
            *old(view) != interval ==> {
                &&& *final(view) == interval
                &&& final(self).levels@ == (if old(self).levels@.len() == 0 {
                    Seq::<Interval>::empty()
                } else {
                    old(self).levels@.subrange(0, old(self).index + 1)
                }).push(interval)
                &&& final(self).index == final(self).levels@.len() - 1
                &&& final(self).zoom_count == 0
            },
    {
        if *view == interval {
            return;
        }
        *view = interval;
        let n = self.levels.len();
        assert(self.index < n || self.index == 0);
        self.levels.truncate(self.index + 1);
        self.levels.push(interval);
        self.index = self.levels.len() - 1;
        self.zoom_count = 0;
    }

    /// Steps back to the previous level, if there is one.
    pub fn undo(&mut self, view: &mut Interval)
        requires
            old(self).wf(),
        ensures
            final(self).wf(),
            old(self).index == 0 ==> *final(self) == *old(self) && *final(view) == *old(view),
            old(self).index > 0 ==> {
                &&& final(self).index == old(self).index - 1
                &&& final(self).levels == old(self).levels
                &&& *final(view) == old(self).levels@[old(self).index - 1]
                &&& final(self).zoom_count == 0
            },
    {
        if self.index == 0 {
            return;
        }
        self.index = self.index - 1;
        *view = self.levels[self.index];
        self.zoom_count = 0;
    }

    /// Steps forward to the next level, if there is one.
    pub fn redo(&mut self, view: &mut Interval)
        requires
            old(self).wf(),
            old(self).levels@.len() > 0,
        ensures
            final(self).wf(),
            old(self).index == old(self).levels@.len() - 1 ==> *final(self) == *old(self) && *final(view)
                == *old(view),
            old(self).index < old(self).levels@.len() - 1 ==> {
                &&& final(self).index == old(self).index + 1
                &&& final(self).levels == old(self).levels
                &&& *final(view) == old(self).levels@[old(self).index + 1]
                &&& final(self).zoom_count == 0
            },
    {
        if self.index == self.levels.len() - 1 {
            return;
        }
        self.index = self.index + 1;
        *view = self.levels[self.index];
        self.zoom_count = 0;
    }
}

} // verus!
