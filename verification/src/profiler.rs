use vstd::prelude::*;
use std::time::{Duration, Instant};
use crate::clock::{duration_since, instant_now, span_of};

verus! {

/// Timings of the stages of one frame, in the order they were taken.
pub struct Profiler {
    start: Instant,
    last: Instant,
    marks: Vec<(&'static str, Duration)>,
}

impl Profiler {
    /// The labelled timings taken so far.
    pub closed spec fn timings(&self) -> Seq<(&'static str, Duration)> {
        self.marks@
    }

    /// The clock reading at which the frame started.
    pub closed spec fn started_at(&self) -> Instant {
        self.start
    }

    /// The clock reading of the last mark, or of the start before any.
    pub closed spec fn last_mark_at(&self) -> Instant {
        self.last
    }

    /// Starts timing a frame now, with no timing taken yet: the last mark is
    /// the start itself.
    pub fn start() -> (r: Profiler)
        ensures
            r.timings().len() == 0,
            r.last_mark_at() == r.started_at(),
    {
        let now = instant_now();
        Profiler { start: now, last: now, marks: Vec::new() }
    }

    /// Takes a timing labelled `label`: the time since the previous mark (or
    /// since the start).
    pub fn mark(&mut self, label: &'static str)
        ensures
            final(self).timings().len() == old(self).timings().len() + 1,
            final(self).timings().drop_last() == old(self).timings(),
            final(self).timings().last().0 == label,
            final(self).started_at() == old(self).started_at(),
            exists|now: Instant|
                final(self).last_mark_at() == now && #[trigger] span_of(now, old(self).last_mark_at())
                    == final(self).timings().last().1,
    {
        let now = instant_now();
        let d = duration_since(&now, &self.last);
        self.marks.push((label, d));
        self.last = now;
        proof {
            assert(self.marks@.drop_last() =~= old(self).marks@);
            assert(self.marks@.last().1 == span_of(now, old(self).last));
            assert(self.last_mark_at() == now);
            assert(self.last_mark_at() == now && span_of(now, old(self).last_mark_at())
                == self.timings().last().1);
        }
    }

    /// Adds a timing measured elsewhere.
    pub fn record(&mut self, label: &'static str, duration: Duration)
        ensures
            final(self).timings() == old(self).timings().push((label, duration)),
            final(self).started_at() == old(self).started_at(),
            final(self).last_mark_at() == old(self).last_mark_at(),
    {
        self.marks.push((label, duration));
    }

    /// The timings taken so far, in order.
    pub fn marks(&self) -> (r: &Vec<(&'static str, Duration)>)
        ensures
            r@ == self.timings(),
    {
        &self.marks
    }

    /// The time from the start to the last mark.
    pub fn total(&self) -> (r: Duration)
        ensures
            r == span_of(self.last_mark_at(), self.started_at()),
    {
        duration_since(&self.last, &self.start)
    }
}

} // verus!
