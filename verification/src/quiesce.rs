//! The quiescence coordinator: no two workers may run a timed
//! measurement window at overlapping moments.  A worker may start only
//! once every other worker's last recorded event lies more than the
//! threshold in the past; it records its own event when it starts and
//! again when it finishes.  The surrounding application supplies the
//! clock readings (milliseconds of a monotonic clock) and performs the
//! sleeps between polls.

use vstd::prelude::*;

verus! {

/// The fixed quiescence threshold, in milliseconds.
pub const QUIESCENCE_THRESHOLD_MILLIS: u64 = 500;

/// The flat scheduling-hygiene delay before each timed iteration, in
/// milliseconds.
pub const ITERATION_SPACING_MILLIS: u64 = 200;

/// The pause between two polls of the coordinator, in milliseconds.
pub const POLL_INTERVAL_MILLIS: u64 = 50;

/// Every other worker's last event lies more than `threshold` before
/// `now`.  (An event timestamp in the future counts as not elapsed,
/// exactly as a saturating clock difference would.)
pub open spec fn quiet_spec(events: Seq<u64>, me: int, now: u64, threshold: u64) -> bool {
    forall|j: int| 0 <= j < events.len() && j != me ==> now - events[j] > threshold
}

/// One last-event timestamp per worker, and the threshold they must
/// respect.
pub struct Coordinator {
    pub events: Vec<u64>,
    pub threshold: u64,
}

impl Coordinator {
    /// All workers start with their last event at `now`.
    pub fn new(workers: usize, threshold: u64, now: u64) -> (r: Coordinator)
        ensures
            r.events@.len() == workers,
            forall|j: int| 0 <= j < workers ==> r.events@[j] == now,
            r.threshold == threshold,
    {
        let mut events: Vec<u64> = Vec::new();
        let mut i: usize = 0;
        while i < workers
            invariant
                i <= workers,
                events@.len() == i,
                forall|j: int| 0 <= j < i ==> events@[j] == now,
            decreases workers - i,
        {
            events.push(now);
            i = i + 1;
        }
        Coordinator { events, threshold }
    }

    /// Marks the worker busy until `now`: called right before and right
    /// after its run, so that other workers wait past its finish time.
    pub fn record_event(&mut self, worker: usize, now: u64)
        requires
            worker < old(self).events@.len(),
        ensures
            final(self).events@ == old(self).events@.update(worker as int, now),
            final(self).threshold == old(self).threshold,
    {
        self.events.set(worker, now);
    }

    /// Whether the worker may start a timed run at `now`.
    pub fn ready(&self, worker: usize, now: u64) -> (b: bool)
        requires
            worker < self.events@.len(),
        ensures
            b == quiet_spec(self.events@, worker as int, now, self.threshold),
    {
        let mut j: usize = 0;
        while j < self.events.len()
            invariant
                j <= self.events@.len(),
                worker < self.events@.len(),
                forall|k: int|
                    0 <= k < j && k != worker ==> now - self.events@[k] > self.threshold,
            decreases self.events@.len() - j,
        {
            if j != worker {
                let ev = self.events[j];
                if now <= ev || now - ev <= self.threshold {
                    return false;
                }
            }
            j = j + 1;
        }
        true
    }

    /// One poll: when the window is quiet the worker claims it (its own
    /// event moves to `now`) and may run; otherwise nothing changes and
    /// the caller sleeps and polls again.
    pub fn try_enter(&mut self, worker: usize, now: u64) -> (b: bool)
        requires
            worker < old(self).events@.len(),
        ensures
            b == quiet_spec(old(self).events@, worker as int, now, old(self).threshold),
            b ==> final(self).events@ == old(self).events@.update(worker as int, now),
            !b ==> final(self).events@ == old(self).events@,
            final(self).threshold == old(self).threshold,
    {
        if self.ready(worker, now) {
            self.record_event(worker, now);
            true
        } else {
            false
        }
    }
}

/// Quiescence: when a worker may start a timed run at `now`, the gap
/// between `now` and any other worker's most recent event exceeds the
/// threshold.  With a single worker there is no other worker and the
/// condition is vacuous.
pub proof fn lemma_quiescence_gap(events: Seq<u64>, me: int, now: u64, threshold: u64, other: int)
    requires
        quiet_spec(events, me, now, threshold),
        0 <= other < events.len(),
        other != me,
    ensures
        now - events[other] > threshold,
{
}

} // verus!
