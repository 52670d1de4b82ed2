//! Live aggregation: per-instance counters and the clamped averaging
//! that keeps cross-build comparison valid while builds finish
//! asynchronously.  Durations are wall-clock microseconds.

use vstd::prelude::*;

verus! {

/// The sum of a sequence of durations.
pub open spec fn sum_seq(s: Seq<u64>) -> int
    decreases s.len(),
{
    if s.len() == 0 {
        0
    } else {
        sum_seq(s.drop_last()) + s.last()
    }
}

/// The live counters of one instance, as the dashboard mirrors them.
#[derive(Clone, Copy, PartialEq, Eq, Structural, Debug)]
pub struct InstanceStats {
    /// How many timed iterations the instance will record in all.
    pub iterations: usize,
    /// How many warmup runs the instance will perform in all.
    pub warmups: usize,
    /// The sum of all recorded durations, in microseconds.
    pub time_total: u64,
    /// The most recently recorded duration, in microseconds.
    pub time_last: u64,
    /// How many warmup runs have completed.
    pub warmup_count: usize,
    /// How many timed iterations have been recorded.
    pub count: usize,
}

impl InstanceStats {
    /// The most recent sample is part of the running total.
    pub open spec fn wf(&self) -> bool {
        self.time_last <= self.time_total
    }

    /// The running total clamped for comparison at `min_count`
    /// recorded iterations: an instance that is ahead of the common
    /// count leaves its most recent sample out.
    pub open spec fn time_total_clamp_spec(&self, min_count: int) -> int {
        if self.count > min_count {
            self.time_total - self.time_last
        } else {
            self.time_total as int
        }
    }

    pub fn time_total_clamp(&self, min_count: usize) -> (r: u64)
        requires
            self.wf(),
        ensures
            r == self.time_total_clamp_spec(min_count as int),
    {
        if self.count > min_count {
            self.time_total - self.time_last
        } else {
            self.time_total
        }
    }

    /// The live average over the first `min_count` iterations, in
    /// microseconds; nothing before the first iteration is recorded.
    pub open spec fn avg_spec(&self, min_count: int) -> Option<int> {
        if min_count > 0 {
            Option::Some(self.time_total_clamp_spec(min_count) / min_count)
        } else {
            Option::None
        }
    }

    pub fn avg(&self, min_count: usize) -> (r: Option<u64>)
        requires
            self.wf(),
        ensures
            r is Some <==> min_count > 0,
            r is Some ==> r->0 == self.avg_spec(min_count as int)->0,
    {
        if min_count > 0 {
            Option::Some(self.time_total_clamp(min_count) / (min_count as u64))
        } else {
            Option::None
        }
    }
}

/// When an instance's counters agree with its recorded duration list —
/// the total is the sum and the last sample is the most recent — the
/// clamped total of an instance that is ahead of the common count is
/// exactly the sum of all its samples but the most recent one.
pub proof fn lemma_clamp_excludes_most_recent(d: Seq<u64>, st: InstanceStats, min_count: int)
    requires
        st.count == d.len(),
        st.time_total == sum_seq(d),
        d.len() > 0,
        st.time_last == d.last(),
        st.count > min_count,
    ensures
        st.time_total_clamp_spec(min_count) == sum_seq(d.drop_last()),
{
}

/// Clamped live average: with two instances in one config recorded 5
/// and 3 times, the live average of both divides by the common count
/// 3, and the instance with 5 samples excludes its most recent sample
/// from its sum while the instance with 3 keeps its whole sum.
pub proof fn lemma_clamped_live_average(
    ahead: InstanceStats,
    behind: InstanceStats,
    d: Seq<u64>,
)
    requires
        ahead.count == 5,
        behind.count == 3,
        d.len() == 5,
        ahead.time_total == sum_seq(d),
        ahead.time_last == d.last(),
    ensures
        ({
            let common = if ahead.count < behind.count {
                ahead.count as int
            } else {
                behind.count as int
            };
            &&& common == 3
            &&& ahead.avg_spec(common) == Option::Some(sum_seq(d.drop_last()) / 3)
            &&& behind.avg_spec(common) == Option::Some(behind.time_total as int / 3)
        }),
{
    lemma_clamp_excludes_most_recent(d, ahead, 3);
}

/// The least recorded-iteration count over a config's instances (zero
/// of no instances).
pub open spec fn min_count_spec(s: Seq<InstanceStats>) -> int
    decreases s.len(),
{
    if s.len() == 0 {
        0
    } else if s.len() == 1 {
        s[0].count as int
    } else if s.last().count < min_count_spec(s.drop_last()) {
        s.last().count as int
    } else {
        min_count_spec(s.drop_last())
    }
}

/// The least recorded-iteration count over the instances of a config:
/// cross-build comparison is only valid over this common prefix.
pub fn min_count(builds: &Vec<InstanceStats>) -> (r: usize)
    ensures
        r == min_count_spec(builds@),
        forall|j: int| 0 <= j < builds@.len() ==> r <= (#[trigger] builds@[j]).count,
{
    if builds.len() == 0 {
        return 0;
    }
    let mut r: usize = builds[0].count;
    let mut i: usize = 1;
    proof {
        assert(builds@.take(1).len() == 1);
        assert(builds@.take(1)[0] == builds@[0]);
    }
    while i < builds.len()
        invariant
            1 <= i <= builds@.len(),
            r == min_count_spec(builds@.take(i as int)),
            forall|j: int| 0 <= j < i ==> r <= (#[trigger] builds@[j]).count,
        decreases builds.len() - i,
    {
        proof {
            assert(builds@.take((i + 1) as int).drop_last() =~= builds@.take(i as int));
            assert(builds@.take((i + 1) as int).last() == builds@[i as int]);
        }
        if builds[i].count < r {
            r = builds[i].count;
        }
        i = i + 1;
    }
    proof {
        assert(builds@.take(builds@.len() as int) =~= builds@);
    }
    r
}

/// The dimensionless relative-performance score of one build against
/// the baseline, in thousandths: the ratio of the two totals.
pub fn ratio_millis(build_total: u64, base_total: u64) -> (r: u64)
    requires
        base_total > 0,
        build_total <= u64::MAX / 1000,
    ensures
        r == build_total as int * 1000 / base_total as int,
{
    build_total * 1000 / base_total
}

} // verus!
