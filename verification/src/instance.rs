//! The atomic units of measurement.  An `Instance` owns the append-only
//! duration list of one (config, build) pair; a `ConfigInstances`
//! groups the instances of one config, one per build under test.

use vstd::prelude::*;
use crate::config::Config;
use crate::detail::PassSample;

verus! {

/// The views of a list of per-run sample lists.
pub open spec fn detail_views(v: Seq<Vec<PassSample>>) -> Seq<Seq<PassSample>> {
    v.map_values(|x: Vec<PassSample>| x@)
}

/// One (config, build) measurement unit and everything it has recorded.
pub struct Instance {
    pub config_index: usize,
    pub build_index: usize,
    /// The recorded durations of the timed iterations, in microseconds,
    /// in the order they were measured.  Warmups are never recorded.
    pub time: Vec<u64>,
    /// When detail was requested: the merged per-pass samples of each
    /// timed iteration.
    pub times: Vec<Vec<PassSample>>,
}

impl Instance {
    pub fn new(config_index: usize, build_index: usize) -> (r: Instance)
        ensures
            r.config_index == config_index,
            r.build_index == build_index,
            r.time@.len() == 0,
            r.times@.len() == 0,
    {
        Instance { config_index, build_index, time: Vec::new(), times: Vec::new() }
    }

    /// Appends one accepted duration; nothing else moves.
    pub fn record(&mut self, duration: u64)
        ensures
            final(self).time@ == old(self).time@.push(duration),
            final(self).times@ == old(self).times@,
            final(self).config_index == old(self).config_index,
            final(self).build_index == old(self).build_index,
    {
        self.time.push(duration);
    }

    /// Appends the per-pass breakdown of one run.
    pub fn record_detail(&mut self, passes: Vec<PassSample>)
        ensures
            final(self).times@ == old(self).times@.push(passes),
            final(self).time@ == old(self).time@,
            final(self).config_index == old(self).config_index,
            final(self).build_index == old(self).build_index,
    {
        self.times.push(passes);
    }

    /// The raw payload handed to the external report writer: the
    /// build's name, every recorded duration, and the per-pass detail
    /// when it was requested.
    pub fn result(&self, build_name: &String, details: bool) -> (r: ResultConfig)
        ensures
            r.build@ == build_name@,
            r.time@ == self.time@,
            details <==> r.times is Some,
            details ==> detail_views(r.times->0@) == detail_views(self.times@),
    {
        let time = copy_durations(&self.time);
        if details {
            ResultConfig {
                build: build_name.clone(),
                time,
                times: Option::Some(copy_detail(&self.times)),
            }
        } else {
            ResultConfig { build: build_name.clone(), time, times: Option::None }
        }
    }
}

/// One build's worth of raw results for the report.
pub struct ResultConfig {
    pub build: String,
    pub time: Vec<u64>,
    pub times: Option<Vec<Vec<PassSample>>>,
}

fn copy_durations(v: &Vec<u64>) -> (r: Vec<u64>)
    ensures
        r@ == v@,
{
    let mut r: Vec<u64> = Vec::new();
    let mut i: usize = 0;
    while i < v.len()
        invariant
            i <= v@.len(),
            r@ == v@.subrange(0, i as int),
        decreases v@.len() - i,
    {
        r.push(v[i]);
        proof {
            assert(r@ =~= v@.subrange(0, (i + 1) as int));
        }
        i = i + 1;
    }
    proof {
        assert(r@ =~= v@);
    }
    r
}

fn copy_samples(v: &Vec<PassSample>) -> (r: Vec<PassSample>)
    ensures
        r@ == v@,
{
    let mut r: Vec<PassSample> = Vec::new();
    let mut i: usize = 0;
    while i < v.len()
        invariant
            i <= v@.len(),
            r@ == v@.subrange(0, i as int),
        decreases v@.len() - i,
    {
        r.push(v[i].duplicate());
        proof {
            assert(r@ =~= v@.subrange(0, (i + 1) as int));
        }
        i = i + 1;
    }
    proof {
        assert(r@ =~= v@);
    }
    r
}

fn copy_detail(v: &Vec<Vec<PassSample>>) -> (r: Vec<Vec<PassSample>>)
    ensures
        detail_views(r@) == detail_views(v@),
{
    let mut r: Vec<Vec<PassSample>> = Vec::new();
    let mut i: usize = 0;
    while i < v.len()
        invariant
            i <= v@.len(),
            detail_views(r@) == detail_views(v@.subrange(0, i as int)),
        decreases v@.len() - i,
    {
        let ghost r0 = r@;
        let cs = copy_samples(&v[i]);
        r.push(cs);
        proof {
            assert(detail_views(r0).len() == r0.len());
            assert(detail_views(v@.subrange(0, i as int)).len() == i);
            assert(r0.len() == i);
            assert(r@ == r0.push(cs));
            assert forall|k: int|
                0 <= k < r@.len() implies detail_views(r@)[k] == detail_views(
                v@.subrange(0, (i + 1) as int),
            )[k] by {
                assert(r0.len() == i);
                assert(r@.len() == i + 1);
                assert(detail_views(r@)[k] == r@[k]@);
                assert(detail_views(v@.subrange(0, (i + 1) as int))[k] == v@.subrange(
                    0,
                    (i + 1) as int,
                )[k]@);
                if k < i {
                    assert(detail_views(r0)[k] == r0[k]@);
                    assert(detail_views(v@.subrange(0, i as int))[k] == v@.subrange(
                        0,
                        i as int,
                    )[k]@);
                }
            }
            assert(detail_views(r@) =~= detail_views(v@.subrange(0, (i + 1) as int)));
        }
        i = i + 1;
    }
    proof {
        assert(detail_views(v@.subrange(0, v@.len() as int)) =~~= detail_views(v@));
    }
    r
}

/// One comparison row: a config and its instances, one per build, in
/// build order.
pub struct ConfigInstances {
    pub config_index: usize,
    pub config: Config,
    pub builds: Vec<Instance>,
}

} // verus!
