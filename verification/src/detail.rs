//! Per-pass timing detail.  When detail is requested, every run also
//! yields one sample per compilation pass; samples of a recurring pass
//! name (parallel codegen units) are merged by summing durations,
//! keeping the least before-memory and the greatest after-memory, and
//! only the entries after the second-to-last `total` marker count —
//! everything earlier was upstream dependency compilation.

use vstd::prelude::*;

verus! {

/// One compilation pass of one run: its name, its duration in
/// nanoseconds, and the process memory before and after it.
pub struct PassSample {
    pub name: String,
    pub nanos: u64,
    pub rss_start: u64,
    pub rss_end: u64,
}

impl PassSample {
    pub fn duplicate(&self) -> (r: PassSample)
        ensures
            r == *self,
    {
        PassSample {
            name: self.name.clone(),
            nanos: self.nanos,
            rss_start: self.rss_start,
            rss_end: self.rss_end,
        }
    }
}

/// The pass names of a sample list.
pub open spec fn names_of(s: Seq<PassSample>) -> Seq<Seq<char>> {
    s.map_values(|p: PassSample| p.name@)
}

/// The marker pass that closes one compilation unit's timing.
pub open spec fn total_name() -> Seq<char> {
    "total"@
}

/// Where the benchmark's own build begins: right after the
/// second-to-last `total` marker, or at the start when there are fewer
/// than two markers.
pub open spec fn trunc_start_spec(names: Seq<Seq<char>>) -> int {
    match names.index_of_last(total_name()) {
        Option::Some(l) => if 0 <= l <= names.len() {
            match names.take(l).index_of_last(total_name()) {
                Option::Some(p) => if 0 <= p {
                    p + 1
                } else {
                    0
                },
                Option::None => 0,
            }
        } else {
            0
        },
        Option::None => 0,
    }
}

/// The total duration of the samples with the given name, in
/// nanoseconds.
pub open spec fn sum_nanos(s: Seq<PassSample>, name: Seq<char>) -> int
    decreases s.len(),
{
    if s.len() == 0 {
        0
    } else {
        sum_nanos(s.drop_last(), name) + if s.last().name@ == name {
            s.last().nanos as int
        } else {
            0
        }
    }
}

/// The sum of all sample durations.
pub open spec fn sum_all_nanos(s: Seq<PassSample>) -> int
    decreases s.len(),
{
    if s.len() == 0 {
        0
    } else {
        sum_all_nanos(s.drop_last()) + s.last().nanos
    }
}

/// The least before-memory over the samples with the given name.
pub open spec fn min_rss_start(s: Seq<PassSample>, name: Seq<char>) -> Option<int>
    decreases s.len(),
{
    if s.len() == 0 {
        Option::None
    } else {
        let rest = min_rss_start(s.drop_last(), name);
        if s.last().name@ == name {
            match rest {
                Option::Some(m) => Option::Some(
                    if s.last().rss_start < m {
                        s.last().rss_start as int
                    } else {
                        m
                    },
                ),
                Option::None => Option::Some(s.last().rss_start as int),
            }
        } else {
            rest
        }
    }
}

/// The greatest after-memory over the samples with the given name.
pub open spec fn max_rss_end(s: Seq<PassSample>, name: Seq<char>) -> Option<int>
    decreases s.len(),
{
    if s.len() == 0 {
        Option::None
    } else {
        let rest = max_rss_end(s.drop_last(), name);
        if s.last().name@ == name {
            match rest {
                Option::Some(m) => Option::Some(
                    if s.last().rss_end > m {
                        s.last().rss_end as int
                    } else {
                        m
                    },
                ),
                Option::None => Option::Some(s.last().rss_end as int),
            }
        } else {
            rest
        }
    }
}

proof fn lemma_sum_nanos_nonneg(s: Seq<PassSample>, name: Seq<char>)
    ensures
        0 <= sum_nanos(s, name) <= sum_all_nanos(s),
        sum_all_nanos(s) >= 0,
    decreases s.len(),
{
    if s.len() > 0 {
        lemma_sum_nanos_nonneg(s.drop_last(), name);
    }
}

/// A prefix of the samples never sums to more than all of them.
pub(crate) proof fn lemma_sum_all_take_le(s: Seq<PassSample>, i: int)
    requires
        0 <= i <= s.len(),
    ensures
        sum_all_nanos(s.take(i)) <= sum_all_nanos(s),
        sum_all_nanos(s.take(i)) >= 0,
    decreases s.len() - i,
{
    if i == s.len() {
        assert(s.take(i) =~= s);
        lemma_sum_all_nonneg(s);
    } else {
        lemma_sum_all_take_le(s, i + 1);
        lemma_sum_all_nonneg(s.take(i));
        assert(s.take(i + 1).drop_last() =~= s.take(i));
        assert(s.take(i + 1).last() == s[i]);
    }
}

pub(crate) proof fn lemma_sum_all_nonneg(s: Seq<PassSample>)
    ensures
        sum_all_nanos(s) >= 0,
    decreases s.len(),
{
    if s.len() > 0 {
        lemma_sum_all_nonneg(s.drop_last());
    }
}

proof fn lemma_sum_nanos_take_le(s: Seq<PassSample>, name: Seq<char>, i: int)
    requires
        0 <= i <= s.len(),
    ensures
        sum_nanos(s.take(i), name) <= sum_nanos(s, name),
    decreases s.len() - i,
{
    if i == s.len() {
        assert(s.take(i) =~= s);
    } else {
        lemma_sum_nanos_take_le(s, name, i + 1);
        assert(s.take(i + 1).drop_last() =~= s.take(i));
        assert(s.take(i + 1).last() == s[i]);
    }
}

/// Drops everything up to and including the second-to-last `total`
/// marker, keeping only the benchmark's own build.
pub fn truncate_to_final_unit(samples: &Vec<PassSample>) -> (r: Vec<PassSample>)
    ensures
        r@ == samples@.skip(trunc_start_spec(names_of(samples@))),
{
    let ghost names = names_of(samples@);
    let total: String = "total".to_owned();
    let mut last: Option<usize> = Option::None;
    let mut prev: Option<usize> = Option::None;
    let mut i: usize = 0;
    while i < samples.len()
        invariant
            i <= samples@.len(),
            names == names_of(samples@),
            total@ == total_name(),
            last is Some ==> 0 <= last->0 < i && names[last->0 as int] == total_name() && (forall|
                j: int,
            |
                last->0 < j < i ==> names[j] != total_name()),
            last is None ==> (forall|j: int| 0 <= j < i ==> names[j] != total_name()),
            last is None ==> prev is None,
            last is Some && prev is Some ==> 0 <= prev->0 < last->0 && names[prev->0 as int]
                == total_name() && (forall|j: int|
                prev->0 < j < last->0 ==> names[j] != total_name()),
            last is Some && prev is None ==> (forall|j: int|
                0 <= j < last->0 ==> names[j] != total_name()),
        decreases samples@.len() - i,
    {
        proof {
            reveal_strlit("total");
            assert(names[i as int] == samples@[i as int].name@);
        }
        if samples[i].name == total {
            prev = last;
            last = Option::Some(i);
        }
        i = i + 1;
    }
    proof {
        names.index_of_last_ensures(total_name());
    }
    let start: usize = match prev {
        Option::Some(p) => {
            proof {
                let l = last->0;
                assert(names.contains(total_name()));
                let il = names.index_of_last(total_name())->0;
                if il < l {
                    assert(names[l as int] == total_name());
                }
                if il > l {
                    assert(names[il] != total_name());
                }
                assert(il == l);
                names.take(l as int).index_of_last_ensures(total_name());
                assert(names.take(l as int)[p as int] == names[p as int]);
                assert(names.take(l as int).contains(names[p as int]));
                let ip = names.take(l as int).index_of_last(total_name())->0;
                if ip < p {
                    assert(names.take(l as int)[p as int] == total_name());
                }
                if ip > p {
                    assert(names.take(l as int)[ip] == names[ip]);
                    assert(names[ip] != total_name());
                }
                assert(ip == p);
                assert(trunc_start_spec(names) == p + 1);
            }
            p + 1
        },
        Option::None => {
            proof {
                if last is Some {
                    let l = last->0;
                    assert(names.contains(total_name()));
                    let il = names.index_of_last(total_name())->0;
                    if il < l {
                        assert(names[l as int] == total_name());
                    }
                    if il > l {
                        assert(names[il] != total_name());
                    }
                    assert(il == l);
                    names.take(l as int).index_of_last_ensures(total_name());
                    if names.take(l as int).index_of_last(total_name()) is Some {
                        let ip = names.take(l as int).index_of_last(total_name())->0;
                        assert(names.take(l as int)[ip] == total_name());
                        assert(names[ip] != total_name());
                    }
                } else {
                    if names.contains(total_name()) {
                        let k = choose|k: int| 0 <= k < names.len() && names[k] == total_name();
                        assert(names[k] != total_name());
                    }
                }
                assert(trunc_start_spec(names) == 0);
            }
            0
        },
    };
    let mut r: Vec<PassSample> = Vec::new();
    let mut k: usize = start;
    while k < samples.len()
        invariant
            start <= k <= samples@.len(),
            r@ == samples@.subrange(start as int, k as int),
        decreases samples@.len() - k,
    {
        r.push(samples[k].duplicate());
        proof {
            assert(r@ =~= samples@.subrange(start as int, (k + 1) as int));
        }
        k = k + 1;
    }
    proof {
        assert(r@ =~= samples@.skip(start as int));
    }
    r
}

/// Merges recurring pass names: every entry keeps its position and
/// name, but carries the summed duration, the least before-memory and
/// the greatest after-memory of all entries sharing its name.
pub fn merge_passes(samples: &Vec<PassSample>) -> (r: Vec<PassSample>)
    requires
        sum_all_nanos(samples@) <= u64::MAX,
    ensures
        r@.len() == samples@.len(),
        forall|i: int|
            0 <= i < samples@.len() ==> {
                &&& (#[trigger] r@[i]).name@ == samples@[i].name@
                &&& r@[i].nanos == sum_nanos(samples@, samples@[i].name@)
                &&& r@[i].rss_start == min_rss_start(samples@, samples@[i].name@)->0
                &&& r@[i].rss_end == max_rss_end(samples@, samples@[i].name@)->0
            },
{
    let mut r: Vec<PassSample> = Vec::new();
    let mut i: usize = 0;
    while i < samples.len()
        invariant
            i <= samples@.len(),
            sum_all_nanos(samples@) <= u64::MAX,
            r@.len() == i,
            forall|k: int|
                0 <= k < i ==> {
                    &&& (#[trigger] r@[k]).name@ == samples@[k].name@
                    &&& r@[k].nanos == sum_nanos(samples@, samples@[k].name@)
                    &&& r@[k].rss_start == min_rss_start(samples@, samples@[k].name@)->0
                    &&& r@[k].rss_end == max_rss_end(samples@, samples@[k].name@)->0
                },
        decreases samples@.len() - i,
    {
        let name = &samples[i].name;
        let mut nanos: u64 = 0;
        let mut rss_start: Option<u64> = Option::None;
        let mut rss_end: Option<u64> = Option::None;
        let mut j: usize = 0;
        while j < samples.len()
            invariant
                j <= samples@.len(),
                sum_all_nanos(samples@) <= u64::MAX,
                name@ == samples@[i as int].name@,
                i < samples@.len(),
                nanos == sum_nanos(samples@.take(j as int), name@),
                rss_start is Some <==> min_rss_start(samples@.take(j as int), name@) is Some,
                rss_start is Some ==> rss_start->0 == min_rss_start(
                    samples@.take(j as int),
                    name@,
                )->0,
                rss_end is Some <==> max_rss_end(samples@.take(j as int), name@) is Some,
                rss_end is Some ==> rss_end->0 == max_rss_end(samples@.take(j as int), name@)->0,
            decreases samples@.len() - j,
        {
            proof {
                assert(samples@.take((j + 1) as int).drop_last() =~= samples@.take(j as int));
                assert(samples@.take((j + 1) as int).last() == samples@[j as int]);
                lemma_sum_nanos_nonneg(samples@.take(j as int), name@);
                lemma_sum_nanos_nonneg(samples@, name@);
                lemma_sum_nanos_take_le(samples@, name@, j + 1);
            }
            if samples[j].name == *name {
                nanos = nanos + samples[j].nanos;
                rss_start = match rss_start {
                    Option::Some(m) => Option::Some(
                        if samples[j].rss_start < m {
                            samples[j].rss_start
                        } else {
                            m
                        },
                    ),
                    Option::None => Option::Some(samples[j].rss_start),
                };
                rss_end = match rss_end {
                    Option::Some(m) => Option::Some(
                        if samples[j].rss_end > m {
                            samples[j].rss_end
                        } else {
                            m
                        },
                    ),
                    Option::None => Option::Some(samples[j].rss_end),
                };
            }
            j = j + 1;
        }
        proof {
            assert(samples@.take(samples@.len() as int) =~= samples@);
            // the entry itself matches its own name, so the minima exist
            assert(samples@[i as int].name@ == name@);
            lemma_min_exists(samples@, name@, i as int);
            assert(rss_start is Some);
            assert(rss_end is Some);
        }
        let merged_start = match rss_start {
            Option::Some(m) => m,
            Option::None => samples[i].rss_start,
        };
        let merged_end = match rss_end {
            Option::Some(m) => m,
            Option::None => samples[i].rss_end,
        };
        let ghost r0 = r@;
        r.push(
            PassSample { name: name.clone(), nanos, rss_start: merged_start, rss_end: merged_end },
        );
        proof {
            assert(r@[i as int].name@ == samples@[i as int].name@);
            assert(forall|k: int| 0 <= k < i ==> r@[k] == r0[k]);
        }
        i = i + 1;
    }
    r
}

/// A sample whose name occurs in the list gives the minima a value.
proof fn lemma_min_exists(s: Seq<PassSample>, name: Seq<char>, i: int)
    requires
        0 <= i < s.len(),
        s[i].name@ == name,
    ensures
        min_rss_start(s, name) is Some,
        max_rss_end(s, name) is Some,
    decreases s.len(),
{
    if i == s.len() - 1 {
    } else {
        assert(s.drop_last()[i] == s[i]);
        lemma_min_exists(s.drop_last(), name, i);
    }
}

} // verus!
