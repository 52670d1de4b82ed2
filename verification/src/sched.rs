//! The cost-aware scheduler: configs are queued with an externally
//! estimated cost, sorted ascending, and consumed from the back, so
//! the most expensive configs are front-loaded and the session's
//! wall-clock length shrinks.  With a single worker the engine iterates
//! the configs in table order instead and this queue is not used.

use vstd::prelude::*;
use vstd::multiset::Multiset;
use vstd::seq_lib::*;
use crate::fingerprint::views_of;

verus! {

/// The cost assumed for a config the cost table does not name, in
/// thousandths (the table's `1.0`).
pub const DEFAULT_COST_MILLIS: u64 = 1000;

/// Ascending by cost.
pub open spec fn sorted_by_cost(q: Seq<(usize, u64)>) -> bool {
    forall|i: int, j: int| 0 <= i < j < q.len() ==> q[i].1 <= q[j].1
}

/// The cost recorded for `key`: the value of the first entry whose key
/// matches, or `default_cost` when none does.
pub open spec fn cost_spec(
    table: Seq<(Seq<char>, u64)>,
    key: Seq<char>,
    default_cost: u64,
) -> u64
    decreases table.len(),
{
    if table.len() == 0 {
        default_cost
    } else if table[0].0 == key {
        table[0].1
    } else {
        cost_spec(table.drop_first(), key, default_cost)
    }
}

/// The key views of a cost table.
pub open spec fn table_views(table: Seq<(String, u64)>) -> Seq<(Seq<char>, u64)> {
    table.map_values(|e: (String, u64)| (e.0@, e.1))
}

/// Looks a config's display string up in the cost table.
pub fn cost_for(table: &Vec<(String, u64)>, key: &String, default_cost: u64) -> (r: u64)
    ensures
        r == cost_spec(table_views(table@), key@, default_cost),
{
    let mut i: usize = 0;
    proof {
        assert(table@.skip(0) =~= table@);
    }
    while i < table.len()
        invariant
            i <= table.len(),
            cost_spec(table_views(table@), key@, default_cost) == cost_spec(
                table_views(table@.skip(i as int)),
                key@,
                default_cost,
            ),
        decreases table.len() - i,
    {
        proof {
            assert(table_views(table@.skip(i as int)).drop_first() =~= table_views(
                table@.skip((i + 1) as int),
            ));
            let ghost entry = table@[i as int];
            assert(table_views(table@.skip(i as int))[0] == (entry.0@, entry.1));
        }
        if table[i].0 == *key {
            return table[i].1;
        }
        i = i + 1;
    }
    proof {
        assert(table_views(table@.skip(i as int)).len() == 0);
    }
    default_cost
}

/// The position of a cheapest element.
fn min_cost_index(v: &Vec<(usize, u64)>) -> (m: usize)
    requires
        v@.len() > 0,
    ensures
        m < v@.len(),
        forall|j: int| 0 <= j < v@.len() ==> v@[m as int].1 <= v@[j].1,
{
    let mut m: usize = 0;
    let mut i: usize = 1;
    while i < v.len()
        invariant
            m < i <= v@.len(),
            forall|j: int| 0 <= j < i ==> v@[m as int].1 <= v@[j].1,
        decreases v.len() - i,
    {
        if v[i].1 < v[m].1 {
            m = i;
        }
        i = i + 1;
    }
    m
}

/// Sorts (config index, cost) pairs ascending by cost; the result holds
/// exactly the same pairs.
pub fn sort_by_cost(input: Vec<(usize, u64)>) -> (r: Vec<(usize, u64)>)
    ensures
        sorted_by_cost(r@),
        r@.to_multiset() == input@.to_multiset(),
{
    let ghost orig = input@;
    let mut rest = input;
    let mut out: Vec<(usize, u64)> = Vec::new();
    proof {
        broadcast use vstd::multiset::group_multiset_axioms;

        assert forall|y: (usize, u64)| out@.to_multiset().count(y) == 0 by {
            to_multiset_contains(out@, y);
            if out@.to_multiset().count(y) > 0 {
                assert(out@.contains(y));
            }
        }
        assert(out@.to_multiset() =~= Multiset::<(usize, u64)>::empty());
        assert(out@.to_multiset().add(rest@.to_multiset()) =~= orig.to_multiset());
    }
    while rest.len() > 0
        invariant
            sorted_by_cost(out@),
            out@.to_multiset().add(rest@.to_multiset()) == orig.to_multiset(),
            forall|i: int, j: int|
                0 <= i < out@.len() && 0 <= j < rest@.len() ==> out@[i].1 <= rest@[j].1,
        decreases rest.len(),
    {
        let ghost out0 = out@;
        let ghost rest0 = rest@;
        let m = min_cost_index(&rest);
        let x = rest[m];
        out.push(x);
        let removed: (usize, u64) = rest.remove(m);
        proof {
            broadcast use vstd::multiset::group_multiset_axioms;

            assert(rest0[m as int] == x);
            assert(rest0.contains(x));
            to_multiset_contains(rest0, x);
            to_multiset_build(out0, x);
            to_multiset_remove(rest0, m as int);
            assert(out@ == out0.push(x));
            assert(rest@ == rest0.remove(m as int));
            assert(out@.to_multiset().add(rest@.to_multiset()) =~= out0.to_multiset().add(
                rest0.to_multiset(),
            ));
            assert forall|i: int, j: int|
                0 <= i < out@.len() && 0 <= j < rest@.len() implies out@[i].1 <= rest@[j].1 by {
                assert(rest@[j] == if j < m {
                    rest0[j]
                } else {
                    rest0[j + 1]
                });
            }
            assert(sorted_by_cost(out@));
        }
    }
    proof {
        broadcast use vstd::multiset::group_multiset_axioms;

        assert forall|y: (usize, u64)| rest@.to_multiset().count(y) == 0 by {
            to_multiset_contains(rest@, y);
            if rest@.to_multiset().count(y) > 0 {
                assert(rest@.contains(y));
            }
        }
        assert(rest@.to_multiset() =~= Multiset::<(usize, u64)>::empty());
        assert(out@.to_multiset() =~= out@.to_multiset().add(rest@.to_multiset()));
    }
    out
}

/// The work queue of the multi-worker measurement phase.  `queue` is
/// kept ascending by cost; a pop takes the back, so each worker always
/// receives the most expensive remaining config.
pub struct Scheduler {
    pub queue: Vec<(usize, u64)>,
}

impl Scheduler {
    pub open spec fn wf(&self) -> bool {
        sorted_by_cost(self.queue@)
    }

    /// Builds the queue from (config index, cost) pairs.
    pub fn new(costs: Vec<(usize, u64)>) -> (r: Scheduler)
        ensures
            r.wf(),
            r.queue@.to_multiset() == costs@.to_multiset(),
    {
        Scheduler { queue: sort_by_cost(costs) }
    }

    /// Takes the most expensive remaining config: the popped cost is at
    /// least every cost still queued, so consecutive pops are
    /// non-increasing in cost.
    pub fn pop(&mut self) -> (r: Option<(usize, u64)>)
        requires
            old(self).wf(),
        ensures
            final(self).wf(),
            old(self).queue@.len() == 0 ==> r is None && final(self).queue@ == old(self).queue@,
            old(self).queue@.len() > 0 ==> {
                &&& r is Some
                &&& r->0 == old(self).queue@.last()
                &&& final(self).queue@ == old(self).queue@.drop_last()
                &&& forall|j: int|
                    0 <= j < final(self).queue@.len() ==> final(self).queue@[j].1 <= (r->0).1
            },
    {
        self.queue.pop()
    }
}

/// Scheduling order: with a static cost table and no interleaved pops,
/// two consecutive pops from the queue return costs in non-increasing
/// order — the first pop takes the back of the sorted queue, the second
/// takes the back of what remains.
pub proof fn lemma_pops_non_increasing(q: Seq<(usize, u64)>)
    requires
        sorted_by_cost(q),
        q.len() >= 2,
    ensures
        q.last().1 >= q.drop_last().last().1,
{
}

} // verus!
