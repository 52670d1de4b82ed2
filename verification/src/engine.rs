//! The run engine's decisions: what one instance's preparation does,
//! the exact action sequence a worker performs for one config, and how
//! a finished subprocess's exit status and captured error stream turn
//! into recorded measurements or a fatal error.  The surrounding
//! application executes the actions (processes, sleeps, clock
//! readings); every decision between them is made here.

use vstd::prelude::*;
use crate::detail::{
    max_rss_end, merge_passes, min_rss_start, names_of, PassSample, sum_all_nanos, sum_nanos,
    trunc_start_spec, truncate_to_final_unit,
};
use crate::errors::BenchError;
use crate::instance::Instance;
use crate::modes::IncrementalMode;
use crate::protocol::{
    has_prefix, parse_detail_line, parse_detail_spec, split_lines, split_lines_spec,
    timer_result_spec, trim_chars, trim_spec,
};
use crate::quiesce::ITERATION_SPACING_MILLIS;
use crate::seqx::lemma_filter_push;
use crate::strfmt::chars_of;

verus! {

/// One step of an instance's untimed preparation.
#[derive(Clone, Copy, PartialEq, Eq, Structural, Debug)]
pub enum PrepareStep {
    /// The prepare pass itself: populate the dependency caches.
    Populate,
    /// One extra untimed run whose result is discarded: it primes the
    /// incremental cache so every measured iteration is a no-op
    /// incremental rebuild.
    PrimeIncremental,
}

/// The preparation of one instance: the prepare pass, and for the
/// `Unchanged` scenario one additional discarded priming run after it.
pub fn prepare_steps(incremental: IncrementalMode) -> (r: Vec<PrepareStep>)
    ensures
        incremental == IncrementalMode::Unchanged ==> r@ == seq![
            PrepareStep::Populate,
            PrepareStep::PrimeIncremental,
        ],
        incremental != IncrementalMode::Unchanged ==> r@ == seq![PrepareStep::Populate],
{
    let mut r: Vec<PrepareStep> = Vec::new();
    r.push(PrepareStep::Populate);
    if incremental == IncrementalMode::Unchanged {
        r.push(PrepareStep::PrimeIncremental);
        proof {
            assert(r@ =~= seq![PrepareStep::Populate, PrepareStep::PrimeIncremental]);
        }
    } else {
        proof {
            assert(r@ =~= seq![PrepareStep::Populate]);
        }
    }
    r
}

/// One thing a worker does while it owns a config.
#[derive(Clone, Copy, PartialEq, Eq, Structural, Debug)]
pub enum WorkerAction {
    /// Mark the config started on the dashboard.
    StartConfig,
    /// Sleep the fixed inter-iteration spacing, in milliseconds.
    Sleep(u64),
    /// Poll the quiescence coordinator until the window is quiet.
    WaitQuiescence,
    /// Invalidate the instance's fingerprints, then perform one wrapped
    /// run of the named build; a warmup run is never recorded.
    Run { build_index: usize, warmup: bool },
    /// Record the worker's own event timestamp after the run.
    RecordEvent,
}

/// The actions around and including one run of one build.
pub open spec fn group_spec(b: int, warmup: bool, multi: bool) -> Seq<WorkerAction> {
    (if warmup {
        Seq::<WorkerAction>::empty()
    } else {
        seq![WorkerAction::Sleep(ITERATION_SPACING_MILLIS)]
    }) + (if multi {
        seq![WorkerAction::WaitQuiescence]
    } else {
        Seq::<WorkerAction>::empty()
    }) + seq![WorkerAction::Run { build_index: b as usize, warmup }] + (if multi {
        seq![WorkerAction::RecordEvent]
    } else {
        Seq::<WorkerAction>::empty()
    })
}

/// One pass over the builds, from `b` on.
pub open spec fn round_spec(n: int, b: int, warmup: bool, multi: bool) -> Seq<WorkerAction>
    decreases n - b,
{
    if b < 0 || b >= n {
        Seq::empty()
    } else {
        group_spec(b, warmup, multi) + round_spec(n, b + 1, warmup, multi)
    }
}

/// `count` passes over all builds.
pub open spec fn rounds_spec(n: int, count: int, warmup: bool, multi: bool) -> Seq<WorkerAction>
    decreases count,
{
    if count <= 0 {
        Seq::empty()
    } else {
        round_spec(n, 0, warmup, multi) + rounds_spec(n, count - 1, warmup, multi)
    }
}

/// Everything a worker does for one config: mark it started, run every
/// warmup round, then every timed round.  Each timed run is preceded by
/// the flat spacing sleep; the quiescence wait and the event record
/// surround every run only when more than one worker exists.
pub open spec fn run_plan_spec(n: int, warmups: int, iterations: int, multi: bool) -> Seq<
    WorkerAction,
> {
    seq![WorkerAction::StartConfig] + rounds_spec(n, warmups, true, multi) + rounds_spec(
        n,
        iterations,
        false,
        multi,
    )
}

/// Emits one pass over the builds.
fn push_round(out: &mut Vec<WorkerAction>, n: usize, warmup: bool, multi: bool)
    ensures
        final(out)@ == old(out)@ + round_spec(n as int, 0, warmup, multi),
{
    let ghost base = out@;
    let mut b: usize = 0;
    proof {
        assert(base + round_spec(n as int, 0, warmup, multi) =~= out@ + round_spec(
            n as int,
            0,
            warmup,
            multi,
        ));
    }
    while b < n
        invariant
            b <= n,
            base + round_spec(n as int, 0, warmup, multi) == out@ + round_spec(
                n as int,
                b as int,
                warmup,
                multi,
            ),
        decreases n - b,
    {
        let ghost at_entry = out@;
        if !warmup {
            out.push(WorkerAction::Sleep(ITERATION_SPACING_MILLIS));
        }
        if multi {
            out.push(WorkerAction::WaitQuiescence);
        }
        out.push(WorkerAction::Run { build_index: b, warmup });
        if multi {
            out.push(WorkerAction::RecordEvent);
        }
        proof {
            assert(out@ =~= at_entry + group_spec(b as int, warmup, multi));
            assert(round_spec(n as int, b as int, warmup, multi) == group_spec(
                b as int,
                warmup,
                multi,
            ) + round_spec(n as int, (b + 1) as int, warmup, multi));
            assert(at_entry + (group_spec(b as int, warmup, multi) + round_spec(
                n as int,
                (b + 1) as int,
                warmup,
                multi,
            )) =~= out@ + round_spec(n as int, (b + 1) as int, warmup, multi));
        }
        b = b + 1;
    }
    proof {
        assert(round_spec(n as int, n as int, warmup, multi) =~= Seq::<WorkerAction>::empty());
        assert(out@ + Seq::<WorkerAction>::empty() =~= out@);
    }
}

/// The action sequence a worker performs once it has popped a config:
/// exactly `run_plan_spec`.
pub fn run_plan(n_builds: usize, warmups: usize, iterations: usize, multi: bool) -> (r: Vec<
    WorkerAction,
>)
    ensures
        r@ == run_plan_spec(n_builds as int, warmups as int, iterations as int, multi),
{
    let mut out: Vec<WorkerAction> = Vec::new();
    out.push(WorkerAction::StartConfig);
    let ghost after_start = out@;
    let mut w: usize = 0;
    proof {
        assert(rounds_spec(n_builds as int, 0, true, multi) =~= Seq::<WorkerAction>::empty());
        assert(after_start + Seq::<WorkerAction>::empty() =~= after_start);
    }
    while w < warmups
        invariant
            w <= warmups,
            out@ == after_start + rounds_spec(n_builds as int, w as int, true, multi),
        decreases warmups - w,
    {
        push_round(&mut out, n_builds, true, multi);
        proof {
            lemma_rounds_snoc(n_builds as int, w as int, true, multi);
            assert(after_start + rounds_spec(n_builds as int, w as int, true, multi) + round_spec(
                n_builds as int,
                0,
                true,
                multi,
            ) =~= after_start + rounds_spec(n_builds as int, (w + 1) as int, true, multi));
        }
        w = w + 1;
    }
    let ghost after_warmups = out@;
    let mut it: usize = 0;
    proof {
        assert(rounds_spec(n_builds as int, 0, false, multi) =~= Seq::<WorkerAction>::empty());
        assert(after_warmups + Seq::<WorkerAction>::empty() =~= after_warmups);
    }
    while it < iterations
        invariant
            it <= iterations,
            out@ == after_warmups + rounds_spec(n_builds as int, it as int, false, multi),
        decreases iterations - it,
    {
        push_round(&mut out, n_builds, false, multi);
        proof {
            lemma_rounds_snoc(n_builds as int, it as int, false, multi);
            assert(after_warmups + rounds_spec(n_builds as int, it as int, false, multi)
                + round_spec(n_builds as int, 0, false, multi) =~= after_warmups + rounds_spec(
                n_builds as int,
                (it + 1) as int,
                false,
                multi,
            ));
        }
        it = it + 1;
    }
    proof {
        assert(out@ =~= run_plan_spec(n_builds as int, warmups as int, iterations as int, multi));
    }
    out
}

/// Growing the round count appends one more round.
proof fn lemma_rounds_snoc(n: int, c: int, warmup: bool, multi: bool)
    requires
        c >= 0,
    ensures
        rounds_spec(n, c + 1, warmup, multi) == rounds_spec(n, c, warmup, multi) + round_spec(
            n,
            0,
            warmup,
            multi,
        ),
    decreases c,
{
    if c == 0 {
        assert(rounds_spec(n, 1, warmup, multi) == round_spec(n, 0, warmup, multi) + rounds_spec(
            n,
            0,
            warmup,
            multi,
        ));
        assert(round_spec(n, 0, warmup, multi) + Seq::<WorkerAction>::empty() =~= round_spec(
            n,
            0,
            warmup,
            multi,
        ));
        assert(Seq::<WorkerAction>::empty() + round_spec(n, 0, warmup, multi) =~= round_spec(
            n,
            0,
            warmup,
            multi,
        ));
    } else {
        lemma_rounds_snoc(n, c - 1, warmup, multi);
        assert(rounds_spec(n, c + 1, warmup, multi) == round_spec(n, 0, warmup, multi)
            + rounds_spec(n, c, warmup, multi));
        assert(rounds_spec(n, c, warmup, multi) == round_spec(n, 0, warmup, multi) + rounds_spec(
            n,
            c - 1,
            warmup,
            multi,
        ));
        assert(round_spec(n, 0, warmup, multi) + (rounds_spec(n, c - 1, warmup, multi) + round_spec(
            n,
            0,
            warmup,
            multi,
        )) =~= (round_spec(n, 0, warmup, multi) + rounds_spec(n, c - 1, warmup, multi))
            + round_spec(n, 0, warmup, multi));
    }
}

/// How many runs of build `b` (warmup or timed) a sequence holds.
pub open spec fn count_runs(s: Seq<WorkerAction>, b: int, warmup: bool) -> int
    decreases s.len(),
{
    if s.len() == 0 {
        0
    } else {
        count_runs(s.drop_last(), b, warmup) + if s.last() == (WorkerAction::Run {
            build_index: b as usize,
            warmup,
        }) {
            1int
        } else {
            0int
        }
    }
}

proof fn lemma_count_concat(x: Seq<WorkerAction>, y: Seq<WorkerAction>, b: int, warmup: bool)
    ensures
        count_runs(x + y, b, warmup) == count_runs(x, b, warmup) + count_runs(y, b, warmup),
    decreases y.len(),
{
    if y.len() == 0 {
        assert(x + y =~= x);
    } else {
        lemma_count_concat(x, y.drop_last(), b, warmup);
        assert((x + y).drop_last() =~= x + y.drop_last());
        assert((x + y).last() == y.last());
    }
}

proof fn lemma_count_group(b: int, warmup: bool, multi: bool, rb: int, rw: bool)
    requires
        0 <= b <= usize::MAX,
        0 <= rb <= usize::MAX,
    ensures
        count_runs(group_spec(b, warmup, multi), rb, rw) == if rb == b && rw == warmup {
            1int
        } else {
            0int
        },
{
    let g = group_spec(b, warmup, multi);
    let pre = (if warmup {
        Seq::<WorkerAction>::empty()
    } else {
        seq![WorkerAction::Sleep(ITERATION_SPACING_MILLIS)]
    }) + (if multi {
        seq![WorkerAction::WaitQuiescence]
    } else {
        Seq::<WorkerAction>::empty()
    });
    let run = seq![WorkerAction::Run { build_index: b as usize, warmup }];
    let post = if multi {
        seq![WorkerAction::RecordEvent]
    } else {
        Seq::<WorkerAction>::empty()
    };
    assert(g =~= pre + run + post);
    lemma_count_concat(pre + run, post, rb, rw);
    lemma_count_concat(pre, run, rb, rw);
    lemma_count_no_runs(pre, rb, rw);
    lemma_count_no_runs(post, rb, rw);
    let e = Seq::<WorkerAction>::empty();
    assert(count_runs(e, rb, rw) == 0);
    assert(run.drop_last() =~= e);
    assert(run.last() == (WorkerAction::Run { build_index: b as usize, warmup }));
    assert(count_runs(run, rb, rw) == if run.last() == (WorkerAction::Run {
        build_index: rb as usize,
        warmup: rw,
    }) {
        1int
    } else {
        0int
    });
    assert(count_runs(g, rb, rw) == count_runs(pre, rb, rw) + count_runs(run, rb, rw) + count_runs(
        post,
        rb,
        rw,
    ));
    if rb == b && rw == warmup {
        assert((WorkerAction::Run { build_index: b as usize, warmup }) == (WorkerAction::Run {
            build_index: rb as usize,
            warmup: rw,
        }));
    } else {
        if run.last() == (WorkerAction::Run { build_index: rb as usize, warmup: rw }) {
            assert(b as usize == rb as usize);
            assert(b == rb && warmup == rw);
        }
    }
}

/// A stretch without run actions counts none.
proof fn lemma_count_no_runs(s: Seq<WorkerAction>, rb: int, rw: bool)
    requires
        forall|k: int| 0 <= k < s.len() ==> !((#[trigger] s[k]) is Run),
    ensures
        count_runs(s, rb, rw) == 0,
    decreases s.len(),
{
    if s.len() > 0 {
        lemma_count_no_runs(s.drop_last(), rb, rw);
    }
}

proof fn lemma_count_round(n: int, b0: int, warmup: bool, multi: bool, rb: int, rw: bool)
    requires
        0 <= b0,
        n <= usize::MAX as int + 1,
        0 <= rb <= usize::MAX,
    ensures
        count_runs(round_spec(n, b0, warmup, multi), rb, rw) == if rw == warmup && b0 <= rb < n {
            1int
        } else {
            0int
        },
    decreases n - b0,
{
    if b0 < 0 || b0 >= n {
    } else {
        lemma_count_round(n, b0 + 1, warmup, multi, rb, rw);
        lemma_count_concat(
            group_spec(b0, warmup, multi),
            round_spec(n, b0 + 1, warmup, multi),
            rb,
            rw,
        );
        lemma_count_group(b0, warmup, multi, rb, rw);
    }
}

proof fn lemma_count_rounds(n: int, c: int, warmup: bool, multi: bool, rb: int, rw: bool)
    requires
        c >= 0,
        n <= usize::MAX as int + 1,
        0 <= rb <= usize::MAX,
    ensures
        count_runs(rounds_spec(n, c, warmup, multi), rb, rw) == if rw == warmup && 0 <= rb < n {
            c
        } else {
            0int
        },
    decreases c,
{
    if c > 0 {
        lemma_count_rounds(n, c - 1, warmup, multi, rb, rw);
        lemma_count_concat(
            round_spec(n, 0, warmup, multi),
            rounds_spec(n, c - 1, warmup, multi),
            rb,
            rw,
        );
        lemma_count_round(n, 0, warmup, multi, rb, rw);
    }
}

/// Every instance is fully exercised: the plan for one config holds,
/// for each of its builds, exactly the configured number of warmup runs
/// and exactly the configured number of timed runs — so an instance
/// that follows the plan records `iterations` durations and performs
/// `warmups` warmups, and the warmup rounds all precede the timed
/// rounds.
pub proof fn lemma_plan_run_counts(n: int, warmups: int, iterations: int, multi: bool, b: int)
    requires
        0 <= b < n,
        n <= usize::MAX as int + 1,
        warmups >= 0,
        iterations >= 0,
    ensures
        count_runs(run_plan_spec(n, warmups, iterations, multi), b, true) == warmups,
        count_runs(run_plan_spec(n, warmups, iterations, multi), b, false) == iterations,
{
    let start = seq![WorkerAction::StartConfig];
    let wr = rounds_spec(n, warmups, true, multi);
    let ir = rounds_spec(n, iterations, false, multi);
    lemma_count_concat(start + wr, ir, b, true);
    lemma_count_concat(start, wr, b, true);
    lemma_count_concat(start + wr, ir, b, false);
    lemma_count_concat(start, wr, b, false);
    lemma_count_no_runs(start, b, true);
    lemma_count_no_runs(start, b, false);
    lemma_count_rounds(n, warmups, true, multi, b, true);
    lemma_count_rounds(n, warmups, true, multi, b, false);
    lemma_count_rounds(n, iterations, false, multi, b, true);
    lemma_count_rounds(n, iterations, false, multi, b, false);
}

/// The prepare pass succeeds exactly when its subprocess did.
pub fn process_prepare_output(status_ok: bool) -> (r: Result<(), BenchError>)
    ensures
        status_ok <==> r is Ok,
        !status_ok ==> r == Err::<(), BenchError>(BenchError::PrepareFailure),
{
    if status_ok {
        Ok(())
    } else {
        Err(BenchError::PrepareFailure)
    }
}

/// What one finished run amounts to.
pub enum RunOutcome {
    /// A warmup or discarded priming run: it counts, but records no
    /// duration.
    Untimed,
    /// A timed run: one accepted duration in microseconds, and the raw
    /// per-pass samples when detail was requested.
    Timed { duration: u64, passes: Option<Vec<PassSample>> },
}

/// The trimmed lines of the stream that open with a detail marker.
pub open spec fn detail_lines_spec(stderr: Seq<char>) -> Seq<Seq<char>> {
    split_lines_spec(stderr).map_values(|l: Seq<char>| trim_spec(l)).filter(
        |l: Seq<char>| has_prefix(l, "time:"@),
    )
}

/// Whether every detail line of the stream is well formed.
pub open spec fn all_detail_lines_parse(stderr: Seq<char>) -> bool {
    forall|k: int|
        0 <= k < detail_lines_spec(stderr).len() ==> parse_detail_spec(
            #[trigger] detail_lines_spec(stderr)[k],
        ) is Some
}

/// Collects the per-pass samples of every detail line; one malformed
/// line poisons the whole run.
pub fn parse_detail_samples(stderr: &str) -> (r: Result<Vec<PassSample>, BenchError>)
    ensures
        r is Ok <==> all_detail_lines_parse(stderr@),
        r is Err ==> r == Err::<Vec<PassSample>, BenchError>(BenchError::ProtocolError),
        r is Ok ==> {
            let dl = detail_lines_spec(stderr@);
            &&& r->Ok_0@.len() == dl.len()
            &&& forall|k: int|
                0 <= k < dl.len() ==> {
                    let f = parse_detail_spec(#[trigger] dl[k])->0;
                    &&& r->Ok_0@[k].name@ == f.name
                    &&& r->Ok_0@[k].nanos == f.nanos
                    &&& r->Ok_0@[k].rss_start == f.rss_start
                    &&& r->Ok_0@[k].rss_end == f.rss_end
                }
        },
{
    let cs = chars_of(stderr);
    let lines = split_lines(&cs);
    let prefix_chars = chars_of("time:");
    let ghost pred = |l: Seq<char>| has_prefix(l, "time:"@);
    let ghost all_trimmed = split_lines_spec(stderr@).map_values(|l: Seq<char>| trim_spec(l));
    let mut out: Vec<PassSample> = Vec::new();
    let ghost mut seen: Seq<Seq<char>> = Seq::empty();
    let mut i: usize = 0;
    proof {
        assert(all_trimmed.take(0) =~= Seq::<Seq<char>>::empty());
        assert(Seq::<Seq<char>>::empty().filter(pred) =~= Seq::<Seq<char>>::empty()) by {
            reveal(Seq::filter);
        }
    }
    while i < lines.len()
        invariant
            i <= lines.len(),
            pred == (|l: Seq<char>| has_prefix(l, "time:"@)),
            prefix_chars@ == "time:"@,
            all_trimmed == split_lines_spec(stderr@).map_values(|l: Seq<char>| trim_spec(l)),
            lines@.map_values(|l: Vec<char>| l@) == split_lines_spec(stderr@),
            seen == all_trimmed.take(i as int).filter(pred),
            out@.len() == seen.len(),
            forall|k: int| 0 <= k < seen.len() ==> parse_detail_spec(#[trigger] seen[k]) is Some,
            forall|k: int|
                0 <= k < seen.len() ==> {
                    let f = parse_detail_spec(#[trigger] seen[k])->0;
                    &&& out@[k].name@ == f.name
                    &&& out@[k].nanos == f.nanos
                    &&& out@[k].rss_start == f.rss_start
                    &&& out@[k].rss_end == f.rss_end
                },
        decreases lines.len() - i,
    {
        let trimmed = trim_chars(&lines[i]);
        proof {
            assert(lines@.map_values(|l: Vec<char>| l@)[i as int] == lines@[i as int]@);
            assert(all_trimmed[i as int] == trim_spec(lines@[i as int]@));
            lemma_filter_push(all_trimmed.take(i as int), all_trimmed[i as int], pred);
            assert(all_trimmed.take(i as int).push(all_trimmed[i as int]) =~= all_trimmed.take(
                (i + 1) as int,
            ));
        }
        if crate::protocol::starts_with_chars(&trimmed, &prefix_chars) {
            match parse_detail_line(&trimmed) {
                Option::Some(sample) => {
                    out.push(sample);
                    proof {
                        seen = seen.push(trimmed@);
                    }
                },
                Option::None => {
                    proof {
                        assert(all_trimmed.take((i + 1) as int).filter(pred) == seen.push(
                            trimmed@,
                        ));
                        lemma_filter_prefix_le(all_trimmed, pred, (i + 1) as int);
                        assert(all_trimmed.take((i + 1) as int).filter(pred)[seen.len() as int]
                            == trimmed@);
                        assert(all_trimmed.filter(pred)[seen.len() as int] == trimmed@);
                        assert(detail_lines_spec(stderr@) == all_trimmed.filter(pred));
                        assert(detail_lines_spec(stderr@)[seen.len() as int] == trimmed@);
                        assert(!all_detail_lines_parse(stderr@));
                    }
                    return Err(BenchError::ProtocolError);
                },
            }
        }
        i = i + 1;
    }
    proof {
        assert(all_trimmed.take(lines@.len() as int) =~= all_trimmed);
    }
    Ok(out)
}

/// A later filtered prefix extends an earlier one.
proof fn lemma_filter_prefix_le(s: Seq<Seq<char>>, pred: spec_fn(Seq<char>) -> bool, i: int)
    requires
        0 <= i <= s.len(),
    ensures
        forall|k: int|
            0 <= k < s.take(i).filter(pred).len() ==> s.filter(pred)[k] == #[trigger] s.take(
                i,
            ).filter(pred)[k],
        s.take(i).filter(pred).len() <= s.filter(pred).len(),
    decreases s.len() - i,
{
    if i == s.len() {
        assert(s.take(i) =~= s);
    } else {
        lemma_filter_prefix_le(s, pred, i + 1);
        lemma_filter_push(s.take(i), s[i], pred);
        assert(s.take(i).push(s[i]) =~= s.take(i + 1));
        assert forall|k: int|
            0 <= k < s.take(i).filter(pred).len() implies s.filter(pred)[k] == s.take(i).filter(
            pred,
        )[k] by {
            assert(s.take(i + 1).filter(pred)[k] == s.take(i).filter(pred)[k]);
            assert(s.filter(pred)[k] == s.take(i + 1).filter(pred)[k]);
        }
    }
}

/// Turns one finished run into an outcome.  A failed subprocess is
/// fatal; a priming or warmup run yields nothing further; a timed run
/// must carry exactly one well-formed timing marker, and — when detail
/// was requested — only well-formed detail lines.
pub fn process_run_output(
    status_ok: bool,
    stderr: &str,
    warmup: bool,
    incremental_extra: bool,
    details: bool,
) -> (r: Result<RunOutcome, BenchError>)
    ensures
        !status_ok ==> r == Err::<RunOutcome, BenchError>(BenchError::RunFailure),
        status_ok && (incremental_extra || warmup) ==> r is Ok && r->Ok_0 is Untimed,
        status_ok && !incremental_extra && !warmup ==> {
            &&& timer_result_spec(stderr@) is None ==> r == Err::<RunOutcome, BenchError>(
                BenchError::ProtocolError,
            )
            &&& timer_result_spec(stderr@) is Some && !details ==> r is Ok && r->Ok_0 is Timed
                && r->Ok_0->duration == timer_result_spec(stderr@)->0 && r->Ok_0->passes is None
            &&& timer_result_spec(stderr@) is Some && details && !all_detail_lines_parse(stderr@)
                ==> r == Err::<RunOutcome, BenchError>(BenchError::ProtocolError)
            &&& timer_result_spec(stderr@) is Some && details && all_detail_lines_parse(stderr@)
                ==> {
                let dl = detail_lines_spec(stderr@);
                &&& r is Ok
                &&& r->Ok_0 is Timed
                &&& r->Ok_0->duration == timer_result_spec(stderr@)->0
                &&& r->Ok_0->passes is Some
                &&& r->Ok_0->passes->0@.len() == dl.len()
                &&& forall|k: int|
                    0 <= k < dl.len() ==> {
                        let f = parse_detail_spec(#[trigger] dl[k])->0;
                        &&& r->Ok_0->passes->0@[k].name@ == f.name
                        &&& r->Ok_0->passes->0@[k].nanos == f.nanos
                        &&& r->Ok_0->passes->0@[k].rss_start == f.rss_start
                        &&& r->Ok_0->passes->0@[k].rss_end == f.rss_end
                    }
            }
        },
{
    if !status_ok {
        return Err(BenchError::RunFailure);
    }
    if incremental_extra || warmup {
        return Ok(RunOutcome::Untimed);
    }
    let duration = match crate::protocol::scan_timer_lines(stderr) {
        Ok(d) => d,
        Err(e) => {
            return Err(e);
        },
    };
    if details {
        match parse_detail_samples(stderr) {
            Ok(samples) => Ok(
                RunOutcome::Timed { duration, passes: Option::Some(samples) },
            ),
            Err(e) => Err(e),
        }
    } else {
        Ok(RunOutcome::Timed { duration, passes: Option::None })
    }
}

/// Records one timed run on its instance: the duration always, and —
/// when detail was requested — the truncated and merged per-pass
/// samples.  A detail set whose durations together exceed the machine
/// bound is protocol garbage and fatal.
pub fn record_timed_run(
    instance: &mut Instance,
    duration: u64,
    passes: Option<Vec<PassSample>>,
) -> (r: Result<(), BenchError>)
    ensures
        passes is None ==> r is Ok,
        passes is Some ==> (r is Ok <==> sum_all_nanos(
            passes->0@.skip(trunc_start_spec(names_of(passes->0@))),
        ) <= u64::MAX),
        r is Err ==> r == Err::<(), BenchError>(BenchError::ProtocolError) && final(instance).time@
            == old(instance).time@ && final(instance).times@ == old(instance).times@,
        r is Ok ==> final(instance).time@ == old(instance).time@.push(duration),
        r is Ok && passes is None ==> final(instance).times@ == old(instance).times@,
        r is Ok && passes is Some ==> {
            let t = passes->0@.skip(trunc_start_spec(names_of(passes->0@)));
            &&& final(instance).times@.len() == old(instance).times@.len() + 1
            &&& (forall|k: int|
                0 <= k < old(instance).times@.len() ==> final(instance).times@[k] == old(
                    instance,
                ).times@[k])
            &&& final(instance).times@.last()@.len() == t.len()
            &&& (forall|k: int|
                0 <= k < t.len() ==> {
                    let m = final(instance).times@.last()@[k];
                    &&& m.name@ == (#[trigger] t[k]).name@
                    &&& m.nanos == sum_nanos(t, t[k].name@)
                    &&& m.rss_start == min_rss_start(t, t[k].name@)->0
                    &&& m.rss_end == max_rss_end(t, t[k].name@)->0
                })
        },
{
    match &passes {
        Option::Some(samples) => {
            let truncated = truncate_to_final_unit(samples);
            let mut total: u64 = 0;
            let mut k: usize = 0;
            while k < truncated.len()
                invariant
                    k <= truncated@.len(),
                    passes is Some,
                    truncated@ == passes->0@.skip(trunc_start_spec(names_of(passes->0@))),
                    total == sum_all_nanos(truncated@.take(k as int)),
                decreases truncated@.len() - k,
            {
                proof {
                    assert(truncated@.take((k + 1) as int).drop_last() =~= truncated@.take(
                        k as int,
                    ));
                    assert(truncated@.take((k + 1) as int).last() == truncated@[k as int]);
                }
                total = match total.checked_add(truncated[k].nanos) {
                    Option::Some(v) => v,
                    Option::None => {
                        proof {
                            crate::detail::lemma_sum_all_take_le(truncated@, (k + 1) as int);
                        }
                        return Err(BenchError::ProtocolError);
                    },
                };
                k = k + 1;
            }
            proof {
                assert(truncated@.take(truncated@.len() as int) =~= truncated@);
            }
            let merged = merge_passes(&truncated);
            instance.record(duration);
            instance.record_detail(merged);
            Ok(())
        },
        Option::None => {
            instance.record(duration);
            Ok(())
        },
    }
}

} // verus!
