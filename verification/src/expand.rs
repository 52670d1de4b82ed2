//! Config expansion: the full cross-product of benchmarks, compilation
//! modes, incremental scenarios and builds under test, in a fixed
//! order — benchmark-major, then mode, then scenario — grouped into
//! one `ConfigInstances` per config with one `Instance` per build.

use vstd::prelude::*;
use crate::config::{Bench, Config};
use crate::errors::BenchError;
use crate::fingerprint::{contains_view, views_of};
use crate::instance::{ConfigInstances, Instance};
use crate::modes::{BenchMode, IncrementalMode};
use crate::seqx::lemma_filter_push;
use crate::strfmt::{join_spec, join_strings};

verus! {

/// Whether a benchmark of that name is known.
pub open spec fn has_bench(known: Seq<Bench>, name: Seq<char>) -> bool {
    exists|j: int| 0 <= j < known.len() && (#[trigger] known[j]).name@ == name
}

/// The first known benchmark of that name.
pub open spec fn first_bench(known: Seq<Bench>, name: Seq<char>) -> Bench
    decreases known.len(),
{
    if known.len() == 0 {
        arbitrary()
    } else if known[0].name@ == name {
        known[0]
    } else {
        first_bench(known.drop_first(), name)
    }
}

/// Picks the benchmarks of a session.  An explicit selection is taken
/// in its own order and an unknown name is a configuration error; an
/// empty selection defaults to the configured set, or to everything
/// known when nothing is configured either.
pub fn select_benchmarks(
    known: &Vec<Bench>,
    selected: &Vec<String>,
    configured: &Vec<String>,
) -> (r: Result<Vec<Bench>, BenchError>)
    ensures
        selected@.len() == 0 && configured@.len() == 0 ==> r is Ok && r->Ok_0@ == known@,
        selected@.len() == 0 && configured@.len() > 0 ==> r is Ok && r->Ok_0@ == known@.filter(
            |b: Bench| contains_view(views_of(configured@), b.name@),
        ),
        selected@.len() > 0 ==> {
            &&& (r is Ok <==> (forall|i: int|
                0 <= i < selected@.len() ==> has_bench(known@, (#[trigger] selected@[i])@)))
            &&& (r is Ok ==> r->Ok_0@.len() == selected@.len() && (forall|i: int|
                0 <= i < selected@.len() ==> r->Ok_0@[i] == first_bench(
                    known@,
                    (#[trigger] selected@[i])@,
                )))
            &&& (r is Err ==> r == Err::<Vec<Bench>, BenchError>(BenchError::ConfigurationError))
        },
{
    if selected.len() == 0 {
        if configured.len() == 0 {
            let mut all: Vec<Bench> = Vec::new();
            let mut i: usize = 0;
            while i < known.len()
                invariant
                    i <= known@.len(),
                    all@ == known@.subrange(0, i as int),
                decreases known@.len() - i,
            {
                all.push(known[i].duplicate());
                proof {
                    assert(all@ =~= known@.subrange(0, (i + 1) as int));
                }
                i = i + 1;
            }
            proof {
                assert(all@ =~= known@);
            }
            Ok(all)
        } else {
            let ghost pred = |b: Bench| contains_view(views_of(configured@), b.name@);
            let mut kept: Vec<Bench> = Vec::new();
            let mut i: usize = 0;
            while i < known.len()
                invariant
                    i <= known@.len(),
                    pred == (|b: Bench| contains_view(views_of(configured@), b.name@)),
                    kept@ == known@.subrange(0, i as int).filter(pred),
                decreases known@.len() - i,
            {
                let ghost prefix = known@.subrange(0, i as int);
                if crate::fingerprint::contains_name(configured, &known[i].name) {
                    kept.push(known[i].duplicate());
                }
                proof {
                    lemma_filter_push(prefix, known@[i as int], pred);
                    assert(prefix.push(known@[i as int]) =~= known@.subrange(0, (i + 1) as int));
                }
                i = i + 1;
            }
            proof {
                assert(known@.subrange(0, known@.len() as int) =~= known@);
            }
            Ok(kept)
        }
    } else {
        let mut chosen: Vec<Bench> = Vec::new();
        let mut i: usize = 0;
        while i < selected.len()
            invariant
                i <= selected@.len(),
                chosen@.len() == i,
                forall|k: int| 0 <= k < i ==> has_bench(known@, (#[trigger] selected@[k])@),
                forall|k: int|
                    0 <= k < i ==> chosen@[k] == first_bench(known@, (#[trigger] selected@[k])@),
            decreases selected@.len() - i,
        {
            match find_bench(known, &selected[i]) {
                Option::Some(b) => {
                    chosen.push(b);
                },
                Option::None => {
                    return Err(BenchError::ConfigurationError);
                },
            }
            i = i + 1;
        }
        Ok(chosen)
    }
}

/// The first known benchmark of that name, when one exists.
fn find_bench(known: &Vec<Bench>, name: &String) -> (r: Option<Bench>)
    ensures
        r is Some <==> has_bench(known@, name@),
        r is Some ==> r->0 == first_bench(known@, name@),
{
    let mut j: usize = 0;
    proof {
        assert(known@.skip(0) =~= known@);
    }
    while j < known.len()
        invariant
            j <= known@.len(),
            forall|k: int| 0 <= k < j ==> (#[trigger] known@[k]).name@ != name@,
            first_bench(known@, name@) == first_bench(known@.skip(j as int), name@),
        decreases known@.len() - j,
    {
        proof {
            assert(known@.skip(j as int)[0] == known@[j as int]);
            assert(known@.skip(j as int).drop_first() =~= known@.skip((j + 1) as int));
        }
        if known[j].name == *name {
            return Option::Some(known[j].duplicate());
        }
        j = j + 1;
    }
    proof {
        if has_bench(known@, name@) {
            let w = choose|w: int| 0 <= w < known@.len() && (#[trigger] known@[w]).name@ == name@;
            assert(known@[w].name@ != name@);
        }
    }
    Option::None
}

/// All compilation modes, in the order an empty selection defaults to.
pub fn default_modes() -> (r: Vec<BenchMode>)
    ensures
        r@ == seq![BenchMode::Check, BenchMode::Release, BenchMode::Debug],
{
    let mut r: Vec<BenchMode> = Vec::new();
    r.push(BenchMode::Check);
    r.push(BenchMode::Release);
    r.push(BenchMode::Debug);
    proof {
        assert(r@ =~= seq![BenchMode::Check, BenchMode::Release, BenchMode::Debug]);
    }
    r
}

/// All incremental scenarios, in the order an empty selection defaults
/// to.
pub fn default_incremental_modes() -> (r: Vec<IncrementalMode>)
    ensures
        r@ == seq![IncrementalMode::Off, IncrementalMode::Initial, IncrementalMode::Unchanged],
{
    let mut r: Vec<IncrementalMode> = Vec::new();
    r.push(IncrementalMode::Off);
    r.push(IncrementalMode::Initial);
    r.push(IncrementalMode::Unchanged);
    proof {
        assert(r@ =~= seq![
            IncrementalMode::Off,
            IncrementalMode::Initial,
            IncrementalMode::Unchanged,
        ]);
    }
    r
}

/// At least one timed iteration is always measured.
pub fn clamp_iterations(requested: usize) -> (r: usize)
    ensures
        r == if requested < 1 {
            1usize
        } else {
            requested
        },
{
    if requested < 1 {
        1
    } else {
        requested
    }
}

/// One benchmark and mode crossed with every incremental scenario.
pub open spec fn per_mode_spec(
    b: Bench,
    m: BenchMode,
    incrs: Seq<IncrementalMode>,
    details: bool,
) -> Seq<Config>
    decreases incrs.len(),
{
    if incrs.len() == 0 {
        Seq::empty()
    } else {
        seq![Config { details, incremental: incrs[0], mode: m, bench: b }] + per_mode_spec(
            b,
            m,
            incrs.drop_first(),
            details,
        )
    }
}

/// One benchmark crossed with every mode and scenario.
pub open spec fn per_bench_spec(
    b: Bench,
    modes: Seq<BenchMode>,
    incrs: Seq<IncrementalMode>,
    details: bool,
) -> Seq<Config>
    decreases modes.len(),
{
    if modes.len() == 0 {
        Seq::empty()
    } else {
        per_mode_spec(b, modes[0], incrs, details) + per_bench_spec(
            b,
            modes.drop_first(),
            incrs,
            details,
        )
    }
}

/// The full matrix, benchmark-major.
pub open spec fn expand_spec(
    benchs: Seq<Bench>,
    modes: Seq<BenchMode>,
    incrs: Seq<IncrementalMode>,
    details: bool,
) -> Seq<Config>
    decreases benchs.len(),
{
    if benchs.len() == 0 {
        Seq::empty()
    } else {
        per_bench_spec(benchs[0], modes, incrs, details) + expand_spec(
            benchs.drop_first(),
            modes,
            incrs,
            details,
        )
    }
}

/// The matrix holds one config per (benchmark, mode, scenario) triple.
pub proof fn lemma_expand_len(
    benchs: Seq<Bench>,
    modes: Seq<BenchMode>,
    incrs: Seq<IncrementalMode>,
    details: bool,
)
    ensures
        expand_spec(benchs, modes, incrs, details).len() == benchs.len() * modes.len()
            * incrs.len(),
    decreases benchs.len(),
{
    if benchs.len() == 0 {
        assert(benchs.len() * modes.len() * incrs.len() == 0) by (nonlinear_arith)
            requires
                benchs.len() == 0,
        ;
    } else {
        lemma_expand_len(benchs.drop_first(), modes, incrs, details);
        lemma_per_bench_len(benchs[0], modes, incrs, details);
        assert(benchs.len() * modes.len() * incrs.len() == modes.len() * incrs.len() + (benchs.len()
            - 1) * modes.len() * incrs.len()) by (nonlinear_arith);
    }
}

proof fn lemma_per_bench_len(
    b: Bench,
    modes: Seq<BenchMode>,
    incrs: Seq<IncrementalMode>,
    details: bool,
)
    ensures
        per_bench_spec(b, modes, incrs, details).len() == modes.len() * incrs.len(),
    decreases modes.len(),
{
    if modes.len() == 0 {
        assert(modes.len() * incrs.len() == 0) by (nonlinear_arith)
            requires
                modes.len() == 0,
        ;
    } else {
        lemma_per_bench_len(b, modes.drop_first(), incrs, details);
        lemma_per_mode_len(b, modes[0], incrs, details);
        assert(modes.len() * incrs.len() == incrs.len() + (modes.len() - 1) * incrs.len())
            by (nonlinear_arith);
    }
}

proof fn lemma_per_mode_len(b: Bench, m: BenchMode, incrs: Seq<IncrementalMode>, details: bool)
    ensures
        per_mode_spec(b, m, incrs, details).len() == incrs.len(),
    decreases incrs.len(),
{
    if incrs.len() > 0 {
        lemma_per_mode_len(b, m, incrs.drop_first(), details);
    }
}

/// Builds the full matrix of measurement configs.
pub fn expand_configs(
    benchs: &Vec<Bench>,
    modes: &Vec<BenchMode>,
    incrs: &Vec<IncrementalMode>,
    details: bool,
) -> (r: Vec<Config>)
    ensures
        r@ == expand_spec(benchs@, modes@, incrs@, details),
{
    let mut r: Vec<Config> = Vec::new();
    let mut ib: usize = 0;
    proof {
        assert(benchs@.skip(0) =~= benchs@);
        assert(r@ + expand_spec(benchs@, modes@, incrs@, details) =~= expand_spec(
            benchs@,
            modes@,
            incrs@,
            details,
        ));
    }
    while ib < benchs.len()
        invariant
            ib <= benchs@.len(),
            expand_spec(benchs@, modes@, incrs@, details) == r@ + expand_spec(
                benchs@.skip(ib as int),
                modes@,
                incrs@,
                details,
            ),
        decreases benchs@.len() - ib,
    {
        proof {
            assert(benchs@.skip(ib as int).drop_first() =~= benchs@.skip((ib + 1) as int));
            assert(benchs@.skip(ib as int)[0] == benchs@[ib as int]);
        }
        let ghost before_bench = r@;
        let mut im: usize = 0;
        proof {
            assert(modes@.skip(0) =~= modes@);
            assert(r@ + per_bench_spec(benchs@[ib as int], modes@, incrs@, details)
                =~= before_bench + per_bench_spec(benchs@[ib as int], modes@, incrs@, details));
        }
        while im < modes.len()
            invariant
                im <= modes@.len(),
                ib < benchs@.len(),
                before_bench + per_bench_spec(benchs@[ib as int], modes@, incrs@, details) == r@
                    + per_bench_spec(
                    benchs@[ib as int],
                    modes@.skip(im as int),
                    incrs@,
                    details,
                ),
            decreases modes@.len() - im,
        {
            proof {
                assert(modes@.skip(im as int).drop_first() =~= modes@.skip((im + 1) as int));
                assert(modes@.skip(im as int)[0] == modes@[im as int]);
            }
            let ghost before_mode = r@;
            let mut ii: usize = 0;
            proof {
                assert(incrs@.skip(0) =~= incrs@);
            }
            while ii < incrs.len()
                invariant
                    ii <= incrs@.len(),
                    ib < benchs@.len(),
                    im < modes@.len(),
                    before_mode + per_mode_spec(
                        benchs@[ib as int],
                        modes@[im as int],
                        incrs@,
                        details,
                    ) == r@ + per_mode_spec(
                        benchs@[ib as int],
                        modes@[im as int],
                        incrs@.skip(ii as int),
                        details,
                    ),
                decreases incrs@.len() - ii,
            {
                proof {
                    assert(incrs@.skip(ii as int).drop_first() =~= incrs@.skip((ii + 1) as int));
                    assert(incrs@.skip(ii as int)[0] == incrs@[ii as int]);
                }
                let ghost at_entry = r@;
                let c = Config {
                    details,
                    incremental: incrs[ii],
                    mode: modes[im],
                    bench: benchs[ib].duplicate(),
                };
                r.push(c);
                proof {
                    assert(r@ =~= at_entry + seq![
                        Config {
                            details,
                            incremental: incrs@[ii as int],
                            mode: modes@[im as int],
                            bench: benchs@[ib as int],
                        },
                    ]);
                    assert(at_entry + (seq![
                        Config {
                            details,
                            incremental: incrs@[ii as int],
                            mode: modes@[im as int],
                            bench: benchs@[ib as int],
                        },
                    ] + per_mode_spec(
                        benchs@[ib as int],
                        modes@[im as int],
                        incrs@.skip((ii + 1) as int),
                        details,
                    )) =~= r@ + per_mode_spec(
                        benchs@[ib as int],
                        modes@[im as int],
                        incrs@.skip((ii + 1) as int),
                        details,
                    ));
                }
                ii = ii + 1;
            }
            proof {
                assert(per_mode_spec(
                    benchs@[ib as int],
                    modes@[im as int],
                    incrs@.skip(incrs@.len() as int),
                    details,
                ) =~= Seq::<Config>::empty());
                assert(r@ + Seq::<Config>::empty() =~= r@);
            }
            im = im + 1;
        }
        proof {
            assert(per_bench_spec(
                benchs@[ib as int],
                modes@.skip(modes@.len() as int),
                incrs@,
                details,
            ) =~= Seq::<Config>::empty());
            assert(r@ + Seq::<Config>::empty() =~= r@);
        }
        ib = ib + 1;
    }
    proof {
        assert(expand_spec(benchs@.skip(benchs@.len() as int), modes@, incrs@, details) =~= Seq::<
            Config,
        >::empty());
        assert(r@ + Seq::<Config>::empty() =~= r@);
    }
    r
}

/// Groups the matrix into one row per config, with one fresh instance
/// per build under test.
pub fn group_instances(configs: Vec<Config>, n_builds: usize) -> (r: Vec<ConfigInstances>)
    ensures
        r@.len() == configs@.len(),
        forall|c: int|
            0 <= c < configs@.len() ==> {
                &&& (#[trigger] r@[c]).config_index == c
                &&& r@[c].config == configs@[c]
                &&& r@[c].builds@.len() == n_builds
                &&& forall|b: int|
                    0 <= b < n_builds ==> {
                        &&& (#[trigger] r@[c].builds@[b]).config_index == c
                        &&& r@[c].builds@[b].build_index == b
                        &&& r@[c].builds@[b].time@.len() == 0
                        &&& r@[c].builds@[b].times@.len() == 0
                    }
            },
{
    let mut r: Vec<ConfigInstances> = Vec::new();
    let mut c: usize = 0;
    while c < configs.len()
        invariant
            c <= configs@.len(),
            r@.len() == c,
            forall|k: int|
                0 <= k < c ==> {
                    &&& (#[trigger] r@[k]).config_index == k
                    &&& r@[k].config == configs@[k]
                    &&& r@[k].builds@.len() == n_builds
                    &&& forall|b: int|
                        0 <= b < n_builds ==> {
                            &&& (#[trigger] r@[k].builds@[b]).config_index == k
                            &&& r@[k].builds@[b].build_index == b
                            &&& r@[k].builds@[b].time@.len() == 0
                            &&& r@[k].builds@[b].times@.len() == 0
                        }
                },
        decreases configs@.len() - c,
    {
        let mut builds: Vec<Instance> = Vec::new();
        let mut b: usize = 0;
        while b < n_builds
            invariant
                b <= n_builds,
                c < configs@.len(),
                builds@.len() == b,
                forall|k: int|
                    0 <= k < b ==> {
                        &&& (#[trigger] builds@[k]).config_index == c
                        &&& builds@[k].build_index == k
                        &&& builds@[k].time@.len() == 0
                        &&& builds@[k].times@.len() == 0
                    },
            decreases n_builds - b,
        {
            builds.push(Instance::new(c, b));
            b = b + 1;
        }
        r.push(ConfigInstances { config_index: c, config: configs[c].duplicate(), builds });
        c = c + 1;
    }
    r
}

/// The one-line description of the whole session: every config's
/// display string, comma separated.
pub fn configs_description(configs: &Vec<Config>) -> (r: String)
    ensures
        r@ == join_spec(
            configs@.map_values(|c: Config| crate::config::config_display_spec(c)),
            ", "@,
        ),
{
    let mut displays: Vec<String> = Vec::new();
    let mut i: usize = 0;
    while i < configs.len()
        invariant
            i <= configs@.len(),
            displays@.len() == i,
            forall|k: int|
                0 <= k < i ==> (#[trigger] displays@[k])@ == crate::config::config_display_spec(
                    configs@[k],
                ),
        decreases configs@.len() - i,
    {
        displays.push(configs[i].display());
        i = i + 1;
    }
    let r = join_strings(&displays, ", ");
    proof {
        assert(displays@.map_values(|p: String| p@) =~= configs@.map_values(
            |c: Config| crate::config::config_display_spec(c),
        ));
    }
    r
}

} // verus!
