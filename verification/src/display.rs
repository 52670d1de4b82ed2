//! The live dashboard: a single-writer model mirroring every config's
//! instances with iteration/warmup counters and running totals.  Every
//! event redraws differentially: the previous draw's lines are erased
//! (the view tracks their widths) and the active region is rewritten; a
//! config that completes is painted once into the permanent region
//! above before the live region returns.

use vstd::prelude::*;
use vstd::view::View as ViewTrait;
use crate::config::Config;
use crate::instance::ConfigInstances;
use crate::stats::{min_count_spec, InstanceStats};
use crate::strfmt::{dec_digits, format_u128, format_u64, format_u64_zero_pad, pad_left, pad_left_spec, zero_pad_spec};
use crate::term::{color_code, color_code_spec, RenderCmd, View};

verus! {

/// Saturating addition for running sums shown on the dashboard: a
/// display total must never fault, only stop growing.
pub open spec fn sat64_spec(a: int, b: int) -> int {
    if a + b <= u64::MAX {
        a + b
    } else {
        u64::MAX as int
    }
}

pub fn sat_add_u64(a: u64, b: u64) -> (r: u64)
    ensures
        r == sat64_spec(a as int, b as int),
{
    if u64::MAX - b < a {
        u64::MAX
    } else {
        a + b
    }
}

/// `{:>8.04}s`: the duration in seconds with four decimals, right
/// aligned to eight columns, then the unit.
pub open spec fn fmt_secs_spec(micros: u64) -> Seq<char> {
    pad_left_spec(
        dec_digits((micros / 1000000) as nat) + "."@ + zero_pad_spec(
            ((micros % 1000000) / 100) as nat,
            4,
        ),
        8,
    ) + "s"@
}

pub fn fmt_secs(micros: u64) -> (r: String)
    ensures
        r@ == fmt_secs_spec(micros),
{
    let mut body = format_u64(micros / 1000000);
    body.append(".");
    let frac = format_u64_zero_pad((micros % 1000000) / 100, 4);
    body.append(frac.as_str());
    let mut padded = pad_left(body, 8);
    padded.append("s");
    proof {
        assert(padded@ =~= fmt_secs_spec(micros));
    }
    padded
}

/// The change of `v` against `first`, in hundredths of a percent
/// (`+0.5%` is 50); zero against a zero baseline.
pub open spec fn change_cp_spec(v: u64, first: u64) -> int {
    if first == 0 {
        0
    } else {
        v as int * 10000 / first as int - 10000
    }
}

pub fn change_cp(v: u64, first: u64) -> (r: i128)
    ensures
        r as int == change_cp_spec(v, first),
{
    if first == 0 {
        0
    } else {
        let scaled: u128 = (v as u128) * 10000 / (first as u128);
        proof {
            assert((v as int) * 10000 / (first as int) <= (v as int) * 10000) by (nonlinear_arith)
                requires
                    first >= 1,
                    v >= 0,
            ;
        }
        (scaled as i128) - 10000
    }
}

/// `{:+6.02}%`: the signed change with two decimals, right aligned to
/// six columns, then the percent sign.
pub open spec fn fmt_change_spec(cp: int) -> Seq<char> {
    let a = if cp < 0 {
        -cp
    } else {
        cp
    };
    let sign = if cp < 0 {
        "-"@
    } else {
        "+"@
    };
    pad_left_spec(sign + dec_digits((a / 100) as nat) + "."@ + zero_pad_spec((a % 100) as nat, 2), 6)
        + "%"@
}

pub fn fmt_change(cp: i128) -> (r: String)
    requires
        cp > i128::MIN,
    ensures
        r@ == fmt_change_spec(cp as int),
{
    let a: u128 = if cp < 0 {
        (-cp) as u128
    } else {
        cp as u128
    };
    let mut body = if cp < 0 {
        "-".to_owned()
    } else {
        "+".to_owned()
    };
    let whole = format_u128(a / 100);
    body.append(whole.as_str());
    body.append(".");
    let frac = format_u64_zero_pad((a % 100) as u64, 2);
    body.append(frac.as_str());
    let mut padded = pad_left(body, 6);
    padded.append("%");
    proof {
        assert(padded@ =~= fmt_change_spec(cp as int));
    }
    padded
}

/// One value cell: the colored duration, and for every build after the
/// baseline its change against the baseline — painted adverse above
/// +0.5% and favorable below -0.5%.
pub open spec fn cell_spec(v: u64, first: u64, is_first: bool) -> Seq<char> {
    let reset = "\u{1b}[0m"@;
    let base = color_code_spec(100, 162, 217) + fmt_secs_spec(v) + reset;
    if is_first {
        base
    } else {
        let cp = change_cp_spec(v, first);
        let col = if cp > 50 {
            color_code_spec(219, 126, 94)
        } else if cp < -50 {
            color_code_spec(143, 209, 98)
        } else {
            Seq::<char>::empty()
        };
        base + col + " "@ + fmt_change_spec(cp) + reset
    }
}

/// The cells from index `i` on, separated by single spaces.
pub open spec fn cells_spec(values: Seq<u64>, i: int) -> Seq<char>
    decreases values.len() - i,
{
    if i < 0 || i >= values.len() {
        Seq::empty()
    } else {
        cell_spec(values[i], values[0], i == 0) + (if i != values.len() - 1 {
            " "@
        } else {
            Seq::<char>::empty()
        }) + cells_spec(values, i + 1)
    }
}

/// Everything one value row appends: padding out to column 32, then the
/// cells.
pub open spec fn print_values_spec(values: Seq<u64>, col: int) -> Seq<char> {
    crate::term::repeat_spec(' ', if col < 32 {
        32 - col
    } else {
        0
    }) + cells_spec(values, 0)
}

/// Paints one row of per-build values (averages, totals or summary
/// scores, all in millionths) with their change against the first
/// build.
#[verifier::rlimit(100)]
pub fn print_values(values: &Vec<u64>, view: &mut View)
    requires
        values@.len() > 0,
    ensures
        final(view).buffer@ == old(view).buffer@ + print_values_spec(
            values@,
            old(view).line as int,
        ),
        final(view).width == old(view).width,
        final(view).lines@ == old(view).lines@,
{
    let ghost pre = *view;
    let pad: usize = if view.line < 32 {
        32 - view.line
    } else {
        0
    };
    let spaces = crate::term::repeat_char(' ', pad);
    view.print(spaces.as_str(), pad);
    let ghost base = view.buffer@;
    let first = values[0];
    let mut i: usize = 0;
    while i < values.len()
        invariant
            i <= values@.len(),
            values@.len() > 0,
            first == values@[0],
            base + cells_spec(values@, 0) == view.buffer@ + cells_spec(values@, i as int),
            view.width == pre.width,
            view.lines@ == pre.lines@,
        decreases values@.len() - i,
    {
        let ghost at_entry = view.buffer@;
        let c1 = color_code(100, 162, 217);
        view.print(c1.as_str(), 0);
        let secs = fmt_secs(values[i]);
        let n = secs.as_str().unicode_len();
        view.print(secs.as_str(), n);
        view.print("\u{1b}[0m", 0);
        if i > 0 {
            let cp = change_cp(values[i], first);
            if cp > 50 {
                let c2 = color_code(219, 126, 94);
                view.print(c2.as_str(), 0);
            } else if cp < -50 {
                let c3 = color_code(143, 209, 98);
                view.print(c3.as_str(), 0);
            }
            view.print(" ", 1);
            let ch = fmt_change(cp);
            let m = ch.as_str().unicode_len();
            view.print(ch.as_str(), m);
            view.print("\u{1b}[0m", 0);
        }
        if i != values.len() - 1 {
            view.print(" ", 1);
        }
        proof {
            let ghost sep = if i as int != values@.len() - 1 {
                " "@
            } else {
                Seq::<char>::empty()
            };
            let ghost piece = cell_spec(values@[i as int], values@[0], i == 0);
            assert(view.buffer@ =~= at_entry + (piece + sep));
            assert(cells_spec(values@, i as int) == piece + sep + cells_spec(
                values@,
                (i + 1) as int,
            ));
            assert(at_entry + (piece + sep) + cells_spec(values@, (i + 1) as int) =~= at_entry
                + cells_spec(values@, i as int));
        }
        i = i + 1;
    }
    proof {
        assert(cells_spec(values@, values@.len() as int) =~= Seq::<char>::empty());
        assert(view.buffer@ + cells_spec(values@, values@.len() as int) =~= view.buffer@);
        assert(view.buffer@ =~= pre.buffer@ + print_values_spec(values@, pre.line as int));
    }
}

/// The colored mode word of a config row.
pub open spec fn mode_part_spec(m: crate::modes::BenchMode) -> Seq<char> {
    let reset = "\u{1b}[0m"@;
    match m {
        crate::modes::BenchMode::Check => color_code_spec(137, 114, 186) + "check"@ + reset,
        crate::modes::BenchMode::Debug => color_code_spec(204, 174, 75) + "debug"@ + reset,
        crate::modes::BenchMode::Release => color_code_spec(102, 166, 209) + "release"@ + reset,
    }
}

/// The colored incremental-scenario word of a config row, when one is
/// set.
pub open spec fn incr_part_spec(m: crate::modes::IncrementalMode) -> Seq<char> {
    let reset = "\u{1b}[0m"@;
    match m {
        crate::modes::IncrementalMode::Off => Seq::<char>::empty(),
        crate::modes::IncrementalMode::Initial => ":"@ + color_code_spec(132, 143, 99) + "initial"@
            + reset,
        crate::modes::IncrementalMode::Unchanged => ":"@ + color_code_spec(132, 143, 99)
            + "unchanged"@ + reset,
    }
}

/// The permanent-row rendering of a config's identity: its name, its
/// mode in the mode's color, and the incremental scenario when one is
/// set.
pub open spec fn config_render_spec(c: Config) -> Seq<char> {
    let reset = "\u{1b}[0m"@;
    (reset + c.bench.name@ + reset + ":"@) + mode_part_spec(c.mode) + incr_part_spec(c.incremental)
}

/// The printed width of a config's identity row: the name, the `:`,
/// the mode word, and the `:scenario` part when one is set (the color
/// codes fill no columns).
pub open spec fn config_render_cols(c: Config) -> int {
    c.bench.name@.len() + 1 + (match c.mode {
        crate::modes::BenchMode::Check => 5int,
        crate::modes::BenchMode::Debug => 5int,
        crate::modes::BenchMode::Release => 7int,
    }) + (match c.incremental {
        crate::modes::IncrementalMode::Off => 0int,
        crate::modes::IncrementalMode::Initial => 8int,
        crate::modes::IncrementalMode::Unchanged => 10int,
    })
}

/// Paints a config's identity row.
#[verifier::rlimit(100)]
pub fn paint_config(c: &Config, view: &mut View)
    ensures
        final(view).buffer@ == old(view).buffer@ + config_render_spec(*c),
        final(view).width == old(view).width,
        final(view).lines@ == old(view).lines@,
        final(view).line == crate::term::sat_add(old(view).line as int, config_render_cols(*c)),
{
    let ghost pre = *view;
    view.print("\u{1b}[0m", 0);
    let n = c.bench.name.as_str().unicode_len();
    view.print(c.bench.name.as_str(), n);
    view.print("\u{1b}[0m", 0);
    view.print(":", 1);
    let ghost head = view.buffer@;
    proof {
        assert(head =~= pre.buffer@ + ("\u{1b}[0m"@ + c.bench.name@ + "\u{1b}[0m"@ + ":"@));
    }
    match c.mode {
        crate::modes::BenchMode::Check => {
            let cc = color_code(137, 114, 186);
            view.print(cc.as_str(), 0);
            view.print("check", 5);
            view.print("\u{1b}[0m", 0);
        },
        crate::modes::BenchMode::Debug => {
            let cc = color_code(204, 174, 75);
            view.print(cc.as_str(), 0);
            view.print("debug", 5);
            view.print("\u{1b}[0m", 0);
        },
        crate::modes::BenchMode::Release => {
            let cc = color_code(102, 166, 209);
            view.print(cc.as_str(), 0);
            view.print("release", 7);
            view.print("\u{1b}[0m", 0);
        },
    }
    let ghost mid = view.buffer@;
    proof {
        assert(mid =~= head + mode_part_spec(c.mode));
    }
    match c.incremental {
        crate::modes::IncrementalMode::Off => (),
        crate::modes::IncrementalMode::Initial => {
            view.print(":", 1);
            let cc = color_code(132, 143, 99);
            view.print(cc.as_str(), 0);
            view.print("initial", 7);
            view.print("\u{1b}[0m", 0);
        },
        crate::modes::IncrementalMode::Unchanged => {
            view.print(":", 1);
            let cc = color_code(132, 143, 99);
            view.print(cc.as_str(), 0);
            view.print("unchanged", 9);
            view.print("\u{1b}[0m", 0);
        },
    }
    proof {
        assert(view.buffer@ =~= mid + incr_part_spec(c.incremental));
        assert(view.buffer@ =~= pre.buffer@ + config_render_spec(*c));
        assert(view.line == crate::term::sat_add(pre.line as int, config_render_cols(*c)));
    }
}

/// Every instance has recorded at least once.
pub open spec fn all_counted_spec(s: Seq<InstanceStats>) -> bool {
    forall|j: int| 0 <= j < s.len() ==> (#[trigger] s[j]).count > 0
}

/// The live averages of a config's instances, each over its own count,
/// in microseconds.
pub open spec fn avgs_vals_spec(s: Seq<InstanceStats>) -> Seq<u64> {
    Seq::new(
        s.len(),
        |j: int| (s[j].time_total_clamp_spec(s[j].count as int) / (s[j].count as int)) as u64,
    )
}

/// The live averages of a config's instances, each over its own count:
/// a value for every build once each has recorded at least once.
pub fn avgs(builds: &Vec<InstanceStats>) -> (r: Option<Vec<u64>>)
    requires
        builds@.len() > 0,
        forall|j: int| 0 <= j < builds@.len() ==> (#[trigger] builds@[j]).wf(),
    ensures
        r is Some <==> all_counted_spec(builds@),
        r is Some ==> r->0@ == avgs_vals_spec(builds@),
{
    let mut out: Vec<u64> = Vec::new();
    let mut j: usize = 0;
    while j < builds.len()
        invariant
            j <= builds@.len(),
            forall|k: int| 0 <= k < builds@.len() ==> (#[trigger] builds@[k]).wf(),
            out@.len() == j,
            forall|k: int| 0 <= k < j ==> (#[trigger] builds@[k]).count > 0,
            forall|k: int|
                0 <= k < j ==> out@[k] == builds@[k].avg_spec(builds@[k].count as int)->0,
        decreases builds@.len() - j,
    {
        match builds[j].avg(builds[j].count) {
            Option::Some(a) => {
                out.push(a);
            },
            Option::None => {
                return Option::None;
            },
        }
        j = j + 1;
    }
    proof {
        assert(out@ =~= avgs_vals_spec(builds@));
    }
    Option::Some(out)
}

/// Fresh counters for one instance.
pub open spec fn zeroed_stats(iterations: usize, warmups: usize) -> InstanceStats {
    InstanceStats { iterations, warmups, time_total: 0, time_last: 0, warmup_count: 0, count: 0 }
}

/// The dashboard state of one config.
pub struct ConfigStats {
    pub config: Config,
    pub builds: Vec<InstanceStats>,
    pub completed: bool,
    pub started: bool,
}

impl ConfigStats {
    /// Counters agree with the session's shape: one entry per build,
    /// uniform iteration and warmup targets, no count beyond the
    /// target, and a completed config has every instance at the
    /// target.
    pub open spec fn wf(&self, n_builds: int, iterations: int, warmups: int) -> bool {
        &&& self.builds@.len() == n_builds
        &&& (forall|j: int| 0 <= j < n_builds ==> (#[trigger] self.builds@[j]).wf())
        &&& (forall|j: int|
            0 <= j < n_builds ==> (#[trigger] self.builds@[j]).iterations == iterations)
        &&& (forall|j: int| 0 <= j < n_builds ==> (#[trigger] self.builds@[j]).warmups == warmups)
        &&& (forall|j: int| 0 <= j < n_builds ==> (#[trigger] self.builds@[j]).count <= iterations)
        &&& (self.completed ==> (forall|j: int|
            0 <= j < n_builds ==> (#[trigger] self.builds@[j]).count == iterations))
    }
}


/// Saturating tally of one per-instance counter over a config's
/// instances.
pub open spec fn sat_sum(s: Seq<InstanceStats>, f: spec_fn(InstanceStats) -> int) -> int
    decreases s.len(),
{
    if s.len() == 0 {
        0
    } else {
        sat64_spec(sat_sum(s.drop_last(), f), f(s.last()))
    }
}

/// Whether any instance of the config still owes warmup runs.
pub open spec fn is_warming_spec(s: Seq<InstanceStats>) -> bool {
    exists|j: int| 0 <= j < s.len() && (#[trigger] s[j]).warmup_count < s[j].warmups
}

/// The finished count a live row shows: warmups while the config still
/// warms, recorded iterations after.
pub open spec fn row_done_spec(s: Seq<InstanceStats>, warming: bool) -> int {
    if warming {
        sat_sum(s, |i: InstanceStats| i.warmup_count as int)
    } else {
        sat_sum(s, |i: InstanceStats| i.count as int)
    }
}

/// The target count a live row shows.
pub open spec fn row_target_spec(s: Seq<InstanceStats>, warming: bool) -> int {
    if warming {
        sat_sum(s, |i: InstanceStats| i.warmups as int)
    } else {
        sat_sum(s, |i: InstanceStats| i.iterations as int)
    }
}

/// The progress label of one live row.
pub open spec fn row_label_spec(warming: bool, done: int, target: int) -> Seq<char> {
    (if warming {
        " (warming up "@
    } else {
        " ("@
    }) + dec_digits(done as nat) + "/"@ + dec_digits(target as nat) + ") "@
}

/// One live-region row: the marker, the config's identity, its
/// progress, and — once every instance has recorded — the live
/// averages.
pub open spec fn config_row_spec(cs: ConfigStats) -> Seq<char> {
    let warming = is_warming_spec(cs.builds@);
    let label = row_label_spec(
        warming,
        row_done_spec(cs.builds@, warming),
        row_target_spec(cs.builds@, warming),
    );
    let col = crate::term::sat_add(0, 3 + config_render_cols(cs.config) + label.len());
    " - "@ + config_render_spec(cs.config) + label + (if all_counted_spec(cs.builds@) {
        print_values_spec(avgs_vals_spec(cs.builds@), col)
    } else {
        Seq::<char>::empty()
    }) + "\n"@
}

/// The live region: one row per started-but-uncompleted config, in
/// table order.
pub open spec fn rows_spec(configs: Seq<ConfigStats>, i: int) -> Seq<char>
    decreases configs.len() - i,
{
    if i < 0 || i >= configs.len() {
        Seq::empty()
    } else {
        (if configs[i].started && !configs[i].completed {
            config_row_spec(configs[i])
        } else {
            Seq::<char>::empty()
        }) + rows_spec(configs, i + 1)
    }
}

/// The Current-total row: its caption and, once any config has begun
/// recording, the per-build running totals (the caption fills 17
/// columns, where the value row's padding starts).
pub open spec fn totals_row_spec(configs: Seq<ConfigStats>, n: int) -> Seq<char> {
    " - Current total "@ + (if any_counted_spec(configs) {
        print_values_spec(totals_vals_spec(configs, n), 17)
    } else {
        Seq::<char>::empty()
    }) + "\n"@
}

/// The Current-summary row, drawn only when several builds compare.
pub open spec fn summary_row_spec(configs: Seq<ConfigStats>, n: int) -> Seq<char> {
    if n > 1 {
        " - Current summary "@ + (if summary_defined_spec(configs, n) {
            print_values_spec(summary_vals_spec(configs, n), 19)
        } else {
            Seq::<char>::empty()
        }) + "\n"@
    } else {
        Seq::<char>::empty()
    }
}

/// Everything one redraw emits: the erasure of exactly the previous
/// draw's lines, the header, the live rows, a blank line, the running
/// total row, and the running summary row.
pub open spec fn refresh_delta_spec(prev_lines: int, configs: Seq<ConfigStats>, n: int) -> Seq<
    char,
> {
    crate::term::rewind_spec(crate::term::sat_add(prev_lines, 1) as nat) + "\n"@
        + "Running benchmarks:"@ + "\n"@ + rows_spec(configs, 0) + "\n"@ + totals_row_spec(
        configs,
        n,
    ) + summary_row_spec(configs, n)
}

/// The permanent row of a config that just completed: its identity,
/// one space, and its final averages.
pub open spec fn completed_row_spec(cs: ConfigStats) -> Seq<char> {
    config_render_spec(cs.config) + " "@ + (if all_counted_spec(cs.builds@) {
        print_values_spec(
            avgs_vals_spec(cs.builds@),
            crate::term::sat_add(0, config_render_cols(cs.config) + 1),
        )
    } else {
        Seq::<char>::empty()
    }) + "\n"@
}

/// Everything the terminal call emits: the erasure of the previous
/// draw, the Total row of final averages, the Summary row of mean
/// total-time ratios when several builds compare and any baseline
/// recorded time, and a closing blank line.
pub open spec fn complete_delta_spec(
    prev_lines: int,
    configs: Seq<ConfigStats>,
    n: int,
    iterations: int,
) -> Seq<char> {
    crate::term::rewind_spec(crate::term::sat_add(prev_lines, 1) as nat) + ("\n"@ + "Total "@
        + print_values_spec(final_totals_vals_spec(configs, n, iterations), 6) + "\n"@) + (if n > 1
        && final_included_count_spec(configs) > 0 {
        "Summary "@ + print_values_spec(final_summary_vals_spec(configs, n), 8) + "\n"@
    } else {
        Seq::<char>::empty()
    }) + "\n"@
}

/// One config's contribution to the running grand total of one build:
/// its live average at the config's common count, or zero before the
/// config has recorded once everywhere.
pub open spec fn live_avg_or_zero_spec(cs: ConfigStats, b: int) -> int {
    let mc = min_count_spec(cs.builds@);
    if mc > 0 {
        cs.builds@[b].time_total_clamp_spec(mc) / mc
    } else {
        0
    }
}

/// The running grand total of one build, clamped at the machine bound.
pub open spec fn totals_entry_spec(configs: Seq<ConfigStats>, b: int) -> int
    decreases configs.len(),
{
    if configs.len() == 0 {
        0
    } else {
        sat64_spec(totals_entry_spec(configs.drop_last(), b), live_avg_or_zero_spec(
            configs.last(),
            b,
        ))
    }
}

/// Whether any config has begun recording.
pub open spec fn any_counted_spec(configs: Seq<ConfigStats>) -> bool {
    exists|c: int| 0 <= c < configs.len() && min_count_spec((#[trigger] configs[c]).builds@) > 0
}

/// The Current-total row's values, one per build.
pub open spec fn totals_vals_spec(configs: Seq<ConfigStats>, n: int) -> Seq<u64> {
    Seq::new(n as nat, |b: int| totals_entry_spec(configs, b) as u64)
}

/// Values above the machine bound stop there.
pub open spec fn cap_u64(x: int) -> int {
    if x > u64::MAX {
        u64::MAX as int
    } else {
        x
    }
}

/// Whether a config contributes to the running summary: the build and
/// the baseline are both live and the baseline average is positive.
pub open spec fn live_included_spec(cs: ConfigStats, b: int) -> bool {
    &&& cs.builds@[b].count > 0
    &&& cs.builds@[0].count > 0
    &&& cs.builds@[0].time_total_clamp_spec(cs.builds@[0].count as int) / (
    cs.builds@[0].count as int) > 0
}

/// The build's live average against the baseline's, in millionths.
pub open spec fn live_rel_spec(cs: ConfigStats, b: int) -> int {
    let a = cs.builds@[b].time_total_clamp_spec(cs.builds@[b].count as int) / (
    cs.builds@[b].count as int);
    let f = cs.builds@[0].time_total_clamp_spec(cs.builds@[0].count as int) / (
    cs.builds@[0].count as int);
    cap_u64(a * 1000000 / f)
}

pub open spec fn live_rel_sum_spec(configs: Seq<ConfigStats>, b: int) -> int
    decreases configs.len(),
{
    if configs.len() == 0 {
        0
    } else {
        live_rel_sum_spec(configs.drop_last(), b) + if live_included_spec(configs.last(), b) {
            live_rel_spec(configs.last(), b)
        } else {
            0
        }
    }
}

pub open spec fn live_included_count_spec(configs: Seq<ConfigStats>, b: int) -> int
    decreases configs.len(),
{
    if configs.len() == 0 {
        0
    } else {
        live_included_count_spec(configs.drop_last(), b) + if live_included_spec(
            configs.last(),
            b,
        ) {
            1int
        } else {
            0int
        }
    }
}

/// Whether the running summary has data for every build.
pub open spec fn summary_defined_spec(configs: Seq<ConfigStats>, n: int) -> bool {
    forall|b: int| 0 <= b < n ==> #[trigger] live_included_count_spec(configs, b) > 0
}

/// The Current-summary row's values: per build the mean, over the
/// contributing configs, of its live average against the baseline's,
/// in millionths.
pub open spec fn summary_vals_spec(configs: Seq<ConfigStats>, n: int) -> Seq<u64> {
    Seq::new(
        n as nat,
        |b: int| (live_rel_sum_spec(configs, b) / live_included_count_spec(configs, b)) as u64,
    )
}

/// Whether a config contributes to the final summary: its baseline
/// recorded any time at all.
pub open spec fn final_included_spec(cs: ConfigStats) -> bool {
    cs.builds@[0].time_total > 0
}

/// The build's total recorded time against the baseline's, in
/// millionths.
pub open spec fn final_rel_spec(cs: ConfigStats, b: int) -> int {
    cap_u64(cs.builds@[b].time_total as int * 1000000 / cs.builds@[0].time_total as int)
}

pub open spec fn final_rel_sum_spec(configs: Seq<ConfigStats>, b: int) -> int
    decreases configs.len(),
{
    if configs.len() == 0 {
        0
    } else {
        final_rel_sum_spec(configs.drop_last(), b) + if final_included_spec(configs.last()) {
            final_rel_spec(configs.last(), b)
        } else {
            0
        }
    }
}

pub open spec fn final_included_count_spec(configs: Seq<ConfigStats>) -> int
    decreases configs.len(),
{
    if configs.len() == 0 {
        0
    } else {
        final_included_count_spec(configs.drop_last()) + if final_included_spec(configs.last()) {
            1int
        } else {
            0int
        }
    }
}

/// The final Summary row's values: per build the mean, over the configs
/// whose baseline recorded time, of the total-time ratio in millionths.
pub open spec fn final_summary_vals_spec(configs: Seq<ConfigStats>, n: int) -> Seq<u64> {
    Seq::new(
        n as nat,
        |b: int| (final_rel_sum_spec(configs, b) / final_included_count_spec(configs)) as u64,
    )
}

/// One config's contribution to the final Total row of one build: its
/// average over the full iteration target.
pub open spec fn final_avg_spec(cs: ConfigStats, b: int, iterations: int) -> int {
    cs.builds@[b].time_total_clamp_spec(iterations) / iterations
}

pub open spec fn final_totals_entry_spec(configs: Seq<ConfigStats>, b: int, iterations: int) -> int
    decreases configs.len(),
{
    if configs.len() == 0 {
        0
    } else {
        sat64_spec(final_totals_entry_spec(configs.drop_last(), b, iterations), final_avg_spec(
            configs.last(),
            b,
            iterations,
        ))
    }
}

/// The final Total row's values, one per build.
pub open spec fn final_totals_vals_spec(
    configs: Seq<ConfigStats>,
    n: int,
    iterations: int,
) -> Seq<u64> {
    Seq::new(n as nat, |b: int| final_totals_entry_spec(configs, b, iterations) as u64)
}

/// The dashboard: the mirrored configs and the surface they draw on.
pub struct Display {
    pub view: View,
    pub configs: Vec<ConfigStats>,
    pub new_line_first: bool,
}

impl Display {
    /// The per-instance iteration target (uniform across the session).
    pub open spec fn iterations(&self) -> int {
        self.configs@[0].builds@[0].iterations as int
    }

    /// The per-instance warmup target.
    pub open spec fn warmups(&self) -> int {
        self.configs@[0].builds@[0].warmups as int
    }

    /// How many builds under test each config compares.
    pub open spec fn n_builds(&self) -> int {
        self.configs@[0].builds@.len() as int
    }

    pub open spec fn wf(&self) -> bool {
        &&& self.configs@.len() > 0
        &&& self.n_builds() > 0
        &&& (forall|c: int|
            0 <= c < self.configs@.len() ==> (#[trigger] self.configs@[c]).wf(
                self.n_builds(),
                self.iterations(),
                self.warmups(),
            ))
    }

    /// Mirrors the session's configs, all counters at zero.
    pub fn new(
        configs: &Vec<ConfigInstances>,
        iterations: usize,
        warmups: usize,
        width: usize,
    ) -> (r: Display)
        requires
            configs@.len() > 0,
            forall|c: int|
                0 <= c < configs@.len() ==> (#[trigger] configs@[c].builds@).len()
                    == configs@[0].builds@.len(),
            configs@[0].builds@.len() > 0,
        ensures
            r.wf(),
            r.configs@.len() == configs@.len(),
            r.iterations() == iterations,
            r.warmups() == warmups,
            r.n_builds() == configs@[0].builds@.len(),
            r.new_line_first,
            forall|c: int|
                0 <= c < configs@.len() ==> {
                    &&& (#[trigger] r.configs@[c]).config == configs@[c].config
                    &&& !r.configs@[c].started
                    &&& !r.configs@[c].completed
                    &&& forall|j: int|
                        0 <= j < r.n_builds() ==> {
                            &&& (#[trigger] r.configs@[c].builds@[j]).count == 0
                            &&& r.configs@[c].builds@[j].warmup_count == 0
                            &&& r.configs@[c].builds@[j].time_total == 0
                        }
                },
    {
        let mut mirrored: Vec<ConfigStats> = Vec::new();
        let mut c: usize = 0;
        while c < configs.len()
            invariant
                c <= configs@.len(),
                configs@.len() > 0,
                forall|k: int|
                    0 <= k < configs@.len() ==> (#[trigger] configs@[k].builds@).len()
                        == configs@[0].builds@.len(),
                mirrored@.len() == c,
                forall|k: int|
                    0 <= k < c ==> {
                        &&& (#[trigger] mirrored@[k]).config == configs@[k].config
                        &&& !mirrored@[k].started
                        &&& !mirrored@[k].completed
                        &&& mirrored@[k].builds@.len() == configs@[0].builds@.len()
                        &&& forall|j: int|
                            0 <= j < mirrored@[k].builds@.len() ==> (#[trigger] mirrored@[k].builds@[j])
                                == zeroed_stats(iterations, warmups)
                    },
            decreases configs@.len() - c,
        {
            let n = configs[c].builds.len();
            let mut builds: Vec<InstanceStats> = Vec::new();
            let mut j: usize = 0;
            while j < n
                invariant
                    j <= n,
                    builds@.len() == j,
                    forall|k: int| 0 <= k < j ==> (#[trigger] builds@[k]) == zeroed_stats(iterations, warmups),
                decreases n - j,
            {
                builds.push(
                    InstanceStats {
                        iterations,
                        warmups,
                        time_total: 0,
                        time_last: 0,
                        warmup_count: 0,
                        count: 0,
                    },
                );
                j = j + 1;
            }
            mirrored.push(
                ConfigStats {
                    config: configs[c].config.duplicate(),
                    builds,
                    completed: false,
                    started: false,
                },
            );
            c = c + 1;
        }
        let d = Display { view: View::new(width), configs: mirrored, new_line_first: true };
        d
    }

    /// Marks a config visible in the active region.
    pub fn start_config(&mut self, config_index: usize)
        requires
            old(self).wf(),
            config_index < old(self).configs@.len(),
        ensures
            final(self).wf(),
            final(self).configs@.len() == old(self).configs@.len(),
            final(self).configs@[config_index as int].started,
            final(self).configs@[config_index as int].completed == old(self).configs@[
                config_index as int].completed,
            final(self).configs@[config_index as int].builds@ == old(self).configs@[
                config_index as int].builds@,
            final(self).configs@[config_index as int].config == old(self).configs@[
                config_index as int].config,
            forall|c: int|
                0 <= c < old(self).configs@.len() && c != config_index ==> final(self).configs@[c]
                    == old(self).configs@[c],
            final(self).view.width == old(self).view.width,
            final(self).view.buffer@ == old(self).view.buffer@ + refresh_delta_spec(
                old(self).view.lines@.len() as int,
                final(self).configs@,
                old(self).n_builds(),
            ),
    {
        let mut entry = self.configs.remove(config_index);
        entry.started = true;
        let ghost ev = entry;
        self.configs.insert(config_index, entry);
        proof {
            crate::seqx::lemma_remove_insert_update(old(self).configs@, config_index as int, ev);
            assert(self.configs@ == old(self).configs@.update(config_index as int, ev));
        }
        self.refresh();
    }

    /// Counts one finished warmup run.
    pub fn report_warmup(&mut self, config_index: usize, build_index: usize)
        requires
            old(self).wf(),
            config_index < old(self).configs@.len(),
            build_index < old(self).n_builds(),
            old(self).configs@[config_index as int].builds@[build_index as int].warmup_count
                < usize::MAX,
        ensures
            final(self).wf(),
            final(self).configs@.len() == old(self).configs@.len(),
            final(self).configs@[config_index as int].builds@[build_index as int].warmup_count
                == old(self).configs@[config_index as int].builds@[build_index as int].warmup_count
                + 1,
            final(self).configs@[config_index as int].builds@[build_index as int].count == old(
                self,
            ).configs@[config_index as int].builds@[build_index as int].count,
            forall|c: int|
                0 <= c < old(self).configs@.len() && c != config_index ==> final(self).configs@[c]
                    == old(self).configs@[c],
            final(self).view.width == old(self).view.width,
            final(self).view.buffer@ == old(self).view.buffer@ + refresh_delta_spec(
                old(self).view.lines@.len() as int,
                final(self).configs@,
                old(self).n_builds(),
            ),
    {
        let mut entry = self.configs.remove(config_index);
        let ghost builds0 = entry.builds@;
        let mut inst = entry.builds.remove(build_index);
        inst.warmup_count = inst.warmup_count + 1;
        let ghost iv = inst;
        entry.builds.insert(build_index, inst);
        proof {
            crate::seqx::lemma_remove_insert_update(builds0, build_index as int, iv);
            assert(entry.builds@ == builds0.update(build_index as int, iv));
        }
        let ghost ev = entry;
        self.configs.insert(config_index, entry);
        proof {
            crate::seqx::lemma_remove_insert_update(old(self).configs@, config_index as int, ev);
            assert(self.configs@ == old(self).configs@.update(config_index as int, ev));
        }
        self.refresh();
    }

    /// Accumulates one accepted duration.  When every instance of the
    /// config reaches the iteration target, the config completes: its
    /// final row is painted into the permanent region before the live
    /// region is redrawn.
    pub fn report(&mut self, config_index: usize, build_index: usize, result: u64)
        requires
            old(self).wf(),
            config_index < old(self).configs@.len(),
            build_index < old(self).n_builds(),
            old(self).configs@[config_index as int].builds@[build_index as int].count < old(
                self,
            ).iterations(),
            old(self).configs@[config_index as int].builds@[build_index as int].time_total + result
                <= u64::MAX,
        ensures
            final(self).wf(),
            final(self).configs@.len() == old(self).configs@.len(),
            ({
                let pre = old(self).configs@[config_index as int].builds@[build_index as int];
                let post = final(self).configs@[config_index as int].builds@[build_index as int];
                &&& post.count == pre.count + 1
                &&& post.time_total == pre.time_total + result
                &&& post.time_last == result
                &&& post.warmup_count == pre.warmup_count
            }),
            final(self).configs@[config_index as int].completed <==> (forall|j: int|
                0 <= j < old(self).n_builds() ==> (#[trigger] final(self).configs@[
                    config_index as int].builds@[j]).count == old(self).iterations()),
            forall|c: int|
                0 <= c < old(self).configs@.len() && c != config_index ==> final(self).configs@[c]
                    == old(self).configs@[c],
            final(self).view.width == old(self).view.width,
            final(self).new_line_first == (old(self).new_line_first && !final(self).configs@[
                config_index as int].completed),
            !final(self).configs@[config_index as int].completed ==> final(self).view.buffer@
                == old(self).view.buffer@ + refresh_delta_spec(
                old(self).view.lines@.len() as int,
                final(self).configs@,
                old(self).n_builds(),
            ),
            final(self).configs@[config_index as int].completed ==> final(self).view.buffer@ == old(
                self,
            ).view.buffer@ + crate::term::rewind_spec(
                crate::term::sat_add(old(self).view.lines@.len() as int, 1) as nat,
            ) + (if old(self).new_line_first {
                "\n"@
            } else {
                Seq::<char>::empty()
            }) + completed_row_spec(final(self).configs@[config_index as int])
                + refresh_delta_spec(0, final(self).configs@, old(self).n_builds()),
    {
        let mut entry = self.configs.remove(config_index);
        let ghost builds0 = entry.builds@;
        let mut inst = entry.builds.remove(build_index);
        inst.count = inst.count + 1;
        inst.time_total = inst.time_total + result;
        inst.time_last = result;
        let iterations = inst.iterations;
        let ghost iv = inst;
        entry.builds.insert(build_index, inst);
        proof {
            crate::seqx::lemma_remove_insert_update(builds0, build_index as int, iv);
            assert(entry.builds@ == builds0.update(build_index as int, iv));
        }
        let mut complete = true;
        let mut j: usize = 0;
        while j < entry.builds.len()
            invariant
                j <= entry.builds@.len(),
                complete <==> (forall|k: int|
                    0 <= k < j ==> (#[trigger] entry.builds@[k]).count
                        == entry.builds@[k].iterations),
            decreases entry.builds@.len() - j,
        {
            if entry.builds[j].count != entry.builds[j].iterations {
                complete = false;
            }
            j = j + 1;
        }
        if complete {
            entry.completed = true;
            self.view.rewind();
            let ghost after_erase = self.view.buffer@;
            if self.new_line_first {
                self.view.newline();
                self.new_line_first = false;
            }
            let ghost after_break = self.view.buffer@;
            proof {
                assert(after_break =~= after_erase + (if old(self).new_line_first {
                    "\n"@
                } else {
                    Seq::<char>::empty()
                }));
                assert(self.view.line == 0);
            }
            paint_config(&entry.config, &mut self.view);
            self.view.print(" ", 1);
            proof {
                crate::term::lemma_sat_add_chain(0, config_render_cols(entry.config), 1);
                assert(self.view.line as int == crate::term::sat_add(
                    0,
                    config_render_cols(entry.config) + 1,
                ));
            }
            let ghost before_vals = self.view.buffer@;
            match avgs(&entry.builds) {
                Option::Some(values) => {
                    print_values(&values, &mut self.view);
                    proof {
                        assert(self.view.buffer@ =~= before_vals + print_values_spec(
                            avgs_vals_spec(entry.builds@),
                            crate::term::sat_add(0, config_render_cols(entry.config) + 1),
                        ));
                    }
                },
                Option::None => (),
            }
            self.view.newline();
            self.view.reset();
            proof {
                assert(self.view.buffer@ =~= after_break + completed_row_spec(entry));
                assert(self.view.lines@.len() == 0);
            }
        }
        let ghost ev = entry;
        self.configs.insert(config_index, entry);
        proof {
            crate::seqx::lemma_remove_insert_update(old(self).configs@, config_index as int, ev);
            assert(self.configs@ == old(self).configs@.update(config_index as int, ev));
        }
        self.refresh();
    }

    /// Redraws the live region: erase the previous draw, then the
    /// header, one row per started-but-uncompleted config with its
    /// progress and live averages, a running grand total, and — when
    /// several builds compare — a running summary score.  The whole
    /// emission is `refresh_delta_spec` of the model.
    #[verifier::rlimit(100)]
    pub fn refresh(&mut self)
        requires
            old(self).wf(),
        ensures
            final(self).wf(),
            final(self).configs == old(self).configs,
            final(self).new_line_first == old(self).new_line_first,
            final(self).view.width == old(self).view.width,
            final(self).view.buffer@ == old(self).view.buffer@ + refresh_delta_spec(
                old(self).view.lines@.len() as int,
                old(self).configs@,
                old(self).n_builds(),
            ),
    {
        proof {
            reveal_strlit("Running benchmarks:");
            reveal_strlit(" - ");
            reveal_strlit(" (warming up ");
            reveal_strlit(" (");
            reveal_strlit("/");
            reveal_strlit(") ");
            reveal_strlit(" - Current total ");
            reveal_strlit(" - Current summary ");
        }
        self.view.rewind();
        self.view.newline();
        self.view.print("Running benchmarks:", 19);
        self.view.newline();
        let ghost base = self.view.buffer@;
        proof {
            assert(base =~= old(self).view.buffer@ + (crate::term::rewind_spec(
                crate::term::sat_add(old(self).view.lines@.len() as int, 1) as nat,
            ) + "\n"@ + "Running benchmarks:"@ + "\n"@));
            assert(base + rows_spec(self.configs@, 0) =~= self.view.buffer@ + rows_spec(
                self.configs@,
                0,
            ));
        }
        let mut c: usize = 0;
        while c < self.configs.len()
            invariant
                self.wf(),
                c <= self.configs@.len(),
                self.configs == old(self).configs,
                self.new_line_first == old(self).new_line_first,
                self.view.width == old(self).view.width,
                self.view.line == 0,
                base + rows_spec(self.configs@, 0) == self.view.buffer@ + rows_spec(
                    self.configs@,
                    c as int,
                ),
            decreases self.configs@.len() - c,
        {
            proof {
                reveal_strlit(" - ");
                reveal_strlit(" (warming up ");
                reveal_strlit(" (");
                reveal_strlit("/");
                reveal_strlit(") ");
            }
            let ghost at_entry = self.view.buffer@;
            let ghost cs = self.configs@[c as int];
            if self.configs[c].started && !self.configs[c].completed {
                let n = self.configs[c].builds.len();
                let mut warming = false;
                let mut j: usize = 0;
                while j < n
                    invariant
                        self.wf(),
                        c < self.configs@.len(),
                        cs == self.configs@[c as int],
                        n == cs.builds@.len(),
                        j <= n,
                        warming <==> (exists|k: int|
                            0 <= k < j && (#[trigger] cs.builds@[k]).warmup_count
                                < cs.builds@[k].warmups),
                    decreases n - j,
                {
                    if self.configs[c].builds[j].warmup_count < self.configs[c].builds[j].warmups {
                        warming = true;
                    }
                    j = j + 1;
                }
                proof {
                    assert(warming == is_warming_spec(cs.builds@));
                }
                let mut done_sum: u64 = 0;
                let mut target_sum: u64 = 0;
                let mut j: usize = 0;
                while j < n
                    invariant
                        self.wf(),
                        c < self.configs@.len(),
                        cs == self.configs@[c as int],
                        n == cs.builds@.len(),
                        j <= n,
                        done_sum as int == row_done_spec(cs.builds@.take(j as int), warming),
                        target_sum as int == row_target_spec(cs.builds@.take(j as int), warming),
                    decreases n - j,
                {
                    proof {
                        assert(cs.builds@.take((j + 1) as int).drop_last() =~= cs.builds@.take(
                            j as int,
                        ));
                        assert(cs.builds@.take((j + 1) as int).last() == cs.builds@[j as int]);
                    }
                    if warming {
                        done_sum = sat_add_u64(
                            done_sum,
                            self.configs[c].builds[j].warmup_count as u64,
                        );
                        target_sum = sat_add_u64(
                            target_sum,
                            self.configs[c].builds[j].warmups as u64,
                        );
                    } else {
                        done_sum = sat_add_u64(done_sum, self.configs[c].builds[j].count as u64);
                        target_sum = sat_add_u64(
                            target_sum,
                            self.configs[c].builds[j].iterations as u64,
                        );
                    }
                    j = j + 1;
                }
                proof {
                    assert(cs.builds@.take(cs.builds@.len() as int) =~= cs.builds@);
                }
                let ghost label = row_label_spec(
                    warming,
                    row_done_spec(cs.builds@, warming),
                    row_target_spec(cs.builds@, warming),
                );
                self.view.print(" - ", 3);
                let cfg = self.configs[c].config.duplicate();
                paint_config(&cfg, &mut self.view);
                if warming {
                    self.view.print(" (warming up ", 13);
                } else {
                    self.view.print(" (", 2);
                }
                let d = format_u64(done_sum);
                let dn = d.as_str().unicode_len();
                self.view.print(d.as_str(), dn);
                self.view.print("/", 1);
                let t = format_u64(target_sum);
                let tn = t.as_str().unicode_len();
                self.view.print(t.as_str(), tn);
                self.view.print(") ", 2);
                proof {
                    assert(self.view.buffer@ =~= at_entry + (" - "@ + config_render_spec(cs.config)
                        + label));
                    assert(label.len() == (if warming {
                        13int
                    } else {
                        2int
                    }) + dn + 1 + tn + 2);
                    crate::term::lemma_sat_add_chain(0, 3, config_render_cols(cs.config));
                    assert(self.view.line as int == crate::term::sat_add(
                        0,
                        3 + config_render_cols(cs.config) + label.len(),
                    ));
                }
                let ghost before_vals = self.view.buffer@;
                match avgs(&self.configs[c].builds) {
                    Option::Some(values) => {
                        print_values(&values, &mut self.view);
                        proof {
                            assert(self.view.buffer@ =~= before_vals + print_values_spec(
                                avgs_vals_spec(cs.builds@),
                                crate::term::sat_add(
                                    0,
                                    3 + config_render_cols(cs.config) + label.len(),
                                ),
                            ));
                        }
                    },
                    Option::None => (),
                }
                self.view.newline();
                proof {
                    assert(self.view.buffer@ =~= at_entry + config_row_spec(cs));
                    assert(rows_spec(self.configs@, c as int) == config_row_spec(cs) + rows_spec(
                        self.configs@,
                        (c + 1) as int,
                    ));
                    assert(at_entry + (config_row_spec(cs) + rows_spec(
                        self.configs@,
                        (c + 1) as int,
                    )) =~= self.view.buffer@ + rows_spec(self.configs@, (c + 1) as int));
                }
            } else {
                proof {
                    assert(rows_spec(self.configs@, c as int) == Seq::<char>::empty() + rows_spec(
                        self.configs@,
                        (c + 1) as int,
                    ));
                    assert(Seq::<char>::empty() + rows_spec(self.configs@, (c + 1) as int)
                        =~= rows_spec(self.configs@, (c + 1) as int));
                }
            }
            c = c + 1;
        }
        proof {
            assert(rows_spec(self.configs@, self.configs@.len() as int) =~= Seq::<char>::empty());
            assert(self.view.buffer@ + Seq::<char>::empty() =~= self.view.buffer@);
            assert(self.view.buffer@ == base + rows_spec(self.configs@, 0));
        }
        let ghost after_rows = self.view.buffer@;
        self.view.newline();
        let totals = self.live_totals();
        self.view.print(" - Current total ", 17);
        let ghost before_tvals = self.view.buffer@;
        proof {
            assert(self.view.line == 17);
        }
        match totals {
            Option::Some(values) => {
                print_values(&values, &mut self.view);
                proof {
                    assert(self.view.buffer@ =~= before_tvals + print_values_spec(
                        totals_vals_spec(self.configs@, self.n_builds()),
                        17,
                    ));
                }
            },
            Option::None => (),
        }
        self.view.newline();
        let ghost after_totals = self.view.buffer@;
        proof {
            assert(after_totals =~= after_rows + "\n"@ + totals_row_spec(
                self.configs@,
                self.n_builds(),
            ));
        }
        if self.configs[0].builds.len() > 1 {
            let summary = self.live_summary();
            self.view.print(" - Current summary ", 19);
            let ghost before_svals = self.view.buffer@;
            proof {
                assert(self.view.line == 19);
            }
            match summary {
                Option::Some(values) => {
                    print_values(&values, &mut self.view);
                    proof {
                        assert(self.view.buffer@ =~= before_svals + print_values_spec(
                            summary_vals_spec(self.configs@, self.n_builds()),
                            19,
                        ));
                    }
                },
                Option::None => (),
            }
            self.view.newline();
            proof {
                assert(self.view.buffer@ =~= after_totals + summary_row_spec(
                    self.configs@,
                    self.n_builds(),
                ));
            }
        } else {
            proof {
                assert(summary_row_spec(self.configs@, self.n_builds()) =~= Seq::<char>::empty());
                assert(self.view.buffer@ =~= after_totals + summary_row_spec(
                    self.configs@,
                    self.n_builds(),
                ));
            }
        }
        proof {
            assert(self.view.buffer@ =~= old(self).view.buffer@ + refresh_delta_spec(
                old(self).view.lines@.len() as int,
                old(self).configs@,
                old(self).n_builds(),
            ));
        }
    }

    /// The running grand total per build: the sum over all configs of
    /// the live average at that config's common count (zero before a
    /// config has one), shown once any config has begun recording.
    fn live_totals(&self) -> (r: Option<Vec<u64>>)
        requires
            self.wf(),
        ensures
            r is Some <==> any_counted_spec(self.configs@),
            r is Some ==> r->0@ == totals_vals_spec(self.configs@, self.n_builds()),
    {
        let n = self.configs[0].builds.len();
        let mut any: bool = false;
        let mut c: usize = 0;
        while c < self.configs.len()
            invariant
                self.wf(),
                c <= self.configs@.len(),
                any <==> (exists|k: int|
                    0 <= k < c && min_count_spec((#[trigger] self.configs@[k]).builds@) > 0),
            decreases self.configs@.len() - c,
        {
            if crate::stats::min_count(&self.configs[c].builds) > 0 {
                any = true;
            }
            c = c + 1;
        }
        if !any {
            proof {
                if any_counted_spec(self.configs@) {
                    let w = choose|w: int|
                        0 <= w < self.configs@.len() && min_count_spec(
                            (#[trigger] self.configs@[w]).builds@,
                        ) > 0;
                    assert(min_count_spec(self.configs@[w].builds@) > 0);
                }
            }
            return Option::None;
        }
        let mut out: Vec<u64> = Vec::new();
        let mut b: usize = 0;
        while b < n
            invariant
                self.wf(),
                n == self.n_builds(),
                b <= n,
                out@.len() == b,
                forall|k: int|
                    0 <= k < b ==> out@[k] == totals_entry_spec(self.configs@, k) as u64,
            decreases n - b,
        {
            let mut total: u64 = 0;
            let mut c: usize = 0;
            while c < self.configs.len()
                invariant
                    self.wf(),
                    n == self.n_builds(),
                    b < n,
                    c <= self.configs@.len(),
                    total == totals_entry_spec(self.configs@.take(c as int), b as int),
                decreases self.configs@.len() - c,
            {
                proof {
                    assert(self.configs@.take((c + 1) as int).drop_last() =~= self.configs@.take(
                        c as int,
                    ));
                    assert(self.configs@.take((c + 1) as int).last() == self.configs@[c as int]);
                }
                let mc = crate::stats::min_count(&self.configs[c].builds);
                match self.configs[c].builds[b].avg(mc) {
                    Option::Some(a) => {
                        total = sat_add_u64(total, a);
                    },
                    Option::None => {
                        proof {
                            assert(live_avg_or_zero_spec(self.configs@[c as int], b as int) == 0);
                            assert(sat64_spec(total as int, 0) == total as int);
                        }
                    },
                }
                c = c + 1;
            }
            proof {
                assert(self.configs@.take(self.configs@.len() as int) =~= self.configs@);
            }
            out.push(total);
            b = b + 1;
        }
        proof {
            assert(out@ =~= totals_vals_spec(self.configs@, self.n_builds()));
        }
        Option::Some(out)
    }

    /// The running summary score per build: the mean, over the configs
    /// where both are live, of the build's average against the
    /// baseline's, in millionths.
    fn live_summary(&self) -> (r: Option<Vec<u64>>)
        requires
            self.wf(),
        ensures
            r is Some <==> summary_defined_spec(self.configs@, self.n_builds()),
            r is Some ==> r->0@ == summary_vals_spec(self.configs@, self.n_builds()),
    {
        let n = self.configs[0].builds.len();
        let mut out: Vec<u64> = Vec::new();
        let mut b: usize = 0;
        while b < n
            invariant
                self.wf(),
                n == self.n_builds(),
                b <= n,
                out@.len() == b,
                forall|k: int|
                    0 <= k < b ==> #[trigger] live_included_count_spec(self.configs@, k) > 0,
                forall|k: int|
                    0 <= k < b ==> out@[k] == (live_rel_sum_spec(self.configs@, k)
                        / live_included_count_spec(self.configs@, k)) as u64,
            decreases n - b,
        {
            let mut rel_sum: u128 = 0;
            let mut included: u64 = 0;
            let mut c: usize = 0;
            while c < self.configs.len()
                invariant
                    self.wf(),
                    n == self.n_builds(),
                    b < n,
                    c <= self.configs@.len(),
                    included as int == live_included_count_spec(
                        self.configs@.take(c as int),
                        b as int,
                    ),
                    rel_sum as int == live_rel_sum_spec(self.configs@.take(c as int), b as int),
                    rel_sum <= (included as u128) * 0xffff_ffff_ffff_ffffu128,
                    included <= c,
                decreases self.configs@.len() - c,
            {
                proof {
                    assert(self.configs@.take((c + 1) as int).drop_last() =~= self.configs@.take(
                        c as int,
                    ));
                    assert(self.configs@.take((c + 1) as int).last() == self.configs@[c as int]);
                }
                let own = self.configs[c].builds[b].avg(self.configs[c].builds[b].count);
                let base = self.configs[c].builds[0].avg(self.configs[c].builds[0].count);
                match (own, base) {
                    (Option::Some(a), Option::Some(f)) => {
                        if f > 0 {
                            let rel: u128 = (a as u128) * 1000000 / (f as u128);
                            let capped: u64 = if rel > 0xffff_ffff_ffff_ffffu128 {
                                u64::MAX
                            } else {
                                rel as u64
                            };
                            proof {
                                assert(live_included_spec(self.configs@[c as int], b as int));
                                assert(capped as int == live_rel_spec(
                                    self.configs@[c as int],
                                    b as int,
                                ));
                                assert(rel_sum + capped <= ((included + 1) as u128)
                                    * 0xffff_ffff_ffff_ffffu128) by (nonlinear_arith)
                                    requires
                                        rel_sum <= (included as u128) * 0xffff_ffff_ffff_ffffu128,
                                        capped <= 0xffff_ffff_ffff_ffffu64,
                                        included < u64::MAX,
                                ;
                            }
                            rel_sum = rel_sum + (capped as u128);
                            included = included + 1;
                        } else {
                            proof {
                                assert(!live_included_spec(self.configs@[c as int], b as int));
                            }
                        }
                    },
                    _ => {
                        proof {
                            assert(!live_included_spec(self.configs@[c as int], b as int));
                        }
                    },
                }
                c = c + 1;
            }
            proof {
                assert(self.configs@.take(self.configs@.len() as int) =~= self.configs@);
            }
            if included == 0 {
                proof {
                    assert(live_included_count_spec(self.configs@, b as int) == 0);
                    assert(!summary_defined_spec(self.configs@, self.n_builds()));
                }
                return Option::None;
            }
            let mean: u128 = rel_sum / (included as u128);
            proof {
                assert(rel_sum / (included as u128) <= 0xffff_ffff_ffff_ffffu128)
                    by (nonlinear_arith)
                    requires
                        rel_sum <= (included as u128) * 0xffff_ffff_ffff_ffffu128,
                        included >= 1,
                ;
            }
            let capped: u64 = if mean > 0xffff_ffff_ffff_ffffu128 {
                u64::MAX
            } else {
                mean as u64
            };
            out.push(capped);
            b = b + 1;
        }
        proof {
            assert(out@ =~= summary_vals_spec(self.configs@, self.n_builds()));
        }
        Option::Some(out)
    }

    /// Renders the final totals and summary once every config has
    /// finished: each build's total over all configs of its final
    /// average, and the mean relative score against the baseline.  The
    /// whole emission is `complete_delta_spec` of the model.
    pub fn complete(&mut self)
        requires
            old(self).wf(),
            forall|c: int|
                0 <= c < old(self).configs@.len() ==> (#[trigger] old(self).configs@[c]).completed,
            old(self).iterations() > 0,
        ensures
            final(self).wf(),
            final(self).configs == old(self).configs,
            final(self).view.width == old(self).view.width,
            final(self).view.buffer@ == old(self).view.buffer@ + complete_delta_spec(
                old(self).view.lines@.len() as int,
                old(self).configs@,
                old(self).n_builds(),
                old(self).iterations(),
            ),
    {
        proof {
            reveal_strlit("Total ");
            reveal_strlit("Summary ");
        }
        self.view.rewind();
        let ghost erased = self.view.buffer@;
        let n = self.configs[0].builds.len();
        let iterations = self.configs[0].builds[0].iterations;
        let mut totals: Vec<u64> = Vec::new();
        let mut b: usize = 0;
        while b < n
            invariant
                self.wf(),
                n == self.n_builds(),
                b <= n,
                totals@.len() == b,
                iterations == self.iterations(),
                self.iterations() > 0,
                forall|k: int|
                    0 <= k < b ==> totals@[k] == final_totals_entry_spec(
                        self.configs@,
                        k,
                        iterations as int,
                    ) as u64,
            decreases n - b,
        {
            let mut total: u64 = 0;
            let mut c: usize = 0;
            while c < self.configs.len()
                invariant
                    self.wf(),
                    n == self.n_builds(),
                    b < n,
                    c <= self.configs@.len(),
                    iterations == self.iterations(),
                    self.iterations() > 0,
                    total as int == final_totals_entry_spec(
                        self.configs@.take(c as int),
                        b as int,
                        iterations as int,
                    ),
                decreases self.configs@.len() - c,
            {
                proof {
                    assert(self.configs@.take((c + 1) as int).drop_last() =~= self.configs@.take(
                        c as int,
                    ));
                    assert(self.configs@.take((c + 1) as int).last() == self.configs@[c as int]);
                }
                match self.configs[c].builds[b].avg(iterations) {
                    Option::Some(a) => {
                        total = sat_add_u64(total, a);
                    },
                    Option::None => (),
                }
                c = c + 1;
            }
            proof {
                assert(self.configs@.take(self.configs@.len() as int) =~= self.configs@);
            }
            totals.push(total);
            b = b + 1;
        }
        proof {
            assert(totals@ =~= final_totals_vals_spec(
                self.configs@,
                self.n_builds(),
                iterations as int,
            ));
        }
        self.view.newline();
        self.view.print("Total ", 6);
        let ghost before_tvals = self.view.buffer@;
        proof {
            assert(self.view.line == 6);
        }
        print_values(&totals, &mut self.view);
        self.view.newline();
        let ghost after_totals = self.view.buffer@;
        proof {
            assert(after_totals =~= erased + ("\n"@ + "Total "@ + print_values_spec(
                final_totals_vals_spec(self.configs@, self.n_builds(), iterations as int),
                6,
            ) + "\n"@));
        }
        if n > 1 {
            match self.final_summary() {
                Option::Some(summary) => {
                    self.view.print("Summary ", 8);
                    proof {
                        assert(self.view.line == 8);
                    }
                    print_values(&summary, &mut self.view);
                    self.view.newline();
                    proof {
                        assert(self.view.buffer@ =~= after_totals + ("Summary "@
                            + print_values_spec(
                            final_summary_vals_spec(self.configs@, self.n_builds()),
                            8,
                        ) + "\n"@));
                    }
                },
                Option::None => (),
            }
        }
        self.view.newline();
        proof {
            assert(self.view.buffer@ =~= old(self).view.buffer@ + complete_delta_spec(
                old(self).view.lines@.len() as int,
                old(self).configs@,
                old(self).n_builds(),
                old(self).iterations(),
            ));
        }
    }

    /// The final summary score per build: the mean, over the configs
    /// whose baseline recorded any time, of the build's total recorded
    /// time against the baseline's, in millionths — a dimensionless
    /// score that keeps long configs from dominating a plain time sum.
    fn final_summary(&self) -> (r: Option<Vec<u64>>)
        requires
            self.wf(),
        ensures
            r is Some <==> final_included_count_spec(self.configs@) > 0,
            r is Some ==> r->0@ == final_summary_vals_spec(self.configs@, self.n_builds()),
    {
        let n = self.configs[0].builds.len();
        let mut out: Vec<u64> = Vec::new();
        let mut b: usize = 0;
        while b < n
            invariant
                self.wf(),
                n == self.n_builds(),
                b <= n,
                out@.len() == b,
                b > 0 ==> final_included_count_spec(self.configs@) > 0,
                forall|k: int|
                    0 <= k < b ==> out@[k] == (final_rel_sum_spec(self.configs@, k)
                        / final_included_count_spec(self.configs@)) as u64,
            decreases n - b,
        {
            let mut rel_sum: u128 = 0;
            let mut included: u64 = 0;
            let mut c: usize = 0;
            while c < self.configs.len()
                invariant
                    self.wf(),
                    n == self.n_builds(),
                    b < n,
                    c <= self.configs@.len(),
                    included as int == final_included_count_spec(self.configs@.take(c as int)),
                    rel_sum as int == final_rel_sum_spec(self.configs@.take(c as int), b as int),
                    rel_sum <= (included as u128) * 0xffff_ffff_ffff_ffffu128,
                    included <= c,
                decreases self.configs@.len() - c,
            {
                proof {
                    assert(self.configs@.take((c + 1) as int).drop_last() =~= self.configs@.take(
                        c as int,
                    ));
                    assert(self.configs@.take((c + 1) as int).last() == self.configs@[c as int]);
                }
                let own = self.configs[c].builds[b].time_total;
                let base = self.configs[c].builds[0].time_total;
                if base > 0 {
                    let rel: u128 = (own as u128) * 1000000 / (base as u128);
                    let capped: u64 = if rel > 0xffff_ffff_ffff_ffffu128 {
                        u64::MAX
                    } else {
                        rel as u64
                    };
                    proof {
                        assert(final_included_spec(self.configs@[c as int]));
                        assert(capped as int == final_rel_spec(self.configs@[c as int], b as int));
                        assert(rel_sum + capped <= ((included + 1) as u128)
                            * 0xffff_ffff_ffff_ffffu128) by (nonlinear_arith)
                            requires
                                rel_sum <= (included as u128) * 0xffff_ffff_ffff_ffffu128,
                                capped <= 0xffff_ffff_ffff_ffffu64,
                                included < u64::MAX,
                        ;
                    }
                    rel_sum = rel_sum + (capped as u128);
                    included = included + 1;
                } else {
                    proof {
                        assert(!final_included_spec(self.configs@[c as int]));
                    }
                }
                c = c + 1;
            }
            proof {
                assert(self.configs@.take(self.configs@.len() as int) =~= self.configs@);
            }
            if included == 0 {
                return Option::None;
            }
            let mean: u128 = rel_sum / (included as u128);
            proof {
                assert(rel_sum / (included as u128) <= 0xffff_ffff_ffff_ffffu128)
                    by (nonlinear_arith)
                    requires
                        rel_sum <= (included as u128) * 0xffff_ffff_ffff_ffffu128,
                        included >= 1,
                ;
            }
            let capped: u64 = if mean > 0xffff_ffff_ffff_ffffu128 {
                u64::MAX
            } else {
                mean as u64
            };
            out.push(capped);
            b = b + 1;
        }
        proof {
            assert(out@ =~= final_summary_vals_spec(self.configs@, self.n_builds()));
        }
        Option::Some(out)
    }
}

/// Completed configs are fully recorded: every instance of a completed
/// config holds exactly the configured number of recorded durations.
/// (That every instance also performed exactly the configured warmups
/// is a property of the run plan, which schedules the warmup runs.)
pub proof fn lemma_completed_config_counts(d: Display, c: int, j: int)
    requires
        d.wf(),
        0 <= c < d.configs@.len(),
        d.configs@[c].completed,
        0 <= j < d.configs@[c].builds@.len(),
    ensures
        d.configs@[c].builds@[j].count == d.iterations(),
{
}

} // verus!
