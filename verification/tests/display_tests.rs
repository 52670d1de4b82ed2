use rcb::config::{Bench, Config};
use rcb::display::{change_cp, fmt_change, fmt_secs, print_values, Display};
use rcb::errors::BenchError;
use rcb::expand::{default_incremental_modes, default_modes, expand_configs, group_instances};
use rcb::modes::{BenchMode, IncrementalMode};
use rcb::quiesce::{Coordinator, ITERATION_SPACING_MILLIS, POLL_INTERVAL_MILLIS, QUIESCENCE_THRESHOLD_MILLIS};
use rcb::sched::{cost_for, Scheduler, DEFAULT_COST_MILLIS};
use rcb::state::{Repo, State};
use rcb::stats::{min_count, ratio_millis, InstanceStats};
use rcb::describe::{build_headline, build_option_lines};
use rcb::strfmt::{format_u64, format_u64_zero_pad, join_strings, pad_left};
use rcb::term::{color, default_color, newline, progress_bar, repeat_char, RenderCmd, View};

fn stats(count: usize, total: u64, last: u64) -> InstanceStats {
    InstanceStats {
        iterations: 8,
        warmups: 1,
        time_total: total,
        time_last: last,
        warmup_count: 1,
        count,
    }
}

#[test]
fn clamped_average_uses_common_count_and_drops_newest_sample() {
    // two instances recorded 5 and 3 times: both divide by 3, and the one
    // with 5 samples leaves its most recent sample out of its sum
    let ahead = stats(5, 100, 30);
    let behind = stats(3, 60, 20);
    assert_eq!(min_count(&vec![ahead, behind]), 3);
    assert_eq!(ahead.time_total_clamp(3), 70);
    assert_eq!(ahead.avg(3), Some(23));
    assert_eq!(behind.time_total_clamp(3), 60);
    assert_eq!(behind.avg(3), Some(20));
    // nothing is averaged before the first recorded iteration
    assert_eq!(behind.avg(0), None);
}

#[test]
fn ratio_is_in_thousandths() {
    assert_eq!(ratio_millis(1500, 1000), 1500);
    assert_eq!(ratio_millis(900, 1000), 900);
}

#[test]
fn seconds_are_formatted_with_four_decimals() {
    assert_eq!(fmt_secs(1234567), "  1.2345s");
    assert_eq!(fmt_secs(0), "  0.0000s");
    assert_eq!(fmt_secs(62000000), " 62.0000s");
}

#[test]
fn change_is_in_hundredths_of_a_percent() {
    assert_eq!(change_cp(1010000, 1000000), 100);
    assert_eq!(change_cp(995000, 1000000), -50);
    assert_eq!(change_cp(5, 0), 0);
    assert_eq!(fmt_change(100), " +1.00%");
    assert_eq!(fmt_change(-50), " -0.50%");
    assert_eq!(fmt_change(0), " +0.00%");
}

#[test]
fn value_row_colors_adverse_and_favorable_changes() {
    // +1.00% against the baseline: adverse color
    let mut view = View::new(80);
    print_values(&vec![1000000, 1010000], &mut view);
    let out = view.take_output();
    assert!(out.contains("\u{1b}[38;2;219;126;94m"));
    assert!(out.contains(" +1.00%"));
    // -1.00%: favorable color
    let mut view = View::new(80);
    print_values(&vec![1000000, 990000], &mut view);
    let out = view.take_output();
    assert!(out.contains("\u{1b}[38;2;143;209;98m"));
    // +0.30%: within the +-0.5% band, neither color
    let mut view = View::new(80);
    print_values(&vec![1000000, 1003000], &mut view);
    let out = view.take_output();
    assert!(!out.contains("\u{1b}[38;2;219;126;94m"));
    assert!(!out.contains("\u{1b}[38;2;143;209;98m"));
}

#[test]
fn dashboard_marks_config_completed_when_all_counts_reach_target() {
    let benchs = vec![Bench { name: "hello".to_string(), cargo_dir: ".".to_string() }];
    let modes = vec![BenchMode::Check];
    let incrs = vec![IncrementalMode::Off];
    let configs = expand_configs(&benchs, &modes, &incrs, false);
    let rows = group_instances(configs, 2);
    let mut d = Display::new(&rows, 2, 1, 80);
    d.start_config(0);
    assert!(d.configs[0].started);
    // the event redraws: header, the live row with its warmup progress,
    // and the running-total caption
    let out = d.view.take_output();
    assert!(out.contains("Running benchmarks:"));
    assert!(out.contains(" - "));
    assert!(out.contains("hello"));
    assert!(out.contains(" (warming up 0/2) "));
    assert!(out.contains(" - Current total "));
    assert!(out.contains(" - Current summary "));
    d.report_warmup(0, 0);
    assert_eq!(d.configs[0].builds[0].warmup_count, 1);
    let out = d.view.take_output();
    assert!(out.contains(" (warming up 1/2) "));
    d.report_warmup(0, 1);
    d.report(0, 0, 1000);
    d.report(0, 1, 1100);
    assert!(!d.configs[0].completed);
    let out = d.view.take_output();
    // warmups done: the row shows iteration progress and live averages
    assert!(out.contains(" (2/4) "));
    assert!(out.contains("0.0010s"));
    d.report(0, 0, 1200);
    assert!(!d.configs[0].completed);
    d.report(0, 1, 1300);
    // every instance of the config holds exactly the configured number
    // of recorded durations once it completes
    assert!(d.configs[0].completed);
    assert_eq!(d.configs[0].builds[0].count, 2);
    assert_eq!(d.configs[0].builds[1].count, 2);
    assert_eq!(d.configs[0].builds[0].time_total, 2200);
    assert_eq!(d.configs[0].builds[1].time_last, 1300);
    // completion painted the config's permanent row with its averages
    let out = d.view.take_output();
    assert!(out.contains("hello"));
    assert!(out.contains("0.0011s"));
    d.complete();
    // the terminal call renders the final totals and the summary score:
    // averages 1100 and 1200 micros give the ratio 1.0909 in millionths
    let out = d.view.take_output();
    assert!(out.contains("Total "));
    assert!(out.contains("0.0011s"));
    assert!(out.contains("Summary "));
    assert!(out.contains("1.0909s"));
}

#[test]
fn scheduler_pops_most_expensive_first() {
    // consecutive pops are non-increasing in cost
    let mut s = Scheduler::new(vec![(0, 1000), (1, 3000), (2, 2000)]);
    assert_eq!(s.pop(), Some((1, 3000)));
    assert_eq!(s.pop(), Some((2, 2000)));
    assert_eq!(s.pop(), Some((0, 1000)));
    assert_eq!(s.pop(), None);
}

#[test]
fn missing_cost_entries_default_to_one() {
    let table = vec![("hello:check".to_string(), 1500u64)];
    assert_eq!(cost_for(&table, &"hello:check".to_string(), DEFAULT_COST_MILLIS), 1500);
    assert_eq!(cost_for(&table, &"hello:debug".to_string(), DEFAULT_COST_MILLIS), 1000);
    assert_eq!(DEFAULT_COST_MILLIS, 1000);
    // a repeated key reads as its first entry
    let dup = vec![("k".to_string(), 2000u64), ("k".to_string(), 9000u64)];
    assert_eq!(cost_for(&dup, &"k".to_string(), DEFAULT_COST_MILLIS), 2000);
    // an empty table only ever answers the default
    let none: Vec<(String, u64)> = Vec::new();
    assert_eq!(cost_for(&none, &"k".to_string(), DEFAULT_COST_MILLIS), 1000);
}

#[test]
fn quiescence_gate_respects_threshold() {
    assert_eq!(QUIESCENCE_THRESHOLD_MILLIS, 500);
    assert_eq!(ITERATION_SPACING_MILLIS, 200);
    assert_eq!(POLL_INTERVAL_MILLIS, 50);
    let mut c = Coordinator::new(2, QUIESCENCE_THRESHOLD_MILLIS, 1000);
    // the other worker's event is only 400 ms old
    assert!(!c.ready(0, 1400));
    // exactly at the threshold is still too soon
    assert!(!c.ready(0, 1500));
    assert!(c.ready(0, 1501));
    // claiming the window moves the claimant's own timestamp only
    assert!(c.try_enter(0, 1600));
    assert_eq!(c.events[0], 1600);
    assert_eq!(c.events[1], 1000);
    // now worker 1 must wait for worker 0's fresh event
    assert!(!c.ready(1, 2000));
    assert!(c.ready(1, 2101));
    // a single worker has nobody to wait for
    let one = Coordinator::new(1, QUIESCENCE_THRESHOLD_MILLIS, 1000);
    assert!(one.ready(0, 1000));
}

#[test]
fn default_repository_must_be_unique() {
    let mk = |marks: Vec<Option<bool>>| State {
        exe: "rcb".to_string(),
        root: "/root".to_string(),
        iterations: None,
        repos: marks
            .into_iter()
            .enumerate()
            .map(|(i, m)| {
                (format!("repo{}", i), Repo { path: format!("/src{}", i), default_repo: m })
            })
            .collect(),
        verbose: false,
    };
    assert!(matches!(mk(vec![]).default_repo(), Err(BenchError::ConfigurationError)));
    assert_eq!(mk(vec![Some(true)]).default_repo(), Ok("repo0".to_string()));
    assert_eq!(mk(vec![None, Some(true)]).default_repo(), Ok("repo1".to_string()));
    assert!(matches!(
        mk(vec![Some(true), Some(true)]).default_repo(),
        Err(BenchError::ConfigurationError)
    ));
    let s = mk(vec![Some(false), None]);
    assert_eq!(s.repo_path(&"repo1".to_string()), Some("/src1".to_string()));
    assert_eq!(s.repo_path(&"missing".to_string()), None);
    assert_eq!(s.repo("repo0".to_string()), Ok("repo0".to_string()));
    assert!(matches!(s.repo("nope".to_string()), Err(BenchError::ConfigurationError)));
}

#[test]
fn benchmark_selection_defaults_and_errors() {
    let known = vec![
        Bench { name: "a".to_string(), cargo_dir: "/a".to_string() },
        Bench { name: "b".to_string(), cargo_dir: "/b".to_string() },
        Bench { name: "c".to_string(), cargo_dir: "/c".to_string() },
    ];
    let empty: Vec<String> = Vec::new();
    // nothing selected, nothing configured: all known benchmarks
    let all = rcb::expand::select_benchmarks(&known, &empty, &empty).unwrap();
    assert_eq!(all.len(), 3);
    // nothing selected: the configured subset, in known order
    let configured = vec!["c".to_string(), "a".to_string()];
    let subset = rcb::expand::select_benchmarks(&known, &empty, &configured).unwrap();
    let names: Vec<&str> = subset.iter().map(|b| b.name.as_str()).collect();
    assert_eq!(names, vec!["a", "c"]);
    // an explicit selection keeps its own order
    let picked = rcb::expand::select_benchmarks(&known, &vec!["b".to_string(), "a".to_string()], &empty)
        .unwrap();
    let names: Vec<&str> = picked.iter().map(|b| b.name.as_str()).collect();
    assert_eq!(names, vec!["b", "a"]);
    // an unknown name is a configuration error
    assert!(matches!(
        rcb::expand::select_benchmarks(&known, &vec!["nope".to_string()], &empty),
        Err(BenchError::ConfigurationError)
    ));
}

#[test]
fn expansion_is_benchmark_major() {
    let benchs = vec![
        Bench { name: "a".to_string(), cargo_dir: ".".to_string() },
        Bench { name: "b".to_string(), cargo_dir: ".".to_string() },
    ];
    let modes = default_modes();
    let incrs = default_incremental_modes();
    let configs = expand_configs(&benchs, &modes, &incrs, true);
    assert_eq!(configs.len(), 2 * 3 * 3);
    assert_eq!(configs[0].bench.name, "a");
    assert_eq!(configs[0].mode, BenchMode::Check);
    assert_eq!(configs[0].incremental, IncrementalMode::Off);
    assert_eq!(configs[1].incremental, IncrementalMode::Initial);
    assert_eq!(configs[3].mode, BenchMode::Release);
    assert_eq!(configs[9].bench.name, "b");
    assert!(configs.iter().all(|c| c.details));
}

#[test]
fn config_display_strings() {
    let c = Config {
        details: false,
        incremental: IncrementalMode::Initial,
        mode: BenchMode::Check,
        bench: Bench { name: "hello".to_string(), cargo_dir: ".".to_string() },
    };
    assert_eq!(c.display(), "hello:check:initial");
    let c2 = Config { incremental: IncrementalMode::Off, ..c };
    assert_eq!(c2.display(), "hello:check");
    let c3 = Config {
        incremental: IncrementalMode::Unchanged,
        mode: BenchMode::Release,
        ..c2
    };
    assert_eq!(c3.display(), "hello:release:unchanged");
}

#[test]
fn error_messages_name_the_failure() {
    assert_eq!(BenchError::ProtocolError.message(), "unexpected timing output from wrapped run");
    assert_eq!(BenchError::PrepareFailure.message(), "unable to prepare instance");
    assert_eq!(BenchError::RunFailure.message(), "unable to run instance");
    assert_eq!(BenchError::FingerprintNotFoundError.message(), "no fingerprint found for crate");
    assert_eq!(
        BenchError::AmbiguousFingerprintError.message(),
        "more than one fingerprint found for crate"
    );
    assert_eq!(BenchError::ConfigurationError.message(), "bad build or benchmark selection");
}

#[test]
fn view_tracks_and_erases_drawn_lines() {
    let mut v = View::new(80);
    assert_eq!(v.width(), 80);
    v.print("ab", 2);
    v.newline();
    v.print("c", 1);
    assert_eq!(v.lines, vec![2]);
    assert_eq!(v.line, 1);
    v.rewind();
    let out = v.take_output();
    // two drawn lines: erase, cursor up, erase
    assert_eq!(out, "ab\nc\u{1b}[0K\u{1b}[1A\u{1b}[0K");
    assert_eq!(v.lines.len(), 0);
    assert_eq!(v.line, 0);
}

#[test]
fn progress_bar_fills_round_to_nearest() {
    let mut v = View::new(80);
    let bar = progress_bar("p: ", 1, 2);
    assert!(matches!(&bar, RenderCmd::ProgressBar(_, 1, 2)));
    v.apply(&bar);
    let out = v.take_output();
    let filled = repeat_char('#', 35);
    let empty = repeat_char('-', 35);
    assert!(out.starts_with("p: "));
    assert!(out.contains(filled.as_str()));
    assert!(out.contains(empty.as_str()));
    assert!(out.ends_with("\u{1b}[0m\n"));
}

#[test]
fn render_commands_are_plain_values() {
    assert!(matches!(newline(), RenderCmd::Newline));
    assert!(matches!(default_color(), RenderCmd::ResetColor));
    assert!(matches!(color(1, 2, 3), RenderCmd::SetColor(1, 2, 3)));
}

#[test]
fn decimal_formatting_and_padding() {
    assert_eq!(format_u64(0), "0");
    assert_eq!(format_u64(9876543210), "9876543210");
    assert_eq!(format_u64_zero_pad(7, 4), "0007");
    assert_eq!(format_u64_zero_pad(12345, 4), "12345");
    assert_eq!(pad_left("ab".to_string(), 5), "   ab");
    assert_eq!(pad_left("abcdef".to_string(), 5), "abcdef");
    assert_eq!(
        join_strings(&vec!["a".to_string(), "b".to_string(), "c".to_string()], ", "),
        "a, b, c"
    );
    assert_eq!(join_strings(&Vec::new(), ", "), "");
}

#[test]
fn build_listing_lines() {
    // relies on the size formatter: 1536 bytes are 1.50 KiB
    assert_eq!(build_headline(0, "alpha", "abc123", 1536), "Build #1 alpha (abc123 1.50 KiB)");
    assert_eq!(build_headline(1, "beta", "", 1), "Build #2 beta ( 1 Byte)");
    let b = rcb::config::BuildConfig {
        index: 0,
        name: "alpha".to_string(),
        threads: true,
        rflags: vec!["-Zflag".to_string()],
        cflags: vec!["--offline".to_string()],
        envs: vec![("K".to_string(), "V".to_string())],
    };
    let lines = build_option_lines(&b);
    assert_eq!(
        lines,
        vec![
            "    Default thread count".to_string(),
            "    rustc:-Zflag".to_string(),
            "    cargo:--offline".to_string(),
            "    env:K = V".to_string(),
        ]
    );
}
