use rcb::config::{Bench, BuildConfig, Config};
use rcb::cmd::{cargo_invocation, instance_label, rustc_path, target_dir, wrapper_invocation};
use rcb::detail::{merge_passes, truncate_to_final_unit, PassSample};
use rcb::engine::{
    prepare_steps, process_prepare_output, process_run_output, record_timed_run, run_plan,
    PrepareStep, RunOutcome, WorkerAction,
};
use rcb::errors::BenchError;
use rcb::expand::{clamp_iterations, expand_configs, group_instances};
use rcb::fingerprint::{crate_matches, invalidation_plan, name_matches, select_fingerprint};
use rcb::instance::Instance;
use rcb::modes::{BenchMode, IncrementalMode};

fn demo_config(incremental: IncrementalMode) -> Config {
    Config {
        details: false,
        incremental,
        mode: BenchMode::Check,
        bench: Bench {
            name: "hello".to_string(),
            cargo_dir: "/work/hello".to_string(),
        },
    }
}

fn demo_build(index: usize) -> BuildConfig {
    BuildConfig {
        index,
        name: format!("build{}", index),
        threads: false,
        rflags: Vec::new(),
        cflags: Vec::new(),
        envs: Vec::new(),
    }
}

#[test]
fn prepare_has_one_extra_discarded_run_for_unchanged() {
    // Scenario: the Unchanged scenario primes the incremental cache once
    assert_eq!(
        prepare_steps(IncrementalMode::Unchanged),
        vec![PrepareStep::Populate, PrepareStep::PrimeIncremental]
    );
    assert_eq!(
        prepare_steps(IncrementalMode::Off),
        vec![PrepareStep::Populate]
    );
    assert_eq!(
        prepare_steps(IncrementalMode::Initial),
        vec![PrepareStep::Populate]
    );
}

#[test]
fn scenario_two_builds_one_benchmark_check_only() {
    // 2 builds, 1 benchmark, modes=[Check], incremental=[Off], 3 iterations, 1 warmup
    let benchs = vec![Bench {
        name: "hello".to_string(),
        cargo_dir: ".".to_string(),
    }];
    let modes = vec![BenchMode::Check];
    let incrs = vec![IncrementalMode::Off];
    let configs = expand_configs(&benchs, &modes, &incrs, false);
    assert_eq!(configs.len(), 1);
    let rows = group_instances(configs, 2);
    assert_eq!(rows.len(), 1);
    assert_eq!(rows[0].builds.len(), 2);

    // each instance prepares once, with no extra priming run
    assert_eq!(prepare_steps(IncrementalMode::Off).len(), 1);

    // the worker plan holds one warmup and three timed runs per instance,
    // each run preceded by exactly one fingerprint invalidation (a Run
    // action invalidates before it launches)
    let plan = run_plan(2, 1, 3, false);
    for b in 0..2usize {
        let warmups = plan
            .iter()
            .filter(|a| {
                matches!(**a, WorkerAction::Run { build_index, warmup: true } if build_index == b)
            })
            .count();
        let timed = plan
            .iter()
            .filter(|a| {
                matches!(**a, WorkerAction::Run { build_index, warmup: false } if build_index == b)
            })
            .count();
        assert_eq!(warmups, 1);
        assert_eq!(timed, 3);
    }
    // single worker: no quiescence traffic, but spacing before each timed run
    assert!(plan
        .iter()
        .all(|a| !matches!(*a, WorkerAction::WaitQuiescence | WorkerAction::RecordEvent)));
    let sleeps = plan
        .iter()
        .filter(|a| matches!(**a, WorkerAction::Sleep(200)))
        .count();
    assert_eq!(sleeps, 6);

    // after the three timed runs each instance has recorded three durations
    let mut instance = Instance::new(0, 0);
    for d in [1000u64, 1100, 1200] {
        record_timed_run(&mut instance, d, None).unwrap();
    }
    assert_eq!(instance.time, vec![1000, 1100, 1200]);
}

#[test]
fn protocol_error_leaves_finished_results_alone() {
    // Scenario: two marker lines abort the run without touching what was
    // already recorded
    let mut instance = Instance::new(0, 0);
    record_timed_run(&mut instance, 500, None).unwrap();
    record_timed_run(&mut instance, 600, None).unwrap();
    let stderr = "rcb-rustc-timer:1\nrcb-rustc-timer:2\n";
    let r = process_run_output(true, stderr, false, false, false);
    assert!(matches!(r, Err(BenchError::ProtocolError)));
    assert_eq!(instance.time, vec![500, 600]);
}

#[test]
fn run_failure_and_untimed_outcomes() {
    assert!(matches!(
        process_run_output(false, "", false, false, false),
        Err(BenchError::RunFailure)
    ));
    assert!(matches!(
        process_run_output(true, "", true, false, false),
        Ok(RunOutcome::Untimed)
    ));
    assert!(matches!(
        process_run_output(true, "", false, true, false),
        Ok(RunOutcome::Untimed)
    ));
    assert!(matches!(process_prepare_output(false), Err(BenchError::PrepareFailure)));
    assert!(process_prepare_output(true).is_ok());
}

#[test]
fn timed_run_with_detail_lines() {
    let stderr = "rcb-rustc-timer:2500\n\
                  time:{\"pass\":\"typeck\",\"time\":0.5,\"rss_start\":100,\"rss_end\":200}\n\
                  time:{\"pass\":\"total\",\"time\":1.5,\"rss_start\":90,\"rss_end\":210}\n";
    match process_run_output(true, stderr, false, false, true) {
        Ok(RunOutcome::Timed { duration, passes }) => {
            assert_eq!(duration, 2500);
            let passes = passes.unwrap();
            assert_eq!(passes.len(), 2);
            assert_eq!(passes[0].name, "typeck");
            assert_eq!(passes[0].nanos, 500000000);
            assert_eq!(passes[1].name, "total");
        }
        other => panic!("unexpected outcome: {:?}", other.is_ok()),
    }
}

#[test]
fn malformed_detail_line_is_protocol_error() {
    let stderr = "rcb-rustc-timer:2500\ntime:{\"pass\":\"broken\n";
    let r = process_run_output(true, stderr, false, false, true);
    assert!(matches!(r, Err(BenchError::ProtocolError)));
}

#[test]
fn fingerprint_excludes_build_script_sharing_base_name() {
    // Scenario: a build-script entry shares the benchmark's base name and
    // must not count; the one true match is used
    let fingerprints = vec!["hello-123abc".to_string(), "hello-9fff".to_string()];
    let build_scripts = vec!["hello-9fff".to_string()];
    let incr: Vec<String> = Vec::new();
    let plan = invalidation_plan(
        &fingerprints,
        &build_scripts,
        &incr,
        "hello",
        IncrementalMode::Off,
    )
    .unwrap();
    assert_eq!(plan.fingerprint, "hello-123abc");
    assert!(plan.incremental.is_none());
}

#[test]
fn fingerprint_zero_or_many_matches_is_fatal() {
    let none: Vec<String> = Vec::new();
    assert!(matches!(
        invalidation_plan(&none, &none, &none, "hello", IncrementalMode::Off),
        Err(BenchError::FingerprintNotFoundError)
    ));
    let two = vec!["hello-1".to_string(), "hello-2".to_string()];
    assert!(matches!(
        invalidation_plan(&two, &none, &none, "hello", IncrementalMode::Off),
        Err(BenchError::AmbiguousFingerprintError)
    ));
}

#[test]
fn invalidation_finds_exactly_one_match_after_each_run() {
    // Scenario: the compiler recreates its cache entry each run, so a
    // second invalidation again finds exactly one match
    let none: Vec<String> = Vec::new();
    let before = vec!["demo-1a".to_string()];
    let first = invalidation_plan(&before, &none, &none, "demo", IncrementalMode::Off).unwrap();
    assert_eq!(first.fingerprint, "demo-1a");
    // after one run the entry exists again (under a fresh hash)
    let after = vec!["demo-2b".to_string()];
    let second = invalidation_plan(&after, &none, &none, "demo", IncrementalMode::Off).unwrap();
    assert_eq!(second.fingerprint, "demo-2b");
}

#[test]
fn initial_scenario_also_clears_incremental_cache() {
    let fingerprints = vec!["hello-1".to_string()];
    let none: Vec<String> = Vec::new();
    let incr = vec!["hello-abc".to_string()];
    let plan = invalidation_plan(
        &fingerprints,
        &none,
        &incr,
        "hello",
        IncrementalMode::Initial,
    )
    .unwrap();
    assert_eq!(plan.incremental, Some("hello-abc".to_string()));
    let plan = invalidation_plan(
        &fingerprints,
        &none,
        &incr,
        "hello",
        IncrementalMode::Unchanged,
    )
    .unwrap();
    assert!(plan.incremental.is_none());
}

#[test]
fn name_matching_uses_base_before_final_dash() {
    assert!(name_matches("hello-123", "hello"));
    assert!(name_matches("hello-world-123", "hello-world"));
    assert!(!name_matches("hello-world-123", "hello"));
    assert!(!name_matches("hello", "hello"));
    assert!(!name_matches("hello2-123", "hello"));
    let names = vec![
        "hello-1".to_string(),
        "other-2".to_string(),
        "hello-3".to_string(),
    ];
    let matched = crate_matches(&names, "hello");
    assert_eq!(matched, vec!["hello-1".to_string(), "hello-3".to_string()]);
    assert!(matches!(
        select_fingerprint(matched),
        Err(BenchError::AmbiguousFingerprintError)
    ));
}

#[test]
fn merge_sums_durations_and_tracks_memory_extremes() {
    let samples = vec![
        PassSample { name: "total".to_string(), nanos: 1, rss_start: 0, rss_end: 0 },
        PassSample { name: "x".to_string(), nanos: 2, rss_start: 7, rss_end: 9 },
        PassSample { name: "total".to_string(), nanos: 3, rss_start: 1, rss_end: 2 },
        PassSample { name: "y".to_string(), nanos: 4, rss_start: 10, rss_end: 20 },
        PassSample { name: "y".to_string(), nanos: 5, rss_start: 5, rss_end: 30 },
    ];
    // two `total` markers: keep only what follows the second-to-last one
    let truncated = truncate_to_final_unit(&samples);
    assert_eq!(truncated.len(), 4);
    assert_eq!(truncated[0].name, "x");
    let merged = merge_passes(&truncated);
    assert_eq!(merged.len(), 4);
    assert_eq!(merged[0].nanos, 2);
    assert_eq!(merged[1].name, "total");
    assert_eq!(merged[1].nanos, 3);
    // the recurring pass sums durations, keeps least before-memory and
    // greatest after-memory, in both positions
    assert_eq!(merged[2].nanos, 9);
    assert_eq!(merged[2].rss_start, 5);
    assert_eq!(merged[2].rss_end, 30);
    assert_eq!(merged[3].nanos, 9);
    assert_eq!(merged[3].rss_start, 5);
    assert_eq!(merged[3].rss_end, 30);
}

#[test]
fn record_timed_run_stores_merged_detail() {
    let mut instance = Instance::new(0, 0);
    let passes = vec![
        PassSample { name: "a".to_string(), nanos: 10, rss_start: 3, rss_end: 4 },
        PassSample { name: "a".to_string(), nanos: 20, rss_start: 1, rss_end: 9 },
    ];
    record_timed_run(&mut instance, 777, Some(passes)).unwrap();
    assert_eq!(instance.time, vec![777]);
    assert_eq!(instance.times.len(), 1);
    assert_eq!(instance.times[0][0].nanos, 30);
    assert_eq!(instance.times[0][0].rss_start, 1);
    assert_eq!(instance.times[0][0].rss_end, 9);
}

#[test]
fn cargo_invocation_for_measured_release_run() {
    let c = Config {
        details: true,
        incremental: IncrementalMode::Off,
        mode: BenchMode::Release,
        bench: Bench {
            name: "hello".to_string(),
            cargo_dir: "/work/hello".to_string(),
        },
    };
    let mut build = demo_build(0);
    build.rflags.push("-Copt-level=2".to_string());
    let spec = cargo_invocation("/root", "/root/rcb", "/tmp/session", &c, &build, false);
    assert_eq!(spec.program, "cargo");
    assert_eq!(spec.current_dir, "/work/hello");
    assert_eq!(spec.args, vec!["build".to_string(), "--release".to_string(), "-j1".to_string()]);
    let envs = spec.envs;
    assert_eq!(
        envs[0],
        ("RUSTC".to_string(), "/root/builds/build0/stage1/bin/rustc".to_string())
    );
    assert_eq!(envs[1], ("CARGO_INCREMENTAL".to_string(), "0".to_string()));
    assert_eq!(
        envs[2],
        ("CARGO_TARGET_DIR".to_string(), "/tmp/session/0-hello$release".to_string())
    );
    assert_eq!(envs[3], ("RUSTC_WRAPPER".to_string(), "/root/rcb".to_string()));
    assert_eq!(envs[4], ("RCB_ACT_AS_RUSTC".to_string(), "1".to_string()));
    assert_eq!(
        envs[5],
        (
            "RUSTFLAGS".to_string(),
            "-Ztime-passes -Ztime-passes-format=json -Copt-level=2".to_string()
        )
    );
}

#[test]
fn cargo_invocation_for_prepare_pass() {
    let c = demo_config(IncrementalMode::Unchanged);
    let build = demo_build(1);
    let spec = cargo_invocation("/root", "/root/rcb", "/tmp/session", &c, &build, true);
    assert_eq!(spec.args, vec!["check".to_string()]);
    // no wrapper hook during prepare, incremental cache on
    assert!(spec.envs.iter().all(|e| e.0 != "RUSTC_WRAPPER"));
    assert!(spec
        .envs
        .contains(&("CARGO_INCREMENTAL".to_string(), "1".to_string())));
}

#[test]
fn wrapper_forwards_arguments_unchanged() {
    let args = vec![
        "rcb".to_string(),
        "/real/rustc".to_string(),
        "--edition".to_string(),
        "2021".to_string(),
    ];
    let spec = wrapper_invocation(&args, false);
    assert_eq!(spec.program, "/real/rustc");
    assert_eq!(spec.args, vec!["--edition".to_string(), "2021".to_string()]);
    assert_eq!(spec.envs.len(), 2);
    let spec = wrapper_invocation(&args, true);
    assert_eq!(
        spec.args,
        vec![
            "--edition".to_string(),
            "2021".to_string(),
            "-Ztime-passes".to_string(),
            "-Ztime-passes-format=json".to_string()
        ]
    );
}

#[test]
fn labels_and_paths() {
    let c = demo_config(IncrementalMode::Initial);
    assert_eq!(
        instance_label(&c, "build0"),
        "benchmark hello:check:initial with build0"
    );
    assert_eq!(
        target_dir("/tmp/s", 2, &c),
        "/tmp/s/2-hello$check$initial"
    );
    assert_eq!(
        rustc_path("/root", "b1"),
        "/root/builds/b1/stage1/bin/rustc"
    );
}

#[test]
fn iterations_are_clamped_to_at_least_one() {
    assert_eq!(clamp_iterations(0), 1);
    assert_eq!(clamp_iterations(1), 1);
    assert_eq!(clamp_iterations(8), 8);
}
