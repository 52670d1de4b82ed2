//! Construction of the subprocess invocations: the build-tool command
//! of one instance (prepare or measured) and the forwarded compiler
//! command of the wrapper mode.  The surrounding application turns a
//! `CommandSpec` into a real process; which program, arguments and
//! environment it gets is decided and proved here.

use vstd::prelude::*;
use vstd::string::*;
use crate::config::{BuildConfig, Config, config_display_spec, replace_char, replace_char_spec};
use crate::modes::{BenchMode, IncrementalMode};
use crate::seqx::{lemma_pair_views_push, lemma_views_push};
use crate::strfmt::{dec_digits, format_u64, join_spec, join_strings};

verus! {

/// One subprocess to launch: program, working directory, arguments and
/// added environment variables, in order.
pub struct CommandSpec {
    pub program: String,
    pub current_dir: String,
    pub args: Vec<String>,
    pub envs: Vec<(String, String)>,
}

/// The views of an argument list.
pub open spec fn arg_views(v: Seq<String>) -> Seq<Seq<char>> {
    v.map_values(|s: String| s@)
}

/// The views of an environment list.
pub open spec fn env_views(v: Seq<(String, String)>) -> Seq<(Seq<char>, Seq<char>)> {
    v.map_values(|e: (String, String)| (e.0@, e.1@))
}

/// The compiler-under-test executable of a build: under the session
/// root, the build's directory, its first stage, `bin/rustc`.
pub open spec fn rustc_path_spec(root: Seq<char>, build_name: Seq<char>) -> Seq<char> {
    root + "/builds/"@ + build_name + "/stage1/bin/rustc"@
}

pub fn rustc_path(root: &str, build_name: &str) -> (r: String)
    ensures
        r@ == rustc_path_spec(root@, build_name@),
{
    let mut s = root.to_owned();
    s.append("/builds/");
    s.append(build_name);
    s.append("/stage1/bin/rustc");
    proof {
        assert(s@ =~= rustc_path_spec(root@, build_name@));
    }
    s
}

/// The target directory of one instance: under the session directory,
/// the build's index and the config's display string with `:` mangled
/// to `$` (a path may not carry the display separator).
pub open spec fn target_dir_spec(session_dir: Seq<char>, build_index: nat, c: Config) -> Seq<
    char,
> {
    session_dir + "/"@ + dec_digits(build_index) + "-"@ + replace_char_spec(
        config_display_spec(c),
        ':',
        '$',
    )
}

pub fn target_dir(session_dir: &str, build_index: usize, c: &Config) -> (r: String)
    ensures
        r@ == target_dir_spec(session_dir@, build_index as nat, *c),
{
    let mut s = session_dir.to_owned();
    s.append("/");
    let idx = format_u64(build_index as u64);
    s.append(idx.as_str());
    s.append("-");
    let display = c.display();
    let mangled = replace_char(display.as_str(), ':', '$');
    s.append(mangled.as_str());
    proof {
        assert(s@ =~= target_dir_spec(session_dir@, build_index as nat, *c));
    }
    s
}

/// The human label of one instance, used in diagnostics.
pub open spec fn instance_label_spec(c: Config, build_name: Seq<char>) -> Seq<char> {
    "benchmark "@ + config_display_spec(c) + " with "@ + build_name
}

pub fn instance_label(c: &Config, build_name: &str) -> (r: String)
    ensures
        r@ == instance_label_spec(*c, build_name@),
{
    let mut s = "benchmark ".to_owned();
    let display = c.display();
    s.append(display.as_str());
    s.append(" with ");
    s.append(build_name);
    proof {
        assert(s@ =~= instance_label_spec(*c, build_name@));
    }
    s
}

/// The compiler flags of one run: the detail flags when per-pass detail
/// was requested, then the build's declared flags, space separated.
pub open spec fn rustflags_spec(details: bool, rflags: Seq<Seq<char>>) -> Seq<char> {
    join_spec(
        (if details {
            seq!["-Ztime-passes"@, "-Ztime-passes-format=json"@]
        } else {
            Seq::<Seq<char>>::empty()
        }) + rflags,
        " "@,
    )
}

/// The build-tool arguments of one run: the mode's subcommand (and
/// profile switch), single-threaded codegen unless the build asked for
/// its own thread count (never during prepare), then the build's
/// declared build-tool flags.
pub open spec fn cargo_args_spec(
    mode: BenchMode,
    prepare: bool,
    threads: bool,
    cflags: Seq<Seq<char>>,
) -> Seq<Seq<char>> {
    (match mode {
        BenchMode::Check => seq!["check"@],
        BenchMode::Debug => seq!["build"@],
        BenchMode::Release => seq!["build"@, "--release"@],
    }) + (if !prepare && !threads {
        seq!["-j1"@]
    } else {
        Seq::<Seq<char>>::empty()
    }) + cflags
}

/// The environment of one run: the compiler under test, whether the
/// incremental cache is on, the instance's own target directory; for a
/// measured run the wrapper hook (this harness re-executed as the
/// compiler); the compiler flags; then the build's declared variables.
pub open spec fn cargo_envs_spec(
    root: Seq<char>,
    exe: Seq<char>,
    session_dir: Seq<char>,
    c: Config,
    build_name: Seq<char>,
    build_index: nat,
    threads: bool,
    details: bool,
    rflags: Seq<Seq<char>>,
    envs: Seq<(Seq<char>, Seq<char>)>,
    prepare: bool,
) -> Seq<(Seq<char>, Seq<char>)> {
    (seq![
        ("RUSTC"@, rustc_path_spec(root, build_name)),
        (
            "CARGO_INCREMENTAL"@,
            if c.incremental != IncrementalMode::Off {
                "1"@
            } else {
                "0"@
            },
        ),
        ("CARGO_TARGET_DIR"@, target_dir_spec(session_dir, build_index, c)),
    ] + (if !prepare {
        seq![("RUSTC_WRAPPER"@, exe), ("RCB_ACT_AS_RUSTC"@, "1"@)]
    } else {
        Seq::<(Seq<char>, Seq<char>)>::empty()
    })) + seq![("RUSTFLAGS"@, rustflags_spec(details, rflags))] + envs
}

/// The build-tool invocation of one instance: for the prepare pass the
/// plain command, for a measured run the command with the wrapper
/// hooked in.  Runs in the benchmark's project directory.
pub fn cargo_invocation(
    root: &str,
    exe: &str,
    session_dir: &str,
    c: &Config,
    build: &BuildConfig,
    prepare: bool,
) -> (r: CommandSpec)
    ensures
        r.program@ == "cargo"@,
        r.current_dir@ == c.bench.cargo_dir@,
        arg_views(r.args@) == cargo_args_spec(
            c.mode,
            prepare,
            build.threads,
            arg_views(build.cflags@),
        ),
        env_views(r.envs@) == cargo_envs_spec(
            root@,
            exe@,
            session_dir@,
            *c,
            build.name@,
            build.index as nat,
            build.threads,
            c.details,
            arg_views(build.rflags@),
            env_views(build.envs@),
            prepare,
        ),
{
    let mut args: Vec<String> = Vec::new();
    match c.mode {
        BenchMode::Check => {
            args.push("check".to_owned());
        },
        BenchMode::Debug => {
            args.push("build".to_owned());
        },
        BenchMode::Release => {
            args.push("build".to_owned());
            args.push("--release".to_owned());
        },
    }
    if !prepare && !build.threads {
        args.push("-j1".to_owned());
    }
    let ghost before_cflags = arg_views(args@);
    proof {
        assert(before_cflags =~= (match c.mode {
            BenchMode::Check => seq!["check"@],
            BenchMode::Debug => seq!["build"@],
            BenchMode::Release => seq!["build"@, "--release"@],
        }) + (if !prepare && !build.threads {
            seq!["-j1"@]
        } else {
            Seq::<Seq<char>>::empty()
        }));
    }
    let mut k: usize = 0;
    while k < build.cflags.len()
        invariant
            k <= build.cflags@.len(),
            arg_views(args@) == before_cflags + arg_views(build.cflags@.take(k as int)),
        decreases build.cflags@.len() - k,
    {
        let ghost a0 = args@;
        args.push(build.cflags[k].clone());
        proof {
            assert(build.cflags@.take((k + 1) as int) =~= build.cflags@.take(k as int).push(
                build.cflags@[k as int],
            ));
            lemma_views_push(a0, build.cflags@[k as int]);
            lemma_views_push(build.cflags@.take(k as int), build.cflags@[k as int]);
            assert(arg_views(args@) =~= before_cflags + arg_views(
                build.cflags@.take((k + 1) as int),
            ));
        }
        k = k + 1;
    }
    proof {
        assert(build.cflags@.take(build.cflags@.len() as int) =~= build.cflags@);
        assert(arg_views(args@) =~= cargo_args_spec(
            c.mode,
            prepare,
            build.threads,
            arg_views(build.cflags@),
        ));
    }
    let mut envs: Vec<(String, String)> = Vec::new();
    envs.push(("RUSTC".to_owned(), rustc_path(root, build.name.as_str())));
    let incr_value: &str = if !matches!(c.incremental, IncrementalMode::Off) {
        "1"
    } else {
        "0"
    };
    envs.push(("CARGO_INCREMENTAL".to_owned(), incr_value.to_owned()));
    envs.push(("CARGO_TARGET_DIR".to_owned(), target_dir(session_dir, build.index, c)));
    if !prepare {
        envs.push(("RUSTC_WRAPPER".to_owned(), exe.to_owned()));
        envs.push(("RCB_ACT_AS_RUSTC".to_owned(), "1".to_owned()));
    }
    let mut flag_list: Vec<String> = Vec::new();
    if c.details {
        flag_list.push("-Ztime-passes".to_owned());
        flag_list.push("-Ztime-passes-format=json".to_owned());
    }
    let ghost detail_flags = arg_views(flag_list@);
    proof {
        assert(detail_flags =~= (if c.details {
            seq!["-Ztime-passes"@, "-Ztime-passes-format=json"@]
        } else {
            Seq::<Seq<char>>::empty()
        }));
    }
    let mut k: usize = 0;
    while k < build.rflags.len()
        invariant
            k <= build.rflags@.len(),
            arg_views(flag_list@) == detail_flags + arg_views(build.rflags@.take(k as int)),
        decreases build.rflags@.len() - k,
    {
        let ghost f0 = flag_list@;
        flag_list.push(build.rflags[k].clone());
        proof {
            assert(build.rflags@.take((k + 1) as int) =~= build.rflags@.take(k as int).push(
                build.rflags@[k as int],
            ));
            lemma_views_push(f0, build.rflags@[k as int]);
            lemma_views_push(build.rflags@.take(k as int), build.rflags@[k as int]);
            assert(arg_views(flag_list@) =~= detail_flags + arg_views(
                build.rflags@.take((k + 1) as int),
            ));
        }
        k = k + 1;
    }
    proof {
        assert(build.rflags@.take(build.rflags@.len() as int) =~= build.rflags@);
    }
    let rustflags = join_strings(&flag_list, " ");
    envs.push(("RUSTFLAGS".to_owned(), rustflags));
    let ghost before_extra = env_views(envs@);
    let mut k: usize = 0;
    while k < build.envs.len()
        invariant
            k <= build.envs@.len(),
            env_views(envs@) == before_extra + env_views(build.envs@.take(k as int)),
        decreases build.envs@.len() - k,
    {
        let ghost e0 = envs@;
        let pair = (build.envs[k].0.clone(), build.envs[k].1.clone());
        let ghost pv = pair;
        envs.push(pair);
        proof {
            assert(build.envs@.take((k + 1) as int) =~= build.envs@.take(k as int).push(
                build.envs@[k as int],
            ));
            lemma_pair_views_push(e0, pv);
            lemma_pair_views_push(build.envs@.take(k as int), build.envs@[k as int]);
            assert((pv.0@, pv.1@) == (build.envs@[k as int].0@, build.envs@[k as int].1@));
            assert(env_views(envs@) =~= before_extra + env_views(build.envs@.take((k + 1) as int)));
        }
        k = k + 1;
    }
    proof {
        assert(build.envs@.take(build.envs@.len() as int) =~= build.envs@);
        assert(env_views(envs@) =~= cargo_envs_spec(
            root@,
            exe@,
            session_dir@,
            *c,
            build.name@,
            build.index as nat,
            build.threads,
            c.details,
            arg_views(build.rflags@),
            env_views(build.envs@),
            prepare,
        ));
    }
    CommandSpec {
        program: "cargo".to_owned(),
        current_dir: c.bench.cargo_dir.clone(),
        args,
        envs,
    }
}

/// The forwarded compiler command of the wrapper mode: the real
/// compiler (the process's second argument) with every further
/// argument unchanged, plus the detail flags when requested, under the
/// two variables that pin the compiler's own cache hashing so that two
/// builds under test hash alike.
pub fn wrapper_invocation(process_args: &Vec<String>, time_details: bool) -> (r: CommandSpec)
    requires
        process_args@.len() >= 2,
    ensures
        r.program@ == process_args@[1]@,
        arg_views(r.args@) == arg_views(process_args@.skip(2)) + (if time_details {
            seq!["-Ztime-passes"@, "-Ztime-passes-format=json"@]
        } else {
            Seq::<Seq<char>>::empty()
        }),
        env_views(r.envs@) == seq![
            ("RUSTC_FORCE_INCR_COMP_ARTIFACT_HEADER"@, "rustc-rcb"@),
            ("RUSTC_FORCE_RUSTC_VERSION"@, "rustc-rcb"@),
        ],
        r.current_dir@ == "."@,
{
    let mut args: Vec<String> = Vec::new();
    let mut k: usize = 2;
    while k < process_args.len()
        invariant
            2 <= k,
            k <= process_args@.len() || k == 2,
            k >= process_args@.len() ==> arg_views(args@) == arg_views(process_args@.skip(2)),
            k <= process_args@.len() ==> arg_views(args@) == arg_views(
                process_args@.subrange(2, k as int),
            ),
        decreases process_args@.len() - k,
    {
        let ghost a0 = args@;
        args.push(process_args[k].clone());
        proof {
            assert(process_args@.subrange(2, (k + 1) as int) =~= process_args@.subrange(
                2,
                k as int,
            ).push(process_args@[k as int]));
            lemma_views_push(a0, process_args@[k as int]);
            lemma_views_push(process_args@.subrange(2, k as int), process_args@[k as int]);
            assert(arg_views(args@) =~= arg_views(process_args@.subrange(2, (k + 1) as int)));
        }
        k = k + 1;
    }
    proof {
        if process_args@.len() >= 2 {
            assert(process_args@.subrange(2, process_args@.len() as int) =~= process_args@.skip(
                2,
            ));
        }
    }
    let ghost forwarded = arg_views(args@);
    if time_details {
        args.push("-Ztime-passes".to_owned());
        args.push("-Ztime-passes-format=json".to_owned());
    }
    proof {
        assert(arg_views(args@) =~= forwarded + (if time_details {
            seq!["-Ztime-passes"@, "-Ztime-passes-format=json"@]
        } else {
            Seq::<Seq<char>>::empty()
        }));
    }
    let mut envs: Vec<(String, String)> = Vec::new();
    envs.push(("RUSTC_FORCE_INCR_COMP_ARTIFACT_HEADER".to_owned(), "rustc-rcb".to_owned()));
    envs.push(("RUSTC_FORCE_RUSTC_VERSION".to_owned(), "rustc-rcb".to_owned()));
    proof {
        assert(env_views(envs@) =~= seq![
            ("RUSTC_FORCE_INCR_COMP_ARTIFACT_HEADER"@, "rustc-rcb"@),
            ("RUSTC_FORCE_RUSTC_VERSION"@, "rustc-rcb"@),
        ]);
    }
    CommandSpec {
        program: process_args[1].clone(),
        current_dir: ".".to_owned(),
        args,
        envs,
    }
}

} // verus!
