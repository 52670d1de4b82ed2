//! Compilation modes and incremental-compilation scenarios.

use vstd::prelude::*;

verus! {

/// Which build-tool subcommand a measurement uses, and thereby which
/// output profile directory it writes to.
#[derive(Clone, Copy, PartialEq, Eq, Structural, Debug)]
pub enum BenchMode {
    Check,
    Debug,
    Release,
}

/// How much incremental-compilation state an iteration may reuse.
#[derive(Clone, Copy, PartialEq, Eq, Structural, Debug)]
pub enum IncrementalMode {
    Off,
    Initial,
    Unchanged,
}

pub open spec fn mode_display_spec(m: BenchMode) -> Seq<char> {
    match m {
        BenchMode::Check => "check"@,
        BenchMode::Debug => "debug"@,
        BenchMode::Release => "release"@,
    }
}

/// The profile directory the build tool writes under for this mode.
pub open spec fn mode_profile_spec(m: BenchMode) -> Seq<char> {
    match m {
        BenchMode::Check => "debug"@,
        BenchMode::Debug => "debug"@,
        BenchMode::Release => "release"@,
    }
}

impl BenchMode {
    pub fn display(&self) -> (r: &'static str)
        ensures
            r@ == mode_display_spec(*self),
    {
        match self {
            BenchMode::Check => "check",
            BenchMode::Debug => "debug",
            BenchMode::Release => "release",
        }
    }

    /// The profile directory name under the target directory.
    pub fn profile_dir(&self) -> (r: &'static str)
        ensures
            r@ == mode_profile_spec(*self),
    {
        match self {
            BenchMode::Check => "debug",
            BenchMode::Debug => "debug",
            BenchMode::Release => "release",
        }
    }
}

pub open spec fn incremental_suffix_spec(m: IncrementalMode) -> Seq<char> {
    match m {
        IncrementalMode::Off => Seq::empty(),
        IncrementalMode::Initial => ":initial"@,
        IncrementalMode::Unchanged => ":unchanged"@,
    }
}

} // verus!
