//! Benchmark execution engine for comparing compiler builds.
//!
//! The library turns a cross-product of (benchmark, compilation mode,
//! incremental scenario, build under test) into scheduled, isolated,
//! repeatable timed runs, aggregates the results, and renders a
//! continuously updating terminal dashboard.  Everything that reads or
//! writes the outside world (processes, files, clocks, the terminal)
//! lives in the surrounding application; this crate holds the decisions,
//! the protocols and the arithmetic, each with a verified contract.

pub mod cmd;
pub mod config;
pub mod describe;
pub mod detail;
pub mod display;
pub mod engine;
pub mod errors;
pub mod expand;
pub mod fingerprint;
pub mod instance;
pub mod modes;
pub mod protocol;
pub mod quiesce;
pub mod sched;
pub mod seqx;
pub mod state;
pub mod stats;
pub mod strfmt;
pub mod term;
