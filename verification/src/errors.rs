//! The error taxonomy of the engine.  Every variant is fatal to the
//! whole session: a measurement set is only meaningful when each
//! contributing measurement is individually trustworthy, so nothing is
//! recovered locally.

use vstd::prelude::*;

verus! {

#[derive(Clone, Copy, PartialEq, Eq, Structural, Debug)]
pub enum BenchError {
    /// A bad or missing build or benchmark selection, before any run.
    ConfigurationError,
    /// A non-zero exit during the untimed priming pass.
    PrepareFailure,
    /// A non-zero exit during a timed run.
    RunFailure,
    /// No cache entry matched during fingerprint invalidation.
    FingerprintNotFoundError,
    /// More than one cache entry matched during fingerprint invalidation.
    AmbiguousFingerprintError,
    /// Zero or multiple timing-marker lines came out of a wrapped run,
    /// or a per-pass detail line was malformed.
    ProtocolError,
}

impl BenchError {
    /// A short human-readable name for diagnostics.
    pub fn message(&self) -> (r: &'static str)
        ensures
            *self is ConfigurationError ==> r@ == "bad build or benchmark selection"@,
            *self is PrepareFailure ==> r@ == "unable to prepare instance"@,
            *self is RunFailure ==> r@ == "unable to run instance"@,
            *self is FingerprintNotFoundError ==> r@ == "no fingerprint found for crate"@,
            *self is AmbiguousFingerprintError ==> r@ == "more than one fingerprint found for crate"@,
            *self is ProtocolError ==> r@ == "unexpected timing output from wrapped run"@,
    {
        match self {
            BenchError::ConfigurationError => "bad build or benchmark selection",
            BenchError::PrepareFailure => "unable to prepare instance",
            BenchError::RunFailure => "unable to run instance",
            BenchError::FingerprintNotFoundError => "no fingerprint found for crate",
            BenchError::AmbiguousFingerprintError => "more than one fingerprint found for crate",
            BenchError::ProtocolError => "unexpected timing output from wrapped run",
        }
    }
}

} // verus!
