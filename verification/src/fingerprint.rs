//! Fingerprint invalidation: picking exactly which build-metadata cache
//! entries must be deleted so the next run really re-invokes the
//! compiler.  The surrounding application lists the directories and
//! deletes what the plan names; every decision is made here.

use vstd::prelude::*;
use vstd::seq_lib::*;
use crate::errors::BenchError;
use crate::modes::IncrementalMode;
use crate::seqx::lemma_filter_push;
use crate::strfmt::chars_of;

verus! {

/// A cache entry name matches a crate when everything before its final
/// `-` component equals the crate name.
pub open spec fn name_matches_spec(name: Seq<char>, krate: Seq<char>) -> bool {
    exists|i: int|
        0 <= i < name.len() && name[i] == '-' && (forall|j: int|
            i < j < name.len() ==> name[j] != '-') && name.subrange(0, i) == krate
}

/// The views of a sequence of strings.
pub open spec fn views_of(v: Seq<String>) -> Seq<Seq<char>> {
    v.map_values(|s: String| s@)
}

/// Whether one of the names equals `n`.
pub open spec fn contains_view(names: Seq<Seq<char>>, n: Seq<char>) -> bool {
    exists|j: int| 0 <= j < names.len() && names[j] == n
}

pub fn name_matches(name: &str, krate: &str) -> (b: bool)
    ensures
        b == name_matches_spec(name@, krate@),
{
    let nc = chars_of(name);
    let kc = chars_of(krate);
    let mut dash: Option<usize> = Option::None;
    let mut i: usize = 0;
    while i < nc.len()
        invariant
            i <= nc.len(),
            nc@ == name@,
            kc@ == krate@,
            dash is Some ==> 0 <= dash->0 < i && name@[dash->0 as int] == '-' && (forall|j: int|
                dash->0 < j < i ==> name@[j] != '-'),
            dash is None ==> (forall|j: int| 0 <= j < i ==> name@[j] != '-'),
        decreases nc.len() - i,
    {
        if nc[i] == '-' {
            dash = Option::Some(i);
        }
        i = i + 1;
    }
    match dash {
        Option::None => {
            proof {
                if name_matches_spec(name@, krate@) {
                    let w = choose|w: int|
                        0 <= w < name@.len() && name@[w] == '-' && (forall|j: int|
                            w < j < name@.len() ==> name@[j] != '-') && name@.subrange(0, w)
                            == krate@;
                    assert(name@[w] == '-');
                }
            }
            false
        },
        Option::Some(d) => {
            proof {
                // the only possible witness is the final dash
                if name_matches_spec(name@, krate@) {
                    let w = choose|w: int|
                        0 <= w < name@.len() && name@[w] == '-' && (forall|j: int|
                            w < j < name@.len() ==> name@[j] != '-') && name@.subrange(0, w)
                            == krate@;
                    if w < d {
                        assert(name@[d as int] == '-');
                    }
                    if w > d {
                        assert(name@[w] != '-');
                    }
                    assert(w == d);
                }
            }
            if d != kc.len() {
                proof {
                    assert(name@.subrange(0, d as int).len() != krate@.len());
                }
                false
            } else {
                let mut k: usize = 0;
                let mut eq: bool = true;
                while k < d
                    invariant
                        k <= d,
                        d < nc.len(),
                        nc@ == name@,
                        kc@ == krate@,
                        d == kc.len(),
                        eq <==> (forall|j: int| 0 <= j < k ==> name@[j] == krate@[j]),
                    decreases d - k,
                {
                    if nc[k] != kc[k] {
                        eq = false;
                    }
                    k = k + 1;
                }
                proof {
                    if eq {
                        assert(name@.subrange(0, d as int) =~= krate@);
                        assert(name_matches_spec(name@, krate@));
                    } else {
                        let j = choose|j: int| 0 <= j < d && name@[j] != krate@[j];
                        assert(name@.subrange(0, d as int)[j] == name@[j]);
                        assert(name@.subrange(0, d as int) != krate@);
                    }
                }
                eq
            }
        },
    }
}

/// The entry names whose base name (before the final `-hash` component)
/// equals the crate name.
pub fn crate_matches(names: &Vec<String>, krate: &str) -> (r: Vec<String>)
    ensures
        views_of(r@) == views_of(names@).filter(|n: Seq<char>| name_matches_spec(n, krate@)),
{
    let ghost pred = |n: Seq<char>| name_matches_spec(n, krate@);
    let mut r: Vec<String> = Vec::new();
    let mut i: usize = 0;
    while i < names.len()
        invariant
            i <= names.len(),
            pred == (|n: Seq<char>| name_matches_spec(n, krate@)),
            views_of(r@) == views_of(names@.subrange(0, i as int)).filter(pred),
        decreases names.len() - i,
    {
        let ghost prefix = views_of(names@.subrange(0, i as int));
        if name_matches(names[i].as_str(), krate) {
            r.push(names[i].clone());
        }
        proof {
            lemma_filter_push(prefix, names@[i as int]@, pred);
            assert(prefix.push(names@[i as int]@) =~= views_of(names@.subrange(0, (i + 1) as int)));
        }
        i = i + 1;
    }
    proof {
        assert(names@.subrange(0, names@.len() as int) =~= names@);
    }
    r
}

/// Whether the list holds a string equal to `n`.
pub fn contains_name(names: &Vec<String>, n: &String) -> (b: bool)
    ensures
        b == contains_view(views_of(names@), n@),
{
    let mut i: usize = 0;
    while i < names.len()
        invariant
            i <= names.len(),
            forall|j: int| 0 <= j < i ==> views_of(names@)[j] != n@,
        decreases names.len() - i,
    {
        if names[i] == *n {
            proof {
                assert(views_of(names@)[i as int] == names@[i as int]@);
            }
            return true;
        }
        i = i + 1;
    }
    false
}

/// Drops the fingerprint entries that name a build script: a build
/// script can share the package's base name and must not count as the
/// package's own cache entry.
pub fn without_build_scripts(fingerprints: &Vec<String>, build_scripts: &Vec<String>) -> (r: Vec<
    String,
>)
    ensures
        views_of(r@) == views_of(fingerprints@).filter(
            |n: Seq<char>| !contains_view(views_of(build_scripts@), n),
        ),
{
    let ghost pred = |n: Seq<char>| !contains_view(views_of(build_scripts@), n);
    let mut r: Vec<String> = Vec::new();
    let mut i: usize = 0;
    while i < fingerprints.len()
        invariant
            i <= fingerprints.len(),
            pred == (|n: Seq<char>| !contains_view(views_of(build_scripts@), n)),
            views_of(r@) == views_of(fingerprints@.subrange(0, i as int)).filter(pred),
        decreases fingerprints.len() - i,
    {
        let ghost prefix = views_of(fingerprints@.subrange(0, i as int));
        if !contains_name(build_scripts, &fingerprints[i]) {
            r.push(fingerprints[i].clone());
        }
        proof {
            lemma_filter_push(prefix, fingerprints@[i as int]@, pred);
            assert(prefix.push(fingerprints@[i as int]@) =~= views_of(
                fingerprints@.subrange(0, (i + 1) as int),
            ));
        }
        i = i + 1;
    }
    proof {
        assert(fingerprints@.subrange(0, fingerprints@.len() as int) =~= fingerprints@);
    }
    r
}

/// Requires exactly one remaining match: zero matches or more than one
/// would make the measurement untrustworthy, so either is fatal.
pub fn select_fingerprint(found: Vec<String>) -> (r: Result<String, BenchError>)
    ensures
        found@.len() == 0 ==> r == Err::<String, BenchError>(BenchError::FingerprintNotFoundError),
        found@.len() == 1 ==> r is Ok && r->Ok_0@ == found@[0]@,
        found@.len() > 1 ==> r == Err::<String, BenchError>(BenchError::AmbiguousFingerprintError),
{
    if found.len() == 0 {
        Err(BenchError::FingerprintNotFoundError)
    } else if found.len() > 1 {
        Err(BenchError::AmbiguousFingerprintError)
    } else {
        let mut found = found;
        match found.pop() {
            Option::Some(s) => Ok(s),
            Option::None => Err(BenchError::FingerprintNotFoundError),
        }
    }
}

/// What must be deleted before one run.
pub struct InvalidationPlan {
    /// The single matching entry under the build-metadata cache.
    pub fingerprint: String,
    /// For the `Initial` scenario, the single matching entry under the
    /// incremental cache; otherwise nothing.
    pub incremental: Option<String>,
}

/// The fingerprint entries that truly belong to the crate: those whose
/// base name matches, minus the ones that name a build script.
pub open spec fn fingerprint_candidates(
    fingerprint_entries: Seq<Seq<char>>,
    build_script_entries: Seq<Seq<char>>,
    krate: Seq<char>,
) -> Seq<Seq<char>> {
    fingerprint_entries.filter(|n: Seq<char>| name_matches_spec(n, krate)).filter(
        |n: Seq<char>|
            !contains_view(
                build_script_entries.filter(|m: Seq<char>| name_matches_spec(m, krate)),
                n,
            ),
    )
}

/// The incremental-cache entries that match the crate.
pub open spec fn incremental_candidates(
    incremental_entries: Seq<Seq<char>>,
    krate: Seq<char>,
) -> Seq<Seq<char>> {
    incremental_entries.filter(|n: Seq<char>| name_matches_spec(n, krate))
}

/// Decides what one invalidation deletes, from directory listings alone:
/// `fingerprint_entries` from the profile's build-metadata cache,
/// `build_script_entries` from its build-script area, and
/// `incremental_entries` from its incremental cache (consulted only for
/// the `Initial` scenario).  Exactly one true match is required on each
/// consulted listing; zero or several is fatal.
pub fn invalidation_plan(
    fingerprint_entries: &Vec<String>,
    build_script_entries: &Vec<String>,
    incremental_entries: &Vec<String>,
    krate: &str,
    incremental: IncrementalMode,
) -> (r: Result<InvalidationPlan, BenchError>)
    ensures
        ({
            let cand = fingerprint_candidates(
                views_of(fingerprint_entries@),
                views_of(build_script_entries@),
                krate@,
            );
            let inc = incremental_candidates(views_of(incremental_entries@), krate@);
            &&& (cand.len() == 0 ==> r == Err::<InvalidationPlan, BenchError>(
                BenchError::FingerprintNotFoundError,
            ))
            &&& (cand.len() > 1 ==> r == Err::<InvalidationPlan, BenchError>(
                BenchError::AmbiguousFingerprintError,
            ))
            &&& (cand.len() == 1 && incremental != IncrementalMode::Initial ==> r is Ok
                && r->Ok_0.fingerprint@ == cand[0] && r->Ok_0.incremental is None)
            &&& (cand.len() == 1 && incremental == IncrementalMode::Initial ==> {
                &&& (inc.len() == 0 ==> r == Err::<InvalidationPlan, BenchError>(
                    BenchError::FingerprintNotFoundError,
                ))
                &&& (inc.len() > 1 ==> r == Err::<InvalidationPlan, BenchError>(
                    BenchError::AmbiguousFingerprintError,
                ))
                &&& (inc.len() == 1 ==> r is Ok && r->Ok_0.fingerprint@ == cand[0]
                    && r->Ok_0.incremental is Some && r->Ok_0.incremental->0@ == inc[0])
            })
        }),
{
    let build_scripts = crate_matches(build_script_entries, krate);
    let matched = crate_matches(fingerprint_entries, krate);
    let true_matches = without_build_scripts(&matched, &build_scripts);
    let fingerprint = match select_fingerprint(true_matches) {
        Ok(f) => f,
        Err(e) => {
            return Err(e);
        },
    };
    if incremental == IncrementalMode::Initial {
        let inc_matches = crate_matches(incremental_entries, krate);
        let inc = match select_fingerprint(inc_matches) {
            Ok(f) => f,
            Err(e) => {
                return Err(e);
            },
        };
        Ok(InvalidationPlan { fingerprint, incremental: Option::Some(inc) })
    } else {
        Ok(InvalidationPlan { fingerprint, incremental: Option::None })
    }
}

} // verus!
