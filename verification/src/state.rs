//! The immutable session context: where the harness executable and its
//! root directory live, the configured repositories, and the
//! configured default iteration count.  Constructed once at startup
//! from the configuration the application loaded, then passed by
//! reference to every component.

use vstd::prelude::*;
use crate::errors::BenchError;

verus! {

/// One configured source repository.
pub struct Repo {
    pub path: String,
    pub default_repo: Option<bool>,
}

/// The session context.
pub struct State {
    /// This harness's own executable (re-executed in wrapper mode).
    pub exe: String,
    /// The root under which builds, benchmarks and reports live.
    pub root: String,
    /// The configured default iteration count, when one is set.
    pub iterations: Option<usize>,
    /// The configured repositories, by name.
    pub repos: Vec<(String, Repo)>,
    pub verbose: bool,
}

/// Whether a repository of that name is configured.
pub open spec fn has_repo(repos: Seq<(String, Repo)>, name: Seq<char>) -> bool {
    exists|j: int| 0 <= j < repos.len() && (#[trigger] repos[j]).0@ == name
}

/// The path of the first repository of that name.
pub open spec fn repo_path_spec(repos: Seq<(String, Repo)>, name: Seq<char>) -> Seq<char>
    decreases repos.len(),
{
    if repos.len() == 0 {
        Seq::empty()
    } else if repos[0].0@ == name {
        repos[0].1.path@
    } else {
        repo_path_spec(repos.drop_first(), name)
    }
}

/// Whether a repository is marked as the default.
pub open spec fn is_default_repo(r: Repo) -> bool {
    r.default_repo == Option::Some(true)
}

impl State {
    /// The path of the named repository; nothing when none of that
    /// name is configured.
    pub fn repo_path(&self, name: &String) -> (r: Option<String>)
        ensures
            r is Some <==> has_repo(self.repos@, name@),
            r is Some ==> r->0@ == repo_path_spec(self.repos@, name@),
    {
        let mut j: usize = 0;
        proof {
            assert(self.repos@.skip(0) =~= self.repos@);
        }
        while j < self.repos.len()
            invariant
                j <= self.repos@.len(),
                forall|k: int| 0 <= k < j ==> (#[trigger] self.repos@[k]).0@ != name@,
                repo_path_spec(self.repos@, name@) == repo_path_spec(
                    self.repos@.skip(j as int),
                    name@,
                ),
            decreases self.repos@.len() - j,
        {
            proof {
                assert(self.repos@.skip(j as int)[0] == self.repos@[j as int]);
                assert(self.repos@.skip(j as int).drop_first() =~= self.repos@.skip(
                    (j + 1) as int,
                ));
            }
            if self.repos[j].0 == *name {
                return Option::Some(self.repos[j].1.path.clone());
            }
            j = j + 1;
        }
        proof {
            if has_repo(self.repos@, name@) {
                let w = choose|w: int|
                    0 <= w < self.repos@.len() && (#[trigger] self.repos@[w]).0@ == name@;
                assert(self.repos@[w].0@ != name@);
            }
        }
        Option::None
    }

    /// Accepts a repository name exactly when it is configured.
    pub fn repo(&self, name: String) -> (r: Result<String, BenchError>)
        ensures
            r is Ok <==> has_repo(self.repos@, name@),
            r is Ok ==> r->Ok_0@ == name@,
            r is Err ==> r == Err::<String, BenchError>(BenchError::ConfigurationError),
    {
        match self.repo_path(&name) {
            Option::Some(p) => Ok(name),
            Option::None => Err(BenchError::ConfigurationError),
        }
    }

    /// The single repository marked as default.  No default, or more
    /// than one, is a configuration error.
    pub fn default_repo(&self) -> (r: Result<String, BenchError>)
        ensures
            ({
                let marked = self.repos@.filter(|e: (String, Repo)| is_default_repo(e.1));
                &&& (marked.len() == 1 <==> r is Ok)
                &&& (marked.len() == 1 ==> r->Ok_0@ == marked[0].0@)
                &&& (marked.len() != 1 ==> r == Err::<String, BenchError>(
                    BenchError::ConfigurationError,
                ))
            }),
    {
        let ghost pred = |e: (String, Repo)| is_default_repo(e.1);
        let mut found: Option<String> = Option::None;
        let mut count: usize = 0;
        let mut j: usize = 0;
        proof {
            assert(self.repos@.take(0) =~= Seq::<(String, Repo)>::empty());
            assert(Seq::<(String, Repo)>::empty().filter(pred) =~= Seq::<(String, Repo)>::empty())
                by {
                reveal(Seq::filter);
            }
        }
        while j < self.repos.len()
            invariant
                j <= self.repos@.len(),
                pred == (|e: (String, Repo)| is_default_repo(e.1)),
                count <= j,
                count == self.repos@.take(j as int).filter(pred).len(),
                count > 0 <==> found is Some,
                count > 0 ==> found->0@ == self.repos@.take(j as int).filter(pred)[0].0@,
            decreases self.repos@.len() - j,
        {
            proof {
                crate::seqx::lemma_filter_push(
                    self.repos@.take(j as int),
                    self.repos@[j as int],
                    pred,
                );
                assert(self.repos@.take(j as int).push(self.repos@[j as int])
                    =~= self.repos@.take((j + 1) as int));
            }
            let is_marked = match self.repos[j].1.default_repo {
                Option::Some(b) => b,
                Option::None => false,
            };
            if is_marked {
                if count == 0 {
                    found = Option::Some(self.repos[j].0.clone());
                }
                count = count + 1;
            }
            j = j + 1;
        }
        proof {
            assert(self.repos@.take(self.repos@.len() as int) =~= self.repos@);
        }
        if count == 1 {
            match found {
                Option::Some(name) => Ok(name),
                Option::None => Err(BenchError::ConfigurationError),
            }
        } else {
            Err(BenchError::ConfigurationError)
        }
    }
}

} // verus!
