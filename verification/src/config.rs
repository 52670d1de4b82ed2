//! Benchmarks, builds under test, and measurement configurations.

use vstd::prelude::*;
use vstd::string::*;
use crate::modes::{BenchMode, IncrementalMode, incremental_suffix_spec, mode_display_spec};
use crate::strfmt::{chars_of, string_from_chars};

verus! {

/// A benchmark: a name and the project directory the build tool runs in.
pub struct Bench {
    pub name: String,
    pub cargo_dir: String,
}

impl Bench {
    pub fn duplicate(&self) -> (r: Bench)
        ensures
            r == *self,
    {
        Bench { name: self.name.clone(), cargo_dir: self.cargo_dir.clone() }
    }
}

/// One build under test: its stable index, name, and the declared
/// thread/flag/environment overrides.
pub struct BuildConfig {
    pub index: usize,
    pub name: String,
    pub threads: bool,
    pub rflags: Vec<String>,
    pub cflags: Vec<String>,
    pub envs: Vec<(String, String)>,
}

/// One comparison row: a benchmark measured in one compilation mode and
/// one incremental scenario, with or without per-pass detail.
pub struct Config {
    pub details: bool,
    pub incremental: IncrementalMode,
    pub mode: BenchMode,
    pub bench: Bench,
}

/// The display string of a config: `name:mode`, with `:initial` or
/// `:unchanged` appended for the incremental scenarios.  It doubles as
/// the key into the external cost table.
pub open spec fn config_display_spec(c: Config) -> Seq<char> {
    c.bench.name@ + ":"@ + mode_display_spec(c.mode) + incremental_suffix_spec(c.incremental)
}

impl Config {
    pub fn duplicate(&self) -> (r: Config)
        ensures
            r == *self,
    {
        Config {
            details: self.details,
            incremental: self.incremental,
            mode: self.mode,
            bench: self.bench.duplicate(),
        }
    }

    pub fn display(&self) -> (r: String)
        ensures
            r@ == config_display_spec(*self),
    {
        let mut s = self.bench.name.clone();
        s.append(":");
        s.append(self.mode.display());
        match self.incremental {
            IncrementalMode::Initial => s.append(":initial"),
            IncrementalMode::Unchanged => s.append(":unchanged"),
            IncrementalMode::Off => (),
        }
        proof {
            assert(s@ =~= config_display_spec(*self));
        }
        s
    }
}

/// Every `from` character replaced by `to`.
pub open spec fn replace_char_spec(s: Seq<char>, from: char, to: char) -> Seq<char> {
    s.map_values(|c: char| if c == from { to } else { c })
}

pub fn replace_char(s: &str, from: char, to: char) -> (r: String)
    ensures
        r@ == replace_char_spec(s@, from, to),
{
    let cs = chars_of(s);
    let mut out: Vec<char> = Vec::new();
    let mut i: usize = 0;
    while i < cs.len()
        invariant
            i <= cs.len(),
            cs@ == s@,
            out@ == replace_char_spec(s@.subrange(0, i as int), from, to),
        decreases cs.len() - i,
    {
        let c = cs[i];
        if c == from {
            out.push(to);
        } else {
            out.push(c);
        }
        proof {
            assert(out@ =~= replace_char_spec(s@.subrange(0, (i + 1) as int), from, to));
        }
        i = i + 1;
    }
    proof {
        assert(s@.subrange(0, s@.len() as int) =~= s@);
    }
    string_from_chars(&out)
}

} // verus!
