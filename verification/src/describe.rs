//! The build listing printed at session start: one headline per build
//! under test with its name, commit and on-disk size, and one line per
//! declared override.

use vstd::prelude::*;
use vstd::string::*;
use crate::config::BuildConfig;
use crate::seqx::lemma_views_push;
use crate::strfmt::dec_digits;
use crate::strfmt::format_u64;

verus! {

/// What `kib::fmt` returns for a byte count: a human-readable size
/// such as `1.50 KiB`, a function of the count alone.
pub uninterp spec fn kib_display(bytes: u64) -> Seq<char>;

/// Relies on kib::fmt: formats a byte count into a human-readable
/// size string, from the count alone.
#[verifier::external_body]
fn format_size(bytes: u64) -> (r: String)
    ensures
        r@ == kib_display(bytes),
{
    kib::fmt(bytes)
}

/// The headline of one build in the session's opening listing.
pub open spec fn build_headline_spec(
    index: nat,
    name: Seq<char>,
    commit: Seq<char>,
    size: u64,
) -> Seq<char> {
    "Build #"@ + dec_digits(index + 1) + " "@ + name + " ("@ + commit + " "@ + kib_display(size)
        + ")"@
}

/// `Build #<n> <name> (<commit> <size>)`, numbering builds from one.
pub fn build_headline(index: usize, name: &str, commit: &str, size: u64) -> (r: String)
    requires
        index < usize::MAX,
    ensures
        r@ == build_headline_spec(index as nat, name@, commit@, size),
{
    let mut s = "Build #".to_owned();
    let num = format_u64((index as u64) + 1);
    s.append(num.as_str());
    s.append(" ");
    s.append(name);
    s.append(" (");
    s.append(commit);
    s.append(" ");
    let size_str = format_size(size);
    s.append(size_str.as_str());
    s.append(")");
    proof {
        assert(s@ =~= build_headline_spec(index as nat, name@, commit@, size));
    }
    s
}

/// The override lines of one build: the thread-count note when the
/// build keeps its own thread count, then one line per compiler flag,
/// build-tool flag, and environment variable, in declaration order.
pub open spec fn build_option_lines_spec(b: BuildConfig) -> Seq<Seq<char>> {
    (if b.threads {
        seq!["    Default thread count"@]
    } else {
        Seq::<Seq<char>>::empty()
    }) + b.rflags@.map_values(|f: String| "    rustc:"@ + f@) + b.cflags@.map_values(
        |f: String| "    cargo:"@ + f@,
    ) + b.envs@.map_values(|e: (String, String)| "    env:"@ + e.0@ + " = "@ + e.1@)
}

pub fn build_option_lines(b: &BuildConfig) -> (r: Vec<String>)
    ensures
        r@.map_values(|s: String| s@) == build_option_lines_spec(*b),
{
    let mut out: Vec<String> = Vec::new();
    if b.threads {
        out.push("    Default thread count".to_owned());
    }
    let ghost head = out@.map_values(|s: String| s@);
    proof {
        assert(head =~= (if b.threads {
            seq!["    Default thread count"@]
        } else {
            Seq::<Seq<char>>::empty()
        }));
    }
    let mut k: usize = 0;
    while k < b.rflags.len()
        invariant
            k <= b.rflags@.len(),
            out@.map_values(|s: String| s@) == head + b.rflags@.take(k as int).map_values(
                |f: String| "    rustc:"@ + f@,
            ),
        decreases b.rflags@.len() - k,
    {
        let ghost o0 = out@;
        let mut line = "    rustc:".to_owned();
        line.append(b.rflags[k].as_str());
        let ghost lv = line@;
        out.push(line);
        proof {
            lemma_views_push(o0, out@.last());
            assert(b.rflags@.take((k + 1) as int) =~= b.rflags@.take(k as int).push(
                b.rflags@[k as int],
            ));
            assert(b.rflags@.take((k + 1) as int).map_values(|f: String| "    rustc:"@ + f@)
                =~= b.rflags@.take(k as int).map_values(|f: String| "    rustc:"@ + f@).push(
                "    rustc:"@ + b.rflags@[k as int]@,
            ));
            assert(out@.map_values(|s: String| s@) =~= head + b.rflags@.take(
                (k + 1) as int,
            ).map_values(|f: String| "    rustc:"@ + f@));
        }
        k = k + 1;
    }
    let ghost after_r = out@.map_values(|s: String| s@);
    proof {
        assert(b.rflags@.take(b.rflags@.len() as int) =~= b.rflags@);
    }
    let mut k: usize = 0;
    while k < b.cflags.len()
        invariant
            k <= b.cflags@.len(),
            after_r == head + b.rflags@.map_values(|f: String| "    rustc:"@ + f@),
            out@.map_values(|s: String| s@) == after_r + b.cflags@.take(k as int).map_values(
                |f: String| "    cargo:"@ + f@,
            ),
        decreases b.cflags@.len() - k,
    {
        let ghost o0 = out@;
        let mut line = "    cargo:".to_owned();
        line.append(b.cflags[k].as_str());
        out.push(line);
        proof {
            lemma_views_push(o0, out@.last());
            assert(b.cflags@.take((k + 1) as int) =~= b.cflags@.take(k as int).push(
                b.cflags@[k as int],
            ));
            assert(b.cflags@.take((k + 1) as int).map_values(|f: String| "    cargo:"@ + f@)
                =~= b.cflags@.take(k as int).map_values(|f: String| "    cargo:"@ + f@).push(
                "    cargo:"@ + b.cflags@[k as int]@,
            ));
            assert(out@.map_values(|s: String| s@) =~= after_r + b.cflags@.take(
                (k + 1) as int,
            ).map_values(|f: String| "    cargo:"@ + f@));
        }
        k = k + 1;
    }
    let ghost after_c = out@.map_values(|s: String| s@);
    proof {
        assert(b.cflags@.take(b.cflags@.len() as int) =~= b.cflags@);
    }
    let mut k: usize = 0;
    while k < b.envs.len()
        invariant
            k <= b.envs@.len(),
            after_c == head + b.rflags@.map_values(|f: String| "    rustc:"@ + f@)
                + b.cflags@.map_values(|f: String| "    cargo:"@ + f@),
            out@.map_values(|s: String| s@) == after_c + b.envs@.take(k as int).map_values(
                |e: (String, String)| "    env:"@ + e.0@ + " = "@ + e.1@,
            ),
        decreases b.envs@.len() - k,
    {
        let ghost o0 = out@;
        let mut line = "    env:".to_owned();
        line.append(b.envs[k].0.as_str());
        line.append(" = ");
        line.append(b.envs[k].1.as_str());
        out.push(line);
        proof {
            lemma_views_push(o0, out@.last());
            assert(out@.last()@ =~= "    env:"@ + b.envs@[k as int].0@ + " = "@ + b.envs@[
                k as int].1@);
            assert(b.envs@.take((k + 1) as int) =~= b.envs@.take(k as int).push(
                b.envs@[k as int],
            ));
            assert(b.envs@.take((k + 1) as int).map_values(
                |e: (String, String)| "    env:"@ + e.0@ + " = "@ + e.1@,
            ) =~= b.envs@.take(k as int).map_values(
                |e: (String, String)| "    env:"@ + e.0@ + " = "@ + e.1@,
            ).push("    env:"@ + b.envs@[k as int].0@ + " = "@ + b.envs@[k as int].1@));
            assert(out@.map_values(|s: String| s@) =~= after_c + b.envs@.take(
                (k + 1) as int,
            ).map_values(|e: (String, String)| "    env:"@ + e.0@ + " = "@ + e.1@));
        }
        k = k + 1;
    }
    proof {
        assert(b.envs@.take(b.envs@.len() as int) =~= b.envs@);
        assert(out@.map_values(|s: String| s@) =~= build_option_lines_spec(*b));
    }
    out
}

} // verus!
