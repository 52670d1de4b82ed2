//! The measurement wrapper protocol: one line on the wrapped compiler's
//! error stream carries the elapsed time of the real compiler process,
//! as `rcb-rustc-timer:<integer microseconds>`.  The run loop scans the
//! captured stream and requires exactly one such line; zero or several
//! means the environment is contaminated and the session must abort.

use vstd::prelude::*;
use vstd::seq_lib::*;
use crate::detail::PassSample;
use crate::errors::BenchError;
use crate::seqx::lemma_filter_push;
use crate::strfmt::{chars_of, dec_digits, digit_char, format_u64, string_from_chars};

verus! {

/// The private marker that introduces a timing line.
pub open spec fn marker_spec() -> Seq<char> {
    "rcb-rustc-timer:"@
}

pub fn marker_prefix() -> (r: &'static str)
    ensures
        r@ == marker_spec(),
{
    "rcb-rustc-timer:"
}

/// The single line the wrapper emits after the real compiler exits.
pub fn marker_line(micros: u64) -> (r: String)
    ensures
        r@ == marker_spec() + dec_digits(micros as nat),
{
    let mut s = String::new();
    s.append(marker_prefix());
    let digits = format_u64(micros);
    s.append(digits.as_str());
    s
}

/// The stream cut at every newline; a trailing newline opens no final
/// empty line.
pub open spec fn split_lines_spec(s: Seq<char>) -> Seq<Seq<char>>
    decreases s.len(),
{
    if s.len() == 0 {
        Seq::empty()
    } else {
        match s.index_of_first('\n') {
            Option::Some(i) => if 0 <= i < s.len() {
                seq![s.subrange(0, i)] + split_lines_spec(s.subrange(i + 1, s.len() as int))
            } else {
                seq![s]
            },
            Option::None => seq![s],
        }
    }
}

proof fn lemma_split_no_newline(u: Seq<char>)
    requires
        !u.contains('\n'),
    ensures
        split_lines_spec(u) == if u.len() == 0 {
            Seq::<Seq<char>>::empty()
        } else {
            seq![u]
        },
{
    if u.len() > 0 {
        u.index_of_first_ensures('\n');
    }
}

proof fn lemma_split_at_newline(u: Seq<char>, v: Seq<char>)
    requires
        !u.contains('\n'),
        v.len() > 0,
        v[0] == '\n',
    ensures
        split_lines_spec(u + v) == seq![u] + split_lines_spec(v.drop_first()),
{
    let w = u + v;
    assert(w.len() > 0);
    assert(w[u.len() as int] == '\n');
    assert(w.contains('\n'));
    w.index_of_first_ensures('\n');
    let i = w.index_of_first('\n')->0;
    if i < u.len() {
        assert(w[i] == u[i]);
        assert(u.contains('\n'));
    }
    if i > u.len() {
        assert(w[u.len() as int] != '\n');
    }
    assert(i == u.len());
    assert(w.subrange(0, i) =~= u);
    assert(w.subrange(i + 1, w.len() as int) =~= v.drop_first());
}

/// Cuts the character stream into lines at every `\n`.
pub fn split_lines(s: &Vec<char>) -> (r: Vec<Vec<char>>)
    ensures
        r@.map_values(|l: Vec<char>| l@) == split_lines_spec(s@),
{
    let mut r: Vec<Vec<char>> = Vec::new();
    let mut cur: Vec<char> = Vec::new();
    let mut i: usize = 0;
    proof {
        assert(cur@ + s@.skip(0) =~= s@);
        assert(r@.map_values(|l: Vec<char>| l@) + split_lines_spec(s@) =~= split_lines_spec(s@));
    }
    while i < s.len()
        invariant
            i <= s.len(),
            !cur@.contains('\n'),
            split_lines_spec(s@) == r@.map_values(|l: Vec<char>| l@) + split_lines_spec(
                cur@ + s@.skip(i as int),
            ),
        decreases s.len() - i,
    {
        let c = s[i];
        if c == '\n' {
            proof {
                lemma_split_at_newline(cur@, s@.skip(i as int));
                assert(s@.skip(i as int).drop_first() =~= s@.skip((i + 1) as int));
                assert((r@.map_values(|l: Vec<char>| l@)).push(cur@) =~= r@.push(
                    cur,
                ).map_values(|l: Vec<char>| l@));
                assert(r@.map_values(|l: Vec<char>| l@) + (seq![cur@] + split_lines_spec(
                    s@.skip((i + 1) as int),
                )) =~= (r@.map_values(|l: Vec<char>| l@)).push(cur@) + split_lines_spec(
                    s@.skip((i + 1) as int),
                ));
            }
            r.push(cur);
            cur = Vec::new();
            proof {
                assert(cur@ + s@.skip((i + 1) as int) =~= s@.skip((i + 1) as int));
            }
        } else {
            proof {
                assert(cur@.push(c) + s@.skip((i + 1) as int) =~= cur@ + s@.skip(i as int));
            }
            cur.push(c);
        }
        i = i + 1;
    }
    proof {
        assert(cur@ + s@.skip(i as int) =~= cur@);
        lemma_split_no_newline(cur@);
    }
    if cur.len() > 0 {
        proof {
            assert((r@.map_values(|l: Vec<char>| l@)).push(cur@) =~= r@.push(cur).map_values(
                |l: Vec<char>| l@,
            ));
            assert(r@.map_values(|l: Vec<char>| l@) + seq![cur@] =~= (r@.map_values(
                |l: Vec<char>| l@,
            )).push(cur@));
        }
        r.push(cur);
    } else {
        proof {
            assert(r@.map_values(|l: Vec<char>| l@) + Seq::<Seq<char>>::empty() =~= r@.map_values(
                |l: Vec<char>| l@,
            ));
        }
    }
    r
}

/// The whitespace a line is trimmed of.
pub open spec fn is_space_char(c: char) -> bool {
    c == ' ' || c == '\t' || c == '\r'
}

pub open spec fn trim_front_spec(s: Seq<char>) -> Seq<char>
    decreases s.len(),
{
    if s.len() > 0 && is_space_char(s[0]) {
        trim_front_spec(s.drop_first())
    } else {
        s
    }
}

pub open spec fn trim_back_spec(s: Seq<char>) -> Seq<char>
    decreases s.len(),
{
    if s.len() > 0 && is_space_char(s.last()) {
        trim_back_spec(s.drop_last())
    } else {
        s
    }
}

/// The line without leading and trailing spaces, tabs and carriage
/// returns.
pub open spec fn trim_spec(s: Seq<char>) -> Seq<char> {
    trim_back_spec(trim_front_spec(s))
}

proof fn lemma_trim_front_skip(s: Seq<char>, a: int)
    requires
        0 <= a <= s.len(),
        forall|j: int| 0 <= j < a ==> is_space_char(s[j]),
        a < s.len() ==> !is_space_char(s[a]),
    ensures
        trim_front_spec(s) == s.skip(a),
    decreases a,
{
    if a == 0 {
        assert(s.skip(0) =~= s);
    } else {
        assert(is_space_char(s[0]));
        lemma_trim_front_skip(s.drop_first(), a - 1);
        assert(s.drop_first().skip(a - 1) =~= s.skip(a));
    }
}

proof fn lemma_trim_back_take(s: Seq<char>, b: int)
    requires
        0 <= b <= s.len(),
        forall|j: int| b <= j < s.len() ==> is_space_char(s[j]),
        b > 0 ==> !is_space_char(s[b - 1]),
    ensures
        trim_back_spec(s) == s.take(b),
    decreases s.len() - b,
{
    if b == s.len() {
        assert(s.take(b) =~= s);
        if s.len() > 0 && is_space_char(s.last()) {
            assert(!is_space_char(s[b - 1]));
        }
    } else {
        assert(is_space_char(s.last()));
        lemma_trim_back_take(s.drop_last(), b);
        assert(s.drop_last().take(b) =~= s.take(b));
    }
}

pub fn is_space_c(c: char) -> (b: bool)
    ensures
        b == is_space_char(c),
{
    c == ' ' || c == '\t' || c == '\r'
}

/// Removes leading and trailing whitespace of a line.
pub fn trim_chars(s: &Vec<char>) -> (r: Vec<char>)
    ensures
        r@ == trim_spec(s@),
{
    let mut a: usize = 0;
    while a < s.len() && is_space_c(s[a])
        invariant
            a <= s.len(),
            forall|j: int| 0 <= j < a ==> is_space_char(s@[j]),
        decreases s.len() - a,
    {
        a = a + 1;
    }
    let mut b: usize = s.len();
    while b > a && is_space_c(s[b - 1])
        invariant
            a <= b <= s.len(),
            forall|j: int| b <= j < s.len() ==> is_space_char(s@[j]),
        decreases b,
    {
        b = b - 1;
    }
    let mut out: Vec<char> = Vec::new();
    let mut k: usize = a;
    while k < b
        invariant
            a <= k <= b <= s.len(),
            out@ == s@.subrange(a as int, k as int),
        decreases b - k,
    {
        out.push(s[k]);
        proof {
            assert(out@ =~= s@.subrange(a as int, (k + 1) as int));
        }
        k = k + 1;
    }
    proof {
        lemma_trim_front_skip(s@, a as int);
        if b == a {
            // everything from `a` on is space, or the line is empty there
            lemma_trim_back_take(s@.skip(a as int), 0);
        } else {
            assert(!is_space_char(s@[b - 1]));
            lemma_trim_back_take(s@.skip(a as int), b - a);
        }
        assert(s@.skip(a as int).take(b - a) =~= s@.subrange(a as int, b as int));
        assert(out@ =~= trim_spec(s@));
    }
    out
}

/// Whether `p` opens `s`.
pub open spec fn has_prefix(s: Seq<char>, p: Seq<char>) -> bool {
    s.len() >= p.len() && s.subrange(0, p.len() as int) == p
}

pub fn starts_with_chars(s: &Vec<char>, p: &Vec<char>) -> (b: bool)
    ensures
        b == has_prefix(s@, p@),
{
    if s.len() < p.len() {
        proof {
            assert(!has_prefix(s@, p@));
        }
        return false;
    }
    let mut i: usize = 0;
    while i < p.len()
        invariant
            i <= p.len() <= s.len(),
            forall|j: int| 0 <= j < i ==> s@[j] == p@[j],
        decreases p.len() - i,
    {
        if s[i] != p[i] {
            proof {
                assert(s@.subrange(0, p@.len() as int)[i as int] == s@[i as int]);
            }
            return false;
        }
        i = i + 1;
    }
    proof {
        assert(s@.subrange(0, p@.len() as int) =~= p@);
    }
    true
}

/// Decimal digits.
pub open spec fn is_digit_char(c: char) -> bool {
    48 <= c as u32 <= 57
}

pub open spec fn digit_val(c: char) -> int {
    c as u32 - 48
}

pub open spec fn all_digits(s: Seq<char>) -> bool {
    forall|i: int| 0 <= i < s.len() ==> is_digit_char(s[i])
}

/// The value of a string of decimal digits.
pub open spec fn digits_val(s: Seq<char>) -> int
    decreases s.len(),
{
    if s.len() == 0 {
        0
    } else {
        digits_val(s.drop_last()) * 10 + digit_val(s.last())
    }
}

proof fn lemma_digits_val_nonneg(s: Seq<char>)
    requires
        all_digits(s),
    ensures
        digits_val(s) >= 0,
    decreases s.len(),
{
    if s.len() > 0 {
        assert(all_digits(s.drop_last()));
        lemma_digits_val_nonneg(s.drop_last());
    }
}

proof fn lemma_digits_val_take_le(s: Seq<char>, i: int)
    requires
        all_digits(s),
        0 <= i <= s.len(),
    ensures
        digits_val(s.take(i)) <= digits_val(s),
    decreases s.len() - i,
{
    if i == s.len() {
        assert(s.take(i) =~= s);
    } else {
        lemma_digits_val_take_le(s, i + 1);
        assert(s.take(i + 1).drop_last() =~= s.take(i));
        assert(s.take(i + 1).last() == s[i]);
        assert(all_digits(s.take(i)));
        lemma_digits_val_nonneg(s.take(i));
        assert(digits_val(s.take(i + 1)) == digits_val(s.take(i)) * 10 + digit_val(s[i]));
    }
}

/// Whether a digit string is a valid `u64`: non-empty, all digits, and
/// within range.
pub open spec fn parses_u64(s: Seq<char>) -> bool {
    s.len() > 0 && all_digits(s) && digits_val(s) <= u64::MAX
}

/// Reads a decimal `u64`; every failure (empty, a non-digit, overflow)
/// is `None`.
pub fn parse_u64_chars(s: &Vec<char>) -> (r: Option<u64>)
    ensures
        r is Some <==> parses_u64(s@),
        r is Some ==> r->0 == digits_val(s@),
{
    if s.len() == 0 {
        return Option::None;
    }
    let mut acc: u64 = 0;
    let mut i: usize = 0;
    while i < s.len()
        invariant
            i <= s.len(),
            s@.len() > 0,
            all_digits(s@.take(i as int)),
            acc == digits_val(s@.take(i as int)),
        decreases s.len() - i,
    {
        let c = s[i];
        let cv = c as u32;
        if cv < 48 || cv > 57 {
            proof {
                assert(!is_digit_char(s@[i as int]));
            }
            return Option::None;
        }
        let d: u64 = (cv - 48) as u64;
        let shifted = match acc.checked_mul(10) {
            Option::Some(v) => v,
            Option::None => {
                proof {
                    assert(all_digits(s@.take((i + 1) as int)));
                    assert(s@.take((i + 1) as int).drop_last() =~= s@.take(i as int));
                    assert(digits_val(s@.take((i + 1) as int)) == acc * 10 + digit_val(
                        s@[i as int],
                    ));
                    if all_digits(s@) {
                        lemma_digits_val_take_le(s@, i + 1);
                    }
                }
                return Option::None;
            },
        };
        let next = match shifted.checked_add(d) {
            Option::Some(v) => v,
            Option::None => {
                proof {
                    assert(all_digits(s@.take((i + 1) as int)));
                    assert(s@.take((i + 1) as int).drop_last() =~= s@.take(i as int));
                    assert(digits_val(s@.take((i + 1) as int)) == acc * 10 + digit_val(
                        s@[i as int],
                    ));
                    if all_digits(s@) {
                        lemma_digits_val_take_le(s@, i + 1);
                    }
                }
                return Option::None;
            },
        };
        proof {
            assert(s@.take((i + 1) as int).drop_last() =~= s@.take(i as int));
            assert(all_digits(s@.take((i + 1) as int)));
        }
        acc = next;
        i = i + 1;
    }
    proof {
        assert(s@.take(s@.len() as int) =~= s@);
    }
    Option::Some(acc)
}

/// What stands after the last `:` of the line (the whole line when it
/// has none).
pub open spec fn after_last_colon(s: Seq<char>) -> Seq<char> {
    match s.index_of_last(':') {
        Option::Some(i) => if 0 <= i < s.len() {
            s.subrange(i + 1, s.len() as int)
        } else {
            s
        },
        Option::None => s,
    }
}

pub fn suffix_after_last_colon(s: &Vec<char>) -> (r: Vec<char>)
    ensures
        r@ == after_last_colon(s@),
{
    let mut colon: Option<usize> = Option::None;
    let mut i: usize = 0;
    while i < s.len()
        invariant
            i <= s.len(),
            colon is Some ==> 0 <= colon->0 < i && s@[colon->0 as int] == ':' && (forall|j: int|
                colon->0 < j < i ==> s@[j] != ':'),
            colon is None ==> (forall|j: int| 0 <= j < i ==> s@[j] != ':'),
        decreases s.len() - i,
    {
        if s[i] == ':' {
            colon = Option::Some(i);
        }
        i = i + 1;
    }
    proof {
        s@.index_of_last_ensures(':');
    }
    match colon {
        Option::None => {
            proof {
                if s@.contains(':') {
                    let k = choose|k: int| 0 <= k < s@.len() && s@[k] == ':';
                    assert(s@[k] != ':');
                }
                assert(s@.index_of_last(':') is None);
            }
            let mut out: Vec<char> = Vec::new();
            let mut k: usize = 0;
            while k < s.len()
                invariant
                    k <= s.len(),
                    out@ == s@.subrange(0, k as int),
                decreases s.len() - k,
            {
                out.push(s[k]);
                proof {
                    assert(out@ =~= s@.subrange(0, (k + 1) as int));
                }
                k = k + 1;
            }
            proof {
                assert(out@ =~= s@);
            }
            out
        },
        Option::Some(c) => {
            proof {
                assert(s@.contains(':'));
                let l = s@.index_of_last(':')->0;
                if l < c {
                    assert(s@[c as int] == ':');
                }
                if l > c {
                    assert(s@[l] != ':');
                }
                assert(l == c);
            }
            let mut out: Vec<char> = Vec::new();
            let mut k: usize = c + 1;
            while k < s.len()
                invariant
                    c + 1 <= k <= s.len(),
                    out@ == s@.subrange(c + 1 as int, k as int),
                decreases s.len() - k,
            {
                out.push(s[k]);
                proof {
                    assert(out@ =~= s@.subrange(c + 1 as int, (k + 1) as int));
                }
                k = k + 1;
            }
            out
        },
    }
}

/// The trimmed lines of the stream that open with the timing marker.
pub open spec fn marker_lines_spec(stderr: Seq<char>) -> Seq<Seq<char>> {
    split_lines_spec(stderr).map_values(|l: Seq<char>| trim_spec(l)).filter(
        |l: Seq<char>| has_prefix(l, marker_spec()),
    )
}

/// Whether a stream carries exactly one well-formed timing line, and if
/// so which duration (in microseconds) it reports.
pub open spec fn timer_result_spec(stderr: Seq<char>) -> Option<int> {
    let ms = marker_lines_spec(stderr);
    if ms.len() == 1 && parses_u64(after_last_colon(ms[0])) {
        Option::Some(digits_val(after_last_colon(ms[0])))
    } else {
        Option::None
    }
}

/// Scans a captured error stream for the wrapper's timing marker.
/// Exactly one marker line whose value reads as a `u64` yields that
/// value, in microseconds; anything else is a protocol violation.
pub fn scan_timer_lines(stderr: &str) -> (r: Result<u64, BenchError>)
    ensures
        timer_result_spec(stderr@) is Some ==> r is Ok && r->Ok_0 == timer_result_spec(
            stderr@,
        )->0,
        timer_result_spec(stderr@) is None ==> r == Err::<u64, BenchError>(
            BenchError::ProtocolError,
        ),
{
    let cs = chars_of(stderr);
    let lines = split_lines(&cs);
    let marker_chars = chars_of(marker_prefix());
    let ghost pred = |l: Seq<char>| has_prefix(l, marker_spec());
    let ghost all_trimmed = split_lines_spec(stderr@).map_values(|l: Seq<char>| trim_spec(l));
    let mut found: Vec<Vec<char>> = Vec::new();
    let mut i: usize = 0;
    while i < lines.len()
        invariant
            i <= lines.len(),
            pred == (|l: Seq<char>| has_prefix(l, marker_spec())),
            marker_chars@ == marker_spec(),
            all_trimmed == split_lines_spec(stderr@).map_values(|l: Seq<char>| trim_spec(l)),
            lines@.map_values(|l: Vec<char>| l@) == split_lines_spec(stderr@),
            found@.map_values(|l: Vec<char>| l@) == all_trimmed.take(i as int).filter(pred),
        decreases lines.len() - i,
    {
        let trimmed = trim_chars(&lines[i]);
        proof {
            assert(lines@.map_values(|l: Vec<char>| l@)[i as int] == lines@[i as int]@);
            assert(all_trimmed[i as int] == trim_spec(lines@[i as int]@));
            lemma_filter_push(all_trimmed.take(i as int), all_trimmed[i as int], pred);
            assert(all_trimmed.take(i as int).push(all_trimmed[i as int]) =~= all_trimmed.take(
                (i + 1) as int,
            ));
        }
        if starts_with_chars(&trimmed, &marker_chars) {
            proof {
                assert((found@.map_values(|l: Vec<char>| l@)).push(trimmed@)
                    =~= found@.push(trimmed).map_values(|l: Vec<char>| l@));
            }
            found.push(trimmed);
        }
        i = i + 1;
    }
    proof {
        assert(all_trimmed.take(lines@.len() as int) =~= all_trimmed);
        assert(found@.map_values(|l: Vec<char>| l@) == marker_lines_spec(stderr@));
    }
    if found.len() != 1 {
        return Err(BenchError::ProtocolError);
    }
    let value_part = suffix_after_last_colon(&found[0]);
    proof {
        assert(found@.map_values(|l: Vec<char>| l@)[0] == found@[0]@);
    }
    match parse_u64_chars(&value_part) {
        Option::Some(v) => Ok(v),
        Option::None => Err(BenchError::ProtocolError),
    }
}


/// The opening of a structured per-pass detail line.
pub open spec fn detail_prefix_spec() -> Seq<char> {
    "time:{\"pass\":\""@
}

/// Whether `lit` stands at `i` in `s`; the position after it when so.
pub open spec fn match_lit_spec(s: Seq<char>, i: int, lit: Seq<char>) -> Option<int> {
    if 0 <= i && i + lit.len() <= s.len() && s.subrange(i, i + lit.len()) == lit {
        Option::Some(i + lit.len())
    } else {
        Option::None
    }
}

/// The position of the quote that closes a pass name opened at `i`:
/// the first `"` at or after `i`, provided no escape (`\`) comes
/// first.  Escaped names are not part of the protocol.
pub open spec fn scan_name_spec(s: Seq<char>, i: int) -> Option<int>
    decreases s.len() - i,
{
    if i < 0 || i >= s.len() {
        Option::None
    } else if s[i] == '"' {
        Option::Some(i)
    } else if s[i] == '\\' {
        Option::None
    } else {
        scan_name_spec(s, i + 1)
    }
}

/// The position right after the digit run starting at `i`.
pub open spec fn scan_digits_spec(s: Seq<char>, i: int) -> int
    decreases s.len() - i,
{
    if i < 0 || i >= s.len() || !is_digit_char(s[i]) {
        i
    } else {
        scan_digits_spec(s, i + 1)
    }
}

/// The fractional seconds digits as nanoseconds: the first nine digits,
/// right-padded with zeros (further digits are beyond the protocol's
/// resolution and are dropped).
pub open spec fn frac_nanos_spec(frac: Seq<char>) -> int {
    if frac.len() >= 9 {
        digits_val(frac.take(9))
    } else {
        digits_val(frac + Seq::new((9 - frac.len()) as nat, |k: int| '0'))
    }
}

/// What one well-formed detail line carries: the pass name, its
/// duration in nanoseconds, and the memory before and after.
pub struct DetailFields {
    pub name: Seq<char>,
    pub nanos: int,
    pub rss_start: int,
    pub rss_end: int,
}

/// Reads one trimmed detail line:
/// `time:{"pass":"NAME","time":SECS,"rss_start":INT,"rss_end":INT}`
/// where NAME holds neither quote nor escape, SECS is digits with an
/// optional fraction, and every value fits a `u64`.  Anything else is
/// no detail sample.
pub open spec fn parse_detail_spec(l: Seq<char>) -> Option<DetailFields> {
    match match_lit_spec(l, 0, detail_prefix_spec()) {
        Option::None => Option::None,
        Option::Some(i0) => match scan_name_spec(l, i0) {
            Option::None => Option::None,
            Option::Some(q) => {
                let name = l.subrange(i0, q);
                match match_lit_spec(l, q, "\",\"time\":"@) {
                    Option::None => Option::None,
                    Option::Some(i1) => {
                        let d1 = scan_digits_spec(l, i1);
                        if d1 <= i1 {
                            Option::None
                        } else {
                            let int_digits = l.subrange(i1, d1);
                            let has_frac = d1 < l.len() && l[d1] == '.';
                            let f1 = if has_frac {
                                scan_digits_spec(l, d1 + 1)
                            } else {
                                d1
                            };
                            if has_frac && f1 <= d1 + 1 {
                                Option::None
                            } else {
                                let frac = if has_frac {
                                    l.subrange(d1 + 1, f1)
                                } else {
                                    Seq::<char>::empty()
                                };
                                let next = if has_frac {
                                    f1
                                } else {
                                    d1
                                };
                                match match_lit_spec(l, next, ",\"rss_start\":"@) {
                                    Option::None => Option::None,
                                    Option::Some(i2) => {
                                        let a1 = scan_digits_spec(l, i2);
                                        if a1 <= i2 {
                                            Option::None
                                        } else {
                                            match match_lit_spec(l, a1, ",\"rss_end\":"@) {
                                                Option::None => Option::None,
                                                Option::Some(i3) => {
                                                    let b1 = scan_digits_spec(l, i3);
                                                    if b1 <= i3 {
                                                        Option::None
                                                    } else {
                                                        match match_lit_spec(l, b1, "}"@) {
                                                            Option::None => Option::None,
                                                            Option::Some(i4) => {
                                                                if i4 != l.len() {
                                                                    Option::None
                                                                } else {
                                                                    let nanos = digits_val(
                                                                        int_digits,
                                                                    ) * 1000000000 + frac_nanos_spec(
                                                                        frac,
                                                                    );
                                                                    let a = digits_val(
                                                                        l.subrange(i2, a1),
                                                                    );
                                                                    let b = digits_val(
                                                                        l.subrange(i3, b1),
                                                                    );
                                                                    if nanos <= u64::MAX && a
                                                                        <= u64::MAX && b
                                                                        <= u64::MAX {
                                                                        Option::Some(
                                                                            DetailFields {
                                                                                name,
                                                                                nanos,
                                                                                rss_start: a,
                                                                                rss_end: b,
                                                                            },
                                                                        )
                                                                    } else {
                                                                        Option::None
                                                                    }
                                                                }
                                                            },
                                                        }
                                                    }
                                                },
                                            }
                                        }
                                    },
                                }
                            }
                        }
                    },
                }
            },
        },
    }
}

/// Whether `lit` stands at `i`; the position after it when so.
fn match_lit(s: &Vec<char>, i: usize, lit: &str) -> (r: Option<usize>)
    ensures
        r is Some <==> match_lit_spec(s@, i as int, lit@) is Some,
        r is Some ==> r->0 == match_lit_spec(s@, i as int, lit@)->0,
{
    let l = chars_of(lit);
    if i > s.len() || l.len() > s.len() - i {
        proof {
            assert(match_lit_spec(s@, i as int, lit@) is None);
        }
        return Option::None;
    }
    let end = i + l.len();
    let mut k: usize = 0;
    while k < l.len()
        invariant
            k <= l@.len(),
            l@ == lit@,
            end == i + l@.len(),
            i + l@.len() <= s@.len(),
            forall|j: int| 0 <= j < k ==> s@[i + j] == lit@[j],
        decreases l@.len() - k,
    {
        if s[i + k] != l[k] {
            proof {
                assert(s@.subrange(i as int, i + lit@.len())[k as int] == s@[i + k]);
                assert(s@.subrange(i as int, i + lit@.len()) != lit@);
            }
            return Option::None;
        }
        k = k + 1;
    }
    proof {
        assert(s@.subrange(i as int, i + lit@.len()) =~= lit@);
    }
    Option::Some(i + l.len())
}

/// The closing quote of a name opened at `i`.
fn scan_name(s: &Vec<char>, i: usize) -> (r: Option<usize>)
    ensures
        r is Some <==> scan_name_spec(s@, i as int) is Some,
        r is Some ==> r->0 == scan_name_spec(s@, i as int)->0,
{
    let mut k: usize = i;
    while k < s.len()
        invariant
            i <= k,
            scan_name_spec(s@, i as int) == scan_name_spec(s@, k as int),
        decreases s@.len() - k,
    {
        if s[k] == '"' {
            return Option::Some(k);
        }
        if s[k] == '\\' {
            return Option::None;
        }
        k = k + 1;
    }
    Option::None
}

/// The end of the digit run starting at `i`.
fn scan_digits(s: &Vec<char>, i: usize) -> (r: usize)
    requires
        i <= s@.len(),
    ensures
        r == scan_digits_spec(s@, i as int),
        i <= r <= s@.len(),
{
    let mut k: usize = i;
    while k < s.len()
        invariant
            i <= k <= s@.len(),
            scan_digits_spec(s@, i as int) == scan_digits_spec(s@, k as int),
        decreases s@.len() - k,
    {
        let cv = s[k] as u32;
        if cv < 48 || cv > 57 {
            return k;
        }
        k = k + 1;
    }
    k
}

/// Copies `s[from..to]`.
fn slice_chars(s: &Vec<char>, from: usize, to: usize) -> (r: Vec<char>)
    requires
        from <= to <= s@.len(),
    ensures
        r@ == s@.subrange(from as int, to as int),
{
    let mut out: Vec<char> = Vec::new();
    let mut k: usize = from;
    while k < to
        invariant
            from <= k <= to <= s@.len(),
            out@ == s@.subrange(from as int, k as int),
        decreases to - k,
    {
        out.push(s[k]);
        proof {
            assert(out@ =~= s@.subrange(from as int, (k + 1) as int));
        }
        k = k + 1;
    }
    out
}

/// Reads one trimmed line as a detail sample, exactly when it follows
/// the protocol's structured form.
pub fn parse_detail_line(l: &Vec<char>) -> (r: Option<PassSample>)
    ensures
        r is Some <==> parse_detail_spec(l@) is Some,
        r is Some ==> {
            let f = parse_detail_spec(l@)->0;
            &&& r->0.name@ == f.name
            &&& r->0.nanos == f.nanos
            &&& r->0.rss_start == f.rss_start
            &&& r->0.rss_end == f.rss_end
        },
{
    let i0 = match match_lit(l, 0, "time:{\"pass\":\"") {
        Option::Some(v) => v,
        Option::None => {
            return Option::None;
        },
    };
    let q = match scan_name(l, i0) {
        Option::Some(v) => v,
        Option::None => {
            return Option::None;
        },
    };
    proof {
        lemma_scan_name_bounds(l@, i0 as int);
    }
    let name_chars = slice_chars(l, i0, q);
    let i1 = match match_lit(l, q, "\",\"time\":") {
        Option::Some(v) => v,
        Option::None => {
            return Option::None;
        },
    };
    let d1 = scan_digits(l, i1);
    if d1 <= i1 {
        return Option::None;
    }
    let int_digits = slice_chars(l, i1, d1);
    let has_frac = d1 < l.len() && l[d1] == '.';
    let f1 = if has_frac {
        scan_digits(l, d1 + 1)
    } else {
        d1
    };
    if has_frac && f1 <= d1 + 1 {
        return Option::None;
    }
    let frac = if has_frac {
        slice_chars(l, d1 + 1, f1)
    } else {
        Vec::new()
    };
    let next = if has_frac {
        f1
    } else {
        d1
    };
    let i2 = match match_lit(l, next, ",\"rss_start\":") {
        Option::Some(v) => v,
        Option::None => {
            return Option::None;
        },
    };
    let a1 = scan_digits(l, i2);
    if a1 <= i2 {
        return Option::None;
    }
    let a_digits = slice_chars(l, i2, a1);
    let i3 = match match_lit(l, a1, ",\"rss_end\":") {
        Option::Some(v) => v,
        Option::None => {
            return Option::None;
        },
    };
    let b1 = scan_digits(l, i3);
    if b1 <= i3 {
        return Option::None;
    }
    let b_digits = slice_chars(l, i3, b1);
    let i4 = match match_lit(l, b1, "}") {
        Option::Some(v) => v,
        Option::None => {
            return Option::None;
        },
    };
    if i4 != l.len() {
        return Option::None;
    }
    proof {
        lemma_digits_run_all_digits(l@, i1 as int, d1 as int);
        if has_frac {
            lemma_digits_run_all_digits(l@, (d1 + 1) as int, f1 as int);
        }
    }
    let nanos = match seconds_to_nanos(&int_digits, &frac) {
        Option::Some(v) => v,
        Option::None => {
            return Option::None;
        },
    };
    let a = match parse_u64_chars(&a_digits) {
        Option::Some(v) => v,
        Option::None => {
            proof {
                lemma_digits_run_all_digits(l@, i2 as int, a1 as int);
            }
            return Option::None;
        },
    };
    let b = match parse_u64_chars(&b_digits) {
        Option::Some(v) => v,
        Option::None => {
            proof {
                lemma_digits_run_all_digits(l@, i3 as int, b1 as int);
            }
            return Option::None;
        },
    };
    proof {
        lemma_digits_run_all_digits(l@, i2 as int, a1 as int);
        lemma_digits_run_all_digits(l@, i3 as int, b1 as int);
    }
    let name = string_from_chars(&name_chars);
    Option::Some(PassSample { name, nanos, rss_start: a, rss_end: b })
}

/// A name scan that succeeds ends within the line, at or after where it
/// began.
proof fn lemma_scan_name_bounds(s: Seq<char>, i: int)
    requires
        scan_name_spec(s, i) is Some,
    ensures
        i <= scan_name_spec(s, i)->0 < s.len(),
        0 <= i,
    decreases s.len() - i,
{
    if !(i < 0 || i >= s.len()) && s[i] != '"' && s[i] != '\\' {
        lemma_scan_name_bounds(s, i + 1);
    }
}

/// Every character of a digit run is a digit.
proof fn lemma_digits_run_all_digits(s: Seq<char>, i: int, e: int)
    requires
        0 <= i <= s.len(),
        e == scan_digits_spec(s, i),
    ensures
        i <= e <= s.len(),
        all_digits(s.subrange(i, e)),
    decreases s.len() - i,
{
    if !(i < 0 || i >= s.len() || !is_digit_char(s[i])) {
        lemma_digits_run_all_digits(s, i + 1, e);
        assert forall|j: int| 0 <= j < e - i implies is_digit_char(s.subrange(i, e)[j]) by {
            if j > 0 {
                assert(s.subrange(i + 1, e)[j - 1] == s[i + j]);
            }
        }
    } else {
        assert(e == i);
    }
}

/// Converts a seconds figure (digits, optional fraction) to whole
/// nanoseconds; `None` when the digits are not a valid figure or the
/// result would not fit.
pub fn seconds_to_nanos(int_digits: &Vec<char>, frac: &Vec<char>) -> (r: Option<u64>)
    requires
        all_digits(int_digits@),
        all_digits(frac@),
        int_digits@.len() > 0,
    ensures
        ({
            let v = digits_val(int_digits@) * 1000000000 + frac_nanos_spec(frac@);
            &&& (r is Some <==> v <= u64::MAX)
            &&& (r is Some ==> r->0 == v)
        }),
{
    let mut padded: Vec<char> = Vec::new();
    let take = if frac.len() < 9 {
        frac.len()
    } else {
        9
    };
    let mut k: usize = 0;
    while k < take
        invariant
            k <= take,
            take <= frac@.len(),
            take <= 9,
            padded@ == frac@.take(k as int),
        decreases take - k,
    {
        padded.push(frac[k]);
        proof {
            assert(padded@ =~= frac@.take((k + 1) as int));
        }
        k = k + 1;
    }
    if frac.len() < 9 {
        while padded.len() < 9
            invariant
                frac@.len() < 9,
                frac@.len() <= padded@.len() <= 9,
                padded@ == frac@ + Seq::new((padded@.len() - frac@.len()) as nat, |j: int| '0'),
            decreases 9 - padded@.len(),
        {
            padded.push('0');
            proof {
                assert(padded@ =~= frac@ + Seq::new(
                    (padded@.len() - frac@.len()) as nat,
                    |j: int| '0',
                ));
            }
        }
    }
    proof {
        if frac@.len() >= 9 {
            assert(padded@ == frac@.take(9));
        } else {
            assert(padded@ == frac@ + Seq::new((9 - frac@.len()) as nat, |j: int| '0'));
        }
        assert(frac_nanos_spec(frac@) == digits_val(padded@));
        assert forall|j: int| 0 <= j < padded@.len() implies is_digit_char(padded@[j]) by {
            if frac@.len() >= 9 {
                assert(padded@[j] == frac@[j]);
            } else {
                if j < frac@.len() {
                    assert(padded@[j] == frac@[j]);
                } else {
                    assert(padded@[j] == '0');
                    assert(48 <= '0' as u32 <= 57);
                }
            }
        }
        assert(all_digits(padded@));
        lemma_digits_val_len_bound(padded@);
        reveal_with_fuel(pow10, 10);
        assert(pow10(9) == 1000000000);
        lemma_digits_val_nonneg_pub(frac@, int_digits@);
    }
    let frac_val = match parse_u64_chars(&padded) {
        Option::Some(v) => v,
        Option::None => {
            // nine digits always fit
            return Option::None;
        },
    };
    let int_val = match parse_u64_chars(int_digits) {
        Option::Some(v) => v,
        Option::None => {
            proof {
                assert(digits_val(int_digits@) * 1000000000 >= digits_val(int_digits@))
                    by (nonlinear_arith)
                    requires
                        digits_val(int_digits@) >= 0,
                ;
            }
            return Option::None;
        },
    };
    let scaled = match int_val.checked_mul(1000000000) {
        Option::Some(v) => v,
        Option::None => {
            return Option::None;
        },
    };
    match scaled.checked_add(frac_val) {
        Option::Some(v) => Option::Some(v),
        Option::None => Option::None,
    }
}

/// Nine digits stay below a billion.
proof fn lemma_digits_val_len_bound(s: Seq<char>)
    requires
        all_digits(s),
    ensures
        digits_val(s) < pow10(s.len() as nat),
        digits_val(s) >= 0,
    decreases s.len(),
{
    if s.len() == 0 {
    } else {
        assert(all_digits(s.drop_last()));
        lemma_digits_val_len_bound(s.drop_last());
        assert(digit_val(s.last()) <= 9);
    }
}

/// Ten to the `n`.
pub open spec fn pow10(n: nat) -> int
    decreases n,
{
    if n == 0 {
        1
    } else {
        10 * pow10((n - 1) as nat)
    }
}

/// The fractional part is never negative.
proof fn lemma_digits_val_nonneg_pub(frac: Seq<char>, padded: Seq<char>)
    requires
        all_digits(padded),
    ensures
        digits_val(padded) >= 0,
    decreases padded.len(),
{
    if padded.len() > 0 {
        assert(all_digits(padded.drop_last()));
        lemma_digits_val_nonneg_pub(frac, padded.drop_last());
    }
}

/// Decimal digits read back as the number they were formatted from.
proof fn lemma_dec_digits_value(n: nat)
    ensures
        all_digits(dec_digits(n)),
        digits_val(dec_digits(n)) == n,
        dec_digits(n).len() > 0,
    decreases n,
{
    if n < 10 {
        assert(is_digit_char(digit_char(n)) && digit_val(digit_char(n)) == n) by {
            assert('0' as u32 == 48 && '1' as u32 == 49 && '2' as u32 == 50 && '3' as u32 == 51
                && '4' as u32 == 52 && '5' as u32 == 53 && '6' as u32 == 54 && '7' as u32 == 55
                && '8' as u32 == 56 && '9' as u32 == 57);
        }
        assert(dec_digits(n).drop_last() =~= Seq::<char>::empty());
        assert(digits_val(Seq::<char>::empty()) == 0);
        assert(dec_digits(n).last() == digit_char(n));
        assert(digits_val(dec_digits(n)) == digits_val(dec_digits(n).drop_last()) * 10 + digit_val(
            dec_digits(n).last(),
        ));
    } else {
        lemma_dec_digits_value(n / 10);
        assert(is_digit_char(digit_char(n % 10)) && digit_val(digit_char(n % 10)) == n % 10) by {
            assert('0' as u32 == 48 && '1' as u32 == 49 && '2' as u32 == 50 && '3' as u32 == 51
                && '4' as u32 == 52 && '5' as u32 == 53 && '6' as u32 == 54 && '7' as u32 == 55
                && '8' as u32 == 56 && '9' as u32 == 57);
        }
        let d = dec_digits(n);
        assert(d == dec_digits(n / 10).push(digit_char(n % 10)));
        assert(d.drop_last() =~= dec_digits(n / 10));
        assert(d.last() == digit_char(n % 10));
        assert forall|i: int| 0 <= i < d.len() implies is_digit_char(d[i]) by {
            if i < d.len() - 1 {
                assert(d[i] == dec_digits(n / 10)[i]);
            }
        }
        assert(digits_val(d) == digits_val(dec_digits(n / 10)) * 10 + digit_val(d.last()));
        assert((n / 10) * 10 + n % 10 == n);
    }
}

/// A digit is never whitespace, a newline or the marker separator.
proof fn lemma_digit_is_plain(c: char)
    requires
        is_digit_char(c),
    ensures
        !is_space_char(c),
        c != '\n',
        c != ':',
{
    assert(' ' as u32 == 32 && '\t' as u32 == 9 && '\r' as u32 == 13 && '\n' as u32 == 10
        && ':' as u32 == 58);
    if c == ' ' || c == '\t' || c == '\r' || c == '\n' || c == ':' {
        assert(!(48 <= c as u32 <= 57));
    }
}

/// The wrapper's emitted line is accepted by the run loop's scanner and
/// yields exactly the duration it encoded: emitting and scanning are a
/// round trip.
pub proof fn lemma_marker_roundtrip(micros: u64)
    ensures
        timer_result_spec(marker_spec() + dec_digits(micros as nat)) == Option::Some(
            micros as int,
        ),
{
    reveal_strlit("rcb-rustc-timer:");
    let m = marker_spec();
    let d = dec_digits(micros as nat);
    let line = m + d;
    lemma_dec_digits_value(micros as nat);
    assert(m.len() == 16);
    assert forall|i: int| 0 <= i < line.len() implies line[i] != '\n' by {
        if i < 16 {
            assert(line[i] == m[i]);
        } else {
            assert(line[i] == d[i - 16]);
            assert(is_digit_char(d[i - 16]));
            lemma_digit_is_plain(d[i - 16]);
        }
    }
    assert(!line.contains('\n')) by {
        if line.contains('\n') {
            let w = choose|w: int| 0 <= w < line.len() && line[w] == '\n';
            assert(line[w] != '\n');
        }
    }
    lemma_split_no_newline(line);
    assert(split_lines_spec(line) == seq![line]);
    // the line needs no trimming: it opens with a letter and closes with
    // a digit
    assert(!is_space_char(line[0]));
    assert(line.last() == d[d.len() - 1]);
    lemma_digit_is_plain(d[d.len() - 1]);
    assert(trim_front_spec(line) == line);
    assert(trim_back_spec(line) == line);
    assert(trim_spec(line) == line);
    // the scanner sees exactly one marker line
    let pred = |l: Seq<char>| has_prefix(l, marker_spec());
    assert(line.subrange(0, 16) =~= m);
    assert(pred(line));
    let mapped = split_lines_spec(line).map_values(|l: Seq<char>| trim_spec(l));
    assert(mapped =~= seq![line]);
    lemma_filter_push(Seq::<Seq<char>>::empty(), line, pred);
    assert(Seq::<Seq<char>>::empty().push(line) =~= seq![line]);
    assert(Seq::<Seq<char>>::empty().filter(pred) =~= Seq::<Seq<char>>::empty()) by {
        reveal(Seq::filter);
    }
    assert(marker_lines_spec(line) =~= seq![line]);
    assert(marker_lines_spec(line).len() == 1);
    // the only colon of the line is the marker's final one
    line.index_of_last_ensures(':');
    assert(line[15] == ':');
    assert(line.contains(':'));
    let c = line.index_of_last(':')->0;
    assert forall|j: int| 16 <= j < line.len() implies line[j] != ':' by {
        assert(line[j] == d[j - 16]);
        lemma_digit_is_plain(d[j - 16]);
    }
    if c > 15 {
        assert(line[c] != ':');
    }
    if c < 15 {
        assert(line[15] != ':');
    }
    assert(c == 15);
    assert(after_last_colon(line) =~= d);
    // and the digits read back as the encoded duration
    assert(parses_u64(d));
    assert(timer_result_spec(line) == Option::Some(micros as int));
}

} // verus!
