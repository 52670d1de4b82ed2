//! Small verified string-building helpers: decimal formatting, padding
//! and joining, used by the display strings and the wire protocol.

use vstd::prelude::*;
use vstd::string::*;

verus! {

/// Relies on String::push: appends the given char onto the end of the string.
pub assume_specification[ String::push ](s: &mut String, ch: char)
    ensures
        final(s)@ == old(s)@.push(ch),
;

/// The character for one decimal digit.
pub open spec fn digit_char(d: nat) -> char {
    if d == 0 {
        '0'
    } else if d == 1 {
        '1'
    } else if d == 2 {
        '2'
    } else if d == 3 {
        '3'
    } else if d == 4 {
        '4'
    } else if d == 5 {
        '5'
    } else if d == 6 {
        '6'
    } else if d == 7 {
        '7'
    } else if d == 8 {
        '8'
    } else {
        '9'
    }
}

/// The decimal digits of `n`, most significant first, no leading zeros
/// (a single zero for `n == 0`).
pub open spec fn dec_digits(n: nat) -> Seq<char>
    decreases n,
{
    if n < 10 {
        seq![digit_char(n)]
    } else {
        dec_digits(n / 10).push(digit_char(n % 10))
    }
}

pub fn digit_str(d: u64) -> (r: &'static str)
    requires
        d < 10,
    ensures
        r@ == seq![digit_char(d as nat)],
{
    let r: &'static str = if d == 0 {
        "0"
    } else if d == 1 {
        "1"
    } else if d == 2 {
        "2"
    } else if d == 3 {
        "3"
    } else if d == 4 {
        "4"
    } else if d == 5 {
        "5"
    } else if d == 6 {
        "6"
    } else if d == 7 {
        "7"
    } else if d == 8 {
        "8"
    } else {
        "9"
    };
    proof {
        reveal_strlit("0");
        reveal_strlit("1");
        reveal_strlit("2");
        reveal_strlit("3");
        reveal_strlit("4");
        reveal_strlit("5");
        reveal_strlit("6");
        reveal_strlit("7");
        reveal_strlit("8");
        reveal_strlit("9");
        assert(r@ =~= seq![digit_char(d as nat)]);
    }
    r
}

/// Formats `n` in decimal.
pub fn format_u64(n: u64) -> (r: String)
    ensures
        r@ == dec_digits(n as nat),
    decreases n,
{
    if n < 10 {
        digit_str(n).to_owned()
    } else {
        let mut s = format_u64(n / 10);
        s.append(digit_str(n % 10));
        proof {
            assert(s@ =~= dec_digits(n as nat));
        }
        s
    }
}

/// Formats `n` in decimal.
pub fn format_u128(n: u128) -> (r: String)
    ensures
        r@ == dec_digits(n as nat),
    decreases n,
{
    if n < 10 {
        digit_str(n as u64).to_owned()
    } else {
        let mut s = format_u128(n / 10);
        s.append(digit_str((n % 10) as u64));
        proof {
            assert(s@ =~= dec_digits(n as nat));
        }
        s
    }
}

pub fn string_from_chars(v: &Vec<char>) -> (r: String)
    ensures
        r@ == v@,
{
    let mut r = String::new();
    let mut i: usize = 0;
    while i < v.len()
        invariant
            i <= v.len(),
            r@ == v@.subrange(0, i as int),
        decreases v.len() - i,
    {
        r.push(v[i]);
        proof {
            assert(r@ =~= v@.subrange(0, i + 1 as int));
        }
        i = i + 1;
    }
    proof {
        assert(r@ =~= v@);
    }
    r
}

pub fn chars_of(s: &str) -> (r: Vec<char>)
    ensures
        r@ == s@,
{
    let n = s.unicode_len();
    let mut r: Vec<char> = Vec::new();
    let mut i: usize = 0;
    while i < n
        invariant
            n == s@.len(),
            i <= n,
            r@ == s@.subrange(0, i as int),
        decreases n - i,
    {
        r.push(s.get_char(i));
        proof {
            assert(r@ =~= s@.subrange(0, i + 1 as int));
        }
        i = i + 1;
    }
    proof {
        assert(r@ =~= s@);
    }
    r
}

/// `width - len` spaces in front of `s` when `s` is shorter than `width`.
pub open spec fn pad_left_spec(s: Seq<char>, width: nat) -> Seq<char> {
    if s.len() >= width {
        s
    } else {
        Seq::new((width - s.len()) as nat, |i: int| ' ') + s
    }
}

pub fn pad_left(s: String, width: usize) -> (r: String)
    ensures
        r@ == pad_left_spec(s@, width as nat),
{
    let n = s.unicode_len();
    if n >= width {
        s
    } else {
        let mut r = String::new();
        let mut i: usize = 0;
        while i < width - n
            invariant
                i <= width - n,
                n < width,
                r@ == Seq::new(i as nat, |j: int| ' '),
            decreases width - n - i,
        {
            r.push(' ');
            proof {
                assert(r@ =~= Seq::new((i + 1) as nat, |j: int| ' '));
            }
            i = i + 1;
        }
        r.append(s.as_str());
        r
    }
}

/// The decimal digits of `n` left-padded with zeros to `width` digits
/// (unpadded when already at least that long).
pub open spec fn zero_pad_spec(n: nat, width: nat) -> Seq<char> {
    if dec_digits(n).len() >= width {
        dec_digits(n)
    } else {
        Seq::new((width - dec_digits(n).len()) as nat, |i: int| '0') + dec_digits(n)
    }
}

pub fn format_u64_zero_pad(n: u64, width: usize) -> (r: String)
    ensures
        r@ == zero_pad_spec(n as nat, width as nat),
{
    let digits = format_u64(n);
    let len = digits.unicode_len();
    if len >= width {
        digits
    } else {
        let mut r = String::new();
        let mut i: usize = 0;
        while i < width - len
            invariant
                i <= width - len,
                len < width,
                r@ == Seq::new(i as nat, |j: int| '0'),
            decreases width - len - i,
        {
            r.push('0');
            proof {
                assert(r@ =~= Seq::new((i + 1) as nat, |j: int| '0'));
            }
            i = i + 1;
        }
        r.append(digits.as_str());
        r
    }
}

/// The views of the given strings, joined with `sep` between neighbours.
pub open spec fn join_spec(parts: Seq<Seq<char>>, sep: Seq<char>) -> Seq<char>
    decreases parts.len(),
{
    if parts.len() == 0 {
        Seq::empty()
    } else if parts.len() == 1 {
        parts[0]
    } else {
        parts[0] + sep + join_spec(parts.drop_first(), sep)
    }
}

pub fn join_strings(parts: &Vec<String>, sep: &str) -> (r: String)
    ensures
        r@ == join_spec(parts@.map_values(|p: String| p@), sep@),
{
    let ghost views = parts@.map_values(|p: String| p@);
    let mut r = String::new();
    let mut i: usize = 0;
    while i < parts.len()
        invariant
            i <= parts.len(),
            views == parts@.map_values(|p: String| p@),
            i == 0 ==> r@ == Seq::<char>::empty(),
            i > 0 ==> r@ == join_spec(views.subrange(0, i as int), sep@),
        decreases parts.len() - i,
    {
        if i > 0 {
            r.append(sep);
        }
        r.append(parts[i].as_str());
        proof {
            lemma_join_snoc(views.subrange(0, i as int), views[i as int], sep@);
            assert(views.subrange(0, i as int).push(views[i as int]) =~= views.subrange(
                0,
                (i + 1) as int,
            ));
        }
        i = i + 1;
    }
    proof {
        if parts.len() > 0 {
            assert(views.subrange(0, parts.len() as int) =~= views);
        }
    }
    r
}

/// Appending one more part to a join appends the separator (when the
/// join was non-empty) and the part.
proof fn lemma_join_snoc(parts: Seq<Seq<char>>, last: Seq<char>, sep: Seq<char>)
    ensures
        parts.len() == 0 ==> join_spec(parts.push(last), sep) == last,
        parts.len() > 0 ==> join_spec(parts.push(last), sep) == join_spec(parts, sep) + sep + last,
    decreases parts.len(),
{
    if parts.len() == 0 {
        assert(join_spec(parts.push(last), sep) == parts.push(last)[0]);
        assert(parts.push(last)[0] == last);
    } else if parts.len() == 1 {
        let p = parts.push(last);
        assert(p.len() == 2);
        assert(p.drop_first() =~= seq![last]);
        assert(join_spec(p.drop_first(), sep) == last);
        assert(join_spec(p, sep) == p[0] + sep + last);
        assert(p[0] == parts[0]);
        assert(join_spec(parts, sep) == parts[0]);
    } else {
        lemma_join_snoc(parts.drop_first(), last, sep);
        let p = parts.push(last);
        assert(p.drop_first() =~= parts.drop_first().push(last));
        assert(join_spec(p, sep) == p[0] + sep + join_spec(p.drop_first(), sep));
        assert(p[0] == parts[0]);
        assert(join_spec(parts.drop_first().push(last), sep) == join_spec(parts.drop_first(), sep)
            + sep + last);
        assert((parts[0] + sep + (join_spec(parts.drop_first(), sep) + sep + last)) =~= ((parts[0]
            + sep + join_spec(parts.drop_first(), sep)) + sep + last));
    }
}

} // verus!
