//! Character-level string helpers shared by the rest of the crate.

use vstd::prelude::*;
use vstd::string::*;

verus! {

/// Appends `c` to `s`; calls `String::push`, which the standard library
/// documents as appending the given char to the end of the string.
#[verifier::external_body]
pub(crate) fn push_char(s: &mut String, c: char)
    ensures
        final(s)@ == old(s)@.push(c),
{
    s.push(c)
}

/// The characters of `s`, in order.
pub fn chars_of(s: &str) -> (r: Vec<char>)
    ensures
        r@ == s@,
{
    let n = s.unicode_len();
    let mut v: Vec<char> = Vec::new();
    let mut i: usize = 0;
    while i < n
        invariant
            n == s@.len(),
            i <= n,
            v@ == s@.subrange(0, i as int),
        decreases n - i,
    {
        v.push(s.get_char(i));
        i = i + 1;
    }
    v
}

/// Appends every character of `cs[from..to]` to `s`.
pub(crate) fn push_chars(s: &mut String, cs: &Vec<char>, from: usize, to: usize)
    requires
        from <= to <= cs.len(),
    ensures
        final(s)@ == old(s)@ + cs@.subrange(from as int, to as int),
{
    let mut i: usize = from;
    while i < to
        invariant
            from <= i <= to <= cs.len(),
            s@ == old(s)@ + cs@.subrange(from as int, i as int),
        decreases to - i,
    {
        push_char(s, cs[i]);
        i = i + 1;
    }
}

/// Appends every character of `t` to `s`.
pub(crate) fn push_str(s: &mut String, t: &str)
    ensures
        final(s)@ == old(s)@ + t@,
{
    let cs = chars_of(t);
    push_chars(s, &cs, 0, cs.len());
    assert(cs@.subrange(0, cs@.len() as int) =~= t@);
}

/// A fresh copy of `t`.
pub(crate) fn to_owned_string(t: &str) -> (r: String)
    ensures
        r@ == t@,
{
    let mut s = String::new();
    push_str(&mut s, t);
    s
}

/// The decimal digit character for `d < 10`.
pub open spec fn digit_char(d: nat) -> char {
    ((48 + d) as u8) as char
}

/// The decimal representation of `n`, without leading zeros.
pub open spec fn decimal(n: nat) -> Seq<char>
    decreases n,
{
    if n < 10 {
        seq![digit_char(n)]
    } else {
        decimal(n / 10).push(digit_char(n % 10))
    }
}

/// `n` in decimal, padded with zeros to at least two digits.
pub open spec fn decimal2(n: nat) -> Seq<char> {
    if n < 10 {
        seq!['0'] + decimal(n)
    } else {
        decimal(n)
    }
}

/// Appends the decimal representation of `n` to `s`.
pub fn push_decimal(s: &mut String, n: usize)
    ensures
        final(s)@ == old(s)@ + decimal(n as nat),
    decreases n,
{
    if n >= 10 {
        push_decimal(s, n / 10);
    }
    let d: u8 = (n % 10) as u8;
    push_char(s, (48u8 + d) as char);
    assert(s@ =~= old(s)@ + decimal(n as nat));
}

/// The character sequences of a list of strings.
pub open spec fn views(v: Seq<String>) -> Seq<Seq<char>> {
    v.map_values(|s: String| s@)
}

/// Appends a copy of every string of `v` to `out`.
pub fn append_copies(out: &mut Vec<String>, v: &Vec<String>)
    ensures
        views(final(out)@) == views(old(out)@) + views(v@),
{
    let mut i: usize = 0;
    while i < v.len()
        invariant
            i <= v.len(),
            views(out@) == views(old(out)@) + views(v@.subrange(0, i as int)),
        decreases v.len() - i,
    {
        let ghost prev = out@;
        let c = v[i].clone();
        out.push(c);
        proof {
            assert(c@ == v@[i as int]@);
            assert(out@ =~= prev.push(c));
            assert(views(out@) =~= views(prev).push(c@));
            assert(v@.subrange(0, i + 1) =~= v@.subrange(0, i as int).push(v@[i as int]));
            assert(views(v@.subrange(0, i + 1)) =~= views(v@.subrange(0, i as int)).push(c@));
            assert(views(out@) =~= views(old(out)@) + views(v@.subrange(0, i + 1)));
        }
        i = i + 1;
    }
    assert(v@.subrange(0, v@.len() as int) =~= v@);
}

/// `parts` joined with `sep` between neighbours.
pub open spec fn join_sep(parts: Seq<Seq<char>>, sep: Seq<char>) -> Seq<char>
    decreases parts.len(),
{
    if parts.len() == 0 {
        seq![]
    } else if parts.len() == 1 {
        parts[0]
    } else {
        join_sep(parts.drop_last(), sep) + sep + parts.last()
    }
}

pub proof fn lemma_join_sep_push(parts: Seq<Seq<char>>, sep: Seq<char>, x: Seq<char>)
    ensures
        join_sep(parts.push(x), sep) == if parts.len() == 0 {
            x
        } else {
            join_sep(parts, sep) + sep + x
        },
{
    assert(parts.push(x).drop_last() =~= parts);
}

} // verus!
