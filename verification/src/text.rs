//! Character-sequence helpers: decimal and hexadecimal rendering, and moving between `str`,
//! `Vec<char>` and `String`.

use vstd::prelude::*;

verus! {

/// The ASCII digit for `d` (`d < 10`).
pub open spec fn digit(d: nat) -> char {
    (48 + d) as char
}

/// `n` written in decimal, without sign or leading zeros, as Rust's `Display` writes an
/// unsigned integer.
pub open spec fn decimal(n: nat) -> Seq<char>
    decreases n,
{
    if n < 10 {
        seq![digit(n)]
    } else {
        decimal(n / 10).push(digit(n % 10))
    }
}

/// The upper-case hexadecimal digit for `d` (`d < 16`).
pub open spec fn hex_digit(d: nat) -> char {
    if d < 10 {
        (48 + d) as char
    } else {
        (55 + d) as char
    }
}

/// A byte as exactly two upper-case hexadecimal digits, as `{:02X}` writes it.
pub open spec fn hex2(b: u8) -> Seq<char> {
    seq![hex_digit((b / 16) as nat), hex_digit((b % 16) as nat)]
}

/// The decimal form of a number is made of ASCII digits and is never empty.
pub proof fn lemma_decimal_digits(n: nat)
    ensures
        decimal(n).len() > 0,
        forall|j: int| 0 <= j < decimal(n).len() ==> '0' <= #[trigger] decimal(n)[j] <= '9',
    decreases n,
{
    if n >= 10 {
        lemma_decimal_digits(n / 10);
    }
}

/// Appends the decimal form of `n`.
pub fn push_decimal(out: &mut Vec<char>, n: u64)
    ensures
        final(out)@ == old(out)@ + decimal(n as nat),
    decreases n,
{
    if n >= 10 {
        push_decimal(out, n / 10);
    }
    let d: u8 = (n % 10) as u8;
    out.push((48u8 + d) as char);
    proof {
        assert((48u8 + d) as char == digit((n % 10) as nat));
    }
}


/// Appends the two-digit upper-case hexadecimal form of `b`.
pub fn push_hex2(out: &mut Vec<char>, b: u8)
    ensures
        final(out)@ == old(out)@ + hex2(b),
{
    let hi: u8 = b / 16;
    let lo: u8 = b % 16;
    let c_hi: char = if hi < 10 { (48u8 + hi) as char } else { (55u8 + hi) as char };
    let c_lo: char = if lo < 10 { (48u8 + lo) as char } else { (55u8 + lo) as char };
    out.push(c_hi);
    out.push(c_lo);
    proof {
        assert(c_hi == hex_digit((b / 16) as nat));
        assert(c_lo == hex_digit((b % 16) as nat));
        assert(final(out)@ =~= old(out)@ + hex2(b));
    }
}

/// The characters of `s`, in order.
pub fn chars_of(s: &str) -> (v: Vec<char>)
    ensures
        v@ == s@,
{
    let mut v: Vec<char> = Vec::new();
    for c in it: s.chars()
        invariant
            v@ == it.seq().take(it.index() as int),
    {
        v.push(c);
    }
    v
}

/// Appends the characters of `s`.
pub fn push_str(out: &mut Vec<char>, s: &str)
    ensures
        final(out)@ == old(out)@ + s@,
{
    let mut v = chars_of(s);
    out.append(&mut v);
}

/// The `String` made of the characters of `v` (std's `FromIterator<char>` for `String`).
#[verifier::external_body]
pub fn string_of(v: &Vec<char>) -> (s: String)
    ensures
        s@ == v@,
{
    v.iter().collect()
}


/// The characters of `v` from `a` up to (not including) `b`.
pub fn sub_vec(v: &Vec<char>, a: usize, b: usize) -> (r: Vec<char>)
    requires
        a <= b <= v.len(),
    ensures
        r@ == v@.subrange(a as int, b as int),
{
    let mut r: Vec<char> = Vec::new();
    let mut i = a;
    while i < b
        invariant
            a <= i <= b <= v.len(),
            r@ == v@.subrange(a as int, i as int),
        decreases b - i,
    {
        r.push(v[i]);
        i = i + 1;
    }
    r
}

/// Whether the characters of `v` from `a` up to `b` are exactly `pat`.
pub fn range_eq(v: &Vec<char>, a: usize, b: usize, pat: &Vec<char>) -> (r: bool)
    requires
        a <= b <= v.len(),
    ensures
        r == (v@.subrange(a as int, b as int) == pat@),
{
    if b - a != pat.len() {
        return false;
    }
    let mut i: usize = 0;
    while i < pat.len()
        invariant
            a <= b <= v.len(),
            b - a == pat.len(),
            i <= pat.len(),
            forall|j: int| 0 <= j < i ==> v@[a + j] == pat@[j],
        decreases pat.len() - i,
    {
        if v[a + i] != pat[i] {
            assert(v@.subrange(a as int, b as int)[i as int] != pat@[i as int]);
            return false;
        }
        i = i + 1;
    }
    assert(v@.subrange(a as int, b as int) =~= pat@);
    true
}

/// Whether `s` starts with `p`.
pub open spec fn starts_with(s: Seq<char>, p: Seq<char>) -> bool {
    p.len() <= s.len() && s.take(p.len() as int) == p
}

/// Whether the characters of `v` from `a` up to `b` start with `pat`.
pub fn range_starts_with(v: &Vec<char>, a: usize, b: usize, pat: &Vec<char>) -> (r: bool)
    requires
        a <= b <= v.len(),
    ensures
        r == starts_with(v@.subrange(a as int, b as int), pat@),
{
    if b - a < pat.len() {
        return false;
    }
    let r = range_eq(v, a, a + pat.len(), pat);
    assert(v@.subrange(a as int, b as int).take(pat@.len() as int) =~= v@.subrange(
        a as int,
        a + pat.len(),
    ));
    r
}

} // verus!

verus! {

/// How Rust's `Debug` writes a string: quoted, with special characters escaped.
pub uninterp spec fn str_debug(s: Seq<char>) -> Seq<char>;

/// `s` as `{:?}` formats it (std's `Debug` for `str`).
#[verifier::external_body]
pub fn debug_quoted(s: &str) -> (q: String)
    ensures
        q@ == str_debug(s@),
{
    format!("{:?}", s)
}

} // verus!

verus! {

/// Whether `a` and `b` hold the same characters.
pub fn str_eq(a: &str, b: &str) -> (r: bool)
    ensures
        r == (a@ == b@),
{
    let va = chars_of(a);
    let vb = chars_of(b);
    let r = range_eq(&va, 0, va.len(), &vb);
    assert(va@.subrange(0, va@.len() as int) =~= va@);
    r
}

} // verus!
