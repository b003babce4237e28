//! Character-level text utilities shared by the code generator and the
//! assembler: decimal rendering of integers and string building.

use vstd::prelude::*;

verus! {

/// The ASCII digit for `d` (`0 <= d < 10`).
pub open spec fn digit_char(d: nat) -> char {
    (d + 48) as char
}

/// Decimal rendering of a natural number, most significant digit first.
pub open spec fn dec_nat(n: nat) -> Seq<char>
    decreases n,
{
    if n < 10 {
        seq![digit_char(n)]
    } else {
        dec_nat(n / 10).push(digit_char(n % 10))
    }
}

/// Every character of a decimal rendering is an ASCII digit.
pub proof fn lemma_dec_nat_digits(n: nat)
    ensures
        dec_nat(n).len() >= 1,
        n >= 10 ==> dec_nat(n).len() >= 2,
        forall|i: int| 0 <= i < dec_nat(n).len() ==> '0' <= #[trigger] dec_nat(n)[i] <= '9',
    decreases n,
{
    if n >= 10 {
        lemma_dec_nat_digits(n / 10);
    }
}

/// Different numbers have different decimal renderings.
pub proof fn lemma_dec_nat_injective(n: nat, m: nat)
    requires
        dec_nat(n) == dec_nat(m),
    ensures
        n == m,
    decreases n,
{
    lemma_dec_nat_digits(n);
    lemma_dec_nat_digits(m);
    if n < 10 && m < 10 {
        assert(dec_nat(n)[0] == digit_char(n));
        assert(dec_nat(m)[0] == digit_char(m));
    } else if n >= 10 && m >= 10 {
        let a = dec_nat(n);
        assert(a.last() == digit_char(n % 10));
        assert(dec_nat(m).last() == digit_char(m % 10));
        assert(a.drop_last() == dec_nat(n / 10));
        assert(dec_nat(m).drop_last() == dec_nat(m / 10));
        lemma_dec_nat_injective(n / 10, m / 10);
    }
}

/// Decimal rendering of an integer with a leading `-` for negative values.
pub open spec fn dec_int(i: int) -> Seq<char> {
    if i < 0 {
        seq!['-'] + dec_nat((-i) as nat)
    } else {
        dec_nat(i as nat)
    }
}

/// Appends one character through std's `String::push`. Trusted, not proved:
/// afterwards the string reads as before with that character at the end.
#[verifier::external_body]
pub(crate) fn string_push(s: &mut String, c: char)
    ensures
        final(s)@ == old(s)@.push(c),
{
    s.push(c);
}

/// Appends a string slice through std's `String::push_str`. Trusted, not
/// proved: afterwards the string reads as before followed by the slice.
#[verifier::external_body]
pub(crate) fn string_push_str(s: &mut String, t: &str)
    ensures
        final(s)@ == old(s)@ + t@,
{
    s.push_str(t);
}

/// The characters of a string slice, in order.
pub fn str_chars(s: &str) -> (v: Vec<char>)
    ensures
        v@ == s@,
{
    let mut v: Vec<char> = Vec::new();
    for c in it: s.chars()
        invariant
            v@ == it.seq().take(it.index() as int),
            it.seq() == s@,
    {
        v.push(c);
    }
    v
}

fn digit_of(d: u64) -> (c: char)
    requires
        d < 10,
    ensures
        c == digit_char(d as nat),
{
    let b: u8 = 48u8 + (d as u8);
    b as char
}

/// Appends the decimal rendering of `n`.
pub fn push_decimal_u128(s: &mut String, n: u128)
    ensures
        final(s)@ == old(s)@ + dec_nat(n as nat),
    decreases n,
{
    if n >= 10 {
        push_decimal_u128(s, n / 10);
    }
    let d = (n % 10) as u64;
    string_push(s, digit_of(d));
}

/// Appends the decimal rendering of `v`, with a leading `-` when negative.
pub fn push_decimal_i128(s: &mut String, v: i128)
    ensures
        final(s)@ == old(s)@ + dec_int(v as int),
{
    if v < 0 {
        string_push(s, '-');
        let m: u128 = ((-(v + 1)) as u128) + 1;
        push_decimal_u128(s, m);
    } else {
        push_decimal_u128(s, v as u128);
    }
}

} // verus!

verus! {

/// Whether two character sequences are equal.
pub fn chars_eq(a: &[char], b: &[char]) -> (r: bool)
    ensures
        r == (a@ == b@),
{
    if a.len() != b.len() {
        return false;
    }
    let mut i: usize = 0;
    while i < a.len()
        invariant
            a@.len() == b@.len(),
            i <= a@.len(),
            forall|k: int| 0 <= k < i ==> a@[k] == b@[k],
        decreases a@.len() - i,
    {
        if a[i] != b[i] {
            return false;
        }
        i = i + 1;
    }
    assert(a@ =~= b@);
    true
}

/// Whether a character sequence equals a string slice.
pub fn chars_eq_str(a: &[char], b: &str) -> (r: bool)
    ensures
        r == (a@ == b@),
{
    let bv = str_chars(b);
    chars_eq(a, bv.as_slice())
}

/// A `String` holding exactly the given characters.
pub fn string_from_chars(a: &[char]) -> (s: String)
    ensures
        s@ == a@,
{
    let mut s = String::new();
    let mut i: usize = 0;
    while i < a.len()
        invariant
            i <= a@.len(),
            s@ == a@.subrange(0, i as int),
        decreases a@.len() - i,
    {
        string_push(&mut s, a[i]);
        assert(a@.subrange(0, i + 1) =~= a@.subrange(0, i as int).push(a@[i as int]));
        i = i + 1;
    }
    assert(a@.subrange(0, a@.len() as int) =~= a@);
    s
}

/// Copy of `a[lo..hi]`.
pub fn chars_slice(a: &[char], lo: usize, hi: usize) -> (r: Vec<char>)
    requires
        lo <= hi <= a@.len(),
    ensures
        r@ == a@.subrange(lo as int, hi as int),
{
    let mut r: Vec<char> = Vec::new();
    let mut i = lo;
    while i < hi
        invariant
            lo <= i <= hi <= a@.len(),
            r@ == a@.subrange(lo as int, i as int),
        decreases hi - i,
    {
        r.push(a[i]);
        assert(a@.subrange(lo as int, i + 1) =~= a@.subrange(lo as int, i as int).push(a@[i as int]));
        i = i + 1;
    }
    r
}

} // verus!
