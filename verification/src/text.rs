//! Small text utilities over `str`/`String`.
use vstd::prelude::*;
use vstd::string::*;

verus! {

/// Compares two string slices for equality.
///
/// Trusted: calls `<str as PartialEq>::eq`; the contract claims that it is
/// equality of the character sequences.
#[verifier::external_body]
pub(crate) fn str_equal(a: &str, b: &str) -> (r: bool)
    ensures
        r == (a@ == b@),
{
    a == b
}

/// `a` followed by `b`, as a new `String`.
pub fn join2(a: &str, b: &str) -> (r: String)
    ensures
        r@ == a@ + b@,
{
    let mut r = a.to_owned();
    r.append(b);
    r
}

/// Decimal digits of a natural number, most significant first.
pub open spec fn decimal(n: nat) -> Seq<char>
    decreases n,
{
    if n < 10 {
        seq![digit_char(n)]
    } else {
        decimal(n / 10).push(digit_char(n % 10))
    }
}

pub open spec fn digit_char(d: nat) -> char {
    if d == 0 { '0' } else if d == 1 { '1' } else if d == 2 { '2' } else if d == 3 { '3' }
    else if d == 4 { '4' } else if d == 5 { '5' } else if d == 6 { '6' } else if d == 7 { '7' }
    else if d == 8 { '8' } else { '9' }
}

/// Decimal text of a signed integer, with a leading `-` for negatives.
pub open spec fn signed_decimal(n: int) -> Seq<char> {
    if n < 0 { seq!['-'] + decimal((-n) as nat) } else { decimal(n as nat) }
}

/// Decimal rendering of a `u64`.
///
/// Trusted: calls `<u64 as ToString>::to_string`; the contract claims the
/// result is the usual base-10 rendering without sign or leading zeros.
#[verifier::external_body]
pub(crate) fn u64_decimal(n: u64) -> (r: String)
    ensures
        r@ == decimal(n as nat),
{
    n.to_string()
}

/// Decimal rendering of an `i64`.
///
/// Trusted: calls `<i64 as ToString>::to_string`; the contract claims the
/// base-10 rendering with a leading `-` for negative values.
#[verifier::external_body]
pub(crate) fn i64_decimal(n: i64) -> (r: String)
    ensures
        r@ == signed_decimal(n as int),
{
    n.to_string()
}

} // verus!
