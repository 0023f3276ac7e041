//! The trusted boundary to the `num` crates: unbounded integers
//! (`num_bigint::BigInt`) and exact rationals kept in lowest terms
//! (`num_rational::BigRational`).
//!
//! Everything below carries a contract that Verus believes without reading the
//! body.  Each contract states only what the crates' sources and documentation
//! show: `BigInt` arithmetic is exact; `Ratio::new` and the `Ratio` arithmetic
//! return the fraction in lowest terms with a positive denominator (the lowest
//! form of a fraction is the one with the least positive denominator among all
//! ways of writing that number); `Ratio`'s order compares by numeric value;
//! `Roots::sqrt` is the truncated principal square root.

use vstd::prelude::*;

use num_bigint::BigInt;
use num_integer::Roots;
use num_rational::BigRational;

use crate::rational::{frac_add, frac_div, frac_eq, frac_lt, frac_mul, frac_sub, is_canon,
    is_floor_sqrt, Frac};

verus! {

#[verifier::external_type_specification]
#[verifier::external_body]
pub struct ExBigInt(BigInt);

#[verifier::external_type_specification]
#[verifier::external_body]
#[verifier::reject_recursive_types(T)]
pub struct ExRatio<T>(num_rational::Ratio<T>);

/// The integer that a `BigInt` holds.
pub uninterp spec fn big_value(x: BigInt) -> int;

/// The stored numerator of a `BigRational`.
pub uninterp spec fn rat_numer(x: BigRational) -> int;

/// The stored denominator of a `BigRational`.
pub uninterp spec fn rat_denom(x: BigRational) -> int;

/// The fraction that a `BigRational` holds, as this crate's ghost pair.
pub open spec fn ratv(x: BigRational) -> Frac {
    Frac { n: rat_numer(x), d: rat_denom(x) }
}

/// Relies on `BigInt: From<i64>`: the exact value, as a big integer.
#[verifier::external_body]
pub fn big_from_i64(x: i64) -> (r: BigInt)
    ensures
        big_value(r) == x as int,
{
    BigInt::from(x)
}

/// Relies on `Mul for &BigInt`: the exact product.
#[verifier::external_body]
pub fn big_mul(a: &BigInt, b: &BigInt) -> (r: BigInt)
    ensures
        big_value(r) == big_value(*a) * big_value(*b),
{
    a * b
}

/// Relies on `num_integer::Roots::sqrt` for `BigInt`: the truncated principal
/// square root.  It panics on a negative input, which `requires` rules out.
#[verifier::external_body]
pub fn big_sqrt(a: &BigInt) -> (r: BigInt)
    requires
        big_value(*a) >= 0,
    ensures
        is_floor_sqrt(big_value(*a), big_value(r)),
{
    a.sqrt()
}

/// Relies on `Ratio::new`: it reduces the fraction to lowest terms with a
/// positive denominator, and panics when `d` is zero, which `requires` rules
/// out.
#[verifier::external_body]
pub fn rat_make(n: BigInt, d: BigInt) -> (r: BigRational)
    requires
        big_value(d) != 0,
    ensures
        is_canon(ratv(r)),
        frac_eq(ratv(r), (Frac { n: big_value(n), d: big_value(d) })),
{
    BigRational::new(n, d)
}

/// Relies on `Add for &Ratio`: the exact sum, kept in lowest terms.  A zero
/// denominator would make it panic, which `requires` rules out.
#[verifier::external_body]
pub fn rat_add(a: &BigRational, b: &BigRational) -> (r: BigRational)
    requires
        rat_denom(*a) >= 1,
        rat_denom(*b) >= 1,
    ensures
        is_canon(ratv(r)),
        frac_eq(ratv(r), frac_add(ratv(*a), ratv(*b))),
{
    a + b
}

/// Relies on `Sub for &Ratio`: the exact difference, kept in lowest terms.
#[verifier::external_body]
pub fn rat_sub(a: &BigRational, b: &BigRational) -> (r: BigRational)
    requires
        rat_denom(*a) >= 1,
        rat_denom(*b) >= 1,
    ensures
        is_canon(ratv(r)),
        frac_eq(ratv(r), frac_sub(ratv(*a), ratv(*b))),
{
    a - b
}

/// Relies on `Mul for &Ratio`: the exact product, kept in lowest terms.
#[verifier::external_body]
pub fn rat_mul(a: &BigRational, b: &BigRational) -> (r: BigRational)
    requires
        rat_denom(*a) >= 1,
        rat_denom(*b) >= 1,
    ensures
        is_canon(ratv(r)),
        frac_eq(ratv(r), frac_mul(ratv(*a), ratv(*b))),
{
    a * b
}

/// Relies on `Div for &Ratio`: the exact quotient, kept in lowest terms.  It
/// panics when the divisor is zero, which `requires` rules out.
#[verifier::external_body]
pub fn rat_div(a: &BigRational, b: &BigRational) -> (r: BigRational)
    requires
        rat_denom(*a) >= 1,
        rat_denom(*b) >= 1,
        rat_numer(*b) != 0,
    ensures
        is_canon(ratv(r)),
        frac_eq(ratv(r), frac_div(ratv(*a), ratv(*b))),
{
    a / b
}

/// Relies on `Neg for &Ratio`: the exact negation; lowest terms are kept.
#[verifier::external_body]
pub fn rat_neg(a: &BigRational) -> (r: BigRational)
    requires
        rat_denom(*a) >= 1,
    ensures
        rat_numer(r) == -rat_numer(*a),
        rat_denom(r) == rat_denom(*a),
{
    -a
}

/// Relies on `Ord for Ratio`: it compares fractions by numeric value.
#[verifier::external_body]
pub fn rat_lt(a: &BigRational, b: &BigRational) -> (r: bool)
    requires
        rat_denom(*a) >= 1,
        rat_denom(*b) >= 1,
    ensures
        r == frac_lt(ratv(*a), ratv(*b)),
{
    a < b
}

/// Relies on `Clone for Ratio`: the copy holds the same fraction.
#[verifier::external_body]
pub fn rat_clone(a: &BigRational) -> (r: BigRational)
    ensures
        rat_numer(r) == rat_numer(*a),
        rat_denom(r) == rat_denom(*a),
{
    a.clone()
}

/// Relies on `Ratio::numer`: the stored numerator.
#[verifier::external_body]
pub fn rat_numer_int(a: &BigRational) -> (r: BigInt)
    ensures
        big_value(r) == rat_numer(*a),
{
    a.numer().clone()
}

/// Relies on `Ratio::denom`: the stored denominator.
#[verifier::external_body]
pub fn rat_denom_int(a: &BigRational) -> (r: BigInt)
    ensures
        big_value(r) == rat_denom(*a),
{
    a.denom().clone()
}

} // verus!
