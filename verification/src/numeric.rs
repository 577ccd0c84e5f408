use vstd::prelude::*;

use rustc_apfloat::Float;

verus! {

/// The bit pattern of the IEEE-754 double sum of the doubles whose bit
/// patterns are `a` and `b`, rounding to nearest, ties to even.
pub uninterp spec fn add_bits(a: u64, b: u64) -> u64;

/// The bit pattern of the IEEE-754 double difference `a - b`, over bit
/// patterns as in `add_bits`.
pub uninterp spec fn sub_bits(a: u64, b: u64) -> u64;

/// The bit pattern of the IEEE-754 double product, over bit patterns as in
/// `add_bits`.
pub uninterp spec fn mul_bits(a: u64, b: u64) -> u64;

/// The bit pattern of the IEEE-754 double quotient `a / b`, over bit
/// patterns as in `add_bits`. A zero divisor yields an infinity or NaN per
/// IEEE-754; it is never a fault.
pub uninterp spec fn div_bits(a: u64, b: u64) -> u64;

/// The bit pattern of the IEEE-754 double negation of the double whose bit
/// pattern is `a`.
pub uninterp spec fn neg_bits(a: u64) -> u64;

/// The bit pattern that reading `s` as a decimal number literal yields,
/// correctly rounded to the nearest IEEE-754 double, or `None` where `s` is
/// not a well-formed literal. The result depends on the bytes alone.
pub uninterp spec fn bits_of_dec(s: Seq<u8>) -> Option<u64>;

/// Relies on rustc_apfloat's `Double::from_bits`, its `Add` impl (IEEE
/// addition, rounding to nearest, ties to even), and `to_bits`: the result
/// depends on the operand bit patterns alone, and the call returns for
/// every pair of operands.
#[verifier::external_body]
pub(crate) fn num_add(a: u64, b: u64) -> (r: u64)
    ensures
        r == add_bits(a, b),
{
    let x = rustc_apfloat::ieee::Double::from_bits(a as u128);
    let y = rustc_apfloat::ieee::Double::from_bits(b as u128);
    (x + y).value.to_bits() as u64
}

/// Relies on rustc_apfloat's `Double` subtraction, as `num_add` does on its
/// addition.
#[verifier::external_body]
pub(crate) fn num_sub(a: u64, b: u64) -> (r: u64)
    ensures
        r == sub_bits(a, b),
{
    let x = rustc_apfloat::ieee::Double::from_bits(a as u128);
    let y = rustc_apfloat::ieee::Double::from_bits(b as u128);
    (x - y).value.to_bits() as u64
}

/// Relies on rustc_apfloat's `Double` multiplication, as `num_add` does on
/// its addition.
#[verifier::external_body]
pub(crate) fn num_mul(a: u64, b: u64) -> (r: u64)
    ensures
        r == mul_bits(a, b),
{
    let x = rustc_apfloat::ieee::Double::from_bits(a as u128);
    let y = rustc_apfloat::ieee::Double::from_bits(b as u128);
    (x * y).value.to_bits() as u64
}

/// Relies on rustc_apfloat's `Double` division, as `num_add` does on its
/// addition; a zero divisor yields an IEEE infinity or NaN, never a fault.
#[verifier::external_body]
pub(crate) fn num_div(a: u64, b: u64) -> (r: u64)
    ensures
        r == div_bits(a, b),
{
    let x = rustc_apfloat::ieee::Double::from_bits(a as u128);
    let y = rustc_apfloat::ieee::Double::from_bits(b as u128);
    (x / y).value.to_bits() as u64
}

/// Relies on rustc_apfloat's `Double` negation (`Neg`), which flips the
/// sign bit of the operand's bit pattern.
#[verifier::external_body]
pub(crate) fn num_neg(a: u64) -> (r: u64)
    ensures
        r == neg_bits(a),
{
    let x = rustc_apfloat::ieee::Double::from_bits(a as u128);
    (-x).to_bits() as u64
}

/// Relies on rustc_apfloat's `Double::from_str` (and `to_bits`): it parses
/// a decimal literal to the correctly rounded double, returns an error (and
/// never faults) on every other input, and depends on the bytes alone.
#[verifier::external_body]
pub(crate) fn num_parse(s: &[u8]) -> (r: Option<u64>)
    ensures
        r == bits_of_dec(s@),
{
    match core::str::from_utf8(s) {
        Ok(t) => match t.parse::<rustc_apfloat::ieee::Double>() {
            Ok(d) => Some(d.to_bits() as u64),
            Err(_) => None,
        },
        Err(_) => None,
    }
}

} // verus!
