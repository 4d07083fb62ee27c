//! Numbers of the language: IEEE-754 binary64 values, held as their bit patterns.
use vstd::prelude::*;

use rustc_apfloat::ieee::Double;
use rustc_apfloat::Float;

verus! {

/// The sum of two numbers, rounded to nearest, ties to even.
pub uninterp spec fn float_add(a: u64, b: u64) -> u64;

/// The difference of two numbers, rounded to nearest, ties to even.
pub uninterp spec fn float_sub(a: u64, b: u64) -> u64;

/// The product of two numbers, rounded to nearest, ties to even.
pub uninterp spec fn float_mul(a: u64, b: u64) -> u64;

/// The quotient of two numbers, rounded to nearest, ties to even.
pub uninterp spec fn float_div(a: u64, b: u64) -> u64;

/// The remainder of truncating division, with the sign of the dividend (C's `fmod`).
pub uninterp spec fn float_rem(a: u64, b: u64) -> u64;

/// `a` raised to the power `b`. Where this is NaN, only that it is NaN is fixed: the sign
/// and payload of a NaN result vary between machines.
pub uninterp spec fn float_pow(a: u64, b: u64) -> u64;

/// The number that decimal text denotes, correctly rounded, if the text is a number.
pub uninterp spec fn float_parse(s: Seq<char>) -> Option<u64>;

pub const SIGN_BIT: u64 = 0x8000_0000_0000_0000;

pub const EXPONENT_BITS: u64 = 0x7ff0_0000_0000_0000;

pub const FRACTION_BITS: u64 = 0x000f_ffff_ffff_ffff;

pub const MAGNITUDE_BITS: u64 = 0x7fff_ffff_ffff_ffff;

/// The one NaN that the language produces from a power: positive, quiet, empty payload.
pub const CANONICAL_NAN: u64 = 0x7ff8_0000_0000_0000;

/// `b`, with every NaN replaced by the canonical one.
pub open spec fn canonical(b: u64) -> u64 {
    if is_nan(b) {
        CANONICAL_NAN
    } else {
        b
    }
}

pub open spec fn is_nan(b: u64) -> bool {
    (b & EXPONENT_BITS) == EXPONENT_BITS && (b & FRACTION_BITS) != 0
}

pub open spec fn is_sign_negative(b: u64) -> bool {
    (b & SIGN_BIT) != 0
}

/// Outside of NaN, numbers are ordered as these integers are: the magnitude bits, negated
/// when the sign bit is set (so that both zeros map to 0).
pub open spec fn order_key(b: u64) -> int {
    if is_sign_negative(b) {
        -((b & MAGNITUDE_BITS) as int)
    } else {
        (b & MAGNITUDE_BITS) as int
    }
}

/// IEEE equality: NaN equals nothing, and the two zeros are equal.
pub open spec fn num_eq(a: u64, b: u64) -> bool {
    !is_nan(a) && !is_nan(b) && order_key(a) == order_key(b)
}

pub open spec fn num_lt(a: u64, b: u64) -> bool {
    !is_nan(a) && !is_nan(b) && order_key(a) < order_key(b)
}

pub open spec fn num_le(a: u64, b: u64) -> bool {
    !is_nan(a) && !is_nan(b) && order_key(a) <= order_key(b)
}

pub open spec fn is_zero(b: u64) -> bool {
    (b & MAGNITUDE_BITS) == 0
}

/// Negation flips the sign bit, NaN included.
pub open spec fn negate(b: u64) -> u64 {
    b ^ SIGN_BIT
}

pub fn number_is_nan(b: u64) -> (r: bool)
    ensures
        r == is_nan(b),
{
    (b & EXPONENT_BITS) == EXPONENT_BITS && (b & FRACTION_BITS) != 0
}

/// Replaces every NaN by the canonical one.
pub fn number_canonical(b: u64) -> (r: u64)
    ensures
        r == canonical(b),
{
    if number_is_nan(b) {
        CANONICAL_NAN
    } else {
        b
    }
}

/// `a` raised to the power `b`, with a NaN result made canonical.
pub fn number_power(a: u64, b: u64) -> (r: u64)
    ensures
        r == canonical(float_pow(a, b)),
{
    number_canonical(number_pow(a, b))
}

pub fn number_is_zero(b: u64) -> (r: bool)
    ensures
        r == is_zero(b),
{
    (b & MAGNITUDE_BITS) == 0
}

pub fn number_negate(b: u64) -> (r: u64)
    ensures
        r == negate(b),
{
    b ^ SIGN_BIT
}

/// Compares the order keys of two numbers: -1, 0 or 1.
fn compare_keys(a: u64, b: u64) -> (r: i8)
    ensures
        r == -1 <==> order_key(a) < order_key(b),
        r == 0 <==> order_key(a) == order_key(b),
        r == 1 <==> order_key(a) > order_key(b),
{
    let ma = a & MAGNITUDE_BITS;
    let mb = b & MAGNITUDE_BITS;
    let na = (a & SIGN_BIT) != 0;
    let nb = (b & SIGN_BIT) != 0;
    let (ka_neg, ka) = if na && ma != 0 {
        (true, ma)
    } else {
        (false, ma)
    };
    let (kb_neg, kb) = if nb && mb != 0 {
        (true, mb)
    } else {
        (false, mb)
    };
    if !ka_neg && !kb_neg {
        if ka < kb {
            -1
        } else if ka == kb {
            0
        } else {
            1
        }
    } else if ka_neg && kb_neg {
        if kb < ka {
            -1
        } else if ka == kb {
            0
        } else {
            1
        }
    } else if ka_neg {
        -1
    } else {
        1
    }
}

pub fn number_eq(a: u64, b: u64) -> (r: bool)
    ensures
        r == num_eq(a, b),
{
    !number_is_nan(a) && !number_is_nan(b) && compare_keys(a, b) == 0
}

pub fn number_lt(a: u64, b: u64) -> (r: bool)
    ensures
        r == num_lt(a, b),
{
    !number_is_nan(a) && !number_is_nan(b) && compare_keys(a, b) == -1
}

pub fn number_le(a: u64, b: u64) -> (r: bool)
    ensures
        r == num_le(a, b),
{
    !number_is_nan(a) && !number_is_nan(b) && compare_keys(a, b) != 1
}

/// Relies on rustc_apfloat's `Double` addition (`+`, ties to even) on the two bit patterns.
#[verifier::external_body]
pub(crate) fn number_add(a: u64, b: u64) -> (r: u64)
    ensures
        r == float_add(a, b),
{
    (Double::from_bits(a as u128) + Double::from_bits(b as u128)).value.to_bits() as u64
}

/// Relies on rustc_apfloat's `Double` subtraction (`-`, ties to even).
#[verifier::external_body]
pub(crate) fn number_sub(a: u64, b: u64) -> (r: u64)
    ensures
        r == float_sub(a, b),
{
    (Double::from_bits(a as u128) - Double::from_bits(b as u128)).value.to_bits() as u64
}

/// Relies on rustc_apfloat's `Double` multiplication (`*`, ties to even).
#[verifier::external_body]
pub(crate) fn number_mul(a: u64, b: u64) -> (r: u64)
    ensures
        r == float_mul(a, b),
{
    (Double::from_bits(a as u128) * Double::from_bits(b as u128)).value.to_bits() as u64
}

/// Relies on rustc_apfloat's `Double` division (`/`, ties to even).
#[verifier::external_body]
pub(crate) fn number_div(a: u64, b: u64) -> (r: u64)
    ensures
        r == float_div(a, b),
{
    (Double::from_bits(a as u128) / Double::from_bits(b as u128)).value.to_bits() as u64
}

/// Relies on rustc_apfloat's `Double` remainder (`%`, which is `c_fmod`).
#[verifier::external_body]
pub(crate) fn number_rem(a: u64, b: u64) -> (r: u64)
    ensures
        r == float_rem(a, b),
{
    (Double::from_bits(a as u128) % Double::from_bits(b as u128)).value.to_bits() as u64
}

/// Relies on libm's `pow`, with bytemuck's `cast` reinterpreting the bit patterns as the
/// binary64 values that `pow` takes and returns.
/// A NaN result is only promised to be NaN: its sign and payload depend on the machine.
#[verifier::external_body]
pub(crate) fn number_pow(a: u64, b: u64) -> (r: u64)
    ensures
        is_nan(r) == is_nan(float_pow(a, b)),
        !is_nan(r) ==> r == float_pow(a, b),
{
    bytemuck::cast(libm::pow(bytemuck::cast(a), bytemuck::cast(b)))
}

/// Relies on rustc_apfloat's `Double` `FromStr` (decimal text, rounded to nearest, ties to
/// even); `None` where it reports an error.
#[verifier::external_body]
pub(crate) fn number_parse(s: &str) -> (r: Option<u64>)
    ensures
        r == float_parse(s@),
{
    match s.parse::<Double>() {
        Ok(d) => Some(d.to_bits() as u64),
        Err(_) => None,
    }
}

} // verus!
