use vstd::prelude::*;
use rustc_apfloat::Float;
use rustc_apfloat::Round;
use rustc_apfloat::ieee::Double;

verus! {

// Float values of the interpreted language are carried as IEEE-754 binary64
// bit patterns (`u64`).  All arithmetic on them is done by the software
// implementation in `rustc_apfloat`, which is deterministic: each operation
// below is a pure function of the operand bit patterns, so each result is
// given a name that contracts can refer to.

/// The bit pattern of the IEEE-754 sum of two binary64 values.
pub uninterp spec fn add_bits(a: u64, b: u64) -> u64;

/// The bit pattern of the IEEE-754 difference of two binary64 values.
pub uninterp spec fn sub_bits(a: u64, b: u64) -> u64;

/// The bit pattern of the IEEE-754 product of two binary64 values.
pub uninterp spec fn mul_bits(a: u64, b: u64) -> u64;

/// The bit pattern of the IEEE-754 quotient of two binary64 values.
pub uninterp spec fn div_bits(a: u64, b: u64) -> u64;

/// The bit pattern of the C-style `fmod` remainder of two binary64 values.
pub uninterp spec fn rem_bits(a: u64, b: u64) -> u64;

/// The IEEE-754 `<` comparison of two binary64 values (false on NaN).
pub uninterp spec fn lt_bits(a: u64, b: u64) -> bool;

/// The IEEE-754 `>` comparison of two binary64 values (false on NaN).
pub uninterp spec fn gt_bits(a: u64, b: u64) -> bool;

/// The IEEE-754 `==` comparison of two binary64 values (false on NaN,
/// true for positive vs. negative zero).
pub uninterp spec fn eq_bits(a: u64, b: u64) -> bool;

/// The bit pattern of the binary64 value nearest to a signed integer.
pub uninterp spec fn bits_of_i64(i: i64) -> u64;

/// The integer a binary64 value truncates to, saturating at the extremes,
/// with NaN going to zero.
pub uninterp spec fn i64_of_bits(a: u64) -> i64;

/// The bit pattern a decimal character string parses to, `None` when the
/// text is not a number the parser accepts.
pub uninterp spec fn bits_of_dec(s: Seq<char>) -> Option<u64>;

/// The decimal character string a binary64 value prints as.
pub uninterp spec fn dec_of_bits(a: u64) -> Seq<char>;

/// Relies on `rustc_apfloat::ieee::Double::add_r`: IEEE-754 binary64
/// addition, rounding to nearest, ties to even.
#[verifier::external_body]
pub fn float_add(a: u64, b: u64) -> (r: u64)
    ensures
        r == add_bits(a, b),
{
    Double::from_bits(a as u128).add_r(Double::from_bits(b as u128), Round::NearestTiesToEven)
        .value
        .to_bits() as u64
}

/// Relies on `rustc_apfloat::ieee::Double::sub_r`: IEEE-754 binary64
/// subtraction, rounding to nearest, ties to even.
#[verifier::external_body]
pub fn float_sub(a: u64, b: u64) -> (r: u64)
    ensures
        r == sub_bits(a, b),
{
    Double::from_bits(a as u128).sub_r(Double::from_bits(b as u128), Round::NearestTiesToEven)
        .value
        .to_bits() as u64
}

/// Relies on `rustc_apfloat::ieee::Double::mul_r`: IEEE-754 binary64
/// multiplication, rounding to nearest, ties to even.
#[verifier::external_body]
pub fn float_mul(a: u64, b: u64) -> (r: u64)
    ensures
        r == mul_bits(a, b),
{
    Double::from_bits(a as u128).mul_r(Double::from_bits(b as u128), Round::NearestTiesToEven)
        .value
        .to_bits() as u64
}

/// Relies on `rustc_apfloat::ieee::Double::div_r`: IEEE-754 binary64
/// division, rounding to nearest, ties to even; a zero divisor yields an
/// infinity or NaN, never a fault.
#[verifier::external_body]
pub fn float_div(a: u64, b: u64) -> (r: u64)
    ensures
        r == div_bits(a, b),
{
    Double::from_bits(a as u128).div_r(Double::from_bits(b as u128), Round::NearestTiesToEven)
        .value
        .to_bits() as u64
}

/// Relies on `rustc_apfloat::ieee::Double::c_fmod`: the C `fmod` remainder,
/// the same operation as `%` on Rust's native binary64 type; a zero divisor
/// yields NaN, never a fault.
#[verifier::external_body]
pub fn float_rem(a: u64, b: u64) -> (r: u64)
    ensures
        r == rem_bits(a, b),
{
    Double::from_bits(a as u128).c_fmod(Double::from_bits(b as u128)).value.to_bits() as u64
}

/// Relies on `rustc_apfloat::ieee::Double`'s `PartialOrd`: IEEE-754
/// ordering, in which NaN compares false with everything.
#[verifier::external_body]
pub fn float_lt(a: u64, b: u64) -> (r: bool)
    ensures
        r == lt_bits(a, b),
{
    Double::from_bits(a as u128) < Double::from_bits(b as u128)
}

/// Relies on `rustc_apfloat::ieee::Double`'s `PartialOrd`: IEEE-754
/// ordering, in which NaN compares false with everything.
#[verifier::external_body]
pub fn float_gt(a: u64, b: u64) -> (r: bool)
    ensures
        r == gt_bits(a, b),
{
    Double::from_bits(a as u128) > Double::from_bits(b as u128)
}

/// Relies on `rustc_apfloat::ieee::Double`'s `PartialEq`: IEEE-754
/// equality, false on NaN, true for the two zeroes.
#[verifier::external_body]
pub fn float_eq(a: u64, b: u64) -> (r: bool)
    ensures
        r == eq_bits(a, b),
{
    Double::from_bits(a as u128) == Double::from_bits(b as u128)
}

/// Relies on `rustc_apfloat::ieee::Double::from_i128`: conversion of a
/// signed integer to the nearest binary64 value, as Rust's own cast does.
#[verifier::external_body]
pub fn float_of_i64(i: i64) -> (r: u64)
    ensures
        r == bits_of_i64(i),
{
    Double::from_i128(i as i128).value.to_bits() as u64
}

/// Relies on `rustc_apfloat::ieee::Double::to_i128`: truncating conversion
/// to a signed integer, saturating at the extremes and sending NaN to zero,
/// as Rust's own cast does.
#[verifier::external_body]
pub fn float_to_i64(a: u64) -> (r: i64)
    ensures
        r == i64_of_bits(a),
{
    Double::from_bits(a as u128).to_i128(64).value as i64
}

/// Relies on `rustc_apfloat::ieee::Double::from_str_r`: correctly rounded
/// decimal-to-binary64 parsing; an unparsable string is reported as `None`.
#[verifier::external_body]
pub fn float_of_dec(s: &str) -> (r: Option<u64>)
    ensures
        r == bits_of_dec(s@),
{
    match Double::from_str_r(s, Round::NearestTiesToEven) {
        Ok(sa) => Some(sa.value.to_bits() as u64),
        Err(_) => None,
    }
}

/// Relies on `rustc_apfloat::ieee::Double`'s `Display`: a decimal form
/// with enough digits to parse back to the same binary64 value.
#[verifier::external_body]
pub fn float_to_dec(a: u64) -> (r: String)
    ensures
        r@ == dec_of_bits(a),
{
    format!("{}", Double::from_bits(a as u128))
}

/// The decimal character string a binary64 value prints as when held to
/// the given number of significant digits.
pub uninterp spec fn dec_digits_of(a: u64, p: int) -> Seq<char>;

/// Relies on `rustc_apfloat::ieee::Double`'s `Display` with an explicit
/// precision: the value printed to that many significant digits.
#[verifier::external_body]
pub fn float_to_dec_digits(a: u64, p: usize) -> (r: String)
    ensures
        r@ == dec_digits_of(a, p as int),
{
    format!("{:.1$}", Double::from_bits(a as u128), p)
}

/// The shortest digit count whose printed form parses back to the same
/// value wins; seventeen digits always suffice for binary64, with the
/// full form as a last resort.
pub open spec fn repr_search(a: u64, p: int) -> Seq<char>
    decreases 18 - p,
{
    if p > 17 {
        dec_of_bits(a)
    } else {
        let s = dec_digits_of(a, p);
        if bits_of_dec(s) == Option::Some(a) {
            s
        } else {
            repr_search(a, p + 1)
        }
    }
}

/// What a float prints as: `NaN` and the infinities by name, every finite
/// value as the shortest decimal text that parses back to the very same
/// bit pattern.
pub open spec fn float_repr_s(a: u64) -> Seq<char> {
    if !eq_bits(a, a) {
        "NaN"@
    } else if eq_bits(a, div_bits(bits_of_i64(1), bits_of_i64(0))) {
        "inf"@
    } else if eq_bits(a, div_bits(bits_of_i64(-1i64), bits_of_i64(0))) {
        "-inf"@
    } else {
        repr_search(a, 1)
    }
}

/// Print a float: the shortest decimal text that parses back to the same
/// value, with `NaN` and the infinities spelled by name.
#[verifier::loop_isolation(false)]
pub fn float_repr(a: u64) -> (r: String)
    ensures
        r@ == float_repr_s(a),
{
    if !float_eq(a, a) {
        return String::from_str("NaN");
    }
    let zero = float_of_i64(0);
    let pos_inf = float_div(float_of_i64(1), zero);
    let neg_inf = float_div(float_of_i64(-1), zero);
    if float_eq(a, pos_inf) {
        return String::from_str("inf");
    }
    if float_eq(a, neg_inf) {
        return String::from_str("-inf");
    }
    let mut p: usize = 1;
    while p <= 17
        invariant
            1 <= p <= 18,
            repr_search(a, 1) == repr_search(a, p as int),
        decreases 18 - p,
    {
        let s = float_to_dec_digits(a, p);
        let back = float_of_dec(s.as_str());
        let hit: bool = match back {
            Option::Some(b) => b == a,
            Option::None => false,
        };
        if hit {
            return s;
        }
        p = p + 1;
    }
    float_to_dec(a)
}

} // verus!
