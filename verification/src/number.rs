//! Numbers of the language.
//!
//! A number is an IEEE 754 binary64 value. The library never looks inside one:
//! it carries the 64-bit pattern around and hands it to `rustc_apfloat`, a
//! software implementation of IEEE 754, whenever arithmetic is needed. What
//! that crate computes is not proved here. Each operation has a name in
//! contracts (`number_sum`, `number_order`, ...), which stands for whatever
//! the crate computes, and the contracts of the rest of the library are
//! stated over those names.
use rustc_apfloat::ieee::Double;
use rustc_apfloat::Float;
use vstd::prelude::*;

verus! {

/// A number, held as the bit pattern of an IEEE 754 binary64 value.
///
/// `==` on `Number` compares bit patterns. The language's own comparison,
/// under which `0` equals `-0` and a NaN equals nothing, is `number_order`.
#[derive(Clone, Copy, Debug, PartialEq, Eq, Structural)]
pub struct Number {
    pub bits: u64,
}

/// How two numbers compare. `Unordered` is the answer when either is a NaN.
#[derive(Clone, Copy, Debug, PartialEq, Eq, Structural)]
pub enum Comparison {
    Less,
    Equal,
    Greater,
    Unordered,
}

/// The bits of the binary64 sum, rounded to nearest with ties to even.
pub uninterp spec fn number_sum(a: u64, b: u64) -> u64;

/// The bits of the binary64 difference, rounded to nearest with ties to even.
pub uninterp spec fn number_difference(a: u64, b: u64) -> u64;

/// The bits of the binary64 product, rounded to nearest with ties to even.
pub uninterp spec fn number_product(a: u64, b: u64) -> u64;

/// The bits of the binary64 quotient, rounded to nearest with ties to even.
/// Division by zero gives an infinity or a NaN, as IEEE 754 has it.
pub uninterp spec fn number_quotient(a: u64, b: u64) -> u64;

/// The IEEE 754 comparison of two binary64 values.
pub uninterp spec fn number_order(a: u64, b: u64) -> Comparison;

/// The binary64 value rounded toward zero to a 32-bit signed integer:
/// 0 for a NaN, the nearest bound for a value out of range.
pub uninterp spec fn number_truncation(a: u64) -> i32;

/// The bits of the binary64 value equal to the integer.
pub uninterp spec fn number_of_int(i: i32) -> u64;

/// The bits of the binary64 value nearest to a decimal literal, where the
/// literal has one.
pub uninterp spec fn decimal_value(text: Seq<char>) -> Option<u64>;

/// Whether a character is a decimal digit.
pub open spec fn is_digit(c: char) -> bool {
    '0' <= c && c <= '9'
}

/// Whether a text is made of decimal digits only.
pub open spec fn all_digits(text: Seq<char>) -> bool {
    forall|i: int| 0 <= i < text.len() ==> is_digit(#[trigger] text[i])
}

/// An unsigned decimal literal: digits, or digits, a dot and digits.
pub open spec fn is_unsigned_literal(text: Seq<char>) -> bool {
    ||| text.len() > 0 && all_digits(text)
    ||| exists|dot: int|
        0 < dot < text.len() - 1 && #[trigger] text[dot] == '.' && all_digits(text.subrange(0, dot))
            && all_digits(text.subrange(dot + 1, text.len() as int))
}

/// A decimal literal: an unsigned literal, or `-` and an unsigned literal.
pub open spec fn is_decimal_literal(text: Seq<char>) -> bool {
    ||| is_unsigned_literal(text)
    ||| text.len() > 0 && text[0] == '-' && is_unsigned_literal(text.subrange(1, text.len() as int))
}

impl Number {
    /// The sum of two numbers.
    pub open spec fn plus(self, other: Number) -> Number {
        Number { bits: number_sum(self.bits, other.bits) }
    }

    /// The difference of two numbers.
    pub open spec fn minus(self, other: Number) -> Number {
        Number { bits: number_difference(self.bits, other.bits) }
    }

    /// The product of two numbers.
    pub open spec fn times(self, other: Number) -> Number {
        Number { bits: number_product(self.bits, other.bits) }
    }

    /// The quotient of two numbers.
    pub open spec fn over(self, other: Number) -> Number {
        Number { bits: number_quotient(self.bits, other.bits) }
    }

    /// How this number compares with another.
    pub open spec fn order(self, other: Number) -> Comparison {
        number_order(self.bits, other.bits)
    }

    /// The number, rounded toward zero to a 32-bit integer.
    pub open spec fn truncation(self) -> i32 {
        number_truncation(self.bits)
    }

    /// The number equal to an integer.
    pub open spec fn of_int(i: i32) -> Number {
        Number { bits: number_of_int(i) }
    }
}

/// `Add::add` of `rustc_apfloat::ieee::Double`, on bit patterns. The contract
/// only names the result: the same two patterns always give the same sum.
#[verifier::external_body]
pub(crate) fn sum_of(a: Number, b: Number) -> (r: Number)
    ensures
        r.bits == number_sum(a.bits, b.bits),
{
    let x = Double::from_bits(u128::from(a.bits));
    let y = Double::from_bits(u128::from(b.bits));
    Number { bits: (x + y).value.to_bits() as u64 }
}

/// `Sub::sub` of `rustc_apfloat::ieee::Double`, on bit patterns. The contract
/// only names the result.
#[verifier::external_body]
pub(crate) fn difference_of(a: Number, b: Number) -> (r: Number)
    ensures
        r.bits == number_difference(a.bits, b.bits),
{
    let x = Double::from_bits(u128::from(a.bits));
    let y = Double::from_bits(u128::from(b.bits));
    Number { bits: (x - y).value.to_bits() as u64 }
}

/// `Mul::mul` of `rustc_apfloat::ieee::Double`, on bit patterns. The contract
/// only names the result.
#[verifier::external_body]
pub(crate) fn product_of(a: Number, b: Number) -> (r: Number)
    ensures
        r.bits == number_product(a.bits, b.bits),
{
    let x = Double::from_bits(u128::from(a.bits));
    let y = Double::from_bits(u128::from(b.bits));
    Number { bits: (x * y).value.to_bits() as u64 }
}

/// `Div::div` of `rustc_apfloat::ieee::Double`, on bit patterns. The contract
/// only names the result.
#[verifier::external_body]
pub(crate) fn quotient_of(a: Number, b: Number) -> (r: Number)
    ensures
        r.bits == number_quotient(a.bits, b.bits),
{
    let x = Double::from_bits(u128::from(a.bits));
    let y = Double::from_bits(u128::from(b.bits));
    Number { bits: (x / y).value.to_bits() as u64 }
}

/// `Float::to_i128` of `rustc_apfloat::ieee::Double` at a width of 32 bits,
/// which rounds toward zero, gives 0 for a NaN and the nearest bound for a
/// value out of range. The contract only names the result.
#[verifier::external_body]
pub(crate) fn truncation_of(a: Number) -> (r: i32)
    ensures
        r == number_truncation(a.bits),
{
    Double::from_bits(u128::from(a.bits)).to_i128(32).value as i32
}

/// `Float::from_i128` of `rustc_apfloat::ieee::Double`. The contract only
/// names the result.
#[verifier::external_body]
pub(crate) fn number_from_int(i: i32) -> (r: Number)
    ensures
        r.bits == number_of_int(i),
{
    Number { bits: Double::from_i128(i128::from(i)).value.to_bits() as u64 }
}

/// `FromStr::from_str` of `rustc_apfloat::ieee::Double`, on a decimal
/// literal. The contract names the value where the crate gives one, and says
/// that the literal has no value where the crate gives an error.
#[verifier::external_body]
pub(crate) fn literal_value(text: &str) -> (r: Option<Number>)
    requires
        is_decimal_literal(text@),
    ensures
        match r {
            Some(n) => decimal_value(text@) == Some(n.bits),
            None => decimal_value(text@) is None,
        },
{
    match text.parse::<Double>() {
        Ok(x) => Some(Number { bits: x.to_bits() as u64 }),
        Err(_) => None,
    }
}

} // verus!
