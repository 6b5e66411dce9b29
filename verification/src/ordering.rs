//! The comparison of two numbers.
use crate::number::{number_order, Comparison, Number};
use rustc_apfloat::ieee::Double;
use rustc_apfloat::Float;
use std::cmp::Ordering;
use vstd::prelude::*;

verus! {

/// `PartialOrd::partial_cmp` of `rustc_apfloat::ieee::Double`, on bit
/// patterns. The contract only names the result; `None`, which the crate
/// returns when either side is a NaN, is `Comparison::Unordered`.
#[verifier::external_body]
pub(crate) fn order_of(a: Number, b: Number) -> (r: Comparison)
    ensures
        r == number_order(a.bits, b.bits),
{
    let x = Double::from_bits(u128::from(a.bits));
    let y = Double::from_bits(u128::from(b.bits));
    match x.partial_cmp(&y) {
        Some(Ordering::Less) => Comparison::Less,
        Some(Ordering::Equal) => Comparison::Equal,
        Some(Ordering::Greater) => Comparison::Greater,
        None => Comparison::Unordered,
    }
}

} // verus!
