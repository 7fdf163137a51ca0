//! Arbitrary-precision non-negative prices.
//!
//! A price is held as its base 2^32 digits, least significant first, which is
//! the form `num_bigint::BigUint` is built from and hands out. Contracts speak
//! of a price through its view, the natural number those digits denote.

use vstd::prelude::*;

verus! {

/// The natural number denoted by base 2^32 digits, least significant first.
pub open spec fn digits_value(digits: Seq<u32>) -> nat
    decreases digits.len(),
{
    if digits.len() == 0 {
        0
    } else {
        digits[0] as nat + 4294967296 * digits_value(digits.skip(1))
    }
}

/// Numeric `<=` on two digit strings, decided by `num_bigint`.
///
/// Trusted: `BigUint::from_slice` reads base 2^32 digits least significant
/// first (dropping high zero digits), and `BigUint`'s ordering is the numeric
/// ordering of the values so built.
#[verifier::external_body]
fn digits_at_most(a: &Vec<u32>, b: &Vec<u32>) -> (r: bool)
    ensures
        r == (digits_value(a@) <= digits_value(b@)),
{
    num_bigint::BigUint::from_slice(a.as_slice()) <= num_bigint::BigUint::from_slice(b.as_slice())
}

/// An arbitrary-precision non-negative price.
#[derive(Debug)]
pub struct Price {
    digits: Vec<u32>,
}

impl View for Price {
    type V = nat;

    closed spec fn view(&self) -> nat {
        digits_value(self.digits@)
    }
}

impl Clone for Price {
    fn clone(&self) -> (r: Self)
        ensures
            r@ == self@,
    {
        Price { digits: self.digits.clone() }
    }
}

impl Price {
    /// The digits held, least significant first.
    pub closed spec fn spec_digits(&self) -> Seq<u32> {
        self.digits@
    }

    /// A price's value is the number its digits denote.
    pub proof fn value_is_digits_value(&self)
        ensures
            self@ == digits_value(self.spec_digits()),
    {
    }

    /// Builds a price from base 2^32 digits, least significant first. High
    /// zero digits are allowed and do not change the value.
    pub fn from_digits(digits: Vec<u32>) -> (r: Price)
        ensures
            r.spec_digits() == digits@,
            r@ == digits_value(digits@),
    {
        Price { digits }
    }

    /// The base 2^32 digits of this price, least significant first.
    pub fn digits(&self) -> (r: &Vec<u32>)
        ensures
            r@ == self.spec_digits(),
    {
        &self.digits
    }

    /// The price with the value `v`.
    pub fn from_u64(v: u64) -> (r: Price)
        ensures
            r@ == v,
    {
        let low: u32 = (v % 4294967296) as u32;
        let high: u32 = (v / 4294967296) as u32;
        let mut digits: Vec<u32> = Vec::new();
        digits.push(low);
        digits.push(high);
        proof {
            let s = digits@;
            assert(s.skip(1)[0] == high);
            assert(s.skip(1).skip(1).len() == 0);
            reveal_with_fuel(digits_value, 3);
            assert(digits_value(s) == low as nat + 4294967296 * (high as nat + 4294967296 * 0));
        }
        Price { digits }
    }

    /// Whether this price is numerically at most `other`.
    pub fn at_most(&self, other: &Price) -> (r: bool)
        ensures
            r == (self@ <= other@),
    {
        digits_at_most(&self.digits, &other.digits)
    }

    /// Whether this price is numerically at least `other`.
    pub fn at_least(&self, other: &Price) -> (r: bool)
        ensures
            r == (self@ >= other@),
    {
        digits_at_most(&other.digits, &self.digits)
    }

    /// Whether the two prices have the same value.
    pub fn same(&self, other: &Price) -> (r: bool)
        ensures
            r == (self@ == other@),
    {
        digits_at_most(&self.digits, &other.digits) && digits_at_most(&other.digits, &self.digits)
    }
}

} // verus!
