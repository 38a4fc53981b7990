//! The rational number entity.
//!
//! A rational is an [`Integer`] numerator over a non-zero [`Unsigned`]
//! denominator.  Two well-formed rationals that denote the same number are
//! equal as values only once both are in canonical form, so the constructors
//! here accept any pair and the [`Simplify`] step establishes canonicity;
//! every arithmetic operation routes its result through it.

use vstd::prelude::*;
use crate::arith::gcd;
use crate::numbers::Integer;
use crate::numbers::Unsigned;

pub mod simplify;
pub mod operations;

pub use simplify::Simplify;

verus! {

/// A rational number: numerator over non-zero denominator.
#[derive(Clone, Copy, Debug, PartialEq, Eq, Structural)]
pub struct R {
    /// The numerator.
    pub num: Integer,
    /// The denominator; well-formed values keep it non-zero.
    pub den: Unsigned,
}

impl R {
    /// Well-formedness: the numerator carries a sound sign tag and the
    /// denominator is non-zero.
    pub open spec fn wf(self) -> bool {
        &&& self.num.inv()
        &&& self.den.value > 0
    }

    /// The numerator's numeric value.
    pub open spec fn num_val(self) -> int {
        self.num.val()
    }

    /// The denominator's numeric value.
    pub open spec fn den_val(self) -> int {
        self.den.value as int
    }

    /// Canonical form: numerator magnitude and denominator are coprime.
    /// For a zero numerator this forces denominator one, since the GCD of
    /// zero and `d` is `d`.
    pub open spec fn is_canonical(self) -> bool {
        &&& self.wf()
        &&& gcd(self.num.magnitude(), self.den.value as nat) == 1
    }

    /// Both rationals denote the same number, by cross multiplication.
    pub open spec fn same_value(self, other: R) -> bool {
        self.num_val() * other.den_val() == other.num_val() * self.den_val()
    }

    /// Creates a rational from a numerator and denominator.
    ///
    /// The pair is stored as given: reduce it with [`Simplify`] before
    /// comparing it with other representations.
    pub fn new(num: Integer, den: Unsigned) -> (r: R)
        requires
            num.inv(),
            den.value > 0,
        ensures
            r == (R { num, den }),
    {
        R { num, den }
    }

    /// Builds a rational from a numerator and denominator.
    ///
    /// The same as [`R::new`]; reduce the result with [`Simplify`] before
    /// comparing it with other representations.
    pub fn from_parts(num: Integer, den: Unsigned) -> (r: R)
        requires
            num.inv(),
            den.value > 0,
        ensures
            r == (R { num, den }),
    {
        R { num, den }
    }

    /// Returns the numerator of the rational number.
    pub fn numerator(&self) -> (n: Integer)
        ensures
            n == self.num,
    {
        self.num
    }

    /// Returns the denominator of the rational number.
    pub fn denominator(&self) -> (d: Unsigned)
        ensures
            d == self.den,
    {
        self.den
    }
}

} // verus!
