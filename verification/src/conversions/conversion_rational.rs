//! The rational conversion target, and the conversions out of a rational.

use vstd::prelude::*;
use crate::numbers::Bit;
use crate::numbers::Integer;
use crate::numbers::Unsigned;
use crate::rational::R;
use crate::conversions::conversion_bit::FromBit;
use crate::conversions::conversion_unsigned::FromUnsigned;
use crate::conversions::conversion_integer::FromInteger;

verus! {

/// Conversion of a value into its rational ([`R`]) equivalent.
///
/// Every numeric category widens into the rationals, so `has_rational_form`
/// holds everywhere; the converted value is the number over denominator one.
pub trait FromRational {
    /// Whether the value is representable as a rational.
    spec fn has_rational_form(&self) -> bool;

    /// The rational the value converts to.
    spec fn rational_form(&self) -> R;

    /// Computes the rational equivalent of `self`.
    fn from_rational(&self) -> (r: R)
        requires
            self.has_rational_form(),
        ensures
            r == self.rational_form(),
    ;
}

/// Converts the implementor's type into a rational.
///
/// Granted automatically to every type implementing [`FromRational`].
pub trait IntoRational: FromRational {
    /// Converts into a rational.
    fn into_rational(&self) -> (r: R)
        requires
            self.has_rational_form(),
        ensures
            r == self.rational_form(),
    ;
}

impl<T: FromRational> IntoRational for T {
    fn into_rational(&self) -> (r: R) {
        self.from_rational()
    }
}

// Conversions with bits:
impl FromBit for R {
    open spec fn has_bit_form(&self) -> bool {
        self.wf() && self.den.value == 1 && 0 <= self.num.val() <= 1
    }

    open spec fn bit_form(&self) -> Bit {
        if self.num.val() == 0 {
            Bit::B0
        } else {
            Bit::B1
        }
    }

    fn from_bit(&self) -> (b: Bit) {
        match self.num {
            Integer::Z0 => Bit::B0,
            _ => Bit::B1,
        }
    }
}

// Conversions with unsigned integers:
impl FromUnsigned for R {
    open spec fn has_unsigned_form(&self) -> bool {
        self.wf() && self.den.value == 1 && self.num.val() >= 0
    }

    open spec fn unsigned_form(&self) -> Unsigned {
        match self.num {
            Integer::Z0 => Unsigned { value: 0 },
            Integer::PInt(m) => m,
            Integer::NInt(m) => m,
        }
    }

    fn from_unsigned(&self) -> (u: Unsigned) {
        match self.num {
            Integer::Z0 => Unsigned { value: 0 },
            Integer::PInt(m) => m,
            Integer::NInt(m) => m,
        }
    }
}

// Conversions with integers:
impl FromInteger for R {
    open spec fn has_integer_form(&self) -> bool {
        self.wf() && self.den.value == 1
    }

    open spec fn integer_form(&self) -> Integer {
        self.num
    }

    fn from_integer(&self) -> (i: Integer) {
        self.num
    }
}

// Conversions with rationals:
impl FromRational for R {
    open spec fn has_rational_form(&self) -> bool {
        self.wf()
    }

    open spec fn rational_form(&self) -> R {
        *self
    }

    fn from_rational(&self) -> (r: R) {
        *self
    }
}

} // verus!
