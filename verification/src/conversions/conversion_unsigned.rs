//! The `Unsigned` conversion target, and the conversions out of `Unsigned`.

use vstd::prelude::*;
use crate::numbers::Bit;
use crate::numbers::Integer;
use crate::numbers::Unsigned;
use crate::rational::R;
use crate::conversions::conversion_bit::FromBit;
use crate::conversions::conversion_integer::FromInteger;
use crate::conversions::conversion_rational::FromRational;

verus! {

/// Conversion of a value into its [`Unsigned`] equivalent.
///
/// An implementation exists only where the value is a non-negative whole
/// number, and `has_unsigned_form` says exactly when that is.
pub trait FromUnsigned {
    /// Whether the value is representable as an [`Unsigned`].
    spec fn has_unsigned_form(&self) -> bool;

    /// The [`Unsigned`] the value converts to.
    spec fn unsigned_form(&self) -> Unsigned;

    /// Computes the [`Unsigned`] equivalent of `self`.
    fn from_unsigned(&self) -> (u: Unsigned)
        requires
            self.has_unsigned_form(),
        ensures
            u == self.unsigned_form(),
    ;
}

/// Converts the implementor's type into an [`Unsigned`].
///
/// Granted automatically to every type implementing [`FromUnsigned`].
pub trait IntoUnsigned: FromUnsigned {
    /// Converts into an [`Unsigned`].
    fn into_unsigned(&self) -> (u: Unsigned)
        requires
            self.has_unsigned_form(),
        ensures
            u == self.unsigned_form(),
    ;
}

impl<T: FromUnsigned> IntoUnsigned for T {
    fn into_unsigned(&self) -> (u: Unsigned) {
        self.from_unsigned()
    }
}

// Conversions with bits:
impl FromBit for Unsigned {
    open spec fn has_bit_form(&self) -> bool {
        self.value <= 1
    }

    open spec fn bit_form(&self) -> Bit {
        if self.value == 0 {
            Bit::B0
        } else {
            Bit::B1
        }
    }

    fn from_bit(&self) -> (b: Bit) {
        if self.value == 0 {
            Bit::B0
        } else {
            Bit::B1
        }
    }
}

// Conversions with unsigned integers:
impl FromUnsigned for Unsigned {
    open spec fn has_unsigned_form(&self) -> bool {
        true
    }

    open spec fn unsigned_form(&self) -> Unsigned {
        *self
    }

    fn from_unsigned(&self) -> (u: Unsigned) {
        *self
    }
}

// Conversions with integers:
impl FromInteger for Unsigned {
    open spec fn has_integer_form(&self) -> bool {
        true
    }

    open spec fn integer_form(&self) -> Integer {
        if self.value == 0 {
            Integer::Z0
        } else {
            Integer::PInt(*self)
        }
    }

    fn from_integer(&self) -> (i: Integer) {
        if self.value == 0 {
            Integer::Z0
        } else {
            Integer::PInt(*self)
        }
    }
}

// Conversions with rationals:
impl FromRational for Unsigned {
    open spec fn has_rational_form(&self) -> bool {
        true
    }

    open spec fn rational_form(&self) -> R {
        R { num: self.integer_form(), den: Unsigned { value: 1 } }
    }

    fn from_rational(&self) -> (r: R) {
        R { num: self.from_integer(), den: Unsigned { value: 1 } }
    }
}

} // verus!
