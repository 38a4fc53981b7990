//! The `Integer` conversion target, and the conversions out of `Integer`.

use vstd::prelude::*;
use crate::numbers::Bit;
use crate::numbers::Integer;
use crate::numbers::Unsigned;
use crate::rational::R;
use crate::conversions::conversion_bit::FromBit;
use crate::conversions::conversion_unsigned::FromUnsigned;
use crate::conversions::conversion_rational::FromRational;

verus! {

/// Conversion of a value into its [`Integer`] equivalent.
///
/// An implementation exists only where the value is a whole number, and
/// `has_integer_form` says exactly when that is.
pub trait FromInteger {
    /// Whether the value is representable as an [`Integer`].
    spec fn has_integer_form(&self) -> bool;

    /// The [`Integer`] the value converts to.
    spec fn integer_form(&self) -> Integer;

    /// Computes the [`Integer`] equivalent of `self`.
    fn from_integer(&self) -> (i: Integer)
        requires
            self.has_integer_form(),
        ensures
            i == self.integer_form(),
    ;
}

/// Converts the implementor's type into an [`Integer`].
///
/// Granted automatically to every type implementing [`FromInteger`].
pub trait IntoInteger: FromInteger {
    /// Converts into an [`Integer`].
    fn into_integer(&self) -> (i: Integer)
        requires
            self.has_integer_form(),
        ensures
            i == self.integer_form(),
    ;
}

impl<T: FromInteger> IntoInteger for T {
    fn into_integer(&self) -> (i: Integer) {
        self.from_integer()
    }
}

// Conversions with bits:
impl FromBit for Integer {
    open spec fn has_bit_form(&self) -> bool {
        self.inv() && 0 <= self.val() <= 1
    }

    open spec fn bit_form(&self) -> Bit {
        if self.val() == 0 {
            Bit::B0
        } else {
            Bit::B1
        }
    }

    fn from_bit(&self) -> (b: Bit) {
        match *self {
            Integer::Z0 => Bit::B0,
            _ => Bit::B1,
        }
    }
}

// Conversions with unsigned integers:
impl FromUnsigned for Integer {
    open spec fn has_unsigned_form(&self) -> bool {
        self.inv() && self.val() >= 0
    }

    open spec fn unsigned_form(&self) -> Unsigned {
        match *self {
            Integer::Z0 => Unsigned { value: 0 },
            Integer::PInt(m) => m,
            Integer::NInt(m) => m,
        }
    }

    fn from_unsigned(&self) -> (u: Unsigned) {
        match *self {
            Integer::Z0 => Unsigned { value: 0 },
            Integer::PInt(m) => m,
            Integer::NInt(m) => m,
        }
    }
}

// Conversions with integers:
impl FromInteger for Integer {
    open spec fn has_integer_form(&self) -> bool {
        self.inv()
    }

    open spec fn integer_form(&self) -> Integer {
        *self
    }

    fn from_integer(&self) -> (i: Integer) {
        *self
    }
}

// Conversions with rationals:
impl FromRational for Integer {
    open spec fn has_rational_form(&self) -> bool {
        self.inv()
    }

    open spec fn rational_form(&self) -> R {
        R { num: *self, den: Unsigned { value: 1 } }
    }

    fn from_rational(&self) -> (r: R) {
        R { num: *self, den: Unsigned { value: 1 } }
    }
}

} // verus!
