//! The `Bit` conversion target, and the conversions out of `Bit`.

use vstd::prelude::*;
use crate::numbers::Bit;
use crate::numbers::Integer;
use crate::numbers::Unsigned;
use crate::rational::R;
use crate::conversions::conversion_unsigned::FromUnsigned;
use crate::conversions::conversion_integer::FromInteger;
use crate::conversions::conversion_rational::FromRational;

verus! {

/// Conversion of a value into its [`Bit`] equivalent.
///
/// An implementation exists only where the value is representable as a bit,
/// and `has_bit_form` says exactly when that is.
pub trait FromBit {
    /// Whether the value is representable as a [`Bit`].
    spec fn has_bit_form(&self) -> bool;

    /// The [`Bit`] the value converts to.
    spec fn bit_form(&self) -> Bit;

    /// Computes the [`Bit`] equivalent of `self`.
    fn from_bit(&self) -> (b: Bit)
        requires
            self.has_bit_form(),
        ensures
            b == self.bit_form(),
    ;
}

/// Converts the implementor's type into a [`Bit`].
///
/// Granted automatically to every type implementing [`FromBit`].
pub trait IntoBit: FromBit {
    /// Converts into a [`Bit`].
    fn into_bit(&self) -> (b: Bit)
        requires
            self.has_bit_form(),
        ensures
            b == self.bit_form(),
    ;
}

impl<T: FromBit> IntoBit for T {
    fn into_bit(&self) -> (b: Bit) {
        self.from_bit()
    }
}

// Conversions with bits:
impl FromBit for Bit {
    open spec fn has_bit_form(&self) -> bool {
        true
    }

    open spec fn bit_form(&self) -> Bit {
        *self
    }

    fn from_bit(&self) -> (b: Bit) {
        *self
    }
}

// Conversions with unsigned integers:
impl FromUnsigned for Bit {
    open spec fn has_unsigned_form(&self) -> bool {
        true
    }

    open spec fn unsigned_form(&self) -> Unsigned {
        match *self {
            Bit::B0 => Unsigned { value: 0 },
            Bit::B1 => Unsigned { value: 1 },
        }
    }

    fn from_unsigned(&self) -> (u: Unsigned) {
        match *self {
            Bit::B0 => Unsigned { value: 0 },
            Bit::B1 => Unsigned { value: 1 },
        }
    }
}

// Conversions with integers:
impl FromInteger for Bit {
    open spec fn has_integer_form(&self) -> bool {
        true
    }

    open spec fn integer_form(&self) -> Integer {
        match *self {
            Bit::B0 => Integer::Z0,
            Bit::B1 => Integer::PInt(Unsigned { value: 1 }),
        }
    }

    fn from_integer(&self) -> (i: Integer) {
        match *self {
            Bit::B0 => Integer::Z0,
            Bit::B1 => Integer::PInt(Unsigned { value: 1 }),
        }
    }
}

// Conversions with rationals:
impl FromRational for Bit {
    open spec fn has_rational_form(&self) -> bool {
        true
    }

    open spec fn rational_form(&self) -> R {
        match *self {
            Bit::B0 => R { num: Integer::Z0, den: Unsigned { value: 1 } },
            Bit::B1 => R { num: Integer::PInt(Unsigned { value: 1 }), den: Unsigned { value: 1 } },
        }
    }

    fn from_rational(&self) -> (r: R) {
        match *self {
            Bit::B0 => R { num: Integer::Z0, den: Unsigned { value: 1 } },
            Bit::B1 => R { num: Integer::PInt(Unsigned { value: 1 }), den: Unsigned { value: 1 } },
        }
    }
}

} // verus!
