//! Conversions between the numeric categories.
//!
//! The conversions happen between the categories [`Bit`](crate::numbers::Bit),
//! [`Unsigned`](crate::numbers::Unsigned), [`Integer`](crate::numbers::Integer)
//! and [`R`](crate::rational::R).  Like Rust's `From` and `Into` pairs, only
//! the `From...` traits need implementing: the matching `Into...` trait is
//! granted automatically.  A conversion exists exactly where the value is
//! representable in the target category without loss; each implementation
//! states that condition and the converted value exactly.

pub mod conversion_bit;
pub mod conversion_unsigned;
pub mod conversion_integer;
pub mod conversion_rational;

pub use conversion_bit::FromBit;
pub use conversion_bit::IntoBit;
pub use conversion_unsigned::FromUnsigned;
pub use conversion_unsigned::IntoUnsigned;
pub use conversion_integer::FromInteger;
pub use conversion_integer::IntoInteger;
pub use conversion_rational::FromRational;
pub use conversion_rational::IntoRational;
