//! Rational numbers in canonical form, with verified arithmetic.
//!
//! A rational is a pair of an [`Integer`](numbers::Integer) numerator and a
//! non-zero [`Unsigned`](numbers::Unsigned) denominator.  Two representations
//! of the same rational are equal only after both have been
//! [simplified](rational::Simplify), so every operation here routes its result
//! through GCD reduction and the contracts state the canonical outcome exactly.

pub mod arith;
pub mod numbers;
pub mod rational;
pub mod conversions;

pub use numbers::Bit;
pub use numbers::Unsigned;
pub use numbers::Integer;
pub use numbers::Comparison;
pub use rational::R;
pub use rational::Simplify;
