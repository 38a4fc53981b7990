//! Simplification and conversion behaviour on concrete values.

use rationals::Bit;
use rationals::Integer;
use rationals::R;
use rationals::Simplify;
use rationals::Unsigned;
use rationals::arith::gcd_u64;
use rationals::arith::pow_u64;
use rationals::conversions::FromBit;
use rationals::conversions::FromInteger;
use rationals::conversions::FromRational;
use rationals::conversions::FromUnsigned;
use rationals::conversions::IntoBit;
use rationals::conversions::IntoInteger;
use rationals::conversions::IntoRational;
use rationals::conversions::IntoUnsigned;

fn u(v: u64) -> Unsigned {
    Unsigned { value: v }
}

fn pos(v: u64) -> Integer {
    Integer::PInt(u(v))
}

fn neg(v: u64) -> Integer {
    Integer::NInt(u(v))
}

fn r(num: Integer, den: u64) -> R {
    R::from_parts(num, u(den))
}

#[test]
fn reduction_example_positive() {
    assert_eq!(r(pos(6), 8).simplify(), r(pos(3), 4));
}

#[test]
fn reduction_example_negative() {
    assert_eq!(r(neg(6), 8).simplify(), r(neg(3), 4));
}

#[test]
fn canonical_zero_collapses_denominator() {
    assert_eq!(r(Integer::Z0, 8).simplify(), r(Integer::Z0, 1));
    assert_eq!(r(Integer::Z0, 1).simplify(), r(Integer::Z0, 1));
    assert_eq!(r(Integer::Z0, u64::MAX).simplify(), r(Integer::Z0, 1));
}

#[test]
fn simplify_is_idempotent() {
    let once = r(pos(84), 126).simplify();
    assert_eq!(once.simplify(), once);
    let once_negative = r(neg(84), 126).simplify();
    assert_eq!(once_negative.simplify(), once_negative);
}

#[test]
fn simplify_on_coprime_pair_is_identity() {
    assert_eq!(r(pos(3), 4).simplify(), r(pos(3), 4));
    assert_eq!(r(neg(5), 7).simplify(), r(neg(5), 7));
    assert_eq!(r(pos(1), 1).simplify(), r(pos(1), 1));
}

#[test]
fn cross_representation_equality() {
    // Two spellings of the same number meet in one canonical representation.
    assert_eq!(r(pos(6), 8).simplify(), r(pos(3), 4).simplify());
    assert_eq!(r(neg(10), 4).simplify(), r(neg(5), 2).simplify());
}

#[test]
fn accessors_return_the_parts() {
    let x = R::new(pos(3), u(4));
    assert_eq!(x.numerator(), pos(3));
    assert_eq!(x.denominator(), u(4));
    let y = R::from_parts(neg(2), u(9));
    assert_eq!(y.numerator(), neg(2));
    assert_eq!(y.denominator(), u(9));
}

#[test]
fn gcd_machine_values() {
    assert_eq!(gcd_u64(12, 18), 6);
    assert_eq!(gcd_u64(7, 0), 7);
    assert_eq!(gcd_u64(0, 7), 7);
    assert_eq!(gcd_u64(1, 999), 1);
    assert_eq!(gcd_u64(5, 5), 5);
    assert_eq!(gcd_u64(u64::MAX, u64::MAX), u64::MAX);
}

#[test]
fn pow_machine_values() {
    assert_eq!(pow_u64(2, 10), 1024);
    assert_eq!(pow_u64(3, 0), 1);
    assert_eq!(pow_u64(0, 0), 1);
    assert_eq!(pow_u64(0, 5), 0);
    assert_eq!(pow_u64(1, 100), 1);
}

#[test]
fn integer_addition_handles_signs() {
    assert_eq!(pos(3).add(neg(5)), neg(2));
    assert_eq!(neg(3).add(pos(5)), pos(2));
    assert_eq!(pos(4).add(neg(4)), Integer::Z0);
    assert_eq!(pos(4).add(pos(5)), pos(9));
    assert_eq!(neg(4).add(neg(5)), neg(9));
    assert_eq!(Integer::Z0.add(neg(2)), neg(2));
}

#[test]
fn integer_multiplication_handles_signs() {
    assert_eq!(pos(3).mul(pos(5)), pos(15));
    assert_eq!(pos(3).mul(neg(5)), neg(15));
    assert_eq!(neg(3).mul(neg(5)), pos(15));
    assert_eq!(neg(3).mul(Integer::Z0), Integer::Z0);
}

#[test]
fn bit_conversions() {
    assert_eq!(Bit::B0.from_unsigned(), u(0));
    assert_eq!(Bit::B1.from_unsigned(), u(1));
    assert_eq!(Bit::B0.from_integer(), Integer::Z0);
    assert_eq!(Bit::B1.from_integer(), pos(1));
    assert_eq!(Bit::B0.from_rational(), r(Integer::Z0, 1));
    assert_eq!(Bit::B1.from_rational(), r(pos(1), 1));
    assert_eq!(Bit::B1.from_bit(), Bit::B1);
}

#[test]
fn unsigned_conversions() {
    assert_eq!(u(0).from_bit(), Bit::B0);
    assert_eq!(u(1).from_bit(), Bit::B1);
    assert_eq!(u(0).from_integer(), Integer::Z0);
    assert_eq!(u(42).from_integer(), pos(42));
    assert_eq!(u(42).from_rational(), r(pos(42), 1));
    assert_eq!(u(42).from_unsigned(), u(42));
}

#[test]
fn integer_conversions() {
    assert_eq!(Integer::Z0.from_bit(), Bit::B0);
    assert_eq!(pos(1).from_bit(), Bit::B1);
    assert_eq!(Integer::Z0.from_unsigned(), u(0));
    assert_eq!(pos(9).from_unsigned(), u(9));
    assert_eq!(neg(9).from_rational(), r(neg(9), 1));
    assert_eq!(pos(9).from_integer(), pos(9));
}

#[test]
fn rational_conversions() {
    assert_eq!(r(Integer::Z0, 1).from_bit(), Bit::B0);
    assert_eq!(r(pos(1), 1).from_bit(), Bit::B1);
    assert_eq!(r(pos(42), 1).from_unsigned(), u(42));
    assert_eq!(r(Integer::Z0, 1).from_unsigned(), u(0));
    assert_eq!(r(neg(42), 1).from_integer(), neg(42));
    assert_eq!(r(pos(3), 4).from_rational(), r(pos(3), 4));
}

#[test]
fn into_direction_is_granted_automatically() {
    assert_eq!(u(1).into_bit(), Bit::B1);
    assert_eq!(Bit::B1.into_unsigned(), u(1));
    assert_eq!(u(42).into_integer(), pos(42));
    assert_eq!(pos(7).into_rational(), r(pos(7), 1));
    assert_eq!(r(pos(5), 1).into_integer(), pos(5));
}
