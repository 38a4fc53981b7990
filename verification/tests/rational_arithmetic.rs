//! Arithmetic on rationals: concrete results for every operation.

use rationals::Comparison;
use rationals::Integer;
use rationals::R;
use rationals::Simplify;
use rationals::Unsigned;
use rationals::rational::operations::PrivateMax;
use rationals::rational::operations::PrivateMin;

fn u(v: u64) -> Unsigned {
    Unsigned { value: v }
}

fn pos(v: u64) -> Integer {
    Integer::PInt(u(v))
}

fn neg(v: u64) -> Integer {
    Integer::NInt(u(v))
}

fn r(num: Integer, den: u64) -> R {
    R::from_parts(num, u(den))
}

#[test]
fn addition_cross_multiplies_and_reduces() {
    assert_eq!(r(pos(1), 2).add(r(pos(1), 3)), r(pos(5), 6));
    assert_eq!(r(pos(1), 6).add(r(pos(1), 6)), r(pos(1), 3));
    assert_eq!(r(pos(1), 2).add(r(neg(1), 3)), r(pos(1), 6));
    assert_eq!(r(neg(1), 2).add(r(neg(1), 2)), r(neg(1), 1));
}

#[test]
fn addition_of_opposite_is_zero() {
    let x = r(pos(3), 7);
    assert_eq!(x.add(x.neg()), r(Integer::Z0, 1));
    let y = r(neg(6), 8);
    assert_eq!(y.add(y.neg()), r(Integer::Z0, 1));
}

#[test]
fn addition_is_commutative() {
    let a = r(pos(2), 9);
    let b = r(neg(5), 12);
    assert_eq!(a.add(b), b.add(a));
}

#[test]
fn subtraction_adds_the_negation() {
    assert_eq!(r(pos(1), 2).sub(r(pos(1), 3)), r(pos(1), 6));
    assert_eq!(r(pos(1), 3).sub(r(pos(1), 2)), r(neg(1), 6));
    assert_eq!(r(pos(1), 2).sub(r(pos(1), 2)), r(Integer::Z0, 1));
}

#[test]
fn multiplication_reduces() {
    assert_eq!(r(pos(2), 3).mul(r(pos(3), 4)), r(pos(1), 2));
    assert_eq!(r(neg(2), 3).mul(r(pos(3), 4)), r(neg(1), 2));
    assert_eq!(r(neg(2), 3).mul(r(neg(3), 4)), r(pos(1), 2));
    assert_eq!(r(Integer::Z0, 3).mul(r(pos(3), 4)), r(Integer::Z0, 1));
}

#[test]
fn multiplication_by_one_is_identity() {
    let x = r(pos(3), 4);
    assert_eq!(x.mul(r(pos(1), 1)), x);
    let y = r(neg(5), 7);
    assert_eq!(y.mul(r(pos(1), 1)), y);
}

#[test]
fn multiplication_is_commutative() {
    let a = r(pos(2), 9);
    let b = r(neg(5), 12);
    assert_eq!(a.mul(b), b.mul(a));
}

#[test]
fn division_multiplies_by_the_reciprocal() {
    assert_eq!(r(pos(1), 2).div(r(pos(1), 3)), r(pos(3), 2));
    assert_eq!(r(pos(1), 2).div(r(neg(2), 3)), r(neg(3), 4));
    assert_eq!(r(neg(1), 2).div(r(neg(2), 3)), r(pos(3), 4));
}

#[test]
fn division_by_self_is_one() {
    let x = r(pos(6), 8);
    assert_eq!(x.div(x), r(pos(1), 1));
    let y = r(neg(5), 7);
    assert_eq!(y.div(y), r(pos(1), 1));
}

#[test]
fn negation_and_absolute_value() {
    assert_eq!(r(pos(3), 4).neg(), r(neg(3), 4));
    assert_eq!(r(neg(3), 4).neg(), r(pos(3), 4));
    assert_eq!(r(Integer::Z0, 4).neg(), r(Integer::Z0, 4));
    assert_eq!(r(neg(3), 4).abs(), r(pos(3), 4));
    assert_eq!(r(pos(3), 4).abs(), r(pos(3), 4));
}

#[test]
fn comparison_cross_multiplies() {
    assert_eq!(r(pos(1), 2).compare(&r(pos(2), 3)), Comparison::Less);
    assert_eq!(r(pos(2), 4).compare(&r(pos(1), 2)), Comparison::Equal);
    assert_eq!(r(pos(3), 2).compare(&r(pos(1), 2)), Comparison::Greater);
    assert_eq!(r(neg(1), 2).compare(&r(pos(1), 3)), Comparison::Less);
    assert_eq!(r(neg(1), 2).compare(&r(neg(2), 3)), Comparison::Greater);
    assert_eq!(r(Integer::Z0, 5).compare(&r(Integer::Z0, 9)), Comparison::Equal);
}

#[test]
fn comparison_inverts_with_the_order() {
    let pairs = [
        (r(pos(1), 2), r(pos(2), 3)),
        (r(neg(1), 2), r(pos(1), 2)),
        (r(pos(2), 4), r(pos(1), 2)),
    ];
    for (a, b) in pairs {
        let forward = a.compare(&b);
        let backward = b.compare(&a);
        let inverted = match forward {
            Comparison::Less => Comparison::Greater,
            Comparison::Equal => Comparison::Equal,
            Comparison::Greater => Comparison::Less,
        };
        assert_eq!(backward, inverted);
    }
}

#[test]
fn min_and_max_return_the_pair() {
    let a = r(pos(1), 2);
    let b = r(pos(2), 3);
    assert_eq!(a.min(b), a);
    assert_eq!(a.max(b), b);
    assert_eq!(b.min(a), a);
    assert_eq!(b.max(a), b);
}

#[test]
fn min_and_max_resolve_ties_to_the_left_operand() {
    // Equal in value, different representation: both pick the left operand.
    let a = r(pos(1), 2);
    let b = r(pos(2), 4);
    assert_eq!(a.min(b), a);
    assert_eq!(a.max(b), a);
    assert_eq!(b.min(a), b);
    assert_eq!(b.max(a), b);
}

#[test]
fn private_selectors_follow_the_comparison() {
    let a = r(pos(1), 2);
    let b = r(pos(2), 3);
    assert_eq!(a.private_max(b, Comparison::Less), b);
    assert_eq!(a.private_max(b, Comparison::Equal), a);
    assert_eq!(a.private_max(b, Comparison::Greater), a);
    assert_eq!(a.private_min(b, Comparison::Less), a);
    assert_eq!(a.private_min(b, Comparison::Equal), a);
    assert_eq!(a.private_min(b, Comparison::Greater), b);
}

#[test]
fn power_zero_is_one() {
    let zero_exponent = r(Integer::Z0, 1);
    assert_eq!(r(pos(3), 4).powi(zero_exponent), r(pos(1), 1));
    assert_eq!(r(neg(3), 4).powi(zero_exponent), r(pos(1), 1));
}

#[test]
fn power_positive_exponent() {
    assert_eq!(r(pos(2), 3).powi(r(pos(2), 1)), r(pos(4), 9));
    assert_eq!(r(neg(2), 3).powi(r(pos(2), 1)), r(pos(4), 9));
    assert_eq!(r(neg(2), 3).powi(r(pos(3), 1)), r(neg(8), 27));
    assert_eq!(r(Integer::Z0, 3).powi(r(pos(2), 1)), r(Integer::Z0, 9));
}

#[test]
fn power_negative_exponent_uses_the_reciprocal() {
    assert_eq!(r(pos(2), 3).powi(r(neg(1), 1)), r(pos(3), 2));
    assert_eq!(r(pos(2), 3).powi(r(neg(2), 1)), r(pos(9), 4));
    assert_eq!(r(neg(2), 3).powi(r(neg(1), 1)), r(neg(3), 2));
    assert_eq!(r(neg(2), 3).powi(r(neg(3), 1)), r(neg(27), 8));
}

#[test]
fn simplify_then_operate_round_trip() {
    // An unreduced operand still yields the canonical result.
    assert_eq!(r(pos(6), 8).add(r(pos(2), 8)), r(pos(1), 1));
    assert_eq!(r(pos(6), 8).simplify().add(r(pos(1), 4)), r(pos(1), 1));
}

#[test]
fn power_zero_exponent_on_zero_base_is_one() {
    assert_eq!(r(Integer::Z0, 3).powi(r(Integer::Z0, 1)), r(pos(1), 1));
}

#[test]
fn extreme_magnitudes_reduce() {
    let big = r(pos(u64::MAX), u64::MAX);
    assert_eq!(big.simplify(), r(pos(1), 1));
    let wide = r(neg(u64::MAX - 1), u64::MAX);
    assert_eq!(wide.simplify(), wide);
}
