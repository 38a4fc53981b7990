//! Arithmetic on rationals.
//!
//! Every operation that creates a new rational routes its result through
//! [`Simplify`], so the outcome is always canonical.  Comparison is the one
//! exception: cross multiplication is scale invariant, so it needs no
//! reduction.  Subtraction is addition of the negated right-hand side, and
//! division is multiplication by the right-hand side raised to the power
//! minus one, exactly as the contracts state.

use vstd::prelude::*;
use vstd::arithmetic::power::pow;
use vstd::arithmetic::div_mod::lemma_div_by_self;
use crate::arith::lemma_gcd_self;
use crate::numbers::Comparison;
use crate::numbers::Integer;
use crate::numbers::Unsigned;
use crate::numbers::lemma_integer_of_val;
use crate::numbers::lemma_of_int_val;
use crate::numbers::lemma_val_times_nonneg;
use crate::numbers::lemma_val_times_val;
use crate::rational::R;
use crate::rational::simplify::Simplify;
use crate::rational::simplify::spec_simplify;
use crate::rational::simplify::lemma_simplify_canonical;
use crate::rational::simplify::lemma_simplify_coprime;
use crate::rational::simplify::lemma_canonical_unique;
use crate::conversions::conversion_integer::IntoInteger;

verus! {

/// The rational one.
pub open spec fn one_rational() -> R {
    R { num: Integer::PInt(Unsigned { value: 1 }), den: Unsigned { value: 1 } }
}

/// The rational zero.
pub open spec fn zero_rational() -> R {
    R { num: Integer::Z0, den: Unsigned { value: 1 } }
}

/// The left cross product of two rationals: left numerator times right
/// denominator.
pub open spec fn cross_left(a: R, b: R) -> int {
    a.num_val() * b.den_val()
}

/// The right cross product of two rationals: right numerator times left
/// denominator.
pub open spec fn cross_right(a: R, b: R) -> int {
    b.num_val() * a.den_val()
}

/// The order of two rationals, decided by cross multiplication.
pub open spec fn spec_compare(a: R, b: R) -> Comparison {
    if cross_left(a, b) < cross_right(a, b) {
        Comparison::Less
    } else if cross_left(a, b) == cross_right(a, b) {
        Comparison::Equal
    } else {
        Comparison::Greater
    }
}

/// The larger of two rationals; on a tie, the left one.
pub open spec fn spec_max(a: R, b: R) -> R {
    if spec_compare(a, b) is Less {
        b
    } else {
        a
    }
}

/// The smaller of two rationals; on a tie, the left one.
pub open spec fn spec_min(a: R, b: R) -> R {
    if spec_compare(a, b) is Greater {
        b
    } else {
        a
    }
}

/// The negation of a rational: numerator negated, denominator kept.
pub open spec fn spec_neg(r: R) -> R {
    R { num: r.num.spec_neg(), den: r.den }
}

/// The absolute value of a rational: numerator's absolute value, denominator
/// kept.
pub open spec fn spec_abs(r: R) -> R {
    R { num: r.num.spec_abs(), den: r.den }
}

/// The canonical sum: cross products summed over the product of the
/// denominators, then simplified.
pub open spec fn spec_add(a: R, b: R) -> R {
    spec_simplify(
        R {
            num: Integer::of_int(cross_left(a, b) + cross_right(a, b)),
            den: Unsigned { value: (a.den.value * b.den.value) as u64 },
        },
    )
}

/// The canonical difference: the sum with the right-hand side negated.
pub open spec fn spec_sub(a: R, b: R) -> R {
    spec_add(a, spec_neg(b))
}

/// The canonical product: numerators and denominators multiplied pointwise,
/// then simplified.
pub open spec fn spec_mul(a: R, b: R) -> R {
    spec_simplify(
        R {
            num: Integer::of_int(a.num_val() * b.num_val()),
            den: Unsigned { value: (a.den.value * b.den.value) as u64 },
        },
    )
}

/// The reciprocal of a non-zero rational: numerator magnitude and denominator
/// swapped, the sign kept.
pub open spec fn spec_recip(r: R) -> R {
    match r.num {
        Integer::Z0 => r,
        Integer::PInt(m) => R { num: Integer::PInt(r.den), den: m },
        Integer::NInt(m) => R { num: Integer::NInt(r.den), den: m },
    }
}

/// A rational raised to a non-negative power: both parts raised pointwise,
/// a negative numerator keeping its sign exactly for odd exponents.  Equal
/// exponents preserve coprimality, so no reduction is needed.
pub open spec fn spec_pow_pos(r: R, k: nat) -> R {
    let den = Unsigned { value: pow(r.den.value as int, k) as u64 };
    match r.num {
        Integer::Z0 => R { num: Integer::Z0, den },
        Integer::PInt(m) => R {
            num: Integer::PInt(Unsigned { value: pow(m.value as int, k) as u64 }),
            den,
        },
        Integer::NInt(m) => if k % 2 == 0 {
            R { num: Integer::PInt(Unsigned { value: pow(m.value as int, k) as u64 }), den }
        } else {
            R { num: Integer::NInt(Unsigned { value: pow(m.value as int, k) as u64 }), den }
        },
    }
}

/// A rational raised to an integer power: one for exponent zero, the
/// pointwise power for a positive exponent, and the reciprocal's power for a
/// negative one.
pub open spec fn spec_powi(r: R, e: Integer) -> R {
    match e {
        Integer::Z0 => one_rational(),
        Integer::PInt(k) => spec_pow_pos(r, k.value as nat),
        Integer::NInt(k) => spec_pow_pos(spec_recip(r), k.value as nat),
    }
}

/// The canonical quotient: the product with the right-hand side raised to
/// the power minus one.
pub open spec fn spec_div(a: R, b: R) -> R {
    spec_mul(a, spec_recip(b))
}


/// Resolves a comparison in favour of the right-hand side exactly when it
/// came out larger.
pub trait PrivateMax: Sized {
    /// Selects the larger operand, given the comparison's outcome.
    fn private_max(self, rhs: Self, c: Comparison) -> (r: Self)
        ensures
            r == (if c is Less { rhs } else { self }),
    ;
}

impl<T> PrivateMax for T {
    fn private_max(self, rhs: T, c: Comparison) -> (r: T) {
        match c {
            Comparison::Less => rhs,
            _ => self,
        }
    }
}

/// Resolves a comparison in favour of the right-hand side exactly when it
/// came out smaller.
pub trait PrivateMin: Sized {
    /// Selects the smaller operand, given the comparison's outcome.
    fn private_min(self, rhs: Self, c: Comparison) -> (r: Self)
        ensures
            r == (if c is Greater { rhs } else { self }),
    ;
}

impl<T> PrivateMin for T {
    fn private_min(self, rhs: T, c: Comparison) -> (r: T) {
        match c {
            Comparison::Greater => rhs,
            _ => self,
        }
    }
}


impl R {
    /// Compares two rationals by cross multiplication; the denominators stay
    /// positive, so the order of the cross products is the order of the
    /// numbers.
    pub fn compare(&self, rhs: &R) -> (c: Comparison)
        requires
            self.wf(),
            rhs.wf(),
        ensures
            c == spec_compare(*self, *rhs),
    {
        proof {
            lemma_val_times_nonneg(self.num, rhs.den.value as int);
            lemma_val_times_nonneg(rhs.num, self.den.value as int);
            lemma_cross_signs(*self, *rhs);
        }
        match (self.num, rhs.num) {
            (Integer::Z0, Integer::Z0) => Comparison::Equal,
            (Integer::Z0, Integer::PInt(_)) => Comparison::Less,
            (Integer::Z0, Integer::NInt(_)) => Comparison::Greater,
            (Integer::PInt(_), Integer::Z0) => Comparison::Greater,
            (Integer::NInt(_), Integer::Z0) => Comparison::Less,
            (Integer::NInt(_), Integer::PInt(_)) => Comparison::Less,
            (Integer::PInt(_), Integer::NInt(_)) => Comparison::Greater,
            (Integer::PInt(m1), Integer::PInt(m2)) => {
                proof {
                    lemma_u64_product_fits(m1.value, rhs.den.value);
                    lemma_u64_product_fits(m2.value, self.den.value);
                }
                let l = (m1.value as u128) * (rhs.den.value as u128);
                let r = (m2.value as u128) * (self.den.value as u128);
                if l < r {
                    Comparison::Less
                } else if l == r {
                    Comparison::Equal
                } else {
                    Comparison::Greater
                }
            },
            (Integer::NInt(m1), Integer::NInt(m2)) => {
                proof {
                    lemma_u64_product_fits(m1.value, rhs.den.value);
                    lemma_u64_product_fits(m2.value, self.den.value);
                }
                let l = (m1.value as u128) * (rhs.den.value as u128);
                let r = (m2.value as u128) * (self.den.value as u128);
                if l > r {
                    Comparison::Less
                } else if l == r {
                    Comparison::Equal
                } else {
                    Comparison::Greater
                }
            },
        }
    }

    /// The larger of two rationals; on a tie, the left one.
    pub fn max(self, rhs: R) -> (r: R)
        requires
            self.wf(),
            rhs.wf(),
        ensures
            r == spec_max(self, rhs),
    {
        let c = self.compare(&rhs);
        self.private_max(rhs, c)
    }

    /// The smaller of two rationals; on a tie, the left one.
    pub fn min(self, rhs: R) -> (r: R)
        requires
            self.wf(),
            rhs.wf(),
        ensures
            r == spec_min(self, rhs),
    {
        let c = self.compare(&rhs);
        self.private_min(rhs, c)
    }

    /// Negates the rational.  The denominator is untouched, so no reduction
    /// is needed: the sign does not change coprimality.
    pub fn neg(self) -> (r: R)
        ensures
            r == spec_neg(self),
    {
        R { num: self.num.neg(), den: self.den }
    }

    /// The absolute value of the rational.  As with negation, no reduction
    /// is needed.
    pub fn abs(self) -> (r: R)
        ensures
            r == spec_abs(self),
    {
        R { num: self.num.abs(), den: self.den }
    }

    /// Adds two rationals: cross products summed over the product of the
    /// denominators, then simplified.
    pub fn add(self, rhs: R) -> (r: R)
        requires
            self.wf(),
            rhs.wf(),
            self.num.magnitude() * rhs.den.value + rhs.num.magnitude() * self.den.value
                <= u64::MAX,
            self.den.value * rhs.den.value <= u64::MAX,
        ensures
            r == spec_add(self, rhs),
            r.is_canonical(),
            r.same_value(
                R {
                    num: Integer::of_int(cross_left(self, rhs) + cross_right(self, rhs)),
                    den: Unsigned { value: (self.den.value * rhs.den.value) as u64 },
                },
            ),
    {
        proof {
            lemma_val_times_nonneg(self.num, rhs.den.value as int);
            lemma_val_times_nonneg(rhs.num, self.den.value as int);
            lemma_u64_product_positive(self.den.value, rhs.den.value);
        }
        let a = self.num.mul(rhs.den.into_integer());
        let b = rhs.num.mul(self.den.into_integer());
        proof {
            lemma_of_int_val(cross_left(self, rhs));
            lemma_of_int_val(cross_right(self, rhs));
            lemma_of_int_val(cross_left(self, rhs) + cross_right(self, rhs));
        }
        let num = a.add(b);
        let den = Unsigned { value: self.den.value * rhs.den.value };
        let out = R::from_parts(num, den).simplify();
        proof {
            lemma_simplify_canonical(R { num, den });
        }
        out
    }

    /// Subtracts a rational: addition of the negated right-hand side.
    pub fn sub(self, rhs: R) -> (r: R)
        requires
            self.wf(),
            rhs.wf(),
            self.num.magnitude() * rhs.den.value + rhs.num.magnitude() * self.den.value
                <= u64::MAX,
            self.den.value * rhs.den.value <= u64::MAX,
        ensures
            r == spec_sub(self, rhs),
            r.is_canonical(),
    {
        self.add(rhs.neg())
    }

    /// Multiplies two rationals: numerators and denominators multiplied
    /// pointwise, then simplified.
    pub fn mul(self, rhs: R) -> (r: R)
        requires
            self.wf(),
            rhs.wf(),
            self.num.magnitude() * rhs.num.magnitude() <= u64::MAX,
            self.den.value * rhs.den.value <= u64::MAX,
        ensures
            r == spec_mul(self, rhs),
            r.is_canonical(),
            r.same_value(
                R {
                    num: Integer::of_int(self.num_val() * rhs.num_val()),
                    den: Unsigned { value: (self.den.value * rhs.den.value) as u64 },
                },
            ),
    {
        proof {
            lemma_val_times_val(self.num, rhs.num);
            lemma_u64_product_positive(self.den.value, rhs.den.value);
            lemma_of_int_val(self.num_val() * rhs.num_val());
        }
        let num = self.num.mul(rhs.num);
        let den = Unsigned { value: self.den.value * rhs.den.value };
        let out = R::from_parts(num, den).simplify();
        proof {
            lemma_simplify_canonical(R { num, den });
        }
        out
    }

    /// Raises the rational to an integer power.  A zero exponent yields one;
    /// a positive exponent raises both parts pointwise; a negative exponent
    /// raises the reciprocal, and so asks for a non-zero base.
    pub fn powi(self, exp: R) -> (r: R)
        requires
            self.wf(),
            exp.wf(),
            exp.den.value == 1,
            exp.num is NInt ==> !(self.num is Z0),
            pow(self.num.magnitude() as int, exp.num.magnitude()) <= u64::MAX as int,
            pow(self.den.value as int, exp.num.magnitude()) <= u64::MAX as int,
        ensures
            r == spec_powi(self, exp.num),
    {
        match exp.num {
            Integer::Z0 => R {
                num: Integer::PInt(Unsigned { value: 1 }),
                den: Unsigned { value: 1 },
            },
            Integer::PInt(k) => self.pow_positive(k.value),
            Integer::NInt(k) => {
                let rec = match self.num {
                    Integer::PInt(m) => R { num: Integer::PInt(self.den), den: m },
                    Integer::NInt(m) => R { num: Integer::NInt(self.den), den: m },
                    Integer::Z0 => {
                        // a zero base with a negative exponent is ruled out
                        // by the precondition
                        proof {
                            assert(false);
                        }
                        self
                    },
                };
                rec.pow_positive(k.value)
            },
        }
    }

    /// Raises the rational to a non-negative power, both parts pointwise.
    fn pow_positive(self, k: u64) -> (r: R)
        requires
            self.wf(),
            pow(self.num.magnitude() as int, k as nat) <= u64::MAX as int,
            pow(self.den.value as int, k as nat) <= u64::MAX as int,
        ensures
            r == spec_pow_pos(self, k as nat),
    {
        let dk = crate::arith::pow_u64(self.den.value, k);
        match self.num {
            Integer::Z0 => R { num: Integer::Z0, den: Unsigned { value: dk } },
            Integer::PInt(m) => {
                let mk = crate::arith::pow_u64(m.value, k);
                R { num: Integer::PInt(Unsigned { value: mk }), den: Unsigned { value: dk } }
            },
            Integer::NInt(m) => {
                let mk = crate::arith::pow_u64(m.value, k);
                if k % 2 == 0 {
                    R { num: Integer::PInt(Unsigned { value: mk }), den: Unsigned { value: dk } }
                } else {
                    R { num: Integer::NInt(Unsigned { value: mk }), den: Unsigned { value: dk } }
                }
            },
        }
    }

    /// Divides by a non-zero rational: multiplication by the right-hand side
    /// raised to the power minus one.
    pub fn div(self, rhs: R) -> (r: R)
        requires
            self.wf(),
            rhs.wf(),
            !(rhs.num is Z0),
            self.num.magnitude() * rhs.den.value <= u64::MAX,
            self.den.value * rhs.num.magnitude() <= u64::MAX,
        ensures
            r == spec_div(self, rhs),
            r.is_canonical(),
    {
        proof {
            vstd::arithmetic::power::lemma_pow1(rhs.num.magnitude() as int);
            vstd::arithmetic::power::lemma_pow1(rhs.den.value as int);
        }
        let exp = R::from_parts(Integer::NInt(Unsigned { value: 1 }), Unsigned { value: 1 });
        let rec = rhs.powi(exp);
        proof {
            lemma_pow_pos_one(spec_recip(rhs));
        }
        self.mul(rec)
    }
}


/// Raising a well-formed rational to the power one changes nothing.
proof fn lemma_pow_pos_one(r: R)
    requires
        r.wf(),
    ensures
        spec_pow_pos(r, 1) == r,
{
    vstd::arithmetic::power::lemma_pow1(r.den.value as int);
    match r.num {
        Integer::Z0 => {
        },
        Integer::PInt(m) => {
            vstd::arithmetic::power::lemma_pow1(m.value as int);
        },
        Integer::NInt(m) => {
            vstd::arithmetic::power::lemma_pow1(m.value as int);
        },
    }
}

/// The product of two `u64` values fits a `u128`.
proof fn lemma_u64_product_fits(x: u64, y: u64)
    ensures
        0 <= x as int * y as int <= u64::MAX as int * u64::MAX as int,
{
    assert(0 <= x as int * y as int <= u64::MAX as int * u64::MAX as int) by (nonlinear_arith)
        requires x <= u64::MAX, y <= u64::MAX,
    ;
}

/// The product of two positive `u64` values is positive.
proof fn lemma_u64_product_positive(x: u64, y: u64)
    requires
        x > 0,
        y > 0,
    ensures
        x as int * y as int > 0,
{
    assert(x as int * y as int > 0) by (nonlinear_arith)
        requires x > 0, y > 0,
    ;
}


/// Sign facts about the cross products: each one is zero, positive or
/// negative exactly as its numerator is, with the numerator magnitude times
/// the other denominator as its absolute value.
proof fn lemma_cross_signs(a: R, b: R)
    requires
        a.wf(),
        b.wf(),
    ensures
        a.num is Z0 ==> cross_left(a, b) == 0,
        a.num is PInt ==> cross_left(a, b) == (a.num.magnitude() as int) * (b.den.value as int) && cross_left(a, b) > 0,
        a.num is NInt ==> cross_left(a, b) == -((a.num.magnitude() as int) * (b.den.value as int)) && cross_left(a, b) < 0,
        b.num is Z0 ==> cross_right(a, b) == 0,
        b.num is PInt ==> cross_right(a, b) == (b.num.magnitude() as int) * (a.den.value as int) && cross_right(a, b) > 0,
        b.num is NInt ==> cross_right(a, b) == -((b.num.magnitude() as int) * (a.den.value as int)) && cross_right(a, b) < 0,
{
    lemma_signed_product(a.num, b.den.value);
    lemma_signed_product(b.num, a.den.value);
}

/// Sign and magnitude of an integer value scaled by a positive denominator.
proof fn lemma_signed_product(n: Integer, d: u64)
    requires
        n.inv(),
        d > 0,
    ensures
        n is Z0 ==> n.val() * (d as int) == 0,
        n is PInt ==> n.val() * (d as int) == (n.magnitude() as int) * (d as int) && n.val() * (d as int) > 0,
        n is NInt ==> n.val() * (d as int) == -((n.magnitude() as int) * (d as int)) && n.val() * (d as int) < 0,
{
    match n {
        Integer::Z0 => {
            assert(0 * d as int == 0) by (nonlinear_arith);
        },
        Integer::PInt(m) => {
            assert((m.value as int) * (d as int) > 0) by (nonlinear_arith)
                requires
                    m.value > 0,
                    d > 0,
            ;
        },
        Integer::NInt(m) => {
            assert((m.value as int) * (d as int) > 0
                && (-(m.value as int)) * (d as int)
                    == -((m.value as int) * (d as int))) by (nonlinear_arith)
                requires
                    m.value > 0,
                    d > 0,
            ;
        },
    }
}



/// Additive inverse: a rational plus its own negation is the canonical zero.
pub proof fn lemma_add_inverse(r: R)
    requires
        r.wf(),
    ensures
        spec_add(r, spec_neg(r)) == zero_rational(),
{
    let n = spec_neg(r);
    assert(n.num_val() == -r.num_val());
    assert(r.num_val() * (r.den.value as int) + (-r.num_val()) * (r.den.value as int)
        == 0) by (nonlinear_arith);
    assert(cross_left(r, n) + cross_right(r, n) == 0);
}

/// Multiplicative identity: a canonical rational times one is itself,
/// unchanged.
pub proof fn lemma_mul_identity(r: R)
    requires
        r.is_canonical(),
    ensures
        spec_mul(r, one_rational()) == r,
{
    assert(r.num_val() * 1 == r.num_val()) by (nonlinear_arith);
    lemma_integer_of_val(r.num);
    assert((r.den.value as int) * 1 == r.den.value as int) by (nonlinear_arith);
    lemma_simplify_coprime(r);
}

/// Addition is commutative: both orders give the identical canonical result.
pub proof fn lemma_add_comm(a: R, b: R)
    requires
        a.wf(),
        b.wf(),
    ensures
        spec_add(a, b) == spec_add(b, a),
{
    assert((a.den.value as int) * (b.den.value as int)
        == (b.den.value as int) * (a.den.value as int)) by (nonlinear_arith);
}

/// Multiplication is commutative: both orders give the identical canonical
/// result.
pub proof fn lemma_mul_comm(a: R, b: R)
    requires
        a.wf(),
        b.wf(),
    ensures
        spec_mul(a, b) == spec_mul(b, a),
{
    assert(a.num_val() * b.num_val() == b.num_val() * a.num_val()) by (nonlinear_arith);
    assert((a.den.value as int) * (b.den.value as int)
        == (b.den.value as int) * (a.den.value as int)) by (nonlinear_arith);
}

/// A rational with equal positive numerator and denominator reduces to one.
proof fn lemma_simplify_equal_parts(p: u64)
    requires
        p > 0,
    ensures
        spec_simplify(R { num: Integer::PInt(Unsigned { value: p }), den: Unsigned { value: p } })
            == one_rational(),
{
    lemma_gcd_self(p as nat);
    lemma_div_by_self(p as int);
}

/// Division by self: a non-zero rational divided by itself is the canonical
/// one, whether or not the operand was reduced.
pub proof fn lemma_div_self(r: R)
    requires
        r.wf(),
        !(r.num is Z0),
        r.num.magnitude() * r.den.value <= u64::MAX,
    ensures
        spec_div(r, r) == one_rational(),
{
    let rec = spec_recip(r);
    let p = r.num.magnitude() * r.den.value;
    match r.num {
        Integer::Z0 => {
        },
        Integer::PInt(m) => {
            assert(r.num_val() * rec.num_val()
                == (m.value as int) * (r.den.value as int)) by (nonlinear_arith)
                requires
                    r.num_val() == m.value as int,
                    rec.num_val() == r.den.value as int,
            ;
        },
        Integer::NInt(m) => {
            assert(r.num_val() * rec.num_val()
                == (m.value as int) * (r.den.value as int)) by (nonlinear_arith)
                requires
                    r.num_val() == -(m.value as int),
                    rec.num_val() == -(r.den.value as int),
            ;
        },
    }
    let m = r.num.magnitude();
    assert((m as int) * (r.den.value as int) == p && (r.den.value as int) * (m as int) == p
        && p > 0) by (nonlinear_arith)
        requires
            p == m * r.den.value,
            m > 0,
            r.den.value > 0,
    ;
    lemma_of_int_val(p as int);
    lemma_simplify_equal_parts(p as u64);
}

/// Comparison is consistent: equality by comparison is exactly equality of
/// value, and comparing in the opposite order gives the opposite outcome.
pub proof fn lemma_compare_consistency(a: R, b: R)
    requires
        a.wf(),
        b.wf(),
    ensures
        spec_compare(a, b) is Less || spec_compare(a, b) is Equal || spec_compare(a, b)
            is Greater,
        spec_compare(a, b) is Equal <==> a.same_value(b),
        spec_compare(a, b) is Less <==> spec_compare(b, a) is Greater,
        spec_compare(a, b) is Equal <==> spec_compare(b, a) is Equal,
        spec_compare(a, b) is Greater <==> spec_compare(b, a) is Less,
{
}

/// Min and max are complementary: together they return exactly the two
/// operands, and a tie resolves both to the left operand.
pub proof fn lemma_min_max_pair(a: R, b: R)
    requires
        a.wf(),
        b.wf(),
    ensures
        spec_compare(a, b) is Equal ==> spec_min(a, b) == a && spec_max(a, b) == a,
        !(spec_compare(a, b) is Equal) ==> (spec_min(a, b) == a && spec_max(a, b) == b)
            || (spec_min(a, b) == b && spec_max(a, b) == a),
{
}

/// On canonical operands min and max always return the unordered pair, tie
/// included: comparison equality then forces the operands to be the same
/// value.
pub proof fn lemma_min_max_canonical(a: R, b: R)
    requires
        a.is_canonical(),
        b.is_canonical(),
    ensures
        (spec_min(a, b) == a && spec_max(a, b) == b) || (spec_min(a, b) == b && spec_max(a, b)
            == a),
        spec_compare(a, b) is Equal ==> a == b,
{
    if spec_compare(a, b) is Equal {
        lemma_canonical_unique(a, b);
    }
}

/// Power special case: any rational raised to the zero exponent is the
/// canonical one.
pub proof fn lemma_pow_zero(r: R)
    ensures
        spec_powi(r, Integer::Z0) == one_rational(),
{
}


/// Negation needs no reduction: the sign does not change coprimality.
pub proof fn lemma_neg_canonical(r: R)
    requires
        r.is_canonical(),
    ensures
        spec_neg(r).is_canonical(),
{
}

/// The absolute value needs no reduction either.
pub proof fn lemma_abs_canonical(r: R)
    requires
        r.is_canonical(),
    ensures
        spec_abs(r).is_canonical(),
{
}

/// The reciprocal of a canonical non-zero rational is canonical: swapping
/// the parts leaves them coprime.
pub proof fn lemma_recip_canonical(r: R)
    requires
        r.is_canonical(),
        !(r.num is Z0),
    ensures
        spec_recip(r).is_canonical(),
{
    crate::arith::lemma_gcd_comm(r.num.magnitude(), r.den.value as nat);
}

/// Equal-exponent powers preserve canonicity: raising a canonical rational
/// to a non-negative power leaves numerator and denominator coprime, so the
/// power operation needs no reduction of its own.
pub proof fn lemma_pow_canonical(r: R, k: nat)
    requires
        r.is_canonical(),
        pow(r.num.magnitude() as int, k) <= u64::MAX as int,
        pow(r.den.value as int, k) <= u64::MAX as int,
    ensures
        spec_pow_pos(r, k).is_canonical(),
{
    match r.num {
        Integer::Z0 => {
            // canonical zero has denominator one, and one to any power is one
            crate::arith::lemma_gcd_zero_left(r.den.value as nat);
            vstd::arithmetic::power::lemma1_pow(k);
            crate::arith::lemma_gcd_zero_left(1);
        },
        Integer::PInt(m) => {
            crate::arith::lemma_coprime_pow_pow(m.value as nat, r.den.value as nat, k, k);
            vstd::arithmetic::power::lemma_pow_positive(m.value as int, k);
            vstd::arithmetic::power::lemma_pow_positive(r.den.value as int, k);
        },
        Integer::NInt(m) => {
            crate::arith::lemma_coprime_pow_pow(m.value as nat, r.den.value as nat, k, k);
            vstd::arithmetic::power::lemma_pow_positive(m.value as int, k);
            vstd::arithmetic::power::lemma_pow_positive(r.den.value as int, k);
        },
    }
}


} // verus!
