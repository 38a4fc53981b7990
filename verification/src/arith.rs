//! Divisibility and the greatest common divisor.
//!
//! The simplification step of the rational layer divides numerator and
//! denominator by their GCD; the lemmas here supply the facts that make that
//! reduction canonical: the GCD divides both arguments, it is positive when an
//! argument is, the quotients by the GCD are coprime, and a common divisor of
//! coprime-scaled products divides the remaining factor (Euclid's lemma).

use vstd::prelude::*;
use vstd::arithmetic::div_mod::lemma_add_mod_noop;
use vstd::arithmetic::div_mod::lemma_fundamental_div_mod;
use vstd::arithmetic::div_mod::lemma_mod_division_less_than_divisor;
use vstd::arithmetic::div_mod::lemma_mod_multiples_basic;
use vstd::arithmetic::div_mod::lemma_small_mod;
use vstd::arithmetic::div_mod::lemma_truncate_middle;
use vstd::arithmetic::power::pow;

verus! {

/// `d` divides `n`.
pub open spec fn divides(d: nat, n: nat) -> bool {
    if d == 0 {
        n == 0
    } else {
        n % d == 0
    }
}

/// Greatest common divisor, by Euclid's algorithm.
pub open spec fn gcd(a: nat, b: nat) -> nat
    decreases b,
{
    if b == 0 {
        a
    } else {
        gcd(b, a % b)
    }
}

/// A divisor of a positive number is at least one and at most that number.
pub proof fn lemma_divides_le(d: nat, n: nat)
    requires
        divides(d, n),
        n > 0,
    ensures
        1 <= d <= n,
{
    if d > n {
        lemma_small_mod(n, d);
    }
}

/// A divisor of two numbers divides their sum.
proof fn lemma_divides_add(d: nat, x: nat, y: nat)
    requires
        divides(d, x),
        divides(d, y),
    ensures
        divides(d, (x + y) as nat),
{
    if d > 0 {
        lemma_add_mod_noop(x as int, y as int, d as int);
        lemma_small_mod(0, d);
    }
}

/// A divisor of a number divides every multiple of it.
pub proof fn lemma_divides_mul(d: nat, x: nat, k: int)
    requires
        divides(d, x),
        k >= 0,
    ensures
        divides(d, (x * k) as nat),
{
    if d > 0 {
        lemma_fundamental_div_mod(x as int, d as int);
        let q = x as int / d as int;
        assert(x == d * q);
        assert(x * k == (q * k) * d) by (nonlinear_arith)
            requires x == d * q,
        ;
        lemma_mod_multiples_basic(q * k, d as int);
    } else {
        assert(x * k == 0);
    }
}

/// A divisor of `x + y` that divides `y` also divides `x`.
proof fn lemma_divides_sum_converse(d: nat, x: nat, y: nat)
    requires
        divides(d, (x + y) as nat),
        divides(d, y),
    ensures
        divides(d, x),
{
    if d > 0 {
        lemma_fundamental_div_mod((x + y) as int, d as int);
        lemma_fundamental_div_mod(y as int, d as int);
        let qs = (x + y) as int / d as int;
        let qy = y as int / d as int;
        assert(x == d * qs - d * qy);
        assert(x == (qs - qy) * d) by (nonlinear_arith)
            requires x == d * qs - d * qy,
        ;
        lemma_mod_multiples_basic(qs - qy, d as int);
    }
}

/// The GCD divides both of its arguments.
pub proof fn lemma_gcd_divides(a: nat, b: nat)
    ensures
        divides(gcd(a, b), a),
        divides(gcd(a, b), b),
    decreases b,
{
    if b == 0 {
        if a > 0 {
            lemma_mod_self_0_nat(a);
        }
    } else {
        lemma_mod_division_less_than_divisor(a as int, b as int);
        lemma_gcd_divides(b, a % b);
        let g = gcd(b, a % b);
        // a == b * (a / b) + a % b, and g divides both summands
        lemma_fundamental_div_mod(a as int, b as int);
        lemma_mod_division_less_than_divisor(a as int, b as int);
        lemma_divides_mul(g, b, a as int / b as int);
        lemma_divides_add(g, (b * (a as int / b as int)) as nat, a % b);
        assert(a == b * (a as int / b as int) + a % b);
    }
}

/// `m % m == 0` for positive `m`.
proof fn lemma_mod_self_0_nat(m: nat)
    requires
        m > 0,
    ensures
        m % m == 0,
{
    vstd::arithmetic::div_mod::lemma_mod_self_0(m as int);
}

/// The GCD of two numbers, one of them positive, is positive.
pub proof fn lemma_gcd_pos(a: nat, b: nat)
    requires
        a > 0 || b > 0,
    ensures
        gcd(a, b) >= 1,
{
    lemma_gcd_divides(a, b);
    if a > 0 {
        lemma_divides_le(gcd(a, b), a);
    } else {
        lemma_divides_le(gcd(a, b), b);
    }
}

/// Every common divisor of two numbers divides their GCD.
pub proof fn lemma_divides_gcd(d: nat, a: nat, b: nat)
    requires
        divides(d, a),
        divides(d, b),
    ensures
        divides(d, gcd(a, b)),
    decreases b,
{
    if b == 0 {
    } else {
        lemma_mod_division_less_than_divisor(a as int, b as int);
        // d divides a % b == a - b * (a / b)
        lemma_fundamental_div_mod(a as int, b as int);
        lemma_divides_mul(d, b, a as int / b as int);
        lemma_divides_sum_converse(d, a % b, (b * (a as int / b as int)) as nat);
        lemma_divides_gcd(d, b, a % b);
    }
}

/// The GCD scales: `gcd(k * a, k * b) == k * gcd(a, b)`.
pub proof fn lemma_gcd_scale(k: nat, a: nat, b: nat)
    requires
        k > 0,
    ensures
        gcd(k * a, k * b) == k * gcd(a, b),
    decreases b,
{
    if b == 0 {
        assert(k * b == 0);
    } else {
        assert(k * b > 0) by (nonlinear_arith)
            requires k > 0, b > 0,
        ;
        lemma_truncate_middle(a as int, k as int, b as int);
        assert((k * a) % (k * b) == k * (a % b));
        lemma_mod_division_less_than_divisor(a as int, b as int);
        lemma_gcd_scale(k, b, a % b);
        assert(gcd(k * a, k * b) == gcd(k * b, (k * a) % (k * b)));
    }
}

/// Dividing two numbers by their GCD leaves a coprime pair.
pub proof fn lemma_gcd_quotients_coprime(a: nat, b: nat)
    requires
        a > 0 || b > 0,
    ensures
        gcd((a as int / gcd(a, b) as int) as nat, (b as int / gcd(a, b) as int) as nat) == 1,
{
    let g = gcd(a, b);
    lemma_gcd_pos(a, b);
    lemma_gcd_divides(a, b);
    lemma_fundamental_div_mod(a as int, g as int);
    lemma_fundamental_div_mod(b as int, g as int);
    let qa = (a as int / g as int) as nat;
    let qb = (b as int / g as int) as nat;
    assert(a == g * qa && b == g * qb);
    lemma_gcd_scale(g, qa, qb);
    assert(g * gcd(qa, qb) == g);
    assert(gcd(qa, qb) == 1) by (nonlinear_arith)
        requires g * gcd(qa, qb) == g, g >= 1,
    ;
}

/// Euclid's lemma: a number coprime to `x` that divides `x * y` divides `y`.
pub proof fn lemma_euclid(d: nat, x: nat, y: nat)
    requires
        gcd(d, x) == 1,
        divides(d, (x * y) as nat),
    ensures
        divides(d, y),
{
    if y == 0 {
    } else if d == 0 {
        // gcd(0, x) == x, so x == 1, and d divides x * y == y gives y == 0
        assert(x > 0);
        lemma_small_mod(0, x);
        assert(gcd(0, x) == gcd(x, 0nat % x));
        assert(x == 1);
        assert(x * y == y);
    } else {
        // gcd(y * d, y * x) == y * gcd(d, x) == y, and d divides both,
        // hence d divides y.
        lemma_gcd_scale(y, d, x);
        assert(y * gcd(d, x) == y) by (nonlinear_arith)
            requires gcd(d, x) == 1,
        ;
        lemma_divides_mul(d, d, y as int);
        assert(d * y == y * d) by (nonlinear_arith);
        assert(x * y == y * x) by (nonlinear_arith);
        lemma_divides_gcd(d, y * d, y * x);
        assert(divides(d, gcd(y * d, y * x)));
        assert(gcd(y * d, y * x) == y);
    }
}

/// Two numbers that divide each other are equal.
pub proof fn lemma_divides_antisym(x: nat, y: nat)
    requires
        divides(x, y),
        divides(y, x),
    ensures
        x == y,
{
    if x == 0 || y == 0 {
    } else {
        lemma_divides_le(x, y);
        lemma_divides_le(y, x);
    }
}

/// The GCD does not depend on the order of its arguments.
pub proof fn lemma_gcd_comm(a: nat, b: nat)
    ensures
        gcd(a, b) == gcd(b, a),
{
    lemma_gcd_divides(a, b);
    lemma_gcd_divides(b, a);
    lemma_divides_gcd(gcd(a, b), b, a);
    lemma_divides_gcd(gcd(b, a), a, b);
    lemma_divides_antisym(gcd(a, b), gcd(b, a));
}

/// The GCD of zero and a number is that number.
pub proof fn lemma_gcd_zero_left(b: nat)
    ensures
        gcd(0, b) == b,
{
    if b > 0 {
        lemma_small_mod(0, b);
        assert(gcd(0, b) == gcd(b, 0nat % b));
    }
}

/// The GCD of a positive number with itself is that number.
pub proof fn lemma_gcd_self(x: nat)
    requires
        x > 0,
    ensures
        gcd(x, x) == x,
{
    lemma_mod_self_0_nat(x);
    assert(gcd(x, x) == gcd(x, x % x));
}

/// Every number is coprime to one.
pub proof fn lemma_gcd_one(a: nat)
    ensures
        gcd(a, 1) == 1,
{
    lemma_mod_division_less_than_divisor(a as int, 1);
    assert(a % 1 == 0);
    assert(gcd(a, 1) == gcd(1, 0nat));
}

/// Divisibility is transitive.
pub proof fn lemma_divides_trans(x: nat, y: nat, z: nat)
    requires
        divides(x, y),
        divides(y, z),
    ensures
        divides(x, z),
{
    if y == 0 {
        // then z == 0, and everything divides zero
        if x > 0 {
            lemma_small_mod(0, x);
        }
    } else {
        lemma_fundamental_div_mod(z as int, y as int);
        lemma_mod_division_less_than_divisor(z as int, y as int);
        assert(z == y * (z as int / y as int));
        lemma_divides_mul(x, y, z as int / y as int);
    }
}

/// A number coprime to two factors is coprime to their product.
pub proof fn lemma_coprime_mul(a: nat, b: nat, c: nat)
    requires
        gcd(a, b) == 1,
        gcd(a, c) == 1,
    ensures
        gcd(a, b * c) == 1,
{
    let g = gcd(a, b * c);
    lemma_gcd_divides(a, b * c);
    let h = gcd(g, b);
    lemma_gcd_divides(g, b);
    lemma_divides_trans(h, g, a);
    lemma_divides_gcd(h, a, b);
    lemma_divides_le(h, 1);
    lemma_euclid(g, b, c);
    lemma_divides_gcd(g, a, c);
    lemma_divides_le(g, 1);
}

/// A number coprime to another is coprime to every power of it.
pub proof fn lemma_coprime_pow(a: nat, b: nat, k: nat)
    requires
        gcd(a, b) == 1,
    ensures
        gcd(a, pow(b as int, k) as nat) == 1,
    decreases k,
{
    if k == 0 {
        vstd::arithmetic::power::lemma_pow0(b as int);
        lemma_gcd_one(a);
    } else {
        lemma_coprime_pow(a, b, (k - 1) as nat);
        vstd::arithmetic::power::lemma_pow_adds(b as int, (k - 1) as nat, 1);
        vstd::arithmetic::power::lemma_pow1(b as int);
        if b == 0 {
            // b^(k-1) * b == 0, and gcd(a, 0) == a forces a == 1
            assert(pow(0, (k - 1) as nat) * 0 == 0) by (nonlinear_arith);
            assert(a == 1) by {
                lemma_gcd_zero_b(a);
            };
            lemma_gcd_comm(1, 0);
            lemma_gcd_one(1);
            assert(gcd(1, 0nat) == 1);
        } else {
            vstd::arithmetic::power::lemma_pow_positive(b as int, (k - 1) as nat);
            lemma_coprime_mul(a, pow(b as int, (k - 1) as nat) as nat, b);
            assert(pow(b as int, (k - 1) as nat) * b == (pow(b as int, (k - 1) as nat) as nat) * b);
        }
    }
}

/// The GCD of a number and zero is that number.
proof fn lemma_gcd_zero_b(a: nat)
    ensures
        gcd(a, 0) == a,
{
}

/// Coprime bases give coprime powers, whatever the exponents.
pub proof fn lemma_coprime_pow_pow(a: nat, b: nat, j: nat, k: nat)
    requires
        gcd(a, b) == 1,
    ensures
        gcd(pow(a as int, j) as nat, pow(b as int, k) as nat) == 1,
{
    lemma_coprime_pow(a, b, k);
    lemma_gcd_comm(a, pow(b as int, k) as nat);
    lemma_coprime_pow(pow(b as int, k) as nat, a, j);
    lemma_gcd_comm(pow(b as int, k) as nat, pow(a as int, j) as nat);
}

/// Exponentiation on machine integers, by repeated multiplication.
pub fn pow_u64(base: u64, e: u64) -> (r: u64)
    requires
        pow(base as int, e as nat) <= u64::MAX as int,
    ensures
        r as int == pow(base as int, e as nat),
{
    if base == 0 {
        if e == 0 {
            proof {
                vstd::arithmetic::power::lemma_pow0(0);
            }
            1
        } else {
            proof {
                vstd::arithmetic::power::lemma0_pow(e as nat);
            }
            0
        }
    } else {
        let mut acc: u64 = 1;
        let mut i: u64 = 0;
        proof {
            vstd::arithmetic::power::lemma_pow0(base as int);
        }
        while i < e
            invariant
                i <= e,
                base >= 1,
                acc as int == pow(base as int, i as nat),
                pow(base as int, e as nat) <= u64::MAX as int,
            decreases e - i,
        {
            proof {
                vstd::arithmetic::power::lemma_pow_increases(base as nat, (i + 1) as nat, e as nat);
                vstd::arithmetic::power::lemma_pow_adds(base as int, i as nat, 1);
                vstd::arithmetic::power::lemma_pow1(base as int);
                assert(pow(base as int, (i + 1) as nat) == pow(base as int, i as nat) * base);
                vstd::arithmetic::power::lemma_pow_positive(base as int, i as nat);
                assert(acc as int * base as int == base as int * pow(base as int, i as nat)) by (nonlinear_arith)
                    requires acc as int == pow(base as int, i as nat),
                ;
            }
            acc = acc * base;
            i = i + 1;
        }
        acc
    }
}

/// Euclid's algorithm, on machine integers.
pub fn gcd_u64(a: u64, b: u64) -> (g: u64)
    ensures
        g as nat == gcd(a as nat, b as nat),
{
    let mut x: u64 = a;
    let mut y: u64 = b;
    while y != 0
        invariant
            gcd(x as nat, y as nat) == gcd(a as nat, b as nat),
        decreases y,
    {
        proof {
            lemma_mod_division_less_than_divisor(x as int, y as int);
        }
        let r = x % y;
        x = y;
        y = r;
    }
    x
}

} // verus!
