//! Reduction of a rational to its simplest form.
//!
//! [`Simplify`] divides numerator and denominator by their greatest common
//! divisor; a zero numerator collapses the denominator to one.  The result is
//! canonical, denotes the same number, and reducing an already canonical
//! rational changes nothing — which also makes the reduction idempotent.

use vstd::prelude::*;
use vstd::arithmetic::div_mod::lemma_fundamental_div_mod;
use crate::arith::divides;
use crate::arith::gcd;
use crate::arith::gcd_u64;
use crate::arith::lemma_gcd_divides;
use crate::arith::lemma_gcd_pos;
use crate::arith::lemma_gcd_quotients_coprime;
use crate::arith::lemma_gcd_zero_left;
use crate::arith::lemma_gcd_comm;
use crate::arith::lemma_divides_antisym;
use crate::arith::lemma_divides_mul;
use crate::arith::lemma_euclid;
use crate::numbers::Integer;
use crate::numbers::Unsigned;
use crate::rational::R;

verus! {

/// The simplest form of a rational: numerator and denominator divided by
/// their GCD, with a zero numerator collapsing to the canonical zero.
pub open spec fn spec_simplify(r: R) -> R {
    match r.num {
        Integer::Z0 => R { num: Integer::Z0, den: Unsigned { value: 1 } },
        Integer::PInt(m) => R {
            num: Integer::PInt(
                Unsigned {
                    value: (m.value as int / gcd(m.value as nat, r.den.value as nat) as int) as u64,
                },
            ),
            den: Unsigned {
                value: (r.den.value as int / gcd(m.value as nat, r.den.value as nat) as int) as u64,
            },
        },
        Integer::NInt(m) => R {
            num: Integer::NInt(
                Unsigned {
                    value: (m.value as int / gcd(m.value as nat, r.den.value as nat) as int) as u64,
                },
            ),
            den: Unsigned {
                value: (r.den.value as int / gcd(m.value as nat, r.den.value as nat) as int) as u64,
            },
        },
    }
}

/// Reduces a rational number to its simplest form by dividing the numerator
/// and denominator by their GCD.
pub trait Simplify: Sized {
    /// When the reduction is defined.
    spec fn can_simplify(self) -> bool;

    /// The reduced value.
    spec fn simplified(self) -> Self;

    /// Returns the simplified value.
    fn simplify(self) -> (r: Self)
        requires
            self.can_simplify(),
        ensures
            r == self.simplified(),
    ;
}

impl Simplify for R {
    open spec fn can_simplify(self) -> bool {
        self.wf()
    }

    open spec fn simplified(self) -> R {
        spec_simplify(self)
    }

    fn simplify(self) -> (r: R) {
        match self.num {
            Integer::Z0 => R { num: Integer::Z0, den: Unsigned { value: 1 } },
            Integer::PInt(m) => {
                proof {
                    lemma_reduction(m.value as nat, self.den.value as nat);
                }
                let g = gcd_u64(m.value, self.den.value);
                R {
                    num: Integer::PInt(Unsigned { value: m.value / g }),
                    den: Unsigned { value: self.den.value / g },
                }
            },
            Integer::NInt(m) => {
                proof {
                    lemma_reduction(m.value as nat, self.den.value as nat);
                }
                let g = gcd_u64(m.value, self.den.value);
                R {
                    num: Integer::NInt(Unsigned { value: m.value / g }),
                    den: Unsigned { value: self.den.value / g },
                }
            },
        }
    }
}

/// Exact division facts for one magnitude/denominator pair: with
/// `g = gcd(m, d)`, both quotients are positive, both multiply back to
/// their inputs, and the quotients are coprime.
proof fn lemma_reduction(m: nat, d: nat)
    requires
        m > 0,
        d > 0,
    ensures
        gcd(m, d) >= 1,
        1 <= m as int / gcd(m, d) as int <= m,
        1 <= d as int / gcd(m, d) as int <= d,
        m == gcd(m, d) * (m as int / gcd(m, d) as int),
        d == gcd(m, d) * (d as int / gcd(m, d) as int),
        gcd((m as int / gcd(m, d) as int) as nat, (d as int / gcd(m, d) as int) as nat) == 1,
{
    let g = gcd(m, d);
    lemma_gcd_pos(m, d);
    lemma_gcd_divides(m, d);
    lemma_fundamental_div_mod(m as int, g as int);
    lemma_fundamental_div_mod(d as int, g as int);
    let qm = m as int / g as int;
    let qd = d as int / g as int;
    assert(m == g * qm && d == g * qd);
    assert(1 <= qm <= m && 1 <= qd <= d) by (nonlinear_arith)
        requires m == g as int * qm, d == g as int * qd, m > 0, d > 0, g >= 1, qm >= 0, qd >= 0,
    ;
    lemma_gcd_quotients_coprime(m, d);
}

/// Simplification yields a well-formed, canonical rational that denotes the
/// same number as its input.
pub proof fn lemma_simplify_canonical(r: R)
    requires
        r.wf(),
    ensures
        spec_simplify(r).wf(),
        spec_simplify(r).is_canonical(),
        spec_simplify(r).same_value(r),
{
    let s = spec_simplify(r);
    let d = r.den.value as nat;
    match r.num {
        Integer::Z0 => {
            lemma_gcd_zero_left(1);
            assert(0nat % 1nat == 0nat);
            assert(s.num_val() * r.den_val() == 0 * r.den_val());
            assert(0 * r.den_val() == 0 && 0 * s.den_val() == 0) by (nonlinear_arith);
        },
        Integer::PInt(m) => {
            let g = gcd(m.value as nat, d);
            lemma_reduction(m.value as nat, d);
            let qm = m.value as int / g as int;
            let qd = r.den.value as int / g as int;
            assert(qm * (r.den.value as int) == (m.value as int) * qd) by (nonlinear_arith)
                requires
                    m.value as int == g as int * qm,
                    r.den.value as int == g as int * qd,
            ;
        },
        Integer::NInt(m) => {
            let g = gcd(m.value as nat, d);
            lemma_reduction(m.value as nat, d);
            let qm = m.value as int / g as int;
            let qd = r.den.value as int / g as int;
            assert(qm * (r.den.value as int) == (m.value as int) * qd) by (nonlinear_arith)
                requires
                    m.value as int == g as int * qm,
                    r.den.value as int == g as int * qd,
            ;
            assert(s.num_val() == -qm && r.num_val() == -(m.value as int));
            assert(s.num_val() * r.den_val() == r.num_val() * s.den_val()) by (nonlinear_arith)
                requires
                    s.num_val() == -qm,
                    r.num_val() == -(m.value as int),
                    qm * (r.den.value as int) == (m.value as int) * qd,
                    s.den_val() == qd,
                    r.den_val() == r.den.value as int,
            ;
        },
    }
}

/// Canonical zero: simplifying any rational with a zero numerator yields
/// zero over one, whatever the denominator was.
pub proof fn lemma_simplify_zero(r: R)
    requires
        r.wf(),
        r.num is Z0,
    ensures
        spec_simplify(r) == (R { num: Integer::Z0, den: Unsigned { value: 1 } }),
{
}

/// Simplifying a rational whose parts are already coprime changes nothing.
pub proof fn lemma_simplify_coprime(r: R)
    requires
        r.wf(),
        gcd(r.num.magnitude(), r.den.value as nat) == 1,
    ensures
        spec_simplify(r) == r,
{
    match r.num {
        Integer::Z0 => {
            lemma_gcd_zero_left(r.den.value as nat);
        },
        Integer::PInt(m) => {
            lemma_reduction(m.value as nat, r.den.value as nat);
            assert(m.value as int == 1 * (m.value as int / 1)) by {
                assert(gcd(m.value as nat, r.den.value as nat) == 1);
            };
            assert(m.value as int / 1 == m.value as int && r.den.value as int / 1
                == r.den.value as int) by (nonlinear_arith)
                requires
                    m.value as int == 1 * (m.value as int / 1),
                    r.den.value as int == 1 * (r.den.value as int / 1),
            ;
        },
        Integer::NInt(m) => {
            lemma_reduction(m.value as nat, r.den.value as nat);
            assert(m.value as int / 1 == m.value as int && r.den.value as int / 1
                == r.den.value as int) by (nonlinear_arith)
                requires
                    m.value as int == 1 * (m.value as int / 1),
                    r.den.value as int == 1 * (r.den.value as int / 1),
            ;
        },
    }
}

/// Simplification is idempotent: reducing twice is the same as reducing once.
pub proof fn lemma_simplify_idempotent(r: R)
    requires
        r.wf(),
    ensures
        spec_simplify(spec_simplify(r)) == spec_simplify(r),
{
    lemma_simplify_canonical(r);
    lemma_simplify_coprime(spec_simplify(r));
}

/// Canonical representations are unique: two canonical rationals that denote
/// the same number are the same value.  This is what entitles callers to
/// compare simplified rationals with `==`.
pub proof fn lemma_canonical_unique(a: R, b: R)
    requires
        a.is_canonical(),
        b.is_canonical(),
        a.same_value(b),
    ensures
        a == b,
{
    let ad = a.den.value as nat;
    let bd = b.den.value as nat;
    match (a.num, b.num) {
        (Integer::Z0, _) => {
            assert(0 * b.den_val() == 0) by (nonlinear_arith);
            assert(b.num_val() * a.den_val() == 0);
            assert(b.num_val() == 0) by (nonlinear_arith)
                requires b.num_val() * a.den_val() == 0, a.den_val() > 0,
            ;
            lemma_gcd_zero_left(ad);
            lemma_gcd_zero_left(bd);
        },
        (_, Integer::Z0) => {
            assert(0 * a.den_val() == 0) by (nonlinear_arith);
            assert(a.num_val() * b.den_val() == 0);
            assert(a.num_val() == 0) by (nonlinear_arith)
                requires a.num_val() * b.den_val() == 0, b.den_val() > 0,
            ;
            lemma_gcd_zero_left(ad);
            lemma_gcd_zero_left(bd);
        },
        (Integer::PInt(ma), Integer::NInt(mb)) => {
            assert(false) by (nonlinear_arith)
                requires
                    ma.value > 0,
                    mb.value > 0,
                    a.den_val() > 0,
                    b.den_val() > 0,
                    ma.value as int * b.den_val() == (-(mb.value as int)) * a.den_val(),
            ;
        },
        (Integer::NInt(mb2), Integer::PInt(ma2)) => {
            assert(false) by (nonlinear_arith)
                requires
                    ma2.value > 0,
                    mb2.value > 0,
                    a.den_val() > 0,
                    b.den_val() > 0,
                    (-(mb2.value as int)) * b.den_val() == ma2.value as int * a.den_val(),
            ;
        },
        (Integer::PInt(ma), Integer::PInt(mb)) => {
            lemma_same_positive_unique(ma.value as nat, ad, mb.value as nat, bd);
        },
        (Integer::NInt(ma), Integer::NInt(mb)) => {
            assert(ma.value as int * b.den_val() == mb.value as int * a.den_val()) by (nonlinear_arith)
                requires
                    (-(ma.value as int)) * b.den_val() == (-(mb.value as int)) * a.den_val(),
            ;
            lemma_same_positive_unique(ma.value as nat, ad, mb.value as nat, bd);
        },
    }
}

/// Core of canonical uniqueness for positive numerators: coprime pairs with
/// equal cross products are equal componentwise.
proof fn lemma_same_positive_unique(ma: nat, ad: nat, mb: nat, bd: nat)
    requires
        ma > 0,
        ad > 0,
        mb > 0,
        bd > 0,
        gcd(ma, ad) == 1,
        gcd(mb, bd) == 1,
        ma * bd == mb * ad,
    ensures
        ma == mb,
        ad == bd,
{
    // ad divides ma * bd (it equals mb * ad), and is coprime to ma, so ad | bd.
    lemma_gcd_comm(ma, ad);
    lemma_gcd_comm(mb, bd);
    lemma_divides_mul(ad, ad, mb as int);
    assert(ad * mb == mb * ad) by (nonlinear_arith);
    assert(divides(ad, (ma * bd) as nat));
    lemma_euclid(ad, ma, bd);
    // symmetrically bd | ad
    lemma_divides_mul(bd, bd, ma as int);
    assert(bd * ma == ma * bd) by (nonlinear_arith);
    assert(divides(bd, (mb * ad) as nat));
    lemma_euclid(bd, mb, ad);
    lemma_divides_antisym(ad, bd);
    assert(ma == mb) by (nonlinear_arith)
        requires ma * bd == mb * ad, ad == bd, ad > 0,
    ;
}


/// Denoting the same number is transitive across a well-formed middle term.
proof fn lemma_same_value_trans(x: R, y: R, z: R)
    requires
        x.same_value(y),
        y.same_value(z),
        y.den_val() > 0,
    ensures
        x.same_value(z),
{
    assert(x.num_val() * z.den_val() == z.num_val() * x.den_val()) by (nonlinear_arith)
        requires
            x.num_val() * y.den_val() == y.num_val() * x.den_val(),
            y.num_val() * z.den_val() == z.num_val() * y.den_val(),
            y.den_val() > 0,
    ;
}

/// The canonical form is a true normal form: any two well-formed rationals
/// that denote the same number simplify to the identical representation,
/// whatever pairs they started from.
pub proof fn lemma_canonical_form_unique(a: R, b: R)
    requires
        a.wf(),
        b.wf(),
        a.same_value(b),
    ensures
        spec_simplify(a) == spec_simplify(b),
{
    lemma_simplify_canonical(a);
    lemma_simplify_canonical(b);
    lemma_same_value_trans(spec_simplify(a), a, b);
    assert(b.same_value(spec_simplify(b)));
    lemma_same_value_trans(spec_simplify(a), b, spec_simplify(b));
    lemma_canonical_unique(spec_simplify(a), spec_simplify(b));
}

} // verus!
