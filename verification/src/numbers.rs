//! The numeric categories underneath the rational layer.
//!
//! [`Bit`] holds zero or one, [`Unsigned`] a machine-word magnitude, and
//! [`Integer`] a signed whole number kept as a sign tag around a non-zero
//! magnitude — zero, positive and negative are three distinct shapes, which is
//! what lets simplification and the conversions treat the sign structurally.

use vstd::prelude::*;

verus! {

/// A bit: zero or one.
#[derive(Clone, Copy, Debug, PartialEq, Eq, Structural)]
pub enum Bit {
    B0,
    B1,
}

impl Bit {
    /// The numeric value of the bit.
    pub open spec fn val(self) -> int {
        match self {
            Bit::B0 => 0,
            Bit::B1 => 1,
        }
    }
}

/// A non-negative magnitude.
#[derive(Clone, Copy, Debug, PartialEq, Eq, Structural)]
pub struct Unsigned {
    /// The magnitude itself.
    pub value: u64,
}

impl Unsigned {
    /// The numeric value of the magnitude.
    pub open spec fn val(self) -> int {
        self.value as int
    }
}

/// A signed whole number: zero, or a positive or negative non-zero magnitude.
#[derive(Clone, Copy, Debug, PartialEq, Eq, Structural)]
pub enum Integer {
    /// Zero.
    Z0,
    /// A positive number wrapping its magnitude.
    PInt(Unsigned),
    /// A negative number wrapping its magnitude.
    NInt(Unsigned),
}

impl Integer {
    /// A positive or negative integer must wrap a non-zero magnitude.
    pub open spec fn inv(self) -> bool {
        match self {
            Integer::Z0 => true,
            Integer::PInt(m) => m.value > 0,
            Integer::NInt(m) => m.value > 0,
        }
    }

    /// The numeric value of the integer.
    pub open spec fn val(self) -> int {
        match self {
            Integer::Z0 => 0,
            Integer::PInt(m) => m.value as int,
            Integer::NInt(m) => -(m.value as int),
        }
    }

    /// The magnitude of the integer.
    pub open spec fn magnitude(self) -> nat {
        match self {
            Integer::Z0 => 0,
            Integer::PInt(m) => m.value as nat,
            Integer::NInt(m) => m.value as nat,
        }
    }

    /// The integer whose numeric value is `v`.
    pub open spec fn of_int(v: int) -> Integer {
        if v == 0 {
            Integer::Z0
        } else if v > 0 {
            Integer::PInt(Unsigned { value: v as u64 })
        } else {
            Integer::NInt(Unsigned { value: (-v) as u64 })
        }
    }

    /// The negation of the integer, as a value.
    pub open spec fn spec_neg(self) -> Integer {
        match self {
            Integer::Z0 => Integer::Z0,
            Integer::PInt(m) => Integer::NInt(m),
            Integer::NInt(m) => Integer::PInt(m),
        }
    }

    /// The absolute value of the integer, as a value.
    pub open spec fn spec_abs(self) -> Integer {
        match self {
            Integer::NInt(m) => Integer::PInt(m),
            _ => self,
        }
    }

    /// Negates the integer.
    pub fn neg(self) -> (r: Integer)
        ensures
            r == self.spec_neg(),
    {
        match self {
            Integer::Z0 => Integer::Z0,
            Integer::PInt(m) => Integer::NInt(m),
            Integer::NInt(m) => Integer::PInt(m),
        }
    }

    /// Takes the absolute value of the integer.
    pub fn abs(self) -> (r: Integer)
        ensures
            r == self.spec_abs(),
    {
        match self {
            Integer::NInt(m) => Integer::PInt(m),
            other => other,
        }
    }

    /// Adds two integers.
    pub fn add(self, rhs: Integer) -> (r: Integer)
        requires
            self.inv(),
            rhs.inv(),
            -(u64::MAX as int) <= self.val() + rhs.val() <= u64::MAX as int,
        ensures
            r == Integer::of_int(self.val() + rhs.val()),
    {
        proof {
            lemma_integer_of_val(self);
            lemma_integer_of_val(rhs);
        }
        match (self, rhs) {
            (Integer::Z0, b) => b,
            (a, Integer::Z0) => a,
            (Integer::PInt(m1), Integer::PInt(m2)) => Integer::PInt(
                Unsigned { value: m1.value + m2.value },
            ),
            (Integer::NInt(m1), Integer::NInt(m2)) => Integer::NInt(
                Unsigned { value: m1.value + m2.value },
            ),
            (Integer::PInt(m1), Integer::NInt(m2)) => {
                if m1.value > m2.value {
                    Integer::PInt(Unsigned { value: m1.value - m2.value })
                } else if m1.value < m2.value {
                    Integer::NInt(Unsigned { value: m2.value - m1.value })
                } else {
                    Integer::Z0
                }
            },
            (Integer::NInt(m1), Integer::PInt(m2)) => {
                if m2.value > m1.value {
                    Integer::PInt(Unsigned { value: m2.value - m1.value })
                } else if m2.value < m1.value {
                    Integer::NInt(Unsigned { value: m1.value - m2.value })
                } else {
                    Integer::Z0
                }
            },
        }
    }

    /// Multiplies two integers.
    pub fn mul(self, rhs: Integer) -> (r: Integer)
        requires
            self.inv(),
            rhs.inv(),
            -(u64::MAX as int) <= self.val() * rhs.val() <= u64::MAX as int,
        ensures
            r == Integer::of_int(self.val() * rhs.val()),
    {
        match (self, rhs) {
            (Integer::Z0, _) => {
                proof {
                    assert(0 * rhs.val() == 0) by (nonlinear_arith);
                }
                Integer::Z0
            },
            (_, Integer::Z0) => {
                proof {
                    assert(self.val() * 0 == 0) by (nonlinear_arith);
                }
                Integer::Z0
            },
            (Integer::PInt(m1), Integer::PInt(m2)) => {
                proof {
                    lemma_mag_product(m1.value, m2.value);
                    assert(self.val() * rhs.val() == m1.value as int * m2.value as int);
                }
                Integer::PInt(Unsigned { value: m1.value * m2.value })
            },
            (Integer::PInt(m1), Integer::NInt(m2)) => {
                proof {
                    lemma_mag_product(m1.value, m2.value);
                    assert(self.val() * rhs.val() == -(m1.value as int * m2.value as int));
                }
                Integer::NInt(Unsigned { value: m1.value * m2.value })
            },
            (Integer::NInt(m1), Integer::PInt(m2)) => {
                proof {
                    lemma_mag_product(m1.value, m2.value);
                    assert(self.val() * rhs.val() == -(m1.value as int * m2.value as int));
                }
                Integer::NInt(Unsigned { value: m1.value * m2.value })
            },
            (Integer::NInt(m1), Integer::NInt(m2)) => {
                proof {
                    lemma_mag_product(m1.value, m2.value);
                    assert(self.val() * rhs.val() == m1.value as int * m2.value as int);
                }
                Integer::PInt(Unsigned { value: m1.value * m2.value })
            },
        }
    }
}

/// A well-formed integer is the integer of its own value.
pub proof fn lemma_integer_of_val(i: Integer)
    requires
        i.inv(),
    ensures
        Integer::of_int(i.val()) == i,
{
}

/// Within the machine range, `of_int` is exact: well-formed, with the given
/// value, and with the value's absolute value as magnitude.
pub proof fn lemma_of_int_val(v: int)
    requires
        -(u64::MAX as int) <= v <= u64::MAX as int,
    ensures
        Integer::of_int(v).inv(),
        Integer::of_int(v).val() == v,
        Integer::of_int(v).magnitude() == (if v >= 0 { v } else { -v }),
{
}

/// Scaling an integer's value by a non-negative factor stays within the
/// correspondingly scaled magnitude.
pub proof fn lemma_val_times_nonneg(n: Integer, x: int)
    requires
        x >= 0,
    ensures
        -(n.magnitude() * x) <= n.val() * x <= n.magnitude() * x,
{
    assert(n.val() == n.magnitude() as int || n.val() == -(n.magnitude() as int));
    assert(-(n.magnitude() * x) <= n.val() * x <= n.magnitude() * x) by (nonlinear_arith)
        requires
            x >= 0,
            n.val() == n.magnitude() as int || n.val() == -(n.magnitude() as int),
    ;
}

/// The product of two integers' values stays within the product of their
/// magnitudes.
pub proof fn lemma_val_times_val(a: Integer, b: Integer)
    ensures
        -(a.magnitude() * b.magnitude()) <= a.val() * b.val() <= a.magnitude() * b.magnitude(),
{
    assert(a.val() == a.magnitude() as int || a.val() == -(a.magnitude() as int));
    assert(b.val() == b.magnitude() as int || b.val() == -(b.magnitude() as int));
    assert(-(a.magnitude() * b.magnitude()) <= a.val() * b.val()
        <= a.magnitude() * b.magnitude()) by (nonlinear_arith)
        requires
            a.val() == a.magnitude() as int || a.val() == -(a.magnitude() as int),
            b.val() == b.magnitude() as int || b.val() == -(b.magnitude() as int),
    ;
}

/// Helper for the sign cases of multiplication: the product of two positive
/// magnitudes is positive, and negating either factor negates the product.
proof fn lemma_mag_product(m1: u64, m2: u64)
    requires
        m1 > 0,
        m2 > 0,
    ensures
        m1 as int * m2 as int > 0,
        m1 as int * (-(m2 as int)) == -(m1 as int * m2 as int),
        (-(m1 as int)) * (m2 as int) == -(m1 as int * m2 as int),
        (-(m1 as int)) * (-(m2 as int)) == m1 as int * m2 as int,
{
    assert(m1 as int * m2 as int > 0
        && m1 as int * (-(m2 as int)) == -(m1 as int * m2 as int)
        && (-(m1 as int)) * (m2 as int) == -(m1 as int * m2 as int)
        && (-(m1 as int)) * (-(m2 as int)) == m1 as int * m2 as int) by (nonlinear_arith)
        requires m1 > 0, m2 > 0,
    ;
}

/// The outcome of comparing two numbers.
#[derive(Clone, Copy, Debug, PartialEq, Eq, Structural)]
pub enum Comparison {
    /// The left-hand side is smaller.
    Less,
    /// Both sides denote the same number.
    Equal,
    /// The left-hand side is larger.
    Greater,
}

} // verus!
