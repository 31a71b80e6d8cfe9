//! Exact ratios of counts.

use vstd::prelude::*;

verus! {

/// A ratio of two counts.
#[derive(Debug, Clone, Copy, PartialEq, Eq)]
pub struct Ratio {
    pub numerator: u128,
    pub denominator: u64,
}

impl Ratio {
    /// `self >= other`, as fractions.
    pub open spec fn ge_spec(self, other: Ratio) -> bool {
        self.numerator * other.denominator >= other.numerator * self.denominator
    }

    /// `self > other`, as fractions.
    pub open spec fn gt_spec(self, other: Ratio) -> bool {
        !other.ge_spec(self)
    }

    /// Whether this ratio is at least the other.
    pub fn at_least(&self, other: &Ratio) -> (r: bool)
        requires
            self.denominator > 0,
            other.denominator > 0,
        ensures
            r == self.ge_spec(*other),
    {
        let b: u128 = self.denominator as u128;
        let d: u128 = other.denominator as u128;
        let q1: u128 = self.numerator / b;
        let r1: u128 = self.numerator % b;
        let q2: u128 = other.numerator / d;
        let r2: u128 = other.numerator % d;
        proof {
            lemma_compare(self.numerator as int, b as int, other.numerator as int, d as int);
            vstd::arithmetic::mul::lemma_mul_upper_bound(
                r1 as int,
                0xFFFF_FFFF_FFFF_FFFF,
                d as int,
                0xFFFF_FFFF_FFFF_FFFF,
            );
            vstd::arithmetic::mul::lemma_mul_upper_bound(
                r2 as int,
                0xFFFF_FFFF_FFFF_FFFF,
                b as int,
                0xFFFF_FFFF_FFFF_FFFF,
            );
        }
        if q1 != q2 {
            q1 > q2
        } else {
            r1 * d >= r2 * b
        }
    }
}

/// Fractions compare as their whole parts do, and as the remainders do where
/// the whole parts are equal.
proof fn lemma_compare(a: int, b: int, c: int, d: int)
    requires
        a >= 0,
        b > 0,
        c >= 0,
        d > 0,
    ensures
        a / b > c / d ==> a * d >= c * b,
        a / b < c / d ==> a * d < c * b,
        a / b == c / d ==> (a * d >= c * b <==> (a % b) * d >= (c % d) * b),
{
    let q1 = a / b;
    let r1 = a % b;
    let q2 = c / d;
    let r2 = c % d;
    vstd::arithmetic::div_mod::lemma_fundamental_div_mod(a, b);
    vstd::arithmetic::div_mod::lemma_fundamental_div_mod(c, d);
    assert(a * d == q1 * b * d + r1 * d) by (nonlinear_arith)
        requires
            a == b * q1 + r1,
    ;
    assert(c * b == q2 * b * d + r2 * b) by (nonlinear_arith)
        requires
            c == d * q2 + r2,
    ;
    assert(0 <= r1 * d < b * d) by (nonlinear_arith)
        requires
            0 <= r1 < b,
            d > 0,
    ;
    assert(0 <= r2 * b < b * d) by (nonlinear_arith)
        requires
            0 <= r2 < d,
            b > 0,
    ;
    if q1 > q2 {
        assert(q1 * b * d >= q2 * b * d + b * d) by (nonlinear_arith)
            requires
                q1 >= q2 + 1,
                b > 0,
                d > 0,
        ;
    }
    if q1 < q2 {
        assert(q2 * b * d >= q1 * b * d + b * d) by (nonlinear_arith)
            requires
                q2 >= q1 + 1,
                b > 0,
                d > 0,
        ;
    }
}

/// Ratios compare as fractions do: with equal denominators by their numerators, with
/// equal numerators the smaller denominator is greater, and one of two is at least the
/// other.
pub proof fn ratios_compare_as_fractions(a: Ratio, b: Ratio, k: u64)
    requires
        a.denominator > 0,
        b.denominator > 0,
    ensures
        a.denominator == b.denominator ==> (a.ge_spec(b) <==> a.numerator >= b.numerator),
        a.numerator == b.numerator && a.denominator <= b.denominator ==> a.ge_spec(b),
        a.ge_spec(b) || b.ge_spec(a),
        a.gt_spec(b) ==> a.ge_spec(b),
        !a.gt_spec(a),
        b.denominator == 1 && b.numerator == k ==> (a.ge_spec(b) <==> a.numerator
            >= k * a.denominator),
{
    assert(a.denominator == b.denominator ==> (a.numerator * b.denominator >= b.numerator
        * a.denominator <==> a.numerator >= b.numerator)) by (nonlinear_arith)
        requires
            a.denominator > 0,
    ;
    assert(a.numerator == b.numerator && a.denominator <= b.denominator ==> a.numerator
        * b.denominator >= b.numerator * a.denominator) by (nonlinear_arith);
}

} // verus!
