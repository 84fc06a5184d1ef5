//! How arithmetic keeps the order of numbers.

use crate::num::constants::{ONE, ZERO};
use crate::num::double::{lemma_add_zero, lemma_order_is_numeric, of_int, ONE_EXPONENT};
use crate::num::rounding::{
    lemma_round_at_least, lemma_round_at_most, lemma_round_exact, lemma_round_monotone, lemma_round_scale,
    lemma_units_at, lemma_units_increase, units, BINADE,
};
use crate::num::Double;
use vstd::arithmetic::power2::{lemma2_to64_rest, lemma_pow2_adds, lemma_pow2_pos, pow2};
use vstd::prelude::*;

verus! {

/// A number that is above zero.
pub open spec fn positive(x: Double) -> bool {
    (Double { bits: ZERO }).lt_spec(x)
}

/// The negative of a number lies as far on the other side of zero.
pub proof fn lemma_neg_turns(a: Double)
    ensures
        a.neg_spec().place() == -a.place(),
        a.neg_spec().nan() == a.nan(),
        a.neg_spec().finite() == a.finite(),
        a.finite() ==> a.neg_spec().value() == -a.value(),
        a.neg_spec().neg_spec() == a,
{
}

/// A difference lies on the side of zero on which the first number lies of the
/// second.
pub proof fn lemma_sub_tells_the_larger(a: Double, b: Double)
    requires
        !a.sub_spec(b).nan(),
    ensures
        !a.nan(),
        !b.nan(),
        b.lt_spec(a) ==> positive(a.sub_spec(b)),
        a.lt_spec(b) ==> a.sub_spec(b).lt_spec(Double { bits: ZERO }),
        a.finite() && a.eq_spec(b) ==> a.sub_spec(b).zero(),
{
    lemma_neg_turns(b);
    if a.finite() && b.finite() {
        lemma_order_is_numeric(a, b);
        lemma_order_is_numeric(b, a);
        let k = a.value() - b.value();
        if k > 0 {
            lemma_round_at_least(k as nat, 1, 1);
        } else if k < 0 {
            lemma_round_at_least((-k) as nat, 1, 1);
        }
    }
}

/// A difference grows with its first number and falls with its second.
pub proof fn lemma_sub_monotone(a: Double, b: Double, c: Double, d: Double)
    requires
        a.le_spec(b),
        d.le_spec(c),
        !a.sub_spec(c).nan(),
        !b.sub_spec(d).nan(),
    ensures
        a.sub_spec(c).le_spec(b.sub_spec(d)),
{
    lemma_neg_turns(c);
    lemma_neg_turns(d);
    if a.finite() && b.finite() && c.finite() && d.finite() {
        lemma_order_is_numeric(a, b);
        lemma_order_is_numeric(d, c);
        let x = a.value() - c.value();
        let y = b.value() - d.value();
        if 0 < x {
            lemma_round_monotone(x as nat, y as nat, 1);
        } else if y < 0 {
            lemma_round_monotone((-y) as nat, (-x) as nat, 1);
        }
    }
}

/// A sum grows with both of its numbers.
pub proof fn lemma_sum_monotone(a: Double, b: Double, c: Double, d: Double)
    requires
        a.le_spec(b),
        c.le_spec(d),
        !a.add_spec(c).nan(),
        !b.add_spec(d).nan(),
    ensures
        a.add_spec(c).le_spec(b.add_spec(d)),
{
    lemma_neg_turns(c);
    lemma_neg_turns(d);
    lemma_sub_monotone(a, b, c.neg_spec(), d.neg_spec());
}

/// The product with a number that is not negative grows with the other one.
pub proof fn lemma_product_monotone(a: Double, b: Double, c: Double)
    requires
        a.le_spec(b),
        c.finite(),
        !c.negative(),
        !a.mul_spec(c).nan(),
        !b.mul_spec(c).nan(),
    ensures
        a.mul_spec(c).le_spec(b.mul_spec(c)),
{
    let x = units(a.magnitude());
    let y = units(b.magnitude());
    let z = units(c.magnitude());
    let one = pow2(ONE_EXPONENT as nat);
    lemma_pow2_pos(ONE_EXPONENT as nat);
    if a.finite() && b.finite() {
        if a.magnitude() < b.magnitude() {
            lemma_units_increase(a.magnitude(), b.magnitude());
        } else if b.magnitude() < a.magnitude() {
            lemma_units_increase(b.magnitude(), a.magnitude());
        }
        assert(x <= y ==> x * z <= y * z) by (nonlinear_arith);
        assert(y <= x ==> y * z <= x * z) by (nonlinear_arith);
        if x * z <= y * z {
            lemma_round_monotone(x * z, y * z, one);
        }
        if y * z <= x * z {
            lemma_round_monotone(y * z, x * z, one);
        }
        assert(x == 0 ==> x * z == 0) by (nonlinear_arith);
        assert(y == 0 ==> y * z == 0) by (nonlinear_arith);
        assert(units(0) == 0);
        assert(0 * one == 0) by (nonlinear_arith);
        lemma_round_at_most(0, one, 0);
    }
}

/// A product of two numbers that are not negative is none either.
pub proof fn lemma_product_sign(a: Double, b: Double)
    requires
        !a.mul_spec(b).nan(),
    ensures
        a.negative() == b.negative() ==> (Double { bits: ZERO }).le_spec(a.mul_spec(b)),
        a.negative() != b.negative() ==> a.mul_spec(b).le_spec(Double { bits: ZERO }),
        (a.finite() && a.zero()) || (b.finite() && b.zero()) ==> a.mul_spec(b).zero(),
{
    let one = pow2(ONE_EXPONENT as nat);
    lemma_pow2_pos(ONE_EXPONENT as nat);
    assert(units(0) == 0);
    assert(0 * units(b.magnitude()) == 0 && units(a.magnitude()) * 0 == 0 && 0 * one == 0) by (nonlinear_arith);
    lemma_round_at_most(0, one, 0);
}

/// A quotient by a positive number grows with what is divided.
pub proof fn lemma_quotient_monotone(a: Double, b: Double, c: Double)
    requires
        a.le_spec(b),
        c.finite(),
        positive(c),
    ensures
        a.div_spec(c).le_spec(b.div_spec(c)),
{
    let one = pow2(ONE_EXPONENT as nat);
    lemma_pow2_pos(ONE_EXPONENT as nat);
    let x = units(a.magnitude());
    let y = units(b.magnitude());
    let z = units(c.magnitude());
    lemma_units_increase(0, c.magnitude());
    if a.finite() && b.finite() {
        if a.magnitude() < b.magnitude() {
            lemma_units_increase(a.magnitude(), b.magnitude());
        } else if b.magnitude() < a.magnitude() {
            lemma_units_increase(b.magnitude(), a.magnitude());
        }
        assert(x <= y ==> x * one <= y * one) by (nonlinear_arith);
        assert(y <= x ==> y * one <= x * one) by (nonlinear_arith);
        if x <= y {
            lemma_round_monotone(x * one, y * one, z);
        }
        if y <= x {
            lemma_round_monotone(y * one, x * one, z);
        }
        assert(units(0) == 0);
        assert(0 * one == 0 && 0 * z == 0) by (nonlinear_arith);
        lemma_round_at_most(0, z, 0);
    }
}

/// A quotient by a positive number lies on the side of zero of what is divided.
pub proof fn lemma_quotient_sign(a: Double, c: Double)
    requires
        !a.nan(),
        c.finite(),
        positive(c),
    ensures
        !a.div_spec(c).nan(),
        a.div_spec(c).negative() == a.negative(),
        (Double { bits: ZERO }).le_spec(a) ==> (Double { bits: ZERO }).le_spec(a.div_spec(c)),
        a.le_spec(Double { bits: ZERO }) ==> a.div_spec(c).le_spec(Double { bits: ZERO }),
        a.zero() ==> a.div_spec(c).zero(),
{
    let zero = Double { bits: ZERO };
    let one = pow2(ONE_EXPONENT as nat);
    let z = units(c.magnitude());
    lemma_units_increase(0, c.magnitude());
    assert(units(0) == 0);
    assert(0 * one == 0 && 0 * z == 0) by (nonlinear_arith);
    lemma_round_at_most(0, z, 0);
    assert(zero.div_spec(c) == zero);
    if zero.le_spec(a) {
        lemma_quotient_monotone(zero, a, c);
    }
    if a.le_spec(zero) {
        lemma_quotient_monotone(a, zero, c);
    }
}

/// One is worth `2^1074` units.
pub proof fn lemma_one()
    ensures
        units(ONE as nat) == pow2(ONE_EXPONENT as nat),
        pow2(ONE_EXPONENT as nat) > 0,
        (Double { bits: ONE }).value() == pow2(ONE_EXPONENT as nat),
        (Double { bits: ONE }).finite(),
        positive(Double { bits: ONE }),
        of_int(1) == (Double { bits: ONE }),
{
    lemma_units_at(ONE as nat, 1022, BINADE as nat);
    lemma2_to64_rest();
    lemma_pow2_adds(52, 1022);
    lemma_pow2_pos(ONE_EXPONENT as nat);
    lemma_round_exact(ONE as nat);
    assert(1 * pow2(ONE_EXPONENT as nat) == pow2(ONE_EXPONENT as nat)) by (nonlinear_arith);
}

/// Dividing by one and multiplying by one change nothing.
pub proof fn lemma_one_is_neutral(a: Double)
    requires
        !a.nan(),
    ensures
        a.div_spec(Double { bits: ONE }) == a,
        a.mul_spec(Double { bits: ONE }) == a,
{
    lemma_one();
    let one = pow2(ONE_EXPONENT as nat);
    if a.finite() {
        let x = units(a.magnitude());
        lemma_round_exact(a.magnitude());
        lemma_round_scale(x, 1, one);
        assert(1 * one == one) by (nonlinear_arith);
    }
}

/// Zero taken from a number, or added to one, changes nothing.
pub proof fn lemma_zero_is_neutral(a: Double)
    requires
        !a.nan(),
    ensures
        a.sub_spec(Double { bits: ZERO }).eq_spec(a),
        a.add_spec(Double { bits: ZERO }).eq_spec(a),
        (Double { bits: ZERO }).add_spec(a).eq_spec(a),
        !a.zero() ==> (Double { bits: ZERO }).add_spec(a) == a && a.sub_spec(Double { bits: ZERO }) == a && a.add_spec(
            Double { bits: ZERO },
        ) == a,
{
    let zero = Double { bits: ZERO };
    if a.finite() {
        lemma_add_zero(a, zero);
        lemma_add_zero(a, zero.neg_spec());
    }
}

} // verus!
